//! The directory lister: from the record of a walk through a directory tree
//! to the ordered list of the image files found in it.
//!
//! The walk itself, which reads the file system, is the caller's. It hands
//! over what it met, visit by visit; which of the entries are shown, in what
//! order, and when the whole listing fails is decided here.

use vstd::prelude::*;
use crate::error::ImageError;
use crate::media::{is_recognized, recognized};
use crate::order::{
    arranged, is_sorted_by, is_stable_order, pair_keys, pair_values, sorted_by_key,
    sorting_is_unique, sorting_keeps_and_orders, texts_of,
};
use crate::text::ordinal_lt;

verus! {

/// The least depth below the root at which files are shown; the root itself
/// is at depth 0.
pub const MIN_DEPTH: usize = 1;

/// The greatest depth below the root at which files are shown.
pub const MAX_DEPTH: usize = 3;

/// What the walk saw of one file system entry.
#[derive(Debug, PartialEq, Eq)]
pub struct WalkedEntry {
    /// The entry's path, as the file system writes it.
    pub path: String,
    /// The last component of the path, where it has one that is valid text.
    pub file_name: Option<String>,
    /// The extension of the file name, where it has one that is valid text.
    pub extension: Option<String>,
    /// How many levels below the root the entry lies.
    pub depth: usize,
    /// The entry is a regular file.
    pub is_file: bool,
}

/// The mathematical content of a [`WalkedEntry`].
pub ghost struct WalkedModel {
    pub path: Seq<char>,
    pub file_name: Option<Seq<char>>,
    pub extension: Option<Seq<char>>,
    pub depth: nat,
    pub is_file: bool,
}

/// The text of a string that may be absent.
pub open spec fn text_of(s: Option<String>) -> Option<Seq<char>> {
    match s {
        Some(s) => Some(s@),
        None => None,
    }
}

impl View for WalkedEntry {
    type V = WalkedModel;

    open spec fn view(&self) -> WalkedModel {
        WalkedModel {
            path: self.path@,
            file_name: text_of(self.file_name),
            extension: text_of(self.extension),
            depth: self.depth as nat,
            is_file: self.is_file,
        }
    }
}

/// The models of a vector of walked entries.
pub open spec fn walked_models(entries: Seq<WalkedEntry>) -> Seq<WalkedModel> {
    Seq::new(entries.len(), |i: int| entries[i]@)
}

/// The lowercase form of `text` by the rules of Unicode, which may differ
/// from it in length.
pub uninterp spec fn unicode_lowercase(text: Seq<char>) -> Seq<char>;

/// Calls `str::to_lowercase`. The result is a function of the text alone.
#[verifier::external_body]
fn lowercase(text: &str) -> (r: String)
    ensures
        r@ == unicode_lowercase(text@),
{
    text.to_lowercase()
}

/// The entry is shown: it is a regular file between one and three levels
/// below the root whose extension, in lowercase, is a recognized image
/// extension.
pub open spec fn is_shown(entry: WalkedModel) -> bool {
    &&& entry.is_file
    &&& MIN_DEPTH <= entry.depth <= MAX_DEPTH
    &&& entry.extension is Some
    &&& recognized(unicode_lowercase(entry.extension->0))
}

/// The key by which a shown entry is ordered: its file name in lowercase, the
/// empty name standing in where the entry has none.
pub open spec fn sort_key(entry: WalkedModel) -> Seq<char> {
    match entry.file_name {
        Some(name) => unicode_lowercase(name),
        None => unicode_lowercase(Seq::empty()),
    }
}

/// The test that picks the shown entries.
pub open spec fn shown_test() -> spec_fn(WalkedModel) -> bool {
    |e: WalkedModel| is_shown(e)
}

/// The shown entries, in the order in which the walk met them.
pub open spec fn shown(entries: Seq<WalkedModel>) -> Seq<WalkedModel> {
    entries.filter(shown_test())
}

/// The paths of `entries`, one for one.
pub open spec fn paths_of(entries: Seq<WalkedModel>) -> Seq<Seq<char>> {
    Seq::new(entries.len(), |i: int| entries[i].path)
}

/// The sort keys of `entries`, one for one.
pub open spec fn sort_keys_of(entries: Seq<WalkedModel>) -> Seq<Seq<char>> {
    Seq::new(entries.len(), |i: int| sort_key(entries[i]))
}

/// `paths` is the image listing of the walked `entries`: the paths of the
/// shown entries, in ascending ordinal order of their lowercase file names,
/// entries of the same lowercase name in the order in which the walk met them.
pub open spec fn is_path_listing(entries: Seq<WalkedModel>, paths: Seq<Seq<char>>) -> bool {
    is_sorted_by(paths_of(shown(entries)), sort_keys_of(shown(entries)), paths)
}

/// Visit `i` is the first at which the walk failed.
pub open spec fn is_first_failure(visits: Seq<Result<WalkedEntry, String>>, i: int) -> bool {
    &&& 0 <= i < visits.len()
    &&& visits[i] is Err
    &&& forall|j: int| 0 <= j < i ==> (#[trigger] visits[j]) is Ok
}

/// No visit of the walk failed.
pub open spec fn all_visited(visits: Seq<Result<WalkedEntry, String>>) -> bool {
    forall|j: int| 0 <= j < visits.len() ==> (#[trigger] visits[j]) is Ok
}

/// The entries that a walk without failure met, in its order.
pub open spec fn visited(visits: Seq<Result<WalkedEntry, String>>) -> Seq<WalkedModel> {
    Seq::new(visits.len(), |i: int| visits[i]->Ok_0@)
}

/// Appending an entry appends it to the shown entries where it is shown, and
/// leaves them alone where it is not.
proof fn shown_push(entries: Seq<WalkedModel>, entry: WalkedModel)
    ensures
        shown(entries.push(entry)) == if is_shown(entry) {
            shown(entries).push(entry)
        } else {
            shown(entries)
        },
{
    reveal(Seq::filter);
    assert(entries.push(entry).drop_last() =~= entries);
}

/// A path listing holds exactly the shown entries, ordered by lowercase file
/// name. Some one-to-one assignment of the listing's positions to the shown
/// entries gives each position the path of its entry, runs through the keys
/// in ascending order, and runs through entries of equal keys in the order
/// of the walk. Every entry so assigned is among those walked and is a
/// regular file at depth one to three with a recognized extension; files
/// outside those depths, and the root itself, never appear.
pub proof fn path_listing_is_exact(entries: Seq<WalkedModel>, paths: Seq<Seq<char>>)
    requires
        is_path_listing(entries, paths),
    ensures
        paths.len() == shown(entries).len(),
        forall|j: int|
            0 <= j < shown(entries).len() ==> is_shown(#[trigger] shown(entries)[j])
                && entries.contains(shown(entries)[j]),
        forall|i: int|
            0 <= i < entries.len() && is_shown(#[trigger] entries[i]) ==> shown(entries).contains(
                entries[i],
            ),
        exists|order: Seq<int>|
            {
                &&& order.len() == paths.len()
                &&& forall|k: int|
                    0 <= k < order.len() ==> 0 <= #[trigger] order[k] < shown(entries).len()
                        && paths[k] == shown(entries)[order[k]].path
                &&& forall|j: int| 0 <= j < shown(entries).len() ==> #[trigger] order.contains(j)
                &&& forall|a: int, b: int|
                    0 <= a < b < order.len() ==> #[trigger] order[a] != #[trigger] order[b]
                &&& forall|a: int, b: int|
                    0 <= a < b < order.len() ==> !ordinal_lt(
                        sort_key(shown(entries)[#[trigger] order[b]]),
                        sort_key(shown(entries)[#[trigger] order[a]]),
                    )
                &&& forall|a: int, b: int|
                    0 <= a < b < order.len() && sort_key(shown(entries)[#[trigger] order[a]])
                        == sort_key(shown(entries)[#[trigger] order[b]]) ==> order[a] < order[b]
            },
{
    let kept = shown(entries);
    let keys = sort_keys_of(kept);
    let order = choose|order: Seq<int>|
        is_stable_order(keys, order) && paths == arranged(paths_of(kept), order);
    sorting_keeps_and_orders(keys, order);
    assert forall|j: int| 0 <= j < kept.len() implies is_shown(#[trigger] kept[j])
        && entries.contains(kept[j]) by {
        entries.lemma_filter_pred(shown_test(), j);
        assert(kept.contains(kept[j]));
        entries.lemma_filter_contains_rev(shown_test(), kept[j]);
    }
    assert forall|i: int|
        0 <= i < entries.len() && is_shown(#[trigger] entries[i]) implies kept.contains(
        entries[i],
    ) by {
        entries.lemma_filter_contains(shown_test(), i);
    }
    assert forall|a: int, b: int|
        0 <= a < b < order.len() && sort_key(kept[#[trigger] order[a]]) == sort_key(
            kept[#[trigger] order[b]],
        ) implies order[a] < order[b] by {
        crate::text::ordinal_lt_irreflexive(keys[order[a]]);
    }
    assert forall|a: int, b: int| 0 <= a < b < order.len() implies !ordinal_lt(
        sort_key(kept[#[trigger] order[b]]),
        sort_key(kept[#[trigger] order[a]]),
    ) by {
        assert(!ordinal_lt(keys[order[b]], keys[order[a]]));
    }
}

/// The walked entries decide their path listing: two listings of the same
/// entries are the same listing.
pub proof fn path_listing_is_unique(entries: Seq<WalkedModel>, a: Seq<Seq<char>>, b: Seq<Seq<char>>)
    requires
        is_path_listing(entries, a),
        is_path_listing(entries, b),
    ensures
        a == b,
{
    sorting_is_unique(paths_of(shown(entries)), sort_keys_of(shown(entries)), a, b);
}

/// Tells whether the walked entry is shown.
fn shows(entry: &WalkedEntry) -> (r: bool)
    ensures
        r == is_shown(entry@),
{
    if !entry.is_file || entry.depth < MIN_DEPTH || entry.depth > MAX_DEPTH {
        return false;
    }
    match &entry.extension {
        Some(ext) => {
            let low = lowercase(ext.as_str());
            is_recognized(low.as_str())
        },
        None => false,
    }
}

/// Gives the key by which the walked entry is ordered.
fn key_for(entry: &WalkedEntry) -> (r: String)
    ensures
        r@ == sort_key(entry@),
{
    match &entry.file_name {
        Some(name) => lowercase(name.as_str()),
        None => {
            let r = lowercase("");
            proof {
                reveal_strlit("");
                assert(""@ =~= Seq::<char>::empty());
            }
            r
        },
    }
}

/// Selects, from the entries that a walk met, the regular files at depth one
/// to three whose extension is a recognized image extension in whatever
/// case, and gives their paths ordered by lowercase file name; files of the
/// same lowercase name keep the order in which the walk met them.
pub fn image_paths(entries: &Vec<WalkedEntry>) -> (paths: Vec<String>)
    ensures
        is_path_listing(walked_models(entries@), texts_of(paths@)),
{
    let ghost models = walked_models(entries@);
    let mut records: Vec<(String, String)> = Vec::new();
    let mut i: usize = 0;
    proof {
        reveal(Seq::filter);
        assert(pair_keys(records@) =~= sort_keys_of(shown(models.take(0))));
        assert(pair_values(records@) =~= paths_of(shown(models.take(0))));
    }
    while i < entries.len()
        invariant
            i <= entries.len(),
            models == walked_models(entries@),
            pair_keys(records@) == sort_keys_of(shown(models.take(i as int))),
            pair_values(records@) == paths_of(shown(models.take(i as int))),
        decreases entries.len() - i,
    {
        let entry = &entries[i];
        proof {
            assert(models.take(i + 1) =~= models.take(i as int).push(models[i as int]));
            shown_push(models.take(i as int), models[i as int]);
        }
        let ghost keys = pair_keys(records@);
        let ghost values = pair_values(records@);
        if shows(entry) {
            let key = key_for(entry);
            records.push((key, entry.path.clone()));
            assert(pair_keys(records@) =~= keys.push(sort_key(entry@)));
            assert(pair_values(records@) =~= values.push(entry@.path));
            assert(sort_keys_of(shown(models.take(i + 1))) =~= keys.push(sort_key(entry@)));
            assert(paths_of(shown(models.take(i + 1))) =~= values.push(entry@.path));
        }
        i += 1;
    }
    assert(models.take(i as int) =~= models);
    sorted_by_key(&records)
}

/// Lists the image files that a walk through a directory tree met.
///
/// `root_exists` says whether the path that was to be walked exists, and
/// `visits` holds, in the order of the walk, each entry that it met or the
/// description of the failure that it met instead. The call fails with
/// `NotFound` exactly when the root does not exist, and otherwise with `Io`,
/// carrying the first failure's description, exactly when some visit failed:
/// a walk that failed part of the way yields no listing at all. Where nothing
/// failed the result is the listing of the entries, as [`image_paths`] gives
/// it.
pub fn list_images_in_dir(
    root_exists: bool,
    visits: Vec<Result<WalkedEntry, String>>,
) -> (r: Result<Vec<String>, ImageError>)
    ensures
        match r {
            Ok(paths) => {
                &&& root_exists
                &&& all_visited(visits@)
                &&& is_path_listing(visited(visits@), texts_of(paths@))
            },
            Err(ImageError::NotFound) => !root_exists,
            Err(ImageError::Io(text)) => root_exists && exists|i: int|
                is_first_failure(visits@, i) && #[trigger] visits@[i]->Err_0@ == text@,
            Err(_) => false,
        },
{
    if !root_exists {
        return Err(ImageError::NotFound);
    }
    let ghost all = visits@;
    let mut entries: Vec<WalkedEntry> = Vec::new();
    for visit in it: visits
        invariant
            root_exists,
            it.seq() == all,
            all == visits@,
            entries.len() == it.index(),
            forall|j: int| 0 <= j < it.index() ==> (#[trigger] all[j]) is Ok,
            forall|j: int| 0 <= j < it.index() ==> (#[trigger] entries@[j])@ == all[j]->Ok_0@,
    {
        assert(visit == all[it.index() as int]);
        match visit {
            Ok(entry) => {
                entries.push(entry);
            },
            Err(text) => {
                assert(is_first_failure(all, it.index() as int));
                assert(all[it.index() as int]->Err_0@ == text@);
                return Err(ImageError::Io(text));
            },
        }
    }
    assert(walked_models(entries@) =~= visited(all));
    Ok(image_paths(&entries))
}

} // verus!
