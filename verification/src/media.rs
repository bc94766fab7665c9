//! The image-type classifier shared by the listers and the extractor: which
//! extensions count as images, and which MIME type each of them stands for.
//!
//! An extension is the text after the last `.` of a name; a name without a
//! `.` has none. The table itself is in lowercase, and callers fold case
//! before they consult it.

use vstd::prelude::*;
use vstd::string::StrSliceExecFns;
use crate::text::{ascii_lowercase, chars_of, to_ascii_lower};

verus! {

/// The MIME type reported for anything that is not a recognized image.
pub open spec fn fallback_mime() -> Seq<char> {
    "application/octet-stream"@
}

/// The MIME type that the table gives for the lowercase extension `ext`.
pub open spec fn mime_of(ext: Seq<char>) -> Seq<char> {
    if ext == "jpg"@ || ext == "jpeg"@ {
        "image/jpeg"@
    } else if ext == "png"@ {
        "image/png"@
    } else if ext == "gif"@ {
        "image/gif"@
    } else if ext == "webp"@ {
        "image/webp"@
    } else if ext == "avif"@ {
        "image/avif"@
    } else if ext == "bmp"@ {
        "image/bmp"@
    } else {
        fallback_mime()
    }
}

/// `ext` is one of the recognized image extensions, in lowercase.
pub open spec fn recognized(ext: Seq<char>) -> bool {
    ext == "jpg"@ || ext == "jpeg"@ || ext == "png"@ || ext == "gif"@ || ext == "webp"@ || ext
        == "avif"@ || ext == "bmp"@
}

/// The position of the last `.` in `name`, or -1 where it holds none.
pub open spec fn last_dot(name: Seq<char>) -> int
    decreases name.len(),
{
    if name.len() == 0 {
        -1
    } else if name.last() == '.' {
        name.len() - 1
    } else {
        last_dot(name.drop_last())
    }
}

/// The text after the last `.` of `name`, if it holds a `.` at all.
pub open spec fn extension_of(name: Seq<char>) -> Option<Seq<char>> {
    if last_dot(name) < 0 {
        None
    } else {
        Some(name.skip(last_dot(name) + 1))
    }
}

/// `name` ends in a recognized image extension, in whatever ASCII case.
pub open spec fn names_image(name: Seq<char>) -> bool {
    match extension_of(name) {
        Some(ext) => recognized(ascii_lowercase(ext)),
        None => false,
    }
}

/// The MIME type inferred from the extension of `name` alone.
pub open spec fn mime_of_name(name: Seq<char>) -> Seq<char> {
    match extension_of(name) {
        Some(ext) => mime_of(ascii_lowercase(ext)),
        None => fallback_mime(),
    }
}

/// `last_dot` finds a `.`, and no `.` stands after it; it gives -1 exactly
/// when the name holds none.
pub proof fn last_dot_is_last(name: Seq<char>)
    ensures
        -1 <= last_dot(name) < name.len(),
        last_dot(name) >= 0 ==> name[last_dot(name)] == '.',
        forall|j: int| last_dot(name) < j < name.len() ==> name[j] != '.',
    decreases name.len(),
{
    if name.len() > 0 && name.last() != '.' {
        let head = name.drop_last();
        last_dot_is_last(head);
        assert forall|j: int| last_dot(name) < j < name.len() implies name[j] != '.' by {
            if j < head.len() {
                assert(head[j] == name[j]);
            }
        }
    }
}

/// The recognized extensions are exactly those that the table maps to an
/// image type; every other text gets the fallback type.
pub proof fn recognized_iff_image_type(ext: Seq<char>)
    ensures
        recognized(ext) <==> mime_of(ext) != fallback_mime(),
        !recognized(ext) ==> mime_of(ext) == fallback_mime(),
        recognized(ext) ==> mime_of(ext).take(6) == "image/"@,
{
    reveal_strlit("application/octet-stream");
    reveal_strlit("image/");
    reveal_strlit("image/jpeg");
    reveal_strlit("image/png");
    reveal_strlit("image/gif");
    reveal_strlit("image/webp");
    reveal_strlit("image/avif");
    reveal_strlit("image/bmp");
    if recognized(ext) {
        assert(mime_of(ext).take(6) =~= "image/"@);
        assert(mime_of(ext)[0] == 'i');
        assert(fallback_mime()[0] == 'a');
    }
}

/// A name that counts as an image gets an image MIME type, never the fallback.
pub proof fn image_names_get_image_types(name: Seq<char>)
    requires
        names_image(name),
    ensures
        mime_of_name(name) != fallback_mime(),
        mime_of_name(name).take(6) == "image/"@,
{
    recognized_iff_image_type(ascii_lowercase(extension_of(name)->0));
}

/// Tells whether two character vectors hold the same text.
fn same_text(a: &Vec<char>, b: &Vec<char>) -> (r: bool)
    ensures
        r == (a@ == b@),
{
    if a.len() != b.len() {
        return false;
    }
    let mut i: usize = 0;
    while i < a.len()
        invariant
            a.len() == b.len(),
            i <= a.len(),
            forall|k: int| 0 <= k < i ==> a@[k] == b@[k],
        decreases a.len() - i,
    {
        if a[i] != b[i] {
            return false;
        }
        i += 1;
    }
    assert(a@ =~= b@);
    true
}

/// Tells whether `ext` reads exactly as `word`.
fn reads_as(ext: &Vec<char>, word: &str) -> (r: bool)
    ensures
        r == (ext@ == word@),
{
    let w = chars_of(word);
    same_text(ext, &w)
}

/// Looks `ext` up in the table, character for character.
fn table_entry(ext: &Vec<char>) -> (r: &'static str)
    ensures
        r@ == mime_of(ext@),
{
    if reads_as(ext, "jpg") || reads_as(ext, "jpeg") {
        "image/jpeg"
    } else if reads_as(ext, "png") {
        "image/png"
    } else if reads_as(ext, "gif") {
        "image/gif"
    } else if reads_as(ext, "webp") {
        "image/webp"
    } else if reads_as(ext, "avif") {
        "image/avif"
    } else if reads_as(ext, "bmp") {
        "image/bmp"
    } else {
        "application/octet-stream"
    }
}

/// Tells whether `ext` is in the set, character for character.
fn in_set(ext: &Vec<char>) -> (r: bool)
    ensures
        r == recognized(ext@),
{
    reads_as(ext, "jpg") || reads_as(ext, "jpeg") || reads_as(ext, "png") || reads_as(ext, "gif")
        || reads_as(ext, "webp") || reads_as(ext, "avif") || reads_as(ext, "bmp")
}

/// Folds the ASCII capitals of `chars` to lowercase.
fn ascii_lowered(chars: &Vec<char>) -> (r: Vec<char>)
    ensures
        r@ == ascii_lowercase(chars@),
{
    let mut out: Vec<char> = Vec::new();
    let mut i: usize = 0;
    while i < chars.len()
        invariant
            i <= chars.len(),
            out.len() == i,
            forall|k: int| 0 <= k < i ==> out@[k] == crate::text::ascii_lower(chars@[k]),
        decreases chars.len() - i,
    {
        out.push(to_ascii_lower(chars[i]));
        i += 1;
    }
    assert(out@ =~= ascii_lowercase(chars@));
    out
}

/// Finds the last `.` among `chars`.
fn find_last_dot(chars: &Vec<char>) -> (r: Option<usize>)
    ensures
        match r {
            Some(d) => d as int == last_dot(chars@),
            None => last_dot(chars@) == -1,
        },
{
    let mut n: usize = chars.len();
    assert(chars@.take(n as int) =~= chars@);
    while n > 0
        invariant
            n <= chars.len(),
            last_dot(chars@) == last_dot(chars@.take(n as int)),
        decreases n,
    {
        let ghost head = chars@.take(n as int);
        assert(head.last() == chars@[n - 1]);
        assert(head.drop_last() =~= chars@.take(n - 1));
        if chars[n - 1] == '.' {
            return Some(n - 1);
        }
        n -= 1;
    }
    None
}

/// Tells whether the lowercase extension `ext` is a recognized image extension.
pub fn is_recognized(ext: &str) -> (r: bool)
    ensures
        r == recognized(ext@),
{
    let chars = chars_of(ext);
    in_set(&chars)
}

/// Gives the MIME type of the lowercase extension `ext`: its image type where
/// it is recognized, the fallback type otherwise.
pub fn mime_for_extension(ext: &str) -> (r: &'static str)
    ensures
        r@ == mime_of(ext@),
{
    let chars = chars_of(ext);
    table_entry(&chars)
}

/// Gives the extension of `name`: the text after its last `.`, which may be
/// empty, or `None` where the name holds no `.`.
pub fn extension<'a>(name: &'a str) -> (r: Option<&'a str>)
    ensures
        match r {
            Some(ext) => extension_of(name@) == Some(ext@),
            None => extension_of(name@) is None,
        },
{
    let chars = chars_of(name);
    match find_last_dot(&chars) {
        Some(d) => {
            proof {
                last_dot_is_last(name@);
            }
            let n: usize = chars.len();
            let ext = name.substring_char(d + 1, n);
            assert(name@.subrange(d + 1, n as int) =~= name@.skip(d + 1));
            Some(ext)
        },
        None => None,
    }
}

/// Tells whether `name` ends in a recognized image extension, in whatever
/// ASCII case.
pub fn is_image_name(name: &str) -> (r: bool)
    ensures
        r == names_image(name@),
{
    match extension(name) {
        Some(ext) => {
            let chars = chars_of(ext);
            let low = ascii_lowered(&chars);
            in_set(&low)
        },
        None => false,
    }
}

/// Infers a MIME type from the extension of `name`, folding ASCII case; the
/// content that the name stands for is never consulted.
pub fn mime_for_name(name: &str) -> (r: &'static str)
    ensures
        r@ == mime_of_name(name@),
{
    match extension(name) {
        Some(ext) => {
            let chars = chars_of(ext);
            let low = ascii_lowered(&chars);
            table_entry(&low)
        },
        None => "application/octet-stream",
    }
}

} // verus!
