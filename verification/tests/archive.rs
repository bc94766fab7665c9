use base64::Engine;
use image_shelf::archive::{
    extract_image, image_entry_names, image_payload, list_archive_images, list_images_in_zip,
    read_zip_image, ArchiveEntry,
};
use image_shelf::encoding::{encode, fits_encoding};
use image_shelf::error::ImageError;
use std::io::Write;

fn strings(words: &[&str]) -> Vec<String> {
    words.iter().map(|w| w.to_string()).collect()
}

fn stored() -> zip::write::FileOptions {
    zip::write::FileOptions::default().compression_method(zip::CompressionMethod::Stored)
}

fn deflated() -> zip::write::FileOptions {
    zip::write::FileOptions::default().compression_method(zip::CompressionMethod::Deflated)
}

fn archive_of(files: &[(&str, &[u8])], options: zip::write::FileOptions) -> Vec<u8> {
    let mut writer = zip::ZipWriter::new(std::io::Cursor::new(Vec::new()));
    for (name, content) in files {
        if name.ends_with('/') {
            writer.add_directory(*name, options).unwrap();
        } else {
            writer.start_file(*name, options).unwrap();
            writer.write_all(content).unwrap();
        }
    }
    writer.finish().unwrap().into_inner()
}

fn sample() -> Vec<u8> {
    archive_of(
        &[("img/Photo.PNG", b"png bytes"), ("readme.md", b"# notes"), ("a.jpg", b"jpeg bytes")],
        stored(),
    )
}

fn entry(name: &str, is_dir: bool) -> ArchiveEntry {
    ArchiveEntry { name: name.to_string(), is_dir }
}

fn decode(text: &str) -> Vec<u8> {
    base64::engine::general_purpose::STANDARD.decode(text).unwrap()
}

#[test]
fn archive_listing_is_sorted_without_folding_case() {
    assert_eq!(list_archive_images(sample()), Ok(strings(&["a.jpg", "img/Photo.PNG"])));
}

#[test]
fn archive_listing_through_the_read_outcome() {
    assert_eq!(list_images_in_zip(Ok(sample())), Ok(strings(&["a.jpg", "img/Photo.PNG"])));
}

#[test]
fn archive_listing_puts_capitals_first() {
    let data = archive_of(
        &[("b.png", b"1"), ("B.png", b"2"), ("a.png", b"3"), ("A.png", b"4"), ("Z.gif", b"5")],
        stored(),
    );
    assert_eq!(
        list_archive_images(data),
        Ok(strings(&["A.png", "B.png", "Z.gif", "a.png", "b.png"]))
    );
}

#[test]
fn archive_listing_leaves_directories_out() {
    let data = archive_of(
        &[("pics/", b""), ("pics.png/", b""), ("pics/one.gif", b"gif"), ("two.bmp", b"bmp")],
        deflated(),
    );
    assert_eq!(list_archive_images(data), Ok(strings(&["pics/one.gif", "two.bmp"])));
}

#[test]
fn archive_listing_leaves_names_without_extension_out() {
    let data = archive_of(
        &[("png", b"1"), ("jpg", b"2"), ("notes", b"3"), ("x.", b"4"), ("y.webp", b"5"), ("z.txt", b"6")],
        stored(),
    );
    assert_eq!(list_archive_images(data), Ok(strings(&["y.webp"])));
}

#[test]
fn archive_listing_of_an_empty_archive_is_empty() {
    assert_eq!(list_archive_images(archive_of(&[], stored())), Ok(Vec::new()));
}

#[test]
fn archive_listing_of_an_archive_without_images_is_empty() {
    let data = archive_of(&[("a.txt", b"a"), ("b/c.md", b"b")], deflated());
    assert_eq!(list_archive_images(data), Ok(Vec::new()));
}

#[test]
fn archive_listing_rejects_bytes_that_are_no_archive() {
    assert!(matches!(
        list_archive_images(b"this is no zip container at all".to_vec()),
        Err(ImageError::ArchiveFormat(_))
    ));
    assert!(matches!(list_archive_images(Vec::new()), Err(ImageError::ArchiveFormat(_))));
}

#[test]
fn archive_listing_rejects_a_truncated_archive() {
    let mut data = sample();
    data.truncate(data.len() / 2);
    assert!(matches!(list_archive_images(data), Err(ImageError::ArchiveFormat(_))));
}

#[test]
fn archive_listing_fails_when_an_entry_cannot_be_opened() {
    let mut data = sample();
    // The first local header starts the file; without its signature the
    // first entry of the directory cannot be opened.
    data[0] = 0;
    assert_eq!(
        list_archive_images(data),
        Err(ImageError::ArchiveFormat("invalid Zip archive: Invalid local file header".to_string()))
    );
}

#[test]
fn archive_listing_describes_why_bytes_do_not_open() {
    assert_eq!(
        list_archive_images(vec![0u8; 10]),
        Err(ImageError::ArchiveFormat("invalid Zip archive: Invalid zip header".to_string()))
    );
    assert_eq!(
        list_archive_images(vec![0u8; 100]),
        Err(ImageError::ArchiveFormat(
            "invalid Zip archive: Could not find central directory end".to_string()
        ))
    );
}

#[test]
fn archive_listing_reports_a_failed_read() {
    assert_eq!(
        list_images_in_zip(Err("No such file or directory (os error 2)".to_string())),
        Err(ImageError::Io("No such file or directory (os error 2)".to_string()))
    );
}

#[test]
fn entry_names_are_selected_and_sorted() {
    let entries = vec![
        entry("img/Photo.PNG", false),
        entry("readme.md", false),
        entry("a.jpg", false),
        entry("zoo/", true),
        entry("odd.png", true),
        entry("B.gif", false),
    ];
    assert_eq!(image_entry_names(&entries), strings(&["B.gif", "a.jpg", "img/Photo.PNG"]));
}

#[test]
fn entry_names_keep_repeated_names() {
    let entries = vec![entry("x.png", false), entry("a.png", false), entry("x.png", false)];
    assert_eq!(image_entry_names(&entries), strings(&["a.png", "x.png", "x.png"]));
}

#[test]
fn entry_names_of_nothing_are_empty() {
    assert_eq!(image_entry_names(&Vec::new()), Vec::<String>::new());
}

#[test]
fn extraction_gives_mime_type_and_base64_content() {
    let (mime, text) = extract_image(sample(), "a.jpg").unwrap();
    assert_eq!(mime, "image/jpeg");
    assert_eq!(text, "anBlZyBieXRlcw==");
    assert_eq!(decode(&text), b"jpeg bytes");
}

#[test]
fn extraction_through_the_read_outcome() {
    let (mime, text) = read_zip_image(Ok(sample()), "img/Photo.PNG").unwrap();
    assert_eq!(mime, "image/png");
    assert_eq!(decode(&text), b"png bytes");
}

#[test]
fn extraction_round_trips_deflated_content() {
    let mut content: Vec<u8> = Vec::new();
    for i in 0..5000u32 {
        content.push((i % 251) as u8);
        content.push((i / 7) as u8);
    }
    let data = archive_of(&[("big.webp", &content), ("small.gif", &[0u8, 255, 1])], deflated());
    let (mime, text) = extract_image(data.clone(), "big.webp").unwrap();
    assert_eq!(mime, "image/webp");
    assert_eq!(decode(&text), content);
    assert!(!text.contains('\n'));
    let (mime, text) = extract_image(data, "small.gif").unwrap();
    assert_eq!(mime, "image/gif");
    assert_eq!(text, "AP8B");
}

#[test]
fn extraction_of_other_entries_gets_the_fallback_type() {
    let (mime, text) = extract_image(sample(), "readme.md").unwrap();
    assert_eq!(mime, "application/octet-stream");
    assert_eq!(decode(&text), b"# notes");
}

#[test]
fn extraction_of_an_empty_entry_gives_empty_text() {
    let data = archive_of(&[("empty.png", b"")], stored());
    assert_eq!(extract_image(data, "empty.png"), Ok(("image/png".to_string(), String::new())));
}

#[test]
fn extraction_of_a_missing_entry_fails() {
    assert_eq!(extract_image(sample(), "missing.png"), Err(ImageError::EntryNotFound));
    assert_eq!(read_zip_image(Ok(sample()), "A.JPG"), Err(ImageError::EntryNotFound));
    assert_eq!(extract_image(sample(), "Photo.PNG"), Err(ImageError::EntryNotFound));
    assert_eq!(extract_image(archive_of(&[], stored()), "a.jpg"), Err(ImageError::EntryNotFound));
}

#[test]
fn extraction_rejects_bytes_that_are_no_archive() {
    assert!(matches!(
        extract_image(b"PK but not really".to_vec(), "a.jpg"),
        Err(ImageError::ArchiveFormat(_))
    ));
}

#[test]
fn extraction_rejects_damaged_content() {
    let mut data = archive_of(&[("a.jpg", b"jpeg bytes jpeg bytes")], stored());
    // Stored content follows the 30 bytes of the local header and the name.
    data[30 + 5 + 3] ^= 0xff;
    assert_eq!(
        extract_image(data.clone(), "a.jpg"),
        Err(ImageError::ArchiveFormat("Invalid checksum".to_string()))
    );
    // The directory is sound, so the entry is still listed.
    assert_eq!(list_archive_images(data), Ok(strings(&["a.jpg"])));
}

#[test]
fn extraction_reports_a_failed_read() {
    assert_eq!(
        read_zip_image(Err("permission denied".to_string()), "a.jpg"),
        Err(ImageError::Io("permission denied".to_string()))
    );
}

#[test]
fn every_listed_name_can_be_extracted() {
    let data = archive_of(
        &[
            ("one.JPG", b"first"),
            ("dir/", b""),
            ("dir/two.png", b"second"),
            ("dir/notes.txt", b"third"),
            ("three.avif", b""),
            ("four.BMP", b"fourth"),
        ],
        deflated(),
    );
    let names = list_archive_images(data.clone()).unwrap();
    assert_eq!(names, strings(&["dir/two.png", "four.BMP", "one.JPG", "three.avif"]));
    let expected: [(&str, &[u8]); 4] = [
        ("image/png", b"second"),
        ("image/bmp", b"fourth"),
        ("image/jpeg", b"first"),
        ("image/avif", b""),
    ];
    for (name, (mime, content)) in names.iter().zip(expected) {
        let (got_mime, text) = extract_image(data.clone(), name).unwrap();
        assert_eq!(got_mime, mime);
        assert_eq!(decode(&text), content);
        assert_eq!(text.is_empty(), content.is_empty());
    }
}

#[test]
fn extraction_is_repeatable() {
    let first = extract_image(sample(), "a.jpg");
    let second = extract_image(sample(), "a.jpg");
    assert_eq!(first, second);
}

#[test]
fn payload_pairs_mime_type_and_text() {
    assert_eq!(
        image_payload("pic.GIF", b"hello"),
        ("image/gif".to_string(), "aGVsbG8=".to_string())
    );
    assert_eq!(
        image_payload("plain", b""),
        ("application/octet-stream".to_string(), String::new())
    );
}

#[test]
fn base64_is_standard_and_padded() {
    assert_eq!(encode(b""), Some(String::new()));
    assert_eq!(encode(b"M"), Some("TQ==".to_string()));
    assert_eq!(encode(b"Ma"), Some("TWE=".to_string()));
    assert_eq!(encode(b"Man"), Some("TWFu".to_string()));
    assert_eq!(encode(&[0xfb, 0xff, 0xbf]), Some("+/+/".to_string()));
}

#[test]
fn base64_text_has_four_characters_for_three_bytes_begun() {
    for len in 0..50usize {
        let bytes: Vec<u8> = (0..len).map(|i| (i * 37) as u8).collect();
        let text = encode(&bytes).unwrap();
        assert_eq!(text.len(), 4 * ((len + 2) / 3));
        assert_eq!(decode(&text), bytes);
    }
}

#[test]
fn lengths_fit_the_encoding_up_to_three_quarters_of_the_range() {
    assert!(fits_encoding(0));
    assert!(fits_encoding(1));
    assert!(fits_encoding(1 << 20));
    assert!(fits_encoding(usize::MAX / 4 * 3));
    assert!(!fits_encoding(usize::MAX / 4 * 3 + 1));
    assert!(!fits_encoding(usize::MAX));
}
