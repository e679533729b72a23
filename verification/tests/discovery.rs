use image_uploader::discovery::{discover, is_image, Entry, Walked};
use std::path::Path;

fn extension_of(path: &str) -> Option<String> {
    Path::new(path).extension().and_then(|e| e.to_str()).map(|e| e.to_string())
}

fn entry(path: &str, is_file: bool) -> Walked {
    Walked::Found(Entry { extension: extension_of(path), is_file })
}

#[test]
fn recognizes_each_extension() {
    assert!(is_image(Some("jpg")));
    assert!(is_image(Some("jpeg")));
    assert!(is_image(Some("png")));
    assert!(is_image(Some("gif")));
    assert!(is_image(Some("bmp")));
}

#[test]
fn recognizes_any_mix_of_cases() {
    assert!(is_image(Some("JPG")));
    assert!(is_image(Some("JpEg")));
    assert!(is_image(Some("pNG")));
    assert!(is_image(Some("Gif")));
    assert!(is_image(Some("BMP")));
}

#[test]
fn rejects_other_extensions() {
    assert!(!is_image(Some("txt")));
    assert!(!is_image(Some("jp")));
    assert!(!is_image(Some("jpgx")));
    assert!(!is_image(Some("")));
    assert!(!is_image(Some("tiff")));
    assert!(!is_image(Some("webp")));
    assert!(!is_image(Some("pn\u{e9}")));
    assert!(!is_image(Some("\u{212a}mp")));
}

#[test]
fn rejects_a_path_without_extension() {
    assert!(!is_image(None));
    assert!(!is_image(extension_of("IMAGES").as_deref()));
    assert!(!is_image(extension_of("IMAGES/.png").as_deref()));
    assert!(!is_image(extension_of("IMAGES/png").as_deref()));
}

#[test]
fn reads_the_extension_of_the_last_component() {
    assert!(is_image(extension_of("IMAGES/a/b/photo.final.JPEG").as_deref()));
    assert!(!is_image(extension_of("IMAGES/photo.png/readme").as_deref()));
}

#[test]
fn agrees_with_lowercasing() {
    let names = ["jpg", "JPG", "jPg", "jpeg", "PNG", "gif", "BMP", "bmp2", "svg", "", "JPE", "G"];
    let known = ["jpg", "jpeg", "png", "gif", "bmp"];
    for name in names {
        assert_eq!(is_image(Some(name)), known.contains(&name.to_lowercase().as_str()));
    }
}

#[test]
fn discovers_the_image_files_in_walk_order() {
    let entries = vec![
        entry("IMAGES", false),
        entry("IMAGES/a.jpg", true),
        entry("IMAGES/notes.txt", true),
        entry("IMAGES/sub", false),
        entry("IMAGES/sub/b.PNG", true),
        entry("IMAGES/sub/c.gif", true),
        entry("IMAGES/sub/Makefile", true),
        entry("IMAGES/z.BmP", true),
        entry("IMAGES/y.jpeg", true),
    ];
    assert_eq!(discover(&entries), Some(vec![1, 4, 5, 7, 8]));
}

#[test]
fn discovers_nothing_in_an_empty_walk() {
    let entries: Vec<Walked> = Vec::new();
    assert_eq!(discover(&entries), Some(Vec::new()));
}

#[test]
fn never_discovers_a_directory() {
    let entries = vec![entry("IMAGES/album.png", false), entry("IMAGES/album.png/x.gif", true)];
    assert_eq!(discover(&entries), Some(vec![1]));
}

#[test]
fn counts_matching_files_only() {
    let mut entries = Vec::new();
    for i in 0..7 {
        entries.push(entry(&format!("IMAGES/in{}.JPG", i), true));
        entries.push(entry(&format!("IMAGES/out{}.doc", i), true));
        entries.push(entry(&format!("IMAGES/dir{}.png", i), false));
    }
    let found = match discover(&entries) {
        Some(found) => found,
        None => panic!("the root was read"),
    };
    assert_eq!(found.len(), 7);
    for position in found {
        match &entries[position] {
            Walked::Found(entry) => {
                assert!(entry.is_file);
                assert_eq!(entry.extension.as_deref(), Some("JPG"));
            }
            Walked::Unreadable { .. } => panic!("an unreadable entry was discovered"),
        }
    }
}

#[test]
fn passes_over_an_unreadable_entry() {
    let entries = vec![
        entry("IMAGES", false),
        entry("IMAGES/a.jpg", true),
        Walked::Unreadable { depth: 1 },
        entry("IMAGES/sub", false),
        Walked::Unreadable { depth: 2 },
        entry("IMAGES/sub/b.png", true),
    ];
    assert_eq!(discover(&entries), Some(vec![1, 5]));
}

#[test]
fn gives_up_on_an_unreadable_root() {
    assert_eq!(discover(&vec![Walked::Unreadable { depth: 0 }]), None);
    let entries = vec![entry("IMAGES", false), Walked::Unreadable { depth: 0 }, entry("IMAGES/a.jpg", true)];
    assert_eq!(discover(&entries), None);
}
