use picmrg::scanner::find_image_files;
use picmrg::scanner::is_image_file;
use picmrg::scanner::scan_for_images;
use picmrg::scanner::DirEntry;
use picmrg::scanner::DirListing;
use picmrg::scanner::EntryKind;

fn file(name: &str) -> DirEntry {
    DirEntry { name: name.to_string(), kind: EntryKind::File }
}

fn directory(name: &str) -> DirEntry {
    DirEntry { name: name.to_string(), kind: EntryKind::Directory }
}

fn listing(name: &str, entries: Vec<DirEntry>) -> DirListing {
    DirListing { name: name.to_string(), kind: EntryKind::Directory, entries: Ok(entries) }
}

/// The entries of a listed directory.
fn entries_of(listing: &DirListing) -> &Vec<DirEntry> {
    listing.entries.as_ref().expect("the directory was listed")
}

/// The tree that the scanner is tried on.
fn test_data() -> Vec<DirListing> {
    vec![
        listing(
            "vertical-images",
            vec![file("red.png"), file("green.jpg"), file("blue.jpeg"), file("merged.png")],
        ),
        listing(
            "horizontal-images",
            vec![
                file("yellow.png"),
                file("cyan.bmp"),
                file("magenta.tiff"),
                file("merged-23-12-25.png"),
            ],
        ),
        listing("mixed-images", vec![file("white.png"), file("black.png"), file("gray.webp")]),
        listing("single-image", vec![file("orange.png")]),
        listing("empty-dir", vec![]),
        listing("no-images", vec![file("readme.txt"), file("data.json")]),
    ]
}

#[test]
fn test_is_image_file() {
    // Test various image extensions
    assert!(is_image_file("test.jpg"));
    assert!(is_image_file("test.jpeg"));
    assert!(is_image_file("test.png"));
    assert!(is_image_file("test.gif"));
    assert!(is_image_file("test.bmp"));
    assert!(is_image_file("test.tiff"));
    assert!(is_image_file("test.tif"));
    assert!(is_image_file("test.webp"));

    // Test case insensitivity
    assert!(is_image_file("test.JPG"));
    assert!(is_image_file("test.PNG"));
    assert!(is_image_file("test.JPEG"));

    // Test non-image files
    assert!(!is_image_file("test.txt"));
    assert!(!is_image_file("test.pdf"));
    assert!(!is_image_file("test.doc"));
    assert!(!is_image_file("test"));
    assert!(!is_image_file(""));

    // Test files without extensions
    assert!(!is_image_file("no_extension"));
}

/// Whether the path is an image's by its extension, as `std::path::Path`
/// reads the extension.
fn is_image_path(path: &str) -> bool {
    let extension = std::path::Path::new(path).extension().and_then(|e| e.to_str());
    match extension {
        Some(e) => matches!(
            e.to_lowercase().as_str(),
            "jpg" | "jpeg" | "png" | "gif" | "bmp" | "tiff" | "tif" | "webp"
        ),
        None => false,
    }
}

#[test]
fn is_image_file_passes_over_what_ends_a_path() {
    assert!(is_image_file("pic.png/"));
    assert!(is_image_file("pic.png/."));
    assert!(is_image_file("pic.png//"));
    assert!(is_image_file("pic.png/./"));
    assert!(is_image_file("pic.png/././/."));
    assert!(is_image_file("dir/pic.JPG/"));
    assert!(is_image_file("./pic.gif"));
    assert!(is_image_file("/pic.gif"));
    assert!(is_image_file("a/./b.webp"));
    // A last component `..` is no file name.
    assert!(!is_image_file("pic.png/.."));
    assert!(!is_image_file("pic.png/../"));
    assert!(!is_image_file("pic.png/../."));
    // A `.` that ends a name is part of the name.
    assert!(!is_image_file("pic.png./"));
    assert!(!is_image_file("pic.png/a."));
    assert!(!is_image_file("/"));
    assert!(!is_image_file("//"));
    assert!(!is_image_file("./"));
    assert!(!is_image_file("./."));
    assert!(!is_image_file("/."));
    assert!(!is_image_file(".png/"));
    assert!(!is_image_file("a/.png/."));
}

#[test]
fn is_image_file_reads_paths_as_the_standard_library_does() {
    let pieces =
        ["", "a", ".", "..", "/", "pic.png", ".png", "x.JPG", "a.b", "png", "p.tif.", "k.\u{212a}"];
    let mut paths: Vec<String> = Vec::new();
    for first in pieces {
        paths.push(first.to_string());
        for second in pieces {
            paths.push(format!("{}{}", first, second));
            paths.push(format!("{}/{}", first, second));
            for third in pieces {
                paths.push(format!("{}/{}/{}", first, second, third));
                paths.push(format!("{}{}/{}", first, second, third));
            }
        }
    }
    paths.push("photo.g\u{130}f".to_string());
    paths.push("photo.\u{ff30}ng".to_string());
    paths.push("photo.GIF".to_string());
    for path in &paths {
        assert_eq!(is_image_file(path), is_image_path(path), "{:?}", path);
    }
}

#[test]
fn is_image_file_reads_the_extension_of_the_file_name() {
    assert!(is_image_file("photos/summer/beach.JpEg"));
    assert!(is_image_file("archive.tar.png"));
    assert!(is_image_file("a.b/c.gif"));
    assert!(is_image_file("..png"));
    // A dot that stands first begins a hidden file's name, not an extension.
    assert!(!is_image_file(".png"));
    assert!(!is_image_file("photos/.jpg"));
    // The extension is that of the file, not of a directory on the way.
    assert!(!is_image_file("photos.png/readme"));
    assert!(!is_image_file("photo.png.txt"));
    assert!(!is_image_file("photo.png."));
    assert!(!is_image_file("photo.pn"));
    assert!(!is_image_file("photo.pngg"));
    assert!(!is_image_file(".."));
    assert!(!is_image_file("."));
    // Only ASCII capitals count as small letters.
    assert!(!is_image_file("photo.\u{ff30}ng"));
    assert!(!is_image_file("photo.p\u{147}g"));
}

#[test]
fn test_scan_for_images_with_test_data() {
    let result = scan_for_images(&Ok(test_data())).expect("Failed to scan test data");

    // Verify we found the expected directories with images
    assert!(result.contains_key("vertical-images"));
    assert!(result.contains_key("horizontal-images"));
    assert!(result.contains_key("mixed-images"));
    assert!(result.contains_key("single-image"));

    // Verify we didn't include empty directories or directories with no images
    assert!(!result.contains_key("empty-dir"));
    assert!(!result.contains_key("no-images"));
    assert_eq!(result.len(), 4);
    assert!(!result.is_empty());

    // Check vertical images directory (should have 3 images, excluding merged.png)
    let vertical_names = result.get("vertical-images").unwrap();
    assert_eq!(vertical_names.len(), 3);
    assert!(vertical_names.contains(&"red.png".to_string()));
    assert!(vertical_names.contains(&"green.jpg".to_string()));
    assert!(vertical_names.contains(&"blue.jpeg".to_string()));
    // Should not contain merged.png
    assert!(!vertical_names.contains(&"merged.png".to_string()));

    // Check horizontal images directory (should have 3 images, excluding merged-23-12-25.png)
    let horizontal_names = result.get("horizontal-images").unwrap();
    assert_eq!(horizontal_names.len(), 3);
    assert!(horizontal_names.contains(&"yellow.png".to_string()));
    assert!(horizontal_names.contains(&"cyan.bmp".to_string()));
    assert!(horizontal_names.contains(&"magenta.tiff".to_string()));
    // Should not contain merged file
    assert!(!horizontal_names.contains(&"merged-23-12-25.png".to_string()));

    // Check mixed images directory
    let mixed_names = result.get("mixed-images").unwrap();
    assert_eq!(mixed_names.len(), 3);
    assert!(mixed_names.contains(&"white.png".to_string()));
    assert!(mixed_names.contains(&"black.png".to_string()));
    assert!(mixed_names.contains(&"gray.webp".to_string()));

    // Check single image directory
    let single_images = result.get("single-image").unwrap();
    assert_eq!(single_images.len(), 1);
    assert_eq!(single_images[0], "orange.png");
}

#[test]
fn scan_lists_the_directories_in_the_order_of_their_names() {
    let result = scan_for_images(&Ok(test_data())).expect("Failed to scan test data");
    let names: Vec<&str> = result.directories.iter().map(|d| d.name.as_str()).collect();
    assert_eq!(names, vec!["horizontal-images", "mixed-images", "single-image", "vertical-images"]);
    assert_eq!(result.directories[3].files, vec!["blue.jpeg", "green.jpg", "red.png"]);
}

#[test]
fn scan_leaves_out_what_is_no_directory() {
    let listings = vec![
        DirListing {
            name: "notes.png".to_string(),
            kind: EntryKind::File,
            entries: Ok(vec![file("a.png"), file("b.png")]),
        },
        DirListing {
            name: "socket".to_string(),
            kind: EntryKind::Other,
            entries: Ok(vec![file("a.png")]),
        },
        // What is no directory is not listed, and that it cannot be is no failure.
        DirListing {
            name: "notes.txt".to_string(),
            kind: EntryKind::File,
            entries: Err("Not a directory".to_string()),
        },
        listing("real", vec![file("a.png")]),
    ];
    let result = scan_for_images(&Ok(listings)).expect("Failed to scan");
    assert_eq!(result.len(), 1);
    assert!(result.contains_key("real"));
    assert!(!result.contains_key("notes.png"));
    assert!(!result.contains_key("socket"));
}

#[test]
fn scan_keeps_the_later_of_two_listings_with_one_name() {
    let listings = vec![
        listing("unknown", vec![file("a.png")]),
        listing("other", vec![file("x.gif")]),
        listing("unknown", vec![file("c.png"), file("b.png")]),
        listing("unknown", vec![file("readme.txt")]),
    ];
    let result = scan_for_images(&Ok(listings)).expect("Failed to scan");
    assert_eq!(result.len(), 2);
    assert_eq!(result.get("unknown").unwrap(), &vec!["b.png".to_string(), "c.png".to_string()]);
    assert_eq!(result.get("other").unwrap(), &vec!["x.gif".to_string()]);
    assert!(result.get("missing").is_none());
}

#[test]
fn test_scan_nonexistent_directory() {
    // What came of listing "nonexistent-directory"
    let result = scan_for_images(&Err("No such file or directory (os error 2)".to_string()));
    assert!(result.is_err());
    assert_eq!(result.unwrap_err(), "No such file or directory (os error 2)");
}

#[test]
fn scan_fails_with_the_first_directory_that_cannot_be_listed() {
    let listings = vec![
        listing("first", vec![file("a.png")]),
        DirListing {
            name: "second".to_string(),
            kind: EntryKind::Directory,
            entries: Err("Permission denied".to_string()),
        },
        listing("third", vec![file("b.png")]),
        DirListing {
            name: "fourth".to_string(),
            kind: EntryKind::Directory,
            entries: Err("Input/output error".to_string()),
        },
    ];
    let result = scan_for_images(&Ok(listings));
    assert_eq!(result.unwrap_err(), "Permission denied");
}

#[test]
fn scan_of_nothing_is_empty() {
    let result = scan_for_images(&Ok(Vec::new())).expect("Failed to scan");
    assert!(result.is_empty());
    assert_eq!(result.len(), 0);
    assert!(!result.contains_key(""));
}

#[test]
fn test_find_image_files_ordering() {
    let listings = test_data();
    let image_files = find_image_files(entries_of(&listings[0]));

    // Should be sorted alphabetically
    let mut expected = image_files.clone();
    expected.sort();
    assert_eq!(image_files, expected);
    assert_eq!(image_files, vec!["blue.jpeg", "green.jpg", "red.png"]);
}

#[test]
fn find_image_files_orders_names_as_text() {
    let entries = vec![
        file("b.png"),
        file("B.png"),
        file("a10.png"),
        file("a2.png"),
        file("a.png"),
        file("\u{e9}.png"),
        file("z.png"),
        file("ab.png"),
        file("\u{1f600}.png"),
        file("\u{ffee}.png"),
    ];
    let image_files = find_image_files(&entries);
    let mut expected: Vec<String> = entries.iter().map(|e| e.name.clone()).collect();
    expected.sort();
    assert_eq!(image_files, expected);
    assert_eq!(image_files[0], "B.png");
    assert_eq!(image_files[9], "\u{1f600}.png");
}

#[test]
fn find_image_files_keeps_files_only() {
    let entries = vec![
        directory("holiday.png"),
        DirEntry { name: "pipe.png".to_string(), kind: EntryKind::Other },
        file("merged.png"),
        file("merged-24-01-15.png"),
        file("merged-2024-01-15.png"),
        file("notes.txt"),
        file("photo.JPG"),
        file("photo.JPG"),
    ];
    let image_files = find_image_files(&entries);
    assert_eq!(image_files, vec!["merged-2024-01-15.png", "photo.JPG", "photo.JPG"]);
}

#[test]
fn test_find_image_files_empty_directory() {
    let image_files = find_image_files(&Vec::new());
    assert!(image_files.is_empty());
}

#[test]
fn test_find_image_files_no_images() {
    let listings = test_data();
    let image_files = find_image_files(entries_of(&listings[5]));
    assert!(image_files.is_empty());
}

#[test]
fn no_other_character_becomes_a_letter_of_an_extension() {
    // Taking only ASCII capitals for small letters loses nothing: no other
    // character has a lower case form that could stand in an extension.
    let extensions = ["jpg", "jpeg", "png", "gif", "bmp", "tiff", "tif", "webp"];
    for code in 0x80..=0x10ffffu32 {
        if let Some(c) = char::from_u32(code) {
            let lower: String = c.to_lowercase().collect();
            assert!(
                !extensions.iter().any(|e| e.contains(lower.as_str())),
                "U+{:04X} becomes {:?}",
                code,
                lower
            );
        }
    }
    for c in 'A'..='Z' {
        let lower: String = c.to_lowercase().collect();
        assert_eq!(lower, c.to_ascii_lowercase().to_string());
    }
}
