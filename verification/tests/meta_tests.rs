use typeset::meta::{asciify, file_kind, scan_words_for_isbn};

#[test]
fn test_asciify_decomposes_and_folds() {
    // NFKD splits the accent off and the combining mark is dropped.
    assert_eq!(asciify("Café"), "Cafe");
    assert_eq!(asciify("œuvre"), "oeuvre");
    assert_eq!(asciify("Œæ"), "Oeae");
    assert_eq!(asciify("A—B–C"), "A-B-C");
    assert_eq!(asciify("l’eau"), "l'eau");
    assert_eq!(asciify("plain"), "plain");
    assert_eq!(asciify(""), "");
}

#[test]
fn test_file_kind_extensions() {
    assert_eq!(file_kind("dir/book.EPUB").as_deref(), Some("epub"));
    assert_eq!(file_kind("a/b/c.tar.GZ").as_deref(), Some("gz"));
    assert_eq!(file_kind("noext"), None);
    assert_eq!(file_kind(".hidden"), None);
    assert_eq!(file_kind("dir.d/noext"), None);
    assert_eq!(file_kind("x.pdf").as_deref(), Some("pdf"));
}

#[test]
fn test_isbn_scan_finds_valid_number() {
    let words = vec![
        String::from("The"),
        String::from("ISBN"),
        String::from("0-306-40615-2"),
    ];
    let (found, isbn) = scan_words_for_isbn(&words, false);
    assert!(found);
    assert_eq!(isbn.as_deref(), Some("0306406152"));
}

#[test]
fn test_isbn_scan_rejects_bad_checksum() {
    let words = vec![String::from("ISBN"), String::from("0-306-40615-3")];
    let (found, isbn) = scan_words_for_isbn(&words, false);
    assert!(found);
    assert_eq!(isbn, None);
}

#[test]
fn test_isbn_scan_needs_marker() {
    let words = vec![String::from("0-306-40615-2")];
    let (found, isbn) = scan_words_for_isbn(&words, false);
    assert!(!found);
    assert_eq!(isbn, None);
    // Once armed on an earlier page, the scan goes on without the marker.
    let (found2, isbn2) = scan_words_for_isbn(&words, true);
    assert!(found2);
    assert_eq!(isbn2.as_deref(), Some("0306406152"));
}

#[test]
fn test_isbn_scan_thirteen_digits() {
    let words = vec![String::from("ISBN"), String::from("978-0-306-40615-7")];
    let (_, isbn) = scan_words_for_isbn(&words, false);
    assert_eq!(isbn.as_deref(), Some("9780306406157"));
}
