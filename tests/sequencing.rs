use manga_fetch::sequence::{decimal_string, is_image_file_name, page_file_name, page_index_of, sequence_pages};
use manga_fetch::utils::collect_images;

fn names(v: &[&str]) -> Vec<String> {
    v.iter().map(|s| s.to_string()).collect()
}

#[test]
fn pages_follow_their_index() {
    let files = names(&["0003.jpg", "0001.jpg", "0002.jpg", "0010.jpg"]);
    let out = sequence_pages(&files).unwrap();
    assert_eq!(out, names(&["0001.jpg", "0002.jpg", "0003.jpg", "0010.jpg"]));
}

#[test]
fn unparsable_name_is_an_error() {
    let files = names(&["0001.jpg", "cover.jpg", "0002.jpg"]);
    let err = sequence_pages(&files).unwrap_err();
    assert_eq!(err.name, "cover.jpg");
}

#[test]
fn empty_listing_sequences_to_nothing() {
    assert_eq!(sequence_pages(&Vec::new()).unwrap(), Vec::<String>::new());
}

#[test]
fn index_is_read_from_name() {
    assert_eq!(page_index_of("0007.jpg"), Some(7));
    assert_eq!(page_index_of("12.png"), Some(12));
    assert_eq!(page_index_of("0100.jpg"), Some(100));
    assert_eq!(page_index_of("4294967295.jpg"), Some(4294967295));
    assert_eq!(page_index_of("4294967296.jpg"), None);
    assert_eq!(page_index_of("0000.jpg"), None);
    assert_eq!(page_index_of("00a1.jpg"), None);
    assert_eq!(page_index_of("0001.gif"), None);
}

#[test]
fn page_names_are_zero_padded() {
    assert_eq!(page_file_name(7), "0007.jpg");
    assert_eq!(page_file_name(42), "0042.jpg");
    assert_eq!(page_file_name(999), "0999.jpg");
    assert_eq!(page_file_name(1000), "1000.jpg");
    assert_eq!(page_file_name(12345), "12345.jpg");
    assert_eq!(decimal_string(0), "0");
}

#[test]
fn image_names_are_recognised() {
    assert!(is_image_file_name("a.jpg"));
    assert!(is_image_file_name("0001.png"));
    assert!(!is_image_file_name(".jpg"));
    assert!(!is_image_file_name("a.jpeg"));
    assert!(!is_image_file_name("output.epub"));
}

#[test]
fn images_are_collected_without_excluded() {
    let files = names(&["0002.jpg", "cover.jpg", "notes.txt", "0001.png", "output.epub"]);
    let out = collect_images(&files, &names(&["cover.jpg"]));
    assert_eq!(out, names(&["0002.jpg", "0001.png"]));
}

#[test]
fn equal_indices_keep_listing_order() {
    let files = names(&["0002.jpg", "0001.png", "0001.jpg", "01.jpg"]);
    let out = sequence_pages(&files).unwrap();
    assert_eq!(out, names(&["0001.png", "0001.jpg", "01.jpg", "0002.jpg"]));
}
