use file_transfer::listing::{compare_bytes, listing_label, render_listing, sorted_listing, ByteOrder, ListingEntry};

fn entry(name: &str, is_dir: bool, is_file: bool) -> ListingEntry {
    ListingEntry { name: name.as_bytes().to_vec(), is_dir, is_file }
}

fn body(entries: &Vec<ListingEntry>) -> String {
    String::from_utf8(render_listing(&sorted_listing(entries))).unwrap()
}

#[test]
fn listing_is_sorted_with_slashes_after_directories() {
    let entries = vec![entry("b.txt", false, true), entry("docs", true, false), entry("a.txt", false, true)];
    assert_eq!(body(&entries), "a.txt\nb.txt\ndocs/\n");
}

#[test]
fn listing_of_empty_directory_is_a_newline() {
    assert_eq!(body(&vec![]), "\n");
}

#[test]
fn listing_skips_other_entries_and_duplicates() {
    let entries = vec![entry("sock", false, false), entry("x", false, true), entry("x", false, true)];
    assert_eq!(body(&entries), "x\n");
    assert_eq!(sorted_listing(&entries).len(), 1);
}

#[test]
fn listing_orders_bytes_like_strings() {
    let names = ["Zeta", "alpha", "a", "ab", "é", "z", "A", "a b"];
    let entries: Vec<ListingEntry> = names.iter().map(|n| entry(n, false, true)).collect();
    let mut expected: Vec<String> = names.iter().map(|n| n.to_string()).collect();
    expected.sort();
    expected.dedup();
    assert_eq!(body(&entries), expected.join("\n") + "\n");
}

#[test]
fn listing_does_not_depend_on_read_order() {
    let a = vec![entry("x", false, true), entry("d", true, false), entry("m", false, true)];
    let b = vec![entry("m", false, true), entry("x", false, true), entry("d", true, false), entry("x", false, true)];
    assert_eq!(body(&a), body(&b));
}

#[test]
fn directory_and_file_of_same_name_both_listed() {
    let entries = vec![entry("n", true, false), entry("n", false, true)];
    assert_eq!(body(&entries), "n\nn/\n");
    assert_eq!(listing_label(&entry("q", false, false)), None);
}

#[test]
fn byte_order() {
    assert!(matches!(compare_bytes(&b"a".to_vec(), &b"b".to_vec()), ByteOrder::Less));
    assert!(matches!(compare_bytes(&b"ab".to_vec(), &b"a".to_vec()), ByteOrder::Greater));
    assert!(matches!(compare_bytes(&b"ab".to_vec(), &b"ab".to_vec()), ByteOrder::Equal));
}
