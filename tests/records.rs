use decision_record::records::{
    find_record, next_record_number, record_file_name, RecordError, RecordFile, RecordStore,
};

fn store_of(names: &[&str]) -> RecordStore {
    RecordStore {
        files: names
            .iter()
            .map(|n| RecordFile { name: n.to_string(), content: Some(String::new()) })
            .collect(),
    }
}

#[test]
fn next_number_of_empty_directory_is_one() {
    assert_eq!(next_record_number(&store_of(&[])), 1);
}

#[test]
fn next_number_is_one_more_than_largest_prefix() {
    let store = store_of(&["0001-a.md", "0007-g.md", "0003-c.md", "readme.md", "12x4-odd.md"]);
    assert_eq!(next_record_number(&store), 8);
}

#[test]
fn next_number_reads_only_four_digits() {
    let store = store_of(&["12345-long.md", "0002-b.md"]);
    assert_eq!(next_record_number(&store), 1235);
}

#[test]
fn next_number_ignores_names_without_prefix() {
    let store = store_of(&["notes.md", "abc", ".template"]);
    assert_eq!(next_record_number(&store), 1);
}

#[test]
fn file_name_is_padded_number_slug_and_format() {
    assert_eq!(record_file_name(1, "my-title", "md"), "0001-my-title.md");
    assert_eq!(record_file_name(42, "x", "rst"), "0042-x.rst");
    assert_eq!(record_file_name(12345, "big", "md"), "12345-big.md");
}

#[test]
fn find_record_returns_the_matching_file() {
    let store = store_of(&["0001-a.md", "0002-b.md"]);
    let name = find_record(2, &store).unwrap();
    assert!(name.ends_with("0002-b.md"));
    assert_eq!(find_record(1, &store).unwrap(), "0001-a.md");
}

#[test]
fn find_record_reports_missing_record() {
    let store = store_of(&["0001-a.md", "0002-b.md"]);
    assert_eq!(find_record(3, &store), Err(RecordError::RecordNotFound(3)));
}

#[test]
fn find_record_anchors_at_name_start() {
    let store = store_of(&["x0002-b.md", "10002-c.md", "0002b.md"]);
    assert_eq!(find_record(2, &store), Err(RecordError::RecordNotFound(2)));
}

#[test]
fn find_record_takes_first_in_directory_order() {
    let store = store_of(&["0005-later.md", "0005-earlier.md"]);
    assert_eq!(find_record(5, &store).unwrap(), "0005-later.md");
}

#[test]
fn find_record_with_five_digit_number() {
    let store = store_of(&["0001-a.md", "10000-big.md"]);
    assert_eq!(find_record(10000, &store).unwrap(), "10000-big.md");
}
