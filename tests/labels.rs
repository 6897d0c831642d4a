use decision_record::record_link::formatted_title_and_file_of_record;
use decision_record::translation::{translate_string, TranslationTable};

#[test]
fn markdown_label_uses_title() {
    let doc = "# 1. Use Rust\n\nDate: 2024-01-01\n";
    assert_eq!(formatted_title_and_file_of_record("0001-use-rust.md", Some(doc), "md"), "[Use Rust](0001-use-rust.md)");
}

#[test]
fn markdown_title_without_dot() {
    let doc = "intro\n# 12   Spaced title \n";
    assert_eq!(formatted_title_and_file_of_record("0012-x.md", Some(doc), "md"), "[Spaced title ](0012-x.md)");
}

#[test]
fn markdown_label_without_title_is_path_link() {
    let doc = "# Use Rust\n";
    assert_eq!(formatted_title_and_file_of_record("0001-use-rust.md", Some(doc), "md"), "[0001-use-rust.md](0001-use-rust.md)");
    assert_eq!(formatted_title_and_file_of_record("0001-use-rust.md", None, "md"), "[0001-use-rust.md](0001-use-rust.md)");
}

#[test]
fn rst_label_uses_line_after_delimiter() {
    let doc = "#################\n1. Use Rust\n#################\n";
    assert_eq!(formatted_title_and_file_of_record("0001-use-rust.rst", Some(doc), "rst"), ":doc:`1. Use Rust <0001-use-rust.rst>`");
    assert_eq!(formatted_title_and_file_of_record("0001-use-rust.rst", Some("no title\n"), "rst"), ":doc:`0001-use-rust.rst <0001-use-rust.rst>`");
}

#[test]
fn other_format_label_is_path() {
    assert_eq!(formatted_title_and_file_of_record("0001-a.txt", Some("# 1. A\n"), "txt"), "0001-a.txt");
}

#[test]
fn translation_falls_back_to_phrase() {
    let mut table = TranslationTable::new();
    assert_eq!(translate_string("Status".to_string(), &table), "Status");
    table.insert("Status".to_string(), "Statut".to_string());
    assert_eq!(translate_string("Status".to_string(), &table), "Statut");
    assert_eq!(translate_string("Context".to_string(), &table), "Context");
    table.insert("Status".to_string(), "Etat".to_string());
    assert_eq!(translate_string("Status".to_string(), &table), "Etat");
}
