use decision_record::config::Config;
use decision_record::records::{RecordError, RecordFile, RecordStore};
use decision_record::relations::{amend, deprecate, link, supersede};
use decision_record::setup::default_config;
use decision_record::translation::TranslationTable;

fn doc(n: &str, title: &str, status: &str) -> String {
    format!("# {}. {}\n\nDate: 2024-01-01\n\n## Status\n\n{}\n\n## Context\n\nText.\n", n, title, status)
}

fn two_records() -> RecordStore {
    RecordStore {
        files: vec![
            RecordFile { name: "0001-first.md".to_string(), content: Some(doc("1", "First", "Approved")) },
            RecordFile { name: "0002-second.md".to_string(), content: Some(doc("2", "Second", "Proposed")) },
        ],
    }
}

fn config() -> Config {
    default_config("/records")
}

fn content(store: &RecordStore, i: usize) -> String {
    store.files[i].content.clone().unwrap()
}

#[test]
fn supersede_writes_both_records_and_prunes_from_record() {
    let mut store = two_records();
    supersede(&mut store, &config(), "1".to_string(), "2".to_string()).unwrap();
    let first = content(&store, 0);
    let second = content(&store, 1);
    assert!(first.contains("Supersedes [Second](0002-second.md)"));
    assert!(!first.contains("Approved"));
    assert!(second.contains("Superseded by [First](0001-first.md)"));
    assert!(second.contains("Proposed"));
    assert_eq!(
        first,
        "# 1. First\n\nDate: 2024-01-01\n\n## Status\n\nSupersedes [Second](0002-second.md)\n\n## Context\n\nText.\n"
    );
    assert_eq!(
        second,
        "# 2. Second\n\nDate: 2024-01-01\n\n## Status\n\nProposed\n\nSuperseded by [First](0001-first.md)\n\n## Context\n\nText.\n"
    );
}

#[test]
fn deprecate_prunes_and_links() {
    let mut store = two_records();
    deprecate(&mut store, &config(), "2".to_string(), "1".to_string()).unwrap();
    let first = content(&store, 0);
    let second = content(&store, 1);
    assert!(second.contains("Deprecates [First](0001-first.md)"));
    assert!(!second.contains("Proposed"));
    assert!(first.contains("Deprecated by [Second](0002-second.md)"));
    assert!(first.contains("Approved"));
}

#[test]
fn amend_keeps_status_words() {
    let mut store = two_records();
    amend(&mut store, &config(), "1".to_string(), "2".to_string()).unwrap();
    let first = content(&store, 0);
    let second = content(&store, 1);
    assert!(first.contains("Approved\n\nAmends [Second](0002-second.md)\n"));
    assert!(second.contains("Proposed\n\nAmended by [First](0001-first.md)\n"));
}

#[test]
fn link_substitutes_label_and_reason() {
    let mut store = two_records();
    link(&mut store, &config(), "1".to_string(), "2".to_string(), "cost".to_string()).unwrap();
    let first = content(&store, 0);
    let second = content(&store, 1);
    assert!(first.contains("Linked to [Second](0002-second.md) for reason cost\n"));
    assert!(second.contains("Linked to [First](0001-first.md) for reason cost\n"));
}

#[test]
fn link_without_reason() {
    let mut store = two_records();
    link(&mut store, &config(), "1".to_string(), "2".to_string(), String::new()).unwrap();
    let first = content(&store, 0);
    assert!(first.contains("Approved\n\nLinked to [Second](0002-second.md)\n\n## Context"));
}

#[test]
fn link_twice_appends_twice() {
    let mut store = two_records();
    link(&mut store, &config(), "1".to_string(), "2".to_string(), String::new()).unwrap();
    link(&mut store, &config(), "1".to_string(), "2".to_string(), String::new()).unwrap();
    assert_eq!(content(&store, 0).matches("Linked to [Second](0002-second.md)").count(), 2);
}

#[test]
fn several_from_records() {
    let mut store = two_records();
    store.files.push(RecordFile { name: "0003-third.md".to_string(), content: Some(doc("3", "Third", "Approved")) });
    supersede(&mut store, &config(), "1,2,".to_string(), "3".to_string()).unwrap();
    let third = content(&store, 2);
    assert!(third.contains(
        "Approved\n\nSuperseded by [First](0001-first.md)\n\nSuperseded by [Second](0002-second.md)\n\n## Context"
    ));
    assert!(content(&store, 1).contains("Supersedes [Third](0003-third.md)"));
}

#[test]
fn translated_phrases_are_used() {
    let mut table = TranslationTable::new();
    table.insert("Status".to_string(), "Statut".to_string());
    table.insert("Supersedes #".to_string(), "Remplace #".to_string());
    table.insert("Approved".to_string(), "Approuvé".to_string());
    let mut cfg = config();
    cfg.template_references = table;
    let mut store = RecordStore {
        files: vec![
            RecordFile { name: "0001-a.md".to_string(), content: Some("# 1. A\n\n## Statut\n\nApprouvé\n\n## Suite\n".to_string()) },
            RecordFile { name: "0002-b.md".to_string(), content: Some("# 2. B\n\n## Statut\n\nApprouvé\n\n## Suite\n".to_string()) },
        ],
    };
    supersede(&mut store, &cfg, "1".to_string(), "2".to_string()).unwrap();
    assert_eq!(content(&store, 0), "# 1. A\n\n## Statut\n\nRemplace [B](0002-b.md)\n\n## Suite\n");
    assert_eq!(content(&store, 1), "# 2. B\n\n## Statut\n\nApprouvé\n\nSuperseded by [A](0001-a.md)\n\n## Suite\n");
}

#[test]
fn missing_to_record_is_reported() {
    let mut store = two_records();
    let r = supersede(&mut store, &config(), "1".to_string(), "9".to_string());
    assert_eq!(r, Err(RecordError::RecordNotFound(9)));
    assert_eq!(content(&store, 0), doc("1", "First", "Approved"));
}

#[test]
fn missing_from_record_stops_after_earlier_ones() {
    let mut store = two_records();
    let r = amend(&mut store, &config(), "1,7".to_string(), "2".to_string());
    assert_eq!(r, Err(RecordError::RecordNotFound(7)));
    assert!(content(&store, 0).contains("Amends [Second](0002-second.md)"));
    assert!(content(&store, 1).contains("Amended by [First](0001-first.md)"));
}

#[test]
fn malformed_numbers_are_rejected() {
    let mut store = two_records();
    assert_eq!(
        supersede(&mut store, &config(), "1,x".to_string(), "2".to_string()),
        Err(RecordError::InvalidRelationArgument("x".to_string()))
    );
    assert_eq!(
        link(&mut store, &config(), "1".to_string(), "two".to_string(), String::new()),
        Err(RecordError::InvalidRelationArgument("two".to_string()))
    );
    assert_eq!(
        amend(&mut store, &config(), "1,,2".to_string(), "2".to_string()),
        Err(RecordError::InvalidRelationArgument(String::new()))
    );
    assert_eq!(
        amend(&mut store, &config(), "99999999999".to_string(), "2".to_string()),
        Err(RecordError::InvalidRelationArgument("99999999999".to_string()))
    );
    assert_eq!(content(&store, 0), doc("1", "First", "Approved"));
}

#[test]
fn unreadable_record_is_an_io_error() {
    let mut store = two_records();
    store.files[1].content = None;
    let r = amend(&mut store, &config(), "1".to_string(), "2".to_string());
    assert_eq!(r, Err(RecordError::IoError("0002-second.md".to_string())));
    assert!(content(&store, 0).contains("Amends [0002-second.md](0002-second.md)"));
}

#[test]
fn percent_in_label_is_kept_and_reason_fills_phrase() {
    let mut store = RecordStore {
        files: vec![
            RecordFile { name: "0001-a.md".to_string(), content: Some(doc("1", "Keep 10% reserve", "Approved")) },
            RecordFile { name: "0002-b.md".to_string(), content: Some(doc("2", "Cut 50% of costs", "Approved")) },
        ],
    };
    link(&mut store, &config(), "1".to_string(), "2".to_string(), "cost".to_string()).unwrap();
    let first = content(&store, 0);
    let second = content(&store, 1);
    assert!(first.contains("\nLinked to [Cut 50% of costs](0002-b.md) for reason cost\n"));
    assert!(second.contains("\nLinked to [Keep 10% reserve](0001-a.md) for reason cost\n"));
}

#[test]
fn placeholders_in_reason_and_dollar_signs_stay_literal() {
    let mut store = RecordStore {
        files: vec![
            RecordFile { name: "0001-a.md".to_string(), content: Some(doc("1", "A", "Approved")) },
            RecordFile { name: "0002-b.md".to_string(), content: Some(doc("2", "Cost $1 plan", "Approved")) },
        ],
    };
    link(&mut store, &config(), "1".to_string(), "2".to_string(), "issue #4 at 5% $2".to_string()).unwrap();
    assert!(content(&store, 0).contains("\nLinked to [Cost $1 plan](0002-b.md) for reason issue #4 at 5% $2\n"));
    assert!(content(&store, 1).contains("\nLinked to [A](0001-a.md) for reason issue #4 at 5% $2\n"));
}

#[test]
fn translated_reason_clause_may_come_first() {
    let mut table = TranslationTable::new();
    table.insert("Linked to #".to_string(), "Lié à #".to_string());
    table.insert("for reason %".to_string(), "pour % raison".to_string());
    let mut cfg = config();
    cfg.template_references = table;
    let mut store = two_records();
    link(&mut store, &cfg, "1".to_string(), "2".to_string(), "50%".to_string()).unwrap();
    assert!(content(&store, 0).contains("\nLié à [Second](0002-second.md) pour 50% raison\n"));
}
