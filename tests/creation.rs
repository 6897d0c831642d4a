use decision_record::creator::{create_record, new_record, render_template};
use decision_record::records::{RecordError, RecordFile, RecordStore};
use decision_record::setup::{
    config_file_text, default_config, load_template, parse_reference_line, setting_value,
};

#[test]
fn template_markers_are_replaced() {
    let t = "# NUMBER. TITLE\n\nDate: DATE\n\n## Status\n\nSTATUS\n";
    let out = render_template(t, 7, "Use X", "2024-01-02", "Approved");
    assert_eq!(out, "# 7. Use X\n\nDate: 2024-01-02\n\n## Status\n\nApproved\n");
    for marker in ["NUMBER", "TITLE", "DATE", "STATUS"] {
        assert!(!out.contains(marker));
    }
}

#[test]
fn template_markers_are_replaced_everywhere_and_literally() {
    let out = render_template("NUMBER NUMBER TITLE", 12, "Costs $1", "d", "s");
    assert_eq!(out, "12 12 Costs $1");
}

#[test]
fn create_first_record() {
    let mut store = RecordStore { files: vec![] };
    let cfg = default_config("/r");
    let n = create_record(&mut store, &cfg, "Use Rust", "use-rust", "2024-05-06", "", "", "", "", false, false).unwrap();
    assert_eq!(n, 1);
    assert_eq!(store.files.len(), 1);
    assert_eq!(store.files[0].name, "0001-use-rust.md");
    assert_eq!(
        store.files[0].content.clone().unwrap(),
        "# 1. Use Rust\n\nDate: 2024-05-06\n\n## Status\n\nApproved\n\n## Context\n\nThis is the context.\n\n## Decision\n\nThis is the decision that was made.\n\n## Consequence\n\nThis is the consequence of the decision.\n"
    );
}

#[test]
fn create_proposed_record_after_existing_ones() {
    let mut store = RecordStore {
        files: vec![RecordFile { name: "0004-old.md".to_string(), content: Some(String::new()) }],
    };
    let cfg = default_config("/r");
    let n = create_record(&mut store, &cfg, "Next", "next", "2024-05-06", "", "", "", "", true, false).unwrap();
    assert_eq!(n, 5);
    assert_eq!(store.files[1].name, "0005-next.md");
    assert!(store.files[1].content.clone().unwrap().contains("## Status\n\nProposed\n"));
}

#[test]
fn create_record_that_supersedes_another() {
    let cfg = default_config("/r");
    let mut store = RecordStore { files: vec![] };
    create_record(&mut store, &cfg, "Old way", "old-way", "2024-01-01", "", "", "", "", false, true).unwrap();
    let n = create_record(&mut store, &cfg, "New way", "new-way", "2024-02-02", "1", "", "", "", false, false).unwrap();
    assert_eq!(n, 2);
    let old = store.files[0].content.clone().unwrap();
    let new = store.files[1].content.clone().unwrap();
    assert!(old.contains("## Status\n\nSupersedes [New way](0002-new-way.md)\n\n## Context"));
    assert!(new.contains("## Status\n\nApproved\n\nSuperseded by [Old way](0001-old-way.md)\n\n## Context"));
}

#[test]
fn create_record_with_link_has_no_reason() {
    let cfg = default_config("/r");
    let mut store = RecordStore { files: vec![] };
    create_record(&mut store, &cfg, "A", "a", "2024-01-01", "", "", "", "", false, false).unwrap();
    create_record(&mut store, &cfg, "B", "b", "2024-01-01", "", "", "", "1", false, false).unwrap();
    let first = store.files[0].content.clone().unwrap();
    assert!(first.contains("## Status\n\nApproved\n\nLinked to [B](0002-b.md)\n\n## Context"));
    assert!(!first.contains("for reason"));
}

#[test]
fn create_record_never_overwrites() {
    let cfg = default_config("/r");
    let mut store = RecordStore {
        files: vec![
            RecordFile { name: "9999-last.md".to_string(), content: Some("last".to_string()) },
            RecordFile { name: "10000-x.md".to_string(), content: Some("kept".to_string()) },
        ],
    };
    let r = create_record(&mut store, &cfg, "X", "x", "d", "", "", "", "", false, false);
    assert_eq!(r, Err(RecordError::AlreadyExists("10000-x.md".to_string())));
    assert_eq!(store.files.len(), 2);
    assert_eq!(store.files[1].content.clone().unwrap(), "kept");
}

#[test]
fn new_record_slugs_title() {
    let cfg = default_config("/r");
    let mut store = RecordStore { files: vec![] };
    let n = new_record(
        &mut store,
        "My Test String!!!1!1".to_string(),
        String::new(),
        String::new(),
        String::new(),
        String::new(),
        false,
        false,
        &cfg,
    )
    .unwrap();
    assert_eq!(n, 1);
    assert_eq!(store.files[0].name, "0001-my-test-string-1-1.md");
    let text = store.files[0].content.clone().unwrap();
    assert!(text.starts_with("# 1. My Test String!!!1!1\n\nDate: "));
    let date_line = text.lines().nth(2).unwrap();
    assert_eq!(date_line.len(), "Date: 2024-01-01".len());
}

#[test]
fn missing_relation_target_fails_after_creation() {
    let cfg = default_config("/r");
    let mut store = RecordStore { files: vec![] };
    let r = create_record(&mut store, &cfg, "A", "a", "d", "", "", "5", "", false, false);
    assert_eq!(r, Err(RecordError::RecordNotFound(5)));
    assert_eq!(store.files.len(), 1);
}

#[test]
fn builtin_templates() {
    assert!(load_template("en", "md").unwrap().starts_with("# NUMBER. TITLE\n"));
    assert!(load_template("en", "rst").unwrap().contains("******\nStatus\n******\n"));
    assert!(load_template("fr", "md").unwrap().contains("## Statut\n"));
    assert!(load_template("fr", "ref").unwrap().starts_with("Status=\"Statut\"\n"));
    assert!(load_template("de", "md").unwrap().contains("## Status\n"));
    assert_eq!(load_template("en", "ref"), None);
    assert_eq!(load_template("fr", "rst"), None);
    assert_eq!(load_template("de", "txt"), None);
}

#[test]
fn configuration_file_text() {
    assert_eq!(
        config_file_text("doc/decision_records", "doc/decision_records/.template", "en", "template", "md", false),
        "records=doc/decision_records\ntemplateDir=doc/decision_records/.template\nlanguage=en\ntemplate=template\nfileType=md\ndefaultProposed=false\n"
    );
    assert_eq!(
        config_file_text("docs", "t", "", "", "", true),
        "records=docs\ntemplateDir=t\ndefaultProposed=true\n"
    );
}

#[test]
fn default_configuration() {
    let cfg = default_config("/project");
    assert_eq!(cfg.record_path, "/project");
    assert_eq!(cfg.template_format, "md");
    assert_eq!(cfg.default_status, "Approved");
    assert_eq!(cfg.template_language, "en");
}

#[test]
fn configuration_settings_are_read() {
    assert_eq!(setting_value("records=doc/adr", "records"), Some("doc/adr".to_string()));
    assert_eq!(setting_value("template=", "template"), Some(String::new()));
    assert_eq!(setting_value("templateDir=x", "template"), None);
    assert_eq!(setting_value(" records=x", "records"), None);
    assert_eq!(parse_reference_line("Status=\"Statut\""), ("Status".to_string(), "Statut".to_string()));
    assert_eq!(parse_reference_line("Approved=\"Approuvé\""), ("Approved".to_string(), "Approuvé".to_string()));
    assert_eq!(parse_reference_line("a=\"b=\"c\" rest"), ("a=\"b rest".to_string(), "c rest".to_string()));
    assert_eq!(parse_reference_line("no entry"), ("no entry".to_string(), "no entry".to_string()));
    assert_eq!(parse_reference_line("k=\"\""), ("k".to_string(), String::new()));
}
