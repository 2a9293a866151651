use validator_copilot::text::{embedded_object, is_blank, labels_match_validator, sample_line, trimmed_reply};

#[test]
fn labels_match_on_id() {
    assert!(labels_match_validator("id=\"val-1\"", "val-1"));
    assert!(labels_match_validator("job=\"node\", id = \"val-1\" ", "val-1"));
    assert!(!labels_match_validator("id=\"val-2\"", "val-1"));
    assert!(!labels_match_validator("id=val-2,id=val-1", "val-1"));
}

#[test]
fn labels_without_id_match() {
    assert!(labels_match_validator("job=\"node\"", "val-1"));
    assert!(labels_match_validator("", "val-1"));
    assert!(labels_match_validator("id=\"other\"", ""));
}

#[test]
fn label_value_quotes_are_stripped() {
    assert!(labels_match_validator("id=\"\"val\"\"", "val"));
    assert!(!labels_match_validator("id", "val"));
    assert!(labels_match_validator("  id  =  val  ", "val"));
}

#[test]
fn trimming_helpers() {
    assert!(is_blank(" \t\n"));
    assert!(is_blank(""));
    assert!(!is_blank(" x "));
    assert_eq!(trimmed_reply("  {\"a\":1}\n"), Some("{\"a\":1}"));
    assert_eq!(trimmed_reply("   "), None);
}

#[test]
fn embedded_object_spans_outer_braces() {
    assert_eq!(embedded_object("see {\"a\":{\"b\":1}} ok"), Some("{\"a\":{\"b\":1}}"));
    assert_eq!(embedded_object("no braces"), None);
    assert_eq!(embedded_object("} backwards {"), None);
    assert_eq!(embedded_object("{}"), Some("{}"));
}


#[test]
fn sample_lines_are_split_into_name_and_value() {
    assert_eq!(sample_line("validator_slot_lag 42", "val-1"), Some(("validator_slot_lag", "42")));
    assert_eq!(
        sample_line("  validator_cpu_usage{id=\"val-1\",job=\"x\"}   0.5  123 ", "val-1"),
        Some(("validator_cpu_usage", "0.5"))
    );
    assert_eq!(sample_line("validator_cpu_usage{id=\"val-2\"} 0.5", "val-1"), None);
    assert_eq!(sample_line("validator_cpu_usage{id=\"val-1\" 0.5", "val-1"), None);
    assert_eq!(sample_line("# HELP validator_slot_lag lag", "val-1"), None);
    assert_eq!(sample_line("   ", "val-1"), None);
    assert_eq!(sample_line("lonely_metric", "val-1"), None);
}
