use chat_translator::outcome::{FailureKind, UnitOutcome};
use chat_translator::pipeline::{aggregate, complete_message};
use chat_translator::segment::{segment, Unit};
use chat_translator::translate::HttpReply;

fn ok_reply(body: &str) -> HttpReply {
    HttpReply::Status { status: 200, status_text: "OK".to_string(), body: Some(body.to_string()) }
}

fn unit(text: &str, trailing_space: bool) -> Unit {
    Unit { text: text.to_string(), trailing_space }
}

fn failed(kind: FailureKind, detail: &str) -> UnitOutcome {
    UnitOutcome::Failed(kind, detail.to_string())
}

#[test]
fn both_units_succeed_with_no_errors() {
    let units = segment("Hello. How are you?");
    assert_eq!(units.len(), 2);
    let replies = vec![ok_reply(r#"[[["Hola."]]]"#), ok_reply(r#"[[["¿Cómo estás?"]]]"#)];
    let agg = complete_message(&units, &replies);
    assert_eq!(agg.text, "Hola. ¿Cómo estás?");
    assert!(agg.errors.is_empty());
    assert!(!agg.rate_limited);
}

#[test]
fn rate_limited_unit_keeps_original_text_and_sets_flag() {
    let units = segment("Hello. world");
    assert_eq!(units.len(), 2);
    let replies = vec![
        HttpReply::Status { status: 403, status_text: "Forbidden".to_string(), body: None },
        ok_reply(r#"[[["mundo"]]]"#),
    ];
    let agg = complete_message(&units, &replies);
    assert_eq!(agg.text, "Hello. mundo");
    assert_eq!(agg.errors, vec!["Server translation limit reached.".to_string()]);
    assert!(agg.rate_limited);
}

#[test]
fn non_json_body_keeps_original_text() {
    let units = segment("Hello there");
    assert_eq!(units.len(), 1);
    let replies = vec![ok_reply("<html>oops</html>")];
    let agg = complete_message(&units, &replies);
    assert_eq!(agg.text, "Hello there");
    assert_eq!(agg.errors, vec!["Received invalid response format from server.".to_string()]);
    assert!(!agg.rate_limited);
}

#[test]
fn all_translated_has_empty_error_set() {
    let units = vec![unit("one ", true), unit("two", false)];
    let outcomes = vec![
        UnitOutcome::Translated("uno ".to_string()),
        UnitOutcome::Translated("dos".to_string()),
    ];
    let agg = aggregate(&units, &outcomes);
    assert_eq!(agg.text, "uno dos");
    assert!(agg.errors.is_empty());
    assert!(!agg.rate_limited);
}

#[test]
fn failed_positions_keep_their_original_text() {
    let units = vec![unit("one ", true), unit("two ", true), unit("three", false)];
    let outcomes = vec![
        UnitOutcome::Translated("uno ".to_string()),
        failed(FailureKind::Transient, "boom"),
        UnitOutcome::Translated("tres".to_string()),
    ];
    let agg = aggregate(&units, &outcomes);
    assert_eq!(agg.text, "uno two tres");
}

#[test]
fn error_descriptions_are_deduplicated_and_sorted() {
    let units = vec![unit("a ", true), unit("b ", true), unit("c ", true), unit("d", false)];
    let outcomes = vec![
        failed(FailureKind::Transient, "zeta trouble"),
        failed(FailureKind::Malformed, "alpha trouble"),
        failed(FailureKind::Transient, "zeta trouble"),
        failed(FailureKind::Malformed, "mid trouble"),
    ];
    let agg = aggregate(&units, &outcomes);
    assert_eq!(
        agg.errors,
        vec![
            "alpha trouble".to_string(),
            "mid trouble".to_string(),
            "zeta trouble".to_string(),
        ]
    );
    assert_eq!(agg.text, "a b c d");
}

#[test]
fn rate_limited_flag_follows_the_failure_kinds() {
    let units = vec![unit("a ", true), unit("b", false)];
    let without = aggregate(
        &units,
        &vec![
            failed(FailureKind::Transient, "x"),
            failed(FailureKind::Malformed, "y"),
        ],
    );
    assert!(!without.rate_limited);
    let with = aggregate(
        &units,
        &vec![
            failed(FailureKind::Transient, "x"),
            failed(FailureKind::RateLimited, "limit"),
        ],
    );
    assert!(with.rate_limited);
}

#[test]
fn error_list_does_not_depend_on_failure_order() {
    let units = vec![unit("a ", true), unit("b ", true), unit("c", false)];
    let one = aggregate(
        &units,
        &vec![
            failed(FailureKind::Transient, "late"),
            failed(FailureKind::Malformed, "early"),
            failed(FailureKind::Transient, "late"),
        ],
    );
    let other = aggregate(
        &units,
        &vec![
            failed(FailureKind::Malformed, "early"),
            failed(FailureKind::Transient, "late"),
            failed(FailureKind::Malformed, "early"),
        ],
    );
    assert_eq!(one.errors, other.errors);
    assert_eq!(one.errors, vec!["early".to_string(), "late".to_string()]);
}

#[test]
fn empty_message_aggregates_to_nothing() {
    let units = segment("");
    let replies: Vec<HttpReply> = Vec::new();
    let agg = complete_message(&units, &replies);
    assert_eq!(agg.text, "");
    assert!(agg.errors.is_empty());
    assert!(!agg.rate_limited);
}

#[test]
fn error_summary_joins_sorted_descriptions() {
    let units = vec![unit("a ", true), unit("b ", true), unit("c", false)];
    let outcomes = vec![
        failed(FailureKind::Transient, "second"),
        failed(FailureKind::Malformed, "first"),
        failed(FailureKind::Transient, "second"),
    ];
    let agg = aggregate(&units, &outcomes);
    assert_eq!(agg.error_summary(), "first second");
}

#[test]
fn error_summary_of_clean_aggregate_is_empty() {
    let units = vec![unit("a", false)];
    let outcomes = vec![UnitOutcome::Translated("b".to_string())];
    let agg = aggregate(&units, &outcomes);
    assert_eq!(agg.error_summary(), "");
}
