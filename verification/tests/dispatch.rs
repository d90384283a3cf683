use chat_translator::events::{
    is_synthetic_event, outgoing_command, plan_incoming_event, plan_outgoing_command,
    synthetic_emit_args, IncomingPlan, OutgoingPlan,
};
use chat_translator::registry::LanguagePair;

fn strings(fields: &[&str]) -> Vec<String> {
    fields.iter().map(|s| s.to_string()).collect()
}

fn pair(source: &str, target: &str) -> LanguagePair {
    LanguagePair { source: source.to_string(), target: target.to_string() }
}

#[test]
fn sentinel_tagged_event_is_synthetic() {
    assert!(is_synthetic_event(&strings(&["nick", "hola", "~"])));
    assert!(is_synthetic_event(&strings(&["nick", "hola", "+", "~"])));
}

#[test]
fn ordinary_event_is_not_synthetic() {
    assert!(!is_synthetic_event(&strings(&["nick", "hello"])));
    assert!(!is_synthetic_event(&strings(&["nick", "hello", "+"])));
}

#[test]
fn too_short_event_is_treated_as_synthetic() {
    assert!(is_synthetic_event(&strings(&["nick"])));
    assert!(is_synthetic_event(&strings(&[])));
}

#[test]
fn synthetic_event_is_ignored_even_with_translation_on() {
    let p = plan_incoming_event(&strings(&["nick", "hola", "~"]), &Some(pair("en", "es")));
    assert!(matches!(p, IncomingPlan::Ignore));
}

#[test]
fn incoming_event_without_entry_passes_through() {
    let p = plan_incoming_event(&strings(&["nick", "hello"]), &None);
    assert!(matches!(p, IncomingPlan::PassThrough));
}

#[test]
fn incoming_translation_runs_target_to_source() {
    let p = plan_incoming_event(&strings(&["nick", "hola"]), &Some(pair("en", "es")));
    match p {
        IncomingPlan::Translate { sender, message, mode_char, request_source, request_target } => {
            assert_eq!(sender, "nick");
            assert_eq!(message, "hola");
            assert_eq!(mode_char, "");
            assert_eq!(request_source, "es");
            assert_eq!(request_target, "en");
        }
        IncomingPlan::Ignore | IncomingPlan::PassThrough => panic!("expected a translation plan"),
    }
}

#[test]
fn incoming_mode_character_is_kept() {
    let p = plan_incoming_event(&strings(&["nick", "hola", "@"]), &Some(pair("en", "es")));
    match p {
        IncomingPlan::Translate { mode_char, .. } => assert_eq!(mode_char, "@"),
        IncomingPlan::Ignore | IncomingPlan::PassThrough => panic!("expected a translation plan"),
    }
}

#[test]
fn outgoing_command_without_entry_passes_through() {
    let p = plan_outgoing_command(&strings(&["LSAY", "hello world"]), &None);
    assert!(matches!(p, OutgoingPlan::PassThrough));
}

#[test]
fn outgoing_translation_runs_source_to_target() {
    let p = plan_outgoing_command(&strings(&["LSAY", "hello world"]), &Some(pair("en", "es")));
    match p {
        OutgoingPlan::Translate { message, request_source, request_target } => {
            assert_eq!(message, "hello world");
            assert_eq!(request_source, "en");
            assert_eq!(request_target, "es");
        }
        OutgoingPlan::PassThrough => panic!("expected a translation plan"),
    }
}

#[test]
fn emitted_fields_end_with_the_sentinel() {
    let args = synthetic_emit_args(
        &"nick".to_string(),
        &"hola".to_string(),
        &"".to_string(),
    );
    assert_eq!(args, vec!["nick".to_string(), "hola".to_string(), "~".to_string()]);
    assert!(is_synthetic_event(&args));
}

#[test]
fn emitted_fields_keep_the_mode_character() {
    let args = synthetic_emit_args(
        &"nick".to_string(),
        &"hola".to_string(),
        &"@".to_string(),
    );
    assert_eq!(
        args,
        vec!["nick".to_string(), "hola".to_string(), "@".to_string(), "~".to_string()]
    );
    assert!(is_synthetic_event(&args));
}

#[test]
fn outgoing_command_line_is_command_space_text() {
    assert_eq!(outgoing_command("SAY", "hola mundo"), "SAY hola mundo");
    assert_eq!(outgoing_command("ME", "saluda"), "ME saluda");
}
