use chat_translator::outcome::{FailureKind, UnitOutcome};
use chat_translator::segment::Unit;
use chat_translator::translate::{build_request_url, classify_reply, HttpReply};

fn unit(text: &str, trailing_space: bool) -> Unit {
    Unit { text: text.to_string(), trailing_space }
}

fn status(code: u16, text: &str, body: Option<&str>) -> HttpReply {
    HttpReply::Status {
        status: code,
        status_text: text.to_string(),
        body: body.map(|b| b.to_string()),
    }
}

#[test]
fn request_url_holds_escaped_text_and_languages() {
    let url = build_request_url("a b?", "en", "es").expect("escaping must succeed");
    assert_eq!(
        url,
        "https://translate.googleapis.com/translate_a/single?client=gtx&sl=en&tl=es&dt=t&q=a%20b%3F"
    );
}

#[test]
fn request_url_keeps_safe_characters() {
    let url = build_request_url("Hi.", "de", "fr").expect("escaping must succeed");
    assert_eq!(
        url,
        "https://translate.googleapis.com/translate_a/single?client=gtx&sl=de&tl=fr&dt=t&q=Hi."
    );
}

#[test]
fn success_with_well_formed_body_is_translated() {
    let o = classify_reply(&unit("Hello", false), &status(200, "OK", Some(r#"[[["Hola"]]]"#)));
    match o {
        UnitOutcome::Translated(t) => assert_eq!(t, "Hola"),
        UnitOutcome::Failed(_, _) => panic!("expected a translation"),
    }
}

#[test]
fn trailing_space_is_put_back_after_translation() {
    let o = classify_reply(&unit("Hello. ", true), &status(200, "OK", Some(r#"[[["Hola."]]]"#)));
    match o {
        UnitOutcome::Translated(t) => assert_eq!(t, "Hola. "),
        UnitOutcome::Failed(_, _) => panic!("expected a translation"),
    }
}

#[test]
fn non_json_body_is_malformed() {
    let o = classify_reply(&unit("Hello", false), &status(200, "OK", Some("this is not json")));
    match o {
        UnitOutcome::Failed(kind, detail) => {
            assert_eq!(kind, FailureKind::Malformed);
            assert_eq!(detail, "Received invalid response format from server.");
        }
        UnitOutcome::Translated(_) => panic!("expected a failure"),
    }
}

#[test]
fn json_body_without_text_at_the_fixed_path_is_malformed() {
    let o = classify_reply(&unit("Hello", false), &status(200, "OK", Some(r#"{"a": 1}"#)));
    match o {
        UnitOutcome::Failed(kind, detail) => {
            assert_eq!(kind, FailureKind::Malformed);
            assert_eq!(detail, "Received invalid response format from server.");
        }
        UnitOutcome::Translated(_) => panic!("expected a failure"),
    }
}

#[test]
fn status_403_is_rate_limited() {
    let o = classify_reply(&unit("Hello", false), &status(403, "Forbidden", None));
    match o {
        UnitOutcome::Failed(kind, detail) => {
            assert_eq!(kind, FailureKind::RateLimited);
            assert_eq!(detail, "Server translation limit reached.");
        }
        UnitOutcome::Translated(_) => panic!("expected a failure"),
    }
}

#[test]
fn other_error_status_carries_the_status_text() {
    let o = classify_reply(&unit("Hello", false), &status(500, "Internal Server Error", None));
    match o {
        UnitOutcome::Failed(kind, detail) => {
            assert_eq!(kind, FailureKind::Malformed);
            assert_eq!(detail, "Internal Server Error");
        }
        UnitOutcome::Translated(_) => panic!("expected a failure"),
    }
}

#[test]
fn no_response_is_transient() {
    let o = classify_reply(&unit("Hello", false), &HttpReply::NoResponse);
    match o {
        UnitOutcome::Failed(kind, detail) => {
            assert_eq!(kind, FailureKind::Transient);
            assert_eq!(detail, "Failed to get response from translation server.");
        }
        UnitOutcome::Translated(_) => panic!("expected a failure"),
    }
}

#[test]
fn unreadable_body_on_success_is_malformed() {
    let o = classify_reply(&unit("Hello", false), &status(200, "OK", None));
    match o {
        UnitOutcome::Failed(kind, detail) => {
            assert_eq!(kind, FailureKind::Malformed);
            assert_eq!(detail, "Failed to get text for HTTP response body.");
        }
        UnitOutcome::Translated(_) => panic!("expected a failure"),
    }
}

#[test]
fn unsent_request_is_malformed() {
    let o = classify_reply(&unit("Hello", false), &HttpReply::NotSent);
    match o {
        UnitOutcome::Failed(kind, detail) => {
            assert_eq!(kind, FailureKind::Malformed);
            assert_eq!(detail, "URL message escaping failed.");
        }
        UnitOutcome::Translated(_) => panic!("expected a failure"),
    }
}
