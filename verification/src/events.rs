//! Dispatch decisions for the host's handlers.
//!
//! The host hands every incoming event's raw fields, and every outgoing
//! command's text, to these functions and acts on the plan they return:
//! nothing here touches the host or the network. Two decisions live here.
//! First, the guard against feedback loops: the pipeline re-injects
//! translated text into the same event stream it observes, so every
//! re-injected event carries a sentinel as its last field and events that
//! carry it are ignored. Second, the direction of each translation: an
//! outgoing message goes from the user's language to the remote one, an
//! incoming message the other way around.

use vstd::prelude::*;
use vstd::string::StringExecFns;
use crate::registry::LanguagePair;

verus! {

/// The sentinel appended as the last field of every re-injected event.
pub open spec fn sentinel() -> Seq<char> {
    "~"@
}

/// Views of raw event fields.
pub open spec fn field_views(ws: Seq<String>) -> Seq<Seq<char>> {
    ws.map_values(|w: String| w@)
}

/// The event is synthetic or not worth processing: too few fields, or
/// its last field is the sentinel of a re-injected event.
pub open spec fn spec_synthetic(fields: Seq<Seq<char>>) -> bool {
    fields.len() < 2 || fields.last() == sentinel()
}

/// The guard against feedback loops: whether an event must be ignored
/// because it is one of the pipeline's own re-injections (or has too few
/// fields to process).
pub fn is_synthetic_event(fields: &Vec<String>) -> (r: bool)
    ensures
        r == spec_synthetic(field_views(fields@)),
{
    let n = fields.len();
    if n < 2 {
        return true;
    }
    let marker: String = "~".to_owned();
    let r = fields[n - 1] == marker;
    proof {
        assert(field_views(fields@).last() == fields@[n - 1]@);
    }
    r
}

/// What the incoming-message handler should do.
pub enum IncomingPlan {
    /// A synthetic event: ignore it entirely. This is the guard that
    /// keeps re-injected text from being translated again.
    Ignore,
    /// Translation is off for this context: leave the event to the host.
    PassThrough,
    /// Snapshot these values, translate off the UI thread, and re-inject
    /// the result.
    Translate {
        /// The sending party, for re-emitting the event.
        sender: String,
        /// The raw message text, shown to the user beside the result.
        message: String,
        /// The event's mode character, when the host supplied one.
        mode_char: String,
        /// The request's source language: the remote party's language.
        request_source: String,
        /// The request's target language: the user's own language.
        request_target: String,
    },
}

/// Decides what to do with one incoming event, from its raw fields and
/// the context's registry entry. An incoming message was written in the
/// context's target language, so the request runs target-to-source.
pub fn plan_incoming_event(fields: &Vec<String>, langs: &Option<LanguagePair>) -> (p: IncomingPlan)
    ensures
        spec_synthetic(field_views(fields@)) ==> p is Ignore,
        !spec_synthetic(field_views(fields@)) && langs is None ==> p is PassThrough,
        !spec_synthetic(field_views(fields@)) ==> (langs matches Some(lp) ==> (p
            matches IncomingPlan::Translate {
            sender,
            message,
            mode_char,
            request_source,
            request_target,
        } && sender@ == fields@[0]@ && message@ == fields@[1]@ && mode_char@ == (
        if fields@.len() > 2 {
            fields@[2]@
        } else {
            Seq::<char>::empty()
        }) && request_source@ == lp.target@ && request_target@ == lp.source@)),
{
    if is_synthetic_event(fields) {
        return IncomingPlan::Ignore;
    }
    match langs {
        None => IncomingPlan::PassThrough,
        Some(lp) => {
            let mode_char = if fields.len() > 2 {
                fields[2].clone()
            } else {
                String::new()
            };
            IncomingPlan::Translate {
                sender: fields[0].clone(),
                message: fields[1].clone(),
                mode_char,
                request_source: lp.target.clone(),
                request_target: lp.source.clone(),
            }
        },
    }
}

/// What the outgoing say or action command should do.
pub enum OutgoingPlan {
    /// Translation is off for this context: let the host treat the text
    /// as an ordinary untranslated command.
    PassThrough,
    /// Snapshot these values, translate off the UI thread, and send the
    /// result.
    Translate {
        /// The text the user wants to send.
        message: String,
        /// The request's source language: the user's own language.
        request_source: String,
        /// The request's target language: the remote party's language.
        request_target: String,
    },
}

/// Decides what to do with one outgoing command, from the command's
/// fields (the text from the second field on, as one string) and the
/// context's registry entry. An outgoing message is in the user's own
/// language, so the request runs source-to-target.
pub fn plan_outgoing_command(word_eol: &Vec<String>, langs: &Option<LanguagePair>) -> (p:
    OutgoingPlan)
    requires
        word_eol@.len() >= 2,
    ensures
        langs is None <==> p is PassThrough,
        langs matches Some(lp) ==> (p matches OutgoingPlan::Translate {
            message,
            request_source,
            request_target,
        } && message@ == word_eol@[1]@ && request_source@ == lp.source@ && request_target@
            == lp.target@),
{
    match langs {
        None => OutgoingPlan::PassThrough,
        Some(lp) => OutgoingPlan::Translate {
            message: word_eol[1].clone(),
            request_source: lp.source.clone(),
            request_target: lp.target.clone(),
        },
    }
}

/// The fields for re-injecting a translated incoming message: sender,
/// text, the mode character when there is one, and the sentinel last.
/// The result always passes the synthetic-event guard, so a re-injected
/// event can never be processed a second time.
pub fn synthetic_emit_args(sender: &String, message: &String, mode_char: &String) -> (args: Vec<
    String,
>)
    ensures
        field_views(args@) == (if mode_char@.len() > 0 {
            seq![sender@, message@, mode_char@, sentinel()]
        } else {
            seq![sender@, message@, sentinel()]
        }),
        spec_synthetic(field_views(args@)),
{
    let mut args: Vec<String> = Vec::new();
    args.push(sender.clone());
    args.push(message.clone());
    if !mode_char.as_str().is_empty() {
        args.push(mode_char.clone());
    }
    args.push("~".to_owned());
    proof {
        if mode_char@.len() > 0 {
            assert(field_views(args@) =~= seq![sender@, message@, mode_char@, sentinel()]);
        } else {
            assert(field_views(args@) =~= seq![sender@, message@, sentinel()]);
        }
    }
    args
}

/// The command line that sends the translated text onward: the say or
/// action command word, one space, and the text.
pub fn outgoing_command(cmd: &str, text: &str) -> (r: String)
    ensures
        r@ == cmd@ + " "@ + text@,
{
    let mut r = String::new();
    r.append(cmd);
    r.append(" ");
    r.append(text);
    proof {
        assert(Seq::<char>::empty() + cmd@ =~= cmd@);
        assert(r@ == ((Seq::<char>::empty() + cmd@) + " "@) + text@);
    }
    r
}

} // verus!
