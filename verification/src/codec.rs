use vstd::prelude::*;
use crate::json::{json_from_str, json_get, json_as_str, parsed_json, obj_field, str_content};
use crate::messages::Message;

verus! {

/// The notification a raw payload carries: the payload must parse as a JSON
/// object with a `notification` field whose value holds string fields
/// `title` and `message`; anything else carries nothing.
pub open spec fn notification_of(s: Seq<char>) -> Option<(Seq<char>, Seq<char>)> {
    match parsed_json(s) {
        None => None,
        Some(v) => match obj_field(v, "notification"@) {
            None => None,
            Some(n) => match (obj_field(n, "title"@), obj_field(n, "message"@)) {
                (Some(t), Some(m)) => match (str_content(t), str_content(m)) {
                    (Some(ts), Some(ms)) => Some((ts, ms)),
                    _ => None,
                },
                _ => None,
            },
        },
    }
}

/// Parses an untrusted raw payload into a typed message, or nothing.
/// Total over arbitrary input: malformed payloads yield `None`, never an
/// error or a panic.
pub fn decode(raw: &str) -> (r: Option<Message>)
    ensures
        match notification_of(raw@) {
            Some(tm) => r matches Some(msg) && msg matches Message::Notify { title, body }
                && title@ == tm.0 && body@ == tm.1,
            None => r is None,
        },
{
    match json_from_str(raw) {
        None => None,
        Some(v) => match json_get(&v, "notification") {
            None => None,
            Some(n) => {
                let title_field = json_get(n, "title");
                let message_field = json_get(n, "message");
                match (title_field, message_field) {
                    (Some(tv), Some(mv)) => match (json_as_str(tv), json_as_str(mv)) {
                        (Some(ts), Some(ms)) => Some(
                            Message::Notify { title: ts.to_owned(), body: ms.to_owned() },
                        ),
                        _ => None,
                    },
                    _ => None,
                }
            },
        },
    }
}

} // verus!
