use vstd::prelude::*;
use crate::rules::{filter_match, filter_matches, Rule};
use crate::text::{contains, has_infix};

verus! {

/// A WebSocket message; text is held as its UTF-8 bytes.
pub enum Message {
    Text(Vec<u8>),
    Binary(Vec<u8>),
    Ping(Vec<u8>),
    Pong(Vec<u8>),
    Close,
}

/// Some rule matching the socket's host and path drops text containing one
/// of its patterns.
pub open spec fn drops_text(rules: Seq<Rule>, host: Seq<u8>, path: Seq<u8>, text: Seq<u8>) -> bool {
    exists|i: int, k: int|
        0 <= i < rules.len() && filter_matches(rules[i].filter, host, path) && 0 <= k
            < rules[i].drop_messages@.len() && contains(text, (#[trigger] rules[i].drop_messages@[k])@)
}

pub open spec fn message_dropped(rules: Seq<Rule>, host: Seq<u8>, path: Seq<u8>, m: Message) -> bool {
    match m {
        Message::Text(t) => drops_text(rules, host, path, t@),
        _ => false,
    }
}

fn rule_drops(rule: &Rule, text: &[u8]) -> (r: bool)
    ensures
        r == exists|k: int| 0 <= k < rule.drop_messages@.len() && contains(text@, (#[trigger] rule.drop_messages@[k])@),
{
    let mut k: usize = 0;
    while k < rule.drop_messages.len()
        invariant
            k <= rule.drop_messages@.len(),
            forall|j: int| 0 <= j < k ==> !contains(text@, (#[trigger] rule.drop_messages@[j])@),
        decreases rule.drop_messages@.len() - k,
    {
        if has_infix(text, rule.drop_messages[k].as_slice()) {
            return true;
        }
        k = k + 1;
    }
    false
}

/// Whether the rules drop a text message.
pub fn text_dropped(rules: &Vec<Rule>, host: &[u8], path: &[u8], text: &[u8]) -> (r: bool)
    ensures
        r == drops_text(rules@, host@, path@, text@),
{
    let mut i: usize = 0;
    while i < rules.len()
        invariant
            i <= rules@.len(),
            forall|a: int, k: int|
                0 <= a < i && filter_matches(rules@[a].filter, host@, path@) && 0 <= k
                    < rules@[a].drop_messages@.len() ==> !contains(text@, (#[trigger] rules@[a].drop_messages@[k])@),
        decreases rules@.len() - i,
    {
        if filter_match(&rules[i].filter, host, path) && rule_drops(&rules[i], text) {
            return true;
        }
        i = i + 1;
    }
    false
}

/// Passes a message through the rules: `None` drops it, otherwise it is
/// forwarded unchanged.
pub fn forward_message(rules: &Vec<Rule>, host: &[u8], path: &[u8], msg: Message) -> (r: Option<Message>)
    ensures
        message_dropped(rules@, host@, path@, msg) ==> r.is_none(),
        !message_dropped(rules@, host@, path@, msg) ==> r == Some(msg),
{
    let drop = match &msg {
        Message::Text(t) => text_dropped(rules, host, path, t.as_slice()),
        _ => false,
    };
    if drop {
        None
    } else {
        Some(msg)
    }
}

} // verus!
