//! MQTT over WebSockets: the subprotocol, and what a frame means.
use vstd::prelude::*;
use crate::text;
use crate::text::{chars_are, chars_of, lower, lower_chars, split, split_chars, trim, trim_chars};

verus! {

broadcast use text::group_views;

/// Whether an entry of a list of subprotocols is MQTT.
pub open spec fn is_mqtt(entry: Seq<char>) -> bool {
    lower(trim(entry)) == "mqtt"@
}

/// Whether a list of subprotocols names MQTT.
pub open spec fn names_mqtt(list: Seq<char>) -> bool {
    exists|i: int| 0 <= i < split(list, ',').len() && #[trigger] is_mqtt(split(list, ',')[i])
}

fn list_names_mqtt(list: &str) -> (r: bool)
    ensures
        r == names_mqtt(list@),
{
    let c: Vec<char> = chars_of(list);
    let parts: Vec<Vec<char>> = split_chars(c.as_slice(), ',');
    let ghost all = split(list@, ',');
    assert(text::views(parts@).len() == parts@.len());
    let mut i: usize = 0;
    while i < parts.len()
        invariant
            i <= parts@.len(),
            all == split(list@, ','),
            all == text::views(parts@),
            all.len() == parts@.len(),
            forall|j: int| 0 <= j < i ==> !#[trigger] is_mqtt(all[j]),
        decreases parts.len() - i,
    {
        assert(all[i as int] == parts@[i as int]@);
        let t: Vec<char> = trim_chars(parts[i].as_slice());
        let l: Vec<char> = lower_chars(t.as_slice());
        if chars_are(l.as_slice(), "mqtt") {
            assert(is_mqtt(split(list@, ',')[i as int]));
            return true;
        }
        i = i + 1;
    }
    false
}

/// Whether a client offers MQTT: one of its lists of subprotocols names it. Only
/// then does the server choose it.
pub fn offers_mqtt(lists: &Vec<String>) -> (r: bool)
    ensures
        r == exists|i: int| 0 <= i < lists@.len() && names_mqtt((#[trigger] lists@[i])@),
{
    let mut i: usize = 0;
    while i < lists.len()
        invariant
            i <= lists@.len(),
            forall|j: int| 0 <= j < i ==> !names_mqtt((#[trigger] lists@[j])@),
        decreases lists.len() - i,
    {
        if list_names_mqtt(lists[i].as_str()) {
            return true;
        }
        i = i + 1;
    }
    false
}

/// The kinds of frames.
#[derive(Debug, Clone, Copy, PartialEq, Eq, Structural)]
pub enum FrameKind {
    Binary,
    Text,
    Close,
    /// Pings, pongs, and other frames that carry nothing.
    Control,
}

/// What a frame means to the stream of packets.
#[derive(Debug, Clone, Copy, PartialEq, Eq, Structural)]
pub enum FrameStep {
    /// Its bytes follow those before.
    Append,
    /// It is passed over.
    Skip,
    /// The stream ends.
    End,
    /// It may not be sent: packets travel in binary frames alone.
    Refuse,
}

/// What a frame means to the stream of packets.
pub fn on_frame(kind: FrameKind) -> (r: FrameStep)
    ensures
        r is Append == (kind is Binary),
        r is Refuse == (kind is Text),
        r is End == (kind is Close),
{
    match kind {
        FrameKind::Binary => FrameStep::Append,
        FrameKind::Text => FrameStep::Refuse,
        FrameKind::Close => FrameStep::End,
        FrameKind::Control => FrameStep::Skip,
    }
}

} // verus!
