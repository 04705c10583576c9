//! Wire events. A `StreamEvent` pairs an event name with its payload,
//! already serialized as a JSON string, so the transport can frame it as
//! `event: <name>\ndata: <payload>\n\n` verbatim. The payload spec functions
//! pin the serialized text down to the character: object keys in ascending
//! order, compact separators, string contents escaped by
//! [`crate::strutil::json_escape`].

use vstd::prelude::*;
use vstd::string::StringExecFns;
use crate::strutil::{dec_rep, json_escape, push_dec, push_escaped};

verus! {

/// One wire-ready event: a name and a JSON payload string.
pub struct StreamEvent {
    pub event: String,
    pub data: String,
}

/// The mathematical content of a [`StreamEvent`]: both strings as
/// character sequences.
pub struct EventView {
    pub event: Seq<char>,
    pub data: Seq<char>,
}

impl View for StreamEvent {
    type V = EventView;

    open spec fn view(&self) -> EventView {
        EventView { event: self.event@, data: self.data@ }
    }
}

/// Payload of `content_block_start` for the block at `index`; the block
/// opens with an empty text placeholder.
pub open spec fn block_start_payload(index: nat) -> Seq<char> {
    "{\"content_block\":{\"text\":\"\",\"type\":\"text\"},\"index\":"@ + dec_rep(index)
        + ",\"type\":\"content_block_start\"}"@
}

/// Payload of `content_block_delta`: `text` carried as a text delta for the
/// block at `index`.
pub open spec fn block_delta_payload(index: nat, text: Seq<char>) -> Seq<char> {
    "{\"delta\":{\"text\":\""@ + json_escape(text)
        + "\",\"type\":\"text_delta\"},\"index\":"@ + dec_rep(index)
        + ",\"type\":\"content_block_delta\"}"@
}

/// Payload of `content_block_stop` for the block at `index`.
pub open spec fn block_stop_payload(index: nat) -> Seq<char> {
    "{\"index\":"@ + dec_rep(index) + ",\"type\":\"content_block_stop\"}"@
}

/// Payload of `message_delta`: the normalized stop reason, a null stop
/// sequence, and a zero-valued output-token usage placeholder.
pub open spec fn message_delta_payload(stop_reason: Seq<char>) -> Seq<char> {
    "{\"delta\":{\"stop_reason\":\""@ + stop_reason
        + "\",\"stop_sequence\":null},\"type\":\"message_delta\",\"usage\":{\"output_tokens\":0}}"@
}

/// Payload of the terminal `message_stop` event.
pub open spec fn message_stop_payload() -> Seq<char> {
    "{\"type\":\"message_stop\"}"@
}

/// Payload of the one-time `message_start` envelope: an empty content list,
/// null stop reason and stop sequence, and zero usage counters.
pub open spec fn message_start_payload(msg_id: Seq<char>, model: Seq<char>) -> Seq<char> {
    "{\"message\":{\"content\":[],\"id\":\""@ + json_escape(msg_id) + "\",\"model\":\""@
        + json_escape(model)
        + "\",\"role\":\"assistant\",\"stop_reason\":null,\"stop_sequence\":null,\"type\":\"message\",\"usage\":{\"input_tokens\":0,\"output_tokens\":0}},\"type\":\"message_start\"}"@
}

/// Builds the `content_block_start` event for the block at `index`.
pub fn make_block_start(index: usize) -> (e: StreamEvent)
    ensures
        e@.event == "content_block_start"@,
        e@.data == block_start_payload(index as nat),
{
    let mut data = String::new();
    data.append("{\"content_block\":{\"text\":\"\",\"type\":\"text\"},\"index\":");
    push_dec(&mut data, index);
    data.append(",\"type\":\"content_block_start\"}");
    proof {
        assert(data@ =~= block_start_payload(index as nat));
    }
    StreamEvent { event: String::from_str("content_block_start"), data }
}

/// Builds the `content_block_delta` event carrying `text` for the block at
/// `index`.
pub fn make_block_delta(index: usize, text: &str) -> (e: StreamEvent)
    ensures
        e@.event == "content_block_delta"@,
        e@.data == block_delta_payload(index as nat, text@),
{
    let mut data = String::new();
    data.append("{\"delta\":{\"text\":\"");
    push_escaped(&mut data, text);
    data.append("\",\"type\":\"text_delta\"},\"index\":");
    push_dec(&mut data, index);
    data.append(",\"type\":\"content_block_delta\"}");
    proof {
        assert(data@ =~= block_delta_payload(index as nat, text@));
    }
    StreamEvent { event: String::from_str("content_block_delta"), data }
}

/// Builds the `content_block_stop` event for the block at `index`.
pub fn make_block_stop(index: usize) -> (e: StreamEvent)
    ensures
        e@.event == "content_block_stop"@,
        e@.data == block_stop_payload(index as nat),
{
    let mut data = String::new();
    data.append("{\"index\":");
    push_dec(&mut data, index);
    data.append(",\"type\":\"content_block_stop\"}");
    proof {
        assert(data@ =~= block_stop_payload(index as nat));
    }
    StreamEvent { event: String::from_str("content_block_stop"), data }
}

/// Builds the `message_delta` event that carries the normalized stop reason.
/// The reason is one of the protocol's fixed tokens, so it needs no escaping.
pub fn make_message_delta(stop_reason: &str) -> (e: StreamEvent)
    ensures
        e@.event == "message_delta"@,
        e@.data == message_delta_payload(stop_reason@),
{
    let mut data = String::new();
    data.append("{\"delta\":{\"stop_reason\":\"");
    data.append(stop_reason);
    data.append("\",\"stop_sequence\":null},\"type\":\"message_delta\",\"usage\":{\"output_tokens\":0}}");
    proof {
        assert(data@ =~= message_delta_payload(stop_reason@));
    }
    StreamEvent { event: String::from_str("message_delta"), data }
}

/// Builds the terminal `message_stop` event.
pub fn make_message_stop() -> (e: StreamEvent)
    ensures
        e@.event == "message_stop"@,
        e@.data == message_stop_payload(),
{
    let mut data = String::new();
    data.append("{\"type\":\"message_stop\"}");
    proof {
        assert(data@ =~= message_stop_payload());
    }
    StreamEvent { event: String::from_str("message_stop"), data }
}

} // verus!
