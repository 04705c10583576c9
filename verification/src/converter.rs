//! The block lifecycle manager: rebuilds Anthropic's block-oriented event
//! framing from flat upstream deltas. One converter instance is bound to one
//! upstream response stream and must see its chunks in arrival order.
//!
//! The whole transition is pinned down by [`chunk_step`], a spec function
//! from the converter's abstract state and a chunk's abstract content to the
//! next state and the exact ordered event sequence; `process_chunk` is
//! proved to follow it.

use vstd::prelude::*;
use crate::events::{
    block_delta_payload, block_start_payload, block_stop_payload, make_block_delta,
    make_block_start, make_block_stop, make_message_delta, make_message_stop,
    message_delta_payload, message_start_payload, message_stop_payload, EventView, StreamEvent,
};
use crate::strutil::{push_escaped, str_eq};
use vstd::string::StringExecFns;

verus! {

/// The kind of content block currently open, if any. `Tool` is a reserved
/// variant that no transition reaches yet; it keeps the type's shape ready
/// for upstream tool-call streaming.
#[derive(Debug, PartialEq, Eq, Structural, Clone, Copy)]
pub enum ResponseType {
    Idle,
    Thinking,
    Text,
    Tool,
}

/// The delta fields of one upstream choice, already decoded to plain
/// values; absent fields stay absent rather than defaulted, so the
/// converter itself owns the defaulting rules.
pub struct ChunkDelta {
    pub content: Option<String>,
    pub thought: Option<bool>,
    pub thought_signature: Option<String>,
}

/// One upstream choice: an optional delta and an optional finish reason.
pub struct ChunkChoice {
    pub delta: Option<ChunkDelta>,
    pub finish_reason: Option<String>,
}

/// One decoded upstream chunk. An empty `choices` list is a tolerated
/// heartbeat, not an error.
pub struct UpstreamChunk {
    pub choices: Vec<ChunkChoice>,
}

/// What the converter reads of a chunk: whether a choice is present, the
/// derived classification (content text, is-thinking), and the finish
/// reason if any. Only the first choice counts.
pub struct ChunkView {
    pub has_choice: bool,
    pub content: Seq<char>,
    pub thinking: bool,
    pub finish: Option<Seq<char>>,
}

impl View for UpstreamChunk {
    type V = ChunkView;

    open spec fn view(&self) -> ChunkView {
        if self.choices@.len() == 0 {
            ChunkView {
                has_choice: false,
                content: Seq::empty(),
                thinking: false,
                finish: Option::None,
            }
        } else {
            ChunkView {
                has_choice: true,
                content: match self.choices@[0].delta {
                    Option::Some(d) => match d.content {
                        Option::Some(s) => s@,
                        Option::None => Seq::empty(),
                    },
                    Option::None => Seq::empty(),
                },
                thinking: match self.choices@[0].delta {
                    Option::Some(d) => (match d.thought {
                        Option::Some(b) => b,
                        Option::None => false,
                    }) || d.thought_signature is Some,
                    Option::None => false,
                },
                finish: match self.choices@[0].finish_reason {
                    Option::Some(r) => Option::Some(r@),
                    Option::None => Option::None,
                },
            }
        }
    }
}

/// A chunk carries a content signal when it has non-empty text, a thought
/// flag, or a thought signature; any of these marks the stream as having
/// produced content.
pub open spec fn chunk_signal(c: ChunkView) -> bool {
    c.content.len() > 0 || c.thinking
}

/// The converter's abstract state: how many blocks have been closed so far
/// (which is also the index of the block open or next to open), the kind of
/// the open block, and whether any content has been seen.
pub struct ConverterView {
    pub response_index: nat,
    pub current_type: ResponseType,
    pub has_content: bool,
}

/// Converts one upstream response stream; create one instance per stream
/// and feed it every decoded chunk in arrival order.
pub struct ClaudeStreamConverter {
    pub response_index: usize,
    pub current_type: ResponseType,
    pub has_content: bool,
}

impl View for ClaudeStreamConverter {
    type V = ConverterView;

    open spec fn view(&self) -> ConverterView {
        ConverterView {
            response_index: self.response_index as nat,
            current_type: self.current_type,
            has_content: self.has_content,
        }
    }
}

/// The downstream vocabulary for an upstream finish reason; anything
/// unrecognized falls back to `end_turn`.
pub open spec fn spec_stop_reason(r: Seq<char>) -> Seq<char> {
    if r == "length"@ || r == "MAX_TOKENS"@ {
        "max_tokens"@
    } else if r == "stop"@ || r == "STOP"@ {
        "end_turn"@
    } else if r == "tool_calls"@ || r == "function_call"@ {
        "tool_use"@
    } else {
        "end_turn"@
    }
}

pub open spec fn event_view(name: Seq<char>, data: Seq<char>) -> EventView {
    EventView { event: name, data }
}

/// The content part of a transition: an incoming thinking signal closes an
/// open `Text` block and an incoming text delta closes an open `Thinking`
/// block, the matching block is opened if none is open, and non-empty text
/// is always carried as a delta of the block then current.
pub open spec fn content_step(st: ConverterView, c: ChunkView) -> (ConverterView, Seq<EventView>) {
    if c.thinking {
        let st1 = if st.current_type == ResponseType::Text {
            ConverterView {
                response_index: st.response_index + 1,
                current_type: ResponseType::Idle,
                has_content: st.has_content,
            }
        } else {
            st
        };
        let e1 = if st.current_type == ResponseType::Text {
            seq![event_view("content_block_stop"@, block_stop_payload(st.response_index))]
        } else {
            Seq::empty()
        };
        let st2 = if st1.current_type == ResponseType::Idle {
            ConverterView {
                response_index: st1.response_index,
                current_type: ResponseType::Thinking,
                has_content: st1.has_content,
            }
        } else {
            st1
        };
        let e2 = if st1.current_type == ResponseType::Idle {
            seq![event_view("content_block_start"@, block_start_payload(st1.response_index))]
        } else {
            Seq::empty()
        };
        let e3 = if c.content.len() > 0 {
            seq![
                event_view(
                    "content_block_delta"@,
                    block_delta_payload(st2.response_index, c.content),
                ),
            ]
        } else {
            Seq::empty()
        };
        (st2, e1 + e2 + e3)
    } else if c.content.len() > 0 {
        let st1 = if st.current_type == ResponseType::Thinking {
            ConverterView {
                response_index: st.response_index + 1,
                current_type: ResponseType::Idle,
                has_content: st.has_content,
            }
        } else {
            st
        };
        let e1 = if st.current_type == ResponseType::Thinking {
            seq![event_view("content_block_stop"@, block_stop_payload(st.response_index))]
        } else {
            Seq::empty()
        };
        let st2 = if st1.current_type == ResponseType::Idle {
            ConverterView {
                response_index: st1.response_index,
                current_type: ResponseType::Text,
                has_content: st1.has_content,
            }
        } else {
            st1
        };
        let e2 = if st1.current_type == ResponseType::Idle {
            seq![event_view("content_block_start"@, block_start_payload(st1.response_index))]
        } else {
            Seq::empty()
        };
        let e3 = seq![
            event_view("content_block_delta"@, block_delta_payload(st2.response_index, c.content)),
        ];
        (st2, e1 + e2 + e3)
    } else {
        (st, Seq::empty())
    }
}

/// The finish part of a transition: a finish reason closes whatever block
/// is still open, then a `message_delta` with the normalized stop reason
/// and the terminal `message_stop` follow.
pub open spec fn finish_step(st: ConverterView, c: ChunkView) -> (ConverterView, Seq<EventView>) {
    match c.finish {
        Option::Some(reason) => {
            let st1 = if st.current_type != ResponseType::Idle {
                ConverterView {
                    response_index: st.response_index + 1,
                    current_type: ResponseType::Idle,
                    has_content: st.has_content,
                }
            } else {
                st
            };
            let e1 = if st.current_type != ResponseType::Idle {
                seq![event_view("content_block_stop"@, block_stop_payload(st.response_index))]
            } else {
                Seq::empty()
            };
            (
                st1,
                e1 + seq![
                    event_view("message_delta"@, message_delta_payload(spec_stop_reason(reason))),
                    event_view("message_stop"@, message_stop_payload()),
                ],
            )
        },
        Option::None => (st, Seq::empty()),
    }
}

/// One whole transition: a chunk without a choice is a no-op; otherwise the
/// content signal is recorded, the content part runs, and the finish part
/// runs on the resulting state.
pub open spec fn chunk_step(st: ConverterView, c: ChunkView) -> (ConverterView, Seq<EventView>) {
    if !c.has_choice {
        (st, Seq::empty())
    } else {
        let st0 = ConverterView {
            response_index: st.response_index,
            current_type: st.current_type,
            has_content: st.has_content || chunk_signal(c),
        };
        let r1 = content_step(st0, c);
        let r2 = finish_step(r1.0, c);
        (r2.0, r1.1 + r2.1)
    }
}

/// The produced events match the abstract event sequence element by element.
pub open spec fn events_match(es: Seq<StreamEvent>, vs: Seq<EventView>) -> bool {
    es.len() == vs.len() && (forall|i: int| 0 <= i < es.len() ==> (#[trigger] es[i])@ == vs[i])
}

/// How many `content_block_stop` events a sequence holds.
pub open spec fn count_stops(vs: Seq<EventView>) -> nat
    decreases vs.len(),
{
    if vs.len() == 0 {
        0
    } else {
        (if vs[0].event == "content_block_stop"@ {
            1nat
        } else {
            0nat
        }) + count_stops(vs.skip(1))
    }
}

proof fn lemma_count_stops_add(a: Seq<EventView>, b: Seq<EventView>)
    ensures
        count_stops(a + b) == count_stops(a) + count_stops(b),
    decreases a.len(),
{
    if a.len() == 0 {
        assert(a + b =~= b);
    } else {
        assert((a + b)[0] == a[0]);
        assert((a + b).skip(1) =~= a.skip(1) + b);
        lemma_count_stops_add(a.skip(1), b);
    }
}

proof fn lemma_count_stops_one(e: EventView)
    ensures
        count_stops(seq![e]) == (if e.event == "content_block_stop"@ {
            1nat
        } else {
            0nat
        }),
{
    assert(seq![e].skip(1) =~= Seq::<EventView>::empty());
    assert(count_stops(Seq::<EventView>::empty()) == 0);
}

proof fn lemma_event_names_distinct()
    ensures
        "content_block_start"@ != "content_block_stop"@,
        "content_block_delta"@ != "content_block_stop"@,
        "message_delta"@ != "content_block_stop"@,
        "message_stop"@ != "content_block_stop"@,
{
    reveal_strlit("content_block_start");
    reveal_strlit("content_block_stop");
    reveal_strlit("content_block_delta");
    reveal_strlit("message_delta");
    reveal_strlit("message_stop");
    assert("content_block_start"@.len() == 19);
    assert("content_block_stop"@.len() == 18);
    assert("content_block_delta"@.len() == 19);
    assert("message_delta"@.len() == 13);
    assert("message_stop"@.len() == 12);
}

proof fn lemma_content_step_counts(st: ConverterView, c: ChunkView)
    ensures
        content_step(st, c).0.response_index == st.response_index + count_stops(
            content_step(st, c).1,
        ),
{
    lemma_event_names_distinct();
    let r = content_step(st, c);
    if c.thinking || c.content.len() > 0 {
        let e1 = if (c.thinking && st.current_type == ResponseType::Text) || (!c.thinking
            && st.current_type == ResponseType::Thinking) {
            seq![event_view("content_block_stop"@, block_stop_payload(st.response_index))]
        } else {
            Seq::<EventView>::empty()
        };
        let st1 = if (c.thinking && st.current_type == ResponseType::Text) || (!c.thinking
            && st.current_type == ResponseType::Thinking) {
            ConverterView {
                response_index: st.response_index + 1,
                current_type: ResponseType::Idle,
                has_content: st.has_content,
            }
        } else {
            st
        };
        let e2 = if st1.current_type == ResponseType::Idle {
            seq![event_view("content_block_start"@, block_start_payload(st1.response_index))]
        } else {
            Seq::<EventView>::empty()
        };
        let e3 = if c.content.len() > 0 {
            seq![
                event_view(
                    "content_block_delta"@,
                    block_delta_payload(r.0.response_index, c.content),
                ),
            ]
        } else {
            Seq::<EventView>::empty()
        };
        assert(r.1 == e1 + e2 + e3);
        lemma_count_stops_add(e1 + e2, e3);
        lemma_count_stops_add(e1, e2);
        if e1.len() > 0 {
            lemma_count_stops_one(e1[0]);
            assert(e1 =~= seq![e1[0]]);
        }
        if e2.len() > 0 {
            lemma_count_stops_one(e2[0]);
            assert(e2 =~= seq![e2[0]]);
        }
        if e3.len() > 0 {
            lemma_count_stops_one(e3[0]);
            assert(e3 =~= seq![e3[0]]);
        }
    }
}

proof fn lemma_finish_step_counts(st: ConverterView, c: ChunkView)
    ensures
        finish_step(st, c).0.response_index == st.response_index + count_stops(
            finish_step(st, c).1,
        ),
{
    lemma_event_names_distinct();
    if let Option::Some(reason) = c.finish {
        let e1 = if st.current_type != ResponseType::Idle {
            seq![event_view("content_block_stop"@, block_stop_payload(st.response_index))]
        } else {
            Seq::<EventView>::empty()
        };
        let tail = seq![
            event_view("message_delta"@, message_delta_payload(spec_stop_reason(reason))),
            event_view("message_stop"@, message_stop_payload()),
        ];
        assert(finish_step(st, c).1 == e1 + tail);
        lemma_count_stops_add(e1, tail);
        if e1.len() > 0 {
            lemma_count_stops_one(e1[0]);
            assert(e1 =~= seq![e1[0]]);
        }
        assert(tail.skip(1) =~= seq![tail[1]]);
        lemma_count_stops_one(tail[1]);
        assert(count_stops(tail) == 0);
    }
}

/// The block index is the count of blocks closed so far: every transition
/// advances it by exactly the number of `content_block_stop` events it
/// produces.
pub proof fn lemma_index_counts_closed_blocks(st: ConverterView, c: ChunkView)
    ensures
        chunk_step(st, c).0.response_index == st.response_index + count_stops(chunk_step(st, c).1),
{
    if c.has_choice {
        let st0 = ConverterView {
            response_index: st.response_index,
            current_type: st.current_type,
            has_content: st.has_content || chunk_signal(c),
        };
        let r1 = content_step(st0, c);
        let r2 = finish_step(r1.0, c);
        lemma_content_step_counts(st0, c);
        lemma_finish_step_counts(r1.0, c);
        lemma_count_stops_add(r1.1, r2.1);
    }
}

/// A chunk with no choice changes nothing and produces no events.
pub proof fn lemma_empty_chunk_is_noop(st: ConverterView, c: ChunkView)
    requires
        !c.has_choice,
    ensures
        chunk_step(st, c).0 == st,
        chunk_step(st, c).1 == Seq::<EventView>::empty(),
{
}

/// A finishing chunk that carries nothing else, arriving while a `Text`
/// block is open at index `k`, produces exactly the close of that block,
/// the `message_delta` with the normalized stop reason, and the terminal
/// `message_stop`; the block index ends at `k + 1` and no block stays open.
pub proof fn lemma_finish_closes_open_text(st: ConverterView, c: ChunkView, reason: Seq<char>)
    requires
        st.current_type == ResponseType::Text,
        c.has_choice,
        !c.thinking,
        c.content.len() == 0,
        c.finish == Option::Some(reason),
    ensures
        chunk_step(st, c).1 == seq![
            event_view("content_block_stop"@, block_stop_payload(st.response_index)),
            event_view("message_delta"@, message_delta_payload(spec_stop_reason(reason))),
            event_view("message_stop"@, message_stop_payload()),
        ],
        chunk_step(st, c).0.response_index == st.response_index + 1,
        chunk_step(st, c).0.current_type == ResponseType::Idle,
{
    let stop = seq![event_view("content_block_stop"@, block_stop_payload(st.response_index))];
    let tail = seq![
        event_view("message_delta"@, message_delta_payload(spec_stop_reason(reason))),
        event_view("message_stop"@, message_stop_payload()),
    ];
    assert(chunk_step(st, c).1 =~= Seq::<EventView>::empty() + (stop + tail));
    assert(Seq::<EventView>::empty() + (stop + tail) =~= stop + tail);
    assert(stop + tail =~= seq![
        event_view("content_block_stop"@, block_stop_payload(st.response_index)),
        event_view("message_delta"@, message_delta_payload(spec_stop_reason(reason))),
        event_view("message_stop"@, message_stop_payload()),
    ]);
}

/// The recognized finish-reason vocabulary maps exactly as the protocol
/// asks: both length markers to `"max_tokens"`, both stop markers to
/// `"end_turn"`, and both tool markers to `"tool_use"`.
pub proof fn lemma_stop_reason_vocabulary()
    ensures
        spec_stop_reason("length"@) == "max_tokens"@,
        spec_stop_reason("MAX_TOKENS"@) == "max_tokens"@,
        spec_stop_reason("stop"@) == "end_turn"@,
        spec_stop_reason("STOP"@) == "end_turn"@,
        spec_stop_reason("tool_calls"@) == "tool_use"@,
        spec_stop_reason("function_call"@) == "tool_use"@,
{
    reveal_strlit("length");
    reveal_strlit("MAX_TOKENS");
    reveal_strlit("stop");
    reveal_strlit("STOP");
    reveal_strlit("tool_calls");
    reveal_strlit("function_call");
    assert("length"@.len() == 6);
    assert("MAX_TOKENS"@.len() == 10);
    assert("stop"@.len() == 4);
    assert("STOP"@.len() == 4);
    assert("tool_calls"@.len() == 10);
    assert("function_call"@.len() == 13);
    assert("tool_calls"@[0] != "MAX_TOKENS"@[0]);
    assert("stop"@[0] != "STOP"@[0]);
}

/// Any finish reason outside the recognized vocabulary falls back to
/// `"end_turn"`.
pub proof fn lemma_stop_reason_default(r: Seq<char>)
    requires
        r != "length"@,
        r != "MAX_TOKENS"@,
        r != "stop"@,
        r != "STOP"@,
        r != "tool_calls"@,
        r != "function_call"@,
    ensures
        spec_stop_reason(r) == "end_turn"@,
{
}

/// `has_content` never reverts: once set, every later transition keeps it.
pub proof fn lemma_has_content_monotone(st: ConverterView, c: ChunkView)
    requires
        st.has_content,
    ensures
        chunk_step(st, c).0.has_content,
{
}

/// Any chunk that carries a content signal (non-empty text, a thought
/// flag, or a thought signature) sets `has_content`.
pub proof fn lemma_signal_sets_has_content(st: ConverterView, c: ChunkView)
    requires
        c.has_choice,
        chunk_signal(c),
    ensures
        chunk_step(st, c).0.has_content,
{
}

impl ClaudeStreamConverter {
    /// A fresh converter: no block closed, no block open, no content seen.
    pub fn new() -> (c: Self)
        ensures
            c.response_index == 0,
            c.current_type == ResponseType::Idle,
            !c.has_content,
    {
        Self { response_index: 0, current_type: ResponseType::Idle, has_content: false }
    }

    /// Maps an upstream finish reason to the downstream stop reason.
    fn map_finish_reason(reason: &str) -> (r: &'static str)
        ensures
            r@ == spec_stop_reason(reason@),
    {
        if str_eq(reason, "length") || str_eq(reason, "MAX_TOKENS") {
            "max_tokens"
        } else if str_eq(reason, "stop") || str_eq(reason, "STOP") {
            "end_turn"
        } else if str_eq(reason, "tool_calls") || str_eq(reason, "function_call") {
            "tool_use"
        } else {
            "end_turn"
        }
    }

    /// Processes one decoded upstream chunk and returns the ordered events
    /// to forward, exactly as [`chunk_step`] prescribes. Two closes can
    /// happen in one call, hence the headroom on the block index.
    pub fn process_chunk(&mut self, json_chunk: &UpstreamChunk) -> (events: Vec<StreamEvent>)
        requires
            old(self).response_index + 2 <= usize::MAX,
        ensures
            final(self)@ == chunk_step(old(self)@, json_chunk@).0,
            events_match(events@, chunk_step(old(self)@, json_chunk@).1),
    {
        let ghost c = json_chunk@;
        let mut events: Vec<StreamEvent> = Vec::new();

        if json_chunk.choices.len() == 0 {
            return events;
        }
        let choice = &json_chunk.choices[0];

        let delta_content: &str = match &choice.delta {
            Option::Some(d) => match &d.content {
                Option::Some(s) => s.as_str(),
                Option::None => "",
            },
            Option::None => "",
        };
        let is_thought: bool = match &choice.delta {
            Option::Some(d) => match d.thought {
                Option::Some(b) => b,
                Option::None => false,
            },
            Option::None => false,
        };
        let has_signature: bool = match &choice.delta {
            Option::Some(d) => d.thought_signature.is_some(),
            Option::None => false,
        };
        let is_thinking = is_thought || has_signature;
        proof {
            reveal_strlit("");
            assert(""@ =~= Seq::<char>::empty());
            assert(delta_content@ == c.content);
            assert(is_thinking == c.thinking);
        }

        if !delta_content.is_empty() || is_thinking {
            self.has_content = true;
        }
        let ghost st0 = self@;

        if is_thinking {
            if self.current_type == ResponseType::Text {
                events.push(make_block_stop(self.response_index));
                self.response_index = self.response_index + 1;
                self.current_type = ResponseType::Idle;
            }
            if self.current_type == ResponseType::Idle {
                events.push(make_block_start(self.response_index));
                self.current_type = ResponseType::Thinking;
            }
            if !delta_content.is_empty() {
                events.push(make_block_delta(self.response_index, delta_content));
            }
        } else if !delta_content.is_empty() {
            if self.current_type == ResponseType::Thinking {
                events.push(make_block_stop(self.response_index));
                self.response_index = self.response_index + 1;
                self.current_type = ResponseType::Idle;
            }
            if self.current_type == ResponseType::Idle {
                events.push(make_block_start(self.response_index));
                self.current_type = ResponseType::Text;
            }
            events.push(make_block_delta(self.response_index, delta_content));
        }
        proof {
            assert(self@ == content_step(st0, c).0);
            assert(events_match(events@, content_step(st0, c).1));
        }

        if let Option::Some(reason) = &choice.finish_reason {
            if self.current_type != ResponseType::Idle {
                events.push(make_block_stop(self.response_index));
                self.response_index = self.response_index + 1;
                self.current_type = ResponseType::Idle;
            }
            let stop_reason = Self::map_finish_reason(reason.as_str());
            events.push(make_message_delta(stop_reason));
            events.push(make_message_stop());
        }
        proof {
            assert(self@ == chunk_step(old(self)@, c).0);
            assert(events_match(events@, chunk_step(old(self)@, c).1));
        }
        events
    }

    /// Builds the one-time `message_start` envelope event; the collaborator
    /// sends it once per stream, before the first chunk is processed.
    pub fn create_message_start(msg_id: &str, model: &str) -> (e: StreamEvent)
        ensures
            e@.event == "message_start"@,
            e@.data == message_start_payload(msg_id@, model@),
    {
        let mut data = String::new();
        data.append("{\"message\":{\"content\":[],\"id\":\"");
        push_escaped(&mut data, msg_id);
        data.append("\",\"model\":\"");
        push_escaped(&mut data, model);
        data.append(
            "\",\"role\":\"assistant\",\"stop_reason\":null,\"stop_sequence\":null,\"type\":\"message\",\"usage\":{\"input_tokens\":0,\"output_tokens\":0}},\"type\":\"message_start\"}",
        );
        proof {
            assert(data@ =~= message_start_payload(msg_id@, model@));
        }
        StreamEvent { event: String::from_str("message_start"), data }
    }
}

} // verus!
