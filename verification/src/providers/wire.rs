//! What the members of JSON on the wire come to, whatever else the JSON holds.

use vstd::prelude::*;
use vstd::string::*;

use crate::json;
use crate::json::{JsonView, NumberView};
use crate::providers::decode::DecodeErrorView;
use crate::providers::stream;
use crate::providers::stream::{DeltaView, SseEventView, SseState, StreamEventView};
use crate::providers::types;
use crate::providers::types::{StopReason, UsageView};
use crate::text;

verus! {

/// `v` is an object whose member `name` holds `value`.
pub open spec fn has(v: JsonView, name: Seq<char>, value: JsonView) -> bool {
    v matches JsonView::Object(m) && m.contains_key(name) && m[name] == value
}

/// `v` is an object whose member `name` holds the text `s`.
pub open spec fn has_text(v: JsonView, name: Seq<char>, s: Seq<char>) -> bool {
    has(v, name, JsonView::Text(s))
}

/// `v` is an object whose member `name` holds the integer `n`.
pub open spec fn has_integer(v: JsonView, name: Seq<char>, n: int) -> bool {
    has(v, name, JsonView::Number(NumberView::Integer(n)))
}

/// `v` has no member `name`.
pub open spec fn lacks(v: JsonView, name: Seq<char>) -> bool {
    v matches JsonView::Object(m) ==> !m.contains_key(name)
}

// ---------------------------------------------------------------------------
// Stop reasons and usage
// ---------------------------------------------------------------------------

/// `s` is how the stop reason `r` is spelled; what spells no other is unknown.
pub open spec fn spells_reason(s: Seq<char>, r: StopReason) -> bool {
    &&& r == StopReason::EndTurn <==> s == "end_turn"@
    &&& r == StopReason::MaxTokens <==> s == "max_tokens"@
    &&& r == StopReason::StopSequence <==> s == "stop_sequence"@
    &&& r == StopReason::ToolUse <==> s == "tool_use"@
}

proof fn lemma_reasons_differ()
    ensures
        "end_turn"@ != "max_tokens"@ && "end_turn"@ != "stop_sequence"@ && "end_turn"@
            != "tool_use"@ && "end_turn"@ != "unknown"@,
        "max_tokens"@ != "stop_sequence"@ && "max_tokens"@ != "tool_use"@ && "max_tokens"@
            != "unknown"@,
        "stop_sequence"@ != "tool_use"@ && "stop_sequence"@ != "unknown"@ && "tool_use"@
            != "unknown"@,
{
    reveal_strlit("end_turn");
    reveal_strlit("max_tokens");
    reveal_strlit("stop_sequence");
    reveal_strlit("tool_use");
    reveal_strlit("unknown");
    assert("end_turn"@.len() == 8 && "tool_use"@.len() == 8 && "unknown"@.len() == 7);
    assert("max_tokens"@.len() == 10 && "stop_sequence"@.len() == 13);
    assert("end_turn"@[0] == 'e' && "tool_use"@[0] == 't');
}

/// Each of the four known texts is read as its stop reason, and no other text
/// is.
pub proof fn law_stop_reasons_are_spelled(s: Seq<char>)
    ensures
        spells_reason(s, types::stop_reason_of(s)),
{
    lemma_reasons_differ();
}

/// What is written for a known stop reason spells it, for clients and on the
/// wire; an unknown one is shown to clients as the end of a turn.
pub proof fn law_stop_reasons_are_written(r: StopReason)
    ensures
        spells_reason(r.wire(), r),
        r != StopReason::Unknown ==> spells_reason(r.shown(), r),
        r == StopReason::Unknown ==> r.wire() == "unknown"@ && r.shown() == "end_turn"@,
{
    lemma_reasons_differ();
}

proof fn lemma_counters_differ()
    ensures
        "input_tokens"@ != "output_tokens"@,
{
    reveal_strlit("input_tokens");
    reveal_strlit("output_tokens");
    assert("input_tokens"@.len() == 12 && "output_tokens"@.len() == 13);
}

/// The usage is that of the two counters, with every other member kept.
pub open spec fn counts(u: JsonView, usage: UsageView, input: int, output: int) -> bool {
    &&& usage.input_tokens == input
    &&& usage.output_tokens == output
    &&& forall|k: Seq<char>|
        k != "input_tokens"@ && k != "output_tokens"@ ==> (#[trigger] usage.extra.contains_key(k)
            <==> u->Object_0.contains_key(k)) && (usage.extra.contains_key(k) ==> usage.extra[k]
            == u->Object_0[k])
    &&& !usage.extra.contains_key("input_tokens"@)
    &&& !usage.extra.contains_key("output_tokens"@)
}

/// Usage is read from its two counters, one that is absent being 0, and keeps
/// every other member.
pub proof fn law_usage_is_read(u: JsonView, input: u32, output: u32)
    requires
        u is Object,
        has_integer(u, "input_tokens"@, input as int) || lacks(u, "input_tokens"@) && input == 0,
        has_integer(u, "output_tokens"@, output as int) || lacks(u, "output_tokens"@) && output
            == 0,
    ensures
        types::usage_of(u) is Ok,
        counts(u, types::usage_of(u)->Ok_0, input as int, output as int),
{
    lemma_counters_differ();
}

/// Usage is written with its two counters under their names, and with every
/// other member as it is.
pub proof fn law_usage_is_written(usage: UsageView, k: Seq<char>)
    requires
        !usage.extra.contains_key("input_tokens"@),
        !usage.extra.contains_key("output_tokens"@),
    ensures
        has_integer(types::usage_json(usage), "input_tokens"@, usage.input_tokens as int),
        has_integer(types::usage_json(usage), "output_tokens"@, usage.output_tokens as int),
        usage.extra.contains_key(k) ==> has(types::usage_json(usage), k, usage.extra[k]),
        k != "input_tokens"@ && k != "output_tokens"@ && !usage.extra.contains_key(k) ==> lacks(
            types::usage_json(usage),
            k,
        ),
{
    lemma_counters_differ();
}

/// Usage with a counter that is no integer below 2^32 is refused.
pub proof fn law_bad_usage_is_refused(u: JsonView, name: Seq<char>, value: JsonView)
    requires
        name == "input_tokens"@ || name == "output_tokens"@,
        has(u, name, value),
        value matches JsonView::Number(NumberView::Integer(n)) ==> n < 0 || n > u32::MAX,
    ensures
        types::usage_of(u) is Err,
{
    lemma_counters_differ();
}

// ---------------------------------------------------------------------------
// Stream events
// ---------------------------------------------------------------------------

proof fn lemma_kinds_differ()
    ensures
        "message_start"@ != "content_block_start"@ && "message_start"@ != "content_block_delta"@
            && "message_start"@ != "content_block_stop"@ && "message_start"@ != "message_delta"@
            && "message_start"@ != "message_stop"@ && "message_start"@ != "ping"@
            && "message_start"@ != "error"@,
        "content_block_start"@ != "content_block_delta"@ && "content_block_start"@
            != "content_block_stop"@ && "content_block_start"@ != "message_delta"@
            && "content_block_start"@ != "message_stop"@ && "content_block_start"@ != "ping"@
            && "content_block_start"@ != "error"@,
        "content_block_delta"@ != "content_block_stop"@ && "content_block_delta"@
            != "message_delta"@ && "content_block_delta"@ != "message_stop"@
            && "content_block_delta"@ != "ping"@ && "content_block_delta"@ != "error"@,
        "content_block_stop"@ != "message_delta"@ && "content_block_stop"@ != "message_stop"@
            && "content_block_stop"@ != "ping"@ && "content_block_stop"@ != "error"@,
        "message_delta"@ != "message_stop"@ && "message_delta"@ != "ping"@ && "message_delta"@
            != "error"@,
        "message_stop"@ != "ping"@ && "message_stop"@ != "error"@ && "ping"@ != "error"@,
{
    reveal_strlit("message_start");
    reveal_strlit("content_block_start");
    reveal_strlit("content_block_delta");
    reveal_strlit("content_block_stop");
    reveal_strlit("message_delta");
    reveal_strlit("message_stop");
    reveal_strlit("ping");
    reveal_strlit("error");
    assert("message_start"@.len() == 13 && "message_start"@[8] == 's');
    assert("message_delta"@.len() == 13 && "message_delta"@[8] == 'd');
    assert("content_block_start"@.len() == 19 && "content_block_start"@[14] == 's');
    assert("content_block_delta"@.len() == 19 && "content_block_delta"@[14] == 'd');
    assert("content_block_stop"@.len() == 18 && "message_stop"@.len() == 12);
    assert("ping"@.len() == 4 && "error"@.len() == 5);
}

/// A `message_delta` tells the stop reason that the member `stop_reason` of its
/// `delta` spells, the stop sequence of its `delta`, and its own usage.
pub proof fn law_message_delta_is_read(
    v: JsonView,
    d: JsonView,
    s: Seq<char>,
    q: Seq<char>,
    u: JsonView,
)
    requires
        has(v, "delta"@, d),
    ensures
        stream::normalized_value(Some("message_delta"@), v) matches Some(
            StreamEventView::MessageDelta { stop_reason, stop_sequence, usage },
        ) && {
            &&& has_text(d, "stop_reason"@, s) ==> stop_reason is Some && spells_reason(
                s,
                stop_reason->Some_0,
            )
            &&& lacks(d, "stop_reason"@) || has(d, "stop_reason"@, JsonView::Null) ==> stop_reason
                is None
            &&& has_text(d, "stop_sequence"@, q) ==> stop_sequence == Some(q)
            &&& lacks(d, "stop_sequence"@) || has(d, "stop_sequence"@, JsonView::Null)
                ==> stop_sequence is None
            &&& has(v, "usage"@, u) && types::usage_of(u) is Ok ==> usage == types::usage_of(
                u,
            )->Ok_0
            &&& lacks(v, "usage"@) ==> usage.input_tokens == 0 && usage.output_tokens == 0
                && usage.extra == Map::<Seq<char>, JsonView>::empty()
        },
{
    lemma_kinds_differ();
    lemma_reasons_differ();
}

/// A `message_start` tells the id, the model and the usage of its `message`.
pub proof fn law_message_start_is_read(
    v: JsonView,
    m: JsonView,
    id: Seq<char>,
    model: Seq<char>,
    u: JsonView,
)
    requires
        has(v, "message"@, m),
    ensures
        stream::normalized_value(Some("message_start"@), v) matches Some(
            StreamEventView::MessageStart { id: read_id, model: read_model, usage },
        ) && {
            &&& has_text(m, "id"@, id) ==> read_id == id
            &&& lacks(m, "id"@) ==> read_id.len() == 0
            &&& has_text(m, "model"@, model) ==> read_model == model
            &&& lacks(m, "model"@) ==> read_model.len() == 0
            &&& has(m, "usage"@, u) && types::usage_of(u) is Ok ==> usage == types::usage_of(
                u,
            )->Ok_0
            &&& lacks(m, "usage"@) ==> usage.input_tokens == 0 && usage.output_tokens == 0
                && usage.extra == Map::<Seq<char>, JsonView>::empty()
        },
{
    lemma_kinds_differ();
}

/// The events of a content block tell its index; its start tells the block as
/// it is, and a delta what its `delta` holds.
pub proof fn law_block_events_are_read(v: JsonView, index: u32, block: JsonView, d: JsonView)
    requires
        has_integer(v, "index"@, index as int),
    ensures
        has(v, "content_block"@, block) ==> stream::normalized_value(
            Some("content_block_start"@),
            v,
        ) == Some(StreamEventView::ContentBlockStart { index, content_block: block }),
        has(v, "delta"@, d) ==> (stream::normalized_value(
            Some("content_block_delta"@),
            v,
        ) matches Some(StreamEventView::ContentBlockDelta { index: i, delta }) && i == index
            && delta == stream::delta_of(d)),
        stream::normalized_value(Some("content_block_stop"@), v) == Some(
            StreamEventView::ContentBlockStop { index },
        ),
{
    lemma_kinds_differ();
}

/// An index that is larger than 32 bits keeps its low 32; without an index, or
/// with one that is none, it is 0.
pub proof fn law_indexes_are_read(v: JsonView, index: u64)
    ensures
        has_integer(v, "index"@, index as int) ==> stream::normalized_value(
            Some("content_block_stop"@),
            v,
        ) == Some(
            StreamEventView::ContentBlockStop { index: (index % 0x1_0000_0000) as u32 },
        ) && (stream::normalized_value(Some("content_block_start"@), v) matches Some(
            StreamEventView::ContentBlockStart { index: i, .. },
        ) && i == index % 0x1_0000_0000),
        lacks(v, "index"@) ==> stream::normalized_value(Some("content_block_stop"@), v) == Some(
            StreamEventView::ContentBlockStop { index: 0 },
        ),
        lacks(v, "content_block"@) ==> (stream::normalized_value(
            Some("content_block_start"@),
            v,
        ) matches Some(StreamEventView::ContentBlockStart { content_block, .. }) && content_block
            == JsonView::Null),
{
    lemma_kinds_differ();
}

/// Usage that cannot be read counts as none.
pub proof fn law_unreadable_usage_counts_as_none(v: JsonView, u: JsonView)
    requires
        has(v, "usage"@, u),
        types::usage_of(u) is Err,
    ensures
        stream::normalized_value(Some("message_delta"@), v) matches Some(
            StreamEventView::MessageDelta { usage, .. },
        ) ==> usage.input_tokens == 0 && usage.output_tokens == 0 && usage.extra == Map::<
            Seq<char>,
            JsonView,
        >::empty(),
{
    lemma_kinds_differ();
}

/// A delta may also be an array of its type and its text.
pub proof fn law_deltas_in_arrays(kind: Seq<char>, s: Seq<char>, x: JsonView)
    ensures
        ({
            let d = stream::delta_of(
                JsonView::Array(seq![JsonView::Text(kind), JsonView::Text(s)]),
            );
            &&& kind == "text_delta"@ ==> d == (DeltaView::TextDelta { text: s })
            &&& kind == "input_json_delta"@ ==> d == (DeltaView::InputJsonDelta { partial_json: s })
            &&& kind != "text_delta"@ && kind != "input_json_delta"@ ==> d == DeltaView::Unknown
        }),
        !(x is Object) && !(x is Array) ==> stream::delta_of(x) == DeltaView::Unknown,
{
    reveal_strlit("text_delta");
    reveal_strlit("input_json_delta");
    assert("text_delta"@.len() == 10 && "input_json_delta"@.len() == 16);
}

/// A delta without its text, and one without a type, is unknown.
pub proof fn law_incomplete_deltas_are_unknown(d: JsonView)
    ensures
        has_text(d, "type"@, "text_delta"@) && lacks(d, "text"@) ==> stream::delta_of(d)
            == DeltaView::Unknown,
        has_text(d, "type"@, "input_json_delta"@) && lacks(d, "partial_json"@) ==> stream::delta_of(
            d,
        ) == DeltaView::Unknown,
        d is Object && lacks(d, "type"@) ==> stream::delta_of(d) == DeltaView::Unknown,
{
    reveal_strlit("text_delta");
    reveal_strlit("input_json_delta");
    assert("text_delta"@.len() == 10 && "input_json_delta"@.len() == 16);
}

/// A text delta carries its text and a tool input delta its piece of JSON; any
/// other kind of delta is unknown.
pub proof fn law_deltas_are_read(d: JsonView, kind: Seq<char>, s: Seq<char>)
    requires
        has_text(d, "type"@, kind),
    ensures
        kind == "text_delta"@ && has_text(d, "text"@, s) ==> stream::delta_of(d)
            == (DeltaView::TextDelta { text: s }),
        kind == "input_json_delta"@ && has_text(d, "partial_json"@, s) ==> stream::delta_of(d)
            == (DeltaView::InputJsonDelta { partial_json: s }),
        kind != "text_delta"@ && kind != "input_json_delta"@ ==> stream::delta_of(d)
            == DeltaView::Unknown,
        stream::delta_of(d) is TextDelta ==> kind == "text_delta"@,
        stream::delta_of(d) is InputJsonDelta ==> kind == "input_json_delta"@,
{
    reveal_strlit("text_delta");
    reveal_strlit("input_json_delta");
    assert("text_delta"@.len() == 10 && "input_json_delta"@.len() == 16);
}

/// The end of a message and a ping say nothing more; an error event carries
/// the whole value.
pub proof fn law_plain_events_are_read(v: JsonView)
    ensures
        stream::normalized_value(Some("message_stop"@), v) == Some(StreamEventView::MessageStop),
        stream::normalized_value(Some("ping"@), v) == Some(StreamEventView::Ping),
        stream::normalized_value(Some("error"@), v) == Some(StreamEventView::Error { error: v }),
{
    lemma_kinds_differ();
}

/// An event that lacks the member it is about is not recognized.
pub proof fn law_incomplete_events_are_dropped(v: JsonView)
    ensures
        lacks(v, "message"@) ==> stream::normalized_value(Some("message_start"@), v) is None,
        lacks(v, "delta"@) ==> stream::normalized_value(Some("content_block_delta"@), v) is None,
        lacks(v, "delta"@) ==> stream::normalized_value(Some("message_delta"@), v) is None,
{
    lemma_kinds_differ();
}

/// The kinds of events that are known.
pub open spec fn known_kind(kind: Seq<char>) -> bool {
    ||| kind == "message_start"@
    ||| kind == "content_block_start"@
    ||| kind == "content_block_delta"@
    ||| kind == "content_block_stop"@
    ||| kind == "message_delta"@
    ||| kind == "message_stop"@
    ||| kind == "ping"@
    ||| kind == "error"@
}

/// An event of a kind that is not known is an error where it carries one, and
/// is dropped where it does not.
pub proof fn law_unknown_events_are_dropped(kind: Seq<char>, v: JsonView, e: JsonView)
    requires
        !known_kind(kind),
    ensures
        has(v, "error"@, e) ==> stream::normalized_value(Some(kind), v) == Some(
            StreamEventView::Error { error: v },
        ),
        lacks(v, "error"@) ==> stream::normalized_value(Some(kind), v) is None,
{
}

/// An SSE event without a name is of the kind that its data gives as `type`;
/// where it has a name, that counts.
pub proof fn law_type_stands_in_for_the_name(v: JsonView, kind: Seq<char>)
    requires
        has_text(v, "type"@, kind),
    ensures
        stream::normalized_value(None, v) == stream::normalized_value(Some(kind), v),
{
}

/// Of an SSE event the data is read as JSON; `[DONE]` is the end of the
/// message, and a ping needs no data.
pub proof fn law_event_data_is_read(name: Option<Seq<char>>, data: Seq<char>, v: JsonView)
    requires
        data.len() > 0 ==> !text::whitespace(data[0]) && !text::whitespace(data.last()),
    ensures
        data.len() > 0 && data != "[DONE]"@ && json::json_parse(data) == Ok::<
            JsonView,
            Seq<char>,
        >(v) ==> stream::normalized(SseEventView { event: name, data })
            == stream::normalized_value(name, v),
        data == "[DONE]"@ ==> stream::normalized(SseEventView { event: name, data }) == Some(
            StreamEventView::MessageStop,
        ),
        data.len() == 0 || (data != "[DONE]"@ && json::json_parse(data) is Err) ==> (
        stream::normalized(SseEventView { event: name, data }) == (if name == Some("ping"@) {
            Some(StreamEventView::Ping)
        } else {
            None
        })),
{
    text::lemma_trimmed_fixed(data);
    reveal_strlit("[DONE]");
}

/// A line of data is added to the data so far, behind a line break where there
/// is any. The space behind the colon is no part of it.
pub proof fn law_data_lines_are_joined(st: SseState, x: Seq<char>)
    ensures
        ({
            let after = stream::sse_step(st, "data: "@ + x);
            &&& st.data.len() == 0 ==> after.data == x
            &&& st.data.len() > 0 ==> after.data == st.data + seq!['\n'] + x
            &&& after.event == st.event
            &&& after.done == st.done
        }),
{
    reveal_strlit("data: ");
    reveal_strlit("data:");
    reveal_strlit("event:");
    let line = "data: "@ + x;
    assert(line[0] == 'd');
    assert("event:"@[0] == 'e');
    assert(!"event:"@.is_prefix_of(line));
    assert("data:"@.is_prefix_of(line)) by {
        assert(line.subrange(0, 5) =~= "data:"@);
    }
    let rest = line.skip(5);
    assert(rest[0] == ' ');
    assert(rest.skip(1) =~= x);
    assert(st.data.push('\n') + x =~= st.data + seq!['\n'] + x);
}

/// A line that gives a name names the event, whatever it was named before.
pub proof fn law_name_lines_name_the_event(st: SseState, name: Seq<char>)
    requires
        text::plain_word(name),
    ensures
        ({
            let after = stream::sse_step(st, "event: "@ + name);
            after.event == Some(name) && after.data == st.data && after.done == st.done
        }),
{
    reveal_strlit("event: ");
    reveal_strlit("event:");
    let line = "event: "@ + name;
    assert("event:"@.is_prefix_of(line)) by {
        assert(line.subrange(0, 6) =~= "event:"@);
    }
    let rest = line.skip(6);
    let none = Seq::<char>::empty();
    assert(rest =~= seq![' '] + name + none);
    assert(!text::whitespace(name[0]) && !text::whitespace(name[name.len() - 1]));
    text::lemma_trimmed_parts(seq![' '], name, none);
}

/// Comments, and fields of other names, change nothing.
pub proof fn law_other_lines_are_ignored(st: SseState, line: Seq<char>)
    requires
        line.len() > 0,
        line[0] != 'e' && line[0] != 'd',
    ensures
        stream::sse_step(st, line) == st,
{
    reveal_strlit("data:");
    reveal_strlit("event:");
    assert("event:"@[0] == 'e' && "data:"@[0] == 'd');
}

/// A blank line ends an event that has a name or data, and starts anew.
pub proof fn law_blank_lines_end_events(st: SseState)
    ensures
        ({
            let after = stream::sse_step(st, Seq::empty());
            &&& st.data.len() == 0 && st.event is None ==> after == st
            &&& st.data.len() > 0 || st.event is Some ==> after.event is None && after.data.len()
                == 0 && after.done.len() == st.done.len() + 1 && after.done.drop_last() == st.done
                && after.done.last().event == st.event
            &&& (st.data.len() > 0 || st.event is Some) && (st.data.len() > 0 ==> st.data.last()
                != '\n') ==> after.done.last().data == st.data
        }),
{
    let after = stream::sse_step(st, Seq::empty());
    if st.data.len() > 0 || st.event is Some {
        assert(after.done.drop_last() =~= st.done);
    }
}

/// Every recognized event of a row is handed on, in order.
pub proof fn law_recognized_events_are_kept(raw: Seq<SseEventView>, more: SseEventView)
    ensures
        stream::normalized(more) is Some ==> stream::recognized(raw.push(more))
            == stream::recognized(raw).push(stream::normalized(more)->Some_0),
        stream::normalized(more) is None ==> stream::recognized(raw.push(more))
            == stream::recognized(raw),
{
    assert(raw.push(more).drop_last() =~= raw);
}

/// What a client is sent for an event holds each of its parts under its name.
pub proof fn law_events_are_written(e: StreamEventView)
    ensures
        ({
            let w = stream::stream_event_json(e);
            match e {
                StreamEventView::MessageStart { id, model, usage } => has_text(
                    w,
                    "type"@,
                    "message_start"@,
                ) && has_text(w, "id"@, id) && has_text(w, "model"@, model) && has(
                    w,
                    "usage"@,
                    types::usage_json(usage),
                ),
                StreamEventView::ContentBlockStart { index, content_block } => has_text(
                    w,
                    "type"@,
                    "content_block_start"@,
                ) && has_integer(w, "index"@, index as int) && has(
                    w,
                    "content_block"@,
                    content_block,
                ),
                StreamEventView::ContentBlockDelta { index, delta } => has_text(
                    w,
                    "type"@,
                    "content_block_delta"@,
                ) && has_integer(w, "index"@, index as int) && has(
                    w,
                    "delta"@,
                    stream::delta_json(delta),
                ),
                StreamEventView::ContentBlockStop { index } => has_text(
                    w,
                    "type"@,
                    "content_block_stop"@,
                ) && has_integer(w, "index"@, index as int),
                StreamEventView::MessageDelta { stop_reason, stop_sequence, usage } => has_text(
                    w,
                    "type"@,
                    "message_delta"@,
                ) && (match stop_reason {
                    Some(r) => exists|s: Seq<char>|
                        has_text(w, "stop_reason"@, s) && spells_reason(s, r),
                    None => has(w, "stop_reason"@, JsonView::Null),
                }) && (match stop_sequence {
                    Some(s) => has_text(w, "stop_sequence"@, s),
                    None => has(w, "stop_sequence"@, JsonView::Null),
                }) && has(w, "usage"@, types::usage_json(usage)),
                StreamEventView::MessageStop => has_text(w, "type"@, "message_stop"@),
                StreamEventView::Ping => has_text(w, "type"@, "ping"@),
                StreamEventView::Error { error } => has_text(w, "type"@, "error"@) && has(
                    w,
                    "error"@,
                    error,
                ),
            }
        }),
{
    lemma_member_names();
    lemma_reasons_differ();
    if let StreamEventView::MessageDelta { stop_reason, .. } = e {
        if let Some(r) = stop_reason {
            let w = stream::stream_event_json(e);
            assert(has_text(w, "stop_reason"@, r.wire()) && spells_reason(r.wire(), r));
        }
    }
}

/// What a client is sent for a delta says its kind and its text.
pub proof fn law_deltas_are_written(d: DeltaView)
    ensures
        d matches DeltaView::TextDelta { text } ==> has_text(
            stream::delta_json(d),
            "type"@,
            "text_delta"@,
        ) && has_text(stream::delta_json(d), "text"@, text),
        d matches DeltaView::InputJsonDelta { partial_json } ==> has_text(
            stream::delta_json(d),
            "type"@,
            "input_json_delta"@,
        ) && has_text(stream::delta_json(d), "partial_json"@, partial_json),
{
    lemma_member_names();
}

proof fn lemma_member_names()
    ensures
        "type"@ != "id"@ && "type"@ != "model"@ && "type"@ != "usage"@ && "type"@ != "index"@
            && "type"@ != "content_block"@ && "type"@ != "delta"@ && "type"@ != "stop_reason"@
            && "type"@ != "stop_sequence"@ && "type"@ != "error"@ && "type"@ != "text"@ && "type"@
            != "partial_json"@,
        "id"@ != "model"@ && "id"@ != "usage"@ && "model"@ != "usage"@ && "index"@
            != "content_block"@ && "index"@ != "delta"@,
        "stop_reason"@ != "stop_sequence"@ && "stop_reason"@ != "usage"@ && "stop_sequence"@
            != "usage"@,
{
    reveal_strlit("type");
    reveal_strlit("id");
    reveal_strlit("model");
    reveal_strlit("usage");
    reveal_strlit("index");
    reveal_strlit("content_block");
    reveal_strlit("delta");
    reveal_strlit("stop_reason");
    reveal_strlit("stop_sequence");
    reveal_strlit("error");
    reveal_strlit("text");
    reveal_strlit("partial_json");
    assert("type"@.len() == 4 && "type"@[1] == 'y');
    assert("text"@.len() == 4 && "text"@[1] == 'e');
    assert("id"@.len() == 2 && "model"@.len() == 5 && "usage"@.len() == 5 && "index"@.len() == 5);
    assert("model"@[0] == 'm' && "usage"@[0] == 'u' && "index"@[0] == 'i' && "delta"@[0] == 'd');
    assert("content_block"@.len() == 13 && "delta"@.len() == 5 && "stop_reason"@.len() == 11);
    assert("stop_sequence"@.len() == 13 && "error"@.len() == 5 && "partial_json"@.len() == 12);
}

/// White space around the data of an event makes no difference.
pub proof fn law_space_around_data_is_nothing(
    name: Option<Seq<char>>,
    before: Seq<char>,
    data: Seq<char>,
    after: Seq<char>,
)
    requires
        forall|i: int| 0 <= i < before.len() ==> text::whitespace(#[trigger] before[i]),
        forall|i: int| 0 <= i < after.len() ==> text::whitespace(#[trigger] after[i]),
        data.len() > 0,
        !text::whitespace(data[0]),
        !text::whitespace(data.last()),
    ensures
        stream::normalized(SseEventView { event: name, data: before + data + after })
            == stream::normalized(SseEventView { event: name, data }),
{
    text::lemma_trimmed_parts(before, data, after);
    text::lemma_trimmed_fixed(data);
}

// ---------------------------------------------------------------------------
// Events as an upstream sends them
// ---------------------------------------------------------------------------

/// The counters of usage and all else that it says.
pub open spec fn usage_form(u: UsageView) -> JsonView {
    JsonView::Object(
        u.extra.insert("input_tokens"@, integer(u.input_tokens)).insert(
            "output_tokens"@,
            integer(u.output_tokens),
        ),
    )
}

/// An integer in JSON.
pub open spec fn integer(n: u32) -> JsonView {
    JsonView::Number(NumberView::Integer(n as int))
}

/// An event as an upstream sends it, without its type.
pub open spec fn wire_form(e: StreamEventView) -> JsonView {
    let none = Map::<Seq<char>, JsonView>::empty();
    match e {
        StreamEventView::MessageStart { id, model, usage } => JsonView::Object(
            none.insert(
                "message"@,
                JsonView::Object(
                    none.insert("id"@, JsonView::Text(id)).insert(
                        "model"@,
                        JsonView::Text(model),
                    ).insert("usage"@, usage_form(usage)),
                ),
            ),
        ),
        StreamEventView::ContentBlockStart { index, content_block } => JsonView::Object(
            none.insert("index"@, integer(index)).insert("content_block"@, content_block),
        ),
        StreamEventView::ContentBlockDelta { index, delta } => JsonView::Object(
            none.insert("index"@, integer(index)).insert("delta"@, delta_form(delta)),
        ),
        StreamEventView::ContentBlockStop { index } => JsonView::Object(
            none.insert("index"@, integer(index)),
        ),
        StreamEventView::MessageDelta { stop_reason, stop_sequence, usage } => JsonView::Object(
            none.insert(
                "delta"@,
                JsonView::Object(
                    none.insert("stop_reason"@, reason_form(stop_reason)).insert(
                        "stop_sequence"@,
                        match stop_sequence {
                            Some(s) => JsonView::Text(s),
                            None => JsonView::Null,
                        },
                    ),
                ),
            ).insert("usage"@, usage_form(usage)),
        ),
        StreamEventView::MessageStop => JsonView::Object(none),
        StreamEventView::Ping => JsonView::Object(none),
        StreamEventView::Error { error } => error,
    }
}

/// A delta as an upstream sends it; one that is not known may be anything else.
pub open spec fn delta_form(d: DeltaView) -> JsonView {
    let none = Map::<Seq<char>, JsonView>::empty();
    match d {
        DeltaView::TextDelta { text } => JsonView::Object(
            none.insert("type"@, JsonView::Text("text_delta"@)).insert(
                "text"@,
                JsonView::Text(text),
            ),
        ),
        DeltaView::InputJsonDelta { partial_json } => JsonView::Object(
            none.insert("type"@, JsonView::Text("input_json_delta"@)).insert(
                "partial_json"@,
                JsonView::Text(partial_json),
            ),
        ),
        DeltaView::Unknown => JsonView::Object(none),
    }
}

/// A stop reason as an upstream sends it; one that is not known may be any
/// other text.
pub open spec fn reason_form(r: Option<StopReason>) -> JsonView {
    match r {
        Some(StopReason::EndTurn) => JsonView::Text("end_turn"@),
        Some(StopReason::MaxTokens) => JsonView::Text("max_tokens"@),
        Some(StopReason::StopSequence) => JsonView::Text("stop_sequence"@),
        Some(StopReason::ToolUse) => JsonView::Text("tool_use"@),
        Some(StopReason::Unknown) => JsonView::Text("refusal"@),
        None => JsonView::Null,
    }
}

/// The name under which an upstream sends an event.
pub open spec fn wire_name(e: StreamEventView) -> Seq<char> {
    match e {
        StreamEventView::MessageStart { .. } => "message_start"@,
        StreamEventView::ContentBlockStart { .. } => "content_block_start"@,
        StreamEventView::ContentBlockDelta { .. } => "content_block_delta"@,
        StreamEventView::ContentBlockStop { .. } => "content_block_stop"@,
        StreamEventView::MessageDelta { .. } => "message_delta"@,
        StreamEventView::MessageStop => "message_stop"@,
        StreamEventView::Ping => "ping"@,
        StreamEventView::Error { .. } => "error"@,
    }
}

/// Usage whose other members are not named like its counters.
pub open spec fn plain_usage(u: UsageView) -> bool {
    !u.extra.contains_key("input_tokens"@) && !u.extra.contains_key("output_tokens"@)
}

proof fn lemma_usage_form(u: UsageView)
    requires
        plain_usage(u),
    ensures
        types::usage_of(usage_form(u)) == Ok::<UsageView, DecodeErrorView>(u),
{
    lemma_counters_differ();
    let m = usage_form(u)->Object_0;
    assert(m.remove("input_tokens"@).remove("output_tokens"@) =~= u.extra);
}

/// An event that an upstream sends comes out as that event.
#[verifier::spinoff_prover]
pub proof fn law_sent_events_come_out(e: StreamEventView)
    requires
        e matches StreamEventView::MessageStart { usage, .. } ==> plain_usage(usage),
        e matches StreamEventView::MessageDelta { usage, .. } ==> plain_usage(usage),
    ensures
        stream::normalized_value(Some(wire_name(e)), wire_form(e)) == Some(e),
{
    lemma_kinds_differ();
    lemma_reasons_differ();
    lemma_member_names();
    reveal_strlit("text_delta");
    reveal_strlit("input_json_delta");
    assert("text_delta"@.len() == 10 && "input_json_delta"@.len() == 16);
    reveal_strlit("refusal");
    reveal_strlit("delta");
    reveal_strlit("usage");
    assert("refusal"@.len() == 7);
    assert("delta"@[0] == 'd' && "usage"@[0] == 'u');
    reveal_strlit("end_turn");
    reveal_strlit("max_tokens");
    reveal_strlit("stop_sequence");
    reveal_strlit("tool_use");
    assert("end_turn"@.len() == 8 && "tool_use"@.len() == 8 && "max_tokens"@.len() == 10);
    assert("stop_sequence"@.len() == 13);
    match e {
        StreamEventView::MessageStart { usage, .. } => lemma_usage_form(usage),
        StreamEventView::MessageDelta { usage, .. } => lemma_usage_form(usage),
        _ => {},
    }
}

/// Data of white space alone is as good as none.
pub proof fn law_blank_data_is_none(name: Option<Seq<char>>, data: Seq<char>)
    requires
        forall|i: int| 0 <= i < data.len() ==> text::whitespace(#[trigger] data[i]),
    ensures
        stream::normalized(SseEventView { event: name, data }) == (if name == Some("ping"@) {
            Some(StreamEventView::Ping)
        } else {
            None
        }),
{
    text::lemma_blank_trimmed(data);
}

/// An event that says neither its name nor its type is an error where it
/// carries one, and is dropped where it does not.
pub proof fn law_nameless_events_are_dropped(v: JsonView, e: JsonView)
    requires
        lacks(v, "type"@),
    ensures
        has(v, "error"@, e) ==> stream::normalized_value(None, v) == Some(
            StreamEventView::Error { error: v },
        ),
        lacks(v, "error"@) ==> stream::normalized_value(None, v) is None,
{
    reveal_strlit("message_start");
    reveal_strlit("content_block_start");
    reveal_strlit("content_block_delta");
    reveal_strlit("content_block_stop");
    reveal_strlit("message_delta");
    reveal_strlit("message_stop");
    reveal_strlit("ping");
    reveal_strlit("error");
    assert("message_start"@.len() == 13 && "content_block_start"@.len() == 19);
    assert("content_block_delta"@.len() == 19 && "content_block_stop"@.len() == 18);
    assert("message_delta"@.len() == 13 && "message_stop"@.len() == 12);
    assert("ping"@.len() == 4 && "error"@.len() == 5);
}

/// An event that has begun where the text ends is an event too.
pub proof fn law_open_events_are_finished(st: SseState)
    ensures
        ({
            let all = stream::sse_finish(st);
            &&& st.data.len() == 0 && st.event is None ==> all == st.done
            &&& st.data.len() > 0 || st.event is Some ==> all.len() == st.done.len() + 1
                && all.drop_last() == st.done && all.last().event == st.event && all.last().data
                == st.data
        }),
{
    let all = stream::sse_finish(st);
    if st.data.len() > 0 || st.event is Some {
        assert(all.drop_last() =~= st.done);
    }
}

/// The events of a text are those that its lines make, one line after the
/// other, from nothing.
pub proof fn law_lines_make_events(lines: Seq<Seq<char>>, line: Seq<char>, st: SseState)
    ensures
        stream::sse_run(st, Seq::empty()) == st,
        stream::sse_run(st, lines.push(line)) == stream::sse_step(stream::sse_run(st, lines), line),
        stream::sse_start().event is None,
        stream::sse_start().data.len() == 0,
        stream::sse_start().done.len() == 0,
{
    assert(lines.push(line).drop_last() =~= lines);
}

} // verus!
