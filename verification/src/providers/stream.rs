//! Streaming SSE / event-source parsing for Anthropic-compatible streams.
//!
//! Normalizes upstream streaming chunks into typed [`StreamEvent`]s.

use vstd::prelude::*;
use vstd::string::*;

use crate::json;
use crate::json::{Json, JsonMap, JsonNumber, JsonView};
use crate::providers::decode;
use crate::providers::decode::{FromJson, ToJson};
use crate::providers::types;
use crate::providers::types::{StopReason, Usage, UsageView};
use crate::text;

verus! {

// ---------------------------------------------------------------------------
// Wire format (Anthropic SSE)
// ---------------------------------------------------------------------------

/// Raw SSE event parsed from the wire.
#[derive(Debug, Clone, PartialEq, Eq)]
pub struct SseEvent {
    pub event: Option<String>,
    pub data: String,
}

pub struct SseEventView {
    pub event: Option<Seq<char>>,
    pub data: Seq<char>,
}

impl View for SseEvent {
    type V = SseEventView;

    open spec fn view(&self) -> SseEventView {
        SseEventView { event: decode::text_view(self.event), data: self.data@ }
    }
}

/// What has been read so far: the event under way and those complete.
pub struct SseState {
    pub event: Option<Seq<char>>,
    pub data: Seq<char>,
    pub done: Seq<SseEventView>,
}

pub open spec fn sse_start() -> SseState {
    SseState { event: None, data: Seq::empty(), done: Seq::empty() }
}

/// Whether an event is under way.
pub open spec fn sse_open(st: SseState) -> bool {
    st.data.len() > 0 || st.event is Some
}

/// A `data:` line without the one space that may follow the colon.
pub open spec fn data_chunk(rest: Seq<char>) -> Seq<char> {
    if rest.len() > 0 && rest[0] == ' ' {
        rest.skip(1)
    } else {
        rest
    }
}

/// The effect of one line. A blank line completes the event under way; an
/// `event:` line names it; `data:` lines add to its data, with a newline
/// between them; every other line is passed over.
pub open spec fn sse_step(st: SseState, line: Seq<char>) -> SseState {
    if line.len() == 0 {
        if sse_open(st) {
            SseState {
                event: None,
                data: Seq::empty(),
                done: st.done.push(
                    SseEventView { event: st.event, data: text::trimmed_end_of(st.data, '\n') },
                ),
            }
        } else {
            st
        }
    } else if "event:"@.is_prefix_of(line) {
        SseState { event: Some(text::trimmed(line.skip("event:"@.len() as int))), ..st }
    } else if "data:"@.is_prefix_of(line) {
        let chunk = data_chunk(line.skip("data:"@.len() as int));
        SseState {
            data: if st.data.len() > 0 {
                st.data.push('\n') + chunk
            } else {
                chunk
            },
            ..st
        }
    } else {
        st
    }
}

pub open spec fn sse_run(st: SseState, lines: Seq<Seq<char>>) -> SseState
    decreases lines.len(),
{
    if lines.len() == 0 {
        st
    } else {
        sse_step(sse_run(st, lines.drop_last()), lines.last())
    }
}

/// The events read, with the one still under way at the end of the text.
pub open spec fn sse_finish(st: SseState) -> Seq<SseEventView> {
    if sse_open(st) {
        st.done.push(SseEventView { event: st.event, data: st.data })
    } else {
        st.done
    }
}

/// The events of a complete text.
#[verifier::opaque]
pub open spec fn sse_events(s: Seq<char>) -> Seq<SseEventView> {
    sse_finish(sse_run(sse_start(), text::lines(s)))
}

/// Parse a complete text buffer into `SseEvent`s. Handles `event:` / `data:`
/// lines and blank-line delimiters.
///
/// For incremental network parsing see [`SseParser`].
pub fn parse_sse_buffer(s: &str) -> (r: Vec<SseEvent>)
    ensures
        decode::all_views(r@) == sse_events(s@),
{
    reveal(sse_events);
    let lines = text::split_lines(s);
    let ghost all = text::lines(s@);
    let mut events: Vec<SseEvent> = Vec::new();
    let mut cur_event: Option<String> = None;
    let mut cur_data = String::new();
    let mut i: usize = 0;
    let ghost mut st = sse_start();
    proof {
        assert(decode::all_views(events@) =~= Seq::<SseEventView>::empty());
    }
    while i < lines.len()
        invariant
            i <= lines@.len(),
            all == text::views(lines@),
            st == sse_run(sse_start(), all.take(i as int)),
            st == (SseState {
                event: decode::text_view(cur_event),
                data: cur_data@,
                done: decode::all_views(events@),
            }),
        decreases lines@.len() - i,
    {
        let line = lines[i].as_str();
        let ghost before = st;
        proof {
            assert(all.take(i + 1).drop_last() =~= all.take(i as int));
            assert(all.take(i + 1).last() == line@);
            st = sse_step(before, line@);
        }
        let empty_data = cur_data.as_str().is_empty();
        if line.is_empty() {
            if !empty_data || cur_event.is_some() {
                let ghost old_events = events@;
                let data = text::trim_end_of(cur_data.as_str(), '\n').to_owned();
                let ev = SseEvent { event: cur_event, data };
                events.push(ev);
                assert(decode::all_views(events@) =~= decode::all_views(old_events).push(ev@));
                cur_event = None;
                cur_data = String::new();
                assert(cur_data@ =~= Seq::<char>::empty());
            }
        } else if let Some(rest) = text::strip_prefix(line, "event:") {
            cur_event = Some(text::trim(rest).to_owned());
        } else if let Some(rest) = text::strip_prefix(line, "data:") {
            let chunk = match text::strip_prefix(rest, " ") {
                Some(chunk) => chunk,
                None => rest,
            };
            proof {
                reveal_strlit(" ");
                assert(" "@ =~= seq![' ']);
                if rest@.len() > 0 {
                    assert(rest@.subrange(0, 1) =~= seq![rest@[0]]);
                    assert(seq![rest@[0]][0] == rest@[0] && seq![' '][0] == ' ');
                }
                assert(chunk@ == data_chunk(rest@));
            }
            if !empty_data {
                cur_data.push('\n');
            }
            cur_data.append(chunk);
            if empty_data {
                assert(cur_data@ =~= chunk@);
            }
        }
        i = i + 1;
    }
    assert(all.take(i as int) =~= all);
    let empty_data = cur_data.as_str().is_empty();
    if !empty_data || cur_event.is_some() {
        let ghost old_events = events@;
        let ev = SseEvent { event: cur_event, data: cur_data };
        events.push(ev);
        assert(decode::all_views(events@) =~= decode::all_views(old_events).push(ev@));
    }
    events
}

// ---------------------------------------------------------------------------
// Incremental parsing
// ---------------------------------------------------------------------------

/// What `String::from_utf8_lossy` makes of bytes.
pub uninterp spec fn utf8_lossy(bytes: Seq<u8>) -> Seq<char>;

/// Valid UTF-8 is decoded as it is.
pub open spec fn text_kept(bytes: Seq<u8>) -> bool {
    vstd::utf8::valid_utf8(bytes) ==> utf8_lossy(bytes) == vstd::utf8::decode_utf8(bytes)
}

/// `String::from_utf8_lossy`, its result named by [`utf8_lossy`]. Valid UTF-8
/// is decoded as it is.
#[verifier::external_body]
pub(crate) fn decode_lossy(bytes: &[u8]) -> (r: String)
    ensures
        r@ == utf8_lossy(bytes@),
        vstd::utf8::valid_utf8(bytes@) ==> r@ == vstd::utf8::decode_utf8(bytes@),
{
    String::from_utf8_lossy(bytes).into_owned()
}

/// The delimiter between events.
pub open spec fn lf_lf() -> Seq<char> {
    seq!['\n', '\n']
}

/// The same delimiter where lines end in `\r\n`.
pub open spec fn crlf_crlf() -> Seq<char> {
    seq!['\r', '\n', '\r', '\n']
}

/// Cut `s` behind every `delim`. Each part is parsed on its own; what follows
/// the last delimiter is left.
pub open spec fn drained(s: Seq<char>, delim: Seq<char>) -> (Seq<SseEventView>, Seq<char>)
    decreases s.len(),
    when delim.len() > 0
{
    match text::find(s, delim) {
        None => (Seq::empty(), s),
        Some(i) => {
            proof {
                text::lemma_find(s, delim);
            }
            let (events, rest) = drained(s.skip(i as int + delim.len()), delim);
            (sse_events(s.take(i as int) + lf_lf()) + events, rest)
        },
    }
}

/// The events that a buffer delivers, and what stays in it.
pub open spec fn fed(s: Seq<char>) -> (Seq<SseEventView>, Seq<char>) {
    let (first, rest) = drained(s, lf_lf());
    let (second, left) = drained(rest, crlf_crlf());
    (first + second, left)
}

/// The events that the end of the stream delivers.
pub open spec fn flushed(s: Seq<char>) -> Seq<SseEventView> {
    if text::trimmed(s).len() == 0 {
        Seq::empty()
    } else {
        sse_events(s)
    }
}

/// Parses the parts of `v` that end in `delim`, from `from` on. Returns where
/// the rest begins.
fn take_frames(v: &Vec<char>, from: usize, delim: &Vec<char>, out: &mut Vec<SseEvent>) -> (r: usize)
    requires
        from <= v@.len(),
        delim@.len() > 0,
    ensures
        from <= r <= v@.len(),
        drained(v@.skip(from as int), delim@).1 == v@.skip(r as int),
        decode::all_views(final(out)@) == decode::all_views(old(out)@) + drained(
            v@.skip(from as int),
            delim@,
        ).0,
{
    let n: usize = v.len();
    let mut at: usize = from;
    let ghost start = decode::all_views(out@);
    let ghost whole = drained(v@.skip(from as int), delim@);
    assert(decode::all_views(out@) + whole.0 =~= start + whole.0);
    loop
        invariant
            from <= at <= v@.len(),
            n == v@.len(),
            delim@.len() > 0,
            whole == drained(v@.skip(from as int), delim@),
            whole.1 == drained(v@.skip(at as int), delim@).1,
            decode::all_views(out@) + drained(v@.skip(at as int), delim@).0 == start + whole.0,
        ensures
            from <= at <= v@.len(),
            whole.1 == v@.skip(at as int),
            decode::all_views(out@) == start + whole.0,
        decreases v@.len() - at,
    {
        let ghost rest = v@.skip(at as int);
        match text::find_text(v, at, delim) {
            None => {
                proof {
                    text::lemma_find(rest, delim@);
                    if let Some(i) = text::find(rest, delim@) {
                        assert(rest.subrange(i as int, i as int + delim@.len()) =~= v@.subrange(
                            at + i,
                            at + i + delim@.len(),
                        ));
                        assert(text::occurs_at(v@, delim@, at + i));
                    }
                    assert(decode::all_views(out@) + drained(rest, delim@).0 =~= decode::all_views(
                        out@,
                    ));
                }
                break ;
            },
            Some(pos) => {
                let ghost i = pos - at;
                proof {
                    assert(rest.subrange(i, i + delim@.len()) =~= v@.subrange(
                        pos as int,
                        pos + delim@.len(),
                    ));
                    assert forall|j: int| 0 <= j < i implies !text::occurs_at(
                        rest,
                        delim@,
                        j,
                    ) by {
                        if text::occurs_at(rest, delim@, j) {
                            assert(rest.subrange(j, j + delim@.len()) =~= v@.subrange(
                                at + j,
                                at + j + delim@.len(),
                            ));
                            assert(text::occurs_at(v@, delim@, at + j));
                        }
                    }
                    text::lemma_find_at(rest, delim@, i);
                }
                let mut frame = text::text_of(v, at, pos);
                frame.append("\n\n");
                proof {
                    reveal_strlit("\n\n");
                    assert("\n\n"@ =~= lf_lf());
                    assert(v@.subrange(at as int, pos as int) =~= rest.take(i));
                    assert(frame@ == rest.take(i) + lf_lf());
                    assert(rest.skip(i + delim@.len()) =~= v@.skip(pos + delim@.len()));
                }
                let ghost before = decode::all_views(out@);
                let mut events = parse_sse_buffer(frame.as_str());
                let ghost got = decode::all_views(events@);
                let ghost old_out = out@;
                let ghost old_events = events@;
                out.append(&mut events);
                proof {
                    assert(decode::all_views(out@) =~= before + got);
                    assert(before + (got + drained(v@.skip(pos + delim@.len()), delim@).0) =~= (
                    before + got) + drained(v@.skip(pos + delim@.len()), delim@).0);
                }
                at = pos + delim.len();
            },
        }
    }
    at
}

/// Incremental SSE parser that handles chunked `bytes` delivery.
#[derive(Debug)]
pub struct SseParser {
    buf: String,
}

impl View for SseParser {
    type V = Seq<char>;

    /// The text that no event has been made of yet.
    closed spec fn view(&self) -> Seq<char> {
        self.buf@
    }
}

impl Default for SseParser {
    fn default() -> (r: SseParser)
        ensures
            r@ == Seq::<char>::empty(),
    {
        SseParser { buf: String::new() }
    }
}

impl SseParser {
    pub fn new() -> (r: SseParser)
        ensures
            r@ == Seq::<char>::empty(),
    {
        SseParser { buf: String::new() }
    }

    /// Feed text and extract any complete events.
    pub fn feed_text(&mut self, chunk: &str) -> (r: Vec<SseEvent>)
        ensures
            final(self)@ == fed(old(self)@ + chunk@).1,
            decode::all_views(r@) == fed(old(self)@ + chunk@).0,
    {
        self.buf.append(chunk);
        let v = text::chars_of(self.buf.as_str());
        let mut out: Vec<SseEvent> = Vec::new();
        // Events are delimited by double newline.
        let lf: Vec<char> = vec!['\n', '\n'];
        assert(lf@ =~= lf_lf());
        assert(v@.skip(0) =~= v@);
        assert(decode::all_views(out@) =~= Seq::<SseEventView>::empty());
        let middle: usize = take_frames(&v, 0, &lf, &mut out);
        // Also handle CRLF variants.
        let crlf: Vec<char> = vec!['\r', '\n', '\r', '\n'];
        assert(crlf@ =~= crlf_crlf());
        let end: usize = take_frames(&v, middle, &crlf, &mut out);
        self.buf = text::text_of(&v, end, v.len());
        proof {
            assert(self.buf@ =~= v@.skip(end as int));
            let (first, rest) = drained(v@, lf_lf());
            assert(decode::all_views(out@) =~= first + drained(rest, crlf_crlf()).0);
        }
        out
    }

    /// Feed raw bytes (UTF-8 lossy) and extract any complete events.
    pub fn feed(&mut self, chunk: &[u8]) -> (r: Vec<SseEvent>)
        ensures
            final(self)@ == fed(old(self)@ + utf8_lossy(chunk@)).1,
            decode::all_views(r@) == fed(old(self)@ + utf8_lossy(chunk@)).0,
            text_kept(chunk@),
    {
        let decoded = decode_lossy(chunk);
        self.feed_text(decoded.as_str())
    }

    /// Drain any trailing buffered data as a final event.
    pub fn flush(&mut self) -> (r: Vec<SseEvent>)
        ensures
            final(self)@ == Seq::<char>::empty(),
            decode::all_views(r@) == flushed(old(self)@),
    {
        let taken = self.buf.clone();
        self.buf = String::new();
        if text::is_blank(taken.as_str()) {
            let none: Vec<SseEvent> = Vec::new();
            assert(decode::all_views(none@) =~= Seq::<SseEventView>::empty());
            none
        } else {
            parse_sse_buffer(taken.as_str())
        }
    }
}

// ---------------------------------------------------------------------------
// Normalized stream events
// ---------------------------------------------------------------------------

/// Normalized streaming events exposed to the gateway.
#[derive(Debug, Clone, PartialEq)]
pub enum StreamEvent {
    MessageStart { id: String, model: String, usage: Usage },
    ContentBlockStart { index: u32, content_block: Json },
    ContentBlockDelta { index: u32, delta: Delta },
    ContentBlockStop { index: u32 },
    MessageDelta {
        stop_reason: Option<StopReason>,
        stop_sequence: Option<String>,
        usage: Usage,
    },
    MessageStop,
    Ping,
    Error { error: Json },
}

/// Delta payload inside `content_block_delta`.
#[derive(Debug, Clone, PartialEq)]
pub enum Delta {
    TextDelta { text: String },
    InputJsonDelta { partial_json: String },
    /// Stands for delta types that are not known.
    Unknown,
}

pub enum StreamEventView {
    MessageStart { id: Seq<char>, model: Seq<char>, usage: UsageView },
    ContentBlockStart { index: u32, content_block: JsonView },
    ContentBlockDelta { index: u32, delta: DeltaView },
    ContentBlockStop { index: u32 },
    MessageDelta {
        stop_reason: Option<StopReason>,
        stop_sequence: Option<Seq<char>>,
        usage: UsageView,
    },
    MessageStop,
    Ping,
    Error { error: JsonView },
}

pub enum DeltaView {
    TextDelta { text: Seq<char> },
    InputJsonDelta { partial_json: Seq<char> },
    Unknown,
}

impl View for Delta {
    type V = DeltaView;

    open spec fn view(&self) -> DeltaView {
        match *self {
            Delta::TextDelta { text } => DeltaView::TextDelta { text: text@ },
            Delta::InputJsonDelta { partial_json } => DeltaView::InputJsonDelta {
                partial_json: partial_json@,
            },
            Delta::Unknown => DeltaView::Unknown,
        }
    }
}

impl View for StreamEvent {
    type V = StreamEventView;

    open spec fn view(&self) -> StreamEventView {
        match *self {
            StreamEvent::MessageStart { id, model, usage } => StreamEventView::MessageStart {
                id: id@,
                model: model@,
                usage: usage@,
            },
            StreamEvent::ContentBlockStart { index, content_block } =>
            StreamEventView::ContentBlockStart { index, content_block: content_block@ },
            StreamEvent::ContentBlockDelta { index, delta } => StreamEventView::ContentBlockDelta {
                index,
                delta: delta@,
            },
            StreamEvent::ContentBlockStop { index } => StreamEventView::ContentBlockStop { index },
            StreamEvent::MessageDelta { stop_reason, stop_sequence, usage } =>
            StreamEventView::MessageDelta {
                stop_reason,
                stop_sequence: decode::text_view(stop_sequence),
                usage: usage@,
            },
            StreamEvent::MessageStop => StreamEventView::MessageStop,
            StreamEvent::Ping => StreamEventView::Ping,
            StreamEvent::Error { error } => StreamEventView::Error { error: error@ },
        }
    }
}

/// The delta with the tag `kind` and the text that its member `member` gives.
pub open spec fn tagged_delta(kind: Seq<char>, text: Option<Seq<char>>, json: Option<Seq<char>>) -> DeltaView {
    if kind == "text_delta"@ && text is Some {
        DeltaView::TextDelta { text: text->Some_0 }
    } else if kind == "input_json_delta"@ && json is Some {
        DeltaView::InputJsonDelta { partial_json: json->Some_0 }
    } else {
        DeltaView::Unknown
    }
}

/// The delta that a JSON value holds: an object with the tag `type`, or the
/// same as an array of the tag and the text. Whatever does not fit is
/// `Unknown`.
pub open spec fn delta_of(v: JsonView) -> DeltaView {
    match v {
        JsonView::Object(_) => match v.get_text("type"@) {
            Some(kind) => tagged_delta(kind, v.get_text("text"@), v.get_text("partial_json"@)),
            None => DeltaView::Unknown,
        },
        JsonView::Array(items) => if items.len() == 2 {
            match items[0].text() {
                Some(kind) => tagged_delta(kind, items[1].text(), items[1].text()),
                None => DeltaView::Unknown,
            }
        } else {
            DeltaView::Unknown
        },
        _ => DeltaView::Unknown,
    }
}

fn make_delta(kind: &str, text: Option<&str>, json: Option<&str>) -> (r: Delta)
    ensures
        r@ == tagged_delta(
            kind@,
            match text {
                Some(t) => Some(t@),
                None => None,
            },
            match json {
                Some(t) => Some(t@),
                None => None,
            },
        ),
{
    if text::same(kind, "text_delta") {
        if let Some(t) = text {
            return Delta::TextDelta { text: t.to_owned() };
        }
    }
    if text::same(kind, "input_json_delta") {
        if let Some(t) = json {
            return Delta::InputJsonDelta { partial_json: t.to_owned() };
        }
    }
    proof {
        reveal_strlit("text_delta");
        reveal_strlit("input_json_delta");
        assert("text_delta"@.len() == 10);
        assert("input_json_delta"@.len() == 16);
    }
    Delta::Unknown
}

impl Delta {
    pub fn from_json(v: &Json) -> (r: Delta)
        ensures
            r@ == delta_of(v@),
    {
        match v {
            Json::Object(_) => match v.get_str("type") {
                Some(kind) => make_delta(kind, v.get_str("text"), v.get_str("partial_json")),
                None => Delta::Unknown,
            },
            Json::Array(items) => {
                proof {
                    json::lemma_items_view(items@);
                }
                if items.len() == 2 {
                    match items[0].as_str() {
                        Some(kind) => make_delta(kind, items[1].as_str(), items[1].as_str()),
                        None => Delta::Unknown,
                    }
                } else {
                    Delta::Unknown
                }
            },
            _ => Delta::Unknown,
        }
    }
}

/// The text member `key`, or the empty text.
pub open spec fn text_or_empty(v: JsonView, key: Seq<char>) -> Seq<char> {
    match v.get_text(key) {
        Some(s) => s,
        None => Seq::empty(),
    }
}

/// The usage in the member `usage`, or none where it does not fit.
pub open spec fn usage_or_none(v: JsonView) -> UsageView {
    match v.get("usage"@) {
        Some(u) => match types::usage_of(u) {
            Ok(usage) => usage,
            Err(_) => types::no_usage(),
        },
        None => types::no_usage(),
    }
}

/// The low 32 bits of the member `index`, or 0 where it is no index.
pub open spec fn index_of(v: JsonView) -> u32 {
    match v.get_unsigned("index"@) {
        Some(n) => (n % 0x1_0000_0000) as u32,
        None => 0,
    }
}

/// The event that a value stands for. The name of the SSE event decides, or
/// where it has none the member `type`.
pub open spec fn normalized_value(event: Option<Seq<char>>, v: JsonView) -> Option<StreamEventView> {
    let kind = match event {
        Some(name) => name,
        None => text_or_empty(v, "type"@),
    };
    if kind == "message_start"@ {
        match v.get("message"@) {
            None => None,
            Some(message) => Some(
                StreamEventView::MessageStart {
                    id: text_or_empty(message, "id"@),
                    model: text_or_empty(message, "model"@),
                    usage: usage_or_none(message),
                },
            ),
        }
    } else if kind == "content_block_start"@ {
        Some(
            StreamEventView::ContentBlockStart {
                index: index_of(v),
                content_block: match v.get("content_block"@) {
                    Some(block) => block,
                    None => JsonView::Null,
                },
            },
        )
    } else if kind == "content_block_delta"@ {
        match v.get("delta"@) {
            None => None,
            Some(delta) => Some(
                StreamEventView::ContentBlockDelta { index: index_of(v), delta: delta_of(delta) },
            ),
        }
    } else if kind == "content_block_stop"@ {
        Some(StreamEventView::ContentBlockStop { index: index_of(v) })
    } else if kind == "message_delta"@ {
        match v.get("delta"@) {
            None => None,
            Some(delta) => Some(
                StreamEventView::MessageDelta {
                    stop_reason: match delta.get_text("stop_reason"@) {
                        Some(s) => Some(types::stop_reason_of(s)),
                        None => None,
                    },
                    stop_sequence: delta.get_text("stop_sequence"@),
                    usage: usage_or_none(v),
                },
            ),
        }
    } else if kind == "message_stop"@ {
        Some(StreamEventView::MessageStop)
    } else if kind == "ping"@ {
        Some(StreamEventView::Ping)
    } else if kind == "error"@ || v.get("error"@) is Some {
        Some(StreamEventView::Error { error: v })
    } else {
        None
    }
}

/// The event that a raw SSE event stands for, if it is recognized.
pub open spec fn normalized(raw: SseEventView) -> Option<StreamEventView> {
    let data = text::trimmed(raw.data);
    let ping = if raw.event == Some("ping"@) {
        Some(StreamEventView::Ping)
    } else {
        None
    };
    if data.len() == 0 {
        ping
    } else if data == "[DONE]"@ {
        Some(StreamEventView::MessageStop)
    } else {
        match json::json_parse(data) {
            Ok(v) => normalized_value(raw.event, v),
            Err(_) => ping,
        }
    }
}

/// The view of an event that may be absent.
pub open spec fn event_view(e: Option<StreamEvent>) -> Option<StreamEventView> {
    match e {
        Some(e) => Some(e@),
        None => None,
    }
}

fn get_text_or_empty(v: &Json, key: &str) -> (r: String)
    ensures
        r@ == text_or_empty(v@, key@),
{
    match v.get_str(key) {
        Some(s) => s.to_owned(),
        None => {
            let r = String::new();
            assert(r@ =~= Seq::<char>::empty());
            r
        },
    }
}

fn get_usage_or_none(v: &Json) -> (r: Usage)
    ensures
        r@ == usage_or_none(v@),
{
    match v.get("usage") {
        Some(u) => match Usage::from_json(u) {
            Ok(usage) => usage,
            Err(_) => Usage::default(),
        },
        None => Usage::default(),
    }
}

fn get_index(v: &Json) -> (r: u32)
    ensures
        r == index_of(v@),
{
    match v.get_u64("index") {
        Some(n) => (n % 0x1_0000_0000) as u32,
        None => 0,
    }
}

/// Normalize the parsed data of an SSE event with the given name.
pub fn normalize_value(event: &Option<String>, v: &Json) -> (r: Option<StreamEvent>)
    ensures
        event_view(r) == normalized_value(decode::text_view(*event), v@),
{
    let kind = match event {
        Some(name) => name.clone(),
        None => get_text_or_empty(v, "type"),
    };
    let kind = kind.as_str();
    if text::same(kind, "message_start") {
        match v.get("message") {
            None => None,
            Some(message) => Some(
                StreamEvent::MessageStart {
                    id: get_text_or_empty(message, "id"),
                    model: get_text_or_empty(message, "model"),
                    usage: get_usage_or_none(message),
                },
            ),
        }
    } else if text::same(kind, "content_block_start") {
        Some(
            StreamEvent::ContentBlockStart {
                index: get_index(v),
                content_block: match v.get("content_block") {
                    Some(block) => block.clone(),
                    None => Json::Null,
                },
            },
        )
    } else if text::same(kind, "content_block_delta") {
        match v.get("delta") {
            None => None,
            Some(delta) => Some(
                StreamEvent::ContentBlockDelta {
                    index: get_index(v),
                    delta: Delta::from_json(delta),
                },
            ),
        }
    } else if text::same(kind, "content_block_stop") {
        Some(StreamEvent::ContentBlockStop { index: get_index(v) })
    } else if text::same(kind, "message_delta") {
        match v.get("delta") {
            None => None,
            Some(delta) => Some(
                StreamEvent::MessageDelta {
                    stop_reason: match delta.get_str("stop_reason") {
                        Some(s) => Some(StopReason::parse(s)),
                        None => None,
                    },
                    stop_sequence: match delta.get_str("stop_sequence") {
                        Some(s) => Some(s.to_owned()),
                        None => None,
                    },
                    usage: get_usage_or_none(v),
                },
            ),
        }
    } else if text::same(kind, "message_stop") {
        Some(StreamEvent::MessageStop)
    } else if text::same(kind, "ping") {
        Some(StreamEvent::Ping)
    } else if text::same(kind, "error") {
        Some(StreamEvent::Error { error: v.clone() })
    } else {
        // Unknown type: exposed as an error for forward compatibility if it
        // carries one.
        match v.get("error") {
            Some(_) => Some(StreamEvent::Error { error: v.clone() }),
            None => None,
        }
    }
}

fn ping_if_named(raw: &SseEvent) -> (r: Option<StreamEvent>)
    ensures
        event_view(r) == (if raw@.event == Some("ping"@) {
            Some(StreamEventView::Ping)
        } else {
            None
        }),
{
    match &raw.event {
        Some(name) => if text::same(name.as_str(), "ping") {
            Some(StreamEvent::Ping)
        } else {
            None
        },
        None => None,
    }
}

/// Normalize a raw `SseEvent` into a typed [`StreamEvent`].
///
/// Returns `None` for unrecognized or incomplete frames; those are logged at
/// debug level by the caller.
pub fn normalize_sse_event(raw: &SseEvent) -> (r: Option<StreamEvent>)
    ensures
        event_view(r) == normalized(raw@),
{
    let data = text::trim(raw.data.as_str());
    if data.is_empty() {
        return ping_if_named(raw);
    }
    if text::same(data, "[DONE]") {
        return Some(StreamEvent::MessageStop);
    }
    match Json::parse(data) {
        Ok(v) => normalize_value(&raw.event, &v),
        Err(_) => ping_if_named(raw),
    }
}

/// The recognized events among `raw`, in order.
pub open spec fn recognized(raw: Seq<SseEventView>) -> Seq<StreamEventView>
    decreases raw.len(),
{
    if raw.len() == 0 {
        Seq::empty()
    } else {
        match normalized(raw.last()) {
            Some(e) => recognized(raw.drop_last()).push(e),
            None => recognized(raw.drop_last()),
        }
    }
}

/// Normalize a row of events, passing over those that are not recognized.
pub fn normalize_all(raw: &Vec<SseEvent>) -> (r: Vec<StreamEvent>)
    ensures
        decode::all_views(r@) == recognized(decode::all_views(raw@)),
{
    let ghost all = decode::all_views(raw@);
    let mut out: Vec<StreamEvent> = Vec::new();
    let mut i: usize = 0;
    assert(decode::all_views(out@) =~= Seq::<StreamEventView>::empty());
    while i < raw.len()
        invariant
            i <= raw@.len(),
            all == decode::all_views(raw@),
            decode::all_views(out@) == recognized(all.take(i as int)),
        decreases raw@.len() - i,
    {
        assert(all.take(i + 1).drop_last() =~= all.take(i as int));
        assert(all.take(i + 1).last() == raw@[i as int]@);
        if let Some(e) = normalize_sse_event(&raw[i]) {
            let ghost before = out@;
            out.push(e);
            assert(decode::all_views(out@) =~= decode::all_views(before).push(e@));
        }
        i = i + 1;
    }
    assert(all.take(i as int) =~= all);
    out
}

/// The JSON of a delta.
pub open spec fn delta_json(d: DeltaView) -> JsonView {
    let none = Map::<Seq<char>, JsonView>::empty();
    JsonView::Object(
        match d {
            DeltaView::TextDelta { text } => types::typed("text_delta"@, none).insert(
                "text"@,
                JsonView::Text(text),
            ),
            DeltaView::InputJsonDelta { partial_json } => types::typed(
                "input_json_delta"@,
                none,
            ).insert("partial_json"@, JsonView::Text(partial_json)),
            DeltaView::Unknown => types::typed("unknown"@, none),
        },
    )
}

impl ToJson for Delta {
    open spec fn json(v: DeltaView) -> JsonView {
        delta_json(v)
    }

    fn to_json(&self) -> (r: Json) {
        let none = JsonMap::new();
        match self {
            Delta::TextDelta { text } => {
                let mut m = types::object_with_type("text_delta", &none);
                m.insert("text".to_owned(), Json::Text(text.clone()));
                Json::object(m)
            },
            Delta::InputJsonDelta { partial_json } => {
                let mut m = types::object_with_type("input_json_delta", &none);
                m.insert("partial_json".to_owned(), Json::Text(partial_json.clone()));
                Json::object(m)
            },
            Delta::Unknown => Json::object(types::object_with_type("unknown", &none)),
        }
    }
}

/// The JSON of an event: the tag `type` and the members of the event.
pub open spec fn stream_event_json(e: StreamEventView) -> JsonView {
    let none = Map::<Seq<char>, JsonView>::empty();
    JsonView::Object(
        match e {
            StreamEventView::MessageStart { id, model, usage } => types::typed(
                "message_start"@,
                none,
            ).insert("id"@, JsonView::Text(id)).insert("model"@, JsonView::Text(model)).insert(
                "usage"@,
                types::usage_json(usage),
            ),
            StreamEventView::ContentBlockStart { index, content_block } => types::typed(
                "content_block_start"@,
                none,
            ).insert("index"@, types::number(index as int)).insert(
                "content_block"@,
                content_block,
            ),
            StreamEventView::ContentBlockDelta { index, delta } => types::typed(
                "content_block_delta"@,
                none,
            ).insert("index"@, types::number(index as int)).insert("delta"@, delta_json(delta)),
            StreamEventView::ContentBlockStop { index } => types::typed(
                "content_block_stop"@,
                none,
            ).insert("index"@, types::number(index as int)),
            StreamEventView::MessageDelta { stop_reason, stop_sequence, usage } => types::typed(
                "message_delta"@,
                none,
            ).insert(
                "stop_reason"@,
                match stop_reason {
                    Some(reason) => JsonView::Text(reason.wire()),
                    None => JsonView::Null,
                },
            ).insert(
                "stop_sequence"@,
                match stop_sequence {
                    Some(s) => JsonView::Text(s),
                    None => JsonView::Null,
                },
            ).insert("usage"@, types::usage_json(usage)),
            StreamEventView::MessageStop => types::typed("message_stop"@, none),
            StreamEventView::Ping => types::typed("ping"@, none),
            StreamEventView::Error { error } => types::typed("error"@, none).insert(
                "error"@,
                error,
            ),
        },
    )
}

impl ToJson for StreamEvent {
    open spec fn json(v: StreamEventView) -> JsonView {
        stream_event_json(v)
    }

    fn to_json(&self) -> (r: Json) {
        let none = JsonMap::new();
        match self {
            StreamEvent::MessageStart { id, model, usage } => {
                let mut m = types::object_with_type("message_start", &none);
                m.insert("id".to_owned(), Json::Text(id.clone()));
                m.insert("model".to_owned(), Json::Text(model.clone()));
                m.insert("usage".to_owned(), usage.to_json());
                Json::object(m)
            },
            StreamEvent::ContentBlockStart { index, content_block } => {
                let mut m = types::object_with_type("content_block_start", &none);
                m.insert("index".to_owned(), index_json(*index));
                m.insert("content_block".to_owned(), content_block.clone());
                Json::object(m)
            },
            StreamEvent::ContentBlockDelta { index, delta } => {
                let mut m = types::object_with_type("content_block_delta", &none);
                m.insert("index".to_owned(), index_json(*index));
                m.insert("delta".to_owned(), delta.to_json());
                Json::object(m)
            },
            StreamEvent::ContentBlockStop { index } => {
                let mut m = types::object_with_type("content_block_stop", &none);
                m.insert("index".to_owned(), index_json(*index));
                Json::object(m)
            },
            StreamEvent::MessageDelta { stop_reason, stop_sequence, usage } => {
                let mut m = types::object_with_type("message_delta", &none);
                m.insert(
                    "stop_reason".to_owned(),
                    match stop_reason {
                        Some(reason) => Json::text(reason.wire_str()),
                        None => Json::Null,
                    },
                );
                m.insert(
                    "stop_sequence".to_owned(),
                    match stop_sequence {
                        Some(s) => Json::Text(s.clone()),
                        None => Json::Null,
                    },
                );
                m.insert("usage".to_owned(), usage.to_json());
                Json::object(m)
            },
            StreamEvent::MessageStop => Json::object(types::object_with_type("message_stop", &none)),
            StreamEvent::Ping => Json::object(types::object_with_type("ping", &none)),
            StreamEvent::Error { error } => {
                let mut m = types::object_with_type("error", &none);
                m.insert("error".to_owned(), error.clone());
                Json::object(m)
            },
        }
    }
}

fn index_json(index: u32) -> (r: Json)
    ensures
        r@ == types::number(index as int),
{
    Json::Number(JsonNumber::Unsigned(index as u64))
}

/// The `type` of a normalized event.
pub open spec fn stream_event_type(e: StreamEventView) -> Seq<char> {
    match e {
        StreamEventView::MessageStart { .. } => "message_start"@,
        StreamEventView::ContentBlockStart { .. } => "content_block_start"@,
        StreamEventView::ContentBlockDelta { .. } => "content_block_delta"@,
        StreamEventView::ContentBlockStop { .. } => "content_block_stop"@,
        StreamEventView::MessageDelta { .. } => "message_delta"@,
        StreamEventView::MessageStop => "message_stop"@,
        StreamEventView::Ping => "ping"@,
        StreamEventView::Error { .. } => "error"@,
    }
}

/// Every normalized event is written as an object with its `type`.
pub proof fn law_stream_event_has_type(e: StreamEventView)
    ensures
        stream_event_json(e) is Object,
        stream_event_json(e).get_text("type"@) == Some(stream_event_type(e)),
{
    lemma_event_names();
}

proof fn lemma_event_names()
    ensures
        "type"@ != "id"@ && "type"@ != "model"@ && "type"@ != "usage"@ && "type"@ != "index"@
            && "type"@ != "content_block"@ && "type"@ != "delta"@ && "type"@ != "stop_reason"@
            && "type"@ != "stop_sequence"@ && "type"@ != "error"@ && "type"@ != "text"@ && "type"@
            != "partial_json"@,
{
    reveal_strlit("type");
    reveal_strlit("id");
    reveal_strlit("model");
    reveal_strlit("usage");
    reveal_strlit("index");
    reveal_strlit("content_block");
    reveal_strlit("delta");
    reveal_strlit("stop_reason");
    reveal_strlit("stop_sequence");
    reveal_strlit("error");
    reveal_strlit("text");
    reveal_strlit("partial_json");
    assert("type"@.len() == 4 && "type"@[1] == 'y');
    assert("text"@.len() == 4 && "text"@[1] == 'e');
    assert("id"@.len() == 2 && "model"@.len() == 5 && "usage"@.len() == 5 && "index"@.len() == 5);
    assert("content_block"@.len() == 13 && "delta"@.len() == 5 && "stop_reason"@.len() == 11);
    assert("stop_sequence"@.len() == 13 && "error"@.len() == 5 && "partial_json"@.len() == 12);
}

/// A delta of a known kind survives being written and read.
pub proof fn law_delta_round_trip(d: DeltaView)
    ensures
        delta_of(delta_json(d)) == d,
{
    lemma_event_names();
    reveal_strlit("text_delta");
    reveal_strlit("input_json_delta");
    reveal_strlit("unknown");
    assert("text_delta"@.len() == 10);
    assert("input_json_delta"@.len() == 16);
    assert("unknown"@.len() == 7);
}

// ---------------------------------------------------------------------------
// Chunking makes no difference
// ---------------------------------------------------------------------------

proof fn lemma_run_concat(st: SseState, a: Seq<Seq<char>>, b: Seq<Seq<char>>)
    ensures
        sse_run(st, a + b) == sse_run(sse_run(st, a), b),
    decreases b.len(),
{
    if b.len() == 0 {
        assert(a + b =~= a);
    } else {
        assert((a + b).drop_last() =~= a + b.drop_last());
        assert((a + b).last() == b.last());
        lemma_run_concat(st, a, b.drop_last());
    }
}

/// What was complete before stays in front of what comes after.
proof fn lemma_run_done(d: Seq<SseEventView>, lines: Seq<Seq<char>>)
    ensures
        ({
            let st = sse_run(sse_start(), lines);
            sse_run(SseState { done: d, ..sse_start() }, lines) == (SseState {
                done: d + st.done,
                ..st
            })
        }),
    decreases lines.len(),
{
    if lines.len() == 0 {
        assert(d + Seq::<SseEventView>::empty() =~= d);
    } else {
        lemma_run_done(d, lines.drop_last());
        let st = sse_run(sse_start(), lines.drop_last());
        let next = sse_step(st, lines.last());
        if lines.last().len() == 0 && sse_open(st) {
            assert((d + st.done).push(next.done.last()) =~= d + next.done);
        }
    }
}

/// Parsing cuts at a blank line: a part that ends in one has its events to
/// itself.
pub proof fn law_parsing_cuts_at_a_blank_line(f: Seq<char>, x: Seq<char>)
    ensures
        sse_events(f + lf_lf() + x) == sse_events(f + lf_lf()) + sse_events(x),
{
    reveal(sse_events);
    let a = f + seq!['\n'];
    let b = seq!['\n'];
    assert(f + lf_lf() =~= a + b);
    text::lemma_lines_concat(a, b);
    text::lemma_lines_ending(false);
    let part = f + lf_lf();
    assert(text::lines(part) == text::lines(a) + seq![Seq::<char>::empty()]);
    text::lemma_lines_concat(part, x);
    lemma_run_concat(sse_start(), text::lines(part), text::lines(x));
    let st = sse_run(sse_start(), text::lines(part));
    assert(text::lines(part).last() == Seq::<char>::empty());
    assert(!sse_open(st));
    assert(st.data =~= Seq::<char>::empty());
    assert(st == SseState { done: st.done, ..sse_start() });
    lemma_run_done(st.done, text::lines(x));
    let rest = sse_run(sse_start(), text::lines(x));
    if sse_open(rest) {
        assert((st.done + rest.done).push(SseEventView { event: rest.event, data: rest.data })
            =~= st.done + rest.done.push(SseEventView { event: rest.event, data: rest.data }));
    }
}

/// Parsing cuts where the blank line is written with `\r\n`, too.
pub proof fn law_parsing_cuts_at_a_crlf_blank_line(f: Seq<char>, x: Seq<char>)
    requires
        f.len() > 0 ==> f.last() != '\r',
    ensures
        sse_events(f + crlf_crlf() + x) == sse_events(f + lf_lf()) + sse_events(x),
{
    reveal(sse_events);
    let a = f + seq!['\r', '\n'];
    let b = seq!['\r', '\n'];
    assert(f + crlf_crlf() =~= a + b);
    text::lemma_lines_concat(a, b);
    text::lemma_lines_ending(true);
    text::lemma_lines_crlf(f);
    let c = f + seq!['\n'];
    assert(f + lf_lf() =~= c + seq!['\n']);
    text::lemma_lines_concat(c, seq!['\n']);
    text::lemma_lines_ending(false);
    assert(text::lines(f + crlf_crlf()) == text::lines(f + lf_lf()));
    text::lemma_lines_concat(f + crlf_crlf(), x);
    text::lemma_lines_concat(f + lf_lf(), x);
    law_parsing_cuts_at_a_blank_line(f, x);
}

/// A carriage return before a blank line in `\r\n` style. It is the one thing
/// that reads differently inside a part and across one.
pub open spec fn stray_cr() -> Seq<char> {
    seq!['\r', '\r', '\n', '\r', '\n']
}

proof fn lemma_no_stray_cr(s: Seq<char>, i: int)
    requires
        text::occurs_at(s, crlf_crlf(), i),
        !text::contains(s, stray_cr()),
    ensures
        s.take(i).len() > 0 ==> s.take(i).last() != '\r',
        !text::contains(s.skip(i + crlf_crlf().len()), stray_cr()),
{
    let t = s.skip(i + 4);
    if text::contains(t, stray_cr()) {
        assert(t =~= s.subrange(i + 4, s.len() as int));
        text::lemma_contains_part(s, i + 4, s.len() as int, stray_cr());
    }
    if i > 0 && s[i - 1] == '\r' {
        let part = s.subrange(i, i + 4);
        assert(part[0] == s[i] && part[1] == s[i + 1] && part[2] == s[i + 2] && part[3] == s[i
            + 3]);
        assert(s.subrange(i - 1, i + 4) =~= stray_cr());
        assert(text::occurs_at(s, stray_cr(), i - 1));
    }
}

/// A text with a delimiter in it is what precedes it, the delimiter and what
/// follows.
proof fn lemma_parts(s: Seq<char>, i: int, delim: Seq<char>, x: Seq<char>)
    requires
        text::occurs_at(s, delim, i),
    ensures
        s + x == s.take(i) + delim + (s.skip(i + delim.len()) + x),
{
    let part = s.subrange(i, i + delim.len());
    assert forall|k: int| 0 <= k < delim.len() implies s[i + k] == delim[k] by {
        assert(part[k] == s[i + k]);
    }
    assert(s + x =~= s.take(i) + delim + (s.skip(i + delim.len()) + x));
}

/// Cutting takes events off the front and leaves the rest of the text.
proof fn lemma_drained(s: Seq<char>, crlf: bool, x: Seq<char>)
    requires
        crlf ==> !text::contains(s, stray_cr()),
    ensures
        ({
            let delim = if crlf {
                crlf_crlf()
            } else {
                lf_lf()
            };
            let (events, rest) = drained(s, delim);
            &&& rest.len() <= s.len()
            &&& rest == s.skip(s.len() - rest.len())
            &&& sse_events(s + x) == events + sse_events(rest + x)
        }),
    decreases s.len(),
{
    let delim = if crlf {
        crlf_crlf()
    } else {
        lf_lf()
    };
    text::lemma_find(s, delim);
    match text::find(s, delim) {
        None => {
            assert(s.skip(0) =~= s);
            assert(Seq::<SseEventView>::empty() + sse_events(s + x) =~= sse_events(s + x));
        },
        Some(i) => {
            let f = s.take(i as int);
            let t = s.skip(i as int + delim.len());
            if crlf {
                lemma_no_stray_cr(s, i as int);
            }
            lemma_drained(t, crlf, x);
            let (events, rest) = drained(t, delim);
            lemma_parts(s, i as int, delim, x);
            if crlf {
                law_parsing_cuts_at_a_crlf_blank_line(f, t + x);
            } else {
                law_parsing_cuts_at_a_blank_line(f, t + x);
            }
            assert(sse_events(f + lf_lf()) + (events + sse_events(rest + x)) =~= (sse_events(
                f + lf_lf(),
            ) + events) + sse_events(rest + x));
            assert(t.skip(t.len() - rest.len()) =~= s.skip(s.len() - rest.len()));
        },
    }
}

/// Feeding delivers the first events of the stream: whatever text follows,
/// they come before the events of what was left over together with it.
pub proof fn law_feed_delivers_in_order(s: Seq<char>, x: Seq<char>)
    requires
        !text::contains(s, stray_cr()),
    ensures
        sse_events(s + x) == fed(s).0 + sse_events(fed(s).1 + x),
        fed(s).1.len() <= s.len(),
        fed(s).1 == s.skip(s.len() - fed(s).1.len()),
{
    lemma_drained(s, false, x);
    let (first, rest) = drained(s, lf_lf());
    if text::contains(rest, stray_cr()) {
        assert(rest =~= s.subrange(s.len() - rest.len(), s.len() as int));
        text::lemma_contains_part(s, s.len() - rest.len(), s.len() as int, stray_cr());
    }
    lemma_drained(rest, true, x);
    let (second, left) = drained(rest, crlf_crlf());
    assert(first + (second + sse_events(left + x)) =~= (first + second) + sse_events(left + x));
    assert(rest.skip(rest.len() - left.len()) =~= s.skip(s.len() - left.len()));
}

/// A blank text has no events.
proof fn lemma_blank_events(s: Seq<char>)
    requires
        text::trimmed(s).len() == 0,
    ensures
        sse_events(s) == Seq::<SseEventView>::empty(),
{
    reveal(sse_events);
    text::lemma_blank(s);
    text::lemma_lines_blank(s);
    lemma_blank_run(text::lines(s));
}

proof fn lemma_blank_run(lines: Seq<Seq<char>>)
    requires
        forall|k: int| 0 <= k < lines.len() ==> text::blank(#[trigger] lines[k]),
    ensures
        sse_run(sse_start(), lines) == sse_start(),
    decreases lines.len(),
{
    if lines.len() > 0 {
        let front = lines.drop_last();
        assert forall|k: int| 0 <= k < front.len() implies text::blank(#[trigger] front[k]) by {
            assert(front[k] == lines[k]);
        }
        lemma_blank_run(front);
        let line = lines.last();
        assert(text::blank(lines[lines.len() - 1]));
        reveal_strlit("event:");
        reveal_strlit("data:");
        if line.len() > 0 {
            assert(text::whitespace(line[0]));
            if "event:"@.is_prefix_of(line) {
                assert("event:"@[0] == line[0]);
            }
            if "data:"@.is_prefix_of(line) {
                assert("data:"@[0] == line[0]);
            }
        }
    }
}

/// An event says something: it has a name or data.
pub open spec fn says_something(e: SseEventView) -> bool {
    e.event is Some || e.data.len() > 0
}

proof fn lemma_run_says_something(lines: Seq<Seq<char>>)
    requires
        forall|k: int, j: int|
            0 <= k < lines.len() && 0 <= j < lines[k].len() ==> #[trigger] lines[k][j] != '\n',
    ensures
        ({
            let st = sse_run(sse_start(), lines);
            &&& st.data.len() > 0 ==> st.data[0] != '\n'
            &&& forall|i: int| 0 <= i < st.done.len() ==> says_something(#[trigger] st.done[i])
        }),
    decreases lines.len(),
{
    if lines.len() > 0 {
        let front = lines.drop_last();
        let line = lines.last();
        assert forall|k: int, j: int|
            0 <= k < front.len() && 0 <= j < front[k].len() implies #[trigger] front[k][j]
            != '\n' by {
            assert(front[k] == lines[k]);
            assert(lines[k][j] != '\n');
        }
        lemma_run_says_something(front);
        let st = sse_run(sse_start(), front);
        let next = sse_step(st, line);
        if line.len() == 0 && st.data.len() > 0 {
            text::lemma_trimmed_end_of_keeps(st.data, '\n');
        }
        if next.data.len() > 0 && st.data.len() == 0 {
            let rest = line.skip("data:"@.len() as int);
            let from: int = if rest.len() > 0 && rest[0] == ' ' {
                "data:"@.len() as int + 1
            } else {
                "data:"@.len() as int
            };
            assert(next.data[0] == line[from]);
            assert(lines[lines.len() - 1][from] != '\n');
        }
    }
}

/// No event lacks both a name and data.
pub proof fn law_events_say_something(s: Seq<char>)
    ensures
        forall|i: int| 0 <= i < sse_events(s).len() ==> says_something(#[trigger] sse_events(s)[i]),
{
    reveal(sse_events);
    text::lemma_lines_hold_no_newline(s);
    lemma_run_says_something(text::lines(s));
}

/// The events that a parser with the given buffer delivers over a row of
/// chunks and the end of the stream.
pub open spec fn delivered(buf: Seq<char>, chunks: Seq<Seq<char>>) -> Seq<SseEventView>
    decreases chunks.len(),
{
    if chunks.len() == 0 {
        flushed(buf)
    } else {
        let (events, rest) = fed(buf + chunks.first());
        events + delivered(rest, chunks.drop_first())
    }
}

/// However a stream is cut into chunks, a parser that starts with `buf` ends
/// up delivering the events of the whole text.
pub proof fn law_delivery_from(buf: Seq<char>, chunks: Seq<Seq<char>>)
    requires
        !text::contains(buf + chunks.flatten(), stray_cr()),
    ensures
        delivered(buf, chunks) == sse_events(buf + chunks.flatten()),
    decreases chunks.len(),
{
    let whole = buf + chunks.flatten();
    if chunks.len() == 0 {
        assert(whole =~= buf);
        if text::trimmed(buf).len() == 0 {
            lemma_blank_events(buf);
        }
    } else {
        let s = buf + chunks.first();
        let x = chunks.drop_first().flatten();
        assert(whole =~= s + x);
        if text::contains(s, stray_cr()) {
            assert(s =~= whole.subrange(0, s.len() as int));
            text::lemma_contains_part(whole, 0, s.len() as int, stray_cr());
        }
        law_feed_delivers_in_order(s, x);
        let (events, rest) = fed(s);
        let k = s.len() - rest.len();
        assert(rest + x =~= whole.subrange(k, whole.len() as int));
        if text::contains(rest + x, stray_cr()) {
            text::lemma_contains_part(whole, k, whole.len() as int, stray_cr());
        }
        law_delivery_from(rest, chunks.drop_first());
    }
}

/// However a stream is cut into chunks, the parser delivers exactly the events
/// that [`parse_sse_buffer`] finds in the whole text.
pub proof fn law_chunking_is_invisible(chunks: Seq<Seq<char>>)
    requires
        !text::contains(chunks.flatten(), stray_cr()),
    ensures
        delivered(Seq::empty(), chunks) == sse_events(chunks.flatten()),
{
    assert(Seq::<char>::empty() + chunks.flatten() =~= chunks.flatten());
    law_delivery_from(Seq::empty(), chunks);
}

proof fn lemma_drained_holds_none(s: Seq<char>, delim: Seq<char>)
    requires
        delim.len() > 0,
    ensures
        !text::contains(drained(s, delim).1, delim),
        drained(s, delim).1.len() <= s.len(),
        drained(s, delim).1 == s.skip(s.len() - drained(s, delim).1.len()),
    decreases s.len(),
{
    text::lemma_find(s, delim);
    match text::find(s, delim) {
        None => {
            assert(s.skip(0) =~= s);
        },
        Some(i) => {
            let next = s.skip(i as int + delim.len());
            lemma_drained_holds_none(next, delim);
            let rest = drained(next, delim).1;
            assert(next.skip(next.len() - rest.len()) =~= s.skip(s.len() - rest.len()));
        },
    }
}

/// Every frame is delivered as soon as the blank line that ends it is there:
/// what is kept back holds no blank line.
pub proof fn law_feed_delivers_at_once(s: Seq<char>)
    ensures
        !text::contains(fed(s).1, seq!['\n', '\n']),
        !text::contains(fed(s).1, seq!['\r', '\n', '\r', '\n']),
{
    let (first, rest) = drained(s, lf_lf());
    let (second, left) = drained(rest, crlf_crlf());
    lemma_drained_holds_none(s, lf_lf());
    lemma_drained_holds_none(rest, crlf_crlf());
    if text::contains(left, lf_lf()) {
        assert(left =~= rest.subrange(rest.len() - left.len(), rest.len() as int));
        text::lemma_contains_part(rest, rest.len() - left.len(), rest.len() as int, lf_lf());
    }
}

proof fn lemma_nothing_drained(delim: Seq<char>)
    requires
        delim.len() > 0,
    ensures
        drained(Seq::empty(), delim).0.len() == 0,
        drained(Seq::empty(), delim).1.len() == 0,
{
    let none = Seq::<char>::empty();
    text::lemma_find(none, delim);
    if let Some(j) = text::find(none, delim) {
        assert(text::occurs_at(none, delim, j as int));
    }
}

/// The blank line at the end of a frame is the first one.
proof fn lemma_blank_line_at_end(f: Seq<char>)
    requires
        f.len() > 0,
        f.last() != '\n',
        !text::contains(f, lf_lf()),
    ensures
        text::find(f + lf_lf(), lf_lf()) == Some(f.len()),
{
    let d = lf_lf();
    let s = f + d;
    assert(s.subrange(f.len() as int, s.len() as int) =~= d);
    assert(text::occurs_at(s, d, f.len() as int));
    assert forall|i: int| 0 <= i < f.len() implies !text::occurs_at(s, d, i) by {
        if text::occurs_at(s, d, i) {
            let part = s.subrange(i, i + 2);
            assert(part[0] == s[i] && part[1] == s[i + 1]);
            if i + 1 < f.len() {
                assert(f.subrange(i, i + 2) =~= part);
                assert(text::occurs_at(f, d, i));
            }
        }
    }
    text::lemma_find_at(s, d, f.len() as int);
}

/// A frame that is fed whole, and holds no blank line inside, comes out as its
/// event with nothing kept back.
#[verifier::spinoff_prover]
pub proof fn law_whole_frames_come_out(f: Seq<char>)
    requires
        f.len() > 0,
        f.last() != '\n',
        !text::contains(f, seq!['\n', '\n']),
    ensures
        fed(f + seq!['\n', '\n']).0 == sse_events(f + seq!['\n', '\n']),
        fed(f + seq!['\n', '\n']).1.len() == 0,
{
    let d = lf_lf();
    let s = f + d;
    let none = Seq::<char>::empty();
    lemma_blank_line_at_end(f);
    let i = f.len() as int;
    assert(s.take(i) =~= f);
    assert(s.skip(i + d.len()) =~= none);
    lemma_nothing_drained(d);
    lemma_nothing_drained(crlf_crlf());
    let (first, rest) = drained(s, d);
    assert(first =~= sse_events(s));
    assert(rest =~= none);
    let (second, left) = drained(rest, crlf_crlf());
    assert(first + second =~= first);
}

/// The end of a stream completes what was kept back, unless that is white
/// space.
pub proof fn law_the_end_completes_the_rest(s: Seq<char>, i: int)
    ensures
        0 <= i < s.len() && !text::whitespace(s[i]) ==> flushed(s) == sse_events(s),
        (forall|j: int| 0 <= j < s.len() ==> text::whitespace(#[trigger] s[j])) ==> flushed(s).len()
            == 0,
{
    if 0 <= i < s.len() && !text::whitespace(s[i]) {
        text::lemma_trimmed_start(s);
        let t = text::trimmed_start(s);
        text::lemma_trimmed_end(t);
        if text::trimmed(s).len() == 0 && i >= s.len() - t.len() {
            assert(s[i] == t[i - (s.len() - t.len())]);
        }
    }
    if forall|j: int| 0 <= j < s.len() ==> text::whitespace(#[trigger] s[j]) {
        text::lemma_blank_trimmed(s);
    }
}

} // verus!
