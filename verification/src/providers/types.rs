//! Anthropic Messages typed data structures.
//!
//! Preserves client semantics for messages, streaming, tool use, stop
//! reasons, and usage. Provider quirks are not represented here; they are
//! normalized at the adapter boundary. Members that a type does not name are
//! kept in its `extra` map and written back unchanged.

use vstd::prelude::*;
use vstd::string::*;

use crate::json;
use crate::json::{Json, JsonMap, JsonNumber, JsonView, NumberView};
use crate::providers::decode;
use crate::providers::decode::{DecodeError, DecodeErrorView, FromJson, ToJson};
use crate::text;

verus! {

// ---------------------------------------------------------------------------
// Stop reason
// ---------------------------------------------------------------------------

/// Normalized stop reason.
#[derive(Debug, Clone, Copy, PartialEq, Eq, Structural)]
pub enum StopReason {
    EndTurn,
    MaxTokens,
    StopSequence,
    ToolUse,
    Unknown,
}

/// The stop reason that an upstream text names; any other text is `Unknown`.
pub open spec fn stop_reason_of(s: Seq<char>) -> StopReason {
    if s == "end_turn"@ {
        StopReason::EndTurn
    } else if s == "max_tokens"@ {
        StopReason::MaxTokens
    } else if s == "stop_sequence"@ {
        StopReason::StopSequence
    } else if s == "tool_use"@ {
        StopReason::ToolUse
    } else {
        StopReason::Unknown
    }
}

impl StopReason {
    /// The name shown to clients; an unknown reason is shown as `end_turn`.
    pub open spec fn shown(self) -> Seq<char> {
        match self {
            StopReason::EndTurn => "end_turn"@,
            StopReason::MaxTokens => "max_tokens"@,
            StopReason::StopSequence => "stop_sequence"@,
            StopReason::ToolUse => "tool_use"@,
            StopReason::Unknown => "end_turn"@,
        }
    }

    /// The name on the wire.
    pub open spec fn wire(self) -> Seq<char> {
        if self == StopReason::Unknown {
            "unknown"@
        } else {
            self.shown()
        }
    }

    /// Parse an upstream string (`end_turn`, `max_tokens`, `stop_sequence`,
    /// `tool_use`) into the normalized variant. Unknown values map to
    /// `Unknown` rather than erroring, keeping the boundary
    /// forward-compatible.
    pub fn parse(s: &str) -> (r: StopReason)
        ensures
            r == stop_reason_of(s@),
    {
        if text::same(s, "end_turn") {
            StopReason::EndTurn
        } else if text::same(s, "max_tokens") {
            StopReason::MaxTokens
        } else if text::same(s, "stop_sequence") {
            StopReason::StopSequence
        } else if text::same(s, "tool_use") {
            StopReason::ToolUse
        } else {
            StopReason::Unknown
        }
    }

    pub fn as_str(&self) -> (r: &'static str)
        ensures
            r@ == self.shown(),
    {
        match self {
            StopReason::EndTurn => "end_turn",
            StopReason::MaxTokens => "max_tokens",
            StopReason::StopSequence => "stop_sequence",
            StopReason::ToolUse => "tool_use",
            StopReason::Unknown => "end_turn",
        }
    }

    pub fn wire_str(&self) -> (r: &'static str)
        ensures
            r@ == self.wire(),
    {
        match self {
            StopReason::Unknown => "unknown",
            known => known.as_str(),
        }
    }
}

/// A stop reason survives being written and parsed again, and a known one also
/// being shown and parsed again.
pub proof fn law_stop_reason_round_trip(r: StopReason)
    ensures
        stop_reason_of(r.wire()) == r,
        r != StopReason::Unknown ==> stop_reason_of(r.shown()) == r,
{
    reveal_strlit("unknown");
    assert("unknown"@.len() == 7);
    reveal_strlit("end_turn");
    reveal_strlit("max_tokens");
    reveal_strlit("stop_sequence");
    reveal_strlit("tool_use");
    assert("end_turn"@.len() == 8);
    assert("tool_use"@.len() == 8);
    assert("max_tokens"@.len() == 10);
    assert("stop_sequence"@.len() == 13);
    assert("end_turn"@[0] == 'e');
    assert("tool_use"@[0] == 't');
}

// ---------------------------------------------------------------------------
// Usage
// ---------------------------------------------------------------------------

#[derive(Debug, Clone, PartialEq)]
pub struct Usage {
    pub input_tokens: u32,
    pub output_tokens: u32,
    /// Provider-specific usage counters, such as cached input tokens.
    pub extra: JsonMap,
}

pub struct UsageView {
    pub input_tokens: u32,
    pub output_tokens: u32,
    pub extra: Map<Seq<char>, JsonView>,
}

impl View for Usage {
    type V = UsageView;

    open spec fn view(&self) -> UsageView {
        UsageView {
            input_tokens: self.input_tokens,
            output_tokens: self.output_tokens,
            extra: self.extra@,
        }
    }
}

pub open spec fn no_usage() -> UsageView {
    UsageView { input_tokens: 0, output_tokens: 0, extra: Map::empty() }
}

/// The usage that a JSON value holds.
pub open spec fn usage_of(v: JsonView) -> Result<UsageView, DecodeErrorView> {
    match v {
        JsonView::Object(m) => match decode::counter(m, "input_tokens"@) {
            Err(e) => Err(e),
            Ok(input_tokens) => match decode::counter(m, "output_tokens"@) {
                Err(e) => Err(e),
                Ok(output_tokens) => Ok(
                    UsageView {
                        input_tokens,
                        output_tokens,
                        extra: m.remove("input_tokens"@).remove("output_tokens"@),
                    },
                ),
            },
        },
        _ => Err(DecodeErrorView::Invalid("usage"@)),
    }
}

pub open spec fn number(n: int) -> JsonView {
    JsonView::Number(NumberView::Integer(n))
}

/// `extra` over the two counters.
pub open spec fn usage_json(u: UsageView) -> JsonView {
    JsonView::Object(
        Map::<Seq<char>, JsonView>::empty().insert(
            "input_tokens"@,
            number(u.input_tokens as int),
        ).insert("output_tokens"@, number(u.output_tokens as int)).union_prefer_right(u.extra),
    )
}

impl Default for Usage {
    fn default() -> (r: Usage)
        ensures
            r@ == no_usage(),
    {
        Usage { input_tokens: 0, output_tokens: 0, extra: JsonMap::new() }
    }
}

impl FromJson for Usage {
    open spec fn of(v: JsonView) -> Result<UsageView, DecodeErrorView> {
        usage_of(v)
    }

    fn from_json(v: &Json) -> (r: Result<Usage, DecodeError>) {
        match v {
            Json::Object(m) => {
                let input_tokens: u32 = match decode::get_counter(m, "input_tokens") {
                    Ok(n) => n,
                    Err(e) => return Err(e),
                };
                let output_tokens: u32 = match decode::get_counter(m, "output_tokens") {
                    Ok(n) => n,
                    Err(e) => return Err(e),
                };
                let extra = m.without("input_tokens").without("output_tokens");
                Ok(Usage { input_tokens, output_tokens, extra })
            },
            _ => Err(DecodeError::Invalid("usage".to_owned())),
        }
    }
}

impl ToJson for Usage {
    open spec fn json(v: UsageView) -> JsonView {
        usage_json(v)
    }

    fn to_json(&self) -> (r: Json) {
        let mut m = JsonMap::new();
        m.insert(
            "input_tokens".to_owned(),
            Json::Number(JsonNumber::Unsigned(self.input_tokens as u64)),
        );
        m.insert(
            "output_tokens".to_owned(),
            Json::Number(JsonNumber::Unsigned(self.output_tokens as u64)),
        );
        m.extend(&self.extra);
        Json::object(m)
    }
}

/// Usage that was read is written back: the counters as they were (0 where
/// there was none) and every other member unchanged.
pub proof fn law_usage_members_kept(v: JsonView, k: Seq<char>)
    requires
        usage_of(v) is Ok,
        v.get(k) is Some,
    ensures
        usage_json(usage_of(v)->Ok_0).get(k) == v.get(k),
{
    reveal_strlit("input_tokens");
    reveal_strlit("output_tokens");
    assert("input_tokens"@.len() == 12);
    assert("output_tokens"@.len() == 13);
}

// ---------------------------------------------------------------------------
// Content blocks
// ---------------------------------------------------------------------------

#[derive(Debug, Clone, PartialEq)]
pub enum ContentBlock {
    Text { text: String, extra: JsonMap },
    ToolUse { id: String, name: String, input: Json, extra: JsonMap },
    ToolResult { tool_use_id: String, content: Json, is_error: bool, extra: JsonMap },
    /// Image blocks are passed through opaquely to keep the boundary generic.
    Image { source: Json, extra: JsonMap },
    Thinking { thinking: String, signature: Option<String>, extra: JsonMap },
    RedactedThinking { data: String, extra: JsonMap },
    /// Preserves content block types introduced by a provider or newer API.
    Unknown(Json),
}

pub enum BlockView {
    Text { text: Seq<char>, extra: Map<Seq<char>, JsonView> },
    ToolUse {
        id: Seq<char>,
        name: Seq<char>,
        input: JsonView,
        extra: Map<Seq<char>, JsonView>,
    },
    ToolResult {
        tool_use_id: Seq<char>,
        content: JsonView,
        is_error: bool,
        extra: Map<Seq<char>, JsonView>,
    },
    Image { source: JsonView, extra: Map<Seq<char>, JsonView> },
    Thinking {
        thinking: Seq<char>,
        signature: Option<Seq<char>>,
        extra: Map<Seq<char>, JsonView>,
    },
    RedactedThinking { data: Seq<char>, extra: Map<Seq<char>, JsonView> },
    Unknown(JsonView),
}

impl View for ContentBlock {
    type V = BlockView;

    open spec fn view(&self) -> BlockView {
        match *self {
            ContentBlock::Text { text, extra } => BlockView::Text { text: text@, extra: extra@ },
            ContentBlock::ToolUse { id, name, input, extra } => BlockView::ToolUse {
                id: id@,
                name: name@,
                input: input@,
                extra: extra@,
            },
            ContentBlock::ToolResult { tool_use_id, content, is_error, extra } =>
            BlockView::ToolResult {
                tool_use_id: tool_use_id@,
                content: content@,
                is_error,
                extra: extra@,
            },
            ContentBlock::Image { source, extra } => BlockView::Image {
                source: source@,
                extra: extra@,
            },
            ContentBlock::Thinking { thinking, signature, extra } => BlockView::Thinking {
                thinking: thinking@,
                signature: decode::text_view(signature),
                extra: extra@,
            },
            ContentBlock::RedactedThinking { data, extra } => BlockView::RedactedThinking {
                data: data@,
                extra: extra@,
            },
            ContentBlock::Unknown(value) => BlockView::Unknown(value@),
        }
    }
}

/// The member `name` of a content block, which has to be there.
pub open spec fn block_member(
    kind: Seq<char>,
    m: Map<Seq<char>, JsonView>,
    name: Seq<char>,
) -> Result<JsonView, DecodeErrorView> {
    if m.contains_key(name) {
        Ok(m[name])
    } else {
        Err(DecodeErrorView::MissingInBlock { kind, name })
    }
}

/// The member `name` of a content block, which has to be there and be a text.
pub open spec fn block_text(
    kind: Seq<char>,
    m: Map<Seq<char>, JsonView>,
    name: Seq<char>,
) -> Result<Seq<char>, DecodeErrorView> {
    match block_member(kind, m, name) {
        Err(e) => Err(e),
        Ok(JsonView::Text(s)) => Ok(s),
        Ok(_) => Err(DecodeErrorView::Invalid(name)),
    }
}

fn get_block_member<'a>(kind: &str, m: &'a JsonMap, name: &str) -> (r: Result<
    &'a Json,
    DecodeError,
>)
    ensures
        match r {
            Ok(v) => block_member(kind@, m@, name@) == Ok::<JsonView, DecodeErrorView>(v@),
            Err(e) => block_member(kind@, m@, name@) == Err::<JsonView, DecodeErrorView>(e@),
        },
{
    match m.get(name) {
        Some(v) => Ok(v),
        None => Err(
            DecodeError::MissingInBlock { kind: kind.to_owned(), name: name.to_owned() },
        ),
    }
}

fn get_block_text(kind: &str, m: &JsonMap, name: &str) -> (r: Result<String, DecodeError>)
    ensures
        match r {
            Ok(s) => block_text(kind@, m@, name@) == Ok::<Seq<char>, DecodeErrorView>(s@),
            Err(e) => block_text(kind@, m@, name@) == Err::<Seq<char>, DecodeErrorView>(e@),
        },
{
    match get_block_member(kind, m, name) {
        Err(e) => Err(e),
        Ok(Json::Text(s)) => Ok(s.clone()),
        Ok(_) => Err(DecodeError::Invalid(name.to_owned())),
    }
}

/// The block that an object of the given `type` holds. `m` are its members
/// without the type, `whole` is the object itself.
pub open spec fn block_of_kind(
    kind: Seq<char>,
    m: Map<Seq<char>, JsonView>,
    whole: JsonView,
) -> Result<BlockView, DecodeErrorView> {
    if kind == "text"@ {
        match block_text(kind, m, "text"@) {
            Err(e) => Err(e),
            Ok(text) => Ok(BlockView::Text { text, extra: m.remove("text"@) }),
        }
    } else if kind == "tool_use"@ {
        match block_text(kind, m, "id"@) {
            Err(e) => Err(e),
            Ok(id) => match block_text(kind, m, "name"@) {
                Err(e) => Err(e),
                Ok(name) => match block_member(kind, m, "input"@) {
                    Err(e) => Err(e),
                    Ok(input) => Ok(
                        BlockView::ToolUse {
                            id,
                            name,
                            input,
                            extra: m.remove("id"@).remove("name"@).remove("input"@),
                        },
                    ),
                },
            },
        }
    } else if kind == "tool_result"@ {
        match block_text(kind, m, "tool_use_id"@) {
            Err(e) => Err(e),
            Ok(tool_use_id) => match block_member(kind, m, "content"@) {
                Err(e) => Err(e),
                Ok(content) => match is_error_of(m) {
                    Err(e) => Err(e),
                    Ok(is_error) => Ok(
                        BlockView::ToolResult {
                            tool_use_id,
                            content,
                            is_error,
                            extra: m.remove("tool_use_id"@).remove("content"@).remove("is_error"@),
                        },
                    ),
                },
            },
        }
    } else if kind == "image"@ {
        match block_member(kind, m, "source"@) {
            Err(e) => Err(e),
            Ok(source) => Ok(BlockView::Image { source, extra: m.remove("source"@) }),
        }
    } else if kind == "thinking"@ {
        match block_text(kind, m, "thinking"@) {
            Err(e) => Err(e),
            Ok(thinking) => match signature_of(m) {
                Err(e) => Err(e),
                Ok(signature) => Ok(
                    BlockView::Thinking {
                        thinking,
                        signature,
                        extra: m.remove("thinking"@).remove("signature"@),
                    },
                ),
            },
        }
    } else if kind == "redacted_thinking"@ {
        match block_text(kind, m, "data"@) {
            Err(e) => Err(e),
            Ok(data) => Ok(BlockView::RedactedThinking { data, extra: m.remove("data"@) }),
        }
    } else {
        Ok(BlockView::Unknown(whole))
    }
}

/// A tool result without `is_error` is none; with it, it has to be a boolean.
pub open spec fn is_error_of(m: Map<Seq<char>, JsonView>) -> Result<bool, DecodeErrorView> {
    if m.contains_key("is_error"@) {
        match m["is_error"@] {
            JsonView::Bool(b) => Ok(b),
            _ => Err(DecodeErrorView::Invalid("is_error"@)),
        }
    } else {
        Ok(false)
    }
}

/// A signature may be absent; where it is there, it has to be a text.
pub open spec fn signature_of(m: Map<Seq<char>, JsonView>) -> Result<
    Option<Seq<char>>,
    DecodeErrorView,
> {
    if m.contains_key("signature"@) {
        match m["signature"@] {
            JsonView::Text(s) => Ok(Some(s)),
            _ => Err(DecodeErrorView::Invalid("signature"@)),
        }
    } else {
        Ok(None)
    }
}

/// The content block that a JSON value holds. A value without a textual
/// `type`, or with one that is not known, is kept as it is.
pub open spec fn block_of(v: JsonView) -> Result<BlockView, DecodeErrorView> {
    match v.get_text("type"@) {
        None => Ok(BlockView::Unknown(v)),
        Some(kind) => block_of_kind(kind, v->Object_0.remove("type"@), v),
    }
}

/// `extra` with the given `type` set.
pub open spec fn typed(kind: Seq<char>, extra: Map<Seq<char>, JsonView>) -> Map<
    Seq<char>,
    JsonView,
> {
    extra.insert("type"@, JsonView::Text(kind))
}

/// The JSON value of a content block: its own members over the extra ones.
pub open spec fn block_json(b: BlockView) -> JsonView {
    match b {
        BlockView::Text { text, extra } => JsonView::Object(
            typed("text"@, extra).insert("text"@, JsonView::Text(text)),
        ),
        BlockView::ToolUse { id, name, input, extra } => JsonView::Object(
            typed("tool_use"@, extra).insert("id"@, JsonView::Text(id)).insert(
                "name"@,
                JsonView::Text(name),
            ).insert("input"@, input),
        ),
        BlockView::ToolResult { tool_use_id, content, is_error, extra } => JsonView::Object(
            typed("tool_result"@, extra).insert("tool_use_id"@, JsonView::Text(tool_use_id)).insert(
                "content"@,
                content,
            ).insert("is_error"@, JsonView::Bool(is_error)),
        ),
        BlockView::Image { source, extra } => JsonView::Object(
            typed("image"@, extra).insert("source"@, source),
        ),
        BlockView::Thinking { thinking, signature, extra } => {
            let m = typed("thinking"@, extra).insert("thinking"@, JsonView::Text(thinking));
            JsonView::Object(
                match signature {
                    Some(s) => m.insert("signature"@, JsonView::Text(s)),
                    None => m,
                },
            )
        },
        BlockView::RedactedThinking { data, extra } => JsonView::Object(
            typed("redacted_thinking"@, extra).insert("data"@, JsonView::Text(data)),
        ),
        BlockView::Unknown(value) => value,
    }
}

/// A block that was read is written back as the value it came from. The one
/// difference: a tool result that left `is_error` out gets `false`.
pub proof fn law_block_round_trip(v: JsonView)
    requires
        block_of(v) is Ok,
    ensures
        ({
            let written = block_json(block_of(v)->Ok_0);
            if v.get_text("type"@) == Some("tool_result"@) && v.get("is_error"@) is None {
                written == JsonView::Object(
                    v->Object_0.insert("is_error"@, JsonView::Bool(false)),
                )
            } else {
                written == v
            }
        }),
{
    reveal_strlit("type");
    reveal_strlit("is_error");
    reveal_strlit("tool_result");
    reveal_strlit("text");
    reveal_strlit("tool_use");
    assert("type"@.len() == 4);
    assert("is_error"@.len() == 8);
    assert("text"@.len() == 4);
    assert("tool_use"@.len() == 8);
    assert("tool_result"@.len() == 11);
    if v.get_text("type"@) is Some {
        let all = v->Object_0;
        let kind = all["type"@]->Text_0;
        let written = block_json(block_of(v)->Ok_0);
        if written is Object {
            if kind == "tool_result"@ && !all.contains_key("is_error"@) {
                assert(written->Object_0 =~= all.insert("is_error"@, JsonView::Bool(false)));
            } else {
                assert(written->Object_0 =~= all);
            }
        }
    }
}

impl FromJson for ContentBlock {
    open spec fn of(v: JsonView) -> Result<BlockView, DecodeErrorView> {
        block_of(v)
    }

    fn from_json(v: &Json) -> (r: Result<ContentBlock, DecodeError>) {
        let m = match v {
            Json::Object(m) => m,
            _ => return Ok(ContentBlock::Unknown(v.clone())),
        };
        let kind = match v.get_str("type") {
            Some(kind) => kind,
            None => return Ok(ContentBlock::Unknown(v.clone())),
        };
        let rest = m.without("type");
        if text::same(kind, "text") {
            match get_block_text(kind, &rest, "text") {
                Err(e) => Err(e),
                Ok(text) => Ok(ContentBlock::Text { text, extra: rest.without("text") }),
            }
        } else if text::same(kind, "tool_use") {
            let id = match get_block_text(kind, &rest, "id") {
                Ok(id) => id,
                Err(e) => return Err(e),
            };
            let name = match get_block_text(kind, &rest, "name") {
                Ok(name) => name,
                Err(e) => return Err(e),
            };
            match get_block_member(kind, &rest, "input") {
                Err(e) => Err(e),
                Ok(input) => Ok(
                    ContentBlock::ToolUse {
                        id,
                        name,
                        input: input.clone(),
                        extra: rest.without("id").without("name").without("input"),
                    },
                ),
            }
        } else if text::same(kind, "tool_result") {
            let tool_use_id = match get_block_text(kind, &rest, "tool_use_id") {
                Ok(id) => id,
                Err(e) => return Err(e),
            };
            let content = match get_block_member(kind, &rest, "content") {
                Ok(content) => content.clone(),
                Err(e) => return Err(e),
            };
            let is_error: bool = match rest.get("is_error") {
                Some(Json::Bool(b)) => *b,
                Some(_) => return Err(DecodeError::Invalid("is_error".to_owned())),
                None => false,
            };
            Ok(
                ContentBlock::ToolResult {
                    tool_use_id,
                    content,
                    is_error,
                    extra: rest.without("tool_use_id").without("content").without("is_error"),
                },
            )
        } else if text::same(kind, "image") {
            match get_block_member(kind, &rest, "source") {
                Err(e) => Err(e),
                Ok(source) => Ok(
                    ContentBlock::Image { source: source.clone(), extra: rest.without("source") },
                ),
            }
        } else if text::same(kind, "thinking") {
            let thinking = match get_block_text(kind, &rest, "thinking") {
                Ok(thinking) => thinking,
                Err(e) => return Err(e),
            };
            let signature: Option<String> = match rest.get("signature") {
                Some(Json::Text(s)) => Some(s.clone()),
                Some(_) => return Err(DecodeError::Invalid("signature".to_owned())),
                None => None,
            };
            Ok(
                ContentBlock::Thinking {
                    thinking,
                    signature,
                    extra: rest.without("thinking").without("signature"),
                },
            )
        } else if text::same(kind, "redacted_thinking") {
            match get_block_text(kind, &rest, "data") {
                Err(e) => Err(e),
                Ok(data) => Ok(
                    ContentBlock::RedactedThinking { data, extra: rest.without("data") },
                ),
            }
        } else {
            Ok(ContentBlock::Unknown(v.clone()))
        }
    }
}

impl ToJson for ContentBlock {
    open spec fn json(v: BlockView) -> JsonView {
        block_json(v)
    }

    fn to_json(&self) -> (r: Json) {
        match self {
            ContentBlock::Text { text, extra } => {
                let mut m = object_with_type("text", extra);
                m.insert("text".to_owned(), Json::Text(text.clone()));
                Json::object(m)
            },
            ContentBlock::ToolUse { id, name, input, extra } => {
                let mut m = object_with_type("tool_use", extra);
                m.insert("id".to_owned(), Json::Text(id.clone()));
                m.insert("name".to_owned(), Json::Text(name.clone()));
                m.insert("input".to_owned(), input.clone());
                Json::object(m)
            },
            ContentBlock::ToolResult { tool_use_id, content, is_error, extra } => {
                let mut m = object_with_type("tool_result", extra);
                m.insert("tool_use_id".to_owned(), Json::Text(tool_use_id.clone()));
                m.insert("content".to_owned(), content.clone());
                m.insert("is_error".to_owned(), Json::Bool(*is_error));
                Json::object(m)
            },
            ContentBlock::Image { source, extra } => {
                let mut m = object_with_type("image", extra);
                m.insert("source".to_owned(), source.clone());
                Json::object(m)
            },
            ContentBlock::Thinking { thinking, signature, extra } => {
                let mut m = object_with_type("thinking", extra);
                m.insert("thinking".to_owned(), Json::Text(thinking.clone()));
                if let Some(signature) = signature {
                    m.insert("signature".to_owned(), Json::Text(signature.clone()));
                }
                Json::object(m)
            },
            ContentBlock::RedactedThinking { data, extra } => {
                let mut m = object_with_type("redacted_thinking", extra);
                m.insert("data".to_owned(), Json::Text(data.clone()));
                Json::object(m)
            },
            ContentBlock::Unknown(value) => value.clone(),
        }
    }
}

pub(crate) fn object_with_type(kind: &str, extra: &JsonMap) -> (r: JsonMap)
    ensures
        r@ == typed(kind@, extra@),
{
    let mut m = extra.clone();
    m.insert("type".to_owned(), Json::text(kind));
    m
}

// ---------------------------------------------------------------------------
// Messages
// ---------------------------------------------------------------------------

#[derive(Debug, Clone, PartialEq)]
pub enum MessageContent {
    Text(String),
    Blocks(Vec<ContentBlock>),
}

pub enum ContentView {
    Text(Seq<char>),
    Blocks(Seq<BlockView>),
}

impl View for MessageContent {
    type V = ContentView;

    open spec fn view(&self) -> ContentView {
        match *self {
            MessageContent::Text(s) => ContentView::Text(s@),
            MessageContent::Blocks(b) => ContentView::Blocks(decode::all_views(b@)),
        }
    }
}

impl FromJson for MessageContent {
    open spec fn of(v: JsonView) -> Result<ContentView, DecodeErrorView> {
        match v {
            JsonView::Text(s) => Ok(ContentView::Text(s)),
            JsonView::Array(items) => match decode::list_of::<ContentBlock>(items) {
                Ok(blocks) => Ok(ContentView::Blocks(blocks)),
                Err(_) => Err(DecodeErrorView::NoVariant("MessageContent"@)),
            },
            _ => Err(DecodeErrorView::NoVariant("MessageContent"@)),
        }
    }

    fn from_json(v: &Json) -> (r: Result<MessageContent, DecodeError>) {
        match v {
            Json::Text(s) => Ok(MessageContent::Text(s.clone())),
            Json::Array(items) => match decode::list_from_json(items) {
                Ok(blocks) => Ok(MessageContent::Blocks(blocks)),
                Err(_) => Err(DecodeError::NoVariant("MessageContent".to_owned())),
            },
            _ => Err(DecodeError::NoVariant("MessageContent".to_owned())),
        }
    }
}

impl ToJson for MessageContent {
    open spec fn json(v: ContentView) -> JsonView {
        match v {
            ContentView::Text(s) => JsonView::Text(s),
            ContentView::Blocks(blocks) => decode::list_json::<ContentBlock>(blocks),
        }
    }

    fn to_json(&self) -> (r: Json) {
        match self {
            MessageContent::Text(s) => Json::Text(s.clone()),
            MessageContent::Blocks(blocks) => decode::list_to_json(blocks),
        }
    }
}

#[derive(Debug, Clone, PartialEq)]
pub struct Message {
    pub role: String,
    pub content: MessageContent,
    pub extra: JsonMap,
}

pub struct MessageView {
    pub role: Seq<char>,
    pub content: ContentView,
    pub extra: Map<Seq<char>, JsonView>,
}

impl View for Message {
    type V = MessageView;

    open spec fn view(&self) -> MessageView {
        MessageView { role: self.role@, content: self.content@, extra: self.extra@ }
    }
}

impl FromJson for Message {
    open spec fn of(v: JsonView) -> Result<MessageView, DecodeErrorView> {
        match v {
            JsonView::Object(m) => match decode::required_text(m, "role"@) {
                Err(e) => Err(e),
                Ok(role) => match decode::required(m, "content"@) {
                    Err(e) => Err(e),
                    Ok(c) => match MessageContent::of(c) {
                        Err(e) => Err(e),
                        Ok(content) => Ok(
                            MessageView {
                                role,
                                content,
                                extra: m.remove("role"@).remove("content"@),
                            },
                        ),
                    },
                },
            },
            _ => Err(DecodeErrorView::Invalid("messages"@)),
        }
    }

    fn from_json(v: &Json) -> (r: Result<Message, DecodeError>) {
        let m = match v {
            Json::Object(m) => m,
            _ => return Err(DecodeError::Invalid("messages".to_owned())),
        };
        let role = match decode::get_required_text(m, "role") {
            Ok(role) => role,
            Err(e) => return Err(e),
        };
        let value = match decode::get_required(m, "content") {
            Ok(value) => value,
            Err(e) => return Err(e),
        };
        match MessageContent::from_json(value) {
            Ok(content) => Ok(
                Message { role, content, extra: m.without("role").without("content") },
            ),
            Err(e) => Err(e),
        }
    }
}

impl ToJson for Message {
    open spec fn json(v: MessageView) -> JsonView {
        JsonView::Object(
            Map::<Seq<char>, JsonView>::empty().insert("role"@, JsonView::Text(v.role)).insert(
                "content"@,
                MessageContent::json(v.content),
            ).union_prefer_right(v.extra),
        )
    }

    fn to_json(&self) -> (r: Json) {
        let mut m = JsonMap::new();
        m.insert("role".to_owned(), Json::Text(self.role.clone()));
        m.insert("content".to_owned(), self.content.to_json());
        m.extend(&self.extra);
        Json::object(m)
    }
}

#[derive(Debug, Clone, PartialEq)]
pub struct SystemBlock {
    pub kind: String,
    pub text: String,
    pub extra: JsonMap,
}

pub struct SystemBlockView {
    pub kind: Seq<char>,
    pub text: Seq<char>,
    pub extra: Map<Seq<char>, JsonView>,
}

impl View for SystemBlock {
    type V = SystemBlockView;

    open spec fn view(&self) -> SystemBlockView {
        SystemBlockView { kind: self.kind@, text: self.text@, extra: self.extra@ }
    }
}

impl FromJson for SystemBlock {
    open spec fn of(v: JsonView) -> Result<SystemBlockView, DecodeErrorView> {
        match v {
            JsonView::Object(m) => match decode::required_text(m, "type"@) {
                Err(e) => Err(e),
                Ok(kind) => match decode::required_text(m, "text"@) {
                    Err(e) => Err(e),
                    Ok(text) => Ok(
                        SystemBlockView { kind, text, extra: m.remove("type"@).remove("text"@) },
                    ),
                },
            },
            _ => Err(DecodeErrorView::Invalid("system"@)),
        }
    }

    fn from_json(v: &Json) -> (r: Result<SystemBlock, DecodeError>) {
        let m = match v {
            Json::Object(m) => m,
            _ => return Err(DecodeError::Invalid("system".to_owned())),
        };
        let kind = match decode::get_required_text(m, "type") {
            Ok(kind) => kind,
            Err(e) => return Err(e),
        };
        match decode::get_required_text(m, "text") {
            Ok(text) => Ok(SystemBlock { kind, text, extra: m.without("type").without("text") }),
            Err(e) => Err(e),
        }
    }
}

impl ToJson for SystemBlock {
    open spec fn json(v: SystemBlockView) -> JsonView {
        JsonView::Object(
            Map::<Seq<char>, JsonView>::empty().insert("type"@, JsonView::Text(v.kind)).insert(
                "text"@,
                JsonView::Text(v.text),
            ).union_prefer_right(v.extra),
        )
    }

    fn to_json(&self) -> (r: Json) {
        let mut m = JsonMap::new();
        m.insert("type".to_owned(), Json::Text(self.kind.clone()));
        m.insert("text".to_owned(), Json::Text(self.text.clone()));
        m.extend(&self.extra);
        Json::object(m)
    }
}

#[derive(Debug, Clone, PartialEq)]
pub enum SystemPrompt {
    Text(String),
    Blocks(Vec<SystemBlock>),
}

pub enum SystemPromptView {
    Text(Seq<char>),
    Blocks(Seq<SystemBlockView>),
}

impl View for SystemPrompt {
    type V = SystemPromptView;

    open spec fn view(&self) -> SystemPromptView {
        match *self {
            SystemPrompt::Text(s) => SystemPromptView::Text(s@),
            SystemPrompt::Blocks(b) => SystemPromptView::Blocks(decode::all_views(b@)),
        }
    }
}

impl FromJson for SystemPrompt {
    open spec fn of(v: JsonView) -> Result<SystemPromptView, DecodeErrorView> {
        match v {
            JsonView::Text(s) => Ok(SystemPromptView::Text(s)),
            JsonView::Array(items) => match decode::list_of::<SystemBlock>(items) {
                Ok(blocks) => Ok(SystemPromptView::Blocks(blocks)),
                Err(_) => Err(DecodeErrorView::NoVariant("SystemPrompt"@)),
            },
            _ => Err(DecodeErrorView::NoVariant("SystemPrompt"@)),
        }
    }

    fn from_json(v: &Json) -> (r: Result<SystemPrompt, DecodeError>) {
        match v {
            Json::Text(s) => Ok(SystemPrompt::Text(s.clone())),
            Json::Array(items) => match decode::list_from_json(items) {
                Ok(blocks) => Ok(SystemPrompt::Blocks(blocks)),
                Err(_) => Err(DecodeError::NoVariant("SystemPrompt".to_owned())),
            },
            _ => Err(DecodeError::NoVariant("SystemPrompt".to_owned())),
        }
    }
}

impl ToJson for SystemPrompt {
    open spec fn json(v: SystemPromptView) -> JsonView {
        match v {
            SystemPromptView::Text(s) => JsonView::Text(s),
            SystemPromptView::Blocks(blocks) => decode::list_json::<SystemBlock>(blocks),
        }
    }

    fn to_json(&self) -> (r: Json) {
        match self {
            SystemPrompt::Text(s) => Json::Text(s.clone()),
            SystemPrompt::Blocks(blocks) => decode::list_to_json(blocks),
        }
    }
}

// ---------------------------------------------------------------------------
// Tools
// ---------------------------------------------------------------------------

#[derive(Debug, Clone, PartialEq)]
pub struct Tool {
    pub name: String,
    pub description: Option<String>,
    pub input_schema: Json,
    pub extra: JsonMap,
}

pub struct ToolView {
    pub name: Seq<char>,
    pub description: Option<Seq<char>>,
    pub input_schema: JsonView,
    pub extra: Map<Seq<char>, JsonView>,
}

impl View for Tool {
    type V = ToolView;

    open spec fn view(&self) -> ToolView {
        ToolView {
            name: self.name@,
            description: decode::text_view(self.description),
            input_schema: self.input_schema@,
            extra: self.extra@,
        }
    }
}

impl FromJson for Tool {
    open spec fn of(v: JsonView) -> Result<ToolView, DecodeErrorView> {
        match v {
            JsonView::Object(m) => match decode::required_text(m, "name"@) {
                Err(e) => Err(e),
                Ok(name) => match decode::optional_text(m, "description"@) {
                    Err(e) => Err(e),
                    Ok(description) => match decode::required(m, "input_schema"@) {
                        Err(e) => Err(e),
                        Ok(input_schema) => Ok(
                            ToolView {
                                name,
                                description,
                                input_schema,
                                extra: m.remove("name"@).remove("description"@).remove(
                                    "input_schema"@,
                                ),
                            },
                        ),
                    },
                },
            },
            _ => Err(DecodeErrorView::Invalid("tools"@)),
        }
    }

    fn from_json(v: &Json) -> (r: Result<Tool, DecodeError>) {
        let m = match v {
            Json::Object(m) => m,
            _ => return Err(DecodeError::Invalid("tools".to_owned())),
        };
        let name = match decode::get_required_text(m, "name") {
            Ok(name) => name,
            Err(e) => return Err(e),
        };
        let description = match decode::get_optional_text(m, "description") {
            Ok(description) => description,
            Err(e) => return Err(e),
        };
        match decode::get_required(m, "input_schema") {
            Ok(schema) => Ok(
                Tool {
                    name,
                    description,
                    input_schema: schema.clone(),
                    extra: m.without("name").without("description").without("input_schema"),
                },
            ),
            Err(e) => Err(e),
        }
    }
}

impl ToJson for Tool {
    open spec fn json(v: ToolView) -> JsonView {
        JsonView::Object(
            Map::<Seq<char>, JsonView>::empty().insert("name"@, JsonView::Text(v.name)).insert(
                "description"@,
                match v.description {
                    Some(s) => JsonView::Text(s),
                    None => JsonView::Null,
                },
            ).insert("input_schema"@, v.input_schema).union_prefer_right(v.extra),
        )
    }

    fn to_json(&self) -> (r: Json) {
        let mut m = JsonMap::new();
        m.insert("name".to_owned(), Json::Text(self.name.clone()));
        m.insert(
            "description".to_owned(),
            match &self.description {
                Some(s) => Json::Text(s.clone()),
                None => Json::Null,
            },
        );
        m.insert("input_schema".to_owned(), self.input_schema.clone());
        m.extend(&self.extra);
        Json::object(m)
    }
}

#[derive(Debug, Clone, PartialEq)]
pub enum ToolChoice {
    Auto,
    Any,
    NoTool,
    Tool { name: String },
}

pub enum ToolChoiceView {
    Auto,
    Any,
    NoTool,
    Tool { name: Seq<char> },
}

impl View for ToolChoice {
    type V = ToolChoiceView;

    open spec fn view(&self) -> ToolChoiceView {
        match *self {
            ToolChoice::Auto => ToolChoiceView::Auto,
            ToolChoice::Any => ToolChoiceView::Any,
            ToolChoice::NoTool => ToolChoiceView::NoTool,
            ToolChoice::Tool { name } => ToolChoiceView::Tool { name: name@ },
        }
    }
}

/// The choice that a `type` names without any further member.
pub open spec fn plain_choice(kind: Seq<char>) -> Option<ToolChoiceView> {
    if kind == "auto"@ {
        Some(ToolChoiceView::Auto)
    } else if kind == "any"@ {
        Some(ToolChoiceView::Any)
    } else if kind == "none"@ {
        Some(ToolChoiceView::NoTool)
    } else {
        None
    }
}

impl FromJson for ToolChoice {
    /// An object with the tag `type`, or the same as an array: the tag and
    /// then the name, if the choice has one.
    open spec fn of(v: JsonView) -> Result<ToolChoiceView, DecodeErrorView> {
        let invalid = Err(DecodeErrorView::Invalid("tool_choice"@));
        match v {
            JsonView::Object(m) => match v.get_text("type"@) {
                None => invalid,
                Some(kind) => match plain_choice(kind) {
                    Some(choice) => Ok(choice),
                    None => if kind == "tool"@ {
                        match decode::required_text(m, "name"@) {
                            Ok(name) => Ok(ToolChoiceView::Tool { name }),
                            Err(e) => Err(e),
                        }
                    } else {
                        invalid
                    },
                },
            },
            JsonView::Array(items) => if items.len() == 1 {
                match items[0].text() {
                    None => invalid,
                    Some(kind) => match plain_choice(kind) {
                        Some(choice) => Ok(choice),
                        None => invalid,
                    },
                }
            } else if items.len() == 2 && items[0] == JsonView::Text("tool"@) {
                match items[1].text() {
                    Some(name) => Ok(ToolChoiceView::Tool { name }),
                    None => invalid,
                }
            } else {
                invalid
            },
            _ => invalid,
        }
    }

    fn from_json(v: &Json) -> (r: Result<ToolChoice, DecodeError>) {
        match v {
            Json::Object(m) => match v.get_str("type") {
                None => Err(DecodeError::Invalid("tool_choice".to_owned())),
                Some(kind) => match parse_plain_choice(kind) {
                    Some(choice) => Ok(choice),
                    None => if text::same(kind, "tool") {
                        match decode::get_required_text(m, "name") {
                            Ok(name) => Ok(ToolChoice::Tool { name }),
                            Err(e) => Err(e),
                        }
                    } else {
                        Err(DecodeError::Invalid("tool_choice".to_owned()))
                    },
                },
            },
            Json::Array(items) => {
                proof {
                    json::lemma_items_view(items@);
                }
                if items.len() == 1 {
                    match items[0].as_str() {
                        None => Err(DecodeError::Invalid("tool_choice".to_owned())),
                        Some(kind) => match parse_plain_choice(kind) {
                            Some(choice) => Ok(choice),
                            None => Err(DecodeError::Invalid("tool_choice".to_owned())),
                        },
                    }
                } else if items.len() == 2 {
                    match (items[0].as_str(), items[1].as_str()) {
                        (Some(kind), Some(name)) => if text::same(kind, "tool") {
                            Ok(ToolChoice::Tool { name: name.to_owned() })
                        } else {
                            Err(DecodeError::Invalid("tool_choice".to_owned()))
                        },
                        _ => Err(DecodeError::Invalid("tool_choice".to_owned())),
                    }
                } else {
                    Err(DecodeError::Invalid("tool_choice".to_owned()))
                }
            },
            _ => Err(DecodeError::Invalid("tool_choice".to_owned())),
        }
    }
}

fn parse_plain_choice(kind: &str) -> (r: Option<ToolChoice>)
    ensures
        match r {
            Some(c) => plain_choice(kind@) == Some(c@),
            None => plain_choice(kind@) is None,
        },
{
    if text::same(kind, "auto") {
        Some(ToolChoice::Auto)
    } else if text::same(kind, "any") {
        Some(ToolChoice::Any)
    } else if text::same(kind, "none") {
        Some(ToolChoice::NoTool)
    } else {
        None
    }
}

impl ToJson for ToolChoice {
    open spec fn json(v: ToolChoiceView) -> JsonView {
        let none = Map::<Seq<char>, JsonView>::empty();
        JsonView::Object(
            match v {
                ToolChoiceView::Auto => typed("auto"@, none),
                ToolChoiceView::Any => typed("any"@, none),
                ToolChoiceView::NoTool => typed("none"@, none),
                ToolChoiceView::Tool { name } => typed("tool"@, none).insert(
                    "name"@,
                    JsonView::Text(name),
                ),
            },
        )
    }

    fn to_json(&self) -> (r: Json) {
        let none = JsonMap::new();
        match self {
            ToolChoice::Auto => Json::object(object_with_type("auto", &none)),
            ToolChoice::Any => Json::object(object_with_type("any", &none)),
            ToolChoice::NoTool => Json::object(object_with_type("none", &none)),
            ToolChoice::Tool { name } => {
                let mut m = object_with_type("tool", &none);
                m.insert("name".to_owned(), Json::Text(name.clone()));
                Json::object(m)
            },
        }
    }
}

// ---------------------------------------------------------------------------
// Request
// ---------------------------------------------------------------------------

/// Anthropic Messages request. Common fields are typed while
/// provider-specific fields are retained and forwarded unchanged through
/// `extra`.
#[derive(Debug, Clone, PartialEq)]
pub struct MessagesRequest {
    pub model: String,
    pub messages: Vec<Message>,
    pub max_tokens: u32,
    pub system: Option<SystemPrompt>,
    pub temperature: Option<JsonNumber>,
    pub top_p: Option<JsonNumber>,
    pub top_k: Option<i32>,
    pub stream: Option<bool>,
    pub stop_sequences: Option<Vec<String>>,
    pub tools: Option<Vec<Tool>>,
    pub tool_choice: Option<ToolChoice>,
    pub metadata: Option<Json>,
    pub extra: JsonMap,
    /// Client headers to send along; no part of the JSON.
    pub forward_headers: Vec<(String, String)>,
}

pub struct RequestView {
    pub model: Seq<char>,
    pub messages: Seq<MessageView>,
    pub max_tokens: u32,
    pub system: Option<SystemPromptView>,
    pub temperature: Option<NumberView>,
    pub top_p: Option<NumberView>,
    pub top_k: Option<i32>,
    pub stream: Option<bool>,
    pub stop_sequences: Option<Seq<Seq<char>>>,
    pub tools: Option<Seq<ToolView>>,
    pub tool_choice: Option<ToolChoiceView>,
    pub metadata: Option<JsonView>,
    pub extra: Map<Seq<char>, JsonView>,
    pub forward_headers: Seq<(Seq<char>, Seq<char>)>,
}

/// The view of a value that may be absent.
pub open spec fn optional_view<T: View>(x: Option<T>) -> Option<<T as View>::V> {
    match x {
        Some(v) => Some(v@),
        None => None,
    }
}

/// The views of a list that may be absent.
pub open spec fn optional_views<T: View>(x: Option<Vec<T>>) -> Option<Seq<<T as View>::V>> {
    match x {
        Some(v) => Some(decode::all_views(v@)),
        None => None,
    }
}

/// The characters of header names and values.
pub open spec fn headers_view(headers: Seq<(String, String)>) -> Seq<(Seq<char>, Seq<char>)> {
    headers.map_values(|h: (String, String)| (h.0@, h.1@))
}

impl View for MessagesRequest {
    type V = RequestView;

    open spec fn view(&self) -> RequestView {
        RequestView {
            model: self.model@,
            messages: decode::all_views(self.messages@),
            max_tokens: self.max_tokens,
            system: optional_view(self.system),
            temperature: optional_view(self.temperature),
            top_p: optional_view(self.top_p),
            top_k: self.top_k,
            stream: self.stream,
            stop_sequences: optional_views(self.stop_sequences),
            tools: optional_views(self.tools),
            tool_choice: optional_view(self.tool_choice),
            metadata: optional_view(self.metadata),
            extra: self.extra@,
            forward_headers: headers_view(self.forward_headers@),
        }
    }
}

/// The members of a request that have a field of their own.
pub open spec fn request_field(name: Seq<char>) -> bool {
    ||| name == "model"@
    ||| name == "messages"@
    ||| name == "max_tokens"@
    ||| name == "system"@
    ||| name == "temperature"@
    ||| name == "top_p"@
    ||| name == "top_k"@
    ||| name == "stream"@
    ||| name == "stop_sequences"@
    ||| name == "tools"@
    ||| name == "tool_choice"@
    ||| name == "metadata"@
}

pub open spec fn messages_of(m: Map<Seq<char>, JsonView>) -> Result<
    Seq<MessageView>,
    DecodeErrorView,
> {
    match decode::required(m, "messages"@) {
        Err(e) => Err(e),
        Ok(JsonView::Array(items)) => decode::list_of::<Message>(items),
        Ok(_) => Err(DecodeErrorView::Invalid("messages"@)),
    }
}

pub open spec fn max_tokens_of(m: Map<Seq<char>, JsonView>) -> Result<u32, DecodeErrorView> {
    match decode::required(m, "max_tokens"@) {
        Err(e) => Err(e),
        Ok(_) => decode::counter(m, "max_tokens"@),
    }
}

/// An optional member of a type that is read out of JSON.
pub open spec fn optional_of<T: FromJson>(m: Map<Seq<char>, JsonView>, name: Seq<char>) -> Result<
    Option<<T as View>::V>,
    DecodeErrorView,
> {
    match decode::present(m, name) {
        None => Ok(None),
        Some(v) => match T::of(v) {
            Ok(x) => Ok(Some(x)),
            Err(e) => Err(e),
        },
    }
}

/// An optional list of such values.
pub open spec fn optional_list_of<T: FromJson>(
    m: Map<Seq<char>, JsonView>,
    name: Seq<char>,
) -> Result<Option<Seq<<T as View>::V>>, DecodeErrorView> {
    match decode::present(m, name) {
        None => Ok(None),
        Some(JsonView::Array(items)) => match decode::list_of::<T>(items) {
            Ok(x) => Ok(Some(x)),
            Err(e) => Err(e),
        },
        Some(_) => Err(DecodeErrorView::Invalid(name)),
    }
}

pub open spec fn optional_number(m: Map<Seq<char>, JsonView>, name: Seq<char>) -> Result<
    Option<NumberView>,
    DecodeErrorView,
> {
    match decode::present(m, name) {
        None => Ok(None),
        Some(JsonView::Number(n)) => Ok(Some(n)),
        Some(_) => Err(DecodeErrorView::Invalid(name)),
    }
}

pub open spec fn top_k_of(m: Map<Seq<char>, JsonView>) -> Result<Option<i32>, DecodeErrorView> {
    match decode::present(m, "top_k"@) {
        None => Ok(None),
        Some(JsonView::Number(NumberView::Integer(n))) => if i32::MIN <= n <= i32::MAX {
            Ok(Some(n as i32))
        } else {
            Err(DecodeErrorView::Invalid("top_k"@))
        },
        Some(_) => Err(DecodeErrorView::Invalid("top_k"@)),
    }
}

pub open spec fn stream_of(m: Map<Seq<char>, JsonView>) -> Result<Option<bool>, DecodeErrorView> {
    match decode::present(m, "stream"@) {
        None => Ok(None),
        Some(JsonView::Bool(b)) => Ok(Some(b)),
        Some(_) => Err(DecodeErrorView::Invalid("stream"@)),
    }
}

/// The members without a field of their own.
pub open spec fn request_extra(m: Map<Seq<char>, JsonView>) -> Map<Seq<char>, JsonView> {
    m.remove("model"@).remove("messages"@).remove("max_tokens"@).remove("system"@).remove(
        "temperature"@,
    ).remove("top_p"@).remove("top_k"@).remove("stream"@).remove("stop_sequences"@).remove(
        "tools"@,
    ).remove("tool_choice"@).remove("metadata"@)
}

/// The request that a JSON value holds; the first member in the order of the
/// fields that does not fit is reported.
pub open spec fn request_of(v: JsonView) -> Result<RequestView, DecodeErrorView> {
    match v {
        JsonView::Object(m) => {
            let model = decode::required_text(m, "model"@);
            let messages = messages_of(m);
            let max_tokens = max_tokens_of(m);
            let system = optional_of::<SystemPrompt>(m, "system"@);
            let temperature = optional_number(m, "temperature"@);
            let top_p = optional_number(m, "top_p"@);
            let top_k = top_k_of(m);
            let stream = stream_of(m);
            let stop_sequences = optional_list_of::<String>(m, "stop_sequences"@);
            let tools = optional_list_of::<Tool>(m, "tools"@);
            let tool_choice = optional_of::<ToolChoice>(m, "tool_choice"@);
            if model is Err {
                Err(model->Err_0)
            } else if messages is Err {
                Err(messages->Err_0)
            } else if max_tokens is Err {
                Err(max_tokens->Err_0)
            } else if system is Err {
                Err(system->Err_0)
            } else if temperature is Err {
                Err(temperature->Err_0)
            } else if top_p is Err {
                Err(top_p->Err_0)
            } else if top_k is Err {
                Err(top_k->Err_0)
            } else if stream is Err {
                Err(stream->Err_0)
            } else if stop_sequences is Err {
                Err(stop_sequences->Err_0)
            } else if tools is Err {
                Err(tools->Err_0)
            } else if tool_choice is Err {
                Err(tool_choice->Err_0)
            } else {
                Ok(
                    RequestView {
                        model: model->Ok_0,
                        messages: messages->Ok_0,
                        max_tokens: max_tokens->Ok_0,
                        system: system->Ok_0,
                        temperature: temperature->Ok_0,
                        top_p: top_p->Ok_0,
                        top_k: top_k->Ok_0,
                        stream: stream->Ok_0,
                        stop_sequences: stop_sequences->Ok_0,
                        tools: tools->Ok_0,
                        tool_choice: tool_choice->Ok_0,
                        metadata: decode::present(m, "metadata"@),
                        extra: request_extra(m),
                        forward_headers: Seq::empty(),
                    },
                )
            }
        },
        _ => Err(DecodeErrorView::Invalid("request"@)),
    }
}

fn get_messages(m: &JsonMap) -> (r: Result<Vec<Message>, DecodeError>)
    ensures
        match r {
            Ok(x) => messages_of(m@) == Ok::<Seq<MessageView>, DecodeErrorView>(
                decode::all_views(x@),
            ),
            Err(e) => messages_of(m@) == Err::<Seq<MessageView>, DecodeErrorView>(e@),
        },
{
    match decode::get_required(m, "messages") {
        Err(e) => Err(e),
        Ok(Json::Array(items)) => decode::list_from_json(items),
        Ok(_) => Err(DecodeError::Invalid("messages".to_owned())),
    }
}

fn get_optional<T: FromJson>(m: &JsonMap, name: &str) -> (r: Result<Option<T>, DecodeError>)
    ensures
        match r {
            Ok(x) => optional_of::<T>(m@, name@) == Ok::<
                Option<<T as View>::V>,
                DecodeErrorView,
            >(optional_view(x)),
            Err(e) => optional_of::<T>(m@, name@) == Err::<
                Option<<T as View>::V>,
                DecodeErrorView,
            >(e@),
        },
{
    match decode::get_present(m, name) {
        None => Ok(None),
        Some(v) => match T::from_json(v) {
            Ok(x) => Ok(Some(x)),
            Err(e) => Err(e),
        },
    }
}

fn get_optional_list<T: FromJson>(m: &JsonMap, name: &str) -> (r: Result<
    Option<Vec<T>>,
    DecodeError,
>)
    ensures
        match r {
            Ok(x) => optional_list_of::<T>(m@, name@) == Ok::<
                Option<Seq<<T as View>::V>>,
                DecodeErrorView,
            >(optional_views(x)),
            Err(e) => optional_list_of::<T>(m@, name@) == Err::<
                Option<Seq<<T as View>::V>>,
                DecodeErrorView,
            >(e@),
        },
{
    match decode::get_present(m, name) {
        None => Ok(None),
        Some(Json::Array(items)) => match decode::list_from_json(items) {
            Ok(x) => Ok(Some(x)),
            Err(e) => Err(e),
        },
        Some(_) => Err(DecodeError::Invalid(name.to_owned())),
    }
}

fn get_optional_number(m: &JsonMap, name: &str) -> (r: Result<Option<JsonNumber>, DecodeError>)
    ensures
        match r {
            Ok(x) => optional_number(m@, name@) == Ok::<Option<NumberView>, DecodeErrorView>(
                optional_view(x),
            ),
            Err(e) => optional_number(m@, name@) == Err::<Option<NumberView>, DecodeErrorView>(e@),
        },
{
    match decode::get_present(m, name) {
        None => Ok(None),
        Some(Json::Number(n)) => Ok(Some(n.clone())),
        Some(_) => Err(DecodeError::Invalid(name.to_owned())),
    }
}

fn get_top_k(m: &JsonMap) -> (r: Result<Option<i32>, DecodeError>)
    ensures
        match r {
            Ok(x) => top_k_of(m@) == Ok::<Option<i32>, DecodeErrorView>(x),
            Err(e) => top_k_of(m@) == Err::<Option<i32>, DecodeErrorView>(e@),
        },
{
    match decode::get_present(m, "top_k") {
        None => Ok(None),
        Some(Json::Number(JsonNumber::Unsigned(n))) => if *n <= 0x7fff_ffff {
            Ok(Some(*n as i32))
        } else {
            Err(DecodeError::Invalid("top_k".to_owned()))
        },
        Some(Json::Number(JsonNumber::Signed(n))) => if -0x8000_0000 <= *n && *n <= 0x7fff_ffff {
            Ok(Some(*n as i32))
        } else {
            Err(DecodeError::Invalid("top_k".to_owned()))
        },
        Some(_) => Err(DecodeError::Invalid("top_k".to_owned())),
    }
}

impl FromJson for MessagesRequest {
    open spec fn of(v: JsonView) -> Result<RequestView, DecodeErrorView> {
        request_of(v)
    }

    fn from_json(v: &Json) -> (r: Result<MessagesRequest, DecodeError>) {
        let m = match v {
            Json::Object(m) => m,
            _ => return Err(DecodeError::Invalid("request".to_owned())),
        };
        let model = match decode::get_required_text(m, "model") {
            Ok(x) => x,
            Err(e) => return Err(e),
        };
        let messages = match get_messages(m) {
            Ok(x) => x,
            Err(e) => return Err(e),
        };
        let max_tokens: u32 = match m.get("max_tokens") {
            None => return Err(DecodeError::Missing("max_tokens".to_owned())),
            Some(_) => match decode::get_counter(m, "max_tokens") {
                Ok(x) => x,
                Err(e) => return Err(e),
            },
        };
        let system: Option<SystemPrompt> = match get_optional(m, "system") {
            Ok(x) => x,
            Err(e) => return Err(e),
        };
        let temperature = match get_optional_number(m, "temperature") {
            Ok(x) => x,
            Err(e) => return Err(e),
        };
        let top_p = match get_optional_number(m, "top_p") {
            Ok(x) => x,
            Err(e) => return Err(e),
        };
        let top_k = match get_top_k(m) {
            Ok(x) => x,
            Err(e) => return Err(e),
        };
        let stream: Option<bool> = match decode::get_present(m, "stream") {
            None => None,
            Some(Json::Bool(b)) => Some(*b),
            Some(_) => return Err(DecodeError::Invalid("stream".to_owned())),
        };
        let stop_sequences: Option<Vec<String>> = match get_optional_list(m, "stop_sequences") {
            Ok(x) => x,
            Err(e) => return Err(e),
        };
        let tools: Option<Vec<Tool>> = match get_optional_list(m, "tools") {
            Ok(x) => x,
            Err(e) => return Err(e),
        };
        let tool_choice: Option<ToolChoice> = match get_optional(m, "tool_choice") {
            Ok(x) => x,
            Err(e) => return Err(e),
        };
        let metadata = match decode::get_present(m, "metadata") {
            Some(v) => Some(v.clone()),
            None => None,
        };
        let extra = m.without("model").without("messages").without("max_tokens").without(
            "system",
        ).without("temperature").without("top_p").without("top_k").without("stream").without(
            "stop_sequences",
        ).without("tools").without("tool_choice").without("metadata");
        let r = MessagesRequest {
            model,
            messages,
            max_tokens,
            system,
            temperature,
            top_p,
            top_k,
            stream,
            stop_sequences,
            tools,
            tool_choice,
            metadata,
            extra,
            forward_headers: Vec::new(),
        };
        assert(r@.forward_headers =~= Seq::<(Seq<char>, Seq<char>)>::empty());
        Ok(r)
    }
}

/// The JSON of a value that may be absent.
pub open spec fn optional_json<T: ToJson>(x: Option<<T as View>::V>) -> Option<JsonView> {
    match x {
        Some(v) => Some(T::json(v)),
        None => None,
    }
}

pub open spec fn optional_list_json<T: ToJson>(x: Option<Seq<<T as View>::V>>) -> Option<JsonView> {
    match x {
        Some(v) => Some(decode::list_json::<T>(v)),
        None => None,
    }
}

pub open spec fn optional_number_json(x: Option<NumberView>) -> Option<JsonView> {
    match x {
        Some(n) => Some(JsonView::Number(n)),
        None => None,
    }
}

/// The named fields of a request; an absent one is left out.
pub open spec fn request_fields_json(r: RequestView) -> Map<Seq<char>, JsonView> {
    let m = Map::<Seq<char>, JsonView>::empty().insert("model"@, JsonView::Text(r.model)).insert(
        "messages"@,
        decode::list_json::<Message>(r.messages),
    ).insert("max_tokens"@, number(r.max_tokens as int));
    let m = decode::with(m, "system"@, optional_json::<SystemPrompt>(r.system));
    let m = decode::with(m, "temperature"@, optional_number_json(r.temperature));
    let m = decode::with(m, "top_p"@, optional_number_json(r.top_p));
    let m = decode::with(
        m,
        "top_k"@,
        match r.top_k {
            Some(n) => Some(number(n as int)),
            None => None,
        },
    );
    let m = decode::with(
        m,
        "stream"@,
        match r.stream {
            Some(b) => Some(JsonView::Bool(b)),
            None => None,
        },
    );
    let m = decode::with(m, "stop_sequences"@, optional_list_json::<String>(r.stop_sequences));
    let m = decode::with(m, "tools"@, optional_list_json::<Tool>(r.tools));
    let m = decode::with(m, "tool_choice"@, optional_json::<ToolChoice>(r.tool_choice));
    decode::with(m, "metadata"@, r.metadata)
}

/// The JSON of a request: its fields, and over them the extra members.
pub open spec fn request_json(r: RequestView) -> JsonView {
    JsonView::Object(request_fields_json(r).union_prefer_right(r.extra))
}

impl ToJson for MessagesRequest {
    open spec fn json(v: RequestView) -> JsonView {
        request_json(v)
    }

    fn to_json(&self) -> (r: Json) {
        let mut m = JsonMap::new();
        m.insert("model".to_owned(), Json::Text(self.model.clone()));
        m.insert("messages".to_owned(), decode::list_to_json(&self.messages));
        m.insert(
            "max_tokens".to_owned(),
            Json::Number(JsonNumber::Unsigned(self.max_tokens as u64)),
        );
        let system: Option<Json> = match &self.system {
            Some(system) => Some(system.to_json()),
            None => None,
        };
        decode::put(&mut m, "system", system);
        let temperature: Option<Json> = match &self.temperature {
            Some(n) => Some(Json::Number(n.clone())),
            None => None,
        };
        decode::put(&mut m, "temperature", temperature);
        let top_p: Option<Json> = match &self.top_p {
            Some(n) => Some(Json::Number(n.clone())),
            None => None,
        };
        decode::put(&mut m, "top_p", top_p);
        let top_k: Option<Json> = match self.top_k {
            Some(n) => Some(Json::Number(JsonNumber::Signed(n as i64))),
            None => None,
        };
        decode::put(&mut m, "top_k", top_k);
        let stream: Option<Json> = match self.stream {
            Some(b) => Some(Json::Bool(b)),
            None => None,
        };
        decode::put(&mut m, "stream", stream);
        let stop_sequences: Option<Json> = match &self.stop_sequences {
            Some(list) => Some(decode::list_to_json(list)),
            None => None,
        };
        decode::put(&mut m, "stop_sequences", stop_sequences);
        let tools: Option<Json> = match &self.tools {
            Some(list) => Some(decode::list_to_json(list)),
            None => None,
        };
        decode::put(&mut m, "tools", tools);
        let tool_choice: Option<Json> = match &self.tool_choice {
            Some(choice) => Some(choice.to_json()),
            None => None,
        };
        decode::put(&mut m, "tool_choice", tool_choice);
        let metadata: Option<Json> = match &self.metadata {
            Some(metadata) => Some(metadata.clone()),
            None => None,
        };
        decode::put(&mut m, "metadata", metadata);
        assert(m@ == request_fields_json(self@));
        m.extend(&self.extra);
        assert(<MessagesRequest as ToJson>::json(self@) == request_json(self@));
        Json::object(m)
    }
}

/// Why the gateway cannot send a request, if it cannot.
pub open spec fn request_defect(r: RequestView) -> Option<Seq<char>> {
    if text::trimmed(r.model).len() == 0 {
        Some("model is required"@)
    } else if r.messages.len() == 0 {
        Some("messages must not be empty"@)
    } else if r.max_tokens == 0 {
        Some("max_tokens must be > 0"@)
    } else {
        None
    }
}

impl MessagesRequest {
    /// Validate invariants that the gateway relies on.
    pub fn validate(&self) -> (r: Result<(), String>)
        ensures
            match r {
                Ok(()) => request_defect(self@) is None,
                Err(message) => request_defect(self@) == Some(message@),
            },
    {
        if text::is_blank(self.model.as_str()) {
            return Err("model is required".to_owned());
        }
        if self.messages.len() == 0 {
            return Err("messages must not be empty".to_owned());
        }
        if self.max_tokens == 0 {
            return Err("max_tokens must be > 0".to_owned());
        }
        Ok(())
    }
}

/// A member of a request that has no field of its own is forwarded unchanged.
pub proof fn law_request_extra_forwarded(v: JsonView, k: Seq<char>)
    requires
        request_of(v) is Ok,
        !request_field(k),
    ensures
        request_json(request_of(v)->Ok_0).get(k) == v.get(k),
{
    let r = request_of(v)->Ok_0;
    let m = v->Object_0;
    assert(request_extra(m).contains_key(k) == m.contains_key(k));
    assert(!request_fields_json(r).contains_key(k));
}

/// The model and the token limit are forwarded as they were.
pub proof fn law_request_model_forwarded(v: JsonView)
    requires
        request_of(v) is Ok,
    ensures
        request_json(request_of(v)->Ok_0).get("model"@) == v.get("model"@),
        request_json(request_of(v)->Ok_0).get_unsigned("max_tokens"@) == v.get_unsigned(
            "max_tokens"@,
        ),
{
    let r = request_of(v)->Ok_0;
    let m = v->Object_0;
    lemma_request_names();
    assert(!request_extra(m).contains_key("model"@));
    assert(!request_extra(m).contains_key("max_tokens"@));
    assert(request_fields_json(r)["model"@] == JsonView::Text(r.model));
    assert(request_fields_json(r)["max_tokens"@] == number(r.max_tokens as int));
}

/// The names of the two members differ from those of the others.
proof fn lemma_request_names()
    ensures
        "model"@ != "messages"@ && "model"@ != "max_tokens"@ && "model"@ != "system"@ && "model"@
            != "temperature"@ && "model"@ != "top_p"@ && "model"@ != "top_k"@ && "model"@
            != "stream"@ && "model"@ != "stop_sequences"@ && "model"@ != "tools"@ && "model"@
            != "tool_choice"@ && "model"@ != "metadata"@,
        "max_tokens"@ != "messages"@ && "max_tokens"@ != "system"@ && "max_tokens"@
            != "temperature"@ && "max_tokens"@ != "top_p"@ && "max_tokens"@ != "top_k"@
            && "max_tokens"@ != "stream"@ && "max_tokens"@ != "stop_sequences"@ && "max_tokens"@
            != "tools"@ && "max_tokens"@ != "tool_choice"@ && "max_tokens"@ != "metadata"@,
{
    reveal_strlit("model");
    reveal_strlit("messages");
    reveal_strlit("max_tokens");
    reveal_strlit("system");
    reveal_strlit("temperature");
    reveal_strlit("top_p");
    reveal_strlit("top_k");
    reveal_strlit("stream");
    reveal_strlit("stop_sequences");
    reveal_strlit("tools");
    reveal_strlit("tool_choice");
    reveal_strlit("metadata");
    assert("model"@.len() == 5 && "model"@[0] == 'm');
    assert("top_p"@.len() == 5 && "top_p"@[0] == 't');
    assert("top_k"@.len() == 5 && "top_k"@[0] == 't');
    assert("tools"@.len() == 5 && "tools"@[0] == 't');
    assert("max_tokens"@.len() == 10);
    assert("messages"@.len() == 8 && "system"@.len() == 6 && "temperature"@.len() == 11);
    assert("stream"@.len() == 6 && "stop_sequences"@.len() == 14);
    assert("tool_choice"@.len() == 11 && "metadata"@.len() == 8);
}

// ---------------------------------------------------------------------------
// Response
// ---------------------------------------------------------------------------

#[derive(Debug, Clone, PartialEq)]
pub struct MessagesResponse {
    pub id: String,
    pub kind: String,
    pub role: String,
    pub content: Vec<ContentBlock>,
    pub model: String,
    pub stop_reason: Option<StopReason>,
    pub stop_sequence: Option<String>,
    pub usage: Usage,
    pub extra: JsonMap,
}

pub struct ResponseView {
    pub id: Seq<char>,
    pub kind: Seq<char>,
    pub role: Seq<char>,
    pub content: Seq<BlockView>,
    pub model: Seq<char>,
    pub stop_reason: Option<StopReason>,
    pub stop_sequence: Option<Seq<char>>,
    pub usage: UsageView,
    pub extra: Map<Seq<char>, JsonView>,
}

impl View for MessagesResponse {
    type V = ResponseView;

    open spec fn view(&self) -> ResponseView {
        ResponseView {
            id: self.id@,
            kind: self.kind@,
            role: self.role@,
            content: decode::all_views(self.content@),
            model: self.model@,
            stop_reason: self.stop_reason,
            stop_sequence: decode::text_view(self.stop_sequence),
            usage: self.usage@,
            extra: self.extra@,
        }
    }
}

/// The members of a response that have a field of their own.
pub open spec fn response_field(name: Seq<char>) -> bool {
    ||| name == "id"@
    ||| name == "type"@
    ||| name == "role"@
    ||| name == "content"@
    ||| name == "model"@
    ||| name == "stop_reason"@
    ||| name == "stop_sequence"@
    ||| name == "usage"@
}

pub open spec fn response_content_of(m: Map<Seq<char>, JsonView>) -> Result<
    Seq<BlockView>,
    DecodeErrorView,
> {
    match decode::required(m, "content"@) {
        Err(e) => Err(e),
        Ok(JsonView::Array(items)) => decode::list_of::<ContentBlock>(items),
        Ok(_) => Err(DecodeErrorView::Invalid("content"@)),
    }
}

pub open spec fn response_stop_reason_of(m: Map<Seq<char>, JsonView>) -> Result<
    Option<StopReason>,
    DecodeErrorView,
> {
    match decode::optional_text(m, "stop_reason"@) {
        Err(e) => Err(e),
        Ok(None) => Ok(None),
        Ok(Some(s)) => Ok(Some(stop_reason_of(s))),
    }
}

pub open spec fn response_usage_of(m: Map<Seq<char>, JsonView>) -> Result<
    UsageView,
    DecodeErrorView,
> {
    match decode::required(m, "usage"@) {
        Err(e) => Err(e),
        Ok(v) => usage_of(v),
    }
}

pub open spec fn response_extra(m: Map<Seq<char>, JsonView>) -> Map<Seq<char>, JsonView> {
    m.remove("id"@).remove("type"@).remove("role"@).remove("content"@).remove("model"@).remove(
        "stop_reason"@,
    ).remove("stop_sequence"@).remove("usage"@)
}

/// The response that a JSON value holds; the first member in the order of the
/// fields that does not fit is reported.
pub open spec fn response_of(v: JsonView) -> Result<ResponseView, DecodeErrorView> {
    match v {
        JsonView::Object(m) => {
            let id = decode::required_text(m, "id"@);
            let kind = decode::required_text(m, "type"@);
            let role = decode::required_text(m, "role"@);
            let content = response_content_of(m);
            let model = decode::required_text(m, "model"@);
            let stop_reason = response_stop_reason_of(m);
            let stop_sequence = decode::optional_text(m, "stop_sequence"@);
            let usage = response_usage_of(m);
            if id is Err {
                Err(id->Err_0)
            } else if kind is Err {
                Err(kind->Err_0)
            } else if role is Err {
                Err(role->Err_0)
            } else if content is Err {
                Err(content->Err_0)
            } else if model is Err {
                Err(model->Err_0)
            } else if stop_reason is Err {
                Err(stop_reason->Err_0)
            } else if stop_sequence is Err {
                Err(stop_sequence->Err_0)
            } else if usage is Err {
                Err(usage->Err_0)
            } else {
                Ok(
                    ResponseView {
                        id: id->Ok_0,
                        kind: kind->Ok_0,
                        role: role->Ok_0,
                        content: content->Ok_0,
                        model: model->Ok_0,
                        stop_reason: stop_reason->Ok_0,
                        stop_sequence: stop_sequence->Ok_0,
                        usage: usage->Ok_0,
                        extra: response_extra(m),
                    },
                )
            }
        },
        _ => Err(DecodeErrorView::Invalid("response"@)),
    }
}

impl FromJson for MessagesResponse {
    open spec fn of(v: JsonView) -> Result<ResponseView, DecodeErrorView> {
        response_of(v)
    }

    fn from_json(v: &Json) -> (r: Result<MessagesResponse, DecodeError>) {
        let m = match v {
            Json::Object(m) => m,
            _ => return Err(DecodeError::Invalid("response".to_owned())),
        };
        let id = match decode::get_required_text(m, "id") {
            Ok(x) => x,
            Err(e) => return Err(e),
        };
        let kind = match decode::get_required_text(m, "type") {
            Ok(x) => x,
            Err(e) => return Err(e),
        };
        let role = match decode::get_required_text(m, "role") {
            Ok(x) => x,
            Err(e) => return Err(e),
        };
        let content: Vec<ContentBlock> = match decode::get_required(m, "content") {
            Err(e) => return Err(e),
            Ok(Json::Array(items)) => match decode::list_from_json(items) {
                Ok(x) => x,
                Err(e) => return Err(e),
            },
            Ok(_) => return Err(DecodeError::Invalid("content".to_owned())),
        };
        let model = match decode::get_required_text(m, "model") {
            Ok(x) => x,
            Err(e) => return Err(e),
        };
        let stop_reason: Option<StopReason> = match decode::get_optional_text(m, "stop_reason") {
            Err(e) => return Err(e),
            Ok(None) => None,
            Ok(Some(s)) => Some(StopReason::parse(s.as_str())),
        };
        let stop_sequence = match decode::get_optional_text(m, "stop_sequence") {
            Ok(x) => x,
            Err(e) => return Err(e),
        };
        let usage = match decode::get_required(m, "usage") {
            Err(e) => return Err(e),
            Ok(v) => match Usage::from_json(v) {
                Ok(x) => x,
                Err(e) => return Err(e),
            },
        };
        let extra = m.without("id").without("type").without("role").without("content").without(
            "model",
        ).without("stop_reason").without("stop_sequence").without("usage");
        Ok(
            MessagesResponse {
                id,
                kind,
                role,
                content,
                model,
                stop_reason,
                stop_sequence,
                usage,
                extra,
            },
        )
    }
}

/// The named fields of a response; an absent one is left out.
pub open spec fn response_fields_json(r: ResponseView) -> Map<Seq<char>, JsonView> {
    let m = Map::<Seq<char>, JsonView>::empty().insert("id"@, JsonView::Text(r.id)).insert(
        "type"@,
        JsonView::Text(r.kind),
    ).insert("role"@, JsonView::Text(r.role)).insert(
        "content"@,
        decode::list_json::<ContentBlock>(r.content),
    ).insert("model"@, JsonView::Text(r.model));
    let m = decode::with(
        m,
        "stop_reason"@,
        match r.stop_reason {
            Some(reason) => Some(JsonView::Text(reason.wire())),
            None => None,
        },
    );
    let m = decode::with(
        m,
        "stop_sequence"@,
        match r.stop_sequence {
            Some(s) => Some(JsonView::Text(s)),
            None => None,
        },
    );
    m.insert("usage"@, usage_json(r.usage))
}

/// The JSON of a response: its fields, and over them the extra members.
pub open spec fn response_json(r: ResponseView) -> JsonView {
    JsonView::Object(response_fields_json(r).union_prefer_right(r.extra))
}

impl ToJson for MessagesResponse {
    open spec fn json(v: ResponseView) -> JsonView {
        response_json(v)
    }

    fn to_json(&self) -> (r: Json) {
        let mut m = JsonMap::new();
        m.insert("id".to_owned(), Json::Text(self.id.clone()));
        m.insert("type".to_owned(), Json::Text(self.kind.clone()));
        m.insert("role".to_owned(), Json::Text(self.role.clone()));
        m.insert("content".to_owned(), decode::list_to_json(&self.content));
        m.insert("model".to_owned(), Json::Text(self.model.clone()));
        let stop_reason: Option<Json> = match &self.stop_reason {
            Some(reason) => Some(Json::text(reason.wire_str())),
            None => None,
        };
        decode::put(&mut m, "stop_reason", stop_reason);
        let stop_sequence: Option<Json> = match &self.stop_sequence {
            Some(s) => Some(Json::Text(s.clone())),
            None => None,
        };
        decode::put(&mut m, "stop_sequence", stop_sequence);
        m.insert("usage".to_owned(), self.usage.to_json());
        m.extend(&self.extra);
        Json::object(m)
    }
}

/// A member of a response that has no field of its own is handed on unchanged.
pub proof fn law_response_extra_forwarded(v: JsonView, k: Seq<char>)
    requires
        response_of(v) is Ok,
        !response_field(k),
    ensures
        response_json(response_of(v)->Ok_0).get(k) == v.get(k),
{
    let r = response_of(v)->Ok_0;
    let m = v->Object_0;
    assert(response_extra(m).contains_key(k) == m.contains_key(k));
    assert(!response_fields_json(r).contains_key(k));
}

// ---------------------------------------------------------------------------
// Error envelope
// ---------------------------------------------------------------------------

#[derive(Debug, Clone, PartialEq, Eq)]
pub struct AnthropicErrorDetail {
    pub kind: String,
    pub message: String,
}

#[derive(Debug, Clone, PartialEq, Eq)]
pub struct AnthropicErrorBody {
    pub kind: String,
    pub error: AnthropicErrorDetail,
}

// ---------------------------------------------------------------------------
// Helpers for tool-use accumulation
// ---------------------------------------------------------------------------

/// Accumulator for incremental `input_json_delta` chunks during streaming.
#[derive(Debug)]
pub struct ToolInputAccumulator {
    buffer: String,
}

impl View for ToolInputAccumulator {
    type V = Seq<char>;

    closed spec fn view(&self) -> Seq<char> {
        self.buffer@
    }
}

impl Default for ToolInputAccumulator {
    fn default() -> (r: ToolInputAccumulator)
        ensures
            r@ == Seq::<char>::empty(),
    {
        ToolInputAccumulator { buffer: String::new() }
    }
}

impl ToolInputAccumulator {
    pub fn push(&mut self, delta: &str)
        ensures
            final(self)@ == old(self)@ + delta@,
    {
        self.buffer.append(delta);
    }

    /// Attempt to parse the accumulated JSON. Returns `None` if incomplete.
    pub fn try_parse(&self) -> (r: Option<Json>)
        ensures
            match r {
                Some(v) => self@.len() > 0 && json::json_parse(self@) == Ok::<JsonView, Seq<char>>(
                    v@,
                ),
                None => self@.len() == 0 || json::json_parse(self@) is Err,
            },
    {
        let buffer = self.buffer.as_str();
        if buffer.is_empty() {
            return None;
        }
        match Json::parse(buffer) {
            Ok(v) => Some(v),
            Err(_) => None,
        }
    }

    pub fn raw(&self) -> (r: &str)
        ensures
            r@ == self@,
    {
        self.buffer.as_str()
    }
}

} // verus!
