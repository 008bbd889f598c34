//! Which members of their JSON requests, responses and content blocks are read
//! from, and which JSON is read at all.

use vstd::prelude::*;
use vstd::string::*;

use crate::json::{JsonView, NumberView};
use crate::providers::anthropic;
use crate::providers::decode;
use crate::providers::decode::{DecodeErrorView, FromJson};
use crate::providers::round_trip;
use crate::providers::types;
use crate::providers::types::{
    BlockView, ContentBlock, ContentView, Message, RequestView, ResponseView, SystemBlock,
    SystemPrompt, SystemPromptView, Tool, ToolChoice, ToolChoiceView,
};
use crate::providers::wire;
use crate::text;

verus! {

// ---------------------------------------------------------------------------
// Members
// ---------------------------------------------------------------------------

/// `v` has no member `name`, or null in its place.
pub open spec fn open_member(v: JsonView, name: Seq<char>) -> bool {
    wire::lacks(v, name) || wire::has(v, name, JsonView::Null)
}

/// The object `v` has a member `name`.
pub open spec fn holds(v: JsonView, name: Seq<char>) -> bool {
    v matches JsonView::Object(m) && m.contains_key(name)
}

/// The member `name` of the object `v`.
pub open spec fn member(v: JsonView, name: Seq<char>) -> JsonView {
    v->Object_0[name]
}

/// Every item can be read as a `T`.
pub open spec fn all_read<T: FromJson>(items: Seq<JsonView>) -> bool {
    forall|i: int| 0 <= i < items.len() ==> T::of(#[trigger] items[i]) is Ok
}

/// The values are those read out of the items, one for each, in their order.
pub open spec fn read_from<T: FromJson>(
    items: Seq<JsonView>,
    values: Seq<<T as View>::V>,
) -> bool {
    items.len() == values.len() && forall|i: int|
        0 <= i < items.len() ==> T::of(#[trigger] items[i]) == Ok::<
            <T as View>::V,
            DecodeErrorView,
        >(values[i])
}

/// A list is read exactly where each of its items is.
proof fn lemma_list<T: FromJson>(items: Seq<JsonView>)
    ensures
        decode::list_of::<T>(items) is Ok <==> all_read::<T>(items),
        decode::list_of::<T>(items) matches Ok(values) ==> read_from::<T>(items, values),
{
    let f = |v: JsonView| T::of(v);
    if decode::list_of::<T>(items) is Ok {
        round_trip::lemma_decoded_items(items, f);
        assert forall|i: int| 0 <= i < items.len() implies T::of(#[trigger] items[i]) == Ok::<
            <T as View>::V,
            DecodeErrorView,
        >((decode::list_of::<T>(items)->Ok_0)[i]) by {
            assert(f(items[i]) == T::of(items[i]));
        }
    } else if all_read::<T>(items) {
        let values = Seq::new(items.len(), |i: int| T::of(items[i])->Ok_0);
        assert forall|i: int| 0 <= i < items.len() implies f(#[trigger] items[i]) == Ok::<
            <T as View>::V,
            DecodeErrorView,
        >(values[i]) by {
            assert(T::of(items[i]) is Ok);
        }
        round_trip::lemma_decode_each(items, f, values);
    }
}

/// The rest is all members of `v` but the named ones.
pub open spec fn rest_of(
    v: JsonView,
    named: spec_fn(Seq<char>) -> bool,
    rest: Map<Seq<char>, JsonView>,
) -> bool {
    &&& forall|k: Seq<char>| #[trigger] rest.contains_key(k) <==> holds(v, k) && !named(k)
    &&& forall|k: Seq<char>| #[trigger] rest.contains_key(k) ==> rest[k] == member(v, k)
}

// ---------------------------------------------------------------------------
// Requests
// ---------------------------------------------------------------------------

/// JSON that can be read as a request: a model, messages and a limit of tokens,
/// and whatever else it says of the known members in the form that they have.
pub open spec fn readable_request(v: JsonView) -> bool {
    &&& holds(v, "model"@) && member(v, "model"@) is Text
    &&& holds(v, "messages"@) && member(v, "messages"@) is Array && all_read::<Message>(
        member(v, "messages"@)->Array_0,
    )
    &&& holds(v, "max_tokens"@) && (member(v, "max_tokens"@) matches JsonView::Number(
        NumberView::Integer(n),
    ) && 0 <= n <= u32::MAX)
    &&& open_member(v, "system"@) || SystemPrompt::of(member(v, "system"@)) is Ok
    &&& open_member(v, "temperature"@) || member(v, "temperature"@) is Number
    &&& open_member(v, "top_p"@) || member(v, "top_p"@) is Number
    &&& open_member(v, "top_k"@) || (member(v, "top_k"@) matches JsonView::Number(
        NumberView::Integer(n),
    ) && i32::MIN <= n <= i32::MAX)
    &&& open_member(v, "stream"@) || member(v, "stream"@) is Bool
    &&& open_member(v, "stop_sequences"@) || member(v, "stop_sequences"@) is Array && all_read::<
        String,
    >(member(v, "stop_sequences"@)->Array_0)
    &&& open_member(v, "tools"@) || member(v, "tools"@) is Array && all_read::<Tool>(
        member(v, "tools"@)->Array_0,
    )
    &&& open_member(v, "tool_choice"@) || ToolChoice::of(member(v, "tool_choice"@)) is Ok
}

/// JSON is read as a request exactly where it is one.
#[verifier::spinoff_prover]
pub proof fn law_readable_requests_are_read(v: JsonView)
    ensures
        types::request_of(v) is Ok <==> readable_request(v),
{
    if v is Object {
        let m = v->Object_0;
        if let JsonView::Array(items) = m["messages"@] {
            lemma_list::<Message>(items);
        }
        if let JsonView::Array(items) = m["stop_sequences"@] {
            lemma_list::<String>(items);
        }
        if let JsonView::Array(items) = m["tools"@] {
            lemma_list::<Tool>(items);
        }
    }
}

/// Each part of a request is read from the member of its name, and all other
/// members are kept.
#[verifier::spinoff_prover]
pub proof fn law_request_parts_are_read(v: JsonView)
    requires
        types::request_of(v) is Ok,
    ensures
        ({
            let r = types::request_of(v)->Ok_0;
            &&& wire::has_text(v, "model"@, r.model)
            &&& wire::has_integer(v, "max_tokens"@, r.max_tokens as int)
            &&& read_from::<Message>(member(v, "messages"@)->Array_0, r.messages)
            &&& match r.system {
                Some(x) => SystemPrompt::of(member(v, "system"@)) == Ok::<
                    SystemPromptView,
                    DecodeErrorView,
                >(x),
                None => open_member(v, "system"@),
            }
            &&& match r.temperature {
                Some(n) => wire::has(v, "temperature"@, JsonView::Number(n)),
                None => open_member(v, "temperature"@),
            }
            &&& match r.top_p {
                Some(n) => wire::has(v, "top_p"@, JsonView::Number(n)),
                None => open_member(v, "top_p"@),
            }
            &&& match r.top_k {
                Some(n) => wire::has_integer(v, "top_k"@, n as int),
                None => open_member(v, "top_k"@),
            }
            &&& match r.stream {
                Some(b) => wire::has(v, "stream"@, JsonView::Bool(b)),
                None => open_member(v, "stream"@),
            }
            &&& match r.stop_sequences {
                Some(list) => read_from::<String>(member(v, "stop_sequences"@)->Array_0, list),
                None => open_member(v, "stop_sequences"@),
            }
            &&& match r.tools {
                Some(list) => read_from::<Tool>(member(v, "tools"@)->Array_0, list),
                None => open_member(v, "tools"@),
            }
            &&& match r.tool_choice {
                Some(x) => ToolChoice::of(member(v, "tool_choice"@)) == Ok::<
                    ToolChoiceView,
                    DecodeErrorView,
                >(x),
                None => open_member(v, "tool_choice"@),
            }
            &&& match r.metadata {
                Some(x) => wire::has(v, "metadata"@, x),
                None => open_member(v, "metadata"@),
            }
            &&& r.forward_headers.len() == 0
            &&& rest_of(
                v,
                |k: Seq<char>|
                    k == "model"@ || k == "messages"@ || k == "max_tokens"@ || k == "system"@ || k
                        == "temperature"@ || k == "top_p"@ || k == "top_k"@ || k == "stream"@ || k
                        == "stop_sequences"@ || k == "tools"@ || k == "tool_choice"@ || k
                        == "metadata"@,
                r.extra,
            )
        }),
{
    let m = v->Object_0;
    if let JsonView::Array(items) = m["messages"@] {
        lemma_list::<Message>(items);
    }
    if let JsonView::Array(items) = m["stop_sequences"@] {
        lemma_list::<String>(items);
    }
    if let JsonView::Array(items) = m["tools"@] {
        lemma_list::<Tool>(items);
    }
}

/// A request is fit to be sent exactly where its model is more than white
/// space, it has a message, and it allows for a token.
pub proof fn law_fit_requests(r: RequestView)
    ensures
        types::request_defect(r) is None <==> {
            &&& exists|i: int| 0 <= i < r.model.len() && !text::whitespace(
                #[trigger] r.model[i],
            )
            &&& r.messages.len() > 0
            &&& r.max_tokens > 0
        },
{
    let s = r.model;
    text::lemma_trimmed_start(s);
    let t = text::trimmed_start(s);
    text::lemma_trimmed_end(t);
    if text::trimmed(s).len() > 0 {
        assert(t[0] == s[s.len() - t.len()]);
    } else {
        assert forall|i: int| 0 <= i < s.len() implies text::whitespace(#[trigger] s[i]) by {
            if i >= s.len() - t.len() {
                assert(s[i] == t[i - (s.len() - t.len())]);
            }
        }
    }
}

/// A message is a role and a content, which is a text or content blocks; all
/// else that it says is kept.
pub proof fn law_messages_are_read(v: JsonView)
    ensures
        Message::of(v) is Ok <==> holds(v, "role"@) && member(v, "role"@) is Text && holds(
            v,
            "content"@,
        ) && (member(v, "content"@) is Text || member(v, "content"@) is Array && all_read::<
            ContentBlock,
        >(member(v, "content"@)->Array_0)),
        Message::of(v) matches Ok(msg) ==> {
            &&& wire::has_text(v, "role"@, msg.role)
            &&& match msg.content {
                ContentView::Text(s) => wire::has_text(v, "content"@, s),
                ContentView::Blocks(blocks) => read_from::<ContentBlock>(
                    member(v, "content"@)->Array_0,
                    blocks,
                ),
            }
            &&& rest_of(v, |k: Seq<char>| k == "role"@ || k == "content"@, msg.extra)
        },
{
    if v is Object {
        if let JsonView::Array(items) = v->Object_0["content"@] {
            lemma_list::<ContentBlock>(items);
        }
    }
}

/// A system prompt is a text, or blocks of a kind and a text that keep all else
/// that they say.
pub proof fn law_system_prompts_are_read(v: JsonView, b: JsonView)
    ensures
        SystemPrompt::of(v) is Ok <==> v is Text || v is Array && all_read::<SystemBlock>(
            v->Array_0,
        ),
        SystemPrompt::of(v) matches Ok(SystemPromptView::Text(s)) ==> v == JsonView::Text(s),
        SystemPrompt::of(v) matches Ok(SystemPromptView::Blocks(blocks)) ==> read_from::<
            SystemBlock,
        >(v->Array_0, blocks),
        SystemBlock::of(b) is Ok <==> holds(b, "type"@) && member(b, "type"@) is Text && holds(
            b,
            "text"@,
        ) && member(b, "text"@) is Text,
        SystemBlock::of(b) matches Ok(block) ==> wire::has_text(b, "type"@, block.kind)
            && wire::has_text(b, "text"@, block.text) && rest_of(
            b,
            |k: Seq<char>| k == "type"@ || k == "text"@,
            block.extra,
        ),
{
    if let JsonView::Array(items) = v {
        lemma_list::<SystemBlock>(items);
    }
}

/// A tool is a name, a schema for its input and perhaps a description; all
/// else that it says is kept.
pub proof fn law_tools_are_read(v: JsonView)
    ensures
        Tool::of(v) is Ok <==> holds(v, "name"@) && member(v, "name"@) is Text && holds(
            v,
            "input_schema"@,
        ) && (open_member(v, "description"@) || member(v, "description"@) is Text),
        Tool::of(v) matches Ok(tool) ==> {
            &&& wire::has_text(v, "name"@, tool.name)
            &&& wire::has(v, "input_schema"@, tool.input_schema)
            &&& match tool.description {
                Some(s) => wire::has_text(v, "description"@, s),
                None => open_member(v, "description"@),
            }
            &&& rest_of(
                v,
                |k: Seq<char>| k == "name"@ || k == "description"@ || k == "input_schema"@,
                tool.extra,
            )
        },
{
}

proof fn lemma_choices_differ()
    ensures
        "auto"@ != "any"@ && "auto"@ != "none"@ && "auto"@ != "tool"@ && "any"@ != "none"@
            && "any"@ != "tool"@ && "none"@ != "tool"@,
{
    reveal_strlit("auto");
    reveal_strlit("any");
    reveal_strlit("none");
    reveal_strlit("tool");
    assert("auto"@.len() == 4 && "auto"@[0] == 'a' && "any"@.len() == 3);
    assert("none"@.len() == 4 && "none"@[0] == 'n' && "tool"@.len() == 4 && "tool"@[0] == 't');
}

/// A choice of tools is told by its type; that of one tool gives its name.
pub proof fn law_tool_choices_are_read(v: JsonView, kind: Seq<char>, name: Seq<char>)
    requires
        wire::has_text(v, "type"@, kind),
    ensures
        ToolChoice::of(v) == Ok::<ToolChoiceView, DecodeErrorView>(ToolChoiceView::Auto) <==> kind
            == "auto"@,
        ToolChoice::of(v) == Ok::<ToolChoiceView, DecodeErrorView>(ToolChoiceView::Any) <==> kind
            == "any"@,
        ToolChoice::of(v) == Ok::<ToolChoiceView, DecodeErrorView>(ToolChoiceView::NoTool) <==> kind
            == "none"@,
        ToolChoice::of(v) == Ok::<ToolChoiceView, DecodeErrorView>(
            ToolChoiceView::Tool { name },
        ) <==> kind == "tool"@ && wire::has_text(v, "name"@, name),
{
    lemma_choices_differ();
}

/// A choice of tools may also be an array: its type, and then the name.
pub proof fn law_tool_choices_in_arrays(kind: Seq<char>, name: Seq<char>, x: JsonView)
    ensures
        ({
            let one = ToolChoice::of(JsonView::Array(seq![JsonView::Text(kind)]));
            &&& kind == "auto"@ ==> one == Ok::<ToolChoiceView, DecodeErrorView>(
                ToolChoiceView::Auto,
            )
            &&& kind == "any"@ ==> one == Ok::<ToolChoiceView, DecodeErrorView>(ToolChoiceView::Any)
            &&& kind == "none"@ ==> one == Ok::<ToolChoiceView, DecodeErrorView>(
                ToolChoiceView::NoTool,
            )
            &&& kind != "auto"@ && kind != "any"@ && kind != "none"@ ==> one is Err
        }),
        ({
            let two = ToolChoice::of(
                JsonView::Array(seq![JsonView::Text(kind), JsonView::Text(name)]),
            );
            &&& kind == "tool"@ ==> two == Ok::<ToolChoiceView, DecodeErrorView>(
                ToolChoiceView::Tool { name },
            )
            &&& kind != "tool"@ ==> two is Err
        }),
        !(x is Object) && !(x is Array) ==> ToolChoice::of(x) is Err,
{
    lemma_choices_differ();
}

// ---------------------------------------------------------------------------
// Responses
// ---------------------------------------------------------------------------

/// JSON that can be read as a response.
pub open spec fn readable_response(v: JsonView) -> bool {
    &&& holds(v, "id"@) && member(v, "id"@) is Text
    &&& holds(v, "type"@) && member(v, "type"@) is Text
    &&& holds(v, "role"@) && member(v, "role"@) is Text
    &&& holds(v, "content"@) && member(v, "content"@) is Array && all_read::<ContentBlock>(
        member(v, "content"@)->Array_0,
    )
    &&& holds(v, "model"@) && member(v, "model"@) is Text
    &&& open_member(v, "stop_reason"@) || member(v, "stop_reason"@) is Text
    &&& open_member(v, "stop_sequence"@) || member(v, "stop_sequence"@) is Text
    &&& holds(v, "usage"@) && types::usage_of(member(v, "usage"@)) is Ok
}

/// JSON is read as a response exactly where it is one.
#[verifier::spinoff_prover]
pub proof fn law_readable_responses_are_read(v: JsonView)
    ensures
        types::response_of(v) is Ok <==> readable_response(v),
{
    if v is Object {
        if let JsonView::Array(items) = v->Object_0["content"@] {
            lemma_list::<ContentBlock>(items);
        }
    }
}

/// Each part of a response is read from the member of its name, and all other
/// members are kept.
#[verifier::spinoff_prover]
pub proof fn law_response_parts_are_read(v: JsonView)
    requires
        types::response_of(v) is Ok,
    ensures
        ({
            let r = types::response_of(v)->Ok_0;
            &&& wire::has_text(v, "id"@, r.id)
            &&& wire::has_text(v, "type"@, r.kind)
            &&& wire::has_text(v, "role"@, r.role)
            &&& wire::has_text(v, "model"@, r.model)
            &&& read_from::<ContentBlock>(member(v, "content"@)->Array_0, r.content)
            &&& match r.stop_reason {
                Some(reason) => member(v, "stop_reason"@) is Text && wire::spells_reason(
                    member(v, "stop_reason"@)->Text_0,
                    reason,
                ),
                None => open_member(v, "stop_reason"@),
            }
            &&& match r.stop_sequence {
                Some(s) => wire::has_text(v, "stop_sequence"@, s),
                None => open_member(v, "stop_sequence"@),
            }
            &&& types::usage_of(member(v, "usage"@)) == Ok::<
                types::UsageView,
                DecodeErrorView,
            >(r.usage)
            &&& rest_of(
                v,
                |k: Seq<char>|
                    k == "id"@ || k == "type"@ || k == "role"@ || k == "content"@ || k == "model"@
                        || k == "stop_reason"@ || k == "stop_sequence"@ || k == "usage"@,
                r.extra,
            )
        }),
{
    if let JsonView::Array(items) = v->Object_0["content"@] {
        lemma_list::<ContentBlock>(items);
    }
    if let Some(JsonView::Text(s)) = v.get("stop_reason"@) {
        wire::law_stop_reasons_are_spelled(s);
    }
}

// ---------------------------------------------------------------------------
// Content blocks
// ---------------------------------------------------------------------------

proof fn lemma_block_names_differ()
    ensures
        "text"@ != "tool_use"@ && "text"@ != "tool_result"@ && "text"@ != "image"@ && "text"@
            != "thinking"@ && "text"@ != "redacted_thinking"@,
        "tool_use"@ != "tool_result"@ && "tool_use"@ != "image"@ && "tool_use"@ != "thinking"@
            && "tool_use"@ != "redacted_thinking"@,
        "tool_result"@ != "image"@ && "tool_result"@ != "thinking"@ && "tool_result"@
            != "redacted_thinking"@,
        "image"@ != "thinking"@ && "image"@ != "redacted_thinking"@ && "thinking"@
            != "redacted_thinking"@,
        "type"@ != "text"@ && "type"@ != "id"@ && "type"@ != "name"@ && "type"@ != "input"@
            && "type"@ != "tool_use_id"@ && "type"@ != "content"@ && "type"@ != "is_error"@
            && "type"@ != "source"@ && "type"@ != "thinking"@ && "type"@ != "signature"@ && "type"@
            != "data"@,
{
    reveal_strlit("text");
    reveal_strlit("tool_use");
    reveal_strlit("tool_result");
    reveal_strlit("image");
    reveal_strlit("thinking");
    reveal_strlit("redacted_thinking");
    reveal_strlit("type");
    reveal_strlit("id");
    reveal_strlit("name");
    reveal_strlit("input");
    reveal_strlit("tool_use_id");
    reveal_strlit("content");
    reveal_strlit("is_error");
    reveal_strlit("source");
    reveal_strlit("signature");
    reveal_strlit("data");
    assert("text"@.len() == 4 && "text"@[1] == 'e' && "type"@.len() == 4 && "type"@[1] == 'y');
    assert("name"@.len() == 4 && "name"@[0] == 'n' && "data"@.len() == 4 && "data"@[0] == 'd');
    assert("type"@[0] == 't' && "tool_use"@.len() == 8 && "tool_use"@[1] == 'o');
    assert("thinking"@.len() == 8 && "thinking"@[1] == 'h' && "tool_result"@.len() == 11);
    assert("image"@.len() == 5 && "redacted_thinking"@.len() == 17 && "id"@.len() == 2);
    assert("input"@.len() == 5 && "tool_use_id"@.len() == 11 && "content"@.len() == 7);
    assert("is_error"@.len() == 8 && "source"@.len() == 6 && "signature"@.len() == 9);
}

/// The parts of a content block, each in the member of its name; what is of no
/// known kind stays as it is.
pub open spec fn tells_block(v: JsonView, b: BlockView) -> bool {
    match b {
        BlockView::Text { text, .. } => wire::has_text(v, "type"@, "text"@) && wire::has_text(
            v,
            "text"@,
            text,
        ),
        BlockView::ToolUse { id, name, input, .. } => wire::has_text(v, "type"@, "tool_use"@)
            && wire::has_text(v, "id"@, id) && wire::has_text(v, "name"@, name) && wire::has(
            v,
            "input"@,
            input,
        ),
        BlockView::ToolResult { tool_use_id, content, is_error, .. } => wire::has_text(
            v,
            "type"@,
            "tool_result"@,
        ) && wire::has_text(v, "tool_use_id"@, tool_use_id) && wire::has(v, "content"@, content)
            && (wire::has(v, "is_error"@, JsonView::Bool(is_error)) || wire::lacks(v, "is_error"@)
            && !is_error),
        BlockView::Image { source, .. } => wire::has_text(v, "type"@, "image"@) && wire::has(
            v,
            "source"@,
            source,
        ),
        BlockView::Thinking { thinking, signature, .. } => wire::has_text(
            v,
            "type"@,
            "thinking"@,
        ) && wire::has_text(v, "thinking"@, thinking) && match signature {
            Some(s) => wire::has_text(v, "signature"@, s),
            None => wire::lacks(v, "signature"@),
        },
        BlockView::RedactedThinking { data, .. } => wire::has_text(
            v,
            "type"@,
            "redacted_thinking"@,
        ) && wire::has_text(v, "data"@, data),
        BlockView::Unknown(whole) => whole == v && !known_block(v),
    }
}

/// Whether a block is of one of the known kinds.
pub open spec fn known_block(v: JsonView) -> bool {
    ||| wire::has_text(v, "type"@, "text"@)
    ||| wire::has_text(v, "type"@, "tool_use"@)
    ||| wire::has_text(v, "type"@, "tool_result"@)
    ||| wire::has_text(v, "type"@, "image"@)
    ||| wire::has_text(v, "type"@, "thinking"@)
    ||| wire::has_text(v, "type"@, "redacted_thinking"@)
}

/// Whether a block of a known kind has the members that it needs.
pub open spec fn whole_block(v: JsonView) -> bool {
    &&& wire::has_text(v, "type"@, "text"@) ==> holds(v, "text"@) && member(v, "text"@) is Text
    &&& wire::has_text(v, "type"@, "tool_use"@) ==> holds(v, "id"@) && member(v, "id"@) is Text
        && holds(v, "name"@) && member(v, "name"@) is Text && holds(v, "input"@)
    &&& wire::has_text(v, "type"@, "tool_result"@) ==> holds(v, "tool_use_id"@) && member(
        v,
        "tool_use_id"@,
    ) is Text && holds(v, "content"@) && (holds(v, "is_error"@) ==> member(v, "is_error"@) is Bool)
    &&& wire::has_text(v, "type"@, "image"@) ==> holds(v, "source"@)
    &&& wire::has_text(v, "type"@, "thinking"@) ==> holds(v, "thinking"@) && member(
        v,
        "thinking"@,
    ) is Text && (holds(v, "signature"@) ==> member(v, "signature"@) is Text)
    &&& wire::has_text(v, "type"@, "redacted_thinking"@) ==> holds(v, "data"@) && member(
        v,
        "data"@,
    ) is Text
}

/// A content block is read exactly where it is whole, of a known kind or not,
/// and each of its parts is read from the member of its name.
#[verifier::spinoff_prover]
pub proof fn law_blocks_are_read(v: JsonView)
    ensures
        types::block_of(v) is Ok <==> whole_block(v),
        types::block_of(v) matches Ok(b) ==> tells_block(v, b),
{
    lemma_block_names_differ();
    if let Some(kind) = v.get_text("type"@) {
        let m = v->Object_0;
        let rest = m.remove("type"@);
        assert forall|k: Seq<char>| k != "type"@ implies (#[trigger] rest.contains_key(k)
            == m.contains_key(k)) && (m.contains_key(k) ==> rest[k] == m[k]) by {}
    }
}

// ---------------------------------------------------------------------------
// What goes out and what comes back
// ---------------------------------------------------------------------------

/// What is sent for a request reads as that request, but for its own say on
/// whether the answer is streamed.
pub proof fn law_sent_requests_read_the_same(v: JsonView, streaming: bool)
    requires
        types::request_of(v) is Ok,
    ensures
        types::request_of(anthropic::wire_json(types::request_of(v)->Ok_0, streaming)) == Ok::<
            RequestView,
            DecodeErrorView,
        >(RequestView { stream: Some(streaming), ..types::request_of(v)->Ok_0 }),
{
    let m = v->Object_0;
    let r = types::request_of(v)->Ok_0;
    let m2 = m.insert("stream"@, JsonView::Bool(streaming));
    let v2 = JsonView::Object(m2);
    round_trip::lemma_request_names_differ();
    assert(types::request_extra(m2) =~= types::request_extra(m));
    assert forall|k: Seq<char>| k != "stream"@ implies (#[trigger] m2.contains_key(k)
        == m.contains_key(k)) && (m.contains_key(k) ==> m2[k] == m[k]) by {}
    let r2 = types::request_of(v2)->Ok_0;
    assert(types::request_of(v2) == Ok::<RequestView, DecodeErrorView>(
        RequestView { stream: Some(streaming), ..r },
    ));
    round_trip::law_request_reads_back(v2);
}

/// The body of a success is read as a response exactly where it is one; a body
/// that is not, and one that is no JSON, is an error of reading.
pub proof fn law_response_bodies_are_read(v: JsonView, why: Seq<char>)
    ensures
        readable_response(v) ==> (anthropic::accepted(Ok(v)) matches Ok(r) && types::response_of(v)
            == Ok::<ResponseView, DecodeErrorView>(r)),
        !readable_response(v) ==> (anthropic::accepted(Ok(v)) matches Err(e) && e is Parse),
        anthropic::accepted(Err(why)) matches Err(e) && e is Parse,
{
    law_readable_responses_are_read(v);
}

/// A request that lacks a member that it needs is told which; so is a response.
pub proof fn law_missing_members_are_named(v: JsonView)
    requires
        v is Object,
    ensures
        wire::lacks(v, "model"@) ==> types::request_of(v) == Err::<RequestView, DecodeErrorView>(
            DecodeErrorView::Missing("model"@),
        ),
        holds(v, "model"@) && member(v, "model"@) is Text && wire::lacks(v, "messages"@)
            ==> types::request_of(v) == Err::<RequestView, DecodeErrorView>(
            DecodeErrorView::Missing("messages"@),
        ),
        wire::lacks(v, "id"@) ==> types::response_of(v) == Err::<ResponseView, DecodeErrorView>(
            DecodeErrorView::Missing("id"@),
        ),
{
}

/// A request that is not fit to be sent is told what is missing.
pub proof fn law_unfit_requests_are_told_why(r: RequestView)
    ensures
        (forall|i: int| 0 <= i < r.model.len() ==> text::whitespace(#[trigger] r.model[i]))
            ==> types::request_defect(r) == Some("model is required"@),
        types::request_defect(r) != Some("model is required"@) && r.messages.len() == 0
            ==> types::request_defect(r) == Some("messages must not be empty"@),
        types::request_defect(r) != Some("model is required"@) && r.messages.len() > 0
            && r.max_tokens == 0 ==> types::request_defect(r) == Some("max_tokens must be > 0"@),
{
    if forall|i: int| 0 <= i < r.model.len() ==> text::whitespace(#[trigger] r.model[i]) {
        text::lemma_blank_trimmed(r.model);
    }
}

} // verus!
