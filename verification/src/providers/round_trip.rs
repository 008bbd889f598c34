//! What is written reads back as it was.

use vstd::prelude::*;
use vstd::string::*;

use crate::json::JsonView;
use crate::providers::decode;
use crate::providers::decode::{DecodeErrorView, FromJson, ToJson};
use crate::providers::types;
use crate::providers::types::{
    ContentBlock, Message, MessageContent, RequestView, ResponseView, SystemBlock, SystemPrompt,
    Tool, ToolChoice, Usage,
};

verus! {

/// What is read out of `v` is written as JSON that reads the same.
pub open spec fn reads_back<T: FromJson + ToJson>(v: JsonView) -> bool {
    T::of(v) is Ok ==> T::of(T::json(T::of(v)->Ok_0)) == T::of(v)
}

// ---------------------------------------------------------------------------
// Lists
// ---------------------------------------------------------------------------

pub(crate) proof fn lemma_decoded_items<V>(
    items: Seq<JsonView>,
    f: spec_fn(JsonView) -> Result<V, DecodeErrorView>,
)
    requires
        decode::decode_all(items, f) is Ok,
    ensures
        (decode::decode_all(items, f)->Ok_0).len() == items.len(),
        forall|i: int|
            0 <= i < items.len() ==> f(#[trigger] items[i]) == Ok::<V, DecodeErrorView>(
                (decode::decode_all(items, f)->Ok_0)[i],
            ),
    decreases items.len(),
{
    if items.len() > 0 {
        let front = items.drop_last();
        lemma_decoded_items(front, f);
        assert forall|i: int| 0 <= i < items.len() implies f(#[trigger] items[i]) == Ok::<
            V,
            DecodeErrorView,
        >((decode::decode_all(items, f)->Ok_0)[i]) by {
            if i < front.len() {
                assert(front[i] == items[i]);
            }
        }
    }
}

pub(crate) proof fn lemma_decode_each<V>(
    items: Seq<JsonView>,
    f: spec_fn(JsonView) -> Result<V, DecodeErrorView>,
    values: Seq<V>,
)
    requires
        items.len() == values.len(),
        forall|i: int|
            0 <= i < items.len() ==> f(#[trigger] items[i]) == Ok::<V, DecodeErrorView>(values[i]),
    ensures
        decode::decode_all(items, f) == Ok::<Seq<V>, DecodeErrorView>(values),
    decreases items.len(),
{
    if items.len() > 0 {
        let front = items.drop_last();
        assert forall|i: int| 0 <= i < front.len() implies f(#[trigger] front[i]) == Ok::<
            V,
            DecodeErrorView,
        >(values.drop_last()[i]) by {
            assert(front[i] == items[i]);
        }
        lemma_decode_each(front, f, values.drop_last());
        assert(f(items[items.len() - 1]) == Ok::<V, DecodeErrorView>(values.last()));
        assert(values.drop_last().push(values.last()) =~= values);
    } else {
        assert(values =~= Seq::<V>::empty());
    }
}

proof fn lemma_list_reads_back<T: FromJson + ToJson>(items: Seq<JsonView>)
    requires
        decode::list_of::<T>(items) is Ok,
        forall|i: int| 0 <= i < items.len() ==> reads_back::<T>(#[trigger] items[i]),
    ensures
        decode::list_of::<T>(
            decode::list_json::<T>(decode::list_of::<T>(items)->Ok_0)->Array_0,
        ) == decode::list_of::<T>(items),
{
    let f = |v: JsonView| T::of(v);
    let values = decode::list_of::<T>(items)->Ok_0;
    lemma_decoded_items(items, f);
    let written = decode::list_json::<T>(values)->Array_0;
    assert forall|i: int| 0 <= i < written.len() implies f(#[trigger] written[i]) == Ok::<
        <T as View>::V,
        DecodeErrorView,
    >(values[i]) by {
        assert(f(items[i]) == Ok::<<T as View>::V, DecodeErrorView>(values[i]));
        assert(reads_back::<T>(items[i]));
        assert(written[i] == T::json(values[i]));
    }
    lemma_decode_each(written, f, values);
}

// ---------------------------------------------------------------------------
// Parts of messages
// ---------------------------------------------------------------------------

proof fn lemma_block_reads_back(v: JsonView)
    ensures
        reads_back::<ContentBlock>(v),
{
    if types::block_of(v) is Ok {
        types::law_block_round_trip(v);
        if v.get_text("type"@) == Some("tool_result"@) && v.get("is_error"@) is None {
            reveal_strlit("type");
            reveal_strlit("is_error");
            reveal_strlit("tool_result");
            reveal_strlit("text");
            reveal_strlit("tool_use");
            reveal_strlit("tool_use_id");
            reveal_strlit("content");
            assert("type"@.len() == 4 && "text"@.len() == 4 && "is_error"@.len() == 8);
            assert("tool_use"@.len() == 8 && "tool_use_id"@.len() == 11 && "content"@.len() == 7);
            assert("tool_result"@.len() == 11);
            let all = v->Object_0;
            let more = all.insert("is_error"@, JsonView::Bool(false));
            assert(all.remove("type"@).remove("tool_use_id"@).remove("content"@).remove("is_error"@)
                =~= more.remove("type"@).remove("tool_use_id"@).remove("content"@).remove(
                "is_error"@,
            ));
        }
    }
}

proof fn lemma_content_reads_back(v: JsonView)
    ensures
        reads_back::<MessageContent>(v),
{
    if let JsonView::Array(items) = v {
        if decode::list_of::<ContentBlock>(items) is Ok {
            assert forall|i: int| 0 <= i < items.len() implies reads_back::<ContentBlock>(
                #[trigger] items[i],
            ) by {
                lemma_block_reads_back(items[i]);
            }
            lemma_list_reads_back::<ContentBlock>(items);
        }
    }
}

proof fn lemma_message_reads_back(v: JsonView)
    ensures
        reads_back::<Message>(v),
{
    if Message::of(v) is Ok {
        reveal_strlit("role");
        reveal_strlit("content");
        assert("role"@.len() == 4 && "content"@.len() == 7);
        let m = v->Object_0;
        lemma_content_reads_back(m["content"@]);
        let x = Message::of(v)->Ok_0;
        let w = Message::json(x)->Object_0;
        assert(w.remove("role"@).remove("content"@) =~= x.extra);
    }
}

proof fn lemma_system_block_reads_back(v: JsonView)
    ensures
        reads_back::<SystemBlock>(v),
{
    if SystemBlock::of(v) is Ok {
        reveal_strlit("type");
        reveal_strlit("text");
        assert("type"@[1] == 'y' && "text"@[1] == 'e');
        let x = SystemBlock::of(v)->Ok_0;
        let w = SystemBlock::json(x)->Object_0;
        assert(w.remove("type"@).remove("text"@) =~= x.extra);
    }
}

proof fn lemma_system_reads_back(v: JsonView)
    ensures
        reads_back::<SystemPrompt>(v),
{
    if let JsonView::Array(items) = v {
        if decode::list_of::<SystemBlock>(items) is Ok {
            assert forall|i: int| 0 <= i < items.len() implies reads_back::<SystemBlock>(
                #[trigger] items[i],
            ) by {
                lemma_system_block_reads_back(items[i]);
            }
            lemma_list_reads_back::<SystemBlock>(items);
        }
    }
}

proof fn lemma_tool_reads_back(v: JsonView)
    ensures
        reads_back::<Tool>(v),
{
    if Tool::of(v) is Ok {
        reveal_strlit("name");
        reveal_strlit("description");
        reveal_strlit("input_schema");
        assert("name"@.len() == 4 && "description"@.len() == 11 && "input_schema"@.len() == 12);
        let x = Tool::of(v)->Ok_0;
        let w = Tool::json(x)->Object_0;
        assert(w.remove("name"@).remove("description"@).remove("input_schema"@) =~= x.extra);
    }
}

proof fn lemma_choice_reads_back(v: JsonView)
    ensures
        reads_back::<ToolChoice>(v),
{
    reveal_strlit("type");
    reveal_strlit("name");
    reveal_strlit("auto");
    reveal_strlit("any");
    reveal_strlit("none");
    reveal_strlit("tool");
    assert("type"@[0] == 't' && "name"@[0] == 'n');
    assert("any"@.len() == 3 && "auto"@.len() == 4 && "none"@.len() == 4 && "tool"@.len() == 4);
    assert("auto"@[0] == 'a' && "none"@[0] == 'n' && "tool"@[0] == 't');
}

proof fn lemma_usage_reads_back(v: JsonView)
    ensures
        reads_back::<Usage>(v),
{
    if types::usage_of(v) is Ok {
        reveal_strlit("input_tokens");
        reveal_strlit("output_tokens");
        assert("input_tokens"@.len() == 12 && "output_tokens"@.len() == 13);
        let x = types::usage_of(v)->Ok_0;
        let w = types::usage_json(x)->Object_0;
        assert(w.remove("input_tokens"@).remove("output_tokens"@) =~= x.extra);
    }
}

// ---------------------------------------------------------------------------
// Requests
// ---------------------------------------------------------------------------

pub(crate) proof fn lemma_request_names_differ()
    ensures
        "model"@ != "messages"@ && "model"@ != "max_tokens"@ && "model"@ != "system"@ && "model"@ != "temperature"@ && "model"@ != "top_p"@ && "model"@ != "top_k"@ && "model"@ != "stream"@ && "model"@ != "stop_sequences"@ && "model"@ != "tools"@ && "model"@ != "tool_choice"@ && "model"@ != "metadata"@,
        "messages"@ != "max_tokens"@ && "messages"@ != "system"@ && "messages"@ != "temperature"@ && "messages"@ != "top_p"@ && "messages"@ != "top_k"@ && "messages"@ != "stream"@ && "messages"@ != "stop_sequences"@ && "messages"@ != "tools"@ && "messages"@ != "tool_choice"@ && "messages"@ != "metadata"@,
        "max_tokens"@ != "system"@ && "max_tokens"@ != "temperature"@ && "max_tokens"@ != "top_p"@ && "max_tokens"@ != "top_k"@ && "max_tokens"@ != "stream"@ && "max_tokens"@ != "stop_sequences"@ && "max_tokens"@ != "tools"@ && "max_tokens"@ != "tool_choice"@ && "max_tokens"@ != "metadata"@,
        "system"@ != "temperature"@ && "system"@ != "top_p"@ && "system"@ != "top_k"@ && "system"@ != "stream"@ && "system"@ != "stop_sequences"@ && "system"@ != "tools"@ && "system"@ != "tool_choice"@ && "system"@ != "metadata"@,
        "temperature"@ != "top_p"@ && "temperature"@ != "top_k"@ && "temperature"@ != "stream"@ && "temperature"@ != "stop_sequences"@ && "temperature"@ != "tools"@ && "temperature"@ != "tool_choice"@ && "temperature"@ != "metadata"@,
        "top_p"@ != "top_k"@ && "top_p"@ != "stream"@ && "top_p"@ != "stop_sequences"@ && "top_p"@ != "tools"@ && "top_p"@ != "tool_choice"@ && "top_p"@ != "metadata"@,
        "top_k"@ != "stream"@ && "top_k"@ != "stop_sequences"@ && "top_k"@ != "tools"@ && "top_k"@ != "tool_choice"@ && "top_k"@ != "metadata"@,
        "stream"@ != "stop_sequences"@ && "stream"@ != "tools"@ && "stream"@ != "tool_choice"@ && "stream"@ != "metadata"@,
        "stop_sequences"@ != "tools"@ && "stop_sequences"@ != "tool_choice"@ && "stop_sequences"@ != "metadata"@,
        "tools"@ != "tool_choice"@ && "tools"@ != "metadata"@,
        "tool_choice"@ != "metadata"@,
{
    reveal_strlit("model");
    reveal_strlit("messages");
    reveal_strlit("max_tokens");
    reveal_strlit("system");
    reveal_strlit("temperature");
    reveal_strlit("top_p");
    reveal_strlit("top_k");
    reveal_strlit("stream");
    reveal_strlit("stop_sequences");
    reveal_strlit("tools");
    reveal_strlit("tool_choice");
    reveal_strlit("metadata");
    assert("model"@.len() == 5);
    assert("messages"@.len() == 8);
    assert("max_tokens"@.len() == 10);
    assert("system"@.len() == 6);
    assert("temperature"@.len() == 11);
    assert("top_p"@.len() == 5);
    assert("top_k"@.len() == 5);
    assert("stream"@.len() == 6);
    assert("stop_sequences"@.len() == 14);
    assert("tools"@.len() == 5);
    assert("tool_choice"@.len() == 11);
    assert("metadata"@.len() == 8);
    assert("model"@[0] == 'm' && "top_p"@[0] == 't' && "top_k"@[0] == 't' && "tools"@[0] == 't');
    assert("top_p"@[4] == 'p' && "top_k"@[4] == 'k' && "tools"@[4] == 's');
    assert("messages"@[1] == 'e' && "messages"@[2] == 's' && "metadata"@[2] == 't');
    assert("system"@[1] == 'y' && "stream"@[1] == 't');
    assert("temperature"@[1] == 'e' && "tool_choice"@[1] == 'o');
}

/// The fields of a request as they stand among its members.
proof fn lemma_request_members(r: RequestView)
    requires
        forall|k: Seq<char>| types::request_field(k) ==> !(#[trigger] r.extra.contains_key(k)),
        r.metadata != Some(JsonView::Null),
    ensures
        ({
            let m = types::request_json(r)->Object_0;
            &&& decode::required(m, "model"@) == Ok::<JsonView, DecodeErrorView>(
                JsonView::Text(r.model),
            )
            &&& decode::required(m, "messages"@) == Ok::<JsonView, DecodeErrorView>(
                decode::list_json::<Message>(r.messages),
            )
            &&& decode::required(m, "max_tokens"@) == Ok::<JsonView, DecodeErrorView>(
                types::number(r.max_tokens as int),
            )
            &&& decode::present(m, "system"@) == types::optional_json::<SystemPrompt>(r.system)
            &&& decode::present(m, "temperature"@) == types::optional_number_json(r.temperature)
            &&& decode::present(m, "top_p"@) == types::optional_number_json(r.top_p)
            &&& decode::present(m, "top_k"@) == (match r.top_k {
                Some(n) => Some(types::number(n as int)),
                None => None,
            })
            &&& decode::present(m, "stream"@) == (match r.stream {
                Some(b) => Some(JsonView::Bool(b)),
                None => None,
            })
            &&& decode::present(m, "stop_sequences"@) == types::optional_list_json::<String>(
                r.stop_sequences,
            )
            &&& decode::present(m, "tools"@) == types::optional_list_json::<Tool>(r.tools)
            &&& decode::present(m, "tool_choice"@) == types::optional_json::<ToolChoice>(
                r.tool_choice,
            )
            &&& decode::present(m, "metadata"@) == r.metadata
            &&& types::request_extra(m) == r.extra
        }),
{
    lemma_request_names_differ();
    let fields = types::request_fields_json(r);
    let m = types::request_json(r)->Object_0;
    assert forall|k: Seq<char>| types::request_field(k) implies (#[trigger] m.contains_key(k)
        == fields.contains_key(k)) && (fields.contains_key(k) ==> m[k] == fields[k]) by {
        assert(!r.extra.contains_key(k));
    }
    assert forall|k: Seq<char>| #[trigger] fields.contains_key(k) implies types::request_field(
        k,
    ) by {}
    assert(types::request_extra(m) =~= r.extra) by {
        assert forall|k: Seq<char>| #[trigger] types::request_extra(m).contains_key(k)
            == r.extra.contains_key(k) by {
            if types::request_field(k) {
                assert(!r.extra.contains_key(k));
            } else {
                assert(!fields.contains_key(k));
            }
        }
    }
}

proof fn lemma_texts_read_back(items: Seq<JsonView>)
    requires
        decode::list_of::<String>(items) is Ok,
    ensures
        decode::list_of::<String>(
            decode::list_json::<String>(decode::list_of::<String>(items)->Ok_0)->Array_0,
        ) == decode::list_of::<String>(items),
{
    assert forall|i: int| 0 <= i < items.len() implies reads_back::<String>(
        #[trigger] items[i],
    ) by {}
    lemma_list_reads_back::<String>(items);
}

/// What a provider reads out of a request that the gateway has sent on is what
/// the gateway itself has read.
pub proof fn law_request_reads_back(v: JsonView)
    requires
        types::request_of(v) is Ok,
    ensures
        types::request_of(types::request_json(types::request_of(v)->Ok_0)) == types::request_of(v),
{
    let m = v->Object_0;
    let r = types::request_of(v)->Ok_0;
    let w = types::request_json(r)->Object_0;
    assert forall|k: Seq<char>| types::request_field(k) implies !(#[trigger] r.extra.contains_key(
        k,
    )) by {}
    lemma_request_members(r);
    assert(types::messages_of(w) == types::messages_of(m)) by {
        let items = m["messages"@]->Array_0;
        assert forall|i: int| 0 <= i < items.len() implies reads_back::<Message>(
            #[trigger] items[i],
        ) by {
            lemma_message_reads_back(items[i]);
        }
        lemma_list_reads_back::<Message>(items);
    }
    assert(types::optional_of::<SystemPrompt>(w, "system"@) == types::optional_of::<SystemPrompt>(
        m,
        "system"@,
    )) by {
        if let Some(x) = decode::present(m, "system"@) {
            lemma_system_reads_back(x);
        }
    }
    assert(types::optional_list_of::<String>(w, "stop_sequences"@) == types::optional_list_of::<
        String,
    >(m, "stop_sequences"@)) by {
        if let Some(JsonView::Array(items)) = decode::present(m, "stop_sequences"@) {
            lemma_texts_read_back(items);
        }
    }
    assert(types::optional_list_of::<Tool>(w, "tools"@) == types::optional_list_of::<Tool>(
        m,
        "tools"@,
    )) by {
        if let Some(JsonView::Array(items)) = decode::present(m, "tools"@) {
            assert forall|i: int| 0 <= i < items.len() implies reads_back::<Tool>(
                #[trigger] items[i],
            ) by {
                lemma_tool_reads_back(items[i]);
            }
            lemma_list_reads_back::<Tool>(items);
        }
    }
    assert(types::optional_of::<ToolChoice>(w, "tool_choice"@) == types::optional_of::<ToolChoice>(
        m,
        "tool_choice"@,
    )) by {
        if let Some(x) = decode::present(m, "tool_choice"@) {
            lemma_choice_reads_back(x);
        }
    }
}

// ---------------------------------------------------------------------------
// Responses
// ---------------------------------------------------------------------------

proof fn lemma_response_names_differ()
    ensures
        "id"@ != "type"@ && "id"@ != "role"@ && "id"@ != "content"@ && "id"@ != "model"@ && "id"@ != "stop_reason"@ && "id"@ != "stop_sequence"@ && "id"@ != "usage"@,
        "type"@ != "role"@ && "type"@ != "content"@ && "type"@ != "model"@ && "type"@ != "stop_reason"@ && "type"@ != "stop_sequence"@ && "type"@ != "usage"@,
        "role"@ != "content"@ && "role"@ != "model"@ && "role"@ != "stop_reason"@ && "role"@ != "stop_sequence"@ && "role"@ != "usage"@,
        "content"@ != "model"@ && "content"@ != "stop_reason"@ && "content"@ != "stop_sequence"@ && "content"@ != "usage"@,
        "model"@ != "stop_reason"@ && "model"@ != "stop_sequence"@ && "model"@ != "usage"@,
        "stop_reason"@ != "stop_sequence"@ && "stop_reason"@ != "usage"@,
        "stop_sequence"@ != "usage"@,
{
    reveal_strlit("id");
    reveal_strlit("type");
    reveal_strlit("role");
    reveal_strlit("content");
    reveal_strlit("model");
    reveal_strlit("stop_reason");
    reveal_strlit("stop_sequence");
    reveal_strlit("usage");
    assert("id"@.len() == 2);
    assert("type"@.len() == 4);
    assert("role"@.len() == 4);
    assert("content"@.len() == 7);
    assert("model"@.len() == 5);
    assert("stop_reason"@.len() == 11);
    assert("stop_sequence"@.len() == 13);
    assert("usage"@.len() == 5);
    assert("type"@[0] == 't' && "role"@[0] == 'r');
    assert("model"@[0] == 'm' && "usage"@[0] == 'u');
}

/// The fields of a response as they stand among its members.
proof fn lemma_response_members(r: ResponseView)
    requires
        forall|k: Seq<char>| types::response_field(k) ==> !(#[trigger] r.extra.contains_key(k)),
    ensures
        ({
            let m = types::response_json(r)->Object_0;
            &&& decode::required_text(m, "id"@) == Ok::<Seq<char>, DecodeErrorView>(r.id)
            &&& decode::required_text(m, "type"@) == Ok::<Seq<char>, DecodeErrorView>(r.kind)
            &&& decode::required_text(m, "role"@) == Ok::<Seq<char>, DecodeErrorView>(r.role)
            &&& decode::required(m, "content"@) == Ok::<JsonView, DecodeErrorView>(
                decode::list_json::<ContentBlock>(r.content),
            )
            &&& decode::required_text(m, "model"@) == Ok::<Seq<char>, DecodeErrorView>(r.model)
            &&& decode::optional_text(m, "stop_reason"@) == Ok::<
                Option<Seq<char>>,
                DecodeErrorView,
            >(
                match r.stop_reason {
                    Some(reason) => Some(reason.wire()),
                    None => None,
                },
            )
            &&& decode::optional_text(m, "stop_sequence"@) == Ok::<
                Option<Seq<char>>,
                DecodeErrorView,
            >(r.stop_sequence)
            &&& decode::required(m, "usage"@) == Ok::<JsonView, DecodeErrorView>(
                types::usage_json(r.usage),
            )
            &&& types::response_extra(m) == r.extra
        }),
{
    lemma_response_names_differ();
    let fields = types::response_fields_json(r);
    let m = types::response_json(r)->Object_0;
    assert forall|k: Seq<char>| types::response_field(k) implies (#[trigger] m.contains_key(k)
        == fields.contains_key(k)) && (fields.contains_key(k) ==> m[k] == fields[k]) by {
        assert(!r.extra.contains_key(k));
    }
    assert(types::response_extra(m) =~= r.extra) by {
        assert forall|k: Seq<char>| #[trigger] types::response_extra(m).contains_key(k)
            == r.extra.contains_key(k) by {
            if types::response_field(k) {
                assert(!r.extra.contains_key(k));
            } else {
                assert(!fields.contains_key(k));
            }
        }
    }
}

/// What a client reads out of a response that the gateway has handed on is
/// what the gateway itself has read.
pub proof fn law_response_reads_back(v: JsonView)
    requires
        types::response_of(v) is Ok,
    ensures
        types::response_of(types::response_json(types::response_of(v)->Ok_0))
            == types::response_of(v),
{
    let m = v->Object_0;
    let r = types::response_of(v)->Ok_0;
    let w = types::response_json(r)->Object_0;
    assert forall|k: Seq<char>| types::response_field(k) implies !(#[trigger] r.extra.contains_key(
        k,
    )) by {}
    lemma_response_members(r);
    assert(types::response_content_of(w) == types::response_content_of(m)) by {
        let items = m["content"@]->Array_0;
        assert forall|i: int| 0 <= i < items.len() implies reads_back::<ContentBlock>(
            #[trigger] items[i],
        ) by {
            lemma_block_reads_back(items[i]);
        }
        lemma_list_reads_back::<ContentBlock>(items);
    }
    lemma_usage_reads_back(m["usage"@]);
    if let Some(reason) = r.stop_reason {
        types::law_stop_reason_round_trip(reason);
    }
}

} // verus!
