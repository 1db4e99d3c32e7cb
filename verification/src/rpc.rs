//! JSON-RPC messages.
use vstd::prelude::*;
use vstd::string::*;

use crate::json;
use crate::json::{Json, JsonView};

verus! {

pub const JSONRPC_PARSE_ERROR: i64 = -32700;

pub const JSONRPC_INVALID_REQUEST: i64 = -32600;

pub const JSONRPC_METHOD_NOT_FOUND: i64 = -32601;

pub const JSONRPC_INVALID_PARAMS: i64 = -32602;

pub const JSONRPC_UPSTREAM_ERROR: i64 = -32000;

/// The answer to a request that succeeded.
pub open spec fn result_of(id: JsonView, result: JsonView) -> JsonView {
    JsonView::Object(
        json::no_fields().insert("jsonrpc"@, JsonView::String("2.0"@)).insert("id"@, id).insert(
            "result"@,
            result,
        ),
    )
}

/// The answer to a request that failed.
pub open spec fn error_of(id: JsonView, code: int, message: Seq<char>) -> JsonView {
    JsonView::Object(
        json::no_fields().insert("jsonrpc"@, JsonView::String("2.0"@)).insert("id"@, id).insert(
            "error"@,
            JsonView::Object(
                json::no_fields().insert("code"@, JsonView::Number(json::int_number(code))).insert(
                    "message"@,
                    JsonView::String(message),
                ),
            ),
        ),
    )
}

/// A request.
pub open spec fn request_of(id: JsonView, method: Seq<char>, params: JsonView) -> JsonView {
    JsonView::Object(
        json::no_fields().insert("jsonrpc"@, JsonView::String("2.0"@)).insert("id"@, id).insert(
            "method"@,
            JsonView::String(method),
        ).insert("params"@, params),
    )
}

/// A notification. Null parameters are left out.
pub open spec fn notification_of(method: Seq<char>, params: JsonView) -> JsonView {
    let bare = json::no_fields().insert("jsonrpc"@, JsonView::String("2.0"@)).insert(
        "method"@,
        JsonView::String(method),
    );
    if params is Null {
        JsonView::Object(bare)
    } else {
        JsonView::Object(bare.insert("params"@, params))
    }
}

/// The answer to a request that succeeded.
pub fn json_rpc_result(id: Json, result: Json) -> (answer: Json)
    ensures
        answer@ == result_of(id@, result@),
{
    let entries = json::with_member(json::no_members(), "jsonrpc", Json::string("2.0"));
    let entries = json::with_member(entries, "id", id);
    Json::object(json::with_member(entries, "result", result))
}

/// The answer to a request that failed.
pub fn json_rpc_error(id: Json, code: i64, message: &str) -> (answer: Json)
    ensures
        answer@ == error_of(id@, code as int, message@),
{
    let fault = json::with_member(json::no_members(), "code", Json::integer(code));
    let fault = Json::object(json::with_member(fault, "message", Json::string(message)));
    let entries = json::with_member(json::no_members(), "jsonrpc", Json::string("2.0"));
    let entries = json::with_member(entries, "id", id);
    Json::object(json::with_member(entries, "error", fault))
}

/// A request.
pub fn json_rpc_request(id: Json, method: &str, params: Json) -> (request: Json)
    ensures
        request@ == request_of(id@, method@, params@),
{
    let entries = json::with_member(json::no_members(), "jsonrpc", Json::string("2.0"));
    let entries = json::with_member(entries, "id", id);
    let entries = json::with_member(entries, "method", Json::string(method));
    Json::object(json::with_member(entries, "params", params))
}

/// A notification. Null parameters are left out.
pub fn json_rpc_notification(method: &str, params: Json) -> (notification: Json)
    ensures
        notification@ == notification_of(method@, params@),
{
    let entries = json::with_member(json::no_members(), "jsonrpc", Json::string("2.0"));
    let entries = json::with_member(entries, "method", Json::string(method));
    match params {
        Json::Null => Json::object(entries),
        _ => Json::object(json::with_member(entries, "params", params)),
    }
}

/// Is a message the answer to a request that failed?
pub open spec fn is_error(message: JsonView) -> bool {
    message.field("error"@) is Some
}

/// Is a message the answer to a request that failed?
pub fn is_json_rpc_error(message: &Json) -> (yes: bool)
    ensures
        yes == is_error(message@),
{
    message.get("error").is_some()
}

/// The answer to a request names the request, and holds a result and no error.
pub proof fn lemma_result_fields(id: JsonView, result: JsonView)
    ensures
        result_of(id, result).text_field("jsonrpc"@) == Some("2.0"@),
        result_of(id, result).field("id"@) == Some(id),
        result_of(id, result).field("result"@) == Some(result),
        result_of(id, result).field("error"@) is None,
{
    reveal_strlit("jsonrpc");
    reveal_strlit("id");
    reveal_strlit("result");
    reveal_strlit("error");
    assert("jsonrpc"@.len() == 7 && "id"@.len() == 2);
    assert("result"@.len() == 6 && "error"@.len() == 5);
}

/// The answer to a failed request names the request, and holds an error and no result.
pub proof fn lemma_error_fields(id: JsonView, code: int, message: Seq<char>)
    ensures
        error_of(id, code, message).text_field("jsonrpc"@) == Some("2.0"@),
        error_of(id, code, message).field("id"@) == Some(id),
        error_of(id, code, message).field("result"@) is None,
        error_of(id, code, message).field("error"@) matches Some(fault) && fault.text_field(
            "message"@,
        ) == Some(message) && fault.field("code"@) == Some(
            JsonView::Number(json::int_number(code)),
        ),
{
    reveal_strlit("jsonrpc");
    reveal_strlit("id");
    reveal_strlit("result");
    reveal_strlit("error");
    reveal_strlit("code");
    reveal_strlit("message");
    assert("jsonrpc"@.len() == 7 && "id"@.len() == 2);
    assert("result"@.len() == 6 && "error"@.len() == 5);
    assert("code"@.len() == 4 && "message"@.len() == 7);
}

/// The codes of errors are those of JSON-RPC, and one of the gateway's own for upstream servers.
pub proof fn law_error_codes()
    ensures
        JSONRPC_PARSE_ERROR == -32700,
        JSONRPC_INVALID_REQUEST == -32600,
        JSONRPC_METHOD_NOT_FOUND == -32601,
        JSONRPC_INVALID_PARAMS == -32602,
        JSONRPC_UPSTREAM_ERROR == -32000,
{
}

/// An answer has a version, an `id`, and a result or an error; nothing else stands in it.
pub proof fn law_answers_hold_nothing_else(
    id: JsonView,
    result: JsonView,
    code: int,
    words: Seq<char>,
    member: Seq<char>,
)
    ensures
        result_of(id, result).field(member) is Some <==> member == "jsonrpc"@ || member == "id"@
            || member == "result"@,
        error_of(id, code, words).field(member) is Some <==> member == "jsonrpc"@ || member
            == "id"@ || member == "error"@,
{
}

/// A request says which method it calls, with which parameters and under which `id`, and nothing
/// else.
pub proof fn law_request_says_what_it_asks(
    id: JsonView,
    method: Seq<char>,
    params: JsonView,
    member: Seq<char>,
)
    ensures
        ({
            let request = request_of(id, method, params);
            &&& request.text_field("jsonrpc"@) == Some("2.0"@)
            &&& request.field("id"@) == Some(id)
            &&& request.text_field("method"@) == Some(method)
            &&& request.field("params"@) == Some(params)
            &&& request.field(member) is Some ==> member == "jsonrpc"@ || member == "id"@ || member
                == "method"@ || member == "params"@
        }),
{
    lemma_member_names();
}

/// A notification says which method it calls and has no `id`; it has parameters unless they are
/// null.
pub proof fn law_notification_has_no_id(method: Seq<char>, params: JsonView)
    ensures
        ({
            let notification = notification_of(method, params);
            &&& notification.text_field("jsonrpc"@) == Some("2.0"@)
            &&& notification.text_field("method"@) == Some(method)
            &&& notification.field("id"@) is None
            &&& notification.field("params"@) == if params is Null {
                None
            } else {
                Some(params)
            }
        }),
{
    lemma_member_names();
}

/// The members of messages have different names.
proof fn lemma_member_names()
    ensures
        "jsonrpc"@ != "id"@,
        "jsonrpc"@ != "method"@,
        "jsonrpc"@ != "params"@,
        "id"@ != "method"@,
        "id"@ != "params"@,
        "method"@ != "params"@,
{
    reveal_strlit("jsonrpc");
    reveal_strlit("id");
    reveal_strlit("method");
    reveal_strlit("params");
    assert("jsonrpc"@.len() == 7 && "id"@.len() == 2 && "method"@.len() == 6 && "params"@.len()
        == 6);
    assert("method"@[0] == 'm' && "params"@[0] == 'p');
}

} // verus!
