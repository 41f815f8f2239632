//! Tool calls of the model: what is asked of a tool, and what the model is told.

use vstd::prelude::*;
use crate::agent::message::{ToolCall, ToolCallView};
use crate::text::{
    concat2, concat3, join, join_texts, maybe_text, same_text, texts, trim_text, trimmed,
};

verus! {

/// `serde_json::Value`, known by its compact JSON.
#[verifier::external_type_specification]
#[verifier::external_body]
pub struct ExValue(serde_json::Value);

/// What a `serde_json::Value` displays: compact JSON.
pub uninterp spec fn json_text(value: serde_json::Value) -> Seq<char>;

/// `serde_json::from_str` to a `Value`: the compact JSON of the value, or the text of the
/// error.
pub uninterp spec fn parsed_json(text: Seq<char>) -> Result<Seq<char>, Seq<char>>;

/// `serde_json::to_string_pretty` of the value with this compact JSON.
pub uninterp spec fn pretty_json(compact: Seq<char>) -> Seq<char>;

/// `serde_json::from_str` to a `Value` and, on failure, the text of the error.
#[verifier::external_body]
fn json_from_str(text: &str) -> (r: Result<serde_json::Value, String>)
    ensures
        match r {
            Ok(value) => parsed_json(text@) == Ok::<Seq<char>, Seq<char>>(json_text(value)),
            Err(message) => parsed_json(text@) == Err::<Seq<char>, Seq<char>>(message@),
        },
{
    match serde_json::from_str::<serde_json::Value>(text) {
        Ok(value) => Ok(value),
        Err(e) => Err(e.to_string()),
    }
}

/// `Map::new`, as a `Value`.
#[verifier::external_body]
fn json_empty_object() -> (r: serde_json::Value)
    ensures
        json_text(r) == "{}"@,
{
    serde_json::Value::Object(serde_json::Map::new())
}

/// `Value::is_object`: the compact JSON of an object, and of nothing else, begins with a
/// brace.
#[verifier::external_body]
fn json_is_object(value: &serde_json::Value) -> (r: bool)
    ensures
        r == is_object(json_text(*value)),
{
    value.is_object()
}

/// `Value::is_null`: the compact JSON of null is `null`.
#[verifier::external_body]
fn json_is_null(value: &serde_json::Value) -> (r: bool)
    ensures
        r == (json_text(*value) == "null"@),
{
    value.is_null()
}

/// The display of a `Value`.
#[verifier::external_body]
fn json_to_text(value: &serde_json::Value) -> (r: String)
    ensures
        r@ == json_text(*value),
{
    value.to_string()
}

/// `serde_json::to_string_pretty`, which does not fail on a `Value`.
#[verifier::external_body]
fn json_to_pretty(value: &serde_json::Value) -> (r: Option<String>)
    ensures
        r is Some,
        r->0@ == pretty_json(json_text(*value)),
{
    serde_json::to_string_pretty(value).ok()
}

/// Whether compact JSON is that of an object.
pub open spec fn is_object(json: Seq<char>) -> bool {
    json.len() > 0 && json[0] == '{'
}

/// An error of the agent, and what caused it where something did.
#[derive(Debug)]
pub struct AgentError {
    pub message: String,
    pub cause: Option<String>,
}

/// The contents of an `AgentError`.
pub struct AgentErrorView {
    pub message: Seq<char>,
    pub cause: Option<Seq<char>>,
}

impl View for AgentError {
    type V = AgentErrorView;

    open spec fn view(&self) -> AgentErrorView {
        AgentErrorView { message: self.message@, cause: maybe_text(self.cause) }
    }
}

/// What is asked of a tool.
#[derive(Debug)]
pub struct ToolRequest {
    pub name: String,
    /// The arguments, an object.
    pub arguments: Option<serde_json::Value>,
}

/// The contents of a `ToolRequest`.
pub struct ToolRequestView {
    pub name: Seq<char>,
    /// The compact JSON of the arguments.
    pub arguments: Option<Seq<char>>,
}

impl View for ToolRequest {
    type V = ToolRequestView;

    open spec fn view(&self) -> ToolRequestView {
        ToolRequestView {
            name: self.name@,
            arguments: match self.arguments {
                Some(value) => Some(json_text(value)),
                None => None,
            },
        }
    }
}

/// What is asked of a tool with arguments of some compact JSON: an object is passed on,
/// null stands for no arguments, and anything else is refused.
pub open spec fn request_with(name: Seq<char>, json: Seq<char>) -> Result<
    ToolRequestView,
    AgentErrorView,
> {
    if is_object(json) {
        Ok(ToolRequestView { name, arguments: Some(json) })
    } else if json == "null"@ {
        Ok(ToolRequestView { name, arguments: None })
    } else {
        Err(
            AgentErrorView {
                message: "tool "@ + name + " arguments must be a JSON object, got "@ + json,
                cause: None,
            },
        )
    }
}

/// What a tool call asks for. Only functions can be called; blank arguments are those of
/// an empty object.
pub open spec fn requested(call: ToolCallView) -> Result<ToolRequestView, AgentErrorView> {
    if call.kind != "function"@ {
        Err(AgentErrorView { message: "unsupported tool call type: "@ + call.kind, cause: None })
    } else if trimmed(call.arguments).len() == 0 {
        request_with(call.name, "{}"@)
    } else {
        match parsed_json(call.arguments) {
            Ok(json) => request_with(call.name, json),
            Err(cause) => Err(
                AgentErrorView {
                    message: "failed to parse arguments for tool "@ + call.name,
                    cause: Some(cause),
                },
            ),
        }
    }
}

/// What a tool call asks for.
pub fn tool_request(call: &ToolCall) -> (r: Result<ToolRequest, AgentError>)
    ensures
        match r {
            Ok(request) => requested(call@) == Ok::<ToolRequestView, AgentErrorView>(request@),
            Err(e) => requested(call@) == Err::<ToolRequestView, AgentErrorView>(e@),
        },
        r matches Ok(request) ==> (request@.arguments matches Some(json) ==> is_object(json)),
{
    if !same_text(call.kind.as_str(), "function") {
        return Err(
            AgentError {
                message: concat2("unsupported tool call type: ", call.kind.as_str()),
                cause: None,
            },
        );
    }
    let name = call.function.name.as_str();
    let value = if trim_text(call.function.arguments.as_str()).as_str().is_empty() {
        json_empty_object()
    } else {
        match json_from_str(call.function.arguments.as_str()) {
            Ok(value) => value,
            Err(cause) => {
                return Err(
                    AgentError {
                        message: concat2("failed to parse arguments for tool ", name),
                        cause: Some(cause),
                    },
                );
            },
        }
    };
    with_arguments(name, value)
}

/// What is asked of a tool with these arguments.
pub fn with_arguments(name: &str, value: serde_json::Value) -> (r: Result<ToolRequest, AgentError>)
    ensures
        match r {
            Ok(request) => request_with(name@, json_text(value)) == Ok::<
                ToolRequestView,
                AgentErrorView,
            >(request@),
            Err(e) => request_with(name@, json_text(value)) == Err::<
                ToolRequestView,
                AgentErrorView,
            >(e@),
        },
{
    if json_is_object(&value) {
        Ok(ToolRequest { name: name.to_owned(), arguments: Some(value) })
    } else if json_is_null(&value) {
        Ok(ToolRequest { name: name.to_owned(), arguments: None })
    } else {
        Err(
            AgentError {
                message: concat3("tool ", name, " arguments must be a JSON object, got ").concat(
                    json_to_text(&value).as_str(),
                ),
                cause: None,
            },
        )
    }
}

/// The error of a tool that could not be called.
pub fn tool_failure(name: &str, cause: String) -> (r: AgentError)
    ensures
        r@ == (AgentErrorView {
            message: "MCP tool "@ + name@ + " failed"@,
            cause: Some(cause@),
        }),
{
    AgentError { message: concat3("MCP tool ", name, " failed"), cause: Some(cause) }
}

/// What a tool returns.
#[derive(Debug)]
pub struct ToolResult {
    pub structured_content: Option<serde_json::Value>,
    /// The pieces of content: a text, or the JSON of what is no text.
    pub content: Vec<String>,
    pub is_error: Option<bool>,
}

/// What the model is told of a tool's result: structured content where there is some, else
/// the pieces of content, one to a line, marked where the result is an error.
pub open spec fn told(result: ToolResult) -> Seq<char> {
    match result.structured_content {
        Some(value) => pretty_json(json_text(value)),
        None => {
            let pieces = join(texts(result.content@), seq!['\n']);
            if result.is_error == Some(true) {
                "MCP tool returned an error:\n"@ + pieces
            } else {
                pieces
            }
        },
    }
}

/// What the model is told of a tool's result.
pub fn tool_result_to_text(result: &ToolResult) -> (r: String)
    ensures
        r@ == told(*result),
{
    match &result.structured_content {
        Some(value) => {
            return match json_to_pretty(value) {
                Some(text) => text,
                None => json_to_text(value),
            };
        },
        None => {},
    }
    proof {
        reveal_strlit("\n");
        assert("\n"@ == seq!['\n']);
    }
    let pieces = join_texts(&result.content, "\n");
    let failed = match result.is_error {
        Some(flag) => flag,
        None => false,
    };
    if failed {
        concat2("MCP tool returned an error:\n", pieces.as_str())
    } else {
        pieces
    }
}

/// A tool as it is offered to the model.
#[derive(Debug)]
pub struct OfferedTool {
    pub kind: &'static str,
    pub name: String,
    pub description: String,
    pub parameters: serde_json::Value,
}

/// How a tool of the server is offered to the model: as a function, with an empty
/// description where it has none.
pub fn openrouter_tool_from_mcp(
    name: String,
    description: Option<String>,
    input_schema: serde_json::Value,
) -> (r: OfferedTool)
    ensures
        r.kind@ == "function"@,
        r.name@ == name@,
        r.description@ == match description {
            Some(text) => text@,
            None => seq![],
        },
        r.parameters == input_schema,
{
    let description = match description {
        Some(text) => text,
        None => {
            let empty = String::new();
            assert(empty@ == Seq::<char>::empty());
            empty
        },
    };
    OfferedTool { kind: "function", name, description, parameters: input_schema }
}

/// What a call of a function asks for: its own name, with the object that its arguments
/// write, or with none for null. Blank arguments are an empty object.
pub proof fn what_a_call_asks_for(call: ToolCallView, json: Seq<char>)
    requires
        call.kind == "function"@,
        (trimmed(call.arguments).len() == 0 && json == "{}"@) || (trimmed(call.arguments).len() > 0
            && parsed_json(call.arguments) == Ok::<Seq<char>, Seq<char>>(json)),
    ensures
        json.len() > 0 && json[0] == '{' ==> requested(call) == Ok::<
            ToolRequestView,
            AgentErrorView,
        >(ToolRequestView { name: call.name, arguments: Some(json) }),
        json == "null"@ ==> requested(call) == Ok::<ToolRequestView, AgentErrorView>(
            ToolRequestView { name: call.name, arguments: None },
        ),
        json != "null"@ && (json.len() == 0 || json[0] != '{') ==> requested(call) == Err::<
            ToolRequestView,
            AgentErrorView,
        >(
            AgentErrorView {
                message: "tool "@ + call.name + " arguments must be a JSON object, got "@ + json,
                cause: None,
            },
        ),
{
    reveal_strlit("null");
    reveal_strlit("{}");
    assert("null"@[0] == 'n');
}

/// Which calls ask for nothing: those of what is no function, and those whose arguments are
/// no JSON. The error names the kind, or the function and what is wrong with its arguments.
pub proof fn which_calls_are_refused(call: ToolCallView)
    ensures
        call.kind != "function"@ ==> requested(call) == Err::<ToolRequestView, AgentErrorView>(
            AgentErrorView { message: "unsupported tool call type: "@ + call.kind, cause: None },
        ),
        call.kind == "function"@ && trimmed(call.arguments).len() > 0 ==> (parsed_json(
            call.arguments,
        ) matches Err(cause) ==> requested(call) == Err::<ToolRequestView, AgentErrorView>(
            AgentErrorView {
                message: "failed to parse arguments for tool "@ + call.name,
                cause: Some(cause),
            },
        )),
{
}

/// The model is told every piece of a result without structured content, each further one on
/// a line of its own.
pub proof fn every_piece_is_told(result: ToolResult, shorter: ToolResult, piece: String)
    requires
        shorter.structured_content is None,
        result.structured_content is None,
        result.is_error == shorter.is_error,
        shorter.content@.len() > 0,
        result.content@ == shorter.content@.push(piece),
    ensures
        told(result) == told(shorter) + seq!['\n'] + piece@,
{
    let before = texts(shorter.content@);
    assert(texts(result.content@) == before.push(piece@));
    assert(before.push(piece@).drop_last() == before);
    let mark = "MCP tool returned an error:\n"@;
    let pieces = join(before, seq!['\n']);
    assert(mark + (pieces + seq!['\n'] + piece@) == mark + pieces + seq!['\n'] + piece@);
}

/// The model is told the structured content of a result where there is some, whatever else the
/// result holds. A result of one piece without it is told as the piece, behind a line that
/// says so where the result is an error.
pub proof fn what_the_model_is_told(result: ToolResult)
    ensures
        result.structured_content matches Some(value) ==> told(result) == pretty_json(
            json_text(value),
        ),
        result.structured_content is None && result.content@.len() <= 1 ==> {
            let piece = if result.content@.len() == 1 {
                result.content@[0]@
            } else {
                Seq::<char>::empty()
            };
            &&& result.is_error == Some(true) ==> told(result)
                == "MCP tool returned an error:\n"@ + piece
            &&& result.is_error != Some(true) ==> told(result) == piece
        },
{
    if result.content@.len() == 1 {
        assert(texts(result.content@)[0] == result.content@[0]@);
    }
}

} // verus!
