use std::path::PathBuf;

use chess_pos_analyzer::agent::dialog::{
    choose_mode, hear, read_command, DialogAction, DialogCommand, Mode, DEFAULT_MODEL,
};
use chess_pos_analyzer::agent::launch::{
    is_workspace_manifest, resolve_server_command, server_exe_name, server_exe_name_for,
    workspace_root, Ancestor,
};
use chess_pos_analyzer::agent::message::{
    assistant_message_value, system_prompt, AssistantMessage, Conversation, Field, FunctionCall,
    Message, ToolCall,
};
use chess_pos_analyzer::agent::tool::{
    openrouter_tool_from_mcp, tool_failure, tool_request, tool_result_to_text, ToolResult,
};
use chess_pos_analyzer::agent::turn::{response_body, AgentTurn, ChatResponse, Choice, TurnAction};

fn call(id: &str, kind: &str, name: &str, arguments: &str) -> ToolCall {
    ToolCall {
        id: id.into(),
        kind: kind.into(),
        function: FunctionCall { name: name.into(), arguments: arguments.into() },
    }
}

fn says(content: Option<&str>, tool_calls: Vec<ToolCall>) -> AssistantMessage {
    AssistantMessage { role: "assistant".into(), content: content.map(String::from), tool_calls }
}

fn response(model: Option<&str>, message: AssistantMessage) -> ChatResponse {
    ChatResponse { model: model.map(String::from), choices: vec![Choice { message }] }
}

#[test]
fn commands_of_the_dialog() {
    for line in ["exit\n", " QUIT ", "/Exit", "/quit\r\n"] {
        assert!(matches!(read_command(line), DialogCommand::Exit), "{:?}", line);
    }
    for line in ["/help\n", "Help"] {
        assert!(matches!(read_command(line), DialogCommand::Help));
    }
    assert!(matches!(read_command("/CLEAR\n"), DialogCommand::Clear));
    assert!(matches!(read_command(" \t\n"), DialogCommand::Nothing));
    match read_command("  clear the board\n") {
        DialogCommand::Prompt(text) => assert_eq!(text, "clear the board"),
        other => panic!("expected a prompt, got {:?}", other),
    }
    assert!(matches!(read_command("clear"), DialogCommand::Prompt(_)));
}

#[test]
fn what_a_line_does_to_the_conversation() {
    let mut conversation = Conversation::new();
    assert!(matches!(hear(&mut conversation, Some("\n")), DialogAction::Ignore));
    assert!(matches!(hear(&mut conversation, Some("help\n")), DialogAction::ShowHelp));
    assert_eq!(conversation.len(), 1);
    assert!(matches!(hear(&mut conversation, Some(" analyze e4 \n")), DialogAction::RunTurn(1)));
    assert!(matches!(hear(&mut conversation, Some("and d4\n")), DialogAction::RunTurn(2)));
    match &conversation.messages()[1] {
        Message::User(text) => assert_eq!(text, "analyze e4"),
        other => panic!("expected a prompt, got {:?}", other),
    }
    // A turn that fails is forgotten.
    conversation.roll_back(2);
    assert_eq!(conversation.len(), 2);
    assert!(matches!(hear(&mut conversation, Some("/clear")), DialogAction::TellCleared));
    assert_eq!(conversation.len(), 1);
    assert!(matches!(hear(&mut conversation, Some("/exit")), DialogAction::Quit));
    assert!(matches!(hear(&mut conversation, None), DialogAction::Quit));
}

#[test]
fn modes_of_the_agent() {
    let words = |list: &[&str]| -> Vec<String> { list.iter().map(|s| s.to_string()).collect() };
    assert!(matches!(choose_mode(false, &words(&[])), Mode::Dialog(None)));
    assert!(matches!(choose_mode(true, &words(&[])), Mode::Dialog(None)));
    match choose_mode(true, &words(&["a", "b c"])) {
        Mode::Dialog(Some(text)) => assert_eq!(text, "a b c"),
        other => panic!("expected a dialog, got {:?}", other),
    }
    match choose_mode(false, &words(&["a", "b"])) {
        Mode::OneShot(text) => assert_eq!(text, "a b"),
        other => panic!("expected one shot, got {:?}", other),
    }
}

#[test]
fn a_conversation_begins_with_the_task() {
    let mut conversation = Conversation::new();
    assert_eq!(conversation.len(), 1);
    match &conversation.messages()[0] {
        Message::System(text) => assert_eq!(text, system_prompt()),
        other => panic!("expected the task, got {:?}", other),
    }
    assert!(system_prompt().starts_with("You are a chess analysis agent. Use the provided MCP tools for concrete board state and engine analysis"));
    let checkpoint = conversation.open_turn("hello");
    assert_eq!(checkpoint, 1);
    conversation.push(Message::Assistant(says(Some("hi"), vec![])));
    assert_eq!(conversation.len(), 3);
    conversation.roll_back(checkpoint);
    assert_eq!(conversation.len(), 1);
    conversation.roll_back(9);
    assert_eq!(conversation.len(), 1);
    conversation.open_turn("again");
    conversation.reset_conversation();
    assert_eq!(conversation.len(), 1);
    assert!(matches!(conversation.messages()[0], Message::System(_)));
}

fn names(fields: &[(&'static str, Field)]) -> Vec<&'static str> {
    fields.iter().map(|f| f.0).collect()
}

#[test]
fn messages_on_the_wire() {
    let plain = assistant_message_value(&says(None, vec![]));
    assert_eq!(names(&plain), vec!["role", "content"]);
    assert!(matches!(plain[1].1, Field::Null));
    let calling = assistant_message_value(&says(Some("wait"), vec![call("1", "function", "f", "")]));
    assert_eq!(names(&calling), vec!["role", "content", "tool_calls"]);
    match &calling[2].1 {
        Field::Calls(calls) => assert_eq!(calls[0].function.name, "f"),
        other => panic!("expected calls, got {:?}", other),
    }
    let tool = Message::Tool { tool_call_id: "1".into(), content: "done".into() }.fields();
    assert_eq!(names(&tool), vec!["role", "tool_call_id", "content"]);
    match &tool[0].1 {
        Field::Text(role) => assert_eq!(role, "tool"),
        other => panic!("expected a role, got {:?}", other),
    }
    let user = Message::User("hi".into()).fields();
    match (&user[0].1, &user[1].1) {
        (Field::Text(role), Field::Text(content)) => {
            assert_eq!(role, "user");
            assert_eq!(content, "hi");
        }
        other => panic!("expected texts, got {:?}", other),
    }
}

#[test]
fn a_turn_with_tool_calls() {
    let mut conversation = Conversation::new();
    conversation.open_turn("analyze");
    let (mut turn, action) = AgentTurn::new("some/model".into(), 2);
    assert!(matches!(action, TurnAction::Ask));
    assert!(turn.may_ask() && !turn.has_call());
    let calls = vec![call("a", "function", "f", ""), call("b", "function", "g", "")];
    let action = turn.response(&mut conversation, response(Some("m"), says(None, calls)));
    match action {
        TurnAction::Call(first) => assert_eq!(first.id, "a"),
        other => panic!("expected a call, got {:?}", other),
    }
    match turn.tool_result(&mut conversation, "one".into()) {
        TurnAction::Call(second) => assert_eq!(second.id, "b"),
        other => panic!("expected a call, got {:?}", other),
    }
    assert!(matches!(turn.tool_result(&mut conversation, "two".into()), TurnAction::Ask));
    match turn.response(&mut conversation, response(Some("m"), says(Some("e4"), vec![]))) {
        TurnAction::Answer(text) => assert_eq!(text, "e4"),
        other => panic!("expected an answer, got {:?}", other),
    }
    // The task, the prompt, two messages of the model and two results.
    assert_eq!(conversation.len(), 6);
    match &conversation.messages()[4] {
        Message::Tool { tool_call_id, content } => {
            assert_eq!(tool_call_id, "b");
            assert_eq!(content, "two");
        }
        other => panic!("expected a result, got {:?}", other),
    }
}

#[test]
fn a_turn_that_finds_no_end() {
    let mut conversation = Conversation::new();
    let (mut turn, _) = AgentTurn::new(DEFAULT_MODEL.into(), 1);
    turn.response(&mut conversation, response(None, says(None, vec![call("a", "function", "f", "")])));
    match turn.tool_result(&mut conversation, "r".into()) {
        TurnAction::Fail(message) => {
            assert_eq!(message, "agent exceeded 1 tool-call rounds without a final answer")
        }
        other => panic!("expected a failure, got {:?}", other),
    }
    assert!(!turn.may_ask());
    let (_, action) = AgentTurn::new(DEFAULT_MODEL.into(), 0);
    match action {
        TurnAction::Fail(message) => {
            assert_eq!(message, "agent exceeded 0 tool-call rounds without a final answer")
        }
        other => panic!("expected a failure, got {:?}", other),
    }
}

#[test]
fn the_model_is_named_where_the_choice_was_open() {
    let answer = |asked: &str, model: Option<&str>, content: Option<&str>| -> String {
        let mut conversation = Conversation::new();
        let (mut turn, _) = AgentTurn::new(asked.into(), 1);
        match turn.response(&mut conversation, response(model, says(content, vec![]))) {
            TurnAction::Answer(text) => text,
            other => panic!("expected an answer, got {:?}", other),
        }
    };
    assert_eq!(answer("openrouter/auto", Some("m/1"), Some("e4")), "e4\n\nModel used: m/1");
    assert_eq!(answer("openrouter/auto", None, Some("e4")), "e4");
    assert_eq!(answer("m/1", Some("m/1"), Some("e4")), "e4");
    assert_eq!(answer("openrouter/auto", Some("m/1"), None), "\n\nModel used: m/1");
    assert_eq!(answer("m/1", None, None), "");
}

#[test]
fn a_response_without_choices() {
    let mut conversation = Conversation::new();
    let (mut turn, _) = AgentTurn::new("m".into(), 3);
    let empty = ChatResponse { model: None, choices: vec![] };
    match turn.response(&mut conversation, empty) {
        TurnAction::Fail(message) => assert_eq!(message, "OpenRouter returned no choices"),
        other => panic!("expected a failure, got {:?}", other),
    }
    assert_eq!(conversation.len(), 1);
}

#[test]
fn unsuccessful_requests() {
    assert_eq!(response_body(true, "200 OK", "{}".into()).unwrap(), "{}");
    let e = response_body(false, "401 Unauthorized", "no".into()).unwrap_err();
    assert_eq!(e.message, "OpenRouter request failed with 401 Unauthorized: no");
    assert!(e.cause.is_none());
}

#[test]
fn arguments_of_a_tool_call() {
    let request = tool_request(&call("1", "function", "f", " {\"b\": [1, 2],\n \"a\": null} ")).unwrap();
    assert_eq!(request.name, "f");
    let value = request.arguments.unwrap();
    assert_eq!(value["b"][1], serde_json::Value::from(2));
    assert!(value.is_object());

    let blank = tool_request(&call("1", "function", "f", " \n")).unwrap();
    assert_eq!(blank.arguments.unwrap(), serde_json::Value::Object(serde_json::Map::new()));
    assert!(tool_request(&call("1", "function", "f", "null")).unwrap().arguments.is_none());

    for (text, shown) in [("[1, 2]", "[1,2]"), ("\"null\"", "\"null\""), ("7", "7"), ("true", "true")] {
        let e = tool_request(&call("1", "function", "f", text)).unwrap_err();
        assert_eq!(e.message, format!("tool f arguments must be a JSON object, got {}", shown));
    }
    let e = tool_request(&call("1", "function", "f", "{")).unwrap_err();
    assert_eq!(e.message, "failed to parse arguments for tool f");
    assert!(e.cause.unwrap().contains("EOF"));
    let e = tool_request(&call("1", "retrieval", "f", "{}")).unwrap_err();
    assert_eq!(e.message, "unsupported tool call type: retrieval");
    let e = tool_failure("f", "gone".into());
    assert_eq!((e.message.as_str(), e.cause.as_deref()), ("MCP tool f failed", Some("gone")));
}

#[test]
fn results_of_a_tool_call() {
    let result = |structured: Option<&str>, content: &[&str], is_error: Option<bool>| ToolResult {
        structured_content: structured.map(|t| serde_json::from_str(t).unwrap()),
        content: content.iter().map(|s| s.to_string()).collect(),
        is_error,
    };
    assert_eq!(tool_result_to_text(&result(None, &["a", "b"], None)), "a\nb");
    assert_eq!(tool_result_to_text(&result(None, &["a", "b"], Some(false))), "a\nb");
    assert_eq!(
        tool_result_to_text(&result(None, &["a", "b"], Some(true))),
        "MCP tool returned an error:\na\nb"
    );
    assert_eq!(tool_result_to_text(&result(None, &[], None)), "");
    assert_eq!(
        tool_result_to_text(&result(Some("{\"a\":1}"), &["b"], Some(true))),
        "{\n  \"a\": 1\n}"
    );
}

#[test]
fn tools_offered_to_the_model() {
    let schema = serde_json::Value::Object(serde_json::Map::new());
    let tool = openrouter_tool_from_mcp("f".into(), None, schema.clone());
    assert_eq!(tool.kind, "function");
    assert_eq!(tool.description, "");
    assert_eq!(tool.parameters, schema);
    let tool = openrouter_tool_from_mcp("f".into(), Some("does it".into()), schema);
    assert_eq!(tool.description, "does it");
}

#[test]
fn the_command_that_starts_the_server() {
    let args: Vec<String> = vec!["--log-level".into(), "debug".into()];
    let root = Some(PathBuf::from("/root"));
    let given = resolve_server_command(
        Some(PathBuf::from("/given")),
        &args,
        Some(PathBuf::from("/beside")),
        root.clone(),
    );
    assert_eq!(given.program, PathBuf::from("/given"));
    assert_eq!(given.args, args);
    assert_eq!(given.current_dir, None);

    let beside =
        resolve_server_command(None, &args, Some(PathBuf::from("/beside")), root.clone());
    assert_eq!(beside.program, PathBuf::from("/beside"));
    assert_eq!(beside.args, args);
    assert_eq!(beside.current_dir, root);

    let cargo = resolve_server_command(None, &args, None, None);
    assert_eq!(cargo.program, PathBuf::from("cargo"));
    assert_eq!(
        cargo.args,
        vec!["run", "--quiet", "--package", "chess-pos-analyzer", "--", "--log-level", "debug"]
    );
    assert_eq!(cargo.current_dir, None);
    assert_eq!(server_exe_name_for(true), "chess-pos-analyzer.exe");
    assert_eq!(server_exe_name(), server_exe_name_for(std::path::MAIN_SEPARATOR == '\\'));
}

#[test]
fn the_root_of_the_workspace() {
    let manifest = "[workspace]\nmembers = [\"mcp-server\", \"agent\"]\n";
    assert!(is_workspace_manifest(manifest));
    assert!(!is_workspace_manifest("[workspace]\n"));
    assert!(!is_workspace_manifest("mcp-server"));
    let dir = |path: &str, text: Option<&str>| Ancestor {
        dir: PathBuf::from(path),
        manifest: text.map(String::from),
    };
    let cwd = Some(PathBuf::from("/cwd"));
    let found = workspace_root(
        vec![dir("/a/b/c", None), dir("/a/b", Some("[package]")), dir("/a", Some(manifest)), dir("/", Some(manifest))],
        cwd.clone(),
    );
    assert_eq!(found, Some(PathBuf::from("/a")));
    assert_eq!(workspace_root(vec![dir("/a", None)], cwd.clone()), cwd);
    assert_eq!(workspace_root(vec![], None), None);
}
