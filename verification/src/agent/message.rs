//! The messages of a conversation with the model.

use vstd::prelude::*;
use crate::text::maybe_text;

verus! {

/// Which function the model wants called, and its arguments as JSON.
#[derive(Debug)]
pub struct FunctionCall {
    pub name: String,
    pub arguments: String,
}

impl Clone for FunctionCall {
    fn clone(&self) -> (r: FunctionCall)
        ensures
            r.name@ == self.name@,
            r.arguments@ == self.arguments@,
    {
        FunctionCall { name: self.name.clone(), arguments: self.arguments.clone() }
    }
}

/// A tool call of the model.
#[derive(Debug)]
pub struct ToolCall {
    pub id: String,
    pub kind: String,
    pub function: FunctionCall,
}

/// The contents of a `ToolCall`.
pub struct ToolCallView {
    pub id: Seq<char>,
    pub kind: Seq<char>,
    pub name: Seq<char>,
    pub arguments: Seq<char>,
}

impl View for ToolCall {
    type V = ToolCallView;

    open spec fn view(&self) -> ToolCallView {
        ToolCallView {
            id: self.id@,
            kind: self.kind@,
            name: self.function.name@,
            arguments: self.function.arguments@,
        }
    }
}

impl Clone for ToolCall {
    fn clone(&self) -> (r: ToolCall)
        ensures
            r@ == self@,
    {
        ToolCall {
            id: self.id.clone(),
            kind: self.kind.clone(),
            function: self.function.clone(),
        }
    }
}

/// The contents of a list of tool calls.
pub open spec fn calls_view(calls: Seq<ToolCall>) -> Seq<ToolCallView> {
    calls.map_values(|c: ToolCall| c@)
}

/// A copy of a list of tool calls.
pub fn copy_calls(calls: &Vec<ToolCall>) -> (r: Vec<ToolCall>)
    ensures
        calls_view(r@) == calls_view(calls@),
{
    let mut out: Vec<ToolCall> = Vec::new();
    let mut i: usize = 0;
    while i < calls.len()
        invariant
            i <= calls@.len(),
            calls_view(out@) == calls_view(calls@).take(i as int),
        decreases calls.len() - i,
    {
        let ghost before = calls_view(out@);
        out.push(calls[i].clone());
        assert(calls_view(out@) == before.push(calls_view(calls@)[i as int]));
        i = i + 1;
    }
    assert(calls_view(calls@).take(i as int) == calls_view(calls@));
    out
}

/// What the model says.
#[derive(Debug)]
pub struct AssistantMessage {
    pub role: String,
    pub content: Option<String>,
    pub tool_calls: Vec<ToolCall>,
}

/// The contents of an `AssistantMessage`.
pub struct AssistantView {
    pub role: Seq<char>,
    pub content: Option<Seq<char>>,
    pub tool_calls: Seq<ToolCallView>,
}

impl View for AssistantMessage {
    type V = AssistantView;

    open spec fn view(&self) -> AssistantView {
        AssistantView {
            role: self.role@,
            content: maybe_text(self.content),
            tool_calls: calls_view(self.tool_calls@),
        }
    }
}

/// A message of the conversation.
#[derive(Debug)]
pub enum Message {
    System(String),
    User(String),
    Assistant(AssistantMessage),
    Tool { tool_call_id: String, content: String },
}

/// The contents of a `Message`.
pub enum MessageView {
    System(Seq<char>),
    User(Seq<char>),
    Assistant(AssistantView),
    Tool { tool_call_id: Seq<char>, content: Seq<char> },
}

impl View for Message {
    type V = MessageView;

    open spec fn view(&self) -> MessageView {
        match *self {
            Message::System(content) => MessageView::System(content@),
            Message::User(content) => MessageView::User(content@),
            Message::Assistant(message) => MessageView::Assistant(message@),
            Message::Tool { tool_call_id, content } => MessageView::Tool {
                tool_call_id: tool_call_id@,
                content: content@,
            },
        }
    }
}

/// The value of a field of a message on the wire.
#[derive(Debug)]
pub enum Field {
    Null,
    Text(String),
    Calls(Vec<ToolCall>),
}

/// The contents of a `Field`.
pub enum FieldView {
    Null,
    Text(Seq<char>),
    Calls(Seq<ToolCallView>),
}

impl View for Field {
    type V = FieldView;

    open spec fn view(&self) -> FieldView {
        match *self {
            Field::Null => FieldView::Null,
            Field::Text(text) => FieldView::Text(text@),
            Field::Calls(calls) => FieldView::Calls(calls_view(calls@)),
        }
    }
}

/// The contents of the fields of a message.
pub open spec fn fields_view(fields: Seq<(&'static str, Field)>) -> Seq<(Seq<char>, FieldView)> {
    fields.map_values(|f: (&'static str, Field)| (f.0@, f.1@))
}

/// The fields of a message on the wire. What the model said has its content even where
/// there is none, and its tool calls only where there are some.
pub open spec fn wire_fields(message: MessageView) -> Seq<(Seq<char>, FieldView)> {
    match message {
        MessageView::System(content) => seq![
            ("role"@, FieldView::Text("system"@)),
            ("content"@, FieldView::Text(content)),
        ],
        MessageView::User(content) => seq![
            ("role"@, FieldView::Text("user"@)),
            ("content"@, FieldView::Text(content)),
        ],
        MessageView::Assistant(message) => {
            let said = seq![
                ("role"@, FieldView::Text(message.role)),
                (
                    "content"@,
                    match message.content {
                        Some(text) => FieldView::Text(text),
                        None => FieldView::Null,
                    },
                ),
            ];
            if message.tool_calls.len() == 0 {
                said
            } else {
                said.push(("tool_calls"@, FieldView::Calls(message.tool_calls)))
            }
        },
        MessageView::Tool { tool_call_id, content } => seq![
            ("role"@, FieldView::Text("tool"@)),
            ("tool_call_id"@, FieldView::Text(tool_call_id)),
            ("content"@, FieldView::Text(content)),
        ],
    }
}

/// The fields on the wire of what the model said.
pub fn assistant_message_value(message: &AssistantMessage) -> (r: Vec<(&'static str, Field)>)
    ensures
        fields_view(r@) == wire_fields(MessageView::Assistant(message@)),
{
    let mut fields: Vec<(&'static str, Field)> = Vec::new();
    fields.push(("role", Field::Text(message.role.clone())));
    let content = match &message.content {
        Some(text) => Field::Text(text.clone()),
        None => Field::Null,
    };
    fields.push(("content", content));
    if message.tool_calls.len() > 0 {
        fields.push(("tool_calls", Field::Calls(copy_calls(&message.tool_calls))));
    }
    assert(fields_view(fields@) == wire_fields(MessageView::Assistant(message@)));
    fields
}

impl Message {
    /// The fields of the message on the wire.
    pub fn fields(&self) -> (r: Vec<(&'static str, Field)>)
        ensures
            fields_view(r@) == wire_fields(self@),
    {
        let mut fields: Vec<(&'static str, Field)> = Vec::new();
        match self {
            Message::System(content) => {
                fields.push(("role", Field::Text("system".to_owned())));
                fields.push(("content", Field::Text(content.clone())));
            },
            Message::User(content) => {
                fields.push(("role", Field::Text("user".to_owned())));
                fields.push(("content", Field::Text(content.clone())));
            },
            Message::Assistant(message) => {
                return assistant_message_value(message);
            },
            Message::Tool { tool_call_id, content } => {
                fields.push(("role", Field::Text("tool".to_owned())));
                fields.push(("tool_call_id", Field::Text(tool_call_id.clone())));
                fields.push(("content", Field::Text(content.clone())));
            },
        }
        assert(fields_view(fields@) == wire_fields(self@));
        fields
    }
}

/// What the model is told about its task.
pub const SYSTEM_PROMPT: &'static str = "You are a chess analysis agent. Use the provided MCP tools for concrete board state and engine analysis instead of inventing lines or evaluations. If the user gives a FEN, call analyze_position with that FEN. If the user gives a move sequence, create a board and apply moves before analyzing. Use depth 20 and multipv 6 unless the user asks for different analysis settings. Summarize the engine result in practical chess terms and include the main candidate moves, evaluations, and tactical ideas.";

/// What the model is told about its task.
pub fn system_prompt() -> (r: &'static str)
    ensures
        r@ == SYSTEM_PROMPT@,
{
    SYSTEM_PROMPT
}

/// A conversation. It begins with what the model is told about its task.
#[derive(Debug)]
pub struct Conversation {
    messages: Vec<Message>,
}

impl View for Conversation {
    type V = Seq<MessageView>;

    closed spec fn view(&self) -> Seq<MessageView> {
        self.messages@.map_values(|m: Message| m@)
    }
}

/// A conversation in which nothing was said yet.
pub open spec fn fresh_conversation() -> Seq<MessageView> {
    seq![MessageView::System(SYSTEM_PROMPT@)]
}

impl Conversation {
    pub fn new() -> (r: Conversation)
        ensures
            r@ == fresh_conversation(),
    {
        let mut messages: Vec<Message> = Vec::new();
        messages.push(Message::System(system_prompt().to_owned()));
        let conversation = Conversation { messages };
        assert(conversation@ == fresh_conversation());
        conversation
    }

    pub fn len(&self) -> (r: usize)
        ensures
            r == self@.len(),
    {
        self.messages.len()
    }

    /// The messages so far.
    pub fn messages(&self) -> (r: &Vec<Message>)
        ensures
            r@.map_values(|m: Message| m@) == self@,
    {
        &self.messages
    }

    pub fn push(&mut self, message: Message)
        ensures
            final(self)@ == old(self)@.push(message@),
    {
        let ghost before = self@;
        self.messages.push(message);
        assert(self@ == before.push(message@));
    }

    /// Forgets all that was said.
    pub fn reset_conversation(&mut self)
        ensures
            final(self)@ == fresh_conversation(),
    {
        self.messages.clear();
        self.messages.push(Message::System(system_prompt().to_owned()));
        assert(self@ == fresh_conversation());
    }

    /// Opens a turn with what the user says, and gives the number of messages before it.
    pub fn open_turn(&mut self, prompt: &str) -> (r: usize)
        ensures
            r == old(self)@.len(),
            final(self)@ == old(self)@.push(MessageView::User(prompt@)),
    {
        let checkpoint = self.messages.len();
        self.push(Message::User(prompt.to_owned()));
        checkpoint
    }

    /// Forgets what was said after a turn was opened.
    pub fn roll_back(&mut self, checkpoint: usize)
        ensures
            final(self)@ == if checkpoint <= old(self)@.len() {
                old(self)@.take(checkpoint as int)
            } else {
                old(self)@
            },
    {
        let ghost before = self@;
        if checkpoint <= self.messages.len() {
            self.messages.truncate(checkpoint);
            assert(self@ == before.take(checkpoint as int));
        }
    }
}

/// A message goes out with its role first and with all that it holds; what the model said
/// carries the content it had, or null, and its tool calls where there are any.
pub proof fn what_goes_out(message: MessageView)
    ensures
        ({
            let fields = wire_fields(message);
            &&& message matches MessageView::System(content) ==> {
                &&& fields.len() == 2
                &&& fields[0] == ("role"@, FieldView::Text("system"@))
                &&& fields[1] == ("content"@, FieldView::Text(content))
            }
            &&& message matches MessageView::User(content) ==> {
                &&& fields.len() == 2
                &&& fields[0] == ("role"@, FieldView::Text("user"@))
                &&& fields[1] == ("content"@, FieldView::Text(content))
            }
            &&& message matches MessageView::Tool { tool_call_id, content } ==> {
                &&& fields.len() == 3
                &&& fields[0] == ("role"@, FieldView::Text("tool"@))
                &&& fields[1] == ("tool_call_id"@, FieldView::Text(tool_call_id))
                &&& fields[2] == ("content"@, FieldView::Text(content))
            }
            &&& message matches MessageView::Assistant(said) ==> {
                &&& fields.len() == (if said.tool_calls.len() > 0 {
                    3int
                } else {
                    2int
                })
                &&& fields[0] == ("role"@, FieldView::Text(said.role))
                &&& fields[1].0 == "content"@
                &&& said.content matches Some(text) ==> fields[1].1 == FieldView::Text(text)
                &&& said.content is None ==> fields[1].1 is Null
                &&& said.tool_calls.len() > 0 ==> fields[2] == (
                    "tool_calls"@,
                    FieldView::Calls(said.tool_calls),
                )
            }
        }),
{
}

/// Two messages of one kind that go out alike say the same: nothing of a message is left out.
pub proof fn messages_go_out_whole(a: MessageView, b: MessageView)
    requires
        wire_fields(a) == wire_fields(b),
    ensures
        a is System && b is System ==> a == b,
        a is User && b is User ==> a == b,
        a is Tool && b is Tool ==> a == b,
        a matches MessageView::Assistant(x) ==> (b matches MessageView::Assistant(y) ==> x.role
            == y.role && x.content == y.content && x.tool_calls == y.tool_calls),
{
    what_goes_out(a);
    what_goes_out(b);
    if let MessageView::Assistant(x) = a {
        if let MessageView::Assistant(y) = b {
            if x.tool_calls.len() == 0 {
                assert(x.tool_calls == y.tool_calls);
            }
        }
    }
}

} // verus!
