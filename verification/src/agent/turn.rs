//! One turn of the agent: questions to the model and tool calls until there is an answer.

use vstd::prelude::*;
use crate::agent::dialog::DEFAULT_MODEL;
use crate::agent::message::{
    calls_view, copy_calls, AssistantMessage, AssistantView, Conversation, Message, MessageView,
    ToolCall, ToolCallView,
};
use crate::agent::tool::{AgentError, AgentErrorView};
use crate::text::{concat2, concat3, decimal, decimal_text, maybe_text, same_text};

verus! {

/// One of the model's choices.
#[derive(Debug)]
pub struct Choice {
    pub message: AssistantMessage,
}

/// What the model responds.
#[derive(Debug)]
pub struct ChatResponse {
    pub model: Option<String>,
    pub choices: Vec<Choice>,
}

/// The contents of a `ChatResponse`.
pub struct ResponseView {
    pub model: Option<Seq<char>>,
    pub choices: Seq<AssistantView>,
}

impl View for ChatResponse {
    type V = ResponseView;

    open spec fn view(&self) -> ResponseView {
        ResponseView {
            model: maybe_text(self.model),
            choices: self.choices@.map_values(|c: Choice| c.message@),
        }
    }
}

/// How far a turn is.
#[derive(Debug)]
pub struct AgentTurn {
    model: String,
    max_tool_rounds: usize,
    round: usize,
    calls: Vec<ToolCall>,
    done: usize,
}

/// The contents of an `AgentTurn`.
#[verifier::ext_equal]
pub struct TurnView {
    /// The model that was asked for.
    pub model: Seq<char>,
    pub max_tool_rounds: nat,
    /// The rounds that are over.
    pub round: nat,
    /// The tool calls that are still to be made, the next one first.
    pub calls: Seq<ToolCallView>,
}

impl View for AgentTurn {
    type V = TurnView;

    closed spec fn view(&self) -> TurnView {
        TurnView {
            model: self.model@,
            max_tool_rounds: self.max_tool_rounds as nat,
            round: self.round as nat,
            calls: calls_view(self.calls@).skip(self.done as int),
        }
    }
}

/// What to do next in a turn.
#[derive(Debug)]
pub enum TurnAction {
    /// Ask the model.
    Ask,
    /// Make a tool call.
    Call(ToolCall),
    /// The turn ends with an answer.
    Answer(String),
    /// The turn ends without one.
    Fail(String),
}

/// The contents of a `TurnAction`.
pub enum ActionView {
    Ask,
    Call(ToolCallView),
    Answer(Seq<char>),
    Fail(Seq<char>),
}

impl View for TurnAction {
    type V = ActionView;

    open spec fn view(&self) -> ActionView {
        match *self {
            TurnAction::Ask => ActionView::Ask,
            TurnAction::Call(call) => ActionView::Call(call@),
            TurnAction::Answer(text) => ActionView::Answer(text@),
            TurnAction::Fail(message) => ActionView::Fail(message@),
        }
    }
}

/// What is done when a round begins: the model is asked, as long as rounds are left.
pub open spec fn round_action(turn: TurnView) -> ActionView {
    if turn.round < turn.max_tool_rounds {
        ActionView::Ask
    } else {
        ActionView::Fail(
            "agent exceeded "@ + decimal(turn.max_tool_rounds)
                + " tool-call rounds without a final answer"@,
        )
    }
}

/// The answer of a turn: what the model said, and which model it was where the choice was
/// left open.
pub open spec fn answer_text(
    asked: Seq<char>,
    content: Option<Seq<char>>,
    model: Option<Seq<char>>,
) -> Seq<char> {
    let said = match content {
        Some(text) => text,
        None => seq![],
    };
    match model {
        Some(name) => if asked == DEFAULT_MODEL@ {
            said + ("\n\nModel used: "@ + name)
        } else {
            said
        },
        None => said,
    }
}

/// The turn after a response of the model, the message that is added, and what to do. The
/// first choice counts; without a tool call it is the answer.
pub open spec fn after_response(turn: TurnView, response: ResponseView) -> (
    TurnView,
    Seq<MessageView>,
    ActionView,
) {
    if response.choices.len() == 0 {
        (turn, seq![], ActionView::Fail("OpenRouter returned no choices"@))
    } else {
        let said = response.choices[0];
        let added = seq![MessageView::Assistant(said)];
        if said.tool_calls.len() == 0 {
            (
                turn,
                added,
                ActionView::Answer(answer_text(turn.model, said.content, response.model)),
            )
        } else {
            (
                TurnView { calls: said.tool_calls, ..turn },
                added,
                ActionView::Call(said.tool_calls[0]),
            )
        }
    }
}

/// The turn after the result of the next tool call, the message that is added, and what to
/// do: the next call, or a new round.
pub open spec fn after_result(turn: TurnView, result: Seq<char>) -> (
    TurnView,
    Seq<MessageView>,
    ActionView,
) {
    let added = seq![MessageView::Tool { tool_call_id: turn.calls[0].id, content: result }];
    let rest = TurnView { calls: turn.calls.skip(1), ..turn };
    if rest.calls.len() > 0 {
        (rest, added, ActionView::Call(rest.calls[0]))
    } else {
        let next = TurnView { round: turn.round + 1, ..rest };
        (next, added, round_action(next))
    }
}

/// A turn before the model was asked.
pub open spec fn fresh_turn(model: Seq<char>, max_tool_rounds: nat) -> TurnView {
    TurnView { model, max_tool_rounds, round: 0, calls: seq![] }
}

impl AgentTurn {
    /// The number of calls made is at most that of the calls, and rounds are left while
    /// there are calls.
    pub closed spec fn well_formed(&self) -> bool {
        &&& self.done <= self.calls@.len()
        &&& self.done < self.calls@.len() ==> self.round < self.max_tool_rounds
    }

    /// Begins a turn.
    pub fn new(model: String, max_tool_rounds: usize) -> (r: (AgentTurn, TurnAction))
        ensures
            r.0.well_formed(),
            r.0@ == fresh_turn(model@, max_tool_rounds as nat),
            r.1@ == round_action(r.0@),
    {
        let calls: Vec<ToolCall> = Vec::new();
        let turn = AgentTurn { model, max_tool_rounds, round: 0, calls, done: 0 };
        assert(turn@.calls == Seq::<ToolCallView>::empty());
        let action = turn.begin_round();
        (turn, action)
    }

    fn begin_round(&self) -> (r: TurnAction)
        ensures
            r@ == round_action(self@),
    {
        if self.round < self.max_tool_rounds {
            TurnAction::Ask
        } else {
            TurnAction::Fail(
                concat3(
                    "agent exceeded ",
                    decimal_text(self.max_tool_rounds as u64).as_str(),
                    " tool-call rounds without a final answer",
                ),
            )
        }
    }

    /// Whether a tool call is to be made.
    pub fn has_call(&self) -> (r: bool)
        requires
            self.well_formed(),
        ensures
            r == (self@.calls.len() > 0),
    {
        self.done < self.calls.len()
    }

    /// Whether the model may be asked.
    pub fn may_ask(&self) -> (r: bool)
        requires
            self.well_formed(),
        ensures
            r == (self@.calls.len() == 0 && self@.round < self@.max_tool_rounds),
    {
        self.done >= self.calls.len() && self.round < self.max_tool_rounds
    }

    /// Takes a response of the model in.
    pub fn response(&mut self, conversation: &mut Conversation, response: ChatResponse) -> (r:
        TurnAction)
        requires
            old(self).well_formed(),
            old(self)@.calls.len() == 0,
            old(self)@.round < old(self)@.max_tool_rounds,
        ensures
            final(self).well_formed(),
            ({
                let (turn, added, action) = after_response(old(self)@, response@);
                &&& final(self)@ == turn
                &&& final(conversation)@ == old(conversation)@ + added
                &&& r@ == action
            }),
    {
        let ghost view = response@;
        let ghost before = conversation@;
        let ghost turn = self@;
        let model = response.model;
        let mut choices = response.choices;
        if choices.len() == 0 {
            assert(before + Seq::<MessageView>::empty() == before);
            return TurnAction::Fail("OpenRouter returned no choices".to_owned());
        }
        let choice = choices.remove(0);
        let assistant = choice.message;
        assert(view.choices[0] == assistant@);
        let calls = copy_calls(&assistant.tool_calls);
        let answer = if calls.len() == 0 {
            Some(self.answer(&assistant.content, &model))
        } else {
            None
        };
        conversation.push(Message::Assistant(assistant));
        assert(conversation@ == before + seq![MessageView::Assistant(view.choices[0])]);
        match answer {
            Some(text) => TurnAction::Answer(text),
            None => {
                let call = calls[0].clone();
                self.calls = calls;
                self.done = 0;
                assert(self@.calls == calls_view(calls@));
                assert(self@ == (TurnView { calls: calls_view(calls@), ..turn }));
                TurnAction::Call(call)
            },
        }
    }

    fn answer(&self, content: &Option<String>, model: &Option<String>) -> (r: String)
        ensures
            r@ == answer_text(self@.model, maybe_text(*content), maybe_text(*model)),
    {
        let said = match content {
            Some(text) => text.clone(),
            None => {
                let empty = String::new();
                assert(empty@ == Seq::<char>::empty());
                empty
            },
        };
        match model {
            Some(name) => {
                if same_text(self.model.as_str(), DEFAULT_MODEL) {
                    concat2(
                        said.as_str(),
                        concat2("\n\nModel used: ", name.as_str()).as_str(),
                    )
                } else {
                    said
                }
            },
            None => said,
        }
    }

    /// Takes the result of the next tool call in.
    pub fn tool_result(&mut self, conversation: &mut Conversation, result: String) -> (r:
        TurnAction)
        requires
            old(self).well_formed(),
            old(self)@.calls.len() > 0,
        ensures
            final(self).well_formed(),
            ({
                let (turn, added, action) = after_result(old(self)@, result@);
                &&& final(self)@ == turn
                &&& final(conversation)@ == old(conversation)@ + added
                &&& r@ == action
            }),
    {
        let ghost before = conversation@;
        let ghost turn = self@;
        let ghost all = calls_view(self.calls@);
        assert(self.done < self.calls.len());
        let id = self.calls[self.done].id.clone();
        assert(turn.calls[0] == all[self.done as int]);
        conversation.push(Message::Tool { tool_call_id: id, content: result });
        assert(conversation@ == before + seq![
            MessageView::Tool { tool_call_id: turn.calls[0].id, content: result@ },
        ]);
        self.done = self.done + 1;
        assert(self@.calls == turn.calls.skip(1));
        if self.done < self.calls.len() {
            assert(self@.calls[0] == all[self.done as int]);
            TurnAction::Call(self.calls[self.done].clone())
        } else {
            self.round = self.round + 1;
            self.begin_round()
        }
    }
}

/// The body of the model's response, or the error of a request that was not successful.
pub fn response_body(success: bool, status: &str, body: String) -> (r: Result<String, AgentError>)
    ensures
        match r {
            Ok(text) => success && text@ == body@,
            Err(e) => !success && e@ == (AgentErrorView {
                message: "OpenRouter request failed with "@ + status@ + ": "@ + body@,
                cause: None,
            }),
        },
{
    if success {
        Ok(body)
    } else {
        Err(
            AgentError {
                message: concat3("OpenRouter request failed with ", status, ": ").concat(
                    body.as_str(),
                ),
                cause: None,
            },
        )
    }
}

/// What comes in during a turn.
pub enum TurnEventView {
    Response(ResponseView),
    ToolResult(Seq<char>),
}

/// The turn after an event, the messages added, and what to do.
pub open spec fn turn_step(turn: TurnView, event: TurnEventView) -> (
    TurnView,
    Seq<MessageView>,
    ActionView,
) {
    match event {
        TurnEventView::Response(response) => after_response(turn, response),
        TurnEventView::ToolResult(result) => after_result(turn, result),
    }
}

/// The messages of a conversation after the events of a turn.
pub open spec fn after_events(
    messages: Seq<MessageView>,
    turn: TurnView,
    events: Seq<TurnEventView>,
) -> Seq<MessageView>
    decreases events.len(),
{
    if events.len() == 0 {
        messages
    } else {
        let (next, added, _) = turn_step(turn, events[0]);
        after_events(messages + added, next, events.skip(1))
    }
}

/// A turn only adds to the conversation: what was said before stays, so that a turn that
/// fails can be forgotten by going back to where it began.
pub proof fn turn_only_adds(
    messages: Seq<MessageView>,
    turn: TurnView,
    events: Seq<TurnEventView>,
)
    ensures
        after_events(messages, turn, events).len() >= messages.len(),
        after_events(messages, turn, events).take(messages.len() as int) == messages,
    decreases events.len(),
{
    if events.len() == 0 {
        assert(messages.take(messages.len() as int) == messages);
    } else {
        let (next, added, _) = turn_step(turn, events[0]);
        turn_only_adds(messages + added, next, events.skip(1));
        let after = after_events(messages, turn, events);
        assert(after.take(messages.len() as int) == after.take(
            (messages + added).len() as int,
        ).take(messages.len() as int));
        assert((messages + added).take(messages.len() as int) == messages);
    }
}

/// A turn that fails leaves no trace: going back to where it was opened gives the
/// conversation before it.
pub proof fn failed_turn_is_forgotten(
    messages: Seq<MessageView>,
    prompt: Seq<char>,
    turn: TurnView,
    events: Seq<TurnEventView>,
)
    ensures
        after_events(messages.push(MessageView::User(prompt)), turn, events).take(
            messages.len() as int,
        ) == messages,
{
    let opened = messages.push(MessageView::User(prompt));
    turn_only_adds(opened, turn, events);
    let after = after_events(opened, turn, events);
    assert(after.take(messages.len() as int) == after.take(opened.len() as int).take(
        messages.len() as int,
    ));
    assert(opened.take(messages.len() as int) == messages);
}

/// Whether a turn waits for this kind of event.
pub open spec fn waits_for(turn: TurnView, event: TurnEventView) -> bool {
    &&& turn.round < turn.max_tool_rounds
    &&& event is Response <==> turn.calls.len() == 0
}

/// How often the model is asked again over the events of a turn, up to its end.
pub open spec fn times_asked(turn: TurnView, events: Seq<TurnEventView>) -> nat
    decreases events.len(),
{
    if events.len() == 0 || !waits_for(turn, events[0]) {
        0
    } else {
        let (next, _, action) = turn_step(turn, events[0]);
        match action {
            ActionView::Ask => 1 + times_asked(next, events.skip(1)),
            ActionView::Call(_) => times_asked(next, events.skip(1)),
            _ => 0,
        }
    }
}

/// The model is asked at most as often as rounds are allowed, the first time included.
pub proof fn rounds_are_bounded(
    model: Seq<char>,
    max_tool_rounds: nat,
    events: Seq<TurnEventView>,
)
    ensures
        round_action(fresh_turn(model, max_tool_rounds)) is Ask ==> 1 + times_asked(
            fresh_turn(model, max_tool_rounds),
            events,
        ) <= max_tool_rounds,
{
    if max_tool_rounds > 0 {
        lemma_times_asked(fresh_turn(model, max_tool_rounds), events);
    }
}

proof fn lemma_times_asked(turn: TurnView, events: Seq<TurnEventView>)
    requires
        turn.round < turn.max_tool_rounds,
    ensures
        turn.round + times_asked(turn, events) < turn.max_tool_rounds,
    decreases events.len(),
{
    if events.len() > 0 && waits_for(turn, events[0]) {
        let (next, _, action) = turn_step(turn, events[0]);
        if action is Ask || action is Call {
            lemma_times_asked(next, events.skip(1));
        }
    }
}

/// Whether a turn goes through these states while the results of its tool calls come in.
pub open spec fn takes_in(states: Seq<TurnView>, results: Seq<Seq<char>>) -> bool {
    &&& states.len() == results.len() + 1
    &&& states[0].calls.len() == results.len()
    &&& forall|k: int|
        0 <= k < results.len() ==> (#[trigger] after_result(states[k], results[k])).0
            == states[k + 1]
}

/// The calls of a round are made one after the other, in the order in which the model made
/// them. Each result is told to the model under the identifier of its own call. After the
/// last one a new round begins, if one is left; all else of the turn stays as it was.
pub proof fn calls_are_made_in_order(states: Seq<TurnView>, results: Seq<Seq<char>>, k: int)
    requires
        takes_in(states, results),
        0 <= k < results.len(),
    ensures
        ({
            let calls = states[0].calls;
            let (next, added, action) = after_result(states[k], results[k]);
            &&& added.len() == 1
            &&& added[0] == (MessageView::Tool { tool_call_id: calls[k].id, content: results[k] })
            &&& next.model == states[0].model
            &&& next.max_tool_rounds == states[0].max_tool_rounds
            &&& k + 1 < calls.len() ==> action == ActionView::Call(calls[k + 1]) && next.round
                == states[0].round
            &&& k + 1 == calls.len() ==> {
                &&& next.round == states[0].round + 1
                &&& next.calls.len() == 0
                &&& next.round < next.max_tool_rounds ==> action is Ask
                &&& next.round >= next.max_tool_rounds ==> action == ActionView::Fail(
                    "agent exceeded "@ + decimal(next.max_tool_rounds)
                        + " tool-call rounds without a final answer"@,
                )
            }
        }),
{
    lemma_calls_left(states, results, k);
}

proof fn lemma_calls_left(states: Seq<TurnView>, results: Seq<Seq<char>>, k: int)
    requires
        takes_in(states, results),
        0 <= k < results.len(),
    ensures
        states[k].calls == states[0].calls.skip(k),
        states[k].model == states[0].model,
        states[k].max_tool_rounds == states[0].max_tool_rounds,
        states[k].round == states[0].round,
    decreases k,
{
    if k > 0 {
        let m = k - 1;
        lemma_calls_left(states, results, m);
        assert(after_result(states[m], results[m]).0 == states[m + 1]);
        assert(states[0].calls.skip(m).skip(1) == states[0].calls.skip(k));
    } else {
        assert(states[0].calls.skip(0) == states[0].calls);
    }
}

/// What the model says first is what counts. It becomes part of the conversation; with tool
/// calls, all of them are to be made and the first is made next; without any, it is the
/// answer. A response without a choice ends the turn and adds nothing.
pub proof fn what_a_response_leads_to(turn: TurnView, response: ResponseView)
    ensures
        ({
            let (next, added, action) = after_response(turn, response);
            &&& next.model == turn.model
            &&& next.max_tool_rounds == turn.max_tool_rounds
            &&& next.round == turn.round
            &&& response.choices.len() == 0 ==> next == turn && added.len() == 0 && action
                == ActionView::Fail("OpenRouter returned no choices"@)
            &&& response.choices.len() > 0 ==> {
                let said = response.choices[0];
                &&& added.len() == 1
                &&& added[0] == MessageView::Assistant(said)
                &&& said.tool_calls.len() > 0 ==> next.calls == said.tool_calls && action
                    == ActionView::Call(said.tool_calls[0])
                &&& said.tool_calls.len() == 0 ==> next == turn && action is Answer
            }
        }),
{
}

/// The answer is what the model said, in full. Where the choice of the model was left open,
/// and only there, it ends with the name of the model that answered, if that is known.
pub proof fn what_the_answer_is(turn: TurnView, response: ResponseView, said: Seq<char>)
    requires
        response.choices.len() > 0,
        response.choices[0].tool_calls.len() == 0,
        response.choices[0].content == Some(said) || (response.choices[0].content is None
            && said.len() == 0),
    ensures
        ({
            let answer = after_response(turn, response).2;
            &&& turn.model == "openrouter/auto"@ ==> (response.model matches Some(name) ==> answer
                == ActionView::Answer(said + "\n\nModel used: "@ + name))
            &&& turn.model != "openrouter/auto"@ || response.model is None ==> answer
                == ActionView::Answer(said)
        }),
{
    assert(response.choices[0].content is None ==> said == Seq::<char>::empty());
    if let Some(name) = response.model {
        assert(said + ("\n\nModel used: "@ + name) == said + "\n\nModel used: "@ + name);
    }
}

/// A turn begins with a question to the model, unless no round is allowed at all.
pub proof fn how_a_turn_begins(model: Seq<char>, max_tool_rounds: nat)
    ensures
        ({
            let turn = fresh_turn(model, max_tool_rounds);
            &&& turn.model == model
            &&& turn.max_tool_rounds == max_tool_rounds
            &&& turn.round == 0
            &&& turn.calls.len() == 0
            &&& max_tool_rounds > 0 ==> round_action(turn) is Ask
            &&& max_tool_rounds == 0 ==> round_action(turn) == ActionView::Fail(
                "agent exceeded "@ + decimal(0) + " tool-call rounds without a final answer"@,
            )
        }),
{
}

} // verus!
