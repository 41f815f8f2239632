//! The dialogue with which a fresh engine is made ready.

use vstd::prelude::*;
use crate::engine::{default_options, default_uci_options, DEFAULT_MULTIPV};
use crate::error::{ChessError, ChessErrorView};
use crate::options::{
    names_ascend, option_value, set_then_read, with_option, OptionView, UciOptions,
};
use crate::text::{
    begins_with, concat3, decimal, decimal_text, is_word, join, same_text, text_begins_with,
    text_from, texts, trim_text, trimmed, what_joining_gives, words, words_of_join,
};

verus! {

/// An engine that is up: the name it gave and the options it was given.
#[derive(Debug)]
pub struct Running {
    pub name: String,
    pub uci_options: UciOptions,
}

/// The contents of a `Running`.
pub struct RunningView {
    pub name: Seq<char>,
    pub uci_options: Seq<OptionView>,
}

impl View for Running {
    type V = RunningView;

    open spec fn view(&self) -> RunningView {
        RunningView { name: self.name@, uci_options: self.uci_options@ }
    }
}

/// What is waited for.
#[derive(Debug, Clone, Copy, PartialEq, Eq, Structural)]
pub enum Awaited {
    Uciok,
    Readyok,
}

/// How far the dialogue is.
#[derive(Debug)]
pub struct Handshake {
    expected_path: String,
    awaited: Awaited,
    name: String,
}

/// The contents of a `Handshake`.
pub struct HandshakeView {
    pub expected_path: Seq<char>,
    pub awaited: Awaited,
    pub name: Seq<char>,
}

impl View for Handshake {
    type V = HandshakeView;

    closed spec fn view(&self) -> HandshakeView {
        HandshakeView {
            expected_path: self.expected_path@,
            awaited: self.awaited,
            name: self.name@,
        }
    }
}

/// What comes from the engine while something is waited for.
#[derive(Debug)]
pub enum HandshakeEvent {
    /// A line, without its end.
    Line(String),
    /// The engine closed its output.
    Closed,
    /// The time ran out while a line was waited for.
    Expired,
    /// There was no time left to wait.
    Late,
}

/// The contents of a `HandshakeEvent`.
pub enum HandshakeEventView {
    Line(Seq<char>),
    Closed,
    Expired,
    Late,
}

impl View for HandshakeEvent {
    type V = HandshakeEventView;

    open spec fn view(&self) -> HandshakeEventView {
        match *self {
            HandshakeEvent::Line(line) => HandshakeEventView::Line(line@),
            HandshakeEvent::Closed => HandshakeEventView::Closed,
            HandshakeEvent::Expired => HandshakeEventView::Expired,
            HandshakeEvent::Late => HandshakeEventView::Late,
        }
    }
}

/// What to do next.
#[derive(Debug)]
pub enum HandshakeStep {
    /// Wait on.
    Wait,
    /// Send these lines, then wait with the full time again.
    Send(Vec<String>),
    /// The engine is ready.
    Ready(Running),
    /// The engine cannot be used.
    Fail(ChessError),
}

/// The contents of a `HandshakeStep`.
pub enum HandshakeStepView {
    Wait,
    Send(Seq<Seq<char>>),
    Ready(RunningView),
    Fail(ChessErrorView),
}

impl View for HandshakeStep {
    type V = HandshakeStepView;

    open spec fn view(&self) -> HandshakeStepView {
        match *self {
            HandshakeStep::Wait => HandshakeStepView::Wait,
            HandshakeStep::Send(lines) => HandshakeStepView::Send(texts(lines@)),
            HandshakeStep::Ready(running) => HandshakeStepView::Ready(running@),
            HandshakeStep::Fail(e) => HandshakeStepView::Fail(e@),
        }
    }
}

/// The line that sets an option.
pub open spec fn option_line(name: Seq<char>, value: Seq<char>) -> Seq<char> {
    "setoption name "@ + name + " value "@ + value
}

/// The line that sets an option.
pub fn set_option(name: &str, value: &str) -> (r: String)
    ensures
        r@ == option_line(name@, value@),
{
    concat3("setoption name ", name, " value ").concat(value)
}

/// The options of an engine that is ready: the defaults and the number of candidates.
pub open spec fn ready_options() -> Seq<OptionView> {
    with_option(default_options(), "MultiPV"@, decimal(DEFAULT_MULTIPV as nat))
}

/// The lines that configure an engine and ask whether it is ready.
pub open spec fn configuration() -> Seq<Seq<char>> {
    default_options().map_values(|o: OptionView| option_line(o.0, o.1)) + seq![
        option_line("MultiPV"@, decimal(DEFAULT_MULTIPV as nat)),
        "isready"@,
    ]
}

/// The error of an engine that cannot be used.
pub open spec fn unavailable(message: Seq<char>, expected_path: Seq<char>) -> ChessErrorView {
    ChessErrorView::EngineUnavailable { message, expected_path }
}

/// The dialogue after an event, and what to do. The engine's name is taken from its last
/// `id name` line before `uciok`.
pub open spec fn handshake_step(state: HandshakeView, event: HandshakeEventView) -> (
    HandshakeView,
    HandshakeStepView,
) {
    match state.awaited {
        Awaited::Uciok => match event {
            HandshakeEventView::Line(line) => if begins_with(line, "id name "@) {
                (
                    HandshakeView { name: trimmed(line.skip("id name "@.len() as int)), ..state },
                    HandshakeStepView::Wait,
                )
            } else if trimmed(line) == "uciok"@ {
                (
                    HandshakeView { awaited: Awaited::Readyok, ..state },
                    HandshakeStepView::Send(configuration()),
                )
            } else {
                (state, HandshakeStepView::Wait)
            },
            HandshakeEventView::Closed | HandshakeEventView::Expired => (
                state,
                HandshakeStepView::Fail(
                    unavailable("engine closed before uciok"@, state.expected_path),
                ),
            ),
            HandshakeEventView::Late => (
                state,
                HandshakeStepView::Fail(
                    unavailable("did not receive uciok in time"@, state.expected_path),
                ),
            ),
        },
        Awaited::Readyok => match event {
            HandshakeEventView::Line(line) => if line == "readyok"@ {
                (
                    state,
                    HandshakeStepView::Ready(
                        RunningView { name: state.name, uci_options: ready_options() },
                    ),
                )
            } else {
                (state, HandshakeStepView::Wait)
            },
            _ => (
                state,
                HandshakeStepView::Fail(
                    unavailable("engine did not respond with readyok"@, state.expected_path),
                ),
            ),
        },
    }
}

/// The dialogue before anything came from the engine.
pub open spec fn fresh_handshake(expected_path: Seq<char>) -> HandshakeView {
    HandshakeView { expected_path, awaited: Awaited::Uciok, name: "Stockfish"@ }
}

impl Handshake {
    /// The dialogue with an engine at some path.
    pub fn new(expected_path: String) -> (r: Handshake)
        ensures
            r@ == fresh_handshake(expected_path@),
    {
        Handshake { expected_path, awaited: Awaited::Uciok, name: "Stockfish".to_owned() }
    }

    /// The line that opens the dialogue.
    pub fn opening(&self) -> (r: &'static str)
        ensures
            r@ == "uci"@,
    {
        "uci"
    }

    fn fail(&self, message: &str) -> (r: HandshakeStep)
        ensures
            r@ == HandshakeStepView::Fail(unavailable(message@, self@.expected_path)),
    {
        HandshakeStep::Fail(
            ChessError::EngineUnavailable {
                message: message.to_owned(),
                expected_path: self.expected_path.clone(),
            },
        )
    }

    /// Takes an event in and says what to do.
    pub fn step(&mut self, event: &HandshakeEvent) -> (r: HandshakeStep)
        ensures
            (final(self)@, r@) == handshake_step(old(self)@, event@),
            r matches HandshakeStep::Ready(running) ==> names_ascend(running.uci_options@),
    {
        match self.awaited {
            Awaited::Uciok => match event {
                HandshakeEvent::Line(line) => {
                    if text_begins_with(line.as_str(), "id name ") {
                        proof {
                            reveal_strlit("id name ");
                        }
                        self.name = trim_text(text_from(line.as_str(), 8).as_str());
                        HandshakeStep::Wait
                    } else if same_text(trim_text(line.as_str()).as_str(), "uciok") {
                        self.awaited = Awaited::Readyok;
                        HandshakeStep::Send(configuration_lines())
                    } else {
                        HandshakeStep::Wait
                    }
                },
                HandshakeEvent::Closed | HandshakeEvent::Expired => self.fail(
                    "engine closed before uciok",
                ),
                HandshakeEvent::Late => self.fail("did not receive uciok in time"),
            },
            Awaited::Readyok => match event {
                HandshakeEvent::Line(line) => {
                    if same_text(line.as_str(), "readyok") {
                        let mut options = default_uci_options();
                        options.insert("MultiPV".to_owned(), decimal_text(DEFAULT_MULTIPV as u64));
                        HandshakeStep::Ready(
                            Running { name: self.name.clone(), uci_options: options },
                        )
                    } else {
                        HandshakeStep::Wait
                    }
                },
                _ => self.fail("engine did not respond with readyok"),
            },
        }
    }
}

/// The lines that configure an engine and ask whether it is ready.
pub fn configuration_lines() -> (r: Vec<String>)
    ensures
        texts(r@) == configuration(),
{
    let options = default_uci_options();
    let ghost wanted = default_options().map_values(|o: OptionView| option_line(o.0, o.1));
    let mut lines: Vec<String> = Vec::new();
    let mut i: usize = 0;
    while i < options.len()
        invariant
            i <= options@.len(),
            options@ == default_options(),
            wanted == default_options().map_values(|o: OptionView| option_line(o.0, o.1)),
            texts(lines@) == wanted.take(i as int),
        decreases options@.len() - i,
    {
        let ghost before = texts(lines@);
        lines.push(set_option(options.name(i), options.value(i)));
        assert(texts(lines@) == before.push(wanted[i as int]));
        i = i + 1;
    }
    assert(wanted.take(i as int) == wanted);
    let ghost before = texts(lines@);
    lines.push(set_option("MultiPV", decimal_text(DEFAULT_MULTIPV as u64).as_str()));
    lines.push("isready".to_owned());
    assert(texts(lines@) == before.push(
        option_line("MultiPV"@, decimal(DEFAULT_MULTIPV as nat)),
    ).push("isready"@));
    assert(texts(lines@) == configuration());
    lines
}

/// The end of a dialogue over a sequence of events: how it ended, if it did.
pub open spec fn handshake_end(state: HandshakeView, events: Seq<HandshakeEventView>) -> Option<
    HandshakeStepView,
>
    decreases events.len(),
{
    if events.len() == 0 {
        None
    } else {
        let (next, step) = handshake_step(state, events[0]);
        match step {
            HandshakeStepView::Ready(_) | HandshakeStepView::Fail(_) => Some(step),
            _ => handshake_end(next, events.skip(1)),
        }
    }
}

/// An engine is ready only after it answered `uciok`, and after that `readyok`.
pub proof fn ready_after_both_answers(
    expected_path: Seq<char>,
    events: Seq<HandshakeEventView>,
)
    requires
        handshake_end(fresh_handshake(expected_path), events) matches Some(
            HandshakeStepView::Ready(_),
        ),
    ensures
        exists|i: int, j: int|
            0 <= i < j < events.len() && is_uciok(#[trigger] events[i]) && is_readyok(
                #[trigger] events[j],
            ),
{
    lemma_ready_after_both(fresh_handshake(expected_path), events);
}

/// The answer to `uci`.
pub open spec fn is_uciok(event: HandshakeEventView) -> bool {
    event matches HandshakeEventView::Line(line) && trimmed(line) == "uciok"@
}

/// The answer to `isready`.
pub open spec fn is_readyok(event: HandshakeEventView) -> bool {
    event == HandshakeEventView::Line("readyok"@)
}

proof fn lemma_ready_after_readyok(state: HandshakeView, events: Seq<HandshakeEventView>) -> (j: int)
    requires
        state.awaited == Awaited::Readyok,
        handshake_end(state, events) matches Some(HandshakeStepView::Ready(_)),
    ensures
        0 <= j < events.len(),
        is_readyok(events[j]),
    decreases events.len(),
{
    let (next, step) = handshake_step(state, events[0]);
    if step is Ready {
        0
    } else {
        let j = lemma_ready_after_readyok(next, events.skip(1));
        assert(events.skip(1)[j] == events[j + 1]);
        j + 1
    }
}

proof fn lemma_ready_after_both(state: HandshakeView, events: Seq<HandshakeEventView>) -> (r: (
    int,
    int,
))
    requires
        state.awaited == Awaited::Uciok,
        handshake_end(state, events) matches Some(HandshakeStepView::Ready(_)),
    ensures
        0 <= r.0 < r.1 < events.len(),
        is_uciok(events[r.0]),
        is_readyok(events[r.1]),
    decreases events.len(),
{
    let (next, step) = handshake_step(state, events[0]);
    if step is Send {
        let j = lemma_ready_after_readyok(next, events.skip(1));
        assert(events.skip(1)[j] == events[j + 1]);
        (0, j + 1)
    } else {
        let (i, j) = lemma_ready_after_both(next, events.skip(1));
        assert(events.skip(1)[i] == events[i + 1]);
        assert(events.skip(1)[j] == events[j + 1]);
        (i + 1, j + 1)
    }
}

/// An engine that is ready has the default options and the default number of candidates,
/// whatever it said in between.
pub proof fn ready_with_the_defaults(expected_path: Seq<char>, events: Seq<HandshakeEventView>)
    ensures
        handshake_end(fresh_handshake(expected_path), events) matches Some(
            HandshakeStepView::Ready(running),
        ) ==> running.uci_options == ready_options(),
{
    lemma_ready_options(fresh_handshake(expected_path), events);
}

proof fn lemma_ready_options(state: HandshakeView, events: Seq<HandshakeEventView>)
    ensures
        handshake_end(state, events) matches Some(HandshakeStepView::Ready(running))
            ==> running.uci_options == ready_options(),
    decreases events.len(),
{
    if events.len() > 0 {
        let (next, step) = handshake_step(state, events[0]);
        lemma_ready_options(next, events.skip(1));
    }
}

/// Whether a dialogue that has just begun goes through these states while the engine, asked
/// for `uciok`, writes these lines without giving it.
pub open spec fn hears(
    expected_path: Seq<char>,
    states: Seq<HandshakeView>,
    lines: Seq<Seq<char>>,
) -> bool {
    &&& states.len() == lines.len() + 1
    &&& states[0] == fresh_handshake(expected_path)
    &&& forall|k: int|
        0 <= k < lines.len() ==> #[trigger] handshake_step(
            states[k],
            HandshakeEventView::Line(lines[k]),
        ) == (states[k + 1], HandshakeStepView::Wait)
}

/// Whether one of the lines gives a name, and is the last of them that does.
pub open spec fn last_naming(lines: Seq<Seq<char>>, n: int, k: int) -> bool {
    &&& 0 <= k < n
    &&& begins_with(lines[k], "id name "@)
    &&& forall|j: int| k < j < n ==> !begins_with(#[trigger] lines[j], "id name "@)
}

/// The engine has the name that its last `id name` line gave, without white space around it,
/// and until it gave one the name `Stockfish`. No line before `uciok` changes anything else.
pub proof fn engine_has_the_name_it_gave(
    expected_path: Seq<char>,
    states: Seq<HandshakeView>,
    lines: Seq<Seq<char>>,
    n: int,
)
    requires
        hears(expected_path, states, lines),
        0 <= n <= lines.len(),
    ensures
        states[n].awaited == Awaited::Uciok,
        states[n].expected_path == expected_path,
        forall|k: int| #[trigger]
            last_naming(lines, n, k) ==> states[n].name == trimmed(lines[k].skip(8)),
        (forall|k: int| 0 <= k < n ==> !begins_with(#[trigger] lines[k], "id name "@))
            ==> states[n].name == "Stockfish"@,
    decreases n,
{
    if n > 0 {
        reveal_strlit("id name ");
        let m = n - 1;
        engine_has_the_name_it_gave(expected_path, states, lines, m);
        assert(handshake_step(states[m], HandshakeEventView::Line(lines[m])) == (
            states[m + 1],
            HandshakeStepView::Wait,
        ));
        assert forall|k: int| #[trigger] last_naming(lines, n, k) implies states[n].name == trimmed(
            lines[k].skip(8),
        ) by {
            if k < m {
                assert(!begins_with(lines[m], "id name "@));
                assert(last_naming(lines, m, k));
            }
        }
    }
}

/// What the engine says while `uciok` is waited for: a line that gives a name is noted, and
/// `uciok`, alone on its line, has the configuration sent. Any other line is passed over.
pub proof fn what_is_heard_before_uciok(state: HandshakeView, line: Seq<char>)
    requires
        state.awaited == Awaited::Uciok,
    ensures
        ({
            let (next, step) = handshake_step(state, HandshakeEventView::Line(line));
            &&& step is Wait || step is Send
            &&& step is Send <==> trimmed(line) == "uciok"@ && !begins_with(line, "id name "@)
            &&& step is Send ==> next == HandshakeView { awaited: Awaited::Readyok, ..state }
            &&& step is Wait && !begins_with(line, "id name "@) ==> next == state
        }),
{
}

/// The configuration sets every default option and the number of candidates, and asks last
/// whether the engine is ready.
pub proof fn what_the_configuration_sets()
    ensures
        configuration().len() == default_options().len() + 2,
        forall|i: int|
            0 <= i < default_options().len() ==> #[trigger] configuration()[i]
                == "setoption name "@ + default_options()[i].0 + " value "@
                + default_options()[i].1,
        configuration()[configuration().len() - 2] == "setoption name "@ + "MultiPV"@ + " value "@
            + decimal(6),
        configuration().last() == "isready"@,
        forall|state: HandshakeView, event: HandshakeEventView|
            (#[trigger] handshake_step(state, event)).1 is Send ==> handshake_step(state, event).1
                == HandshakeStepView::Send(configuration()),
{
}

/// Once it is configured only `readyok` counts, and it makes the engine ready, under the name
/// it gave, with the default options and six candidates.
pub proof fn what_makes_an_engine_ready(state: HandshakeView, line: Seq<char>)
    requires
        state.awaited == Awaited::Readyok,
    ensures
        ({
            let (next, step) = handshake_step(state, HandshakeEventView::Line(line));
            &&& next == state
            &&& step is Ready <==> line == "readyok"@
            &&& step is Ready || step is Wait
            &&& step matches HandshakeStepView::Ready(running) ==> {
                &&& running.name == state.name
                &&& option_value(running.uci_options, "MultiPV"@) == Some(decimal(6))
                &&& forall|name: Seq<char>|
                    name != "MultiPV"@ ==> #[trigger] option_value(running.uci_options, name)
                        == option_value(default_options(), name)
            }
        }),
{
    assert forall|name: Seq<char>| name != "MultiPV"@ implies #[trigger] option_value(
        ready_options(),
        name,
    ) == option_value(default_options(), name) by {
        set_then_read(default_options(), "MultiPV"@, decimal(6), name);
    }
    set_then_read(default_options(), "MultiPV"@, decimal(6), "MultiPV"@);
}

/// An engine that ends, or does not answer in time, cannot be used; the error says what was
/// waited for, and where the engine is.
pub proof fn how_a_handshake_fails(state: HandshakeView, event: HandshakeEventView)
    requires
        !(event is Line),
    ensures
        handshake_step(state, event).0 == state,
        handshake_step(state, event).1 == HandshakeStepView::Fail(
            ChessErrorView::EngineUnavailable {
                message: if state.awaited == Awaited::Readyok {
                    "engine did not respond with readyok"@
                } else if event is Late {
                    "did not receive uciok in time"@
                } else {
                    "engine closed before uciok"@
                },
                expected_path: state.expected_path,
            },
        ),
{
}

/// The line that sets an option names it and its value, each as it is.
pub proof fn how_an_option_is_set(name: Seq<char>, value: Seq<char>)
    ensures
        option_line(name, value) == "setoption name "@ + name + " value "@ + value,
        is_word(name) && is_word(value) ==> words(option_line(name, value)) == seq![
            "setoption"@,
            "name"@,
            name,
            "value"@,
            value,
        ],
{
    if is_word(name) && is_word(value) {
        reveal_strlit("setoption name ");
        reveal_strlit(" value ");
        reveal_strlit("setoption");
        reveal_strlit("name");
        reveal_strlit("value");
        let parts = seq!["setoption"@, "name"@, name, "value"@, value];
        assert forall|k: int| 0 <= k < parts.len() implies is_word(#[trigger] parts[k]) by {}
        words_of_join(parts);
        let four = seq!["setoption"@, "name"@, name, "value"@];
        let three = seq!["setoption"@, "name"@, name];
        let two = seq!["setoption"@, "name"@];
        let one = seq!["setoption"@];
        what_joining_gives(four, value, seq![' ']);
        what_joining_gives(three, "value"@, seq![' ']);
        what_joining_gives(two, name, seq![' ']);
        what_joining_gives(one, "name"@, seq![' ']);
        what_joining_gives(one, "setoption"@, seq![' ']);
        assert(four.push(value) == parts);
        assert(three.push("value"@) == four);
        assert(two.push(name) == three);
        assert(one.push("name"@) == two);
        assert("setoption"@ + seq![' '] + "name"@ + seq![' '] == "setoption name "@);
        assert(seq![' '] + "value"@ + seq![' '] == " value "@);
        assert(join(parts, seq![' ']) == option_line(name, value));
    }
}

} // verus!
