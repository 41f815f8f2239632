//! A search: what is sent to the engine for one analysis, and what is made of its answers.

use vstd::prelude::*;
use crate::cache::{
    lines_view, AnalysisLine, AnalysisLineView, AnalysisResult, AnalysisResultView,
    SCHEMA_VERSION,
};
use crate::engine::{parse_info_line, parsed_info, ENGINE_TIMEOUT_MS};
use crate::error::{ChessError, ChessErrorView};
use crate::handshake::{option_line, set_option, unavailable};
use crate::pv_explain::{explain_pv, explained};
use crate::text::{
    begins_with, concat2, decimal, decimal_text, same_text, text_begins_with, texts,
};

verus! {

/// What is to be analysed, and how.
#[derive(Debug)]
pub struct AnalysisRequest {
    pub fen: String,
    pub depth: u32,
    pub multipv: u32,
}

/// The contents of an `AnalysisRequest`.
pub struct RequestView {
    pub fen: Seq<char>,
    pub depth: u32,
    pub multipv: u32,
}

impl View for AnalysisRequest {
    type V = RequestView;

    open spec fn view(&self) -> RequestView {
        RequestView { fen: self.fen@, depth: self.depth, multipv: self.multipv }
    }
}

/// How a search is getting on.
#[derive(Debug)]
pub enum ProgressEvent {
    Started { depth: u32, multipv: u32 },
    DepthComplete { depth: u32, best_line: Option<AnalysisLine> },
    Completed,
}

/// The contents of a `ProgressEvent`.
pub enum ProgressView {
    Started { depth: u32, multipv: u32 },
    DepthComplete { depth: u32, best_line: Option<AnalysisLineView> },
    Completed,
}

/// The contents of an optional line.
pub open spec fn maybe_line_view(line: Option<AnalysisLine>) -> Option<AnalysisLineView> {
    match line {
        Some(l) => Some(l@),
        None => None,
    }
}

impl View for ProgressEvent {
    type V = ProgressView;

    open spec fn view(&self) -> ProgressView {
        match *self {
            ProgressEvent::Started { depth, multipv } => ProgressView::Started { depth, multipv },
            ProgressEvent::DepthComplete { depth, best_line } => ProgressView::DepthComplete {
                depth,
                best_line: maybe_line_view(best_line),
            },
            ProgressEvent::Completed => ProgressView::Completed,
        }
    }
}

impl Clone for ProgressEvent {
    fn clone(&self) -> (r: ProgressEvent)
        ensures
            r@ == self@,
    {
        match self {
            ProgressEvent::Started { depth, multipv } => ProgressEvent::Started {
                depth: *depth,
                multipv: *multipv,
            },
            ProgressEvent::DepthComplete { depth, best_line } => ProgressEvent::DepthComplete {
                depth: *depth,
                best_line: match best_line {
                    Some(line) => Some(line.clone()),
                    None => None,
                },
            },
            ProgressEvent::Completed => ProgressEvent::Completed,
        }
    }
}

/// A search under way.
#[derive(Debug)]
pub struct Search {
    request: AnalysisRequest,
    expected_path: String,
    started: bool,
    lines: Vec<AnalysisLine>,
    last_depth: u32,
    cancelled: bool,
}

/// The contents of a `Search`.
#[verifier::ext_equal]
pub struct SearchView {
    pub request: RequestView,
    pub expected_path: Seq<char>,
    /// The engine was told to search.
    pub started: bool,
    /// The latest line of each rank, in the order of the ranks.
    pub lines: Seq<AnalysisLineView>,
    /// The greatest depth reported so far.
    pub last_depth: u32,
    pub cancelled: bool,
}

impl View for Search {
    type V = SearchView;

    closed spec fn view(&self) -> SearchView {
        SearchView {
            request: self.request@,
            expected_path: self.expected_path@,
            started: self.started,
            lines: lines_view(self.lines@),
            last_depth: self.last_depth,
            cancelled: self.cancelled,
        }
    }
}

/// What happens during a search.
#[derive(Debug)]
pub enum SearchEvent {
    /// The client wants the search to end.
    Cancelled,
    /// A line of the engine, without its end.
    Line(String),
    /// The engine closed its output.
    Closed,
    /// The engine stayed silent for too long; the milliseconds since the search started.
    TimedOut(u64),
}

/// The contents of a `SearchEvent`.
pub enum SearchEventView {
    Cancelled,
    Line(Seq<char>),
    Closed,
    TimedOut(u64),
}

impl View for SearchEvent {
    type V = SearchEventView;

    open spec fn view(&self) -> SearchEventView {
        match *self {
            SearchEvent::Cancelled => SearchEventView::Cancelled,
            SearchEvent::Line(line) => SearchEventView::Line(line@),
            SearchEvent::Closed => SearchEventView::Closed,
            SearchEvent::TimedOut(ms) => SearchEventView::TimedOut(ms),
        }
    }
}

/// What to do after an event: send lines, then report, then, where there is an outcome,
/// end.
#[derive(Debug)]
pub struct SearchStep {
    pub send: Vec<String>,
    pub report: Option<ProgressEvent>,
    pub outcome: Option<Result<AnalysisResult, ChessError>>,
}

/// The contents of a `SearchStep`.
#[verifier::ext_equal]
pub struct SearchStepView {
    pub send: Seq<Seq<char>>,
    pub report: Option<ProgressView>,
    pub outcome: Option<Result<AnalysisResultView, ChessErrorView>>,
}

impl View for SearchStep {
    type V = SearchStepView;

    open spec fn view(&self) -> SearchStepView {
        SearchStepView {
            send: texts(self.send@),
            report: match self.report {
                Some(event) => Some(event@),
                None => None,
            },
            outcome: match self.outcome {
                Some(Ok(result)) => Some(Ok(result@)),
                Some(Err(e)) => Some(Err(e@)),
                None => None,
            },
        }
    }
}

/// Whether the ranks ascend strictly.
pub open spec fn ranks_ascend(lines: Seq<AnalysisLineView>) -> bool {
    forall|i: int, j: int|
        0 <= i < j < lines.len() ==> (#[trigger] lines[i]).rank < (#[trigger] lines[j]).rank
}

/// The lines with one more: in place of the line of its rank, or at the place of its rank.
pub open spec fn with_line(lines: Seq<AnalysisLineView>, line: AnalysisLineView) -> Seq<
    AnalysisLineView,
>
    decreases lines.len(),
{
    if lines.len() == 0 {
        seq![line]
    } else if lines[0].rank == line.rank {
        seq![line] + lines.skip(1)
    } else if line.rank < lines[0].rank {
        seq![line] + lines
    } else {
        seq![lines[0]] + with_line(lines.skip(1), line)
    }
}

/// The line of a rank.
pub open spec fn line_of(lines: Seq<AnalysisLineView>, rank: u32) -> Option<AnalysisLineView>
    decreases lines.len(),
{
    if lines.len() == 0 {
        None
    } else if lines[0].rank == rank {
        Some(lines[0])
    } else {
        line_of(lines.skip(1), rank)
    }
}

/// A line with its moves explained. One without moves, or whose moves cannot be replayed,
/// stays as it is.
pub open spec fn enriched(fen: Seq<char>, line: AnalysisLineView) -> AnalysisLineView {
    if line.pv_uci.len() == 0 {
        line
    } else {
        match explained(fen, line.pv_uci) {
            Ok(explanation) => AnalysisLineView {
                pv_san: explanation.pv_san,
                captures: explanation.captures,
                material_swing: explanation.material_swing,
                ..line
            },
            Err(_) => line,
        }
    }
}

/// The result of a search with these lines.
pub open spec fn search_result(
    request: RequestView,
    lines: Seq<AnalysisLineView>,
) -> AnalysisResultView {
    AnalysisResultView {
        schema_version: SCHEMA_VERSION@,
        fen: request.fen,
        depth: request.depth,
        multipv: request.multipv,
        lines: lines.map_values(|l: AnalysisLineView| enriched(request.fen, l)),
    }
}

/// Nothing to do.
pub open spec fn no_step() -> SearchStepView {
    SearchStepView { send: seq![], report: None, outcome: None }
}

/// The end with an error.
pub open spec fn failed(e: ChessErrorView) -> SearchStepView {
    SearchStepView { send: seq![], report: None, outcome: Some(Err(e)) }
}

/// The search after an event, and what to do.
pub open spec fn search_step(state: SearchView, event: SearchEventView) -> (
    SearchView,
    SearchStepView,
) {
    if !state.started {
        waiting_step(state, event)
    } else {
        match event {
            SearchEventView::Cancelled => if state.cancelled {
                (state, no_step())
            } else {
                (
                    SearchView { cancelled: true, ..state },
                    SearchStepView { send: seq!["stop"@], ..no_step() },
                )
            },
            SearchEventView::Line(line) => line_step(state, line),
            SearchEventView::Closed => (
                state,
                failed(unavailable("engine closed unexpectedly"@, state.expected_path)),
            ),
            SearchEventView::TimedOut(elapsed_ms) => (
                state,
                failed(
                    ChessErrorView::EngineTimeout {
                        depth: state.request.depth,
                        elapsed_ms,
                        partial_available: state.lines.len() > 0,
                    },
                ),
            ),
        }
    }
}

/// What happens before the engine is told to search: only `readyok` counts, and an engine
/// that does not give it is out of time.
pub open spec fn waiting_step(state: SearchView, event: SearchEventView) -> (
    SearchView,
    SearchStepView,
) {
    match event {
        SearchEventView::Line(line) => if line == "readyok"@ {
            (
                SearchView { started: true, ..state },
                SearchStepView {
                    send: seq![
                        "position fen "@ + state.request.fen,
                        "go depth "@ + decimal(state.request.depth as nat),
                    ],
                    report: Some(
                        ProgressView::Started {
                            depth: state.request.depth,
                            multipv: state.request.multipv,
                        },
                    ),
                    outcome: None,
                },
            )
        } else {
            (state, no_step())
        },
        SearchEventView::Cancelled => (state, no_step()),
        _ => (
            state,
            failed(
                ChessErrorView::EngineTimeout {
                    depth: state.request.depth,
                    elapsed_ms: ENGINE_TIMEOUT_MS,
                    partial_available: false,
                },
            ),
        ),
    }
}

/// What a line of the engine does during a search: a report adds its line, and is passed
/// on where it is the first of its depth; `bestmove` ends the search.
pub open spec fn line_step(state: SearchView, line: Seq<char>) -> (SearchView, SearchStepView) {
    match parsed_info(line) {
        Some(info) => {
            let lines = with_line(state.lines, info.line);
            if info.depth > state.last_depth {
                (
                    SearchView { lines, last_depth: info.depth, ..state },
                    SearchStepView {
                        report: Some(
                            ProgressView::DepthComplete {
                                depth: info.depth,
                                best_line: line_of(lines, 1),
                            },
                        ),
                        ..no_step()
                    },
                )
            } else {
                (SearchView { lines, ..state }, no_step())
            }
        },
        None => if begins_with(line, "bestmove"@) {
            if state.cancelled {
                (state, failed(ChessErrorView::AnalysisCancelled))
            } else {
                (
                    state,
                    SearchStepView {
                        send: seq![],
                        report: Some(ProgressView::Completed),
                        outcome: Some(Ok(search_result(state.request, state.lines))),
                    },
                )
            }
        } else {
            (state, no_step())
        },
    }
}

/// A search before anything came from the engine.
pub open spec fn fresh_search(request: RequestView, expected_path: Seq<char>) -> SearchView {
    SearchView {
        request,
        expected_path,
        started: false,
        lines: seq![],
        last_depth: 0,
        cancelled: false,
    }
}

fn quiet() -> (r: SearchStep)
    ensures
        r@ == no_step(),
{
    let send: Vec<String> = Vec::new();
    assert(texts(send@) == Seq::<Seq<char>>::empty());
    SearchStep { send, report: None, outcome: None }
}

fn end_with(e: ChessError) -> (r: SearchStep)
    ensures
        r@ == failed(e@),
{
    let send: Vec<String> = Vec::new();
    assert(texts(send@) == Seq::<Seq<char>>::empty());
    SearchStep { send, report: None, outcome: Some(Err(e)) }
}

impl Search {
    /// A search of an engine at some path.
    pub fn new(request: AnalysisRequest, expected_path: String) -> (r: Search)
        ensures
            r@ == fresh_search(request@, expected_path@),
            ranks_ascend(r@.lines),
    {
        let lines: Vec<AnalysisLine> = Vec::new();
        assert(lines_view(lines@) == Seq::<AnalysisLineView>::empty());
        Search { request, expected_path, started: false, lines, last_depth: 0, cancelled: false }
    }

    /// The lines that open a search: the number of candidates, and the question whether
    /// the engine is ready.
    pub fn opening(&self) -> (r: Vec<String>)
        ensures
            texts(r@) == seq![
                option_line("MultiPV"@, decimal(self@.request.multipv as nat)),
                "isready"@,
            ],
    {
        let mut lines: Vec<String> = Vec::new();
        lines.push(
            set_option("MultiPV", decimal_text(self.request.multipv as u64).as_str()),
        );
        lines.push("isready".to_owned());
        assert(texts(lines@) == seq![
            option_line("MultiPV"@, decimal(self@.request.multipv as nat)),
            "isready"@,
        ]);
        lines
    }

    /// Whether the engine was told to search.
    pub fn started(&self) -> (r: bool)
        ensures
            r == self@.started,
    {
        self.started
    }

    /// Whether a wish to cancel would have an effect.
    pub fn cancellable(&self) -> (r: bool)
        ensures
            r == (search_step(self@, SearchEventView::Cancelled) != (self@, no_step())),
    {
        proof {
            assert(seq!["stop"@].len() == 1);
        }
        self.started && !self.cancelled
    }

    /// Takes an event in and says what to do.
    pub fn step(&mut self, event: &SearchEvent) -> (r: SearchStep)
        requires
            ranks_ascend(old(self)@.lines),
        ensures
            (final(self)@, r@) == search_step(old(self)@, event@),
            ranks_ascend(final(self)@.lines),
    {
        if !self.started {
            return self.step_before_start(event);
        }
        match event {
            SearchEvent::Cancelled => {
                if self.cancelled {
                    quiet()
                } else {
                    self.cancelled = true;
                    let mut send: Vec<String> = Vec::new();
                    send.push("stop".to_owned());
                    assert(texts(send@) == seq!["stop"@]);
                    SearchStep { send, report: None, outcome: None }
                }
            },
            SearchEvent::Line(line) => self.step_line(line.as_str()),
            SearchEvent::Closed => end_with(
                ChessError::EngineUnavailable {
                    message: "engine closed unexpectedly".to_owned(),
                    expected_path: self.expected_path.clone(),
                },
            ),
            SearchEvent::TimedOut(elapsed_ms) => end_with(
                ChessError::EngineTimeout {
                    depth: self.request.depth,
                    elapsed_ms: *elapsed_ms,
                    partial_available: self.lines.len() > 0,
                },
            ),
        }
    }

    fn step_before_start(&mut self, event: &SearchEvent) -> (r: SearchStep)
        requires
            !old(self)@.started,
        ensures
            (final(self)@, r@) == waiting_step(old(self)@, event@),
    {
        match event {
            SearchEvent::Line(line) => {
                if same_text(line.as_str(), "readyok") {
                    self.started = true;
                    let mut send: Vec<String> = Vec::new();
                    send.push(concat2("position fen ", self.request.fen.as_str()));
                    send.push(
                        concat2("go depth ", decimal_text(self.request.depth as u64).as_str()),
                    );
                    assert(texts(send@) == seq![
                        "position fen "@ + self@.request.fen,
                        "go depth "@ + decimal(self@.request.depth as nat),
                    ]);
                    let report = ProgressEvent::Started {
                        depth: self.request.depth,
                        multipv: self.request.multipv,
                    };
                    SearchStep { send, report: Some(report), outcome: None }
                } else {
                    quiet()
                }
            },
            SearchEvent::Cancelled => quiet(),
            _ => end_with(
                ChessError::EngineTimeout {
                    depth: self.request.depth,
                    elapsed_ms: ENGINE_TIMEOUT_MS,
                    partial_available: false,
                },
            ),
        }
    }

    fn step_line(&mut self, line: &str) -> (r: SearchStep)
        requires
            ranks_ascend(old(self)@.lines),
        ensures
            (final(self)@, r@) == line_step(old(self)@, line@),
            ranks_ascend(final(self)@.lines),
    {
        match parse_info_line(line) {
            Some(info) => {
                put_line(&mut self.lines, info.line);
                if info.depth > self.last_depth {
                    self.last_depth = info.depth;
                    let report = ProgressEvent::DepthComplete {
                        depth: info.depth,
                        best_line: find_line(&self.lines, 1),
                    };
                    let mut step = quiet();
                    step.report = Some(report);
                    step
                } else {
                    quiet()
                }
            },
            None => {
                if text_begins_with(line, "bestmove") {
                    if self.cancelled {
                        end_with(ChessError::AnalysisCancelled)
                    } else {
                        let mut step = quiet();
                        step.report = Some(ProgressEvent::Completed);
                        step.outcome = Some(Ok(self.result()));
                        step
                    }
                } else {
                    quiet()
                }
            },
        }
    }

    fn result(&self) -> (r: AnalysisResult)
        ensures
            r@ == search_result(self@.request, self@.lines),
    {
        let fen = self.request.fen.as_str();
        let ghost wanted = self@.lines.map_values(|l: AnalysisLineView| enriched(fen@, l));
        let mut lines: Vec<AnalysisLine> = Vec::new();
        let mut i: usize = 0;
        while i < self.lines.len()
            invariant
                i <= self.lines@.len(),
                wanted == self@.lines.map_values(|l: AnalysisLineView| enriched(fen@, l)),
                lines_view(lines@) == wanted.take(i as int),
            decreases self.lines.len() - i,
        {
            let ghost before = lines_view(lines@);
            let line = enrich_line(fen, self.lines[i].clone());
            lines.push(line);
            assert(self@.lines[i as int] == self.lines@[i as int]@);
            assert(lines_view(lines@) == before.push(wanted[i as int]));
            i = i + 1;
        }
        assert(wanted.take(i as int) == wanted);
        AnalysisResult {
            schema_version: SCHEMA_VERSION.to_owned(),
            fen: self.request.fen.clone(),
            depth: self.request.depth,
            multipv: self.request.multipv,
            lines,
        }
    }
}

/// A line with its moves explained, where they can be.
pub fn enrich_line(fen: &str, line: AnalysisLine) -> (r: AnalysisLine)
    ensures
        r@ == enriched(fen@, line@),
{
    if line.pv_uci.len() == 0 {
        return line;
    }
    match explain_pv(fen, line.pv_uci.as_slice()) {
        Ok(explanation) => AnalysisLine {
            rank: line.rank,
            score: line.score,
            pv_uci: line.pv_uci,
            pv_san: explanation.pv_san,
            captures: explanation.captures,
            material_swing: explanation.material_swing,
        },
        Err(_) => line,
    }
}

/// Puts a line at the place of its rank.
pub fn put_line(lines: &mut Vec<AnalysisLine>, line: AnalysisLine)
    requires
        ranks_ascend(lines_view(old(lines)@)),
    ensures
        lines_view(final(lines)@) == with_line(lines_view(old(lines)@), line@),
        ranks_ascend(lines_view(final(lines)@)),
{
    let ghost before = lines_view(lines@);
    let ghost view = line@;
    let mut at: usize = 0;
    assert(before.skip(0) == before);
    assert(before.take(0) + with_line(before, view) == with_line(before, view));
    while at < lines.len() && lines[at].rank < line.rank
        invariant
            at <= lines@.len(),
            before == lines_view(lines@),
            view == line@,
            with_line(before, view) == before.take(at as int) + with_line(
                before.skip(at as int),
                view,
            ),
        decreases lines.len() - at,
    {
        proof {
            let rest = before.skip(at as int);
            assert(rest[0] == before[at as int]);
            assert(rest.skip(1) == before.skip(at + 1));
            assert(before.take(at as int) + (seq![rest[0]] + with_line(before.skip(at + 1), view))
                == before.take(at + 1) + with_line(before.skip(at + 1), view));
        }
        at = at + 1;
    }
    proof {
        let rest = before.skip(at as int);
        if at < before.len() {
            assert(rest[0] == before[at as int]);
        }
        new_line_keeps_ranks_ascending(before, view);
    }
    if at < lines.len() && lines[at].rank == line.rank {
        lines.set(at, line);
        assert(lines_view(lines@) == before.take(at as int) + (seq![view] + before.skip(
            at as int,
        ).skip(1)));
    } else {
        lines.insert(at, line);
        assert(lines_view(lines@) == before.take(at as int) + (seq![view] + before.skip(at as int)));
    }
}

/// A copy of the line of a rank.
pub fn find_line(lines: &Vec<AnalysisLine>, rank: u32) -> (r: Option<AnalysisLine>)
    ensures
        maybe_line_view(r) == line_of(lines_view(lines@), rank),
{
    let ghost view = lines_view(lines@);
    let mut i: usize = 0;
    assert(view.skip(0) == view);
    while i < lines.len()
        invariant
            i <= lines@.len(),
            view == lines_view(lines@),
            line_of(view, rank) == line_of(view.skip(i as int), rank),
        decreases lines.len() - i,
    {
        assert(view.skip(i as int)[0] == lines@[i as int]@);
        assert(view.skip(i as int).skip(1) == view.skip(i + 1));
        if lines[i].rank == rank {
            return Some(lines[i].clone());
        }
        i = i + 1;
    }
    None
}

/// A new line keeps the ranks in strictly ascending order.
pub proof fn new_line_keeps_ranks_ascending(lines: Seq<AnalysisLineView>, line: AnalysisLineView)
    requires
        ranks_ascend(lines),
    ensures
        ranks_ascend(with_line(lines, line)),
{
    lemma_with_line(lines, line);
}

proof fn lemma_with_line(lines: Seq<AnalysisLineView>, line: AnalysisLineView)
    requires
        ranks_ascend(lines),
    ensures
        ranks_ascend(with_line(lines, line)),
        forall|i: int|
            0 <= i < with_line(lines, line).len() ==> (#[trigger] with_line(lines, line)[i] == line
                || lines.contains(with_line(lines, line)[i])),
    decreases lines.len(),
{
    let after = with_line(lines, line);
    if lines.len() > 0 {
        let rest = lines.skip(1);
        assert(ranks_ascend(rest));
        lemma_with_line(rest, line);
        let tail = with_line(rest, line);
        if lines[0].rank == line.rank {
            assert forall|i: int, j: int| 0 <= i < j < after.len() implies (#[trigger] after[i]).rank
                < (#[trigger] after[j]).rank by {
                assert(lines[i].rank < lines[j].rank);
            }
            assert forall|i: int| 0 <= i < after.len() implies #[trigger] after[i] == line
                || lines.contains(after[i]) by {
                if i > 0 {
                    assert(after[i] == lines[i]);
                }
            }
        } else if line.rank < lines[0].rank {
            assert forall|i: int, j: int| 0 <= i < j < after.len() implies (#[trigger] after[i]).rank
                < (#[trigger] after[j]).rank by {
                if i > 0 {
                    assert(lines[i - 1].rank < lines[j - 1].rank);
                } else if j > 1 {
                    assert(lines[0].rank < lines[j - 1].rank);
                }
            }
            assert forall|i: int| 0 <= i < after.len() implies #[trigger] after[i] == line
                || lines.contains(after[i]) by {
                if i > 0 {
                    assert(after[i] == lines[i - 1]);
                }
            }
        } else {
            assert forall|i: int| 0 <= i < tail.len() implies lines[0].rank < (
            #[trigger] tail[i]).rank && (tail[i] == line || lines.contains(tail[i])) by {
                if tail[i] != line {
                    let k = choose|k: int| 0 <= k < rest.len() && rest[k] == tail[i];
                    assert(lines[k + 1] == tail[i]);
                }
            }
            assert forall|i: int, j: int| 0 <= i < j < after.len() implies (#[trigger] after[i]).rank
                < (#[trigger] after[j]).rank by {
                if i > 0 {
                    assert(tail[i - 1].rank < tail[j - 1].rank);
                } else {
                    assert(after[j] == tail[j - 1]);
                }
            }
            assert forall|i: int| 0 <= i < after.len() implies #[trigger] after[i] == line
                || lines.contains(after[i]) by {
                if i > 0 {
                    assert(after[i] == tail[i - 1]);
                } else {
                    assert(after[i] == lines[0]);
                }
            }
        }
    }
}

/// The latest line of a rank replaces the one before it and leaves the other ranks alone.
pub proof fn latest_line_counts(
    lines: Seq<AnalysisLineView>,
    line: AnalysisLineView,
    rank: u32,
)
    ensures
        line_of(with_line(lines, line), rank) == if rank == line.rank {
            Some(line)
        } else {
            line_of(lines, rank)
        },
    decreases lines.len(),
{
    let after = with_line(lines, line);
    if lines.len() > 0 {
        if lines[0].rank == line.rank {
            assert(after.skip(1) == lines.skip(1));
        } else if line.rank < lines[0].rank {
            assert(after.skip(1) == lines);
        } else {
            assert(after.skip(1) == with_line(lines.skip(1), line));
            latest_line_counts(lines.skip(1), line, rank);
        }
    } else {
        assert(after.skip(1) == lines);
    }
}

/// Explaining a line leaves its rank, its score and its moves alone.
pub proof fn explaining_keeps_the_report(fen: Seq<char>, line: AnalysisLineView)
    ensures
        enriched(fen, line).rank == line.rank,
        enriched(fen, line).score == line.score,
        enriched(fen, line).pv_uci == line.pv_uci,
{
}

/// What came of a sequence of events: the lines sent, the reports made, and the outcome,
/// if there was one. Events after the outcome do not count.
#[verifier::ext_equal]
pub struct SearchRun {
    pub sent: Seq<Seq<char>>,
    pub reports: Seq<ProgressView>,
    pub outcome: Option<Result<AnalysisResultView, ChessErrorView>>,
}

/// The course of a search over a sequence of events.
pub open spec fn search_run(state: SearchView, events: Seq<SearchEventView>) -> SearchRun
    decreases events.len(),
{
    if events.len() == 0 {
        SearchRun { sent: seq![], reports: seq![], outcome: None }
    } else {
        let (next, step) = search_step(state, events[0]);
        let reports = match step.report {
            Some(event) => seq![event],
            None => seq![],
        };
        if step.outcome is Some {
            SearchRun { sent: step.send, reports, outcome: step.outcome }
        } else {
            let rest = search_run(next, events.skip(1));
            SearchRun {
                sent: step.send + rest.sent,
                reports: reports + rest.reports,
                outcome: rest.outcome,
            }
        }
    }
}

/// Whether the engine neither closed its output nor fell silent.
pub open spec fn engine_answers(events: Seq<SearchEventView>) -> bool {
    forall|i: int|
        0 <= i < events.len() ==> (#[trigger] events[i] is Cancelled || events[i] is Line)
}

proof fn lemma_cancelled(state: SearchView, events: Seq<SearchEventView>)
    requires
        state.started,
        state.cancelled,
    ensures
        search_run(state, events).sent == Seq::<Seq<char>>::empty(),
        search_run(state, events).outcome matches Some(outcome) ==> outcome is Err,
        engine_answers(events) && search_run(state, events).outcome is Some ==> search_run(
            state,
            events,
        ).outcome == Some(Err::<AnalysisResultView, ChessErrorView>(ChessErrorView::AnalysisCancelled)),
    decreases events.len(),
{
    if events.len() > 0 {
        let (next, step) = search_step(state, events[0]);
        let rest = events.skip(1);
        if engine_answers(events) {
            assert(events[0] is Cancelled || events[0] is Line);
            assert forall|i: int| 0 <= i < rest.len() implies (#[trigger] rest[i] is Cancelled
                || rest[i] is Line) by {
                assert(events[i + 1] is Cancelled || events[i + 1] is Line);
            }
        }
        if step.outcome is None {
            lemma_cancelled(next, rest);
            assert(step.send + search_run(next, rest).sent == Seq::<Seq<char>>::empty());
        }
    }
}

/// Once a search is cancelled, `stop` is sent, once and as the last line; the engine's
/// answers are drained until `bestmove`, and the search then counts as cancelled. It never
/// yields a result.
pub proof fn cancelling_stops_the_search(state: SearchView, events: Seq<SearchEventView>)
    requires
        state.started,
        !state.cancelled,
    ensures
        ({
            let run = search_run(state, seq![SearchEventView::Cancelled] + events);
            &&& run.sent == seq!["stop"@]
            &&& run.outcome matches Some(outcome) ==> outcome is Err
            &&& engine_answers(events) && run.outcome is Some ==> run.outcome == Some(
                Err::<AnalysisResultView, ChessErrorView>(ChessErrorView::AnalysisCancelled),
            )
        }),
{
    let all = seq![SearchEventView::Cancelled] + events;
    let next = SearchView { cancelled: true, ..state };
    assert(all.skip(1) == events);
    lemma_cancelled(next, events);
    assert(seq!["stop"@] + Seq::<Seq<char>>::empty() == seq!["stop"@]);
}

/// Whether the depths of the completed searches ascend strictly from some depth on.
pub open spec fn depths_ascend(reports: Seq<ProgressView>, floor: u32) -> bool
    decreases reports.len(),
{
    if reports.len() == 0 {
        true
    } else {
        match reports[0] {
            ProgressView::DepthComplete { depth, .. } => depth > floor && depths_ascend(
                reports.skip(1),
                depth,
            ),
            _ => depths_ascend(reports.skip(1), floor),
        }
    }
}

/// The depths that are reported as complete ascend strictly.
pub proof fn reported_depths_ascend(state: SearchView, events: Seq<SearchEventView>)
    ensures
        depths_ascend(search_run(state, events).reports, state.last_depth),
    decreases events.len(),
{
    if events.len() > 0 {
        let (next, step) = search_step(state, events[0]);
        reported_depths_ascend(next, events.skip(1));
        let rest = search_run(next, events.skip(1)).reports;
        let all = search_run(state, events).reports;
        if step.outcome is None {
            if step.report is Some {
                assert(all == seq![step.report->0] + rest);
                assert(all.skip(1) == rest);
            } else {
                assert(all == rest);
            }
        } else if step.report is Some {
            assert(all.skip(1) == Seq::<ProgressView>::empty());
            assert(depths_ascend(all.skip(1), state.last_depth));
        }
    }
}

/// A result names the position and the settings that were asked for, and its lines stand
/// in the strict order of their ranks.
pub proof fn result_echoes_the_request(state: SearchView, events: Seq<SearchEventView>)
    requires
        ranks_ascend(state.lines),
    ensures
        search_run(state, events).outcome matches Some(Ok(result)) ==> {
            &&& result.fen == state.request.fen
            &&& result.depth == state.request.depth
            &&& result.multipv == state.request.multipv
            &&& result.schema_version == SCHEMA_VERSION@
            &&& ranks_ascend(result.lines)
        },
    decreases events.len(),
{
    if events.len() > 0 {
        let (next, step) = search_step(state, events[0]);
        if let SearchEventView::Line(line) = events[0] {
            if let Some(info) = parsed_info(line) {
                new_line_keeps_ranks_ascending(state.lines, info.line);
            }
        }
        result_echoes_the_request(next, events.skip(1));
        if let Some(Ok(result)) = step.outcome {
            assert forall|i: int, j: int| 0 <= i < j < result.lines.len() implies (
            #[trigger] result.lines[i]).rank < (#[trigger] result.lines[j]).rank by {
                assert(state.lines[i].rank < state.lines[j].rank);
            }
        }
    }
}

/// The engine is told to search only after it said it was ready, and it is told so once:
/// first the position, then the depth; nothing but `stop` may follow.
pub proof fn what_a_search_sends(
    request: RequestView,
    expected_path: Seq<char>,
    events: Seq<SearchEventView>,
)
    ensures
        ({
            let sent = search_run(fresh_search(request, expected_path), events).sent;
            let start = seq![
                "position fen "@ + request.fen,
                "go depth "@ + decimal(request.depth as nat),
            ];
            ||| sent == Seq::<Seq<char>>::empty()
            ||| sent == start && events.contains(SearchEventView::Line("readyok"@))
            ||| sent == start.push("stop"@) && events.contains(SearchEventView::Line("readyok"@))
        }),
{
    lemma_sent_before_start(fresh_search(request, expected_path), events);
}

proof fn lemma_sent_before_start(state: SearchView, events: Seq<SearchEventView>)
    requires
        !state.started,
        !state.cancelled,
    ensures
        ({
            let sent = search_run(state, events).sent;
            let start = seq![
                "position fen "@ + state.request.fen,
                "go depth "@ + decimal(state.request.depth as nat),
            ];
            ||| sent == Seq::<Seq<char>>::empty()
            ||| sent == start && events.contains(SearchEventView::Line("readyok"@))
            ||| sent == start.push("stop"@) && events.contains(SearchEventView::Line("readyok"@))
        }),
    decreases events.len(),
{
    if events.len() > 0 {
        let (next, step) = search_step(state, events[0]);
        let rest = search_run(next, events.skip(1)).sent;
        if step.outcome is None {
            if next.started {
                lemma_sent_after_start(next, events.skip(1));
                assert(events[0] == SearchEventView::Line("readyok"@));
                if rest.len() == 0 {
                    assert(step.send + rest == step.send);
                } else {
                    assert(step.send + rest == step.send.push("stop"@));
                }
            } else {
                lemma_sent_before_start(next, events.skip(1));
                assert(step.send + rest == rest);
                if events.skip(1).contains(SearchEventView::Line("readyok"@)) {
                    let k = choose|k: int|
                        0 <= k < events.skip(1).len() && events.skip(1)[k]
                            == SearchEventView::Line("readyok"@);
                    assert(events[k + 1] == SearchEventView::Line("readyok"@));
                }
            }
        }
    }
}

proof fn lemma_sent_after_start(state: SearchView, events: Seq<SearchEventView>)
    requires
        state.started,
    ensures
        search_run(state, events).sent == Seq::<Seq<char>>::empty() || search_run(
            state,
            events,
        ).sent == seq!["stop"@],
    decreases events.len(),
{
    if state.cancelled {
        lemma_cancelled(state, events);
    } else if events.len() > 0 {
        let (next, step) = search_step(state, events[0]);
        let rest = search_run(next, events.skip(1)).sent;
        if step.outcome is None {
            if next.cancelled {
                lemma_cancelled(next, events.skip(1));
                assert(step.send + rest == seq!["stop"@]);
            } else {
                lemma_sent_after_start(next, events.skip(1));
                assert(step.send + rest == rest);
            }
        }
    }
}

/// The line found for a rank is the one of the lines that has it.
pub proof fn line_of_a_rank(lines: Seq<AnalysisLineView>, rank: u32)
    requires
        ranks_ascend(lines),
    ensures
        forall|i: int|
            0 <= i < lines.len() && (#[trigger] lines[i]).rank == rank ==> line_of(lines, rank)
                == Some(lines[i]),
        line_of(lines, rank) is None <==> (forall|i: int|
            0 <= i < lines.len() ==> (#[trigger] lines[i]).rank != rank),
        line_of(lines, rank) matches Some(line) ==> line.rank == rank && lines.contains(line),
    decreases lines.len(),
{
    if lines.len() > 0 {
        let rest = lines.skip(1);
        assert forall|i: int, j: int| 0 <= i < j < rest.len() implies (#[trigger] rest[i]).rank < (
        #[trigger] rest[j]).rank by {
            assert(lines[i + 1].rank < lines[j + 1].rank);
        }
        line_of_a_rank(rest, rank);
        assert forall|i: int| 0 <= i < lines.len() && (#[trigger] lines[i]).rank
            == rank implies line_of(lines, rank) == Some(lines[i]) by {
            if i > 0 {
                assert(lines[0].rank < lines[i].rank);
                assert(rest[i - 1] == lines[i]);
            }
        }
        if lines[0].rank == rank {
            assert(lines.contains(lines[0]));
        } else {
            if let Some(line) = line_of(rest, rank) {
                let k = choose|k: int| 0 <= k < rest.len() && rest[k] == line;
                assert(lines[k + 1] == line);
            } else {
                assert forall|i: int| 0 <= i < lines.len() implies (#[trigger] lines[i]).rank
                    != rank by {
                    if i > 0 {
                        assert(rest[i - 1] == lines[i]);
                    }
                }
            }
        }
    }
}

/// Whether a search goes through these states while the engine, told to search, writes
/// these lines.
pub open spec fn listens_to(states: Seq<SearchView>, lines: Seq<Seq<char>>) -> bool {
    &&& states.len() == lines.len() + 1
    &&& states[0].started
    &&& states[0].lines.len() == 0
    &&& states[0].last_depth == 0
    &&& forall|k: int|
        0 <= k < lines.len() ==> (#[trigger] search_step(
            states[k],
            SearchEventView::Line(lines[k]),
        )).0 == states[k + 1]
}

/// Whether one of the first lines is a report of some rank, and the last of them on it.
pub open spec fn latest_report(lines: Seq<Seq<char>>, n: int, k: int, rank: u32) -> bool {
    &&& 0 <= k < n
    &&& parsed_info(lines[k]) matches Some(info) && info.line.rank == rank
    &&& forall|j: int|
        k < j < n ==> ((#[trigger] parsed_info(lines[j])) matches Some(later) ==> later.line.rank
            != rank)
}

/// A search keeps of each rank the line of the latest report on it, and nothing else, in the
/// order of the ranks; the depth that it has reached is the greatest that was reported.
/// Nothing else of it changes.
pub proof fn what_a_search_collects(states: Seq<SearchView>, lines: Seq<Seq<char>>, n: int)
    requires
        listens_to(states, lines),
        0 <= n <= lines.len(),
    ensures
        states[n].request == states[0].request,
        states[n].expected_path == states[0].expected_path,
        states[n].started,
        states[n].cancelled == states[0].cancelled,
        ranks_ascend(states[n].lines),
        forall|k: int, rank: u32| #[trigger]
            latest_report(lines, n, k, rank) ==> line_of(states[n].lines, rank) == Some(
                parsed_info(lines[k])->0.line,
            ),
        forall|rank: u32|
            line_of(states[n].lines, rank) is Some ==> exists|k: int| #[trigger]
                latest_report(lines, n, k, rank),
        forall|k: int|
            0 <= k < n ==> ((#[trigger] parsed_info(lines[k])) matches Some(info) ==> info.depth
                <= states[n].last_depth),
        states[n].last_depth == 0 || exists|k: int|
            0 <= k < n && (#[trigger] parsed_info(lines[k])) is Some && parsed_info(lines[k])->0.depth
                == states[n].last_depth,
    decreases n,
{
    if n == 0 {
        assert forall|rank: u32| line_of(states[n].lines, rank) is Some implies exists|k: int|
            #[trigger] latest_report(lines, n, k, rank) by {
            assert(line_of(states[0].lines, rank) is None);
        }
    } else {
        let m = n - 1;
        what_a_search_collects(states, lines, m);
        assert(search_step(states[m], SearchEventView::Line(lines[m])).0 == states[m + 1]);
        let found = parsed_info(lines[m]);
        if found is Some {
            new_line_keeps_ranks_ascending(states[m].lines, found->0.line);
        }
        assert forall|k: int, rank: u32| #[trigger] latest_report(lines, n, k, rank) implies line_of(
            states[n].lines,
            rank,
        ) == Some(parsed_info(lines[k])->0.line) by {
            if found is Some {
                latest_line_counts(states[m].lines, found->0.line, rank);
            }
            if k < m {
                assert(parsed_info(lines[m]) matches Some(later) ==> later.line.rank != rank);
                assert(latest_report(lines, m, k, rank));
            }
        }
        assert forall|rank: u32| line_of(states[n].lines, rank) is Some implies exists|k: int|
            #[trigger] latest_report(lines, n, k, rank) by {
            if found is Some {
                latest_line_counts(states[m].lines, found->0.line, rank);
            }
            if found is Some && found->0.line.rank == rank {
                assert(latest_report(lines, n, m, rank));
            } else {
                let k = choose|k: int| #[trigger] latest_report(lines, m, k, rank);
                assert forall|j: int| k < j < n implies ((#[trigger] parsed_info(
                    lines[j],
                )) matches Some(later) ==> later.line.rank != rank) by {}
                assert(latest_report(lines, n, k, rank));
            }
        }
        if states[n].last_depth != states[m].last_depth {
            assert(parsed_info(lines[m]) is Some);
        } else if states[m].last_depth != 0 {
            let k = choose|k: int|
                0 <= k < m && (#[trigger] parsed_info(lines[k])) is Some && parsed_info(
                    lines[k],
                )->0.depth == states[m].last_depth;
            assert(parsed_info(lines[k]) is Some);
        }
    }
}

/// A depth is reported as complete by the first report that is deeper than all before it,
/// and by no other line, along with the best line so far: the latest of the first rank.
pub proof fn which_depths_are_reported(states: Seq<SearchView>, lines: Seq<Seq<char>>, n: int)
    requires
        listens_to(states, lines),
        0 <= n < lines.len(),
    ensures
        ({
            let step = search_step(states[n], SearchEventView::Line(lines[n])).1;
            &&& step.report matches Some(ProgressView::DepthComplete { depth, best_line }) ==> {
                &&& parsed_info(lines[n]) matches Some(info) && info.depth == depth
                &&& depth > 0
                &&& forall|k: int|
                    0 <= k < n ==> ((#[trigger] parsed_info(lines[k])) matches Some(earlier)
                        ==> earlier.depth < depth)
                &&& forall|k: int| #[trigger]
                    latest_report(lines, n + 1, k, 1) ==> best_line == Some(
                        parsed_info(lines[k])->0.line,
                    )
                &&& best_line is Some ==> exists|k: int| #[trigger]
                    latest_report(lines, n + 1, k, 1)
            }
            &&& parsed_info(lines[n]) matches Some(info) ==> {
                &&& step.send.len() == 0
                &&& step.outcome is None
                &&& info.depth > 0 && (forall|k: int|
                    0 <= k < n ==> ((#[trigger] parsed_info(lines[k])) matches Some(earlier)
                        ==> earlier.depth < info.depth)) ==> step.report is Some
                    && step.report->0 is DepthComplete
            }
        }),
{
    what_a_search_collects(states, lines, n);
    what_a_search_collects(states, lines, n + 1);
    assert(search_step(states[n], SearchEventView::Line(lines[n])).0 == states[n + 1]);
    if states[n].last_depth != 0 {
        let k = choose|k: int|
            0 <= k < n && (#[trigger] parsed_info(lines[k])) is Some && parsed_info(lines[k])->0.depth
                == states[n].last_depth;
        assert(parsed_info(lines[k]) is Some);
    }
}

/// `bestmove` ends a search that goes on: with the result, of which each line is the one
/// collected, explained from the position that was asked for; or, once it was cancelled,
/// with that. Any other line that is no report does nothing.
pub proof fn how_a_search_ends(state: SearchView, line: Seq<char>)
    requires
        state.started,
        parsed_info(line) is None,
    ensures
        ({
            let (next, step) = search_step(state, SearchEventView::Line(line));
            let best = line.len() >= 8 && line.take(8) == "bestmove"@;
            &&& next == state
            &&& step.send.len() == 0
            &&& best && !state.cancelled ==> {
                &&& step.report == Some(ProgressView::Completed)
                &&& step.outcome is Some && step.outcome->0 is Ok
                &&& ({
                    let result = step.outcome->0->Ok_0;
                    &&& result.schema_version == "1.0"@
                    &&& result.fen == state.request.fen
                    &&& result.depth == state.request.depth
                    &&& result.multipv == state.request.multipv
                    &&& result.lines.len() == state.lines.len()
                    &&& forall|i: int|
                        0 <= i < state.lines.len() ==> #[trigger] result.lines[i] == enriched(
                            state.request.fen,
                            state.lines[i],
                        )
                })
            }
            &&& best && state.cancelled ==> step.report is None && step.outcome == Some(
                Err::<AnalysisResultView, ChessErrorView>(ChessErrorView::AnalysisCancelled),
            )
            &&& !best ==> step.report is None && step.outcome is None
        }),
{
    reveal_strlit("bestmove");
}

/// What is added to a line is what explaining its moves gives; nothing is added to a line
/// without moves or with moves that cannot be explained.
pub proof fn what_is_added_to_a_line(fen: Seq<char>, line: AnalysisLineView)
    ensures
        line.pv_uci.len() > 0 ==> (explained(fen, line.pv_uci) matches Ok(explanation) ==> {
            &&& enriched(fen, line).pv_san == explanation.pv_san
            &&& enriched(fen, line).captures == explanation.captures
            &&& enriched(fen, line).material_swing == explanation.material_swing
        }),
        line.pv_uci.len() == 0 || explained(fen, line.pv_uci) is Err ==> enriched(fen, line)
            == line,
{
}

/// A search that the engine leaves alone fails: by its silence, with the time that passed
/// and whether any line was collected; by its end, with the place of the engine. Before the
/// engine said that it was ready both count as its full time without a line.
pub proof fn how_a_search_fails(state: SearchView, elapsed: u64)
    ensures
        ({
            let silent = search_step(state, SearchEventView::TimedOut(elapsed));
            let closed = search_step(state, SearchEventView::Closed);
            let never = Err::<AnalysisResultView, ChessErrorView>(
                ChessErrorView::EngineTimeout {
                    depth: state.request.depth,
                    elapsed_ms: 300_000,
                    partial_available: false,
                },
            );
            &&& silent.0 == state && closed.0 == state
            &&& silent.1.send.len() == 0 && closed.1.send.len() == 0
            &&& silent.1.report is None && closed.1.report is None
            &&& state.started ==> silent.1.outcome == Some(
                Err::<AnalysisResultView, ChessErrorView>(
                    ChessErrorView::EngineTimeout {
                        depth: state.request.depth,
                        elapsed_ms: elapsed,
                        partial_available: state.lines.len() > 0,
                    },
                ),
            )
            &&& state.started ==> closed.1.outcome == Some(
                Err::<AnalysisResultView, ChessErrorView>(
                    ChessErrorView::EngineUnavailable {
                        message: "engine closed unexpectedly"@,
                        expected_path: state.expected_path,
                    },
                ),
            )
            &&& !state.started ==> silent.1.outcome == Some(never) && closed.1.outcome == Some(never)
        }),
{
}

/// Before the engine is told to search every line but `readyok` is passed over, and so is
/// the wish to cancel. `readyok` has the position and the depth sent to it, and the start
/// reported with what was asked for.
pub proof fn how_a_search_starts(state: SearchView, line: Seq<char>)
    requires
        !state.started,
    ensures
        ({
            let (next, step) = search_step(state, SearchEventView::Line(line));
            &&& line == "readyok"@ ==> {
                &&& next == SearchView { started: true, ..state }
                &&& step.send.len() == 2
                &&& step.send[0] == "position fen "@ + state.request.fen
                &&& step.send[1] == "go depth "@ + decimal(state.request.depth as nat)
                &&& step.report == Some(
                    ProgressView::Started {
                        depth: state.request.depth,
                        multipv: state.request.multipv,
                    },
                )
                &&& step.outcome is None
            }
            &&& line != "readyok"@ ==> next == state && step.send.len() == 0 && step.report is None
                && step.outcome is None
            &&& search_step(state, SearchEventView::Cancelled).0 == state
            &&& search_step(state, SearchEventView::Cancelled).1.send.len() == 0
            &&& search_step(state, SearchEventView::Cancelled).1.report is None
            &&& search_step(state, SearchEventView::Cancelled).1.outcome is None
        }),
{
}

/// The wish to cancel has `stop` sent the first time, and does nothing else; a second wish
/// does nothing.
pub proof fn how_a_search_is_cancelled(state: SearchView)
    requires
        state.started,
    ensures
        ({
            let (next, step) = search_step(state, SearchEventView::Cancelled);
            &&& next == SearchView { cancelled: true, ..state }
            &&& step.report is None
            &&& step.outcome is None
            &&& !state.cancelled ==> step.send == seq!["stop"@]
            &&& search_step(next, SearchEventView::Cancelled).0 == next
            &&& search_step(next, SearchEventView::Cancelled).1.send.len() == 0
        }),
{
}

/// A search begins with nothing from the engine, for the request and the engine given.
pub proof fn what_a_search_begins_with(request: RequestView, expected_path: Seq<char>)
    ensures
        ({
            let state = fresh_search(request, expected_path);
            &&& state.request == request
            &&& state.expected_path == expected_path
            &&& !state.started && !state.cancelled
            &&& state.lines.len() == 0
            &&& state.last_depth == 0
        }),
{
}

} // verus!
