//! The chess engine as seen from the server: its options, what it reports about itself,
//! and the lines in which it reports on a search.

use vstd::prelude::*;
use crate::cache::{AnalysisLine, AnalysisLineView, Score, ScoreKind};
use crate::error::{ChessError, ChessErrorView};
use crate::handshake::{fresh_handshake, unavailable, Handshake, Running, RunningView};
use crate::options::{
    names_ascend, option_value, set_then_read, with_option, OptionView, UciOptions,
};
use crate::path::{path_debug, path_display, path_quoted, path_text};
use crate::pv_explain::{CaptureView, MaterialSwing};
use crate::search::{fresh_search, ranks_ascend, Search};
use crate::text::{
    begins_with, concat2, decimal, decimal_text, is_ascii_space, is_white_space, is_word, join,
    parse_i32, parse_u32, read_i32, read_of_decimal, read_u32, same_text, split_words,
    text_begins_with, texts, trailing_white, trim_text, trimmed, trimming_what_is_added, words,
    words_before_trailing_space, words_of_concatenation, words_of_join, words_of_word,
};

pub use crate::search::{AnalysisRequest, ProgressEvent};

verus! {

pub const DEFAULT_DEPTH: u32 = 20;

pub const DEFAULT_MULTIPV: u32 = 6;

pub const DEFAULT_THREADS: u32 = 3;

pub const DEFAULT_HASH_MB: u32 = 128;

/// How long the engine may stay silent, in milliseconds.
pub const ENGINE_TIMEOUT_MS: u64 = 300_000;

/// The options that every fresh engine is given.
pub open spec fn default_options() -> Seq<OptionView> {
    seq![
        ("Contempt"@, "0"@),
        ("Hash"@, decimal(DEFAULT_HASH_MB as nat)),
        ("Threads"@, decimal(DEFAULT_THREADS as nat)),
        ("UCI_AnalyseMode"@, "true"@),
    ]
}

/// Default UCI options applied on every fresh engine handshake.
pub fn default_uci_options() -> (r: UciOptions)
    ensures
        r@ == default_options(),
        names_ascend(r@),
{
    let mut opts = UciOptions::new();
    opts.insert("Threads".to_owned(), decimal_text(DEFAULT_THREADS as u64));
    opts.insert("Hash".to_owned(), decimal_text(DEFAULT_HASH_MB as u64));
    opts.insert("UCI_AnalyseMode".to_owned(), "true".to_owned());
    opts.insert("Contempt".to_owned(), "0".to_owned());
    proof {
        reveal_strlit("Threads");
        reveal_strlit("Hash");
        reveal_strlit("UCI_AnalyseMode");
        reveal_strlit("Contempt");
        reveal_with_fuel(with_option, 5);
        let threads = ("Threads"@, decimal(DEFAULT_THREADS as nat));
        let hash = ("Hash"@, decimal(DEFAULT_HASH_MB as nat));
        let mode = ("UCI_AnalyseMode"@, "true"@);
        let a = seq![threads];
        assert(with_option(Seq::<OptionView>::empty(), threads.0, threads.1) == a);
        let b = seq![hash, threads];
        assert(with_option(a, hash.0, hash.1) == b);
        assert(b.skip(1) == a);
        assert(a.skip(1) == Seq::<OptionView>::empty());
        let c = seq![hash, threads, mode];
        assert(with_option(b, mode.0, mode.1) == c);
        assert(with_option(c, "Contempt"@, "0"@) == default_options());
    }
    opts
}

/// What is known of the engine.
#[derive(Debug)]
pub struct EngineInfo {
    pub available: bool,
    pub path: String,
    pub name: String,
    pub uci_options: UciOptions,
}

/// The contents of an `EngineInfo`.
pub struct EngineInfoView {
    pub available: bool,
    pub path: Seq<char>,
    pub name: Seq<char>,
    pub uci_options: Seq<OptionView>,
}

impl View for EngineInfo {
    type V = EngineInfoView;

    open spec fn view(&self) -> EngineInfoView {
        EngineInfoView {
            available: self.available,
            path: self.path@,
            name: self.name@,
            uci_options: self.uci_options@,
        }
    }
}

impl Clone for EngineInfo {
    fn clone(&self) -> (r: EngineInfo)
        ensures
            r@ == self@,
    {
        EngineInfo {
            available: self.available,
            path: self.path.clone(),
            name: self.name.clone(),
            uci_options: self.uci_options.clone(),
        }
    }
}

/// What a report on a search says: the depth, the rank of the line among the candidates,
/// and the line.
#[derive(Debug)]
pub struct ParsedInfo {
    pub depth: u32,
    pub multipv: u32,
    pub line: AnalysisLine,
}

/// The contents of a `ParsedInfo`.
pub struct ParsedInfoView {
    pub depth: u32,
    pub multipv: u32,
    pub line: AnalysisLineView,
}

impl View for ParsedInfo {
    type V = ParsedInfoView;

    open spec fn view(&self) -> ParsedInfoView {
        ParsedInfoView { depth: self.depth, multipv: self.multipv, line: self.line@ }
    }
}

impl Clone for ParsedInfo {
    fn clone(&self) -> (r: ParsedInfo)
        ensures
            r@ == self@,
    {
        ParsedInfo { depth: self.depth, multipv: self.multipv, line: self.line.clone() }
    }
}

/// The fields of an `info` line that matter here.
pub struct InfoFields {
    pub depth: Option<u32>,
    pub multipv: u32,
    pub score_cp: Option<i32>,
    pub score_mate: Option<i32>,
    pub pv: Seq<Seq<char>>,
}

/// The fields before any token is read.
pub open spec fn no_fields() -> InfoFields {
    InfoFields { depth: None, multipv: 1, score_cp: None, score_mate: None, pv: seq![] }
}

/// The number that a token holds, or one where it holds none.
pub open spec fn multipv_of(token: Seq<char>) -> u32 {
    match read_u32(token) {
        Some(n) => n,
        None => 1,
    }
}

/// The fields after the tokens from `at` on are read. A field is its name and its value;
/// a score has its kind between the two; `pv` takes all tokens that follow; any other
/// token is passed over.
pub open spec fn info_fields(tokens: Seq<Seq<char>>, at: int, fields: InfoFields) -> InfoFields
    decreases tokens.len() - at,
{
    if at < 0 || at >= tokens.len() {
        fields
    } else if tokens[at] == "depth"@ {
        if at + 1 < tokens.len() {
            info_fields(
                tokens,
                at + 2,
                InfoFields { depth: read_u32(tokens[at + 1]), ..fields },
            )
        } else {
            fields
        }
    } else if tokens[at] == "multipv"@ {
        if at + 1 < tokens.len() {
            info_fields(
                tokens,
                at + 2,
                InfoFields { multipv: multipv_of(tokens[at + 1]), ..fields },
            )
        } else {
            fields
        }
    } else if tokens[at] == "score"@ {
        if at + 2 < tokens.len() {
            info_fields(tokens, at + 3, scored(fields, tokens[at + 1], tokens[at + 2]))
        } else {
            fields
        }
    } else if tokens[at] == "pv"@ {
        InfoFields { pv: fields.pv + tokens.skip(at + 1), ..fields }
    } else {
        info_fields(tokens, at + 1, fields)
    }
}

/// The fields after a score of some kind.
pub open spec fn scored(fields: InfoFields, kind: Seq<char>, value: Seq<char>) -> InfoFields {
    if kind == "cp"@ {
        InfoFields { score_cp: read_i32(value), ..fields }
    } else if kind == "mate"@ {
        InfoFields { score_mate: read_i32(value), ..fields }
    } else {
        fields
    }
}

/// What the fields of a line report: nothing without a depth, or with neither a score nor
/// moves. A mate counts before centipawns.
pub open spec fn info_of(fields: InfoFields) -> Option<ParsedInfoView> {
    if fields.depth is None {
        None
    } else if fields.pv.len() == 0 && fields.score_cp is None && fields.score_mate is None {
        None
    } else {
        Some(
            ParsedInfoView {
                depth: fields.depth->0,
                multipv: fields.multipv,
                line: AnalysisLineView {
                    rank: fields.multipv,
                    score: if fields.score_mate is Some {
                        Score { kind: ScoreKind::Mate, cp: None, mate_in: fields.score_mate }
                    } else {
                        Score { kind: ScoreKind::Cp, cp: fields.score_cp, mate_in: None }
                    },
                    pv_uci: fields.pv,
                    pv_san: seq![],
                    captures: seq![],
                    material_swing: MaterialSwing { white_lost: 0, black_lost: 0, net_for_stm: 0 },
                },
            },
        )
    }
}

/// What a line of the engine reports, if it reports on a search.
pub open spec fn parsed_info(line: Seq<char>) -> Option<ParsedInfoView> {
    if begins_with(trimmed(line), "info "@) {
        info_of(info_fields(words(trimmed(line)), 1, no_fields()))
    } else {
        None
    }
}

/// Parse a Stockfish `info` line. Returns None if it lacks the fields we care about.
pub fn parse_info_line(line: &str) -> (r: Option<ParsedInfo>)
    ensures
        match r {
            Some(info) => parsed_info(line@) == Some(info@),
            None => parsed_info(line@) is None,
        },
{
    let line = trim_text(line);
    if !text_begins_with(line.as_str(), "info ") {
        return None;
    }
    let tokens = split_words(line.as_str());
    let ghost all = texts(tokens@);
    let mut depth: Option<u32> = None;
    let mut multipv: u32 = 1;
    let mut score_cp: Option<i32> = None;
    let mut score_mate: Option<i32> = None;
    let mut pv: Vec<String> = Vec::new();
    let mut at: usize = 1;
    assert(texts(pv@) == Seq::<Seq<char>>::empty());
    while at < tokens.len()
        invariant
            at >= 1,
            all == texts(tokens@),
            info_fields(all, 1, no_fields()) == info_fields(
                all,
                at as int,
                InfoFields { depth, multipv, score_cp, score_mate, pv: texts(pv@) },
            ),
            texts(pv@).len() == 0 || at >= tokens@.len(),
        decreases tokens.len() - at,
    {
        let token = tokens[at].as_str();
        assert(all[at as int] == token@);
        if same_text(token, "depth") {
            if at + 1 < tokens.len() {
                assert(all[at + 1] == tokens@[at + 1]@);
                depth = parse_u32(tokens[at + 1].as_str());
                at = at + 2;
            } else {
                at = at + 1;
            }
        } else if same_text(token, "multipv") {
            if at + 1 < tokens.len() {
                assert(all[at + 1] == tokens@[at + 1]@);
                multipv = match parse_u32(tokens[at + 1].as_str()) {
                    Some(n) => n,
                    None => 1,
                };
                at = at + 2;
            } else {
                at = at + 1;
            }
        } else if same_text(token, "score") {
            if at + 1 < tokens.len() && at + 2 < tokens.len() {
                assert(all[at + 1] == tokens@[at + 1]@);
                assert(all[at + 2] == tokens@[at + 2]@);
                let kind = tokens[at + 1].as_str();
                if same_text(kind, "cp") {
                    score_cp = parse_i32(tokens[at + 2].as_str());
                } else if same_text(kind, "mate") {
                    score_mate = parse_i32(tokens[at + 2].as_str());
                }
                at = at + 3;
            } else {
                at = tokens.len();
            }
        } else if same_text(token, "pv") {
            let start = at + 1;
            at = start;
            while at < tokens.len()
                invariant
                    start <= at <= tokens@.len(),
                    all == texts(tokens@),
                    texts(pv@) == all.subrange(start as int, at as int),
                decreases tokens.len() - at,
            {
                let ghost before = texts(pv@);
                pv.push(tokens[at].clone());
                assert(texts(pv@) == before.push(all[at as int]));
                at = at + 1;
            }
            assert(texts(pv@) == all.skip(start as int));
        } else {
            at = at + 1;
        }
    }
    let ghost fields = InfoFields { depth, multipv, score_cp, score_mate, pv: texts(pv@) };
    assert(info_fields(all, 1, no_fields()) == fields);
    let depth = match depth {
        Some(n) => n,
        None => return None,
    };
    if pv.len() == 0 && score_cp.is_none() && score_mate.is_none() {
        return None;
    }
    let score = if score_mate.is_some() {
        Score { kind: ScoreKind::Mate, cp: None, mate_in: score_mate }
    } else {
        Score { kind: ScoreKind::Cp, cp: score_cp, mate_in: None }
    };
    let info = ParsedInfo {
        depth,
        multipv,
        line: AnalysisLine {
            rank: multipv,
            score,
            pv_uci: pv,
            pv_san: Vec::new(),
            captures: Vec::new(),
            material_swing: MaterialSwing::default(),
        },
    };
    proof {
        assert(info.line@.pv_san == Seq::<Seq<char>>::empty());
        assert(info.line@.captures == Seq::<CaptureView>::empty());
    }
    Some(info)
}

/// The engine: where it is, and what is known of it while it is up. It is started only
/// when it is needed.
#[derive(Debug)]
pub struct Engine {
    path: std::path::PathBuf,
    running: Option<Running>,
}

/// The contents of an `Engine`.
#[verifier::ext_equal]
pub struct EngineView {
    /// The path of the executable, as it is displayed.
    pub path: Seq<char>,
    /// The debug text of the path.
    pub quoted: Seq<char>,
    pub running: Option<RunningView>,
}

/// What goes wrong between the server and the engine's process.
#[derive(Debug)]
pub enum EngineFault {
    /// The process could not be started.
    Spawn(String),
    NoStdin,
    NoStdout,
    Write(String),
    Flush(String),
}

/// The contents of an `EngineFault`.
pub enum EngineFaultView {
    Spawn(Seq<char>),
    NoStdin,
    NoStdout,
    Write(Seq<char>),
    Flush(Seq<char>),
}

impl View for EngineFault {
    type V = EngineFaultView;

    open spec fn view(&self) -> EngineFaultView {
        match *self {
            EngineFault::Spawn(e) => EngineFaultView::Spawn(e@),
            EngineFault::NoStdin => EngineFaultView::NoStdin,
            EngineFault::NoStdout => EngineFaultView::NoStdout,
            EngineFault::Write(e) => EngineFaultView::Write(e@),
            EngineFault::Flush(e) => EngineFaultView::Flush(e@),
        }
    }
}

/// The error that reports a fault of an engine at some path.
pub open spec fn fault_error(fault: EngineFaultView, path: Seq<char>) -> ChessErrorView {
    match fault {
        EngineFaultView::Spawn(e) => unavailable("failed to spawn Stockfish: "@ + e, path),
        EngineFaultView::NoStdin => ChessErrorView::Internal {
            message: "failed to open Stockfish stdin"@,
        },
        EngineFaultView::NoStdout => ChessErrorView::Internal {
            message: "failed to open Stockfish stdout"@,
        },
        EngineFaultView::Write(e) => ChessErrorView::Internal {
            message: "failed writing to engine: "@ + e,
        },
        EngineFaultView::Flush(e) => ChessErrorView::Internal {
            message: "failed flushing engine stdin: "@ + e,
        },
    }
}

impl View for Engine {
    type V = EngineView;

    closed spec fn view(&self) -> EngineView {
        EngineView {
            path: path_text(self.path),
            quoted: path_debug(self.path),
            running: match self.running {
                Some(running) => Some(running@),
                None => None,
            },
        }
    }
}

impl EngineView {
    /// The names of the options ascend.
    pub open spec fn well_formed(self) -> bool {
        self.running matches Some(running) ==> names_ascend(running.uci_options)
    }

    /// What is known of the engine, if it is up.
    pub open spec fn status(self) -> Option<EngineInfoView> {
        match self.running {
            Some(running) => Some(
                EngineInfoView {
                    available: true,
                    path: self.path,
                    name: running.name,
                    uci_options: running.uci_options,
                },
            ),
            None => None,
        }
    }

    /// The engine after the number of candidates was set.
    pub open spec fn with_multipv(self, multipv: u32) -> EngineView {
        match self.running {
            Some(running) => EngineView {
                running: Some(
                    RunningView {
                        uci_options: with_option(
                            running.uci_options,
                            "MultiPV"@,
                            decimal(multipv as nat),
                        ),
                        ..running
                    },
                ),
                ..self
            },
            None => self,
        }
    }
}

impl Engine {
    /// An engine at some path, not yet started.
    pub fn new(path: std::path::PathBuf) -> (r: Engine)
        ensures
            r@ == (EngineView { path: path_text(path), quoted: path_debug(path), running: None }),
            r@.well_formed(),
    {
        Engine { path, running: None }
    }

    pub fn path(&self) -> (r: &std::path::PathBuf)
        ensures
            path_text(*r) == self@.path,
            path_debug(*r) == self@.quoted,
    {
        &self.path
    }

    pub fn engine_path_string(&self) -> (r: String)
        ensures
            r@ == self@.path,
    {
        path_display(&self.path)
    }

    pub fn is_running(&self) -> (r: bool)
        ensures
            r == (self@.running is Some),
    {
        self.running.is_some()
    }

    /// Begins the dialogue with a fresh process, given whether the executable exists.
    pub fn spawn(&self, exists: bool) -> (r: Result<Handshake, ChessError>)
        ensures
            match r {
                Ok(handshake) => exists && handshake@ == fresh_handshake(self@.path),
                Err(e) => !exists && e@ == unavailable(
                    "Stockfish executable not found at "@ + self@.quoted,
                    self@.path,
                ),
            },
    {
        if !exists {
            return Err(
                ChessError::EngineUnavailable {
                    message: concat2(
                        "Stockfish executable not found at ",
                        path_quoted(&self.path).as_str(),
                    ),
                    expected_path: path_display(&self.path),
                },
            );
        }
        Ok(Handshake::new(path_display(&self.path)))
    }

    /// Notes that a process is up.
    pub fn started(&mut self, running: Running)
        requires
            names_ascend(running.uci_options@),
        ensures
            final(self)@ == (EngineView { running: Some(running@), ..old(self)@ }),
            final(self)@.well_formed(),
    {
        self.running = Some(running);
    }

    /// What is known of the engine, if it is up.
    pub fn status(&self) -> (r: Option<EngineInfo>)
        ensures
            match r {
                Some(info) => self@.status() == Some(info@),
                None => self@.status() is None,
            },
    {
        match &self.running {
            Some(running) => Some(
                EngineInfo {
                    available: true,
                    path: path_display(&self.path),
                    name: running.name.clone(),
                    uci_options: running.uci_options.clone(),
                },
            ),
            None => None,
        }
    }

    /// Begins an analysis.
    pub fn analyze(&self, request: AnalysisRequest) -> (r: Search)
        ensures
            r@ == fresh_search(request@, self@.path),
            ranks_ascend(r@.lines),
    {
        Search::new(request, path_display(&self.path))
    }

    /// Notes that the process was given a number of candidates.
    pub fn set_multipv(&mut self, multipv: u32)
        requires
            old(self)@.well_formed(),
        ensures
            final(self)@ == old(self)@.with_multipv(multipv),
            final(self)@.well_formed(),
    {
        match self.running.take() {
            Some(running) => {
                let mut running = running;
                running.uci_options.insert("MultiPV".to_owned(), decimal_text(multipv as u64));
                self.running = Some(running);
            },
            None => {},
        }
    }

    /// The error that reports a fault.
    pub fn fault(&self, fault: &EngineFault) -> (r: ChessError)
        ensures
            r@ == fault_error(fault@, self@.path),
    {
        match fault {
            EngineFault::Spawn(e) => ChessError::EngineUnavailable {
                message: concat2("failed to spawn Stockfish: ", e.as_str()),
                expected_path: path_display(&self.path),
            },
            EngineFault::NoStdin => ChessError::Internal(
                "failed to open Stockfish stdin".to_owned(),
            ),
            EngineFault::NoStdout => ChessError::Internal(
                "failed to open Stockfish stdout".to_owned(),
            ),
            EngineFault::Write(e) => ChessError::Internal(
                concat2("failed writing to engine: ", e.as_str()),
            ),
            EngineFault::Flush(e) => ChessError::Internal(
                concat2("failed flushing engine stdin: ", e.as_str()),
            ),
        }
    }
}

/// A line as it is written to the engine, with its end.
pub fn line_with_end(line: &str) -> (r: String)
    ensures
        r@ == line@.push('\n'),
{
    proof {
        reveal_strlit("\n");
        assert(line@ + "\n"@ == line@.push('\n'));
    }
    concat2(line, "\n")
}

/// A number with its sign where it is negative.
pub open spec fn signed(n: int) -> Seq<char> {
    if n < 0 {
        seq!['-'] + decimal((-n) as nat)
    } else {
        decimal(n as nat)
    }
}

/// The tokens of a report with a depth, a rank, a score and moves.
pub open spec fn report_tokens(
    depth: u32,
    multipv: u32,
    mate: bool,
    value: i32,
    pv: Seq<Seq<char>>,
) -> Seq<Seq<char>> {
    seq![
        "info"@,
        "depth"@,
        decimal(depth as nat),
        "multipv"@,
        decimal(multipv as nat),
        "score"@,
        if mate {
            "mate"@
        } else {
            "cp"@
        },
        signed(value as int),
        "pv"@,
    ] + pv
}

proof fn lemma_read_of_signed(n: i32)
    ensures
        read_i32(signed(n as int)) == Some(n),
        is_word(signed(n as int)),
{
    let s = signed(n as int);
    if n < 0 {
        read_of_decimal((-n) as nat);
        assert(s.skip(1) == decimal((-n) as nat));
        assert forall|i: int| 0 <= i < s.len() implies !is_ascii_space(#[trigger] s[i]) by {
            if i > 0 {
                assert(s[i] == decimal((-n) as nat)[i - 1]);
            }
        }
    } else {
        read_of_decimal(n as nat);
        assert('0' <= s[0]);
    }
}

proof fn lemma_join_ends(parts: Seq<Seq<char>>)
    requires
        parts.len() >= 2,
        parts.last().len() > 0,
    ensures
        join(parts, seq![' ']).last() == parts.last().last(),
{
    let before = join(parts.drop_last(), seq![' ']);
    assert(join(parts, seq![' ']) == before + seq![' '] + parts.last());
}

proof fn lemma_join_starts(parts: Seq<Seq<char>>)
    requires
        parts.len() >= 2,
    ensures
        ({
            let s = join(parts, seq![' ']);
            &&& s.len() > parts[0].len()
            &&& s.take(parts[0].len() as int) == parts[0]
            &&& s[parts[0].len() as int] == ' '
        }),
    decreases parts.len(),
{
    let init = parts.drop_last();
    let s = join(parts, seq![' ']);
    let before = join(init, seq![' ']);
    let k = parts[0].len() as int;
    assert(s == before + seq![' '] + parts.last());
    if parts.len() == 2 {
        assert(before == parts[0]);
        assert(s.take(k) == parts[0]);
    } else {
        lemma_join_starts(init);
        assert(s.take(k) == before.take(k));
        assert(s[k] == before[k]);
    }
}

/// Reading a report gives back what was reported.
pub proof fn report_reads_back(
    depth: u32,
    multipv: u32,
    mate: bool,
    value: i32,
    pv: Seq<Seq<char>>,
)
    requires
        pv.len() > 0,
        forall|k: int| 0 <= k < pv.len() ==> is_word(#[trigger] pv[k]),
        !is_white_space(pv.last().last()),
    ensures
        parsed_info(join(report_tokens(depth, multipv, mate, value, pv), seq![' '])) == Some(
            ParsedInfoView {
                depth,
                multipv,
                line: AnalysisLineView {
                    rank: multipv,
                    score: if mate {
                        Score { kind: ScoreKind::Mate, cp: None, mate_in: Some(value) }
                    } else {
                        Score { kind: ScoreKind::Cp, cp: Some(value), mate_in: None }
                    },
                    pv_uci: pv,
                    pv_san: seq![],
                    captures: seq![],
                    material_swing: MaterialSwing { white_lost: 0, black_lost: 0, net_for_stm: 0 },
                },
            },
        ),
{
    reveal_strlit("info");
    reveal_strlit("info ");
    reveal_strlit("depth");
    reveal_strlit("multipv");
    reveal_strlit("score");
    reveal_strlit("cp");
    reveal_strlit("mate");
    reveal_strlit("pv");
    read_of_decimal(depth as nat);
    read_of_decimal(multipv as nat);
    lemma_read_of_signed(value);
    let tokens = report_tokens(depth, multipv, mate, value, pv);
    assert(tokens.len() == 9 + pv.len());
    assert forall|k: int| 0 <= k < tokens.len() implies is_word(#[trigger] tokens[k]) by {
        if k >= 9 {
            assert(tokens[k] == pv[k - 9]);
        }
    }
    let line = join(tokens, seq![' ']);
    assert(tokens.last() == pv.last());
    lemma_join_starts(tokens);
    lemma_join_ends(tokens);
    assert(line[0] == tokens[0][0]) by {
        assert(line.take(4)[0] == line[0]);
    }
    assert(trimmed(line) == line);
    assert(line.take(5) == "info "@) by {
        assert(line.take(4) == "info"@);
        assert forall|i: int| 0 <= i < 5 implies line.take(5)[i] == "info "@[i] by {
            if i < 4 {
                assert(line.take(4)[i] == line[i]);
            }
        }
    }
    words_of_join(tokens);
    reveal_with_fuel(info_fields, 6);
    assert(tokens.skip(9) == pv);
    assert(Seq::<Seq<char>>::empty() + pv == pv);
}

proof fn lemma_one_more_token(tokens: Seq<Seq<char>>, more: Seq<char>, at: int, fields: InfoFields)
    requires
        0 <= at,
        fields.pv.len() == 0,
        info_fields(tokens, at, fields).pv.len() > 0,
    ensures
        info_fields(tokens.push(more), at, fields) == (InfoFields {
            pv: info_fields(tokens, at, fields).pv.push(more),
            ..info_fields(tokens, at, fields)
        }),
    decreases tokens.len() - at,
{
    let longer = tokens.push(more);
    if at < tokens.len() {
        assert(longer[at] == tokens[at]);
        if tokens[at] == "depth"@ {
            if at + 1 < tokens.len() {
                assert(longer[at + 1] == tokens[at + 1]);
                let next = InfoFields { depth: read_u32(tokens[at + 1]), ..fields };
                lemma_one_more_token(tokens, more, at + 2, next);
            }
        } else if tokens[at] == "multipv"@ {
            if at + 1 < tokens.len() {
                assert(longer[at + 1] == tokens[at + 1]);
                let next = InfoFields { multipv: multipv_of(tokens[at + 1]), ..fields };
                lemma_one_more_token(tokens, more, at + 2, next);
            }
        } else if tokens[at] == "score"@ {
            if at + 2 < tokens.len() {
                assert(longer[at + 1] == tokens[at + 1]);
                assert(longer[at + 2] == tokens[at + 2]);
                let next = scored(fields, tokens[at + 1], tokens[at + 2]);
                lemma_one_more_token(tokens, more, at + 3, next);
            }
        } else if tokens[at] == "pv"@ {
            assert(fields.pv + longer.skip(at + 1) == (fields.pv + tokens.skip(at + 1)).push(more));
        } else {
            lemma_one_more_token(tokens, more, at + 1, fields);
        }
    }
}

/// Whatever follows the moves of a report is one more move, even a word that names a field
/// elsewhere, and changes nothing else. White space at the end of the report that is not
/// ASCII whitespace separates no words, so there it is left out.
pub proof fn moves_come_last(line: Seq<char>, word: Seq<char>)
    requires
        parsed_info(line) is Some,
        parsed_info(line)->0.line.pv_uci.len() > 0,
        word.len() > 0,
        forall|i: int| 0 <= i < word.len() ==> !is_white_space(#[trigger] word[i]),
        forall|i: int|
            0 <= i < trailing_white(line).len() ==> is_ascii_space(#[trigger] trailing_white(line)[i]),
    ensures
        ({
            let info = parsed_info(line)->0;
            parsed_info(line + seq![' '] + word) == Some(
                ParsedInfoView {
                    line: AnalysisLineView {
                        pv_uci: info.line.pv_uci.push(word),
                        ..info.line
                    },
                    ..info
                },
            )
        }),
{
    reveal_strlit("info ");
    let body = trimmed(line);
    let space = trailing_white(line);
    let more = seq![' '] + word;
    let longer = line + more;
    assert(line + seq![' '] + word == longer);
    assert(more.last() == word.last());
    trimming_what_is_added(line, more);
    assert(trimmed(longer) == (body + space) + seq![' '] + word);
    assert(begins_with(trimmed(longer), "info "@)) by {
        assert(trimmed(longer).take(5) == body.take(5));
    }
    assert(is_word(word)) by {
        assert forall|i: int| 0 <= i < word.len() implies !is_ascii_space(#[trigger] word[i]) by {
            assert(!is_white_space(word[i]));
        }
    }
    words_of_concatenation(body + space, ' ', word);
    words_before_trailing_space(body, space);
    words_of_word(word);
    assert(words(trimmed(longer)) == words(body).push(word));
    lemma_one_more_token(words(body), word, 1, no_fields());
}

/// A report names its own rank, carries one kind of score and is not yet explained.
pub proof fn report_shape(line: Seq<char>)
    ensures
        parsed_info(line) matches Some(info) ==> {
            &&& info.line.rank == info.multipv
            &&& info.line.score.kind == ScoreKind::Mate <==> info.line.score.mate_in is Some
            &&& info.line.score.mate_in is None || info.line.score.cp is None
            &&& info.line.pv_san.len() == 0 && info.line.captures.len() == 0
        },
{
}

/// What a part of a report tells.
pub enum InfoField {
    Depth,
    Multipv,
    Centipawns,
    Mate,
    /// A score of some other kind.
    OtherScore(Seq<char>),
    /// A word that names none of the fields.
    Word,
}

/// A part of a report: a field with its value, or a word that is none.
pub struct InfoPart {
    pub field: InfoField,
    pub value: Seq<char>,
}

impl InfoPart {
    /// The words of the part.
    pub open spec fn tokens(self) -> Seq<Seq<char>> {
        match self.field {
            InfoField::Depth => seq!["depth"@, self.value],
            InfoField::Multipv => seq!["multipv"@, self.value],
            InfoField::Centipawns => seq!["score"@, "cp"@, self.value],
            InfoField::Mate => seq!["score"@, "mate"@, self.value],
            InfoField::OtherScore(kind) => seq!["score"@, kind, self.value],
            InfoField::Word => seq![self.value],
        }
    }

    /// A word that stands for itself names no field, and another kind of score is neither
    /// of the two that are read.
    pub open spec fn well_formed(self) -> bool {
        match self.field {
            InfoField::OtherScore(kind) => kind != "cp"@ && kind != "mate"@,
            InfoField::Word => names_no_field(self.value),
            _ => true,
        }
    }
}

/// Whether a word is not the name of a field.
pub open spec fn names_no_field(word: Seq<char>) -> bool {
    word != "depth"@ && word != "multipv"@ && word != "score"@ && word != "pv"@
}

/// The words of some parts, one after the other.
pub open spec fn part_tokens(parts: Seq<InfoPart>) -> Seq<Seq<char>>
    decreases parts.len(),
{
    if parts.len() == 0 {
        seq![]
    } else {
        parts[0].tokens() + part_tokens(parts.skip(1))
    }
}

/// Whether a report ends with these words: with `pv` and its moves, with nothing, or with
/// a field that is cut off before its value.
pub open spec fn ends_with_moves(tail: Seq<Seq<char>>, moves: Seq<Seq<char>>) -> bool {
    ||| tail == seq!["pv"@] + moves
    ||| moves.len() == 0 && (tail.len() == 0 || tail == seq!["depth"@] || tail == seq!["multipv"@]
        || tail == seq!["score"@] || (tail.len() == 2 && tail[0] == "score"@))
}

/// Whether the last word on a field is this value; `None` where the field does not occur.
pub open spec fn tells(parts: Seq<InfoPart>, field: InfoField, value: Option<Seq<char>>) -> bool {
    match value {
        Some(text) => exists|i: int|
            #![trigger parts[i]]
            0 <= i < parts.len() && parts[i].field == field && parts[i].value == text && forall|
                j: int,
            |
                i < j < parts.len() ==> (#[trigger] parts[j]).field != field,
        None => forall|j: int| 0 <= j < parts.len() ==> (#[trigger] parts[j]).field != field,
    }
}

spec fn with_part(fields: InfoFields, part: InfoPart) -> InfoFields {
    match part.field {
        InfoField::Depth => InfoFields { depth: read_u32(part.value), ..fields },
        InfoField::Multipv => InfoFields { multipv: multipv_of(part.value), ..fields },
        InfoField::Centipawns => InfoFields { score_cp: read_i32(part.value), ..fields },
        InfoField::Mate => InfoFields { score_mate: read_i32(part.value), ..fields },
        _ => fields,
    }
}

spec fn with_parts(fields: InfoFields, parts: Seq<InfoPart>) -> InfoFields
    decreases parts.len(),
{
    if parts.len() == 0 {
        fields
    } else {
        with_parts(with_part(fields, parts[0]), parts.skip(1))
    }
}

proof fn lemma_field_names_differ()
    ensures
        "depth"@ != "multipv"@,
        "depth"@ != "score"@,
        "depth"@ != "pv"@,
        "multipv"@ != "score"@,
        "multipv"@ != "pv"@,
        "score"@ != "pv"@,
        "cp"@ != "mate"@,
{
    reveal_strlit("depth");
    reveal_strlit("multipv");
    reveal_strlit("score");
    reveal_strlit("pv");
    reveal_strlit("cp");
    reveal_strlit("mate");
    assert("depth"@[0] != "score"@[0]);
    assert("cp"@.len() != "mate"@.len());
    assert("depth"@.len() == 5 && "multipv"@.len() == 7 && "score"@.len() == 5 && "pv"@.len() == 2);
}

proof fn lemma_fields_of_rest(tokens: Seq<Seq<char>>, at: int, k: int, fields: InfoFields)
    requires
        0 <= k,
        0 <= at,
        at + k <= tokens.len(),
    ensures
        info_fields(tokens, at + k, fields) == info_fields(tokens.skip(at), k, fields),
    decreases tokens.len() - at - k,
{
    let rest = tokens.skip(at);
    if at + k < tokens.len() {
        assert(rest[k] == tokens[at + k]);
        if at + k + 1 < tokens.len() {
            assert(rest[k + 1] == tokens[at + k + 1]);
            if tokens[at + k] == "depth"@ {
                lemma_fields_of_rest(
                    tokens,
                    at,
                    k + 2,
                    InfoFields { depth: read_u32(rest[k + 1]), ..fields },
                );
            } else if tokens[at + k] == "multipv"@ {
                lemma_fields_of_rest(
                    tokens,
                    at,
                    k + 2,
                    InfoFields { multipv: multipv_of(rest[k + 1]), ..fields },
                );
            }
        }
        if at + k + 2 < tokens.len() {
            assert(rest[k + 2] == tokens[at + k + 2]);
            lemma_fields_of_rest(tokens, at, k + 3, scored(fields, rest[k + 1], rest[k + 2]));
        }
        assert(rest.skip(k + 1) == tokens.skip(at + k + 1));
        lemma_fields_of_rest(tokens, at, k + 1, fields);
    }
}

proof fn lemma_fields_of_part(part: InfoPart, rest: Seq<Seq<char>>, fields: InfoFields)
    requires
        part.well_formed(),
    ensures
        info_fields(part.tokens() + rest, 0, fields) == info_fields(
            rest,
            0,
            with_part(fields, part),
        ),
{
    lemma_field_names_differ();
    let tokens = part.tokens() + rest;
    let n = part.tokens().len() as int;
    assert(tokens.skip(n) == rest);
    lemma_fields_of_rest(tokens, n, 0, with_part(fields, part));
    assert(forall|i: int| 0 <= i < n ==> tokens[i] == part.tokens()[i]);
    assert(info_fields(tokens, 0, fields) == info_fields(tokens, n, with_part(fields, part)));
}

proof fn lemma_fields_of_parts(parts: Seq<InfoPart>, tail: Seq<Seq<char>>, fields: InfoFields)
    requires
        forall|i: int| 0 <= i < parts.len() ==> (#[trigger] parts[i]).well_formed(),
    ensures
        info_fields(part_tokens(parts) + tail, 0, fields) == info_fields(
            tail,
            0,
            with_parts(fields, parts),
        ),
    decreases parts.len(),
{
    if parts.len() == 0 {
        assert(part_tokens(parts) + tail == tail);
    } else {
        let rest = parts.skip(1);
        assert forall|i: int| 0 <= i < rest.len() implies (#[trigger] rest[i]).well_formed() by {
            assert(rest[i] == parts[i + 1]);
        }
        assert(part_tokens(parts) + tail == parts[0].tokens() + (part_tokens(rest) + tail));
        lemma_fields_of_part(parts[0], part_tokens(rest) + tail, fields);
        lemma_fields_of_parts(rest, tail, with_part(fields, parts[0]));
    }
}

proof fn lemma_untold(parts: Seq<InfoPart>, field: InfoField, fields: InfoFields)
    requires
        forall|j: int| 0 <= j < parts.len() ==> (#[trigger] parts[j]).field != field,
    ensures
        field is Depth ==> with_parts(fields, parts).depth == fields.depth,
        field is Multipv ==> with_parts(fields, parts).multipv == fields.multipv,
        field is Centipawns ==> with_parts(fields, parts).score_cp == fields.score_cp,
        field is Mate ==> with_parts(fields, parts).score_mate == fields.score_mate,
        with_parts(fields, parts).pv == fields.pv,
    decreases parts.len(),
{
    if parts.len() > 0 {
        let rest = parts.skip(1);
        assert forall|j: int| 0 <= j < rest.len() implies (#[trigger] rest[j]).field != field by {
            assert(rest[j] == parts[j + 1]);
        }
        assert(parts[0].field != field);
        lemma_untold(rest, field, with_part(fields, parts[0]));
    }
}

proof fn lemma_told(parts: Seq<InfoPart>, i: int, fields: InfoFields)
    requires
        0 <= i < parts.len(),
        forall|j: int| i < j < parts.len() ==> (#[trigger] parts[j]).field != parts[i].field,
    ensures
        ({
            let told = with_parts(fields, parts);
            let value = parts[i].value;
            &&& parts[i].field is Depth ==> told.depth == read_u32(value)
            &&& parts[i].field is Multipv ==> told.multipv == multipv_of(value)
            &&& parts[i].field is Centipawns ==> told.score_cp == read_i32(value)
            &&& parts[i].field is Mate ==> told.score_mate == read_i32(value)
        }),
    decreases parts.len(),
{
    let rest = parts.skip(1);
    assert forall|j: int| i <= j < rest.len() implies (#[trigger] rest[j]).field
        != parts[i].field by {
        assert(rest[j] == parts[j + 1]);
    }
    if i == 0 {
        lemma_untold(rest, parts[0].field, with_part(fields, parts[0]));
    } else {
        assert(rest[i - 1] == parts[i]);
        lemma_told(rest, i - 1, with_part(fields, parts[0]));
    }
}

proof fn lemma_tells(
    parts: Seq<InfoPart>,
    depth: Option<Seq<char>>,
    multipv: Option<Seq<char>>,
    centipawns: Option<Seq<char>>,
    mate: Option<Seq<char>>,
)
    requires
        tells(parts, InfoField::Depth, depth),
        tells(parts, InfoField::Multipv, multipv),
        tells(parts, InfoField::Centipawns, centipawns),
        tells(parts, InfoField::Mate, mate),
    ensures
        ({
            let told = with_parts(no_fields(), parts);
            &&& told.depth == number_told(depth)
            &&& told.multipv == (match number_told(multipv) {
                Some(n) => n,
                None => 1,
            })
            &&& told.score_cp == score_told(centipawns)
            &&& told.score_mate == score_told(mate)
        }),
{
    lemma_told_or_untold(parts, InfoField::Depth, depth);
    lemma_told_or_untold(parts, InfoField::Multipv, multipv);
    lemma_told_or_untold(parts, InfoField::Centipawns, centipawns);
    lemma_told_or_untold(parts, InfoField::Mate, mate);
}

proof fn lemma_told_or_untold(parts: Seq<InfoPart>, field: InfoField, value: Option<Seq<char>>)
    requires
        tells(parts, field, value),
    ensures
        ({
            let told = with_parts(no_fields(), parts);
            &&& field is Depth ==> told.depth == number_told(value)
            &&& field is Multipv ==> told.multipv == (match number_told(value) {
                Some(n) => n,
                None => 1,
            })
            &&& field is Centipawns ==> told.score_cp == score_told(value)
            &&& field is Mate ==> told.score_mate == score_told(value)
        }),
{
    match value {
        Some(text) => {
            let i = choose|i: int|
                #![trigger parts[i]]
                0 <= i < parts.len() && parts[i].field == field && parts[i].value == text && forall|
                    j: int,
                |
                    i < j < parts.len() ==> (#[trigger] parts[j]).field != field;
            lemma_told(parts, i, no_fields());
        },
        None => {
            lemma_untold(parts, field, no_fields());
        },
    }
}

/// The number that was told, if any was and it is one.
pub open spec fn number_told(value: Option<Seq<char>>) -> Option<u32> {
    match value {
        Some(text) => read_u32(text),
        None => None,
    }
}

/// The score that was told, if any was and it is a number.
pub open spec fn score_told(value: Option<Seq<char>>) -> Option<i32> {
    match value {
        Some(text) => read_i32(text),
        None => None,
    }
}

/// A report is made of parts, of which the last on each field counts, and ends with its
/// moves. What it reports is just this: it needs a depth, and a score or moves; a rank that
/// is not told is the first; a mate counts before centipawns.
pub proof fn report_is_read_part_by_part(
    line: Seq<char>,
    parts: Seq<InfoPart>,
    tail: Seq<Seq<char>>,
    moves: Seq<Seq<char>>,
    depth: Option<Seq<char>>,
    multipv: Option<Seq<char>>,
    centipawns: Option<Seq<char>>,
    mate: Option<Seq<char>>,
)
    requires
        begins_with(trimmed(line), "info "@),
        words(trimmed(line)) == seq!["info"@] + part_tokens(parts) + tail,
        forall|i: int| 0 <= i < parts.len() ==> (#[trigger] parts[i]).well_formed(),
        ends_with_moves(tail, moves),
        tells(parts, InfoField::Depth, depth),
        tells(parts, InfoField::Multipv, multipv),
        tells(parts, InfoField::Centipawns, centipawns),
        tells(parts, InfoField::Mate, mate),
    ensures
        parsed_info(line) is Some <==> number_told(depth) is Some && (moves.len() > 0 || score_told(
            centipawns,
        ) is Some || score_told(mate) is Some),
        parsed_info(line) matches Some(info) ==> {
            &&& number_told(depth) == Some(info.depth)
            &&& number_told(multipv) is Some ==> number_told(multipv) == Some(info.multipv)
            &&& number_told(multipv) is None ==> info.multipv == 1
            &&& info.line.rank == info.multipv
            &&& score_told(mate) is Some ==> info.line.score == (Score {
                kind: ScoreKind::Mate,
                cp: None,
                mate_in: score_told(mate),
            })
            &&& score_told(mate) is None ==> info.line.score == (Score {
                kind: ScoreKind::Cp,
                cp: score_told(centipawns),
                mate_in: None,
            })
            &&& info.line.pv_uci == moves
            &&& info.line.pv_san.len() == 0
            &&& info.line.captures.len() == 0
            &&& info.line.material_swing == (MaterialSwing {
                white_lost: 0,
                black_lost: 0,
                net_for_stm: 0,
            })
        },
{
    lemma_field_names_differ();
    lemma_tells(parts, depth, multipv, centipawns, mate);
    let tokens = words(trimmed(line));
    let rest = part_tokens(parts) + tail;
    assert(tokens.skip(1) == rest);
    lemma_fields_of_rest(tokens, 1, 0, no_fields());
    lemma_fields_of_parts(parts, tail, no_fields());
    let told = with_parts(no_fields(), parts);
    lemma_keeps_moves(parts, no_fields());
    assert(told.pv == Seq::<Seq<char>>::empty());
    if tail == seq!["pv"@] + moves {
        assert(tail[0] == "pv"@);
        assert(tail.skip(1) == moves);
        assert(told.pv + moves == moves);
    } else {
        assert(moves == Seq::<Seq<char>>::empty());
        assert(info_fields(tail, 0, told) == told);
    }
    assert(info_fields(tail, 0, told) == InfoFields { pv: moves, ..told });
}

proof fn lemma_keeps_moves(parts: Seq<InfoPart>, fields: InfoFields)
    ensures
        with_parts(fields, parts).pv == fields.pv,
    decreases parts.len(),
{
    if parts.len() > 0 {
        lemma_keeps_moves(parts.skip(1), with_part(fields, parts[0]));
    }
}

/// Words that name no field are passed over, wherever they stand between the parts of a
/// report: with them and without them the same is reported.
pub proof fn other_words_change_nothing(
    with: Seq<char>,
    without: Seq<char>,
    before: Seq<InfoPart>,
    other: Seq<Seq<char>>,
    after: Seq<Seq<char>>,
)
    requires
        begins_with(trimmed(with), "info "@),
        begins_with(trimmed(without), "info "@),
        words(trimmed(with)) == seq!["info"@] + part_tokens(before) + other + after,
        words(trimmed(without)) == seq!["info"@] + part_tokens(before) + after,
        forall|i: int| 0 <= i < before.len() ==> (#[trigger] before[i]).well_formed(),
        forall|i: int| 0 <= i < other.len() ==> names_no_field(#[trigger] other[i]),
    ensures
        parsed_info(with) == parsed_info(without),
{
    let noise = other.map_values(|word: Seq<char>| InfoPart { field: InfoField::Word, value: word });
    lemma_part_tokens_of_words(other);
    assert forall|i: int| 0 <= i < noise.len() implies (#[trigger] noise[i]).well_formed() by {
        assert(names_no_field(other[i]));
    }
    let long = words(trimmed(with));
    let short = words(trimmed(without));
    assert(long.skip(1) == part_tokens(before) + (part_tokens(noise) + after));
    assert(short.skip(1) == part_tokens(before) + after);
    lemma_fields_of_rest(long, 1, 0, no_fields());
    lemma_fields_of_rest(short, 1, 0, no_fields());
    let told = with_parts(no_fields(), before);
    lemma_fields_of_parts(before, part_tokens(noise) + after, no_fields());
    lemma_fields_of_parts(before, after, no_fields());
    lemma_fields_of_parts(noise, after, told);
    lemma_words_tell_nothing(noise, told);
}

proof fn lemma_part_tokens_of_words(other: Seq<Seq<char>>)
    ensures
        part_tokens(
            other.map_values(
                |word: Seq<char>| InfoPart { field: InfoField::Word, value: word },
            ),
        ) == other,
    decreases other.len(),
{
    let make = |word: Seq<char>| InfoPart { field: InfoField::Word, value: word };
    let parts = other.map_values(make);
    if other.len() > 0 {
        lemma_part_tokens_of_words(other.skip(1));
        assert(parts.skip(1) == other.skip(1).map_values(make));
        assert(parts[0].tokens() == seq![other[0]]);
        assert(part_tokens(parts) == seq![other[0]] + other.skip(1));
        assert(seq![other[0]] + other.skip(1) == other);
    } else {
        assert(part_tokens(parts) == other);
    }
}

proof fn lemma_words_tell_nothing(parts: Seq<InfoPart>, fields: InfoFields)
    requires
        forall|i: int| 0 <= i < parts.len() ==> (#[trigger] parts[i]).field is Word,
    ensures
        with_parts(fields, parts) == fields,
    decreases parts.len(),
{
    if parts.len() > 0 {
        let rest = parts.skip(1);
        assert(parts[0].field is Word);
        assert forall|i: int| 0 <= i < rest.len() implies (#[trigger] rest[i]).field is Word by {
            assert(rest[i] == parts[i + 1]);
        }
        lemma_words_tell_nothing(rest, fields);
    }
}

/// The words of a report with other words before each of its fields and before its moves.
pub open spec fn scattered_report(
    depth: u32,
    multipv: u32,
    mate: bool,
    value: i32,
    pv: Seq<Seq<char>>,
    first: Seq<Seq<char>>,
    second: Seq<Seq<char>>,
    third: Seq<Seq<char>>,
    fourth: Seq<Seq<char>>,
) -> Seq<Seq<char>> {
    let kind = if mate {
        "mate"@
    } else {
        "cp"@
    };
    seq!["info"@] + first + seq!["depth"@, decimal(depth as nat)] + second + seq![
        "multipv"@,
        decimal(multipv as nat),
    ] + third + seq!["score"@, kind, signed(value as int)] + fourth + seq!["pv"@] + pv
}

/// A report reads back with any words between its fields that name no field.
pub proof fn report_reads_back_among_other_words(
    depth: u32,
    multipv: u32,
    mate: bool,
    value: i32,
    pv: Seq<Seq<char>>,
    first: Seq<Seq<char>>,
    second: Seq<Seq<char>>,
    third: Seq<Seq<char>>,
    fourth: Seq<Seq<char>>,
)
    requires
        pv.len() > 0,
        forall|k: int| 0 <= k < pv.len() ==> is_word(#[trigger] pv[k]),
        !is_white_space(pv.last().last()),
        forall|k: int|
            0 <= k < first.len() ==> is_word(#[trigger] first[k]) && names_no_field(first[k]),
        forall|k: int|
            0 <= k < second.len() ==> is_word(#[trigger] second[k]) && names_no_field(second[k]),
        forall|k: int|
            0 <= k < third.len() ==> is_word(#[trigger] third[k]) && names_no_field(third[k]),
        forall|k: int|
            0 <= k < fourth.len() ==> is_word(#[trigger] fourth[k]) && names_no_field(fourth[k]),
    ensures
        parsed_info(
            join(
                scattered_report(depth, multipv, mate, value, pv, first, second, third, fourth),
                seq![' '],
            ),
        ) == Some(
            ParsedInfoView {
                depth,
                multipv,
                line: AnalysisLineView {
                    rank: multipv,
                    score: if mate {
                        Score { kind: ScoreKind::Mate, cp: None, mate_in: Some(value) }
                    } else {
                        Score { kind: ScoreKind::Cp, cp: Some(value), mate_in: None }
                    },
                    pv_uci: pv,
                    pv_san: seq![],
                    captures: seq![],
                    material_swing: MaterialSwing { white_lost: 0, black_lost: 0, net_for_stm: 0 },
                },
            },
        ),
{
    read_of_decimal(depth as nat);
    read_of_decimal(multipv as nat);
    lemma_read_of_signed(value);
    let make = |word: Seq<char>| InfoPart { field: InfoField::Word, value: word };
    let told_depth = InfoPart { field: InfoField::Depth, value: decimal(depth as nat) };
    let told_rank = InfoPart { field: InfoField::Multipv, value: decimal(multipv as nat) };
    let told_score = InfoPart {
        field: if mate {
            InfoField::Mate
        } else {
            InfoField::Centipawns
        },
        value: signed(value as int),
    };
    let a = first.map_values(make);
    let b = second.map_values(make);
    let c = third.map_values(make);
    let d = fourth.map_values(make);
    lemma_part_tokens_of_words(first);
    lemma_part_tokens_of_words(second);
    lemma_part_tokens_of_words(third);
    lemma_part_tokens_of_words(fourth);
    let parts = a + seq![told_depth] + b + seq![told_rank] + c + seq![told_score] + d;
    let tail = seq!["pv"@] + pv;
    let middle = part_tokens(parts);
    let i1 = a.len() as int;
    let i2 = i1 + 1 + b.len() as int;
    let i3 = i2 + 1 + c.len() as int;
    assert(parts[i1] == told_depth);
    assert(parts[i2] == told_rank);
    assert(parts[i3] == told_score);
    assert forall|j: int| 0 <= j < parts.len() && j != i1 && j != i2 && j != i3 implies (
    #[trigger] parts[j]).field is Word && parts[j].well_formed() by {
        if j < i1 {
            assert(parts[j] == make(first[j]));
        } else if j < i2 {
            assert(parts[j] == make(second[j - i1 - 1]));
        } else if j < i3 {
            assert(parts[j] == make(third[j - i2 - 1]));
        } else {
            assert(parts[j] == make(fourth[j - i3 - 1]));
        }
    }
    assert(middle == first + seq!["depth"@, decimal(depth as nat)] + second + seq![
        "multipv"@,
        decimal(multipv as nat),
    ] + third + told_score.tokens() + fourth) by {
        lemma_part_tokens_add(a + seq![told_depth] + b + seq![told_rank] + c + seq![told_score], d);
        lemma_part_tokens_add(a + seq![told_depth] + b + seq![told_rank] + c, seq![told_score]);
        lemma_part_tokens_add(a + seq![told_depth] + b + seq![told_rank], c);
        lemma_part_tokens_add(a + seq![told_depth] + b, seq![told_rank]);
        lemma_part_tokens_add(a + seq![told_depth], b);
        lemma_part_tokens_add(a, seq![told_depth]);
        lemma_part_tokens_of_one(told_depth);
        lemma_part_tokens_of_one(told_rank);
        lemma_part_tokens_of_one(told_score);
    }
    let tokens = scattered_report(depth, multipv, mate, value, pv, first, second, third, fourth);
    assert(tokens == seq!["info"@] + middle + tail);
    lemma_report_words(depth, multipv, mate, value, pv, first, second, third, fourth);
    let line = join(tokens, seq![' ']);
    lemma_line_of_tokens(tokens);
    let text = Some(signed(value as int));
    report_is_read_part_by_part(
        line,
        parts,
        tail,
        pv,
        Some(decimal(depth as nat)),
        Some(decimal(multipv as nat)),
        if mate {
            None
        } else {
            text
        },
        if mate {
            text
        } else {
            None
        },
    );
    let info = parsed_info(line)->0;
    assert(info.line.pv_san == Seq::<Seq<char>>::empty());
    assert(info.line.captures == Seq::<CaptureView>::empty());
}

proof fn lemma_report_words(
    depth: u32,
    multipv: u32,
    mate: bool,
    value: i32,
    pv: Seq<Seq<char>>,
    first: Seq<Seq<char>>,
    second: Seq<Seq<char>>,
    third: Seq<Seq<char>>,
    fourth: Seq<Seq<char>>,
)
    requires
        forall|k: int| 0 <= k < pv.len() ==> is_word(#[trigger] pv[k]),
        forall|k: int| 0 <= k < first.len() ==> is_word(#[trigger] first[k]),
        forall|k: int| 0 <= k < second.len() ==> is_word(#[trigger] second[k]),
        forall|k: int| 0 <= k < third.len() ==> is_word(#[trigger] third[k]),
        forall|k: int| 0 <= k < fourth.len() ==> is_word(#[trigger] fourth[k]),
    ensures
        ({
            let tokens = scattered_report(depth, multipv, mate, value, pv, first, second, third, fourth);
            forall|k: int| 0 <= k < tokens.len() ==> is_word(#[trigger] tokens[k])
        }),
{
    reveal_strlit("info");
    reveal_strlit("depth");
    reveal_strlit("multipv");
    reveal_strlit("score");
    reveal_strlit("cp");
    reveal_strlit("mate");
    reveal_strlit("pv");
    read_of_decimal(depth as nat);
    read_of_decimal(multipv as nat);
    lemma_read_of_signed(value);
    let kind = if mate {
        "mate"@
    } else {
        "cp"@
    };
    lemma_words_add(seq!["info"@], first);
    let a = seq!["info"@] + first;
    let b = seq!["depth"@, decimal(depth as nat)];
    lemma_words_add(a, b);
    lemma_words_add(a + b, second);
    let c = seq!["multipv"@, decimal(multipv as nat)];
    lemma_words_add(a + b + second, c);
    lemma_words_add(a + b + second + c, third);
    let d = seq!["score"@, kind, signed(value as int)];
    lemma_words_add(a + b + second + c + third, d);
    lemma_words_add(a + b + second + c + third + d, fourth);
    lemma_words_add(a + b + second + c + third + d + fourth, seq!["pv"@]);
    lemma_words_add(a + b + second + c + third + d + fourth + seq!["pv"@], pv);
}

proof fn lemma_words_add(a: Seq<Seq<char>>, b: Seq<Seq<char>>)
    requires
        forall|k: int| 0 <= k < a.len() ==> is_word(#[trigger] a[k]),
        forall|k: int| 0 <= k < b.len() ==> is_word(#[trigger] b[k]),
    ensures
        forall|k: int| 0 <= k < (a + b).len() ==> is_word(#[trigger] (a + b)[k]),
{
    assert forall|k: int| 0 <= k < (a + b).len() implies is_word(#[trigger] (a + b)[k]) by {
        if k < a.len() {
            assert((a + b)[k] == a[k]);
        } else {
            assert((a + b)[k] == b[k - a.len()]);
        }
    }
}

proof fn lemma_part_tokens_of_one(part: InfoPart)
    ensures
        part_tokens(seq![part]) == part.tokens(),
{
    assert(seq![part].skip(1) == Seq::<InfoPart>::empty());
    assert(part_tokens(Seq::<InfoPart>::empty()) == Seq::<Seq<char>>::empty());
    assert(part.tokens() + Seq::<Seq<char>>::empty() == part.tokens());
}

proof fn lemma_part_tokens_add(a: Seq<InfoPart>, b: Seq<InfoPart>)
    ensures
        part_tokens(a + b) == part_tokens(a) + part_tokens(b),
    decreases a.len(),
{
    if a.len() == 0 {
        assert(a + b == b);
        assert(part_tokens(a) + part_tokens(b) == part_tokens(b));
    } else {
        assert((a + b).skip(1) == a.skip(1) + b);
        assert((a + b)[0] == a[0]);
        lemma_part_tokens_add(a.skip(1), b);
        assert(part_tokens(a + b) == part_tokens(a) + part_tokens(b));
    }
}

proof fn lemma_line_of_tokens(tokens: Seq<Seq<char>>)
    requires
        tokens.len() >= 2,
        tokens[0] == "info"@,
        forall|k: int| 0 <= k < tokens.len() ==> is_word(#[trigger] tokens[k]),
        !is_white_space(tokens.last().last()),
    ensures
        begins_with(trimmed(join(tokens, seq![' '])), "info "@),
        words(trimmed(join(tokens, seq![' ']))) == tokens,
{
    reveal_strlit("info");
    reveal_strlit("info ");
    let line = join(tokens, seq![' ']);
    assert(is_word(tokens.last()));
    lemma_join_starts(tokens);
    lemma_join_ends(tokens);
    assert(line[0] == tokens[0][0]) by {
        assert(line.take(4)[0] == line[0]);
    }
    assert(trimmed(line) == line);
    assert(line.take(5) == "info "@) by {
        assert(line.take(4) == "info"@);
        assert forall|i: int| 0 <= i < 5 implies line.take(5)[i] == "info "@[i] by {
            if i < 4 {
                assert(line.take(4)[i] == line[i]);
            }
        }
    }
    words_of_join(tokens);
}

/// The words of every report fall into parts and an ending: those that are returned.
pub proof fn every_report_has_parts(tokens: Seq<Seq<char>>) -> (r: (
    Seq<InfoPart>,
    Seq<Seq<char>>,
    Seq<Seq<char>>,
))
    ensures
        tokens == part_tokens(r.0) + r.1,
        forall|i: int| 0 <= i < r.0.len() ==> (#[trigger] r.0[i]).well_formed(),
        ends_with_moves(r.1, r.2),
    decreases tokens.len(),
{
    lemma_field_names_differ();
    let none = Seq::<InfoPart>::empty();
    let n = tokens.len();
    assert(part_tokens(none) + tokens == tokens);
    if n == 0 {
        (none, tokens, seq![])
    } else if tokens[0] == "pv"@ {
        assert(tokens == seq!["pv"@] + tokens.skip(1));
        (none, tokens, tokens.skip(1))
    } else if n == 1 && !names_no_field(tokens[0]) {
        assert(tokens == seq![tokens[0]]);
        (none, tokens, seq![])
    } else if n == 2 && tokens[0] == "score"@ {
        (none, tokens, seq![])
    } else {
        let part = if tokens[0] == "depth"@ {
            InfoPart { field: InfoField::Depth, value: tokens[1] }
        } else if tokens[0] == "multipv"@ {
            InfoPart { field: InfoField::Multipv, value: tokens[1] }
        } else if tokens[0] == "score"@ {
            InfoPart {
                field: if tokens[1] == "cp"@ {
                    InfoField::Centipawns
                } else if tokens[1] == "mate"@ {
                    InfoField::Mate
                } else {
                    InfoField::OtherScore(tokens[1])
                },
                value: tokens[2],
            }
        } else {
            InfoPart { field: InfoField::Word, value: tokens[0] }
        };
        let k = part.tokens().len() as int;
        let (parts, tail, moves) = every_report_has_parts(tokens.skip(k));
        let all = seq![part] + parts;
        assert(all.skip(1) == parts);
        assert(tokens == part.tokens() + tokens.skip(k));
        assert(part_tokens(all) + tail == part.tokens() + (part_tokens(parts) + tail));
        assert forall|i: int| 0 <= i < all.len() implies (#[trigger] all[i]).well_formed() by {
            if i > 0 {
                assert(all[i] == parts[i - 1]);
            }
        }
        (all, tail, moves)
    }
}

/// A line that does not begin with `info` reports nothing, and white space around a line
/// changes nothing.
pub proof fn what_is_no_report(line: Seq<char>)
    ensures
        !begins_with(trimmed(line), "info "@) ==> parsed_info(line) is None,
        parsed_info(trimmed(line)) == parsed_info(line),
{
    crate::text::trimming_is_idempotent(line);
}

/// The options that a fresh engine is given: three threads, a hash of 128 megabytes, the mode
/// for analysis and no contempt, and no other.
pub proof fn what_the_default_options_are()
    ensures
        option_value(default_options(), "Threads"@) == Some(decimal(3)),
        option_value(default_options(), "Hash"@) == Some(decimal(128)),
        option_value(default_options(), "UCI_AnalyseMode"@) == Some("true"@),
        option_value(default_options(), "Contempt"@) == Some("0"@),
        default_options().len() == 4,
{
    reveal_strlit("Threads");
    reveal_strlit("Hash");
    reveal_strlit("UCI_AnalyseMode");
    reveal_strlit("Contempt");
    reveal_with_fuel(option_value, 5);
    let options = default_options();
    assert(options.skip(1)[0] == options[1]);
    assert(options.skip(1).skip(1)[0] == options[2]);
    assert(options.skip(1).skip(1).skip(1)[0] == options[3]);
    assert("Contempt"@.len() == 8 && "Hash"@.len() == 4 && "Threads"@.len() == 7
        && "UCI_AnalyseMode"@.len() == 15);
}

/// An engine that was given a number of candidates has just this option changed; one that is
/// not up has nothing changed.
pub proof fn what_a_number_of_candidates_changes(engine: EngineView, multipv: u32, name: Seq<char>)
    ensures
        engine.with_multipv(multipv).path == engine.path,
        engine.with_multipv(multipv).quoted == engine.quoted,
        engine.running is None ==> engine.with_multipv(multipv).running is None,
        engine.running matches Some(running) ==> {
            let after = engine.with_multipv(multipv).running;
            &&& after is Some
            &&& after->0.name == running.name
            &&& option_value(after->0.uci_options, "MultiPV"@) == Some(decimal(multipv as nat))
            &&& name != "MultiPV"@ ==> option_value(after->0.uci_options, name) == option_value(
                running.uci_options,
                name,
            )
        },
{
    if let Some(running) = engine.running {
        let value = decimal(multipv as nat);
        set_then_read(running.uci_options, "MultiPV"@, value, name);
        set_then_read(running.uci_options, "MultiPV"@, value, "MultiPV"@);
    }
}

/// What is known of an engine is known just while it is up.
pub proof fn what_is_known_of_an_engine(engine: EngineView)
    ensures
        engine.status() is Some <==> engine.running is Some,
        engine.status() matches Some(info) ==> {
            &&& info.available
            &&& info.path == engine.path
            &&& info.name == engine.running->0.name
            &&& info.uci_options == engine.running->0.uci_options
        },
{
}

/// An engine that cannot be started is unavailable at its path; every other fault is an
/// internal one. The message says what failed and ends with what the system said.
pub proof fn how_faults_are_reported(path: Seq<char>, said: Seq<char>)
    ensures
        fault_error(EngineFaultView::Spawn(said), path) == (ChessErrorView::EngineUnavailable {
            message: "failed to spawn Stockfish: "@ + said,
            expected_path: path,
        }),
        fault_error(EngineFaultView::Write(said), path) == (ChessErrorView::Internal {
            message: "failed writing to engine: "@ + said,
        }),
        fault_error(EngineFaultView::Flush(said), path) == (ChessErrorView::Internal {
            message: "failed flushing engine stdin: "@ + said,
        }),
        fault_error(EngineFaultView::NoStdin, path) == (ChessErrorView::Internal {
            message: "failed to open Stockfish stdin"@,
        }),
        fault_error(EngineFaultView::NoStdout, path) == (ChessErrorView::Internal {
            message: "failed to open Stockfish stdout"@,
        }),
{
}

} // verus!
