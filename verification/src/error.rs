//! The errors that a tool reports, and the payload that describes one.

use vstd::prelude::*;
use crate::text::{concat2, copy_texts, decimal, decimal_text, texts};

verus! {

/// What kind of error a tool reports.
#[derive(Debug, Clone, Copy, PartialEq, Eq, Structural)]
pub enum ErrorCode {
    InvalidFen,
    IllegalMove,
    EngineUnavailable,
    EngineTimeout,
    AnalysisCancelled,
    SessionNotFound,
    InvalidArgument,
    Internal,
}

/// The name of a code on the wire.
pub open spec fn code_name(code: ErrorCode) -> Seq<char> {
    match code {
        ErrorCode::InvalidFen => "invalid_fen"@,
        ErrorCode::IllegalMove => "illegal_move"@,
        ErrorCode::EngineUnavailable => "engine_unavailable"@,
        ErrorCode::EngineTimeout => "engine_timeout"@,
        ErrorCode::AnalysisCancelled => "analysis_cancelled"@,
        ErrorCode::SessionNotFound => "session_not_found"@,
        ErrorCode::InvalidArgument => "invalid_argument"@,
        ErrorCode::Internal => "internal"@,
    }
}

impl ErrorCode {
    pub fn as_str(self) -> (r: &'static str)
        ensures
            r@ == code_name(self),
    {
        match self {
            ErrorCode::InvalidFen => "invalid_fen",
            ErrorCode::IllegalMove => "illegal_move",
            ErrorCode::EngineUnavailable => "engine_unavailable",
            ErrorCode::EngineTimeout => "engine_timeout",
            ErrorCode::AnalysisCancelled => "analysis_cancelled",
            ErrorCode::SessionNotFound => "session_not_found",
            ErrorCode::InvalidArgument => "invalid_argument",
            ErrorCode::Internal => "internal",
        }
    }
}

/// An error with what a client needs to act on it.
#[derive(Debug)]
pub enum ChessError {
    InvalidFen { message: String, fen: String },
    IllegalMove {
        attempted: String,
        message: String,
        current_fen: String,
        legal_moves: Vec<String>,
    },
    EngineUnavailable { message: String, expected_path: String },
    EngineTimeout { depth: u32, elapsed_ms: u64, partial_available: bool },
    AnalysisCancelled,
    SessionNotFound { session_id: String },
    InvalidArgument(String),
    Internal(String),
}

pub type ChessResult<T> = Result<T, ChessError>;

/// The contents of a `ChessError`.
pub enum ChessErrorView {
    InvalidFen { message: Seq<char>, fen: Seq<char> },
    IllegalMove {
        attempted: Seq<char>,
        message: Seq<char>,
        current_fen: Seq<char>,
        legal_moves: Seq<Seq<char>>,
    },
    EngineUnavailable { message: Seq<char>, expected_path: Seq<char> },
    EngineTimeout { depth: u32, elapsed_ms: u64, partial_available: bool },
    AnalysisCancelled,
    SessionNotFound { session_id: Seq<char> },
    InvalidArgument { message: Seq<char> },
    Internal { message: Seq<char> },
}

impl View for ChessError {
    type V = ChessErrorView;

    open spec fn view(&self) -> ChessErrorView {
        match *self {
            ChessError::InvalidFen { message, fen } => ChessErrorView::InvalidFen {
                message: message@,
                fen: fen@,
            },
            ChessError::IllegalMove { attempted, message, current_fen, legal_moves } => {
                ChessErrorView::IllegalMove {
                    attempted: attempted@,
                    message: message@,
                    current_fen: current_fen@,
                    legal_moves: texts(legal_moves@),
                }
            },
            ChessError::EngineUnavailable { message, expected_path } => {
                ChessErrorView::EngineUnavailable {
                    message: message@,
                    expected_path: expected_path@,
                }
            },
            ChessError::EngineTimeout { depth, elapsed_ms, partial_available } => {
                ChessErrorView::EngineTimeout { depth, elapsed_ms, partial_available }
            },
            ChessError::AnalysisCancelled => ChessErrorView::AnalysisCancelled,
            ChessError::SessionNotFound { session_id } => ChessErrorView::SessionNotFound {
                session_id: session_id@,
            },
            ChessError::InvalidArgument(message) => ChessErrorView::InvalidArgument {
                message: message@,
            },
            ChessError::Internal(message) => ChessErrorView::Internal { message: message@ },
        }
    }
}

/// The value of one field of an error's details.
#[derive(Debug)]
pub enum Detail {
    Text(String),
    Number(u64),
    Flag(bool),
    Texts(Vec<String>),
}

/// The contents of a `Detail`.
pub enum DetailView {
    Text(Seq<char>),
    Number(u64),
    Flag(bool),
    Texts(Seq<Seq<char>>),
}

impl View for Detail {
    type V = DetailView;

    open spec fn view(&self) -> DetailView {
        match *self {
            Detail::Text(s) => DetailView::Text(s@),
            Detail::Number(n) => DetailView::Number(n),
            Detail::Flag(b) => DetailView::Flag(b),
            Detail::Texts(list) => DetailView::Texts(texts(list@)),
        }
    }
}

/// The named fields of an object, in order.
pub open spec fn fields_view(fields: Seq<(String, Detail)>) -> Seq<(Seq<char>, DetailView)> {
    fields.map_values(|f: (String, Detail)| (f.0@, f.1@))
}

/// The payload `{"error": {"code", "message", "details"}}` of an error.
#[derive(Debug)]
pub struct ErrorPayload {
    pub code: &'static str,
    pub message: String,
    pub details: Vec<(String, Detail)>,
}

impl ChessErrorView {
    /// The code of the error.
    pub open spec fn code(self) -> ErrorCode {
        match self {
            ChessErrorView::InvalidFen { .. } => ErrorCode::InvalidFen,
            ChessErrorView::IllegalMove { .. } => ErrorCode::IllegalMove,
            ChessErrorView::EngineUnavailable { .. } => ErrorCode::EngineUnavailable,
            ChessErrorView::EngineTimeout { .. } => ErrorCode::EngineTimeout,
            ChessErrorView::AnalysisCancelled => ErrorCode::AnalysisCancelled,
            ChessErrorView::SessionNotFound { .. } => ErrorCode::SessionNotFound,
            ChessErrorView::InvalidArgument { .. } => ErrorCode::InvalidArgument,
            ChessErrorView::Internal { .. } => ErrorCode::Internal,
        }
    }

    /// The sentence that describes the error.
    pub open spec fn sentence(self) -> Seq<char> {
        match self {
            ChessErrorView::InvalidFen { message, .. } => "invalid FEN: "@ + message,
            ChessErrorView::IllegalMove { attempted, message, .. } => "illegal move "@ + attempted
                + ": "@ + message,
            ChessErrorView::EngineUnavailable { message, .. } => "Stockfish engine unavailable: "@
                + message,
            ChessErrorView::EngineTimeout { depth, elapsed_ms, .. } => "engine timed out after "@
                + decimal(elapsed_ms as nat) + " ms at depth "@ + decimal(depth as nat),
            ChessErrorView::AnalysisCancelled => "analysis cancelled"@,
            ChessErrorView::SessionNotFound { session_id } => "session not found: "@ + session_id,
            ChessErrorView::InvalidArgument { message } => "invalid argument: "@ + message,
            ChessErrorView::Internal { message } => "internal error: "@ + message,
        }
    }

    /// The fields that tell a client more about the error.
    pub open spec fn details(self) -> Seq<(Seq<char>, DetailView)> {
        match self {
            ChessErrorView::InvalidFen { message, fen } => seq![
                ("fen"@, DetailView::Text(fen)),
                ("parser_message"@, DetailView::Text(message)),
            ],
            ChessErrorView::IllegalMove { attempted, current_fen, legal_moves, .. } => seq![
                ("attempted"@, DetailView::Text(attempted)),
                ("format"@, DetailView::Text("uci"@)),
                ("current_fen"@, DetailView::Text(current_fen)),
                ("legal_moves"@, DetailView::Texts(legal_moves)),
            ],
            ChessErrorView::EngineUnavailable { expected_path, .. } => seq![
                ("expected_path"@, DetailView::Text(expected_path)),
                (
                    "hint"@,
                    DetailView::Text(
                        "Place Stockfish at the expected path or set CHESS_MCP_STOCKFISH_PATH."@,
                    ),
                ),
            ],
            ChessErrorView::EngineTimeout { depth, elapsed_ms, partial_available } => seq![
                ("depth"@, DetailView::Number(depth as u64)),
                ("elapsed_ms"@, DetailView::Number(elapsed_ms)),
                ("partial_available"@, DetailView::Flag(partial_available)),
            ],
            ChessErrorView::SessionNotFound { session_id } => seq![
                ("session_id"@, DetailView::Text(session_id)),
            ],
            ChessErrorView::AnalysisCancelled => seq![],
            ChessErrorView::InvalidArgument { .. } => seq![],
            ChessErrorView::Internal { .. } => seq![],
        }
    }
}

fn text_field(name: &str, value: &str) -> (r: (String, Detail))
    ensures
        r.0@ == name@,
        r.1@ == DetailView::Text(value@),
{
    (name.to_owned(), Detail::Text(value.to_owned()))
}

impl ChessError {
    pub fn code(&self) -> (r: ErrorCode)
        ensures
            r == self@.code(),
    {
        match self {
            ChessError::InvalidFen { .. } => ErrorCode::InvalidFen,
            ChessError::IllegalMove { .. } => ErrorCode::IllegalMove,
            ChessError::EngineUnavailable { .. } => ErrorCode::EngineUnavailable,
            ChessError::EngineTimeout { .. } => ErrorCode::EngineTimeout,
            ChessError::AnalysisCancelled => ErrorCode::AnalysisCancelled,
            ChessError::SessionNotFound { .. } => ErrorCode::SessionNotFound,
            ChessError::InvalidArgument(_) => ErrorCode::InvalidArgument,
            ChessError::Internal(_) => ErrorCode::Internal,
        }
    }

    /// The sentence that describes the error.
    pub fn message(&self) -> (r: String)
        ensures
            r@ == self@.sentence(),
    {
        match self {
            ChessError::InvalidFen { message, .. } => concat2("invalid FEN: ", message.as_str()),
            ChessError::IllegalMove { attempted, message, .. } => concat2(
                "illegal move ",
                attempted.as_str(),
            ).concat(": ").concat(message.as_str()),
            ChessError::EngineUnavailable { message, .. } => concat2(
                "Stockfish engine unavailable: ",
                message.as_str(),
            ),
            ChessError::EngineTimeout { depth, elapsed_ms, .. } => {
                let elapsed = decimal_text(*elapsed_ms);
                let at_depth = decimal_text(*depth as u64);
                concat2("engine timed out after ", elapsed.as_str()).concat(
                    " ms at depth ",
                ).concat(at_depth.as_str())
            },
            ChessError::AnalysisCancelled => "analysis cancelled".to_owned(),
            ChessError::SessionNotFound { session_id } => concat2(
                "session not found: ",
                session_id.as_str(),
            ),
            ChessError::InvalidArgument(message) => concat2("invalid argument: ", message.as_str()),
            ChessError::Internal(message) => concat2("internal error: ", message.as_str()),
        }
    }

    /// The fields that tell a client more about the error.
    pub fn details(&self) -> (r: Vec<(String, Detail)>)
        ensures
            fields_view(r@) == self@.details(),
    {
        let mut out: Vec<(String, Detail)> = Vec::new();
        match self {
            ChessError::InvalidFen { fen, message } => {
                out.push(text_field("fen", fen.as_str()));
                out.push(text_field("parser_message", message.as_str()));
            },
            ChessError::IllegalMove { attempted, current_fen, legal_moves, .. } => {
                out.push(text_field("attempted", attempted.as_str()));
                out.push(text_field("format", "uci"));
                out.push(text_field("current_fen", current_fen.as_str()));
                out.push(("legal_moves".to_owned(), Detail::Texts(copy_texts(legal_moves))));
            },
            ChessError::EngineUnavailable { expected_path, .. } => {
                out.push(text_field("expected_path", expected_path.as_str()));
                out.push(
                    text_field(
                        "hint",
                        "Place Stockfish at the expected path or set CHESS_MCP_STOCKFISH_PATH.",
                    ),
                );
            },
            ChessError::EngineTimeout { depth, elapsed_ms, partial_available } => {
                out.push(("depth".to_owned(), Detail::Number(*depth as u64)));
                out.push(("elapsed_ms".to_owned(), Detail::Number(*elapsed_ms)));
                out.push(("partial_available".to_owned(), Detail::Flag(*partial_available)));
            },
            ChessError::SessionNotFound { session_id } => {
                out.push(text_field("session_id", session_id.as_str()));
            },
            ChessError::AnalysisCancelled => {},
            ChessError::InvalidArgument(_) => {},
            ChessError::Internal(_) => {},
        }
        assert(fields_view(out@) == self@.details());
        out
    }

    /// The payload that reports the error.
    pub fn to_payload(&self) -> (r: ErrorPayload)
        ensures
            r.code@ == code_name(self@.code()),
            r.message@ == self@.sentence(),
            fields_view(r.details@) == self@.details(),
    {
        ErrorPayload {
            code: self.code().as_str(),
            message: self.message(),
            details: self.details(),
        }
    }
}

/// Different codes have different names.
pub proof fn code_names_differ(a: ErrorCode, b: ErrorCode)
    requires
        a != b,
    ensures
        code_name(a) != code_name(b),
{
    reveal_strlit("invalid_fen");
    reveal_strlit("illegal_move");
    reveal_strlit("engine_unavailable");
    reveal_strlit("engine_timeout");
    reveal_strlit("analysis_cancelled");
    reveal_strlit("session_not_found");
    reveal_strlit("invalid_argument");
    reveal_strlit("internal");
    assert(code_name(a).len() != code_name(b).len() || code_name(a)[0] != code_name(b)[0]
        || code_name(a)[1] != code_name(b)[1]);
}

/// The sentence of an error begins with its kind and ends with what is known of it.
pub proof fn what_an_error_says(
    message: Seq<char>,
    text: Seq<char>,
    fen: Seq<char>,
    moves: Seq<Seq<char>>,
    depth: u32,
    elapsed: u64,
    partial: bool,
)
    ensures
        (ChessErrorView::InvalidFen { message, fen }).sentence() == "invalid FEN: "@ + message,
        (ChessErrorView::IllegalMove {
            attempted: text,
            message,
            current_fen: fen,
            legal_moves: moves,
        }).sentence() == "illegal move "@ + text + ": "@ + message,
        (ChessErrorView::EngineUnavailable { message, expected_path: text }).sentence()
            == "Stockfish engine unavailable: "@ + message,
        (ChessErrorView::EngineTimeout {
            depth,
            elapsed_ms: elapsed,
            partial_available: partial,
        }).sentence() == "engine timed out after "@ + decimal(elapsed as nat) + " ms at depth "@
            + decimal(depth as nat),
        ChessErrorView::AnalysisCancelled.sentence() == "analysis cancelled"@,
        (ChessErrorView::SessionNotFound { session_id: text }).sentence() == "session not found: "@
            + text,
        (ChessErrorView::InvalidArgument { message }).sentence() == "invalid argument: "@ + message,
        (ChessErrorView::Internal { message }).sentence() == "internal error: "@ + message,
{
}

/// Whether a field with this value is among the details.
pub open spec fn has_detail(
    details: Seq<(Seq<char>, DetailView)>,
    name: Seq<char>,
    value: DetailView,
) -> bool {
    details.contains((name, value))
}

/// The details of an error hold all that it carries, unshortened, each under its own name.
pub proof fn what_the_details_hold(
    message: Seq<char>,
    text: Seq<char>,
    fen: Seq<char>,
    moves: Seq<Seq<char>>,
    depth: u32,
    elapsed: u64,
    partial: bool,
)
    ensures
        ({
            let d = (ChessErrorView::InvalidFen { message, fen }).details();
            &&& d.len() == 2
            &&& has_detail(d, "fen"@, DetailView::Text(fen))
            &&& has_detail(d, "parser_message"@, DetailView::Text(message))
        }),
        ({
            let d = (ChessErrorView::IllegalMove {
                attempted: text,
                message,
                current_fen: fen,
                legal_moves: moves,
            }).details();
            &&& d.len() == 4
            &&& has_detail(d, "attempted"@, DetailView::Text(text))
            &&& has_detail(d, "format"@, DetailView::Text("uci"@))
            &&& has_detail(d, "current_fen"@, DetailView::Text(fen))
            &&& has_detail(d, "legal_moves"@, DetailView::Texts(moves))
        }),
        ({
            let d = (ChessErrorView::EngineUnavailable { message, expected_path: text }).details();
            &&& d.len() == 2
            &&& has_detail(d, "expected_path"@, DetailView::Text(text))
            &&& has_detail(
                d,
                "hint"@,
                DetailView::Text(
                    "Place Stockfish at the expected path or set CHESS_MCP_STOCKFISH_PATH."@,
                ),
            )
        }),
        ({
            let d = (ChessErrorView::EngineTimeout {
                depth,
                elapsed_ms: elapsed,
                partial_available: partial,
            }).details();
            &&& d.len() == 3
            &&& has_detail(d, "depth"@, DetailView::Number(depth as u64))
            &&& has_detail(d, "elapsed_ms"@, DetailView::Number(elapsed))
            &&& has_detail(d, "partial_available"@, DetailView::Flag(partial))
        }),
        ({
            let d = (ChessErrorView::SessionNotFound { session_id: text }).details();
            &&& d.len() == 1
            &&& has_detail(d, "session_id"@, DetailView::Text(text))
        }),
        ChessErrorView::AnalysisCancelled.details().len() == 0,
        (ChessErrorView::InvalidArgument { message }).details().len() == 0,
        (ChessErrorView::Internal { message }).details().len() == 0,
{
    let a = (ChessErrorView::InvalidFen { message, fen }).details();
    assert(a[0] == ("fen"@, DetailView::Text(fen)));
    assert(a[1] == ("parser_message"@, DetailView::Text(message)));
    let b = (ChessErrorView::IllegalMove {
        attempted: text,
        message,
        current_fen: fen,
        legal_moves: moves,
    }).details();
    assert(b[0] == ("attempted"@, DetailView::Text(text)));
    assert(b[1] == ("format"@, DetailView::Text("uci"@)));
    assert(b[2] == ("current_fen"@, DetailView::Text(fen)));
    assert(b[3] == ("legal_moves"@, DetailView::Texts(moves)));
    let c = (ChessErrorView::EngineUnavailable { message, expected_path: text }).details();
    assert(c[0] == ("expected_path"@, DetailView::Text(text)));
    assert(c[1].0 == "hint"@);
    let d = (ChessErrorView::EngineTimeout {
        depth,
        elapsed_ms: elapsed,
        partial_available: partial,
    }).details();
    assert(d[0] == ("depth"@, DetailView::Number(depth as u64)));
    assert(d[1] == ("elapsed_ms"@, DetailView::Number(elapsed)));
    assert(d[2] == ("partial_available"@, DetailView::Flag(partial)));
    let e = (ChessErrorView::SessionNotFound { session_id: text }).details();
    assert(e[0] == ("session_id"@, DetailView::Text(text)));
}

/// Each kind of error goes under a code of its own, whatever it carries.
pub proof fn which_code_an_error_has(error: ChessErrorView)
    ensures
        error is InvalidFen ==> code_name(error.code()) == "invalid_fen"@,
        error is IllegalMove ==> code_name(error.code()) == "illegal_move"@,
        error is EngineUnavailable ==> code_name(error.code()) == "engine_unavailable"@,
        error is EngineTimeout ==> code_name(error.code()) == "engine_timeout"@,
        error is AnalysisCancelled ==> code_name(error.code()) == "analysis_cancelled"@,
        error is SessionNotFound ==> code_name(error.code()) == "session_not_found"@,
        error is InvalidArgument ==> code_name(error.code()) == "invalid_argument"@,
        error is Internal ==> code_name(error.code()) == "internal"@,
{
}

} // verus!
