//! The tools of the server: what each of them does to the server's state and replies.

use vstd::prelude::*;
use crate::board::{
    accepted_text_plays_the_move_it_denotes, follows_by, move_outcome, opened,
    undo_goes_back_along_the_line, undo_reverts_moves, BoardSession, BoardSnapshot,
    BoardSnapshotView, SessionView,
};
use crate::cache::{
    after_get, after_put, distinct_keys, get_keeps_the_cache_well_formed, keys_ignore_clocks,
    put_evicts_only_the_least_recently_used, put_then_get, stored, stored_is_an_entry,
    AnalysisCache, AnalysisResult, AnalysisResultView, CacheKey, Entry, KeyView,
};
use crate::config::ResolvedConfig;
use crate::engine::{
    default_options, default_uci_options, Engine, EngineInfo, EngineInfoView, EngineView,
    DEFAULT_DEPTH, DEFAULT_MULTIPV,
};
use crate::error::{ChessError, ChessErrorView};
use crate::fen::{normal_form_in_words, normalized};
use crate::handshake::Running;
use crate::options::names_ascend;
use crate::path::{path_copy, path_debug, path_text};
use crate::position::{leads_on, line_of_play, parsed_position, MoveView};
use crate::search::{AnalysisRequest, ProgressEvent, ProgressView, RequestView};
use crate::text::{concat2, concat3, decimal, decimal_text, maybe_text, same_text, texts, words};

verus! {

pub const SESSION_RESOURCE_URI: &'static str = "chess://session/current";

pub const ENGINE_RESOURCE_URI: &'static str = "chess://engine/status";

/// What a new board starts from.
#[derive(Debug)]
pub struct CreateBoardArgs {
    /// Starting FEN. When omitted the standard starting position is used.
    pub fen: Option<String>,
    /// Optional UCI moves applied after the base FEN.
    pub moves_uci: Vec<String>,
}

#[derive(Debug)]
pub struct SessionIdArgs {
    pub session_id: String,
}

#[derive(Debug)]
pub struct MakeMoveArgs {
    pub session_id: String,
    /// Move in UCI notation, e.g. `e2e4` or `e7e8q`.
    pub mv: String,
}

#[derive(Debug)]
pub struct UndoMoveArgs {
    pub session_id: String,
    pub plies: u32,
}

/// What is to be analysed: a session's position or a FEN, and how.
#[derive(Debug)]
pub struct AnalyzePositionArgs {
    /// Use the position from this session. Mutually exclusive with `fen`.
    pub session_id: Option<String>,
    /// Analyze this raw FEN. Mutually exclusive with `session_id`.
    pub fen: Option<String>,
    pub depth: u32,
    pub multipv: u32,
}

/// The contents of an `AnalyzePositionArgs`.
pub struct AnalyzeView {
    pub session_id: Option<Seq<char>>,
    pub fen: Option<Seq<char>>,
    pub depth: u32,
    pub multipv: u32,
}

impl View for AnalyzePositionArgs {
    type V = AnalyzeView;

    open spec fn view(&self) -> AnalyzeView {
        AnalyzeView {
            session_id: maybe_text(self.session_id),
            fen: maybe_text(self.fen),
            depth: self.depth,
            multipv: self.multipv,
        }
    }
}

/// How many moves are taken back where no number is given.
pub fn default_plies() -> (r: u32)
    ensures
        r == 1,
{
    1
}

/// How deep a search goes where no depth is given.
pub fn default_depth_arg() -> (r: u32)
    ensures
        r == DEFAULT_DEPTH,
{
    DEFAULT_DEPTH
}

/// How many candidates a search ranks where no number is given.
pub fn default_multipv_arg() -> (r: u32)
    ensures
        r == DEFAULT_MULTIPV,
{
    DEFAULT_MULTIPV
}

/// What a tool replies.
#[derive(Debug)]
pub enum ToolReply {
    Board(BoardSnapshot),
    Analysis(AnalysisResult),
    Error(ChessError),
}

/// The contents of a `ToolReply`.
pub enum ReplyView {
    Board(BoardSnapshotView),
    Analysis(AnalysisResultView),
    Error(ChessErrorView),
}

impl View for ToolReply {
    type V = ReplyView;

    open spec fn view(&self) -> ReplyView {
        match *self {
            ToolReply::Board(snapshot) => ReplyView::Board(snapshot@),
            ToolReply::Analysis(result) => ReplyView::Analysis(result@),
            ToolReply::Error(e) => ReplyView::Error(e@),
        }
    }
}

/// An analysis that only the engine can give: what to ask it, and where to keep the answer.
#[derive(Debug)]
pub struct PendingAnalysis {
    pub key: CacheKey,
    pub request: AnalysisRequest,
}

/// How an analysis begins.
#[derive(Debug)]
pub enum AnalysisStart {
    Answer(ToolReply),
    Ask(PendingAnalysis),
}

/// The contents of an `AnalysisStart`.
pub enum StartView {
    Answer(ReplyView),
    Ask { key: KeyView, request: RequestView },
}

impl View for AnalysisStart {
    type V = StartView;

    open spec fn view(&self) -> StartView {
        match *self {
            AnalysisStart::Answer(reply) => StartView::Answer(reply@),
            AnalysisStart::Ask(pending) => StartView::Ask {
                key: pending.key@,
                request: pending.request@,
            },
        }
    }
}

/// The state of the server.
pub struct ChessServer {
    config: ResolvedConfig,
    session: Option<BoardSession>,
    engine: Engine,
    cache: AnalysisCache,
}

/// The contents of a `ChessServer`.
#[verifier::ext_equal]
pub struct ServerView {
    pub config: ResolvedConfig,
    /// The one active session, if there is one.
    pub session: Option<SessionView>,
    pub engine: EngineView,
    /// The cached analyses, the most recently used first, and how many there may be.
    pub entries: Seq<Entry>,
    pub limit: nat,
}

/// The contents of an optional session.
pub open spec fn maybe_session(session: Option<BoardSession>) -> Option<SessionView> {
    match session {
        Some(s) => Some(s@),
        None => None,
    }
}

impl View for ChessServer {
    type V = ServerView;

    closed spec fn view(&self) -> ServerView {
        ServerView {
            config: self.config,
            session: maybe_session(self.session),
            engine: self.engine@,
            entries: self.cache@,
            limit: self.cache.limit(),
        }
    }
}

/// Whether the active session has this identifier.
pub open spec fn is_active(session: Option<SessionView>, id: Seq<char>) -> bool {
    session matches Some(s) && s.id == id
}

/// The reply to an identifier that is not that of the active session.
pub open spec fn no_session(id: Seq<char>) -> ReplyView {
    ReplyView::Error(ChessErrorView::SessionNotFound { session_id: id })
}

/// The reply that shows a session.
pub open spec fn board_reply(session: Option<SessionView>, id: Seq<char>) -> ReplyView {
    if is_active(session, id) {
        ReplyView::Board(session->0.snapshot())
    } else {
        no_session(id)
    }
}

/// The session after a move, and the reply.
pub open spec fn move_reply(session: Option<SessionView>, id: Seq<char>, mv: Seq<char>) -> (
    Option<SessionView>,
    ReplyView,
) {
    if !is_active(session, id) {
        (session, no_session(id))
    } else {
        match move_outcome(session->0.fen, mv) {
            Ok(_) => (
                Some(session->0.moved(mv)),
                ReplyView::Board(session->0.moved(mv).snapshot()),
            ),
            Err(e) => (session, ReplyView::Error(e)),
        }
    }
}

/// The session after moves are taken back, and the reply.
pub open spec fn undo_reply(session: Option<SessionView>, id: Seq<char>, plies: u32) -> (
    Option<SessionView>,
    ReplyView,
) {
    if !is_active(session, id) {
        (session, no_session(id))
    } else {
        (
            Some(session->0.undone(plies as nat)),
            ReplyView::Board(session->0.undone(plies as nat).snapshot()),
        )
    }
}

/// Whether the active session, and only it, is named, with settings that can be used.
pub open spec fn can_be_analysed(session: Option<SessionView>, args: AnalyzeView) -> bool {
    &&& args.session_id matches Some(id) && is_active(session, id)
    &&& args.fen is None
    &&& args.depth >= 1
    &&& args.multipv >= 1
}

/// The error of an argument that cannot be used.
pub open spec fn bad_argument(message: Seq<char>) -> StartView {
    StartView::Answer(ReplyView::Error(ChessErrorView::InvalidArgument { message }))
}

impl ServerView {
    /// The server after an analysis begins, and how it goes on: with an answer, or with a
    /// question to the engine.
    pub open spec fn begin(self, args: AnalyzeView) -> (ServerView, StartView) {
        if args.session_id is Some == args.fen is Some {
            (self, bad_argument("exactly one of `session_id` or `fen` must be supplied"@))
        } else if args.depth == 0 {
            (self, bad_argument("`depth` must be at least 1"@))
        } else if args.multipv == 0 {
            (self, bad_argument("`multipv` must be at least 1"@))
        } else {
            match args.session_id {
                Some(id) => if is_active(self.session, id) {
                    self.begin_with(self.session->0.fen, args.depth, args.multipv)
                } else {
                    (self, StartView::Answer(no_session(id)))
                },
                None => self.begin_with(args.fen->0, args.depth, args.multipv),
            }
        }
    }

    /// The beginning of an analysis of a FEN: a cached analysis of the same position with
    /// the same settings is the answer.
    pub open spec fn begin_with(self, fen: Seq<char>, depth: u32, multipv: u32) -> (
        ServerView,
        StartView,
    ) {
        match normalized(fen) {
            None => (
                self,
                StartView::Answer(
                    ReplyView::Error(
                        ChessErrorView::InvalidFen {
                            message: "FEN must contain at least 4 fields, got "@ + decimal(
                                words(fen).len(),
                            ),
                            fen,
                        },
                    ),
                ),
            ),
            Some(normal) => {
                let key = (normal, depth, multipv);
                match stored(self.entries, key) {
                    Some(result) => (
                        ServerView { entries: after_get(self.entries, key), ..self },
                        StartView::Answer(ReplyView::Analysis(result)),
                    ),
                    None => (
                        self,
                        StartView::Ask { key, request: RequestView { fen, depth, multipv } },
                    ),
                }
            },
        }
    }

    /// The server after the engine's answer, and the reply.
    pub open spec fn finish(
        self,
        key: KeyView,
        outcome: Result<AnalysisResultView, ChessErrorView>,
    ) -> (ServerView, ReplyView) {
        match outcome {
            Ok(result) => (
                ServerView {
                    entries: after_put(self.entries, self.limit, key, result),
                    ..self
                },
                ReplyView::Analysis(result),
            ),
            Err(e) => (self, ReplyView::Error(e)),
        }
    }

    /// What is said of the engine.
    pub open spec fn engine_status(self) -> EngineInfoView {
        match self.engine.status() {
            Some(info) => info,
            None => EngineInfoView {
                available: false,
                path: self.engine.path,
                name: seq![],
                uci_options: default_options(),
            },
        }
    }
}

/// The contents of what the engine answered.
pub open spec fn outcome_view(outcome: Result<AnalysisResult, ChessError>) -> Result<
    AnalysisResultView,
    ChessErrorView,
> {
    match outcome {
        Ok(result) => Ok(result@),
        Err(e) => Err(e@),
    }
}

impl ChessServer {
    /// The session leads to its position by its history, the names of the engine's options
    /// ascend, and the cache is within its limit.
    pub closed spec fn well_formed(&self) -> bool {
        &&& self.session matches Some(s) ==> s@.well_formed()
        &&& self.engine@.well_formed()
        &&& self.cache.well_formed()
    }

    /// A well-formed server has a session that its history leads to, engine options in the
    /// order of their names, and a cache within its limit with each key once.
    pub proof fn holds_together(&self)
        requires
            self.well_formed(),
        ensures
            self@.session matches Some(session) ==> session.well_formed(),
            self@.engine.well_formed(),
            1 <= self@.limit,
            self@.entries.len() <= self@.limit,
            distinct_keys(self@.entries),
    {
        self.cache.stays_in_its_limit();
    }

    /// A server without a session, with an engine that is not started and an empty cache.
    pub fn new(config: ResolvedConfig) -> (r: ChessServer)
        requires
            config.cache_capacity <= isize::MAX / 64,
        ensures
            r.well_formed(),
            r@.config == config,
            r@.session is None,
            r@.engine == (EngineView {
                path: path_text(config.stockfish_path),
                quoted: path_debug(config.stockfish_path),
                running: None,
            }),
            r@.entries.len() == 0,
            r@.limit == if config.cache_capacity < 1 {
                1
            } else {
                config.cache_capacity as nat
            },
    {
        let engine = Engine::new(path_copy(&config.stockfish_path));
        let cache = AnalysisCache::new(config.cache_capacity);
        ChessServer { config, session: None, engine, cache }
    }

    pub fn config(&self) -> (r: &ResolvedConfig)
        ensures
            *r == self@.config,
    {
        &self.config
    }

    pub fn engine(&self) -> (r: &Engine)
        ensures
            r@ == self@.engine,
    {
        &self.engine
    }

    pub fn cache(&self) -> (r: &AnalysisCache)
        ensures
            r@ == self@.entries,
            r.limit() == self@.limit,
    {
        &self.cache
    }

    pub fn session_handle(&self) -> (r: &Option<BoardSession>)
        ensures
            maybe_session(*r) == self@.session,
    {
        &self.session
    }

    /// Create a new chess board session. Replaces any existing active session.
    pub fn create_board(&mut self, args: &CreateBoardArgs) -> (r: ToolReply)
        requires
            old(self).well_formed(),
        ensures
            final(self).well_formed(),
            match r@ {
                ReplyView::Board(snapshot) => {
                    &&& final(self)@ == (ServerView {
                        session: final(self)@.session,
                        ..old(self)@
                    })
                    &&& final(self)@.session matches Some(session) && snapshot
                        == session.snapshot() && opened(
                        session.id,
                        maybe_text(args.fen),
                        texts(args.moves_uci@),
                    ) == Ok::<SessionView, ChessErrorView>(session)
                },
                ReplyView::Error(e) => {
                    &&& final(self)@ == old(self)@
                    &&& forall|id: Seq<char>| #[trigger]
                        opened(id, maybe_text(args.fen), texts(args.moves_uci@)) == Err::<
                            SessionView,
                            ChessErrorView,
                        >(e)
                },
                ReplyView::Analysis(_) => false,
            },
    {
        let fen: Option<&str> = match &args.fen {
            Some(text) => Some(text.as_str()),
            None => None,
        };
        let session = BoardSession::new(fen, args.moves_uci.as_slice());
        self.adopt(session)
    }

    /// Makes an opened session the active one.
    pub fn adopt(&mut self, session: Result<BoardSession, ChessError>) -> (r: ToolReply)
        requires
            old(self).well_formed(),
            session matches Ok(s) ==> s@.well_formed(),
        ensures
            final(self).well_formed(),
            match session {
                Ok(s) => final(self)@ == (ServerView { session: Some(s@), ..old(self)@ }) && r@
                    == ReplyView::Board(s@.snapshot()),
                Err(e) => final(self)@ == old(self)@ && r@ == ReplyView::Error(e@),
            },
    {
        match session {
            Ok(s) => {
                let snapshot = s.snapshot();
                self.session = Some(s);
                ToolReply::Board(snapshot)
            },
            Err(e) => ToolReply::Error(e),
        }
    }

    /// Return the current state of the active board session.
    pub fn get_board(&self, args: &SessionIdArgs) -> (r: ToolReply)
        ensures
            r@ == board_reply(self@.session, args.session_id@),
    {
        match &self.session {
            Some(s) if same_text(s.session_id().as_str(), args.session_id.as_str()) => {
                ToolReply::Board(s.snapshot())
            },
            _ => not_found(&args.session_id),
        }
    }

    /// Apply one legal move (UCI format) to the active board session.
    pub fn make_move(&mut self, args: &MakeMoveArgs) -> (r: ToolReply)
        requires
            old(self).well_formed(),
        ensures
            final(self).well_formed(),
            (final(self)@.session, r@) == move_reply(
                old(self)@.session,
                args.session_id@,
                args.mv@,
            ),
            final(self)@ == (ServerView { session: final(self)@.session, ..old(self)@ }),
    {
        match self.session.take() {
            Some(s) => {
                let mut session = s;
                let reply = if same_text(
                    session.session_id().as_str(),
                    args.session_id.as_str(),
                ) {
                    match session.make_move(args.mv.as_str()) {
                        Ok(_) => ToolReply::Board(session.snapshot()),
                        Err(e) => ToolReply::Error(e),
                    }
                } else {
                    not_found(&args.session_id)
                };
                self.session = Some(session);
                reply
            },
            None => not_found(&args.session_id),
        }
    }

    /// Move backward in the active session's history by `plies` half-moves.
    pub fn undo_move(&mut self, args: &UndoMoveArgs) -> (r: ToolReply)
        requires
            old(self).well_formed(),
        ensures
            final(self).well_formed(),
            (final(self)@.session, r@) == undo_reply(
                old(self)@.session,
                args.session_id@,
                args.plies,
            ),
            is_active(old(self)@.session, args.session_id@) ==> {
                let before = old(self)@.session->0;
                let after = final(self)@.session->0;
                &&& final(self)@.session is Some
                &&& after.history == before.history.take(
                    if args.plies <= before.history.len() {
                        before.history.len() - args.plies
                    } else {
                        0
                    },
                )
                &&& after.id == before.id
                &&& after.initial_fen == before.initial_fen
                &&& r@ == ReplyView::Board(after.snapshot())
            },
            final(self)@ == (ServerView { session: final(self)@.session, ..old(self)@ }),
    {
        match self.session.take() {
            Some(s) => {
                let mut session = s;
                let reply = if same_text(
                    session.session_id().as_str(),
                    args.session_id.as_str(),
                ) {
                    match session.undo(args.plies) {
                        Ok(_) => ToolReply::Board(session.snapshot()),
                        Err(e) => ToolReply::Error(e),
                    }
                } else {
                    not_found(&args.session_id)
                };
                self.session = Some(session);
                reply
            },
            None => not_found(&args.session_id),
        }
    }

    /// What is said of the engine: what it told, or that it is not available.
    pub fn engine_status(&self) -> (r: EngineInfo)
        ensures
            r@ == self@.engine_status(),
    {
        match self.engine.status() {
            Some(info) => info,
            None => {
                let name = String::new();
                assert(name@ == Seq::<char>::empty());
                EngineInfo {
                    available: false,
                    path: self.engine.engine_path_string(),
                    name,
                    uci_options: default_uci_options(),
                }
            },
        }
    }

    /// Notes that the engine is up.
    pub fn engine_started(&mut self, running: Running)
        requires
            old(self).well_formed(),
            names_ascend(running.uci_options@),
        ensures
            final(self).well_formed(),
            final(self)@ == (ServerView {
                engine: EngineView { running: Some(running@), ..old(self)@.engine },
                ..old(self)@
            }),
    {
        self.engine.started(running);
    }

    /// Notes that the engine was given a number of candidates.
    pub fn engine_multipv(&mut self, multipv: u32)
        requires
            old(self).well_formed(),
        ensures
            final(self).well_formed(),
            final(self)@ == (ServerView {
                engine: old(self)@.engine.with_multipv(multipv),
                ..old(self)@
            }),
    {
        self.engine.set_multipv(multipv);
    }

    /// Begins an analysis: checks the arguments, finds the position and looks into the
    /// cache. The position of the active session can always be analysed.
    pub fn begin_analysis(&mut self, args: &AnalyzePositionArgs) -> (r: AnalysisStart)
        requires
            old(self).well_formed(),
        ensures
            final(self).well_formed(),
            (final(self)@, r@) == old(self)@.begin(args@),
            r@ matches StartView::Ask { key, request } ==> {
                &&& normalized(request.fen) == Some(key.0)
                &&& key.1 == args.depth && request.depth == args.depth
                &&& key.2 == args.multipv && request.multipv == args.multipv
            },
            can_be_analysed(old(self)@.session, args@) ==> !(r@ matches StartView::Answer(
                ReplyView::Error(_),
            )),
    {
        if args.session_id.is_some() == args.fen.is_some() {
            return bad_argument_reply(
                "exactly one of `session_id` or `fen` must be supplied",
            );
        }
        if args.depth == 0 {
            return bad_argument_reply("`depth` must be at least 1");
        }
        if args.multipv == 0 {
            return bad_argument_reply("`multipv` must be at least 1");
        }
        let fen = match &args.session_id {
            Some(id) => match self.session_fen(id.as_str()) {
                Some(text) => text,
                None => return AnalysisStart::Answer(not_found(id)),
            },
            None => match &args.fen {
                Some(text) => text.clone(),
                None => return bad_argument_reply(
                    "exactly one of `session_id` or `fen` must be supplied",
                ),
            },
        };
        let key = match CacheKey::new(fen.as_str(), args.depth, args.multipv) {
            Ok(key) => key,
            Err(e) => return AnalysisStart::Answer(ToolReply::Error(e)),
        };
        match self.cache.get(&key) {
            Some(result) => AnalysisStart::Answer(ToolReply::Analysis(result)),
            None => AnalysisStart::Ask(
                PendingAnalysis {
                    key,
                    request: AnalysisRequest { fen, depth: args.depth, multipv: args.multipv },
                },
            ),
        }
    }

    /// The FEN of the active session, if it has this identifier.
    fn session_fen(&self, id: &str) -> (r: Option<String>)
        ensures
            match r {
                Some(fen) => is_active(self@.session, id@) && fen@ == self@.session->0.fen
                    && words(fen@).len() == 6,
                None => !is_active(self@.session, id@),
            },
    {
        match &self.session {
            Some(s) if same_text(s.session_id().as_str(), id) => Some(s.fen()),
            _ => None,
        }
    }

    /// Ends an analysis with what the engine answered; a result is kept in the cache.
    pub fn finish_analysis(
        &mut self,
        key: CacheKey,
        outcome: Result<AnalysisResult, ChessError>,
    ) -> (r: ToolReply)
        requires
            old(self).well_formed(),
        ensures
            final(self).well_formed(),
            (final(self)@, r@) == old(self)@.finish(key@, outcome_view(outcome)),
    {
        match outcome {
            Ok(result) => {
                self.cache.put(key, result.clone());
                ToolReply::Analysis(result)
            },
            Err(e) => ToolReply::Error(e),
        }
    }

    /// The whole analysis, given what the engine answers if it is asked.
    pub fn run_analysis(
        &mut self,
        args: &AnalyzePositionArgs,
        outcome: Result<AnalysisResult, ChessError>,
    ) -> (r: ToolReply)
        requires
            old(self).well_formed(),
        ensures
            final(self).well_formed(),
            match old(self)@.begin(args@) {
                (next, StartView::Answer(reply)) => final(self)@ == next && r@ == reply,
                (next, StartView::Ask { key, .. }) => (final(self)@, r@) == next.finish(
                    key,
                    outcome_view(outcome),
                ),
            },
    {
        match self.begin_analysis(args) {
            AnalysisStart::Answer(reply) => reply,
            AnalysisStart::Ask(pending) => self.finish_analysis(pending.key, outcome),
        }
    }

    /// The snapshot of the active session, if there is one.
    pub fn session_resource(&self) -> (r: Option<BoardSnapshot>)
        ensures
            match r {
                Some(snapshot) => self@.session matches Some(s) && snapshot@ == s.snapshot(),
                None => self@.session is None,
            },
    {
        match &self.session {
            Some(s) => Some(s.snapshot()),
            None => None,
        }
    }
}

fn not_found(id: &String) -> (r: ToolReply)
    ensures
        r@ == no_session(id@),
{
    ToolReply::Error(ChessError::SessionNotFound { session_id: id.clone() })
}

fn bad_argument_reply(message: &str) -> (r: AnalysisStart)
    ensures
        r@ == bad_argument(message@),
{
    AnalysisStart::Answer(ToolReply::Error(ChessError::InvalidArgument(message.to_owned())))
}

/// A resource of the server.
#[derive(Debug, Clone, Copy, PartialEq, Eq, Structural)]
pub enum Resource {
    Session,
    EngineStatus,
}

/// The resource at a URI.
pub fn resource_at(uri: &str) -> (r: Option<Resource>)
    ensures
        r == if uri@ == SESSION_RESOURCE_URI@ {
            Some(Resource::Session)
        } else if uri@ == ENGINE_RESOURCE_URI@ {
            Some(Resource::EngineStatus)
        } else {
            None
        },
{
    if same_text(uri, SESSION_RESOURCE_URI) {
        Some(Resource::Session)
    } else if same_text(uri, ENGINE_RESOURCE_URI) {
        Some(Resource::EngineStatus)
    } else {
        None
    }
}

/// What a client is told of the progress of a search.
pub open spec fn progress_text(event: ProgressView) -> Seq<char> {
    match event {
        ProgressView::Started { depth, multipv } => "engine_started depth="@ + decimal(
            depth as nat,
        ) + " multipv="@ + decimal(multipv as nat),
        ProgressView::DepthComplete { depth, .. } => "depth_complete depth="@ + decimal(
            depth as nat,
        ),
        ProgressView::Completed => "completed"@,
    }
}

/// What a client is told of the progress of a search.
pub fn progress_message(event: &ProgressEvent) -> (r: String)
    ensures
        r@ == progress_text(event@),
{
    match event {
        ProgressEvent::Started { depth, multipv } => concat3(
            "engine_started depth=",
            decimal_text(*depth as u64).as_str(),
            " multipv=",
        ).concat(decimal_text(*multipv as u64).as_str()),
        ProgressEvent::DepthComplete { depth, .. } => concat2(
            "depth_complete depth=",
            decimal_text(*depth as u64).as_str(),
        ),
        ProgressEvent::Completed => "completed".to_owned(),
    }
}

/// By how much the progress advances: by one for each depth that is complete.
pub fn progress_advance(event: &ProgressEvent) -> (r: u32)
    ensures
        r == if event@ is DepthComplete {
            1int
        } else {
            0int
        },
{
    match event {
        ProgressEvent::DepthComplete { .. } => 1,
        _ => 0,
    }
}

/// What a tool replies of the board is what the board then shows.
pub proof fn replies_show_the_board(
    session: Option<SessionView>,
    id: Seq<char>,
    mv: Seq<char>,
    plies: u32,
)
    ensures
        move_reply(session, id, mv).1 is Board ==> board_reply(
            move_reply(session, id, mv).0,
            id,
        ) == move_reply(session, id, mv).1,
        undo_reply(session, id, plies).1 is Board ==> board_reply(
            undo_reply(session, id, plies).0,
            id,
        ) == undo_reply(session, id, plies).1,
{
}

/// A tool that replies with an error leaves the session as it was.
pub proof fn errors_change_no_session(
    session: Option<SessionView>,
    id: Seq<char>,
    mv: Seq<char>,
    plies: u32,
)
    ensures
        move_reply(session, id, mv).1 is Error ==> move_reply(session, id, mv).0 == session,
        undo_reply(session, id, plies).1 is Error ==> undo_reply(session, id, plies).0 == session,
{
}

/// Once a session is replaced, the identifier of the old one is not found by any tool.
pub proof fn replaced_session_is_gone(
    session: SessionView,
    old_id: Seq<char>,
    mv: Seq<char>,
    plies: u32,
)
    requires
        session.id != old_id,
    ensures
        board_reply(Some(session), old_id) == no_session(old_id),
        move_reply(Some(session), old_id, mv) == (Some(session), no_session(old_id)),
        undo_reply(Some(session), old_id, plies) == (Some(session), no_session(old_id)),
{
}

/// A move followed by taking one move back leaves the session as it was.
pub proof fn move_then_undo(session: SessionView, mv: Seq<char>)
    requires
        session.well_formed(),
        move_outcome(session.fen, mv) is Ok,
    ensures
        undo_reply(move_reply(Some(session), session.id, mv).0, session.id, 1).0 == Some(session),
{
    crate::board::undo_reverts_a_move(session, mv);
}

/// An analysis that was given once is answered from the cache when it is asked for again.
pub proof fn analysis_is_answered_from_the_cache(
    server: ServerView,
    args: AnalyzeView,
    result: AnalysisResultView,
)
    ensures
        server.begin(args).1 matches StartView::Ask { key, .. } ==> server.finish(
            key,
            Ok(result),
        ).0.begin(args).1 == StartView::Answer(ReplyView::Analysis(result)),
{
    if let StartView::Ask { key, .. } = server.begin(args).1 {
        put_then_get(server.entries, server.limit, key, result);
    }
}

/// An analysis that fails leaves the server as it was; it is not kept.
pub proof fn failed_analysis_is_not_kept(server: ServerView, key: KeyView, e: ChessErrorView)
    ensures
        server.finish(key, Err(e)) == (server, ReplyView::Error(e)),
{
}

/// The engine is asked about exactly the position and the settings of the request: the
/// FEN given, or that of the active session.
pub proof fn engine_is_asked_what_was_requested(server: ServerView, args: AnalyzeView)
    ensures
        server.begin(args).1 matches StartView::Ask { key, request } ==> {
            &&& request.depth == args.depth && request.depth >= 1
            &&& request.multipv == args.multipv && request.multipv >= 1
            &&& args.fen matches Some(fen) ==> request.fen == fen
            &&& args.session_id matches Some(id) ==> is_active(server.session, id) && request.fen
                == server.session->0.fen
            &&& stored(server.entries, key) is None
        },
{
}

/// Taking moves back by the tool keeps the beginning of the history, shorter by as many
/// moves as were asked for or down to none, and goes back to the position that stood there.
/// The session keeps its identifier and its start, and the reply shows what is left.
pub proof fn undo_tool_goes_back_along_the_line(
    session: SessionView,
    positions: Seq<Seq<char>>,
    moves: Seq<MoveView>,
    plies: u32,
)
    requires
        parsed_position(session.initial_fen) == Ok::<Seq<char>, ChessErrorView>(positions[0]),
        line_of_play(positions, moves, session.history),
    ensures
        undo_reply(Some(session), session.id, plies).0 is Some,
        undo_reply(Some(session), session.id, plies).1 is Board,
        ({
            let kept = if plies <= session.history.len() {
                session.history.len() - plies
            } else {
                0
            };
            let after = undo_reply(Some(session), session.id, plies).0->0;
            let shown = undo_reply(Some(session), session.id, plies).1->Board_0;
            &&& after.history.len() == kept
            &&& forall|k: int| 0 <= k < kept ==> #[trigger] after.history[k] == session.history[k]
            &&& after.fen == positions[kept]
            &&& after.id == session.id
            &&& after.initial_fen == session.initial_fen
            &&& shown.session_id == session.id
            &&& shown.fen == positions[kept]
            &&& shown.history == after.history
        }),
{
    undo_goes_back_along_the_line(session, positions, moves, plies as nat);
}

/// Taking back as many moves as were made right before gives the session before them,
/// however many they are.
pub proof fn undo_tool_reverts_moves(
    sessions: Seq<SessionView>,
    id: Seq<char>,
    made: Seq<Seq<char>>,
    plies: u32,
)
    requires
        sessions.len() == plies + 1,
        made.len() == plies,
        sessions[0].well_formed(),
        sessions[0].id == id,
        forall|k: int|
            0 <= k < made.len() ==> #[trigger] move_goes_through(
                sessions[k],
                id,
                made[k],
                sessions[k + 1],
            ),
    ensures
        undo_reply(Some(sessions.last()), id, plies).0 == Some(sessions[0]),
{
    assert forall|k: int| 0 <= k < made.len() implies #[trigger] follows_by(
        sessions[k],
        made[k],
        sessions[k + 1],
    ) by {
        assert(move_goes_through(sessions[k], id, made[k], sessions[k + 1]));
    }
    lemma_same_identifier(sessions, id, made, plies as nat);
    undo_reverts_moves(sessions, made);
}

/// Whether the tool makes a move in one session and leaves another.
pub open spec fn move_goes_through(
    before: SessionView,
    id: Seq<char>,
    text: Seq<char>,
    after: SessionView,
) -> bool {
    move_reply(Some(before), id, text).0 == Some(after) && move_reply(Some(before), id, text).1
        is Board
}

proof fn lemma_same_identifier(
    sessions: Seq<SessionView>,
    id: Seq<char>,
    made: Seq<Seq<char>>,
    n: nat,
)
    requires
        n <= made.len(),
        sessions.len() == made.len() + 1,
        sessions[0].id == id,
        forall|k: int|
            0 <= k < made.len() ==> #[trigger] move_goes_through(
                sessions[k],
                id,
                made[k],
                sessions[k + 1],
            ),
    ensures
        sessions[n as int].id == id,
    decreases n,
{
    if n > 0 {
        let m = n - 1;
        lemma_same_identifier(sessions, id, made, m as nat);
        assert(move_goes_through(sessions[m], id, made[m], sessions[m + 1]));
    }
}

/// The tool plays the move that the text denotes: the session goes on to the position that
/// this move leads to, its notation ends the history, and the reply shows both. A text that
/// the board rejects is answered with the board's error.
pub proof fn move_tool_plays_the_move(
    session: SessionView,
    text: Seq<char>,
    mv: MoveView,
    next: Seq<char>,
)
    ensures
        leads_on(session.fen, text, mv, next) ==> {
            let after = move_reply(Some(session), session.id, text).0->0;
            let reply = move_reply(Some(session), session.id, text).1;
            &&& move_reply(Some(session), session.id, text).0 is Some
            &&& after.fen == next
            &&& after.history == session.history.push(mv.uci().text())
            &&& after.id == session.id
            &&& after.initial_fen == session.initial_fen
            &&& reply is Board
            &&& reply->Board_0.session_id == session.id
            &&& reply->Board_0.fen == next
            &&& reply->Board_0.history == session.history.push(mv.uci().text())
        },
        move_outcome(session.fen, text) matches Err(e) ==> move_reply(
            Some(session),
            session.id,
            text,
        ) == (Some(session), ReplyView::Error(e)),
{
    if leads_on(session.fen, text, mv, next) {
        accepted_text_plays_the_move_it_denotes(session.fen, text, mv, next);
    }
}

/// The board tools know the active session by its identifier and no other; any other
/// identifier is answered with an error that names it, and changes nothing.
pub proof fn tools_know_the_active_session(
    session: Option<SessionView>,
    id: Seq<char>,
    text: Seq<char>,
    plies: u32,
)
    ensures
        session matches Some(s) ==> s.id == id ==> board_reply(session, id) == ReplyView::Board(
            s.snapshot(),
        ),
        session is None || session->0.id != id ==> {
            let answer = ReplyView::Error(ChessErrorView::SessionNotFound { session_id: id });
            &&& board_reply(session, id) == answer
            &&& move_reply(session, id, text) == (session, answer)
            &&& undo_reply(session, id, plies) == (session, answer)
        },
{
}

/// Whether an analysis is asked for a FEN: the one given, or that of the active session.
pub open spec fn asks_for(server: ServerView, args: AnalyzeView, fen: Seq<char>) -> bool {
    &&& args.depth > 0 && args.multipv > 0
    &&& match args.fen {
        Some(given) => given == fen && args.session_id is None,
        None => server.session matches Some(s) && args.session_id == Some(s.id) && s.fen == fen,
    }
}

/// An analysis of a FEN is looked up, and asked of the engine where it is not found, under
/// the first four fields of the FEN, the depth and the number of candidates: exactly those
/// that were asked for. The engine is given the FEN, the depth and the number of candidates
/// as they are. Nothing but the order of the cache changes.
pub proof fn analysis_goes_by_what_was_asked(server: ServerView, args: AnalyzeView, fen: Seq<char>)
    requires
        asks_for(server, args, fen),
        words(fen).len() >= 4,
        distinct_keys(server.entries),
    ensures
        ({
            let w = words(fen);
            let normal = w[0] + seq![' '] + w[1] + seq![' '] + w[2] + seq![' '] + w[3];
            &&& server.begin(args).1 matches StartView::Ask { key, request } ==> {
                &&& key.0 == normal
                &&& key.1 == args.depth
                &&& key.2 == args.multipv
                &&& request.fen == fen
                &&& request.depth == args.depth
                &&& request.multipv == args.multipv
                &&& server.begin(args).0 == server
            }
            &&& (server.begin(args).1 is Ask <==> forall|i: int|
                0 <= i < server.entries.len() ==> (#[trigger] server.entries[i]).0 != (
                    normal,
                    args.depth,
                    args.multipv,
                ))
            &&& forall|i: int|
                0 <= i < server.entries.len() && (#[trigger] server.entries[i]).0 == (
                    normal,
                    args.depth,
                    args.multipv,
                ) ==> {
                    &&& server.begin(args).1 == StartView::Answer(
                        ReplyView::Analysis(server.entries[i].1),
                    )
                    &&& server.begin(args).0.entries[0] == server.entries[i]
                }
            &&& server.begin(args).0.entries.len() == server.entries.len()
            &&& server.begin(args).0 == ServerView {
                entries: server.begin(args).0.entries,
                ..server
            }
        }),
{
    normal_form_in_words(fen);
    let key = (normalized(fen)->0, args.depth, args.multipv);
    stored_is_an_entry(server.entries, key);
    get_keeps_the_cache_well_formed(server.entries, key);
    assert(server.begin(args) == server.begin_with(fen, args.depth, args.multipv));
}

/// What the answer of the engine to one request makes available to another, it makes
/// available only where the two agree in the first four fields of their FENs, in the depth
/// and in the number of candidates; and there it always does.
pub proof fn an_answer_serves_only_equal_requests(
    server: ServerView,
    first: AnalyzeView,
    first_fen: Seq<char>,
    result: AnalysisResultView,
    second: AnalyzeView,
    second_fen: Seq<char>,
)
    requires
        asks_for(server, first, first_fen),
        asks_for(server, second, second_fen),
        words(first_fen).len() >= 4,
        words(second_fen).len() >= 4,
        distinct_keys(server.entries),
        1 <= server.limit,
        server.entries.len() <= server.limit,
        server.begin(first).1 is Ask,
    ensures
        ({
            let after = server.finish(server.begin(first).1->key, Ok(result)).0;
            let same = words(first_fen).take(4) == words(second_fen).take(4) && first.depth
                == second.depth && first.multipv == second.multipv;
            &&& same ==> after.begin(second).1 == StartView::Answer(ReplyView::Analysis(result))
            &&& !same && server.begin(second).1 is Ask ==> after.begin(second).1 is Ask
            &&& !same && after.begin(second).1 is Answer ==> after.begin(second).1 == server.begin(
                second,
            ).1
        }),
{
    let a = (normalized(first_fen)->0, first.depth, first.multipv);
    let b = (normalized(second_fen)->0, second.depth, second.multipv);
    normal_form_in_words(first_fen);
    normal_form_in_words(second_fen);
    keys_ignore_clocks(
        first_fen,
        second_fen,
        first.depth,
        second.depth,
        first.multipv,
        second.multipv,
    );
    assert(server.begin(first) == server.begin_with(first_fen, first.depth, first.multipv));
    put_then_get(server.entries, server.limit, a, result);
    if a != b {
        put_evicts_only_the_least_recently_used(server.entries, server.limit, a, result, b);
    }
    let after = server.finish(a, Ok(result)).0;
    assert(after.begin(second) == after.begin_with(second_fen, second.depth, second.multipv));
    assert(server.begin(second) == server.begin_with(second_fen, second.depth, second.multipv));
}

/// Which requests for an analysis are refused, and with what: one that names both a session
/// and a FEN or neither, a depth or a number of candidates of zero, an identifier that is not
/// that of the active session, a FEN of fewer than four fields. None of them changes
/// anything.
pub proof fn what_is_not_analysed(server: ServerView, args: AnalyzeView)
    ensures
        ({
            let refused = |e: ChessErrorView| (server, StartView::Answer(ReplyView::Error(e)));
            let one = args.session_id is Some != args.fen is Some;
            &&& !one ==> server.begin(args) == refused(
                ChessErrorView::InvalidArgument {
                    message: "exactly one of `session_id` or `fen` must be supplied"@,
                },
            )
            &&& one && args.depth == 0 ==> server.begin(args) == refused(
                ChessErrorView::InvalidArgument { message: "`depth` must be at least 1"@ },
            )
            &&& one && args.depth > 0 && args.multipv == 0 ==> server.begin(args) == refused(
                ChessErrorView::InvalidArgument { message: "`multipv` must be at least 1"@ },
            )
            &&& one && args.depth > 0 && args.multipv > 0 ==> (args.session_id matches Some(id)
                ==> (server.session is None || server.session->0.id != id) ==> server.begin(args)
                == refused(ChessErrorView::SessionNotFound { session_id: id }))
            &&& forall|fen: Seq<char>| #[trigger]
                asks_for(server, args, fen) && words(fen).len() < 4 ==> server.begin(args)
                    == refused(
                    ChessErrorView::InvalidFen {
                        message: "FEN must contain at least 4 fields, got "@ + decimal(
                            words(fen).len(),
                        ),
                        fen,
                    },
                )
        }),
{
    assert forall|fen: Seq<char>| #[trigger]
        asks_for(server, args, fen) && words(fen).len() < 4 implies server.begin(args) == (
        server,
        StartView::Answer(
            ReplyView::Error(
                ChessErrorView::InvalidFen {
                    message: "FEN must contain at least 4 fields, got "@ + decimal(
                        words(fen).len(),
                    ),
                    fen,
                },
            ),
        ),
    ) by {
        normal_form_in_words(fen);
    }
}

/// What the engine answers is the reply, and becomes the most recently used entry of the
/// cache; all else of the server stays as it was.
pub proof fn answer_is_kept_and_given(
    server: ServerView,
    key: KeyView,
    result: AnalysisResultView,
)
    ensures
        server.finish(key, Ok(result)).1 == ReplyView::Analysis(result),
        server.finish(key, Ok(result)).0.entries[0] == (key, result),
        server.finish(key, Ok(result)).0.session == server.session,
        server.finish(key, Ok(result)).0.engine == server.engine,
        server.finish(key, Ok(result)).0.config == server.config,
        server.finish(key, Ok(result)).0.limit == server.limit,
{
}

/// An engine that is up is available under the name and with the options that it has; one
/// that is not is reported unavailable, at its path, without a name, with the options that
/// it would be given.
pub proof fn what_is_said_of_the_engine(server: ServerView)
    ensures
        server.engine_status().path == server.engine.path,
        server.engine.running matches Some(running) ==> {
            &&& server.engine_status().available
            &&& server.engine_status().name == running.name
            &&& server.engine_status().uci_options == running.uci_options
        },
        server.engine.running is None ==> {
            &&& !server.engine_status().available
            &&& server.engine_status().name.len() == 0
            &&& server.engine_status().uci_options == default_options()
        },
{
}

/// What a client is told of each step of a search.
pub proof fn what_is_told_of_the_progress(depth: u32, multipv: u32, event: ProgressView)
    ensures
        event == (ProgressView::Started { depth, multipv }) ==> progress_text(event)
            == "engine_started depth="@ + decimal(depth as nat) + " multipv="@ + decimal(
            multipv as nat,
        ),
        (event is DepthComplete && event->DepthComplete_depth == depth) ==> progress_text(event)
            == "depth_complete depth="@ + decimal(depth as nat),
        event is Completed ==> progress_text(event) == "completed"@,
{
}

} // verus!
