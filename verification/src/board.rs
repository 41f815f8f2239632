//! A board session: a game that is played forward move by move and can be taken back.

use vstd::prelude::*;
use crate::error::{ChessError, ChessErrorView};
use crate::position::{
    color_name, color_str, denotes_itself, game_state, leads_on, legal, legal_notations,
    line_of_play, listed_moves, move_meant, move_number, opponent, parsed_position, played,
    read_uci, resolved, side_to_move, what_a_text_denotes, what_is_listed, whose_turn_it_is,
    MoveFault, MoveFaultView, MoveView, Position,
};
use crate::text::{
    ascending, concat2, concat3, copy_texts, order_is_unique, strictly_ascending, texts, trim_text, trimmed,
    trimming_is_idempotent, trimming_what_is_trim, words,
};

verus! {

/// `uuid::Uuid`, known by its text.
#[verifier::external_type_specification]
#[verifier::external_body]
pub struct ExUuid(uuid::Uuid);

/// What a `Uuid` holds: its hyphenated text.
pub uninterp spec fn uuid_text(id: uuid::Uuid) -> Seq<char>;

/// `Uuid::new_v4`, a random identifier. Nothing is claimed of which one comes back.
#[verifier::external_body]
fn new_uuid() -> uuid::Uuid {
    uuid::Uuid::new_v4()
}

/// The display of a `Uuid`.
#[verifier::external_body]
fn uuid_to_text(id: &uuid::Uuid) -> (r: String)
    ensures
        r@ == uuid_text(*id),
{
    id.to_string()
}

/// The standard starting position.
pub const STARTING_FEN: &'static str = "rnbqkbnr/pppppppp/8/8/8/8/PPPPPPPP/RNBQKBNR w KQkq - 0 1";

/// JSON-friendly snapshot of a board session, shared by every board tool response.
#[derive(Debug, PartialEq, Eq)]
pub struct BoardSnapshot {
    pub session_id: String,
    pub fen: String,
    pub turn: String,
    pub move_number: u32,
    pub history: Vec<String>,
    pub board_text: String,
    pub legal_move_count: usize,
    pub state: String,
    pub legal_moves: Vec<String>,
}

/// The contents of a `BoardSnapshot`.
pub struct BoardSnapshotView {
    pub session_id: Seq<char>,
    pub fen: Seq<char>,
    pub turn: Seq<char>,
    pub move_number: u32,
    pub history: Seq<Seq<char>>,
    pub board_text: Seq<char>,
    pub legal_move_count: int,
    pub state: Seq<char>,
    pub legal_moves: Seq<Seq<char>>,
}

impl View for BoardSnapshot {
    type V = BoardSnapshotView;

    open spec fn view(&self) -> BoardSnapshotView {
        BoardSnapshotView {
            session_id: self.session_id@,
            fen: self.fen@,
            turn: self.turn@,
            move_number: self.move_number,
            history: texts(self.history@),
            board_text: self.board_text@,
            legal_move_count: self.legal_move_count as int,
            state: self.state@,
            legal_moves: texts(self.legal_moves@),
        }
    }
}

impl Clone for BoardSnapshot {
    fn clone(&self) -> (r: BoardSnapshot)
        ensures
            r@ == self@,
    {
        BoardSnapshot {
            session_id: self.session_id.clone(),
            fen: self.fen.clone(),
            turn: self.turn.clone(),
            move_number: self.move_number,
            history: copy_texts(&self.history),
            board_text: self.board_text.clone(),
            legal_move_count: self.legal_move_count,
            state: self.state.clone(),
            legal_moves: copy_texts(&self.legal_moves),
        }
    }
}

/// A game in progress.
#[derive(Debug)]
pub struct BoardSession {
    id: uuid::Uuid,
    initial_fen: String,
    position: Position,
    history: Vec<String>,
}

/// The contents of a `BoardSession`.
#[verifier::ext_equal]
pub struct SessionView {
    pub id: Seq<char>,
    /// The FEN that the game started from, as it was given.
    pub initial_fen: Seq<char>,
    /// The FEN of the current position.
    pub fen: Seq<char>,
    /// The moves so far, in UCI notation.
    pub history: Seq<Seq<char>>,
}

/// The effect of a move on a position: the FEN after it and the move's notation, or the
/// error that rejects it, with the legal moves.
pub open spec fn move_outcome(fen: Seq<char>, text: Seq<char>) -> Result<
    (Seq<char>, Seq<char>),
    ChessErrorView,
> {
    match move_meant(fen, text) {
        Ok(mv) => match played(fen, mv) {
            Some(next) => Ok((next, mv.uci().text())),
            None => Err(illegal(fen, text, "engine rejected move"@)),
        },
        Err(MoveFaultView::Unreadable(message)) => Err(
            illegal(fen, text, "could not parse UCI move: "@ + message),
        ),
        Err(MoveFaultView::Illegal) => Err(
            illegal(fen, text, "move is not legal in the current position"@),
        ),
    }
}

/// The rejection of a move.
pub open spec fn illegal(fen: Seq<char>, text: Seq<char>, message: Seq<char>) -> ChessErrorView {
    ChessErrorView::IllegalMove {
        attempted: text,
        message,
        current_fen: fen,
        legal_moves: listed_moves(fen),
    }
}

/// A position and the notations of the moves that led to it.
#[verifier::ext_equal]
pub struct GameView {
    pub fen: Seq<char>,
    pub history: Seq<Seq<char>>,
}

/// The first `n` of some moves, played from the position with FEN `start`; the first
/// move that is rejected gives the error.
pub open spec fn game_after(start: Seq<char>, moves: Seq<Seq<char>>, n: nat) -> Result<
    GameView,
    ChessErrorView,
>
    decreases n,
{
    if n == 0 {
        Ok(GameView { fen: start, history: seq![] })
    } else {
        match game_after(start, moves, (n - 1) as nat) {
            Err(e) => Err(e),
            Ok(game) => match move_outcome(game.fen, moves[n - 1]) {
                Err(e) => Err(e),
                Ok((next, text)) => Ok(GameView { fen: next, history: game.history.push(text) }),
            },
        }
    }
}

/// The FEN to start from: the given one without surrounding white space, or that of the
/// starting position where none or an empty one is given.
pub open spec fn chosen_fen(given: Option<Seq<char>>) -> Seq<char> {
    match given {
        Some(text) => if trimmed(text).len() > 0 {
            trimmed(text)
        } else {
            STARTING_FEN@
        },
        None => STARTING_FEN@,
    }
}

/// A new session with some moves played, or the error that prevents it.
pub open spec fn opened(id: Seq<char>, given: Option<Seq<char>>, moves: Seq<Seq<char>>) -> Result<
    SessionView,
    ChessErrorView,
> {
    match parsed_position(chosen_fen(given)) {
        Err(e) => Err(e),
        Ok(start) => match game_after(start, moves, moves.len()) {
            Err(e) => Err(e),
            Ok(game) => Ok(
                SessionView {
                    id,
                    initial_fen: chosen_fen(given),
                    fen: game.fen,
                    history: game.history,
                },
            ),
        },
    }
}

impl SessionView {
    /// The initial FEN is one to start from, the current position is what the history leads
    /// to from there, and the history is in the notation that the moves themselves have.
    pub open spec fn well_formed(self) -> bool {
        &&& chosen_fen(Some(self.initial_fen)) == self.initial_fen
        &&& match parsed_position(self.initial_fen) {
            Ok(start) => game_after(start, self.history, self.history.len()) == Ok::<
                GameView,
                ChessErrorView,
            >(GameView { fen: self.fen, history: self.history }),
            Err(_) => false,
        }
    }

    /// The session after the last `plies` moves are taken back, or all where there are
    /// fewer.
    pub open spec fn undone(self, plies: nat) -> SessionView {
        let kept = if plies <= self.history.len() {
            self.history.len() - plies
        } else {
            0
        };
        let start = parsed_position(self.initial_fen)->Ok_0;
        SessionView {
            fen: game_after(start, self.history, kept as nat)->Ok_0.fen,
            history: self.history.take(kept),
            ..self
        }
    }

    /// The session after a move.
    pub open spec fn moved(self, text: Seq<char>) -> SessionView {
        SessionView {
            fen: move_outcome(self.fen, text)->Ok_0.0,
            history: self.history.push(move_outcome(self.fen, text)->Ok_0.1),
            ..self
        }
    }

    /// What a client is shown of the session.
    pub open spec fn snapshot(self) -> BoardSnapshotView {
        BoardSnapshotView {
            session_id: self.id,
            fen: self.fen,
            turn: color_name(side_to_move(self.fen)),
            move_number: move_number(self.fen),
            history: self.history,
            board_text: words(self.fen)[0],
            legal_move_count: legal(self.fen).len() as int,
            state: game_state(self.fen),
            legal_moves: listed_moves(self.fen),
        }
    }
}

impl View for BoardSession {
    type V = SessionView;

    closed spec fn view(&self) -> SessionView {
        SessionView {
            id: uuid_text(self.id),
            initial_fen: self.initial_fen@,
            fen: self.position@,
            history: texts(self.history@),
        }
    }
}

impl Clone for BoardSession {
    fn clone(&self) -> (r: BoardSession)
        ensures
            r@ == self@,
    {
        BoardSession {
            id: self.id,
            initial_fen: self.initial_fen.clone(),
            position: self.position.clone(),
            history: copy_texts(&self.history),
        }
    }
}

/// The notation of an accepted move stands for the same move when it is read again.
pub open spec fn notation_is_stable(fen: Seq<char>, text: Seq<char>) -> bool {
    move_outcome(fen, text) matches Ok(done) ==> move_outcome(fen, done.1) == Ok::<
        (Seq<char>, Seq<char>),
        ChessErrorView,
    >(done)
}

/// The text is accepted as a move and is the notation of that move.
pub open spec fn accepted(fen: Seq<char>, text: Seq<char>) -> bool {
    move_outcome(fen, text) matches Ok(done) && done.1 == text
}

impl BoardSession {
    /// Opens a session under a new identifier.
    pub fn new(initial_fen: Option<&str>, moves_uci: &[String]) -> (r: Result<
        BoardSession,
        ChessError,
    >)
        ensures
            match r {
                Ok(session) => {
                    &&& session@.well_formed()
                    &&& opened(
                        session@.id,
                        option_text(initial_fen),
                        texts(moves_uci@),
                    ) == Ok::<SessionView, ChessErrorView>(session@)
                },
                Err(e) => forall|id: Seq<char>|
                    #[trigger] opened(id, option_text(initial_fen), texts(moves_uci@)) == Err::<
                        SessionView,
                        ChessErrorView,
                    >(e@),
            },
    {
        let id = new_uuid();
        BoardSession::with_id(id, initial_fen, moves_uci)
    }

    /// Opens a session under a given identifier.
    pub fn with_id(id: uuid::Uuid, initial_fen: Option<&str>, moves_uci: &[String]) -> (r: Result<
        BoardSession,
        ChessError,
    >)
        ensures
            match r {
                Ok(session) => {
                    &&& session@.well_formed()
                    &&& session@.id == uuid_text(id)
                    &&& opened(
                        uuid_text(id),
                        option_text(initial_fen),
                        texts(moves_uci@),
                    ) == Ok::<SessionView, ChessErrorView>(session@)
                },
                Err(e) => forall|any: Seq<char>|
                    #[trigger] opened(any, option_text(initial_fen), texts(moves_uci@)) == Err::<
                        SessionView,
                        ChessErrorView,
                    >(e@),
            },
    {
        let fen_str = match initial_fen {
            Some(given) => {
                let text = trim_text(given);
                if text.as_str().is_empty() {
                    STARTING_FEN.to_owned()
                } else {
                    text
                }
            },
            None => STARTING_FEN.to_owned(),
        };
        assert(fen_str@ == chosen_fen(option_text(initial_fen)));
        let position = match Position::parse(fen_str.as_str()) {
            Ok(position) => position,
            Err(e) => return Err(e),
        };
        let ghost start = position@;
        let ghost moves = texts(moves_uci@);
        let mut session = BoardSession {
            id,
            initial_fen: fen_str,
            position,
            history: Vec::new(),
        };
        assert(session@.history == Seq::<Seq<char>>::empty());
        proof {
            lemma_chosen_is_chosen(option_text(initial_fen));
        }
        let mut i: usize = 0;
        while i < moves_uci.len()
            invariant
                i <= moves_uci@.len(),
                moves == texts(moves_uci@),
                session@.id == uuid_text(id),
                session@.initial_fen == chosen_fen(option_text(initial_fen)),
                parsed_position(session@.initial_fen) == Ok::<Seq<char>, ChessErrorView>(start),
                session@.well_formed(),
                game_after(start, moves, i as nat) == Ok::<GameView, ChessErrorView>(
                    GameView { fen: session@.fen, history: session@.history },
                ),
            decreases moves_uci.len() - i,
        {
            assert(moves[i as int] == moves_uci@[i as int]@);
            match session.make_move(moves_uci[i].as_str()) {
                Ok(_) => {},
                Err(e) => {
                    proof {
                        assert(game_after(start, moves, (i + 1) as nat) == Err::<
                            GameView,
                            ChessErrorView,
                        >(e@));
                        lemma_game_stops(start, moves, (i + 1) as nat, moves.len());
                    }
                    return Err(e);
                },
            }
            i = i + 1;
        }
        assert(i == moves.len());
        Ok(session)
    }

    pub fn id(&self) -> (r: uuid::Uuid)
        ensures
            uuid_text(r) == self@.id,
    {
        self.id
    }

    /// The identifier as a text.
    pub fn session_id(&self) -> (r: String)
        ensures
            r@ == self@.id,
    {
        uuid_to_text(&self.id)
    }

    pub fn position(&self) -> (r: &Position)
        ensures
            r@ == self@.fen,
    {
        &self.position
    }

    pub fn history(&self) -> (r: &[String])
        ensures
            texts(r@) == self@.history,
    {
        self.history.as_slice()
    }

    /// Apply a UCI move. Returns the canonical UCI string that was applied; it joins the
    /// history, and the other side is to move. A rejected move changes nothing.
    pub fn make_move(&mut self, uci: &str) -> (r: Result<String, ChessError>)
        requires
            old(self)@.well_formed(),
        ensures
            final(self)@.well_formed(),
            match r {
                Ok(text) => {
                    &&& move_outcome(old(self)@.fen, uci@) == Ok::<
                        (Seq<char>, Seq<char>),
                        ChessErrorView,
                    >((final(self)@.fen, text@))
                    &&& final(self)@ == old(self)@.moved(uci@)
                    &&& exists|mv: MoveView| #[trigger]
                        leads_on(old(self)@.fen, uci@, mv, final(self)@.fen) && text@
                            == mv.uci().text()
                    &&& final(self)@.id == old(self)@.id
                    &&& final(self)@.initial_fen == old(self)@.initial_fen
                    &&& final(self)@.history == old(self)@.history.push(text@)
                    &&& side_to_move(final(self)@.fen) == opponent(side_to_move(old(self)@.fen))
                    &&& listed_moves(old(self)@.fen).contains(text@)
                    &&& notation_is_stable(old(self)@.fen, uci@)
                },
                Err(e) => {
                    &&& move_outcome(old(self)@.fen, uci@) == Err::<
                        (Seq<char>, Seq<char>),
                        ChessErrorView,
                    >(e@)
                    &&& final(self)@ == old(self)@
                },
            },
    {
        let ghost before = self@;
        let mv = match self.position.read_move(uci) {
            Ok(mv) => mv,
            Err(fault) => {
                let message = match fault {
                    MoveFault::Unreadable(m) => concat2("could not parse UCI move: ", m.as_str()),
                    MoveFault::Illegal => "move is not legal in the current position".to_owned(),
                };
                return Err(self.rejection(uci, message));
            },
        };
        let canonical = mv.uci();
        let next = match self.position.play(&mv) {
            Some(next) => next,
            None => {
                return Err(self.rejection(uci, "engine rejected move".to_owned()));
            },
        };
        proof {
            lemma_in_order_contains(self@.fen, canonical@);
        }
        proof {
            accepted_text_plays_the_move_it_denotes(self@.fen, uci@, mv@, next@);
        }
        let applied = canonical.clone();
        self.position = next;
        self.history.push(canonical);
        proof {
            assert(self@.history == before.history.push(applied@));
            assert(self@ == before.moved(uci@));
            lemma_moved_is_well_formed(before, uci@);
        }
        Ok(applied)
    }

    fn rejection(&self, uci: &str, message: String) -> (r: ChessError)
        ensures
            r@ == illegal(self@.fen, uci@, message@),
    {
        ChessError::IllegalMove {
            attempted: uci.to_owned(),
            message,
            current_fen: self.fen(),
            legal_moves: self.legal_moves_uci(),
        }
    }

    /// Undo `plies` moves. Returns the number actually undone.
    pub fn undo(&mut self, plies: u32) -> (r: Result<u32, ChessError>)
        requires
            old(self)@.well_formed(),
        ensures
            final(self)@.well_formed(),
            r is Ok,
            r->Ok_0 == if plies <= old(self)@.history.len() {
                plies as int
            } else {
                old(self)@.history.len() as int
            },
            final(self)@ == old(self)@.undone(plies as nat),
            final(self)@.history == old(self)@.history.take(
                old(self)@.history.len() - r->Ok_0,
            ),
            final(self)@.id == old(self)@.id,
            final(self)@.initial_fen == old(self)@.initial_fen,
    {
        let ghost before = self@;
        let ghost start = parsed_position(before.initial_fen)->Ok_0;
        proof {
            assert(before.history == texts(self.history@));
        }
        if plies == 0 {
            assert(before.history.take(before.history.len() as int) == before.history);
            assert(before.undone(0) == before);
            return Ok(0);
        }
        let count = self.history.len();
        let undone: usize = if plies as usize <= count {
            plies as usize
        } else {
            count
        };
        let target_len = count - undone;
        let mut kept: Vec<String> = Vec::new();
        let mut position = match Position::parse(self.initial_fen.as_str()) {
            Ok(position) => position,
            Err(e) => return Err(e),
        };
        let mut i: usize = 0;
        while i < target_len
            invariant
                i <= target_len <= self.history@.len(),
                self@ == before,
                before.well_formed(),
                before.history == texts(self.history@),
                parsed_position(before.initial_fen) == Ok::<Seq<char>, ChessErrorView>(start),
                kept@ == self.history@.take(i as int),
                game_after(start, before.history, i as nat) is Ok,
                game_after(start, before.history, i as nat)->Ok_0.fen == position@,
            decreases target_len - i,
        {
            let text = self.history[i].as_str();
            proof {
                assert(before.history[i as int] == text@);
                lemma_game_prefix(start, before.history, (i + 1) as nat, before.history.len());
            }
            let mv = match position.read_move(text) {
                Ok(mv) => mv,
                Err(fault) => {
                    let message = match fault {
                        MoveFault::Unreadable(m) => concat3(
                            "stored history not parseable: ",
                            text,
                            " (",
                        ).concat(m.as_str()).concat(")"),
                        MoveFault::Illegal => concat2("stored history not legal: ", text),
                    };
                    return Err(ChessError::Internal(message));
                },
            };
            position = match position.play(&mv) {
                Some(next) => next,
                None => {
                    return Err(
                        ChessError::Internal(concat2("stored history not playable: ", text)),
                    );
                },
            };
            kept.push(self.history[i].clone());
            i = i + 1;
        }
        self.history = kept;
        self.position = position;
        proof {
            assert(texts(self.history@) == before.history.take(target_len as int));
            assert(self@ == before.undone(plies as nat));
            lemma_undone_is_well_formed(before, plies as nat);
        }
        Ok(undone as u32)
    }

    /// The FEN of the current position. A session that is opened with it stands in the same
    /// position.
    pub fn fen(&self) -> (r: String)
        ensures
            r@ == self@.fen,
            words(r@).len() == 6,
            forall|id: Seq<char>| #[trigger]
                opened(id, Some(r@), seq![]) == Ok::<SessionView, ChessErrorView>(
                    SessionView { id, initial_fen: r@, fen: r@, history: seq![] },
                ),
    {
        let text = self.position.fen();
        assert(text@.len() > 0);
        text
    }

    pub fn turn(&self) -> (r: &'static str)
        ensures
            r@ == color_name(side_to_move(self@.fen)),
    {
        color_str(self.position.turn())
    }

    pub fn move_number(&self) -> (r: u32)
        ensures
            r == move_number(self@.fen),
            r >= 1,
    {
        self.position.fullmoves()
    }

    /// The legal moves in UCI notation, in ascending order and none twice: the texts that are
    /// accepted as a move and are its notation.
    pub fn legal_moves_uci(&self) -> (r: Vec<String>)
        ensures
            texts(r@) == listed_moves(self@.fen),
            r@.len() == legal(self@.fen).len(),
            strictly_ascending(texts(r@)),
            forall|i: int| 0 <= i < r@.len() ==> #[trigger] accepted(self@.fen, texts(r@)[i]),
            forall|text: Seq<char>|
                texts(r@).contains(text) <==> #[trigger] accepted(self@.fen, text),
    {
        let moves = self.position.legal_moves_uci();
        proof {
            assert forall|i: int| 0 <= i < moves@.len() implies #[trigger] accepted(
                self@.fen,
                texts(moves@)[i],
            ) by {
                assert(denotes_itself(self@.fen, texts(moves@)[i]));
            }
            assert forall|text: Seq<char>| texts(moves@).contains(text) <==> #[trigger] accepted(
                self@.fen,
                text,
            ) by {
                assert(denotes_itself(self@.fen, text) <==> accepted(self@.fen, text));
            }
        }
        moves
    }

    pub fn legal_move_count(&self) -> (r: usize)
        ensures
            r == legal(self@.fen).len(),
    {
        self.position.legal_move_count()
    }

    /// `checkmate`, `stalemate`, `check` or `normal`.
    pub fn state(&self) -> (r: &'static str)
        ensures
            r@ == game_state(self@.fen),
    {
        self.position.state()
    }

    /// The placement of the pieces.
    pub fn board_text(&self) -> (r: String)
        ensures
            r@ == words(self@.fen)[0],
    {
        self.position.board_text()
    }

    pub fn snapshot(&self) -> (r: BoardSnapshot)
        ensures
            r@ == self@.snapshot(),
    {
        let legal_moves = self.legal_moves_uci();
        let history = copy_texts(&self.history);
        BoardSnapshot {
            session_id: self.session_id(),
            fen: self.fen(),
            turn: self.turn().to_owned(),
            move_number: self.move_number(),
            history,
            board_text: self.board_text(),
            legal_move_count: legal_moves.len(),
            state: self.state().to_owned(),
            legal_moves,
        }
    }
}

/// The characters of an optional text.
pub open spec fn option_text(text: Option<&str>) -> Option<Seq<char>> {
    match text {
        Some(t) => Some(t@),
        None => None,
    }
}

proof fn lemma_chosen_is_chosen(given: Option<Seq<char>>)
    ensures
        chosen_fen(Some(chosen_fen(given))) == chosen_fen(given),
{
    reveal_strlit("rnbqkbnr/pppppppp/8/8/8/8/PPPPPPPP/RNBQKBNR w KQkq - 0 1");
    trimming_what_is_trim(STARTING_FEN@);
    if let Some(text) = given {
        trimming_is_idempotent(text);
    }
}

proof fn lemma_in_order_contains(fen: Seq<char>, text: Seq<char>)
    requires
        legal_notations(fen).contains(text),
    ensures
        listed_moves(fen).contains(text),
{
    broadcast use vstd::seq_lib::group_to_multiset_ensures;

    let list = legal_notations(fen);
    order_is_unique(list, list);
    assert(list.to_multiset().count(text) > 0);
    assert(listed_moves(fen).to_multiset().count(text) > 0);
}

/// A game that stops with an error stays stopped.
proof fn lemma_game_stops(start: Seq<char>, moves: Seq<Seq<char>>, n: nat, m: nat)
    requires
        n <= m,
        game_after(start, moves, n) is Err,
    ensures
        game_after(start, moves, m) == game_after(start, moves, n),
    decreases m,
{
    if n < m {
        lemma_game_stops(start, moves, n, (m - 1) as nat);
    }
}

proof fn lemma_game_prefix(start: Seq<char>, moves: Seq<Seq<char>>, n: nat, m: nat)
    requires
        n <= m,
        game_after(start, moves, m) is Ok,
    ensures
        game_after(start, moves, n) is Ok,
        game_after(start, moves, n)->Ok_0.history == game_after(
            start,
            moves,
            m,
        )->Ok_0.history.take(n as int),
        game_after(start, moves, m)->Ok_0.history.len() == m,
    decreases m,
{
    if m > 0 {
        if n < m {
            lemma_game_prefix(start, moves, n, (m - 1) as nat);
        } else {
            lemma_game_prefix(start, moves, (m - 1) as nat, (m - 1) as nat);
        }
        let before = game_after(start, moves, (m - 1) as nat)->Ok_0.history;
        let after = game_after(start, moves, m)->Ok_0.history;
        assert(after == before.push(after.last()));
        if n < m {
            assert(after.take(n as int) == before.take(n as int));
        } else {
            assert(after.take(n as int) == after);
        }
    }
}

proof fn lemma_game_of_same_beginning(
    start: Seq<char>,
    a: Seq<Seq<char>>,
    b: Seq<Seq<char>>,
    n: nat,
)
    requires
        n <= a.len(),
        n <= b.len(),
        a.take(n as int) == b.take(n as int),
    ensures
        game_after(start, a, n) == game_after(start, b, n),
    decreases n,
{
    if n > 0 {
        assert(a.take(n - 1) == a.take(n as int).take(n - 1));
        assert(b.take(n - 1) == b.take(n as int).take(n - 1));
        lemma_game_of_same_beginning(start, a, b, (n - 1) as nat);
        assert(a[n - 1] == a.take(n as int)[n - 1]);
        assert(b[n - 1] == b.take(n as int)[n - 1]);
    }
}

proof fn lemma_moved_is_well_formed(session: SessionView, text: Seq<char>)
    requires
        session.well_formed(),
        move_outcome(session.fen, text) is Ok,
        notation_is_stable(session.fen, text),
    ensures
        session.moved(text).well_formed(),
{
    let start = parsed_position(session.initial_fen)->Ok_0;
    let after = session.moved(text);
    let n = session.history.len();
    assert(after.history.take(n as int) == session.history.take(n as int));
    lemma_game_of_same_beginning(start, after.history, session.history, n);
    assert(after.history[n as int] == move_outcome(session.fen, text)->Ok_0.1);
}

proof fn lemma_undone_is_well_formed(session: SessionView, plies: nat)
    requires
        session.well_formed(),
    ensures
        session.undone(plies).well_formed(),
{
    let start = parsed_position(session.initial_fen)->Ok_0;
    let after = session.undone(plies);
    let n = after.history.len();
    lemma_game_prefix(start, session.history, n, session.history.len());
    assert(after.history.take(n as int) == session.history.take(n as int));
    lemma_game_of_same_beginning(start, after.history, session.history, n);
}

/// Taking a move back restores the session as it was before the move.
pub proof fn undo_reverts_a_move(session: SessionView, text: Seq<char>)
    requires
        session.well_formed(),
        move_outcome(session.fen, text) is Ok,
    ensures
        session.moved(text).undone(1) == session,
{
    let start = parsed_position(session.initial_fen)->Ok_0;
    let after = session.moved(text);
    let n = session.history.len();
    assert(after.history.take(n as int) == session.history);
    assert(session.history.take(n as int) == session.history);
    lemma_game_of_same_beginning(start, after.history, session.history, n);
}

/// Taking moves back in two goes takes back as many as in one.
pub proof fn undo_adds_up(session: SessionView, first: nat, second: nat)
    requires
        session.well_formed(),
    ensures
        session.undone(first).undone(second) == session.undone(first + second),
        session.undone(first).well_formed(),
{
    lemma_undone_is_well_formed(session, first);
    let start = parsed_position(session.initial_fen)->Ok_0;
    let once = session.undone(first);
    let twice = once.undone(second);
    let both = session.undone(first + second);
    let n = twice.history.len();
    assert(twice.history == both.history);
    assert(once.history.take(n as int) == session.history.take(n as int));
    lemma_game_of_same_beginning(start, once.history, session.history, n);
}

/// Taking back nothing changes nothing; taking back more than was played goes back to
/// the start.
pub proof fn undo_is_clamped(session: SessionView, plies: nat)
    requires
        session.well_formed(),
    ensures
        session.undone(0) == session,
        plies >= session.history.len() ==> session.undone(plies).history.len() == 0
            && session.undone(plies).fen == parsed_position(session.initial_fen)->Ok_0,
{
    assert(session.history.take(session.history.len() as int) == session.history);
}

/// What a client is shown fits together: as many moves are listed as are counted, and there
/// are none exactly where the game is over.
pub proof fn snapshot_fits_together(session: SessionView)
    ensures
        session.snapshot().legal_moves.len() == session.snapshot().legal_move_count,
        session.snapshot().legal_move_count == 0 <==> session.snapshot().state == "checkmate"@
            || session.snapshot().state == "stalemate"@,
{
    broadcast use vstd::seq_lib::group_to_multiset_ensures;

    let list = legal_notations(session.fen);
    order_is_unique(list, list);
    assert(listed_moves(session.fen).to_multiset().len() == list.to_multiset().len());
    reveal_strlit("checkmate");
    reveal_strlit("stalemate");
    reveal_strlit("check");
    reveal_strlit("normal");
    assert("checkmate"@.len() == 9 && "stalemate"@.len() == 9);
    assert("check"@.len() == 5 && "normal"@.len() == 6);
}

/// Opening a session with some moves and making one more is opening it with all of them.
pub proof fn opening_then_moving(
    id: Seq<char>,
    given: Option<Seq<char>>,
    moves: Seq<Seq<char>>,
    mv: Seq<char>,
)
    requires
        opened(id, given, moves) is Ok,
    ensures
        match move_outcome(opened(id, given, moves)->Ok_0.fen, mv) {
            Ok(_) => opened(id, given, moves.push(mv)) == Ok::<SessionView, ChessErrorView>(
                opened(id, given, moves)->Ok_0.moved(mv),
            ),
            Err(e) => opened(id, given, moves.push(mv)) == Err::<SessionView, ChessErrorView>(e),
        },
{
    let start = parsed_position(chosen_fen(given))->Ok_0;
    let all = moves.push(mv);
    assert(all.take(moves.len() as int) == moves.take(moves.len() as int));
    lemma_game_of_same_beginning(start, all, moves, moves.len());
    assert(all[moves.len() as int] == mv);
}

/// A session can be opened again from its initial FEN and its history.
pub proof fn session_opens_again(session: SessionView)
    requires
        session.well_formed(),
    ensures
        opened(session.id, Some(session.initial_fen), session.history) == Ok::<
            SessionView,
            ChessErrorView,
        >(session),
{
}

/// A text is accepted exactly where it denotes a move that can be played, and then the
/// position after it is the one that playing this move leads to, and the text noted is the
/// move's own notation. This holds of every kind of move.
pub proof fn accepted_text_plays_the_move_it_denotes(
    fen: Seq<char>,
    text: Seq<char>,
    mv: MoveView,
    next: Seq<char>,
)
    ensures
        leads_on(fen, text, mv, next) ==> move_outcome(fen, text) == Ok::<
            (Seq<char>, Seq<char>),
            ChessErrorView,
        >((next, mv.uci().text())),
        move_outcome(fen, text) matches Ok(done) ==> exists|m: MoveView| #[trigger]
            leads_on(fen, text, m, done.0) && done.1 == m.uci().text(),
{
    what_a_text_denotes(fen, text, mv);
    if let Ok(done) = move_outcome(fen, text) {
        let m = move_meant(fen, text)->Ok_0;
        what_a_text_denotes(fen, text, m);
        assert(leads_on(fen, text, m, done.0));
    }
}

/// What a rejected text is told: the text itself, the FEN it was tried in, all moves that
/// are listed there, and whether it is no notation or not legal.
pub proof fn rejected_text_is_answered_with_the_legal_moves(fen: Seq<char>, text: Seq<char>)
    ensures
        read_uci(text) is None ==> move_outcome(fen, text) == Err::<
            (Seq<char>, Seq<char>),
            ChessErrorView,
        >(
            ChessErrorView::IllegalMove {
                attempted: text,
                message: "could not parse UCI move: "@ + "invalid uci"@,
                current_fen: fen,
                legal_moves: listed_moves(fen),
            },
        ),
        (read_uci(text) matches Some(uci) && resolved(fen, uci) is None) ==> move_outcome(fen, text)
            == Err::<(Seq<char>, Seq<char>), ChessErrorView>(
            ChessErrorView::IllegalMove {
                attempted: text,
                message: "move is not legal in the current position"@,
                current_fen: fen,
                legal_moves: listed_moves(fen),
            },
        ),
        (read_uci(text) matches Some(uci) && resolved(fen, uci) matches Some(mv) && played(fen, mv)
            is None) ==> move_outcome(fen, text) == Err::<(Seq<char>, Seq<char>), ChessErrorView>(
            ChessErrorView::IllegalMove {
                attempted: text,
                message: "engine rejected move"@,
                current_fen: fen,
                legal_moves: listed_moves(fen),
            },
        ),
{
    what_a_text_denotes(fen, text, resolved(fen, read_uci(text)->0)->0);
}

/// A move changes the position and adds its notation to the history, and nothing else.
pub proof fn what_a_move_changes(session: SessionView, text: Seq<char>, mv: MoveView, next: Seq<char>)
    requires
        leads_on(session.fen, text, mv, next),
    ensures
        session.moved(text).fen == next,
        session.moved(text).history == session.history.push(mv.uci().text()),
        session.moved(text).id == session.id,
        session.moved(text).initial_fen == session.initial_fen,
{
    accepted_text_plays_the_move_it_denotes(session.fen, text, mv, next);
}

proof fn lemma_game_of_line(
    moves: Seq<Seq<char>>,
    positions: Seq<Seq<char>>,
    played_moves: Seq<MoveView>,
    n: nat,
)
    requires
        n <= moves.len(),
        n <= played_moves.len(),
        n < positions.len(),
        forall|k: int|
            0 <= k < n ==> #[trigger] leads_on(
                positions[k],
                moves[k],
                played_moves[k],
                positions[k + 1],
            ),
    ensures
        game_after(positions[0], moves, n) is Ok,
        game_after(positions[0], moves, n)->Ok_0.fen == positions[n as int],
        game_after(positions[0], moves, n)->Ok_0.history.len() == n,
        forall|k: int|
            0 <= k < n ==> #[trigger] game_after(positions[0], moves, n)->Ok_0.history[k]
                == played_moves[k].uci().text(),
    decreases n,
{
    if n > 0 {
        let m = (n - 1) as nat;
        lemma_game_of_line(moves, positions, played_moves, m);
        assert(leads_on(
            positions[m as int],
            moves[m as int],
            played_moves[m as int],
            positions[m as int + 1],
        ));
        accepted_text_plays_the_move_it_denotes(
            positions[m as int],
            moves[m as int],
            played_moves[m as int],
            positions[n as int],
        );
    }
}

/// A session opened with moves that are a line of play stands at the end of the line and
/// has noted every move of it. It starts from the FEN that was given, trimmed, or from the
/// starting position where none or a blank one was given.
pub proof fn opened_session_follows_the_line(
    id: Seq<char>,
    given: Option<Seq<char>>,
    moves: Seq<Seq<char>>,
    positions: Seq<Seq<char>>,
    played_moves: Seq<MoveView>,
)
    requires
        line_of_play(positions, played_moves, moves),
        parsed_position(
            if given is Some && trimmed(given->0).len() > 0 {
                trimmed(given->0)
            } else {
                "rnbqkbnr/pppppppp/8/8/8/8/PPPPPPPP/RNBQKBNR w KQkq - 0 1"@
            },
        ) == Ok::<Seq<char>, ChessErrorView>(positions[0]),
    ensures
        opened(id, given, moves) is Ok,
        ({
            let session = opened(id, given, moves)->Ok_0;
            &&& session.id == id
            &&& session.fen == positions.last()
            &&& session.history.len() == moves.len()
            &&& forall|k: int|
                0 <= k < moves.len() ==> #[trigger] session.history[k]
                    == played_moves[k].uci().text()
            &&& given is Some && trimmed(given->0).len() > 0 ==> session.initial_fen == trimmed(
                given->0,
            )
        }),
{
    lemma_game_of_line(moves, positions, played_moves, moves.len());
}

/// A session is not opened where its FEN denotes no position, or where a move cannot be
/// made in the position that the moves before it lead to: the first such move is reported.
pub proof fn opening_stops_at_the_first_bad_move(
    id: Seq<char>,
    given: Option<Seq<char>>,
    moves: Seq<Seq<char>>,
    positions: Seq<Seq<char>>,
    played_moves: Seq<MoveView>,
    n: nat,
)
    requires
        n < moves.len(),
        line_of_play(positions, played_moves, moves.take(n as int)),
        parsed_position(chosen_fen(given)) == Ok::<Seq<char>, ChessErrorView>(positions[0]),
        move_outcome(positions[n as int], moves[n as int]) is Err,
    ensures
        opened(id, given, moves) == Err::<SessionView, ChessErrorView>(
            move_outcome(positions[n as int], moves[n as int])->Err_0,
        ),
{
    assert forall|k: int| 0 <= k < n implies #[trigger] leads_on(
        positions[k],
        moves[k],
        played_moves[k],
        positions[k + 1],
    ) by {
        assert(leads_on(
            positions[k],
            moves.take(n as int)[k],
            played_moves[k],
            positions[k + 1],
        ));
    }
    lemma_game_of_line(moves, positions, played_moves, n);
    assert(game_after(positions[0], moves, n + 1) is Err);
    lemma_game_stops(positions[0], moves, n + 1, moves.len());
}

/// The FEN that a session starts from: the given one without white space around it, and the
/// standard starting position where that leaves nothing.
pub proof fn what_a_session_starts_from(given: Seq<char>, id: Seq<char>, moves: Seq<Seq<char>>)
    ensures
        trimmed(given).len() > 0 ==> chosen_fen(Some(given)) == trimmed(given),
        trimmed(given).len() == 0 ==> chosen_fen(Some(given))
            == "rnbqkbnr/pppppppp/8/8/8/8/PPPPPPPP/RNBQKBNR w KQkq - 0 1"@,
        chosen_fen(None) == "rnbqkbnr/pppppppp/8/8/8/8/PPPPPPPP/RNBQKBNR w KQkq - 0 1"@,
        parsed_position(chosen_fen(Some(given))) matches Err(e) ==> opened(id, Some(given), moves)
            == Err::<SessionView, ChessErrorView>(e),
{
}

/// The history of a session is a line of play from its initial FEN to its position: the one
/// that is returned.
pub proof fn session_is_a_line(session: SessionView) -> (r: (Seq<Seq<char>>, Seq<MoveView>))
    requires
        session.well_formed(),
    ensures
        parsed_position(session.initial_fen) == Ok::<Seq<char>, ChessErrorView>(r.0[0]),
        line_of_play(r.0, r.1, session.history),
        r.0.last() == session.fen,
{
    let start = parsed_position(session.initial_fen)->Ok_0;
    let r = lemma_line_of_game(start, session.history, session.history.len());
    assert(session.history.take(session.history.len() as int) == session.history);
    r
}

proof fn lemma_line_of_game(start: Seq<char>, moves: Seq<Seq<char>>, n: nat) -> (r: (
    Seq<Seq<char>>,
    Seq<MoveView>,
))
    requires
        n <= moves.len(),
        game_after(start, moves, n) is Ok,
    ensures
        r.0[0] == start,
        line_of_play(r.0, r.1, moves.take(n as int)),
        r.0.last() == game_after(start, moves, n)->Ok_0.fen,
    decreases n,
{
    if n == 0 {
        (seq![start], seq![])
    } else {
        let m = (n - 1) as nat;
        let (positions, played_moves) = lemma_line_of_game(start, moves, m);
        let fen = game_after(start, moves, m)->Ok_0.fen;
        let next = game_after(start, moves, n)->Ok_0.fen;
        accepted_text_plays_the_move_it_denotes(fen, moves[m as int], arbitrary(), next);
        let mv = choose|mv: MoveView| #[trigger] leads_on(fen, moves[m as int], mv, next);
        let all_positions = positions.push(next);
        let all_moves = played_moves.push(mv);
        let all = moves.take(n as int);
        assert forall|k: int| 0 <= k < all.len() implies #[trigger] leads_on(
            all_positions[k],
            all[k],
            all_moves[k],
            all_positions[k + 1],
        ) by {
            if k < m {
                assert(leads_on(
                    positions[k],
                    moves.take(m as int)[k],
                    played_moves[k],
                    positions[k + 1],
                ));
            }
        }
        (all_positions, all_moves)
    }
}

/// Taking moves back keeps the beginning of the history, shorter by as many moves as were
/// asked for or down to none, and goes back to the position that stood there. The session
/// keeps its identifier and its start.
pub proof fn undo_goes_back_along_the_line(
    session: SessionView,
    positions: Seq<Seq<char>>,
    played_moves: Seq<MoveView>,
    plies: nat,
)
    requires
        parsed_position(session.initial_fen) == Ok::<Seq<char>, ChessErrorView>(positions[0]),
        line_of_play(positions, played_moves, session.history),
    ensures
        ({
            let kept = if plies <= session.history.len() {
                session.history.len() - plies
            } else {
                0
            };
            let after = session.undone(plies);
            &&& after.history.len() == kept
            &&& forall|k: int| 0 <= k < kept ==> #[trigger] after.history[k] == session.history[k]
            &&& after.fen == positions[kept]
            &&& after.id == session.id
            &&& after.initial_fen == session.initial_fen
        }),
{
    let kept = if plies <= session.history.len() {
        session.history.len() - plies
    } else {
        0
    };
    lemma_game_of_line(session.history, positions, played_moves, kept as nat);
}

/// Taking back as many moves as were made right before gives the session before them.
pub proof fn undo_reverts_moves(sessions: Seq<SessionView>, made: Seq<Seq<char>>)
    requires
        sessions.len() == made.len() + 1,
        sessions[0].well_formed(),
        forall|k: int|
            0 <= k < made.len() ==> #[trigger] follows_by(sessions[k], made[k], sessions[k + 1]),
    ensures
        sessions.last().undone(made.len()) == sessions[0],
    decreases made.len(),
{
    let n = made.len();
    let session = sessions[0];
    if n == 0 {
        undo_is_clamped(session, 0);
    } else {
        let earlier = sessions.drop_last();
        let fewer = made.drop_last();
        assert forall|k: int| 0 <= k < fewer.len() implies #[trigger] follows_by(
            earlier[k],
            fewer[k],
            earlier[k + 1],
        ) by {
            assert(follows_by(sessions[k], made[k], sessions[k + 1]));
        }
        undo_reverts_moves(earlier, fewer);
        lemma_histories_grow(sessions, made, n);
        lemma_histories_grow(sessions, made, (n - 1) as nat);
        let m = n - 1;
        assert(follows_by(sessions[m], made[m], sessions[m + 1]));
        let last = sessions[n as int];
        let before = sessions[n - 1];
        let start = parsed_position(session.initial_fen)->Ok_0;
        let kept = session.history.len();
        assert(earlier.last() == before);
        assert(last.history.take(kept as int) == before.history.take(kept as int));
        lemma_game_of_same_beginning(start, last.history, before.history, kept);
        assert(last.undone(n) == session);
    }
}

/// Whether a session comes from another by an accepted move.
pub open spec fn follows_by(before: SessionView, text: Seq<char>, after: SessionView) -> bool {
    move_outcome(before.fen, text) is Ok && after == before.moved(text)
}

proof fn lemma_histories_grow(sessions: Seq<SessionView>, made: Seq<Seq<char>>, n: nat)
    requires
        sessions.len() == made.len() + 1,
        n <= made.len(),
        forall|k: int|
            0 <= k < made.len() ==> #[trigger] follows_by(sessions[k], made[k], sessions[k + 1]),
    ensures
        sessions[n as int].id == sessions[0].id,
        sessions[n as int].initial_fen == sessions[0].initial_fen,
        sessions[n as int].history.len() == sessions[0].history.len() + n,
        sessions[n as int].history.take(sessions[0].history.len() as int) == sessions[0].history,
    decreases n,
{
    if n > 0 {
        let m = n - 1;
        lemma_histories_grow(sessions, made, m as nat);
        assert(follows_by(sessions[m], made[m], sessions[m + 1]));
        let kept = sessions[0].history.len() as int;
        assert(sessions[n as int].history.take(kept) == sessions[n - 1].history.take(kept));
    } else {
        assert(sessions[0].history.take(sessions[0].history.len() as int) == sessions[0].history);
    }
}

/// What a client is shown is the session's own: its identifier, its position with the side
/// to move and the number of the move, its whole history, and every legal move.
pub proof fn snapshot_shows_the_session(session: SessionView)
    ensures
        ({
            let shown = session.snapshot();
            &&& shown.session_id == session.id
            &&& shown.fen == session.fen
            &&& shown.history == session.history
            &&& shown.board_text == words(session.fen)[0]
            &&& words(session.fen)[1] == seq!['w'] ==> shown.turn == "white"@
            &&& words(session.fen)[1] == seq!['b'] ==> shown.turn == "black"@
            &&& shown.move_number == move_number(session.fen)
            &&& shown.state == game_state(session.fen)
            &&& shown.legal_move_count == legal(session.fen).len()
            &&& shown.legal_moves == listed_moves(session.fen)
            &&& ascending(shown.legal_moves)
            &&& shown.legal_moves.to_multiset() == Seq::new(
                legal(session.fen).len(),
                |i: int| legal(session.fen)[i].uci().text(),
            ).to_multiset()
        }),
{
    whose_turn_it_is(session.fen);
    what_is_listed(session.fen);
}

} // verus!
