//! What happens in a principal variation: its moves in algebraic notation, its captures
//! and the material that changes hands.

use vstd::prelude::*;
use crate::error::{ChessError, ChessErrorView};
use crate::position::{
    color_name, color_str, leads_on, line_of_play, men, move_meant, opponent, parsed_position,
    played, read_uci, resolved, san, side_to_move, what_a_text_denotes, Color, MoveFault,
    MoveFaultView, MoveView, Position, Role,
};
use crate::text::{concat3, copy_texts, texts};

verus! {

/// A single capture event extracted from a principal variation.
#[derive(Debug, PartialEq, Eq, Default)]
pub struct CaptureEvent {
    /// 1-indexed position in the PV.
    pub ply: u32,
    /// "white" or "black": the side making the capture.
    pub side: String,
    /// Single-letter role of the capturing piece (P/N/B/R/Q/K).
    pub piece: String,
    /// Single-letter role of the captured piece.
    pub captured: String,
    /// Destination square in algebraic notation (e.g. "e4").
    pub square: String,
    /// Conventional point value of the captured piece (P=1, N=B=3, R=5, Q=9).
    pub value: i32,
    /// True for en-passant captures (the captured pawn is not on `square`).
    pub en_passant: bool,
}

/// Net material change after playing the PV, from the side-to-move's perspective.
///
/// `white_lost` and `black_lost` count point values of pieces removed by captures
/// in the PV (a piece that is recaptured contributes to both). `net_for_stm` is
/// positive when the side that moved first comes out ahead in those swaps.
#[derive(Debug, Clone, Copy, PartialEq, Eq, Structural)]
pub struct MaterialSwing {
    pub white_lost: i32,
    pub black_lost: i32,
    pub net_for_stm: i32,
}

impl Default for MaterialSwing {
    fn default() -> (r: MaterialSwing)
        ensures
            r == (MaterialSwing { white_lost: 0, black_lost: 0, net_for_stm: 0 }),
    {
        MaterialSwing { white_lost: 0, black_lost: 0, net_for_stm: 0 }
    }
}

/// A principal variation explained.
#[derive(Debug)]
pub struct PvExplanation {
    pub pv_san: Vec<String>,
    pub captures: Vec<CaptureEvent>,
    pub material_swing: MaterialSwing,
}

/// The contents of a `CaptureEvent`.
pub struct CaptureView {
    pub ply: u32,
    pub side: Seq<char>,
    pub piece: Seq<char>,
    pub captured: Seq<char>,
    pub square: Seq<char>,
    pub value: i32,
    pub en_passant: bool,
}

impl View for CaptureEvent {
    type V = CaptureView;

    open spec fn view(&self) -> CaptureView {
        CaptureView {
            ply: self.ply,
            side: self.side@,
            piece: self.piece@,
            captured: self.captured@,
            square: self.square@,
            value: self.value,
            en_passant: self.en_passant,
        }
    }
}

/// The contents of a list of capture events.
pub open spec fn captures_view(list: Seq<CaptureEvent>) -> Seq<CaptureView> {
    list.map_values(|c: CaptureEvent| c@)
}

impl Clone for CaptureEvent {
    fn clone(&self) -> (r: CaptureEvent)
        ensures
            r@ == self@,
    {
        CaptureEvent {
            ply: self.ply,
            side: self.side.clone(),
            piece: self.piece.clone(),
            captured: self.captured.clone(),
            square: self.square.clone(),
            value: self.value,
            en_passant: self.en_passant,
        }
    }
}

/// A copy of a list of capture events.
pub fn copy_captures(list: &Vec<CaptureEvent>) -> (r: Vec<CaptureEvent>)
    ensures
        captures_view(r@) == captures_view(list@),
{
    let mut out: Vec<CaptureEvent> = Vec::new();
    let mut i: usize = 0;
    while i < list.len()
        invariant
            i <= list@.len(),
            captures_view(out@) == captures_view(list@).take(i as int),
        decreases list.len() - i,
    {
        let ghost before = captures_view(out@);
        let copy = list[i].clone();
        out.push(copy);
        assert(captures_view(out@) == before.push(captures_view(list@)[i as int]));
        i = i + 1;
    }
    assert(captures_view(list@).take(i as int) == captures_view(list@));
    out
}

/// The contents of a `PvExplanation`.
pub struct PvExplanationView {
    pub pv_san: Seq<Seq<char>>,
    pub captures: Seq<CaptureView>,
    pub material_swing: MaterialSwing,
}

impl View for PvExplanation {
    type V = PvExplanationView;

    open spec fn view(&self) -> PvExplanationView {
        PvExplanationView {
            pv_san: texts(self.pv_san@),
            captures: captures_view(self.captures@),
            material_swing: self.material_swing,
        }
    }
}

/// The conventional point value of a piece.
pub open spec fn value_of(role: Role) -> i32 {
    match role {
        Role::Pawn => 1,
        Role::Knight => 3,
        Role::Bishop => 3,
        Role::Rook => 5,
        Role::Queen => 9,
        Role::King => 0,
    }
}

/// The letter of a piece.
pub open spec fn letter_of(role: Role) -> Seq<char> {
    match role {
        Role::Pawn => "P"@,
        Role::Knight => "N"@,
        Role::Bishop => "B"@,
        Role::Rook => "R"@,
        Role::Queen => "Q"@,
        Role::King => "K"@,
    }
}

pub fn piece_value(role: Role) -> (r: i32)
    ensures
        r == value_of(role),
{
    match role {
        Role::Pawn => 1,
        Role::Knight => 3,
        Role::Bishop => 3,
        Role::Rook => 5,
        Role::Queen => 9,
        Role::King => 0,
    }
}

pub fn role_char(role: Role) -> (r: &'static str)
    ensures
        r@ == letter_of(role),
{
    match role {
        Role::Pawn => "P",
        Role::Knight => "N",
        Role::Bishop => "B",
        Role::Rook => "R",
        Role::Queen => "Q",
        Role::King => "K",
    }
}

/// The points that a side has taken in a list of captures.
pub open spec fn taken_by(captures: Seq<CaptureView>, side: Color) -> int
    decreases captures.len(),
{
    if captures.len() == 0 {
        0
    } else {
        taken_by(captures.drop_last(), side) + (if captures.last().side == color_name(side) {
            captures.last().value as int
        } else {
            0
        })
    }
}

/// A capture as an event.
pub open spec fn capture_event(
    ply: u32,
    side: Color,
    piece: Role,
    captured: Role,
    square: Seq<char>,
    en_passant: bool,
) -> CaptureView {
    CaptureView {
        ply,
        side: color_name(side),
        piece: letter_of(piece),
        captured: letter_of(captured),
        square,
        value: value_of(captured),
        en_passant,
    }
}

/// How far a principal variation has been walked.
pub struct PvWalk {
    /// The position reached.
    pub fen: Seq<char>,
    /// The moves so far, in algebraic notation.
    pub pv_san: Seq<Seq<char>>,
    /// The captures so far.
    pub captures: Seq<CaptureView>,
}

/// One more move of a principal variation; the move is number `ply`, counted from one.
pub open spec fn pv_step(walk: PvWalk, ply: u32, text: Seq<char>) -> Result<
    PvWalk,
    ChessErrorView,
> {
    match move_meant(walk.fen, text) {
        Err(MoveFaultView::Unreadable(message)) => Err(
            ChessErrorView::Internal {
                message: "pv move not parseable: '"@ + text + "' ("@ + message + ")"@,
            },
        ),
        Err(MoveFaultView::Illegal) => Err(
            ChessErrorView::Internal {
                message: "pv move '"@ + text + "' not legal in intermediate position"@,
            },
        ),
        Ok(mv) => match played(walk.fen, mv) {
            None => Err(
                ChessErrorView::Internal { message: "could not play pv move '"@ + text + "'"@ },
            ),
            Some(next) => Ok(
                PvWalk {
                    fen: next,
                    pv_san: walk.pv_san.push(san(walk.fen, mv)),
                    captures: match mv.capture() {
                        Some(captured) => walk.captures.push(
                            capture_event(
                                ply,
                                side_to_move(walk.fen),
                                mv.role(),
                                captured,
                                mv.to(),
                                mv.en_passant(),
                            ),
                        ),
                        None => walk.captures,
                    },
                },
            ),
        },
    }
}

/// The first `n` moves of a principal variation, from the position with FEN `start`.
pub open spec fn pv_walk(start: Seq<char>, pv: Seq<Seq<char>>, n: nat) -> Result<
    PvWalk,
    ChessErrorView,
>
    decreases n,
{
    if n == 0 {
        Ok(PvWalk { fen: start, pv_san: seq![], captures: seq![] })
    } else {
        match pv_walk(start, pv, (n - 1) as nat) {
            Err(e) => Err(e),
            Ok(walk) => pv_step(walk, n as u32, pv[n - 1]),
        }
    }
}

/// The points that each side lost in a list of captures, and the balance of the side
/// that moved first.
pub open spec fn swing_of(captures: Seq<CaptureView>, first: Color) -> MaterialSwing {
    MaterialSwing {
        white_lost: taken_by(captures, Color::Black) as i32,
        black_lost: taken_by(captures, Color::White) as i32,
        net_for_stm: (taken_by(captures, first) - taken_by(captures, opponent(first))) as i32,
    }
}

/// The explanation of a principal variation from the position that a FEN denotes.
pub open spec fn explained(fen: Seq<char>, pv: Seq<Seq<char>>) -> Result<
    PvExplanationView,
    ChessErrorView,
> {
    match parsed_position(fen) {
        Err(e) => Err(e),
        Ok(start) => match pv_walk(start, pv, pv.len()) {
            Err(e) => Err(e),
            Ok(walk) => Ok(
                PvExplanationView {
                    pv_san: walk.pv_san,
                    captures: walk.captures,
                    material_swing: swing_of(walk.captures, side_to_move(start)),
                },
            ),
        },
    }
}

proof fn lemma_side_names_differ()
    ensures
        color_name(Color::White) != color_name(Color::Black),
{
    reveal_strlit("white");
    reveal_strlit("black");
    assert("white"@[0] != "black"@[0]);
}

impl Clone for PvExplanation {
    fn clone(&self) -> (r: PvExplanation)
        ensures
            r@ == self@,
    {
        PvExplanation {
            pv_san: copy_texts(&self.pv_san),
            captures: copy_captures(&self.captures),
            material_swing: self.material_swing,
        }
    }
}

impl PvExplanation {
    /// The explanation of no moves.
    pub fn empty() -> (r: PvExplanation)
        ensures
            r@.pv_san == Seq::<Seq<char>>::empty(),
            r@.captures == Seq::<CaptureView>::empty(),
            r@.material_swing == (MaterialSwing { white_lost: 0, black_lost: 0, net_for_stm: 0 }),
    {
        let r = PvExplanation {
            pv_san: Vec::new(),
            captures: Vec::new(),
            material_swing: MaterialSwing::default(),
        };
        assert(texts(r.pv_san@) == Seq::<Seq<char>>::empty());
        assert(captures_view(r.captures@) == Seq::<CaptureView>::empty());
        r
    }

    /// The points in the swing are those of the captures.
    pub open spec fn adds_up(self) -> bool {
        &&& self.material_swing.white_lost == taken_by(self@.captures, Color::Black)
        &&& self.material_swing.black_lost == taken_by(self@.captures, Color::White)
    }

    /// Adds a move: its notation, and the capture if it is one.
    pub fn add_move(
        &mut self,
        ply: u32,
        side: Color,
        piece: Role,
        capture: Option<Role>,
        square: String,
        en_passant: bool,
        notation: String,
    )
        requires
            old(self).adds_up(),
            old(self).material_swing.white_lost <= i32::MAX - 9,
            old(self).material_swing.black_lost <= i32::MAX - 9,
        ensures
            final(self).adds_up(),
            final(self)@.pv_san == old(self)@.pv_san.push(notation@),
            final(self)@.captures == match capture {
                Some(captured) => old(self)@.captures.push(
                    capture_event(ply, side, piece, captured, square@, en_passant),
                ),
                None => old(self)@.captures,
            },
            final(self).material_swing.white_lost == old(self).material_swing.white_lost + (
            match capture {
                Some(captured) => if side is Black {
                    value_of(captured) as int
                } else {
                    0
                },
                None => 0,
            }),
            final(self).material_swing.black_lost == old(self).material_swing.black_lost + (
            match capture {
                Some(captured) => if side is White {
                    value_of(captured) as int
                } else {
                    0
                },
                None => 0,
            }),
            final(self).material_swing.net_for_stm == old(self).material_swing.net_for_stm,
    {
        let ghost san_before = texts(self.pv_san@);
        let ghost captures_before = captures_view(self.captures@);
        match capture {
            Some(captured) => {
                let value = piece_value(captured);
                let event = CaptureEvent {
                    ply,
                    side: color_str(side).to_owned(),
                    piece: role_char(piece).to_owned(),
                    captured: role_char(captured).to_owned(),
                    square,
                    value,
                    en_passant,
                };
                let ghost added = event@;
                self.captures.push(event);
                match side {
                    Color::White => {
                        self.material_swing.black_lost = self.material_swing.black_lost + value;
                    },
                    Color::Black => {
                        self.material_swing.white_lost = self.material_swing.white_lost + value;
                    },
                }
                proof {
                    lemma_side_names_differ();
                    assert(captures_view(self.captures@) == captures_before.push(added));
                    assert(captures_before.push(added).drop_last() == captures_before);
                }
            },
            None => {},
        }
        self.pv_san.push(notation);
        assert(texts(self.pv_san@) == san_before.push(notation@));
    }

    /// Settles the balance of the side that moved first.
    pub fn settle(&mut self, first: Color)
        requires
            0 <= old(self).material_swing.white_lost,
            0 <= old(self).material_swing.black_lost,
        ensures
            final(self)@.pv_san == old(self)@.pv_san,
            final(self)@.captures == old(self)@.captures,
            final(self).material_swing.white_lost == old(self).material_swing.white_lost,
            final(self).material_swing.black_lost == old(self).material_swing.black_lost,
            final(self).material_swing.net_for_stm == match first {
                Color::White => old(self).material_swing.black_lost - old(
                    self,
                ).material_swing.white_lost,
                Color::Black => old(self).material_swing.white_lost - old(
                    self,
                ).material_swing.black_lost,
            },
    {
        self.material_swing.net_for_stm = match first {
            Color::White => self.material_swing.black_lost - self.material_swing.white_lost,
            Color::Black => self.material_swing.white_lost - self.material_swing.black_lost,
        };
    }
}

/// The side whose turn it is at move `ply`, counted from one.
pub open spec fn side_at(first: Color, ply: int) -> Color {
    if ply % 2 == 1 {
        first
    } else {
        opponent(first)
    }
}

/// Each capture is made by the side whose turn it is.
pub open spec fn sides_alternate(captures: Seq<CaptureView>, first: Color) -> bool {
    forall|i: int|
        0 <= i < captures.len() ==> (#[trigger] captures[i]).side == color_name(
            side_at(first, captures[i].ply as int),
        )
}

/// Walk a principal variation from `fen` and produce SAN + capture/material
/// annotations. Returns an empty explanation if `pv_uci` is empty.
///
/// Returns an error only on FEN parse failure or if a PV move is not legal in
/// the position it would be played in (which would indicate engine/parsing
/// disagreement and is worth surfacing).
///
/// There are as many captures as the board has fewer pieces at the end of the variation.
pub fn explain_pv(fen: &str, pv_uci: &[String]) -> (r: Result<PvExplanation, ChessError>)
    ensures
        match r {
            Ok(explanation) => {
                &&& explained(fen@, texts(pv_uci@)) == Ok::<PvExplanationView, ChessErrorView>(
                    explanation@,
                )
                &&& pv_uci@.len() <= u32::MAX ==> sides_alternate(
                    explanation@.captures,
                    side_to_move(parsed_position(fen@)->Ok_0),
                )
                &&& pv_uci@.len() <= u32::MAX ==> forall|
                    positions: Seq<Seq<char>>,
                    moves: Seq<MoveView>,
                | #[trigger]
                    line_of_play(positions, moves, texts(pv_uci@)) && parsed_position(fen@) == Ok::<
                        Seq<char>,
                        ChessErrorView,
                    >(positions[0]) ==> explanation@.captures.len() + men(positions.last()) == men(
                        positions[0],
                    )
                &&& explanation.adds_up()
                &&& 0 <= explanation.material_swing.white_lost
                &&& 0 <= explanation.material_swing.black_lost
                &&& explanation.material_swing.white_lost + explanation.material_swing.black_lost
                    <= 9 * 64
            },
            Err(e) => explained(fen@, texts(pv_uci@)) == Err::<PvExplanationView, ChessErrorView>(
                e@,
            ),
        },
{
    let mut position = match Position::parse(fen) {
        Ok(position) => position,
        Err(e) => return Err(e),
    };
    let ghost start = position@;
    let ghost pv = texts(pv_uci@);
    let first = position.turn();
    let mut out = PvExplanation::empty();
    let mut i: usize = 0;
    while i < pv_uci.len()
        invariant
            i <= pv_uci@.len(),
            pv == texts(pv_uci@),
            parsed_position(fen@) == Ok::<Seq<char>, ChessErrorView>(start),
            first == side_to_move(start),
            out.adds_up(),
            side_to_move(position@) == side_at(first, i + 1),
            pv.len() <= u32::MAX ==> sides_alternate(out@.captures, first),
            out.material_swing.white_lost >= 0,
            out.material_swing.black_lost >= 0,
            men(position@) <= 64,
            out@.captures.len() + men(position@) == men(start),
            out.material_swing.white_lost + out.material_swing.black_lost <= 9 * (64 - men(
                position@,
            )),
            pv_walk(start, pv, i as nat) == Ok::<PvWalk, ChessErrorView>(
                PvWalk { fen: position@, pv_san: out@.pv_san, captures: out@.captures },
            ),
        decreases pv_uci.len() - i,
    {
        let text = pv_uci[i].as_str();
        assert(pv[i as int] == text@);
        let ghost walk = PvWalk {
            fen: position@,
            pv_san: out@.pv_san,
            captures: out@.captures,
        };
        assert(pv_walk(start, pv, (i + 1) as nat) == pv_step(walk, (i + 1) as u32, text@));
        let mv = match position.read_move(text) {
            Ok(mv) => mv,
            Err(fault) => {
                let message = match fault {
                    MoveFault::Unreadable(m) => concat3("pv move not parseable: '", text, "' (").concat(
                        m.as_str(),
                    ).concat(")"),
                    MoveFault::Illegal => concat3(
                        "pv move '",
                        text,
                        "' not legal in intermediate position",
                    ),
                };
                proof {
                    lemma_walk_stops(start, pv, (i + 1) as nat, pv.len());
                }
                return Err(ChessError::Internal(message));
            },
        };
        let notation = position.san(&mv);
        let next = match position.play(&mv) {
            Some(next) => next,
            None => {
                return Err(
                    ChessError::Internal(concat3("could not play pv move '", text, "'")),
                );
            },
        };
        let ghost captures_before = out@.captures;
        out.add_move(
            (i + 1) as u32,
            position.turn(),
            mv.role(),
            mv.capture(),
            mv.to(),
            mv.is_en_passant(),
            notation,
        );
        proof {
            if pv.len() <= u32::MAX {
                assert forall|k: int| 0 <= k < out@.captures.len() implies (
                #[trigger] out@.captures[k]).side == color_name(
                    side_at(first, out@.captures[k].ply as int),
                ) by {
                    if k < captures_before.len() {
                        assert(out@.captures[k] == captures_before[k]);
                    }
                }
            }
        }
        position = next;
        i = i + 1;
    }
    proof {
        assert(i == pv.len());
        assert(pv.take(pv.len() as int) == pv);
        if pv.len() <= u32::MAX {
            assert forall|positions: Seq<Seq<char>>, moves: Seq<MoveView>| #[trigger]
                line_of_play(positions, moves, pv) && positions[0] == start implies positions.last()
                == position@ by {
                lemma_walk_of_line(pv, positions, moves, pv.len());
            }
        }
    }
    out.settle(first);
    Ok(out)
}

/// An empty variation is explained by nothing at all.
pub proof fn empty_variation(fen: Seq<char>)
    ensures
        explained(fen, seq![]) == match parsed_position(fen) {
            Ok(_) => Ok(
                PvExplanationView {
                    pv_san: seq![],
                    captures: seq![],
                    material_swing: MaterialSwing { white_lost: 0, black_lost: 0, net_for_stm: 0 },
                },
            ),
            Err(e) => Err(e),
        },
{
}

/// An explanation fails as an invalid FEN exactly when the FEN denotes no position, and
/// otherwise only as an internal error.
pub proof fn explanation_errors(fen: Seq<char>, pv: Seq<Seq<char>>)
    ensures
        explained(fen, pv) matches Err(e) ==> match parsed_position(fen) {
            Err(f) => e == f && e is InvalidFen,
            Ok(_) => e is Internal,
        },
{
    match parsed_position(fen) {
        Ok(start) => lemma_walk_errors(start, pv, pv.len()),
        Err(_) => {},
    }
}

proof fn lemma_walk_errors(start: Seq<char>, pv: Seq<Seq<char>>, n: nat)
    ensures
        pv_walk(start, pv, n) matches Err(e) ==> e is Internal,
    decreases n,
{
    if n > 0 {
        lemma_walk_errors(start, pv, (n - 1) as nat);
    }
}

/// The explanation of a variation has one notation for each move, and its captures come
/// in the order of the moves, each with the number of a move of the variation.
pub proof fn explanation_follows_the_moves(fen: Seq<char>, pv: Seq<Seq<char>>)
    requires
        explained(fen, pv) is Ok,
        pv.len() <= u32::MAX,
    ensures
        explained(fen, pv)->Ok_0.pv_san.len() == pv.len(),
        plies_ascend(explained(fen, pv)->Ok_0.captures, pv.len()),
{
    lemma_walk_plies(parsed_position(fen)->Ok_0, pv, pv.len());
}

/// The captures have ascending move numbers from one to `n`.
pub open spec fn plies_ascend(captures: Seq<CaptureView>, n: nat) -> bool {
    &&& forall|i: int| 0 <= i < captures.len() ==> 1 <= (#[trigger] captures[i]).ply <= n
    &&& forall|i: int, j: int|
        0 <= i < j < captures.len() ==> (#[trigger] captures[i]).ply < (#[trigger] captures[j]).ply
}

proof fn lemma_walk_plies(start: Seq<char>, pv: Seq<Seq<char>>, n: nat)
    requires
        pv_walk(start, pv, n) is Ok,
        n <= u32::MAX,
    ensures
        pv_walk(start, pv, n)->Ok_0.pv_san.len() == n,
        plies_ascend(pv_walk(start, pv, n)->Ok_0.captures, n),
    decreases n,
{
    if n > 0 {
        lemma_walk_plies(start, pv, (n - 1) as nat);
        let before = pv_walk(start, pv, (n - 1) as nat)->Ok_0;
        let after = pv_walk(start, pv, n)->Ok_0;
        assert(pv_step(before, n as u32, pv[n - 1]) == Ok::<PvWalk, ChessErrorView>(after));
    }
}

/// What the beginning of a variation is explained by stands at the beginning of the
/// explanation of the whole.
pub proof fn explanation_of_beginning(fen: Seq<char>, pv: Seq<Seq<char>>, n: nat)
    requires
        n <= pv.len(),
        explained(fen, pv) is Ok,
    ensures
        explained(fen, pv.take(n as int)) is Ok,
        explained(fen, pv.take(n as int))->Ok_0.pv_san.is_prefix_of(explained(fen, pv)->Ok_0.pv_san),
        explained(fen, pv.take(n as int))->Ok_0.captures.is_prefix_of(
            explained(fen, pv)->Ok_0.captures,
        ),
{
    let start = parsed_position(fen)->Ok_0;
    lemma_walk_of_take(start, pv, n, n);
    lemma_walk_grows(start, pv, n, pv.len());
}

proof fn lemma_walk_of_take(start: Seq<char>, pv: Seq<Seq<char>>, n: nat, k: nat)
    requires
        k <= n <= pv.len(),
    ensures
        pv_walk(start, pv.take(n as int), k) == pv_walk(start, pv, k),
    decreases k,
{
    if k > 0 {
        lemma_walk_of_take(start, pv, n, (k - 1) as nat);
    }
}

proof fn lemma_walk_grows(start: Seq<char>, pv: Seq<Seq<char>>, n: nat, m: nat)
    requires
        n <= m,
        pv_walk(start, pv, m) is Ok,
    ensures
        pv_walk(start, pv, n) is Ok,
        pv_walk(start, pv, n)->Ok_0.pv_san.is_prefix_of(pv_walk(start, pv, m)->Ok_0.pv_san),
        pv_walk(start, pv, n)->Ok_0.captures.is_prefix_of(pv_walk(start, pv, m)->Ok_0.captures),
    decreases m,
{
    if n < m {
        lemma_walk_grows(start, pv, n, (m - 1) as nat);
        let before = pv_walk(start, pv, (m - 1) as nat)->Ok_0;
        let after = pv_walk(start, pv, m)->Ok_0;
        assert(pv_step(before, m as u32, pv[m - 1]) == Ok::<PvWalk, ChessErrorView>(after));
        assert(before.pv_san.is_prefix_of(after.pv_san));
        assert(before.captures.is_prefix_of(after.captures));
    }
}

/// What one side wins in a variation the other side loses.
pub proof fn swing_is_zero_sum(captures: Seq<CaptureView>, first: Color)
    requires
        0 <= taken_by(captures, Color::White) <= i32::MAX,
        0 <= taken_by(captures, Color::Black) <= i32::MAX,
    ensures
        swing_of(captures, first).net_for_stm == -swing_of(
            captures,
            opponent(first),
        ).net_for_stm,
        swing_of(captures, Color::White).net_for_stm == swing_of(captures, first).black_lost
            - swing_of(captures, first).white_lost,
{
}

/// A walk that stops with an error stays stopped.
proof fn lemma_walk_stops(start: Seq<char>, pv: Seq<Seq<char>>, n: nat, m: nat)
    requires
        n <= m,
        pv_walk(start, pv, n) is Err,
    ensures
        pv_walk(start, pv, m) == pv_walk(start, pv, n),
    decreases m,
{
    if n < m {
        lemma_walk_stops(start, pv, n, (m - 1) as nat);
    }
}

/// The points that a side has won in the first `n` moves of a line of play: the values of
/// what its moves captured.
pub open spec fn points_won(
    positions: Seq<Seq<char>>,
    moves: Seq<MoveView>,
    side: Color,
    n: nat,
) -> int
    decreases n,
{
    if n == 0 {
        0
    } else {
        points_won(positions, moves, side, (n - 1) as nat) + if side_to_move(positions[n - 1])
            == side && moves[n - 1].capture() is Some {
            value_of(moves[n - 1].capture()->0) as int
        } else {
            0
        }
    }
}

/// Whether an event tells of the capture that the move with number `k`, counted from zero,
/// makes in its position.
pub open spec fn tells_of(event: CaptureView, k: int, position: Seq<char>, mv: MoveView) -> bool {
    &&& mv.capture() is Some
    &&& event.ply == k + 1
    &&& event.side == color_name(side_to_move(position))
    &&& event.piece == letter_of(mv.role())
    &&& event.captured == letter_of(mv.capture()->0)
    &&& event.value == value_of(mv.capture()->0)
    &&& event.square == mv.to()
    &&& event.en_passant == (mv is EnPassant)
}

proof fn lemma_walk_of_line(
    pv: Seq<Seq<char>>,
    positions: Seq<Seq<char>>,
    moves: Seq<MoveView>,
    n: nat,
)
    requires
        line_of_play(positions, moves, pv.take(n as int)),
        n <= pv.len() <= u32::MAX,
    ensures
        pv_walk(positions[0], pv, n) is Ok,
        ({
            let walk = pv_walk(positions[0], pv, n)->Ok_0;
            &&& walk.fen == positions[n as int]
            &&& walk.pv_san.len() == n
            &&& forall|k: int|
                0 <= k < n ==> #[trigger] walk.pv_san[k] == san(positions[k], moves[k])
            &&& plies_ascend(walk.captures, n)
            &&& forall|i: int|
                #![trigger walk.captures[i]]
                0 <= i < walk.captures.len() ==> tells_of(
                    walk.captures[i],
                    walk.captures[i].ply - 1,
                    positions[walk.captures[i].ply - 1],
                    moves[walk.captures[i].ply - 1],
                )
            &&& forall|k: int|
                0 <= k < n && (#[trigger] moves[k]).capture() is Some ==> exists|i: int|
                    0 <= i < walk.captures.len() && (#[trigger] walk.captures[i]).ply == k + 1
            &&& taken_by(walk.captures, Color::White) == points_won(
                positions,
                moves,
                Color::White,
                n,
            )
            &&& taken_by(walk.captures, Color::Black) == points_won(
                positions,
                moves,
                Color::Black,
                n,
            )
        }),
    decreases n,
{
    if n > 0 {
        let m = (n - 1) as nat;
        let shorter_positions = positions.drop_last();
        let shorter_moves = moves.drop_last();
        let shorter = pv.take(m as int);
        assert forall|k: int| 0 <= k < shorter.len() implies #[trigger] leads_on(
            shorter_positions[k],
            shorter[k],
            shorter_moves[k],
            shorter_positions[k + 1],
        ) by {
            assert(leads_on(positions[k], pv.take(n as int)[k], moves[k], positions[k + 1]));
        }
        lemma_walk_of_line(pv, shorter_positions, shorter_moves, m);
        lemma_points_of_prefix(positions, moves, Color::White, m);
        lemma_points_of_prefix(positions, moves, Color::Black, m);
        let before = pv_walk(positions[0], pv, m)->Ok_0;
        let mv = moves[m as int];
        assert(leads_on(positions[m as int], pv.take(n as int)[m as int], mv, positions[n as int]));
        what_a_text_denotes(positions[m as int], pv[m as int], mv);
        assert(pv.take(n as int)[m as int] == pv[m as int]);
        let walk = pv_walk(positions[0], pv, n)->Ok_0;
        assert(pv_step(before, n as u32, pv[m as int]) == Ok::<PvWalk, ChessErrorView>(walk));
        lemma_side_names_differ();
        assert forall|k: int| 0 <= k < n implies #[trigger] walk.pv_san[k] == san(
            positions[k],
            moves[k],
        ) by {
            if k < m {
                assert(before.pv_san[k] == san(shorter_positions[k], shorter_moves[k]));
            }
        }
        assert forall|i: int| #![trigger walk.captures[i]] 0 <= i < walk.captures.len() implies tells_of(
            walk.captures[i],
            walk.captures[i].ply - 1,
            positions[walk.captures[i].ply - 1],
            moves[walk.captures[i].ply - 1],
        ) by {
            if i < before.captures.len() {
                assert(walk.captures[i] == before.captures[i]);
                let p = before.captures[i].ply - 1;
                assert(tells_of(before.captures[i], p, shorter_positions[p], shorter_moves[p]));
            }
        }
        assert forall|k: int| 0 <= k < n && (#[trigger] moves[k]).capture() is Some implies exists|
            i: int,
        |
            0 <= i < walk.captures.len() && (#[trigger] walk.captures[i]).ply == k + 1 by {
            if k < m {
                assert(shorter_moves[k] == moves[k]);
                let i = choose|i: int|
                    0 <= i < before.captures.len() && (#[trigger] before.captures[i]).ply == k + 1;
                assert(walk.captures[i] == before.captures[i]);
            } else {
                assert(walk.captures[before.captures.len() as int].ply == k + 1);
            }
        }
        if mv.capture() is Some {
            assert(walk.captures.drop_last() == before.captures);
        }
    } else {
        assert(plies_ascend(Seq::<CaptureView>::empty(), 0));
    }
}

proof fn lemma_points_of_prefix(
    positions: Seq<Seq<char>>,
    moves: Seq<MoveView>,
    side: Color,
    n: nat,
)
    requires
        n < positions.len(),
        n < moves.len(),
    ensures
        points_won(positions.drop_last(), moves.drop_last(), side, n) == points_won(
            positions,
            moves,
            side,
            n,
        ),
    decreases n,
{
    if n > 0 {
        lemma_points_of_prefix(positions, moves, side, (n - 1) as nat);
    }
}

/// A variation that is a line of play is explained by that line: each move has the notation
/// of its place, each capture of the line has exactly one event, with its number, its side,
/// its pieces, its square and its value, and there are no other events. The events come in
/// the order of the moves.
pub proof fn explanation_of_a_line(
    fen: Seq<char>,
    pv: Seq<Seq<char>>,
    positions: Seq<Seq<char>>,
    moves: Seq<MoveView>,
)
    requires
        parsed_position(fen) == Ok::<Seq<char>, ChessErrorView>(positions[0]),
        line_of_play(positions, moves, pv),
        pv.len() <= u32::MAX,
    ensures
        explained(fen, pv) is Ok,
        ({
            let e = explained(fen, pv)->Ok_0;
            &&& e.pv_san.len() == pv.len()
            &&& forall|k: int|
                0 <= k < pv.len() ==> #[trigger] e.pv_san[k] == san(positions[k], moves[k])
            &&& forall|k: int|
                0 <= k < pv.len() && (#[trigger] moves[k]).capture() is Some ==> exists|i: int|
                    0 <= i < e.captures.len() && tells_of(
                        #[trigger] e.captures[i],
                        k,
                        positions[k],
                        moves[k],
                    )
            &&& forall|i: int|
                #![trigger e.captures[i]]
                0 <= i < e.captures.len() ==> 1 <= e.captures[i].ply <= pv.len() && tells_of(
                    e.captures[i],
                    e.captures[i].ply - 1,
                    positions[e.captures[i].ply - 1],
                    moves[e.captures[i].ply - 1],
                )
            &&& forall|i: int, j: int|
                0 <= i < j < e.captures.len() ==> (#[trigger] e.captures[i]).ply < (
                #[trigger] e.captures[j]).ply
        }),
{
    assert(pv.take(pv.len() as int) == pv);
    lemma_walk_of_line(pv, positions, moves, pv.len());
    let e = explained(fen, pv)->Ok_0;
    assert forall|k: int| 0 <= k < pv.len() && (#[trigger] moves[k]).capture() is Some implies exists|
        i: int,
    |
        0 <= i < e.captures.len() && tells_of(#[trigger] e.captures[i], k, positions[k], moves[k]) by {
        let i = choose|i: int|
            0 <= i < e.captures.len() && (#[trigger] e.captures[i]).ply == k + 1;
        assert(tells_of(
            e.captures[i],
            e.captures[i].ply - 1,
            positions[e.captures[i].ply - 1],
            moves[e.captures[i].ply - 1],
        ));
    }
}

/// What each side lost in a line of play is what the moves of the other side captured, and
/// the balance is that of the side which moved first.
pub proof fn swing_of_a_line(
    fen: Seq<char>,
    pv: Seq<Seq<char>>,
    positions: Seq<Seq<char>>,
    moves: Seq<MoveView>,
)
    requires
        parsed_position(fen) == Ok::<Seq<char>, ChessErrorView>(positions[0]),
        line_of_play(positions, moves, pv),
        pv.len() <= u32::MAX,
    ensures
        ({
            let swing = explained(fen, pv)->Ok_0.material_swing;
            let white = points_won(positions, moves, Color::White, pv.len());
            let black = points_won(positions, moves, Color::Black, pv.len());
            &&& swing.white_lost == black as i32
            &&& swing.black_lost == white as i32
            &&& side_to_move(positions[0]) is White ==> swing.net_for_stm == (white - black) as i32
            &&& side_to_move(positions[0]) is Black ==> swing.net_for_stm == (black - white) as i32
        }),
{
    assert(pv.take(pv.len() as int) == pv);
    lemma_walk_of_line(pv, positions, moves, pv.len());
}

/// A variation that is explained is a line of play: the one that is returned.
pub proof fn explained_variation_is_a_line(fen: Seq<char>, pv: Seq<Seq<char>>) -> (r: (
    Seq<Seq<char>>,
    Seq<MoveView>,
))
    requires
        explained(fen, pv) is Ok,
    ensures
        parsed_position(fen) == Ok::<Seq<char>, ChessErrorView>(r.0[0]),
        line_of_play(r.0, r.1, pv),
{
    let start = parsed_position(fen)->Ok_0;
    let r = lemma_line_of_walk(start, pv, pv.len());
    assert(pv.take(pv.len() as int) == pv);
    r
}

proof fn lemma_line_of_walk(start: Seq<char>, pv: Seq<Seq<char>>, n: nat) -> (r: (
    Seq<Seq<char>>,
    Seq<MoveView>,
))
    requires
        n <= pv.len(),
        pv_walk(start, pv, n) is Ok,
    ensures
        r.0[0] == start,
        line_of_play(r.0, r.1, pv.take(n as int)),
        r.0.last() == pv_walk(start, pv, n)->Ok_0.fen,
    decreases n,
{
    if n == 0 {
        (seq![start], seq![])
    } else {
        let m = (n - 1) as nat;
        let (positions, moves) = lemma_line_of_walk(start, pv, m);
        let before = pv_walk(start, pv, m)->Ok_0;
        let after = pv_walk(start, pv, n)->Ok_0;
        assert(pv_step(before, n as u32, pv[m as int]) == Ok::<PvWalk, ChessErrorView>(after));
        let mv = move_meant(before.fen, pv[m as int])->Ok_0;
        what_a_text_denotes(before.fen, pv[m as int], mv);
        let all_positions = positions.push(after.fen);
        let all_moves = moves.push(mv);
        let all = pv.take(n as int);
        assert forall|k: int| 0 <= k < all.len() implies #[trigger] leads_on(
            all_positions[k],
            all[k],
            all_moves[k],
            all_positions[k + 1],
        ) by {
            if k < m {
                assert(leads_on(positions[k], pv.take(m as int)[k], moves[k], positions[k + 1]));
            }
        }
        (all_positions, all_moves)
    }
}

/// The explanation stops at the first move that is none: the error names the move and says
/// whether it is no notation or not legal where it would be played.
pub proof fn explanation_stops_at_the_first_bad_move(
    fen: Seq<char>,
    pv: Seq<Seq<char>>,
    positions: Seq<Seq<char>>,
    moves: Seq<MoveView>,
    n: nat,
)
    requires
        n < pv.len() <= u32::MAX,
        parsed_position(fen) == Ok::<Seq<char>, ChessErrorView>(positions[0]),
        line_of_play(positions, moves, pv.take(n as int)),
        read_uci(pv[n as int]) matches Some(uci) ==> resolved(positions[n as int], uci) is None,
    ensures
        explained(fen, pv) == Err::<PvExplanationView, ChessErrorView>(
            ChessErrorView::Internal {
                message: if read_uci(pv[n as int]) is None {
                    "pv move not parseable: '"@ + pv[n as int] + "' ("@ + "invalid uci"@ + ")"@
                } else {
                    "pv move '"@ + pv[n as int] + "' not legal in intermediate position"@
                },
            },
        ),
{
    lemma_walk_of_line(pv, positions, moves, n);
    let walk = pv_walk(positions[0], pv, n)->Ok_0;
    assert(pv_walk(positions[0], pv, n + 1) == pv_step(walk, (n + 1) as u32, pv[n as int]));
    assert(move_meant(walk.fen, pv[n as int]) is Err) by {
        if move_meant(walk.fen, pv[n as int]) is Ok {
            what_a_text_denotes(walk.fen, pv[n as int], move_meant(walk.fen, pv[n as int])->Ok_0);
        }
    }
    what_a_text_denotes(walk.fen, pv[n as int], arbitrary());
    lemma_walk_stops(positions[0], pv, n + 1, pv.len());
}

/// A FEN that denotes no position is all that an explanation reports.
pub proof fn explanation_of_no_position(fen: Seq<char>, pv: Seq<Seq<char>>)
    ensures
        parsed_position(fen) matches Err(e) ==> explained(fen, pv) == Err::<
            PvExplanationView,
            ChessErrorView,
        >(e),
{
}

/// The values and the letters of the pieces.
pub proof fn values_and_letters()
    ensures
        value_of(Role::Pawn) == 1 && letter_of(Role::Pawn) == "P"@,
        value_of(Role::Knight) == 3 && letter_of(Role::Knight) == "N"@,
        value_of(Role::Bishop) == 3 && letter_of(Role::Bishop) == "B"@,
        value_of(Role::Rook) == 5 && letter_of(Role::Rook) == "R"@,
        value_of(Role::Queen) == 9 && letter_of(Role::Queen) == "Q"@,
        value_of(Role::King) == 0 && letter_of(Role::King) == "K"@,
{
}

} // verus!
