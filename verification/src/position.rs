//! Positions and moves of standard chess, with the rules taken from `shakmaty`.
//!
//! A position is known by its FEN, a move by the pieces and squares it names. The
//! rules themselves (which setups are positions, which moves are legal, what a move
//! leads to) are `shakmaty`'s; the functions below that call it say what is relied on.

use vstd::prelude::*;
use shakmaty::Position as _;
use crate::error::{ChessError, ChessErrorView};
use crate::text::{
    decimal, digits_value, in_order, join, order_repeats_nothing, read_of_decimal, sorted_texts,
    strictly_ascending, texts, trimmed, words,
};

verus! {

/// `shakmaty::fen::Fen`, known by its text.
#[verifier::external_type_specification]
#[verifier::external_body]
pub struct ExFen(shakmaty::fen::Fen);

/// `shakmaty::Chess`, known by its FEN.
#[verifier::external_type_specification]
#[verifier::external_body]
pub struct ExChess(shakmaty::Chess);

/// `shakmaty::uci::UciMove`, known by the squares and pieces it names.
#[verifier::external_type_specification]
#[verifier::external_body]
pub struct ExUciMove(shakmaty::uci::UciMove);

/// `shakmaty::Move`, known by the squares and pieces it names.
#[verifier::external_type_specification]
#[verifier::external_body]
pub struct ExMove(shakmaty::Move);

/// A kind of piece.
#[derive(Debug, Clone, Copy, PartialEq, Eq, Structural)]
pub enum Role {
    Pawn,
    Knight,
    Bishop,
    Rook,
    Queen,
    King,
}

/// A side of the game.
#[derive(Debug, Clone, Copy, PartialEq, Eq, Structural)]
pub enum Color {
    White,
    Black,
}

/// A move in UCI notation, with squares as texts like `e4`.
pub enum UciView {
    Normal { from: Seq<char>, to: Seq<char>, promotion: Option<Role> },
    Put { role: Role, to: Seq<char> },
    Null,
}

/// A move with the pieces that it moves and captures.
pub enum MoveView {
    Normal {
        role: Role,
        from: Seq<char>,
        capture: Option<Role>,
        to: Seq<char>,
        promotion: Option<Role>,
    },
    EnPassant { from: Seq<char>, to: Seq<char> },
    Castle { king: Seq<char>, rook: Seq<char> },
    Put { role: Role, to: Seq<char> },
}

/// Whether a text names a square: a file from `a` to `h` and a rank from `1` to `8`.
pub open spec fn is_square(s: Seq<char>) -> bool {
    s.len() == 2 && 'a' <= s[0] <= 'h' && '1' <= s[1] <= '8'
}

/// The lower-case letter of a piece.
pub open spec fn role_letter(role: Role) -> char {
    match role {
        Role::Pawn => 'p',
        Role::Knight => 'n',
        Role::Bishop => 'b',
        Role::Rook => 'r',
        Role::Queen => 'q',
        Role::King => 'k',
    }
}

/// The upper-case letter of a piece.
pub open spec fn role_capital(role: Role) -> char {
    match role {
        Role::Pawn => 'P',
        Role::Knight => 'N',
        Role::Bishop => 'B',
        Role::Rook => 'R',
        Role::Queen => 'Q',
        Role::King => 'K',
    }
}

/// The piece that a letter of either case stands for.
pub open spec fn letter_role(c: char) -> Option<Role> {
    if c == 'P' || c == 'p' {
        Some(Role::Pawn)
    } else if c == 'N' || c == 'n' {
        Some(Role::Knight)
    } else if c == 'B' || c == 'b' {
        Some(Role::Bishop)
    } else if c == 'R' || c == 'r' {
        Some(Role::Rook)
    } else if c == 'Q' || c == 'q' {
        Some(Role::Queen)
    } else if c == 'K' || c == 'k' {
        Some(Role::King)
    } else {
        None
    }
}

/// The move that a text in UCI notation denotes: `e2e4`, `e7e8q`, `Q@f7` or `0000`. One
/// more ASCII character behind a drop is passed over.
pub open spec fn read_uci(s: Seq<char>) -> Option<UciView> {
    if s == seq!['0', '0', '0', '0'] {
        Some(UciView::Null)
    } else if !(s.len() == 4 || s.len() == 5 && s[4] <= '\x7F') || !is_square(s.subrange(2, 4)) {
        None
    } else if s[1] == '@' {
        match letter_role(s[0]) {
            Some(role) => Some(UciView::Put { role, to: s.subrange(2, 4) }),
            None => None,
        }
    } else if !is_square(s.subrange(0, 2)) {
        None
    } else if s.len() == 4 {
        Some(
            UciView::Normal { from: s.subrange(0, 2), to: s.subrange(2, 4), promotion: None },
        )
    } else {
        match letter_role(s[4]) {
            Some(role) => Some(
                UciView::Normal {
                    from: s.subrange(0, 2),
                    to: s.subrange(2, 4),
                    promotion: Some(role),
                },
            ),
            None => None,
        }
    }
}

impl UciView {
    /// The notation of the move.
    pub open spec fn text(self) -> Seq<char> {
        match self {
            UciView::Normal { from, to, promotion } => match promotion {
                Some(role) => from + to + seq![role_letter(role)],
                None => from + to,
            },
            UciView::Put { role, to } => seq![role_capital(role), '@'] + to,
            UciView::Null => seq!['0', '0', '0', '0'],
        }
    }

    /// The squares of the move are squares.
    pub open spec fn well_formed(self) -> bool {
        match self {
            UciView::Normal { from, to, .. } => is_square(from) && is_square(to),
            UciView::Put { to, .. } => is_square(to),
            UciView::Null => true,
        }
    }
}

impl MoveView {
    /// The piece that moves.
    pub open spec fn role(self) -> Role {
        match self {
            MoveView::Normal { role, .. } => role,
            MoveView::EnPassant { .. } => Role::Pawn,
            MoveView::Castle { .. } => Role::King,
            MoveView::Put { role, .. } => role,
        }
    }

    /// The piece that is captured.
    pub open spec fn capture(self) -> Option<Role> {
        match self {
            MoveView::Normal { capture, .. } => capture,
            MoveView::EnPassant { .. } => Some(Role::Pawn),
            MoveView::Castle { .. } => None,
            MoveView::Put { .. } => None,
        }
    }

    /// The target square; for castling the square of the rook.
    pub open spec fn to(self) -> Seq<char> {
        match self {
            MoveView::Normal { to, .. } => to,
            MoveView::EnPassant { to, .. } => to,
            MoveView::Castle { rook, .. } => rook,
            MoveView::Put { to, .. } => to,
        }
    }

    pub open spec fn en_passant(self) -> bool {
        self is EnPassant
    }

    /// The squares of the move are squares.
    pub open spec fn well_formed(self) -> bool {
        match self {
            MoveView::Normal { from, to, .. } => is_square(from) && is_square(to),
            MoveView::EnPassant { from, to } => is_square(from) && is_square(to),
            MoveView::Castle { king, rook } => is_square(king) && is_square(rook),
            MoveView::Put { to, .. } => is_square(to),
        }
    }

    /// The move in UCI notation, castling written as the king's move to its new square.
    pub open spec fn uci(self) -> UciView {
        match self {
            MoveView::Normal { from, to, promotion, .. } => UciView::Normal {
                from,
                to,
                promotion,
            },
            MoveView::EnPassant { from, to } => UciView::Normal { from, to, promotion: None },
            MoveView::Castle { king, rook } => {
                let king_side = king[1] < rook[1] || king[1] == rook[1] && king[0] < rook[0];
                UciView::Normal {
                    from: king,
                    to: seq![
                        if king_side {
                            'g'
                        } else {
                            'c'
                        },
                        king[1],
                    ],
                    promotion: None,
                }
            },
            MoveView::Put { role, to } => UciView::Put { role, to },
        }
    }
}

/// A letter of the English alphabet.
pub open spec fn is_letter(c: char) -> bool {
    'a' <= c <= 'z' || 'A' <= c <= 'Z'
}

/// The number of pieces on the board that a FEN describes.
pub open spec fn men(fen: Seq<char>) -> nat {
    words(fen)[0].filter(|c: char| is_letter(c)).len()
}

/// The side to move in a FEN.
pub open spec fn side_to_move(fen: Seq<char>) -> Color {
    if words(fen)[1] == seq!['w'] {
        Color::White
    } else {
        Color::Black
    }
}

/// The other side.
pub open spec fn opponent(side: Color) -> Color {
    match side {
        Color::White => Color::Black,
        Color::Black => Color::White,
    }
}

/// What a `shakmaty::fen::Fen` holds: the FEN that it displays.
pub uninterp spec fn fen_text(fen: shakmaty::fen::Fen) -> Seq<char>;

/// What a `shakmaty::Chess` holds: the FEN of the position, with an en-passant square
/// only where a capture there is legal.
pub uninterp spec fn position_fen(chess: shakmaty::Chess) -> Seq<char>;

/// What a `shakmaty::uci::UciMove` holds.
pub uninterp spec fn uci_view(uci: shakmaty::uci::UciMove) -> UciView;

/// What a `shakmaty::Move` holds.
pub uninterp spec fn move_view(mv: shakmaty::Move) -> MoveView;

/// `Fen::from_ascii` on a text: the FEN that was read, or the message of its error.
pub uninterp spec fn read_fen(text: Seq<char>) -> Result<Seq<char>, Seq<char>>;

/// `Fen::into_position` in standard castling mode: the FEN of the position, or the debug
/// text of its error.
pub uninterp spec fn set_up(fen: Seq<char>) -> Result<Seq<char>, Seq<char>>;

/// `UciMove::to_move` in the position with this FEN: the legal move that is meant, if any.
pub uninterp spec fn resolved(fen: Seq<char>, uci: UciView) -> Option<MoveView>;

/// `Position::play` in the position with this FEN: the FEN after the move, if it is legal.
pub uninterp spec fn played(fen: Seq<char>, mv: MoveView) -> Option<Seq<char>>;

/// `SanPlus::from_move` in the position with this FEN.
pub uninterp spec fn san(fen: Seq<char>, mv: MoveView) -> Seq<char>;

/// `Position::legal_moves` of the position with this FEN, in the order of its list.
pub uninterp spec fn legal(fen: Seq<char>) -> Seq<MoveView>;

/// `Position::is_check` of the position with this FEN.
pub uninterp spec fn in_check(fen: Seq<char>) -> bool;

/// A position of standard chess. Its field is set only from a FEN read in standard
/// castling mode and from legal moves.
#[derive(Debug)]
pub struct Position {
    chess: shakmaty::Chess,
}

impl View for Position {
    type V = Seq<char>;

    closed spec fn view(&self) -> Seq<char> {
        position_fen(self.chess)
    }
}

/// The clone of a `Chess`, the same position.
#[verifier::external_body]
fn chess_copy(position: &Position) -> (r: Position)
    ensures
        r@ == position@,
{
    Position { chess: position.chess.clone() }
}

impl Clone for Position {
    fn clone(&self) -> (r: Position)
        ensures
            r@ == self@,
    {
        chess_copy(self)
    }
}

/// `Fen::from_ascii` and, on failure, the text of the error.
#[verifier::external_body]
fn fen_from_ascii(text: &str) -> (r: Result<shakmaty::fen::Fen, String>)
    ensures
        match r {
            Ok(fen) => read_fen(text@) == Ok::<Seq<char>, Seq<char>>(fen_text(fen)),
            Err(message) => read_fen(text@) == Err::<Seq<char>, Seq<char>>(message@),
        },
{
    match shakmaty::fen::Fen::from_ascii(text.as_bytes()) {
        Ok(fen) => Ok(fen),
        Err(e) => Err(e.to_string()),
    }
}

/// `Fen::into_position` in standard castling mode and, on failure, the debug text of the
/// error. A board holds at most 64 pieces.
#[verifier::external_body]
fn fen_into_position(fen: shakmaty::fen::Fen) -> (r: Result<Position, String>)
    ensures
        match r {
            Ok(position) => set_up(fen_text(fen)) == Ok::<Seq<char>, Seq<char>>(position@) && men(
                position@,
            ) <= 64,
            Err(message) => set_up(fen_text(fen)) == Err::<Seq<char>, Seq<char>>(message@),
        },
{
    match fen.into_position(shakmaty::CastlingMode::Standard) {
        Ok(chess) => Ok(Position { chess }),
        Err(e) => Err(format!("{:?}", e)),
    }
}

/// `Fen::from_position` and its text. The text has six fields, separated by single
/// spaces and with none around them, the side to move second. Reading it again yields the
/// same position: what `Fen::into_position` checks holds of every position that was set up,
/// and legal moves keep it.
#[verifier::external_body]
fn fen_from_position(position: &Position) -> (r: String)
    ensures
        r@ == position_fen(position.chess),
        words(r@).len() == 6,
        r@ == join(words(r@), seq![' ']),
        words(r@)[1] == seq!['w'] || words(r@)[1] == seq!['b'],
        trimmed(r@) == r@,
        read_fen(r@) == Ok::<Seq<char>, Seq<char>>(r@),
        set_up(r@) == Ok::<Seq<char>, Seq<char>>(r@),
{
    shakmaty::fen::Fen::from_position(
        position.chess.clone(),
        shakmaty::EnPassantMode::Legal,
    ).to_string()
}

/// `Position::turn`: the second field of the FEN.
#[verifier::external_body]
fn chess_turn(position: &Position) -> (r: Color)
    ensures
        r == side_to_move(position@),
{
    match position.chess.turn() {
        shakmaty::Color::White => Color::White,
        shakmaty::Color::Black => Color::Black,
    }
}

/// `Position::fullmoves`: the sixth field of the FEN, a number from one on.
#[verifier::external_body]
fn chess_fullmoves(position: &Position) -> (r: u32)
    ensures
        words(position@)[5] == decimal(r as nat),
        r >= 1,
{
    position.chess.fullmoves().get()
}

/// The display of `Position::board`: the first field of the FEN.
#[verifier::external_body]
fn chess_board_text(position: &Position) -> (r: String)
    ensures
        r@ == words(position@)[0],
{
    position.chess.board().to_string()
}

/// `Position::is_check`.
#[verifier::external_body]
fn chess_is_check(position: &Position) -> (r: bool)
    ensures
        r == in_check(position@),
{
    position.chess.is_check()
}

/// `Position::is_checkmate`: in check without a legal move.
#[verifier::external_body]
fn chess_is_checkmate(position: &Position) -> (r: bool)
    ensures
        r == (in_check(position@) && legal(position@).len() == 0),
{
    position.chess.is_checkmate()
}

/// `Position::is_stalemate`: not in check and without a legal move.
#[verifier::external_body]
fn chess_is_stalemate(position: &Position) -> (r: bool)
    ensures
        r == (!in_check(position@) && legal(position@).len() == 0),
{
    position.chess.is_stalemate()
}

/// `Position::legal_moves`. Each of them can be played and is what its own UCI notation
/// stands for. None is listed twice, and a move that `UciMove::to_move` gives is listed.
#[verifier::external_body]
fn chess_legal_moves(position: &Position) -> (r: Vec<shakmaty::Move>)
    ensures
        r@.map_values(|m: shakmaty::Move| move_view(m)) == legal(position@),
        forall|i: int|
            0 <= i < r@.len() ==> resolved(position@, move_view(#[trigger] r@[i]).uci()) == Some(
                move_view(r@[i]),
            ) && played(position@, move_view(r@[i])) is Some,
        forall|i: int, j: int|
            0 <= i < j < r@.len() ==> move_view(#[trigger] r@[i]) != move_view(#[trigger] r@[j]),
        forall|uci: UciView|
            uci.well_formed() && #[trigger] resolved(position@, uci) is Some ==> r@.map_values(
                |m: shakmaty::Move| move_view(m),
            ).contains(resolved(position@, uci)->0),
{
    position.chess.legal_moves().to_vec()
}

/// `UciMove::from_ascii`, whose error reads `invalid uci`.
#[verifier::external_body]
fn uci_from_ascii(text: &str) -> (r: Result<shakmaty::uci::UciMove, String>)
    ensures
        match r {
            Ok(uci) => read_uci(text@) == Some(uci_view(uci)),
            Err(message) => read_uci(text@) is None && message@ == "invalid uci"@,
        },
{
    match shakmaty::uci::UciMove::from_ascii(text.as_bytes()) {
        Ok(uci) => Ok(uci),
        Err(e) => Err(e.to_string()),
    }
}

/// `UciMove::to_move`. A move that it gives can be played, is among the legal moves and
/// is what its own UCI notation stands for.
#[verifier::external_body]
fn uci_to_move(uci: &shakmaty::uci::UciMove, position: &Position) -> (r: Option<shakmaty::Move>)
    ensures
        match r {
            Some(mv) => {
                &&& resolved(position@, uci_view(*uci)) == Some(move_view(mv))
                &&& move_view(mv).well_formed()
                &&& played(position@, move_view(mv)) is Some
                &&& legal(position@).contains(move_view(mv))
                &&& resolved(position@, move_view(mv).uci()) == Some(move_view(mv))
            },
            None => resolved(position@, uci_view(*uci)) is None,
        },
{
    uci.to_move(&position.chess).ok()
}

/// `UciMove::from_standard`.
#[verifier::external_body]
fn uci_from_standard(mv: &shakmaty::Move) -> (r: shakmaty::uci::UciMove)
    ensures
        uci_view(r) == move_view(*mv).uci(),
        uci_view(r).well_formed(),
{
    shakmaty::uci::UciMove::from_standard(mv)
}

/// The display of a `UciMove`.
#[verifier::external_body]
fn uci_to_text(uci: &shakmaty::uci::UciMove) -> (r: String)
    ensures
        r@ == uci_view(*uci).text(),
{
    uci.to_string()
}

/// `Position::play` on a copy. After a move the other side is to move, and the board has
/// one piece fewer exactly after a capture.
#[verifier::external_body]
fn chess_play(position: &Position, mv: &shakmaty::Move) -> (r: Option<Position>)
    ensures
        match r {
            Some(next) => {
                &&& played(position@, move_view(*mv)) == Some(next@)
                &&& side_to_move(next@) == opponent(side_to_move(position@))
                &&& men(next@) + (if move_view(*mv).capture() is Some {
                    1nat
                } else {
                    0nat
                }) == men(position@)
            },
            None => played(position@, move_view(*mv)) is None,
        },
{
    match position.chess.clone().play(mv) {
        Ok(chess) => Some(Position { chess }),
        Err(_) => None,
    }
}

/// `SanPlus::from_move` and its text.
#[verifier::external_body]
fn san_from_move(position: &Position, mv: &shakmaty::Move) -> (r: String)
    ensures
        r@ == san(position@, move_view(*mv)),
{
    shakmaty::san::SanPlus::from_move(position.chess.clone(), mv).to_string()
}

/// `Move::role`.
#[verifier::external_body]
fn move_role(mv: &shakmaty::Move) -> (r: Role)
    ensures
        r == move_view(*mv).role(),
{
    match mv.role() {
        shakmaty::Role::Pawn => Role::Pawn,
        shakmaty::Role::Knight => Role::Knight,
        shakmaty::Role::Bishop => Role::Bishop,
        shakmaty::Role::Rook => Role::Rook,
        shakmaty::Role::Queen => Role::Queen,
        shakmaty::Role::King => Role::King,
    }
}

/// `Move::capture`.
#[verifier::external_body]
fn move_capture(mv: &shakmaty::Move) -> (r: Option<Role>)
    ensures
        r == move_view(*mv).capture(),
{
    match mv.capture() {
        Some(shakmaty::Role::Pawn) => Some(Role::Pawn),
        Some(shakmaty::Role::Knight) => Some(Role::Knight),
        Some(shakmaty::Role::Bishop) => Some(Role::Bishop),
        Some(shakmaty::Role::Rook) => Some(Role::Rook),
        Some(shakmaty::Role::Queen) => Some(Role::Queen),
        Some(shakmaty::Role::King) => Some(Role::King),
        None => None,
    }
}

/// `Move::to` and the text of the square.
#[verifier::external_body]
fn move_to(mv: &shakmaty::Move) -> (r: String)
    ensures
        r@ == move_view(*mv).to(),
{
    mv.to().to_string()
}

/// `Move::is_en_passant`.
#[verifier::external_body]
fn move_is_en_passant(mv: &shakmaty::Move) -> (r: bool)
    ensures
        r == move_view(*mv).en_passant(),
{
    mv.is_en_passant()
}

/// The position that a FEN denotes, or the error that reports why it denotes none.
pub open spec fn parsed_position(text: Seq<char>) -> Result<Seq<char>, ChessErrorView> {
    match read_fen(text) {
        Ok(fen) => match set_up(fen) {
            Ok(position) => Ok(position),
            Err(message) => Err(ChessErrorView::InvalidFen { message, fen: text }),
        },
        Err(message) => Err(ChessErrorView::InvalidFen { message, fen: text }),
    }
}

/// Why a text denotes no legal move of a position.
#[derive(Debug)]
pub enum MoveFault {
    /// The text is not in UCI notation; the reader's message.
    Unreadable(String),
    /// The move is not legal in the position.
    Illegal,
}

/// The contents of a `MoveFault`.
pub enum MoveFaultView {
    Unreadable(Seq<char>),
    Illegal,
}

impl View for MoveFault {
    type V = MoveFaultView;

    open spec fn view(&self) -> MoveFaultView {
        match *self {
            MoveFault::Unreadable(message) => MoveFaultView::Unreadable(message@),
            MoveFault::Illegal => MoveFaultView::Illegal,
        }
    }
}

/// The legal move that a text denotes in the position with this FEN.
pub open spec fn move_meant(fen: Seq<char>, text: Seq<char>) -> Result<MoveView, MoveFaultView> {
    match read_uci(text) {
        None => Err(MoveFaultView::Unreadable("invalid uci"@)),
        Some(uci) => match resolved(fen, uci) {
            Some(mv) => Ok(mv),
            None => Err(MoveFaultView::Illegal),
        },
    }
}

/// The UCI notations of the legal moves of the position with this FEN.
pub open spec fn legal_notations(fen: Seq<char>) -> Seq<Seq<char>> {
    legal(fen).map_values(|m: MoveView| m.uci().text())
}

/// The UCI notations of the legal moves of the position with this FEN, in ascending order.
pub open spec fn listed_moves(fen: Seq<char>) -> Seq<Seq<char>> {
    in_order(legal_notations(fen))
}

/// The number of the move in a FEN.
pub open spec fn move_number(fen: Seq<char>) -> u32 {
    digits_value(words(fen)[5]) as u32
}

/// Whether the game goes on in the position with this FEN, and how the king stands.
pub open spec fn game_state(fen: Seq<char>) -> Seq<char> {
    if legal(fen).len() == 0 {
        if in_check(fen) {
            "checkmate"@
        } else {
            "stalemate"@
        }
    } else if in_check(fen) {
        "check"@
    } else {
        "normal"@
    }
}

/// The name of a side.
pub open spec fn color_name(side: Color) -> Seq<char> {
    match side {
        Color::White => "white"@,
        Color::Black => "black"@,
    }
}

/// Reading the notation of a move gives the move back.
pub proof fn read_of_uci_text(uci: UciView)
    requires
        uci.well_formed(),
    ensures
        read_uci(uci.text()) == Some(uci),
{
    let s = uci.text();
    match uci {
        UciView::Normal { from, to, promotion } => {
            assert(s.subrange(0, 2) == from);
            assert(s.subrange(2, 4) == to);
            assert(s[0] == from[0] && s[1] == from[1]);
        },
        UciView::Put { role, to } => {
            assert(s.subrange(2, 4) == to);
            assert(s[0] == role_capital(role) && s[1] == '@');
        },
        UciView::Null => {},
    }
}

/// A legal move of some position.
#[derive(Debug)]
pub struct LegalMove {
    inner: shakmaty::Move,
}

impl View for LegalMove {
    type V = MoveView;

    closed spec fn view(&self) -> MoveView {
        move_view(self.inner)
    }
}

impl LegalMove {
    /// The piece that moves.
    pub fn role(&self) -> (r: Role)
        ensures
            r == self@.role(),
    {
        move_role(&self.inner)
    }

    /// The piece that is captured.
    pub fn capture(&self) -> (r: Option<Role>)
        ensures
            r == self@.capture(),
    {
        move_capture(&self.inner)
    }

    /// The target square.
    pub fn to(&self) -> (r: String)
        ensures
            r@ == self@.to(),
    {
        move_to(&self.inner)
    }

    pub fn is_en_passant(&self) -> (r: bool)
        ensures
            r == self@.en_passant(),
    {
        move_is_en_passant(&self.inner)
    }

    /// The move in UCI notation. Reading it gives the same notation back.
    pub fn uci(&self) -> (r: String)
        ensures
            r@ == self@.uci().text(),
            read_uci(r@) == Some(self@.uci()),
    {
        let uci = uci_from_standard(&self.inner);
        proof {
            read_of_uci_text(uci_view(uci));
        }
        uci_to_text(&uci)
    }
}

/// The name of a side.
pub fn color_str(side: Color) -> (r: &'static str)
    ensures
        r@ == color_name(side),
{
    match side {
        Color::White => "white",
        Color::Black => "black",
    }
}

impl Position {
    /// Reads a FEN in standard castling mode.
    pub fn parse(text: &str) -> (r: Result<Position, ChessError>)
        ensures
            match r {
                Ok(position) => parsed_position(text@) == Ok::<Seq<char>, ChessErrorView>(
                    position@,
                ) && men(position@) <= 64,
                Err(e) => parsed_position(text@) == Err::<Seq<char>, ChessErrorView>(e@),
            },
    {
        match fen_from_ascii(text) {
            Ok(fen) => match fen_into_position(fen) {
                Ok(position) => Ok(position),
                Err(message) => Err(ChessError::InvalidFen { message, fen: text.to_owned() }),
            },
            Err(message) => Err(ChessError::InvalidFen { message, fen: text.to_owned() }),
        }
    }

    /// The FEN of the position. It has six fields, and reading it gives this position.
    pub fn fen(&self) -> (r: String)
        ensures
            r@ == self@,
            words(r@).len() == 6,
            r@ == join(words(r@), seq![' ']),
            words(r@)[1] == seq!['w'] || words(r@)[1] == seq!['b'],
            trimmed(r@) == r@,
            parsed_position(r@) == Ok::<Seq<char>, ChessErrorView>(r@),
    {
        fen_from_position(self)
    }

    /// The side to move.
    pub fn turn(&self) -> (r: Color)
        ensures
            r == side_to_move(self@),
    {
        chess_turn(self)
    }

    /// The number of the move, counted from one and up after each move of Black.
    pub fn fullmoves(&self) -> (r: u32)
        ensures
            r == move_number(self@),
            words(self@)[5] == decimal(r as nat),
            r >= 1,
    {
        let number = chess_fullmoves(self);
        proof {
            read_of_decimal(number as nat);
        }
        number
    }

    /// The placement of the pieces.
    pub fn board_text(&self) -> (r: String)
        ensures
            r@ == words(self@)[0],
    {
        chess_board_text(self)
    }

    /// `checkmate`, `stalemate`, `check` or `normal`.
    pub fn state(&self) -> (r: &'static str)
        ensures
            r@ == game_state(self@),
    {
        if chess_is_checkmate(self) {
            "checkmate"
        } else if chess_is_stalemate(self) {
            "stalemate"
        } else if chess_is_check(self) {
            "check"
        } else {
            "normal"
        }
    }

    /// The legal moves in UCI notation, in ascending order and none twice. They are the texts
    /// that denote a move under its own notation. Each of them, read in this
    /// position, denotes a legal move with that notation, which can be played.
    pub fn legal_moves_uci(&self) -> (r: Vec<String>)
        ensures
            texts(r@) == listed_moves(self@),
            strictly_ascending(texts(r@)),
            texts(r@).to_multiset() == legal_notations(self@).to_multiset(),
            r@.len() == legal(self@).len(),
            forall|i: int|
                0 <= i < r@.len() ==> #[trigger] denotes_itself(self@, texts(r@)[i]),
            forall|text: Seq<char>|
                texts(r@).contains(text) <==> #[trigger] denotes_itself(self@, text),
    {
        let moves = chess_legal_moves(self);
        let ghost views = moves@.map_values(|m: shakmaty::Move| move_view(m));
        let mut out: Vec<String> = Vec::new();
        let mut i: usize = 0;
        while i < moves.len()
            invariant
                i <= moves@.len(),
                views == moves@.map_values(|m: shakmaty::Move| move_view(m)),
                views == legal(self@),
                forall|k: int|
                    0 <= k < moves@.len() ==> resolved(
                        self@,
                        move_view(#[trigger] moves@[k]).uci(),
                    ) == Some(move_view(moves@[k])) && played(self@, move_view(moves@[k])) is Some,
                texts(out@) == legal_notations(self@).take(i as int),
                forall|k: int| 0 <= k < i ==> #[trigger] denotes_itself(self@, texts(out@)[k]),
                forall|k: int| 0 <= k < i ==> (#[trigger] views[k]).uci().well_formed(),
            decreases moves.len() - i,
        {
            let uci = uci_from_standard(&moves[i]);
            let text = uci_to_text(&uci);
            let ghost before = texts(out@);
            proof {
                read_of_uci_text(uci_view(uci));
                assert(views[i as int] == move_view(moves@[i as int]));
                assert(legal_notations(self@)[i as int] == text@);
                assert(denotes_itself(self@, text@));
            }
            out.push(text);
            proof {
                assert(texts(out@) == before.push(text@));
                assert(legal_notations(self@).take(i + 1) == legal_notations(self@).take(
                    i as int,
                ).push(text@));
            }
            i = i + 1;
        }
        let ghost unsorted = texts(out@);
        assert(unsorted == legal_notations(self@));
        let sorted = sorted_texts(out);
        proof {
            assert forall|a: int, b: int| 0 <= a < b < unsorted.len() implies #[trigger] unsorted[a]
                != #[trigger] unsorted[b] by {
                assert(views[a] == move_view(moves@[a]) && views[b] == move_view(moves@[b]));
                read_of_uci_text(views[a].uci());
                read_of_uci_text(views[b].uci());
            }
            order_repeats_nothing(unsorted);
            assert forall|k: int| 0 <= k < sorted@.len() implies #[trigger] denotes_itself(
                self@,
                texts(sorted@)[k],
            ) by {
                broadcast use vstd::seq_lib::group_to_multiset_ensures;

                let t = texts(sorted@)[k];
                assert(texts(sorted@).contains(t));
                assert(texts(sorted@).to_multiset().count(t) > 0);
                assert(unsorted.contains(t));
                let j = choose|j: int| 0 <= j < unsorted.len() && unsorted[j] == t;
                assert(denotes_itself(self@, unsorted[j]));
            }
            assert forall|text: Seq<char>| #[trigger] denotes_itself(self@, text) implies texts(
                sorted@,
            ).contains(text) by {
                broadcast use vstd::seq_lib::group_to_multiset_ensures;

                let uci = read_uci(text)->0;
                lemma_read_uci_is_well_formed(text);
                let mv = resolved(self@, uci)->0;
                let j = choose|j: int| 0 <= j < views.len() && views[j] == mv;
                assert(unsorted[j] == text);
                assert(unsorted.to_multiset().count(text) > 0);
            }
            assert forall|text: Seq<char>| texts(sorted@).contains(text) implies
                #[trigger] denotes_itself(self@, text) by {
                let k = choose|k: int| 0 <= k < sorted@.len() && texts(sorted@)[k] == text;
                assert(denotes_itself(self@, texts(sorted@)[k]));
            }
        }
        sorted
    }

    /// The number of legal moves.
    pub fn legal_move_count(&self) -> (r: usize)
        ensures
            r == legal(self@).len(),
    {
        let moves = chess_legal_moves(self);
        assert(moves@.len() == moves@.map_values(|m: shakmaty::Move| move_view(m)).len());
        moves.len()
    }

    /// The legal move that a text in UCI notation denotes. The move can be played, its
    /// notation is among those of the legal moves, and that notation denotes it again.
    pub fn read_move(&self, text: &str) -> (r: Result<LegalMove, MoveFault>)
        ensures
            match r {
                Ok(mv) => {
                    &&& move_meant(self@, text@) == Ok::<MoveView, MoveFaultView>(mv@)
                    &&& played(self@, mv@) is Some
                    &&& legal_notations(self@).contains(mv@.uci().text())
                    &&& move_meant(self@, mv@.uci().text()) == Ok::<MoveView, MoveFaultView>(mv@)
                },
                Err(fault) => move_meant(self@, text@) == Err::<MoveView, MoveFaultView>(fault@),
            },
    {
        match uci_from_ascii(text) {
            Err(message) => Err(MoveFault::Unreadable(message)),
            Ok(uci) => match uci_to_move(&uci, self) {
                None => Err(MoveFault::Illegal),
                Some(mv) => {
                    proof {
                        let view = move_view(mv);
                        let i = choose|i: int| 0 <= i < legal(self@).len() && legal(self@)[i] == view;
                        assert(legal_notations(self@)[i] == view.uci().text());
                        lemma_uci_of_move_is_well_formed(view);
                        read_of_uci_text(view.uci());
                    }
                    Ok(LegalMove { inner: mv })
                },
            },
        }
    }

    /// The position after a move, if the move is legal here.
    pub fn play(&self, mv: &LegalMove) -> (r: Option<Position>)
        ensures
            match r {
                Some(next) => {
                    &&& played(self@, mv@) == Some(next@)
                    &&& side_to_move(next@) == opponent(side_to_move(self@))
                    &&& men(next@) + (if mv@.capture() is Some {
                        1nat
                    } else {
                        0nat
                    }) == men(self@)
                },
                None => played(self@, mv@) is None,
            },
    {
        chess_play(self, &mv.inner)
    }

    /// The move in standard algebraic notation.
    pub fn san(&self, mv: &LegalMove) -> (r: String)
        ensures
            r@ == san(self@, mv@),
    {
        san_from_move(self, &mv.inner)
    }
}

/// The text denotes a move that can be played in the position with this FEN, and is its
/// notation.
pub open spec fn denotes_itself(fen: Seq<char>, text: Seq<char>) -> bool {
    move_meant(fen, text) matches Ok(mv) && mv.uci().text() == text && played(fen, mv) is Some
}

proof fn lemma_read_uci_is_well_formed(text: Seq<char>)
    ensures
        read_uci(text) matches Some(uci) ==> uci.well_formed(),
{
}

proof fn lemma_uci_of_move_is_well_formed(mv: MoveView)
    requires
        mv.well_formed(),
    ensures
        mv.uci().well_formed(),
{
}

/// Whether a list of texts is a line of play through some positions: each text denotes
/// the move at its place, which is legal in the position there and leads to the
/// next one.
pub open spec fn line_of_play(
    positions: Seq<Seq<char>>,
    moves: Seq<MoveView>,
    notations: Seq<Seq<char>>,
) -> bool {
    &&& positions.len() == notations.len() + 1
    &&& moves.len() == notations.len()
    &&& forall|k: int|
        0 <= k < notations.len() ==> #[trigger] leads_on(
            positions[k],
            notations[k],
            moves[k],
            positions[k + 1],
        )
}

/// Whether a text denotes a move in one position that leads to another.
pub open spec fn leads_on(
    from: Seq<char>,
    text: Seq<char>,
    mv: MoveView,
    to: Seq<char>,
) -> bool {
    &&& read_uci(text) matches Some(uci) && resolved(from, uci) == Some(mv)
    &&& played(from, mv) == Some(to)
}

/// A text denotes a move exactly where it is in UCI notation and that notation stands for
/// the move in the position; a text that is no notation is told from a move that is not
/// legal.
pub proof fn what_a_text_denotes(fen: Seq<char>, text: Seq<char>, mv: MoveView)
    ensures
        move_meant(fen, text) == Ok::<MoveView, MoveFaultView>(mv) <==> (read_uci(
            text,
        ) matches Some(uci) && resolved(fen, uci) == Some(mv)),
        move_meant(fen, text) == Err::<MoveView, MoveFaultView>(
            MoveFaultView::Unreadable("invalid uci"@),
        ) <==> read_uci(text) is None,
        move_meant(fen, text) == Err::<MoveView, MoveFaultView>(MoveFaultView::Illegal) <==> (
        read_uci(text) matches Some(uci) && resolved(fen, uci) is None),
{
}

/// A FEN denotes the position that is set up from what is read; what is not read, or cannot
/// be set up, is an invalid FEN with the message that came of it.
pub proof fn what_a_fen_denotes(text: Seq<char>)
    ensures
        read_fen(text) matches Ok(fen) ==> (set_up(fen) matches Ok(position) ==> parsed_position(
            text,
        ) == Ok::<Seq<char>, ChessErrorView>(position)),
        read_fen(text) matches Ok(fen) ==> (set_up(fen) matches Err(message) ==> parsed_position(
            text,
        ) == Err::<Seq<char>, ChessErrorView>(ChessErrorView::InvalidFen { message, fen: text })),
        read_fen(text) matches Err(message) ==> parsed_position(text) == Err::<
            Seq<char>,
            ChessErrorView,
        >(ChessErrorView::InvalidFen { message, fen: text }),
{
}

/// The game is over exactly where no move is legal: lost for the side in check, drawn
/// otherwise. Where it goes on, a check is told from a quiet position.
pub proof fn states_of_the_game(fen: Seq<char>)
    ensures
        legal(fen).len() == 0 && in_check(fen) ==> game_state(fen) == "checkmate"@,
        legal(fen).len() == 0 && !in_check(fen) ==> game_state(fen) == "stalemate"@,
        legal(fen).len() > 0 && in_check(fen) ==> game_state(fen) == "check"@,
        legal(fen).len() > 0 && !in_check(fen) ==> game_state(fen) == "normal"@,
{
}

/// The moves that are listed are the notations of the legal moves, each as often as a legal
/// move has it, in ascending order.
pub proof fn what_is_listed(fen: Seq<char>)
    ensures
        listed_moves(fen).to_multiset() == Seq::new(
            legal(fen).len(),
            |i: int| legal(fen)[i].uci().text(),
        ).to_multiset(),
        crate::text::ascending(listed_moves(fen)),
{
    let list = Seq::new(legal(fen).len(), |i: int| legal(fen)[i].uci().text());
    assert(legal_notations(fen) == list);
    crate::text::order_is_unique(list, list);
}

/// The number of the move is the one that the last field of the FEN writes.
pub proof fn what_the_move_number_is(fen: Seq<char>, n: u32)
    requires
        words(fen)[5] == decimal(n as nat),
    ensures
        move_number(fen) == n,
{
    read_of_decimal(n as nat);
}

/// White is to move where the second field of the FEN says `w`, and the other side of each
/// side is the other one.
pub proof fn whose_turn_it_is(fen: Seq<char>)
    ensures
        words(fen)[1] == seq!['w'] ==> color_name(side_to_move(fen)) == "white"@,
        words(fen)[1] == seq!['b'] ==> color_name(side_to_move(fen)) == "black"@,
        color_name(opponent(side_to_move(fen))) != color_name(side_to_move(fen)),
        opponent(opponent(side_to_move(fen))) == side_to_move(fen),
{
    reveal_strlit("white");
    reveal_strlit("black");
    assert("white"@[0] != "black"@[0]);
    assert(seq!['w'][0] != seq!['b'][0]);
}

} // verus!
