use chess_pos_analyzer::error::{ChessError, ErrorCode};
use chess_pos_analyzer::position::{Color, Role};
use chess_pos_analyzer::pv_explain::{explain_pv, piece_value, role_char, MaterialSwing};

const STARTING_FEN: &str = "rnbqkbnr/pppppppp/8/8/8/8/PPPPPPPP/RNBQKBNR w KQkq - 0 1";

#[test]
fn empty_pv_yields_empty_explanation() {
    let e = explain_pv(STARTING_FEN, &[]).unwrap();
    assert!(e.pv_san.is_empty());
    assert!(e.captures.is_empty());
    assert_eq!(e.material_swing, MaterialSwing::default());
}

#[test]
fn quiet_pv_has_no_captures() {
    let pv = vec!["e2e4".to_string(), "e7e5".to_string(), "g1f3".to_string()];
    let e = explain_pv(STARTING_FEN, &pv).unwrap();
    assert_eq!(e.pv_san, vec!["e4", "e5", "Nf3"]);
    assert!(e.captures.is_empty());
    assert_eq!(e.material_swing.net_for_stm, 0);
}

#[test]
fn capture_recorded_with_value_and_square() {
    // After 1.e4 e5 2.Nf3 Nc6 3.Bb5 a6 4.Bxc6 -- white wins a knight (value 3).
    let pv = vec![
        "e2e4".into(),
        "e7e5".into(),
        "g1f3".into(),
        "b8c6".into(),
        "f1b5".into(),
        "a7a6".into(),
        "b5c6".into(),
    ];
    let e = explain_pv(STARTING_FEN, &pv).unwrap();
    assert_eq!(e.pv_san.last().unwrap(), "Bxc6");
    assert_eq!(e.captures.len(), 1);
    let cap = &e.captures[0];
    assert_eq!(cap.ply, 7);
    assert_eq!(cap.side, "white");
    assert_eq!(cap.piece, "B");
    assert_eq!(cap.captured, "N");
    assert_eq!(cap.square, "c6");
    assert_eq!(cap.value, 3);
    assert!(!cap.en_passant);
    // White is side-to-move at depth 0, white captured a knight: +3.
    assert_eq!(e.material_swing.white_lost, 0);
    assert_eq!(e.material_swing.black_lost, 3);
    assert_eq!(e.material_swing.net_for_stm, 3);
}

#[test]
fn rook_for_queen_trade_summarized() {
    let fen = "r1b1k1r1/pp2pp2/2pp3b/5PNn/N1PPP1Q1/3B4/PP4P1/2KR4 b q - 0 18";
    // Main line: 18...Rxg5 19.Qe2 Rxg2 20.Kb1 Rxe2 21.Bxe2
    let pv = vec![
        "g8g5".into(),
        "g4e2".into(),
        "g5g2".into(),
        "c1b1".into(),
        "g2e2".into(),
        "d3e2".into(),
    ];
    let e = explain_pv(fen, &pv).unwrap();
    // Captures: Rxg5 (N), Rxg2 with discovered check from Bh6, Rxe2 (Q), Bxe2 (R).
    assert_eq!(
        e.pv_san,
        vec!["Rxg5", "Qe2", "Rxg2+", "Kb1", "Rxe2", "Bxe2"]
    );
    let captured_pieces: Vec<&str> = e.captures.iter().map(|c| c.captured.as_str()).collect();
    assert_eq!(captured_pieces, vec!["N", "P", "Q", "R"]);
    // Black captured N+P+Q = 13, lost R = 5. Net = +8 in this swap.
    assert_eq!(e.material_swing.white_lost, 3 + 1 + 9);
    assert_eq!(e.material_swing.black_lost, 5);
    assert_eq!(e.material_swing.net_for_stm, 8);
}

#[test]
fn en_passant_capture_flagged() {
    let fen = "rnbqkbnr/ppp1pppp/8/8/3pP3/8/PPPP1PPP/RNBQKBNR b KQkq e3 0 2";
    let pv = vec!["d4e3".into()];
    let e = explain_pv(fen, &pv).unwrap();
    assert_eq!(e.captures.len(), 1);
    assert!(e.captures[0].en_passant);
    assert_eq!(e.captures[0].captured, "P");
    assert_eq!(e.captures[0].value, 1);
}

#[test]
fn illegal_pv_move_returns_error() {
    let err = explain_pv(STARTING_FEN, &["e2e5".to_string()]).unwrap_err();
    // It's an Internal because PV legality is an invariant, not user input.
    match err {
        ChessError::Internal(_) => {}
        other => panic!("expected Internal, got {:?}", other),
    }
}

#[test]
fn bad_fen_returns_invalid_fen() {
    let err = explain_pv("not a fen", &[]).unwrap_err();
    assert_eq!(err.code(), ErrorCode::InvalidFen);
}

#[test]
fn values_and_letters_of_the_pieces() {
    let table = [
        (Role::Pawn, 1, "P"),
        (Role::Knight, 3, "N"),
        (Role::Bishop, 3, "B"),
        (Role::Rook, 5, "R"),
        (Role::Queen, 9, "Q"),
        (Role::King, 0, "K"),
    ];
    for (role, value, letter) in table {
        assert_eq!(piece_value(role), value);
        assert_eq!(role_char(role), letter);
    }
}

#[test]
fn en_passant_is_told_from_other_pawn_captures() {
    let fen = "rnbqkbnr/ppp1pppp/8/8/3pP3/2P5/PP1P1PPP/RNBQKBNR b KQkq e3 0 2";
    let e = explain_pv(fen, &["d4c3".to_string(), "b2c3".to_string()]).unwrap();
    assert_eq!(e.pv_san, vec!["dxc3", "bxc3"]);
    assert!(e.captures.iter().all(|c| !c.en_passant));
    assert_eq!(e.material_swing.net_for_stm, 0);
    assert_eq!(e.captures[1].side, "white");
    assert_eq!(e.captures[1].ply, 2);
}

#[test]
fn a_promotion_with_capture_counts_the_captured_piece() {
    let fen = "1r5k/P7/8/8/8/8/8/7K w - - 0 1";
    let e = explain_pv(fen, &["a7b8q".to_string()]).unwrap();
    assert_eq!(e.pv_san, vec!["axb8=Q+"]);
    assert_eq!(e.captures[0].piece, "P");
    assert_eq!(e.captures[0].captured, "R");
    assert_eq!(e.material_swing.black_lost, 5);
    assert_eq!(e.material_swing.net_for_stm, 5);
}

#[test]
fn beginning_of_a_variation_has_the_beginning_of_its_explanation() {
    let pv: Vec<String> = ["e2e4", "d7d5", "e4d5", "d8d5", "b1c3", "d5a5"]
        .iter()
        .map(|s| s.to_string())
        .collect();
    let whole = explain_pv(STARTING_FEN, &pv).unwrap();
    for n in 0..=pv.len() {
        let part = explain_pv(STARTING_FEN, &pv[..n]).unwrap();
        assert_eq!(part.pv_san, whole.pv_san[..n].to_vec());
        assert!(part.captures.len() <= whole.captures.len());
        for (a, b) in part.captures.iter().zip(whole.captures.iter()) {
            assert_eq!(a.ply, b.ply);
            assert_eq!(a.square, b.square);
        }
    }
    assert_eq!(whole.material_swing.net_for_stm, 0);
}

#[test]
fn unreadable_pv_move_is_internal() {
    let err = explain_pv(STARTING_FEN, &["nonsense".to_string()]).unwrap_err();
    assert_eq!(err.code(), ErrorCode::Internal);
}

#[test]
fn one_move_at_a_time() {
    let mut out = chess_pos_analyzer::pv_explain::PvExplanation::empty();
    out.add_move(1, Color::White, Role::Queen, Some(Role::Rook), "h8".to_string(), false, "Qxh8+".to_string());
    out.add_move(2, Color::Black, Role::Bishop, Some(Role::Queen), "h8".to_string(), false, "Bxh8".to_string());
    out.settle(Color::White);
    assert_eq!(out.material_swing.black_lost, 5);
    assert_eq!(out.material_swing.white_lost, 9);
    assert_eq!(out.material_swing.net_for_stm, -4);
    assert_eq!(out.captures[1].side, "black");
}
