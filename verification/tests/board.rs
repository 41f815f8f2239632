use chess_pos_analyzer::board::{BoardSession, STARTING_FEN};
use chess_pos_analyzer::error::{ChessError, ErrorCode};
use chess_pos_analyzer::position::{Color, Position};

fn moves(list: &[&str]) -> Vec<String> {
    list.iter().map(|s| s.to_string()).collect()
}

#[test]
fn starting_position_has_twenty_legal_moves() {
    let session = BoardSession::new(None, &[]).unwrap();
    let snap = session.snapshot();
    assert_eq!(snap.legal_move_count, 20);
    assert_eq!(snap.turn, "white");
    assert_eq!(snap.move_number, 1);
    assert_eq!(snap.state, "normal");
    assert!(snap.history.is_empty());
    assert!(snap.legal_moves.contains(&"e2e4".to_string()));
}

#[test]
fn applies_initial_moves() {
    let session = BoardSession::new(None, &["e2e4".into(), "e7e5".into(), "g1f3".into()]).unwrap();
    let snap = session.snapshot();
    assert_eq!(snap.history, vec!["e2e4", "e7e5", "g1f3"]);
    assert_eq!(snap.turn, "black");
}

#[test]
fn rejects_illegal_move_with_details() {
    let mut session = BoardSession::new(None, &[]).unwrap();
    let err = session.make_move("e2e5").unwrap_err();
    assert_eq!(err.code(), ErrorCode::IllegalMove);
    match err {
        ChessError::IllegalMove { legal_moves, .. } => {
            assert!(legal_moves.contains(&"e2e4".to_string()));
        }
        _ => panic!("expected IllegalMove"),
    }
}

#[test]
fn rejects_invalid_uci_with_illegal_move_error() {
    let mut session = BoardSession::new(None, &[]).unwrap();
    let err = session.make_move("zz9").unwrap_err();
    assert_eq!(err.code(), ErrorCode::IllegalMove);
}

#[test]
fn rejects_invalid_initial_fen() {
    let err = BoardSession::new(Some("not a fen"), &[]).unwrap_err();
    assert_eq!(err.code(), ErrorCode::InvalidFen);
}

#[test]
fn undo_walks_back_history() {
    let mut session =
        BoardSession::new(None, &["e2e4".into(), "e7e5".into(), "g1f3".into()]).unwrap();
    let undone = session.undo(2).unwrap();
    assert_eq!(undone, 2);
    let snap = session.snapshot();
    assert_eq!(snap.history, vec!["e2e4"]);
    assert_eq!(snap.turn, "black");
}

#[test]
fn undo_more_than_history_clamps() {
    let mut session = BoardSession::new(None, &["e2e4".into()]).unwrap();
    let undone = session.undo(5).unwrap();
    assert_eq!(undone, 1);
    assert!(session.history().is_empty());
    assert_eq!(session.snapshot().turn, "white");
}

#[test]
fn undo_zero_is_noop() {
    let mut session = BoardSession::new(None, &["e2e4".into()]).unwrap();
    assert_eq!(session.undo(0).unwrap(), 0);
    assert_eq!(session.history().len(), 1);
}

#[test]
fn checkmate_state_detected() {
    // Fool's mate sequence
    let moves = ["f2f3", "e7e5", "g2g4", "d8h4"];
    let session = BoardSession::new(
        None,
        &moves.iter().map(|s| s.to_string()).collect::<Vec<_>>(),
    )
    .unwrap();
    let snap = session.snapshot();
    assert_eq!(snap.state, "checkmate");
    assert_eq!(snap.legal_move_count, 0);
}

#[test]
fn check_state_detected() {
    // Scholar's mate
    let session = BoardSession::new(
        None,
        &[
            "e2e4".into(),
            "e7e5".into(),
            "d1h5".into(),
            "b8c6".into(),
            "f1c4".into(),
            "g8f6".into(),
            "h5f7".into(),
        ],
    )
    .unwrap();
    let snap = session.snapshot();
    assert_eq!(snap.state, "checkmate");
}

#[test]
fn custom_fen_starting_position() {
    let fen = "r1bqkbnr/pppp1ppp/2n5/4p3/4P3/5N2/PPPP1PPP/RNBQKB1R w KQkq - 2 3";
    let session = BoardSession::new(Some(fen), &[]).unwrap();
    let snap = session.snapshot();
    assert_eq!(snap.turn, "white");
    assert_eq!(snap.move_number, 3);
}

#[test]
fn fen_roundtrip_after_moves_is_valid() {
    let mut session = BoardSession::new(None, &[]).unwrap();
    session.make_move("e2e4").unwrap();
    let fen = session.fen();
    // Should be parseable again
    let reloaded = BoardSession::new(Some(&fen), &[]).unwrap();
    assert_eq!(reloaded.fen(), fen);
}

#[test]
fn promotion_move_works() {
    let fen = "8/P7/8/8/8/8/8/k6K w - - 0 1";
    let mut session = BoardSession::new(Some(fen), &[]).unwrap();
    let applied = session.make_move("a7a8q").unwrap();
    assert_eq!(applied, "a7a8q");
}

#[test]
fn snapshot_of_the_start_is_exact() {
    let session = BoardSession::new(None, &[]).unwrap();
    let snap = session.snapshot();
    assert_eq!(snap.session_id, session.id().to_string());
    assert_eq!(snap.session_id, session.session_id());
    assert_eq!(snap.fen, STARTING_FEN);
    assert_eq!(snap.board_text, "rnbqkbnr/pppppppp/8/8/8/8/PPPPPPPP/RNBQKBNR");
    assert_eq!(
        snap.legal_moves,
        vec![
            "a2a3", "a2a4", "b1a3", "b1c3", "b2b3", "b2b4", "c2c3", "c2c4", "d2d3", "d2d4", "e2e3",
            "e2e4", "f2f3", "f2f4", "g1f3", "g1h3", "g2g3", "g2g4", "h2h3", "h2h4"
        ]
    );
    assert_eq!(session.legal_move_count(), 20);
    assert_eq!(session.position().turn(), Color::White);
}

#[test]
fn blank_fen_means_the_starting_position() {
    for given in ["", "   ", "\t\n\u{2003}"] {
        let session = BoardSession::new(Some(given), &[]).unwrap();
        assert_eq!(session.fen(), STARTING_FEN);
    }
    let padded = format!("  {}\n", STARTING_FEN);
    assert_eq!(BoardSession::new(Some(&padded), &[]).unwrap().fen(), STARTING_FEN);
}

#[test]
fn first_bad_initial_move_is_reported() {
    let err = BoardSession::new(None, &moves(&["e2e4", "e2e4", "zz9"])).unwrap_err();
    match err {
        ChessError::IllegalMove { attempted, message, current_fen, legal_moves } => {
            assert_eq!(attempted, "e2e4");
            assert_eq!(message, "move is not legal in the current position");
            assert_eq!(
                current_fen,
                "rnbqkbnr/pppppppp/8/8/4P3/8/PPPP1PPP/RNBQKBNR b KQkq - 0 1"
            );
            assert_eq!(legal_moves.len(), 20);
        }
        other => panic!("expected IllegalMove, got {:?}", other),
    }
}

#[test]
fn unreadable_move_names_the_parser_message() {
    let mut session = BoardSession::new(None, &[]).unwrap();
    match session.make_move("zz9").unwrap_err() {
        ChessError::IllegalMove { attempted, message, .. } => {
            assert_eq!(attempted, "zz9");
            assert_eq!(message, "could not parse UCI move: invalid uci");
        }
        other => panic!("expected IllegalMove, got {:?}", other),
    }
    assert!(session.history().is_empty());
    assert_eq!(session.fen(), STARTING_FEN);
}

#[test]
fn invalid_fen_keeps_message_and_text() {
    match BoardSession::new(Some("  not a fen "), &[]).unwrap_err() {
        ChessError::InvalidFen { message, fen } => {
            assert_eq!(fen, "not a fen");
            assert!(!message.is_empty());
        }
        other => panic!("expected InvalidFen, got {:?}", other),
    }
    // A board that can be read but is no legal position.
    match BoardSession::new(Some("8/8/8/8/8/8/8/8 w - - 0 1"), &[]).unwrap_err() {
        ChessError::InvalidFen { message, fen } => {
            assert_eq!(fen, "8/8/8/8/8/8/8/8 w - - 0 1");
            assert!(!message.is_empty());
        }
        other => panic!("expected InvalidFen, got {:?}", other),
    }
}

#[test]
fn undo_reverts_a_made_move() {
    let mut session = BoardSession::new(None, &moves(&["d2d4", "g8f6"])).unwrap();
    let before = session.snapshot();
    session.make_move("c2c4").unwrap();
    assert_ne!(session.snapshot(), before);
    assert_eq!(session.undo(1).unwrap(), 1);
    assert_eq!(session.snapshot(), before);
}

#[test]
fn undoing_in_two_goes_is_undoing_at_once() {
    let line = moves(&["e2e4", "e7e5", "g1f3", "b8c6", "f1b5"]);
    let mut a = BoardSession::new(None, &line).unwrap();
    let mut b = BoardSession::new(None, &line).unwrap();
    a.undo(1).unwrap();
    a.undo(2).unwrap();
    b.undo(3).unwrap();
    assert_eq!(a.fen(), b.fen());
    assert_eq!(a.history(), b.history());
}

#[test]
fn every_listed_move_is_accepted() {
    let fen = "r3k2r/pPpp1ppp/8/3Pp3/8/8/PPP2PPP/R3K2R w KQkq e6 0 2";
    let session = BoardSession::new(Some(fen), &[]).unwrap();
    let listed = session.legal_moves_uci();
    assert!(listed.contains(&"e1g1".to_string()));
    assert!(listed.contains(&"e1c1".to_string()));
    assert!(listed.contains(&"d5e6".to_string()));
    assert!(listed.contains(&"b7a8n".to_string()));
    for text in &listed {
        let mut other = BoardSession::new(Some(fen), &[]).unwrap();
        assert_eq!(&other.make_move(text).unwrap(), text);
        assert_eq!(other.history(), &[text.clone()]);
        assert_eq!(other.undo(1).unwrap(), 1);
        assert_eq!(other.fen(), session.fen());
    }
}

#[test]
fn castling_is_noted_in_its_own_notation() {
    let fen = "r3k2r/8/8/8/8/8/8/R3K2R w KQkq - 0 1";
    let mut session = BoardSession::new(Some(fen), &[]).unwrap();
    // The king takes its own rook: another way to write castling.
    assert_eq!(session.make_move("e1h1").unwrap(), "e1g1");
    assert_eq!(session.make_move("e8c8").unwrap(), "e8c8");
    assert_eq!(session.history(), &["e1g1".to_string(), "e8c8".to_string()]);
}

#[test]
fn states_of_the_game() {
    let check = BoardSession::new(Some("4k3/8/8/8/8/8/4R3/4K3 b - - 0 1"), &[]).unwrap();
    assert_eq!(check.state(), "check");
    let stalemate = BoardSession::new(Some("7k/5Q2/6K1/8/8/8/8/8 b - - 0 1"), &[]).unwrap();
    assert_eq!(stalemate.state(), "stalemate");
    assert_eq!(stalemate.legal_move_count(), 0);
    let normal = BoardSession::new(None, &[]).unwrap();
    assert_eq!(normal.state(), "normal");
}

#[test]
fn sessions_have_different_identifiers() {
    let a = BoardSession::new(None, &[]).unwrap();
    let b = BoardSession::new(None, &[]).unwrap();
    assert_ne!(a.session_id(), b.session_id());
    let c = BoardSession::with_id(a.id(), None, &[]).unwrap();
    assert_eq!(c.session_id(), a.session_id());
    assert_eq!(a.session_id().len(), 36);
}

#[test]
fn move_numbers_count_after_black() {
    let mut session = BoardSession::new(None, &[]).unwrap();
    session.make_move("e2e4").unwrap();
    assert_eq!(session.move_number(), 1);
    session.make_move("e7e5").unwrap();
    assert_eq!(session.move_number(), 2);
    assert_eq!(session.turn(), "white");
}

#[test]
fn a_pinned_en_passant_square_is_not_shown() {
    // The capture would leave the king in check along the rank.
    let mut session =
        BoardSession::new(Some("8/8/8/8/k2p3R/8/4P3/4K3 w - - 0 1"), &[]).unwrap();
    session.make_move("e2e4").unwrap();
    assert_eq!(session.fen(), "8/8/8/8/k2pP2R/8/8/4K3 b - - 0 1");
}

#[test]
fn position_reads_and_plays() {
    let start = Position::parse(STARTING_FEN).unwrap();
    let mv = start.read_move("b1c3").unwrap();
    assert_eq!(start.san(&mv), "Nc3");
    assert_eq!(mv.uci(), "b1c3");
    assert_eq!(mv.to(), "c3");
    assert_eq!(mv.capture(), None);
    let next = start.play(&mv).unwrap();
    assert_eq!(next.turn(), Color::Black);
    assert_eq!(next.fullmoves(), 1);
    assert!(next.play(&mv).is_none());
}

#[test]
fn every_fen_that_is_reached_reads_back() {
    let starts = [
        STARTING_FEN,
        "r3k2r/p1ppqpb1/bn2pnp1/3PN3/1p2P3/2N2Q1p/PPPBBPPP/R3K2R w KQkq - 0 1",
        "8/2p5/3p4/KP5r/1R3p1k/8/4P1P1/8 w - - 0 1",
        "r2q1rk1/pP1p2pp/Q4n2/bbp1p3/Np6/1B3NBn/pPPP1PPP/R3K2R b KQ - 0 1",
        // Taking en passant uncovers a rook and a bishop at once.
        "4R2K/3p4/2B5/4P3/4k3/8/8/8 b - - 0 1",
    ];
    for start in starts {
        let mut session = BoardSession::new(Some(start), &[]).unwrap();
        for first in session.legal_moves_uci() {
            session.make_move(&first).unwrap();
            for second in session.legal_moves_uci() {
                session.make_move(&second).unwrap();
                let fen = session.fen();
                let again = BoardSession::new(Some(&fen), &[]).unwrap();
                assert_eq!(again.fen(), fen);
                assert_eq!(again.legal_moves_uci(), session.legal_moves_uci());
                session.undo(1).unwrap();
            }
            session.undo(1).unwrap();
        }
        assert_eq!(session.history().len(), 0);
    }
}

#[test]
fn a_session_opens_again_from_its_history() {
    let line = moves(&["e2e4", "c7c5", "g1f3", "d7d6"]);
    let whole = BoardSession::new(None, &line).unwrap();
    let mut step_by_step = BoardSession::new(None, &line[..3]).unwrap();
    step_by_step.make_move("d7d6").unwrap();
    assert_eq!(step_by_step.fen(), whole.fen());
    assert_eq!(step_by_step.history(), whole.history());
    let history: Vec<String> = whole.history().to_vec();
    assert_eq!(BoardSession::new(Some(STARTING_FEN), &history).unwrap().fen(), whole.fen());
}

#[test]
fn snapshots_fit_together() {
    for fen in [
        STARTING_FEN,
        "7k/5Q2/6K1/8/8/8/8/8 b - - 0 1",
        "rnb1kbnr/pppp1ppp/8/4p3/6Pq/5P2/PPPPP2P/RNBQKBNR w KQkq - 1 3",
        "4k3/8/8/8/8/8/4R3/4K3 b - - 0 1",
    ] {
        let snap = BoardSession::new(Some(fen), &[]).unwrap().snapshot();
        assert_eq!(snap.legal_moves.len(), snap.legal_move_count);
        let over = snap.state == "checkmate" || snap.state == "stalemate";
        assert_eq!(snap.legal_move_count == 0, over);
    }
}

#[test]
fn the_other_side_moves_after_each_move() {
    let mut session = BoardSession::new(None, &[]).unwrap();
    let id = session.id();
    for (text, side) in [("e2e4", "black"), ("e7e5", "white"), ("g1f3", "black")] {
        let before = session.turn();
        let mut history = session.history().to_vec();
        assert_eq!(session.make_move(text).unwrap(), text);
        assert_ne!(session.turn(), before);
        assert_eq!(session.turn(), side);
        history.push(text.to_string());
        assert_eq!(session.history(), &history[..]);
        assert_eq!(session.id(), id);
    }
}

#[test]
fn no_move_is_listed_twice_and_none_is_missing() {
    for fen in [
        STARTING_FEN,
        "r3k2r/p1ppqpb1/bn2pnp1/3PN3/1p2P3/2N2Q1p/PPPBBPPP/R3K2R w KQkq - 0 1",
        "rnbqkbnr/ppp1p1pp/8/3pPp2/8/8/PPPP1PPP/RNBQKBNR w KQkq f6 0 3",
        "n1n5/PPPk4/8/8/8/8/4Kppp/5N1N b - - 0 1",
        "4k3/8/8/8/8/8/4R3/4K3 b - - 0 1",
    ] {
        let session = BoardSession::new(Some(fen), &[]).unwrap();
        let listed = session.legal_moves_uci();
        assert_eq!(listed.len(), session.legal_move_count());
        assert!(listed.windows(2).all(|pair| pair[0] < pair[1]));
        let squares: Vec<String> = ('a'..='h')
            .flat_map(|f| ('1'..='8').map(move |r| format!("{}{}", f, r)))
            .collect();
        for from in &squares {
            for to in &squares {
                for promotion in ["", "n", "b", "r", "q"] {
                    let text = format!("{}{}{}", from, to, promotion);
                    let taken = session.clone().make_move(&text);
                    let under_its_own_text = matches!(&taken, Ok(noted) if *noted == text);
                    assert_eq!(listed.contains(&text), under_its_own_text, "{}", text);
                }
            }
        }
    }
}

#[test]
fn clones_of_sessions_go_their_own_way() {
    let mut session = BoardSession::new(None, &moves(&["e2e4"])).unwrap();
    let copy = session.clone();
    assert_eq!(copy.snapshot(), session.snapshot());
    assert_eq!(copy.snapshot().clone(), copy.snapshot());
    session.make_move("e7e5").unwrap();
    assert_eq!(copy.history().len(), 1);
    assert_ne!(copy.fen(), session.fen());
}
