use chess_pos_analyzer::error::{ChessError, Detail, ErrorCode};

fn text(detail: &Detail) -> String {
    match detail {
        Detail::Text(s) => s.clone(),
        other => panic!("expected a text, got {:?}", other),
    }
}

#[test]
fn every_error_has_its_code_and_sentence() {
    let table: Vec<(ChessError, ErrorCode, &str, &str)> = vec![
        (
            ChessError::InvalidFen { message: "m".into(), fen: "f".into() },
            ErrorCode::InvalidFen,
            "invalid_fen",
            "invalid FEN: m",
        ),
        (
            ChessError::IllegalMove {
                attempted: "e2e5".into(),
                message: "m".into(),
                current_fen: "f".into(),
                legal_moves: vec![],
            },
            ErrorCode::IllegalMove,
            "illegal_move",
            "illegal move e2e5: m",
        ),
        (
            ChessError::EngineUnavailable { message: "m".into(), expected_path: "p".into() },
            ErrorCode::EngineUnavailable,
            "engine_unavailable",
            "Stockfish engine unavailable: m",
        ),
        (
            ChessError::EngineTimeout { depth: 20, elapsed_ms: 1500, partial_available: true },
            ErrorCode::EngineTimeout,
            "engine_timeout",
            "engine timed out after 1500 ms at depth 20",
        ),
        (
            ChessError::AnalysisCancelled,
            ErrorCode::AnalysisCancelled,
            "analysis_cancelled",
            "analysis cancelled",
        ),
        (
            ChessError::SessionNotFound { session_id: "s".into() },
            ErrorCode::SessionNotFound,
            "session_not_found",
            "session not found: s",
        ),
        (
            ChessError::InvalidArgument("a".into()),
            ErrorCode::InvalidArgument,
            "invalid_argument",
            "invalid argument: a",
        ),
        (ChessError::Internal("i".into()), ErrorCode::Internal, "internal", "internal error: i"),
    ];
    for (error, code, name, sentence) in &table {
        assert_eq!(error.code(), *code);
        assert_eq!(code.as_str(), *name);
        assert_eq!(error.message(), *sentence);
        let payload = error.to_payload();
        assert_eq!(payload.code, *name);
        assert_eq!(payload.message, *sentence);
    }
    for a in 0..table.len() {
        for b in 0..a {
            assert_ne!(table[a].1.as_str(), table[b].1.as_str());
        }
    }
}

#[test]
fn details_tell_a_client_more() {
    let fen = ChessError::InvalidFen { message: "m".into(), fen: "f".into() }.details();
    assert_eq!(fen[0].0, "fen");
    assert_eq!(text(&fen[0].1), "f");
    assert_eq!(fen[1].0, "parser_message");
    assert_eq!(text(&fen[1].1), "m");

    let illegal = ChessError::IllegalMove {
        attempted: "e2e5".into(),
        message: "m".into(),
        current_fen: "f".into(),
        legal_moves: vec!["e2e3".into(), "e2e4".into()],
    }
    .details();
    let names: Vec<&str> = illegal.iter().map(|d| d.0.as_str()).collect();
    assert_eq!(names, vec!["attempted", "format", "current_fen", "legal_moves"]);
    assert_eq!(text(&illegal[1].1), "uci");
    match &illegal[3].1 {
        Detail::Texts(list) => assert_eq!(list, &vec!["e2e3".to_string(), "e2e4".to_string()]),
        other => panic!("expected a list, got {:?}", other),
    }

    let away = ChessError::EngineUnavailable { message: "m".into(), expected_path: "p".into() };
    let away = away.details();
    assert_eq!(text(&away[0].1), "p");
    assert_eq!(away[1].0, "hint");
    assert_eq!(
        text(&away[1].1),
        "Place Stockfish at the expected path or set CHESS_MCP_STOCKFISH_PATH."
    );

    let late = ChessError::EngineTimeout { depth: 3, elapsed_ms: 4, partial_available: true };
    let late = late.details();
    assert!(matches!(late[0].1, Detail::Number(3)));
    assert!(matches!(late[1].1, Detail::Number(4)));
    assert!(matches!(late[2].1, Detail::Flag(true)));

    assert_eq!(text(&ChessError::SessionNotFound { session_id: "s".into() }.details()[0].1), "s");
    assert!(ChessError::AnalysisCancelled.details().is_empty());
    assert!(ChessError::InvalidArgument("a".into()).details().is_empty());
    assert!(ChessError::Internal("i".into()).details().is_empty());
}
