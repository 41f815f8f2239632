use std::path::PathBuf;

use chess_pos_analyzer::board::BoardSnapshot;
use chess_pos_analyzer::cache::{AnalysisResult, CacheKey};
use chess_pos_analyzer::config::ResolvedConfig;
use chess_pos_analyzer::engine::{default_uci_options, ProgressEvent};
use chess_pos_analyzer::error::ChessError;
use chess_pos_analyzer::handshake::Running;
use chess_pos_analyzer::server::{
    default_depth_arg, default_multipv_arg, default_plies, progress_advance, progress_message,
    resource_at, AnalysisStart, AnalyzePositionArgs, ChessServer, CreateBoardArgs, MakeMoveArgs,
    Resource, SessionIdArgs, ToolReply, UndoMoveArgs,
};

const START: &str = "rnbqkbnr/pppppppp/8/8/8/8/PPPPPPPP/RNBQKBNR w KQkq - 0 1";

fn test_config() -> ResolvedConfig {
    ResolvedConfig {
        stockfish_path: PathBuf::from("/nonexistent/stockfish"),
        cache_capacity: 8,
        log_level: "info".into(),
    }
}

fn board(reply: ToolReply) -> BoardSnapshot {
    match reply {
        ToolReply::Board(snapshot) => snapshot,
        other => panic!("expected a board, got {:?}", other),
    }
}

fn is_error_with_code(reply: &ToolReply, code: &str) -> bool {
    match reply {
        ToolReply::Error(e) => e.to_payload().code == code,
        _ => false,
    }
}

fn create(server: &mut ChessServer, moves: &[&str]) -> String {
    let args = CreateBoardArgs {
        fen: None,
        moves_uci: moves.iter().map(|s| s.to_string()).collect(),
    };
    board(server.create_board(&args)).session_id
}

/// What the engine answers where there is none.
fn no_engine(server: &ChessServer) -> Result<AnalysisResult, ChessError> {
    let engine = server.engine();
    Err(engine.spawn(engine.path().exists()).unwrap_err())
}

fn analyze(session_id: Option<&str>, fen: Option<&str>, depth: u32, multipv: u32) -> AnalyzePositionArgs {
    AnalyzePositionArgs {
        session_id: session_id.map(String::from),
        fen: fen.map(String::from),
        depth,
        multipv,
    }
}

fn result(fen: &str, depth: u32, multipv: u32) -> AnalysisResult {
    AnalysisResult {
        schema_version: "1.0".into(),
        fen: fen.to_string(),
        depth,
        multipv,
        lines: vec![],
    }
}

#[test]
fn create_board_replaces_previous_session() {
    let mut server = ChessServer::new(test_config());
    let first_id = create(&mut server, &[]);
    let second_id = create(&mut server, &["e2e4"]);
    assert_ne!(first_id, second_id);

    // First session id should now be invalid.
    let stale = server.get_board(&SessionIdArgs { session_id: first_id.clone() });
    assert!(is_error_with_code(&stale, "session_not_found"));
}

#[test]
fn get_board_returns_current_snapshot() {
    let mut server = ChessServer::new(test_config());
    let sid = create(&mut server, &[]);
    let got = board(server.get_board(&SessionIdArgs { session_id: sid.clone() }));
    assert_eq!(got.session_id, sid);
    assert_eq!(got.turn, "white");
}

#[test]
fn make_move_with_bad_id_returns_session_not_found() {
    let mut server = ChessServer::new(test_config());
    let result = server.make_move(&MakeMoveArgs {
        session_id: "not-a-real-uuid".into(),
        mv: "e2e4".into(),
    });
    assert!(is_error_with_code(&result, "session_not_found"));
}

#[test]
fn make_move_illegal_returns_illegal_move() {
    let mut server = ChessServer::new(test_config());
    let sid = create(&mut server, &[]);
    let res = server.make_move(&MakeMoveArgs { session_id: sid, mv: "e2e5".into() });
    assert!(is_error_with_code(&res, "illegal_move"));
}

#[test]
fn undo_move_walks_back() {
    let mut server = ChessServer::new(test_config());
    let sid = create(&mut server, &["e2e4", "e7e5"]);
    let after = board(server.undo_move(&UndoMoveArgs { session_id: sid, plies: 1 }));
    assert_eq!(after.history, vec!["e2e4"]);
    assert_eq!(after.turn, "black");
}

#[test]
fn engine_status_reports_unavailable_when_missing() {
    let server = ChessServer::new(test_config());
    let info = server.engine_status();
    assert_eq!(info.available, false);
    assert_eq!(info.path, "/nonexistent/stockfish");
    assert_eq!(info.name, "");
    assert_eq!(info.uci_options, default_uci_options());
}

#[test]
fn analyze_requires_exactly_one_of_session_or_fen() {
    let mut server = ChessServer::new(test_config());

    // Both supplied
    let outcome = no_engine(&server);
    let res = server.run_analysis(&analyze(Some("x"), Some("y"), 10, 1), outcome);
    assert!(is_error_with_code(&res, "invalid_argument"));

    // Neither supplied
    let outcome = no_engine(&server);
    let res = server.run_analysis(&analyze(None, None, 10, 1), outcome);
    assert!(is_error_with_code(&res, "invalid_argument"));
}

#[test]
fn analyze_rejects_zero_depth_or_multipv() {
    let mut server = ChessServer::new(test_config());
    let outcome = no_engine(&server);
    let res = server.run_analysis(&analyze(None, Some(START), 0, 1), outcome);
    assert!(is_error_with_code(&res, "invalid_argument"));
    let outcome = no_engine(&server);
    let res = server.run_analysis(&analyze(None, Some(START), 1, 0), outcome);
    assert!(is_error_with_code(&res, "invalid_argument"));
}

#[test]
fn analyze_returns_engine_unavailable_when_no_engine() {
    let mut server = ChessServer::new(test_config());
    let outcome = no_engine(&server);
    let res = server.run_analysis(&analyze(None, Some(START), 10, 1), outcome);
    assert!(is_error_with_code(&res, "engine_unavailable"));
}

#[test]
fn analyze_returns_cached_without_engine_call() {
    let mut server = ChessServer::new(test_config());
    let key = CacheKey::new(START, 12, 2).unwrap();
    server.finish_analysis(key, Ok(result(START, 12, 2)));
    let outcome = no_engine(&server);
    let res = server.run_analysis(&analyze(None, Some(START), 12, 2), outcome);
    match res {
        ToolReply::Analysis(found) => {
            assert_eq!(found.depth, 12);
            assert_eq!(found.fen, START);
        }
        other => panic!("expected an analysis, got {:?}", other),
    }
}

#[test]
fn analyze_with_unknown_session_id_returns_session_not_found() {
    let mut server = ChessServer::new(test_config());
    let outcome = no_engine(&server);
    let res = server.run_analysis(&analyze(Some("bogus"), None, 10, 1), outcome);
    assert!(is_error_with_code(&res, "session_not_found"));
}

#[test]
fn bad_arguments_in_words() {
    let mut server = ChessServer::new(test_config());
    let mut message = |args: AnalyzePositionArgs| match server.begin_analysis(&args) {
        AnalysisStart::Answer(ToolReply::Error(e)) => e.message(),
        other => panic!("expected an error, got {:?}", other),
    };
    assert_eq!(
        message(analyze(None, None, 0, 0)),
        "invalid argument: exactly one of `session_id` or `fen` must be supplied"
    );
    assert_eq!(
        message(analyze(None, Some(START), 0, 0)),
        "invalid argument: `depth` must be at least 1"
    );
    assert_eq!(
        message(analyze(Some("x"), None, 1, 0)),
        "invalid argument: `multipv` must be at least 1"
    );
    assert_eq!(message(analyze(Some("x"), None, 1, 1)), "session not found: x");
    assert_eq!(
        message(analyze(None, Some("a b c"), 1, 1)),
        "invalid FEN: FEN must contain at least 4 fields, got 3"
    );
}

#[test]
fn the_engine_is_asked_about_the_session() {
    let mut server = ChessServer::new(test_config());
    let sid = create(&mut server, &["e2e4"]);
    let args = analyze(Some(&sid), None, 5, 3);
    match server.begin_analysis(&args) {
        AnalysisStart::Ask(pending) => {
            assert_eq!(
                pending.request.fen,
                "rnbqkbnr/pppppppp/8/8/4P3/8/PPPP1PPP/RNBQKBNR b KQkq - 0 1"
            );
            assert_eq!(pending.request.depth, 5);
            assert_eq!(pending.request.multipv, 3);
            assert_eq!(
                pending.key.normalized_fen,
                "rnbqkbnr/pppppppp/8/8/4P3/8/PPPP1PPP/RNBQKBNR b KQkq -"
            );
        }
        other => panic!("expected a question, got {:?}", other),
    }
    assert!(server.cache().is_empty());
}

#[test]
fn an_analysis_is_given_from_the_cache_the_second_time() {
    let mut server = ChessServer::new(test_config());
    let args = analyze(None, Some(START), 12, 2);
    let first = server.run_analysis(&args, Ok(result(START, 12, 2)));
    assert!(matches!(first, ToolReply::Analysis(_)));
    assert_eq!(server.cache().len(), 1);
    // The same position with other clocks, and an engine that would fail.
    let other = START.replace("0 1", "7 31");
    let again = server.run_analysis(
        &analyze(None, Some(&other), 12, 2),
        Err(ChessError::AnalysisCancelled),
    );
    match again {
        ToolReply::Analysis(found) => assert_eq!(found, result(START, 12, 2)),
        other => panic!("expected an analysis, got {:?}", other),
    }
    // Other settings are another analysis, and a failure is not kept.
    let deeper = server.run_analysis(
        &analyze(None, Some(START), 13, 2),
        Err(ChessError::AnalysisCancelled),
    );
    assert!(is_error_with_code(&deeper, "analysis_cancelled"));
    assert_eq!(server.cache().len(), 1);
}

#[test]
fn tools_change_the_session_only_on_success() {
    let mut server = ChessServer::new(test_config());
    let sid = create(&mut server, &[]);
    let before = board(server.get_board(&SessionIdArgs { session_id: sid.clone() }));
    server.make_move(&MakeMoveArgs { session_id: sid.clone(), mv: "e2e5".into() });
    server.make_move(&MakeMoveArgs { session_id: "other".into(), mv: "e2e4".into() });
    server.undo_move(&UndoMoveArgs { session_id: "other".into(), plies: 1 });
    let bad = CreateBoardArgs { fen: Some("nonsense".into()), moves_uci: vec![] };
    assert!(is_error_with_code(&server.create_board(&bad), "invalid_fen"));
    assert_eq!(board(server.get_board(&SessionIdArgs { session_id: sid.clone() })), before);

    let moved = board(server.make_move(&MakeMoveArgs { session_id: sid.clone(), mv: "e2e4".into() }));
    assert_eq!(board(server.get_board(&SessionIdArgs { session_id: sid.clone() })), moved);
    let back = board(server.undo_move(&UndoMoveArgs { session_id: sid.clone(), plies: default_plies() }));
    assert_eq!(back, before);
    assert_eq!(server.session_resource(), Some(before));
    assert!(server.session_handle().is_some());
}

#[test]
fn a_running_engine_is_reported() {
    let mut server = ChessServer::new(test_config());
    server.engine_started(Running { name: "Fish".into(), uci_options: default_uci_options() });
    server.engine_multipv(4);
    let info = server.engine_status();
    assert!(info.available);
    assert_eq!(info.name, "Fish");
    assert_eq!(info.uci_options.get("MultiPV").map(String::as_str), Some("4"));
    assert_eq!(server.config().cache_capacity, 8);
}

#[test]
fn resources_and_defaults() {
    assert_eq!(resource_at("chess://session/current"), Some(Resource::Session));
    assert_eq!(resource_at("chess://engine/status"), Some(Resource::EngineStatus));
    assert_eq!(resource_at("chess://session/current/"), None);
    assert!(ChessServer::new(test_config()).session_resource().is_none());
    assert_eq!((default_plies(), default_depth_arg(), default_multipv_arg()), (1, 20, 6));
}

#[test]
fn progress_in_words() {
    let started = ProgressEvent::Started { depth: 20, multipv: 6 };
    assert_eq!(progress_message(&started), "engine_started depth=20 multipv=6");
    assert_eq!(progress_advance(&started), 0);
    let depth = ProgressEvent::DepthComplete { depth: 7, best_line: None };
    assert_eq!(progress_message(&depth), "depth_complete depth=7");
    assert_eq!(progress_advance(&depth), 1);
    assert_eq!(progress_message(&ProgressEvent::Completed), "completed");
    assert_eq!(progress_advance(&ProgressEvent::Completed), 0);
}
