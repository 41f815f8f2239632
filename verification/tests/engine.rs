use std::path::PathBuf;

use chess_pos_analyzer::cache::{AnalysisLine, ScoreKind};
use chess_pos_analyzer::engine::{
    default_uci_options, line_with_end, parse_info_line, AnalysisRequest, Engine, EngineFault,
    ProgressEvent, ENGINE_TIMEOUT_MS,
};
use chess_pos_analyzer::error::{ChessError, ErrorCode};
use chess_pos_analyzer::handshake::{Handshake, HandshakeEvent, HandshakeStep, Running};
use chess_pos_analyzer::options::UciOptions;
use chess_pos_analyzer::search::{enrich_line, find_line, put_line, Search, SearchEvent};

const START: &str = "rnbqkbnr/pppppppp/8/8/8/8/PPPPPPPP/RNBQKBNR w KQkq - 0 1";

#[test]
fn defaults_contain_required_options() {
    let opts = default_uci_options();
    assert_eq!(opts.get("Threads").map(String::as_str), Some("3"));
    assert_eq!(opts.get("Hash").map(String::as_str), Some("128"));
    assert_eq!(opts.get("UCI_AnalyseMode").map(String::as_str), Some("true"));
    assert_eq!(opts.get("Contempt").map(String::as_str), Some("0"));
}

#[test]
fn parse_basic_cp_info_line() {
    let line = "info depth 12 seldepth 18 multipv 1 score cp 31 nodes 100 nps 50 pv e2e4 e7e5 g1f3";
    let parsed = parse_info_line(line).unwrap();
    assert_eq!(parsed.depth, 12);
    assert_eq!(parsed.multipv, 1);
    assert_eq!(parsed.line.rank, 1);
    assert_eq!(parsed.line.score.kind, ScoreKind::Cp);
    assert_eq!(parsed.line.score.cp, Some(31));
    assert_eq!(parsed.line.score.mate_in, None);
    assert_eq!(parsed.line.pv_uci, vec!["e2e4", "e7e5", "g1f3"]);
}

#[test]
fn parse_mate_info_line() {
    let line = "info depth 10 multipv 2 score mate 3 pv h5f7 e8e7 f7f5";
    let parsed = parse_info_line(line).unwrap();
    assert_eq!(parsed.depth, 10);
    assert_eq!(parsed.multipv, 2);
    assert_eq!(parsed.line.score.kind, ScoreKind::Mate);
    assert_eq!(parsed.line.score.mate_in, Some(3));
    assert_eq!(parsed.line.score.cp, None);
}

#[test]
fn parse_info_line_missing_pv_and_score_returns_none() {
    let line = "info depth 5 nodes 1000";
    assert!(parse_info_line(line).is_none());
}

#[test]
fn parse_non_info_line_returns_none() {
    assert!(parse_info_line("bestmove e2e4").is_none());
    assert!(parse_info_line("readyok").is_none());
    assert!(parse_info_line("").is_none());
}

#[test]
fn parse_multipv_default_one_when_missing() {
    let line = "info depth 3 score cp 10 pv e2e4";
    let parsed = parse_info_line(line).unwrap();
    assert_eq!(parsed.multipv, 1);
    assert_eq!(parsed.line.rank, 1);
}

#[test]
fn parse_negative_cp_score() {
    let line = "info depth 8 multipv 1 score cp -42 pv d7d5";
    let parsed = parse_info_line(line).unwrap();
    assert_eq!(parsed.line.score.cp, Some(-42));
}

#[test]
fn engine_unavailable_when_path_missing() {
    let engine = Engine::new(PathBuf::from("/definitely/not/here/stockfish"));
    let err = engine.spawn(engine.path().exists()).unwrap_err();
    assert_eq!(err.code(), ErrorCode::EngineUnavailable);
    assert_eq!(
        err.message(),
        "Stockfish engine unavailable: Stockfish executable not found at \"/definitely/not/here/stockfish\""
    );
    assert!(engine.status().is_none());
    assert!(!engine.is_running());
}

#[test]
fn info_lines_at_the_edges() {
    // Without a depth there is nothing to report.
    assert!(parse_info_line("info score cp 10 pv e2e4").is_none());
    // A field without its value.
    assert!(parse_info_line("info score cp 10 depth").is_none());
    // A depth that is no number, and one too large.
    assert!(parse_info_line("info depth x score cp 10").is_none());
    assert!(parse_info_line("info depth 4294967296 score cp 10").is_none());
    // The last depth counts, even where it is no number.
    assert!(parse_info_line("info depth 4 depth x score cp 10").is_none());
    assert_eq!(parse_info_line("info depth 4 depth 5 score cp 10").unwrap().depth, 5);
    // An unreadable rank is one.
    assert_eq!(parse_info_line("info depth 4 multipv x score cp 10").unwrap().multipv, 1);
    // Only moves, or only a score.
    let only_moves = parse_info_line("info depth 4 pv e2e4").unwrap();
    assert_eq!(only_moves.line.score.cp, None);
    assert_eq!(only_moves.line.pv_uci, vec!["e2e4"]);
    let only_score = parse_info_line("info depth 4 score cp +7").unwrap();
    assert_eq!(only_score.line.score.cp, Some(7));
    assert!(only_score.line.pv_uci.is_empty());
    // `pv` takes all that follows.
    let greedy = parse_info_line("info depth 4 pv depth 9 score cp 3").unwrap();
    assert_eq!(greedy.depth, 4);
    assert_eq!(greedy.line.pv_uci, vec!["depth", "9", "score", "cp", "3"]);
    // A score of another kind is passed over with its value.
    assert!(parse_info_line("info depth 4 score lowerbound 3").is_none());
    let skewed = parse_info_line("info depth 4 score lowerbound depth 9 pv e2e4").unwrap();
    assert_eq!(skewed.depth, 4);
    // A score without its value.
    assert!(parse_info_line("info depth 4 score cp").is_none());
    // A mate counts before centipawns.
    let both = parse_info_line("info depth 4 score cp 3 score mate -2").unwrap();
    assert_eq!(both.line.score.kind, ScoreKind::Mate);
    assert_eq!(both.line.score.mate_in, Some(-2));
    assert_eq!(both.line.score.cp, None);
    // White space around the line and between tokens.
    assert_eq!(parse_info_line(" \tinfo  depth\t4  score cp 1 \n").unwrap().depth, 4);
    // `info` alone, or as the beginning of another word.
    assert!(parse_info_line("info").is_none());
    assert!(parse_info_line("information depth 4 score cp 1").is_none());
    assert!(parse_info_line("info\tdepth 4 score cp 1").is_none());
}

#[test]
fn a_report_reads_back() {
    for (mate, value) in [(false, -17i32), (true, 4), (false, i32::MIN), (true, i32::MAX)] {
        let kind = if mate { "mate" } else { "cp" };
        let line = format!("info depth {} multipv {} score {} {} pv a2a3 b7b6", 33, 4, kind, value);
        let parsed = parse_info_line(&line).unwrap();
        assert_eq!(parsed.depth, 33);
        assert_eq!(parsed.multipv, 4);
        assert_eq!(parsed.line.rank, 4);
        assert_eq!(parsed.line.score.mate_in, if mate { Some(value) } else { None });
        assert_eq!(parsed.line.score.cp, if mate { None } else { Some(value) });
        assert_eq!(parsed.line.pv_uci, vec!["a2a3", "b7b6"]);
        assert!(parsed.line.pv_san.is_empty());
    }
}

#[test]
fn options_are_kept_in_the_order_of_their_names() {
    let mut opts = UciOptions::new();
    for (k, v) in [("b", "1"), ("a", "2"), ("c", "3"), ("b", "4"), ("B", "5"), ("", "6")] {
        opts.insert(k.to_string(), v.to_string());
    }
    let all: Vec<(String, String)> = (0..opts.len())
        .map(|i| (opts.name(i).to_string(), opts.value(i).to_string()))
        .collect();
    let wanted: std::collections::BTreeMap<String, String> =
        [("b", "1"), ("a", "2"), ("c", "3"), ("b", "4"), ("B", "5"), ("", "6")]
            .iter()
            .map(|(k, v)| (k.to_string(), v.to_string()))
            .collect();
    assert_eq!(all, wanted.into_iter().collect::<Vec<_>>());
    assert_eq!(opts.get("b").map(String::as_str), Some("4"));
    assert_eq!(opts.get("d"), None);
    assert_eq!(opts.clone(), opts);
}

#[test]
fn handshake_in_order() {
    let engine = Engine::new(PathBuf::from("/usr/bin/sf"));
    let mut handshake = engine.spawn(true).unwrap();
    assert_eq!(handshake.opening(), "uci");
    let line = |s: &str| HandshakeEvent::Line(s.to_string());
    assert!(matches!(handshake.step(&line("Stockfish 16 by the authors")), HandshakeStep::Wait));
    assert!(matches!(handshake.step(&line("id name  Fish 17 ")), HandshakeStep::Wait));
    // Not yet: `readyok` does not stand for `uciok`.
    assert!(matches!(handshake.step(&line("readyok")), HandshakeStep::Wait));
    match handshake.step(&line(" uciok ")) {
        HandshakeStep::Send(lines) => assert_eq!(
            lines,
            vec![
                "setoption name Contempt value 0",
                "setoption name Hash value 128",
                "setoption name Threads value 3",
                "setoption name UCI_AnalyseMode value true",
                "setoption name MultiPV value 6",
                "isready",
            ]
        ),
        other => panic!("expected Send, got {:?}", other),
    }
    // The name is no longer taken in, and `readyok` must stand alone.
    assert!(matches!(handshake.step(&line("id name Other")), HandshakeStep::Wait));
    assert!(matches!(handshake.step(&line("readyok ")), HandshakeStep::Wait));
    match handshake.step(&line("readyok")) {
        HandshakeStep::Ready(running) => {
            assert_eq!(running.name, "Fish 17");
            assert_eq!(running.uci_options.len(), 5);
            assert_eq!(running.uci_options.get("MultiPV").map(String::as_str), Some("6"));
        }
        other => panic!("expected Ready, got {:?}", other),
    }
}

#[test]
fn handshake_failures() {
    let fresh = || Handshake::new("/sf".to_string());
    let ready = || {
        let mut h = fresh();
        h.step(&HandshakeEvent::Line("uciok".to_string()));
        h
    };
    let cases = [
        (fresh(), HandshakeEvent::Closed, "engine closed before uciok"),
        (fresh(), HandshakeEvent::Expired, "engine closed before uciok"),
        (fresh(), HandshakeEvent::Late, "did not receive uciok in time"),
        (ready(), HandshakeEvent::Closed, "engine did not respond with readyok"),
        (ready(), HandshakeEvent::Expired, "engine did not respond with readyok"),
        (ready(), HandshakeEvent::Late, "engine did not respond with readyok"),
    ];
    for (mut handshake, event, wanted) in cases {
        match handshake.step(&event) {
            HandshakeStep::Fail(ChessError::EngineUnavailable { message, expected_path }) => {
                assert_eq!(message, wanted);
                assert_eq!(expected_path, "/sf");
            }
            other => panic!("expected Fail, got {:?}", other),
        }
    }
}

#[test]
fn a_nameless_engine_is_called_stockfish() {
    let mut handshake = Handshake::new("/sf".to_string());
    handshake.step(&HandshakeEvent::Line("uciok".to_string()));
    match handshake.step(&HandshakeEvent::Line("readyok".to_string())) {
        HandshakeStep::Ready(running) => assert_eq!(running.name, "Stockfish"),
        other => panic!("expected Ready, got {:?}", other),
    }
}

#[test]
fn status_of_a_running_engine() {
    let mut engine = Engine::new(PathBuf::from("/sf"));
    let mut uci_options = default_uci_options();
    uci_options.insert("MultiPV".to_string(), "6".to_string());
    engine.started(Running { name: "Fish".to_string(), uci_options });
    assert!(engine.is_running());
    engine.set_multipv(3);
    let info = engine.status().unwrap();
    assert!(info.available);
    assert_eq!(info.name, "Fish");
    assert_eq!(info.path, "/sf");
    assert_eq!(info.uci_options.get("MultiPV").map(String::as_str), Some("3"));
    assert_eq!(info.uci_options.get("Threads").map(String::as_str), Some("3"));
    assert_eq!(engine.engine_path_string(), "/sf");
}

#[test]
fn faults_become_errors() {
    let engine = Engine::new(PathBuf::from("/sf"));
    let text = |f: EngineFault| engine.fault(&f).message();
    assert_eq!(
        text(EngineFault::Spawn("denied".to_string())),
        "Stockfish engine unavailable: failed to spawn Stockfish: denied"
    );
    assert_eq!(text(EngineFault::NoStdin), "internal error: failed to open Stockfish stdin");
    assert_eq!(text(EngineFault::NoStdout), "internal error: failed to open Stockfish stdout");
    assert_eq!(
        text(EngineFault::Write("broken pipe".to_string())),
        "internal error: failed writing to engine: broken pipe"
    );
    assert_eq!(
        text(EngineFault::Flush("broken pipe".to_string())),
        "internal error: failed flushing engine stdin: broken pipe"
    );
    assert_eq!(line_with_end("isready"), "isready\n");
}

fn search(fen: &str, depth: u32, multipv: u32) -> Search {
    let engine = Engine::new(PathBuf::from("/sf"));
    engine.analyze(AnalysisRequest { fen: fen.to_string(), depth, multipv })
}

fn line(text: &str) -> SearchEvent {
    SearchEvent::Line(text.to_string())
}

#[test]
fn a_search_from_beginning_to_end() {
    let mut search = search(START, 10, 2);
    assert_eq!(search.opening(), vec!["setoption name MultiPV value 2", "isready"]);
    assert!(!search.started());
    assert!(!search.cancellable());
    // Leftovers of an earlier search do not count.
    let step = search.step(&line("bestmove e2e4"));
    assert!(step.send.is_empty() && step.report.is_none() && step.outcome.is_none());
    let step = search.step(&line("readyok"));
    assert_eq!(step.send, vec![format!("position fen {}", START), "go depth 10".to_string()]);
    assert!(matches!(step.report, Some(ProgressEvent::Started { depth: 10, multipv: 2 })));
    assert!(search.started() && search.cancellable());

    // The second candidate first: the depth is reported without a best line.
    let step = search.step(&line("info depth 1 multipv 2 score cp 5 pv d2d4"));
    assert!(matches!(step.report, Some(ProgressEvent::DepthComplete { depth: 1, best_line: None })));
    let step = search.step(&line("info depth 1 multipv 1 score cp 9 pv e2e4 e7e5"));
    assert!(step.report.is_none());
    let step = search.step(&line("info depth 2 multipv 1 score cp 11 pv e2e4 d7d5 e4d5"));
    match step.report {
        Some(ProgressEvent::DepthComplete { depth, best_line: Some(best) }) => {
            assert_eq!(depth, 2);
            assert_eq!(best.score.cp, Some(11));
        }
        other => panic!("expected DepthComplete, got {:?}", other),
    }
    let step = search.step(&line("info string NNUE"));
    assert!(step.report.is_none() && step.outcome.is_none());

    let step = search.step(&line("bestmove e2e4 ponder d7d5"));
    assert!(matches!(step.report, Some(ProgressEvent::Completed)));
    let result = step.outcome.unwrap().unwrap();
    assert_eq!(result.schema_version, "1.0");
    assert_eq!(result.fen, START);
    assert_eq!(result.depth, 10);
    assert_eq!(result.multipv, 2);
    let ranks: Vec<u32> = result.lines.iter().map(|l| l.rank).collect();
    assert_eq!(ranks, vec![1, 2]);
    assert_eq!(result.lines[0].pv_san, vec!["e4", "d5", "exd5"]);
    assert_eq!(result.lines[0].captures.len(), 1);
    assert_eq!(result.lines[0].material_swing.net_for_stm, 1);
    assert_eq!(result.lines[1].pv_san, vec!["d4"]);
}

#[test]
fn cancelling_sends_stop_once_and_drains() {
    let mut search = search(START, 10, 1);
    // Before the search starts there is nothing to stop.
    assert!(search.step(&SearchEvent::Cancelled).send.is_empty());
    search.step(&line("readyok"));
    let step = search.step(&SearchEvent::Cancelled);
    assert_eq!(step.send, vec!["stop"]);
    assert!(step.outcome.is_none());
    assert!(!search.cancellable());
    assert!(search.step(&SearchEvent::Cancelled).send.is_empty());
    let step = search.step(&line("info depth 7 score cp 1 pv e2e4"));
    assert!(step.outcome.is_none());
    let step = search.step(&line("bestmove e2e4"));
    assert!(step.report.is_none());
    assert!(matches!(step.outcome, Some(Err(ChessError::AnalysisCancelled))));
}

#[test]
fn silent_and_closed_engines() {
    let mut a = search(START, 9, 1);
    match a.step(&SearchEvent::TimedOut(5)).outcome {
        Some(Err(ChessError::EngineTimeout { depth, elapsed_ms, partial_available })) => {
            assert_eq!((depth, elapsed_ms, partial_available), (9, ENGINE_TIMEOUT_MS, false));
        }
        other => panic!("expected EngineTimeout, got {:?}", other),
    }
    let mut b = search(START, 9, 1);
    assert!(matches!(
        b.step(&SearchEvent::Closed).outcome,
        Some(Err(ChessError::EngineTimeout { elapsed_ms: 300_000, .. }))
    ));
    let mut c = search(START, 9, 1);
    c.step(&line("readyok"));
    assert!(matches!(
        c.step(&SearchEvent::TimedOut(5)).outcome,
        Some(Err(ChessError::EngineTimeout { elapsed_ms: 5, partial_available: false, .. }))
    ));
    c.step(&line("info depth 1 score cp 1 pv e2e4"));
    assert!(matches!(
        c.step(&SearchEvent::TimedOut(6)).outcome,
        Some(Err(ChessError::EngineTimeout { elapsed_ms: 6, partial_available: true, .. }))
    ));
    match c.step(&SearchEvent::Closed).outcome {
        Some(Err(ChessError::EngineUnavailable { message, expected_path })) => {
            assert_eq!(message, "engine closed unexpectedly");
            assert_eq!(expected_path, "/sf");
        }
        other => panic!("expected EngineUnavailable, got {:?}", other),
    }
}

#[test]
fn a_line_that_cannot_be_replayed_stays_raw() {
    let raw = |moves: &str| -> AnalysisLine {
        parse_info_line(&format!("info depth 3 score cp 1{}", moves)).unwrap().line
    };
    let stuck = enrich_line(START, raw(" pv e2e5"));
    assert_eq!(stuck.pv_uci, vec!["e2e5"]);
    assert!(stuck.pv_san.is_empty());
    let without_moves = enrich_line("no fen", raw(""));
    assert!(without_moves.pv_uci.is_empty());
    let fine = enrich_line(START, raw(" pv g1f3"));
    assert_eq!(fine.pv_san, vec!["Nf3"]);
}

#[test]
fn the_latest_line_of_a_rank_counts() {
    let parsed = |rank: u32, cp: i32| -> AnalysisLine {
        parse_info_line(&format!("info depth 3 multipv {} score cp {}", rank, cp)).unwrap().line
    };
    let mut lines = Vec::new();
    for (rank, cp) in [(3, 30), (1, 10), (2, 20), (1, 11), (7, 70)] {
        put_line(&mut lines, parsed(rank, cp));
    }
    let got: Vec<(u32, Option<i32>)> = lines.iter().map(|l| (l.rank, l.score.cp)).collect();
    assert_eq!(got, vec![(1, Some(11)), (2, Some(20)), (3, Some(30)), (7, Some(70))]);
    assert_eq!(find_line(&lines, 2).unwrap().score.cp, Some(20));
    assert!(find_line(&lines, 4).is_none());
}

#[test]
fn whatever_follows_the_moves_is_a_move() {
    let lines = [
        "info depth 12 seldepth 18 multipv 3 score cp 31 nodes 100 pv e2e4 e7e5",
        " info depth 4 score mate -2 pv e2e4 \t ",
        "info depth 4 pv pv",
        "info depth 4 score cp 3 pv score",
    ];
    for line in lines {
        let before = parse_info_line(line).unwrap();
        for word in ["g1f3", "depth", "score", "pv", "multipv", "\u{2654}"] {
            let after = parse_info_line(&format!("{} {}", line, word)).unwrap();
            let mut wanted = before.clone();
            wanted.line.pv_uci.push(word.to_string());
            assert_eq!((after.depth, after.multipv), (wanted.depth, wanted.multipv));
            assert_eq!(after.line, wanted.line);
        }
    }
    // A no-break space at the end is trimmed, but separates no words.
    let line = "info depth 4 pv e2e4\u{A0}";
    assert_eq!(parse_info_line(line).unwrap().line.pv_uci, vec!["e2e4"]);
    let longer = parse_info_line(&format!("{} e7e5", line)).unwrap();
    assert_eq!(longer.line.pv_uci, vec!["e2e4\u{A0}", "e7e5"]);
}

#[test]
fn clones_keep_what_they_copy() {
    let info = parse_info_line("info depth 3 multipv 2 score cp 1 pv e2e4").unwrap();
    let event = ProgressEvent::DepthComplete { depth: 3, best_line: Some(info.line.clone()) };
    match event.clone() {
        ProgressEvent::DepthComplete { depth: 3, best_line: Some(line) } => {
            assert_eq!(line, info.line)
        }
        other => panic!("expected DepthComplete, got {:?}", other),
    }
    assert!(matches!(ProgressEvent::Completed.clone(), ProgressEvent::Completed));
    let started = ProgressEvent::Started { depth: 9, multipv: 2 };
    assert!(matches!(started.clone(), ProgressEvent::Started { depth: 9, multipv: 2 }));

    let mut engine = Engine::new(PathBuf::from("/sf"));
    engine.started(Running { name: "Fish".to_string(), uci_options: default_uci_options() });
    let status = engine.status().unwrap();
    let copy = status.clone();
    assert_eq!((copy.available, &copy.path, &copy.name), (true, &status.path, &status.name));
    assert_eq!(copy.uci_options, status.uci_options);
}
