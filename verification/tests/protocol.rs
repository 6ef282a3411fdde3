use bernt::uci::{parse, Limits, UciMessage, UciOption, UciPosition};

fn moves_of(message: &Option<UciMessage>) -> Vec<String> {
    match message {
        Some(UciMessage::Position(_, moves)) => moves.clone(),
        _ => panic!("no position"),
    }
}

#[test]
fn the_plain_commands_are_read() {
    assert!(matches!(parse("uci\n"), Some(UciMessage::Uci)));
    assert!(matches!(parse("  isready  "), Some(UciMessage::IsReady)));
    assert!(matches!(parse("ucinewgame"), Some(UciMessage::UciNewGame)));
    assert!(matches!(parse("quit\r\n"), Some(UciMessage::Quit)));
    assert!(matches!(parse("uci extra words"), Some(UciMessage::Uci)));
}

#[test]
fn what_is_no_command_gives_nothing() {
    assert!(parse("").is_none());
    assert!(parse("   \t\n").is_none());
    assert!(parse("ucI").is_none());
    assert!(parse("stop").is_none());
    assert!(parse("position").is_none());
    assert!(parse("position here").is_none());
    assert!(parse("quit\u{e9}").is_none());
}

#[test]
fn a_start_position_with_moves_is_read() {
    let message = parse("position startpos moves e2e4 e7e5 g1f3\n");
    assert!(matches!(message, Some(UciMessage::Position(UciPosition::Startpos, _))));
    assert_eq!(moves_of(&message), vec!["e2e4", "e7e5", "g1f3"]);
    let bare = parse("position startpos");
    assert!(moves_of(&bare).is_empty());
    let other = parse("position startpos e2e4");
    assert!(moves_of(&other).is_empty());
}

#[test]
fn a_position_in_notation_is_read() {
    let message = parse("position fen  8/8/8/8/8/8/6k1/4K2R   w K - 0 1 moves e1g1 g2h2");
    match &message {
        Some(UciMessage::Position(UciPosition::Fen(fen), moves)) => {
            assert_eq!(fen, "8/8/8/8/8/8/6k1/4K2R w K - 0 1");
            assert_eq!(moves, &vec!["e1g1".to_string(), "g2h2".to_string()]);
        }
        _ => panic!("no position"),
    }
    match parse("position fen 8/8/8/8/8/8/8/8 w - -") {
        Some(UciMessage::Position(UciPosition::Fen(fen), moves)) => {
            assert_eq!(fen, "8/8/8/8/8/8/8/8 w - -");
            assert!(moves.is_empty());
        }
        _ => panic!("no position"),
    }
}

#[test]
fn the_limits_of_go_are_read() {
    match parse("go wtime 100 btime 200 winc 3 binc 4 movestogo 7 depth 9") {
        Some(UciMessage::Go(limits)) => assert_eq!(
            limits,
            Limits {
                wtime: Some(100),
                btime: Some(200),
                winc: Some(3),
                binc: Some(4),
                movestogo: Some(7),
                depth: Some(9),
            }
        ),
        _ => panic!("no go"),
    }
    match parse("go") {
        Some(UciMessage::Go(limits)) => assert_eq!(limits.depth, None),
        _ => panic!("no go"),
    }
    assert!(parse("go depth").is_none());
    assert!(parse("go depth 256").is_none());
    assert!(parse("go depth x").is_none());
    assert!(parse("go infinite 1").is_none());
    assert!(parse("go wtime 18446744073709551616").is_none());
    assert!(matches!(
        parse("go wtime 18446744073709551615"),
        Some(UciMessage::Go(Limits { wtime: Some(u64::MAX), .. }))
    ));
}

#[test]
fn perft_and_the_hash_option_are_read() {
    assert!(matches!(parse("perft 5"), Some(UciMessage::Perft(5))));
    assert!(parse("perft").is_none());
    assert!(parse("perft 300").is_none());
    assert!(matches!(
        parse("setoption name Hash value 64"),
        Some(UciMessage::Setoption(UciOption::Hash(64)))
    ));
    assert!(parse("setoption name Threads value 2").is_none());
    assert!(parse("setoption name Hash value").is_none());
    assert!(parse("setoption Hash 64").is_none());
}
