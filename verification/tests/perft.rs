use bernt::movegen::Tables;
use bernt::perft::perft;
use bernt::position::Position;

#[test]
fn startpos_0() {
    assert_eq!(perft(&Tables::new(), &mut Position::startpos(), 0), 1);
}

#[test]
fn startpos_1() {
    assert_eq!(perft(&Tables::new(), &mut Position::startpos(), 1), 20);
}

#[test]
fn startpos_2() {
    assert_eq!(perft(&Tables::new(), &mut Position::startpos(), 2), 400);
}

#[test]
fn startpos_3() {
    assert_eq!(perft(&Tables::new(), &mut Position::startpos(), 3), 8902);
}

#[test]
fn startpos_4() {
    assert_eq!(perft(&Tables::new(), &mut Position::startpos(), 4), 197281);
}

#[test]
fn startpos_5() {
    assert_eq!(perft(&Tables::new(), &mut Position::startpos(), 5), 4865609);
}

#[test]
fn kiwipete_0() {
    assert_eq!(
        perft(
            &Tables::new(),
            &mut Position::from_fen(
                "r3k2r/p1ppqpb1/bn2pnp1/3PN3/1p2P3/2N2Q1p/PPPBBPPP/R3K2R w KQkq -"
            )
            .unwrap(),
            0
        ),
        1
    );
}

#[test]
fn kiwipete_1() {
    assert_eq!(
        perft(
            &Tables::new(),
            &mut Position::from_fen(
                "r3k2r/p1ppqpb1/bn2pnp1/3PN3/1p2P3/2N2Q1p/PPPBBPPP/R3K2R w KQkq -"
            )
            .unwrap(),
            1
        ),
        48
    );
}

#[test]
fn kiwipete_2() {
    assert_eq!(
        perft(
            &Tables::new(),
            &mut Position::from_fen(
                "r3k2r/p1ppqpb1/bn2pnp1/3PN3/1p2P3/2N2Q1p/PPPBBPPP/R3K2R w KQkq -"
            )
            .unwrap(),
            2
        ),
        2039
    );
}

#[test]
fn kiwipete_3() {
    assert_eq!(
        perft(
            &Tables::new(),
            &mut Position::from_fen(
                "r3k2r/p1ppqpb1/bn2pnp1/3PN3/1p2P3/2N2Q1p/PPPBBPPP/R3K2R w KQkq -"
            )
            .unwrap(),
            3
        ),
        97862
    );
}

#[test]
fn kiwipete_4() {
    assert_eq!(
        perft(
            &Tables::new(),
            &mut Position::from_fen(
                "r3k2r/p1ppqpb1/bn2pnp1/3PN3/1p2P3/2N2Q1p/PPPBBPPP/R3K2R w KQkq -"
            )
            .unwrap(),
            4
        ),
        4085603
    );
}

#[test]
fn pos3_0() {
    assert_eq!(
        perft(
            &Tables::new(),
            &mut Position::from_fen("8/2p5/3p4/KP5r/1R3p1k/8/4P1P1/8 w - -").unwrap(),
            0
        ),
        1
    );
}

#[test]
fn pos3_1() {
    assert_eq!(
        perft(
            &Tables::new(),
            &mut Position::from_fen("8/2p5/3p4/KP5r/1R3p1k/8/4P1P1/8 w - -").unwrap(),
            1
        ),
        14
    );
}

#[test]
fn pos3_2() {
    assert_eq!(
        perft(
            &Tables::new(),
            &mut Position::from_fen("8/2p5/3p4/KP5r/1R3p1k/8/4P1P1/8 w - -").unwrap(),
            2
        ),
        191
    );
}

#[test]
fn pos3_3() {
    assert_eq!(
        perft(
            &Tables::new(),
            &mut Position::from_fen("8/2p5/3p4/KP5r/1R3p1k/8/4P1P1/8 w - -").unwrap(),
            3
        ),
        2812
    );
}

#[test]
fn pos3_4() {
    assert_eq!(
        perft(
            &Tables::new(),
            &mut Position::from_fen("8/2p5/3p4/KP5r/1R3p1k/8/4P1P1/8 w - -").unwrap(),
            4
        ),
        43238
    );
}

#[test]
fn pos3_5() {
    assert_eq!(
        perft(
            &Tables::new(),
            &mut Position::from_fen("8/2p5/3p4/KP5r/1R3p1k/8/4P1P1/8 w - -").unwrap(),
            5
        ),
        674624
    );
}

#[test]
fn pos4_0() {
    assert_eq!(
        perft(
            &Tables::new(),
            &mut Position::from_fen(
                "r3k2r/Pppp1ppp/1b3nbN/nP6/BBP1P3/q4N2/Pp1P2PP/R2Q1RK1 w kq - 0 1"
            )
            .unwrap(),
            0
        ),
        1
    );
}

#[test]
fn pos4_1() {
    assert_eq!(
        perft(
            &Tables::new(),
            &mut Position::from_fen(
                "r3k2r/Pppp1ppp/1b3nbN/nP6/BBP1P3/q4N2/Pp1P2PP/R2Q1RK1 w kq - 0 1"
            )
            .unwrap(),
            1
        ),
        6
    );
}

#[test]
fn pos4_2() {
    assert_eq!(
        perft(
            &Tables::new(),
            &mut Position::from_fen(
                "r3k2r/Pppp1ppp/1b3nbN/nP6/BBP1P3/q4N2/Pp1P2PP/R2Q1RK1 w kq - 0 1"
            )
            .unwrap(),
            2
        ),
        264
    );
}

#[test]
fn pos4_3() {
    assert_eq!(
        perft(
            &Tables::new(),
            &mut Position::from_fen(
                "r3k2r/Pppp1ppp/1b3nbN/nP6/BBP1P3/q4N2/Pp1P2PP/R2Q1RK1 w kq - 0 1"
            )
            .unwrap(),
            3
        ),
        9467
    );
}

#[test]
fn pos4_4() {
    assert_eq!(
        perft(
            &Tables::new(),
            &mut Position::from_fen(
                "r3k2r/Pppp1ppp/1b3nbN/nP6/BBP1P3/q4N2/Pp1P2PP/R2Q1RK1 w kq - 0 1"
            )
            .unwrap(),
            4
        ),
        422333
    );
}

#[test]
fn pos5_0() {
    assert_eq!(
        perft(
            &Tables::new(),
            &mut Position::from_fen("rnbq1k1r/pp1Pbppp/2p5/8/2B5/8/PPP1NnPP/RNBQK2R w KQ - 1 8")
                .unwrap(),
            0
        ),
        1
    );
}

#[test]
fn pos5_1() {
    assert_eq!(
        perft(
            &Tables::new(),
            &mut Position::from_fen("rnbq1k1r/pp1Pbppp/2p5/8/2B5/8/PPP1NnPP/RNBQK2R w KQ - 1 8")
                .unwrap(),
            1
        ),
        44
    );
}

#[test]
fn pos5_2() {
    assert_eq!(
        perft(
            &Tables::new(),
            &mut Position::from_fen("rnbq1k1r/pp1Pbppp/2p5/8/2B5/8/PPP1NnPP/RNBQK2R w KQ - 1 8")
                .unwrap(),
            2
        ),
        1486
    );
}

#[test]
fn pos5_3() {
    assert_eq!(
        perft(
            &Tables::new(),
            &mut Position::from_fen("rnbq1k1r/pp1Pbppp/2p5/8/2B5/8/PPP1NnPP/RNBQK2R w KQ - 1 8")
                .unwrap(),
            3
        ),
        62379
    );
}

#[test]
fn pos5_4() {
    assert_eq!(
        perft(
            &Tables::new(),
            &mut Position::from_fen("rnbq1k1r/pp1Pbppp/2p5/8/2B5/8/PPP1NnPP/RNBQK2R w KQ - 1 8")
                .unwrap(),
            4
        ),
        2103487
    );
}

#[test]
fn pos6_0() {
    assert_eq!(
        perft(
            &Tables::new(),
            &mut Position::from_fen(
                "r4rk1/1pp1qppp/p1np1n2/2b1p1B1/2B1P1b1/P1NP1N2/1PP1QPPP/R4RK1 w - - 0 10"
            )
            .unwrap(),
            0
        ),
        1
    );
}

#[test]
fn pos6_1() {
    assert_eq!(
        perft(
            &Tables::new(),
            &mut Position::from_fen(
                "r4rk1/1pp1qppp/p1np1n2/2b1p1B1/2B1P1b1/P1NP1N2/1PP1QPPP/R4RK1 w - - 0 10"
            )
            .unwrap(),
            1
        ),
        46
    );
}

#[test]
fn pos6_2() {
    assert_eq!(
        perft(
            &Tables::new(),
            &mut Position::from_fen(
                "r4rk1/1pp1qppp/p1np1n2/2b1p1B1/2B1P1b1/P1NP1N2/1PP1QPPP/R4RK1 w - - 0 10"
            )
            .unwrap(),
            2
        ),
        2079
    );
}

#[test]
fn pos6_3() {
    assert_eq!(
        perft(
            &Tables::new(),
            &mut Position::from_fen(
                "r4rk1/1pp1qppp/p1np1n2/2b1p1B1/2B1P1b1/P1NP1N2/1PP1QPPP/R4RK1 w - - 0 10"
            )
            .unwrap(),
            3
        ),
        89890
    );
}

#[test]
fn pos6_4() {
    assert_eq!(
        perft(
            &Tables::new(),
            &mut Position::from_fen(
                "r4rk1/1pp1qppp/p1np1n2/2b1p1B1/2B1P1b1/P1NP1N2/1PP1QPPP/R4RK1 w - - 0 10"
            )
            .unwrap(),
            4
        ),
        3894594
    );
}
