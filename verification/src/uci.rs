//! The commands of the protocol, read from one line of text.
use vstd::prelude::*;
use vstd::string::{StrSliceExecFns, StringExecFns};

verus! {

/// Where a game starts.
pub enum UciPosition {
    /// A position in Forsyth-Edwards notation.
    Fen(String),
    Startpos,
}

/// An option that the engine can be given.
pub enum UciOption {
    /// The size of the transposition table in megabytes.
    Hash(usize),
}

/// What `go` limits the search by; an absent limit is `None`.
#[derive(Debug, Clone, Copy, PartialEq, Eq, Structural)]
pub struct Limits {
    pub wtime: Option<u64>,
    pub btime: Option<u64>,
    pub winc: Option<u64>,
    pub binc: Option<u64>,
    pub movestogo: Option<u64>,
    pub depth: Option<u8>,
}

/// A command of the protocol.
pub enum UciMessage {
    Uci,
    IsReady,
    UciNewGame,
    /// The start of a game and the moves played from it, each as the
    /// protocol writes it.
    Position(UciPosition, Vec<String>),
    Go(Limits),
    Perft(u8),
    Quit,
    Setoption(UciOption),
}

/// A command as a value: texts as lists of characters.
pub enum Command {
    Uci,
    IsReady,
    UciNewGame,
    Position { fen: Option<Seq<char>>, moves: Seq<Seq<char>> },
    Go(Limits),
    Perft(u8),
    Quit,
    Hash(usize),
}

impl UciMessage {
    /// The command as a value.
    pub open spec fn command(self) -> Command {
        match self {
            UciMessage::Uci => Command::Uci,
            UciMessage::IsReady => Command::IsReady,
            UciMessage::UciNewGame => Command::UciNewGame,
            UciMessage::Position(UciPosition::Fen(fen), moves) => Command::Position {
                fen: Some(fen@),
                moves: moves@.map_values(|m: String| m@),
            },
            UciMessage::Position(UciPosition::Startpos, moves) => Command::Position {
                fen: None,
                moves: moves@.map_values(|m: String| m@),
            },
            UciMessage::Go(limits) => Command::Go(limits),
            UciMessage::Perft(depth) => Command::Perft(depth),
            UciMessage::Quit => Command::Quit,
            UciMessage::Setoption(UciOption::Hash(size)) => Command::Hash(size),
        }
    }
}

/// A blank, a tab, a line feed, a vertical tab, a form feed or a carriage return.
pub open spec fn is_space(c: char) -> bool {
    c == ' ' || c == '\t' || c == '\n' || c == '\r' || c == '\x0b' || c == '\x0c'
}

/// The words of `s` from index `i` on, as pairs of a first index and an
/// end, where `start` is the first index of a word that has begun. A word
/// is a longest run of characters that are no spaces.
pub open spec fn words_from(s: Seq<char>, i: int, start: int) -> Seq<(int, int)>
    decreases s.len() - i,
{
    if i >= s.len() {
        if start < i {
            seq![(start, i)]
        } else {
            Seq::empty()
        }
    } else if is_space(s[i]) {
        (if start < i {
            seq![(start, i)]
        } else {
            Seq::empty()
        }) + words_from(s, i + 1, i + 1)
    } else {
        words_from(s, i + 1, start)
    }
}

/// The words of a line.
pub open spec fn words(s: Seq<char>) -> Seq<Seq<char>> {
    words_from(s, 0, 0).map_values(|r: (int, int)| s.subrange(r.0, r.1))
}

/// The number that decimal digits write, read from the left with `acc` read
/// so far; `None` where a character is no digit or the number is beyond 64 bits.
pub open spec fn number_from(w: Seq<char>, i: int, acc: int) -> Option<u64>
    decreases w.len() - i,
{
    if i >= w.len() {
        Some(acc as u64)
    } else if '0' <= w[i] <= '9' && acc * 10 + (w[i] as u8 - 48) <= u64::MAX {
        number_from(w, i + 1, acc * 10 + (w[i] as u8 - 48))
    } else {
        None
    }
}

/// The number that a word writes; `None` for the empty word.
pub open spec fn number(w: Seq<char>) -> Option<u64> {
    if w.len() == 0 {
        None
    } else {
        number_from(w, 0, 0)
    }
}

/// The words from index `i` on, joined by single blanks, up to the word
/// `moves` or the end.
pub open spec fn fen_text(ws: Seq<Seq<char>>, i: int, acc: Seq<char>) -> Seq<char>
    decreases ws.len() - i,
{
    if i >= ws.len() || ws[i] == "moves"@ {
        acc
    } else if acc.len() == 0 {
        fen_text(ws, i + 1, ws[i])
    } else {
        fen_text(ws, i + 1, acc + seq![' '] + ws[i])
    }
}

/// The index of the first word `moves` from index `i` on; the number of
/// words where there is none.
pub open spec fn moves_at(ws: Seq<Seq<char>>, i: int) -> int
    decreases ws.len() - i,
{
    if i >= ws.len() {
        ws.len() as int
    } else if ws[i] == "moves"@ {
        i
    } else {
        moves_at(ws, i + 1)
    }
}

/// The limits that the words from index `i` on add to `acc`: each is a name
/// followed by a number. `None` for a name that is not known, a name without
/// a number, or a depth beyond 255.
pub open spec fn limits_from(ws: Seq<Seq<char>>, i: int, acc: Limits) -> Option<Limits>
    decreases ws.len() - i,
{
    if i >= ws.len() {
        Some(acc)
    } else if i + 1 >= ws.len() {
        None
    } else {
        match number(ws[i + 1]) {
            None => None,
            Some(n) => {
                if ws[i] == "wtime"@ {
                    limits_from(ws, i + 2, Limits { wtime: Some(n), ..acc })
                } else if ws[i] == "btime"@ {
                    limits_from(ws, i + 2, Limits { btime: Some(n), ..acc })
                } else if ws[i] == "winc"@ {
                    limits_from(ws, i + 2, Limits { winc: Some(n), ..acc })
                } else if ws[i] == "binc"@ {
                    limits_from(ws, i + 2, Limits { binc: Some(n), ..acc })
                } else if ws[i] == "movestogo"@ {
                    limits_from(ws, i + 2, Limits { movestogo: Some(n), ..acc })
                } else if ws[i] == "depth"@ && n <= 255 {
                    limits_from(ws, i + 2, Limits { depth: Some(n as u8), ..acc })
                } else {
                    None
                }
            },
        }
    }
}

/// No limits.
pub open spec fn no_limits() -> Limits {
    Limits { wtime: None, btime: None, winc: None, binc: None, movestogo: None, depth: None }
}

/// The command that the words of a line give:
/// `uci`, `isready`, `ucinewgame` and `quit` by their first word;
/// `position startpos [moves ...]` and `position fen <text> [moves ...]`;
/// `go` with its limits; `perft <depth>`; `setoption name Hash value <size>`.
/// Every other line gives `None`.
pub open spec fn command_of(ws: Seq<Seq<char>>) -> Option<Command> {
    if ws.len() == 0 {
        None
    } else if ws[0] == "uci"@ {
        Some(Command::Uci)
    } else if ws[0] == "isready"@ {
        Some(Command::IsReady)
    } else if ws[0] == "ucinewgame"@ {
        Some(Command::UciNewGame)
    } else if ws[0] == "quit"@ {
        Some(Command::Quit)
    } else if ws[0] == "position"@ {
        if ws.len() < 2 {
            None
        } else if ws[1] == "startpos"@ {
            Some(
                Command::Position {
                    fen: None,
                    moves: if ws.len() >= 3 && ws[2] == "moves"@ {
                        ws.skip(3)
                    } else {
                        Seq::empty()
                    },
                },
            )
        } else if ws[1] == "fen"@ {
            Some(
                Command::Position {
                    fen: Some(fen_text(ws, 2, Seq::empty())),
                    moves: if moves_at(ws, 2) < ws.len() {
                        ws.skip(moves_at(ws, 2) + 1)
                    } else {
                        Seq::empty()
                    },
                },
            )
        } else {
            None
        }
    } else if ws[0] == "perft"@ {
        if ws.len() >= 2 && number(ws[1]).is_some() && number(ws[1]).unwrap() <= 255 {
            Some(Command::Perft(number(ws[1]).unwrap() as u8))
        } else {
            None
        }
    } else if ws[0] == "go"@ {
        match limits_from(ws, 1, no_limits()) {
            Some(limits) => Some(Command::Go(limits)),
            None => None,
        }
    } else if ws[0] == "setoption"@ {
        if ws.len() >= 5 && ws[1] == "name"@ && ws[2] == "Hash"@ && ws[3] == "value"@ && number(
            ws[4],
        ).is_some() && number(ws[4]).unwrap() <= usize::MAX {
            Some(Command::Hash(number(ws[4]).unwrap() as usize))
        } else {
            None
        }
    } else {
        None
    }
}

/// The command that a line gives; `None` for a line that is not plain ASCII.
pub open spec fn parse_spec(line: &str) -> Option<Command> {
    if vstd::string::is_ascii(line) {
        command_of(words(line@))
    } else {
        None
    }
}

/// Splits a line of plain ASCII into its words.
fn split_words<'a>(line: &'a str) -> (ws: Vec<&'a str>)
    requires
        vstd::string::is_ascii(line),
    ensures
        ws@.len() == words(line@).len(),
        forall|k: int| 0 <= k < ws@.len() ==> (#[trigger] ws@[k])@ == words(line@)[k],
        forall|k: int| 0 <= k < ws@.len() ==> vstd::string::is_ascii(#[trigger] ws@[k]),
{
    let n: usize = line.unicode_len();
    let mut ws: Vec<&'a str> = Vec::new();
    let mut start: usize = 0;
    let mut i: usize = 0;
    let ghost mut done: Seq<(int, int)> = Seq::empty();
    while i < n
        invariant
            n == line@.len(),
            vstd::string::is_ascii(line),
            start <= i <= n,
            done.len() == ws@.len(),
            forall|k: int|
                0 <= k < ws@.len() ==> (#[trigger] ws@[k])@ == line@.subrange(done[k].0, done[k].1)
                    && vstd::string::is_ascii(ws@[k]),
            done + words_from(line@, i as int, start as int) == words_from(line@, 0, 0),
        decreases n - i,
    {
        let c: char = line.get_char(i);
        if c == ' ' || c == '\t' || c == '\n' || c == '\r' || c == '\x0b' || c == '\x0c' {
            if start < i {
                proof {
                    assert(done.push((start as int, i as int)) + words_from(line@, i + 1, i + 1) =~= done
                        + words_from(line@, i as int, start as int));
                    done = done.push((start as int, i as int));
                }
                ws.push(line.substring_ascii(start, i));
            } else {
                proof {
                    assert(done + words_from(line@, i + 1, i + 1) =~= done + words_from(
                        line@,
                        i as int,
                        start as int,
                    ));
                }
            }
            start = i + 1;
        }
        i = i + 1;
    }
    if start < i {
        proof {
            assert(done.push((start as int, i as int)) =~= done + words_from(
                line@,
                i as int,
                start as int,
            ));
            done = done.push((start as int, i as int));
        }
        ws.push(line.substring_ascii(start, i));
    } else {
        proof {
            assert(done =~= done + words_from(line@, i as int, start as int));
        }
    }
    proof {
        assert(done == words_from(line@, 0, 0));
    }
    ws
}

/// Whether a word is the given one.
fn word_is(w: &str, wanted: &str) -> (r: bool)
    ensures
        r == (w@ == wanted@),
{
    let a: String = String::from_str(w);
    let b: String = String::from_str(wanted);
    a == b
}

/// The number that a word writes.
fn read_number(w: &str) -> (r: Option<u64>)
    ensures
        r == number(w@),
{
    let n: usize = w.unicode_len();
    if n == 0 {
        return None;
    }
    let mut acc: u64 = 0;
    let mut i: usize = 0;
    while i < n
        invariant
            n == w@.len(),
            i <= n,
            number_from(w@, i as int, acc as int) == number_from(w@, 0, 0),
        decreases n - i,
    {
        let c: char = w.get_char(i);
        if '0' <= c && c <= '9' {
            let d: u64 = (c as u8 - 48) as u64;
            if acc <= (u64::MAX - d) / 10 {
                acc = acc * 10 + d;
            } else {
                return None;
            }
        } else {
            return None;
        }
        i = i + 1;
    }
    Some(acc)
}

/// The words from index `from` on, each as a text of its own.
fn owned_words(ws: &Vec<&str>, from: usize) -> (r: Vec<String>)
    requires
        from <= ws@.len(),
    ensures
        r@.map_values(|m: String| m@) == ws@.map_values(|w: &str| w@).skip(from as int),
{
    let mut out: Vec<String> = Vec::new();
    let mut i: usize = from;
    let ghost all = ws@.map_values(|w: &str| w@);
    if from >= ws.len() {
        assert(out@.map_values(|m: String| m@) =~= all.skip(from as int));
        return out;
    }
    while i < ws.len()
        invariant
            from <= i <= ws@.len(),
            all == ws@.map_values(|w: &str| w@),
            out@.map_values(|m: String| m@) == all.subrange(from as int, i as int),
        decreases ws@.len() - i,
    {
        let ghost before = out@.map_values(|m: String| m@);
        out.push(String::from_str(ws[i]));
        assert(out@.map_values(|m: String| m@) =~= before.push(all[i as int]));
        assert(all.subrange(from as int, i + 1) =~= all.subrange(from as int, i as int).push(
            all[i as int],
        ));
        i = i + 1;
    }
    assert(all.subrange(from as int, i as int) =~= all.skip(from as int));
    out
}

/// The words of a position in Forsyth-Edwards notation, joined by blanks,
/// and the index of the word `moves` after them.
fn read_fen(ws: &Vec<&str>) -> (r: (String, usize))
    requires
        ws@.len() >= 2,
    ensures
        r.0@ == fen_text(ws@.map_values(|w: &str| w@), 2, Seq::empty()),
        r.1 == moves_at(ws@.map_values(|w: &str| w@), 2),
        2 <= r.1 <= ws@.len(),
{
    let ghost all = ws@.map_values(|w: &str| w@);
    let mut fen: String = String::new();
    let mut i: usize = 2;
    let mut found: bool = false;
    proof {
        reveal_strlit(" ");
    }
    while i < ws.len() && !found
        invariant
            2 <= i <= ws@.len(),
            all == ws@.map_values(|w: &str| w@),
            " "@ == seq![' '],
            !found ==> fen_text(all, i as int, fen@) == fen_text(all, 2, Seq::empty()),
            !found ==> moves_at(all, i as int) == moves_at(all, 2),
            found ==> fen@ == fen_text(all, 2, Seq::empty()) && i == moves_at(all, 2),
        decreases ws@.len() - i + (if found { 0int } else { 1int }),
    {
        assert(all[i as int] == ws@[i as int]@);
        if word_is(ws[i], "moves") {
            found = true;
        } else {
            if fen.as_str().unicode_len() == 0 {
                fen = String::from_str(ws[i]);
            } else {
                fen.append(" ");
                fen.append(ws[i]);
            }
            i = i + 1;
        }
    }
    (fen, i)
}

/// The limits that the words after `go` give.
fn read_limits(ws: &Vec<&str>) -> (r: Option<Limits>)
    requires
        ws@.len() >= 1,
    ensures
        r == limits_from(ws@.map_values(|w: &str| w@), 1, no_limits()),
{
    let ghost all = ws@.map_values(|w: &str| w@);
    let mut acc = Limits {
        wtime: None,
        btime: None,
        winc: None,
        binc: None,
        movestogo: None,
        depth: None,
    };
    let mut i: usize = 1;
    while i < ws.len()
        invariant
            1 <= i <= ws@.len() + 1,
            all == ws@.map_values(|w: &str| w@),
            limits_from(all, i as int, acc) == limits_from(all, 1, no_limits()),
        decreases ws@.len() + 1 - i,
    {
        if i + 1 >= ws.len() {
            return None;
        }
        assert(all[i as int] == ws@[i as int]@);
        assert(all[i + 1] == ws@[i + 1]@);
        let n: u64 = match read_number(ws[i + 1]) {
            None => {
                return None;
            },
            Some(n) => n,
        };
        if word_is(ws[i], "wtime") {
            acc = Limits { wtime: Some(n), ..acc };
        } else if word_is(ws[i], "btime") {
            acc = Limits { btime: Some(n), ..acc };
        } else if word_is(ws[i], "winc") {
            acc = Limits { winc: Some(n), ..acc };
        } else if word_is(ws[i], "binc") {
            acc = Limits { binc: Some(n), ..acc };
        } else if word_is(ws[i], "movestogo") {
            acc = Limits { movestogo: Some(n), ..acc };
        } else if word_is(ws[i], "depth") && n <= 255 {
            acc = Limits { depth: Some(n as u8), ..acc };
        } else {
            return None;
        }
        i = i + 2;
    }
    Some(acc)
}

/// Reads one line of the protocol.
pub fn parse(line: &str) -> (r: Option<UciMessage>)
    ensures
        match r {
            Some(message) => parse_spec(line) == Some(message.command()),
            None => parse_spec(line).is_none(),
        },
{
    if !line.is_ascii() {
        return None;
    }
    let ws: Vec<&str> = split_words(line);
    let ghost all = ws@.map_values(|w: &str| w@);
    assert(all =~= words(line@));
    if ws.len() == 0 {
        return None;
    }
    assert(all[0] == ws@[0]@);
    if word_is(ws[0], "uci") {
        Some(UciMessage::Uci)
    } else if word_is(ws[0], "isready") {
        Some(UciMessage::IsReady)
    } else if word_is(ws[0], "ucinewgame") {
        Some(UciMessage::UciNewGame)
    } else if word_is(ws[0], "quit") {
        Some(UciMessage::Quit)
    } else if word_is(ws[0], "position") {
        if ws.len() < 2 {
            return None;
        }
        assert(all[1] == ws@[1]@);
        if word_is(ws[1], "startpos") {
            let moves: Vec<String> = if ws.len() >= 3 && word_is(ws[2], "moves") {
                owned_words(&ws, 3)
            } else {
                Vec::new()
            };
            proof {
                if ws@.len() >= 3 {
                    assert(all[2] == ws@[2]@);
                }
                if !(ws@.len() >= 3 && all[2] == "moves"@) {
                    assert(moves@.map_values(|m: String| m@) =~= Seq::<Seq<char>>::empty());
                }
            }
            Some(UciMessage::Position(UciPosition::Startpos, moves))
        } else if word_is(ws[1], "fen") {
            let (fen, at) = read_fen(&ws);
            let moves: Vec<String> = if at < ws.len() {
                owned_words(&ws, at + 1)
            } else {
                Vec::new()
            };
            proof {
                if !(at < ws@.len()) {
                    assert(moves@.map_values(|m: String| m@) =~= Seq::<Seq<char>>::empty());
                }
            }
            Some(UciMessage::Position(UciPosition::Fen(fen), moves))
        } else {
            None
        }
    } else if word_is(ws[0], "perft") {
        if ws.len() < 2 {
            return None;
        }
        assert(all[1] == ws@[1]@);
        match read_number(ws[1]) {
            Some(n) => if n <= 255 {
                Some(UciMessage::Perft(n as u8))
            } else {
                None
            },
            None => None,
        }
    } else if word_is(ws[0], "go") {
        match read_limits(&ws) {
            Some(limits) => Some(UciMessage::Go(limits)),
            None => None,
        }
    } else if word_is(ws[0], "setoption") {
        if ws.len() < 5 {
            return None;
        }
        assert(all[1] == ws@[1]@);
        assert(all[2] == ws@[2]@);
        assert(all[3] == ws@[3]@);
        assert(all[4] == ws@[4]@);
        if word_is(ws[1], "name") && word_is(ws[2], "Hash") && word_is(ws[3], "value") {
            match read_number(ws[4]) {
                Some(n) => if n <= usize::MAX as u64 {
                    Some(UciMessage::Setoption(UciOption::Hash(n as usize)))
                } else {
                    None
                },
                None => None,
            }
        } else {
            None
        }
    } else {
        None
    }
}

} // verus!
