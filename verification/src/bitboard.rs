//! Sixty-four-bit boards: one bit per square, a1 = bit 0, h8 = bit 63.
//!
//! Contracts speak of a board as a set of squares through [`holds`]; the
//! lemmas of this module carry the machine operators over to that reading.
use vstd::prelude::*;

verus! {

/// The squares of each file, from a to h.
pub const FILE_A: u64 = 0x0101010101010101;

pub const FILE_B: u64 = 0x0202020202020202;

pub const FILE_C: u64 = 0x0404040404040404;

pub const FILE_D: u64 = 0x0808080808080808;

pub const FILE_E: u64 = 0x1010101010101010;

pub const FILE_F: u64 = 0x2020202020202020;

pub const FILE_G: u64 = 0x4040404040404040;

pub const FILE_H: u64 = 0x8080808080808080;

/// The squares of each rank, from the first to the eighth.
pub const RANK_1: u64 = 0x00000000000000ff;

pub const RANK_2: u64 = 0x000000000000ff00;

pub const RANK_3: u64 = 0x0000000000ff0000;

pub const RANK_4: u64 = 0x00000000ff000000;

pub const RANK_5: u64 = 0x000000ff00000000;

pub const RANK_6: u64 = 0x0000ff0000000000;

pub const RANK_7: u64 = 0x00ff000000000000;

pub const RANK_8: u64 = 0xff00000000000000;

/// The board that holds the single square `sq`.
pub open spec fn bit(sq: u8) -> u64 {
    1u64 << sq
}

/// Whether square `sq` is a member of board `b`.
pub open spec fn holds(b: u64, sq: u8) -> bool {
    b & bit(sq) != 0
}

/// The squares of `b` below `n`, in ascending order.
pub open spec fn squares_below(b: u64, n: nat) -> Seq<u8>
    decreases n,
{
    if n == 0 {
        Seq::empty()
    } else {
        let rest = squares_below(b, (n - 1) as nat);
        if holds(b, (n - 1) as u8) {
            rest.push((n - 1) as u8)
        } else {
            rest
        }
    }
}

/// The squares of `b`, in ascending order.
pub open spec fn squares(b: u64) -> Seq<u8> {
    squares_below(b, 64)
}

/// The board of the squares below `n` that satisfy `p`.
pub open spec fn board_below(p: spec_fn(u8) -> bool, n: nat) -> u64
    decreases n,
{
    if n == 0 {
        0
    } else if p((n - 1) as u8) {
        board_below(p, (n - 1) as nat) | bit((n - 1) as u8)
    } else {
        board_below(p, (n - 1) as nat)
    }
}

/// The board of the squares that satisfy `p`.
pub open spec fn board_of(p: spec_fn(u8) -> bool) -> u64 {
    board_below(p, 64)
}

/// Membership after `|`, `&`, `!` and `^`.
pub proof fn lemma_holds_ops(a: u64, b: u64, k: u8)
    requires
        k < 64,
    ensures
        holds(a | b, k) == (holds(a, k) || holds(b, k)),
        holds(a & b, k) == (holds(a, k) && holds(b, k)),
        holds(a ^ b, k) == (holds(a, k) != holds(b, k)),
        holds(!a, k) == !holds(a, k),
        !holds(0, k),
{
    assert({
        &&& ((a | b) & (1u64 << k) != 0) == ((a & (1u64 << k) != 0) || (b & (1u64 << k) != 0))
        &&& ((a & b) & (1u64 << k) != 0) == ((a & (1u64 << k) != 0) && (b & (1u64 << k) != 0))
        &&& ((a ^ b) & (1u64 << k) != 0) == ((a & (1u64 << k) != 0) != (b & (1u64 << k) != 0))
        &&& ((!a) & (1u64 << k) != 0) == !(a & (1u64 << k) != 0)
        &&& 0u64 & (1u64 << k) == 0
    }) by (bit_vector)
        requires
            k < 64,
    ;
}

/// The union of two boards does not depend on their order.
pub proof fn lemma_or_commutes(a: u64, b: u64)
    ensures
        a | b == b | a,
{
    assert(a | b == b | a) by (bit_vector);
}

/// A single-square board holds that square and no other.
pub proof fn lemma_holds_bit(a: u8, k: u8)
    requires
        a < 64,
        k < 64,
    ensures
        holds(bit(a), k) == (a == k),
        bit(a) != 0,
{
    assert(((1u64 << a) & (1u64 << k) != 0) == (a == k) && (1u64 << a) != 0) by (bit_vector)
        requires
            a < 64,
            k < 64,
    ;
}

/// Two boards with the same members are the same board.
pub proof fn lemma_board_ext(a: u64, b: u64)
    requires
        forall|k: u8| k < 64 ==> holds(a, k) == holds(b, k),
    ensures
        a == b,
{
    if a != b {
        let d = a ^ b;
        assert(d != 0) by (bit_vector)
            requires
                d == a ^ b,
                a != b,
        ;
        vstd::std_specs::bits::axiom_u64_trailing_zeros(d);
        let t: u64 = vstd::std_specs::bits::u64_trailing_zeros(d) as u64;
        let k: u8 = t as u8;
        assert((d >> t) & 1u64 == 1u64);
        assert(d & (1u64 << k) != 0) by (bit_vector)
            requires
                (d >> t) & 1u64 == 1u64,
                t < 64,
                k == t,
        ;
        lemma_holds_ops(a, b, k);
        assert(holds(d, k));
        assert(false);
    }
}

/// A board built from a predicate holds the squares below the bound that satisfy it.
pub proof fn lemma_board_below(p: spec_fn(u8) -> bool, n: nat, k: u8)
    requires
        n <= 64,
        k < 64,
    ensures
        holds(board_below(p, n), k) == (k < n && p(k)),
    decreases n,
{
    if n == 0 {
        lemma_holds_ops(0, 0, k);
    } else {
        lemma_board_below(p, (n - 1) as nat, k);
        lemma_holds_ops(board_below(p, (n - 1) as nat), bit((n - 1) as u8), k);
        lemma_holds_bit((n - 1) as u8, k);
    }
}

/// A board whose members are the squares that satisfy `p` is the board of `p`.
pub proof fn lemma_board_of(b: u64, p: spec_fn(u8) -> bool)
    requires
        forall|k: u8| k < 64 ==> holds(b, k) == p(k),
    ensures
        b == board_of(p),
{
    assert forall|k: u8| k < 64 implies holds(b, k) == holds(board_of(p), k) by {
        lemma_board_below(p, 64, k);
    }
    lemma_board_ext(b, board_of(p));
}

/// Membership after a shift by one rank or one file, as the four directional
/// shifts compute it.
pub proof fn lemma_holds_shift(x: u64, k: u8)
    requires
        k < 64,
    ensures
        holds((x & !RANK_8) << 8, k) == (k >= 8 && holds(x, (k - 8) as u8)),
        holds((x & !RANK_1) >> 8, k) == (k < 56 && holds(x, (k + 8) as u8)),
        holds((x & !FILE_H) << 1, k) == (k % 8 != 0 && holds(x, (k - 1) as u8)),
        holds((x & !FILE_A) >> 1, k) == (k % 8 != 7 && holds(x, (k + 1) as u8)),
{
    assert({
        &&& ((((x & !0xff00000000000000u64) << 8) & (1u64 << k)) != 0) == (k >= 8 && (x & (1u64 << ((k
            - 8) as u8))) != 0)
        &&& ((((x & !0x00000000000000ffu64) >> 8) & (1u64 << k)) != 0) == (k < 56 && (x & (1u64 << ((k
            + 8) as u8))) != 0)
        &&& ((((x & !0x8080808080808080u64) << 1) & (1u64 << k)) != 0) == (k % 8 != 0 && (x & (1u64
            << ((k - 1) as u8))) != 0)
        &&& ((((x & !0x0101010101010101u64) >> 1) & (1u64 << k)) != 0) == (k % 8 != 7 && (x & (1u64
            << ((k + 1) as u8))) != 0)
    }) by (bit_vector)
        requires
            k < 64,
    ;
}

/// Where `b` has no square from `lo` up to `hi`, the lists below both agree.
pub proof fn lemma_squares_below_gap(b: u64, lo: nat, hi: nat)
    requires
        lo <= hi <= 64,
        forall|k: u8| lo <= k < hi ==> !holds(b, k),
    ensures
        squares_below(b, hi) == squares_below(b, lo),
    decreases hi,
{
    if hi > lo {
        lemma_squares_below_gap(b, lo, (hi - 1) as nat);
    }
}

/// Every listed square is a member below the bound, and every such member is listed.
pub proof fn lemma_squares_below_members(b: u64, n: nat)
    requires
        n <= 64,
    ensures
        forall|i: int|
            0 <= i < squares_below(b, n).len() ==> (#[trigger] squares_below(b, n)[i]) < n && holds(
                b,
                squares_below(b, n)[i],
            ),
        forall|k: u8| k < n && holds(b, k) ==> squares_below(b, n).contains(k),
        squares_below(b, n).len() <= n,
    decreases n,
{
    if n > 0 {
        let rest = squares_below(b, (n - 1) as nat);
        lemma_squares_below_members(b, (n - 1) as nat);
        let last = (n - 1) as u8;
        if holds(b, last) {
            let s = rest.push(last);
            assert(s[s.len() - 1] == last);
            assert forall|k: u8| k < n && holds(b, k) implies s.contains(k) by {
                if k == last {
                    assert(s[s.len() - 1] == k);
                } else {
                    let i = choose|i: int| 0 <= i < rest.len() && rest[i] == k;
                    assert(s[i] == k);
                }
            }
        }
    }
}

/// The empty board has no squares to list.
pub proof fn lemma_squares_empty(n: nat)
    requires
        n <= 64,
    ensures
        squares_below(0, n) == Seq::<u8>::empty(),
    decreases n,
{
    if n > 0 {
        lemma_squares_empty((n - 1) as nat);
        lemma_holds_ops(0, 0, (n - 1) as u8);
    }
}

/// Membership after a plain shift by `n` places.
pub proof fn lemma_holds_plain_shift(x: u64, n: u8, k: u8)
    requires
        n < 64,
        k < 64,
    ensures
        holds(x << n, k) == (k >= n && holds(x, (k - n) as u8)),
        holds(x >> n, k) == (k + n < 64 && holds(x, (k + n) as u8)),
{
    assert({
        &&& (((x << n) & (1u64 << k)) != 0) == (k >= n && (x & (1u64 << ((k - n) as u8))) != 0)
        &&& (((x >> n) & (1u64 << k)) != 0) == (k + n < 64 && (x & (1u64 << ((k + n) as u8))) != 0)
    }) by (bit_vector)
        requires
            n < 64,
            k < 64,
    ;
}

/// The lowest square of a board; 64 for the empty board.
pub open spec fn lowest(x: u64) -> u8 {
    vstd::std_specs::bits::u64_trailing_zeros(x) as u8
}

/// The list of the squares of a board ascends, and stays below the bound.
pub proof fn lemma_squares_ascend(b: u64, n: nat)
    requires
        n <= 64,
    ensures
        forall|i: int, j: int|
            0 <= i < j < squares_below(b, n).len() ==> #[trigger] squares_below(b, n)[i]
                < #[trigger] squares_below(b, n)[j],
        forall|i: int| 0 <= i < squares_below(b, n).len() ==> #[trigger] squares_below(b, n)[i] < n,
    decreases n,
{
    if n > 0 {
        lemma_squares_ascend(b, (n - 1) as nat);
        let rest = squares_below(b, (n - 1) as nat);
        let s = squares_below(b, n);
        assert forall|i: int| 0 <= i < s.len() implies #[trigger] s[i] < n by {
            if i < rest.len() {
                assert(s[i] == rest[i]);
            }
        }
        assert forall|i: int, j: int| 0 <= i < j < s.len() implies #[trigger] s[i] < #[trigger] s[j] by {
            assert(s[i] == rest[i]);
            if j < rest.len() {
                assert(s[j] == rest[j]);
            } else {
                assert(s[j] == (n - 1) as u8);
            }
        }
    }
}

/// One rank up; squares of the eighth rank fall off.
pub fn north(x: u64) -> (r: u64)
    ensures
        r == (x & !RANK_8) << 8,
        forall|k: u8| k < 64 ==> holds(r, k) == (k >= 8 && holds(x, (k - 8) as u8)),
{
    let r: u64 = (x & !RANK_8) << 8;
    proof {
        assert forall|k: u8| k < 64 implies holds(r, k) == (k >= 8 && holds(x, (k - 8) as u8)) by {
            lemma_holds_shift(x, k);
        }
    }
    r
}

/// One rank down; squares of the first rank fall off.
pub fn south(x: u64) -> (r: u64)
    ensures
        r == (x & !RANK_1) >> 8,
        forall|k: u8| k < 64 ==> holds(r, k) == (k < 56 && holds(x, (k + 8) as u8)),
{
    let r: u64 = (x & !RANK_1) >> 8;
    proof {
        assert forall|k: u8| k < 64 implies holds(r, k) == (k < 56 && holds(x, (k + 8) as u8)) by {
            lemma_holds_shift(x, k);
        }
    }
    r
}

/// One file towards the h-file; squares of the h-file fall off.
pub fn east(x: u64) -> (r: u64)
    ensures
        r == (x & !FILE_H) << 1,
        forall|k: u8| k < 64 ==> holds(r, k) == (k % 8 != 0 && holds(x, (k - 1) as u8)),
{
    let r: u64 = (x & !FILE_H) << 1;
    proof {
        assert forall|k: u8| k < 64 implies holds(r, k) == (k % 8 != 0 && holds(x, (k - 1) as u8)) by {
            lemma_holds_shift(x, k);
        }
    }
    r
}

/// One file towards the a-file; squares of the a-file fall off.
pub fn west(x: u64) -> (r: u64)
    ensures
        r == (x & !FILE_A) >> 1,
        forall|k: u8| k < 64 ==> holds(r, k) == (k % 8 != 7 && holds(x, (k + 1) as u8)),
{
    let r: u64 = (x & !FILE_A) >> 1;
    proof {
        assert forall|k: u8| k < 64 implies holds(r, k) == (k % 8 != 7 && holds(x, (k + 1) as u8)) by {
            lemma_holds_shift(x, k);
        }
    }
    r
}

/// The board of one square.
pub fn square_bit(sq: u8) -> (r: u64)
    requires
        sq < 64,
    ensures
        r == bit(sq),
        r != 0,
{
    proof {
        lemma_holds_bit(sq, sq);
    }
    1u64 << sq
}

/// Whether `sq` is on the board `b`.
pub fn is_set(b: u64, sq: u8) -> (r: bool)
    requires
        sq < 64,
    ensures
        r == holds(b, sq),
{
    b & (1u64 << sq) != 0
}

/// The lowest square of a board that is not empty.
pub fn lsb(x: u64) -> (sq: u8)
    requires
        x != 0,
    ensures
        sq == lowest(x),
        sq < 64,
        holds(x, sq),
        forall|k: u8| k < sq ==> !holds(x, k),
{
    proof {
        vstd::std_specs::bits::axiom_u64_trailing_zeros(x);
    }
    let t: u32 = x.trailing_zeros();
    let sq: u8 = t as u8;
    proof {
        let tz: u64 = t as u64;
        assert((x >> tz) & 1u64 == 1u64);
        assert(x & (1u64 << sq) != 0) by (bit_vector)
            requires
                (x >> tz) & 1u64 == 1u64,
                tz < 64,
                sq == tz,
        ;
        assert forall|k: u8| k < sq implies !holds(x, k) by {
            let kk: u64 = k as u64;
            assert((x >> kk) & 1u64 == 0u64);
            assert(x & (1u64 << k) == 0) by (bit_vector)
                requires
                    (x >> kk) & 1u64 == 0u64,
                    kk < 64,
                    k == kk,
            ;
        }
    }
    sq
}

/// The board without its lowest square.
pub fn reset_lsb(x: u64) -> (r: u64)
    requires
        x != 0,
    ensures
        r == x & ((x - 1) as u64),
        forall|k: u8| k < 64 ==> holds(r, k) == (holds(x, k) && !(forall|j: u8| j < k ==> !holds(x, j))),
        r < x,
{
    let r: u64 = x & (x - 1);
    proof {
        assert(r < x) by (bit_vector)
            requires
                x != 0,
                r == x & ((x - 1) as u64),
        ;
        vstd::std_specs::bits::axiom_u64_trailing_zeros(x);
        let tz: u64 = vstd::std_specs::bits::u64_trailing_zeros(x) as u64;
        let low: u8 = tz as u8;
        assert((x >> tz) & 1u64 == 1u64);
        assert(tz > 0 ==> x << ((64 - tz) as u64) == 0);
        assert(r == x ^ (1u64 << low) && x & (1u64 << low) != 0) by (bit_vector)
            requires
                (x >> tz) & 1u64 == 1u64,
                tz > 0 ==> x << ((64 - tz) as u64) == 0,
                tz < 64,
                low == tz,
                r == x & ((x - 1) as u64),
        ;
        assert forall|j: u8| j < low implies !holds(x, j) by {
            let jj: u64 = j as u64;
            assert((x >> jj) & 1u64 == 0u64);
            assert(x & (1u64 << j) == 0) by (bit_vector)
                requires
                    (x >> jj) & 1u64 == 0u64,
                    jj < 64,
                    j == jj,
            ;
        }
        assert forall|k: u8| k < 64 implies holds(r, k) == (holds(x, k) && !(forall|j: u8|
            j < k ==> !holds(x, j))) by {
            lemma_holds_ops(x, bit(low), k);
            lemma_holds_bit(low, k);
            if k == low {
            } else if k < low {
            } else {
                assert(low < k && holds(x, low));
            }
        }
    }
    r
}

/// Walks the squares of a board from the lowest up.
pub struct BitIter(pub u64);

impl BitIter {
    /// The squares still to come, in the order in which they come.
    pub open spec fn remaining(self) -> Seq<u8> {
        squares(self.0)
    }

    /// The lowest square that is left, which then leaves the board; `None` once
    /// the board is empty.
    pub fn next(&mut self) -> (r: Option<u8>)
        ensures
            old(self).0 == 0 ==> r.is_none() && final(self).0 == 0,
            old(self).0 != 0 ==> r.is_some() && r.unwrap() < 64 && holds(old(self).0, r.unwrap())
                && (forall|k: u8| k < r.unwrap() ==> !holds(old(self).0, k)) && final(self).0 == old(
                self,
            ).0 & !bit(r.unwrap()),
            old(self).0 != 0 ==> old(self).remaining() == seq![r.unwrap()] + final(self).remaining(),
    {
        if self.0 != 0 {
            let sq: u8 = lsb(self.0);
            let rest: u64 = reset_lsb(self.0);
            proof {
                lemma_pop(self.0, sq, rest);
            }
            self.0 = rest;
            Some(sq)
        } else {
            None
        }
    }
}

/// What taking the lowest square off a board does to the list of its squares.
pub proof fn lemma_pop(x: u64, sq: u8, rest: u64)
    requires
        sq < 64,
        holds(x, sq),
        forall|k: u8| k < sq ==> !holds(x, k),
        forall|k: u8| k < 64 ==> holds(rest, k) == (holds(x, k) && !(forall|j: u8| j < k ==> !holds(x, j))),
    ensures
        rest == x & !bit(sq),
        forall|k: u8| k < 64 ==> holds(rest, k) == (holds(x, k) && k != sq),
        squares(x) == seq![sq] + squares(rest),
{
    assert forall|k: u8| k < 64 implies holds(rest, k) == (holds(x, k) && k != sq) by {
        if k > sq {
            assert(sq < k && holds(x, sq));
        }
    }
    assert forall|k: u8| k < 64 implies holds(rest, k) == holds(x & !bit(sq), k) by {
        lemma_holds_ops(x, !bit(sq), k);
        lemma_holds_ops(bit(sq), 0, k);
        lemma_holds_bit(sq, k);
    }
    lemma_board_ext(rest, x & !bit(sq));
    lemma_squares_split(x, rest, sq, 64);
}

/// The list of a board whose lowest square is `sq`, below any bound above `sq`.
pub proof fn lemma_squares_split(x: u64, rest: u64, sq: u8, n: nat)
    requires
        sq < n <= 64,
        holds(x, sq),
        forall|k: u8| k < sq ==> !holds(x, k),
        forall|k: u8| k < 64 ==> holds(rest, k) == (holds(x, k) && k != sq),
    ensures
        squares_below(x, n) == seq![sq] + squares_below(rest, n),
    decreases n,
{
    if n == sq + 1 {
        lemma_squares_below_gap(x, 0, sq as nat);
        lemma_squares_below_gap(rest, 0, n);
        assert(squares_below(x, n) == Seq::<u8>::empty().push(sq));
        assert(squares_below(x, n) =~= seq![sq] + squares_below(rest, n));
    } else {
        lemma_squares_split(x, rest, sq, (n - 1) as nat);
        let last = (n - 1) as u8;
        assert(holds(rest, last) == holds(x, last));
        assert(squares_below(x, n) =~= seq![sq] + squares_below(rest, n));
    }
}

} // verus!
