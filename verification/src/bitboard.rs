use vstd::prelude::*;

verus! {

use vstd::std_specs::bits::u64_trailing_zeros;
use crate::board::PLAYABLE;

broadcast use vstd::std_specs::bits::axiom_u64_trailing_zeros;

/// True when bit `i` of `v` is set; false for any `i` at or above 64.
pub open spec fn nth(v: u64, i: u64) -> bool {
    i < 64 && (v >> i) & 1 == 1
}

/// The single-bit word for square index `i` (meaningful for `i < 64`).
pub open spec fn one_bit(i: u64) -> u64 {
    1u64 << i
}

/// Number of set bits among the `n` lowest bits of `v`.
pub open spec fn pop_below(v: u64, n: int) -> nat
    decreases n,
{
    if n <= 0 {
        0
    } else {
        pop_below(v, n - 1) + (if nth(v, (n - 1) as u64) {
            1nat
        } else {
            0nat
        })
    }
}

/// Number of set bits of `v`.
pub open spec fn popcount(v: u64) -> nat {
    pop_below(v, 64)
}

/// The single-bit word midway between two single-bit words `s` and `d`.
/// Meaningful when both are non-zero; on this board encoding a jump's
/// start and landing indices always have an even sum, so the mean of the
/// two indices is the index of the square jumped over.
pub open spec fn mid_of(s: u64, d: u64) -> u64 {
    one_bit(((u64_trailing_zeros(s) + u64_trailing_zeros(d)) / 2) as u64)
}

/// How shifting by the two diagonal step widths moves individual bits.
pub proof fn lemma_nth_shifts()
    by (bit_vector)
    ensures
        forall|v: u64, i: u64| #[trigger] nth(v << 4u64, i) <==> 4 <= i < 64 && nth(v, (i - 4) as u64),
        forall|v: u64, i: u64| #[trigger] nth(v << 5u64, i) <==> 5 <= i < 64 && nth(v, (i - 5) as u64),
        forall|v: u64, i: u64| #[trigger] nth(v >> 4u64, i) <==> i < 60 && nth(v, (i + 4) as u64),
        forall|v: u64, i: u64| #[trigger] nth(v >> 5u64, i) <==> i < 59 && nth(v, (i + 5) as u64),
{
}

/// How the boolean word operations act on individual bits.
pub proof fn lemma_nth_ops()
    by (bit_vector)
    ensures
        forall|a: u64, b: u64, i: u64| #[trigger] nth(a & b, i) <==> nth(a, i) && nth(b, i),
        forall|a: u64, b: u64, i: u64| #[trigger] nth(a | b, i) <==> nth(a, i) || nth(b, i),
        forall|a: u64, b: u64, i: u64| #[trigger] nth(a ^ b, i) <==> (nth(a, i) != nth(b, i)),
        forall|a: u64, i: u64| i < 64 ==> (#[trigger] nth(!a, i) <==> !nth(a, i)),
        forall|i: u64, j: u64| i < 64 ==> (#[trigger] nth(one_bit(i), j) <==> j == i),
        forall|a: u64, i: u64| i < 64 ==> (#[trigger] (a & one_bit(i)) != 0 <==> nth(a, i)),
{
}

/// Whole-word consequences of the bit operations.
pub proof fn lemma_word_facts()
    by (bit_vector)
    ensures
        forall|a: u64| #[trigger] (a & 0) == 0,
        forall|a: u64| #[trigger] (a | 0) == a,
        forall|a: u64| #[trigger] (a ^ 0) == a,
        forall|m: u64| #[trigger] (0 & m) == 0,
        forall|m: u64| #[trigger] (0 | m) == m,
        forall|m: u64| #[trigger] (0 ^ m) == m,
        forall|a: u64, b: u64| #[trigger] (a & b) == (b & a),
        forall|a: u64, b: u64| #[trigger] (a | b) == (b | a),
        forall|x: u64, j: u64| (j & x) == 0 ==> #[trigger] (x & !j) == x,
        forall|a: u64, m: u64| #[trigger] ((a ^ m) ^ m) == a,
        forall|a: u64, m: u64| m != 0 && (a & m) == m ==> #[trigger] (a ^ m) < a,
        forall|a: u64, i: u64| i < 64 && nth(a, i) ==> #[trigger] (a ^ one_bit(i)) < a,
        forall|a: u64, b: u64| a != 0 ==> #[trigger] (a | b) != 0,
        forall|i: u64| i < 64 ==> #[trigger] one_bit(i) != 0,
        forall|v: u64, i: u64| #[trigger] nth(v, i) ==> v != 0,
        forall|i: u64| !#[trigger] nth(0u64, i),
        forall|a: u64, b: u64, m: u64| #[trigger] ((a | b) & m) == (a & m) | (b & m),
        forall|i: u64, m: u64| i < 64 && nth(m, i) ==> #[trigger] (one_bit(i) & !m) == 0,
        forall|a: u64, i: u64| i < 64 && nth(a, i) ==> #[trigger] (one_bit(i) & a) == one_bit(i),
        forall|i: u64, j: u64| i < 64 && j < 64 && i != j ==> #[trigger] (one_bit(i) | one_bit(j))
            == (one_bit(i) ^ one_bit(j)) && (one_bit(i) & one_bit(j)) == 0,
{
}

/// A word none of whose bits are set is zero.
pub proof fn lemma_nth_ext_zero(a: u64)
    requires
        forall|i: u64| !#[trigger] nth(a, i),
    ensures
        a == 0,
{
    if a != 0 {
        let t = u64_trailing_zeros(a) as u64;
        assert(t < 64);
        assert(nth(a, t));
    }
}

/// A word with exactly one bit set has that bit's index as its
/// trailing-zero count.
pub proof fn lemma_tz_one_bit(i: u64)
    requires
        i < 64,
    ensures
        u64_trailing_zeros(one_bit(i)) == i,
{
    let v = one_bit(i);
    assert(v != 0 && (v >> i) & 1 == 1) by (bit_vector)
        requires
            v == 1u64 << i && i < 64,
    ;
    let t = u64_trailing_zeros(v) as u64;
    assert(t < 64);
    if t < i {
        assert((v >> t) & 1 == 0) by (bit_vector)
            requires
                v == 1u64 << i && i < 64 && t < i,
        ;
    }
}

/// Which bit indices belong to the playable-square mask.
pub proof fn lemma_playable_bits()
    by (bit_vector)
    ensures
        forall|i: u64| #[trigger] nth(PLAYABLE, i) <==> (5 <= i <= 8 || 10 <= i <= 17 || 19 <= i <= 26
            || 28 <= i <= 35 || 37 <= i <= 40),
{
}

/// The base bit index of notation row `r` (rows of four squares,
/// numbered from the first side's back row).
pub open spec fn row_base(r: int) -> int {
    if r == 0 {
        37
    } else if r == 1 {
        32
    } else if r == 2 {
        28
    } else if r == 3 {
        23
    } else if r == 4 {
        19
    } else if r == 5 {
        14
    } else if r == 6 {
        10
    } else {
        5
    }
}

/// The bit index of checkers notation square `n` (meaningful for
/// `1 <= n <= 32`).
pub open spec fn notation_bit(n: u8) -> u64 {
    (row_base((n - 1) / 4) + (n - 1) % 4) as u64
}

/// The notation square of playable bit index `i`; 0 off the playable
/// mask.
pub open spec fn bit_notation(i: u64) -> u8 {
    if 37 <= i <= 40 {
        (i - 36) as u8
    } else if 32 <= i <= 35 {
        (i - 27) as u8
    } else if 28 <= i <= 31 {
        (i - 19) as u8
    } else if 23 <= i <= 26 {
        (i - 10) as u8
    } else if 19 <= i <= 22 {
        (i - 2) as u8
    } else if 14 <= i <= 17 {
        (i + 7) as u8
    } else if 10 <= i <= 13 {
        (i + 15) as u8
    } else if 5 <= i <= 8 {
        (i + 24) as u8
    } else {
        0
    }
}

/// The notation table is a bijection between squares 1 through 32 and
/// the playable bit indices.
pub proof fn lemma_notation_bijection()
    ensures
        forall|n: u8| 1 <= n <= 32 ==> nth(PLAYABLE, #[trigger] notation_bit(n)) && bit_notation(
            notation_bit(n),
        ) == n,
        forall|i: u64| #[trigger] nth(PLAYABLE, i) ==> 1 <= bit_notation(i) <= 32 && notation_bit(
            bit_notation(i),
        ) == i,
{
    lemma_playable_bits();
}

/// The bit index of notation square `n`.
pub fn notation_bit_index(n: u8) -> (r: u8)
    requires
        1 <= n <= 32,
    ensures
        r as u64 == notation_bit(n),
        r < 64,
{
    let m = n - 1;
    let row = m / 4;
    let base: u8 = if row == 0 {
        37
    } else if row == 1 {
        32
    } else if row == 2 {
        28
    } else if row == 3 {
        23
    } else if row == 4 {
        19
    } else if row == 5 {
        14
    } else if row == 6 {
        10
    } else {
        5
    };
    base + m % 4
}

/// The notation square of playable bit index `i`.
pub fn bit_index_notation(i: u8) -> (r: u8)
    requires
        nth(PLAYABLE, i as u64),
    ensures
        r == bit_notation(i as u64),
        1 <= r <= 32,
{
    proof {
        lemma_playable_bits();
    }
    if i >= 37 {
        i - 36
    } else if i >= 32 {
        i - 27
    } else if i >= 28 {
        i - 19
    } else if i >= 23 {
        i - 10
    } else if i >= 19 {
        i - 2
    } else if i >= 14 {
        i + 7
    } else if i >= 10 {
        i + 15
    } else {
        i + 24
    }
}

/// The word whose set bits are the squares named in `s`.
pub open spec fn bits_of_notation(s: Seq<u8>) -> u64
    decreases s.len(),
{
    if s.len() == 0 {
        0u64
    } else {
        bits_of_notation(s.drop_last()) | one_bit(notation_bit(s.last()))
    }
}

/// The squares of `v` whose notation number is at most `n`, ascending
/// by notation number.
pub open spec fn notes_upto(v: u64, n: int) -> Seq<u8>
    decreases n,
{
    if n < 1 {
        Seq::empty()
    } else {
        notes_upto(v, n - 1) + (if nth(v, notation_bit(n as u8)) {
            seq![n as u8]
        } else {
            Seq::empty()
        })
    }
}

/// The notation squares of the set bits of `v`, ascending by notation
/// number.
pub open spec fn notes_of(v: u64) -> Seq<u8> {
    notes_upto(v, 32)
}

/// The read-out is strictly ascending, with every entry a notation
/// square of at most `n`.
pub proof fn lemma_notes_upto_sorted(v: u64, n: int)
    requires
        n <= 32,
    ensures
        forall|k: int|
            0 <= k < notes_upto(v, n).len() ==> 1 <= #[trigger] notes_upto(v, n)[k]
                && notes_upto(v, n)[k] <= n,
        forall|k1: int, k2: int|
            0 <= k1 < k2 < notes_upto(v, n).len() ==> notes_upto(v, n)[k1] < notes_upto(v, n)[k2],
    decreases n,
{
    if n >= 1 {
        lemma_notes_upto_sorted(v, n - 1);
        let prefix = notes_upto(v, n - 1);
        let whole = notes_upto(v, n);
        assert forall|k: int| 0 <= k < whole.len() implies 1 <= #[trigger] whole[k] && whole[k]
            <= n by {
            if k < prefix.len() {
                assert(whole[k] == prefix[k]);
            } else {
                assert(whole[k] == n as u8);
            }
        }
        assert forall|k1: int, k2: int| 0 <= k1 < k2 < whole.len() implies whole[k1]
            < whole[k2] by {
            if k2 < prefix.len() {
                assert(whole[k1] == prefix[k1] && whole[k2] == prefix[k2]);
            } else {
                assert(whole[k2] == n as u8);
                assert(whole[k1] == prefix[k1]);
                assert(prefix[k1] <= n - 1);
            }
        }
    }
}

/// Which bits the word built from a square list holds: exactly the
/// table images of the listed squares.
pub proof fn lemma_bits_of_notation_nth(s: Seq<u8>)
    requires
        forall|k: int| 0 <= k < s.len() ==> 1 <= #[trigger] s[k] <= 32,
    ensures
        forall|i: u64| #[trigger] nth(bits_of_notation(s), i) <==> exists|k: int|
            0 <= k < s.len() && notation_bit(#[trigger] s[k]) == i,
    decreases s.len(),
{
    lemma_nth_ops();
    lemma_word_facts();
    lemma_notation_bijection();
    if s.len() != 0 {
        lemma_bits_of_notation_nth(s.drop_last());
        let t = s.drop_last();
        let lastbit = notation_bit(s.last());
        assert(nth(PLAYABLE, lastbit));
        assert(lastbit < 64);
        assert forall|i: u64| #[trigger] nth(bits_of_notation(s), i) implies exists|k: int|
            0 <= k < s.len() && notation_bit(#[trigger] s[k]) == i by {
            if nth(bits_of_notation(t), i) {
                let k = choose|k: int| 0 <= k < t.len() && notation_bit(#[trigger] t[k]) == i;
                assert(s[k] == t[k]);
                assert(notation_bit(s[k]) == i);
            } else {
                assert(nth(one_bit(lastbit), i));
                assert(notation_bit(s[s.len() - 1]) == i);
            }
        }
        assert forall|i: u64|
            (exists|k: int|
                0 <= k < s.len() && notation_bit(#[trigger] s[k]) == i) implies #[trigger] nth(
            bits_of_notation(s),
            i,
        ) by {
            let k = choose|k: int| 0 <= k < s.len() && notation_bit(#[trigger] s[k]) == i;
            if k < s.len() - 1 {
                assert(t[k] == s[k]);
                assert(notation_bit(t[k]) == i);
                assert(nth(bits_of_notation(t), i));
            } else {
                assert(i == lastbit);
                assert(nth(one_bit(lastbit), i));
            }
        }
    }
}

/// The word built from a valid square list stays on the playable mask.
pub proof fn lemma_bits_of_notation_playable(s: Seq<u8>)
    requires
        forall|k: int| 0 <= k < s.len() ==> 1 <= #[trigger] s[k] <= 32,
    ensures
        bits_of_notation(s) & !PLAYABLE == 0,
    decreases s.len(),
{
    lemma_word_facts();
    lemma_notation_bijection();
    if s.len() != 0 {
        lemma_bits_of_notation_playable(s.drop_last());
        let lastbit = notation_bit(s.last());
        assert(nth(PLAYABLE, lastbit));
        assert(lastbit < 64);
        assert(one_bit(lastbit) & !PLAYABLE == 0);
        assert(bits_of_notation(s) == bits_of_notation(s.drop_last()) | one_bit(lastbit));
        assert(((bits_of_notation(s.drop_last()) | one_bit(lastbit)) & !PLAYABLE) == (
        bits_of_notation(s.drop_last()) & !PLAYABLE) | (one_bit(lastbit) & !PLAYABLE));
    }
}

/// Which squares the notation read-out of `v` contains: exactly the
/// notation numbers up to `n` whose table bit is set.
pub proof fn lemma_notes_upto_contains(v: u64, n: int)
    requires
        n <= 32,
    ensures
        forall|x: u8| #[trigger] notes_upto(v, n).contains(x) <==> 1 <= x <= n && nth(
            v,
            notation_bit(x),
        ),
    decreases n,
{
    if n >= 1 {
        lemma_notes_upto_contains(v, n - 1);
        let prefix = notes_upto(v, n - 1);
        assert forall|x: u8| #[trigger] notes_upto(v, n).contains(x) implies 1 <= x <= n && nth(
            v,
            notation_bit(x),
        ) by {
            let idx = choose|idx: int|
                0 <= idx < notes_upto(v, n).len() && notes_upto(v, n)[idx] == x;
            if idx < prefix.len() {
                assert(prefix[idx] == x);
                assert(prefix.contains(x));
            }
        }
        assert forall|x: u8|
            1 <= x <= n && nth(v, notation_bit(x)) implies #[trigger] notes_upto(v, n).contains(
            x,
        ) by {
            if x <= n - 1 {
                assert(prefix.contains(x));
                let idx = choose|idx: int| 0 <= idx < prefix.len() && prefix[idx] == x;
                assert(notes_upto(v, n)[idx] == x);
            } else {
                assert(notes_upto(v, n)[prefix.len() as int] == x);
            }
        }
    }
}

/// Round trip: building a square-set word from a list of notation
/// squares and reading it back yields the same squares as a set,
/// whatever the order of the list.
pub proof fn lemma_notation_round_trip(s: Seq<u8>)
    requires
        forall|k: int| 0 <= k < s.len() ==> 1 <= #[trigger] s[k] <= 32,
    ensures
        forall|x: u8| #[trigger] notes_of(bits_of_notation(s)).contains(x) <==> s.contains(x),
{
    lemma_bits_of_notation_nth(s);
    lemma_notes_upto_contains(bits_of_notation(s), 32);
    lemma_notation_bijection();
    let v = bits_of_notation(s);
    assert forall|x: u8| #[trigger] notes_of(v).contains(x) implies s.contains(x) by {
        let k = choose|k: int| 0 <= k < s.len() && notation_bit(#[trigger] s[k]) == notation_bit(x);
        assert(bit_notation(notation_bit(s[k])) == s[k]);
        assert(bit_notation(notation_bit(x)) == x);
        assert(s[k] == x);
    }
    assert forall|x: u8| s.contains(x) implies #[trigger] notes_of(v).contains(x) by {
        let k = choose|k: int| 0 <= k < s.len() && s[k] == x;
        assert(notation_bit(s[k]) == notation_bit(x));
        assert(nth(v, notation_bit(x)));
    }
}

/// A 64-bit set of square positions: bit `i` set means square `i` is in
/// the set. Only the 32 playable squares of the board are ever
/// meaningfully set for piece sets.
#[derive(Clone, Copy, PartialEq, Eq, Structural, Debug)]
pub struct Bitboard {
    pub bits: u64,
}

impl View for Bitboard {
    type V = u64;

    open spec fn view(&self) -> u64 {
        self.bits
    }
}

impl From<u64> for Bitboard {
    fn from(value: u64) -> (r: Self) {
        Bitboard { bits: value }
    }
}

impl vstd::std_specs::convert::FromSpecImpl<u64> for Bitboard {
    open spec fn obeys_from_spec() -> bool {
        true
    }

    open spec fn from_spec(v: u64) -> Bitboard {
        Bitboard { bits: v }
    }
}

impl Bitboard {
    /// The empty set.
    pub fn new() -> (r: Self)
        ensures
            r@ == 0u64,
    {
        Bitboard { bits: 0 }
    }

    /// Whether no square is in the set.
    pub fn is_empty(&self) -> (r: bool)
        ensures
            r == (self@ == 0),
    {
        self.bits == 0
    }

    /// How many squares are in the set.
    pub fn len(&self) -> (r: usize)
        ensures
            r == popcount(self@),
    {
        let v = self.bits;
        let mut count: usize = 0;
        for i in 0..64u64
            invariant
                v == self@,
                count == pop_below(v, i as int),
                count <= i,
        {
            if (v >> i) & 1 == 1 {
                count = count + 1;
            }
        }
        count
    }

    /// The square jumped over when a piece at `self` lands on
    /// `destination`; both must be non-empty single-bit sets a
    /// capture-jump apart.
    pub fn jumped(&self, destination: Bitboard) -> (r: Bitboard)
        requires
            self@ != 0,
            destination@ != 0,
        ensures
            r@ == mid_of(self@, destination@),
    {
        let s = self.bits.trailing_zeros();
        let d = destination.bits.trailing_zeros();
        Bitboard { bits: 1u64 << (((s + d) / 2) as u64) }
    }

    /// The set holding exactly the squares named in `notation`.
    pub fn from_notation_vector(notation: &[u8]) -> (r: Self)
        requires
            forall|k: int| 0 <= k < notation@.len() ==> 1 <= #[trigger] notation@[k] <= 32,
        ensures
            r@ == bits_of_notation(notation@),
            r@ & !PLAYABLE == 0,
    {
        proof {
            lemma_bits_of_notation_playable(notation@);
        }
        let mut bits: u64 = 0;
        let n_len = notation.len();
        for k in 0..n_len
            invariant
                n_len == notation@.len(),
                forall|j: int| 0 <= j < notation@.len() ==> 1 <= #[trigger] notation@[j] <= 32,
                bits == bits_of_notation(notation@.take(k as int)),
        {
            let b = notation_bit_index(notation[k]);
            bits = bits | (1u64 << (b as u64));
            proof {
                assert(notation@.take(k + 1).drop_last() =~= notation@.take(k as int));
                assert(notation@.take(k + 1).last() == notation@[k as int]);
            }
        }
        proof {
            assert(notation@.take(n_len as int) =~= notation@);
        }
        Bitboard { bits }
    }

    /// The notation squares of the set, as the strictly ascending
    /// sequence of notation numbers of its set bits.
    pub fn as_notation_vector(&self) -> (r: Vec<u8>)
        requires
            self@ & !PLAYABLE == 0,
        ensures
            r@ == notes_of(self@),
            forall|k: int| 0 <= k < r@.len() ==> 1 <= #[trigger] r@[k] <= 32,
            forall|k1: int, k2: int| 0 <= k1 < k2 < r@.len() ==> r@[k1] < r@[k2],
    {
        proof {
            lemma_notes_upto_sorted(self@, 32);
        }
        let v = self.bits;
        let mut notation: Vec<u8> = Vec::new();
        for n in 1..33u8
            invariant
                v == self@,
                notation@ == notes_upto(v, n as int - 1),
        {
            let b = notation_bit_index(n);
            if (v >> (b as u64)) & 1 == 1 {
                notation.push(n);
            }
        }
        notation
    }

    /// Set union.
    pub fn or(self, rhs: Self) -> (r: Self)
        ensures
            r@ == (self@ | rhs@),
    {
        Bitboard { bits: self.bits | rhs.bits }
    }

    /// Set intersection.
    pub fn and(self, rhs: Self) -> (r: Self)
        ensures
            r@ == (self@ & rhs@),
    {
        Bitboard { bits: self.bits & rhs.bits }
    }

    /// Symmetric difference.
    pub fn xor(self, rhs: Self) -> (r: Self)
        ensures
            r@ == (self@ ^ rhs@),
    {
        Bitboard { bits: self.bits ^ rhs.bits }
    }

    /// An iterator over the set's squares, lowest bit first.
    pub fn iter(&self) -> (r: BitboardIter)
        ensures
            r.bits == self@,
    {
        BitboardIter { bits: self.bits }
    }
}

/// Yields each set bit of a word as a single-bit word, ascending by bit
/// index.
pub struct BitboardIter {
    pub bits: u64,
}

impl BitboardIter {
    /// The next set bit, lowest first, or `None` once the word is
    /// exhausted.
    pub fn next(&mut self) -> (r: Option<u64>)
        ensures
            old(self).bits == 0 ==> r is None && final(self).bits == 0,
            old(self).bits != 0 ==> {
                let lsb = one_bit(u64_trailing_zeros(old(self).bits) as u64);
                r == Some(lsb) && final(self).bits == (old(self).bits ^ lsb)
            },
    {
        if self.bits == 0 {
            None
        } else {
            let tz = self.bits.trailing_zeros();
            let lsb = 1u64 << (tz as u64);
            self.bits = self.bits ^ lsb;
            Some(lsb)
        }
    }
}

} // verus!
