//! Record identifiers and their canonical text form.
//!
//! An identifier is a 128-bit value.  Its text form is the usual
//! hyphenated rendering: 32 lower-case hexadecimal digits in groups of
//! 8-4-4-4-12, separated by `-`, 36 characters in all.  Formatting and
//! parsing are verified inverses of one another.

use vstd::prelude::*;
use vstd::arithmetic::div_mod::{
    lemma_basic_div, lemma_div_by_multiple, lemma_div_denominator, lemma_div_pos_is_pos,
    lemma_fundamental_div_mod,
};

verus! {

/// A process-wide-unique 128-bit record identifier.
#[derive(Clone, Copy, Debug, PartialEq, Eq, Structural)]
pub struct AccountId {
    bits: u128,
}

impl View for AccountId {
    type V = u128;

    closed spec fn view(&self) -> u128 {
        self.bits
    }
}

/// 16 to the power `e`.
pub open spec fn pow16(e: nat) -> int
    decreases e,
{
    if e == 0 {
        1
    } else {
        16 * pow16((e - 1) as nat)
    }
}

pub proof fn lemma_pow16_pos(e: nat)
    ensures
        pow16(e) >= 1,
    decreases e,
{
    if e > 0 {
        lemma_pow16_pos((e - 1) as nat);
    }
}

pub proof fn lemma_pow16_increases(a: nat, b: nat)
    requires
        a <= b,
    ensures
        pow16(a) <= pow16(b),
    decreases b,
{
    if a < b {
        lemma_pow16_increases(a, (b - 1) as nat);
        lemma_pow16_pos((b - 1) as nat);
    }
}

/// The two powers of 16 that bound a 128-bit value's digits.
pub proof fn lemma_pow16_consts()
    ensures
        pow16(31) == 0x1000_0000_0000_0000_0000_0000_0000_0000,
        pow16(32) == 0x1_0000_0000_0000_0000_0000_0000_0000_0000,
{
    reveal_with_fuel(pow16, 33);
}

/// The hexadecimal digit character for a value below 16.
pub open spec fn hex_char(d: u8) -> char {
    if d == 0 {
        '0'
    } else if d == 1 {
        '1'
    } else if d == 2 {
        '2'
    } else if d == 3 {
        '3'
    } else if d == 4 {
        '4'
    } else if d == 5 {
        '5'
    } else if d == 6 {
        '6'
    } else if d == 7 {
        '7'
    } else if d == 8 {
        '8'
    } else if d == 9 {
        '9'
    } else if d == 10 {
        'a'
    } else if d == 11 {
        'b'
    } else if d == 12 {
        'c'
    } else if d == 13 {
        'd'
    } else if d == 14 {
        'e'
    } else {
        'f'
    }
}

/// The value of a hexadecimal digit character; upper case is accepted.
pub open spec fn hex_val(c: char) -> Option<u8> {
    if c == '0' {
        Some(0u8)
    } else if c == '1' {
        Some(1u8)
    } else if c == '2' {
        Some(2u8)
    } else if c == '3' {
        Some(3u8)
    } else if c == '4' {
        Some(4u8)
    } else if c == '5' {
        Some(5u8)
    } else if c == '6' {
        Some(6u8)
    } else if c == '7' {
        Some(7u8)
    } else if c == '8' {
        Some(8u8)
    } else if c == '9' {
        Some(9u8)
    } else if c == 'a' || c == 'A' {
        Some(10u8)
    } else if c == 'b' || c == 'B' {
        Some(11u8)
    } else if c == 'c' || c == 'C' {
        Some(12u8)
    } else if c == 'd' || c == 'D' {
        Some(13u8)
    } else if c == 'e' || c == 'E' {
        Some(14u8)
    } else if c == 'f' || c == 'F' {
        Some(15u8)
    } else {
        None
    }
}

pub proof fn lemma_hex_char_val(d: u8)
    requires
        d < 16,
    ensures
        hex_val(hex_char(d)) == Some(d),
{
}

/// Positions of the four hyphens in the 36-character text form.
pub open spec fn is_hyphen_pos(p: int) -> bool {
    p == 8 || p == 13 || p == 18 || p == 23
}

/// The digit index (0 = most significant) written at character
/// position `p`, for non-hyphen positions.
pub open spec fn digit_index(p: int) -> int {
    if p < 8 {
        p
    } else if p < 13 {
        p - 1
    } else if p < 18 {
        p - 2
    } else if p < 23 {
        p - 3
    } else {
        p - 4
    }
}

/// How many digits are written before character position `p`.
pub open spec fn digits_before(p: int) -> int {
    if p <= 8 {
        p
    } else if p <= 13 {
        p - 1
    } else if p <= 18 {
        p - 2
    } else if p <= 23 {
        p - 3
    } else {
        p - 4
    }
}

/// The character position at which digit `i` is written.
pub open spec fn char_pos(i: int) -> int {
    if i < 8 {
        i
    } else if i < 12 {
        i + 1
    } else if i < 16 {
        i + 2
    } else if i < 20 {
        i + 3
    } else {
        i + 4
    }
}

/// Digit `i` (0 = most significant) of `id`, base 16.
pub open spec fn id_digit(id: u128, i: int) -> u8 {
    (((id as int) / pow16((31 - i) as nat)) % 16) as u8
}

/// The canonical 36-character text form of an identifier.
pub open spec fn id_str(id: u128) -> Seq<char> {
    Seq::new(
        36,
        |p: int|
            if is_hyphen_pos(p) {
                '-'
            } else {
                hex_char(id_digit(id, digit_index(p)))
            },
    )
}

/// Whether `s` is a well-formed identifier text: 36 characters,
/// hyphens in their places, hexadecimal digits everywhere else.
pub open spec fn valid_id_str(s: Seq<char>) -> bool {
    &&& s.len() == 36
    &&& forall|p: int|
        0 <= p < 36 ==> (if is_hyphen_pos(p) {
            s[p] == '-'
        } else {
            hex_val(s[p]) is Some
        })
}

/// The values of the first `k` digits of `s` (hyphens skipped).
pub open spec fn digits_prefix(s: Seq<char>, k: int) -> Seq<u8> {
    Seq::new(k as nat, |i: int| hex_val(s[char_pos(i)])->Some_0)
}

/// The base-16 value of a digit sequence, most significant first.
pub open spec fn digits_val(ds: Seq<u8>) -> int
    decreases ds.len(),
{
    if ds.len() == 0 {
        0
    } else {
        digits_val(ds.drop_last()) * 16 + ds.last()
    }
}

/// The identifier a well-formed text denotes.
pub open spec fn id_of_str(s: Seq<char>) -> u128 {
    digits_val(digits_prefix(s, 32)) as u128
}

/// Parsing an identifier text: the identifier when well-formed,
/// nothing otherwise.
pub open spec fn parse_id_str(s: Seq<char>) -> Option<u128> {
    if valid_id_str(s) {
        Some(id_of_str(s))
    } else {
        None
    }
}

proof fn lemma_id_digit_bound(id: u128, i: int)
    requires
        0 <= i < 32,
    ensures
        id_digit(id, i) < 16,
        (id_digit(id, i) as int) == ((id as int) / pow16((31 - i) as nat)) % 16,
{
    lemma_pow16_pos((31 - i) as nat);
    lemma_div_pos_is_pos(id as int, pow16((31 - i) as nat));
}

/// Reading the first `k` digits of `id` back, most significant first,
/// yields `id` shifted right by the remaining `32 - k` digits.
proof fn lemma_digits_val_prefix(id: u128, k: int)
    requires
        0 <= k <= 32,
    ensures
        digits_val(Seq::new(32, |i: int| id_digit(id, i)).take(k)) == (id as int) / pow16(
            (32 - k) as nat,
        ),
    decreases k,
{
    let ds = Seq::new(32, |i: int| id_digit(id, i));
    if k == 0 {
        assert(ds.take(0) =~= Seq::<u8>::empty());
        lemma_pow16_consts();
        lemma_basic_div(id as int, pow16(32));
    } else {
        lemma_digits_val_prefix(id, k - 1);
        assert(ds.take(k).drop_last() =~= ds.take(k - 1));
        assert(ds.take(k).last() == id_digit(id, k - 1));
        let p = pow16((32 - k) as nat);
        lemma_pow16_pos((32 - k) as nat);
        let x = (id as int) / p;
        lemma_id_digit_bound(id, k - 1);
        assert(pow16((33 - k) as nat) == 16 * p);
        lemma_div_denominator(id as int, p, 16);
        assert((id as int) / (p * 16) == x / 16);
        assert((id as int) / pow16((33 - k) as nat) == x / 16);
        lemma_fundamental_div_mod(x, 16);
        assert(digits_val(ds.take(k)) == (x / 16) * 16 + x % 16);
        assert((x / 16) * 16 + x % 16 == x);
    }
}

/// Round trip: parsing the canonical text of an identifier yields that
/// identifier again.
pub proof fn lemma_id_round_trip(id: u128)
    ensures
        parse_id_str(id_str(id)) == Some(id),
{
    let s = id_str(id);
    assert forall|p: int| 0 <= p < 36 && !is_hyphen_pos(p) implies hex_val(s[p]) is Some by {
        lemma_id_digit_bound(id, digit_index(p));
        lemma_hex_char_val(id_digit(id, digit_index(p)));
    }
    assert(valid_id_str(s));
    let ds = Seq::new(32, |i: int| id_digit(id, i));
    assert forall|i: int| 0 <= i < 32 implies digits_prefix(s, 32)[i] == ds[i] by {
        assert(!is_hyphen_pos(char_pos(i)));
        assert(digit_index(char_pos(i)) == i);
        lemma_id_digit_bound(id, i);
        lemma_hex_char_val(id_digit(id, i));
    }
    assert(digits_prefix(s, 32) =~= ds);
    lemma_digits_val_prefix(id, 32);
    assert(ds.take(32) =~= ds);
    assert(digits_val(ds) == (id as int) / pow16(0));
    assert((id as int) / 1 == id as int) by {
        lemma_fundamental_div_mod(id as int, 1);
    }
}

/// The single-character string for a hexadecimal digit.
fn hex_digit_str(d: u8) -> (r: &'static str)
    requires
        d < 16,
    ensures
        r@ =~= seq![hex_char(d)],
{
    proof {
        reveal_strlit("0");
        reveal_strlit("1");
        reveal_strlit("2");
        reveal_strlit("3");
        reveal_strlit("4");
        reveal_strlit("5");
        reveal_strlit("6");
        reveal_strlit("7");
        reveal_strlit("8");
        reveal_strlit("9");
        reveal_strlit("a");
        reveal_strlit("b");
        reveal_strlit("c");
        reveal_strlit("d");
        reveal_strlit("e");
        reveal_strlit("f");
    }
    match d {
        0 => "0",
        1 => "1",
        2 => "2",
        3 => "3",
        4 => "4",
        5 => "5",
        6 => "6",
        7 => "7",
        8 => "8",
        9 => "9",
        10 => "a",
        11 => "b",
        12 => "c",
        13 => "d",
        14 => "e",
        _ => "f",
    }
}

/// The value of one hexadecimal digit character, if it is one.
fn hex_val_of(c: char) -> (r: Option<u8>)
    ensures
        r == hex_val(c),
{
    match c {
        '0' => Some(0),
        '1' => Some(1),
        '2' => Some(2),
        '3' => Some(3),
        '4' => Some(4),
        '5' => Some(5),
        '6' => Some(6),
        '7' => Some(7),
        '8' => Some(8),
        '9' => Some(9),
        'a' | 'A' => Some(10),
        'b' | 'B' => Some(11),
        'c' | 'C' => Some(12),
        'd' | 'D' => Some(13),
        'e' | 'E' => Some(14),
        'f' | 'F' => Some(15),
        _ => None,
    }
}

impl AccountId {
    /// Builds an identifier from its 128-bit value.
    pub fn from_bits(bits: u128) -> (r: Self)
        ensures
            r@ == bits,
    {
        AccountId { bits }
    }

    /// The 128-bit value of this identifier.
    pub fn bits(&self) -> (r: u128)
        ensures
            r == self@,
    {
        self.bits
    }

    /// Renders the canonical hyphenated text form.
    pub fn to_text(&self) -> (r: String)
        ensures
            r@ == id_str(self@),
    {
        let ghost idv: u128 = self.bits;
        let mut s = String::new();
        let mut p: u128 = 0x1000_0000_0000_0000_0000_0000_0000_0000;
        let mut di: usize = 0;
        let mut pos: usize = 0;
        proof {
            lemma_pow16_consts();
        }
        while pos < 36
            invariant
                pos <= 36,
                di as int == digits_before(pos as int),
                di <= 32,
                di < 32 ==> p as int == pow16((31 - di) as nat),
                s@ == id_str(idv).take(pos as int),
                idv == self.bits,
            decreases 36 - pos,
        {
            if pos == 8 || pos == 13 || pos == 18 || pos == 23 {
                s.append("-");
                proof {
                    reveal_strlit("-");
                    assert(s@ =~= id_str(idv).take(pos as int + 1));
                }
            } else {
                proof {
                    lemma_pow16_pos((31 - di) as nat);
                }
                let wide: u128 = (self.bits / p) % 16;
                let d: u8 = wide as u8;
                proof {
                    lemma_id_digit_bound(idv, di as int);
                    assert(d == id_digit(idv, di as int));
                }
                let piece = hex_digit_str(d);
                s.append(piece);
                proof {
                    assert(id_str(idv)[pos as int] == hex_char(id_digit(idv, di as int)));
                    assert(s@ =~= id_str(idv).take(pos as int + 1));
                    if di < 31 {
                        assert(pow16((31 - di) as nat) == 16 * pow16((30 - di) as nat));
                        lemma_div_by_multiple(pow16((30 - di) as nat), 16);
                        assert((p / 16) as int == pow16((30 - di) as nat));
                    }
                }
                p = p / 16;
                di = di + 1;
            }
            pos = pos + 1;
        }
        proof {
            assert(id_str(idv).take(36) =~= id_str(idv));
        }
        s
    }

    /// Parses the hyphenated text form; upper-case digits are accepted.
    pub fn parse(s: &str) -> (r: Option<AccountId>)
        ensures
            match r {
                Some(id) => parse_id_str(s@) == Some(id@),
                None => parse_id_str(s@) is None,
            },
    {
        let n = s.unicode_len();
        if n != 36 {
            return None;
        }
        let mut acc: u128 = 0;
        let mut di: usize = 0;
        let mut pos: usize = 0;
        proof {
            lemma_pow16_consts();
        }
        while pos < 36
            invariant
                s@.len() == 36,
                pos <= 36,
                di as int == digits_before(pos as int),
                di <= 32,
                forall|q: int|
                    0 <= q < pos ==> (if is_hyphen_pos(q) {
                        s@[q] == '-'
                    } else {
                        hex_val(s@[q]) is Some
                    }),
                acc as int == digits_val(digits_prefix(s@, di as int)),
                (acc as int) < pow16(di as nat),
            decreases 36 - pos,
        {
            let c = s.get_char(pos);
            if pos == 8 || pos == 13 || pos == 18 || pos == 23 {
                if c != '-' {
                    proof {
                        assert(!valid_id_str(s@));
                    }
                    return None;
                }
            } else {
                match hex_val_of(c) {
                    None => {
                        proof {
                            assert(!valid_id_str(s@));
                        }
                        return None;
                    },
                    Some(d) => {
                        proof {
                            lemma_pow16_increases((di + 1) as nat, 32);
                            lemma_pow16_consts();
                            assert(acc as int * 16 + d < pow16((di + 1) as nat));
                        }
                        acc = acc * 16 + (d as u128);
                        proof {
                            assert(digits_prefix(s@, di as int + 1).drop_last() =~= digits_prefix(
                                s@,
                                di as int,
                            ));
                            assert(char_pos(di as int) == pos as int);
                            assert(digits_prefix(s@, di as int + 1).last() == d);
                        }
                        di = di + 1;
                    },
                }
            }
            pos = pos + 1;
        }
        proof {
            assert(valid_id_str(s@));
            assert(digits_prefix(s@, 32) =~= digits_prefix(s@, di as int));
        }
        Some(AccountId { bits: acc })
    }
}

} // verus!
