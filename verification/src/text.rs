//! Small verified text utilities shared by the wire codec and the buffer
//! file format: string equality, decimal rendering and parsing, and simple
//! scanning over character views.

use vstd::prelude::*;

verus! {

use vstd::arithmetic::div_mod::lemma_fundamental_div_mod;

/// The character views of a sequence of strings.
pub open spec fn str_views(v: Seq<String>) -> Seq<Seq<char>> {
    v.map_values(|s: String| s@)
}

/// Character-for-character equality of two string slices.
pub fn str_eq(a: &str, b: &str) -> (r: bool)
    ensures
        r == (a@ == b@),
{
    let sa = String::from_str(a);
    let sb = String::from_str(b);
    sa == sb
}

/// True when `lit` occurs in `s` starting at character position `pos`.
pub fn has_prefix_at(s: &str, pos: usize, lit: &str) -> (r: bool)
    ensures
        r == (pos + lit@.len() <= s@.len() && s@.subrange(
            pos as int,
            pos as int + lit@.len(),
        ) == lit@),
{
    let n = s.unicode_len();
    let m = lit.unicode_len();
    if pos > n || m > n - pos {
        return false;
    }
    let part = s.substring_char(pos, pos + m);
    str_eq(part, lit)
}

/// Index of the first occurrence of `c` in `s` at or after `pos`, or the
/// length of `s` if there is none.
pub fn find_char_from(s: &str, pos: usize, c: char) -> (r: usize)
    requires
        pos <= s@.len(),
    ensures
        pos <= r <= s@.len(),
        forall|i: int| pos <= i < r ==> s@[i] != c,
        r < s@.len() ==> s@[r as int] == c,
{
    let n = s.unicode_len();
    let mut i = pos;
    while i < n
        invariant
            pos <= i <= n,
            n == s@.len(),
            forall|k: int| pos <= k < i ==> s@[k] != c,
        decreases n - i,
    {
        if s.get_char(i) == c {
            return i;
        }
        i = i + 1;
    }
    n
}

/// The digit character for `d`.
pub open spec fn digit_char(d: int) -> char
    recommends
        0 <= d <= 9,
{
    if d == 0 {
        '0'
    } else if d == 1 {
        '1'
    } else if d == 2 {
        '2'
    } else if d == 3 {
        '3'
    } else if d == 4 {
        '4'
    } else if d == 5 {
        '5'
    } else if d == 6 {
        '6'
    } else if d == 7 {
        '7'
    } else if d == 8 {
        '8'
    } else {
        '9'
    }
}

pub open spec fn is_digit_char(c: char) -> bool {
    '0' <= c <= '9'
}

pub open spec fn digit_value(c: char) -> int {
    c as int - '0' as int
}

/// Decimal rendering of `n`, most significant digit first, no leading zeros.
pub open spec fn dec_rep(n: nat) -> Seq<char>
    decreases n,
{
    if n < 10 {
        seq![digit_char(n as int)]
    } else {
        dec_rep(n / 10).push(digit_char((n % 10) as int))
    }
}

/// Value of a digit string, most significant digit first.
pub open spec fn dec_value(s: Seq<char>) -> int
    decreases s.len(),
{
    if s.len() == 0 {
        0
    } else {
        dec_value(s.drop_last()) * 10 + digit_value(s.last())
    }
}

pub open spec fn all_digits(s: Seq<char>) -> bool {
    forall|i: int| 0 <= i < s.len() ==> is_digit_char(#[trigger] s[i])
}

proof fn lemma_digit_round_trip(d: int)
    requires
        0 <= d <= 9,
    ensures
        digit_value(digit_char(d)) == d,
        is_digit_char(digit_char(d)),
{
}

/// Rendering then reading a number gives the number back.
pub proof fn lemma_dec_round_trip(n: nat)
    ensures
        dec_value(dec_rep(n)) == n,
        all_digits(dec_rep(n)),
        dec_rep(n).len() > 0,
    decreases n,
{
    if n < 10 {
        let s = dec_rep(n);
        assert(s.len() == 1);
        assert(s.drop_last() =~= Seq::<char>::empty());
        assert(s.last() == digit_char(n as int));
        assert(dec_value(s) == dec_value(s.drop_last()) * 10 + digit_value(s.last()));
        assert(dec_value(Seq::<char>::empty()) == 0);
        lemma_digit_round_trip(n as int);
    } else {
        lemma_dec_round_trip(n / 10);
        lemma_fundamental_div_mod(n as int, 10);
        let s = dec_rep(n);
        assert(s.drop_last() =~= dec_rep(n / 10));
        assert(dec_value(s) == dec_value(dec_rep(n / 10)) * 10 + digit_value(
            digit_char((n % 10) as int),
        ));
        lemma_digit_round_trip((n % 10) as int);
        assert forall|i: int| 0 <= i < s.len() implies is_digit_char(#[trigger] s[i]) by {
            if i < s.len() - 1 {
                assert(s[i] == dec_rep(n / 10)[i]);
            } else {
                lemma_digit_round_trip((n % 10) as int);
            }
        }
    }
}

fn digit_str(d: u64) -> (r: &'static str)
    requires
        d <= 9,
    ensures
        r@ =~= seq![digit_char(d as int)],
{
    proof {
        reveal_strlit("0");
        reveal_strlit("1");
        reveal_strlit("2");
        reveal_strlit("3");
        reveal_strlit("4");
        reveal_strlit("5");
        reveal_strlit("6");
        reveal_strlit("7");
        reveal_strlit("8");
        reveal_strlit("9");
    }
    if d == 0 {
        "0"
    } else if d == 1 {
        "1"
    } else if d == 2 {
        "2"
    } else if d == 3 {
        "3"
    } else if d == 4 {
        "4"
    } else if d == 5 {
        "5"
    } else if d == 6 {
        "6"
    } else if d == 7 {
        "7"
    } else if d == 8 {
        "8"
    } else {
        "9"
    }
}

/// Render `n` in decimal.
pub fn u64_to_dec(n: u64) -> (r: String)
    ensures
        r@ == dec_rep(n as nat),
    decreases n,
{
    if n < 10 {
        String::from_str(digit_str(n))
    } else {
        let prefix = u64_to_dec(n / 10);
        prefix.concat(digit_str(n % 10))
    }
}

/// Read the decimal digits of `s` between `from` and `to`.  Returns `None`
/// when the range is empty, holds a non-digit, or overflows `u64`.
pub fn parse_dec(s: &str, from: usize, to: usize) -> (r: Option<u64>)
    requires
        from <= to <= s@.len(),
    ensures
        match r {
            Some(v) => {
                &&& to > from
                &&& all_digits(s@.subrange(from as int, to as int))
                &&& dec_value(s@.subrange(from as int, to as int)) == v
            },
            None => from == to || !all_digits(s@.subrange(from as int, to as int)) || dec_value(
                s@.subrange(from as int, to as int),
            ) > u64::MAX,
        },
{
    if from == to {
        return None;
    }
    let mut acc: u64 = 0;
    let mut i = from;
    while i < to
        invariant
            from <= i <= to <= s@.len(),
            all_digits(s@.subrange(from as int, i as int)),
            acc == dec_value(s@.subrange(from as int, i as int)),
        decreases to - i,
    {
        let c = s.get_char(i);
        if c < '0' || c > '9' {
            proof {
                assert(s@.subrange(from as int, to as int)[i - from] == s@[i as int]);
            }
            return None;
        }
        let d: u64 = (c as u32 as u64) - 48;
        let ghost pre = s@.subrange(from as int, i as int);
        let ghost cur = s@.subrange(from as int, i + 1);
        proof {
            assert(cur.drop_last() =~= pre);
            assert(cur.last() == s@[i as int]);
        }
        proof {
            lemma_digit_round_trip(digit_value(s@[i as int]));
        }
        let shifted = match acc.checked_mul(10) {
            Some(x) => x,
            None => {
                proof {
                    let whole = s@.subrange(from as int, to as int);
                    if all_digits(whole) {
                        assert(whole.subrange(0, i + 1 - from) =~= cur);
                        lemma_dec_grows(whole, i + 1 - from);
                    }
                }
                return None;
            },
        };
        let next = match shifted.checked_add(d) {
            Some(x) => x,
            None => {
                proof {
                    let whole = s@.subrange(from as int, to as int);
                    if all_digits(whole) {
                        assert(whole.subrange(0, i + 1 - from) =~= cur);
                        lemma_dec_grows(whole, i + 1 - from);
                    }
                }
                return None;
            },
        };
        acc = next;
        i = i + 1;
    }
    proof {
        assert(s@.subrange(from as int, i as int) =~= s@.subrange(from as int, to as int));
    }
    Some(acc)
}

/// A digit string is worth at least as much as any of its prefixes.
proof fn lemma_dec_grows(s: Seq<char>, k: int)
    requires
        0 <= k <= s.len(),
        all_digits(s),
    ensures
        dec_value(s) >= dec_value(s.subrange(0, k)),
        dec_value(s) >= 0,
        dec_value(s.subrange(0, k)) >= 0,
    decreases s.len() - k,
{
    lemma_dec_nonneg(s);
    if k < s.len() {
        lemma_dec_grows(s, k + 1);
        let a = s.subrange(0, k);
        let b = s.subrange(0, k + 1);
        assert(b.drop_last() =~= a);
        lemma_dec_nonneg(a);
        assert(dec_value(b) == dec_value(a) * 10 + digit_value(b.last()));
        assert(is_digit_char(s[k]));
        assert(digit_value(b.last()) >= 0);
        assert(dec_value(a) * 10 >= dec_value(a)) by (nonlinear_arith)
            requires
                dec_value(a) >= 0,
        ;
    } else {
        assert(s.subrange(0, k) =~= s);
    }
}

proof fn lemma_dec_nonneg(s: Seq<char>)
    requires
        all_digits(s),
    ensures
        dec_value(s) >= 0,
    decreases s.len(),
{
    if s.len() > 0 {
        assert(all_digits(s.drop_last())) by {
            assert(forall|i: int|
                0 <= i < s.len() - 1 ==> #[trigger] s.drop_last()[i] == s[i]);
        }
        lemma_dec_nonneg(s.drop_last());
        assert(is_digit_char(s.last()));
        assert(dec_value(s.drop_last()) * 10 >= 0) by (nonlinear_arith)
            requires
                dec_value(s.drop_last()) >= 0,
        ;
    }
}

} // verus!
