//! Wire codec: JSON framing of the messages both processes exchange.
//!
//! Every frame is one JSON object `{"type":<tag>,"payload":<body>}`.  The
//! encoder writes a canonical form — fixed field order, minimal escapes, no
//! extra whitespace — and the decoder reads exactly that form back.  The
//! round-trip law is proved: decoding an encoded status delta returns the
//! same semantic fields.

use vstd::prelude::*;

verus! {

use crate::text::{
    all_digits,
    dec_rep,
    dec_value,
    digit_char,
    is_digit_char,
    lemma_dec_round_trip,
};

/// A control character: code point below that of the space character.
pub open spec fn is_ctrl(c: char) -> bool {
    (c as u32) < 32
}

/// Characters this codec can place inside a JSON string: everything except
/// the control characters that would need a numeric escape.
pub open spec fn escapable(s: Seq<char>) -> bool {
    forall|i: int|
        0 <= i < s.len() ==> (!is_ctrl(#[trigger] s[i]) || s[i] == '\n' || s[i] == '\r' || s[i]
            == '\t')
}

/// Characters that may appear verbatim in an embedded piece of raw JSON
/// text: no control characters at all.
pub open spec fn raw_json_safe(s: Seq<char>) -> bool {
    forall|i: int| 0 <= i < s.len() ==> !is_ctrl(#[trigger] s[i])
}

/// The escape sequence a character becomes inside a JSON string.
pub open spec fn esc_char(c: char) -> Seq<char> {
    if c == '"' {
        seq!['\\', '"']
    } else if c == '\\' {
        seq!['\\', '\\']
    } else if c == '\n' {
        seq!['\\', 'n']
    } else if c == '\r' {
        seq!['\\', 'r']
    } else if c == '\t' {
        seq!['\\', 't']
    } else {
        seq![c]
    }
}

/// JSON string escaping of `s`.
pub open spec fn escape(s: Seq<char>) -> Seq<char>
    decreases s.len(),
{
    if s.len() == 0 {
        Seq::empty()
    } else {
        esc_char(s[0]) + escape(s.skip(1))
    }
}

/// The character an escape pair `\x` stands for, if `x` is one of the
/// escapes this codec emits.
pub open spec fn unesc_char(c: char) -> Option<char> {
    if c == '"' {
        Some('"')
    } else if c == '\\' {
        Some('\\')
    } else if c == 'n' {
        Some('\n')
    } else if c == 'r' {
        Some('\r')
    } else if c == 't' {
        Some('\t')
    } else {
        None
    }
}

/// Read a JSON string body starting right after its opening quote: the
/// decoded content together with how many characters were consumed,
/// including the closing quote.  Fails on an unterminated string, an escape
/// this codec does not emit, or a bare control character.
pub open spec fn scan_string(s: Seq<char>) -> Option<(Seq<char>, int)>
    decreases s.len(),
{
    if s.len() == 0 {
        None
    } else if s[0] == '"' {
        Some((Seq::empty(), 1))
    } else if s[0] == '\\' {
        if s.len() >= 2 && unesc_char(s[1]).is_some() {
            match scan_string(s.skip(2)) {
                Some((c, j)) => Some((seq![unesc_char(s[1]).unwrap()] + c, j + 2)),
                None => None,
            }
        } else {
            None
        }
    } else if is_ctrl(s[0]) {
        None
    } else {
        match scan_string(s.skip(1)) {
            Some((c, j)) => Some((seq![s[0]] + c, j + 1)),
            None => None,
        }
    }
}

/// Escaping distributes over concatenation.
pub proof fn lemma_escape_concat(a: Seq<char>, b: Seq<char>)
    ensures
        escape(a + b) == escape(a) + escape(b),
    decreases a.len(),
{
    if a.len() == 0 {
        assert(a + b =~= b);
        assert(escape(a) + escape(b) =~= escape(b));
    } else {
        assert((a + b).skip(1) =~= a.skip(1) + b);
        lemma_escape_concat(a.skip(1), b);
        assert(escape(a + b) == esc_char(a[0]) + (escape(a.skip(1)) + escape(b)));
        assert(esc_char(a[0]) + (escape(a.skip(1)) + escape(b)) =~= (esc_char(a[0]) + escape(
            a.skip(1),
        )) + escape(b));
    }
}

/// A successful scan consumes between one character and the whole input.
pub proof fn lemma_scan_bounds(s: Seq<char>)
    ensures
        match scan_string(s) {
            Some((c, j)) => 1 <= j <= s.len(),
            None => true,
        },
    decreases s.len(),
{
    if s.len() == 0 {
    } else if s[0] == '"' {
    } else if s[0] == '\\' {
        if s.len() >= 2 && unesc_char(s[1]).is_some() {
            lemma_scan_bounds(s.skip(2));
        }
    } else if is_ctrl(s[0]) {
    } else {
        lemma_scan_bounds(s.skip(1));
    }
}

/// Scanning an escaped string followed by its closing quote recovers the
/// original content and stops exactly at the quote.
pub proof fn lemma_scan_of_escaped(x: Seq<char>, rest: Seq<char>)
    requires
        escapable(x),
    ensures
        scan_string(escape(x) + seq!['"'] + rest) == Some((x, escape(x).len() + 1 as int)),
    decreases x.len(),
{
    let s = escape(x) + seq!['"'] + rest;
    if x.len() == 0 {
        assert(escape(x) =~= Seq::<char>::empty());
        assert(s[0] == '"');
        assert(scan_string(s) == Some((Seq::<char>::empty(), 1 as int)));
        assert(x =~= Seq::<char>::empty());
    } else {
        let c = x[0];
        let e = esc_char(c);
        assert(escape(x) == e + escape(x.skip(1)));
        assert forall|i: int|
            0 <= i < x.skip(1).len() implies (!is_ctrl(#[trigger] x.skip(1)[i]) || x.skip(1)[i]
            == '\n' || x.skip(1)[i] == '\r' || x.skip(1)[i] == '\t') by {
            assert(x.skip(1)[i] == x[i + 1]);
            assert(!is_ctrl(x[i + 1]) || x[i + 1] == '\n' || x[i + 1] == '\r' || x[i + 1] == '\t');
        }
        assert(escapable(x.skip(1)));
        lemma_scan_of_escaped(x.skip(1), rest);
        let s1 = escape(x.skip(1)) + seq!['"'] + rest;
        if c == '"' || c == '\\' || c == '\n' || c == '\r' || c == '\t' {
            assert(e.len() == 2 && e[0] == '\\');
            assert(s[0] == '\\');
            assert(s.len() >= 2 && s[1] == e[1]);
            assert(unesc_char(e[1]) == Some(c));
            assert(s.skip(2) =~= s1);
            assert(seq![c] + x.skip(1) =~= x);
        } else {
            assert(e.len() == 1 && e[0] == c);
            assert(s[0] == c);
            assert(c != '"' && c != '\\');
            assert(!is_ctrl(c));
            assert(s.skip(1) =~= s1);
            assert(seq![c] + x.skip(1) =~= x);
        }
    }
}

/// Position of the first occurrence of `c` in `s`, or `s.len()` if none.
pub open spec fn first_char(s: Seq<char>, c: char) -> nat
    decreases s.len(),
{
    if s.len() == 0 {
        0
    } else if s[0] == c {
        0
    } else {
        1 + first_char(s.skip(1), c)
    }
}

/// If `c` is absent before `k` and present at `k` (or `k` is the end),
/// the first occurrence is at `k`.
pub proof fn lemma_first_char_at(s: Seq<char>, c: char, k: int)
    requires
        0 <= k <= s.len(),
        forall|j: int| 0 <= j < k ==> s[j] != c,
        k < s.len() ==> s[k] == c,
    ensures
        first_char(s, c) == k,
    decreases s.len(),
{
    if s.len() == 0 {
    } else if s[0] == c {
        assert(k == 0);
    } else {
        let t = s.skip(1);
        assert forall|j: int| 0 <= j < k - 1 implies t[j] != c by {
            assert(t[j] == s[j + 1]);
        }
        if k - 1 < t.len() {
            assert(t[k - 1] == s[k]);
        }
        lemma_first_char_at(t, c, k - 1);
    }
}

/// A rendered number never starts with a superfluous zero.
pub proof fn lemma_dec_rep_canonical(n: nat)
    ensures
        dec_rep(n).len() > 1 ==> dec_rep(n)[0] != '0',
        n >= 10 ==> dec_rep(n).len() > 1,
    decreases n,
{
    if n >= 10 {
        lemma_dec_rep_canonical(n / 10);
        lemma_dec_round_trip(n / 10);
        assert(dec_rep(n) == dec_rep(n / 10).push(digit_char((n % 10) as int)));
        assert(dec_rep(n)[0] == dec_rep(n / 10)[0]);
        if n / 10 >= 10 {
            assert(dec_rep(n / 10)[0] != '0');
        } else {
            assert(dec_rep(n / 10) == seq![digit_char((n / 10) as int)]);
            assert(n / 10 >= 1);
            assert(digit_char((n / 10) as int) != '0');
        }
    }
}

/// Reading canonical digits gives back exactly the rendering of their
/// value.
pub proof fn lemma_canonical_digits(t: Seq<char>)
    requires
        t.len() > 0,
        all_digits(t),
        t.len() > 1 ==> t[0] != '0',
    ensures
        dec_rep(dec_value(t) as nat) == t,
        dec_value(t) >= 0,
    decreases t.len(),
{
    if t.len() == 1 {
        assert(is_digit_char(t[0]));
        let d = dec_value(t);
        assert(t.drop_last() =~= Seq::<char>::empty());
        assert(dec_value(t.drop_last()) == 0);
        assert(t.last() == t[0]);
        assert(d == digit_value_of(t[0]));
        assert(0 <= d <= 9);
        assert(dec_rep(d as nat) == seq![digit_char(d)]);
        assert(digit_char(d) == t[0]);
        assert(dec_rep(d as nat) =~= t);
    } else {
        let p = t.drop_last();
        assert(all_digits(p)) by {
            assert(forall|i: int| 0 <= i < p.len() ==> p[i] == t[i]);
        }
        lemma_canonical_digits(p);
        let v = dec_value(p);
        lemma_dec_value_lower(p);
        assert(v >= 1);
        let d = digit_value_of(t.last());
        assert(is_digit_char(t.last()));
        assert(0 <= d <= 9);
        assert(dec_value(t) == v * 10 + d);
        assert(v * 10 + d >= 10) by (nonlinear_arith)
            requires
                v >= 1,
                d >= 0,
        ;
        assert((v * 10 + d) / 10 == v && (v * 10 + d) % 10 == d) by (nonlinear_arith)
            requires
                0 <= d <= 9,
                v >= 0,
        ;
        assert(dec_rep(dec_value(t) as nat) == dec_rep(v as nat).push(digit_char(d)));
        assert(digit_char(d) == t.last());
        assert(dec_rep(v as nat).push(t.last()) =~= t);
    }
}

/// Shorthand used above; identical to `text::digit_value`.
pub open spec fn digit_value_of(c: char) -> int {
    crate::text::digit_value(c)
}

/// A non-empty canonical digit string is worth at least one when it does
/// not start with zero.
proof fn lemma_dec_value_lower(t: Seq<char>)
    requires
        t.len() > 0,
        all_digits(t),
        t.len() > 1 ==> t[0] != '0',
        t.len() == 1 ==> t[0] != '0',
    ensures
        dec_value(t) >= 1,
    decreases t.len(),
{
    if t.len() == 1 {
        assert(is_digit_char(t[0]));
        assert(t.drop_last() =~= Seq::<char>::empty());
        assert(dec_value(t.drop_last()) == 0);
        assert(t.last() == t[0]);
    } else {
        let p = t.drop_last();
        assert(all_digits(p)) by {
            assert(forall|i: int| 0 <= i < p.len() ==> p[i] == t[i]);
        }
        lemma_dec_value_lower(p);
        let v = dec_value(p);
        let d = digit_value_of(t.last());
        assert(is_digit_char(t.last()));
        assert(v * 10 >= 10) by (nonlinear_arith)
            requires
                v >= 1,
        ;
    }
}

} // verus!
// === Delta encoding =====================================================

verus! {

use crate::wire::{DeltaView, StatusDelta};
use crate::buffer::line_free;

/// A JSON string token: quotes around the escaped content.
pub open spec fn quoted(s: Seq<char>) -> Seq<char> {
    seq!['"'] + escape(s) + seq!['"']
}

/// An optional string field: a JSON string or `null`.
pub open spec fn opt_str_enc(m: Option<Seq<char>>) -> Seq<char> {
    match m {
        Some(s) => quoted(s),
        None => "null"@,
    }
}

/// An optional raw JSON field: the text itself or `null`.
pub open spec fn opt_raw_enc(m: Option<Seq<char>>) -> Seq<char> {
    match m {
        Some(s) => s,
        None => "null"@,
    }
}

pub open spec fn lit_env() -> Seq<char> {
    "{\"type\":\"status_delta\",\"payload\":"@
}

pub open spec fn lit_obj() -> Seq<char> {
    "{\"component_id\":"@
}

pub open spec fn lit_check() -> Seq<char> {
    ",\"check_name\":"@
}

pub open spec fn lit_status() -> Seq<char> {
    ",\"status\":"@
}

pub open spec fn lit_ts() -> Seq<char> {
    ",\"timestamp\":"@
}

pub open spec fn lit_msg() -> Seq<char> {
    ",\"message\":"@
}

pub open spec fn lit_met() -> Seq<char> {
    ",\"metrics\":"@
}

/// The canonical JSON object for one delta, without the envelope.
pub open spec fn delta_payload_spec(v: DeltaView) -> Seq<char> {
    lit_obj() + quoted(v.component_id) + lit_check() + quoted(v.check_name) + lit_status()
        + quoted(v.status) + lit_ts() + dec_rep(v.timestamp as nat) + lit_msg() + opt_str_enc(
        v.message,
    ) + lit_met() + opt_raw_enc(v.metrics) + "}"@
}

/// The full `status_delta` frame for one delta.
pub open spec fn encode_delta_spec(v: DeltaView) -> Seq<char> {
    lit_env() + delta_payload_spec(v) + "}"@
}

/// A delta this codec can put on the wire and read back: the string fields
/// carry no unencodable control characters, and the metrics text, when
/// present, is non-empty visible JSON that is not the literal `null`.
pub open spec fn delta_wf(v: DeltaView) -> bool {
    &&& escapable(v.component_id)
    &&& escapable(v.check_name)
    &&& escapable(v.status)
    &&& match v.message {
        Some(m) => escapable(m),
        None => true,
    }
    &&& match v.metrics {
        Some(m) => m.len() > 0 && m != "null"@ && raw_json_safe(m),
        None => true,
    }
}

// === Positional reading =================================================

/// `Some(p + l.len())` when `l` stands at `p` in `s`.
pub open spec fn expect_lit(s: Seq<char>, p: int, l: Seq<char>) -> Option<int> {
    if 0 <= p && p + l.len() <= s.len() && s.subrange(p, p + l.len()) == l {
        Some(p + l.len())
    } else {
        None
    }
}

/// Scan a string body starting at `p` (just after the opening quote).
pub open spec fn scan_at(s: Seq<char>, p: int) -> Option<(Seq<char>, int)> {
    if 0 <= p <= s.len() {
        match scan_string(s.skip(p)) {
            Some((c, j)) => Some((c, p + j)),
            None => None,
        }
    } else {
        None
    }
}

/// Scan a whole JSON string token starting at its opening quote.
pub open spec fn scan_quoted_at(s: Seq<char>, p: int) -> Option<(Seq<char>, int)> {
    if 0 <= p < s.len() && s[p] == '"' {
        scan_at(s, p + 1)
    } else {
        None
    }
}

/// Scan a canonical number: digits up to the next comma.
pub open spec fn scan_number_at(s: Seq<char>, p: int) -> Option<(u64, int)> {
    if 0 <= p <= s.len() {
        let e = p + first_char(s.skip(p), ',') as int;
        if e > s.len() {
            None
        } else {
            let t = s.subrange(p, e);
            if t.len() > 0 && all_digits(t) && (t.len() > 1 ==> t[0] != '0') && dec_value(t)
                <= u64::MAX {
                Some((dec_value(t) as u64, e))
            } else {
                None
            }
        }
    } else {
        None
    }
}

/// Scan an optional string: a JSON string token or the literal `null`.
pub open spec fn scan_message_at(s: Seq<char>, p: int) -> Option<(Option<Seq<char>>, int)> {
    if 0 <= p < s.len() && s[p] == '"' {
        match scan_at(s, p + 1) {
            Some((m, q)) => Some((Some(m), q)),
            None => None,
        }
    } else {
        match expect_lit(s, p, "null"@) {
            Some(q) => Some((None, q)),
            None => None,
        }
    }
}

/// Read the metrics field and the two closing braces that end the frame.
pub open spec fn decode_metrics_tail(
    s: Seq<char>,
    p: int,
    cid: Seq<char>,
    cname: Seq<char>,
    st: Seq<char>,
    ts: u64,
    msg: Option<Seq<char>>,
) -> Option<DeltaView> {
    if 0 <= p && p + 2 <= s.len() && s[s.len() - 2] == '}' && s[s.len() - 1] == '}' {
        let raw = s.subrange(p, s.len() - 2);
        if raw == "null"@ {
            Some(
                DeltaView {
                    component_id: cid,
                    check_name: cname,
                    status: st,
                    message: msg,
                    metrics: None,
                    timestamp: ts,
                },
            )
        } else if raw.len() > 0 && raw_json_safe(raw) {
            Some(
                DeltaView {
                    component_id: cid,
                    check_name: cname,
                    status: st,
                    message: msg,
                    metrics: Some(raw),
                    timestamp: ts,
                },
            )
        } else {
            None
        }
    } else {
        None
    }
}

/// Read a canonical `status_delta` frame.
pub open spec fn decode_delta_spec(s: Seq<char>) -> Option<DeltaView> {
    match expect_lit(s, 0, lit_env()) {
        None => None,
        Some(p0) => match expect_lit(s, p0, lit_obj()) {
            None => None,
            Some(p1) => match scan_quoted_at(s, p1) {
                None => None,
                Some((cid, p2)) => match expect_lit(s, p2, lit_check()) {
                    None => None,
                    Some(p3) => match scan_quoted_at(s, p3) {
                        None => None,
                        Some((cname, p4)) => match expect_lit(s, p4, lit_status()) {
                            None => None,
                            Some(p5) => match scan_quoted_at(s, p5) {
                                None => None,
                                Some((st, p6)) => match expect_lit(s, p6, lit_ts()) {
                                    None => None,
                                    Some(p7) => match scan_number_at(s, p7) {
                                        None => None,
                                        Some((ts, p8)) => match expect_lit(s, p8, lit_msg()) {
                                            None => None,
                                            Some(p9) => match scan_message_at(s, p9) {
                                                None => None,
                                                Some((msg, p10)) => match expect_lit(
                                                    s,
                                                    p10,
                                                    lit_met(),
                                                ) {
                                                    None => None,
                                                    Some(p11) => decode_metrics_tail(
                                                        s,
                                                        p11,
                                                        cid,
                                                        cname,
                                                        st,
                                                        ts,
                                                        msg,
                                                    ),
                                                },
                                            },
                                        },
                                    },
                                },
                            },
                        },
                    },
                },
            },
        },
    }
}

// === Step lemmas ========================================================

/// A literal standing between a prefix and a suffix is found there.
proof fn lemma_expect_lit_mid(pre: Seq<char>, l: Seq<char>, rest: Seq<char>)
    ensures
        expect_lit(pre + l + rest, pre.len() as int, l) == Some(pre.len() + l.len() as int),
{
    let s = pre + l + rest;
    assert(s.subrange(pre.len() as int, pre.len() + l.len() as int) =~= l);
}

/// A quoted token standing between a prefix and a suffix scans to its
/// content.
proof fn lemma_scan_quoted_mid(pre: Seq<char>, x: Seq<char>, rest: Seq<char>)
    requires
        escapable(x),
    ensures
        scan_quoted_at(pre + quoted(x) + rest, pre.len() as int) == Some(
            (x, pre.len() + quoted(x).len() as int),
        ),
{
    let s = pre + quoted(x) + rest;
    assert(s[pre.len() as int] == '"');
    assert(s.skip(pre.len() as int + 1) =~= escape(x) + seq!['"'] + rest);
    lemma_scan_of_escaped(x, rest);
}

/// A rendered number followed by a comma scans back to its value.
proof fn lemma_scan_number_mid(pre: Seq<char>, n: u64, rest: Seq<char>)
    requires
        rest.len() > 0,
        rest[0] == ',',
    ensures
        scan_number_at(pre + dec_rep(n as nat) + rest, pre.len() as int) == Some(
            (n, pre.len() + dec_rep(n as nat).len() as int),
        ),
{
    lemma_dec_round_trip(n as nat);
    lemma_dec_rep_canonical(n as nat);
    let d = dec_rep(n as nat);
    let s = pre + d + rest;
    let t = s.skip(pre.len() as int);
    assert(t =~= d + rest);
    assert forall|j: int| 0 <= j < d.len() implies t[j] != ',' by {
        assert(t[j] == d[j]);
        assert(is_digit_char(d[j]));
    }
    assert(t[d.len() as int] == ',');
    lemma_first_char_at(t, ',', d.len() as int);
    assert(s.subrange(pre.len() as int, pre.len() + d.len() as int) =~= d);
}

} // verus!
// === The round-trip law =================================================

verus! {

/// Decoding an encoded delta returns exactly the delta that was encoded:
/// no semantic field changes on the wire.
/// Concatenation of sequences is associative.
proof fn seq_assoc<A>(x: Seq<A>, y: Seq<A>, z: Seq<A>)
    ensures
        x + (y + z) == (x + y) + z,
{
    assert(x + (y + z) =~= (x + y) + z);
}

/// Decoding an encoded delta returns exactly the delta that was encoded:
/// no semantic field changes on the wire.
#[verifier::rlimit(100)]
#[verifier::spinoff_prover]
pub proof fn lemma_delta_round_trip(v: DeltaView)
    requires
        delta_wf(v),
    ensures
        decode_delta_spec(encode_delta_spec(v)) == Some(v),
{
    reveal_strlit("null");
    reveal_strlit("}");
    reveal_strlit(",\"message\":");
    let s = encode_delta_spec(v);
    let g2 = quoted(v.component_id);
    let g4 = quoted(v.check_name);
    let g6 = quoted(v.status);
    let g8 = dec_rep(v.timestamp as nat);
    let g10 = opt_str_enc(v.message);
    let g12 = opt_raw_enc(v.metrics);
    let a1 = lit_env();
    let b1 = lit_obj();
    let b2 = b1 + g2;
    let b3 = b2 + lit_check();
    let b4 = b3 + g4;
    let b5 = b4 + lit_status();
    let b6 = b5 + g6;
    let b7 = b6 + lit_ts();
    let b8 = b7 + g8;
    let b9 = b8 + lit_msg();
    let b10 = b9 + g10;
    let b11 = b10 + lit_met();
    let b12 = b11 + g12;
    let t = "}"@ + "}"@;
    // Flatten the envelope into prefix/suffix pairs, one rotation at a time.
    assert(delta_payload_spec(v) == b12 + "}"@);
    seq_assoc(a1, b12, "}"@);
    seq_assoc(a1 + b12, "}"@, "}"@);
    assert(s == (a1 + b12) + t);
    seq_assoc(a1, b11, g12);
    seq_assoc(a1 + b11, g12, t);
    assert(s == (a1 + b11) + (g12 + t));
    let r12 = g12 + t;
    seq_assoc(a1, b10, lit_met());
    seq_assoc(a1 + b10, lit_met(), r12);
    assert(s == (a1 + b10) + (lit_met() + r12));
    let r11 = lit_met() + r12;
    seq_assoc(a1, b9, g10);
    seq_assoc(a1 + b9, g10, r11);
    assert(s == (a1 + b9) + (g10 + r11));
    let r10 = g10 + r11;
    seq_assoc(a1, b8, lit_msg());
    seq_assoc(a1 + b8, lit_msg(), r10);
    assert(s == (a1 + b8) + (lit_msg() + r10));
    let r9 = lit_msg() + r10;
    seq_assoc(a1, b7, g8);
    seq_assoc(a1 + b7, g8, r9);
    assert(s == (a1 + b7) + (g8 + r9));
    let r8 = g8 + r9;
    seq_assoc(a1, b6, lit_ts());
    seq_assoc(a1 + b6, lit_ts(), r8);
    assert(s == (a1 + b6) + (lit_ts() + r8));
    let r7 = lit_ts() + r8;
    seq_assoc(a1, b5, g6);
    seq_assoc(a1 + b5, g6, r7);
    assert(s == (a1 + b5) + (g6 + r7));
    let r6 = g6 + r7;
    seq_assoc(a1, b4, lit_status());
    seq_assoc(a1 + b4, lit_status(), r6);
    assert(s == (a1 + b4) + (lit_status() + r6));
    let r5 = lit_status() + r6;
    seq_assoc(a1, b3, g4);
    seq_assoc(a1 + b3, g4, r5);
    assert(s == (a1 + b3) + (g4 + r5));
    let r4 = g4 + r5;
    seq_assoc(a1, b2, lit_check());
    seq_assoc(a1 + b2, lit_check(), r4);
    assert(s == (a1 + b2) + (lit_check() + r4));
    let r3 = lit_check() + r4;
    seq_assoc(a1, b1, g2);
    seq_assoc(a1 + b1, g2, r3);
    assert(s == (a1 + b1) + (g2 + r3));
    let r2 = g2 + r3;
    seq_assoc(a1, b1, r2);
    assert(s == a1 + (b1 + r2));
    let r1 = b1 + r2;
    // Now run the decoder over the flattened form.
    assert(Seq::<char>::empty() + a1 =~= a1);
    seq_assoc(Seq::<char>::empty(), a1, r1);
    lemma_expect_lit_mid(Seq::<char>::empty(), a1, r1);
    assert(expect_lit(s, 0, lit_env()) == Some(a1.len() as int));
    lemma_expect_lit_mid(a1, b1, r2);
    assert(expect_lit(s, a1.len() as int, lit_obj()) == Some((a1 + b1).len() as int));
    lemma_scan_quoted_mid(a1 + b1, v.component_id, r3);
    assert(scan_quoted_at(s, (a1 + b1).len() as int) == Some(
        (v.component_id, (a1 + b2).len() as int),
    ));
    lemma_expect_lit_mid(a1 + b2, lit_check(), r4);
    lemma_scan_quoted_mid(a1 + b3, v.check_name, r5);
    assert(scan_quoted_at(s, (a1 + b3).len() as int) == Some(
        (v.check_name, (a1 + b4).len() as int),
    ));
    lemma_expect_lit_mid(a1 + b4, lit_status(), r6);
    lemma_scan_quoted_mid(a1 + b5, v.status, r7);
    assert(scan_quoted_at(s, (a1 + b5).len() as int) == Some(
        (v.status, (a1 + b6).len() as int),
    ));
    lemma_expect_lit_mid(a1 + b6, lit_ts(), r8);
    assert(r9[0] == ',');
    lemma_scan_number_mid(a1 + b7, v.timestamp, r9);
    assert(scan_number_at(s, (a1 + b7).len() as int) == Some(
        (v.timestamp, (a1 + b8).len() as int),
    ));
    lemma_expect_lit_mid(a1 + b8, lit_msg(), r10);
    match v.message {
        Some(m) => {
            lemma_scan_quoted_mid(a1 + b9, m, r11);
            assert(s[(a1 + b9).len() as int] == '"');
            assert(scan_message_at(s, (a1 + b9).len() as int) == Some(
                (Some(m), (a1 + b10).len() as int),
            ));
        },
        None => {
            assert(g10 == "null"@);
            assert(s == (a1 + b9) + (g10 + r11));
            assert(s[(a1 + b9).len() as int] == 'n');
            seq_assoc(a1 + b9, g10, r11);
            lemma_expect_lit_mid(a1 + b9, "null"@, r11);
            assert(scan_message_at(s, (a1 + b9).len() as int) == Some(
                (None::<Seq<char>>, (a1 + b10).len() as int),
            ));
        },
    }
    lemma_expect_lit_mid(a1 + b10, lit_met(), r12);
    // The metrics tail: everything between the field name and the final
    // two closing braces.
    let p11 = (a1 + b11).len() as int;
    assert(s == (a1 + b12) + t);
    assert(s.len() == (a1 + b12).len() + 2);
    assert(s[s.len() - 2] == '}');
    assert(s[s.len() - 1] == '}');
    assert(s == (a1 + b11) + (g12 + t));
    assert(s.subrange(p11, s.len() - 2) =~= g12);
    match v.metrics {
        Some(m) => {
            assert(m != "null"@);
            assert(decode_metrics_tail(
                s,
                p11,
                v.component_id,
                v.check_name,
                v.status,
                v.timestamp,
                v.message,
            ) == Some(v));
        },
        None => {
            assert(g12 == "null"@);
            assert(decode_metrics_tail(
                s,
                p11,
                v.component_id,
                v.check_name,
                v.status,
                v.timestamp,
                v.message,
            ) == Some(v));
        },
    }
}

/// Two well-formed deltas with the same encoding are the same delta.
pub proof fn lemma_encode_injective(a: DeltaView, b: DeltaView)
    requires
        delta_wf(a),
        delta_wf(b),
        encode_delta_spec(a) == encode_delta_spec(b),
    ensures
        a == b,
{
    lemma_delta_round_trip(a);
    lemma_delta_round_trip(b);
}

} // verus!
// === Executable encoder =================================================

verus! {

use crate::text::{str_eq, has_prefix_at, find_char_from, u64_to_dec, parse_dec};

/// Append the escaped form of `s` to `out`.
fn push_escaped(out: &mut String, s: &str)
    ensures
        final(out)@ == old(out)@ + escape(s@),
{
    let n = s.unicode_len();
    let mut i: usize = 0;
    proof {
        assert(s@.take(0) =~= Seq::<char>::empty());
        assert(out@ + escape(s@.take(0)) =~= out@);
    }
    while i < n
        invariant
            i <= n,
            n == s@.len(),
            out@ == old(out)@ + escape(s@.take(i as int)),
        decreases n - i,
    {
        let ghost pre = out@;
        let c = s.get_char(i);
        if c == '"' {
            out.append("\\\"");
            proof {
                reveal_strlit("\\\"");
                assert("\\\""@ =~= esc_char(c));
            }
        } else if c == '\\' {
            out.append("\\\\");
            proof {
                reveal_strlit("\\\\");
                assert("\\\\"@ =~= esc_char(c));
            }
        } else if c == '\n' {
            out.append("\\n");
            proof {
                reveal_strlit("\\n");
                assert("\\n"@ =~= esc_char(c));
            }
        } else if c == '\r' {
            out.append("\\r");
            proof {
                reveal_strlit("\\r");
                assert("\\r"@ =~= esc_char(c));
            }
        } else if c == '\t' {
            out.append("\\t");
            proof {
                reveal_strlit("\\t");
                assert("\\t"@ =~= esc_char(c));
            }
        } else {
            out.append(s.substring_char(i, i + 1));
            proof {
                assert(s@.subrange(i as int, i + 1) =~= seq![c]);
                assert(seq![c] =~= esc_char(c));
            }
        }
        proof {
            assert(out@ == pre + esc_char(c));
            let t = s@.take(i + 1);
            assert(t =~= s@.take(i as int) + seq![c]);
            lemma_escape_concat(s@.take(i as int), seq![c]);
            assert(seq![c].skip(1) =~= Seq::<char>::empty());
            assert(escape(seq![c]) == esc_char(c) + escape(seq![c].skip(1)));
            assert(escape(Seq::<char>::empty()) == Seq::<char>::empty());
            assert(escape(seq![c]) =~= esc_char(c));
            assert(out@ =~= old(out)@ + escape(t));
        }
        i = i + 1;
    }
    proof {
        assert(s@.take(n as int) =~= s@);
    }
}

/// Append `s` as a JSON string token to `out`.
pub(crate) fn push_quoted(out: &mut String, s: &str)
    ensures
        final(out)@ == old(out)@ + quoted(s@),
{
    out.append("\"");
    push_escaped(out, s);
    out.append("\"");
    proof {
        reveal_strlit("\"");
        assert("\""@ =~= seq!['"']);
        assert(out@ =~= old(out)@ + quoted(s@));
    }
}

/// The view of each delta in a vector.
pub open spec fn delta_views(v: Seq<StatusDelta>) -> Seq<DeltaView> {
    v.map_values(|d: StatusDelta| d@)
}

/// Well-formedness of an executable delta, through its view.
pub open spec fn delta_ok(d: StatusDelta) -> bool {
    delta_wf(d@)
}

/// Render the payload object of one delta.
fn encode_delta_payload_onto(out: &mut String, d: &StatusDelta)
    ensures
        final(out)@ == old(out)@ + delta_payload_spec(d@),
{
    let ghost base = out@;
    out.append("{\"component_id\":");
    push_quoted(out, d.component_id.as_str());
    out.append(",\"check_name\":");
    push_quoted(out, d.check_name.as_str());
    out.append(",\"status\":");
    push_quoted(out, d.status.as_str());
    out.append(",\"timestamp\":");
    let ts = u64_to_dec(d.timestamp);
    out.append(ts.as_str());
    out.append(",\"message\":");
    match &d.message {
        Some(m) => push_quoted(out, m.as_str()),
        None => out.append("null"),
    }
    out.append(",\"metrics\":");
    match &d.metrics {
        Some(m) => out.append(m.as_str()),
        None => out.append("null"),
    }
    out.append("}");
    proof {
        assert(out@ =~= base + delta_payload_spec(d@));
    }
}

/// Encode one delta as a complete `status_delta` frame.
pub fn encode_delta(d: &StatusDelta) -> (r: String)
    ensures
        r@ == encode_delta_spec(d@),
{
    let mut out = String::new();
    out.append("{\"type\":\"status_delta\",\"payload\":");
    proof {
        assert(out@ =~= lit_env());
    }
    encode_delta_payload_onto(&mut out, d);
    out.append("}");
    out
}

/// Items of a batch: the payload objects joined by commas.
pub open spec fn batch_items_spec(vs: Seq<DeltaView>) -> Seq<char>
    decreases vs.len(),
{
    if vs.len() == 0 {
        Seq::empty()
    } else if vs.len() == 1 {
        delta_payload_spec(vs[0])
    } else {
        batch_items_spec(vs.drop_last()) + ","@ + delta_payload_spec(vs.last())
    }
}

/// The complete `status_batch` frame for a set of deltas.
pub open spec fn encode_batch_spec(vs: Seq<DeltaView>) -> Seq<char> {
    "{\"type\":\"status_batch\",\"payload\":{\"deltas\":["@ + batch_items_spec(vs) + "]}}"@
}

/// Encode several deltas as one `status_batch` frame.
pub fn encode_batch(deltas: &Vec<StatusDelta>) -> (r: String)
    ensures
        r@ == encode_batch_spec(delta_views(deltas@)),
{
    let mut out = String::new();
    out.append("{\"type\":\"status_batch\",\"payload\":{\"deltas\":[");
    let ghost vs = delta_views(deltas@);
    let mut i: usize = 0;
    proof {
        assert(batch_items_spec(vs.take(0)) =~= Seq::<char>::empty());
        assert(out@ =~= "{\"type\":\"status_batch\",\"payload\":{\"deltas\":["@ + batch_items_spec(
            vs.take(0),
        ));
    }
    while i < deltas.len()
        invariant
            i <= deltas.len(),
            vs == delta_views(deltas@),
            vs.len() == deltas@.len(),
            out@ == "{\"type\":\"status_batch\",\"payload\":{\"deltas\":["@ + batch_items_spec(
                vs.take(i as int),
            ),
        decreases deltas.len() - i,
    {
        let ghost pre = out@;
        if i > 0 {
            out.append(",");
            proof {
                reveal_strlit(",");
            }
        }
        encode_delta_payload_onto(&mut out, &deltas[i]);
        proof {
            let t = vs.take(i + 1);
            assert(t.drop_last() =~= vs.take(i as int));
            assert(t.last() == vs[i as int]);
            assert(vs[i as int] == deltas@[i as int]@);
            if i == 0 {
                assert(batch_items_spec(t) == delta_payload_spec(vs[0]));
                assert(out@ =~= "{\"type\":\"status_batch\",\"payload\":{\"deltas\":["@
                    + batch_items_spec(t));
            } else {
                assert(batch_items_spec(t) == batch_items_spec(vs.take(i as int)) + ","@
                    + delta_payload_spec(vs[i as int]));
                assert(","@ =~= seq![',']);
                assert(out@ =~= "{\"type\":\"status_batch\",\"payload\":{\"deltas\":["@
                    + batch_items_spec(t));
            }
        }
        i = i + 1;
    }
    out.append("]}}");
    proof {
        assert(vs.take(deltas@.len() as int) =~= vs);
    }
    out
}

} // verus!
// === Executable decoder =================================================

verus! {

/// Check a literal at `p`; return the position after it.
fn expect_at(s: &str, p: usize, l: &str) -> (r: Option<usize>)
    ensures
        match r {
            Some(q) => expect_lit(s@, p as int, l@) == Some(q as int) && q <= s@.len(),
            None => expect_lit(s@, p as int, l@) is None,
        },
{
    let n = s.unicode_len();
    let m = l.unicode_len();
    if has_prefix_at(s, p, l) {
        Some(p + m)
    } else {
        None
    }
}

/// Read a JSON string token starting at its opening quote at `p`.
fn scan_quoted(s: &str, p: usize) -> (r: Option<(String, usize)>)
    requires
        p <= s@.len(),
    ensures
        match r {
            Some((c, end)) => scan_quoted_at(s@, p as int) == Some((c@, end as int)) && end <= s@.len(),
            None => scan_quoted_at(s@, p as int) is None,
        },
{
    let n = s.unicode_len();
    if p >= n || s.get_char(p) != '"' {
        return None;
    }
    let mut acc = String::new();
    let mut i: usize = p + 1;
    proof {
        lemma_scan_bounds(s@.skip(p + 1));
    }
    while i < n
        invariant
            p + 1 <= i <= n,
            n == s@.len(),
            s@[p as int] == '"',
            match scan_string(s@.skip(i as int)) {
                Some((c, j)) => scan_string(s@.skip(p + 1)) == Some(
                    (acc@ + c, i - p - 1 + j),
                ),
                None => scan_string(s@.skip(p + 1)) is None,
            },
        decreases n - i,
    {
        let ghost t = s@.skip(i as int);
        let c = s.get_char(i);
        proof {
            assert(t[0] == c);
        }
        if c == '"' {
            proof {
                assert(scan_string(t) == Some((Seq::<char>::empty(), 1 as int)));
                assert(acc@ + Seq::<char>::empty() =~= acc@);
                assert(scan_string(s@.skip(p + 1)) == Some((acc@, i - p as int)));
            }
            return Some((acc, i + 1));
        } else if c == '\\' {
            if i + 1 >= n {
                proof {
                    assert(t.len() == n - i);
                    assert(scan_string(t) is None);
                }
                return None;
            }
            let d = s.get_char(i + 1);
            proof {
                assert(t.len() >= 2);
                assert(t[1] == d);
            }
            let u: Option<char> = if d == '"' {
                Some('"')
            } else if d == '\\' {
                Some('\\')
            } else if d == 'n' {
                Some('\n')
            } else if d == 'r' {
                Some('\r')
            } else if d == 't' {
                Some('\t')
            } else {
                None
            };
            match u {
                None => {
                    proof {
                        assert(unesc_char(d) is None);
                        assert(scan_string(t) is None);
                    }
                    return None;
                },
                Some(uc) => {
                    proof {
                        assert(unesc_char(d) == Some(uc));
                    }
                    let ghost pre = acc@;
                    if uc == '"' {
                        acc.append("\"");
                        proof {
                            reveal_strlit("\"");
                        }
                    } else if uc == '\\' {
                        acc.append("\\");
                        proof {
                            reveal_strlit("\\");
                        }
                    } else if uc == '\n' {
                        acc.append("\n");
                        proof {
                            reveal_strlit("\n");
                        }
                    } else if uc == '\r' {
                        acc.append("\r");
                        proof {
                            reveal_strlit("\r");
                        }
                    } else {
                        acc.append("\t");
                        proof {
                            reveal_strlit("\t");
                        }
                    }
                    proof {
                        assert(acc@ =~= pre + seq![uc]);
                        assert(t.skip(2) =~= s@.skip(i + 2));
                        assert(scan_string(t) == match scan_string(s@.skip(i + 2)) {
                            Some((c2, j2)) => Some((seq![uc] + c2, j2 + 2)),
                            None => None::<(Seq<char>, int)>,
                        });
                        if let Some((c2, j2)) = scan_string(s@.skip(i + 2)) {
                            assert(pre + (seq![uc] + c2) =~= acc@ + c2);
                        }
                    }
                    i = i + 2;
                },
            }
        } else if (c as u32) < 32 {
            proof {
                assert(is_ctrl(t[0]));
                assert(scan_string(t) is None);
            }
            return None;
        } else {
            let ghost pre = acc@;
            acc.append(s.substring_char(i, i + 1));
            proof {
                assert(s@.subrange(i as int, i + 1) =~= seq![c]);
                assert(acc@ =~= pre + seq![c]);
                assert(t.skip(1) =~= s@.skip(i + 1));
                assert(scan_string(t) == match scan_string(s@.skip(i + 1)) {
                    Some((c2, j2)) => Some((seq![c] + c2, j2 + 1)),
                    None => None::<(Seq<char>, int)>,
                });
                if let Some((c2, j2)) = scan_string(s@.skip(i + 1)) {
                    assert(pre + (seq![c] + c2) =~= acc@ + c2);
                }
            }
            i = i + 1;
        }
    }
    proof {
        assert(s@.skip(n as int).len() == 0);
        assert(scan_string(s@.skip(n as int)) is None);
    }
    None
}

/// Read the canonical digits of a number ending at the next comma.
fn scan_number(s: &str, p: usize) -> (r: Option<(u64, usize)>)
    requires
        p <= s@.len(),
    ensures
        match r {
            Some((v, e)) => scan_number_at(s@, p as int) == Some((v, e as int)) && e <= s@.len(),
            None => scan_number_at(s@, p as int) is None,
        },
{
    let e = find_char_from(s, p, ',');
    let ghost t = s@.skip(p as int);
    proof {
        assert forall|j: int| 0 <= j < e - p implies t[j] != ',' by {
            assert(t[j] == s@[p + j]);
        }
        if e < s@.len() {
            assert(t[e - p] == s@[e as int]);
        }
        lemma_first_char_at(t, ',', e - p);
        assert(s@.subrange(p as int, e as int) =~= t.take(e - p));
    }
    match parse_dec(s, p, e) {
        None => None,
        Some(v) => {
            if e - p > 1 && s.get_char(p) == '0' {
                proof {
                    assert(s@.subrange(p as int, e as int)[0] == s@[p as int]);
                }
                None
            } else {
                Some((v, e))
            }
        },
    }
}

/// Read an optional string: a JSON string token or the literal `null`.
fn scan_message(s: &str, p: usize) -> (r: Option<(Option<String>, usize)>)
    requires
        p <= s@.len(),
    ensures
        match r {
            Some((m, e)) => scan_message_at(s@, p as int) == Some(
                (
                    match m {
                        Some(ms) => Some(ms@),
                        None => None,
                    },
                    e as int,
                ),
            ) && e <= s@.len(),
            None => scan_message_at(s@, p as int) is None,
        },
{
    let n = s.unicode_len();
    if p < n && s.get_char(p) == '"' {
        match scan_quoted(s, p) {
            Some((m, e)) => Some((Some(m), e)),
            None => None,
        }
    } else {
        match expect_at(s, p, "null") {
            Some(e) => Some((None, e)),
            None => None,
        }
    }
}

/// True when `s` holds no control characters.
fn all_visible(s: &str) -> (r: bool)
    ensures
        r == raw_json_safe(s@),
{
    let n = s.unicode_len();
    let mut i: usize = 0;
    while i < n
        invariant
            i <= n,
            n == s@.len(),
            forall|k: int| 0 <= k < i ==> !is_ctrl(#[trigger] s@[k]),
        decreases n - i,
    {
        let c = s.get_char(i);
        if (c as u32) < 32 {
            return false;
        }
        i = i + 1;
    }
    true
}

/// Decode a canonical `status_delta` frame back into a delta.
pub fn decode_delta(s: &str) -> (r: Option<StatusDelta>)
    ensures
        match r {
            Some(d) => decode_delta_spec(s@) == Some(d@),
            None => decode_delta_spec(s@) is None,
        },
{
    let p0 = match expect_at(s, 0, "{\"type\":\"status_delta\",\"payload\":") {
        Some(p) => p,
        None => {
            return None;
        },
    };
    let p1 = match expect_at(s, p0, "{\"component_id\":") {
        Some(p) => p,
        None => {
            return None;
        },
    };
    let (component_id, p2) = match scan_quoted(s, p1) {
        Some(x) => x,
        None => {
            return None;
        },
    };
    let p3 = match expect_at(s, p2, ",\"check_name\":") {
        Some(p) => p,
        None => {
            return None;
        },
    };
    let (check_name, p4) = match scan_quoted(s, p3) {
        Some(x) => x,
        None => {
            return None;
        },
    };
    let p5 = match expect_at(s, p4, ",\"status\":") {
        Some(p) => p,
        None => {
            return None;
        },
    };
    let (status, p6) = match scan_quoted(s, p5) {
        Some(x) => x,
        None => {
            return None;
        },
    };
    let p7 = match expect_at(s, p6, ",\"timestamp\":") {
        Some(p) => p,
        None => {
            return None;
        },
    };
    let (timestamp, p8) = match scan_number(s, p7) {
        Some(x) => x,
        None => {
            return None;
        },
    };
    let p9 = match expect_at(s, p8, ",\"message\":") {
        Some(p) => p,
        None => {
            return None;
        },
    };
    let (message, p10) = match scan_message(s, p9) {
        Some(x) => x,
        None => {
            return None;
        },
    };
    let p11 = match expect_at(s, p10, ",\"metrics\":") {
        Some(p) => p,
        None => {
            return None;
        },
    };
    let n = s.unicode_len();
    if n < 2 || p11 > n - 2 {
        return None;
    }
    if s.get_char(n - 2) != '}' || s.get_char(n - 1) != '}' {
        return None;
    }
    let raw = String::from_str(s.substring_char(p11, n - 2));
    proof {
        assert(raw@ =~= s@.subrange(p11 as int, s@.len() - 2));
        reveal_strlit("null");
    }
    if str_eq(raw.as_str(), "null") {
        return Some(
            StatusDelta {
                component_id,
                check_name,
                status,
                message,
                metrics: None,
                timestamp,
            },
        );
    }
    if raw.as_str().unicode_len() > 0 && all_visible(raw.as_str()) {
        Some(
            StatusDelta {
                component_id,
                check_name,
                status,
                message,
                metrics: Some(raw),
                timestamp,
            },
        )
    } else {
        None
    }
}

// === Generic envelope framing ===========================================

/// A complete frame around an already-encoded payload.
pub open spec fn frame_spec(tag: Seq<char>, payload: Seq<char>) -> Seq<char> {
    "{\"type\":\""@ + tag + "\",\"payload\":"@ + payload + "}"@
}

/// Split a frame into its tag and its raw payload text.
pub open spec fn unframe_spec(s: Seq<char>) -> Option<(Seq<char>, Seq<char>)> {
    match expect_lit(s, 0, "{\"type\":\""@) {
        None => None,
        Some(p) => {
            let e = p + first_char(s.skip(p), '"') as int;
            if e >= s.len() {
                None
            } else {
                let tag = s.subrange(p, e);
                match expect_lit(s, e, "\",\"payload\":"@) {
                    None => None,
                    Some(q) => {
                        if q < s.len() && s[s.len() - 1] == '}' {
                            Some((tag, s.subrange(q, s.len() - 1)))
                        } else {
                            None
                        }
                    },
                }
            }
        },
    }
}

/// Build a frame around an already-encoded payload.
pub fn frame_message(tag: &str, payload: &str) -> (r: String)
    ensures
        r@ == frame_spec(tag@, payload@),
{
    let mut out = String::new();
    out.append("{\"type\":\"");
    out.append(tag);
    out.append("\",\"payload\":");
    out.append(payload);
    out.append("}");
    proof {
        assert(out@ =~= frame_spec(tag@, payload@));
    }
    out
}

/// Take a frame apart into its tag and its raw payload text.
pub fn unframe_message(s: &str) -> (r: Option<(String, String)>)
    ensures
        match r {
            Some((tag, payload)) => unframe_spec(s@) == Some((tag@, payload@)),
            None => unframe_spec(s@) is None,
        },
{
    let p = match expect_at(s, 0, "{\"type\":\"") {
        Some(p) => p,
        None => {
            return None;
        },
    };
    let e = find_char_from(s, p, '"');
    let ghost t = s@.skip(p as int);
    proof {
        assert forall|j: int| 0 <= j < e - p implies t[j] != '"' by {
            assert(t[j] == s@[p + j]);
        }
        if e < s@.len() {
            assert(t[e - p] == s@[e as int]);
        }
        lemma_first_char_at(t, '"', e - p);
    }
    let n = s.unicode_len();
    if e >= n {
        return None;
    }
    let tag = String::from_str(s.substring_char(p, e));
    let q = match expect_at(s, e, "\",\"payload\":") {
        Some(q) => q,
        None => {
            return None;
        },
    };
    if q >= n || s.get_char(n - 1) != '}' {
        return None;
    }
    let payload = String::from_str(s.substring_char(q, n - 1));
    proof {
        assert(tag@ =~= s@.subrange(p as int, e as int));
        assert(payload@ =~= s@.subrange(q as int, s@.len() - 1));
    }
    Some((tag, payload))
}

/// Framing then unframing returns the same tag and payload, provided the
/// tag holds no quote and the payload is non-empty.
#[verifier::rlimit(100)]
#[verifier::spinoff_prover]
pub proof fn lemma_frame_round_trip(tag: Seq<char>, payload: Seq<char>)
    requires
        forall|i: int| 0 <= i < tag.len() ==> tag[i] != '"',
        payload.len() > 0,
    ensures
        unframe_spec(frame_spec(tag, payload)) == Some((tag, payload)),
{
    reveal_strlit("{\"type\":\"");
    reveal_strlit("\",\"payload\":");
    reveal_strlit("}");
    let h = "{\"type\":\""@;
    let m = "\",\"payload\":"@;
    let s = frame_spec(tag, payload);
    seq_assoc(h, tag, m);
    seq_assoc(h + tag, m, payload);
    seq_assoc((h + tag) + m, payload, "}"@);
    let r1 = tag + (m + (payload + "}"@));
    assert(s == ((h + tag) + m) + (payload + "}"@));
    assert(s =~= h + r1);
    seq_assoc(Seq::<char>::empty(), h, r1);
    assert(Seq::<char>::empty() + h =~= h);
    lemma_expect_lit_mid(Seq::<char>::empty(), h, r1);
    assert(expect_lit(s, 0, h) == Some(h.len() as int));
    let t = s.skip(h.len() as int);
    assert(t =~= r1);
    assert forall|j: int| 0 <= j < tag.len() implies t[j] != '"' by {
        assert(t[j] == tag[j]);
    }
    assert(t[tag.len() as int] == m[0]);
    assert(m[0] == '"');
    lemma_first_char_at(t, '"', tag.len() as int);
    let e = h.len() + tag.len();
    assert(s.subrange(h.len() as int, e as int) =~= tag);
    seq_assoc(h + tag, m, payload + "}"@);
    assert(s == ((h + tag) + m) + (payload + "}"@));
    lemma_expect_lit_mid(h + tag, m, payload + "}"@);
    assert(expect_lit(s, e as int, m) == Some((e + m.len()) as int));
    let q = e + m.len();
    assert(s.len() == q + payload.len() + 1);
    assert(s[s.len() - 1] == '}');
    assert(s.subrange(q as int, s.len() - 1) =~= payload);
}

} // verus!
// === Buffer interplay ===================================================

verus! {

/// Joining two single-line texts yields a single-line text.
proof fn lemma_line_free_concat(a: Seq<char>, b: Seq<char>)
    requires
        line_free(a),
        line_free(b),
    ensures
        line_free(a + b),
{
    assert forall|i: int| 0 <= i < (a + b).len() implies (a + b)[i] != '\n' by {
        if i < a.len() {
            assert((a + b)[i] == a[i]);
        } else {
            assert((a + b)[i] == b[i - a.len()]);
        }
    }
}

/// Escaped text never holds a raw line feed.
proof fn lemma_escape_line_free(x: Seq<char>)
    requires
        escapable(x),
    ensures
        line_free(escape(x)),
    decreases x.len(),
{
    if x.len() > 0 {
        let c = x[0];
        assert(!is_ctrl(c) || c == '\n' || c == '\r' || c == '\t');
        assert forall|i: int|
            0 <= i < x.skip(1).len() implies (!is_ctrl(#[trigger] x.skip(1)[i]) || x.skip(1)[i]
            == '\n' || x.skip(1)[i] == '\r' || x.skip(1)[i] == '\t') by {
            assert(x.skip(1)[i] == x[i + 1]);
            assert(!is_ctrl(x[i + 1]) || x[i + 1] == '\n' || x[i + 1] == '\r' || x[i + 1] == '\t');
        }
        lemma_escape_line_free(x.skip(1));
        assert(line_free(esc_char(c)));
        lemma_line_free_concat(esc_char(c), escape(x.skip(1)));
    } else {
        assert(line_free(escape(x)));
    }
}

/// Quoted text never holds a raw line feed.
proof fn lemma_quoted_line_free(x: Seq<char>)
    requires
        escapable(x),
    ensures
        line_free(quoted(x)),
{
    lemma_escape_line_free(x);
    assert(line_free(seq!['"']));
    lemma_line_free_concat(seq!['"'], escape(x));
    lemma_line_free_concat(seq!['"'] + escape(x), seq!['"']);
}

/// Rendered numbers never hold a line feed.
proof fn lemma_dec_rep_line_free(n: nat)
    ensures
        line_free(dec_rep(n)),
{
    lemma_dec_round_trip(n);
    assert forall|i: int| 0 <= i < dec_rep(n).len() implies dec_rep(n)[i] != '\n' by {
        assert(is_digit_char(dec_rep(n)[i]));
    }
}

/// An encoded delta is one non-empty line, so it can go straight into the
/// offline buffer.
#[verifier::rlimit(50)]
pub proof fn lemma_encode_line_free(v: DeltaView)
    requires
        delta_wf(v),
    ensures
        line_free(encode_delta_spec(v)),
        encode_delta_spec(v).len() > 0,
{
    reveal_strlit("{\"type\":\"status_delta\",\"payload\":");
    reveal_strlit("{\"component_id\":");
    reveal_strlit(",\"check_name\":");
    reveal_strlit(",\"status\":");
    reveal_strlit(",\"timestamp\":");
    reveal_strlit(",\"message\":");
    reveal_strlit(",\"metrics\":");
    reveal_strlit("null");
    reveal_strlit("}");
    assert(line_free(lit_env()));
    assert(line_free(lit_obj()));
    assert(line_free(lit_check()));
    assert(line_free(lit_status()));
    assert(line_free(lit_ts()));
    assert(line_free(lit_msg()));
    assert(line_free(lit_met()));
    assert(line_free("null"@));
    assert(line_free("}"@));
    lemma_quoted_line_free(v.component_id);
    lemma_quoted_line_free(v.check_name);
    lemma_quoted_line_free(v.status);
    lemma_dec_rep_line_free(v.timestamp as nat);
    let m10 = opt_str_enc(v.message);
    match v.message {
        Some(m) => {
            lemma_quoted_line_free(m);
        },
        None => {},
    }
    assert(line_free(m10));
    let m12 = opt_raw_enc(v.metrics);
    match v.metrics {
        Some(m) => {
            assert forall|i: int| 0 <= i < m.len() implies m[i] != '\n' by {
                assert(!is_ctrl(m[i]));
            }
        },
        None => {},
    }
    assert(line_free(m12));
    let p = delta_payload_spec(v);
    lemma_line_free_concat(lit_obj(), quoted(v.component_id));
    lemma_line_free_concat(lit_obj() + quoted(v.component_id), lit_check());
    let c1 = lit_obj() + quoted(v.component_id) + lit_check();
    lemma_line_free_concat(c1, quoted(v.check_name));
    lemma_line_free_concat(c1 + quoted(v.check_name), lit_status());
    let c2 = c1 + quoted(v.check_name) + lit_status();
    lemma_line_free_concat(c2, quoted(v.status));
    lemma_line_free_concat(c2 + quoted(v.status), lit_ts());
    let c3 = c2 + quoted(v.status) + lit_ts();
    lemma_line_free_concat(c3, dec_rep(v.timestamp as nat));
    lemma_line_free_concat(c3 + dec_rep(v.timestamp as nat), lit_msg());
    let c4 = c3 + dec_rep(v.timestamp as nat) + lit_msg();
    lemma_line_free_concat(c4, m10);
    lemma_line_free_concat(c4 + m10, lit_met());
    let c5 = c4 + m10 + lit_met();
    lemma_line_free_concat(c5, m12);
    lemma_line_free_concat(c5 + m12, "}"@);
    assert(line_free(p));
    lemma_line_free_concat(lit_env(), p);
    lemma_line_free_concat(lit_env() + p, "}"@);
}

} // verus!
