//! The snapshot text format and its helpers.
//!
//! The persisted snapshot is JSON with a fixed field order and no extra
//! whitespace; a quote, backslash or control character inside a string is
//! written as its JSON escape, so every snapshot has a text. Both directions
//! are stated exactly: `encode_snapshot` produces the one text of a
//! snapshot, `parse_snapshot` follows the spec parser, and a parse of an
//! encoding provably returns the snapshot it came from — for every
//! snapshot.

use vstd::prelude::*;

use crate::types::{entries_view, series_view, MeasureResponse, Output};

verus! {

// ---------------------------------------------------------------------------
// Text helpers
// ---------------------------------------------------------------------------
/// The literal `l` stands at position `i` of `s`.
pub open spec fn lit_at(s: Seq<char>, i: int, l: Seq<char>) -> bool {
    0 <= i && i + l.len() <= s.len() && s.subrange(i, i + l.len() as int) == l
}

/// Whether `l` stands at position `i` of `s`.
pub fn match_lit_at(s: &str, i: usize, l: &str) -> (b: bool)
    requires
        i <= s@.len(),
    ensures
        b == lit_at(s@, i as int, l@),
{
    let n = s.unicode_len();
    let m = l.unicode_len();
    if m > n - i {
        assert(!lit_at(s@, i as int, l@));
        return false;
    }
    let mut k: usize = 0;
    while k < m
        invariant
            n == s@.len(),
            m == l@.len(),
            i + m <= n,
            0 <= k <= m,
            forall|q: int| 0 <= q < k ==> s@[i + q] == l@[q],
        decreases m - k,
    {
        if s.get_char(i + k) != l.get_char(k) {
            proof {
                assert(s@.subrange(i as int, i + l@.len() as int)[k as int] == s@[i + k]);
            }
            return false;
        }
        k = k + 1;
    }
    proof {
        assert(s@.subrange(i as int, i + l@.len() as int) =~= l@);
    }
    true
}

/// Whether two texts are the same characters.
pub fn eq_lit(s: &str, l: &str) -> (b: bool)
    ensures
        b == (s@ == l@),
{
    let n = s.unicode_len();
    let m = l.unicode_len();
    if n != m {
        return false;
    }
    let r = match_lit_at(s, 0, l);
    proof {
        assert(s@.subrange(0, s@.len() as int) =~= s@);
    }
    r
}

// ---------------------------------------------------------------------------
// Decimal numerals
// ---------------------------------------------------------------------------
/// The character of one decimal digit.
pub open spec fn digit_char(d: int) -> char {
    if d == 0 {
        '0'
    } else if d == 1 {
        '1'
    } else if d == 2 {
        '2'
    } else if d == 3 {
        '3'
    } else if d == 4 {
        '4'
    } else if d == 5 {
        '5'
    } else if d == 6 {
        '6'
    } else if d == 7 {
        '7'
    } else if d == 8 {
        '8'
    } else {
        '9'
    }
}

pub open spec fn is_digit(c: char) -> bool {
    48 <= c as u32 <= 57
}

pub open spec fn digit_val(c: char) -> int {
    c as u32 - 48
}

/// The decimal numeral of a non-negative number, most significant digit
/// first, without leading zeros.
pub open spec fn dec_of(n: int) -> Seq<char>
    decreases n,
{
    if n <= 9 {
        seq![digit_char(n)]
    } else {
        dec_of(n / 10).push(digit_char(n % 10))
    }
}

/// Every character of a numeral is a digit, and a numeral is never empty.
pub proof fn lemma_dec_of_digits(n: int)
    requires
        0 <= n,
    ensures
        dec_of(n).len() >= 1,
        forall|i: int| 0 <= i < dec_of(n).len() ==> is_digit(#[trigger] dec_of(n)[i]),
    decreases n,
{
    if n <= 9 {
        assert(is_digit(digit_char(n)));
    } else {
        lemma_dec_of_digits(n / 10);
        assert(0 <= n % 10 <= 9);
        assert(is_digit(digit_char(n % 10)));
        assert(forall|i: int| 0 <= i < dec_of(n).len() - 1 ==> dec_of(n)[i] == #[trigger] dec_of(
            n / 10,
        )[i]);
        assert(dec_of(n).last() == digit_char(n % 10));
    }
}

/// The text of one digit.
fn digit_str(d: u64) -> (r: &'static str)
    requires
        d <= 9,
    ensures
        r@ =~= seq![digit_char(d as int)],
{
    let s: &'static str = if d == 0 {
        "0"
    } else if d == 1 {
        "1"
    } else if d == 2 {
        "2"
    } else if d == 3 {
        "3"
    } else if d == 4 {
        "4"
    } else if d == 5 {
        "5"
    } else if d == 6 {
        "6"
    } else if d == 7 {
        "7"
    } else if d == 8 {
        "8"
    } else {
        "9"
    };
    proof {
        reveal_strlit("0");
        reveal_strlit("1");
        reveal_strlit("2");
        reveal_strlit("3");
        reveal_strlit("4");
        reveal_strlit("5");
        reveal_strlit("6");
        reveal_strlit("7");
        reveal_strlit("8");
        reveal_strlit("9");
    }
    s
}

/// The decimal text of a number.
pub fn u64_to_dec(n: u64) -> (r: String)
    ensures
        r@ == dec_of(n as int),
    decreases n,
{
    if n <= 9 {
        let mut s = String::new();
        s.append(digit_str(n));
        proof {
            assert(s@ =~= dec_of(n as int));
        }
        s
    } else {
        let mut s = u64_to_dec(n / 10);
        s.append(digit_str(n % 10));
        proof {
            assert(s@ =~= dec_of(n as int));
        }
        s
    }
}

/// The value of a digit string, most significant digit first.
pub open spec fn val_of(ds: Seq<char>) -> int
    decreases ds.len(),
{
    if ds.len() == 0 {
        0
    } else {
        val_of(ds.drop_last()) * 10 + digit_val(ds.last())
    }
}

/// A numeral names the number it was made from.
pub proof fn lemma_val_of_dec(n: int)
    requires
        0 <= n,
    ensures
        val_of(dec_of(n)) == n,
    decreases n,
{
    if n <= 9 {
        assert(digit_val(digit_char(n)) == n);
        assert(dec_of(n).drop_last() =~= Seq::<char>::empty());
        assert(val_of(Seq::<char>::empty()) == 0);
    } else {
        lemma_val_of_dec(n / 10);
        assert(dec_of(n).drop_last() =~= dec_of(n / 10));
        assert(digit_val(digit_char(n % 10)) == n % 10);
        vstd::arithmetic::div_mod::lemma_fundamental_div_mod(n, 10);
    }
}


// ---------------------------------------------------------------------------
// The snapshot text: encoders
// ---------------------------------------------------------------------------
/// One of the sixteen lower-case hexadecimal digit characters.
pub open spec fn hex_char(d: int) -> char {
    if d < 10 {
        ((48 + d) as u8) as char
    } else {
        ((87 + d) as u8) as char
    }
}

pub open spec fn is_hex(c: char) -> bool {
    (48 <= c as u32 <= 57) || (97 <= c as u32 <= 102)
}

pub open spec fn hex_val(c: char) -> int {
    if c as u32 <= 57 {
        c as u32 - 48
    } else {
        c as u32 - 87
    }
}

/// How one character stands inside a quoted string: a quote or backslash
/// behind a backslash, a control character as a four-digit escape, anything
/// else verbatim.
pub open spec fn esc_char(c: char) -> Seq<char> {
    if c == '"' {
        seq!['\\', '"']
    } else if c == '\\' {
        seq!['\\', '\\']
    } else if (c as u32) < 32 {
        seq!['\\', 'u', '0', '0', hex_char((c as u32 / 16) as int), hex_char((c as u32 % 16) as int)]
    } else {
        seq![c]
    }
}

/// A string's characters as a quoted string carries them, in order.
pub open spec fn esc(s: Seq<char>) -> Seq<char>
    decreases s.len(),
{
    if s.len() == 0 {
        Seq::empty()
    } else {
        esc_char(s[0]) + esc(s.drop_first())
    }
}

/// An optional duration: its nanoseconds, or `null` when absent.
pub open spec fn enc_opt(o: Option<u64>) -> Seq<char> {
    match o {
        Some(v) => dec_of(v as int),
        None => "null"@,
    }
}

/// One sample, with every field in declaration order.
pub open spec fn enc_sample(v: crate::types::SampleView) -> Seq<char> {
    "{\"ip\":\""@ + (esc(v.ip) + ("\",\"dns_lookup_duration\":"@ + (enc_opt(v.dns_lookup_duration) + (
    ",\"tcp_connect_duration\":"@ + (dec_of(v.tcp_connect_duration as int) + (
    ",\"http_get_send_duration\":"@ + (dec_of(v.http_get_send_duration as int) + (
    ",\"ttfb_duration\":"@ + (dec_of(v.ttfb_duration as int) + (
    ",\"tls_handshake_duration\":"@ + (enc_opt(v.tls_handshake_duration) + (
    ",\"overall_duration\":"@ + (enc_opt(v.overall_duration) + "}"@)))))))))))))
}

/// What follows the first sample of a series: each further sample behind a
/// comma, then the closing bracket.
pub open spec fn enc_series_tail(l: Seq<crate::types::SampleView>) -> Seq<char>
    decreases l.len(),
{
    if l.len() == 0 {
        "]"@
    } else {
        ","@ + (enc_sample(l[0]) + enc_series_tail(l.drop_first()))
    }
}

/// A series of samples, in call order.
pub open spec fn enc_series(l: Seq<crate::types::SampleView>) -> Seq<char> {
    if l.len() == 0 {
        "["@ + "]"@
    } else {
        "["@ + (enc_sample(l[0]) + enc_series_tail(l.drop_first()))
    }
}

/// One worker's entry: its address as the key, its series as the value.
pub open spec fn enc_entry(e: (Seq<char>, Seq<crate::types::SampleView>)) -> Seq<char> {
    "\""@ + (esc(e.0) + ("\":"@ + enc_series(e.1)))
}

/// What follows the first entry of a mapping.
pub open spec fn enc_entries_tail(m: Seq<(Seq<char>, Seq<crate::types::SampleView>)>) -> Seq<char>
    decreases m.len(),
{
    if m.len() == 0 {
        "}"@
    } else {
        ","@ + (enc_entry(m[0]) + enc_entries_tail(m.drop_first()))
    }
}

/// A worker-to-series mapping, in insertion order.
pub open spec fn enc_entries(m: Seq<(Seq<char>, Seq<crate::types::SampleView>)>) -> Seq<char> {
    if m.len() == 0 {
        "{"@ + "}"@
    } else {
        "{"@ + (enc_entry(m[0]) + enc_entries_tail(m.drop_first()))
    }
}

/// The comparison mapping, or `null` when none was collected.
pub open spec fn enc_opt_entries(
    o: Option<Seq<(Seq<char>, Seq<crate::types::SampleView>)>>,
) -> Seq<char> {
    match o {
        Some(m) => enc_entries(m),
        None => "null"@,
    }
}

/// The whole snapshot.
pub open spec fn enc_snapshot(v: crate::types::SnapshotView) -> Seq<char> {
    "{\"target_results\":"@ + (enc_entries(v.target_results) + (",\"comparison_results\":"@ + (
    enc_opt_entries(v.comparison_results) + "}"@)))
}

// ---------------------------------------------------------------------------
// The snapshot text: the parser, as a specification
// ---------------------------------------------------------------------------
/// The end of the digit run beginning at `i`.
pub open spec fn digits_end(s: Seq<char>, i: int) -> int
    decreases s.len() - i,
{
    if 0 <= i < s.len() && is_digit(s[i]) {
        digits_end(s, i + 1)
    } else {
        i
    }
}

/// A number at `i`: the value of the digit run, if there is one and it fits.
pub open spec fn parse_u64_at(s: Seq<char>, i: int) -> Option<(u64, int)> {
    let j = digits_end(s, i);
    if j == i {
        None
    } else {
        let v = val_of(s.subrange(i, j));
        if v <= u64::MAX as int {
            Some((v as u64, j))
        } else {
            None
        }
    }
}

/// An optional number at `i`: `null`, or a number.
pub open spec fn parse_opt_at(s: Seq<char>, i: int) -> Option<(Option<u64>, int)> {
    if lit_at(s, i, "null"@) {
        Some((None, i + 4))
    } else {
        match parse_u64_at(s, i) {
            Some((v, j)) => Some((Some(v), j)),
            None => None,
        }
    }
}

/// The content of a quoted string from `i` to its closing quote: a
/// backslash undoes the escapes `esc_char` writes, any other character
/// stands for itself.
pub open spec fn parse_str_body(s: Seq<char>, i: int) -> Option<(Seq<char>, int)>
    decreases s.len() - i,
{
    if !(0 <= i < s.len()) {
        None
    } else if s[i] == '"' {
        Some((Seq::empty(), i + 1))
    } else if s[i] == '\\' {
        if i + 1 < s.len() && s[i + 1] == '"' {
            match parse_str_body(s, i + 2) {
                Some((t, j)) => Some((seq!['"'] + t, j)),
                None => None,
            }
        } else if i + 1 < s.len() && s[i + 1] == '\\' {
            match parse_str_body(s, i + 2) {
                Some((t, j)) => Some((seq!['\\'] + t, j)),
                None => None,
            }
        } else if i + 5 < s.len() && s[i + 1] == 'u' && s[i + 2] == '0' && s[i + 3] == '0'
            && is_hex(s[i + 4]) && is_hex(s[i + 5]) && hex_val(s[i + 4]) * 16 + hex_val(s[i + 5])
            < 32 {
            match parse_str_body(s, i + 6) {
                Some((t, j)) => Some(
                    (seq![(((hex_val(s[i + 4]) * 16 + hex_val(s[i + 5])) as u8) as char)] + t, j),
                ),
                None => None,
            }
        } else {
            None
        }
    } else {
        match parse_str_body(s, i + 1) {
            Some((t, j)) => Some((seq![s[i]] + t, j)),
            None => None,
        }
    }
}

/// A quoted string at `i`: its unescaped content, and the position after
/// the closing quote.
pub open spec fn parse_string_at(s: Seq<char>, i: int) -> Option<(Seq<char>, int)> {
    if 0 <= i < s.len() && s[i] == '"' {
        parse_str_body(s, i + 1)
    } else {
        None
    }
}

/// One sample at `i`: every field in declaration order, nothing between.
pub open spec fn parse_sample_at(s: Seq<char>, i: int) -> Option<(crate::types::SampleView, int)> {
    if !lit_at(s, i, "{\"ip\":"@) {
        None
    } else {
        match parse_string_at(s, i + "{\"ip\":"@.len()) {
            None => None,
            Some((ip, i1)) => if !lit_at(s, i1, ",\"dns_lookup_duration\":"@) {
                None
            } else {
                match parse_opt_at(s, i1 + ",\"dns_lookup_duration\":"@.len()) {
                    None => None,
                    Some((dns, i2)) => if !lit_at(s, i2, ",\"tcp_connect_duration\":"@) {
                        None
                    } else {
                        match parse_u64_at(s, i2 + ",\"tcp_connect_duration\":"@.len()) {
                            None => None,
                            Some((tcp, i3)) => if !lit_at(s, i3, ",\"http_get_send_duration\":"@) {
                                None
                            } else {
                                match parse_u64_at(s, i3 + ",\"http_get_send_duration\":"@.len()) {
                                    None => None,
                                    Some((send, i4)) => if !lit_at(s, i4, ",\"ttfb_duration\":"@) {
                                        None
                                    } else {
                                        match parse_u64_at(s, i4 + ",\"ttfb_duration\":"@.len()) {
                                            None => None,
                                            Some((ttfb, i5)) => if !lit_at(
                                                s,
                                                i5,
                                                ",\"tls_handshake_duration\":"@,
                                            ) {
                                                None
                                            } else {
                                                match parse_opt_at(
                                                    s,
                                                    i5 + ",\"tls_handshake_duration\":"@.len(),
                                                ) {
                                                    None => None,
                                                    Some((tls, i6)) => if !lit_at(
                                                        s,
                                                        i6,
                                                        ",\"overall_duration\":"@,
                                                    ) {
                                                        None
                                                    } else {
                                                        match parse_opt_at(
                                                            s,
                                                            i6 + ",\"overall_duration\":"@.len(),
                                                        ) {
                                                            None => None,
                                                            Some((overall, i7)) => if !lit_at(
                                                                s,
                                                                i7,
                                                                "}"@,
                                                            ) {
                                                                None
                                                            } else {
                                                                Some(
                                                                    (
                                                                        crate::types::SampleView {
                                                                            ip,
                                                                            dns_lookup_duration: dns,
                                                                            tcp_connect_duration: tcp,
                                                                            http_get_send_duration: send,
                                                                            ttfb_duration: ttfb,
                                                                            tls_handshake_duration: tls,
                                                                            overall_duration: overall,
                                                                        },
                                                                        i7 + 1,
                                                                    ),
                                                                )
                                                            },
                                                        }
                                                    },
                                                }
                                            },
                                        }
                                    },
                                }
                            },
                        }
                    },
                }
            },
        }
    }
}

/// The rest of a series after its first sample: `,` and a sample, repeated,
/// then `]`.
pub open spec fn parse_series_tail_at(
    s: Seq<char>,
    i: int,
    acc: Seq<crate::types::SampleView>,
) -> Option<(Seq<crate::types::SampleView>, int)>
    decreases s.len() - i,
{
    if 0 <= i < s.len() && s[i] == ']' {
        Some((acc, i + 1))
    } else if 0 <= i < s.len() && s[i] == ',' {
        match parse_sample_at(s, i + 1) {
            Some((v, j)) => if i < j <= s.len() {
                parse_series_tail_at(s, j, acc.push(v))
            } else {
                None
            },
            None => None,
        }
    } else {
        None
    }
}

/// A series at `i`.
pub open spec fn parse_series_at(s: Seq<char>, i: int) -> Option<
    (Seq<crate::types::SampleView>, int),
> {
    if 0 <= i < s.len() && s[i] == '[' {
        if i + 1 < s.len() && s[i + 1] == ']' {
            Some((Seq::empty(), i + 2))
        } else {
            match parse_sample_at(s, i + 1) {
                Some((v, j)) => if i + 1 < j <= s.len() {
                    parse_series_tail_at(s, j, seq![v])
                } else {
                    None
                },
                None => None,
            }
        }
    } else {
        None
    }
}

/// One entry at `i`: a quoted worker address, `:`, its series.
pub open spec fn parse_entry_at(s: Seq<char>, i: int) -> Option<
    ((Seq<char>, Seq<crate::types::SampleView>), int),
> {
    match parse_string_at(s, i) {
        None => None,
        Some((k, i1)) => if !lit_at(s, i1, ":"@) {
            None
        } else {
            match parse_series_at(s, i1 + 1) {
                None => None,
                Some((l, i2)) => Some(((k, l), i2)),
            }
        },
    }
}

/// The rest of a mapping after its first entry.
pub open spec fn parse_entries_tail_at(
    s: Seq<char>,
    i: int,
    acc: Seq<(Seq<char>, Seq<crate::types::SampleView>)>,
) -> Option<(Seq<(Seq<char>, Seq<crate::types::SampleView>)>, int)>
    decreases s.len() - i,
{
    if 0 <= i < s.len() && s[i] == '}' {
        Some((acc, i + 1))
    } else if 0 <= i < s.len() && s[i] == ',' {
        match parse_entry_at(s, i + 1) {
            Some((e, j)) => if i < j <= s.len() {
                parse_entries_tail_at(s, j, acc.push(e))
            } else {
                None
            },
            None => None,
        }
    } else {
        None
    }
}

/// A mapping at `i`.
pub open spec fn parse_entries_at(s: Seq<char>, i: int) -> Option<
    (Seq<(Seq<char>, Seq<crate::types::SampleView>)>, int),
> {
    if 0 <= i < s.len() && s[i] == '{' {
        if i + 1 < s.len() && s[i + 1] == '}' {
            Some((Seq::empty(), i + 2))
        } else {
            match parse_entry_at(s, i + 1) {
                Some((e, j)) => if i + 1 < j <= s.len() {
                    parse_entries_tail_at(s, j, seq![e])
                } else {
                    None
                },
                None => None,
            }
        }
    } else {
        None
    }
}

/// The comparison mapping at `i`: `null`, or a mapping.
pub open spec fn parse_opt_entries_at(s: Seq<char>, i: int) -> Option<
    (Option<Seq<(Seq<char>, Seq<crate::types::SampleView>)>>, int),
> {
    if lit_at(s, i, "null"@) {
        Some((None, i + 4))
    } else {
        match parse_entries_at(s, i) {
            Some((m, j)) => Some((Some(m), j)),
            None => None,
        }
    }
}

/// A whole snapshot: both mappings in order, and nothing after the closing
/// brace.
pub open spec fn parse_snapshot_spec(s: Seq<char>) -> Option<crate::types::SnapshotView> {
    if !lit_at(s, 0, "{\"target_results\":"@) {
        None
    } else {
        match parse_entries_at(s, "{\"target_results\":"@.len() as int) {
            None => None,
            Some((t, i1)) => if !lit_at(s, i1, ",\"comparison_results\":"@) {
                None
            } else {
                match parse_opt_entries_at(s, i1 + ",\"comparison_results\":"@.len()) {
                    None => None,
                    Some((c, i2)) => if lit_at(s, i2, "}"@) && i2 + 1 == s.len() {
                        Some(
                            crate::types::SnapshotView {
                                target_results: t,
                                comparison_results: c,
                            },
                        )
                    } else {
                        None
                    },
                }
            },
        }
    }
}


// ---------------------------------------------------------------------------
// The snapshot text: a parse of an encoding returns what was encoded
// ---------------------------------------------------------------------------
/// A literal made of two parts stands where its parts stand in turn.
proof fn lemma_lit_split(s: Seq<char>, i: int, a: Seq<char>, b: Seq<char>)
    requires
        lit_at(s, i, a + b),
    ensures
        lit_at(s, i, a),
        lit_at(s, i + a.len(), b),
{
    assert(s.subrange(i, i + a.len() as int) =~= a) by {
        assert forall|k: int| 0 <= k < a.len() implies s.subrange(i, i + a.len() as int)[k] == a[k] by {
            assert(s.subrange(i, i + (a + b).len() as int)[k] == s[i + k]);
            assert((a + b)[k] == a[k]);
        }
    }
    assert(s.subrange(i + a.len(), i + a.len() + b.len() as int) =~= b) by {
        assert forall|k: int|
            0 <= k < b.len() implies s.subrange(
            i + a.len(),
            i + a.len() + b.len() as int,
        )[k] == b[k] by {
            assert(s.subrange(i, i + (a + b).len() as int)[a.len() + k] == s[i + a.len() + k]);
            assert((a + b)[a.len() + k] == b[k]);
        }
    }
}

/// The character a literal puts at each of its positions.
proof fn lemma_lit_char(s: Seq<char>, i: int, l: Seq<char>, k: int)
    requires
        lit_at(s, i, l),
        0 <= k < l.len(),
    ensures
        s[i + k] == l[k],
{
    assert(s.subrange(i, i + l.len() as int)[k] == s[i + k]);
}

/// Where a run of digits ends: right after its known extent.
proof fn lemma_digits_end_exact(s: Seq<char>, i: int, j: int)
    requires
        0 <= i <= j <= s.len(),
        forall|k: int| i <= k < j ==> is_digit(#[trigger] s[k]),
        j == s.len() || !is_digit(s[j]),
    ensures
        digits_end(s, i) == j,
    decreases j - i,
{
    if i < j {
        lemma_digits_end_exact(s, i + 1, j);
    }
}

/// A number's own text parses back to the number, when what follows is not
/// a digit.
proof fn lemma_parse_u64_enc(s: Seq<char>, i: int, n: u64)
    requires
        lit_at(s, i, dec_of(n as int)),
        i + dec_of(n as int).len() == s.len() || !is_digit(s[i + dec_of(n as int).len()]),
    ensures
        parse_u64_at(s, i) == Some((n, i + dec_of(n as int).len())),
{
    let l = dec_of(n as int);
    let j = i + l.len();
    lemma_dec_of_digits(n as int);
    assert forall|k: int| i <= k < j implies is_digit(#[trigger] s[k]) by {
        lemma_lit_char(s, i, l, k - i);
    }
    lemma_digits_end_exact(s, i, j);
    assert(s.subrange(i, j) == l);
    lemma_val_of_dec(n as int);
}

/// An optional number's own text parses back to it.
proof fn lemma_parse_opt_enc(s: Seq<char>, i: int, o: Option<u64>)
    requires
        lit_at(s, i, enc_opt(o)),
        i + enc_opt(o).len() == s.len() || !is_digit(s[i + enc_opt(o).len()]),
    ensures
        parse_opt_at(s, i) == Some((o, i + enc_opt(o).len())),
{
    reveal_strlit("null");
    match o {
        None => {
            assert(lit_at(s, i, "null"@));
        },
        Some(v) => {
            lemma_dec_of_digits(v as int);
            lemma_lit_char(s, i, dec_of(v as int), 0);
            assert(is_digit(s[i]));
            if lit_at(s, i, "null"@) {
                lemma_lit_char(s, i, "null"@, 0);
                assert(s[i] == 'n');
                assert(!is_digit('n'));
            }
            lemma_parse_u64_enc(s, i, v);
        },
    }
}

/// Two characters with one code point are one character.
proof fn lemma_char_eq(c1: char, c2: char)
    requires
        c1 as u32 == c2 as u32,
    ensures
        c1 == c2,
{
}

/// An escaped string's text, up to its closing quote, parses back to the
/// string.
proof fn lemma_parse_str_body_esc(s: Seq<char>, i: int, t: Seq<char>)
    requires
        lit_at(s, i, esc(t)),
        i + esc(t).len() < s.len(),
        s[i + esc(t).len()] == '"',
    ensures
        parse_str_body(s, i) == Some((t, i + esc(t).len() + 1)),
    decreases t.len(),
{
    if t.len() == 0 {
        assert(esc(t).len() == 0);
    } else {
        let c = t[0];
        let ec = esc_char(c);
        let rest = t.drop_first();
        assert(esc(t) == ec + esc(rest));
        lemma_lit_split(s, i, ec, esc(rest));
        let i2 = i + ec.len();
        lemma_parse_str_body_esc(s, i2, rest);
        if c == '"' {
            lemma_lit_char(s, i, ec, 0);
            lemma_lit_char(s, i, ec, 1);
            assert(seq!['"'] + rest =~= t);
        } else if c == '\\' {
            lemma_lit_char(s, i, ec, 0);
            lemma_lit_char(s, i, ec, 1);
            assert(seq!['\\'] + rest =~= t);
        } else if (c as u32) < 32 {
            lemma_lit_char(s, i, ec, 0);
            lemma_lit_char(s, i, ec, 1);
            lemma_lit_char(s, i, ec, 2);
            lemma_lit_char(s, i, ec, 3);
            lemma_lit_char(s, i, ec, 4);
            lemma_lit_char(s, i, ec, 5);
            let u = c as u32 as int;
            vstd::arithmetic::div_mod::lemma_fundamental_div_mod(u, 16);
            assert(hex_val(hex_char(u / 16)) == u / 16);
            assert(hex_val(hex_char(u % 16)) == u % 16);
            assert(hex_val(s[i + 4]) * 16 + hex_val(s[i + 5]) == u);
            let vu = (hex_val(s[i + 4]) * 16 + hex_val(s[i + 5])) as u32;
            assert(vu == c as u32);
            assert(((vu as u8) as char) as u32 == vu);
            let d = ((hex_val(s[i + 4]) * 16 + hex_val(s[i + 5])) as u8) as char;
            assert(d == (vu as u8) as char);
            assert(d as u32 == c as u32);
            lemma_char_eq(d, c);
            assert(d == c);
            assert(seq![c] + rest =~= t);
        } else {
            lemma_lit_char(s, i, ec, 0);
            assert(seq![c] + rest =~= t);
        }
    }
}

/// A quoted, escaped string parses back to its content.
proof fn lemma_parse_string_esc(s: Seq<char>, i: int, t: Seq<char>)
    requires
        0 <= i < s.len(),
        s[i] == '"',
        lit_at(s, i + 1, esc(t)),
        i + 1 + esc(t).len() < s.len(),
        s[i + 1 + esc(t).len()] == '"',
    ensures
        parse_string_at(s, i) == Some((t, i + esc(t).len() + 2)),
{
    lemma_parse_str_body_esc(s, i + 1, t);
}


/// A sample's own text parses back to the sample.
proof fn lemma_parse_sample_enc(s: Seq<char>, i: int, v: crate::types::SampleView)
    requires
        lit_at(s, i, enc_sample(v)),
    ensures
        parse_sample_at(s, i) == Some((v, i + enc_sample(v).len())),
{
    reveal_strlit("{\"ip\":\"");
    reveal_strlit("{\"ip\":");
    reveal_strlit("\"");
    reveal_strlit("\",\"dns_lookup_duration\":");
    reveal_strlit(",\"dns_lookup_duration\":");
    reveal_strlit(",\"tcp_connect_duration\":");
    reveal_strlit(",\"http_get_send_duration\":");
    reveal_strlit(",\"ttfb_duration\":");
    reveal_strlit(",\"tls_handshake_duration\":");
    reveal_strlit(",\"overall_duration\":");
    reveal_strlit("}");
    let r13 = "}"@;
    let r12 = enc_opt(v.overall_duration) + r13;
    let r11 = ",\"overall_duration\":"@ + r12;
    let r10 = enc_opt(v.tls_handshake_duration) + r11;
    let r9 = ",\"tls_handshake_duration\":"@ + r10;
    let r8 = dec_of(v.ttfb_duration as int) + r9;
    let r7 = ",\"ttfb_duration\":"@ + r8;
    let r6 = dec_of(v.http_get_send_duration as int) + r7;
    let r5 = ",\"http_get_send_duration\":"@ + r6;
    let r4 = dec_of(v.tcp_connect_duration as int) + r5;
    let r3 = ",\"tcp_connect_duration\":"@ + r4;
    let r2 = enc_opt(v.dns_lookup_duration) + r3;
    let r1 = "\",\"dns_lookup_duration\":"@ + r2;
    let r0 = esc(v.ip) + r1;
    assert(enc_sample(v) == "{\"ip\":\""@ + r0);
    lemma_lit_split(s, i, "{\"ip\":\""@, r0);
    let p0 = i + "{\"ip\":\""@.len();
    lemma_lit_split(s, p0, esc(v.ip), r1);
    let p1 = p0 + esc(v.ip).len();
    lemma_lit_split(s, p1, "\",\"dns_lookup_duration\":"@, r2);
    let p2 = p1 + "\",\"dns_lookup_duration\":"@.len();
    lemma_lit_split(s, p2, enc_opt(v.dns_lookup_duration), r3);
    let p3 = p2 + enc_opt(v.dns_lookup_duration).len();
    lemma_lit_split(s, p3, ",\"tcp_connect_duration\":"@, r4);
    let p4 = p3 + ",\"tcp_connect_duration\":"@.len();
    lemma_lit_split(s, p4, dec_of(v.tcp_connect_duration as int), r5);
    let p5 = p4 + dec_of(v.tcp_connect_duration as int).len();
    lemma_lit_split(s, p5, ",\"http_get_send_duration\":"@, r6);
    let p6 = p5 + ",\"http_get_send_duration\":"@.len();
    lemma_lit_split(s, p6, dec_of(v.http_get_send_duration as int), r7);
    let p7 = p6 + dec_of(v.http_get_send_duration as int).len();
    lemma_lit_split(s, p7, ",\"ttfb_duration\":"@, r8);
    let p8 = p7 + ",\"ttfb_duration\":"@.len();
    lemma_lit_split(s, p8, dec_of(v.ttfb_duration as int), r9);
    let p9 = p8 + dec_of(v.ttfb_duration as int).len();
    lemma_lit_split(s, p9, ",\"tls_handshake_duration\":"@, r10);
    let p10 = p9 + ",\"tls_handshake_duration\":"@.len();
    lemma_lit_split(s, p10, enc_opt(v.tls_handshake_duration), r11);
    let p11 = p10 + enc_opt(v.tls_handshake_duration).len();
    lemma_lit_split(s, p11, ",\"overall_duration\":"@, r12);
    let p12 = p11 + ",\"overall_duration\":"@.len();
    lemma_lit_split(s, p12, enc_opt(v.overall_duration), r13);
    let p13 = p12 + enc_opt(v.overall_duration).len();
    // the opening literal carries the value's opening quote
    assert("{\"ip\":\""@ =~= "{\"ip\":"@ + "\""@);
    assert(lit_at(s, i, "{\"ip\":"@ + "\""@));
    lemma_lit_split(s, i, "{\"ip\":"@, "\""@);
    lemma_lit_char(s, i, "{\"ip\":\""@, 6);
    assert(s[i + 6] == '"');
    // the ip string
    lemma_lit_char(s, p1, "\",\"dns_lookup_duration\":"@, 0);
    assert(s[p1] == '"');
    lemma_parse_string_esc(s, i + 6, v.ip);
    assert(parse_string_at(s, i + 6) == Some((v.ip, p1 + 1)));
    // the field separator after the ip
    assert("\",\"dns_lookup_duration\":"@ =~= "\""@ + ",\"dns_lookup_duration\":"@);
    assert(lit_at(s, p1, "\""@ + ",\"dns_lookup_duration\":"@));
    lemma_lit_split(s, p1, "\""@, ",\"dns_lookup_duration\":"@);
    // the six duration fields, each followed by a non-digit
    lemma_lit_char(s, p3, ",\"tcp_connect_duration\":"@, 0);
    assert(!is_digit(s[p3]));
    lemma_parse_opt_enc(s, p2, v.dns_lookup_duration);
    lemma_lit_char(s, p5, ",\"http_get_send_duration\":"@, 0);
    assert(!is_digit(s[p5]));
    lemma_parse_u64_enc(s, p4, v.tcp_connect_duration);
    lemma_lit_char(s, p7, ",\"ttfb_duration\":"@, 0);
    assert(!is_digit(s[p7]));
    lemma_parse_u64_enc(s, p6, v.http_get_send_duration);
    lemma_lit_char(s, p9, ",\"tls_handshake_duration\":"@, 0);
    assert(!is_digit(s[p9]));
    lemma_parse_u64_enc(s, p8, v.ttfb_duration);
    lemma_lit_char(s, p11, ",\"overall_duration\":"@, 0);
    assert(!is_digit(s[p11]));
    lemma_parse_opt_enc(s, p10, v.tls_handshake_duration);
    lemma_lit_char(s, p13, "}"@, 0);
    assert(!is_digit(s[p13]));
    lemma_parse_opt_enc(s, p12, v.overall_duration);
    // what the parser assembles is the sample itself
    match parse_sample_at(s, i) {
        Some((w, j)) => {
            assert(w =~= v);
            assert(j == p13 + 1);
        },
        None => {
            assert(false);
        },
    }
}


/// The tail of a series' text parses back to the samples behind the commas,
/// appended to whatever was already parsed.
proof fn lemma_parse_series_tail_enc(
    s: Seq<char>,
    i: int,
    l: Seq<crate::types::SampleView>,
    acc: Seq<crate::types::SampleView>,
)
    requires
        lit_at(s, i, enc_series_tail(l)),
    ensures
        parse_series_tail_at(s, i, acc) == Some((acc + l, i + enc_series_tail(l).len())),
    decreases l.len(),
{
    reveal_strlit("]");
    reveal_strlit(",");
    reveal_strlit("{\"ip\":\"");
    if l.len() == 0 {
        lemma_lit_char(s, i, "]"@, 0);
        assert(acc + l =~= acc);
    } else {
        lemma_lit_split(s, i, ","@, enc_sample(l[0]) + enc_series_tail(l.drop_first()));
        lemma_lit_char(s, i, ","@, 0);
        assert(s[i] == ',');
        lemma_lit_split(s, i + 1, enc_sample(l[0]), enc_series_tail(l.drop_first()));
        lemma_parse_sample_enc(s, i + 1, l[0]);
        let j = i + 1 + enc_sample(l[0]).len();
        lemma_parse_series_tail_enc(s, j, l.drop_first(), acc.push(l[0]));
        assert(acc.push(l[0]) + l.drop_first() =~= acc + l);
    }
}

/// A series' own text parses back to the series.
proof fn lemma_parse_series_enc(s: Seq<char>, i: int, l: Seq<crate::types::SampleView>)
    requires
        lit_at(s, i, enc_series(l)),
    ensures
        parse_series_at(s, i) == Some((l, i + enc_series(l).len())),
{
    reveal_strlit("[");
    reveal_strlit("]");
    reveal_strlit("{\"ip\":\"");
    if l.len() == 0 {
        lemma_lit_split(s, i, "["@, "]"@);
        lemma_lit_char(s, i, "["@, 0);
        lemma_lit_char(s, i + 1, "]"@, 0);
        assert(Seq::<crate::types::SampleView>::empty() =~= l);
    } else {
        lemma_lit_split(s, i, "["@, enc_sample(l[0]) + enc_series_tail(l.drop_first()));
        lemma_lit_char(s, i, "["@, 0);
        lemma_lit_split(s, i + 1, enc_sample(l[0]), enc_series_tail(l.drop_first()));
        assert(enc_sample(l[0])[0] == '{');
        lemma_lit_char(s, i + 1, enc_sample(l[0]), 0);
        assert(s[i + 1] == '{');
        lemma_parse_sample_enc(s, i + 1, l[0]);
        let j = i + 1 + enc_sample(l[0]).len();
        lemma_parse_series_tail_enc(s, j, l.drop_first(), seq![l[0]]);
        assert(seq![l[0]] + l.drop_first() =~= l);
    }
}

/// An entry's own text parses back to the entry.
proof fn lemma_parse_entry_enc(
    s: Seq<char>,
    i: int,
    e: (Seq<char>, Seq<crate::types::SampleView>),
)
    requires
        lit_at(s, i, enc_entry(e)),
    ensures
        parse_entry_at(s, i) == Some((e, i + enc_entry(e).len())),
{
    reveal_strlit("\"");
    reveal_strlit(":");
    reveal_strlit("\":");
    lemma_lit_split(s, i, "\""@, esc(e.0) + ("\":"@ + enc_series(e.1)));
    lemma_lit_char(s, i, "\""@, 0);
    lemma_lit_split(s, i + 1, esc(e.0), "\":"@ + enc_series(e.1));
    let q = i + 1 + esc(e.0).len();
    lemma_lit_split(s, q, "\":"@, enc_series(e.1));
    lemma_lit_char(s, q, "\":"@, 0);
    assert(s[q] == '"');
    lemma_parse_string_esc(s, i, e.0);
    assert("\":"@ =~= "\""@ + ":"@);
    assert(lit_at(s, q, "\""@ + ":"@));
    lemma_lit_split(s, q, "\""@, ":"@);
    lemma_parse_series_enc(s, q + 2, e.1);
    match parse_entry_at(s, i) {
        Some((w, j)) => {
            assert(w == e);
            assert(j == i + enc_entry(e).len());
        },
        None => {
            assert(false);
        },
    }
}

/// The tail of a mapping's text parses back to the entries behind the
/// commas.
#[verifier::rlimit(80)]
proof fn lemma_parse_entries_tail_enc(
    s: Seq<char>,
    i: int,
    m: Seq<(Seq<char>, Seq<crate::types::SampleView>)>,
    acc: Seq<(Seq<char>, Seq<crate::types::SampleView>)>,
)
    requires
        lit_at(s, i, enc_entries_tail(m)),
    ensures
        parse_entries_tail_at(s, i, acc) == Some((acc + m, i + enc_entries_tail(m).len())),
    decreases m.len(),
{
    reveal_strlit("}");
    reveal_strlit(",");
    reveal_strlit("\"");
    if m.len() == 0 {
        lemma_lit_char(s, i, "}"@, 0);
        assert(acc + m =~= acc);
    } else {
        lemma_lit_split(s, i, ","@, enc_entry(m[0]) + enc_entries_tail(m.drop_first()));
        lemma_lit_char(s, i, ","@, 0);
        lemma_lit_split(s, i + 1, enc_entry(m[0]), enc_entries_tail(m.drop_first()));
        lemma_parse_entry_enc(s, i + 1, m[0]);
        let j = i + 1 + enc_entry(m[0]).len();
        lemma_parse_entries_tail_enc(s, j, m.drop_first(), acc.push(m[0]));
        assert(acc.push(m[0]) + m.drop_first() =~= acc + m);
    }
}

/// A mapping's own text parses back to the mapping.
#[verifier::rlimit(80)]
proof fn lemma_parse_entries_enc(
    s: Seq<char>,
    i: int,
    m: Seq<(Seq<char>, Seq<crate::types::SampleView>)>,
)
    requires
        lit_at(s, i, enc_entries(m)),
    ensures
        parse_entries_at(s, i) == Some((m, i + enc_entries(m).len())),
{
    reveal_strlit("{");
    reveal_strlit("}");
    reveal_strlit("\"");
    if m.len() == 0 {
        lemma_lit_split(s, i, "{"@, "}"@);
        lemma_lit_char(s, i, "{"@, 0);
        lemma_lit_char(s, i + 1, "}"@, 0);
        assert(Seq::<(Seq<char>, Seq<crate::types::SampleView>)>::empty() =~= m);
    } else {
        lemma_lit_split(s, i, "{"@, enc_entry(m[0]) + enc_entries_tail(m.drop_first()));
        lemma_lit_char(s, i, "{"@, 0);
        lemma_lit_split(s, i + 1, enc_entry(m[0]), enc_entries_tail(m.drop_first()));
        assert(enc_entry(m[0])[0] == '"');
        lemma_lit_char(s, i + 1, enc_entry(m[0]), 0);
        assert(s[i + 1] == '"');
        lemma_parse_entry_enc(s, i + 1, m[0]);
        let j = i + 1 + enc_entry(m[0]).len();
        lemma_parse_entries_tail_enc(s, j, m.drop_first(), seq![m[0]]);
        assert(seq![m[0]] + m.drop_first() =~= m);
    }
}

/// The comparison mapping's own text parses back to it.
proof fn lemma_parse_opt_entries_enc(
    s: Seq<char>,
    i: int,
    o: Option<Seq<(Seq<char>, Seq<crate::types::SampleView>)>>,
)
    requires
        lit_at(s, i, enc_opt_entries(o)),
    ensures
        parse_opt_entries_at(s, i) == Some((o, i + enc_opt_entries(o).len())),
{
    reveal_strlit("null");
    reveal_strlit("{");
    match o {
        None => {
            assert(lit_at(s, i, "null"@));
        },
        Some(m) => {
            assert(enc_entries(m)[0] == '{');
            lemma_lit_char(s, i, enc_entries(m), 0);
            assert(s[i] == '{');
            if lit_at(s, i, "null"@) {
                lemma_lit_char(s, i, "null"@, 0);
                assert(s[i] == 'n');
            }
            lemma_parse_entries_enc(s, i, m);
        },
    }
}

/// Parsing the text of a snapshot gives back the snapshot, field for field:
/// the round trip of the persisted form, for every snapshot.
#[verifier::rlimit(80)]
pub proof fn lemma_snapshot_round_trip(v: crate::types::SnapshotView)
    ensures
        parse_snapshot_spec(enc_snapshot(v)) == Some(v),
{
    reveal_strlit("{\"target_results\":");
    reveal_strlit(",\"comparison_results\":");
    reveal_strlit("}");
    let s = enc_snapshot(v);
    assert(lit_at(s, 0, s)) by {
        assert(s.subrange(0, s.len() as int) =~= s);
    }
    lemma_lit_split(
        s,
        0,
        "{\"target_results\":"@,
        enc_entries(v.target_results) + (",\"comparison_results\":"@ + (enc_opt_entries(
            v.comparison_results,
        ) + "}"@)),
    );
    let p0 = "{\"target_results\":"@.len() as int;
    lemma_lit_split(
        s,
        p0,
        enc_entries(v.target_results),
        ",\"comparison_results\":"@ + (enc_opt_entries(v.comparison_results) + "}"@),
    );
    lemma_parse_entries_enc(s, p0, v.target_results);
    let p1 = p0 + enc_entries(v.target_results).len();
    lemma_lit_split(
        s,
        p1,
        ",\"comparison_results\":"@,
        enc_opt_entries(v.comparison_results) + "}"@,
    );
    let p2 = p1 + ",\"comparison_results\":"@.len();
    lemma_lit_split(s, p2, enc_opt_entries(v.comparison_results), "}"@);
    lemma_parse_opt_entries_enc(s, p2, v.comparison_results);
    let p3 = p2 + enc_opt_entries(v.comparison_results).len();
    assert(p3 + 1 == s.len());
    match parse_snapshot_spec(s) {
        Some(w) => {
            assert(w =~= v);
        },
        None => {
            assert(false);
        },
    }
}


// ---------------------------------------------------------------------------
// The snapshot text: executable encoder
// ---------------------------------------------------------------------------
/// Relies on String::push: it appends exactly the one character.
#[verifier::external_body]
fn push_char(out: &mut String, c: char)
    ensures
        final(out)@ == old(out)@.push(c),
{
    out.push(c)
}

/// Appends one character in its escaped form.
fn push_esc_char(out: &mut String, c: char)
    ensures
        final(out)@ == old(out)@ + esc_char(c),
{
    let u = c as u32;
    if c == '"' {
        push_char(out, '\\');
        push_char(out, '"');
        proof {
            assert(final(out)@ =~= old(out)@ + esc_char(c));
        }
    } else if c == '\\' {
        push_char(out, '\\');
        push_char(out, '\\');
        proof {
            assert(final(out)@ =~= old(out)@ + esc_char(c));
        }
    } else if u < 32 {
        let hi = u / 16;
        let lo = u % 16;
        let h1: char = if hi < 10 {
            ((48 + hi) as u8) as char
        } else {
            ((87 + hi) as u8) as char
        };
        let h2: char = if lo < 10 {
            ((48 + lo) as u8) as char
        } else {
            ((87 + lo) as u8) as char
        };
        push_char(out, '\\');
        push_char(out, 'u');
        push_char(out, '0');
        push_char(out, '0');
        push_char(out, h1);
        push_char(out, h2);
        proof {
            assert(h1 == hex_char(u as int / 16));
            assert(h2 == hex_char(u as int % 16));
            assert(final(out)@ =~= old(out)@ + esc_char(c));
        }
    } else {
        push_char(out, c);
        proof {
            assert(final(out)@ =~= old(out)@ + esc_char(c));
        }
    }
}

/// Appends a string's characters from `i` on, each in escaped form.
fn push_escaped_from(out: &mut String, s: &str, i: usize)
    requires
        i <= s@.len(),
    ensures
        final(out)@ == old(out)@ + esc(s@.skip(i as int)),
    decreases s@.len() - i,
{
    let n = s.unicode_len();
    let ghost t = s@.skip(i as int);
    if i == n {
        proof {
            assert(final(out)@ =~= old(out)@ + esc(t));
        }
    } else {
        push_esc_char(out, s.get_char(i));
        push_escaped_from(out, s, i + 1);
        proof {
            assert(t[0] == s@[i as int]);
            assert(t.drop_first() =~= s@.skip(i + 1));
            assert(final(out)@ =~= old(out)@ + esc(t));
        }
    }
}

/// Appends a string in its escaped form.
fn push_escaped(out: &mut String, s: &str)
    ensures
        final(out)@ == old(out)@ + esc(s@),
{
    push_escaped_from(out, s, 0);
    proof {
        assert(s@.skip(0) =~= s@);
    }
}

/// Appends an optional duration.
fn push_opt(out: &mut String, o: Option<u64>)
    ensures
        final(out)@ == old(out)@ + enc_opt(o),
{
    match o {
        Some(v) => {
            let t = u64_to_dec(v);
            out.append(t.as_str());
        },
        None => {
            out.append("null");
        },
    }
}

/// Appends one sample.
#[verifier::rlimit(100)]
fn push_sample(out: &mut String, v: &MeasureResponse)
    ensures
        final(out)@ == old(out)@ + enc_sample(v@),
{
    out.append("{\"ip\":\"");
    push_escaped(out, v.ip.as_str());
    out.append("\",\"dns_lookup_duration\":");
    push_opt(out, v.dns_lookup_duration);
    out.append(",\"tcp_connect_duration\":");
    let t1 = u64_to_dec(v.tcp_connect_duration);
    out.append(t1.as_str());
    out.append(",\"http_get_send_duration\":");
    let t2 = u64_to_dec(v.http_get_send_duration);
    out.append(t2.as_str());
    out.append(",\"ttfb_duration\":");
    let t3 = u64_to_dec(v.ttfb_duration);
    out.append(t3.as_str());
    out.append(",\"tls_handshake_duration\":");
    push_opt(out, v.tls_handshake_duration);
    out.append(",\"overall_duration\":");
    push_opt(out, v.overall_duration);
    out.append("}");
    proof {
        assert(final(out)@ =~= old(out)@ + enc_sample(v@));
    }
}

/// Appends the rest of a series, from `from` on.
fn push_series_tail(out: &mut String, v: &Vec<MeasureResponse>, from: usize)
    requires
        1 <= from <= v@.len(),
    ensures
        final(out)@ == old(out)@ + enc_series_tail(series_view(v@).skip(from as int)),
    decreases v@.len() - from,
{
    let ghost l = series_view(v@).skip(from as int);
    if from == v.len() {
        out.append("]");
        proof {
            assert(l.len() == 0);
            assert(final(out)@ =~= old(out)@ + enc_series_tail(l));
        }
    } else {
        out.append(",");
        push_sample(out, &v[from]);
        push_series_tail(out, v, from + 1);
        proof {
            assert(l[0] == series_view(v@)[from as int]);
            assert(l.drop_first() =~= series_view(v@).skip(from + 1));
            assert(final(out)@ =~= old(out)@ + enc_series_tail(l));
        }
    }
}

/// Appends a series.
fn push_series(out: &mut String, v: &Vec<MeasureResponse>)
    ensures
        final(out)@ == old(out)@ + enc_series(series_view(v@)),
{
    let ghost l = series_view(v@);
    if v.len() == 0 {
        out.append("[");
        out.append("]");
        proof {
            assert(final(out)@ =~= old(out)@ + enc_series(l));
        }
    } else {
        out.append("[");
        push_sample(out, &v[0]);
        push_series_tail(out, v, 1);
        proof {
            assert(l[0] == series_view(v@)[0]);
            assert(l.drop_first() =~= series_view(v@).skip(1));
            assert(final(out)@ =~= old(out)@ + enc_series(l));
        }
    }
}

/// Appends one entry.
fn push_entry(out: &mut String, e: &(String, Vec<MeasureResponse>))
    ensures
        final(out)@ == old(out)@ + enc_entry((e.0@, series_view(e.1@))),
{
    out.append("\"");
    push_escaped(out, e.0.as_str());
    out.append("\":");
    push_series(out, &e.1);
    proof {
        assert(final(out)@ =~= old(out)@ + enc_entry((e.0@, series_view(e.1@))));
    }
}

/// Appends the rest of a mapping, from `from` on.
fn push_entries_tail(out: &mut String, v: &Vec<(String, Vec<MeasureResponse>)>, from: usize)
    requires
        1 <= from <= v@.len(),
    ensures
        final(out)@ == old(out)@ + enc_entries_tail(entries_view(v@).skip(from as int)),
    decreases v@.len() - from,
{
    let ghost m = entries_view(v@).skip(from as int);
    if from == v.len() {
        out.append("}");
        proof {
            assert(m.len() == 0);
            assert(final(out)@ =~= old(out)@ + enc_entries_tail(m));
        }
    } else {
        out.append(",");
        push_entry(out, &v[from]);
        push_entries_tail(out, v, from + 1);
        proof {
            assert(m[0] == entries_view(v@)[from as int]);
            assert(m.drop_first() =~= entries_view(v@).skip(from + 1));
            assert(final(out)@ =~= old(out)@ + enc_entries_tail(m));
        }
    }
}

/// Appends a mapping.
fn push_entries(out: &mut String, v: &Vec<(String, Vec<MeasureResponse>)>)
    ensures
        final(out)@ == old(out)@ + enc_entries(entries_view(v@)),
{
    let ghost m = entries_view(v@);
    if v.len() == 0 {
        out.append("{");
        out.append("}");
        proof {
            assert(final(out)@ =~= old(out)@ + enc_entries(m));
        }
    } else {
        out.append("{");
        push_entry(out, &v[0]);
        push_entries_tail(out, v, 1);
        proof {
            assert(m[0] == entries_view(v@)[0]);
            assert(m.drop_first() =~= entries_view(v@).skip(1));
            assert(final(out)@ =~= old(out)@ + enc_entries(m));
        }
    }
}

/// The text of a snapshot: every snapshot has one, whatever its addresses
/// and ips hold.
#[verifier::rlimit(60)]
pub fn encode_snapshot(o: &Output) -> (r: String)
    ensures
        r@ == enc_snapshot(o@),
{
    let mut out = String::new();
    out.append("{\"target_results\":");
    push_entries(&mut out, &o.target_results);
    out.append(",\"comparison_results\":");
    match o.comparison_results {
        Some(ref cr) => {
            push_entries(&mut out, cr);
        },
        None => {
            out.append("null");
        },
    }
    out.append("}");
    proof {
        assert(out@ =~= enc_snapshot(o@));
    }
    out
}


// ---------------------------------------------------------------------------
// The snapshot text: executable parser
// ---------------------------------------------------------------------------
/// The value of a digit string never shrinks as digits are appended.
proof fn lemma_val_of_nonneg(ds: Seq<char>)
    requires
        forall|k: int| 0 <= k < ds.len() ==> is_digit(#[trigger] ds[k]),
    ensures
        val_of(ds) >= 0,
    decreases ds.len(),
{
    if ds.len() > 0 {
        assert(forall|k: int| 0 <= k < ds.drop_last().len() ==> is_digit(
            #[trigger] ds.drop_last()[k],
        ));
        lemma_val_of_nonneg(ds.drop_last());
    }
}

/// A prefix of a digit string never exceeds the whole.
proof fn lemma_val_of_prefix(ds: Seq<char>, k: int)
    requires
        0 <= k <= ds.len(),
        forall|q: int| 0 <= q < ds.len() ==> is_digit(#[trigger] ds[q]),
    ensures
        val_of(ds.subrange(0, k)) <= val_of(ds),
    decreases ds.len() - k,
{
    if k == ds.len() {
        assert(ds.subrange(0, k) =~= ds);
    } else {
        lemma_val_of_prefix(ds, k + 1);
        let p = ds.subrange(0, k + 1);
        assert(p.drop_last() =~= ds.subrange(0, k));
        assert(forall|q: int| 0 <= q < p.len() ==> is_digit(#[trigger] p[q]));
        assert(forall|q: int| 0 <= q < p.drop_last().len() ==> is_digit(
            #[trigger] p.drop_last()[q],
        ));
        lemma_val_of_nonneg(p.drop_last());
        assert(is_digit(p.last()));
        assert(val_of(p) == val_of(p.drop_last()) * 10 + digit_val(p.last()));
        assert(val_of(p.drop_last()) * 10 >= val_of(p.drop_last())) by (nonlinear_arith)
            requires
                val_of(p.drop_last()) >= 0,
        ;
    }
}

/// The end of the digit run at `i`.
fn digits_end_exec(s: &str, i: usize) -> (j: usize)
    requires
        i <= s@.len(),
    ensures
        j == digits_end(s@, i as int),
        i <= j <= s@.len(),
        forall|k: int| i <= k < j ==> is_digit(#[trigger] s@[k]),
    decreases s@.len() - i,
{
    let n = s.unicode_len();
    let mut j = i;
    while j < n
        invariant
            n == s@.len(),
            i <= j <= n,
            digits_end(s@, i as int) == digits_end(s@, j as int),
            forall|k: int| i <= k < j ==> is_digit(#[trigger] s@[k]),
        decreases n - j,
    {
        let c = s.get_char(j);
        let u = c as u32;
        if !(48 <= u && u <= 57) {
            assert(!is_digit(s@[j as int]));
            assert(digits_end(s@, j as int) == j);
            return j;
        }
        assert(is_digit(s@[j as int]));
        assert(digits_end(s@, j as int) == digits_end(s@, j + 1 as int));
        j = j + 1;
    }
    assert(digits_end(s@, j as int) == j);
    j
}

/// A number at `i`, as `parse_u64_at` reads it.
fn parse_u64_exec(s: &str, i: usize) -> (r: Option<(u64, usize)>)
    requires
        i <= s@.len(),
    ensures
        match parse_u64_at(s@, i as int) {
            Some((v, j)) => r matches Some(p) && p.0 == v && p.1 as int == j && j <= s@.len(),
            None => r is None,
        },
{
    let j = digits_end_exec(s, i);
    if j == i {
        return None;
    }
    let ghost ds = s@.subrange(i as int, j as int);
    proof {
        assert(forall|q: int| 0 <= q < ds.len() ==> is_digit(#[trigger] ds[q]));
    }
    let mut acc: u128 = 0;
    let mut k = i;
    while k < j
        invariant
            i <= k <= j <= s@.len(),
            ds == s@.subrange(i as int, j as int),
            forall|q: int| 0 <= q < ds.len() ==> is_digit(#[trigger] ds[q]),
            j == digits_end(s@, i as int),
            j > i,
            acc as int == val_of(ds.subrange(0, k - i)),
            acc <= u64::MAX as u128,
        decreases j - k,
    {
        let c = s.get_char(k);
        let u = c as u32;
        proof {
            assert(s@[k as int] == ds[k - i]);
            assert(is_digit(ds[k - i]));
        }
        let d = (u - 48) as u128;
        let newacc: u128 = acc * 10 + d;
        proof {
            let p = ds.subrange(0, k - i + 1);
            assert(p.drop_last() =~= ds.subrange(0, k - i));
            assert(p.last() == ds[k - i]);
            assert(newacc as int == val_of(p));
        }
        if newacc > u64::MAX as u128 {
            proof {
                lemma_val_of_prefix(ds, k - i + 1);
                assert(val_of(ds) > u64::MAX as int);
            }
            return None;
        }
        acc = newacc;
        k = k + 1;
    }
    proof {
        assert(ds.subrange(0, j - i) =~= ds);
    }
    Some((acc as u64, j))
}

/// An optional number at `i`.
fn parse_opt_exec(s: &str, i: usize) -> (r: Option<(Option<u64>, usize)>)
    requires
        i <= s@.len(),
    ensures
        match parse_opt_at(s@, i as int) {
            Some((v, j)) => r matches Some(p) && p.0 == v && p.1 as int == j && j <= s@.len(),
            None => r is None,
        },
{
    let n = s.unicode_len();
    if match_lit_at(s, i, "null") {
        proof {
            reveal_strlit("null");
        }
        Some((None, i + 4))
    } else {
        match parse_u64_exec(s, i) {
            Some((v, j)) => Some((Some(v), j)),
            None => None,
        }
    }
}

/// The content of a quoted string from `i` on, appended to `out`, as
/// `parse_str_body` reads it.
fn parse_str_body_exec(s: &str, i: usize, out: &mut String) -> (r: Option<usize>)
    requires
        i <= s@.len(),
    ensures
        match parse_str_body(s@, i as int) {
            Some((t, j)) => r matches Some(j2) && j2 as int == j && j <= s@.len() && final(out)@
                == old(out)@ + t,
            None => r is None,
        },
    decreases s@.len() - i,
{
    let n = s.unicode_len();
    if i >= n {
        return None;
    }
    let c = s.get_char(i);
    if c == '"' {
        proof {
            assert(final(out)@ =~= old(out)@ + Seq::<char>::empty());
        }
        return Some(i + 1);
    }
    if c == '\\' {
        if n - i > 1 && s.get_char(i + 1) == '"' {
            push_char(out, '"');
            let r = parse_str_body_exec(s, i + 2, out);
            proof {
                match parse_str_body(s@, i as int) {
                    Some((t, j)) => {
                        assert(final(out)@ =~= old(out)@ + t);
                    },
                    None => {},
                }
            }
            r
        } else if n - i > 1 && s.get_char(i + 1) == '\\' {
            push_char(out, '\\');
            let r = parse_str_body_exec(s, i + 2, out);
            proof {
                match parse_str_body(s@, i as int) {
                    Some((t, j)) => {
                        assert(final(out)@ =~= old(out)@ + t);
                    },
                    None => {},
                }
            }
            r
        } else if n - i > 5 && s.get_char(i + 1) == 'u' && s.get_char(i + 2) == '0' && s.get_char(
            i + 3,
        ) == '0' && is_hex_exec(s.get_char(i + 4)) && is_hex_exec(s.get_char(i + 5)) && hex_val_exec(
            s.get_char(i + 4),
        ) * 16 + hex_val_exec(s.get_char(i + 5)) < 32 {
            let v = hex_val_exec(s.get_char(i + 4)) * 16 + hex_val_exec(s.get_char(i + 5));
            push_char(out, (v as u8) as char);
            let r = parse_str_body_exec(s, i + 6, out);
            proof {
                match parse_str_body(s@, i as int) {
                    Some((t, j)) => {
                        assert(final(out)@ =~= old(out)@ + t);
                    },
                    None => {},
                }
            }
            r
        } else {
            None
        }
    } else {
        push_char(out, c);
        let r = parse_str_body_exec(s, i + 1, out);
        proof {
            match parse_str_body(s@, i as int) {
                Some((t, j)) => {
                    assert(final(out)@ =~= old(out)@ + t);
                },
                None => {},
            }
        }
        r
    }
}

/// Whether a character is a lower-case hexadecimal digit.
fn is_hex_exec(c: char) -> (b: bool)
    ensures
        b == is_hex(c),
{
    let u = c as u32;
    (48 <= u && u <= 57) || (97 <= u && u <= 102)
}

/// The value of a hexadecimal digit.
fn hex_val_exec(c: char) -> (v: u32)
    requires
        is_hex(c),
    ensures
        v as int == hex_val(c),
        v < 16,
{
    let u = c as u32;
    if u <= 57 {
        u - 48
    } else {
        u - 87
    }
}

/// A quoted string at `i`: its unescaped content as an owned copy.
fn parse_string_exec(s: &str, i: usize) -> (r: Option<(String, usize)>)
    requires
        i <= s@.len(),
    ensures
        match parse_string_at(s@, i as int) {
            Some((t, j)) => r matches Some(p) && p.0@ == t && p.1 as int == j && j <= s@.len(),
            None => r is None,
        },
{
    let n = s.unicode_len();
    if i < n && s.get_char(i) == '"' {
        let mut t = String::new();
        match parse_str_body_exec(s, i + 1, &mut t) {
            Some(j) => Some((t, j)),
            None => None,
        }
    } else {
        None
    }
}


/// The position after a required literal, or nothing when it is absent.
fn expect_lit(s: &str, i: usize, l: &str) -> (r: Option<usize>)
    requires
        i <= s@.len(),
    ensures
        lit_at(s@, i as int, l@) ==> (r matches Some(j) && j as int == i + l@.len() && j as int
            <= s@.len()),
        !lit_at(s@, i as int, l@) ==> r is None,
{
    let n = s.unicode_len();
    if match_lit_at(s, i, l) {
        Some(i + l.unicode_len())
    } else {
        None
    }
}

/// One sample at `i`, as `parse_sample_at` reads it.
fn parse_sample_exec(s: &str, i: usize) -> (r: Option<(MeasureResponse, usize)>)
    requires
        i <= s@.len(),
    ensures
        match parse_sample_at(s@, i as int) {
            Some((v, j)) => r matches Some(p) && p.0@ == v && p.1 as int == j && j <= s@.len(),
            None => r is None,
        },
{
    let i0 = match expect_lit(s, i, "{\"ip\":") {
        Some(x) => x,
        None => {
            return None;
        },
    };
    let (ip, i1) = match parse_string_exec(s, i0) {
        Some(p) => p,
        None => {
            return None;
        },
    };
    let i1b = match expect_lit(s, i1, ",\"dns_lookup_duration\":") {
        Some(x) => x,
        None => {
            return None;
        },
    };
    let (dns, i2) = match parse_opt_exec(s, i1b) {
        Some(p) => p,
        None => {
            return None;
        },
    };
    let i2b = match expect_lit(s, i2, ",\"tcp_connect_duration\":") {
        Some(x) => x,
        None => {
            return None;
        },
    };
    let (tcp, i3) = match parse_u64_exec(s, i2b) {
        Some(p) => p,
        None => {
            return None;
        },
    };
    let i3b = match expect_lit(s, i3, ",\"http_get_send_duration\":") {
        Some(x) => x,
        None => {
            return None;
        },
    };
    let (send, i4) = match parse_u64_exec(s, i3b) {
        Some(p) => p,
        None => {
            return None;
        },
    };
    let i4b = match expect_lit(s, i4, ",\"ttfb_duration\":") {
        Some(x) => x,
        None => {
            return None;
        },
    };
    let (ttfb, i5) = match parse_u64_exec(s, i4b) {
        Some(p) => p,
        None => {
            return None;
        },
    };
    let i5b = match expect_lit(s, i5, ",\"tls_handshake_duration\":") {
        Some(x) => x,
        None => {
            return None;
        },
    };
    let (tls, i6) = match parse_opt_exec(s, i5b) {
        Some(p) => p,
        None => {
            return None;
        },
    };
    let i6b = match expect_lit(s, i6, ",\"overall_duration\":") {
        Some(x) => x,
        None => {
            return None;
        },
    };
    let (overall, i7) = match parse_opt_exec(s, i6b) {
        Some(p) => p,
        None => {
            return None;
        },
    };
    let i8 = match expect_lit(s, i7, "}") {
        Some(x) => x,
        None => {
            return None;
        },
    };
    let m = MeasureResponse {
        ip,
        dns_lookup_duration: dns,
        tcp_connect_duration: tcp,
        http_get_send_duration: send,
        ttfb_duration: ttfb,
        tls_handshake_duration: tls,
        overall_duration: overall,
    };
    proof {
        reveal_strlit("}");
        match parse_sample_at(s@, i as int) {
            Some((v, j)) => {
                assert(m@ =~= v);
            },
            None => {
                assert(false);
            },
        }
    }
    Some((m, i8))
}

/// The rest of a series at `i`, appended behind what is already parsed.
fn parse_series_tail_exec(s: &str, i: usize, acc: Vec<MeasureResponse>) -> (r: Option<
    (Vec<MeasureResponse>, usize),
>)
    requires
        i <= s@.len(),
    ensures
        match parse_series_tail_at(s@, i as int, series_view(acc@)) {
            Some((l, j)) => r matches Some(p) && series_view(p.0@) == l && p.1 as int == j && j
                <= s@.len(),
            None => r is None,
        },
    decreases s@.len() - i,
{
    let n = s.unicode_len();
    if i < n && s.get_char(i) == ']' {
        return Some((acc, i + 1));
    }
    if i < n && s.get_char(i) == ',' {
        match parse_sample_exec(s, i + 1) {
            Some((v, j)) => {
                if i < j && j <= n {
                    let ghost accv = series_view(acc@);
                    let ghost vv = v@;
                    let mut acc2 = acc;
                    acc2.push(v);
                    proof {
                        assert(series_view(acc2@) =~= accv.push(vv));
                    }
                    parse_series_tail_exec(s, j, acc2)
                } else {
                    None
                }
            },
            None => None,
        }
    } else {
        None
    }
}

/// A series at `i`, as `parse_series_at` reads it.
fn parse_series_exec(s: &str, i: usize) -> (r: Option<(Vec<MeasureResponse>, usize)>)
    requires
        i <= s@.len(),
    ensures
        match parse_series_at(s@, i as int) {
            Some((l, j)) => r matches Some(p) && series_view(p.0@) == l && p.1 as int == j && j
                <= s@.len(),
            None => r is None,
        },
{
    let n = s.unicode_len();
    if i < n && s.get_char(i) == '[' {
        if i + 1 < n && s.get_char(i + 1) == ']' {
            let empty: Vec<MeasureResponse> = Vec::new();
            proof {
                assert(series_view(empty@) =~= Seq::<crate::types::SampleView>::empty());
            }
            return Some((empty, i + 2));
        }
        match parse_sample_exec(s, i + 1) {
            Some((v, j)) => {
                if i + 1 < j && j <= n {
                    let ghost vv = v@;
                    let mut acc: Vec<MeasureResponse> = Vec::new();
                    acc.push(v);
                    proof {
                        assert(series_view(acc@) =~= seq![vv]);
                    }
                    parse_series_tail_exec(s, j, acc)
                } else {
                    None
                }
            },
            None => None,
        }
    } else {
        None
    }
}

/// One entry at `i`, as `parse_entry_at` reads it.
fn parse_entry_exec(s: &str, i: usize) -> (r: Option<((String, Vec<MeasureResponse>), usize)>)
    requires
        i <= s@.len(),
    ensures
        match parse_entry_at(s@, i as int) {
            Some((e, j)) => r matches Some(p) && p.0.0@ == e.0 && series_view(p.0.1@) == e.1
                && p.1 as int == j && j <= s@.len(),
            None => r is None,
        },
{
    let (k, i1) = match parse_string_exec(s, i) {
        Some(p) => p,
        None => {
            return None;
        },
    };
    let i1b = match expect_lit(s, i1, ":") {
        Some(x) => x,
        None => {
            return None;
        },
    };
    proof {
        reveal_strlit(":");
    }
    match parse_series_exec(s, i1b) {
        Some((l, i2)) => Some(((k, l), i2)),
        None => None,
    }
}

/// The rest of a mapping at `i`, appended behind what is already parsed.
fn parse_entries_tail_exec(
    s: &str,
    i: usize,
    acc: Vec<(String, Vec<MeasureResponse>)>,
) -> (r: Option<(Vec<(String, Vec<MeasureResponse>)>, usize)>)
    requires
        i <= s@.len(),
    ensures
        match parse_entries_tail_at(s@, i as int, entries_view(acc@)) {
            Some((m, j)) => r matches Some(p) && entries_view(p.0@) == m && p.1 as int == j && j
                <= s@.len(),
            None => r is None,
        },
    decreases s@.len() - i,
{
    let n = s.unicode_len();
    if i < n && s.get_char(i) == '}' {
        return Some((acc, i + 1));
    }
    if i < n && s.get_char(i) == ',' {
        match parse_entry_exec(s, i + 1) {
            Some((e, j)) => {
                if i < j && j <= n {
                    let ghost accv = entries_view(acc@);
                    let ghost ev = (e.0@, series_view(e.1@));
                    let mut acc2 = acc;
                    acc2.push(e);
                    proof {
                        assert(entries_view(acc2@) =~~= accv.push(ev));
                    }
                    parse_entries_tail_exec(s, j, acc2)
                } else {
                    None
                }
            },
            None => None,
        }
    } else {
        None
    }
}

/// A mapping at `i`, as `parse_entries_at` reads it.
fn parse_entries_exec(s: &str, i: usize) -> (r: Option<
    (Vec<(String, Vec<MeasureResponse>)>, usize),
>)
    requires
        i <= s@.len(),
    ensures
        match parse_entries_at(s@, i as int) {
            Some((m, j)) => r matches Some(p) && entries_view(p.0@) == m && p.1 as int == j && j
                <= s@.len(),
            None => r is None,
        },
{
    let n = s.unicode_len();
    if i < n && s.get_char(i) == '{' {
        if i + 1 < n && s.get_char(i + 1) == '}' {
            let empty: Vec<(String, Vec<MeasureResponse>)> = Vec::new();
            proof {
                assert(entries_view(empty@) =~= Seq::<
                    (Seq<char>, Seq<crate::types::SampleView>),
                >::empty());
            }
            return Some((empty, i + 2));
        }
        match parse_entry_exec(s, i + 1) {
            Some((e, j)) => {
                if i + 1 < j && j <= n {
                    let ghost ev = (e.0@, series_view(e.1@));
                    let mut acc: Vec<(String, Vec<MeasureResponse>)> = Vec::new();
                    acc.push(e);
                    proof {
                        assert(entries_view(acc@) =~~= seq![ev]);
                    }
                    parse_entries_tail_exec(s, j, acc)
                } else {
                    None
                }
            },
            None => None,
        }
    } else {
        None
    }
}

/// The comparison mapping at `i`.
fn parse_opt_entries_exec(s: &str, i: usize) -> (r: Option<
    (Option<Vec<(String, Vec<MeasureResponse>)>>, usize),
>)
    requires
        i <= s@.len(),
    ensures
        match parse_opt_entries_at(s@, i as int) {
            Some((o, j)) => r matches Some(p) && (match o {
                Some(m) => p.0 matches Some(pm) && entries_view(pm@) == m,
                None => p.0 is None,
            }) && p.1 as int == j && j <= s@.len(),
            None => r is None,
        },
{
    let n = s.unicode_len();
    if match_lit_at(s, i, "null") {
        proof {
            reveal_strlit("null");
        }
        Some((None, i + 4))
    } else {
        match parse_entries_exec(s, i) {
            Some((m, j)) => Some((Some(m), j)),
            None => None,
        }
    }
}

/// Reads a snapshot back from its text, exactly as the spec parser does: the
/// text of any well-formed snapshot comes back as that snapshot.
pub fn parse_snapshot(s: &str) -> (r: Option<Output>)
    ensures
        match parse_snapshot_spec(s@) {
            Some(v) => r matches Some(o) && o@ == v,
            None => r is None,
        },
{
    let n = s.unicode_len();
    let i0 = match expect_lit(s, 0, "{\"target_results\":") {
        Some(x) => x,
        None => {
            return None;
        },
    };
    let (target, i1) = match parse_entries_exec(s, i0) {
        Some(p) => p,
        None => {
            return None;
        },
    };
    let i1b = match expect_lit(s, i1, ",\"comparison_results\":") {
        Some(x) => x,
        None => {
            return None;
        },
    };
    let (comparison, i2) = match parse_opt_entries_exec(s, i1b) {
        Some(p) => p,
        None => {
            return None;
        },
    };
    let i3 = match expect_lit(s, i2, "}") {
        Some(x) => x,
        None => {
            return None;
        },
    };
    proof {
        reveal_strlit("}");
    }
    if i3 != n {
        return None;
    }
    let o = Output { target_results: target, comparison_results: comparison };
    proof {
        reveal_strlit("}");
        match parse_snapshot_spec(s@) {
            Some(v) => {
                assert(o@ =~~= v);
            },
            None => {
                assert(false);
            },
        }
    }
    Some(o)
}

} // verus!
