//! The header part of a frame: lines of the form `Name: Value` terminated by
//! a blank CRLF line. The only recognized name is `content-length`, matched
//! case-insensitively; other names are ignored. A line without exactly one
//! colon-space separator, a length that is not an unsigned decimal, or a
//! missing length are invalid; a stream that ends before the blank line is
//! an unexpected end of input.

use vstd::prelude::*;
use crate::bytes::{
    all_digits, dec_bytes, digits_val, find_sep, first_line_len, is_ascii_ws, is_digit,
    lemma_digits_val_prefix_le, lemma_find_sep_none, lemma_find_sep_some,
    lemma_first_line_len_bounds, lit_bytes, lower_ascii, lower_byte, parse_len,
    split_header_field, trim_ascii, trim_end, trim_start,
};
use crate::cursor::ByteCursor;

verus! {

/// Error kinds of header parsing: a malformed line, value, or missing
/// length (`InvalidInput`), or a stream that ends before the blank
/// terminator line (`UnexpectedEof`).
#[derive(Debug, PartialEq, Eq, Structural, Clone, Copy)]
pub enum HeaderError {
    InvalidInput,
    UnexpectedEof,
}

/// Outcome of parsing a header from the front of a byte sequence: the
/// content length and the number of bytes the header occupies, or one of
/// the two error kinds.
pub enum HeaderOutcome {
    Length { n: usize, used: int },
    Invalid,
    Eof,
}

pub open spec fn bump(h: HeaderOutcome, l: int) -> HeaderOutcome {
    match h {
        HeaderOutcome::Length { n, used } => HeaderOutcome::Length { n, used: used + l },
        other => other,
    }
}

pub open spec fn content_length_name() -> Seq<u8> {
    lit_bytes("content-length"@)
}

/// One header line at a time: a blank CRLF line ends the header with the
/// last length seen (or invalid, when none was); any other line must split
/// into `name: value` on exactly one separator, and a `content-length`
/// name must carry an unsigned decimal value.
pub open spec fn header_outcome_rec(b: Seq<u8>, acc: Option<usize>) -> HeaderOutcome
    decreases b.len(),
    via header_outcome_rec_dec
{
    if b.len() == 0 {
        HeaderOutcome::Eof
    } else {
        let l = first_line_len(b);
        let line = b.take(l);
        let rest = b.skip(l);
        if line == seq![13u8, 10u8] {
            match acc {
                Some(n) => HeaderOutcome::Length { n, used: l },
                None => HeaderOutcome::Invalid,
            }
        } else {
            match split_header_field(trim_ascii(line)) {
                None => HeaderOutcome::Invalid,
                Some(nv) => if lower_ascii(nv.0) == content_length_name() {
                    match parse_len(nv.1) {
                        None => HeaderOutcome::Invalid,
                        Some(n) => bump(header_outcome_rec(rest, Some(n)), l),
                    }
                } else {
                    bump(header_outcome_rec(rest, acc), l)
                },
            }
        }
    }
}

#[via_fn]
proof fn header_outcome_rec_dec(b: Seq<u8>, acc: Option<usize>) {
    if b.len() > 0 {
        lemma_first_line_len_bounds(b);
    }
}

/// The parse of a complete header at the front of `b`.
pub open spec fn header_outcome(b: Seq<u8>) -> HeaderOutcome {
    header_outcome_rec(b, None)
}

/// A successful header parse consumes at least the blank line and no more
/// than the whole sequence.
pub proof fn lemma_header_outcome_used(b: Seq<u8>, acc: Option<usize>)
    ensures
        match header_outcome_rec(b, acc) {
            HeaderOutcome::Length { n, used } => 2 <= used <= b.len(),
            _ => true,
        },
    decreases b.len(),
{
    if b.len() > 0 {
        lemma_first_line_len_bounds(b);
        let l = first_line_len(b);
        let rest = b.skip(l);
        match split_header_field(trim_ascii(b.take(l))) {
            Some(nv) => {
                if lower_ascii(nv.0) == content_length_name() {
                    match parse_len(nv.1) {
                        Some(n) => lemma_header_outcome_used(rest, Some(n)),
                        None => {},
                    }
                } else {
                    lemma_header_outcome_used(rest, acc);
                }
            },
            None => {},
        }
    }
}

/// The name bytes of a case-insensitive spelling of `content-length` are
/// hyphens or ASCII letters: never whitespace, a line break, a colon, or a
/// digit sign.
proof fn lemma_name_byte_range(name: Seq<u8>)
    requires
        lower_ascii(name) == content_length_name(),
    ensures
        name.len() == 14,
        forall|i: int|
            0 <= i < name.len() ==> (#[trigger] name[i] == 45 || 65 <= name[i] <= 90 || 97
                <= name[i] <= 122),
{
    reveal_strlit("content-length");
    assert(name.len() == 14) by {
        assert(lower_ascii(name).len() == name.len());
    }
    assert forall|i: int| 0 <= i < 14 implies (content_length_name()[i] == 45 || 97
        <= content_length_name()[i] <= 122) by {
        if i == 0 {
        } else if i == 1 {
        } else if i == 2 {
        } else if i == 3 {
        } else if i == 4 {
        } else if i == 5 {
        } else if i == 6 {
        } else if i == 7 {
        } else if i == 8 {
        } else if i == 9 {
        } else if i == 10 {
        } else if i == 11 {
        } else if i == 12 {
        } else {
        }
    }
    assert forall|i: int|
        0 <= i < name.len() implies (#[trigger] name[i] == 45 || 65 <= name[i] <= 90 || 97
        <= name[i] <= 122) by {
        assert(lower_ascii(name)[i] == lower_byte(name[i]));
        assert(lower_byte(name[i]) == content_length_name()[i]);
    }
}

/// For every header made of one `content-length` line — the name in any
/// ASCII casing — and the blank terminator line, the parse accepts and
/// returns exactly the announced value, consuming exactly the header.
pub proof fn lemma_header_single_length(name: Seq<u8>, n: usize, rest: Seq<u8>)
    requires
        lower_ascii(name) == content_length_name(),
    ensures
        ({
            let h = name + lit_bytes(": "@) + dec_bytes(n as int) + lit_bytes("\r\n\r\n"@)
                + rest;
            header_outcome(h) == HeaderOutcome::Length {
                n,
                used: name.len() + 2 + dec_bytes(n as int).len() + 4int,
            }
        }),
{
    reveal_strlit(": ");
    reveal_strlit("\r\n\r\n");
    lemma_name_byte_range(name);
    crate::bytes::lemma_dec_bytes_val(n as int);
    let cs = lit_bytes(": "@);
    let tail = lit_bytes("\r\n\r\n"@);
    let dec = dec_bytes(n as int);
    let dlen = dec.len() as int;
    let h = name + cs + dec + tail + rest;
    assert(cs =~= seq![58u8, 32u8]);
    assert(tail =~= seq![13u8, 10u8, 13u8, 10u8]);
    let idx = 14 + 2 + dlen + 1;
    assert(h[idx] == 10);
    assert forall|j: int| 0 <= j < idx implies h[j] != 10 by {
        if j < 14 {
            assert(h[j] == name[j]);
        } else if j == 14 {
            assert(h[j] == 58);
        } else if j == 15 {
            assert(h[j] == 32);
        } else if j < 16 + dlen {
            assert(h[j] == dec[j - 16]);
            assert(is_digit(dec[j - 16]));
        } else {
            assert(h[j] == 13);
        }
    }
    crate::bytes::lemma_find_nl_some(h, idx);
    let l1 = idx + 1;
    let line = h.take(l1);
    let rest1 = h.skip(l1);
    assert(first_line_len(h) == l1);
    assert(line =~= name + cs + dec + seq![13u8, 10u8]);
    assert(rest1 =~= seq![13u8, 10u8] + rest);
    assert(line.len() == 14 + 2 + dlen + 2);
    assert(line != seq![13u8, 10u8]);
    // trimming strips exactly the trailing line break
    assert(!is_ascii_ws(line[0]));
    assert(trim_start(line) == line);
    let t = name + cs + dec;
    assert(line.drop_last() =~= t + seq![13u8]);
    assert(line.last() == 10 && is_ascii_ws(10u8));
    assert((t + seq![13u8]).last() == 13 && is_ascii_ws(13u8));
    assert((t + seq![13u8]).drop_last() =~= t);
    assert(t.last() == dec.last());
    assert(is_digit(dec.last()) && !is_ascii_ws(dec.last()));
    assert(trim_end(line) == trim_end(t + seq![13u8]));
    assert(trim_end(t + seq![13u8]) == trim_end(t));
    assert(trim_end(t) == t);
    assert(trim_ascii(line) == t);
    // the one separator stands between the name and the value
    assert(t[14] == 58 && t[15] == 32);
    assert forall|j: int| #![trigger t[j]] 0 <= j < 14 implies !(t[j] == 58 && t[j + 1] == 32)
        by {
        assert(t[j] == name[j]);
    }
    lemma_find_sep_some(t, 14);
    assert(t.skip(16) =~= dec);
    assert forall|j: int| #![trigger dec[j]] 0 <= j && j + 1 < dec.len() implies !(dec[j] == 58
        && dec[j + 1] == 32) by {
        assert(is_digit(dec[j]));
    }
    lemma_find_sep_none(dec);
    assert(t.take(14) =~= name);
    assert(split_header_field(t) == Some((name, dec)));
    // the value parses back to n
    assert(dec[0] != 43);
    assert(parse_len(dec) == Some(n));
    // the second line is the blank terminator
    assert(rest1.len() > 0);
    assert(rest1[0] == 13 && rest1[1] == 10);
    crate::bytes::lemma_find_nl_some(rest1, 1);
    assert(first_line_len(rest1) == 2);
    assert(rest1.take(2) =~= seq![13u8, 10u8]);
    assert(header_outcome_rec(rest1, Some(n)) == HeaderOutcome::Length { n, used: 2 });
    assert(header_outcome(h) == bump(header_outcome_rec(rest1, Some(n)), l1));
}

/// A blank line with no `content-length` line before it is invalid input.
pub proof fn lemma_header_missing_length(rest: Seq<u8>)
    ensures
        header_outcome(lit_bytes("\r\n"@) + rest) == HeaderOutcome::Invalid,
{
    reveal_strlit("\r\n");
    let h = lit_bytes("\r\n"@) + rest;
    assert(h[1] == 10 && h[0] == 13);
    crate::bytes::lemma_find_nl_some(h, 1);
    assert(h.take(2) =~= seq![13u8, 10u8]);
}

/// A first header line without any colon-space separator is invalid
/// input, whatever follows it.
pub proof fn lemma_header_line_without_separator(line: Seq<u8>, rest: Seq<u8>)
    requires
        forall|j: int| 0 <= j < line.len() ==> line[j] != 10,
        line != seq![13u8],
        forall|j: int|
            #![trigger line[j]]
            0 <= j && j + 1 < line.len() ==> !(line[j] == 58 && line[j + 1] == 32),
    ensures
        header_outcome(line + seq![10u8] + rest) == HeaderOutcome::Invalid,
{
    let h = line + seq![10u8] + rest;
    let full = line + seq![10u8];
    assert(h[line.len() as int] == 10);
    assert forall|j: int| 0 <= j < line.len() implies h[j] != 10 by {
        assert(h[j] == line[j]);
    }
    crate::bytes::lemma_find_nl_some(h, line.len() as int);
    let l1 = line.len() + 1;
    assert(first_line_len(h) == l1);
    assert(h.take(l1 as int) =~= full);
    assert(full != seq![13u8, 10u8]) by {
        if full == seq![13u8, 10u8] {
            assert(full.len() == 2);
            assert(line =~= seq![13u8]) by {
                assert(line.len() == 1);
                assert(line[0] == full[0]);
            }
        }
    }
    let t = trim_ascii(full);
    lemma_trim_is_subrange(full);
    let a = choose|a: int|
        0 <= a && a + t.len() <= full.len() && t == #[trigger] full.subrange(a, a + t.len());
    assert forall|j: int| #![trigger t[j]] 0 <= j && j + 1 < t.len() implies !(t[j] == 58 && t[j
        + 1] == 32) by {
        assert(t[j] == full[a + j]);
        assert(t[j + 1] == full[a + j + 1]);
        if a + j + 1 < line.len() {
        } else if a + j < line.len() {
            assert(full[a + j + 1] == 10);
        } else {
            assert(full[a + j] == 10);
        }
    }
    lemma_find_sep_none(t);
    assert(split_header_field(t) is None);
    assert(header_outcome(h) == HeaderOutcome::Invalid);
}

/// A well-formed header line whose name is not `content-length` leaves
/// the parse unchanged: the outcome over the remaining lines is the
/// outcome of the whole, with the line's bytes added to the count. With
/// the two lemmas above, this carries the invalid-line and missing-length
/// cases past any number of ignored lines.
pub proof fn lemma_header_ignores_other_line(line: Seq<u8>, rest: Seq<u8>, acc: Option<usize>)
    requires
        forall|j: int| 0 <= j < line.len() ==> line[j] != 10,
        line != seq![13u8],
        ({
            let full = line + seq![10u8];
            split_header_field(trim_ascii(full)) matches Some(nv) && lower_ascii(nv.0)
                != content_length_name()
        }),
    ensures
        header_outcome_rec(line + seq![10u8] + rest, acc) == bump(
            header_outcome_rec(rest, acc),
            line.len() + 1int,
        ),
{
    let h = line + seq![10u8] + rest;
    let full = line + seq![10u8];
    assert(h[line.len() as int] == 10);
    assert forall|j: int| 0 <= j < line.len() implies h[j] != 10 by {
        assert(h[j] == line[j]);
    }
    crate::bytes::lemma_find_nl_some(h, line.len() as int);
    let l1 = line.len() + 1;
    assert(first_line_len(h) == l1);
    assert(h.take(l1 as int) =~= full);
    assert(h.skip(l1 as int) =~= rest);
    assert(full != seq![13u8, 10u8]) by {
        if full == seq![13u8, 10u8] {
            assert(full.len() == 2);
            assert(line =~= seq![13u8]) by {
                assert(line.len() == 1);
                assert(line[0] == full[0]);
            }
        }
    }
}

/// The trim of a sequence is one of its contiguous subranges.
proof fn lemma_trim_is_subrange(s: Seq<u8>)
    ensures
        exists|a: int|
            0 <= a && a + trim_ascii(s).len() <= s.len() && trim_ascii(s) == #[trigger] s.subrange(
                a,
                a + trim_ascii(s).len(),
            ),
{
    lemma_trim_start_is_suffix(s);
    let a = choose|a: int|
        0 <= a <= s.len() && trim_start(s) =~= #[trigger] s.skip(a);
    lemma_trim_end_is_prefix(trim_start(s));
    let ts = trim_start(s);
    let t = trim_ascii(s);
    assert(t == trim_end(ts));
    assert(t =~= ts.take(t.len() as int));
    assert(t =~= s.subrange(a, a + t.len()));
}

proof fn lemma_trim_start_is_suffix(s: Seq<u8>)
    ensures
        exists|a: int| 0 <= a <= s.len() && trim_start(s) =~= #[trigger] s.skip(a),
    decreases s.len(),
{
    if s.len() > 0 && is_ascii_ws(s[0]) {
        lemma_trim_start_is_suffix(s.drop_first());
        let a = choose|a: int|
            0 <= a <= s.drop_first().len() && trim_start(s.drop_first()) =~= #[trigger] s
                .drop_first().skip(a);
        assert(s.drop_first().skip(a) =~= s.skip(a + 1));
        assert(trim_start(s) =~= s.skip(a + 1));
    } else {
        assert(trim_start(s) =~= s.skip(0));
    }
}

proof fn lemma_trim_end_is_prefix(s: Seq<u8>)
    ensures
        trim_end(s).len() <= s.len(),
        trim_end(s) =~= s.take(trim_end(s).len() as int),
    decreases s.len(),
{
    if s.len() > 0 && is_ascii_ws(s.last()) {
        lemma_trim_end_is_prefix(s.drop_last());
        assert(s.drop_last() =~= s.take(s.len() - 1));
        assert(s.drop_last().take(trim_end(s).len() as int) =~= s.take(
            trim_end(s).len() as int,
        ));
    }
}

/// Bounds of the trimmed middle of `line`: the subrange they delimit is the
/// line with leading and trailing ASCII whitespace removed.
fn trim_bounds(line: &Vec<u8>) -> (r: (usize, usize))
    ensures
        r.0 <= r.1 <= line@.len(),
        line@.subrange(r.0 as int, r.1 as int) == trim_ascii(line@),
{
    let n = line.len();
    let mut a: usize = 0;
    proof {
        assert(line@.skip(0) =~= line@);
    }
    while a < n && (line[a] == 32 || (9 <= line[a] && line[a] <= 13))
        invariant
            a <= n,
            n == line@.len(),
            trim_start(line@) == trim_start(line@.skip(a as int)),
        decreases n - a,
    {
        proof {
            assert(line@.skip(a as int)[0] == line@[a as int]);
            assert(is_ascii_ws(line@.skip(a as int)[0]));
            assert(line@.skip(a as int).drop_first() =~= line@.skip(a + 1));
        }
        a = a + 1;
    }
    proof {
        if a < n {
            assert(line@.skip(a as int)[0] == line@[a as int]);
            assert(!is_ascii_ws(line@.skip(a as int)[0]));
        }
        assert(trim_start(line@) == line@.skip(a as int));
    }
    let mut b: usize = n;
    proof {
        assert(line@.skip(a as int) =~= line@.subrange(a as int, n as int));
    }
    while b > a && (line[b - 1] == 32 || (9 <= line[b - 1] && line[b - 1] <= 13))
        invariant
            a <= b <= n,
            n == line@.len(),
            trim_start(line@) == line@.skip(a as int),
            trim_end(line@.skip(a as int)) == trim_end(line@.subrange(a as int, b as int)),
        decreases b,
    {
        proof {
            assert(line@.subrange(a as int, b as int).last() == line@[b - 1]);
            assert(is_ascii_ws(line@.subrange(a as int, b as int).last()));
            assert(line@.subrange(a as int, b as int).drop_last() =~= line@.subrange(
                a as int,
                b - 1,
            ));
        }
        b = b - 1;
    }
    proof {
        if b > a {
            assert(line@.subrange(a as int, b as int).last() == line@[b - 1]);
            assert(!is_ascii_ws(line@.subrange(a as int, b as int).last()));
        }
        assert(trim_end(line@.subrange(a as int, b as int)) == line@.subrange(a as int, b as int));
    }
    (a, b)
}

/// First colon-space separator in `line[a..b]`, if any.
fn find_sep_in(line: &Vec<u8>, a: usize, b: usize) -> (r: Option<usize>)
    requires
        a <= b <= line@.len(),
    ensures
        ({
            let s = line@.subrange(a as int, b as int);
            match r {
                Some(k) => a <= k && k + 1 < b && find_sep(s) == Some(k - a),
                None => find_sep(s) is None,
            }
        }),
{
    let ghost s = line@.subrange(a as int, b as int);
    if b - a < 2 {
        return None;
    }
    let mut k: usize = a;
    while k + 1 < b
        invariant
            a <= k,
            k + 1 <= b <= line@.len(),
            s == line@.subrange(a as int, b as int),
            forall|j: int| #![trigger s[j]] 0 <= j < k - a ==> !(s[j] == 58 && s[j + 1] == 32),
        decreases b - k,
    {
        if line[k] == 58 && line[k + 1] == 32 {
            proof {
                assert(s[k - a] == line@[k as int]);
                assert(s[k - a + 1] == line@[k + 1]);
                lemma_find_sep_some(s, k - a);
            }
            return Some(k);
        }
        proof {
            assert(s[k - a] == line@[k as int]);
            assert(s[k - a + 1] == line@[k + 1]);
        }
        k = k + 1;
    }
    proof {
        lemma_find_sep_none(s);
    }
    None
}

/// Whether `line[a..k]`, lowered to ASCII lower case, reads `content-length`.
fn name_is_content_length(line: &Vec<u8>, a: usize, k: usize) -> (r: bool)
    requires
        a <= k <= line@.len(),
    ensures
        r == (lower_ascii(line@.subrange(a as int, k as int)) == content_length_name()),
{
    proof {
        reveal_strlit("content-length");
    }
    let ghost name = line@.subrange(a as int, k as int);
    let expected = content_length_bytes();
    if k - a != 14 {
        proof {
            assert(lower_ascii(name).len() == k - a);
            assert(content_length_name().len() == 14);
        }
        return false;
    }
    let mut i: usize = 0;
    while i < 14
        invariant
            i <= 14,
            a + 14 == k,
            k <= line@.len(),
            name == line@.subrange(a as int, k as int),
            name.len() == 14,
            expected@ == content_length_name(),
            expected@.len() == 14,
            forall|j: int| 0 <= j < i ==> lower_ascii(name)[j] == content_length_name()[j],
        decreases 14 - i,
    {
        let c = line[a + i];
        let lc = if 65 <= c && c <= 90 {
            c + 32
        } else {
            c
        };
        proof {
            assert(name[i as int] == line@[a + i]);
            assert(lower_ascii(name)[i as int] == lower_byte(name[i as int]));
        }
        if lc != expected[i] {
            proof {
                assert(lower_ascii(name)[i as int] != content_length_name()[i as int]);
            }
            return false;
        }
        i = i + 1;
    }
    proof {
        assert(lower_ascii(name) =~= content_length_name());
    }
    true
}

/// The fourteen bytes of the lower-case header name.
fn content_length_bytes() -> (r: Vec<u8>)
    ensures
        r@ == content_length_name(),
        r@.len() == 14,
{
    proof {
        reveal_strlit("content-length");
    }
    let s = "content-length";
    let mut r: Vec<u8> = Vec::new();
    crate::bytes::push_lit(&mut r, s);
    proof {
        assert(r@ =~= content_length_name());
    }
    r
}

/// Parse of `line[a..b]` as an unsigned decimal length, as `parse_len`
/// describes it.
fn parse_len_in(line: &Vec<u8>, a: usize, b: usize) -> (r: Option<usize>)
    requires
        a <= b <= line@.len(),
    ensures
        r == parse_len(line@.subrange(a as int, b as int)),
{
    let ghost s = line@.subrange(a as int, b as int);
    let mut i: usize = a;
    if i < b && line[i] == 43 {
        proof {
            assert(s[0] == line@[a as int]);
        }
        i = i + 1;
    }
    let ghost t = if s.len() > 0 && s[0] == 43 {
        s.skip(1)
    } else {
        s
    };
    proof {
        if s.len() > 0 {
            assert(s[0] == line@[a as int]);
        }
        assert(t =~= line@.subrange(i as int, b as int));
    }
    if i == b {
        proof {
            assert(t.len() == 0);
        }
        return None;
    }
    let start = i;
    let mut val: usize = 0;
    while i < b
        invariant
            start <= i <= b <= line@.len(),
            a <= b,
            s == line@.subrange(a as int, b as int),
            t == (if s.len() > 0 && s[0] == 43 {
                s.skip(1)
            } else {
                s
            }),
            t == line@.subrange(start as int, b as int),
            t.len() == b - start,
            all_digits(t.take(i - start)),
            val == digits_val(t.take(i - start)),
        decreases b - i,
    {
        let d = line[i];
        proof {
            assert(t[i - start] == line@[i as int]);
        }
        if d < 48 || d > 57 {
            proof {
                assert(!is_digit(t[i - start]));
                assert(!all_digits(t));
            }
            return None;
        }
        let dv = (d - 48) as usize;
        let next = match val.checked_mul(10) {
            Some(v) => v.checked_add(dv),
            None => None,
        };
        proof {
            assert(t.take(i - start + 1).drop_last() =~= t.take(i - start));
            assert(t.take(i - start + 1).last() == t[i - start]);
            assert(digits_val(t.take(i - start + 1)) == val * 10 + dv);
            assert(all_digits(t.take(i - start + 1)));
        }
        match next {
            Some(v) => {
                val = v;
            },
            None => {
                proof {
                    assert(digits_val(t.take(i - start + 1)) > usize::MAX);
                    if all_digits(t) {
                        lemma_digits_val_prefix_le(t, i - start + 1);
                        assert(digits_val(t) > usize::MAX);
                    }
                }
                return None;
            },
        }
        i = i + 1;
    }
    proof {
        assert(t.take(b - start) =~= t);
    }
    Some(val)
}

/// Reads a header from the cursor, as `header_outcome` describes the bytes
/// it consumes: the parsed content length on success, the error kind
/// otherwise.
pub fn read_header(cur: &mut ByteCursor) -> (r: Result<usize, HeaderError>)
    requires
        old(cur).wf(),
    ensures
        final(cur).wf(),
        final(cur).stream() == old(cur).stream(),
        old(cur).position() <= final(cur).position(),
        match header_outcome(old(cur).remaining()) {
            HeaderOutcome::Length { n, used } => {
                &&& r == Ok::<usize, HeaderError>(n)
                &&& final(cur).position() == old(cur).position() + used
                &&& final(cur).remaining() == old(cur).remaining().skip(used)
            },
            HeaderOutcome::Invalid => r == Err::<usize, HeaderError>(HeaderError::InvalidInput),
            HeaderOutcome::Eof => r == Err::<usize, HeaderError>(HeaderError::UnexpectedEof),
        },
{
    let mut acc: Option<usize> = None;
    let ghost rem0 = old(cur).remaining();
    loop
        invariant
            old(cur).wf(),
            cur.wf(),
            cur.stream() == old(cur).stream(),
            rem0 == old(cur).remaining(),
            old(cur).position() <= cur.position(),
            header_outcome(rem0) == bump(
                header_outcome_rec(cur.remaining(), acc),
                cur.position() - old(cur).position(),
            ),
        decreases cur.remaining().len(),
    {
        let ghost rem = cur.remaining();
        let ghost pos_before = cur.position();
        let line = match cur.read_line() {
            None => {
                return Err(HeaderError::UnexpectedEof);
            },
            Some(l) => l,
        };
        let ghost l = first_line_len(rem);
        if line.len() == 2 {
            let b0 = line[0];
            let b1 = line[1];
            if b0 == 13 && b1 == 10 {
                proof {
                    assert(line@ =~= seq![13u8, 10u8]);
                }
                match acc {
                    Some(n) => {
                        proof {
                            assert(header_outcome_rec(rem, acc) == HeaderOutcome::Length {
                                n,
                                used: l,
                            });
                            assert(cur.position() == pos_before + l);
                            assert(cur.remaining() == rem.skip(l));
                            assert(rem == cur.stream().skip(pos_before));
                            assert(rem0 == cur.stream().skip(old(cur).position()));
                            assert(0 <= cur.position() - old(cur).position() <= rem0.len());
                            assert(cur.remaining() =~= rem0.skip(
                                cur.position() - old(cur).position(),
                            ));
                        }
                        return Ok(n);
                    },
                    None => {
                        return Err(HeaderError::InvalidInput);
                    },
                }
            }
        }
        proof {
            assert(line@ != seq![13u8, 10u8]) by {
                if line@ == seq![13u8, 10u8] {
                    assert(line@.len() == 2);
                    assert(line@[0] == 13);
                    assert(line@[1] == 10);
                }
            }
        }
        let (a, b) = trim_bounds(&line);
        let ghost trimmed = trim_ascii(line@);
        let k = match find_sep_in(&line, a, b) {
            None => {
                proof {
                    assert(split_header_field(trimmed) is None);
                }
                return Err(HeaderError::InvalidInput);
            },
            Some(k) => k,
        };
        proof {
            assert(line@.subrange(k + 2, b as int) =~= trimmed.skip(k - a + 2));
        }
        match find_sep_in(&line, k + 2, b) {
            Some(_) => {
                proof {
                    assert(split_header_field(trimmed) is None);
                }
                return Err(HeaderError::InvalidInput);
            },
            None => {},
        }
        proof {
            assert(line@.subrange(a as int, k as int) =~= trimmed.take(k - a));
            assert(split_header_field(trimmed) == Some(
                (trimmed.take(k - a), trimmed.skip(k - a + 2)),
            ));
        }
        if name_is_content_length(&line, a, k) {
            match parse_len_in(&line, k + 2, b) {
                None => {
                    return Err(HeaderError::InvalidInput);
                },
                Some(n) => {
                    proof {
                        assert(header_outcome_rec(rem, acc) == bump(
                            header_outcome_rec(rem.skip(l), Some(n)),
                            l,
                        ));
                    }
                    acc = Some(n);
                },
            }
        } else {
            proof {
                assert(header_outcome_rec(rem, acc) == bump(
                    header_outcome_rec(rem.skip(l), acc),
                    l,
                ));
            }
        }
        proof {
            assert(header_outcome(rem0) == bump(
                header_outcome_rec(cur.remaining(), acc),
                cur.position() - old(cur).position(),
            ));
        }
    }
}

} // verus!
