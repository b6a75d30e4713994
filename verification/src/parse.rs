//! Parsing of the kernel's cgroup telemetry text.
//!
//! The statistics interface is a sequence of `key value` lines; the
//! single-value interfaces hold one decimal byte count each. Parsing is
//! deliberately lenient: a value that is not a decimal number counts as
//! zero, while the shape of the text (lines, fields) is honoured
//! exactly. The strict parser is public too, so a caller can choose to
//! fail fast instead.

use crate::snapshot::MemorySnapshot;
use vstd::prelude::*;
use vstd::slice::slice_subrange;
use vstd::string::StringSliceAdditionalSpecFns;

verus! {

/// ASCII whitespace: what separates the two fields of a statistics
/// line and may surround a single decimal value.
pub open spec fn is_ws(b: u8) -> bool {
    b == 32 || b == 9 || b == 10 || b == 11 || b == 12 || b == 13
}

/// An ASCII decimal digit.
pub open spec fn is_digit(b: u8) -> bool {
    48 <= b <= 57
}

/// How many whitespace bytes the text starts with.
pub open spec fn ws_len(s: Seq<u8>) -> nat
    decreases s.len(),
{
    if s.len() > 0 && is_ws(s[0]) {
        1 + ws_len(s.drop_first())
    } else {
        0
    }
}

/// How many non-whitespace bytes the text starts with.
pub open spec fn token_len(s: Seq<u8>) -> nat
    decreases s.len(),
{
    if s.len() > 0 && !is_ws(s[0]) {
        1 + token_len(s.drop_first())
    } else {
        0
    }
}

/// How many whitespace bytes the text ends with.
pub open spec fn trail_ws_len(s: Seq<u8>) -> nat
    decreases s.len(),
{
    if s.len() > 0 && is_ws(s.last()) {
        1 + trail_ws_len(s.drop_last())
    } else {
        0
    }
}

/// The text with leading and trailing ASCII whitespace removed.
pub open spec fn trimmed(s: Seq<u8>) -> Seq<u8> {
    let u = s.skip(ws_len(s) as int);
    u.take(u.len() - trail_ws_len(u))
}

/// The bytes up to the first line feed.
pub open spec fn line_len(s: Seq<u8>) -> nat
    decreases s.len(),
{
    if s.len() > 0 && s[0] != 10 {
        1 + line_len(s.drop_first())
    } else {
        0
    }
}

/// A trailing carriage return removed: a line that ended in CRLF loses
/// the CR along with the LF.
pub open spec fn strip_cr(s: Seq<u8>) -> Seq<u8> {
    if s.len() > 0 && s.last() == 13 {
        s.drop_last()
    } else {
        s
    }
}

/// The text split at line feeds, as a line reader yields it: the LF is
/// consumed, a CR directly before it is stripped, and a final fragment
/// without a terminator is a line of its own.
pub open spec fn split_lines(s: Seq<u8>) -> Seq<Seq<u8>>
    decreases s.len(),
{
    if s.len() == 0 {
        Seq::empty()
    } else {
        let k = line_len(s);
        if k >= s.len() {
            seq![s]
        } else {
            seq![strip_cr(s.take(k as int))] + split_lines(s.skip(k + 1 as int))
        }
    }
}

/// The two whitespace-separated fields of a line, when the line holds
/// exactly two; `None` for any other field count.
pub open spec fn kv_of(line: Seq<u8>) -> Option<(Seq<u8>, Seq<u8>)> {
    let a = line.skip(ws_len(line) as int);
    if a.len() == 0 {
        None
    } else {
        let k = a.take(token_len(a) as int);
        let b = a.skip(token_len(a) as int);
        let c = b.skip(ws_len(b) as int);
        if c.len() == 0 {
            None
        } else {
            let v = c.take(token_len(c) as int);
            let d = c.skip(token_len(c) as int);
            if d.skip(ws_len(d) as int).len() == 0 {
                Some((k, v))
            } else {
                None
            }
        }
    }
}

/// The value of a digit string, most significant digit first.
pub open spec fn dec_val(s: Seq<u8>) -> int
    decreases s.len(),
{
    if s.len() == 0 {
        0
    } else {
        dec_val(s.drop_last()) * 10 + (s.last() - 48)
    }
}

/// Every byte is a decimal digit.
pub open spec fn all_digits(s: Seq<u8>) -> bool {
    forall|i: int| 0 <= i < s.len() ==> is_digit(#[trigger] s[i])
}

/// The digit part of a decimal literal: an optional leading plus sign
/// is accepted, as the standard unsigned parser accepts it.
pub open spec fn digits_of(s: Seq<u8>) -> Seq<u8> {
    if s.len() > 0 && s[0] == 43 {
        s.drop_first()
    } else {
        s
    }
}

/// Strict decimal parse: the whole text must be digits (after an
/// optional plus sign), non-empty, and the value must fit in a `u64`.
pub open spec fn spec_parse_u64(s: Seq<u8>) -> Option<u64> {
    let d = digits_of(s);
    if d.len() > 0 && all_digits(d) && dec_val(d) <= u64::MAX {
        Some(dec_val(d) as u64)
    } else {
        None
    }
}

/// Lenient decimal parse: an unparsable value counts as zero.
pub open spec fn lenient_u64(s: Seq<u8>) -> u64 {
    match spec_parse_u64(s) {
        Some(v) => v,
        None => 0,
    }
}

/// What a single-value interface file holds: its content trimmed of
/// surrounding whitespace, leniently parsed.
pub open spec fn spec_parse_value(s: Seq<u8>) -> u64 {
    lenient_u64(trimmed(s))
}

/// Folding the statistics lines for one key: the last line that names
/// the key wins; with no such line the value is zero.
pub open spec fn stat_fold(lines: Seq<Seq<u8>>, key: Seq<u8>) -> u64
    decreases lines.len(),
{
    if lines.len() == 0 {
        0
    } else {
        match kv_of(lines.last()) {
            Some(kv) => if kv.0 == key {
                lenient_u64(kv.1)
            } else {
                stat_fold(lines.drop_last(), key)
            },
            None => stat_fold(lines.drop_last(), key),
        }
    }
}

/// The value the statistics text gives for `key`.
pub open spec fn stat_value(text: Seq<u8>, key: Seq<u8>) -> u64 {
    stat_fold(split_lines(text), key)
}

/// Strict counterpart of `stat_fold`: the last line naming the key
/// must parse strictly; with no such line the value is zero.
pub open spec fn stat_fold_strict(lines: Seq<Seq<u8>>, key: Seq<u8>) -> Option<u64>
    decreases lines.len(),
{
    if lines.len() == 0 {
        Some(0u64)
    } else {
        match kv_of(lines.last()) {
            Some(kv) => if kv.0 == key {
                spec_parse_u64(kv.1)
            } else {
                stat_fold_strict(lines.drop_last(), key)
            },
            None => stat_fold_strict(lines.drop_last(), key),
        }
    }
}

/// The value the statistics text gives for `key` under the fail-fast
/// policy: `None` when the retained line's value is not a decimal.
pub open spec fn stat_value_strict(text: Seq<u8>, key: Seq<u8>) -> Option<u64> {
    stat_fold_strict(split_lines(text), key)
}

/// The bytes of the `inactive_anon` statistics key.
pub open spec fn inactive_anon_key() -> Seq<u8> {
    "inactive_anon".spec_bytes()
}

/// The bytes of the `active_anon` statistics key.
pub open spec fn active_anon_key() -> Seq<u8> {
    "active_anon".spec_bytes()
}

/// The bytes of the `inactive_file` statistics key.
pub open spec fn inactive_file_key() -> Seq<u8> {
    "inactive_file".spec_bytes()
}

/// The bytes of the `active_file` statistics key.
pub open spec fn active_file_key() -> Seq<u8> {
    "active_file".spec_bytes()
}

/// The four reclaim-relevant counters of the statistics interface.
#[derive(Clone, Copy, PartialEq, Eq, Structural, Debug)]
pub struct StatCounters {
    /// Bytes of rarely used anonymous memory.
    pub inactive_anon: u64,
    /// Bytes of actively used anonymous memory.
    pub active_anon: u64,
    /// Bytes of rarely used file-backed page cache.
    pub inactive_file: u64,
    /// Bytes of actively used file-backed page cache.
    pub active_file: u64,
}

fn byte_is_ws(b: u8) -> (r: bool)
    ensures
        r == is_ws(b),
{
    b == 32 || b == 9 || b == 10 || b == 11 || b == 12 || b == 13
}

/// The end of the whitespace run starting at `from`.
fn scan_ws(s: &[u8], from: usize) -> (j: usize)
    requires
        from <= s@.len(),
    ensures
        from <= j <= s@.len(),
        j - from == ws_len(s@.skip(from as int)),
{
    let mut j = from;
    while j < s.len()
        invariant_except_break
            from <= j <= s@.len(),
            ws_len(s@.skip(from as int)) == (j - from) + ws_len(s@.skip(j as int)),
        ensures
            from <= j <= s@.len(),
            j - from == ws_len(s@.skip(from as int)),
        decreases s@.len() - j,
    {
        if !byte_is_ws(s[j]) {
            break;
        }
        proof {
            assert(s@.skip(j as int).drop_first() =~= s@.skip(j as int + 1));
        }
        j = j + 1;
    }
    j
}

/// The end of the non-whitespace run starting at `from`.
fn scan_token(s: &[u8], from: usize) -> (j: usize)
    requires
        from <= s@.len(),
    ensures
        from <= j <= s@.len(),
        j - from == token_len(s@.skip(from as int)),
{
    let mut j = from;
    while j < s.len()
        invariant_except_break
            from <= j <= s@.len(),
            token_len(s@.skip(from as int)) == (j - from) + token_len(s@.skip(j as int)),
        ensures
            from <= j <= s@.len(),
            j - from == token_len(s@.skip(from as int)),
        decreases s@.len() - j,
    {
        if byte_is_ws(s[j]) {
            break;
        }
        proof {
            assert(s@.skip(j as int).drop_first() =~= s@.skip(j as int + 1));
        }
        j = j + 1;
    }
    j
}

/// The end of the line starting at `from`: the next line feed, or the
/// end of the text.
fn scan_line(s: &[u8], from: usize) -> (j: usize)
    requires
        from <= s@.len(),
    ensures
        from <= j <= s@.len(),
        j - from == line_len(s@.skip(from as int)),
{
    let mut j = from;
    while j < s.len()
        invariant_except_break
            from <= j <= s@.len(),
            line_len(s@.skip(from as int)) == (j - from) + line_len(s@.skip(j as int)),
        ensures
            from <= j <= s@.len(),
            j - from == line_len(s@.skip(from as int)),
        decreases s@.len() - j,
    {
        if s[j] == 10 {
            break;
        }
        proof {
            assert(s@.skip(j as int).drop_first() =~= s@.skip(j as int + 1));
        }
        j = j + 1;
    }
    j
}

/// Byte-for-byte equality of two slices.
pub fn bytes_eq(a: &[u8], b: &[u8]) -> (r: bool)
    ensures
        r == (a@ == b@),
{
    if a.len() != b.len() {
        return false;
    }
    let mut i: usize = 0;
    while i < a.len()
        invariant
            i <= a@.len(),
            a@.len() == b@.len(),
            forall|m: int| 0 <= m < i ==> a@[m] == b@[m],
        decreases a@.len() - i,
    {
        if a[i] != b[i] {
            return false;
        }
        i = i + 1;
    }
    proof {
        assert(a@ =~= b@);
    }
    true
}

/// Within a digit string the value can only grow with more digits.
proof fn lemma_dec_val_nonneg(s: Seq<u8>)
    requires
        all_digits(s),
    ensures
        dec_val(s) >= 0,
    decreases s.len(),
{
    if s.len() > 0 {
        assert(all_digits(s.drop_last()));
        lemma_dec_val_nonneg(s.drop_last());
    }
}

/// A longer prefix of a digit string never has a smaller value.
proof fn lemma_dec_val_monotone(s: Seq<u8>, i: int, j: int)
    requires
        all_digits(s),
        0 <= i <= j <= s.len(),
    ensures
        dec_val(s.take(i)) <= dec_val(s.take(j)),
    decreases j - i,
{
    if i < j {
        lemma_dec_val_monotone(s, i, j - 1);
        assert(s.take(j).drop_last() =~= s.take(j - 1));
        assert(all_digits(s.take(j - 1)));
        lemma_dec_val_nonneg(s.take(j - 1));
        assert(dec_val(s.take(j)) == dec_val(s.take(j - 1)) * 10 + (s[j - 1] - 48));
    }
}

/// Strict decimal parse of a byte slice; `None` when the text is not a
/// plain decimal number or the value does not fit in a `u64`.
pub fn parse_u64(s: &[u8]) -> (r: Option<u64>)
    ensures
        r == spec_parse_u64(s@),
{
    let n = s.len();
    let start: usize = if n > 0 && s[0] == 43 {
        1
    } else {
        0
    };
    let ghost d = digits_of(s@);
    proof {
        assert(d =~= s@.skip(start as int));
    }
    if n == start {
        return None;
    }
    let mut acc: u64 = 0;
    let mut i: usize = start;
    while i < n
        invariant
            start <= i <= n,
            n == s@.len(),
            d == digits_of(s@),
            d == s@.skip(start as int),
            d.len() == n - start,
            all_digits(d.take(i - start)),
            acc as int == dec_val(d.take(i - start)),
        decreases n - i,
    {
        let b = s[i];
        if b < 48 || b > 57 {
            proof {
                assert(d[i - start] == s@[i as int]);
                assert(!is_digit(d[i - start]));
                assert(!all_digits(d));
            }
            return None;
        }
        proof {
            assert(d[i - start] == s@[i as int]);
            assert(is_digit(d[i - start]));
        }
        proof {
            assert(d.take(i - start + 1).drop_last() =~= d.take(i - start));
            assert(d.take(i - start + 1).last() == d[i - start]);
            assert(all_digits(d.take(i - start + 1)));
        }
        let wide: u128 = acc as u128 * 10 + (b - 48) as u128;
        proof {
            assert(wide as int == dec_val(d.take(i - start + 1)));
        }
        if wide > u64::MAX as u128 {
            proof {
                if all_digits(d) {
                    lemma_dec_val_monotone(d, i - start + 1, d.len() as int);
                    assert(d.take(d.len() as int) =~= d);
                    assert(dec_val(d) >= wide as int);
                }
                assert(spec_parse_u64(s@) is None);
            }
            return None;
        }
        acc = wide as u64;
        i = i + 1;
    }
    proof {
        assert(d.take(d.len() as int) =~= d);
    }
    Some(acc)
}

/// Powers of ten.
pub open spec fn pow10(k: nat) -> int
    decreases k,
{
    if k == 0 {
        1
    } else {
        10 * pow10((k - 1) as nat)
    }
}

/// Format a byte count as the decimal text the kernel interfaces take:
/// digits only, no leading zero, and the strict parse reads the value
/// back exactly.
pub fn format_u64(n: u64) -> (r: Vec<u8>)
    ensures
        all_digits(r@),
        r@.len() > 0,
        dec_val(r@) == n as int,
        r@.len() > 1 ==> r@[0] != 48,
        spec_parse_u64(r@) == Some(n),
{
    let mut out: Vec<u8> = Vec::new();
    if n == 0 {
        out.push(48);
        proof {
            reveal_with_fuel(dec_val, 3);
            assert(out@.drop_last() =~= Seq::<u8>::empty());
            assert(digits_of(out@) =~= out@);
        }
        return out;
    }
    // The largest power of ten not exceeding n.
    let mut p: u64 = 1;
    let ghost mut k: nat = 0;
    while n / p >= 10
        invariant
            n >= 1,
            1 <= p <= n,
            p as int == pow10(k),
        decreases n - p,
    {
        proof {
            vstd::arithmetic::div_mod::lemma_fundamental_div_mod(n as int, p as int);
            assert(n as int >= 10 * (p as int)) by (nonlinear_arith)
                requires
                    n as int == (p as int) * ((n as int) / (p as int)) + (n as int) % (p as int),
                    (n as int) / (p as int) >= 10,
                    (n as int) % (p as int) >= 0,
                    p >= 1,
            ;
            k = k + 1;
        }
        p = p * 10;
    }
    proof {
        vstd::arithmetic::div_mod::lemma_fundamental_div_mod(n as int, p as int);
        assert((n as int) < 10 * (p as int)) by (nonlinear_arith)
            requires
                n as int == (p as int) * ((n as int) / (p as int)) + (n as int) % (p as int),
                (n as int) / (p as int) <= 9,
                (n as int) % (p as int) < p,
                p >= 1,
        ;
        vstd::arithmetic::div_mod::lemma_basic_div(n as int, 10 * (p as int));
    }
    // Extract the digits, most significant first.
    while p > 0
        invariant
            n >= 1,
            p > 0 ==> p <= n,
            p > 0 ==> p as int == pow10(k),
            p > 0 ==> dec_val(out@) == (n as int) / (10 * (p as int)),
            p == 0 ==> dec_val(out@) == n as int,
            all_digits(out@),
            out@.len() > 0 ==> out@[0] != 48,
            out@.len() == 0 ==> p > 0 && (n as int) < 10 * (p as int),
        decreases p,
    {
        let d: u64 = (n / p) % 10;
        let dig: u8 = 48 + d as u8;
        proof {
            // n / p == 10 * (n / (10 p)) + (n / p) % 10
            vstd::arithmetic::div_mod::lemma_fundamental_div_mod((n / p) as int, 10);
            vstd::arithmetic::div_mod::lemma_div_denominator(n as int, p as int, 10);
            assert((p as int) * 10 == 10 * (p as int));
            assert(dec_val(out@) == ((n as int) / (p as int)) / 10);
            assert(out@.push(dig).drop_last() =~= out@);
            assert(out@.push(dig).last() == dig);
            assert(dec_val(out@.push(dig)) == (n as int) / (p as int));
            if out@.len() == 0 {
                // The leading digit: p <= n < 10 p puts n / p in 1..=9.
                vstd::arithmetic::div_mod::lemma_fundamental_div_mod(n as int, p as int);
                assert((n as int) / (p as int) >= 1) by (nonlinear_arith)
                    requires
                        n as int == (p as int) * ((n as int) / (p as int)) + (n as int) % (
                        p as int),
                        (n as int) % (p as int) < p,
                        1 <= p <= n,
                ;
                assert(d >= 1);
            }
        }
        out.push(dig);
        let p_old = p;
        p = p / 10;
        proof {
            if p_old > 1 {
                // pow10(k) of a positive k is ten times pow10(k - 1).
                assert(k > 0);
                assert(p_old as int == 10 * pow10((k - 1) as nat));
                vstd::arithmetic::div_mod::lemma_div_multiples_vanish(
                    pow10((k - 1) as nat),
                    10,
                );
                assert(p as int == pow10((k - 1) as nat));
                k = (k - 1) as nat;
                assert(10 * (p as int) == p_old as int);
            } else {
                assert(p_old == 1);
                assert(p == 0);
                assert(dec_val(out@) == (n as int) / 1);
            }
        }
    }
    proof {
        assert(digits_of(out@) =~= out@);
    }
    out
}

/// Lenient decimal parse: zero when the text is not a decimal number.
pub fn parse_u64_or_zero(s: &[u8]) -> (r: u64)
    ensures
        r == lenient_u64(s@),
{
    match parse_u64(s) {
        Some(v) => v,
        None => 0,
    }
}

/// A single-value interface file: the content trimmed of surrounding
/// whitespace, leniently parsed.
pub fn parse_value(s: &[u8]) -> (r: u64)
    ensures
        r == spec_parse_value(s@),
{
    parse_u64_or_zero(trim_bytes(s))
}

/// Strict counterpart of `parse_value`: `None` when the trimmed content
/// is not a plain decimal number.
pub fn parse_value_strict(s: &[u8]) -> (r: Option<u64>)
    ensures
        r == spec_parse_u64(trimmed(s@)),
{
    parse_u64(trim_bytes(s))
}

/// The slice with leading and trailing ASCII whitespace removed.
pub fn trim_bytes(s: &[u8]) -> (r: &[u8])
    ensures
        r@ == trimmed(s@),
{
    let n = s.len();
    let lo = scan_ws(s, 0);
    let ghost u = s@.skip(lo as int);
    proof {
        assert(s@.skip(0) =~= s@);
        assert(u == s@.skip(ws_len(s@) as int));
        assert(u.take(n - lo) =~= u);
    }
    let mut hi = n;
    while hi > lo
        invariant_except_break
            lo <= hi <= n,
            n == s@.len(),
            u == s@.skip(lo as int),
            trail_ws_len(u) == (n - hi) + trail_ws_len(u.take(hi - lo)),
        ensures
            lo <= hi <= n,
            n == s@.len(),
            trail_ws_len(u) == n - hi,
        decreases hi,
    {
        if !byte_is_ws(s[hi - 1]) {
            assert(u.take(hi - lo).last() == s@[hi - 1]);
            break;
        }
        proof {
            assert(u.take(hi - lo).drop_last() =~= u.take(hi - 1 - lo));
            assert(u.take(hi - lo).last() == s@[hi - 1]);
        }
        hi = hi - 1;
    }
    proof {
        assert(trimmed(s@) =~= s@.subrange(lo as int, hi as int));
    }
    slice_subrange(s, lo, hi)
}

/// The two whitespace-separated fields of a statistics line, when the
/// line holds exactly two.
pub fn parse_kv_line<'a>(line: &'a [u8]) -> (r: Option<(&'a [u8], &'a [u8])>)
    ensures
        match r {
            Some(kv) => kv_of(line@) == Some((kv.0@, kv.1@)),
            None => kv_of(line@) is None,
        },
{
    let n = line.len();
    let k0 = scan_ws(line, 0);
    let ghost a = line@.skip(ws_len(line@) as int);
    proof {
        assert(line@.skip(0) =~= line@);
        assert(a == line@.skip(k0 as int));
    }
    if k0 == n {
        return None;
    }
    let k1 = scan_token(line, k0);
    proof {
        assert(a.take(token_len(a) as int) =~= line@.subrange(k0 as int, k1 as int));
        assert(a.skip(token_len(a) as int) =~= line@.skip(k1 as int));
    }
    let ghost b = line@.skip(k1 as int);
    let v0 = scan_ws(line, k1);
    proof {
        assert(b.skip(ws_len(b) as int) =~= line@.skip(v0 as int));
    }
    let ghost c = line@.skip(v0 as int);
    if v0 == n {
        return None;
    }
    let v1 = scan_token(line, v0);
    proof {
        assert(c.take(token_len(c) as int) =~= line@.subrange(v0 as int, v1 as int));
        assert(c.skip(token_len(c) as int) =~= line@.skip(v1 as int));
    }
    let ghost d = line@.skip(v1 as int);
    let t = scan_ws(line, v1);
    proof {
        assert(d.skip(ws_len(d) as int) =~= line@.skip(t as int));
    }
    if t != n {
        return None;
    }
    let key = slice_subrange(line, k0, k1);
    let val = slice_subrange(line, v0, v1);
    Some((key, val))
}

/// Appending one line to the fold: the new line wins when it names the
/// key, otherwise the fold is unchanged.
proof fn lemma_stat_fold_push(lines: Seq<Seq<u8>>, l: Seq<u8>, key: Seq<u8>)
    ensures
        stat_fold(lines.push(l), key) == (match kv_of(l) {
            Some(kv) => if kv.0 == key {
                lenient_u64(kv.1)
            } else {
                stat_fold(lines, key)
            },
            None => stat_fold(lines, key),
        }),
{
    assert(lines.push(l).drop_last() =~= lines);
    assert(lines.push(l).last() == l);
}

/// Parse the whole statistics text: for each of the four retained keys,
/// the value of the last `key value` line naming it, leniently parsed;
/// zero when no line names it. Lines with any other field count, and
/// unknown keys, are ignored.
pub fn parse_memory_stat(text: &[u8]) -> (r: StatCounters)
    ensures
        r.inactive_anon == stat_value(text@, inactive_anon_key()),
        r.active_anon == stat_value(text@, active_anon_key()),
        r.inactive_file == stat_value(text@, inactive_file_key()),
        r.active_file == stat_value(text@, active_file_key()),
{
    let n = text.len();
    let mut c = StatCounters { inactive_anon: 0, active_anon: 0, inactive_file: 0, active_file: 0 };
    let mut pos: usize = 0;
    let ghost full = split_lines(text@);
    let ghost mut done: Seq<Seq<u8>> = Seq::empty();
    proof {
        assert(text@.skip(0) =~= text@);
        assert(full =~= done + split_lines(text@.skip(0)));
    }
    while pos < n
        invariant
            pos <= n,
            n == text@.len(),
            full == split_lines(text@),
            full == done + split_lines(text@.skip(pos as int)),
            c.inactive_anon == stat_fold(done, inactive_anon_key()),
            c.active_anon == stat_fold(done, active_anon_key()),
            c.inactive_file == stat_fold(done, inactive_file_key()),
            c.active_file == stat_fold(done, active_file_key()),
        decreases n - pos,
    {
        let ghost rest = text@.skip(pos as int);
        let e = scan_line(text, pos);
        let line_hi: usize;
        let next: usize;
        if e == n {
            line_hi = e;
            next = n;
        } else if e > pos && text[e - 1] == 13 {
            line_hi = e - 1;
            next = e + 1;
        } else {
            line_hi = e;
            next = e + 1;
        }
        let line = slice_subrange(text, pos, line_hi);
        proof {
            let k = line_len(rest);
            assert(k == e - pos);
            if e == n {
                assert(k == rest.len());
                assert(split_lines(rest) =~= seq![rest]);
                assert(line@ =~= rest);
                assert(text@.skip(next as int).len() == 0);
                assert(split_lines(text@.skip(next as int)) =~= Seq::<Seq<u8>>::empty());
                assert(done + split_lines(rest) =~= done.push(line@) + split_lines(
                    text@.skip(next as int),
                ));
            } else {
                assert(k < rest.len());
                assert(rest.take(k as int) =~= text@.subrange(pos as int, e as int));
                assert(rest.skip(k + 1 as int) =~= text@.skip(next as int));
                assert(split_lines(rest) == seq![strip_cr(rest.take(k as int))] + split_lines(
                    rest.skip(k + 1 as int),
                ));
                if e > pos && text@[e - 1] == 13 {
                    assert(strip_cr(rest.take(k as int)) =~= text@.subrange(
                        pos as int,
                        e - 1,
                    ));
                } else {
                    assert(rest.take(k as int).len() > 0 ==> rest.take(k as int).last() == text@[e
                        - 1]);
                    assert(strip_cr(rest.take(k as int)) =~= rest.take(k as int));
                }
                assert(line@ =~= strip_cr(rest.take(k as int)));
                assert(done + split_lines(rest) =~= done.push(line@) + split_lines(
                    text@.skip(next as int),
                ));
            }
            lemma_stat_fold_push(done, line@, inactive_anon_key());
            lemma_stat_fold_push(done, line@, active_anon_key());
            lemma_stat_fold_push(done, line@, inactive_file_key());
            lemma_stat_fold_push(done, line@, active_file_key());
        }
        match parse_kv_line(line) {
            Some((key, val)) => {
                let value = parse_u64_or_zero(val);
                let is_inactive_anon = bytes_eq(key, "inactive_anon".as_bytes());
                let is_active_anon = bytes_eq(key, "active_anon".as_bytes());
                let is_inactive_file = bytes_eq(key, "inactive_file".as_bytes());
                let is_active_file = bytes_eq(key, "active_file".as_bytes());
                if is_inactive_anon {
                    c.inactive_anon = value;
                }
                if is_active_anon {
                    c.active_anon = value;
                }
                if is_inactive_file {
                    c.inactive_file = value;
                }
                if is_active_file {
                    c.active_file = value;
                }
            },
            None => {},
        }
        proof {
            done = done.push(line@);
        }
        pos = next;
    }
    proof {
        assert(text@.skip(pos as int).len() == 0);
        assert(split_lines(text@.skip(pos as int)) =~= Seq::<Seq<u8>>::empty());
        assert(full =~= done);
    }
    c
}

/// Appending one line to the strict fold.
proof fn lemma_stat_fold_strict_push(lines: Seq<Seq<u8>>, l: Seq<u8>, key: Seq<u8>)
    ensures
        stat_fold_strict(lines.push(l), key) == (match kv_of(l) {
            Some(kv) => if kv.0 == key {
                spec_parse_u64(kv.1)
            } else {
                stat_fold_strict(lines, key)
            },
            None => stat_fold_strict(lines, key),
        }),
{
    assert(lines.push(l).drop_last() =~= lines);
    assert(lines.push(l).last() == l);
}

/// Fail-fast counterpart of `parse_memory_stat`: `None` as soon as a
/// retained line's value is not a plain decimal number.
pub fn parse_memory_stat_strict(text: &[u8]) -> (r: Option<StatCounters>)
    ensures
        match r {
            Some(c) => stat_value_strict(text@, inactive_anon_key()) == Some(c.inactive_anon)
                && stat_value_strict(text@, active_anon_key()) == Some(c.active_anon)
                && stat_value_strict(text@, inactive_file_key()) == Some(c.inactive_file)
                && stat_value_strict(text@, active_file_key()) == Some(c.active_file),
            None => stat_value_strict(text@, inactive_anon_key()) is None || stat_value_strict(
                text@,
                active_anon_key(),
            ) is None || stat_value_strict(text@, inactive_file_key()) is None
                || stat_value_strict(text@, active_file_key()) is None,
        },
{
    let n = text.len();
    let mut inactive_anon: Option<u64> = Some(0);
    let mut active_anon: Option<u64> = Some(0);
    let mut inactive_file: Option<u64> = Some(0);
    let mut active_file: Option<u64> = Some(0);
    let mut pos: usize = 0;
    let ghost full = split_lines(text@);
    let ghost mut done: Seq<Seq<u8>> = Seq::empty();
    proof {
        assert(text@.skip(0) =~= text@);
        assert(full =~= done + split_lines(text@.skip(0)));
    }
    while pos < n
        invariant
            pos <= n,
            n == text@.len(),
            full == split_lines(text@),
            full == done + split_lines(text@.skip(pos as int)),
            inactive_anon == stat_fold_strict(done, inactive_anon_key()),
            active_anon == stat_fold_strict(done, active_anon_key()),
            inactive_file == stat_fold_strict(done, inactive_file_key()),
            active_file == stat_fold_strict(done, active_file_key()),
        decreases n - pos,
    {
        let ghost rest = text@.skip(pos as int);
        let e = scan_line(text, pos);
        let line_hi: usize;
        let next: usize;
        if e == n {
            line_hi = e;
            next = n;
        } else if e > pos && text[e - 1] == 13 {
            line_hi = e - 1;
            next = e + 1;
        } else {
            line_hi = e;
            next = e + 1;
        }
        let line = slice_subrange(text, pos, line_hi);
        proof {
            let k = line_len(rest);
            assert(k == e - pos);
            if e == n {
                assert(k == rest.len());
                assert(split_lines(rest) =~= seq![rest]);
                assert(line@ =~= rest);
                assert(text@.skip(next as int).len() == 0);
                assert(split_lines(text@.skip(next as int)) =~= Seq::<Seq<u8>>::empty());
                assert(done + split_lines(rest) =~= done.push(line@) + split_lines(
                    text@.skip(next as int),
                ));
            } else {
                assert(k < rest.len());
                assert(rest.take(k as int) =~= text@.subrange(pos as int, e as int));
                assert(rest.skip(k + 1 as int) =~= text@.skip(next as int));
                assert(split_lines(rest) == seq![strip_cr(rest.take(k as int))] + split_lines(
                    rest.skip(k + 1 as int),
                ));
                if e > pos && text@[e - 1] == 13 {
                    assert(strip_cr(rest.take(k as int)) =~= text@.subrange(
                        pos as int,
                        e - 1,
                    ));
                } else {
                    assert(rest.take(k as int).len() > 0 ==> rest.take(k as int).last() == text@[e
                        - 1]);
                    assert(strip_cr(rest.take(k as int)) =~= rest.take(k as int));
                }
                assert(line@ =~= strip_cr(rest.take(k as int)));
                assert(done + split_lines(rest) =~= done.push(line@) + split_lines(
                    text@.skip(next as int),
                ));
            }
            lemma_stat_fold_strict_push(done, line@, inactive_anon_key());
            lemma_stat_fold_strict_push(done, line@, active_anon_key());
            lemma_stat_fold_strict_push(done, line@, inactive_file_key());
            lemma_stat_fold_strict_push(done, line@, active_file_key());
        }
        match parse_kv_line(line) {
            Some((key, val)) => {
                let value = parse_u64(val);
                let is_inactive_anon = bytes_eq(key, "inactive_anon".as_bytes());
                let is_active_anon = bytes_eq(key, "active_anon".as_bytes());
                let is_inactive_file = bytes_eq(key, "inactive_file".as_bytes());
                let is_active_file = bytes_eq(key, "active_file".as_bytes());
                if is_inactive_anon {
                    inactive_anon = value;
                }
                if is_active_anon {
                    active_anon = value;
                }
                if is_inactive_file {
                    inactive_file = value;
                }
                if is_active_file {
                    active_file = value;
                }
            },
            None => {},
        }
        proof {
            done = done.push(line@);
        }
        pos = next;
    }
    proof {
        assert(text@.skip(pos as int).len() == 0);
        assert(split_lines(text@.skip(pos as int)) =~= Seq::<Seq<u8>>::empty());
        assert(full =~= done);
    }
    match (inactive_anon, active_anon, inactive_file, active_file) {
        (Some(ia), Some(aa), Some(inf), Some(af)) => Some(
            StatCounters {
                inactive_anon: ia,
                active_anon: aa,
                inactive_file: inf,
                active_file: af,
            },
        ),
        _ => None,
    }
}

/// Assemble a snapshot from the raw contents of the five telemetry
/// interfaces, exactly as the lenient per-field parses give them.
pub fn build_snapshot(
    stat_text: &[u8],
    memory_current: &[u8],
    swap_current: &[u8],
    memory_max: &[u8],
    swap_max: &[u8],
) -> (s: MemorySnapshot)
    ensures
        s.inactive_anon == stat_value(stat_text@, inactive_anon_key()),
        s.active_anon == stat_value(stat_text@, active_anon_key()),
        s.inactive_file == stat_value(stat_text@, inactive_file_key()),
        s.active_file == stat_value(stat_text@, active_file_key()),
        s.current_memory_usage == spec_parse_value(memory_current@),
        s.current_swap_usage == spec_parse_value(swap_current@),
        s.memory_max == spec_parse_value(memory_max@),
        s.swap_max == spec_parse_value(swap_max@),
{
    let counters = parse_memory_stat(stat_text);
    MemorySnapshot {
        inactive_anon: counters.inactive_anon,
        active_anon: counters.active_anon,
        inactive_file: counters.inactive_file,
        active_file: counters.active_file,
        current_memory_usage: parse_value(memory_current),
        current_swap_usage: parse_value(swap_current),
        memory_max: parse_value(memory_max),
        swap_max: parse_value(swap_max),
    }
}

/// Fail-fast counterpart of `build_snapshot`: `None` as soon as any of
/// the five interfaces holds a value that is not a plain decimal.
pub fn build_snapshot_strict(
    stat_text: &[u8],
    memory_current: &[u8],
    swap_current: &[u8],
    memory_max: &[u8],
    swap_max: &[u8],
) -> (s: Option<MemorySnapshot>)
    ensures
        match s {
            Some(snap) => stat_value_strict(stat_text@, inactive_anon_key()) == Some(
                snap.inactive_anon,
            ) && stat_value_strict(stat_text@, active_anon_key()) == Some(snap.active_anon)
                && stat_value_strict(stat_text@, inactive_file_key()) == Some(snap.inactive_file)
                && stat_value_strict(stat_text@, active_file_key()) == Some(snap.active_file)
                && spec_parse_u64(trimmed(memory_current@)) == Some(snap.current_memory_usage)
                && spec_parse_u64(trimmed(swap_current@)) == Some(snap.current_swap_usage)
                && spec_parse_u64(trimmed(memory_max@)) == Some(snap.memory_max)
                && spec_parse_u64(trimmed(swap_max@)) == Some(snap.swap_max),
            None => stat_value_strict(stat_text@, inactive_anon_key()) is None
                || stat_value_strict(stat_text@, active_anon_key()) is None
                || stat_value_strict(stat_text@, inactive_file_key()) is None
                || stat_value_strict(stat_text@, active_file_key()) is None || spec_parse_u64(
                trimmed(memory_current@),
            ) is None || spec_parse_u64(trimmed(swap_current@)) is None || spec_parse_u64(
                trimmed(memory_max@),
            ) is None || spec_parse_u64(trimmed(swap_max@)) is None,
        },
{
    let counters = match parse_memory_stat_strict(stat_text) {
        Some(c) => c,
        None => {
            return None;
        },
    };
    let current_memory_usage = match parse_value_strict(memory_current) {
        Some(v) => v,
        None => {
            return None;
        },
    };
    let current_swap_usage = match parse_value_strict(swap_current) {
        Some(v) => v,
        None => {
            return None;
        },
    };
    let memory_max_value = match parse_value_strict(memory_max) {
        Some(v) => v,
        None => {
            return None;
        },
    };
    let swap_max_value = match parse_value_strict(swap_max) {
        Some(v) => v,
        None => {
            return None;
        },
    };
    Some(
        MemorySnapshot {
            inactive_anon: counters.inactive_anon,
            active_anon: counters.active_anon,
            inactive_file: counters.inactive_file,
            active_file: counters.active_file,
            current_memory_usage,
            current_swap_usage,
            memory_max: memory_max_value,
            swap_max: swap_max_value,
        },
    )
}

} // verus!
