//! The line-oriented JSON protocol spoken with the recognition subprocess.
//!
//! Each request line carries one audio chunk:
//! `{"samples":[-3,0,17],"sample_rate":16000}`. Each response line carries one
//! recognition result: `{"text":"hello","is_final":true,"confidence":0.9}`
//! (confidence may be `null`). Every line is one complete JSON object; the
//! encoders here produce exactly that shape and the parsers accept it,
//! decoding the string escapes that a standard JSON producer emits. The
//! parsers are deliberately narrow: they read the one canonical form the
//! pipeline's own producers write — these keys in this order, no whitespace
//! between tokens — and a peer that reorders keys or adds whitespace, though
//! it writes well-formed JSON, is not understood. A line the parser does not
//! accept is skipped by the caller, never fatal.

use crate::types::{IpcAudioChunk, IpcTranscriptionResult};
use vstd::prelude::*;

verus! {

// ---------------------------------------------------------------------------
// Decimal digits
// ---------------------------------------------------------------------------

/// Is `c` a decimal digit?
pub open spec fn is_dig(c: char) -> bool {
    48 <= c as u32 <= 57
}

/// The numeric value of a digit character.
pub open spec fn d_val(c: char) -> int {
    c as u32 - 48
}

/// The digit character for a value in `0..=9`.
pub open spec fn dig_char(d: int) -> char {
    ((48 + d) as u8) as char
}

/// The canonical decimal spelling of a natural number, most significant
/// digit first, no leading zeros (`0` is spelled `"0"`).
pub open spec fn dec_nat(n: nat) -> Seq<char>
    decreases n,
{
    if n < 10 {
        seq![dig_char(n as int)]
    } else {
        dec_nat(n / 10).push(dig_char((n % 10) as int))
    }
}

/// The canonical decimal spelling of a (possibly negative) integer.
pub open spec fn dec_int(v: int) -> Seq<char> {
    if v < 0 {
        seq!['-'] + dec_nat((-v) as nat)
    } else {
        dec_nat(v as nat)
    }
}

/// The value of a digit string, most significant digit first.
pub open spec fn digits_val(t: Seq<char>) -> int
    decreases t.len(),
{
    if t.len() == 0 {
        0
    } else {
        digits_val(t.drop_last()) * 10 + d_val(t.last())
    }
}

/// Everything `dec_nat` promises: at least one digit, digits only, no
/// leading zero unless the number is zero, and reading it back gives the
/// number.
pub proof fn lemma_dec_nat_props(n: nat)
    ensures
        dec_nat(n).len() >= 1,
        forall|k: int| 0 <= k < dec_nat(n).len() ==> is_dig(#[trigger] dec_nat(n)[k]),
        dec_nat(n)[0] == '0' <==> n == 0,
        n == 0 ==> dec_nat(n).len() == 1,
        digits_val(dec_nat(n)) == n,
    decreases n,
{
    if n < 10 {
        let t = dec_nat(n);
        assert(t == seq![dig_char(n as int)]);
        assert(t.drop_last() =~= Seq::<char>::empty());
        assert(digits_val(t.drop_last()) == 0);
        assert(t.last() == dig_char(n as int));
        assert(d_val(dig_char(n as int)) == n);
    } else {
        lemma_dec_nat_props(n / 10);
        let t = dec_nat(n);
        assert(t == dec_nat(n / 10).push(dig_char((n % 10) as int)));
        assert(t.drop_last() =~= dec_nat(n / 10));
        assert(t.last() == dig_char((n % 10) as int));
        assert(d_val(dig_char((n % 10) as int)) == n % 10);
        assert(digits_val(t) == (n / 10) * 10 + (n % 10));
        assert((n / 10) * 10 + (n % 10) == n) by {
            vstd::arithmetic::div_mod::lemma_fundamental_div_mod(n as int, 10);
        }
    }
}

// ---------------------------------------------------------------------------
// Parsing primitives over character sequences
// ---------------------------------------------------------------------------

/// The first index at or after `i` that does not hold a digit.
pub open spec fn digit_run_end(s: Seq<char>, i: int) -> int
    decreases s.len() - i,
{
    if i < s.len() && is_dig(s[i]) {
        digit_run_end(s, i + 1)
    } else {
        i
    }
}

/// A digit run ends exactly at the first non-digit.
pub proof fn lemma_digit_run_end(s: Seq<char>, i: int, j: int)
    requires
        0 <= i <= j <= s.len(),
        forall|k: int| i <= k < j ==> is_dig(#[trigger] s[k]),
        j == s.len() || !is_dig(s[j]),
    ensures
        digit_run_end(s, i) == j,
    decreases j - i,
{
    if i < j {
        lemma_digit_run_end(s, i + 1, j);
    }
}

/// Basic shape of a digit run: it starts at `i`, stays within the sequence,
/// and covers digits only.
pub proof fn lemma_digit_run_shape(s: Seq<char>, i: int)
    requires
        0 <= i <= s.len(),
    ensures
        i <= digit_run_end(s, i) <= s.len(),
        forall|k: int| i <= k < digit_run_end(s, i) ==> is_dig(#[trigger] s[k]),
    decreases s.len() - i,
{
    if i < s.len() && is_dig(s[i]) {
        lemma_digit_run_shape(s, i + 1);
    }
}

/// Parse a canonical unsigned decimal number starting at `i`: a nonempty
/// digit run without leading zeros. Returns the index after the run and the
/// value.
pub open spec fn parse_canon_nat(s: Seq<char>, i: int) -> Option<(int, int)> {
    let j = digit_run_end(s, i);
    if j == i {
        None
    } else if s[i] == '0' && j > i + 1 {
        None
    } else {
        Some((j, digits_val(s.subrange(i, j))))
    }
}

/// Digit-string values are nonnegative.
pub proof fn lemma_digits_val_nonneg(t: Seq<char>)
    requires
        forall|k: int| 0 <= k < t.len() ==> is_dig(#[trigger] t[k]),
    ensures
        digits_val(t) >= 0,
    decreases t.len(),
{
    if t.len() > 0 {
        lemma_digits_val_nonneg(t.drop_last());
    }
}

/// Extending a digit string on the right cannot decrease its value.
pub proof fn lemma_digits_val_prefix(t: Seq<char>, k: int)
    requires
        0 <= k <= t.len(),
        forall|m: int| 0 <= m < t.len() ==> is_dig(#[trigger] t[m]),
    ensures
        digits_val(t.subrange(0, k)) <= digits_val(t),
    decreases t.len() - k,
{
    if k == t.len() {
        assert(t.subrange(0, k) =~= t);
    } else {
        lemma_digits_val_prefix(t, k + 1);
        let u = t.subrange(0, k + 1);
        assert(u.drop_last() =~= t.subrange(0, k));
        assert(forall|m: int| 0 <= m < u.len() ==> is_dig(#[trigger] u[m]));
        lemma_digits_val_nonneg(u.drop_last());
        assert(digits_val(u) == digits_val(t.subrange(0, k)) * 10 + d_val(u.last()));
    }
}

/// Appending one digit multiplies the value by ten and adds the digit.
pub proof fn lemma_digits_val_snoc(s: Seq<char>, i: int, k: int)
    requires
        0 <= i <= k < s.len(),
    ensures
        digits_val(s.subrange(i, k + 1)) == digits_val(s.subrange(i, k)) * 10 + d_val(s[k]),
{
    let u = s.subrange(i, k + 1);
    assert(u.drop_last() =~= s.subrange(i, k));
    assert(u.last() == s[k]);
}

/// A canonical decimal spelling embedded in a longer sequence, followed by a
/// non-digit, parses back to its value.
pub proof fn lemma_parse_canon_nat_of_dec(s: Seq<char>, i: int, n: nat)
    requires
        0 <= i,
        i + dec_nat(n).len() <= s.len(),
        s.subrange(i, i + dec_nat(n).len() as int) == dec_nat(n),
        i + dec_nat(n).len() == s.len() || !is_dig(s[i + dec_nat(n).len()]),
    ensures
        parse_canon_nat(s, i) == Some((i + dec_nat(n).len() as int, n as int)),
{
    let t = dec_nat(n);
    let j = i + t.len() as int;
    lemma_dec_nat_props(n);
    assert forall|k: int| i <= k < j implies s[k] == t[k - i] && is_dig(#[trigger] s[k]) by {
        assert(s.subrange(i, j)[k - i] == s[k]);
        assert(is_dig(t[k - i]));
    }
    lemma_digit_run_end(s, i, j);
    assert(s[i] == t[0]);
    if n == 0 {
        assert(j == i + 1);
    } else {
        assert(s[i] != '0');
    }
    assert(s.subrange(i, j) =~= t);
}

// ---------------------------------------------------------------------------
// Executable digit primitives
// ---------------------------------------------------------------------------

/// The digit character for `d`.
pub(crate) fn dig_char_exec(d: u8) -> (c: char)
    requires
        d < 10,
    ensures
        c == dig_char(d as int),
{
    (48 + d) as char
}

/// Append the canonical decimal spelling of `n`.
pub(crate) fn push_dec_u64(out: &mut Vec<char>, n: u64)
    ensures
        final(out)@ == old(out)@ + dec_nat(n as nat),
{
    let mut tmp: Vec<char> = Vec::new();
    let mut cur: u64 = n;
    loop
        invariant_except_break
            cur > 0 ==> dec_nat(n as nat) =~= dec_nat(cur as nat) + tmp@,
            cur == 0 ==> tmp@.len() == 0 && n == 0,
            tmp@.len() == 0 ==> cur == n,
        ensures
            dec_nat(n as nat) =~= tmp@,
        decreases cur,
    {
        let ghost tmp_old = tmp@;
        let ghost cur_old = cur;
        let d = (cur % 10) as u8;
        let rest = cur / 10;
        tmp.insert(0, dig_char_exec(d));
        cur = rest;
        proof {
            assert(tmp@ =~= seq![dig_char(d as int)] + tmp_old);
            if cur_old >= 10 {
                assert(dec_nat(cur_old as nat) == dec_nat((cur_old as nat) / 10).push(
                    dig_char(((cur_old as nat) % 10) as int),
                ));
                assert(dec_nat(cur_old as nat) =~= dec_nat(cur as nat) + seq![
                    dig_char(d as int),
                ]);
            } else {
                assert(dec_nat(cur_old as nat) =~= seq![dig_char(d as int)]);
            }
            if tmp_old.len() == 0 {
                assert(cur_old == n);
            }
            assert(dec_nat(n as nat) =~= dec_nat(cur_old as nat) + tmp_old);
            if cur > 0 {
                assert(dec_nat(n as nat) =~= (dec_nat(cur as nat) + seq![dig_char(d as int)])
                    + tmp_old);
                assert(dec_nat(n as nat) =~= dec_nat(cur as nat) + tmp@);
            } else {
                assert(dec_nat(n as nat) =~= seq![dig_char(d as int)] + tmp_old);
                assert(dec_nat(n as nat) =~= tmp@);
            }
        }
        if cur == 0 {
            break;
        }
    }
    out.append(&mut tmp);
}

/// Append the canonical decimal spelling of `v`, with a leading minus sign
/// when it is negative.
fn push_dec_i16(out: &mut Vec<char>, v: i16)
    ensures
        final(out)@ == old(out)@ + dec_int(v as int),
{
    if v < 0 {
        out.push('-');
        let m: i32 = -(v as i32);
        push_dec_u64(out, m as u64);
        assert(final(out)@ =~= old(out)@ + dec_int(v as int));
    } else {
        push_dec_u64(out, v as u64);
    }
}

/// The end of the digit run that starts at `i`.
fn run_end_exec(v: &Vec<char>, i: usize) -> (j: usize)
    requires
        i <= v@.len(),
    ensures
        j as int == digit_run_end(v@, i as int),
        i <= j <= v@.len(),
    decreases v@.len() - i,
{
    let mut j = i;
    loop
        invariant
            i <= j <= v@.len(),
            digit_run_end(v@, i as int) == digit_run_end(v@, j as int),
        ensures
            j as int == digit_run_end(v@, i as int),
            i <= j <= v@.len(),
        decreases v@.len() - j,
    {
        if j == v.len() {
            break;
        }
        let u = v[j] as u32;
        if !(48 <= u && u <= 57) {
            break;
        }
        j = j + 1;
    }
    j
}

/// Parse a canonical unsigned decimal number at `i`, rejecting values above
/// `max`.
fn parse_nat_bounded(v: &Vec<char>, i: usize, max: u32) -> (r: Option<(usize, u32)>)
    requires
        i <= v@.len(),
    ensures
        match r {
            Some((j, val)) => parse_canon_nat(v@, i as int) == Some((j as int, val as int)) && val
                <= max,
            None => match parse_canon_nat(v@, i as int) {
                Some((j2, val2)) => val2 > max,
                None => true,
            },
        },
{
    let j = run_end_exec(v, i);
    proof {
        lemma_digit_run_shape(v@, i as int);
    }
    if j == i {
        return None;
    }
    if v[i] == '0' && j > i + 1 {
        return None;
    }
    let ghost whole = v@.subrange(i as int, j as int);
    proof {
        assert(forall|m: int| 0 <= m < whole.len() ==> is_dig(#[trigger] whole[m]));
    }
    let mut acc: u64 = 0;
    let mut k = i;
    while k < j
        invariant
            i <= k <= j <= v@.len(),
            j as int == digit_run_end(v@, i as int),
            forall|m: int| i <= m < j ==> is_dig(#[trigger] v@[m]),
            whole == v@.subrange(i as int, j as int),
            acc as int == digits_val(v@.subrange(i as int, k as int)),
            acc <= max,
        decreases j - k,
    {
        let d = (v[k] as u32 - 48) as u64;
        proof {
            lemma_digits_val_snoc(v@, i as int, k as int);
        }
        let next = acc * 10 + d;
        if next > max as u64 {
            proof {
                assert(v@.subrange(i as int, k + 1) =~= whole.subrange(0, k + 1 - i));
                lemma_digits_val_prefix(whole, k + 1 - i);
                assert(whole =~= v@.subrange(i as int, j as int));
            }
            return None;
        }
        acc = next;
        k = k + 1;
    }
    proof {
        assert(v@.subrange(i as int, k as int) =~= whole);
    }
    Some((j, acc as u32))
}

// ---------------------------------------------------------------------------
// The chunk request line
// ---------------------------------------------------------------------------

/// The opening of a chunk line, up to and including the `[` of the sample
/// array.
pub open spec fn chunk_open() -> Seq<char> {
    seq!['{', '"', 's', 'a', 'm', 'p', 'l', 'e', 's', '"', ':', '[']
}

/// The middle of a chunk line, between the closing `]` of the sample array
/// and the sample-rate number.
pub open spec fn chunk_mid() -> Seq<char> {
    seq![',', '"', 's', 'a', 'm', 'p', 'l', 'e', '_', 'r', 'a', 't', 'e', '"', ':']
}

/// The comma-separated spellings of the samples from index `k` on.
pub open spec fn samples_chars_from(s: Seq<i16>, k: int) -> Seq<char>
    decreases s.len() - k,
{
    if k < 0 || k >= s.len() {
        Seq::empty()
    } else if k == s.len() - 1 {
        dec_int(s[k] as int)
    } else {
        dec_int(s[k] as int) + seq![','] + samples_chars_from(s, k + 1)
    }
}

/// The one line that encodes an audio chunk on the subprocess protocol.
pub open spec fn spec_encode_chunk(samples: Seq<i16>, rate: u32) -> Seq<char> {
    chunk_open() + samples_chars_from(samples, 0) + seq![']'] + chunk_mid() + dec_nat(rate as nat)
        + seq!['}']
}

/// Expect the literal `lit` at index `i`; on success return the index after
/// it.
pub open spec fn parse_lit(s: Seq<char>, i: int, lit: Seq<char>) -> Option<int> {
    if 0 <= i && i + lit.len() <= s.len() && s.subrange(i, i + lit.len() as int) == lit {
        Some(i + lit.len() as int)
    } else {
        None
    }
}

/// Parse one sample: a canonical decimal with an optional leading minus,
/// within the 16-bit PCM range.
pub open spec fn spec_parse_i16(s: Seq<char>, i: int) -> Option<(int, i16)> {
    if 0 <= i < s.len() && s[i] == '-' {
        match parse_canon_nat(s, i + 1) {
            Some((j, v)) => if 1 <= v <= 32768 {
                Some((j, (-v) as i16))
            } else {
                None
            },
            None => None,
        }
    } else {
        match parse_canon_nat(s, i) {
            Some((j, v)) => if v <= 32767 {
                Some((j, v as i16))
            } else {
                None
            },
            None => None,
        }
    }
}

/// Parse the remainder of a nonempty sample array: numbers separated by
/// commas, terminated by `]` (which is consumed).
pub open spec fn spec_parse_samples_rest(s: Seq<char>, i: int, acc: Seq<i16>) -> Option<
    (int, Seq<i16>),
>
    decreases s.len() - i,
{
    match spec_parse_i16(s, i) {
        None => None,
        Some((j, v)) => {
            if j < s.len() && s[j] == ',' && j >= i {
                spec_parse_samples_rest(s, j + 1, acc.push(v))
            } else if j < s.len() && s[j] == ']' {
                Some((j + 1, acc.push(v)))
            } else {
                None
            }
        },
    }
}

/// Parse a sample array whose opening `[` has already been consumed,
/// consuming the closing `]`.
pub open spec fn spec_parse_sample_list(s: Seq<char>, i: int) -> Option<(int, Seq<i16>)> {
    if 0 <= i < s.len() && s[i] == ']' {
        Some((i + 1, Seq::empty()))
    } else {
        spec_parse_samples_rest(s, i, Seq::empty())
    }
}

/// Parse a whole chunk line. Accepts exactly the output of
/// [`spec_encode_chunk`].
pub open spec fn spec_parse_chunk(s: Seq<char>) -> Option<(Seq<i16>, u32)> {
    match parse_lit(s, 0, chunk_open()) {
        None => None,
        Some(i1) => match spec_parse_sample_list(s, i1) {
            None => None,
            Some((i2, samples)) => match parse_lit(s, i2, chunk_mid()) {
                None => None,
                Some(i3) => match parse_canon_nat(s, i3) {
                    None => None,
                    Some((i4, v)) => if v <= u32::MAX && i4 + 1 == s.len() && s[i4] == '}' {
                        Some((samples, v as u32))
                    } else {
                        None
                    },
                },
            },
        },
    }
}

// ---------------------------------------------------------------------------
// Executable chunk codec
// ---------------------------------------------------------------------------

/// The characters of [`chunk_open`], as a runtime value.
fn chunk_open_exec() -> (r: Vec<char>)
    ensures
        r@ == chunk_open(),
{
    let r = vec!['{', '"', 's', 'a', 'm', 'p', 'l', 'e', 's', '"', ':', '['];
    proof {
        assert(r@ =~= chunk_open());
    }
    r
}

/// The characters of [`chunk_mid`], as a runtime value.
fn chunk_mid_exec() -> (r: Vec<char>)
    ensures
        r@ == chunk_mid(),
{
    let r = vec![',', '"', 's', 'a', 'm', 'p', 'l', 'e', '_', 'r', 'a', 't', 'e', '"', ':'];
    proof {
        assert(r@ =~= chunk_mid());
    }
    r
}

/// Expect the literal `lit` at index `i`.
fn eat_lit(v: &Vec<char>, i: usize, lit: &Vec<char>) -> (r: Option<usize>)
    requires
        i <= v@.len(),
    ensures
        match r {
            Some(j) => parse_lit(v@, i as int, lit@) == Some(j as int),
            None => parse_lit(v@, i as int, lit@) is None,
        },
{
    if v.len() - i < lit.len() {
        return None;
    }
    let mut k: usize = 0;
    while k < lit.len()
        invariant
            i + lit@.len() <= v@.len(),
            v@.len() <= usize::MAX,
            k <= lit@.len(),
            forall|m: int| 0 <= m < k ==> v@[i + m] == lit@[m],
        decreases lit@.len() - k,
    {
        assert(i + k < v@.len());
        if v[i + k] != lit[k] {
            proof {
                let sub = v@.subrange(i as int, i + lit@.len() as int);
                assert(sub[k as int] == v@[i + k]);
                assert(sub != lit@);
            }
            return None;
        }
        k = k + 1;
    }
    proof {
        assert(v@.subrange(i as int, i + lit@.len() as int) =~= lit@);
    }
    Some(i + lit.len())
}

/// Parse one sample at index `i`.
fn parse_i16_at(v: &Vec<char>, i: usize) -> (r: Option<(usize, i16)>)
    requires
        i <= v@.len(),
    ensures
        match r {
            Some((j, val)) => spec_parse_i16(v@, i as int) == Some((j as int, val)) && i < j
                <= v@.len(),
            None => spec_parse_i16(v@, i as int) is None,
        },
{
    if i < v.len() && v[i] == '-' {
        proof {
            lemma_digit_run_shape(v@, i + 1);
        }
        match parse_nat_bounded(v, i + 1, 32768) {
            Some((j, val)) => {
                if val >= 1 {
                    let m: i32 = -(val as i32);
                    Some((j, m as i16))
                } else {
                    None
                }
            },
            None => None,
        }
    } else {
        proof {
            lemma_digit_run_shape(v@, i as int);
        }
        match parse_nat_bounded(v, i, 32767) {
            Some((j, val)) => Some((j, val as i16)),
            None => None,
        }
    }
}

/// Parse a sample array whose `[` has been consumed.
fn parse_sample_list(v: &Vec<char>, i: usize) -> (r: Option<(usize, Vec<i16>)>)
    requires
        i <= v@.len(),
    ensures
        match r {
            Some((j, xs)) => spec_parse_sample_list(v@, i as int) == Some((j as int, xs@)) && j
                <= v@.len(),
            None => spec_parse_sample_list(v@, i as int) is None,
        },
{
    if i < v.len() && v[i] == ']' {
        let xs: Vec<i16> = Vec::new();
        proof {
            assert(xs@ =~= Seq::<i16>::empty());
        }
        return Some((i + 1, xs));
    }
    let mut acc: Vec<i16> = Vec::new();
    let mut cur = i;
    loop
        invariant
            cur <= v@.len(),
            spec_parse_sample_list(v@, i as int) == spec_parse_samples_rest(
                v@,
                cur as int,
                acc@,
            ),
        decreases v@.len() - cur,
    {
        match parse_i16_at(v, cur) {
            None => {
                return None;
            },
            Some((j, val)) => {
                acc.push(val);
                if j < v.len() && v[j] == ',' {
                    cur = j + 1;
                } else if j < v.len() && v[j] == ']' {
                    return Some((j + 1, acc));
                } else {
                    return None;
                }
            },
        }
    }
}

/// Encode an audio chunk as its protocol line.
pub fn encode_chunk_chars(samples: &Vec<i16>, rate: u32) -> (r: Vec<char>)
    ensures
        r@ == spec_encode_chunk(samples@, rate),
{
    let mut out = chunk_open_exec();
    let mut k: usize = 0;
    while k < samples.len()
        invariant
            k <= samples@.len(),
            out@ + samples_chars_from(samples@, k as int) =~= chunk_open()
                + samples_chars_from(samples@, 0),
        decreases samples@.len() - k,
    {
        let ghost out_old = out@;
        push_dec_i16(&mut out, samples[k]);
        if k + 1 < samples.len() {
            out.push(',');
            proof {
                assert(out@ =~= out_old + dec_int(samples@[k as int] as int) + seq![',']);
                assert(samples_chars_from(samples@, k as int) =~= dec_int(
                    samples@[k as int] as int,
                ) + seq![','] + samples_chars_from(samples@, k + 1));
                assert(out@ + samples_chars_from(samples@, k + 1) =~= out_old
                    + samples_chars_from(samples@, k as int));
            }
        } else {
            proof {
                assert(samples_chars_from(samples@, k as int) =~= dec_int(
                    samples@[k as int] as int,
                ));
                assert(out@ + samples_chars_from(samples@, k + 1) =~= out_old
                    + samples_chars_from(samples@, k as int));
            }
        }
        k = k + 1;
    }
    out.push(']');
    let mut mid = chunk_mid_exec();
    out.append(&mut mid);
    push_dec_u64(&mut out, rate as u64);
    out.push('}');
    proof {
        assert(out@ =~= spec_encode_chunk(samples@, rate));
    }
    out
}

/// Parse a chunk line back into its samples and sample rate.
pub fn parse_chunk_chars(v: &Vec<char>) -> (r: Option<(Vec<i16>, u32)>)
    ensures
        match r {
            Some((xs, rate)) => spec_parse_chunk(v@) == Some((xs@, rate)),
            None => spec_parse_chunk(v@) is None,
        },
{
    let open = chunk_open_exec();
    let i1 = match eat_lit(v, 0, &open) {
        Some(j) => j,
        None => {
            return None;
        },
    };
    let (i2, xs) = match parse_sample_list(v, i1) {
        Some(p) => p,
        None => {
            return None;
        },
    };
    let mid = chunk_mid_exec();
    let i3 = match eat_lit(v, i2, &mid) {
        Some(j) => j,
        None => {
            return None;
        },
    };
    proof {
        lemma_digit_run_shape(v@, i3 as int);
    }
    let (i4, rate) = match parse_nat_bounded(v, i3, u32::MAX) {
        Some(p) => p,
        None => {
            return None;
        },
    };
    if i4 < v.len() && i4 + 1 == v.len() && v[i4] == '}' {
        Some((xs, rate))
    } else {
        None
    }
}

// ---------------------------------------------------------------------------
// Round trip: a chunk line parses back to the chunk it encodes
// ---------------------------------------------------------------------------

/// The spelling of an integer starts with a minus sign or a digit.
pub proof fn lemma_dec_int_first(v: int)
    ensures
        dec_int(v).len() >= 1,
        dec_int(v)[0] == '-' || is_dig(dec_int(v)[0]),
{
    if v < 0 {
        lemma_dec_nat_props((-v) as nat);
    } else {
        lemma_dec_nat_props(v as nat);
        assert(is_dig(dec_nat(v as nat)[0]));
    }
}

/// An embedded integer spelling, followed by a non-digit, parses back to its
/// value.
pub proof fn lemma_parse_i16_of_dec(s: Seq<char>, i: int, val: i16)
    requires
        0 <= i,
        i + dec_int(val as int).len() <= s.len(),
        s.subrange(i, i + dec_int(val as int).len() as int) == dec_int(val as int),
        i + dec_int(val as int).len() == s.len() || !is_dig(s[i + dec_int(val as int).len()]),
    ensures
        spec_parse_i16(s, i) == Some((i + dec_int(val as int).len() as int, val)),
{
    let t = dec_int(val as int);
    let j = i + t.len() as int;
    assert forall|k: int| i <= k < j implies s[k] == t[k - i] by {
        assert(s.subrange(i, j)[k - i] == s[k]);
    }
    if val < 0 {
        let n = (-(val as int)) as nat;
        lemma_dec_nat_props(n);
        assert(t =~= seq!['-'] + dec_nat(n));
        assert(s[i] == '-');
        assert(s.subrange(i + 1, j) =~= dec_nat(n)) by {
            assert forall|m: int| 0 <= m < j - i - 1 implies s.subrange(i + 1, j)[m] == dec_nat(
                n,
            )[m] by {
                assert(s.subrange(i + 1, j)[m] == s[i + 1 + m]);
                assert(t[1 + m] == dec_nat(n)[m]);
            }
        }
        lemma_parse_canon_nat_of_dec(s, i + 1, n);
        assert(1 <= n <= 32768);
        assert((-(n as int)) as i16 == val);
    } else {
        let n = val as nat;
        lemma_dec_nat_props(n);
        assert(t =~= dec_nat(n));
        assert(is_dig(s[i]));
        assert(s[i] as u32 != 45);
        assert(s[i] != '-');
        assert(s.subrange(i, j) =~= dec_nat(n));
        lemma_parse_canon_nat_of_dec(s, i, n);
        assert(n <= 32767);
    }
}

/// An embedded encoding of the samples `xs[k..]`, terminated by `]`, parses
/// back to exactly those samples, appended to the accumulator.
#[verifier::rlimit(80)]
pub proof fn lemma_parse_samples_of_enc(
    s: Seq<char>,
    i: int,
    xs: Seq<i16>,
    k: int,
    acc: Seq<i16>,
)
    requires
        0 <= i,
        0 <= k < xs.len(),
        i + samples_chars_from(xs, k).len() + 1 <= s.len(),
        s.subrange(i, i + samples_chars_from(xs, k).len() as int) == samples_chars_from(xs, k),
        s[i + samples_chars_from(xs, k).len()] == ']',
    ensures
        spec_parse_samples_rest(s, i, acc) == Some(
            (i + samples_chars_from(xs, k).len() + 1, acc + xs.skip(k)),
        ),
    decreases xs.len() - k,
{
    let region = samples_chars_from(xs, k);
    let x0 = dec_int(xs[k] as int);
    let e = i + region.len() as int;
    assert forall|m: int| i <= m < e implies s[m] == region[m - i] by {
        assert(s.subrange(i, e)[m - i] == s[m]);
    }
    if k == xs.len() - 1 {
        assert(region =~= x0);
        assert(s.subrange(i, i + x0.len() as int) =~= x0);
        assert(!is_dig(']'));
        lemma_parse_i16_of_dec(s, i, xs[k]);
        let j = i + x0.len() as int;
        assert(s[j] == ']');
        assert(spec_parse_samples_rest(s, i, acc) == Some((j + 1, acc.push(xs[k]))));
        assert(acc.push(xs[k]) =~= acc + xs.skip(k));
    } else {
        assert(region =~= x0 + seq![','] + samples_chars_from(xs, k + 1));
        let j = i + x0.len() as int;
        assert(s.subrange(i, j) =~= x0) by {
            assert forall|m: int| 0 <= m < x0.len() implies s.subrange(i, j)[m] == x0[m] by {
                assert(s[i + m] == region[m]);
                assert(region[m] == x0[m]);
            }
        }
        assert(s[j] == region[x0.len() as int]);
        assert(region[x0.len() as int] == ',');
        assert(!is_dig(','));
        lemma_parse_i16_of_dec(s, i, xs[k]);
        let rest = samples_chars_from(xs, k + 1);
        assert(s.subrange(j + 1, j + 1 + rest.len() as int) =~= rest) by {
            assert forall|m: int| 0 <= m < rest.len() implies s.subrange(
                j + 1,
                j + 1 + rest.len() as int,
            )[m] == rest[m] by {
                assert(s[j + 1 + m] == region[x0.len() + 1 + m]);
                assert(region[x0.len() + 1 + m] == rest[m]);
            }
        }
        assert(s[j + 1 + rest.len()] == ']');
        lemma_parse_samples_of_enc(s, j + 1, xs, k + 1, acc.push(xs[k]));
        assert(spec_parse_samples_rest(s, i, acc) == spec_parse_samples_rest(
            s,
            j + 1,
            acc.push(xs[k]),
        ));
        assert(acc.push(xs[k]) + xs.skip(k + 1) =~= acc + xs.skip(k));
        assert(i + region.len() + 1 == j + 1 + rest.len() + 1);
    }
}

/// Round trip for chunk lines: parsing the encoding of any chunk gives back
/// exactly its samples and sample rate.
#[verifier::rlimit(80)]
pub proof fn lemma_chunk_round_trip(samples: Seq<i16>, rate: u32)
    ensures
        spec_parse_chunk(spec_encode_chunk(samples, rate)) == Some((samples, rate)),
{
    let s = spec_encode_chunk(samples, rate);
    let sc = samples_chars_from(samples, 0);
    let rc = dec_nat(rate as nat);
    lemma_dec_nat_props(rate as nat);
    let i1 = 12int;
    let i2 = i1 + sc.len() as int + 1;
    let i3 = i2 + 15;
    let i4 = i3 + rc.len() as int;
    assert(s.len() == i4 + 1);
    assert(s.subrange(0, 12) =~= chunk_open());
    assert(parse_lit(s, 0, chunk_open()) == Some(i1));
    if samples.len() == 0 {
        assert(sc =~= Seq::<char>::empty());
        assert(s[i1] == ']');
        assert(spec_parse_sample_list(s, i1) == Some((i1 + 1, Seq::<i16>::empty())));
        assert(Seq::<i16>::empty() =~= samples);
    } else {
        lemma_dec_int_first(samples[0] as int);
        assert(sc[0] == dec_int(samples[0] as int)[0]);
        assert(s[i1] == sc[0]);
        assert(s[i1] != ']');
        assert(s.subrange(i1, i1 + sc.len() as int) =~= sc);
        assert(s[i1 + sc.len()] == ']');
        lemma_parse_samples_of_enc(s, i1, samples, 0, Seq::<i16>::empty());
        assert(Seq::<i16>::empty() + samples.skip(0) =~= samples);
        assert(spec_parse_sample_list(s, i1) == Some((i2, samples)));
    }
    assert(s.subrange(i2, i2 + 15) =~= chunk_mid());
    assert(parse_lit(s, i2, chunk_mid()) == Some(i3));
    assert(s.subrange(i3, i3 + rc.len() as int) =~= rc);
    assert(s[i4] == '}');
    assert(!is_dig('}'));
    lemma_parse_canon_nat_of_dec(s, i3, rate as nat);
    assert(parse_canon_nat(s, i3) == Some((i4, rate as int)));
    assert(rate as int <= u32::MAX);
}

// ---------------------------------------------------------------------------
// The result response line
// ---------------------------------------------------------------------------

/// Is `c` a hexadecimal digit?
pub open spec fn is_hex(c: char) -> bool {
    is_dig(c) || 97 <= c as u32 <= 102 || 65 <= c as u32 <= 70
}

/// The numeric value of a hexadecimal digit character.
pub open spec fn hex_val(c: char) -> int {
    if is_dig(c) {
        c as u32 - 48
    } else if 97 <= c as u32 <= 102 {
        c as u32 - 87
    } else {
        c as u32 - 55
    }
}

/// The lowercase hexadecimal digit character for a value in `0..=15`.
pub open spec fn hex_char(d: int) -> char {
    if d < 10 {
        dig_char(d)
    } else {
        ((87 + d) as u8) as char
    }
}

/// How one character is written inside a JSON string: quotes, backslashes
/// and the named control characters get two-character escapes, other control
/// characters a `\u00XX` escape, everything else stands for itself.
pub open spec fn esc_char(c: char) -> Seq<char> {
    if c == '"' {
        seq!['\\', '"']
    } else if c == '\\' {
        seq!['\\', '\\']
    } else if c == '\u{8}' {
        seq!['\\', 'b']
    } else if c == '\t' {
        seq!['\\', 't']
    } else if c == '\n' {
        seq!['\\', 'n']
    } else if c == '\u{c}' {
        seq!['\\', 'f']
    } else if c == '\r' {
        seq!['\\', 'r']
    } else if (c as u32) < 32 {
        seq!['\\', 'u', '0', '0', hex_char(c as u32 as int / 16), hex_char(c as u32 as int % 16)]
    } else {
        seq![c]
    }
}

/// The escaped form of the text from index `k` on.
pub open spec fn escape_from(t: Seq<char>, k: int) -> Seq<char>
    decreases t.len() - k,
{
    if k < 0 || k >= t.len() {
        Seq::empty()
    } else {
        esc_char(t[k]) + escape_from(t, k + 1)
    }
}

/// The opening of a result line, up to and including the quote that starts
/// the text.
pub open spec fn res_open() -> Seq<char> {
    seq!['{', '"', 't', 'e', 'x', 't', '"', ':', '"']
}

/// Between the text's closing quote and the finality flag.
pub open spec fn res_mid1() -> Seq<char> {
    seq![',', '"', 'i', 's', '_', 'f', 'i', 'n', 'a', 'l', '"', ':']
}

/// Between the finality flag and the confidence.
pub open spec fn res_mid2() -> Seq<char> {
    seq![',', '"', 'c', 'o', 'n', 'f', 'i', 'd', 'e', 'n', 'c', 'e', '"', ':']
}

/// The spelling of a boolean.
pub open spec fn bool_chars(b: bool) -> Seq<char> {
    if b {
        seq!['t', 'r', 'u', 'e']
    } else {
        seq!['f', 'a', 'l', 's', 'e']
    }
}

/// The spelling of `null`.
pub open spec fn null_chars() -> Seq<char> {
    seq!['n', 'u', 'l', 'l']
}

/// The canonical spelling of a confidence given in thousandths: `0`, `1`,
/// or `0.` followed by up to three fraction digits with trailing zeros
/// dropped.
pub open spec fn conf_num_chars(v: int) -> Seq<char> {
    if v == 1000 {
        seq!['1']
    } else if v == 0 {
        seq!['0']
    } else {
        let d1 = v / 100;
        let d2 = (v / 10) % 10;
        let d3 = v % 10;
        if d3 != 0 {
            seq!['0', '.', dig_char(d1), dig_char(d2), dig_char(d3)]
        } else if d2 != 0 {
            seq!['0', '.', dig_char(d1), dig_char(d2)]
        } else {
            seq!['0', '.', dig_char(d1)]
        }
    }
}

/// The spelling of an optional confidence.
pub open spec fn conf_chars(conf: Option<u16>) -> Seq<char> {
    match conf {
        None => null_chars(),
        Some(v) => conf_num_chars(v as int),
    }
}

/// The one line that encodes a recognition result on the subprocess
/// protocol.
pub open spec fn spec_encode_result(text: Seq<char>, is_final: bool, conf: Option<u16>) -> Seq<
    char,
> {
    res_open() + escape_from(text, 0) + seq!['"'] + res_mid1() + bool_chars(is_final) + res_mid2()
        + conf_chars(conf) + seq!['}']
}

/// Parse a JSON string body starting just after its opening quote,
/// consuming the closing quote; decodes the escapes of [`esc_char`] plus
/// `\/` and `\u00XX` for any two hex digits. A raw control character, an
/// unknown escape, or an unterminated string is an error.
pub open spec fn spec_parse_string_body(s: Seq<char>, i: int, acc: Seq<char>) -> Option<
    (int, Seq<char>),
>
    decreases s.len() - i,
{
    if i < 0 || i >= s.len() {
        None
    } else if s[i] == '"' {
        Some((i + 1, acc))
    } else if s[i] == '\\' {
        if i + 1 >= s.len() {
            None
        } else {
            let e = s[i + 1];
            if e == '"' {
                spec_parse_string_body(s, i + 2, acc.push('"'))
            } else if e == '\\' {
                spec_parse_string_body(s, i + 2, acc.push('\\'))
            } else if e == '/' {
                spec_parse_string_body(s, i + 2, acc.push('/'))
            } else if e == 'b' {
                spec_parse_string_body(s, i + 2, acc.push('\u{8}'))
            } else if e == 'f' {
                spec_parse_string_body(s, i + 2, acc.push('\u{c}'))
            } else if e == 'n' {
                spec_parse_string_body(s, i + 2, acc.push('\n'))
            } else if e == 'r' {
                spec_parse_string_body(s, i + 2, acc.push('\r'))
            } else if e == 't' {
                spec_parse_string_body(s, i + 2, acc.push('\t'))
            } else if e == 'u' {
                if i + 6 <= s.len() && s[i + 2] == '0' && s[i + 3] == '0' && is_hex(s[i + 4])
                    && is_hex(s[i + 5]) {
                    spec_parse_string_body(
                        s,
                        i + 6,
                        acc.push(((hex_val(s[i + 4]) * 16 + hex_val(s[i + 5])) as u8) as char),
                    )
                } else {
                    None
                }
            } else {
                None
            }
        }
    } else if (s[i] as u32) >= 32 {
        spec_parse_string_body(s, i + 1, acc.push(s[i]))
    } else {
        None
    }
}

/// Parse `true` or `false`.
pub open spec fn spec_parse_bool(s: Seq<char>, i: int) -> Option<(int, bool)> {
    match parse_lit(s, i, bool_chars(true)) {
        Some(j) => Some((j, true)),
        None => match parse_lit(s, i, bool_chars(false)) {
            Some(j) => Some((j, false)),
            None => None,
        },
    }
}

/// Parse a confidence: `null`, or a number in `0.0 ..= 1.0` written as an
/// integer part `0` or `1` with an optional fraction. The value is taken to
/// thousandths; fraction digits past the third are read but do not add
/// precision. Exponent notation is not accepted.
pub open spec fn spec_parse_conf(s: Seq<char>, i: int) -> Option<(int, Option<u16>)> {
    match parse_lit(s, i, null_chars()) {
        Some(j) => Some((j, None)),
        None => {
            if 0 <= i < s.len() && is_dig(s[i]) {
                let d0 = d_val(s[i]);
                if d0 > 1 {
                    None
                } else if i + 1 < s.len() && s[i + 1] == '.' {
                    let j = digit_run_end(s, i + 2);
                    if j == i + 2 {
                        None
                    } else {
                        let f1 = d_val(s[i + 2]);
                        let f2 = if j > i + 3 {
                            d_val(s[i + 3])
                        } else {
                            0
                        };
                        let f3 = if j > i + 4 {
                            d_val(s[i + 4])
                        } else {
                            0
                        };
                        let v = d0 * 1000 + f1 * 100 + f2 * 10 + f3;
                        if v <= 1000 {
                            Some((j, Some(v as u16)))
                        } else {
                            None
                        }
                    }
                } else {
                    Some((i + 1, Some((d0 * 1000) as u16)))
                }
            } else {
                None
            }
        },
    }
}

/// Parse a whole result line.
pub open spec fn spec_parse_result(s: Seq<char>) -> Option<(Seq<char>, bool, Option<u16>)> {
    match parse_lit(s, 0, res_open()) {
        None => None,
        Some(i1) => match spec_parse_string_body(s, i1, Seq::empty()) {
            None => None,
            Some((i2, text)) => match parse_lit(s, i2, res_mid1()) {
                None => None,
                Some(i3) => match spec_parse_bool(s, i3) {
                    None => None,
                    Some((i4, b)) => match parse_lit(s, i4, res_mid2()) {
                        None => None,
                        Some(i5) => match spec_parse_conf(s, i5) {
                            None => None,
                            Some((i6, conf)) => if i6 + 1 == s.len() && s[i6] == '}' {
                                Some((text, b, conf))
                            } else {
                                None
                            },
                        },
                    },
                },
            },
        },
    }
}

// ---------------------------------------------------------------------------
// Executable result codec
// ---------------------------------------------------------------------------

/// The lowercase hexadecimal digit character for `d`.
fn hex_char_exec(d: u8) -> (c: char)
    requires
        d < 16,
    ensures
        c == hex_char(d as int),
{
    if d < 10 {
        (48 + d) as char
    } else {
        (87 + d) as char
    }
}

/// Append the escaped form of `text`.
fn push_escaped(out: &mut Vec<char>, text: &Vec<char>)
    ensures
        final(out)@ == old(out)@ + escape_from(text@, 0),
{
    let mut k: usize = 0;
    while k < text.len()
        invariant
            k <= text@.len(),
            out@ + escape_from(text@, k as int) =~= old(out)@ + escape_from(text@, 0),
        decreases text@.len() - k,
    {
        let ghost out_old = out@;
        let c = text[k];
        let u = c as u32;
        if c == '"' {
            out.push('\\');
            out.push('"');
        } else if c == '\\' {
            out.push('\\');
            out.push('\\');
        } else if c == '\u{8}' {
            out.push('\\');
            out.push('b');
        } else if c == '\t' {
            out.push('\\');
            out.push('t');
        } else if c == '\n' {
            out.push('\\');
            out.push('n');
        } else if c == '\u{c}' {
            out.push('\\');
            out.push('f');
        } else if c == '\r' {
            out.push('\\');
            out.push('r');
        } else if u < 32 {
            out.push('\\');
            out.push('u');
            out.push('0');
            out.push('0');
            out.push(hex_char_exec((u / 16) as u8));
            out.push(hex_char_exec((u % 16) as u8));
        } else {
            out.push(c);
        }
        proof {
            assert(out@ =~= out_old + esc_char(text@[k as int]));
            assert(escape_from(text@, k as int) =~= esc_char(text@[k as int]) + escape_from(
                text@,
                k + 1,
            ));
            assert(out@ + escape_from(text@, k + 1) =~= out_old + escape_from(
                text@,
                k as int,
            ));
        }
        k = k + 1;
    }
}

/// Parse a JSON string body starting just after its opening quote.
fn parse_string_body(v: &Vec<char>, i: usize) -> (r: Option<(usize, Vec<char>)>)
    requires
        i <= v@.len(),
    ensures
        match r {
            Some((j, text)) => spec_parse_string_body(v@, i as int, Seq::empty()) == Some(
                (j as int, text@),
            ) && j <= v@.len(),
            None => spec_parse_string_body(v@, i as int, Seq::empty()) is None,
        },
{
    let mut acc: Vec<char> = Vec::new();
    let mut cur = i;
    loop
        invariant
            cur <= v@.len(),
            spec_parse_string_body(v@, i as int, Seq::empty()) == spec_parse_string_body(
                v@,
                cur as int,
                acc@,
            ),
        decreases v@.len() - cur,
    {
        if cur >= v.len() {
            return None;
        }
        let c = v[cur];
        if c == '"' {
            return Some((cur + 1, acc));
        }
        if c == '\\' {
            if cur + 1 >= v.len() {
                return None;
            }
            let e = v[cur + 1];
            if e == '"' {
                acc.push('"');
                cur = cur + 2;
            } else if e == '\\' {
                acc.push('\\');
                cur = cur + 2;
            } else if e == '/' {
                acc.push('/');
                cur = cur + 2;
            } else if e == 'b' {
                acc.push(8 as u8 as char);
                proof {
                    assert(8 as u8 as char == '\u{8}');
                }
                cur = cur + 2;
            } else if e == 'f' {
                acc.push(12 as u8 as char);
                proof {
                    assert(12 as u8 as char == '\u{c}');
                }
                cur = cur + 2;
            } else if e == 'n' {
                acc.push('\n');
                cur = cur + 2;
            } else if e == 'r' {
                acc.push('\r');
                cur = cur + 2;
            } else if e == 't' {
                acc.push('\t');
                cur = cur + 2;
            } else if e == 'u' {
                if v.len() - cur >= 6 && v[cur + 2] == '0' && v[cur + 3] == '0' {
                    let h1 = v[cur + 4] as u32;
                    let h2 = v[cur + 5] as u32;
                    let hex1 = (48 <= h1 && h1 <= 57) || (97 <= h1 && h1 <= 102) || (65 <= h1
                        && h1 <= 70);
                    let hex2 = (48 <= h2 && h2 <= 57) || (97 <= h2 && h2 <= 102) || (65 <= h2
                        && h2 <= 70);
                    if hex1 && hex2 {
                        let d1: u32 = if h1 <= 57 {
                            h1 - 48
                        } else if h1 >= 97 {
                            h1 - 87
                        } else {
                            h1 - 55
                        };
                        let d2: u32 = if h2 <= 57 {
                            h2 - 48
                        } else if h2 >= 97 {
                            h2 - 87
                        } else {
                            h2 - 55
                        };
                        acc.push(((d1 * 16 + d2) as u8) as char);
                        cur = cur + 6;
                    } else {
                        return None;
                    }
                } else {
                    return None;
                }
            } else {
                return None;
            }
        } else {
            let u = c as u32;
            if u >= 32 {
                acc.push(c);
                cur = cur + 1;
            } else {
                return None;
            }
        }
    }
}

/// The characters of [`res_open`], [`res_mid1`], [`res_mid2`].
fn res_open_exec() -> (r: Vec<char>)
    ensures
        r@ == res_open(),
{
    let r = vec!['{', '"', 't', 'e', 'x', 't', '"', ':', '"'];
    proof {
        assert(r@ =~= res_open());
    }
    r
}

fn res_mid1_exec() -> (r: Vec<char>)
    ensures
        r@ == res_mid1(),
{
    let r = vec![',', '"', 'i', 's', '_', 'f', 'i', 'n', 'a', 'l', '"', ':'];
    proof {
        assert(r@ =~= res_mid1());
    }
    r
}

fn res_mid2_exec() -> (r: Vec<char>)
    ensures
        r@ == res_mid2(),
{
    let r = vec![',', '"', 'c', 'o', 'n', 'f', 'i', 'd', 'e', 'n', 'c', 'e', '"', ':'];
    proof {
        assert(r@ =~= res_mid2());
    }
    r
}

/// Parse `true` or `false` at `i`.
fn parse_bool_at(v: &Vec<char>, i: usize) -> (r: Option<(usize, bool)>)
    requires
        i <= v@.len(),
    ensures
        match r {
            Some((j, b)) => spec_parse_bool(v@, i as int) == Some((j as int, b)) && j <= v@.len(),
            None => spec_parse_bool(v@, i as int) is None,
        },
{
    let tlit = vec!['t', 'r', 'u', 'e'];
    proof {
        assert(tlit@ =~= bool_chars(true));
    }
    match eat_lit(v, i, &tlit) {
        Some(j) => Some((j, true)),
        None => {
            let flit = vec!['f', 'a', 'l', 's', 'e'];
            proof {
                assert(flit@ =~= bool_chars(false));
            }
            match eat_lit(v, i, &flit) {
                Some(j) => Some((j, false)),
                None => None,
            }
        },
    }
}

/// Parse a confidence at `i`.
fn parse_conf_at(v: &Vec<char>, i: usize) -> (r: Option<(usize, Option<u16>)>)
    requires
        i <= v@.len(),
    ensures
        match r {
            Some((j, conf)) => spec_parse_conf(v@, i as int) == Some((j as int, conf)) && j
                <= v@.len() && (conf matches Some(c) ==> c <= 1000),
            None => spec_parse_conf(v@, i as int) is None,
        },
{
    let nlit = vec!['n', 'u', 'l', 'l'];
    proof {
        assert(nlit@ =~= null_chars());
    }
    match eat_lit(v, i, &nlit) {
        Some(j) => Some((j, None)),
        None => {
            if i < v.len() {
                let c0 = v[i] as u32;
                if 48 <= c0 && c0 <= 57 {
                    let d0 = c0 - 48;
                    if d0 > 1 {
                        return None;
                    }
                    if i + 1 < v.len() && v[i + 1] == '.' {
                        let j = run_end_exec(v, i + 2);
                        proof {
                            lemma_digit_run_shape(v@, i + 2);
                        }
                        if j == i + 2 {
                            return None;
                        }
                        let f1 = v[i + 2] as u32 - 48;
                        let f2: u32 = if j - i > 3 {
                            v[i + 3] as u32 - 48
                        } else {
                            0
                        };
                        let f3: u32 = if j - i > 4 {
                            v[i + 4] as u32 - 48
                        } else {
                            0
                        };
                        let val = d0 * 1000 + f1 * 100 + f2 * 10 + f3;
                        if val <= 1000 {
                            Some((j, Some(val as u16)))
                        } else {
                            None
                        }
                    } else {
                        Some((i + 1, Some((d0 * 1000) as u16)))
                    }
                } else {
                    None
                }
            } else {
                None
            }
        },
    }
}

/// Encode a recognition result as its protocol line. The confidence, when
/// present, must lie on the protocol's 0.0 to 1.0 scale.
pub fn encode_result_chars(text: &Vec<char>, is_final: bool, conf: Option<u16>) -> (r: Vec<char>)
    requires
        conf matches Some(c) ==> c <= 1000,
    ensures
        r@ == spec_encode_result(text@, is_final, conf),
{
    let mut out = res_open_exec();
    push_escaped(&mut out, text);
    out.push('"');
    let mut m1 = res_mid1_exec();
    out.append(&mut m1);
    if is_final {
        out.push('t');
        out.push('r');
        out.push('u');
        out.push('e');
    } else {
        out.push('f');
        out.push('a');
        out.push('l');
        out.push('s');
        out.push('e');
    }
    let ghost after_bool = res_open() + escape_from(text@, 0) + seq!['"'] + res_mid1()
        + bool_chars(is_final);
    proof {
        assert(out@ =~= after_bool);
    }
    let mut m2 = res_mid2_exec();
    out.append(&mut m2);
    match conf {
        None => {
            out.push('n');
            out.push('u');
            out.push('l');
            out.push('l');
        },
        Some(cv) => {
            if cv == 1000 {
                out.push('1');
            } else if cv == 0 {
                out.push('0');
            } else {
                let d1 = (cv / 100) as u8;
                let d2 = ((cv / 10) % 10) as u8;
                let d3 = (cv % 10) as u8;
                out.push('0');
                out.push('.');
                out.push(dig_char_exec(d1));
                if d3 != 0 {
                    out.push(dig_char_exec(d2));
                    out.push(dig_char_exec(d3));
                } else if d2 != 0 {
                    out.push(dig_char_exec(d2));
                }
            }
        },
    }
    proof {
        assert(out@ =~= after_bool + res_mid2() + conf_chars(conf));
    }
    out.push('}');
    proof {
        assert(out@ =~= spec_encode_result(text@, is_final, conf));
    }
    out
}

/// Parse a result line back into its text, finality flag and confidence.
pub fn parse_result_chars(v: &Vec<char>) -> (r: Option<(Vec<char>, bool, Option<u16>)>)
    ensures
        match r {
            Some((text, b, conf)) => spec_parse_result(v@) == Some((text@, b, conf)) && (
            conf matches Some(c) ==> c <= 1000),
            None => spec_parse_result(v@) is None,
        },
{
    let open = res_open_exec();
    let i1 = match eat_lit(v, 0, &open) {
        Some(j) => j,
        None => {
            return None;
        },
    };
    let (i2, text) = match parse_string_body(v, i1) {
        Some(p) => p,
        None => {
            return None;
        },
    };
    let m1 = res_mid1_exec();
    let i3 = match eat_lit(v, i2, &m1) {
        Some(j) => j,
        None => {
            return None;
        },
    };
    let (i4, b) = match parse_bool_at(v, i3) {
        Some(p) => p,
        None => {
            return None;
        },
    };
    let m2 = res_mid2_exec();
    let i5 = match eat_lit(v, i4, &m2) {
        Some(j) => j,
        None => {
            return None;
        },
    };
    let (i6, conf) = match parse_conf_at(v, i5) {
        Some(p) => p,
        None => {
            return None;
        },
    };
    if i6 < v.len() && i6 + 1 == v.len() && v[i6] == '}' {
        Some((text, b, conf))
    } else {
        None
    }
}

// ---------------------------------------------------------------------------
// Round trip: a result line parses back to the result it encodes
// ---------------------------------------------------------------------------

/// Characters with the same code point are the same character.
proof fn lemma_char_eq(a: char, b: char)
    requires
        a as u32 == b as u32,
    ensures
        a == b,
{
}

/// Hex digits read back as their value.
pub proof fn lemma_hex_round(d: int)
    requires
        0 <= d < 16,
    ensures
        is_hex(hex_char(d)),
        hex_val(hex_char(d)) == d,
{
}

/// An embedded escaping of `text[k..]`, terminated by an unescaped quote,
/// parses back to exactly that text, appended to the accumulator; the quote
/// is consumed.
#[verifier::rlimit(80)]
pub proof fn lemma_parse_string_of_escape(
    s: Seq<char>,
    i: int,
    text: Seq<char>,
    k: int,
    acc: Seq<char>,
)
    requires
        0 <= i,
        0 <= k <= text.len(),
        i + escape_from(text, k).len() + 1 <= s.len(),
        s.subrange(i, i + escape_from(text, k).len() as int) == escape_from(text, k),
        s[i + escape_from(text, k).len()] == '"',
    ensures
        spec_parse_string_body(s, i, acc) == Some(
            (i + escape_from(text, k).len() + 1, acc + text.skip(k)),
        ),
    decreases text.len() - k,
{
    let region = escape_from(text, k);
    let e2 = i + region.len() as int;
    assert forall|m: int| i <= m < e2 implies s[m] == region[m - i] by {
        assert(s.subrange(i, e2)[m - i] == s[m]);
    }
    if k == text.len() {
        assert(region =~= Seq::<char>::empty());
        assert(s[i] == '"');
        assert(acc + text.skip(k) =~= acc);
    } else {
        let c = text[k];
        let e = esc_char(c);
        let rest = escape_from(text, k + 1);
        assert(region =~= e + rest);
        let i2 = i + e.len() as int;
        assert(s.subrange(i2, i2 + rest.len() as int) =~= rest) by {
            assert forall|m: int| 0 <= m < rest.len() implies s.subrange(
                i2,
                i2 + rest.len() as int,
            )[m] == rest[m] by {
                assert(s[i2 + m] == region[e.len() + m]);
                assert(region[e.len() + m] == rest[m]);
            }
        }
        assert(s[i2 + rest.len()] == '"');
        let cp = c as u32;
        if c == '"' {
            assert(s[i] == '\\' && s[i + 1] == '"');
            lemma_parse_string_of_escape(s, i + 2, text, k + 1, acc.push(c));
            assert(spec_parse_string_body(s, i, acc) == spec_parse_string_body(
                s,
                i + 2,
                acc.push('"'),
            ));
        } else if c == '\\' {
            assert(s[i] == '\\' && s[i + 1] == '\\');
            lemma_parse_string_of_escape(s, i + 2, text, k + 1, acc.push(c));
        } else if c == '\u{8}' {
            assert(s[i] == '\\' && s[i + 1] == 'b');
            lemma_parse_string_of_escape(s, i + 2, text, k + 1, acc.push(c));
        } else if c == '\t' {
            assert(s[i] == '\\' && s[i + 1] == 't');
            lemma_parse_string_of_escape(s, i + 2, text, k + 1, acc.push(c));
        } else if c == '\n' {
            assert(s[i] == '\\' && s[i + 1] == 'n');
            lemma_parse_string_of_escape(s, i + 2, text, k + 1, acc.push(c));
        } else if c == '\u{c}' {
            assert(s[i] == '\\' && s[i + 1] == 'f');
            lemma_parse_string_of_escape(s, i + 2, text, k + 1, acc.push(c));
        } else if c == '\r' {
            assert(s[i] == '\\' && s[i + 1] == 'r');
            lemma_parse_string_of_escape(s, i + 2, text, k + 1, acc.push(c));
        } else if cp < 32 {
            assert(e =~= seq!['\\', 'u', '0', '0', hex_char(cp as int / 16), hex_char(
                cp as int % 16,
            )]);
            assert(s[i] == '\\' && s[i + 1] == 'u' && s[i + 2] == '0' && s[i + 3] == '0');
            assert(s[i + 4] == hex_char(cp as int / 16));
            assert(s[i + 5] == hex_char(cp as int % 16));
            lemma_hex_round(cp as int / 16);
            lemma_hex_round(cp as int % 16);
            assert((cp as int / 16) * 16 + (cp as int % 16) == cp) by {
                vstd::arithmetic::div_mod::lemma_fundamental_div_mod(cp as int, 16);
            }
            let decoded = ((hex_val(s[i + 4]) * 16 + hex_val(s[i + 5])) as u8) as char;
            assert(decoded as u32 == cp);
            lemma_char_eq(decoded, c);
            assert(decoded == c);
            assert(i + 6 <= s.len());
            lemma_parse_string_of_escape(s, i + 6, text, k + 1, acc.push(c));
            assert(spec_parse_string_body(s, i, acc) == spec_parse_string_body(
                s,
                i + 6,
                acc.push(decoded),
            ));
        } else {
            assert(e =~= seq![c]);
            assert(s[i] == c);
            assert(s[i] != '"' && s[i] != '\\' && s[i] as u32 >= 32);
            lemma_parse_string_of_escape(s, i + 1, text, k + 1, acc.push(c));
        }
        assert(acc.push(c) + text.skip(k + 1) =~= acc + text.skip(k));
    }
}

/// Round trip for result lines: parsing the encoding of any result gives
/// back exactly its text, finality flag and confidence.
#[verifier::rlimit(80)]
pub proof fn lemma_result_round_trip(text: Seq<char>, is_final: bool, conf: Option<u16>)
    requires
        conf matches Some(c) ==> c <= 1000,
    ensures
        spec_parse_result(spec_encode_result(text, is_final, conf)) == Some(
            (text, is_final, conf),
        ),
{
    let s = spec_encode_result(text, is_final, conf);
    let esc = escape_from(text, 0);
    let bc = bool_chars(is_final);
    let cc = conf_chars(conf);
    let i1 = 9int;
    let i2 = i1 + esc.len() as int + 1;
    let i3 = i2 + 12;
    let i4 = i3 + bc.len() as int;
    let i5 = i4 + 14;
    let i6 = i5 + cc.len() as int;
    assert(s.len() == i6 + 1);
    assert(s.subrange(0, 9) =~= res_open());
    assert(parse_lit(s, 0, res_open()) == Some(i1));
    assert(s.subrange(i1, i1 + esc.len() as int) =~= esc);
    assert(s[i1 + esc.len()] == '"');
    lemma_parse_string_of_escape(s, i1, text, 0, Seq::<char>::empty());
    assert(Seq::<char>::empty() + text.skip(0) =~= text);
    assert(spec_parse_string_body(s, i1, Seq::<char>::empty()) == Some((i2, text)));
    assert(s.subrange(i2, i2 + 12) =~= res_mid1());
    assert(parse_lit(s, i2, res_mid1()) == Some(i3));
    if is_final {
        assert(s.subrange(i3, i3 + 4) =~= bool_chars(true));
        assert(spec_parse_bool(s, i3) == Some((i4, true)));
    } else {
        assert(s[i3] == 'f');
        if i3 + 4 <= s.len() {
            assert(s.subrange(i3, i3 + 4)[0] == 'f');
            assert(s.subrange(i3, i3 + 4) != bool_chars(true));
        }
        assert(parse_lit(s, i3, bool_chars(true)) is None);
        assert(s.subrange(i3, i3 + 5) =~= bool_chars(false));
        assert(spec_parse_bool(s, i3) == Some((i4, false)));
    }
    assert(s.subrange(i4, i4 + 14) =~= res_mid2());
    assert(parse_lit(s, i4, res_mid2()) == Some(i5));
    match conf {
        None => {
            assert(s.subrange(i5, i5 + 4) =~= null_chars());
            assert(spec_parse_conf(s, i5) == Some((i6, None::<u16>)));
        },
        Some(v) => {
            assert(cc == conf_num_chars(v as int));
            assert(cc[0] == '1' || cc[0] == '0') by {
                if v != 1000 && v != 0 {
                    assert(cc[0] == '0');
                }
            }
            assert(s[i5] == cc[0]);
            if i5 + 4 <= s.len() {
                assert(s.subrange(i5, i5 + 4)[0] == s[i5]);
                assert(s[i5] != 'n');
                assert(s.subrange(i5, i5 + 4) != null_chars());
            }
            assert(parse_lit(s, i5, null_chars()) is None);
            if v == 1000 {
                assert(s[i5] == '1' && is_dig('1') && d_val('1') == 1);
                assert(s[i5 + 1] == '}');
                assert(spec_parse_conf(s, i5) == Some((i5 + 1, Some(1000u16))));
            } else if v == 0 {
                assert(s[i5] == '0' && is_dig('0') && d_val('0') == 0);
                assert(s[i5 + 1] == '}');
                assert(spec_parse_conf(s, i5) == Some((i5 + 1, Some(0u16))));
            } else {
                let vi = v as int;
                let d1 = vi / 100;
                let d2 = (vi / 10) % 10;
                let d3 = vi % 10;
                assert(0 <= d1 < 10) by {
                    assert(vi / 100 < 10);
                }
                assert(0 <= d2 < 10);
                assert(0 <= d3 < 10);
                assert(vi == d1 * 100 + d2 * 10 + d3) by {
                    vstd::arithmetic::div_mod::lemma_fundamental_div_mod(vi, 10);
                    vstd::arithmetic::div_mod::lemma_fundamental_div_mod(vi / 10, 10);
                    assert((vi / 10) / 10 == vi / 100) by {
                        vstd::arithmetic::div_mod::lemma_div_denominator(vi, 10, 10);
                    }
                }
                let fl = cc.len() as int - 2;
                assert(s[i5] == '0' && d_val('0') == 0);
                assert(s[i5 + 1] == '.');
                assert(forall|m: int| 0 <= m < fl ==> is_dig(#[trigger] s[i5 + 2 + m])) by {
                    assert(is_dig(dig_char(d1)));
                    assert(is_dig(dig_char(d2)));
                    assert(is_dig(dig_char(d3)));
                }
                assert(s[i5 + 2 + fl] == '}');
                assert(!is_dig('}'));
                lemma_digit_run_end(s, i5 + 2, i5 + 2 + fl);
                let f1 = d_val(s[i5 + 2]);
                assert(f1 == d1);
                if d3 != 0 {
                    assert(fl == 3);
                    assert(d_val(s[i5 + 3]) == d2);
                    assert(d_val(s[i5 + 4]) == d3);
                } else if d2 != 0 {
                    assert(fl == 2);
                    assert(d_val(s[i5 + 3]) == d2);
                } else {
                    assert(fl == 1);
                }
                assert(spec_parse_conf(s, i5) == Some((i6, Some(v))));
            }
        },
    }
    assert(s[i6] == '}');
}

// ---------------------------------------------------------------------------
// String-level interface
// ---------------------------------------------------------------------------

/// Relies on `String: FromIterator<char>` (`Iterator::collect`): collecting
/// the characters of a vector yields the string of exactly those characters.
#[verifier::external_body]
pub(crate) fn chars_to_string(v: &Vec<char>) -> (r: String)
    ensures
        r@ == v@,
{
    v.iter().collect()
}

/// The characters of `s`, as a vector.
pub fn str_to_chars(s: &str) -> (r: Vec<char>)
    ensures
        r@ == s@,
{
    let n = s.unicode_len();
    let mut r: Vec<char> = Vec::new();
    let mut k: usize = 0;
    while k < n
        invariant
            k <= n,
            n == s@.len(),
            r@ =~= s@.subrange(0, k as int),
        decreases n - k,
    {
        r.push(s.get_char(k));
        proof {
            assert(r@ =~= s@.subrange(0, k + 1));
        }
        k = k + 1;
    }
    proof {
        assert(r@ =~= s@);
    }
    r
}

/// Encode an audio chunk as its newline-free protocol line.
pub fn encode_chunk_line(chunk: &IpcAudioChunk) -> (r: String)
    ensures
        r@ == spec_encode_chunk(chunk.samples@, chunk.sample_rate),
{
    let chars = encode_chunk_chars(&chunk.samples, chunk.sample_rate);
    chars_to_string(&chars)
}

/// Parse one protocol line as an audio chunk; `None` if the line does not
/// have exactly the encoder's shape.
pub fn parse_chunk_line(line: &str) -> (r: Option<IpcAudioChunk>)
    ensures
        match r {
            Some(chunk) => spec_parse_chunk(line@) == Some((chunk.samples@, chunk.sample_rate)),
            None => spec_parse_chunk(line@) is None,
        },
{
    let chars = str_to_chars(line);
    match parse_chunk_chars(&chars) {
        Some((samples, sample_rate)) => Some(IpcAudioChunk { samples, sample_rate }),
        None => None,
    }
}

/// Encode a recognition result as its newline-free protocol line.
pub fn encode_result_line(res: &IpcTranscriptionResult) -> (r: String)
    requires
        res.wf(),
    ensures
        r@ == spec_encode_result(res.text@, res.is_final, res.confidence),
{
    let text_chars = str_to_chars(res.text.as_str());
    let chars = encode_result_chars(&text_chars, res.is_final, res.confidence);
    chars_to_string(&chars)
}

/// Parse one protocol line as a recognition result; `None` for a malformed
/// line, which the caller skips.
pub fn parse_result_line(line: &str) -> (r: Option<IpcTranscriptionResult>)
    ensures
        match r {
            Some(res) => spec_parse_result(line@) == Some((res.text@, res.is_final, res.confidence))
                && res.wf(),
            None => spec_parse_result(line@) is None,
        },
{
    let chars = str_to_chars(line);
    match parse_result_chars(&chars) {
        Some((text_chars, is_final, confidence)) => {
            let text = chars_to_string(&text_chars);
            Some(IpcTranscriptionResult { text, is_final, confidence })
        },
        None => None,
    }
}

// ---------------------------------------------------------------------------
// Canonical form: an accepted chunk line is exactly an encoder output
// ---------------------------------------------------------------------------

/// A digit string with a nonzero leading digit has a positive value.
proof fn lemma_digits_val_lower(t: Seq<char>)
    requires
        t.len() >= 1,
        forall|k: int| 0 <= k < t.len() ==> is_dig(#[trigger] t[k]),
        t[0] != '0',
    ensures
        digits_val(t) >= 1,
    decreases t.len(),
{
    if t.len() == 1 {
        assert(t.drop_last() =~= Seq::<char>::empty());
        assert(t.last() == t[0]);
        assert(digits_val(t) == digits_val(t.drop_last()) * 10 + d_val(t.last()));
        assert(digits_val(t.drop_last()) == 0);
        if t[0] as u32 == 48 {
            lemma_char_eq(t[0], '0');
        }
        assert(d_val(t[0]) >= 1);
    } else {
        let t2 = t.drop_last();
        assert(forall|k: int| 0 <= k < t2.len() ==> is_dig(#[trigger] t2[k]));
        lemma_digits_val_lower(t2);
        assert(d_val(t.last()) >= 0);
    }
}

/// A canonical digit string is the decimal spelling of its value.
proof fn lemma_digits_canon(t: Seq<char>)
    requires
        t.len() >= 1,
        forall|k: int| 0 <= k < t.len() ==> is_dig(#[trigger] t[k]),
        t[0] == '0' ==> t.len() == 1,
    ensures
        digits_val(t) >= 0,
        dec_nat(digits_val(t) as nat) == t,
    decreases t.len(),
{
    lemma_digits_val_nonneg(t);
    if t.len() == 1 {
        let d = d_val(t[0]);
        assert(0 <= d < 10);
        assert(t.drop_last() =~= Seq::<char>::empty());
        assert(t.last() == t[0]);
        assert(digits_val(t) == digits_val(t.drop_last()) * 10 + d_val(t.last()));
        assert(digits_val(t.drop_last()) == 0);
        assert(digits_val(t) == d);
        assert(dig_char(d) as u32 == t[0] as u32);
        lemma_char_eq(dig_char(d), t[0]);
        assert(dec_nat(d as nat) =~= t);
    } else {
        let t2 = t.drop_last();
        assert(forall|k: int| 0 <= k < t2.len() ==> is_dig(#[trigger] t2[k]));
        assert(t2[0] == t[0] && t[0] != '0');
        lemma_digits_canon(t2);
        lemma_digits_val_lower(t2);
        let q = digits_val(t2);
        let d = d_val(t.last());
        let v = digits_val(t);
        assert(digits_val(t) == digits_val(t.drop_last()) * 10 + d_val(t.last()));
        assert(v == q * 10 + d);
        assert(0 <= d < 10);
        vstd::arithmetic::div_mod::lemma_fundamental_div_mod_converse(v, 10, q, d);
        assert(0 <= d < 10);
        assert(v / 10 == q && v % 10 == d);
        assert(v >= 10) by {
            assert(q >= 1);
        }
        assert(dec_nat(v as nat) == dec_nat((v as nat) / 10).push(dig_char(((v as nat) % 10) as int)));
        assert((v as nat) / 10 == q as nat && ((v as nat) % 10) as int == d);
        assert(dig_char(d) as u32 == t.last() as u32);
        lemma_char_eq(dig_char(d), t.last());
        assert(dec_nat(v as nat) =~= t);
    }
}

/// If a canonical number parse succeeds, the consumed region is exactly the
/// decimal spelling of the value.
proof fn lemma_parse_canon_nat_sound(s: Seq<char>, i: int)
    requires
        0 <= i <= s.len(),
        parse_canon_nat(s, i) is Some,
    ensures
        ({
            let (j, v) = parse_canon_nat(s, i)->Some_0;
            &&& i < j <= s.len()
            &&& v >= 0
            &&& s.subrange(i, j) == dec_nat(v as nat)
        }),
{
    lemma_digit_run_shape(s, i);
    let j = digit_run_end(s, i);
    let t = s.subrange(i, j);
    assert(forall|k: int| 0 <= k < t.len() ==> is_dig(#[trigger] t[k]));
    assert(t[0] == s[i]);
    lemma_digits_canon(t);
}

/// If a sample parse succeeds, the consumed region is exactly the spelling
/// of the sample.
proof fn lemma_parse_i16_sound(s: Seq<char>, i: int)
    requires
        0 <= i <= s.len(),
        spec_parse_i16(s, i) is Some,
    ensures
        ({
            let (j, val) = spec_parse_i16(s, i)->Some_0;
            &&& i < j <= s.len()
            &&& s.subrange(i, j) == dec_int(val as int)
        }),
{
    let (j, val) = spec_parse_i16(s, i)->Some_0;
    if 0 <= i < s.len() && s[i] == '-' {
        lemma_parse_canon_nat_sound(s, i + 1);
        let (j2, v) = parse_canon_nat(s, i + 1)->Some_0;
        assert(j == j2 && val as int == -v);
        assert(s.subrange(i + 1, j) == dec_nat(v as nat));
        assert(dec_int(val as int) =~= seq!['-'] + dec_nat(v as nat));
        assert(s.subrange(i, j) =~= dec_int(val as int)) by {
            assert(s.subrange(i, j)[0] == s[i]);
            assert(forall|m: int| 0 <= m < j - i - 1 ==> s.subrange(i + 1, j)[m] == #[trigger] s[
                i + 1 + m
            ]);
            assert(forall|m: int| 1 <= m < j - i ==> #[trigger] s.subrange(i, j)[m] == s[i + m]);
        }
    } else {
        lemma_parse_canon_nat_sound(s, i);
        let (j2, v) = parse_canon_nat(s, i)->Some_0;
        assert(j == j2 && val as int == v);
        assert(dec_int(val as int) == dec_nat(v as nat));
    }
}

/// The sample spellings from `k` on are those of the suffix from `k`.
proof fn lemma_samples_chars_shift(xs: Seq<i16>, k: int)
    requires
        0 <= k <= xs.len(),
    ensures
        samples_chars_from(xs, k) == samples_chars_from(xs.skip(k), 0),
    decreases xs.len() - k,
{
    let ys = xs.skip(k);
    if k >= xs.len() {
        assert(samples_chars_from(xs, k) =~= Seq::<char>::empty());
        assert(ys.len() == 0);
    } else if k == xs.len() - 1 {
        assert(ys.len() == 1 && ys[0] == xs[k]);
    } else {
        lemma_samples_chars_shift(xs, k + 1);
        assert(xs.skip(k + 1) =~= ys.skip(1));
        assert(ys[0] == xs[k] && ys.len() == xs.len() - k);
        assert(samples_chars_from(ys, 0) == dec_int(ys[0] as int) + seq![','] + samples_chars_from(
            ys,
            1,
        ));
        assert(samples_chars_from(ys, 1) == samples_chars_from(ys.skip(1), 0)) by {
            lemma_samples_chars_shift(ys, 1);
        }
    }
}

/// If the sample-list remainder parse succeeds, the consumed region is
/// exactly the spelling of the parsed samples followed by `]`.
#[verifier::rlimit(80)]
proof fn lemma_parse_samples_sound(s: Seq<char>, i: int, acc: Seq<i16>)
    requires
        0 <= i <= s.len(),
        spec_parse_samples_rest(s, i, acc) is Some,
    ensures
        ({
            let (j, out) = spec_parse_samples_rest(s, i, acc)->Some_0;
            &&& i < j <= s.len()
            &&& out.len() > acc.len()
            &&& out.subrange(0, acc.len() as int) == acc
            &&& s.subrange(i, j) == samples_chars_from(out.skip(acc.len() as int), 0) + seq![']']
        }),
    decreases s.len() - i,
{
    let (j, out) = spec_parse_samples_rest(s, i, acc)->Some_0;
    let (j1, v) = spec_parse_i16(s, i)->Some_0;
    lemma_parse_i16_sound(s, i);
    let acc2 = acc.push(v);
    if j1 < s.len() && s[j1] == ',' && j1 >= i {
        lemma_parse_samples_sound(s, j1 + 1, acc2);
        let (j2, out2) = spec_parse_samples_rest(s, j1 + 1, acc2)->Some_0;
        assert(j == j2 && out == out2);
        assert(out.subrange(0, acc.len() as int) =~= acc) by {
            assert(out.subrange(0, acc2.len() as int) == acc2);
            assert(forall|m: int| 0 <= m < acc.len() ==> out[m] == #[trigger] acc2[m]);
        }
        let tail = out.skip(acc2.len() as int);
        let xs = out.skip(acc.len() as int);
        assert(xs[0] == v) by {
            assert(out[acc.len() as int] == acc2[acc.len() as int]);
        }
        assert(xs.skip(1) =~= tail);
        assert(xs.len() >= 2);
        assert(samples_chars_from(xs, 0) == dec_int(v as int) + seq![','] + samples_chars_from(
            xs,
            1,
        ));
        lemma_samples_chars_shift(xs, 1);
        assert(s.subrange(i, j) =~= dec_int(v as int) + seq![','] + (samples_chars_from(tail, 0)
            + seq![']'])) by {
            assert(s.subrange(i, j1) == dec_int(v as int));
            assert(s.subrange(j1 + 1, j) == samples_chars_from(tail, 0) + seq![']']);
            assert(forall|m: int| i <= m < j1 ==> #[trigger] s[m] == s.subrange(i, j1)[m - i]);
            assert(forall|m: int| j1 + 1 <= m < j ==> #[trigger] s[m] == s.subrange(j1 + 1, j)[m
                - (j1 + 1)]);
            assert(forall|m: int| i <= m < j ==> #[trigger] s.subrange(i, j)[m - i] == s[m]);
        }
        assert(samples_chars_from(xs, 0) + seq![']'] =~= dec_int(v as int) + seq![',']
            + (samples_chars_from(tail, 0) + seq![']']));
    } else {
        assert(j1 < s.len() && s[j1] == ']');
        assert(j == j1 + 1 && out == acc2);
        assert(out.subrange(0, acc.len() as int) =~= acc);
        let xs = out.skip(acc.len() as int);
        assert(xs =~= seq![v]);
        assert(samples_chars_from(xs, 0) == dec_int(v as int));
        assert(s.subrange(i, j) =~= dec_int(v as int) + seq![']']) by {
            assert(s.subrange(i, j1) == dec_int(v as int));
            assert(forall|m: int| i <= m < j1 ==> #[trigger] s[m] == s.subrange(i, j1)[m - i]);
            assert(s[j1] == ']');
            assert(forall|m: int| i <= m < j ==> #[trigger] s.subrange(i, j)[m - i] == s[m]);
        }
    }
}

/// Canonical form: a line the chunk parser accepts is exactly the encoding
/// of what it parsed. With [`lemma_chunk_round_trip`], the chunk parser
/// accepts precisely the encoder's outputs.
#[verifier::rlimit(80)]
pub proof fn lemma_chunk_parse_canonical(s: Seq<char>)
    requires
        spec_parse_chunk(s) is Some,
    ensures
        ({
            let (xs, rate) = spec_parse_chunk(s)->Some_0;
            s == spec_encode_chunk(xs, rate)
        }),
{
    let (xs, rate) = spec_parse_chunk(s)->Some_0;
    let i1 = parse_lit(s, 0, chunk_open())->Some_0;
    assert(i1 == 12 && s.subrange(0, 12) == chunk_open());
    let (i2, _) = spec_parse_sample_list(s, i1)->Some_0;
    let sc = samples_chars_from(xs, 0);
    if 0 <= i1 < s.len() && s[i1] == ']' {
        assert(xs =~= Seq::<i16>::empty());
        assert(i2 == i1 + 1);
        assert(sc =~= Seq::<char>::empty());
    } else {
        lemma_parse_samples_sound(s, i1, Seq::<i16>::empty());
        let out = spec_parse_samples_rest(s, i1, Seq::<i16>::empty())->Some_0.1;
        assert(out.skip(0) =~= out);
        assert(xs == out);
        assert(s.subrange(i1, i2) == sc + seq![']']);
    }
    let i3 = parse_lit(s, i2, chunk_mid())->Some_0;
    assert(i3 == i2 + 15 && s.subrange(i2, i3) == chunk_mid());
    let (i4, v) = parse_canon_nat(s, i3)->Some_0;
    lemma_parse_canon_nat_sound(s, i3);
    assert(s.subrange(i3, i4) == dec_nat(v as nat));
    assert(rate as int == v && rate as nat == v as nat);
    assert(s[i4] == '}' && i4 + 1 == s.len());
    let enc = spec_encode_chunk(xs, rate);
    assert(enc.len() == s.len()) by {
        if s[i1] == ']' {
        } else {
            assert(s.subrange(i1, i2).len() == sc.len() + 1);
        }
    }
    assert(s =~= enc) by {
        assert forall|m: int| 0 <= m < s.len() implies s[m] == enc[m] by {
            if m < 12 {
                assert(s.subrange(0, 12)[m] == s[m]);
            } else if m < i2 {
                if s[i1] == ']' {
                    assert(m == i1);
                } else {
                    assert(s.subrange(i1, i2)[m - i1] == s[m]);
                    assert((sc + seq![']'])[m - i1] == enc[m]);
                }
            } else if m < i3 {
                assert(s.subrange(i2, i3)[m - i2] == s[m]);
            } else if m < i4 {
                assert(s.subrange(i3, i4)[m - i3] == s[m]);
            } else {
                assert(m == i4);
            }
        }
    }
}

} // verus!
