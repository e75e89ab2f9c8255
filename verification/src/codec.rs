//! The JSON codec for consumption messages.
//!
//! A message is carried on the wire as a JSON object with the three
//! fields `customer_id` (a decimal integer), `consumption` (a decimal
//! number of milliwatt-hours with exactly three fractional digits), and
//! `timestamp` (a decimal integer of milliseconds since the epoch), in
//! that order. Both directions are verified, and a round-trip law states
//! that decoding an encoded message gives the message back.

use vstd::prelude::*;
use vstd::assert_seqs_equal;
use crate::message::{Message, MilliwattHours};

verus! {

/// The byte `'.'`.
pub const DOT: u8 = 46;
/// The byte `'}'`.
pub const RBRACE: u8 = 125;

/// Whether a byte is an ASCII decimal digit.
pub open spec fn is_digit(b: u8) -> bool {
    48 <= b <= 57
}

/// The decimal digits of `n`, most significant first, without leading
/// zeros (a single `'0'` for zero).
pub open spec fn digits_of(n: nat) -> Seq<u8>
    decreases n,
{
    if n < 10 {
        seq![(48 + n) as u8]
    } else {
        digits_of(n / 10).push((48 + n % 10) as u8)
    }
}

/// The value of a sequence of ASCII digits, most significant first.
pub open spec fn val_of(s: Seq<u8>) -> int
    decreases s.len(),
{
    if s.len() == 0 {
        0
    } else {
        val_of(s.drop_last()) * 10 + (s.last() - 48)
    }
}

/// The three zero-padded fractional digits of a value below one
/// thousand.
pub open spec fn frac3_of(f: nat) -> Seq<u8> {
    seq![
        (48 + (f / 100) % 10) as u8,
        (48 + (f / 10) % 10) as u8,
        (48 + f % 10) as u8,
    ]
}

/// The bytes of `{"customer_id":`.
pub open spec fn key_customer_id() -> Seq<u8> {
    seq![123u8, 34, 99, 117, 115, 116, 111, 109, 101, 114, 95, 105, 100, 34, 58]
}

/// The bytes of `,"consumption":`.
pub open spec fn key_consumption() -> Seq<u8> {
    seq![44u8, 34, 99, 111, 110, 115, 117, 109, 112, 116, 105, 111, 110, 34, 58]
}

/// The bytes of `,"timestamp":`.
pub open spec fn key_timestamp() -> Seq<u8> {
    seq![44u8, 34, 116, 105, 109, 101, 115, 116, 97, 109, 112, 34, 58]
}

/// The encoding of a message: the JSON object described at the top of
/// this module.
pub open spec fn spec_serialize(m: Message) -> Seq<u8> {
    key_customer_id() + digits_of(m.customer_id as nat) + key_consumption() + digits_of(
        (m.consumption.0 as nat) / 1000,
    ) + seq![DOT] + frac3_of((m.consumption.0 as nat) % 1000) + key_timestamp() + digits_of(
        m.timestamp as nat,
    ) + seq![RBRACE]
}

/// Whether `pat` occurs in `s` at position `i`.
pub open spec fn starts_with(s: Seq<u8>, i: int, pat: Seq<u8>) -> bool {
    0 <= i && i + pat.len() <= s.len() && s.subrange(i, i + pat.len()) == pat
}

/// The first position at or after `i` that holds no digit (the length of
/// `s` when digits reach its end).
pub open spec fn digit_run_end(s: Seq<u8>, i: int) -> int
    decreases s.len() - i,
{
    if 0 <= i < s.len() && is_digit(s[i]) {
        digit_run_end(s, i + 1)
    } else {
        i
    }
}

/// The decoding of a byte string: `Some` of the message it encodes when
/// it is exactly one JSON object of the form this codec writes, with
/// each field in range; `None` otherwise.
pub open spec fn spec_deserialize(s: Seq<u8>) -> Option<Message> {
    let i0 = key_customer_id().len() as int;
    let j1 = digit_run_end(s, i0);
    let id = val_of(s.subrange(i0, j1));
    let i2 = j1 + key_consumption().len();
    let j2 = digit_run_end(s, i2);
    let whole = val_of(s.subrange(i2, j2));
    let frac = val_of(s.subrange(j2 + 1, j2 + 4));
    let cons = whole * 1000 + frac;
    let i3 = j2 + 4;
    let i4 = i3 + key_timestamp().len();
    let j3 = digit_run_end(s, i4);
    let ts = val_of(s.subrange(i4, j3));
    if !starts_with(s, 0, key_customer_id()) {
        None
    } else if j1 == i0 || id > u32::MAX {
        None
    } else if !starts_with(s, j1, key_consumption()) {
        None
    } else if j2 == i2 {
        None
    } else if !(j2 + 4 <= s.len() && s[j2] == DOT && is_digit(s[j2 + 1]) && is_digit(s[j2 + 2])
        && is_digit(s[j2 + 3])) {
        None
    } else if cons > u32::MAX {
        None
    } else if !starts_with(s, i3, key_timestamp()) {
        None
    } else if j3 == i4 || ts > u128::MAX {
        None
    } else if !(j3 + 1 == s.len() && s[j3] == RBRACE) {
        None
    } else {
        Some(
            Message {
                customer_id: id as u32,
                consumption: MilliwattHours(cons as u32),
                timestamp: ts as u128,
            },
        )
    }
}

/// Append the bytes of `{"customer_id":`.
fn push_key_customer_id(v: &mut Vec<u8>)
    ensures
        final(v)@ == old(v)@ + key_customer_id(),
{
    v.push(123);
    v.push(34);
    v.push(99);
    v.push(117);
    v.push(115);
    v.push(116);
    v.push(111);
    v.push(109);
    v.push(101);
    v.push(114);
    v.push(95);
    v.push(105);
    v.push(100);
    v.push(34);
    v.push(58);
    proof {
        assert_seqs_equal!(v@ == old(v)@ + key_customer_id());
    }
}

/// Append the bytes of `,"consumption":`.
fn push_key_consumption(v: &mut Vec<u8>)
    ensures
        final(v)@ == old(v)@ + key_consumption(),
{
    v.push(44);
    v.push(34);
    v.push(99);
    v.push(111);
    v.push(110);
    v.push(115);
    v.push(117);
    v.push(109);
    v.push(112);
    v.push(116);
    v.push(105);
    v.push(111);
    v.push(110);
    v.push(34);
    v.push(58);
    proof {
        assert_seqs_equal!(v@ == old(v)@ + key_consumption());
    }
}

/// Append the bytes of `,"timestamp":`.
fn push_key_timestamp(v: &mut Vec<u8>)
    ensures
        final(v)@ == old(v)@ + key_timestamp(),
{
    v.push(44);
    v.push(34);
    v.push(116);
    v.push(105);
    v.push(109);
    v.push(101);
    v.push(115);
    v.push(116);
    v.push(97);
    v.push(109);
    v.push(112);
    v.push(34);
    v.push(58);
    proof {
        assert_seqs_equal!(v@ == old(v)@ + key_timestamp());
    }
}

/// Append the decimal digits of `n`, most significant first.
fn push_digits(v: &mut Vec<u8>, n: u128)
    ensures
        final(v)@ == old(v)@ + digits_of(n as nat),
    decreases n,
{
    if n < 10 {
        v.push(48 + n as u8);
        proof {
            assert_seqs_equal!(v@ == old(v)@ + digits_of(n as nat));
        }
    } else {
        push_digits(v, n / 10);
        v.push(48 + (n % 10) as u8);
        proof {
            assert_seqs_equal!(v@ == old(v)@ + digits_of(n as nat));
        }
    }
}

/// Append the consumption value `c` (in microwatt-hours) as a decimal
/// number of milliwatt-hours with three fractional digits.
fn push_consumption(v: &mut Vec<u8>, c: u32)
    ensures
        final(v)@ == old(v)@ + digits_of((c as nat) / 1000) + seq![DOT] + frac3_of((c as nat) % 1000),
{
    push_digits(v, (c / 1000) as u128);
    v.push(DOT);
    let f = c % 1000;
    v.push(48 + (f / 100) as u8);
    v.push(48 + ((f / 10) % 10) as u8);
    v.push(48 + (f % 10) as u8);
    proof {
        assert((c as nat) / 1000 == ((c / 1000) as u128) as nat);
        assert((f / 100) as nat == ((c as nat) % 1000) / 100 % 10);
        assert_seqs_equal!(
            v@ == old(v)@ + digits_of((c as nat) / 1000) + seq![DOT]
                + frac3_of((c as nat) % 1000)
        );
    }
}

/// Encode a message as the JSON object described at the top of this
/// module.
pub fn serialize(m: &Message) -> (r: Vec<u8>)
    ensures
        r@ == spec_serialize(*m),
{
    let mut v: Vec<u8> = Vec::new();
    push_key_customer_id(&mut v);
    push_digits(&mut v, m.customer_id as u128);
    push_key_consumption(&mut v);
    push_consumption(&mut v, m.consumption.0);
    push_key_timestamp(&mut v);
    push_digits(&mut v, m.timestamp);
    v.push(RBRACE);
    proof {
        assert_seqs_equal!(v@ == spec_serialize(*m));
    }
    v
}

/// The decimal digits of the partition key: the customer ID of the
/// message, as the broker record key.
pub fn partition_key(m: &Message) -> (k: Vec<u8>)
    ensures
        k@ == digits_of(m.customer_id as nat),
{
    let mut v: Vec<u8> = Vec::new();
    push_digits(&mut v, m.customer_id as u128);
    proof {
        assert_seqs_equal!(v@ == digits_of(m.customer_id as nat));
    }
    v
}

/// Every position of a digit run holds a digit, and the run ends at the
/// end of the string or at a non-digit.
pub proof fn lemma_digit_run_end_props(s: Seq<u8>, i: int)
    requires
        0 <= i <= s.len(),
    ensures
        i <= digit_run_end(s, i) <= s.len(),
        forall|k: int| i <= k < digit_run_end(s, i) ==> is_digit(s[k]),
        digit_run_end(s, i) == s.len() || !is_digit(s[digit_run_end(s, i)]),
    decreases s.len() - i,
{
    if i < s.len() && is_digit(s[i]) {
        lemma_digit_run_end_props(s, i + 1);
    }
}

/// A run of digits that reaches the end of the string or a non-digit
/// ends exactly where the digits end.
pub proof fn lemma_digit_run_end_exact(s: Seq<u8>, i: int, j: int)
    requires
        0 <= i <= j <= s.len(),
        forall|k: int| i <= k < j ==> is_digit(s[k]),
        j == s.len() || !is_digit(s[j]),
    ensures
        digit_run_end(s, i) == j,
    decreases j - i,
{
    if i < j {
        lemma_digit_run_end_exact(s, i + 1, j);
    }
}

/// The value of a digit string is non-negative.
pub proof fn lemma_val_of_non_negative(s: Seq<u8>)
    requires
        forall|k: int| 0 <= k < s.len() ==> is_digit(s[k]),
    ensures
        val_of(s) >= 0,
    decreases s.len(),
{
    if s.len() > 0 {
        assert(forall|k: int| 0 <= k < s.drop_last().len() ==> is_digit(s.drop_last()[k]));
        lemma_val_of_non_negative(s.drop_last());
    }
}

/// Taking one more digit multiplies the value by ten and adds the digit.
pub proof fn lemma_val_of_extend(s: Seq<u8>, i: int, k: int)
    requires
        0 <= i <= k < s.len(),
    ensures
        val_of(s.subrange(i, k + 1)) == val_of(s.subrange(i, k)) * 10 + (s[k] - 48),
{
    let sub = s.subrange(i, k + 1);
    assert(sub.drop_last() =~= s.subrange(i, k));
    assert(sub.last() == s[k]);
}

/// The value of a prefix of a digit run never exceeds the value of the
/// whole run.
pub proof fn lemma_val_of_monotone(s: Seq<u8>, i: int, k: int, j: int)
    requires
        0 <= i <= k <= j <= s.len(),
        forall|t: int| i <= t < j ==> is_digit(s[t]),
    ensures
        val_of(s.subrange(i, k)) <= val_of(s.subrange(i, j)),
    decreases j - k,
{
    if k < j {
        lemma_val_of_extend(s, i, k);
        assert(forall|t: int| 0 <= t < s.subrange(i, k).len() ==> is_digit(s.subrange(i, k)[t]));
        lemma_val_of_non_negative(s.subrange(i, k));
        lemma_val_of_monotone(s, i, k + 1, j);
    }
}

/// The digit string of a number is non-empty and all digits.
pub proof fn lemma_digits_of_props(n: nat)
    ensures
        digits_of(n).len() >= 1,
        forall|k: int| 0 <= k < digits_of(n).len() ==> is_digit(digits_of(n)[k]),
    decreases n,
{
    if n >= 10 {
        lemma_digits_of_props(n / 10);
    }
}

/// Reading back the digit string of a number yields the number.
pub proof fn lemma_val_of_digits_of(n: nat)
    ensures
        val_of(digits_of(n)) == n,
    decreases n,
{
    if n < 10 {
        let s = digits_of(n);
        assert(s.drop_last() =~= Seq::<u8>::empty());
        assert(val_of(Seq::<u8>::empty()) == 0);
        assert(s.last() == (48 + n) as u8);
    } else {
        lemma_val_of_digits_of(n / 10);
        let s = digits_of(n);
        assert(s.drop_last() =~= digits_of(n / 10));
        assert(s.last() == (48 + n % 10) as u8);
        vstd::arithmetic::div_mod::lemma_fundamental_div_mod(n as int, 10);
    }
}

/// The three fractional digits of a value below one thousand are
/// digits, and their value is the value itself.
pub proof fn lemma_frac3_props(f: nat)
    requires
        f < 1000,
    ensures
        frac3_of(f).len() == 3,
        forall|k: int| 0 <= k < 3 ==> is_digit(frac3_of(f)[k]),
        val_of(frac3_of(f)) == f,
{
    let s = frac3_of(f);
    let s1 = seq![s[0]];
    let s2 = seq![s[0], s[1]];
    assert(s1.drop_last() =~= Seq::<u8>::empty());
    assert(s1.last() == s[0]);
    assert(val_of(Seq::<u8>::empty()) == 0);
    assert(val_of(s1) == s[0] - 48);
    assert(s2.drop_last() =~= s1);
    assert(s2.last() == s[1]);
    assert(val_of(s2) == val_of(s1) * 10 + (s[1] - 48));
    assert(s.drop_last() =~= s2);
    assert(s.last() == s[2]);
    assert(val_of(s) == val_of(s2) * 10 + (s[2] - 48));
    vstd::arithmetic::div_mod::lemma_div_denominator(f as int, 10, 10);
    assert(f / 100 < 10);
    vstd::arithmetic::div_mod::lemma_fundamental_div_mod(f as int, 10);
    vstd::arithmetic::div_mod::lemma_fundamental_div_mod((f as int) / 10, 10);
    assert(f as int == 10 * ((f as int) / 10) + (f as int) % 10);
    assert((f as int) / 10 == 10 * (((f as int) / 10) / 10) + ((f as int) / 10) % 10);
}

/// A run of exactly three digits has a value between zero and nine
/// hundred ninety-nine.
pub proof fn lemma_val3_bounds(s: Seq<u8>, i: int)
    requires
        0 <= i,
        i + 3 <= s.len(),
        is_digit(s[i]),
        is_digit(s[i + 1]),
        is_digit(s[i + 2]),
    ensures
        0 <= val_of(s.subrange(i, i + 3)) <= 999,
{
    let s0 = s.subrange(i, i);
    let s1 = s.subrange(i, i + 1);
    let s2 = s.subrange(i, i + 2);
    let s3 = s.subrange(i, i + 3);
    assert(s0.len() == 0);
    assert(val_of(s0) == 0);
    assert(s1.drop_last() =~= s0);
    assert(s1.last() == s[i]);
    assert(val_of(s1) == s[i] - 48);
    assert(s2.drop_last() =~= s1);
    assert(s2.last() == s[i + 1]);
    assert(val_of(s2) == val_of(s1) * 10 + (s[i + 1] - 48));
    assert(s3.drop_last() =~= s2);
    assert(s3.last() == s[i + 2]);
    assert(val_of(s3) == val_of(s2) * 10 + (s[i + 2] - 48));
}

/// The bytes of `{"customer_id":` as a vector.
fn key_customer_id_bytes() -> (v: Vec<u8>)
    ensures
        v@ == key_customer_id(),
{
    let mut v: Vec<u8> = Vec::new();
    push_key_customer_id(&mut v);
    proof {
        assert_seqs_equal!(v@ == key_customer_id());
    }
    v
}

/// The bytes of `,"consumption":` as a vector.
fn key_consumption_bytes() -> (v: Vec<u8>)
    ensures
        v@ == key_consumption(),
{
    let mut v: Vec<u8> = Vec::new();
    push_key_consumption(&mut v);
    proof {
        assert_seqs_equal!(v@ == key_consumption());
    }
    v
}

/// The bytes of `,"timestamp":` as a vector.
fn key_timestamp_bytes() -> (v: Vec<u8>)
    ensures
        v@ == key_timestamp(),
{
    let mut v: Vec<u8> = Vec::new();
    push_key_timestamp(&mut v);
    proof {
        assert_seqs_equal!(v@ == key_timestamp());
    }
    v
}

/// Whether `pat` occurs in `s` at position `i`.
fn expect_at(s: &Vec<u8>, i: usize, pat: &Vec<u8>) -> (r: bool)
    ensures
        r == starts_with(s@, i as int, pat@),
{
    let n = s.len();
    let pn = pat.len();
    if n < i || n - i < pn {
        return false;
    }
    let mut k: usize = 0;
    while k < pn
        invariant
            n == s@.len(),
            pn == pat@.len(),
            i + pn <= n,
            0 <= k <= pn,
            forall|t: int| 0 <= t < k ==> s@[i + t] == pat@[t],
        decreases pn - k,
    {
        if s[i + k] != pat[k] {
            proof {
                assert(s@.subrange(i as int, i + pat@.len())[k as int] == s@[i + k]);
            }
            return false;
        }
        k = k + 1;
    }
    proof {
        assert_seqs_equal!(s@.subrange(i as int, i + pat@.len()) == pat@);
    }
    true
}

/// The first position at or after `i` that holds no digit.
fn scan_digits(s: &Vec<u8>, i: usize) -> (j: usize)
    requires
        i <= s@.len(),
    ensures
        j == digit_run_end(s@, i as int),
        i <= j <= s@.len(),
{
    let mut j: usize = i;
    while j < s.len() && 48 <= s[j] && s[j] <= 57
        invariant
            i <= j <= s@.len(),
            digit_run_end(s@, i as int) == digit_run_end(s@, j as int),
        decreases s@.len() - j,
    {
        j = j + 1;
    }
    j
}

/// The value of the digits of `s` between `i` and `j`, when it fits the
/// widest field; `None` on overflow.
fn parse_val(s: &Vec<u8>, i: usize, j: usize) -> (r: Option<u128>)
    requires
        i <= j <= s@.len(),
        forall|k: int| i <= k < j ==> is_digit(s@[k]),
    ensures
        match r {
            Some(v) => v == val_of(s@.subrange(i as int, j as int)),
            None => val_of(s@.subrange(i as int, j as int)) > u128::MAX,
        },
{
    let mut k: usize = i;
    let mut v: u128 = 0;
    proof {
        assert(s@.subrange(i as int, i as int).len() == 0);
    }
    while k < j
        invariant
            i <= k <= j <= s@.len(),
            forall|t: int| i <= t < j ==> is_digit(s@[t]),
            v == val_of(s@.subrange(i as int, k as int)),
        decreases j - k,
    {
        let d = s[k] - 48;
        let d128 = d as u128;
        proof {
            lemma_val_of_extend(s@, i as int, k as int);
        }
        if v > (u128::MAX - d128) / 10 {
            proof {
                assert(val_of(s@.subrange(i as int, (k + 1) as int)) > u128::MAX);
                lemma_val_of_monotone(s@, i as int, (k + 1) as int, j as int);
            }
            return None;
        }
        v = v * 10 + d128;
        k = k + 1;
    }
    Some(v)
}

/// Decode a byte string: the message it encodes when it is exactly one
/// JSON object of the form this codec writes, `None` otherwise.
pub fn deserialize(s: &Vec<u8>) -> (r: Option<Message>)
    ensures
        r == spec_deserialize(s@),
{
    let n = s.len();
    let key_id = key_customer_id_bytes();
    if !expect_at(s, 0, &key_id) {
        return None;
    }
    let i0 = key_id.len();
    let j1 = scan_digits(s, i0);
    proof {
        lemma_digit_run_end_props(s@, i0 as int);
    }
    if j1 == i0 {
        return None;
    }
    let id128 = match parse_val(s, i0, j1) {
        Some(v) => v,
        None => {
            return None;
        },
    };
    if id128 > u32::MAX as u128 {
        return None;
    }
    let key_cons = key_consumption_bytes();
    if !expect_at(s, j1, &key_cons) {
        return None;
    }
    let i2 = j1 + key_cons.len();
    let j2 = scan_digits(s, i2);
    proof {
        lemma_digit_run_end_props(s@, i2 as int);
    }
    if j2 == i2 {
        return None;
    }
    let whole128 = match parse_val(s, i2, j2) {
        Some(v) => v,
        None => {
            proof {
                lemma_overflow_means_rejected(s@, i2 as int, j2 as int);
            }
            return None;
        },
    };
    if s.len() - j2 < 4 {
        return None;
    }
    if s[j2] != DOT {
        return None;
    }
    let d1 = s[j2 + 1];
    if d1 < 48 || d1 > 57 {
        return None;
    }
    let d2 = s[j2 + 2];
    if d2 < 48 || d2 > 57 {
        return None;
    }
    let d3 = s[j2 + 3];
    if d3 < 48 || d3 > 57 {
        return None;
    }
    proof {
        assert forall|t: int| j2 + 1 <= t < j2 + 4 implies is_digit(s@[t]) by {
            assert(t == j2 + 1 || t == j2 + 2 || t == j2 + 3);
        }
        lemma_val3_bounds(s@, j2 + 1);
    }
    let frac128 = match parse_val(s, j2 + 1, j2 + 4) {
        Some(v) => v,
        None => {
            proof {
                assert(false);
            }
            return None;
        },
    };
    if whole128 > u32::MAX as u128 {
        return None;
    }
    let cons128 = whole128 * 1000 + frac128;
    if cons128 > u32::MAX as u128 {
        return None;
    }
    let i3 = j2 + 4;
    let key_ts = key_timestamp_bytes();
    if !expect_at(s, i3, &key_ts) {
        return None;
    }
    let i4 = i3 + key_ts.len();
    let j3 = scan_digits(s, i4);
    proof {
        lemma_digit_run_end_props(s@, i4 as int);
    }
    if j3 == i4 {
        return None;
    }
    let ts = match parse_val(s, i4, j3) {
        Some(v) => v,
        None => {
            return None;
        },
    };
    if s.len() - j3 != 1 {
        return None;
    }
    if s[j3] != RBRACE {
        return None;
    }
    Some(
        Message {
            customer_id: id128 as u32,
            consumption: MilliwattHours(cons128 as u32),
            timestamp: ts,
        },
    )
}

/// When the whole-milliwatt digits overflow the widest field, the
/// decoded consumption is out of range whatever the fractional digits
/// hold, so the decoder rejects the string either way.
proof fn lemma_overflow_means_rejected(s: Seq<u8>, i2: int, j2: int)
    requires
        0 <= i2 <= j2 <= s.len(),
        val_of(s.subrange(i2, j2)) > u128::MAX,
    ensures
        j2 + 4 <= s.len() && is_digit(s[j2 + 1]) && is_digit(s[j2 + 2]) && is_digit(s[j2 + 3])
            ==> val_of(s.subrange(i2, j2)) * 1000 + val_of(s.subrange(j2 + 1, j2 + 4))
            > u32::MAX,
{
    if j2 + 4 <= s.len() && is_digit(s[j2 + 1]) && is_digit(s[j2 + 2]) && is_digit(s[j2 + 3]) {
        lemma_val3_bounds(s, j2 + 1);
        let w = val_of(s.subrange(i2, j2));
        assert(w * 1000 == w + w * 999);
        assert(w * 999 >= 0) by (nonlinear_arith)
            requires
                w > 0,
        ;
    }
}

/// Round-trip law: decoding an encoded message yields the message, with
/// all three fields equal.
pub proof fn lemma_round_trip(m: Message)
    ensures
        spec_deserialize(spec_serialize(m)) == Some(m),
{
    let s = spec_serialize(m);
    let k1 = key_customer_id();
    let d1 = digits_of(m.customer_id as nat);
    let k2 = key_consumption();
    let dw = digits_of((m.consumption.0 as nat) / 1000);
    let fr = frac3_of((m.consumption.0 as nat) % 1000);
    let k3 = key_timestamp();
    let d3 = digits_of(m.timestamp as nat);
    lemma_digits_of_props(m.customer_id as nat);
    lemma_digits_of_props((m.consumption.0 as nat) / 1000);
    lemma_digits_of_props(m.timestamp as nat);
    lemma_frac3_props((m.consumption.0 as nat) % 1000);
    lemma_val_of_digits_of(m.customer_id as nat);
    lemma_val_of_digits_of((m.consumption.0 as nat) / 1000);
    lemma_val_of_digits_of(m.timestamp as nat);
    let i0 = k1.len() as int;
    let j1 = i0 + d1.len();
    let i2 = j1 + k2.len();
    let j2 = i2 + dw.len();
    let i3 = j2 + 4;
    let i4 = i3 + k3.len();
    let j3 = i4 + d3.len();
    assert(s.len() == j3 + 1);
    assert(s.subrange(0, i0) =~= k1);
    assert(s.subrange(i0, j1) =~= d1);
    assert(s.subrange(j1, i2) =~= k2);
    assert(s.subrange(i2, j2) =~= dw);
    assert(s[j2] == DOT);
    assert(s.subrange(j2 + 1, i3) =~= fr);
    assert(s.subrange(i3, i4) =~= k3);
    assert(s.subrange(i4, j3) =~= d3);
    assert(s[j3] == RBRACE);
    assert forall|k: int| i0 <= k < j1 implies is_digit(s[k]) by {
        assert(s[k] == s.subrange(i0, j1)[k - i0]);
    }
    assert(s[j1] == 44);
    lemma_digit_run_end_exact(s, i0, j1);
    assert forall|k: int| i2 <= k < j2 implies is_digit(s[k]) by {
        assert(s[k] == s.subrange(i2, j2)[k - i2]);
    }
    lemma_digit_run_end_exact(s, i2, j2);
    assert forall|k: int| i4 <= k < j3 implies is_digit(s[k]) by {
        assert(s[k] == s.subrange(i4, j3)[k - i4]);
    }
    lemma_digit_run_end_exact(s, i4, j3);
    assert(s[j2 + 1] == fr[0] && s[j2 + 2] == fr[1] && s[j2 + 3] == fr[2]);
    assert(val_of(s.subrange(i0, j1)) == m.customer_id);
    assert(val_of(s.subrange(i2, j2)) == (m.consumption.0 as nat) / 1000);
    assert(val_of(s.subrange(j2 + 1, i3)) == (m.consumption.0 as nat) % 1000);
    assert(val_of(s.subrange(i2, j2)) * 1000 + val_of(s.subrange(j2 + 1, i3))
        == m.consumption.0);
    assert(val_of(s.subrange(i4, j3)) == m.timestamp);
    assert(spec_deserialize(s) == Some(m));
}

} // verus!
