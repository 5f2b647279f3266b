//! Stamping: a frame's payload, the decimal ASCII text of its arrival time
//! in milliseconds since the Unix epoch, and the delimiter re-appended —
//! the unit actually transmitted to destinations.

use vstd::prelude::*;

use crate::codec::{delim, delim_free, scan, MAX_FRAME, DELIM_0, DELIM_1, DELIM_2};
use crate::codec::{lemma_decode_encoded, encode, wf_frame};
use vstd::arithmetic::div_mod::lemma_fundamental_div_mod;
use vstd::arithmetic::power::{lemma_pow_positive, pow};

verus! {

/// The decimal ASCII digits of `n`, most significant first, with no sign
/// and no leading zero (`0` itself is the single digit `0`).
pub open spec fn dec_digits(n: nat) -> Seq<u8>
    decreases n,
{
    if n < 10 {
        seq![(48 + n) as u8]
    } else {
        dec_digits(n / 10).push((48 + n % 10) as u8)
    }
}

/// A stamped message: the payload (delimiter already stripped), the decimal
/// text of the arrival time, and the delimiter.
pub open spec fn stamped(payload: Seq<u8>, now: nat) -> Seq<u8> {
    payload + dec_digits(now) + delim()
}

/// Every byte of a decimal rendering is an ASCII digit.
pub proof fn lemma_dec_digits_ascii(n: nat)
    ensures
        dec_digits(n).len() >= 1,
        forall|k: int|
            0 <= k < dec_digits(n).len() ==> 48 <= #[trigger] dec_digits(n)[k] <= 57,
    decreases n,
{
    if n >= 10 {
        lemma_dec_digits_ascii(n / 10);
    }
}

/// A decimal rendering never starts with a zero, except for the value zero
/// itself.
pub proof fn lemma_dec_digits_no_leading_zero(n: nat)
    requires
        n >= 1,
    ensures
        dec_digits(n)[0] != 48,
    decreases n,
{
    if n >= 10 {
        lemma_dec_digits_ascii(n / 10);
        lemma_dec_digits_no_leading_zero(n / 10);
    }
}

/// Written in decimal, a value in `[10^(k-1), 10^k)` has exactly `k`
/// digits: a timestamp from a 14-digit span of epoch milliseconds stamps
/// exactly 14 bytes of text.
pub proof fn lemma_dec_digits_count(n: nat, k: nat)
    requires
        1 <= k,
        pow(10, (k - 1) as nat) <= n < pow(10, k),
    ensures
        dec_digits(n).len() == k,
    decreases k,
{
    reveal(pow);
    assert(pow(10, k) == 10 * pow(10, (k - 1) as nat));
    if k == 1 {
        assert(pow(10, 0) == 1);
        assert(n < 10);
    } else {
        assert(pow(10, (k - 1) as nat) == 10 * pow(10, (k - 2) as nat));
        lemma_pow_positive(10, (k - 2) as nat);
        assert(n >= 10);
        lemma_fundamental_div_mod(n as int, 10);
        assert(n / 10 >= pow(10, (k - 2) as nat));
        assert(n / 10 < pow(10, (k - 1) as nat));
        lemma_dec_digits_count(n / 10, (k - 1) as nat);
    }
}

proof fn lemma_reverse_push(s: Seq<u8>, x: u8)
    ensures
        s.push(x).reverse() == seq![x] + s.reverse(),
{
    assert(s.push(x).reverse() =~= seq![x] + s.reverse());
}

/// The decimal ASCII rendering of `n`, as executable bytes.
pub fn decimal_bytes(n: u128) -> (v: Vec<u8>)
    ensures
        v@ == dec_digits(n as nat),
{
    // Digits come out least significant first; collect them, then reverse.
    let mut m: u128 = n;
    let mut rev: Vec<u8> = Vec::new();
    let d0: u8 = (m % 10) as u8 + 48;
    rev.push(d0);
    m = m / 10;
    proof {
        lemma_reverse_push(Seq::<u8>::empty(), d0);
        assert(Seq::<u8>::empty().reverse() =~= Seq::<u8>::empty());
        assert(seq![d0] + Seq::<u8>::empty() =~= seq![d0]);
        if m == 0 {
            assert(rev@.reverse() =~= dec_digits(n as nat));
        } else {
            assert(dec_digits(m as nat) + rev@.reverse() =~= dec_digits(n as nat));
        }
    }
    while m > 0
        invariant
            rev@.len() >= 1,
            m == 0 ==> rev@.reverse() == dec_digits(n as nat),
            m > 0 ==> dec_digits(m as nat) + rev@.reverse() == dec_digits(n as nat),
        decreases m,
    {
        let ghost rev_pre = rev@;
        let ghost m_pre = m as nat;
        let d: u8 = (m % 10) as u8 + 48;
        rev.push(d);
        m = m / 10;
        proof {
            lemma_reverse_push(rev_pre, d);
            if m == 0 {
                assert(dec_digits(m_pre) =~= seq![d]);
                assert(rev@.reverse() =~= dec_digits(n as nat));
            } else {
                assert(dec_digits(m_pre) =~= dec_digits(m as nat).push(d));
                assert(dec_digits(m as nat).push(d) =~= dec_digits(m as nat) + seq![d]);
                assert(dec_digits(m as nat) + rev@.reverse() =~= dec_digits(n as nat));
            }
        }
    }
    let mut v: Vec<u8> = Vec::new();
    let len = rev.len();
    let mut k: usize = 0;
    while k < len
        invariant
            k <= len,
            len == rev@.len(),
            v@.len() == k,
            forall|t: int| 0 <= t < k ==> v@[t] == rev@[len - 1 - t],
        decreases len - k,
    {
        let b = rev[len - 1 - k];
        v.push(b);
        k += 1;
    }
    proof {
        assert(v@ =~= rev@.reverse());
    }
    v
}

/// The stamped message for `payload` arriving at `now` milliseconds since
/// the Unix epoch: payload, decimal timestamp text, delimiter.
pub fn stamp(payload: &Vec<u8>, now: u128) -> (m: Vec<u8>)
    ensures
        m@ == stamped(payload@, now as nat),
{
    let mut m: Vec<u8> = Vec::new();
    let mut k: usize = 0;
    let plen = payload.len();
    while k < plen
        invariant
            k <= plen,
            plen == payload@.len(),
            m@ == payload@.take(k as int),
        decreases plen - k,
    {
        let b = payload[k];
        m.push(b);
        proof {
            assert(payload@.take(k as int).push(payload@[k as int]) =~= payload@.take(k + 1));
        }
        k += 1;
    }
    proof {
        assert(m@ =~= payload@);
    }
    let digits = decimal_bytes(now);
    let ghost after_payload = m@;
    let dlen = digits.len();
    let mut k2: usize = 0;
    while k2 < dlen
        invariant
            k2 <= dlen,
            dlen == digits@.len(),
            m@ == after_payload + digits@.take(k2 as int),
        decreases dlen - k2,
    {
        let b = digits[k2];
        m.push(b);
        proof {
            assert(after_payload + digits@.take(k2 as int) + seq![digits@[k2 as int]]
                =~= after_payload + digits@.take(k2 + 1));
        }
        k2 += 1;
    }
    m.push(DELIM_0);
    m.push(DELIM_1);
    m.push(DELIM_2);
    proof {
        assert(m@ =~= stamped(payload@, now as nat));
    }
    m
}

/// Round trip: a payload that fits in one frame, sent as `payload +
/// delimiter`, is decoded back as exactly that payload, and the message
/// forwarded for it carries the original payload bytes unchanged, followed
/// by a well-formed decimal timestamp and the delimiter.
pub proof fn lemma_round_trip(p: Seq<u8>, now: nat)
    requires
        delim_free(p),
        p.len() + 3 <= MAX_FRAME,
    ensures
        scan(p + delim()).frames == seq![p],
        scan(p + delim()).rest == Seq::<u8>::empty(),
        !scan(p + delim()).abort,
        stamped(p, now).take(p.len() as int) == p,
        forall|k: int|
            p.len() <= k < p.len() + dec_digits(now).len() ==> 48 <= #[trigger] stamped(
                p,
                now,
            )[k] <= 57,
        stamped(p, now).skip(stamped(p, now).len() - 3) == delim(),
{
    let ps = seq![p];
    assert(forall|k: int| 0 <= k < ps.len() ==> wf_frame(#[trigger] ps[k]));
    assert(encode(ps) =~= p + delim()) by {
        assert(encode(ps.skip(1)) =~= Seq::<u8>::empty());
    }
    lemma_decode_encoded(ps);
    let st = stamped(p, now);
    assert(st.take(p.len() as int) =~= p);
    lemma_dec_digits_ascii(now);
    assert forall|k: int| p.len() <= k < p.len() + dec_digits(now).len() implies 48 <= #[trigger] st[k]
        <= 57 by {
        assert(st[k] == dec_digits(now)[k - p.len()]);
    }
    assert(st.skip(st.len() - 3) =~= delim());
}

} // verus!
