//! Variable-length quantities, the integer encoding of Standard MIDI Files:
//! seven payload bits per byte, most significant group first, every byte but
//! the last with its high bit set.
use vstd::prelude::*;

use crate::midi::MidiError;

verus! {

/// `128` raised to the power `n`.
pub open spec fn p128(n: nat) -> nat
    decreases n,
{
    if n == 0 {
        1
    } else {
        128 * p128((n - 1) as nat)
    }
}

/// The bytes that carry the groups of `v` that come before its last group:
/// every one of them with the high bit set.
pub open spec fn vlq_prefix(v: nat) -> Seq<u8>
    decreases v,
{
    if v < 128 {
        seq![(v + 128) as u8]
    } else {
        vlq_prefix(v / 128) + seq![(v % 128 + 128) as u8]
    }
}

/// The variable-length encoding of `v`.
pub open spec fn vlq_bytes(v: nat) -> Seq<u8> {
    if v < 128 {
        seq![v as u8]
    } else {
        vlq_prefix(v / 128) + seq![(v % 128) as u8]
    }
}

/// The number that the low seven bits of the first `n` bytes of `s` spell,
/// most significant group first.
pub open spec fn vlq_value(s: Seq<u8>, n: nat) -> nat
    decreases n,
{
    if n == 0 {
        0
    } else {
        vlq_value(s, (n - 1) as nat) * 128 + (s[n - 1] % 128) as nat
    }
}

/// The index, from `k` on, of the first byte of `s` whose high bit is clear,
/// looking no further than the fourth byte: a variable-length quantity of
/// a Standard MIDI File takes at most four bytes.
pub open spec fn vlq_end(s: Seq<u8>, k: nat) -> Option<nat>
    decreases 4 - k,
{
    if k >= 4 || k >= s.len() {
        None
    } else if s[k as int] < 128 {
        Some(k)
    } else {
        vlq_end(s, k + 1)
    }
}

/// What reading a variable-length quantity at the start of `s` gives: its
/// value (as a `usize`) and the number of bytes it takes, or nothing when no
/// byte among the first four (and within `s`) ends it.
pub open spec fn vlq_decode(s: Seq<u8>) -> Option<(usize, nat)> {
    match vlq_end(s, 0) {
        Some(k) => Some((vlq_value(s, k + 1) as usize, k + 1)),
        None => None,
    }
}

/// The value of the first `n` bytes is below `128^n`.
pub proof fn lemma_vlq_value_bound(s: Seq<u8>, n: nat)
    ensures
        vlq_value(s, n) < p128(n),
    decreases n,
{
    if n > 0 {
        lemma_vlq_value_bound(s, (n - 1) as nat);
    }
}

/// The value of the first `n` bytes depends on those bytes only.
pub proof fn lemma_vlq_value_agree(s1: Seq<u8>, s2: Seq<u8>, n: nat)
    requires
        n <= s1.len(),
        n <= s2.len(),
        forall|j: int| 0 <= j < n ==> s1[j] == s2[j],
    ensures
        vlq_value(s1, n) == vlq_value(s2, n),
    decreases n,
{
    if n > 0 {
        lemma_vlq_value_agree(s1, s2, (n - 1) as nat);
    }
}

proof fn lemma_div_mod_128(a: nat, b: nat)
    requires
        b < 128,
    ensures
        (a * 128 + b) / 128 == a,
        (a * 128 + b) % 128 == b,
{
    assert((a * 128 + b) / 128 == a) by (nonlinear_arith)
        requires
            b < 128,
    ;
    assert((a * 128 + b) % 128 == b) by (nonlinear_arith)
        requires
            b < 128,
    ;
}

proof fn lemma_split_128(v: nat)
    ensures
        v == (v / 128) * 128 + v % 128,
        v % 128 < 128,
        v >= 128 ==> v / 128 >= 1,
        v >= 128 ==> v / 128 < v,
{
    assert(v == (v / 128) * 128 + v % 128) by (nonlinear_arith);
}

/// The prefix bytes of `w` all carry the continuation bit, spell `w`, and
/// number at most `k` when `w < 128^k`.
proof fn lemma_vlq_prefix(w: nat, rest: Seq<u8>)
    ensures
        vlq_prefix(w).len() >= 1,
        forall|j: int| 0 <= j < vlq_prefix(w).len() ==> vlq_prefix(w)[j] >= 128,
        vlq_value(vlq_prefix(w) + rest, vlq_prefix(w).len()) == w,
        forall|k: nat| k >= 1 && w < p128(k) ==> vlq_prefix(w).len() <= k,
    decreases w,
{
    let p = vlq_prefix(w);
    if w < 128 {
        assert((p + rest)[0] == (w + 128) as u8);
        assert(((w + 128) as u8) % 128 == w);
        assert(vlq_value(p + rest, 0) == 0);
    } else {
        lemma_split_128(w);
        let q = vlq_prefix(w / 128);
        let b = (w % 128 + 128) as u8;
        lemma_vlq_prefix(w / 128, seq![b] + rest);
        assert(p == q + seq![b]);
        assert(p + rest =~= q + (seq![b] + rest));
        assert((p + rest)[q.len() as int] == b);
        assert(vlq_value(p + rest, q.len()) == w / 128);
        assert(vlq_value(p + rest, p.len()) == (w / 128) * 128 + w % 128);
        assert forall|k: nat| k >= 1 && w < p128(k) implies p.len() <= k by {
            let km = (k - 1) as nat;
            if km == 0 {
                assert(p128(1) == 128) by {
                    reveal_with_fuel(p128, 2);
                }
            } else {
                assert(p128(k) == 128 * p128(km));
                assert((w / 128) < p128(km)) by (nonlinear_arith)
                    requires
                        w < 128 * p128(km),
                        w == (w / 128) * 128 + w % 128,
                        w % 128 < 128,
                ;
            }
        }
    }
}

/// Encoding a number below `2^28` and reading it back, whatever follows,
/// gives the number and the length of its encoding.
pub proof fn lemma_vlq_encode_decode(v: nat, rest: Seq<u8>)
    requires
        v < 0x1000_0000,
    ensures
        vlq_bytes(v).len() <= 4,
        vlq_decode(vlq_bytes(v) + rest) == Some((v as usize, vlq_bytes(v).len())),
{
    let s = vlq_bytes(v) + rest;
    if v < 128 {
        assert(s[0] == v as u8);
        assert((v as u8) as nat == v);
        assert(vlq_value(s, 0) == 0);
        assert(vlq_end(s, 0) == Some(0nat));
        assert(vlq_value(s, 1) == v);
    } else {
        lemma_split_128(v);
        let w = v / 128;
        let q = vlq_prefix(w);
        let b = (v % 128) as u8;
        lemma_vlq_prefix(w, seq![b] + rest);
        assert(p128(3) == 0x20_0000) by {
            reveal_with_fuel(p128, 4);
        }
        assert(w < 0x20_0000);
        assert(q.len() <= 3);
        assert(s =~= q + (seq![b] + rest));
        assert(s[q.len() as int] == b);
        assert forall|k: nat| k <= q.len() implies vlq_end(s, k) == Some(q.len()) by {
            lemma_vlq_end_scan(s, k, q.len());
        }
        assert(vlq_value(s, q.len() + 1) == w * 128 + v % 128);
    }
}

proof fn lemma_vlq_end_scan(s: Seq<u8>, k: nat, e: nat)
    requires
        k <= e,
        e < 4,
        e < s.len(),
        s[e as int] < 128,
        forall|j: int| k <= j < e ==> s[j] >= 128,
    ensures
        vlq_end(s, k) == Some(e),
    decreases e - k,
{
    if k < e {
        lemma_vlq_end_scan(s, k + 1, e);
    }
}


/// Decoding the minimal encoding of a number and encoding the value again
/// gives back the bytes read.
pub proof fn lemma_vlq_decode_encode(s: Seq<u8>)
    requires
        vlq_end(s, 0) is Some,
        s[0] != 0x80,
    ensures
        vlq_bytes(vlq_value(s, vlq_end(s, 0)->0 + 1)) == s.take(vlq_end(s, 0)->0 + 1 as int),
{
    let k = vlq_end(s, 0)->0;
    lemma_vlq_end_props(s, 0);
    let v = vlq_value(s, k + 1);
    lemma_div_mod_128(vlq_value(s, k), (s[k as int] % 128) as nat);
    assert(s[k as int] % 128 == s[k as int]);
    if k == 0 {
        assert(vlq_value(s, 0) == 0);
        assert(v == s[0]);
        assert(s.take(1) =~= seq![s[0]]);
    } else {
        lemma_vlq_prefix_of_bytes(s, k);
        assert(v >= 128);
        assert(s.take(k + 1 as int) =~= s.take(k as int) + seq![s[k as int]]);
    }
}

pub proof fn lemma_vlq_end_props(s: Seq<u8>, k: nat)
    requires
        vlq_end(s, k) is Some,
    ensures
        k <= vlq_end(s, k)->0 < 4,
        vlq_end(s, k)->0 < s.len(),
        s[vlq_end(s, k)->0 as int] < 128,
        forall|j: int| k <= j < vlq_end(s, k)->0 ==> s[j] >= 128,
    decreases 4 - k,
{
    if !(k >= 4 || k >= s.len()) && s[k as int] >= 128 {
        lemma_vlq_end_props(s, k + 1);
    }
}

/// Bytes that all carry the continuation bit, the first of them not `0x80`,
/// are the prefix encoding of the number they spell, which is at least 1.
proof fn lemma_vlq_prefix_of_bytes(s: Seq<u8>, m: nat)
    requires
        1 <= m <= s.len(),
        forall|j: int| 0 <= j < m ==> s[j] >= 128,
        s[0] != 0x80,
    ensures
        vlq_value(s, m) >= 1,
        vlq_prefix(vlq_value(s, m)) == s.take(m as int),
    decreases m,
{
    let v = vlq_value(s, m);
    let b = s[m - 1];
    lemma_div_mod_128(vlq_value(s, (m - 1) as nat), (b % 128) as nat);
    if m == 1 {
        assert(vlq_value(s, 0) == 0);
        assert(v == b - 128);
        assert(s.take(1) =~= seq![b]);
    } else {
        lemma_vlq_prefix_of_bytes(s, (m - 1) as nat);
        assert(v >= 128);
        assert(b % 128 + 128 == b);
        assert(s.take(m as int) =~= s.take(m - 1) + seq![b]);
    }
}

/// Reads a variable-length quantity at the start of `data`: its value and
/// the number of bytes it takes. Fails with `LengthError` when `data` ends,
/// or four bytes go by, before a byte with the high bit clear: a
/// variable-length quantity of over four bytes is invalid.
pub fn get_variable_value(data: &[u8]) -> (r: Result<(usize, usize), MidiError>)
    ensures
        match vlq_decode(data@) {
            Some((v, n)) => r matches Ok((rv, rn)) && rv == v && rn == n,
            None => r matches Err(MidiError::LengthError),
        },
{
    let mut value: u64 = 0;
    let mut len: usize = 0;
    loop
        invariant_except_break
            len <= 4,
            len <= data@.len(),
            value == vlq_value(data@, len as nat),
            forall|j: int| 0 <= j < len ==> data@[j] >= 128,
        ensures
            1 <= len <= 4,
            len <= data@.len(),
            value == vlq_value(data@, len as nat),
            forall|j: int| 0 <= j < len - 1 ==> data@[j] >= 128,
            data@[len - 1] < 128,
        decreases 4 - len,
    {
        if len >= data.len() {
            proof {
                lemma_vlq_end_none(data@, 0, len as nat);
            }
            return Err(MidiError::LengthError);
        }
        if len > 3 {
            proof {
                lemma_vlq_end_none(data@, 0, len as nat);
            }
            return Err(MidiError::LengthError);
        }
        let byte = data[len];
        proof {
            lemma_vlq_value_bound(data@, len as nat);
            assert(p128(4) == 0x1000_0000) by {
                reveal_with_fuel(p128, 5);
            }
            lemma_p128_mono(len as nat, 4);
        }
        len += 1;
        let old_value = value;
        value = (value << 7) | (byte & 0x7f) as u64;
        assert(value == old_value * 128 + byte % 128) by (bit_vector)
            requires
                old_value < 0x1000_0000,
                value == (old_value << 7) | (byte & 0x7f) as u64,
        ;
        if byte & 0x80 == 0 {
            assert(byte < 128) by (bit_vector)
                requires
                    byte & 0x80 == 0,
            ;
            break;
        }
        assert(byte >= 128) by (bit_vector)
            requires
                byte & 0x80 != 0,
        ;
    }
    proof {
        lemma_vlq_end_scan(data@, 0, (len - 1) as nat);
    }
    Ok((value as usize, len))
}

/// Reading a variable-length quantity looks at its own bytes only: other
/// bytes after them, or none, give the same reading.
pub proof fn lemma_vlq_decode_prefix(s: Seq<u8>, t: Seq<u8>)
    requires
        vlq_decode(s) matches Some((_, n)) && n <= t.len() && t.take(n as int) == s.take(n as int),
    ensures
        vlq_decode(t) == vlq_decode(s),
{
    let k = vlq_end(s, 0)->0;
    lemma_vlq_end_props(s, 0);
    assert forall|j: int| 0 <= j <= k implies t[j] == s[j] by {
        assert(t.take(k + 1 as int)[j] == s.take(k + 1 as int)[j]);
    }
    lemma_vlq_end_scan(t, 0, k);
    lemma_vlq_value_agree(s, t, k + 1);
}

proof fn lemma_p128_mono(a: nat, b: nat)
    requires
        a <= b,
    ensures
        p128(a) <= p128(b),
    decreases b,
{
    if a < b {
        lemma_p128_mono(a, (b - 1) as nat);
    }
}

proof fn lemma_vlq_end_none(s: Seq<u8>, k: nat, n: nat)
    requires
        k <= n,
        n >= 4 || n >= s.len(),
        forall|j: int| k <= j < n ==> s[j] >= 128,
    ensures
        vlq_end(s, k) is None,
    decreases n - k,
{
    if k < n && k < 4 && k < s.len() {
        lemma_vlq_end_none(s, k + 1, n);
    }
}

fn vlq_prefix_exec(v: usize) -> (r: Vec<u8>)
    ensures
        r@ == vlq_prefix(v as nat),
    decreases v,
{
    if v < 128 {
        let mut r = Vec::new();
        r.push((v + 128) as u8);
        r
    } else {
        proof {
            lemma_split_128(v as nat);
        }
        let mut r = vlq_prefix_exec(v / 128);
        r.push((v % 128 + 128) as u8);
        r
    }
}

/// The variable-length encoding of `value`.
pub fn convert_variable_value(value: usize) -> (r: Vec<u8>)
    ensures
        r@ == vlq_bytes(value as nat),
{
    if value < 128 {
        let mut r = Vec::new();
        r.push(value as u8);
        r
    } else {
        let mut r = vlq_prefix_exec(value / 128);
        r.push((value % 128) as u8);
        r
    }
}

} // verus!
