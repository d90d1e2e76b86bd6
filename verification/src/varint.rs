//! Unsigned LEB128 (little-endian base-128) varints, used by the WebAssembly
//! binary format for section length fields: 7 data bits per byte, high bit set
//! on every byte but the last.

use crate::error::MrfError;
use vstd::prelude::*;

verus! {

/// 128 raised to the power `k`.
pub open spec fn pow128(k: nat) -> nat
    decreases k,
{
    if k == 0 {
        1
    } else {
        128 * pow128((k - 1) as nat)
    }
}

/// The number of bytes the canonical (minimal) LEB128 encoding of `v` takes.
pub open spec fn leb_size(v: nat) -> nat
    decreases v,
{
    if v < 128 {
        1
    } else {
        1 + leb_size(v / 128)
    }
}

/// The canonical LEB128 encoding of `v`: low 7 bits first, high bit set on
/// every byte except the final one.
pub open spec fn leb_encode(v: nat) -> Seq<u8>
    decreases v,
{
    if v < 128 {
        seq![v as u8]
    } else {
        seq![((v % 128) + 128) as u8] + leb_encode(v / 128)
    }
}

/// The integer a byte string denotes when read as LEB128 data bytes
/// (continuation bits are ignored; the first byte is least significant).
pub open spec fn leb_value(s: Seq<u8>) -> nat
    decreases s.len(),
{
    if s.len() == 0 {
        0
    } else {
        (s[0] as nat) % 128 + 128 * leb_value(s.drop_first())
    }
}

/// The width of the varint starting at `off`: the count of bytes up to and
/// including the first one with its high bit clear, or `None` if the buffer
/// ends first.
pub open spec fn leb_width(b: Seq<u8>, off: int) -> Option<int>
    decreases b.len() - off,
{
    if off < 0 || off >= b.len() {
        None
    } else if b[off] < 128 {
        Some(1)
    } else {
        match leb_width(b, off + 1) {
            Some(w) => Some(w + 1),
            None => None,
        }
    }
}

/// The width of the varint at `off`, where one is known to terminate.
pub open spec fn leb_width_of(b: Seq<u8>, off: int) -> int {
    leb_width(b, off)->Some_0
}

/// The value of the varint at `off`, where one is known to terminate.
pub open spec fn leb_value_at(b: Seq<u8>, off: int) -> nat {
    leb_value(b.subrange(off, off + leb_width_of(b, off)))
}

/// A varint at `off` terminates within the maximum width for a 64-bit value
/// and denotes a value that fits in a `u64`.
pub open spec fn leb_decodable(b: Seq<u8>, off: int) -> bool {
    match leb_width(b, off) {
        Some(w) => w <= 10 && leb_value(b.subrange(off, off + w)) < 0x1_0000_0000_0000_0000,
        None => false,
    }
}

pub proof fn lemma_pow128_values()
    ensures
        pow128(7) == 0x2_0000_0000_0000,
        pow128(8) == 0x100_0000_0000_0000,
        pow128(9) == 0x8000_0000_0000_0000,
        pow128(10) == 0x40_0000_0000_0000_0000,
{
    assert(pow128(0) == 1);
    assert(pow128(1) == 128);
    assert(pow128(2) == 0x4000);
    assert(pow128(3) == 0x20_0000);
    assert(pow128(4) == 0x1000_0000);
    assert(pow128(5) == 0x8_0000_0000);
    assert(pow128(6) == 0x400_0000_0000);
    assert(pow128(7) == 0x2_0000_0000_0000) by {
        assert(pow128(7) == 128 * pow128(6));
    }
    assert(pow128(8) == 0x100_0000_0000_0000) by {
        assert(pow128(8) == 128 * pow128(7));
    }
    assert(pow128(9) == 0x8000_0000_0000_0000) by {
        assert(pow128(9) == 128 * pow128(8));
    }
    assert(pow128(10) == 0x40_0000_0000_0000_0000) by {
        assert(pow128(10) == 128 * pow128(9));
    }
}

pub proof fn lemma_pow128_pos(k: nat)
    ensures
        pow128(k) >= 1,
    decreases k,
{
    if k > 0 {
        lemma_pow128_pos((k - 1) as nat);
    }
}

pub proof fn lemma_pow128_mono(i: nat, j: nat)
    requires
        i <= j,
    ensures
        pow128(i) <= pow128(j),
        pow128(i) >= 1,
    decreases j,
{
    lemma_pow128_pos(i);
    if i < j {
        lemma_pow128_mono(i, (j - 1) as nat);
        lemma_pow128_pos((j - 1) as nat);
    }
}

/// The canonical encoding of `v` has exactly `leb_size(v)` bytes.
pub proof fn lemma_leb_encode_len(v: nat)
    ensures
        leb_encode(v).len() == leb_size(v),
    decreases v,
{
    if v >= 128 {
        lemma_leb_encode_len(v / 128);
    }
}

/// The canonical encoding is terminated: every byte but the last has its high
/// bit set, and the last has it clear.
pub proof fn lemma_leb_encode_shape(v: nat)
    ensures
        forall|j: int| 0 <= j < leb_encode(v).len() - 1 ==> leb_encode(v)[j] >= 128,
        leb_encode(v)[leb_encode(v).len() - 1] < 128,
        leb_encode(v).len() >= 1,
    decreases v,
{
    if v >= 128 {
        lemma_leb_encode_shape(v / 128);
        assert forall|j: int| 0 <= j < leb_encode(v).len() - 1 implies leb_encode(v)[j]
            >= 128 by {
            if j > 0 {
                assert(leb_encode(v)[j] == leb_encode(v / 128)[j - 1]);
            }
        }
    }
}

/// Reading back the canonical encoding of `v` yields `v`.
pub proof fn lemma_leb_encode_value(v: nat)
    ensures
        leb_value(leb_encode(v)) == v,
    decreases v,
{
    let s = leb_encode(v);
    if v < 128 {
        assert(s.drop_first() =~= Seq::<u8>::empty());
        assert(leb_value(Seq::<u8>::empty()) == 0);
        assert(s[0] == v as u8);
        assert(leb_value(s) == (s[0] as nat) % 128 + 128 * leb_value(s.drop_first()));
    } else {
        lemma_leb_encode_value(v / 128);
        assert(s.drop_first() =~= leb_encode(v / 128));
        assert(s[0] == ((v % 128) + 128) as u8);
        assert((((v % 128) + 128) as u8) as nat % 128 == v % 128);
        assert(leb_value(s) == (s[0] as nat) % 128 + 128 * leb_value(s.drop_first()));
        vstd::arithmetic::div_mod::lemma_fundamental_div_mod(v as int, 128);
    }
}

/// Appending one more data byte adds its 7 data bits at the next position.
pub proof fn lemma_leb_value_snoc(s: Seq<u8>, x: u8)
    ensures
        leb_value(s.push(x)) == leb_value(s) + ((x as nat) % 128) * pow128(s.len()),
    decreases s.len(),
{
    if s.len() == 0 {
        assert(s.push(x)[0] == x);
        assert(s.push(x).drop_first() =~= Seq::<u8>::empty());
        assert(leb_value(Seq::<u8>::empty()) == 0);
        assert(leb_value(s) == 0);
        assert(pow128(0) == 1);
        assert(leb_value(s.push(x)) == (x as nat) % 128);
    } else {
        lemma_leb_value_snoc(s.drop_first(), x);
        let t = s.drop_first();
        assert(s.push(x)[0] == s[0]);
        assert(s.push(x).drop_first() =~= t.push(x));
        assert(leb_value(s.push(x)) == (s[0] as nat) % 128 + 128 * leb_value(t.push(x)));
        assert(leb_value(t.push(x)) == leb_value(t) + ((x as nat) % 128) * pow128(t.len()));
        assert(leb_value(s) == (s[0] as nat) % 128 + 128 * leb_value(t));
        assert(128 * leb_value(t.push(x)) == 128 * leb_value(t) + ((x as nat) % 128) * (128
            * pow128(t.len()))) by (nonlinear_arith)
            requires
                leb_value(t.push(x)) == leb_value(t) + ((x as nat) % 128) * pow128(t.len()),
        ;
        assert(pow128(s.len()) == 128 * pow128(t.len()));
        assert(((x as nat) % 128) * (128 * pow128(t.len())) == ((x as nat) % 128) * pow128(
            s.len(),
        ));
    }
}

/// Any terminated run of bytes is at least as wide as the canonical encoding
/// of the value it denotes.
pub proof fn lemma_leb_min_width(s: Seq<u8>)
    requires
        s.len() >= 1,
    ensures
        leb_size(leb_value(s)) <= s.len(),
    decreases s.len(),
{
    let v = leb_value(s);
    if v >= 128 {
        assert(s.len() >= 2) by {
            if s.len() == 1 {
                assert(s.drop_first() =~= Seq::<u8>::empty());
            }
        }
        lemma_leb_min_width(s.drop_first());
        vstd::arithmetic::div_mod::lemma_fundamental_div_mod_converse(
            v as int,
            128,
            leb_value(s.drop_first()) as int,
            ((s[0] as nat) % 128) as int,
        );
    }
}

/// The canonical width is always at least one byte.
pub proof fn lemma_leb_size_pos(v: nat)
    ensures
        leb_size(v) >= 1,
{
    if v < 128 {
        assert(leb_size(v) == 1);
    } else {
        assert(leb_size(v) == 1 + leb_size(v / 128));
    }
}

/// Where `leb_width` finds a width, the bytes up to it have the terminated
/// shape.
pub proof fn lemma_leb_width_shape(b: Seq<u8>, off: int, w: int)
    requires
        leb_width(b, off) == Some(w),
    ensures
        1 <= w,
        0 <= off,
        off + w <= b.len(),
        forall|j: int| off <= j < off + w - 1 ==> b[j] >= 128,
        b[off + w - 1] < 128,
    decreases b.len() - off,
{
    if b[off] >= 128 {
        lemma_leb_width_shape(b, off + 1, w - 1);
    }
}

/// Conversely, bytes of the terminated shape pin `leb_width` down.
pub proof fn lemma_leb_width_from_shape(b: Seq<u8>, off: int, w: int)
    requires
        0 <= off,
        1 <= w,
        off + w <= b.len(),
        forall|j: int| off <= j < off + w - 1 ==> b[j] >= 128,
        b[off + w - 1] < 128,
    ensures
        leb_width(b, off) == Some(w),
    decreases w,
{
    if w > 1 {
        assert(b[off] >= 128);
        lemma_leb_width_from_shape(b, off + 1, w - 1);
    }
}

/// Skipping a run of continuation bytes shifts the width by their count.
pub proof fn lemma_leb_width_skip(b: Seq<u8>, off: int, k: int)
    requires
        0 <= off,
        0 <= k,
        off + k <= b.len(),
        forall|j: int| off <= j < off + k ==> b[j] >= 128,
    ensures
        leb_width(b, off) == match leb_width(b, off + k) {
            Some(w) => Some(w + k),
            None => None,
        },
    decreases k,
{
    if k > 0 {
        lemma_leb_width_skip(b, off + 1, k - 1);
    }
}

/// A found varint survives extending the buffer to the right.
pub proof fn lemma_leb_width_prefix(b: Seq<u8>, c: Seq<u8>, off: int)
    requires
        b.len() <= c.len(),
        c.subrange(0, b.len() as int) == b,
        leb_width(b, off) is Some,
    ensures
        leb_width(c, off) == leb_width(b, off),
{
    let w = leb_width(b, off)->Some_0;
    lemma_leb_width_shape(b, off, w);
    assert forall|j: int| 0 <= j < b.len() implies c[j] == b[j] by {
        assert(b[j] == c.subrange(0, b.len() as int)[j]);
    }
    lemma_leb_width_from_shape(c, off, w);
}

/// Number of bytes the canonical LEB128 encoding of `v` takes; the splicer
/// uses it to re-derive a header's width from the length it carries.
pub fn leb_encoded_size(v: u64) -> (r: usize)
    ensures
        r == leb_size(v as nat),
        1 <= r <= 10,
{
    proof {
        lemma_pow128_values();
        lemma_leb_size_bound(v as nat, 10);
    }
    let mut cur: u64 = v;
    let mut n: usize = 1;
    while cur >= 128
        invariant
            leb_size(v as nat) == n - 1 + leb_size(cur as nat),
            1 <= n <= 10,
            leb_size(v as nat) <= 10,
        decreases cur,
    {
        cur = cur / 128;
        n = n + 1;
        proof {
            lemma_leb_size_pos(cur as nat);
        }
    }
    n
}

/// `leb_size(v) <= k` whenever `v < 128^k`.
pub proof fn lemma_leb_size_bound(v: nat, k: nat)
    requires
        v < pow128(k),
        k >= 1,
    ensures
        leb_size(v) <= k,
    decreases k,
{
    if v >= 128 {
        assert(v / 128 < pow128((k - 1) as nat)) by (nonlinear_arith)
            requires
                v < 128 * pow128((k - 1) as nat),
        ;
        lemma_leb_size_bound(v / 128, (k - 1) as nat);
    }
}

/// The canonical LEB128 encoding of `v`, low byte first.
pub fn leb_encode_vec(v: u64) -> (r: Vec<u8>)
    ensures
        r@ == leb_encode(v as nat),
        r.len() == leb_size(v as nat),
{
    let mut out: Vec<u8> = Vec::new();
    let mut cur: u64 = v;
    while cur >= 128
        invariant
            leb_encode(v as nat) == out@ + leb_encode(cur as nat),
        decreases cur,
    {
        let ghost pre = out@;
        let ghost precur = cur as nat;
        out.push((cur % 128 + 128) as u8);
        cur = cur / 128;
        proof {
            assert(leb_encode(precur) =~= seq![((precur % 128) + 128) as u8] + leb_encode(
                precur / 128,
            ));
            assert(pre + leb_encode(precur) =~= out@ + leb_encode(cur as nat));
        }
    }
    let ghost pre = out@;
    out.push(cur as u8);
    proof {
        assert(leb_encode(cur as nat) =~= seq![cur as u8]);
        assert(leb_encode(v as nat) =~= out@);
        lemma_leb_encode_len(v as nat);
    }
    out
}

/// Decodes the varint starting at `off`: the value and the count of bytes it
/// took. Fails when the terminating byte is never reached within the maximum
/// width for a 64-bit value, when the buffer is exhausted first, or when the
/// denoted value does not fit in 64 bits.
pub fn leb_decode(b: &[u8], off: usize) -> (r: Result<(u64, usize), MrfError>)
    requires
        off <= b@.len(),
    ensures
        r is Ok == leb_decodable(b@, off as int),
        r matches Ok(vw) ==> {
            &&& leb_width(b@, off as int) == Some(vw.1 as int)
            &&& 1 <= vw.1 <= 10
            &&& off + vw.1 <= b@.len()
            &&& vw.0 as nat == leb_value(b@.subrange(off as int, off + vw.1))
        },
        r matches Err(e) ==> e == MrfError::MalformedStream,
{
    proof {
        lemma_pow128_values();
    }
    let n = b.len();
    let mut k: usize = 0;
    let mut acc: u64 = 0;
    let mut p: u64 = 1;
    while k < 10
        invariant
            n == b@.len(),
            off <= b@.len(),
            off + k <= b@.len(),
            k <= 9,
            forall|j: int| off <= j < off + k ==> b@[j] >= 128,
            p as nat == pow128(k as nat),
            acc as nat == leb_value(b@.subrange(off as int, off + k)),
            acc < p,
            pow128(7) == 0x2_0000_0000_0000,
            pow128(8) == 0x100_0000_0000_0000,
            pow128(9) == 0x8000_0000_0000_0000,
        decreases 10 - k,
    {
        if n - off == k {
            // every byte so far was a continuation byte and the buffer ended
            proof {
                lemma_leb_width_skip(b@, off as int, k as int);
            }
            return Err(MrfError::MalformedStream);
        }
        let byte = b[off + k];
        let low: u64 = (byte % 128) as u64;
        proof {
            lemma_leb_value_snoc(b@.subrange(off as int, off + k), byte);
            assert(b@.subrange(off as int, off + k + 1) =~= b@.subrange(
                off as int,
                off + k,
            ).push(byte));
            assert(low * p == (byte as nat % 128) * pow128(k as nat));
        }
        if byte < 128 {
            // terminating byte: the varint is k + 1 bytes wide
            proof {
                lemma_leb_width_from_shape(b@, off as int, k + 1);
            }
            if k == 9 && byte > 1 {
                // ten bytes whose value needs more than 64 bits
                proof {
                    assert(leb_value(b@.subrange(off as int, off + 10)) >= 2 * pow128(9))
                        by (nonlinear_arith)
                        requires
                            leb_value(b@.subrange(off as int, off + 10)) == leb_value(
                                b@.subrange(off as int, off + 9),
                            ) + (byte as nat % 128) * pow128(9),
                            byte as nat % 128 >= 2,
                    ;
                }
                return Err(MrfError::MalformedStream);
            }
            proof {
                if k < 9 {
                    lemma_pow128_mono(k as nat, 8);
                    assert(low * p <= 127 * 0x100_0000_0000_0000) by (nonlinear_arith)
                        requires
                            low < 128,
                            p <= 0x100_0000_0000_0000,
                    ;
                } else {
                    assert(low * p <= 0x8000_0000_0000_0000) by (nonlinear_arith)
                        requires
                            low <= 1,
                            p <= 0x8000_0000_0000_0000,
                    ;
                }
            }
            let val = acc + low * p;
            return Ok((val, k + 1));
        }
        // continuation byte
        if k == 9 {
            // ten continuation bytes: no terminator within the maximum width
            proof {
                lemma_leb_width_skip(b@, off as int, 10);
                if leb_width(b@, off as int) is Some {
                    lemma_leb_width_shape(b@, (off + 10) as int, leb_width(
                        b@,
                        (off + 10) as int,
                    )->Some_0);
                }
            }
            return Err(MrfError::MalformedStream);
        }
        proof {
            lemma_pow128_mono(k as nat, 8);
            assert(low * p <= 127 * 0x100_0000_0000_0000) by (nonlinear_arith)
                requires
                    low < 128,
                    p <= 0x100_0000_0000_0000,
            ;
            assert(acc + low * p < 128 * (p as nat)) by (nonlinear_arith)
                requires
                    acc < p,
                    low < 128,
                    (acc as nat) + (low as nat) * (p as nat) == acc + low * p,
            ;
        }
        acc = acc + low * p;
        p = p * 128;
        k = k + 1;
    }
    proof {
        assert(false);
    }
    Err(MrfError::MalformedStream)
}

} // verus!
