//! Bit-level model of a packed field: the bits of a byte buffer are numbered
//! from the most significant bit of byte 0, and a field is a run of bits
//! whose value is read most significant bit first.

use vstd::prelude::*;

verus! {

/// Two to the power `k`.
pub open spec fn p2(k: nat) -> nat
    decreases k,
{
    if k == 0 {
        1
    } else {
        2 * p2((k - 1) as nat)
    }
}

/// Bit `p` (0 is the most significant) of the byte `b`.
pub open spec fn bit_of(b: u8, p: int) -> u8 {
    (b >> ((7 - p) as u8)) & 1u8
}

/// Bit `i` of the buffer `d`.
pub open spec fn bit(d: Seq<u8>, i: int) -> u8 {
    bit_of(d[i / 8], i % 8)
}

/// The number read from the bits `lo .. hi` of `d`, most significant first.
pub open spec fn window(d: Seq<u8>, lo: int, hi: int) -> nat
    decreases hi - lo,
{
    if hi <= lo {
        0
    } else {
        2 * window(d, lo, hi - 1) + bit(d, hi - 1) as nat
    }
}

/// The number written by a sequence of bytes, most significant byte first.
pub open spec fn be_value(s: Seq<u8>) -> nat
    decreases s.len(),
{
    if s.len() == 0 {
        0
    } else {
        be_value(s.drop_last()) * 256 + s.last() as nat
    }
}

pub proof fn lemma_p2_8()
    ensures
        p2(8) == 256,
        p2(1) == 2,
        p2(0) == 1,
{
    reveal_with_fuel(p2, 9);
}

pub proof fn lemma_p2_add(a: nat, b: nat)
    ensures
        p2(a + b) == p2(a) * p2(b),
    decreases b,
{
    if b == 0 {
        assert(p2(0) == 1);
        assert(a + b == a);
    } else {
        let b1 = (b - 1) as nat;
        lemma_p2_add(a, b1);
        assert(a + b == (a + b1) + 1);
        assert(p2(a + b) == 2 * p2(a + b1));
        assert(p2(b) == 2 * p2(b1));
        let x = p2(a);
        let y = p2(b1);
        assert(x * (2 * y) == 2 * (x * y)) by (nonlinear_arith);
    }
}

pub proof fn lemma_bit_index(d: Seq<u8>, a: int, p: int)
    requires
        0 <= p < 8,
    ensures
        bit(d, 8 * a + p) == bit_of(d[a], p),
{
    assert((8 * a + p) / 8 == a) by (nonlinear_arith)
        requires
            0 <= p < 8,
    ;
    assert((8 * a + p) % 8 == p) by (nonlinear_arith)
        requires
            0 <= p < 8,
    ;
}

pub proof fn lemma_bit_le_1(d: Seq<u8>, i: int)
    ensures
        bit(d, i) <= 1,
{
    let b = d[i / 8];
    let sh = (7 - i % 8) as u8;
    assert((b >> sh) & 1u8 <= 1) by (bit_vector);
}

/// A window of `k` bits is below `2^k`.
pub proof fn lemma_window_bound(d: Seq<u8>, lo: int, hi: int)
    requires
        lo <= hi,
    ensures
        window(d, lo, hi) < p2((hi - lo) as nat),
    decreases hi - lo,
{
    if hi > lo {
        lemma_window_bound(d, lo, hi - 1);
        lemma_bit_le_1(d, hi - 1);
    }
}

/// Splitting a window at `mid`.
pub proof fn lemma_window_concat(d: Seq<u8>, lo: int, mid: int, hi: int)
    requires
        lo <= mid <= hi,
    ensures
        window(d, lo, hi) == window(d, lo, mid) * p2((hi - mid) as nat) + window(d, mid, hi),
    decreases hi - mid,
{
    if hi == mid {
        assert(p2(0) == 1);
        let a = window(d, lo, mid);
        assert(a * 1 == a);
    } else {
        lemma_window_concat(d, lo, mid, hi - 1);
        let k = (hi - 1 - mid) as nat;
        assert(p2((hi - mid) as nat) == 2 * p2(k));
        let a = window(d, lo, mid);
        let w = window(d, mid, hi - 1);
        let bt = bit(d, hi - 1) as nat;
        assert(window(d, lo, hi) == 2 * window(d, lo, hi - 1) + bt);
        assert(window(d, mid, hi) == 2 * w + bt);
        assert(a * (2 * p2(k)) == 2 * (a * p2(k))) by (nonlinear_arith);
    }
}

proof fn lemma_byte_step(b: u8, sh: u8, k: u8)
    requires
        1 <= k,
        sh + k <= 7,
    ensures
        ((b >> sh) & (0xFFu8 >> ((7 - k) as u8))) as nat == 2 * (((b >> ((sh + 1) as u8)) & (
        0xFFu8 >> ((8 - k) as u8))) as nat) + (((b >> sh) & 1u8) as nat),
{
    assert(((b >> sh) & (0xFFu8 >> ((7 - k) as u8))) == 2 * ((b >> ((sh + 1) as u8)) & (0xFFu8
        >> ((8 - k) as u8))) + ((b >> sh) & 1u8)) by (bit_vector)
        requires
            1 <= k,
            sh + k <= 7,
    ;
}

/// The bits `x .. y` of byte `a`, as byte operations.
pub proof fn lemma_window_in_byte(d: Seq<u8>, a: int, x: int, y: int)
    requires
        0 <= x < y <= 8,
    ensures
        window(d, 8 * a + x, 8 * a + y) == ((d[a] >> ((8 - y) as u8)) & (0xFFu8 >> ((8 - (y
            - x)) as u8))) as nat,
    decreases y - x,
{
    let b = d[a];
    lemma_bit_index(d, a, y - 1);
    if y == x + 1 {
        assert(window(d, 8 * a + x, 8 * a + x) == 0);
        assert((b >> ((7 - x) as u8)) & 1u8 == (b >> ((7 - x) as u8)) & (0xFFu8 >> 7u8))
            by (bit_vector);
    } else {
        lemma_window_in_byte(d, a, x, y - 1);
        lemma_byte_step(b, (8 - y) as u8, (y - x - 1) as u8);
    }
}

/// A window that crosses from byte `b - 1` into byte `b` at bit `e`.
pub proof fn lemma_window_straddle(d: Seq<u8>, b: int, e: u8)
    requires
        1 <= e <= 7,
    ensures
        window(d, 8 * (b - 1) + e, 8 * b + e) == (((d[b - 1] & (0xFFu8 >> e)) << e) | ((d[b]
            & (0xFFu8 << ((8 - e) as u8))) >> ((8 - e) as u8))) as nat,
{
    let lo = 8 * (b - 1) + e;
    lemma_window_concat(d, lo, 8 * b, 8 * b + e);
    lemma_window_in_byte(d, b - 1, e as int, 8);
    lemma_window_in_byte(d, b, 0, e as int);
    assert(8 * (b - 1) + 8 == 8 * b);
    let x = d[b - 1];
    let y = d[b];
    assert(p2(e as nat) == (1u16 << e) as nat) by {
        lemma_p2_small(e);
    }
    assert((((x & (0xFFu8 >> e)) << e) | ((y & (0xFFu8 << ((8 - e) as u8))) >> ((8 - e) as u8)))
        as u16 == ((x >> 0u8) & (0xFFu8 >> e)) as u16 * (1u16 << e) + ((y >> ((8 - e) as u8)) & (
    0xFFu8 >> ((8 - e) as u8))) as u16) by (bit_vector)
        requires
            1 <= e <= 7,
    ;
}

pub proof fn lemma_p2_small(e: u8)
    requires
        e <= 8,
    ensures
        p2(e as nat) == (1u16 << e) as nat,
{
    reveal_with_fuel(p2, 9);
    assert(1u16 << 0u8 == 1u16) by (bit_vector);
    assert(1u16 << 1u8 == 2u16) by (bit_vector);
    assert(1u16 << 2u8 == 4u16) by (bit_vector);
    assert(1u16 << 3u8 == 8u16) by (bit_vector);
    assert(1u16 << 4u8 == 16u16) by (bit_vector);
    assert(1u16 << 5u8 == 32u16) by (bit_vector);
    assert(1u16 << 6u8 == 64u16) by (bit_vector);
    assert(1u16 << 7u8 == 128u16) by (bit_vector);
    assert(1u16 << 8u8 == 256u16) by (bit_vector);
}


/// A run of byte-sized windows read after a leading partial window.
pub proof fn lemma_be_windows(d: Seq<u8>, arr: Seq<u8>, rs: int, fe: int)
    requires
        arr.len() >= 1,
        rs <= fe,
        arr[0] as nat == window(d, rs, fe),
        forall|k: int| 1 <= k < arr.len() ==> #[trigger] arr[k] as nat == window(d, fe + 8 * (k - 1), fe + 8 * k),
    ensures
        be_value(arr) == window(d, rs, fe + 8 * (arr.len() - 1)),
    decreases arr.len(),
{
    let n = arr.len() as int;
    if n == 1 {
        assert(arr.drop_last().len() == 0);
        assert(be_value(arr) == be_value(arr.drop_last()) * 256 + arr.last() as nat);
    } else {
        let pre = arr.drop_last();
        assert forall|k: int| 1 <= k < pre.len() implies #[trigger] pre[k] as nat == window(d, fe + 8 * (k - 1), fe + 8 * k) by {
            assert(pre[k] == arr[k]);
        }
        lemma_be_windows(d, pre, rs, fe);
        let mid = fe + 8 * (n - 2);
        lemma_window_concat(d, rs, mid, mid + 8);
        lemma_p2_8();
        assert(arr[n - 1] as nat == window(d, fe + 8 * (n - 2), fe + 8 * (n - 1)));
    }
}

pub proof fn lemma_be_value_bound(s: Seq<u8>)
    ensures
        be_value(s) < p2((8 * s.len()) as nat),
    decreases s.len(),
{
    if s.len() > 0 {
        lemma_be_value_bound(s.drop_last());
        let k = (8 * (s.len() - 1)) as nat;
        lemma_p2_add(k, 8);
        lemma_p2_8();
        assert(8 * s.len() == k + 8);
        let v = be_value(s.drop_last());
        assert(v * 256 + s.last() < p2(k) * 256) by (nonlinear_arith)
            requires
                v < p2(k),
                s.last() < 256,
        ;
    }
}

pub proof fn lemma_p2_64()
    ensures
        p2(64) == 0x1_0000_0000_0000_0000,
{
    lemma_p2_8();
    lemma_p2_add(8, 8);
    assert(p2(16) == 65536);
    lemma_p2_add(16, 16);
    assert(p2(32) == 0x1_0000_0000);
    lemma_p2_add(32, 32);
}

/// The number that a sequence of at most 8 bytes writes, most significant first.
pub fn u64_from_be(bytes: &[u8]) -> (r: u64)
    requires
        bytes@.len() <= 8,
    ensures
        r as nat == be_value(bytes@),
{
    let mut r: u64 = 0;
    let mut i: usize = 0;
    proof {
        assert(bytes@.take(0) =~= Seq::<u8>::empty());
    }
    while i < bytes.len()
        invariant
            i <= bytes@.len() <= 8,
            r as nat == be_value(bytes@.take(i as int)),
        decreases bytes@.len() - i,
    {
        proof {
            let t = bytes@.take(i as int);
            lemma_be_value_bound(t);
            lemma_p2_add((8 * i) as nat, (64 - 8 * i) as nat);
            lemma_p2_add((8 * i) as nat, 8);
            lemma_p2_8();
            lemma_p2_64();
            lemma_p2_pos((64 - 8 * i - 8) as nat);
            lemma_p2_add((8 * i + 8) as nat, (64 - 8 * i - 8) as nat);
            assert(bytes@.take(i + 1).drop_last() =~= t);
            assert(r * 256 + 255 < 0x1_0000_0000_0000_0000) by (nonlinear_arith)
                requires
                    r < p2((8 * i) as nat),
                    p2((8 * i) as nat) * 256 == p2((8 * i + 8) as nat),
                    p2((8 * i + 8) as nat) * p2((64 - 8 * i - 8) as nat) == 0x1_0000_0000_0000_0000,
                    p2((64 - 8 * i - 8) as nat) >= 1,
            ;
        }
        r = r * 256 + bytes[i] as u64;
        i = i + 1;
    }
    proof {
        assert(bytes@.take(i as int) =~= bytes@);
    }
    r
}

pub proof fn lemma_p2_128()
    ensures
        p2(128) == 0x1_0000_0000_0000_0000_0000_0000_0000_0000,
{
    lemma_p2_64();
    lemma_p2_add(64, 64);
}

/// The number that a sequence of at most 16 bytes writes, most significant first.
pub fn u128_from_be(bytes: &[u8]) -> (r: u128)
    requires
        bytes@.len() <= 16,
    ensures
        r as nat == be_value(bytes@),
{
    let mut r: u128 = 0;
    let mut i: usize = 0;
    proof {
        assert(bytes@.take(0) =~= Seq::<u8>::empty());
    }
    while i < bytes.len()
        invariant
            i <= bytes@.len() <= 16,
            r as nat == be_value(bytes@.take(i as int)),
        decreases bytes@.len() - i,
    {
        proof {
            let t = bytes@.take(i as int);
            lemma_be_value_bound(t);
            lemma_p2_add((8 * i) as nat, 8);
            lemma_p2_8();
            lemma_p2_128();
            lemma_p2_pos((128 - 8 * i - 8) as nat);
            lemma_p2_add((8 * i + 8) as nat, (128 - 8 * i - 8) as nat);
            assert(bytes@.take(i + 1).drop_last() =~= t);
            assert(r * 256 + 255 < 0x1_0000_0000_0000_0000_0000_0000_0000_0000) by (nonlinear_arith)
                requires
                    r < p2((8 * i) as nat),
                    p2((8 * i) as nat) * 256 == p2((8 * i + 8) as nat),
                    p2((8 * i + 8) as nat) * p2((128 - 8 * i - 8) as nat) == 0x1_0000_0000_0000_0000_0000_0000_0000_0000,
                    p2((128 - 8 * i - 8) as nat) >= 1,
            ;
        }
        r = r * 256 + bytes[i] as u128;
        i = i + 1;
    }
    proof {
        assert(bytes@.take(i as int) =~= bytes@);
    }
    r
}

pub proof fn lemma_p2_pos(k: nat)
    ensures
        p2(k) >= 1,
    decreases k,
{
    if k > 0 {
        lemma_p2_pos((k - 1) as nat);
    }
}


/// A field whose last byte is partial, that spans several bytes, and whose
/// last byte holds fewer of its bits than its first byte leaves out.
pub open spec fn spills(prev: int, bits: int) -> bool {
    let last = prev + bits;
    &&& last % 8 != 0
    &&& prev / 8 != last / 8
    &&& last % 8 < prev % 8
}

/// The number of bytes that hold a value of `bits` bits.
pub open spec fn byte_len(bits: int) -> int {
    (bits + 7) / 8
}

/// The first bit that the getter of a field reads: the field's own first bit,
/// or, for a field that `spills`, the bit `8 * byte_len(bits)` before its end.
pub open spec fn read_start(prev: int, bits: int) -> int {
    if spills(prev, bits) {
        prev + bits - 8 * byte_len(bits)
    } else {
        prev
    }
}

/// How a field of `bits` bits at bit `prev` lies over the bytes.
pub proof fn lemma_geometry(prev: int, bits: int)
    requires
        prev >= 0,
        bits >= 1,
    ensures
        prev == 8 * (prev / 8) + prev % 8,
        0 <= prev % 8 < 8,
        prev + bits == 8 * ((prev + bits) / 8) + (prev + bits) % 8,
        0 <= (prev + bits) % 8 < 8,
        prev / 8 <= (prev + bits) / 8,
        prev / 8 == (prev + bits) / 8 ==> byte_len(bits) == 1 && prev % 8 < (prev + bits) % 8,
        (prev + bits) % 8 == 0 && prev / 8 != (prev + bits) / 8 ==> byte_len(bits) == (prev + bits) / 8 - prev / 8,
        (prev + bits) % 8 != 0 && prev % 8 < (prev + bits) % 8 ==> byte_len(bits) == (prev + bits) / 8 - prev / 8 + 1,
        (prev + bits) % 8 != 0 && prev / 8 != (prev + bits) / 8 && (prev + bits) % 8 <= prev % 8 ==> byte_len(bits) == (prev + bits) / 8 - prev / 8,
{
    let sb = prev / 8;
    let s = prev % 8;
    let eb = (prev + bits) / 8;
    let e = (prev + bits) % 8;
    let n = (bits + 7) / 8;
    assert(prev == 8 * sb + s && 0 <= s < 8) by (nonlinear_arith)
        requires sb == prev / 8, s == prev % 8, prev >= 0;
    assert(prev + bits == 8 * eb + e && 0 <= e < 8) by (nonlinear_arith)
        requires eb == (prev + bits) / 8, e == (prev + bits) % 8, prev + bits >= 0;
    assert(bits + 7 == 8 * n + (bits + 7) % 8 && 0 <= (bits + 7) % 8 < 8) by (nonlinear_arith)
        requires n == (bits + 7) / 8, bits >= 0;
    // bits == 8 * (eb - sb) + e - s, and n is the least k with 8 * k >= bits
    assert(8 * n >= bits && 8 * n < bits + 8);
    assert(eb >= sb) by (nonlinear_arith)
        requires prev + bits == 8 * eb + e, prev == 8 * sb + s, 0 <= s < 8, 0 <= e < 8, bits >= 1;
}

/// Reads the field of `bits` bits that starts at bit `prev` of `data`, as the
/// getter that `#[bitfield]` writes for it does.
#[verifier::spinoff_prover]
#[verifier::rlimit(40)]
pub fn field_get(data: &[u8], prev: usize, bits: usize) -> (r: u64)
    requires
        1 <= bits <= 64,
        prev + bits <= usize::MAX,
        prev + bits <= 8 * data@.len(),
    ensures
        r as nat == window(data@, read_start(prev as int, bits as int), prev + bits),
{
    let ghost d = data@;
    let start_bytes = prev / 8;
    let start_bits = prev % 8;
    let last_bits = prev + bits;
    let end_bytes = last_bits / 8;
    let end_bits = last_bits % 8;
    let n = (bits + 7) / 8;
    let mut arr: Vec<u8> = vec![0u8; n];
    proof {
        lemma_geometry(prev as int, bits as int);
    }
    if start_bytes == end_bytes {
        let start_mask: u8 = 0xFFu8 >> (start_bits as u8);
        let end_mask: u8 = 0xFFu8 << ((8 - end_bits) as u8);
        let x = data[start_bytes];
        let v = (x & start_mask & end_mask) >> ((8 - end_bits) as u8);
        proof {
            let s8 = start_bits as u8;
            let e8 = end_bits as u8;
            assert(prev == 8 * start_bytes + start_bits);
            assert(last_bits == 8 * start_bytes + end_bits);
            lemma_window_in_byte(d, start_bytes as int, start_bits as int, end_bits as int);
            assert((x & (0xFFu8 >> s8) & (0xFFu8 << ((8 - e8) as u8))) >> ((8 - e8) as u8) == (x
                >> ((8 - e8) as u8)) & (0xFFu8 >> ((8 - (e8 - s8)) as u8))) by (bit_vector)
                requires
                    s8 < e8 <= 7,
            ;
        }
        arr[0] = v;
        proof {
            assert(arr@ =~= seq![v]);
            assert(arr@.drop_last() =~= Seq::<u8>::empty());
            assert(be_value(arr@) == be_value(arr@.drop_last()) * 256 + v as nat);
        }
        return u64_from_be(arr.as_slice());
    }
    if end_bits == 0 {
        let start_mask: u8 = 0xFFu8 >> (start_bits as u8);
        let x = data[start_bytes];
        arr[0] = x & start_mask;
        proof {
            lemma_window_in_byte(d, start_bytes as int, start_bits as int, 8);
            let s8 = start_bits as u8;
            assert(x & (0xFFu8 >> s8) == (x >> 0u8) & (0xFFu8 >> ((8 - (8 - s8)) as u8)))
                by (bit_vector)
                requires
                    s8 < 8,
            ;
        }
        let mut k: usize = 1;
        while k < end_bytes - start_bytes
            invariant
                1 <= k <= end_bytes - start_bytes,
                end_bytes - start_bytes == n,
                arr@.len() == n,
                8 * end_bytes <= 8 * d.len(),
                data@ == d,
                arr@[0] as nat == window(d, prev as int, 8 * start_bytes + 8),
                forall|j: int|
                    1 <= j < k ==> #[trigger] arr@[j] as nat == window(
                        d,
                        8 * start_bytes + 8 + 8 * (j - 1),
                        8 * start_bytes + 8 + 8 * j,
                    ),
            decreases end_bytes - start_bytes - k,
        {
            let y = data[start_bytes + k];
            proof {
                lemma_window_in_byte(d, (start_bytes + k) as int, 0, 8);
                assert(y >> 0u8 == y & (0xFFu8 >> 0u8)) by (bit_vector);
                assert((y >> 0u8) & (0xFFu8 >> 0u8) == y) by (bit_vector);
            }
            arr[k] = y;
            k = k + 1;
        }
        proof {
            lemma_be_windows(d, arr@, prev as int, 8 * start_bytes + 8);
        }
        return u64_from_be(arr.as_slice());
    }
    let offset = (end_bytes - start_bytes + 1) - n;
    proof {
        assert(offset == 0 || offset == 1);
        assert(offset == 1 <==> end_bits <= start_bits);
    }
    if offset == 0 {
        let start_mask: u8 = (0xFFu8 >> (start_bits as u8)) & (0xFFu8 << ((8 - end_bits) as u8));
        let x = data[start_bytes];
        arr[0] = (x & start_mask) >> ((8 - end_bits) as u8);
        proof {
            lemma_window_in_byte(d, start_bytes as int, start_bits as int, end_bits as int);
            let s8 = start_bits as u8;
            let e8 = end_bits as u8;
            assert((x & ((0xFFu8 >> s8) & (0xFFu8 << ((8 - e8) as u8)))) >> ((8 - e8) as u8) == (x
                >> ((8 - e8) as u8)) & (0xFFu8 >> ((8 - (e8 - s8)) as u8))) by (bit_vector)
                requires
                    s8 < e8 <= 7,
            ;
        }
    }
    let e8 = end_bits as u8;
    let a_mask: u8 = 0xFFu8 >> e8;
    let b_mask: u8 = 0xFFu8 << (8 - e8);
    let mut byte = start_bytes + 1;
    while byte <= end_bytes
        invariant
            start_bytes + 1 <= byte <= end_bytes + 1,
            end_bytes < d.len(),
            data@ == d,
            arr@.len() == n,
            n == end_bytes - start_bytes + 1 - offset,
            offset == 0 || offset == 1,
            1 <= e8 <= 7,
            e8 == end_bits,
            a_mask == 0xFFu8 >> e8,
            b_mask == 0xFFu8 << ((8 - e8) as u8),
            offset == 0 ==> arr@[0] as nat == window(d, prev as int, 8 * start_bytes + e8),
            forall|j: int|
                start_bytes + 1 <= j < byte ==> #[trigger] arr@[j - start_bytes - offset] as nat
                    == window(d, 8 * (j - 1) + e8, 8 * j + e8),
        decreases end_bytes + 1 - byte,
    {
        let x = data[byte - 1];
        let y = data[byte];
        let v = ((x & a_mask) << e8) | ((y & b_mask) >> (8 - e8));
        proof {
            lemma_window_straddle(d, byte as int, e8);
        }
        arr[byte - start_bytes - offset] = v;
        byte = byte + 1;
    }
    proof {
        if offset == 0 {
            assert forall|k: int| 1 <= k < arr@.len() implies #[trigger] arr@[k] as nat == window(
                d,
                8 * start_bytes + e8 + 8 * (k - 1),
                8 * start_bytes + e8 + 8 * k,
            ) by {
                let j = k + start_bytes;
                assert(arr@[j - start_bytes - offset] as nat == window(d, 8 * (j - 1) + e8, 8 * j + e8));
            }
            lemma_be_windows(d, arr@, prev as int, 8 * start_bytes + e8);
        } else {
            let fe = 8 * start_bytes + e8 + 8;
            assert forall|k: int| 1 <= k < arr@.len() implies #[trigger] arr@[k] as nat == window(
                d,
                fe + 8 * (k - 1),
                fe + 8 * k,
            ) by {
                let j = k + start_bytes + 1;
                assert(arr@[j - start_bytes - offset] as nat == window(d, 8 * (j - 1) + e8, 8 * j + e8));
            }
            let j0 = start_bytes + 1;
            assert(arr@[j0 - start_bytes - offset] as nat == window(d, 8 * (j0 - 1) + e8, 8 * j0 + e8));
            lemma_be_windows(d, arr@, fe - 8, fe);
        }
    }
    u64_from_be(arr.as_slice())
}


/// Bit `j` (0 is the least significant) of `v`.
pub open spec fn vbit(v: u64, j: int) -> u8 {
    ((v >> (j as u64)) & 1u64) as u8
}

/// A field that starts on a byte boundary, spans several bytes and ends inside
/// a byte: its setter ORs the new bits of its first byte into the old ones.
pub open spec fn ors_top(prev: int, bits: int) -> bool {
    let last = prev + bits;
    &&& prev % 8 == 0
    &&& last % 8 != 0
    &&& prev / 8 != last / 8
}

/// A field that ends on a byte boundary and spans at least two bytes after the
/// one it starts in: its setter clears the bits before it in its first byte.
pub open spec fn zero_lead(prev: int, bits: int) -> bool {
    let last = prev + bits;
    &&& last % 8 == 0
    &&& last / 8 >= prev / 8 + 2
}

/// Bit `i` of the buffer after the setter of the field of `bits` bits at bit
/// `prev` wrote the value `v` into the buffer `d`.
pub open spec fn written_bit(d: Seq<u8>, prev: int, bits: int, v: u64, i: int) -> u8 {
    let last = prev + bits;
    if prev <= i < last {
        if ors_top(prev, bits) && i < 8 * (prev / 8) + last % 8 {
            bit(d, i) | vbit(v, last - 1 - i)
        } else {
            vbit(v, last - 1 - i)
        }
    } else if zero_lead(prev, bits) && 8 * (prev / 8) <= i < prev {
        0
    } else if spills(prev, bits) && read_start(prev, bits) <= i < prev {
        vbit(v, last - 1 - i)
    } else {
        bit(d, i)
    }
}

proof fn lemma_arr_bit(v: u64, m: u64, j: u64)
    requires
        m <= 7,
        j < 8,
    ensures
        ((((v >> (8 * m)) & 0xFFu64) as u8 >> (j as u8)) & 1u8) == vbit(v, 8 * m + j),
{
    assert(((((v >> (8 * m)) & 0xFFu64) as u8 >> (j as u8)) & 1u8) == ((v >> (8 * m + j)) & 1u64) as u8)
        by (bit_vector)
        requires
            m <= 7,
            j < 8,
    ;
}

/// Bit `p` of a byte that keeps the bits before `e` and takes the rest from
/// the high bits of `y`.
proof fn lemma_hi_part(x: u8, y: u8, e: u8, p: u8)
    requires
        1 <= e <= 7,
        p < 8,
    ensures
        bit_of((x & (0xFFu8 << ((8 - e) as u8))) | ((y & (0xFFu8 << e)) >> e), p as int) == if p < e {
            bit_of(x, p as int)
        } else {
            (y >> ((7 - p + e) as u8)) & 1u8
        },
{
    assert(((((x & (0xFFu8 << ((8 - e) as u8))) | ((y & (0xFFu8 << e)) >> e)) >> ((7 - p) as u8)) & 1u8) == if p < e {
            (x >> ((7 - p) as u8)) & 1u8
        } else {
            (y >> ((7 - p + e) as u8)) & 1u8
        }) by (bit_vector)
        requires
            1 <= e <= 7,
            p < 8,
    ;
}

/// Bit `p` of a byte whose bits before `e` come from the low bits of `y` and
/// whose other bits are kept.
proof fn lemma_lo_part(x: u8, y: u8, e: u8, p: u8)
    requires
        1 <= e <= 7,
        p < 8,
    ensures
        bit_of((x & ((0xFFu8 << ((8 - e) as u8)) ^ 0xFFu8)) | ((y & ((0xFFu8 << e) ^ 0xFFu8)) << ((8 - e) as u8)), p as int) == if p < e {
            (y >> ((e - 1 - p) as u8)) & 1u8
        } else {
            bit_of(x, p as int)
        },
{
    assert(((((x & ((0xFFu8 << ((8 - e) as u8)) ^ 0xFFu8)) | ((y & ((0xFFu8 << e) ^ 0xFFu8)) << ((8 - e) as u8))) >> ((7 - p) as u8)) & 1u8) == if p < e {
            (y >> ((e - 1 - p) as u8)) & 1u8
        } else {
            (x >> ((7 - p) as u8)) & 1u8
        }) by (bit_vector)
        requires
            1 <= e <= 7,
            p < 8,
    ;
}

/// Bit `p` of the first byte of a field after the first step of the general
/// case of its setter.
proof fn lemma_first_part(x: u8, y: u8, s: u8, e: u8, p: u8)
    requires
        s < e <= 7,
        p < e,
    ensures
        bit_of((x & (if s == 0 { 0xFFu8 } else { 0xFFu8 << ((8 - s) as u8) })) | ((y & (0xFFu8 >> ((8 - e + s) as u8))) << ((8 - e) as u8)), p as int) == if p < s {
            bit_of(x, p as int)
        } else if s == 0 {
            bit_of(x, p as int) | ((y >> ((e - 1 - p) as u8)) & 1u8)
        } else {
            (y >> ((e - 1 - p) as u8)) & 1u8
        },
{
    assert(((((x & (if s == 0 { 0xFFu8 } else { 0xFFu8 << ((8 - s) as u8) })) | ((y & (0xFFu8 >> ((8 - e + s) as u8))) << ((8 - e) as u8))) >> ((7 - p) as u8)) & 1u8) == if p < s {
            (x >> ((7 - p) as u8)) & 1u8
        } else if s == 0 {
            ((x >> ((7 - p) as u8)) & 1u8) | ((y >> ((e - 1 - p) as u8)) & 1u8)
        } else {
            (y >> ((e - 1 - p) as u8)) & 1u8
        }) by (bit_vector)
        requires
            s < e <= 7,
            p < e,
    ;
}

/// Bit `p` of the byte written by the one-byte case of the setter, whose field
/// holds the bits `s .. e` of the byte (`e` may be 8).
proof fn lemma_single_part(x: u8, y: u8, s: u8, e: u8, p: u8)
    requires
        s < e <= 8,
        p < 8,
    ensures
        ({
            let mask = (0xFFu8 >> s) & (0xFFu8 << ((8 - e) as u8));
            bit_of((x & (mask ^ 0xFFu8)) | ((y & (mask >> ((8 - e) as u8))) << ((8 - e) as u8)), p as int)
        }) == if s <= p < e {
            (y >> ((e - 1 - p) as u8)) & 1u8
        } else {
            bit_of(x, p as int)
        },
{
    let mask = (0xFFu8 >> s) & (0xFFu8 << ((8 - e) as u8));
    assert(((((x & (((0xFFu8 >> s) & (0xFFu8 << ((8 - e) as u8))) ^ 0xFFu8)) | ((y & (((0xFFu8 >> s) & (0xFFu8 << ((8 - e) as u8))) >> ((8 - e) as u8))) << ((8 - e) as u8))) >> ((7 - p) as u8)) & 1u8) == if s <= p && p < e {
            (y >> ((e - 1 - p) as u8)) & 1u8
        } else {
            (x >> ((7 - p) as u8)) & 1u8
        }) by (bit_vector)
        requires
            s < e <= 8,
            p < 8,
    ;
}


/// Byte `k` of the `n` low bytes of `v`, most significant first: the byte
/// `8 (n - 1 - k)` bits up from the bottom of `v`, which is 0 from the
/// seventeenth byte up.
pub open spec fn byte_at(v: u128, n: int, k: int) -> u8 {
    if n - 1 - k >= 16 {
        0
    } else {
        ((v >> ((8 * (n - 1 - k)) as u128)) & 0xFFu128) as u8
    }
}

/// `v` shifted right by `j` bytes: 0 once all 16 bytes are shifted out.
pub open spec fn shifted(v: u128, j: int) -> u128 {
    if j >= 16 {
        0
    } else {
        v >> ((8 * j) as u128)
    }
}

proof fn lemma_shifted_step(v: u128, j: int)
    requires
        j >= 0,
    ensures
        shifted(v, j) >> 8u128 == shifted(v, j + 1),
        ((shifted(v, j) & 0xFFu128) as u8) == byte_at(v, j + 1, 0),
{
    if j < 15 {
        lemma_shift_step_wide(v, j as u128);
    } else if j == 15 {
        assert((v >> 120u128) >> 8u128 == 0u128) by (bit_vector);
    } else {
        assert(0u128 >> 8u128 == 0u128) by (bit_vector);
        assert((0u128 & 0xFFu128) as u8 == 0u8) by (bit_vector);
    }
}

proof fn lemma_shift_step_wide(v: u128, j: u128)
    requires
        j <= 15,
    ensures
        (v >> (8 * j)) >> 8u128 == v >> (8 * j + 8),
{
    assert((v >> (8 * j)) >> 8u128 == v >> (8 * j + 8)) by (bit_vector)
        requires
            j <= 15,
    ;
}

proof fn lemma_byte_of_wide(v: u64, j: u64)
    requires
        j <= 7,
    ensures
        ((((v as u128) >> ((8 * j) as u128)) & 0xFFu128) as u8) == (((v >> (8 * j)) & 0xFFu64) as u8),
{
    assert(((((v as u128) >> ((8 * j) as u128)) & 0xFFu128) as u8) == (((v >> (8 * j)) & 0xFFu64) as u8)) by (bit_vector)
        requires
            j <= 7,
    ;
}

/// The low `N` bytes of `val`, most significant first (0 in the bytes above
/// the sixteenth).
pub fn primitive_into_arr<const N: usize>(val: u128) -> (r: crate::ByteArray<N>)
    ensures
        forall|k: int| 0 <= k < N ==> #[trigger] r.0@[k] == byte_at(val, N as int, k),
{
    let mut arr = [0u8; N];
    let mut v = val;
    let mut i: usize = N;
    proof {
        assert(val >> 0u128 == val) by (bit_vector);
    }
    while i > 0
        invariant
            i <= N,
            v == shifted(val, N - i),
            arr@.len() == N,
            forall|k: int| i <= k < N ==> #[trigger] arr@[k] == byte_at(val, N as int, k),
        decreases i,
    {
        i = i - 1;
        proof {
            lemma_shifted_step(val, N - 1 - i);
            assert(byte_at(val, (N - 1 - i) + 1, 0) == byte_at(val, N as int, i as int));
        }
        arr[i] = (v & 0xFF) as u8;
        v = v >> 8;
    }
    crate::ByteArray(arr)
}

proof fn lemma_bytes_to_bits(old: Seq<u8>, new: Seq<u8>, prev: int, bits: int, v: u64)
    requires
        old.len() == new.len(),
        forall|a: int, p: int|
            0 <= a < new.len() && 0 <= p < 8 ==> #[trigger] bit_of(new[a], p) == written_bit(old, prev, bits, v, 8 * a + p),
    ensures
        forall|i: int| 0 <= i < 8 * new.len() ==> #[trigger] bit(new, i) == written_bit(old, prev, bits, v, i),
{
    assert forall|i: int| 0 <= i < 8 * new.len() implies #[trigger] bit(new, i) == written_bit(old, prev, bits, v, i) by {
        let a = i / 8;
        let p = i % 8;
        assert(i == 8 * a + p && 0 <= p < 8 && 0 <= a < new.len()) by (nonlinear_arith)
            requires a == i / 8, p == i % 8, 0 <= i < 8 * new.len();
        lemma_bit_index(new, a, p);
        assert(bit_of(new[a], p) == written_bit(old, prev, bits, v, 8 * a + p));
    }
}


proof fn lemma_clear_lead(y: u8, s: u8, p: u8)
    requires
        s < 8,
        p < 8,
    ensures
        bit_of(y & (0xFFu8 >> s), p as int) == if p < s { 0u8 } else { bit_of(y, p as int) },
{
    assert((((y & (0xFFu8 >> s)) >> ((7 - p) as u8)) & 1u8) == if p < s { 0u8 } else { (y >> ((7 - p) as u8)) & 1u8 })
        by (bit_vector)
        requires
            s < 8,
            p < 8,
    ;
}

/// Writes `val` into the field of `bits` bits that starts at bit `prev` of
/// `data`, as the setter that `#[bitfield]` writes for it does.
pub fn field_set(data: &mut [u8], prev: usize, bits: usize, val: u64)
    requires
        1 <= bits <= 64,
        prev + bits <= usize::MAX,
        prev + bits <= 8 * old(data)@.len(),
    ensures
        final(data)@.len() == old(data)@.len(),
        forall|i: int|
            0 <= i < 8 * old(data)@.len() ==> #[trigger] bit(final(data)@, i) == written_bit(
                old(data)@,
                prev as int,
                bits as int,
                val,
                i,
            ),
{
    let ghost d = data@;
    let ghost ip = prev as int;
    let ghost ib = bits as int;
    let start_bytes = prev / 8;
    let start_bits = prev % 8;
    let last_bits = prev + bits;
    let end_bytes = last_bits / 8;
    let end_bits = last_bits % 8;
    let n = (bits + 7) / 8;
    proof {
        lemma_geometry(prev as int, bits as int);
    }
    let full = primitive_into_arr::<8>(val as u128).0;
    let base = 8 - n;
    proof {
        assert forall|k: int| 0 <= k < n implies #[trigger] full@[base + k] == ((val >> ((8 * (n - 1 - k)) as u64)) & 0xFFu64) as u8 by {
            assert(full@[base + k] == byte_at(val as u128, 8, base + k));
            assert(8 * (8 - 1 - (base + k)) == 8 * (n - 1 - k));
            lemma_byte_of_wide(val, (n - 1 - k) as u64);
        }
    }
    if start_bytes == end_bytes || (start_bytes + 1 == end_bytes && end_bits == 0) {
        let ee: u8 = if end_bits == 0 { 8 } else { end_bits as u8 };
        let s8 = start_bits as u8;
        let mask: u8 = (0xFFu8 >> s8) & (0xFFu8 << (8 - ee));
        let inv_mask: u8 = mask ^ 0xFF;
        let arr_mask: u8 = mask >> (8 - ee);
        let shift: u8 = 8 - ee;
        let x = data[start_bytes];
        let y = full[base];
        data[start_bytes] = (x & inv_mask) | ((y & arr_mask) << shift);
        proof {
            assert(n == 1);
            assert(last_bits == 8 * start_bytes + ee);
            assert forall|a: int, p: int|
                0 <= a < data@.len() && 0 <= p < 8 implies #[trigger] bit_of(data@[a], p) == written_bit(d, ip, ib, val, 8 * a + p) by {
                lemma_bit_index(d, a, p);
                if a == start_bytes {
                    lemma_single_part(x, y, s8, ee, p as u8);
                    if s8 <= p < ee {
                        lemma_arr_bit(val, 0, (ee - 1 - p) as u64);
                    }
                }
            }
            lemma_bytes_to_bits(d, data@, ip, ib, val);
        }
        return;
    }
    if end_bits == 0 {
        let s8 = start_bits as u8;
        let start_mask: u8 = 0xFFu8 >> s8;
        let y0 = full[base];
        data[start_bytes] = y0 & start_mask;
        let mut k: usize = 1;
        while k < end_bytes - start_bytes
            invariant
                1 <= k <= end_bytes - start_bytes,
                n == end_bytes - start_bytes,
                base == 8 - n,
                end_bytes <= d.len(),
                data@.len() == d.len(),
                full@.len() == 8,
                data@[start_bytes as int] == y0 & start_mask,
                forall|j: int| start_bytes < j < start_bytes + k ==> #[trigger] data@[j] == full@[base + j - start_bytes],
                forall|j: int| 0 <= j < d.len() && (j < start_bytes || j >= start_bytes + k) ==> #[trigger] data@[j] == d[j],
            decreases end_bytes - start_bytes - k,
        {
            data[start_bytes + k] = full[base + k];
            k = k + 1;
        }
        proof {
            assert forall|a: int, p: int|
                0 <= a < data@.len() && 0 <= p < 8 implies #[trigger] bit_of(data@[a], p) == written_bit(d, ip, ib, val, 8 * a + p) by {
                lemma_bit_index(d, a, p);
                if a == start_bytes {
                    lemma_clear_lead(y0, s8, p as u8);
                    lemma_arr_bit(val, (n - 1) as u64, (7 - p) as u64);
                } else if start_bytes < a < end_bytes {
                    let k = a - start_bytes;
                    assert(data@[a] == full@[base + k]);
                    lemma_arr_bit(val, (n - 1 - k) as u64, (7 - p) as u64);
                }
            }
            lemma_bytes_to_bits(d, data@, ip, ib, val);
        }
        return;
    }
    let offset = (end_bytes - start_bytes + 1) - n;
    let e8 = end_bits as u8;
    let s8 = start_bits as u8;
    if offset == 0 {
        let start_mask: u8 = 0xFFu8 >> (8 - e8 + s8);
        let data_mask: u8 = if s8 == 0 { 0xFFu8 } else { 0xFFu8 << (8 - s8) };
        let x = data[start_bytes];
        let y0 = full[base];
        data[start_bytes] = (x & data_mask) | ((y0 & start_mask) << (8 - e8));
        proof {
            assert forall|p: int| 0 <= p < e8 implies #[trigger] bit_of(data@[start_bytes as int], p) == written_bit(d, ip, ib, val, 8 * start_bytes + p) by {
                lemma_bit_index(d, start_bytes as int, p);
                lemma_first_part(x, y0, s8, e8, p as u8);
                lemma_arr_bit(val, (n - 1) as u64, (e8 - 1 - p) as u64);
            }
        }
    } else {
        proof {
            assert forall|p: int| 0 <= p < e8 implies #[trigger] bit_of(data@[start_bytes as int], p) == written_bit(d, ip, ib, val, 8 * start_bytes + p) by {
                lemma_bit_index(d, start_bytes as int, p);
            }
        }
    }
    let a_mask: u8 = 0xFFu8 << e8;
    let inv_a_mask: u8 = a_mask ^ 0xFF;
    let b_mask: u8 = 0xFFu8 << (8 - e8);
    let inv_b_mask: u8 = b_mask ^ 0xFF;
    let mut byte = start_bytes + 1;
    while byte <= end_bytes
        invariant
            start_bytes + 1 <= byte <= end_bytes + 1,
            end_bytes < d.len(),
            data@.len() == d.len(),
            full@.len() == 8,
            base == 8 - n,
            n == end_bytes - start_bytes + 1 - offset,
            offset == 0 || offset == 1,
            1 <= e8 <= 7,
            e8 == end_bits,
            s8 == start_bits,
            last_bits == 8 * end_bytes + end_bits,
            prev == 8 * start_bytes + start_bits,
            offset == 1 <==> e8 <= s8,
            ip / 8 == start_bytes,
            ip % 8 == start_bits,
            (ip + ib) / 8 == end_bytes,
            (ip + ib) % 8 == end_bits,
            byte_len(ib) == n,
            ip == prev,
            ib == bits,
            a_mask == 0xFFu8 << e8,
            inv_a_mask == a_mask ^ 0xFF,
            b_mask == 0xFFu8 << ((8 - e8) as u8),
            inv_b_mask == b_mask ^ 0xFF,
            forall|k: int| 0 <= k < n ==> #[trigger] full@[base + k] == ((val >> ((8 * (n - 1 - k)) as u64)) & 0xFFu64) as u8,
            forall|j: int| 0 <= j < d.len() && (j < start_bytes || j >= byte) ==> #[trigger] data@[j] == d[j],
            forall|a: int, p: int|
                start_bytes <= a < byte - 1 && 0 <= p < 8 ==> #[trigger] bit_of(data@[a], p) == written_bit(d, ip, ib, val, 8 * a + p),
            forall|p: int| 0 <= p < e8 ==> #[trigger] bit_of(data@[byte - 1], p) == written_bit(d, ip, ib, val, 8 * (byte - 1) + p),
            byte - 1 > start_bytes ==> forall|p: int| e8 <= p < 8 ==> #[trigger] bit_of(data@[byte - 1], p) == bit_of(d[byte - 1], p),
        decreases end_bytes + 1 - byte,
    {
        let k = byte - start_bytes - offset;
        let y = full[base + k];
        let x1 = data[byte - 1];
        data[byte - 1] = (x1 & b_mask) | ((y & a_mask) >> e8);
        let x2 = data[byte];
        data[byte] = (x2 & inv_b_mask) | ((y & inv_a_mask) << (8 - e8));
        proof {
            assert(x2 == d[byte as int]);
            assert(n - 1 - k == end_bytes - byte);
            assert forall|p: int| 0 <= p < 8 implies #[trigger] bit_of(data@[byte - 1], p) == written_bit(d, ip, ib, val, 8 * (byte - 1) + p) by {
                lemma_hi_part(x1, y, e8, p as u8);
                lemma_bit_index(d, byte - 1, p);
                if p >= e8 {
                    assert(y == ((val >> ((8 * (n - 1 - k)) as u64)) & 0xFFu64) as u8);
                    lemma_arr_bit(val, (n - 1 - k) as u64, (7 - p + e8) as u64);
                    assert(bit_of(data@[byte - 1], p) == (y >> ((7 - p + e8) as u8)) & 1u8);
                    assert(bit_of(data@[byte - 1], p) == vbit(val, 8 * (n - 1 - k) + 7 - p + e8));
                    assert(8 * (byte - 1) + p >= read_start(ip, ib));
                    assert(8 * (byte - 1) + p < ip + ib);
                } else {
                    assert(bit_of(data@[byte - 1], p) == bit_of(x1, p));
                }
            }
            assert forall|p: int| 0 <= p < 8 implies #[trigger] bit_of(data@[byte as int], p) == if p < e8 {
                written_bit(d, ip, ib, val, 8 * byte + p)
            } else {
                bit_of(d[byte as int], p)
            } by {
                lemma_lo_part(x2, y, e8, p as u8);
                lemma_bit_index(d, byte as int, p);
                if p < e8 {
                    lemma_arr_bit(val, (n - 1 - k) as u64, (e8 - 1 - p) as u64);
                }
            }
        }
        byte = byte + 1;
    }
    proof {
        assert forall|a: int, p: int|
            0 <= a < data@.len() && 0 <= p < 8 implies #[trigger] bit_of(data@[a], p) == written_bit(d, ip, ib, val, 8 * a + p) by {
            lemma_bit_index(d, a, p);
            if a == end_bytes && p >= e8 {
                assert(bit_of(data@[a], p) == bit_of(d[a], p));
            }
        }
        lemma_bytes_to_bits(d, data@, ip, ib, val);
    }
}


/// The first bit that the setter of a field may change.
pub open spec fn write_start(prev: int, bits: int) -> int {
    if zero_lead(prev, bits) {
        8 * (prev / 8)
    } else {
        read_start(prev, bits)
    }
}

proof fn lemma_vbit_shift(v: u64, j: int)
    requires
        0 <= j < 63,
    ensures
        vbit(v, j + 1) == vbit(v >> 1u64, j),
{
    let jj = j as u64;
    assert(((v >> ((jj + 1) as u64)) & 1u64) as u8 == (((v >> 1u64) >> jj) & 1u64) as u8) by (bit_vector)
        requires
            jj < 63,
    ;
}

proof fn lemma_low_bit(v: u64)
    ensures
        vbit(v, 0) as nat == (v as nat) % 2,
        (v >> 1u64) as nat == (v as nat) / 2,
{
    assert(((v >> 0u64) & 1u64) as u8 as nat == (v as nat) % 2) by (bit_vector);
    assert((v >> 1u64) as nat == (v as nat) / 2) by (bit_vector);
}

/// A window whose bits are the low bits of `v` reads `v` modulo its size.
pub proof fn lemma_window_vbits(d: Seq<u8>, lo: int, hi: int, v: u64)
    requires
        lo <= hi <= lo + 64,
        forall|i: int| lo <= i < hi ==> #[trigger] bit(d, i) == vbit(v, hi - 1 - i),
    ensures
        window(d, lo, hi) == (v as nat) % p2((hi - lo) as nat),
    decreases hi - lo,
{
    if hi == lo {
        assert(p2(0) == 1);
    } else {
        let w = v >> 1u64;
        assert forall|i: int| lo <= i < hi - 1 implies #[trigger] bit(d, i) == vbit(w, hi - 2 - i) by {
            lemma_vbit_shift(v, hi - 2 - i);
            assert(bit(d, i) == vbit(v, hi - 1 - i));
        }
        lemma_window_vbits(d, lo, hi - 1, w);
        lemma_low_bit(v);
        assert(bit(d, hi - 1) == vbit(v, 0));
        let k = (hi - 1 - lo) as nat;
        lemma_p2_pos(k);
        vstd::arithmetic::div_mod::lemma_mod_breakdown(v as int, 2, p2(k) as int);
        assert(p2((hi - lo) as nat) == 2 * p2(k));
    }
}

pub proof fn lemma_p2_mono(a: nat, b: nat)
    requires
        a <= b,
    ensures
        p2(a) <= p2(b),
{
    lemma_p2_add(a, (b - a) as nat);
    lemma_p2_pos((b - a) as nat);
    lemma_p2_pos(a);
    assert(p2(a) * p2((b - a) as nat) >= p2(a)) by (nonlinear_arith)
        requires
            p2((b - a) as nat) >= 1,
            p2(a) >= 1,
    ;
}

/// Reading a field back after writing `v` into it gives `v` modulo two to the
/// number of bits that the getter reads, so exactly `v` when `v` fits in the
/// field, for every field whose setter does not OR the new bits of its first
/// byte into the old ones (`ors_top`).
pub proof fn law_get_after_set(d: Seq<u8>, d2: Seq<u8>, prev: int, bits: int, v: u64)
    requires
        1 <= bits <= 64,
        0 <= prev,
        prev + bits <= 8 * d.len(),
        d2.len() == d.len(),
        forall|i: int| 0 <= i < 8 * d.len() ==> #[trigger] bit(d2, i) == written_bit(d, prev, bits, v, i),
        !ors_top(prev, bits),
    ensures
        window(d2, read_start(prev, bits), prev + bits) == (v as nat) % p2((prev + bits - read_start(prev, bits)) as nat),
        (v as nat) < p2(bits as nat) ==> window(d2, read_start(prev, bits), prev + bits) == v,
{
    lemma_geometry(prev, bits);
    let rs = read_start(prev, bits);
    let last = prev + bits;
    assert(8 * byte_len(bits) <= 64 && 8 * byte_len(bits) >= bits);
    assert(rs >= 0);
    assert forall|i: int| rs <= i < last implies #[trigger] bit(d2, i) == vbit(v, last - 1 - i) by {
        assert(bit(d2, i) == written_bit(d, prev, bits, v, i));
    }
    lemma_window_vbits(d2, rs, last, v);
    if (v as nat) < p2(bits as nat) {
        lemma_p2_mono(bits as nat, (last - rs) as nat);
        vstd::arithmetic::div_mod::lemma_small_mod(v as nat, p2((last - rs) as nat));
    }
}

/// Writing a field leaves every bit before `write_start` and from the end of
/// the field on as it was.
pub proof fn law_set_frame(d: Seq<u8>, d2: Seq<u8>, prev: int, bits: int, v: u64, i: int)
    requires
        1 <= bits <= 64,
        0 <= prev,
        prev + bits <= 8 * d.len(),
        d2.len() == d.len(),
        forall|j: int| 0 <= j < 8 * d.len() ==> #[trigger] bit(d2, j) == written_bit(d, prev, bits, v, j),
        0 <= i < 8 * d.len(),
        i < write_start(prev, bits) || prev + bits <= i,
    ensures
        bit(d2, i) == bit(d, i),
{
    lemma_geometry(prev, bits);
    assert(bit(d2, i) == written_bit(d, prev, bits, v, i));
}

/// Windows over equal bits are equal.
pub proof fn lemma_window_same_bits(d: Seq<u8>, d2: Seq<u8>, lo: int, hi: int)
    requires
        forall|i: int| lo <= i < hi ==> #[trigger] bit(d2, i) == bit(d, i),
    ensures
        window(d2, lo, hi) == window(d, lo, hi),
    decreases hi - lo,
{
    if hi > lo {
        lemma_window_same_bits(d, d2, lo, hi - 1);
        assert(bit(d2, hi - 1) == bit(d, hi - 1));
    }
}

/// Writing one field does not change what the getter of another field reads
/// when the bits it reads lie outside those the setter may change.
pub proof fn law_set_keeps_other_field(
    d: Seq<u8>,
    d2: Seq<u8>,
    prev: int,
    bits: int,
    v: u64,
    prev2: int,
    bits2: int,
)
    requires
        1 <= bits <= 64,
        0 <= prev,
        prev + bits <= 8 * d.len(),
        d2.len() == d.len(),
        forall|j: int| 0 <= j < 8 * d.len() ==> #[trigger] bit(d2, j) == written_bit(d, prev, bits, v, j),
        1 <= bits2 <= 64,
        0 <= prev2,
        prev2 + bits2 <= 8 * d.len(),
        prev2 + bits2 <= write_start(prev, bits) || prev + bits <= read_start(prev2, bits2),
    ensures
        window(d2, read_start(prev2, bits2), prev2 + bits2) == window(d, read_start(prev2, bits2), prev2 + bits2),
{
    lemma_geometry(prev2, bits2);
    lemma_geometry(prev, bits);
    let rs2 = read_start(prev2, bits2);
    assert(rs2 >= 0 && rs2 <= prev2);
    assert forall|i: int| rs2 <= i < prev2 + bits2 implies #[trigger] bit(d2, i) == bit(d, i) by {
        law_set_frame(d, d2, prev, bits, v, i);
    }
    lemma_window_same_bits(d, d2, rs2, prev2 + bits2);
}


proof fn lemma_byte_split(x: u128)
    ensures
        (x >> 8u128) as nat == (x as nat) / 256,
        ((x & 0xFFu128) as u8) as nat == (x as nat) % 256,
{
    assert((x >> 8u128) as nat == (x as nat) / 256) by (bit_vector);
    assert(((x & 0xFFu128) as u8) as nat == (x as nat) % 256) by (bit_vector);
}

/// Reading back the bytes that `primitive_into_arr` writes gives the value
/// modulo `2^(8 N)`: the conversion of a field's bytes to its type undoes
/// the conversion of a value to bytes, for every value that fits.
pub proof fn law_bytes_roundtrip(v: u128, b: Seq<u8>)
    requires
        b.len() <= 16,
        forall|k: int| 0 <= k < b.len() ==> #[trigger] b[k] == byte_at(v, b.len() as int, k),
    ensures
        be_value(b) == (v as nat) % p2((8 * b.len()) as nat),
{
    let n = b.len() as int;
    assert forall|k: int| 0 <= k <= n implies #[trigger] be_value(b.take(k)) == ((v >> ((8 * (n - k)) as u128)) as nat) % p2((8 * k) as nat) by {
        lemma_be_prefix(v, b, k);
    }
    assert(b.take(n) =~= b);
    assert(v >> 0u128 == v) by (bit_vector);
}

proof fn lemma_be_prefix(v: u128, b: Seq<u8>, k: int)
    requires
        b.len() <= 16,
        0 <= k <= b.len(),
        forall|k: int| 0 <= k < b.len() ==> #[trigger] b[k] == byte_at(v, b.len() as int, k),
    ensures
        be_value(b.take(k)) == ((v >> ((8 * (b.len() - k)) as u128)) as nat) % p2((8 * k) as nat),
    decreases k,
{
    let n = b.len() as int;
    if k == 0 {
        assert(b.take(0) =~= Seq::<u8>::empty());
        assert(p2(0) == 1);
    } else {
        lemma_be_prefix(v, b, k - 1);
        let t = b.take(k);
        assert(t.drop_last() =~= b.take(k - 1));
        assert(t.last() == b[k - 1]);
        let m = (n - k) as u128;
        let x = v >> (8 * m);
        lemma_shift_step_wide(v, m);
        lemma_byte_split(x);
        assert(8 * (n - 1 - (k - 1)) == 8 * m);
        assert(b[k - 1] == byte_at(v, n, k - 1));
        assert(b[k - 1] == ((v >> ((8 * m) as u128)) & 0xFFu128) as u8);
        assert((v >> ((8 * (n - (k - 1))) as u128)) == x >> 8u128);
        lemma_p2_add((8 * (k - 1)) as nat, 8);
        lemma_p2_8();
        lemma_p2_pos((8 * (k - 1)) as nat);
        vstd::arithmetic::div_mod::lemma_mod_breakdown(x as int, 256, p2((8 * (k - 1)) as nat) as int);
        assert(256 * p2((8 * (k - 1)) as nat) == p2((8 * k) as nat));
    }
}

} // verus!
