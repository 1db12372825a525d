pub mod bits;
pub mod checks;
pub mod specifier;
pub mod four_bytes;
pub mod text;
pub mod sorted;
pub mod tokens;
pub mod seq;
pub mod builder;
pub mod debug;
pub mod bitfield_gen;

use vstd::prelude::*;
use crate::bits::{
    be_value, byte_at, lemma_be_value_bound, lemma_p2_128, lemma_p2_64, lemma_p2_mono, p2, primitive_into_arr,
    u128_from_be, u64_from_be,
};

verus! {

/// The larger of two sizes.
pub fn max_usize(a: usize, b: usize) -> (r: usize)
    ensures
        r == if a < b { b } else { a },
{
    if a < b {
        b
    } else {
        a
    }
}

/// A fixed number of bytes, most significant byte first.
#[derive(Debug)]
pub struct ByteArray<const N: usize>(pub [u8; N]);

impl<const N: usize> ByteArray<N> {
    /// The number the bytes write, most significant first.
    pub open spec fn value(&self) -> nat {
        be_value(self.0@)
    }
}

/// The `n` bytes of `v`, most significant first, as `primitive_into_arr` lays them out.
pub open spec fn bytes_of(v: u128, n: nat) -> Seq<u8> {
    Seq::new(n, |k: int| byte_at(v, n as int, k))
}

/// The byte array whose bytes are `b`.
pub open spec fn array_of<const N: usize>(b: Seq<u8>) -> ByteArray<N> {
    choose|r: ByteArray<N>| r.0@ == b
}

proof fn lemma_array_of<const N: usize>(r: ByteArray<N>, b: Seq<u8>)
    requires
        r.0@ == b,
    ensures
        r == array_of::<N>(b),
{
    broadcast use vstd::array::group_array_axioms;
    let c = array_of::<N>(b);
    assert(c.0@ == b);
    assert(c.0 =~= r.0);
}

fn bytes_from_int<const N: usize>(v: u128) -> (r: ByteArray<N>)
    requires
        N <= 16,
    ensures
        r == array_of::<N>(bytes_of(v, N as nat)),
        r.0@ == bytes_of(v, N as nat),
{
    let r = primitive_into_arr::<N>(v);
    proof {
        assert(r.0@ =~= bytes_of(v, N as nat));
        lemma_array_of::<N>(r, bytes_of(v, N as nat));
    }
    r
}

/// Converting a number into `n` bytes and reading the bytes back gives the
/// number modulo `2^(8 n)`: exactly the number whenever it fits in the bytes.
pub proof fn law_byte_array_roundtrip(v: u128, n: nat)
    requires
        n <= 16,
    ensures
        be_value(bytes_of(v, n)) == (v as nat) % p2(8 * n),
        (v as nat) < p2(8 * n) ==> be_value(bytes_of(v, n)) == v,
{
    crate::bits::law_bytes_roundtrip(v, bytes_of(v, n));
    if (v as nat) < p2(8 * n) {
        vstd::arithmetic::div_mod::lemma_small_mod(v as nat, p2(8 * n));
    }
}

proof fn lemma_be_value_injective(a: Seq<u8>, b: Seq<u8>)
    requires
        a.len() == b.len(),
        be_value(a) == be_value(b),
    ensures
        a == b,
    decreases a.len(),
{
    if a.len() > 0 {
        let x = be_value(a.drop_last());
        let y = be_value(b.drop_last());
        assert(x * 256 + a.last() == y * 256 + b.last());
        assert(x == y && a.last() == b.last()) by (nonlinear_arith)
            requires
                x * 256 + a.last() == y * 256 + b.last(),
                a.last() < 256,
                b.last() < 256,
                x >= 0,
                y >= 0,
        ;
        lemma_be_value_injective(a.drop_last(), b.drop_last());
        assert(a =~= a.drop_last().push(a.last()));
        assert(b =~= b.drop_last().push(b.last()));
    }
}

/// Bytes read as a number and written back into as many bytes come back
/// unchanged, for every size up to 16 bytes; and the number read from `n`
/// bytes is below `2^(8 n)`, so reading up to 8 bytes into a `u64` (up to 16
/// into a `u128`) loses nothing.
pub proof fn law_byte_array_decode(b: Seq<u8>)
    requires
        b.len() <= 16,
    ensures
        be_value(b) < p2((8 * b.len()) as nat),
        b.len() <= 8 ==> be_value(b) < 0x1_0000_0000_0000_0000,
        be_value(b) < 0x1_0000_0000_0000_0000_0000_0000_0000_0000,
        bytes_of(be_value(b) as u128, b.len()) == b,
{
    lemma_be_value_bound(b);
    lemma_p2_mono((8 * b.len()) as nat, 128);
    lemma_p2_128();
    if b.len() <= 8 {
        lemma_p2_mono((8 * b.len()) as nat, 64);
        lemma_p2_64();
    }
    let v = be_value(b) as u128;
    law_byte_array_roundtrip(v, b.len());
    lemma_be_value_injective(bytes_of(v, b.len()), b);
}

/// The bytes of `value`, as the setters of a field take them: `[value]`.
pub fn byte_array_from_u8(value: u8) -> (r: ByteArray<1>)
    ensures
        r.0@ == seq![value],
{
    let r = ByteArray([value]);
    proof {
        assert(r.0@ =~= seq![value]);
    }
    r
}

/// The bytes of a `bool`: `[1]` for `true`, `[0]` for `false`.
pub fn byte_array_from_bool(value: bool) -> (r: ByteArray<1>)
    ensures
        r.0@ == seq![if value { 1u8 } else { 0u8 }],
{
    let r = ByteArray(if value { [1u8; 1] } else { [0u8; 1] });
    proof {
        assert(r.0@ =~= seq![if value { 1u8 } else { 0u8 }]);
    }
    r
}

/// A `bool` from one byte: whether the byte is not zero.
pub fn bool_from_byte_array(val: ByteArray<1>) -> (r: bool)
    ensures
        r == (val.0@[0] != 0),
{
    val.0[0] != 0
}

proof fn lemma_p2_widths()
    ensures
        p2(8) == 0x100,
        p2(16) == 0x1_0000,
        p2(32) == 0x1_0000_0000,
        p2(64) == 0x1_0000_0000_0000_0000,
        p2(128) == 0x1_0000_0000_0000_0000_0000_0000_0000_0000,
{
    crate::bits::lemma_p2_8();
    crate::bits::lemma_p2_add(8, 8);
    assert(p2(16) == 0x1_0000);
    crate::bits::lemma_p2_add(16, 16);
    assert(p2(32) == 0x1_0000_0000);
    lemma_p2_64();
    lemma_p2_128();
}

proof fn lemma_be_bound_small(s: Seq<u8>)
    requires
        s.len() <= 8,
    ensures
        be_value(s) < p2((8 * s.len()) as nat),
        p2((8 * s.len()) as nat) <= 0x1_0000_0000_0000_0000,
{
    lemma_be_value_bound(s);
    lemma_p2_64();
    lemma_p2_mono((8 * s.len()) as nat, 64);
}

impl From<ByteArray<1>> for u8 {
    fn from(val: ByteArray<1>) -> (r: u8)
        ensures
            r as nat == be_value(val.0@),
    {
        proof {
            lemma_p2_widths();
            lemma_be_bound_small(val.0@);
            lemma_p2_mono(8, 8);
        }
        u64_from_be(val.0.as_slice()) as u8
    }
}

impl vstd::std_specs::convert::FromSpecImpl<ByteArray<1>> for u8 {
    open spec fn obeys_from_spec() -> bool {
        true
    }

    open spec fn from_spec(val: ByteArray<1>) -> u8 {
        be_value(val.0@) as u8
    }
}

impl From<ByteArray<2>> for u16 {
    fn from(val: ByteArray<2>) -> (r: u16)
        ensures
            r as nat == be_value(val.0@),
    {
        proof {
            lemma_p2_widths();
            lemma_be_bound_small(val.0@);
            lemma_p2_mono(16, 16);
        }
        u64_from_be(val.0.as_slice()) as u16
    }
}

impl vstd::std_specs::convert::FromSpecImpl<ByteArray<2>> for u16 {
    open spec fn obeys_from_spec() -> bool {
        true
    }

    open spec fn from_spec(val: ByteArray<2>) -> u16 {
        be_value(val.0@) as u16
    }
}

impl From<ByteArray<3>> for u32 {
    fn from(val: ByteArray<3>) -> (r: u32)
        ensures
            r as nat == be_value(val.0@),
    {
        proof {
            lemma_p2_widths();
            lemma_be_bound_small(val.0@);
            lemma_p2_mono(24, 32);
        }
        u64_from_be(val.0.as_slice()) as u32
    }
}

impl vstd::std_specs::convert::FromSpecImpl<ByteArray<3>> for u32 {
    open spec fn obeys_from_spec() -> bool {
        true
    }

    open spec fn from_spec(val: ByteArray<3>) -> u32 {
        be_value(val.0@) as u32
    }
}

impl From<ByteArray<4>> for u32 {
    fn from(val: ByteArray<4>) -> (r: u32)
        ensures
            r as nat == be_value(val.0@),
    {
        proof {
            lemma_p2_widths();
            lemma_be_bound_small(val.0@);
            lemma_p2_mono(32, 32);
        }
        u64_from_be(val.0.as_slice()) as u32
    }
}

impl vstd::std_specs::convert::FromSpecImpl<ByteArray<4>> for u32 {
    open spec fn obeys_from_spec() -> bool {
        true
    }

    open spec fn from_spec(val: ByteArray<4>) -> u32 {
        be_value(val.0@) as u32
    }
}

impl From<ByteArray<1>> for u64 {
    fn from(val: ByteArray<1>) -> (r: u64)
        ensures
            r as nat == be_value(val.0@),
    {
        proof {
            lemma_p2_widths();
            lemma_be_bound_small(val.0@);
            lemma_p2_mono(8, 64);
        }
        u64_from_be(val.0.as_slice()) as u64
    }
}

impl vstd::std_specs::convert::FromSpecImpl<ByteArray<1>> for u64 {
    open spec fn obeys_from_spec() -> bool {
        true
    }

    open spec fn from_spec(val: ByteArray<1>) -> u64 {
        be_value(val.0@) as u64
    }
}

impl From<ByteArray<2>> for u64 {
    fn from(val: ByteArray<2>) -> (r: u64)
        ensures
            r as nat == be_value(val.0@),
    {
        proof {
            lemma_p2_widths();
            lemma_be_bound_small(val.0@);
            lemma_p2_mono(16, 64);
        }
        u64_from_be(val.0.as_slice()) as u64
    }
}

impl vstd::std_specs::convert::FromSpecImpl<ByteArray<2>> for u64 {
    open spec fn obeys_from_spec() -> bool {
        true
    }

    open spec fn from_spec(val: ByteArray<2>) -> u64 {
        be_value(val.0@) as u64
    }
}

impl From<ByteArray<3>> for u64 {
    fn from(val: ByteArray<3>) -> (r: u64)
        ensures
            r as nat == be_value(val.0@),
    {
        proof {
            lemma_p2_widths();
            lemma_be_bound_small(val.0@);
            lemma_p2_mono(24, 64);
        }
        u64_from_be(val.0.as_slice()) as u64
    }
}

impl vstd::std_specs::convert::FromSpecImpl<ByteArray<3>> for u64 {
    open spec fn obeys_from_spec() -> bool {
        true
    }

    open spec fn from_spec(val: ByteArray<3>) -> u64 {
        be_value(val.0@) as u64
    }
}

impl From<ByteArray<4>> for u64 {
    fn from(val: ByteArray<4>) -> (r: u64)
        ensures
            r as nat == be_value(val.0@),
    {
        proof {
            lemma_p2_widths();
            lemma_be_bound_small(val.0@);
            lemma_p2_mono(32, 64);
        }
        u64_from_be(val.0.as_slice()) as u64
    }
}

impl vstd::std_specs::convert::FromSpecImpl<ByteArray<4>> for u64 {
    open spec fn obeys_from_spec() -> bool {
        true
    }

    open spec fn from_spec(val: ByteArray<4>) -> u64 {
        be_value(val.0@) as u64
    }
}

impl From<ByteArray<5>> for u64 {
    fn from(val: ByteArray<5>) -> (r: u64)
        ensures
            r as nat == be_value(val.0@),
    {
        proof {
            lemma_p2_widths();
            lemma_be_bound_small(val.0@);
            lemma_p2_mono(40, 64);
        }
        u64_from_be(val.0.as_slice()) as u64
    }
}

impl vstd::std_specs::convert::FromSpecImpl<ByteArray<5>> for u64 {
    open spec fn obeys_from_spec() -> bool {
        true
    }

    open spec fn from_spec(val: ByteArray<5>) -> u64 {
        be_value(val.0@) as u64
    }
}

impl From<ByteArray<6>> for u64 {
    fn from(val: ByteArray<6>) -> (r: u64)
        ensures
            r as nat == be_value(val.0@),
    {
        proof {
            lemma_p2_widths();
            lemma_be_bound_small(val.0@);
            lemma_p2_mono(48, 64);
        }
        u64_from_be(val.0.as_slice()) as u64
    }
}

impl vstd::std_specs::convert::FromSpecImpl<ByteArray<6>> for u64 {
    open spec fn obeys_from_spec() -> bool {
        true
    }

    open spec fn from_spec(val: ByteArray<6>) -> u64 {
        be_value(val.0@) as u64
    }
}

impl From<ByteArray<7>> for u64 {
    fn from(val: ByteArray<7>) -> (r: u64)
        ensures
            r as nat == be_value(val.0@),
    {
        proof {
            lemma_p2_widths();
            lemma_be_bound_small(val.0@);
            lemma_p2_mono(56, 64);
        }
        u64_from_be(val.0.as_slice()) as u64
    }
}

impl vstd::std_specs::convert::FromSpecImpl<ByteArray<7>> for u64 {
    open spec fn obeys_from_spec() -> bool {
        true
    }

    open spec fn from_spec(val: ByteArray<7>) -> u64 {
        be_value(val.0@) as u64
    }
}

impl From<ByteArray<8>> for u64 {
    fn from(val: ByteArray<8>) -> (r: u64)
        ensures
            r as nat == be_value(val.0@),
    {
        proof {
            lemma_p2_widths();
            lemma_be_bound_small(val.0@);
            lemma_p2_mono(64, 64);
        }
        u64_from_be(val.0.as_slice()) as u64
    }
}

impl vstd::std_specs::convert::FromSpecImpl<ByteArray<8>> for u64 {
    open spec fn obeys_from_spec() -> bool {
        true
    }

    open spec fn from_spec(val: ByteArray<8>) -> u64 {
        be_value(val.0@) as u64
    }
}


impl From<u8> for ByteArray<1> {
    fn from(value: u8) -> (r: ByteArray<1>)
        ensures
            r.0@ == bytes_of(value as u128, 1),
    {
        bytes_from_int::<1>(value as u128)
    }
}

impl vstd::std_specs::convert::FromSpecImpl<u8> for ByteArray<1> {
    open spec fn obeys_from_spec() -> bool {
        true
    }

    open spec fn from_spec(value: u8) -> ByteArray<1> {
        array_of::<1>(bytes_of(value as u128, 1))
    }
}

impl From<u16> for ByteArray<2> {
    fn from(value: u16) -> (r: ByteArray<2>)
        ensures
            r.0@ == bytes_of(value as u128, 2),
    {
        bytes_from_int::<2>(value as u128)
    }
}

impl vstd::std_specs::convert::FromSpecImpl<u16> for ByteArray<2> {
    open spec fn obeys_from_spec() -> bool {
        true
    }

    open spec fn from_spec(value: u16) -> ByteArray<2> {
        array_of::<2>(bytes_of(value as u128, 2))
    }
}

impl From<u32> for ByteArray<3> {
    fn from(value: u32) -> (r: ByteArray<3>)
        ensures
            r.0@ == bytes_of(value as u128, 3),
    {
        bytes_from_int::<3>(value as u128)
    }
}

impl vstd::std_specs::convert::FromSpecImpl<u32> for ByteArray<3> {
    open spec fn obeys_from_spec() -> bool {
        true
    }

    open spec fn from_spec(value: u32) -> ByteArray<3> {
        array_of::<3>(bytes_of(value as u128, 3))
    }
}

impl From<u32> for ByteArray<4> {
    fn from(value: u32) -> (r: ByteArray<4>)
        ensures
            r.0@ == bytes_of(value as u128, 4),
    {
        bytes_from_int::<4>(value as u128)
    }
}

impl vstd::std_specs::convert::FromSpecImpl<u32> for ByteArray<4> {
    open spec fn obeys_from_spec() -> bool {
        true
    }

    open spec fn from_spec(value: u32) -> ByteArray<4> {
        array_of::<4>(bytes_of(value as u128, 4))
    }
}

impl From<u64> for ByteArray<0> {
    fn from(value: u64) -> (r: ByteArray<0>)
        ensures
            r.0@ == bytes_of(value as u128, 0),
    {
        bytes_from_int::<0>(value as u128)
    }
}

impl vstd::std_specs::convert::FromSpecImpl<u64> for ByteArray<0> {
    open spec fn obeys_from_spec() -> bool {
        true
    }

    open spec fn from_spec(value: u64) -> ByteArray<0> {
        array_of::<0>(bytes_of(value as u128, 0))
    }
}

impl From<u64> for ByteArray<1> {
    fn from(value: u64) -> (r: ByteArray<1>)
        ensures
            r.0@ == bytes_of(value as u128, 1),
    {
        bytes_from_int::<1>(value as u128)
    }
}

impl vstd::std_specs::convert::FromSpecImpl<u64> for ByteArray<1> {
    open spec fn obeys_from_spec() -> bool {
        true
    }

    open spec fn from_spec(value: u64) -> ByteArray<1> {
        array_of::<1>(bytes_of(value as u128, 1))
    }
}

impl From<u64> for ByteArray<2> {
    fn from(value: u64) -> (r: ByteArray<2>)
        ensures
            r.0@ == bytes_of(value as u128, 2),
    {
        bytes_from_int::<2>(value as u128)
    }
}

impl vstd::std_specs::convert::FromSpecImpl<u64> for ByteArray<2> {
    open spec fn obeys_from_spec() -> bool {
        true
    }

    open spec fn from_spec(value: u64) -> ByteArray<2> {
        array_of::<2>(bytes_of(value as u128, 2))
    }
}

impl From<u64> for ByteArray<3> {
    fn from(value: u64) -> (r: ByteArray<3>)
        ensures
            r.0@ == bytes_of(value as u128, 3),
    {
        bytes_from_int::<3>(value as u128)
    }
}

impl vstd::std_specs::convert::FromSpecImpl<u64> for ByteArray<3> {
    open spec fn obeys_from_spec() -> bool {
        true
    }

    open spec fn from_spec(value: u64) -> ByteArray<3> {
        array_of::<3>(bytes_of(value as u128, 3))
    }
}

impl From<u64> for ByteArray<4> {
    fn from(value: u64) -> (r: ByteArray<4>)
        ensures
            r.0@ == bytes_of(value as u128, 4),
    {
        bytes_from_int::<4>(value as u128)
    }
}

impl vstd::std_specs::convert::FromSpecImpl<u64> for ByteArray<4> {
    open spec fn obeys_from_spec() -> bool {
        true
    }

    open spec fn from_spec(value: u64) -> ByteArray<4> {
        array_of::<4>(bytes_of(value as u128, 4))
    }
}

impl From<u64> for ByteArray<5> {
    fn from(value: u64) -> (r: ByteArray<5>)
        ensures
            r.0@ == bytes_of(value as u128, 5),
    {
        bytes_from_int::<5>(value as u128)
    }
}

impl vstd::std_specs::convert::FromSpecImpl<u64> for ByteArray<5> {
    open spec fn obeys_from_spec() -> bool {
        true
    }

    open spec fn from_spec(value: u64) -> ByteArray<5> {
        array_of::<5>(bytes_of(value as u128, 5))
    }
}

impl From<u64> for ByteArray<6> {
    fn from(value: u64) -> (r: ByteArray<6>)
        ensures
            r.0@ == bytes_of(value as u128, 6),
    {
        bytes_from_int::<6>(value as u128)
    }
}

impl vstd::std_specs::convert::FromSpecImpl<u64> for ByteArray<6> {
    open spec fn obeys_from_spec() -> bool {
        true
    }

    open spec fn from_spec(value: u64) -> ByteArray<6> {
        array_of::<6>(bytes_of(value as u128, 6))
    }
}

impl From<u64> for ByteArray<7> {
    fn from(value: u64) -> (r: ByteArray<7>)
        ensures
            r.0@ == bytes_of(value as u128, 7),
    {
        bytes_from_int::<7>(value as u128)
    }
}

impl vstd::std_specs::convert::FromSpecImpl<u64> for ByteArray<7> {
    open spec fn obeys_from_spec() -> bool {
        true
    }

    open spec fn from_spec(value: u64) -> ByteArray<7> {
        array_of::<7>(bytes_of(value as u128, 7))
    }
}

impl From<u64> for ByteArray<8> {
    fn from(value: u64) -> (r: ByteArray<8>)
        ensures
            r.0@ == bytes_of(value as u128, 8),
    {
        bytes_from_int::<8>(value as u128)
    }
}

impl vstd::std_specs::convert::FromSpecImpl<u64> for ByteArray<8> {
    open spec fn obeys_from_spec() -> bool {
        true
    }

    open spec fn from_spec(value: u64) -> ByteArray<8> {
        array_of::<8>(bytes_of(value as u128, 8))
    }
}

impl From<bool> for ByteArray<1> {
    fn from(value: bool) -> (r: ByteArray<1>)
        ensures
            r.0@ == seq![if value { 1u8 } else { 0u8 }],
    {
        let r = byte_array_from_bool(value);
        proof {
            lemma_array_of::<1>(r, seq![if value { 1u8 } else { 0u8 }]);
        }
        r
    }
}

impl vstd::std_specs::convert::FromSpecImpl<bool> for ByteArray<1> {
    open spec fn obeys_from_spec() -> bool {
        true
    }

    open spec fn from_spec(value: bool) -> ByteArray<1> {
        array_of::<1>(seq![if value { 1u8 } else { 0u8 }])
    }
}

impl From<ByteArray<1>> for bool {
    fn from(val: ByteArray<1>) -> (r: bool) {
        bool_from_byte_array(val)
    }
}

impl vstd::std_specs::convert::FromSpecImpl<ByteArray<1>> for bool {
    open spec fn obeys_from_spec() -> bool {
        true
    }

    open spec fn from_spec(val: ByteArray<1>) -> bool {
        val.0@[0] != 0
    }
}


impl From<u128> for ByteArray<9> {
    fn from(value: u128) -> (r: ByteArray<9>)
        ensures
            r.0@ == bytes_of(value, 9),
    {
        bytes_from_int::<9>(value)
    }
}

impl vstd::std_specs::convert::FromSpecImpl<u128> for ByteArray<9> {
    open spec fn obeys_from_spec() -> bool {
        true
    }

    open spec fn from_spec(value: u128) -> ByteArray<9> {
        array_of::<9>(bytes_of(value, 9))
    }
}

impl From<ByteArray<9>> for u128 {
    fn from(val: ByteArray<9>) -> (r: u128)
        ensures
            r as nat == be_value(val.0@),
    {
        proof {
            lemma_p2_widths();
            lemma_be_value_bound(val.0@);
            lemma_p2_mono(72, 128);
            lemma_p2_128();
        }
        u128_from_be(val.0.as_slice())
    }
}

impl vstd::std_specs::convert::FromSpecImpl<ByteArray<9>> for u128 {
    open spec fn obeys_from_spec() -> bool {
        true
    }

    open spec fn from_spec(val: ByteArray<9>) -> u128 {
        be_value(val.0@) as u128
    }
}

impl From<u128> for ByteArray<10> {
    fn from(value: u128) -> (r: ByteArray<10>)
        ensures
            r.0@ == bytes_of(value, 10),
    {
        bytes_from_int::<10>(value)
    }
}

impl vstd::std_specs::convert::FromSpecImpl<u128> for ByteArray<10> {
    open spec fn obeys_from_spec() -> bool {
        true
    }

    open spec fn from_spec(value: u128) -> ByteArray<10> {
        array_of::<10>(bytes_of(value, 10))
    }
}

impl From<ByteArray<10>> for u128 {
    fn from(val: ByteArray<10>) -> (r: u128)
        ensures
            r as nat == be_value(val.0@),
    {
        proof {
            lemma_p2_widths();
            lemma_be_value_bound(val.0@);
            lemma_p2_mono(80, 128);
            lemma_p2_128();
        }
        u128_from_be(val.0.as_slice())
    }
}

impl vstd::std_specs::convert::FromSpecImpl<ByteArray<10>> for u128 {
    open spec fn obeys_from_spec() -> bool {
        true
    }

    open spec fn from_spec(val: ByteArray<10>) -> u128 {
        be_value(val.0@) as u128
    }
}

impl From<u128> for ByteArray<11> {
    fn from(value: u128) -> (r: ByteArray<11>)
        ensures
            r.0@ == bytes_of(value, 11),
    {
        bytes_from_int::<11>(value)
    }
}

impl vstd::std_specs::convert::FromSpecImpl<u128> for ByteArray<11> {
    open spec fn obeys_from_spec() -> bool {
        true
    }

    open spec fn from_spec(value: u128) -> ByteArray<11> {
        array_of::<11>(bytes_of(value, 11))
    }
}

impl From<ByteArray<11>> for u128 {
    fn from(val: ByteArray<11>) -> (r: u128)
        ensures
            r as nat == be_value(val.0@),
    {
        proof {
            lemma_p2_widths();
            lemma_be_value_bound(val.0@);
            lemma_p2_mono(88, 128);
            lemma_p2_128();
        }
        u128_from_be(val.0.as_slice())
    }
}

impl vstd::std_specs::convert::FromSpecImpl<ByteArray<11>> for u128 {
    open spec fn obeys_from_spec() -> bool {
        true
    }

    open spec fn from_spec(val: ByteArray<11>) -> u128 {
        be_value(val.0@) as u128
    }
}

impl From<u128> for ByteArray<12> {
    fn from(value: u128) -> (r: ByteArray<12>)
        ensures
            r.0@ == bytes_of(value, 12),
    {
        bytes_from_int::<12>(value)
    }
}

impl vstd::std_specs::convert::FromSpecImpl<u128> for ByteArray<12> {
    open spec fn obeys_from_spec() -> bool {
        true
    }

    open spec fn from_spec(value: u128) -> ByteArray<12> {
        array_of::<12>(bytes_of(value, 12))
    }
}

impl From<ByteArray<12>> for u128 {
    fn from(val: ByteArray<12>) -> (r: u128)
        ensures
            r as nat == be_value(val.0@),
    {
        proof {
            lemma_p2_widths();
            lemma_be_value_bound(val.0@);
            lemma_p2_mono(96, 128);
            lemma_p2_128();
        }
        u128_from_be(val.0.as_slice())
    }
}

impl vstd::std_specs::convert::FromSpecImpl<ByteArray<12>> for u128 {
    open spec fn obeys_from_spec() -> bool {
        true
    }

    open spec fn from_spec(val: ByteArray<12>) -> u128 {
        be_value(val.0@) as u128
    }
}

impl From<u128> for ByteArray<13> {
    fn from(value: u128) -> (r: ByteArray<13>)
        ensures
            r.0@ == bytes_of(value, 13),
    {
        bytes_from_int::<13>(value)
    }
}

impl vstd::std_specs::convert::FromSpecImpl<u128> for ByteArray<13> {
    open spec fn obeys_from_spec() -> bool {
        true
    }

    open spec fn from_spec(value: u128) -> ByteArray<13> {
        array_of::<13>(bytes_of(value, 13))
    }
}

impl From<ByteArray<13>> for u128 {
    fn from(val: ByteArray<13>) -> (r: u128)
        ensures
            r as nat == be_value(val.0@),
    {
        proof {
            lemma_p2_widths();
            lemma_be_value_bound(val.0@);
            lemma_p2_mono(104, 128);
            lemma_p2_128();
        }
        u128_from_be(val.0.as_slice())
    }
}

impl vstd::std_specs::convert::FromSpecImpl<ByteArray<13>> for u128 {
    open spec fn obeys_from_spec() -> bool {
        true
    }

    open spec fn from_spec(val: ByteArray<13>) -> u128 {
        be_value(val.0@) as u128
    }
}

impl From<u128> for ByteArray<14> {
    fn from(value: u128) -> (r: ByteArray<14>)
        ensures
            r.0@ == bytes_of(value, 14),
    {
        bytes_from_int::<14>(value)
    }
}

impl vstd::std_specs::convert::FromSpecImpl<u128> for ByteArray<14> {
    open spec fn obeys_from_spec() -> bool {
        true
    }

    open spec fn from_spec(value: u128) -> ByteArray<14> {
        array_of::<14>(bytes_of(value, 14))
    }
}

impl From<ByteArray<14>> for u128 {
    fn from(val: ByteArray<14>) -> (r: u128)
        ensures
            r as nat == be_value(val.0@),
    {
        proof {
            lemma_p2_widths();
            lemma_be_value_bound(val.0@);
            lemma_p2_mono(112, 128);
            lemma_p2_128();
        }
        u128_from_be(val.0.as_slice())
    }
}

impl vstd::std_specs::convert::FromSpecImpl<ByteArray<14>> for u128 {
    open spec fn obeys_from_spec() -> bool {
        true
    }

    open spec fn from_spec(val: ByteArray<14>) -> u128 {
        be_value(val.0@) as u128
    }
}

impl From<u128> for ByteArray<15> {
    fn from(value: u128) -> (r: ByteArray<15>)
        ensures
            r.0@ == bytes_of(value, 15),
    {
        bytes_from_int::<15>(value)
    }
}

impl vstd::std_specs::convert::FromSpecImpl<u128> for ByteArray<15> {
    open spec fn obeys_from_spec() -> bool {
        true
    }

    open spec fn from_spec(value: u128) -> ByteArray<15> {
        array_of::<15>(bytes_of(value, 15))
    }
}

impl From<ByteArray<15>> for u128 {
    fn from(val: ByteArray<15>) -> (r: u128)
        ensures
            r as nat == be_value(val.0@),
    {
        proof {
            lemma_p2_widths();
            lemma_be_value_bound(val.0@);
            lemma_p2_mono(120, 128);
            lemma_p2_128();
        }
        u128_from_be(val.0.as_slice())
    }
}

impl vstd::std_specs::convert::FromSpecImpl<ByteArray<15>> for u128 {
    open spec fn obeys_from_spec() -> bool {
        true
    }

    open spec fn from_spec(val: ByteArray<15>) -> u128 {
        be_value(val.0@) as u128
    }
}

impl From<u128> for ByteArray<16> {
    fn from(value: u128) -> (r: ByteArray<16>)
        ensures
            r.0@ == bytes_of(value, 16),
    {
        bytes_from_int::<16>(value)
    }
}

impl vstd::std_specs::convert::FromSpecImpl<u128> for ByteArray<16> {
    open spec fn obeys_from_spec() -> bool {
        true
    }

    open spec fn from_spec(value: u128) -> ByteArray<16> {
        array_of::<16>(bytes_of(value, 16))
    }
}

impl From<ByteArray<16>> for u128 {
    fn from(val: ByteArray<16>) -> (r: u128)
        ensures
            r as nat == be_value(val.0@),
    {
        proof {
            lemma_p2_widths();
            lemma_be_value_bound(val.0@);
            lemma_p2_mono(128, 128);
            lemma_p2_128();
        }
        u128_from_be(val.0.as_slice())
    }
}

impl vstd::std_specs::convert::FromSpecImpl<ByteArray<16>> for u128 {
    open spec fn obeys_from_spec() -> bool {
        true
    }

    open spec fn from_spec(val: ByteArray<16>) -> u128 {
        be_value(val.0@) as u128
    }
}

} // verus!
