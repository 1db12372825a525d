//! A packed struct of 40 bits, laid out as `#[bitfield]` lays out
//!
//! ```text
//! a: B1, b: B3, c: B4, p1: B3, d: B25, p2: B4
//! ```

use vstd::prelude::*;
use crate::bits::{
    bit, field_get, field_set, law_get_after_set, law_set_keeps_other_field, lemma_p2_8,
    lemma_p2_add, lemma_p2_mono, lemma_window_bound, ors_top, p2, spills, window, zero_lead,
};
use crate::specifier::Specifier;

verus! {

/// A field that the getter reads and the setter writes bit for bit, with no
/// neighbouring bit read or changed.
pub open spec fn exact_field(prev: int, bits: int) -> bool {
    &&& !spills(prev, bits)
    &&& !ors_top(prev, bits)
    &&& !zero_lead(prev, bits)
}

pub struct MyFourBytes {
    data: [u8; 5],
}

impl MyFourBytes {
    /// The bytes that hold the fields.
    pub closed spec fn bytes(&self) -> Seq<u8> {
        self.data@
    }

    pub open spec fn field(&self, prev: int, bits: int) -> nat {
        window(self.bytes(), prev, prev + bits)
    }

    pub open spec fn a(&self) -> nat {
        self.field(0, 1)
    }

    pub open spec fn b(&self) -> nat {
        self.field(1, 3)
    }

    pub open spec fn c(&self) -> nat {
        self.field(4, 4)
    }

    pub open spec fn p1(&self) -> nat {
        self.field(8, 3)
    }

    pub open spec fn d(&self) -> nat {
        self.field(11, 25)
    }

    pub open spec fn p2(&self) -> nat {
        self.field(36, 4)
    }

    /// All fields zero.
    pub fn new() -> (r: Self)
        ensures
            r.bytes().len() == 5,
            r.a() == 0,
            r.b() == 0,
            r.c() == 0,
            r.p1() == 0,
            r.d() == 0,
            r.p2() == 0,
    {
        let r = MyFourBytes { data: [0u8; 5] };
        proof {
            assert forall|i: int| 0 <= i < 40 implies #[trigger] bit(r.data@, i) == 0 by {
                let b = r.data@[i / 8];
                assert(b == 0);
                let sh = (7 - i % 8) as u8;
                assert((0u8 >> sh) & 1u8 == 0u8) by (bit_vector);
            }
            lemma_window_zero(r.data@, 0, 1);
            lemma_window_zero(r.data@, 1, 4);
            lemma_window_zero(r.data@, 4, 8);
            lemma_window_zero(r.data@, 8, 11);
            lemma_window_zero(r.data@, 11, 36);
            lemma_window_zero(r.data@, 36, 40);
        }
        r
    }

    fn get_field(&self, prev: usize, bits: usize) -> (r: u64)
        requires
            exact_field(prev as int, bits as int),
            1 <= bits <= 32,
            prev + bits <= 40,
        ensures
            r as nat == self.field(prev as int, bits as int),
            (r as nat) < p2(bits as nat),
    {
        let r = field_get(&self.data, prev, bits);
        proof {
            lemma_window_bound(self.data@, prev as int, prev + bits);
        }
        r
    }

    fn set_field(&mut self, prev: usize, bits: usize, val: u64)
        requires
            exact_field(prev as int, bits as int),
            1 <= bits <= 32,
            prev + bits <= 40,
        ensures
            final(self).field(prev as int, bits as int) == (val as nat) % p2(bits as nat),
            forall|prev2: int, bits2: int|
                exact_field(prev2, bits2) && 1 <= bits2 <= 64 && 0 <= prev2 && prev2 + bits2 <= 40
                    && (prev2 + bits2 <= prev || prev + bits <= prev2) ==> #[trigger] final(self).field(
                    prev2,
                    bits2,
                ) == old(self).field(prev2, bits2),
    {
        let ghost d = self.data@;
        field_set(&mut self.data, prev, bits, val);
        proof {
            let d2 = self.data@;
            law_get_after_set(d, d2, prev as int, bits as int, val);
            assert forall|prev2: int, bits2: int|
                exact_field(prev2, bits2) && 1 <= bits2 <= 64 && 0 <= prev2 && prev2 + bits2 <= 40
                    && (prev2 + bits2 <= prev || prev + bits <= prev2) implies #[trigger] window(
                    d2,
                    prev2,
                    prev2 + bits2,
                ) == window(d, prev2, prev2 + bits2) by {
                law_set_keeps_other_field(d, d2, prev as int, bits as int, val, prev2, bits2);
            }
        }
    }

    pub fn get_a(&self) -> (r: <crate::specifier::B1 as Specifier>::Ty)
        ensures
            r as nat == self.a(),
    {
        proof {
            lemma_p2_8();
        }
        self.get_field(0, 1) as u8
    }

    pub fn set_a(&mut self, val: <crate::specifier::B1 as Specifier>::Ty)
        ensures
            final(self).a() == (val as nat) % 2,
            final(self).b() == old(self).b(),
            final(self).c() == old(self).c(),
            final(self).p1() == old(self).p1(),
            final(self).d() == old(self).d(),
            final(self).p2() == old(self).p2(),
    {
        proof {
            lemma_p2_8();
        }
        self.set_field(0, 1, val as u64);
    }

    pub fn get_b(&self) -> (r: <crate::specifier::B3 as Specifier>::Ty)
        ensures
            r as nat == self.b(),
    {
        proof {
            lemma_p2_mono(3, 8);
            lemma_p2_8();
        }
        self.get_field(1, 3) as u8
    }

    pub fn set_b(&mut self, val: <crate::specifier::B3 as Specifier>::Ty)
        ensures
            final(self).b() == (val as nat) % 8,
            final(self).a() == old(self).a(),
            final(self).c() == old(self).c(),
            final(self).p1() == old(self).p1(),
            final(self).d() == old(self).d(),
            final(self).p2() == old(self).p2(),
    {
        proof {
            reveal_with_fuel(p2, 4);
        }
        self.set_field(1, 3, val as u64);
    }

    pub fn get_c(&self) -> (r: <crate::specifier::B4 as Specifier>::Ty)
        ensures
            r as nat == self.c(),
    {
        proof {
            lemma_p2_mono(4, 8);
            lemma_p2_8();
        }
        self.get_field(4, 4) as u8
    }

    pub fn set_c(&mut self, val: <crate::specifier::B4 as Specifier>::Ty)
        ensures
            final(self).c() == (val as nat) % 16,
            final(self).a() == old(self).a(),
            final(self).b() == old(self).b(),
            final(self).p1() == old(self).p1(),
            final(self).d() == old(self).d(),
            final(self).p2() == old(self).p2(),
    {
        proof {
            reveal_with_fuel(p2, 5);
        }
        self.set_field(4, 4, val as u64);
    }

    pub fn get_p1(&self) -> (r: <crate::specifier::B3 as Specifier>::Ty)
        ensures
            r as nat == self.p1(),
    {
        proof {
            lemma_p2_mono(3, 8);
            lemma_p2_8();
        }
        self.get_field(8, 3) as u8
    }

    pub fn set_p1(&mut self, val: <crate::specifier::B3 as Specifier>::Ty)
        ensures
            final(self).p1() == (val as nat) % 8,
            final(self).a() == old(self).a(),
            final(self).b() == old(self).b(),
            final(self).c() == old(self).c(),
            final(self).d() == old(self).d(),
            final(self).p2() == old(self).p2(),
    {
        proof {
            reveal_with_fuel(p2, 4);
        }
        self.set_field(8, 3, val as u64);
    }

    pub fn get_d(&self) -> (r: <crate::specifier::B25 as Specifier>::Ty)
        ensures
            r as nat == self.d(),
    {
        proof {
            lemma_p2_mono(25, 32);
            lemma_p2_32();
        }
        self.get_field(11, 25) as u32
    }

    pub fn set_d(&mut self, val: <crate::specifier::B25 as Specifier>::Ty)
        ensures
            final(self).d() == (val as nat) % 0x200_0000,
            final(self).a() == old(self).a(),
            final(self).b() == old(self).b(),
            final(self).c() == old(self).c(),
            final(self).p1() == old(self).p1(),
            final(self).p2() == old(self).p2(),
    {
        proof {
            lemma_p2_25();
        }
        self.set_field(11, 25, val as u64);
    }

    pub fn get_p2(&self) -> (r: <crate::specifier::B4 as Specifier>::Ty)
        ensures
            r as nat == self.p2(),
    {
        proof {
            lemma_p2_mono(4, 8);
            lemma_p2_8();
        }
        self.get_field(36, 4) as u8
    }

    pub fn set_p2(&mut self, val: <crate::specifier::B4 as Specifier>::Ty)
        ensures
            final(self).p2() == (val as nat) % 16,
            final(self).a() == old(self).a(),
            final(self).b() == old(self).b(),
            final(self).c() == old(self).c(),
            final(self).p1() == old(self).p1(),
            final(self).d() == old(self).d(),
    {
        proof {
            reveal_with_fuel(p2, 5);
        }
        self.set_field(36, 4, val as u64);
    }
}

impl Specifier for MyFourBytes {
    const BITS: usize = 40;

    type Ty = Self;
}

proof fn lemma_window_zero(d: Seq<u8>, lo: int, hi: int)
    requires
        0 <= lo <= hi,
        forall|i: int| lo <= i < hi ==> #[trigger] bit(d, i) == 0,
    ensures
        window(d, lo, hi) == 0,
    decreases hi - lo,
{
    if hi > lo {
        lemma_window_zero(d, lo, hi - 1);
        assert(bit(d, hi - 1) == 0);
    }
}

proof fn lemma_p2_32()
    ensures
        p2(32) == 0x1_0000_0000,
{
    lemma_p2_8();
    lemma_p2_add(8, 8);
    assert(p2(16) == 65536);
    lemma_p2_add(16, 16);
}

proof fn lemma_p2_25()
    ensures
        p2(25) == 0x200_0000,
{
    lemma_p2_8();
    lemma_p2_add(8, 8);
    assert(p2(16) == 65536);
    lemma_p2_add(16, 8);
    assert(p2(24) == 0x100_0000);
    lemma_p2_add(24, 1);
}

} // verus!
