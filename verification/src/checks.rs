//! A check, made by the compiler, that a width is a whole number of bytes:
//! `check_mod::<[(); W % 8]>()` compiles only when `W % 8` is zero.

use vstd::prelude::*;

verus! {

/// Implemented only for the marker of a zero remainder.
pub trait MultipleOf8 {}

/// Maps `[(); k]` to the marker of the remainder `k`, for `k < 8`.
pub trait CheckMod8 {
    type Num;
}

/// The marker of the remainder 0.
pub struct ZeroMod8 {}

impl CheckMod8 for [(); 0] {
    type Num = ZeroMod8;
}

impl MultipleOf8 for ZeroMod8 {}

/// The marker of the remainder 1.
pub struct OneMod8 {}

impl CheckMod8 for [(); 1] {
    type Num = OneMod8;
}

/// The marker of the remainder 2.
pub struct TwoMod8 {}

impl CheckMod8 for [(); 2] {
    type Num = TwoMod8;
}

/// The marker of the remainder 3.
pub struct ThreeMod8 {}

impl CheckMod8 for [(); 3] {
    type Num = ThreeMod8;
}

/// The marker of the remainder 4.
pub struct FourMod8 {}

impl CheckMod8 for [(); 4] {
    type Num = FourMod8;
}

/// The marker of the remainder 5.
pub struct FiveMod8 {}

impl CheckMod8 for [(); 5] {
    type Num = FiveMod8;
}

/// The marker of the remainder 6.
pub struct SixMod8 {}

impl CheckMod8 for [(); 6] {
    type Num = SixMod8;
}

/// The marker of the remainder 7.
pub struct SevenMod8 {}

impl CheckMod8 for [(); 7] {
    type Num = SevenMod8;
}

/// Compiles only when `T::Num` is the marker of a zero remainder; returns 0.
pub fn check_mod<T: CheckMod8>() -> (r: u32)
    where T::Num: MultipleOf8,
    ensures
        r == 0,
{
    check_mod_8::<T::Num>();
    0
}

fn check_mod_8<T: MultipleOf8>() {
}

} // verus!
