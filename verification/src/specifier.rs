//! Bit-width markers for the fields of a packed struct.

use vstd::prelude::*;

verus! {

/// A type that can stand for a field of a packed struct: the field takes
/// `BITS` bits, and its getter and setter use `Ty`.
pub trait Specifier {
    const BITS: usize;

    type Ty;
}

impl Specifier for bool {
    const BITS: usize = 1;

    type Ty = bool;
}

/// A field of 1 bit.
pub struct B1;

impl Specifier for B1 {
    const BITS: usize = 1;

    type Ty = u8;
}

/// A field of 2 bits.
pub struct B2;

impl Specifier for B2 {
    const BITS: usize = 2;

    type Ty = u8;
}

/// A field of 3 bits.
pub struct B3;

impl Specifier for B3 {
    const BITS: usize = 3;

    type Ty = u8;
}

/// A field of 4 bits.
pub struct B4;

impl Specifier for B4 {
    const BITS: usize = 4;

    type Ty = u8;
}

/// A field of 5 bits.
pub struct B5;

impl Specifier for B5 {
    const BITS: usize = 5;

    type Ty = u8;
}

/// A field of 6 bits.
pub struct B6;

impl Specifier for B6 {
    const BITS: usize = 6;

    type Ty = u8;
}

/// A field of 7 bits.
pub struct B7;

impl Specifier for B7 {
    const BITS: usize = 7;

    type Ty = u8;
}

/// A field of 8 bits.
pub struct B8;

impl Specifier for B8 {
    const BITS: usize = 8;

    type Ty = u8;
}

/// A field of 9 bits.
pub struct B9;

impl Specifier for B9 {
    const BITS: usize = 9;

    type Ty = u16;
}

/// A field of 10 bits.
pub struct B10;

impl Specifier for B10 {
    const BITS: usize = 10;

    type Ty = u16;
}

/// A field of 11 bits.
pub struct B11;

impl Specifier for B11 {
    const BITS: usize = 11;

    type Ty = u16;
}

/// A field of 12 bits.
pub struct B12;

impl Specifier for B12 {
    const BITS: usize = 12;

    type Ty = u16;
}

/// A field of 13 bits.
pub struct B13;

impl Specifier for B13 {
    const BITS: usize = 13;

    type Ty = u16;
}

/// A field of 14 bits.
pub struct B14;

impl Specifier for B14 {
    const BITS: usize = 14;

    type Ty = u16;
}

/// A field of 15 bits.
pub struct B15;

impl Specifier for B15 {
    const BITS: usize = 15;

    type Ty = u16;
}

/// A field of 16 bits.
pub struct B16;

impl Specifier for B16 {
    const BITS: usize = 16;

    type Ty = u16;
}

/// A field of 17 bits.
pub struct B17;

impl Specifier for B17 {
    const BITS: usize = 17;

    type Ty = u32;
}

/// A field of 18 bits.
pub struct B18;

impl Specifier for B18 {
    const BITS: usize = 18;

    type Ty = u32;
}

/// A field of 19 bits.
pub struct B19;

impl Specifier for B19 {
    const BITS: usize = 19;

    type Ty = u32;
}

/// A field of 20 bits.
pub struct B20;

impl Specifier for B20 {
    const BITS: usize = 20;

    type Ty = u32;
}

/// A field of 21 bits.
pub struct B21;

impl Specifier for B21 {
    const BITS: usize = 21;

    type Ty = u32;
}

/// A field of 22 bits.
pub struct B22;

impl Specifier for B22 {
    const BITS: usize = 22;

    type Ty = u32;
}

/// A field of 23 bits.
pub struct B23;

impl Specifier for B23 {
    const BITS: usize = 23;

    type Ty = u32;
}

/// A field of 24 bits.
pub struct B24;

impl Specifier for B24 {
    const BITS: usize = 24;

    type Ty = u32;
}

/// A field of 25 bits.
pub struct B25;

impl Specifier for B25 {
    const BITS: usize = 25;

    type Ty = u32;
}

/// A field of 26 bits.
pub struct B26;

impl Specifier for B26 {
    const BITS: usize = 26;

    type Ty = u32;
}

/// A field of 27 bits.
pub struct B27;

impl Specifier for B27 {
    const BITS: usize = 27;

    type Ty = u32;
}

/// A field of 28 bits.
pub struct B28;

impl Specifier for B28 {
    const BITS: usize = 28;

    type Ty = u32;
}

/// A field of 29 bits.
pub struct B29;

impl Specifier for B29 {
    const BITS: usize = 29;

    type Ty = u32;
}

/// A field of 30 bits.
pub struct B30;

impl Specifier for B30 {
    const BITS: usize = 30;

    type Ty = u32;
}

/// A field of 31 bits.
pub struct B31;

impl Specifier for B31 {
    const BITS: usize = 31;

    type Ty = u32;
}

/// A field of 32 bits.
pub struct B32;

impl Specifier for B32 {
    const BITS: usize = 32;

    type Ty = u32;
}

/// A field of 33 bits.
pub struct B33;

impl Specifier for B33 {
    const BITS: usize = 33;

    type Ty = u64;
}

/// A field of 34 bits.
pub struct B34;

impl Specifier for B34 {
    const BITS: usize = 34;

    type Ty = u64;
}

/// A field of 35 bits.
pub struct B35;

impl Specifier for B35 {
    const BITS: usize = 35;

    type Ty = u64;
}

/// A field of 36 bits.
pub struct B36;

impl Specifier for B36 {
    const BITS: usize = 36;

    type Ty = u64;
}

/// A field of 37 bits.
pub struct B37;

impl Specifier for B37 {
    const BITS: usize = 37;

    type Ty = u64;
}

/// A field of 38 bits.
pub struct B38;

impl Specifier for B38 {
    const BITS: usize = 38;

    type Ty = u64;
}

/// A field of 39 bits.
pub struct B39;

impl Specifier for B39 {
    const BITS: usize = 39;

    type Ty = u64;
}

/// A field of 40 bits.
pub struct B40;

impl Specifier for B40 {
    const BITS: usize = 40;

    type Ty = u64;
}

/// A field of 41 bits.
pub struct B41;

impl Specifier for B41 {
    const BITS: usize = 41;

    type Ty = u64;
}

/// A field of 42 bits.
pub struct B42;

impl Specifier for B42 {
    const BITS: usize = 42;

    type Ty = u64;
}

/// A field of 43 bits.
pub struct B43;

impl Specifier for B43 {
    const BITS: usize = 43;

    type Ty = u64;
}

/// A field of 44 bits.
pub struct B44;

impl Specifier for B44 {
    const BITS: usize = 44;

    type Ty = u64;
}

/// A field of 45 bits.
pub struct B45;

impl Specifier for B45 {
    const BITS: usize = 45;

    type Ty = u64;
}

/// A field of 46 bits.
pub struct B46;

impl Specifier for B46 {
    const BITS: usize = 46;

    type Ty = u64;
}

/// A field of 47 bits.
pub struct B47;

impl Specifier for B47 {
    const BITS: usize = 47;

    type Ty = u64;
}

/// A field of 48 bits.
pub struct B48;

impl Specifier for B48 {
    const BITS: usize = 48;

    type Ty = u64;
}

/// A field of 49 bits.
pub struct B49;

impl Specifier for B49 {
    const BITS: usize = 49;

    type Ty = u64;
}

/// A field of 50 bits.
pub struct B50;

impl Specifier for B50 {
    const BITS: usize = 50;

    type Ty = u64;
}

/// A field of 51 bits.
pub struct B51;

impl Specifier for B51 {
    const BITS: usize = 51;

    type Ty = u64;
}

/// A field of 52 bits.
pub struct B52;

impl Specifier for B52 {
    const BITS: usize = 52;

    type Ty = u64;
}

/// A field of 53 bits.
pub struct B53;

impl Specifier for B53 {
    const BITS: usize = 53;

    type Ty = u64;
}

/// A field of 54 bits.
pub struct B54;

impl Specifier for B54 {
    const BITS: usize = 54;

    type Ty = u64;
}

/// A field of 55 bits.
pub struct B55;

impl Specifier for B55 {
    const BITS: usize = 55;

    type Ty = u64;
}

/// A field of 56 bits.
pub struct B56;

impl Specifier for B56 {
    const BITS: usize = 56;

    type Ty = u64;
}

/// A field of 57 bits.
pub struct B57;

impl Specifier for B57 {
    const BITS: usize = 57;

    type Ty = u64;
}

/// A field of 58 bits.
pub struct B58;

impl Specifier for B58 {
    const BITS: usize = 58;

    type Ty = u64;
}

/// A field of 59 bits.
pub struct B59;

impl Specifier for B59 {
    const BITS: usize = 59;

    type Ty = u64;
}

/// A field of 60 bits.
pub struct B60;

impl Specifier for B60 {
    const BITS: usize = 60;

    type Ty = u64;
}

/// A field of 61 bits.
pub struct B61;

impl Specifier for B61 {
    const BITS: usize = 61;

    type Ty = u64;
}

/// A field of 62 bits.
pub struct B62;

impl Specifier for B62 {
    const BITS: usize = 62;

    type Ty = u64;
}

/// A field of 63 bits.
pub struct B63;

impl Specifier for B63 {
    const BITS: usize = 63;

    type Ty = u64;
}

/// A field of 64 bits.
pub struct B64;

impl Specifier for B64 {
    const BITS: usize = 64;

    type Ty = u64;
}

} // verus!
