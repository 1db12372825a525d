//! The decisions of `#[bitfield]` and `#[derive(BitfieldSpecifier)]`: the
//! `#[bits = N]` attribute of a field, where each field starts, the accessor
//! names, and the width of an enum used as a field.

use vstd::prelude::*;
use crate::bits::p2;

verus! {

/// An attribute of a field of a bitfield struct.
pub enum BitsAttr {
    /// `name = <integer literal>`, by the literal's text.
    NameValueInt(String),
    /// `name = <literal that is no integer>`
    NameValueLit,
    /// `name = <expression that is no literal>`
    NameValueExpr,
    /// `name` or `name(...)`
    NotNameValue,
}

/// Why the attributes of a field are refused, and at which attribute.
#[derive(Debug, PartialEq, Eq, Structural, Clone, Copy)]
pub enum BitsAttrError {
    /// "can't define more than one bit attribute!"
    Duplicate(usize),
    /// "expected integer literal"
    NotIntLiteral(usize),
    /// "expected #[bits = <num>]"
    NotNameValue(usize),
}

/// The number of `NameValueInt` attributes among the first `k`.
pub open spec fn int_attrs(attrs: Seq<BitsAttr>, k: int) -> nat
    decreases k,
{
    if k <= 0 || k > attrs.len() {
        0
    } else {
        int_attrs(attrs, k - 1) + if attrs[k - 1] is NameValueInt { 1nat } else { 0nat }
    }
}

pub open spec fn attr_error_at(attrs: Seq<BitsAttr>, i: int) -> Option<BitsAttrError> {
    match attrs[i] {
        BitsAttr::NameValueInt(_) => if int_attrs(attrs, i) >= 1 {
            Some(BitsAttrError::Duplicate(i as usize))
        } else {
            None
        },
        BitsAttr::NameValueLit => Some(BitsAttrError::NotIntLiteral(i as usize)),
        BitsAttr::NameValueExpr => Some(BitsAttrError::NotIntLiteral(i as usize)),
        BitsAttr::NotNameValue => Some(BitsAttrError::NotNameValue(i as usize)),
    }
}

/// The declared width of a field: the text of its one `name = <integer>`
/// attribute, none when it has no attribute; the error at the first
/// attribute that is not such, or that repeats one.
pub fn bits_attribute(attrs: &Vec<BitsAttr>) -> (r: Result<Option<String>, BitsAttrError>)
    ensures
        match r {
            Ok(None) => attrs@.len() == 0,
            Ok(Some(t)) => attrs@.len() == 1 && (attrs@[0] matches BitsAttr::NameValueInt(u) && u@ == t@),
            Err(e) => exists|i: int| 0 <= i < attrs@.len() && attr_error_at(attrs@, i) == Some(e)
                && forall|j: int| 0 <= j < i ==> #[trigger] attr_error_at(attrs@, j) is None,
        },
{
    let mut num: Option<String> = None;
    let mut i: usize = 0;
    while i < attrs.len()
        invariant
            i <= attrs@.len(),
            forall|j: int| 0 <= j < i ==> #[trigger] attr_error_at(attrs@, j) is None,
            int_attrs(attrs@, i as int) == if num is Some { 1nat } else { 0nat },
            i >= 1 ==> num is Some,
            num matches Some(t) ==> (attrs@[0] matches BitsAttr::NameValueInt(u) && u@ == t@),
        decreases attrs@.len() - i,
    {
        match &attrs[i] {
            BitsAttr::NameValueInt(t) => {
                if num.is_some() {
                    proof {
                        assert(attr_error_at(attrs@, i as int) == Some(BitsAttrError::Duplicate(i)));
                    }
                    return Err(BitsAttrError::Duplicate(i));
                }
                num = Some(t.clone());
            },
            BitsAttr::NameValueLit => {
                proof {
                    assert(attr_error_at(attrs@, i as int) == Some(BitsAttrError::NotIntLiteral(i)));
                }
                return Err(BitsAttrError::NotIntLiteral(i));
            },
            BitsAttr::NameValueExpr => {
                proof {
                    assert(attr_error_at(attrs@, i as int) == Some(BitsAttrError::NotIntLiteral(i)));
                }
                return Err(BitsAttrError::NotIntLiteral(i));
            },
            BitsAttr::NotNameValue => {
                proof {
                    assert(attr_error_at(attrs@, i as int) == Some(BitsAttrError::NotNameValue(i)));
                }
                return Err(BitsAttrError::NotNameValue(i));
            },
        }
        i = i + 1;
    }
    proof {
        if attrs@.len() >= 2 {
            assert(attr_error_at(attrs@, 1) is None);
        }
    }
    Ok(num)
}

/// The sum of the first `k` widths.
pub open spec fn width_sum(widths: Seq<usize>, k: int) -> nat
    decreases k,
{
    if k <= 0 || k > widths.len() {
        0
    } else {
        width_sum(widths, k - 1) + widths[k - 1] as nat
    }
}

/// Where each field starts (the sum of the widths before it) and the width of
/// the whole struct.
pub fn layout(widths: &Vec<usize>) -> (r: (Vec<usize>, usize))
    requires
        width_sum(widths@, widths@.len() as int) <= usize::MAX,
    ensures
        r.0@.len() == widths@.len(),
        forall|i: int| 0 <= i < widths@.len() ==> #[trigger] r.0@[i] == width_sum(widths@, i),
        r.1 == width_sum(widths@, widths@.len() as int),
{
    let mut offsets: Vec<usize> = Vec::new();
    let mut prev: usize = 0;
    let mut i: usize = 0;
    while i < widths.len()
        invariant
            i <= widths@.len(),
            width_sum(widths@, widths@.len() as int) <= usize::MAX,
            offsets@.len() == i,
            prev == width_sum(widths@, i as int),
            forall|j: int| 0 <= j < i ==> #[trigger] offsets@[j] == width_sum(widths@, j),
        decreases widths@.len() - i,
    {
        offsets.push(prev);
        proof {
            lemma_width_sum_mono(widths@, i as int + 1, widths@.len() as int);
        }
        prev = prev + widths[i];
        i = i + 1;
    }
    (offsets, prev)
}

pub proof fn lemma_width_sum_mono(widths: Seq<usize>, j: int, k: int)
    requires
        0 <= j <= k <= widths.len(),
    ensures
        width_sum(widths, j) <= width_sum(widths, k),
    decreases k - j,
{
    if k > j {
        lemma_width_sum_mono(widths, j, k - 1);
    }
}

/// The fields that `layout` places lie one after the other: field `i` ends
/// where field `i + 1` starts, so no two fields share a bit, and all of them
/// end by the struct's width.
pub proof fn law_layout_disjoint(widths: Seq<usize>, i: int, j: int)
    requires
        0 <= i < j < widths.len(),
    ensures
        width_sum(widths, i) + widths[i] <= width_sum(widths, j),
        width_sum(widths, j) + widths[j] <= width_sum(widths, widths.len() as int),
{
    assert(width_sum(widths, i + 1) == width_sum(widths, i) + widths[i]);
    lemma_width_sum_mono(widths, i + 1, j);
    assert(width_sum(widths, j + 1) == width_sum(widths, j) + widths[j]);
    lemma_width_sum_mono(widths, j + 1, widths.len() as int);
}

/// The struct compiles only when its width is a whole number of bytes; its
/// data is then `width / 8` bytes.
pub fn size_check(total: usize) -> (r: Option<usize>)
    ensures
        r == if total % 8 == 0 { Some(total / 8) } else { None::<usize> },
{
    if total % 8 == 0 {
        Some(total / 8)
    } else {
        None
    }
}

/// `prefix` followed by the field's name.
fn prefixed(prefix: &str, name: &String) -> (r: String)
    ensures
        r@ == prefix@ + name@,
{
    let mut r = String::from_str(prefix);
    r.append(name.as_str());
    r
}

/// The names of the getter and the setter of a field: `get_name`, `set_name`.
pub fn accessor_names(name: &String) -> (r: (String, String))
    ensures
        r.0@ == "get_"@ + name@,
        r.1@ == "set_"@ + name@,
{
    (prefixed("get_", name), prefixed("set_", name))
}

/// The base-2 logarithm of `n`, rounded down.
pub open spec fn log2(n: nat) -> nat
    decreases n,
{
    if n < 2 {
        0
    } else {
        1 + log2(n / 2)
    }
}

#[derive(Debug, PartialEq, Eq, Structural, Clone, Copy)]
pub enum SpecifierError {
    /// "must be unit type!", at the given variant.
    NotUnit(usize),
    /// "BitfieldSpecifier expected a number of variants which is a power of 2"
    NotPowerOfTwo,
}

/// `#[derive(BitfieldSpecifier)]` on an enum whose variants are unit
/// variants or not: the number of bits of the enum as a field, the base-2
/// logarithm of the number of variants.
pub fn bitfield_specifier_enum(variant_is_unit: &Vec<bool>) -> (r: Result<usize, SpecifierError>)
    requires
        variant_is_unit@.len() > 0,
    ensures
        match r {
            Ok(m) => (forall|i: int| 0 <= i < variant_is_unit@.len() ==> #[trigger] variant_is_unit@[i])
                && m == log2(variant_is_unit@.len() as nat) && p2(m as nat) == variant_is_unit@.len(),
            Err(SpecifierError::NotUnit(i)) => i < variant_is_unit@.len() && !variant_is_unit@[i as int]
                && forall|j: int| 0 <= j < i ==> #[trigger] variant_is_unit@[j],
            Err(SpecifierError::NotPowerOfTwo) => (forall|i: int| 0 <= i < variant_is_unit@.len() ==> #[trigger] variant_is_unit@[i])
                && p2(log2(variant_is_unit@.len() as nat)) != variant_is_unit@.len(),
        },
{
    let mut i: usize = 0;
    while i < variant_is_unit.len()
        invariant
            i <= variant_is_unit@.len(),
            forall|j: int| 0 <= j < i ==> #[trigger] variant_is_unit@[j],
        decreases variant_is_unit@.len() - i,
    {
        if !variant_is_unit[i] {
            return Err(SpecifierError::NotUnit(i));
        }
        i = i + 1;
    }
    let n = variant_is_unit.len();
    let mag = ilog2(n);
    let pw = pow2_usize(mag);
    if pw != n {
        return Err(SpecifierError::NotPowerOfTwo);
    }
    Ok(mag)
}

/// `usize::ilog2` of a positive number.
fn ilog2(n: usize) -> (r: usize)
    requires
        n > 0,
    ensures
        r == log2(n as nat),
        p2(r as nat) <= n,
        r < 64,
{
    let mut m = n;
    let mut r: usize = 0;
    proof {
        assert(p2(0) == 1);
    }
    while m >= 2
        invariant
            1 <= m <= n,
            r + log2(m as nat) == log2(n as nat),
            p2(r as nat) * m <= n,
            r < 64,
            n <= usize::MAX,
        decreases m,
    {
        proof {
            assert(p2((r + 1) as nat) == 2 * p2(r as nat));
            let q = (m / 2) as nat;
            assert(p2((r + 1) as nat) * q <= p2(r as nat) * m) by (nonlinear_arith)
                requires
                    p2((r + 1) as nat) == 2 * p2(r as nat),
                    q == m / 2,
                    m >= 2,
            ;
            lemma_p2_grows(r as nat);
            crate::bits::lemma_p2_64();
            assert(p2((r + 1) as nat) * q >= p2((r + 1) as nat)) by (nonlinear_arith)
                requires
                    q >= 1,
            ;
            if r + 1 >= 64 {
                crate::bits::lemma_p2_mono(64, (r + 1) as nat);
                assert(p2((r + 1) as nat) >= 0x1_0000_0000_0000_0000);
            }
        }
        m = m / 2;
        r = r + 1;
    }
    proof {
        assert(p2(r as nat) * m >= p2(r as nat)) by (nonlinear_arith)
            requires
                m >= 1,
        ;
    }
    r
}

proof fn lemma_p2_grows(k: nat)
    ensures
        p2(k + 1) == 2 * p2(k),
{
}

/// `2usize.pow(k)`.
fn pow2_usize(k: usize) -> (r: usize)
    requires
        k < 64,
        p2(k as nat) <= usize::MAX,
    ensures
        r == p2(k as nat),
{
    let mut r: usize = 1;
    let mut i: usize = 0;
    while i < k
        invariant
            i <= k < 64,
            r == p2(i as nat),
            p2(k as nat) <= usize::MAX,
        decreases k - i,
    {
        proof {
            crate::bits::lemma_p2_mono((i + 1) as nat, k as nat);
        }
        r = r * 2;
        i = i + 1;
    }
    r
}

/// The variant that `TryFrom<u64>` gives for a value: the first variant
/// whose discriminant is the value, or none.
pub fn variant_for(discriminants: &Vec<u64>, val: u64) -> (r: Option<usize>)
    ensures
        match r {
            Some(i) => i < discriminants@.len() && discriminants@[i as int] == val
                && forall|j: int| 0 <= j < i ==> #[trigger] discriminants@[j] != val,
            None => forall|j: int| 0 <= j < discriminants@.len() ==> #[trigger] discriminants@[j] != val,
        },
        discriminants@.no_duplicates() ==> forall|k: int|
            0 <= k < discriminants@.len() && #[trigger] discriminants@[k] == val ==> r == Some(k as usize),
{
    let mut i: usize = 0;
    while i < discriminants.len()
        invariant
            i <= discriminants@.len(),
            forall|j: int| 0 <= j < i ==> #[trigger] discriminants@[j] != val,
        decreases discriminants@.len() - i,
    {
        if discriminants[i] == val {
            return Some(i);
        }
        i = i + 1;
    }
    None
}


/// For an enum of `m` bits whose discriminants are distinct and below `2^m`:
/// writing a variant's discriminant into `(m + 7) / 8` bytes, as the setter of
/// a field of the enum does, and reading the bytes back, as its getter does,
/// gives the discriminant again, and that discriminant belongs to this variant
/// alone, so `variant_for` finds the variant again.
pub proof fn law_specifier_roundtrip(discriminants: Seq<u64>, m: nat, k: int)
    requires
        m <= 64,
        discriminants.no_duplicates(),
        forall|j: int| 0 <= j < discriminants.len() ==> (#[trigger] discriminants[j] as nat) < crate::bits::p2(m),
        0 <= k < discriminants.len(),
    ensures
        crate::bits::be_value(crate::bytes_of(discriminants[k] as u128, ((m + 7) / 8) as nat)) == discriminants[k],
        forall|j: int| 0 <= j < discriminants.len() && #[trigger] discriminants[j] == discriminants[k] ==> j == k,
{
    let n = ((m + 7) / 8) as nat;
    assert(8 * n >= m && n <= 8);
    crate::bits::lemma_p2_mono(m, 8 * n);
    assert((discriminants[k] as nat) < crate::bits::p2(m));
    crate::law_byte_array_roundtrip(discriminants[k] as u128, n);
}

} // verus!
