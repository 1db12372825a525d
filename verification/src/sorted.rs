//! The checks of `#[sorted]` on an enum and of `#[sorted]` on a `match`
//! inside a function marked `#[sorted::check]`.

use vstd::prelude::*;
use crate::text::{
    lemma_str_lt_irreflexive, lemma_str_lt_total, lemma_str_lt_transitive, name_lt, str_lt,
};

verus! {

/// The first name that is out of order (`index`), and the first earlier name
/// that it should sort before (`before`).
#[derive(Debug, PartialEq, Eq, Structural, Clone, Copy)]
pub struct OutOfOrder {
    pub index: usize,
    pub before: usize,
}

/// The names of a list of strings.
pub open spec fn names_of(v: Seq<String>) -> Seq<Seq<char>> {
    v.map_values(|s: String| s@)
}

/// Each name sorts no earlier than the one before it.
pub open spec fn adjacent_in_order(names: Seq<Seq<char>>) -> bool {
    forall|i: int| 1 <= i < names.len() ==> !#[trigger] str_lt(names[i], names[i - 1])
}

/// `e` names the first name that sorts before its predecessor, and the first
/// name before it that it sorts before.
pub open spec fn is_first_disorder(names: Seq<Seq<char>>, e: OutOfOrder) -> bool {
    &&& 1 <= e.index < names.len()
    &&& str_lt(names[e.index as int], names[e.index - 1])
    &&& forall|k: int| 1 <= k < e.index ==> !#[trigger] str_lt(names[k], names[k - 1])
    &&& e.before < e.index
    &&& str_lt(names[e.index as int], names[e.before as int])
    &&& forall|j: int| 0 <= j < e.before ==> !#[trigger] str_lt(names[e.index as int], names[j])
}

/// Finds the first name that sorts before the name preceding it.
pub fn find_out_of_order(idents: &Vec<String>) -> (r: Result<(), OutOfOrder>)
    ensures
        r is Ok <==> adjacent_in_order(names_of(idents@)),
        r matches Err(e) ==> is_first_disorder(names_of(idents@), e),
{
    let ghost names = names_of(idents@);
    let mut i: usize = 1;
    while i < idents.len()
        invariant
            1 <= i,
            i <= idents@.len() || idents@.len() == 0,
            names == names_of(idents@),
            forall|k: int| 1 <= k < i && k < names.len() ==> !#[trigger] str_lt(names[k], names[k - 1]),
        decreases idents@.len() - i,
    {
        if name_lt(idents[i].as_str(), idents[i - 1].as_str()) {
            let mut j: usize = 0;
            while j < i
                invariant
                    j <= i < idents@.len(),
                    names == names_of(idents@),
                    str_lt(names[i as int], names[i - 1]),
                    forall|k: int| 0 <= k < j ==> !#[trigger] str_lt(names[i as int], names[k]),
                    forall|k: int| 1 <= k < i ==> !#[trigger] str_lt(names[k], names[k - 1]),
                decreases i - j,
            {
                if name_lt(idents[i].as_str(), idents[j].as_str()) {
                    return Err(OutOfOrder { index: i, before: j });
                }
                j = j + 1;
            }
            proof {
                assert(!str_lt(names[i as int], names[i - 1]));
            }
        }
        i = i + 1;
    }
    Ok(())
}

/// When every name sorts no earlier than the one before it, the whole list is
/// sorted: no name sorts before any earlier one.
pub proof fn law_in_order_is_sorted(names: Seq<Seq<char>>, i: int, j: int)
    requires
        adjacent_in_order(names),
        0 <= i < j < names.len(),
    ensures
        !str_lt(names[j], names[i]),
    decreases j - i,
{
    if j == i + 1 {
        assert(!str_lt(names[j], names[j - 1]));
    } else {
        law_in_order_is_sorted(names, i, j - 1);
        assert(!str_lt(names[j], names[j - 1]));
        if str_lt(names[j], names[i]) {
            lemma_str_lt_total(names[i], names[j - 1]);
            if names[i] == names[j - 1] {
            } else if str_lt(names[i], names[j - 1]) {
                lemma_str_lt_transitive(names[j], names[i], names[j - 1]);
            }
        }
    }
}

/// The item that `#[sorted]` is put on: an enum, with the names of its
/// variants in order, or anything else.
pub enum SortedItem {
    Enum(Vec<String>),
    Other,
}

#[derive(Debug, PartialEq, Eq, Structural, Clone, Copy)]
pub enum SortedError {
    /// "expected enum or match expression"
    NotAnEnum,
    OutOfOrder(OutOfOrder),
}

/// The check that `#[sorted]` makes of the item it is put on.
pub fn sorted_impl(item: &SortedItem) -> (r: Result<(), SortedError>)
    ensures
        match item {
            SortedItem::Other => r == Err::<(), SortedError>(SortedError::NotAnEnum),
            SortedItem::Enum(v) => {
                &&& r is Ok <==> adjacent_in_order(names_of(v@))
                &&& r matches Err(e) ==> (e matches SortedError::OutOfOrder(o) && is_first_disorder(names_of(v@), o))
            },
        },
{
    match item {
        SortedItem::Other => Err(SortedError::NotAnEnum),
        SortedItem::Enum(v) => match find_out_of_order(v) {
            Ok(()) => Ok(()),
            Err(o) => Err(SortedError::OutOfOrder(o)),
        },
    }
}

/// What the check of one `match` expression does with it.
pub enum MatchOutcome {
    /// The attributes to keep, by position: every one but `#[sorted]`.
    Keep(Vec<usize>),
    /// The arms are out of order: the error is reported and every attribute
    /// of the `match` is dropped.
    Fail(OutOfOrder),
}

/// Checks one `match`: `attr_is_sorted` tells for each of its attributes
/// whether it is `#[sorted]`, `arm_names` holds the name of each arm's pattern
/// that has one, in order.
pub fn check_match(attr_is_sorted: &Vec<bool>, arm_names: &Vec<String>) -> (r: MatchOutcome)
    ensures
        match r {
            MatchOutcome::Keep(kept) => {
                &&& (exists|i: int| 0 <= i < attr_is_sorted@.len() && attr_is_sorted@[i]) ==> adjacent_in_order(
                    names_of(arm_names@),
                )
                &&& kept@ == Seq::new(attr_is_sorted@.len() as nat, |i: int| i).filter(|i: int| !attr_is_sorted@[i]).map_values(|i: int| i as usize)
            },
            MatchOutcome::Fail(e) => {
                &&& exists|i: int| 0 <= i < attr_is_sorted@.len() && attr_is_sorted@[i]
                &&& is_first_disorder(names_of(arm_names@), e)
            },
        },
{
    let mut kept: Vec<usize> = Vec::new();
    let mut i: usize = 0;
    let ghost all = Seq::new(attr_is_sorted@.len() as nat, |i: int| i);
    let ghost keep = |i: int| !attr_is_sorted@[i];
    while i < attr_is_sorted.len()
        invariant
            i <= attr_is_sorted@.len(),
            all == Seq::new(attr_is_sorted@.len() as nat, |i: int| i),
            keep == (|i: int| !attr_is_sorted@[i]),
            kept@ == all.take(i as int).filter(keep).map_values(|i: int| i as usize),
            (exists|k: int| 0 <= k < i && attr_is_sorted@[k]) ==> adjacent_in_order(names_of(arm_names@)),
        decreases attr_is_sorted@.len() - i,
    {
        proof {
            reveal_with_fuel(Seq::<_>::filter, 1);
            assert(all.take(i + 1).drop_last() =~= all.take(i as int));
            assert(all.take(i + 1).last() == i);
        }
        if attr_is_sorted[i] {
            match find_out_of_order(arm_names) {
                Err(e) => {
                    return MatchOutcome::Fail(e);
                },
                Ok(()) => {},
            }
        } else {
            kept.push(i);
            proof {
                assert(kept@ =~= all.take(i + 1).filter(keep).map_values(|i: int| i as usize));
            }
        }
        proof {
            assert(kept@ =~= all.take(i + 1).filter(keep).map_values(|i: int| i as usize));
        }
        i = i + 1;
    }
    proof {
        assert(all.take(i as int) =~= all);
    }
    MatchOutcome::Keep(kept)
}


/// The message of the error: "`{name}` should sort before `{earlier name}`",
/// without the backquotes: "b should sort before c".
pub fn out_of_order_message(idents: &Vec<String>, e: OutOfOrder) -> (r: String)
    requires
        e.index < idents@.len(),
        e.before < idents@.len(),
    ensures
        r@ == idents@[e.index as int]@ + " should sort before "@ + idents@[e.before as int]@,
{
    let mut r = idents[e.index].clone();
    r.append(" should sort before ");
    r.append(idents[e.before].as_str());
    r
}

} // verus!
