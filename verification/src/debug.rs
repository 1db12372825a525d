//! `#[derive(CustomDebug)]`: how each field is printed, and which types get a
//! `Debug` bound in the `where` clause of the impl.

use vstd::prelude::*;
use crate::text::name_eq;

verus! {

/// A generic parameter of the struct.
pub enum GenericParamModel {
    Lifetime,
    /// A type parameter, by its name.
    Type(String),
    Const,
}

/// A generic argument inside `<...>` of a path segment.
pub enum GenArgModel {
    Lifetime,
    Type(TypeModel),
    /// A constant, an associated type or constant, or a constraint.
    Unsupported,
    Other,
}

/// The arguments of a path segment.
pub enum SegArgsModel {
    NoArgs,
    Angle(Vec<GenArgModel>),
    Parenthesized,
}

pub struct Segment {
    pub ident: String,
    pub args: SegArgsModel,
}

/// A type: a path (with the text it prints as, and its segments), a tuple,
/// or any other kind of type.
pub enum TypeModel {
    Path(String, Vec<Segment>),
    Tuple(Vec<TypeModel>),
    Other,
}

/// Why the bounds cannot be found.
#[derive(Debug, PartialEq, Eq, Structural, Clone, Copy)]
pub enum GenericsError {
    /// "Const's aren't supported!"
    ConstParam,
    /// "Paranthesized generics not supported!"
    Parenthesized,
    /// "This type isn't supported!"
    UnsupportedArg,
}

/// The types of `t` that need a `Debug` bound, in the order they are met
/// (a type may be met more than once).
pub open spec fn uses_ty(gens: Set<Seq<char>>, t: TypeModel) -> Result<Seq<Seq<char>>, GenericsError>
    decreases t, 0int,
{
    match t {
        TypeModel::Path(text, segs) => uses_segs(gens, text@, segs@, segs@.len() as int),
        TypeModel::Tuple(elems) => uses_tys(gens, elems@, elems@.len() as int),
        TypeModel::Other => Ok(Seq::empty()),
    }
}

/// The uses met in the first `k` segments of the path printed as `text`.
pub open spec fn uses_segs(gens: Set<Seq<char>>, text: Seq<char>, segs: Seq<Segment>, k: int) -> Result<Seq<Seq<char>>, GenericsError>
    decreases segs, k,
{
    if k <= 0 || k > segs.len() {
        Ok(Seq::empty())
    } else {
        match uses_segs(gens, text, segs, k - 1) {
            Err(e) => Err(e),
            Ok(acc) => {
                let seg = segs[k - 1];
                if seg.ident@ == "PhantomData"@ || gens.contains(seg.ident@) {
                    Ok(acc.push(text))
                } else {
                    match seg.args {
                        SegArgsModel::NoArgs => Ok(acc),
                        SegArgsModel::Parenthesized => Err(GenericsError::Parenthesized),
                        SegArgsModel::Angle(args) => match uses_args(gens, args@, args@.len() as int) {
                            Err(e) => Err(e),
                            Ok(u) => Ok(acc + u),
                        },
                    }
                }
            },
        }
    }
}

/// The uses met in the first `k` generic arguments.
pub open spec fn uses_args(gens: Set<Seq<char>>, args: Seq<GenArgModel>, k: int) -> Result<Seq<Seq<char>>, GenericsError>
    decreases args, k,
{
    if k <= 0 || k > args.len() {
        Ok(Seq::empty())
    } else {
        match uses_args(gens, args, k - 1) {
            Err(e) => Err(e),
            Ok(acc) => match args[k - 1] {
                GenArgModel::Type(t) => match uses_ty(gens, t) {
                    Err(e) => Err(e),
                    Ok(u) => Ok(acc + u),
                },
                GenArgModel::Unsupported => Err(GenericsError::UnsupportedArg),
                _ => Ok(acc),
            },
        }
    }
}

/// The uses met in the first `k` types.
pub open spec fn uses_tys(gens: Set<Seq<char>>, ts: Seq<TypeModel>, k: int) -> Result<Seq<Seq<char>>, GenericsError>
    decreases ts, k,
{
    if k <= 0 || k > ts.len() {
        Ok(Seq::empty())
    } else {
        match uses_tys(gens, ts, k - 1) {
            Err(e) => Err(e),
            Ok(acc) => match uses_ty(gens, ts[k - 1]) {
                Err(e) => Err(e),
                Ok(u) => Ok(acc + u),
            },
        }
    }
}


/// `acc` followed by the items of `l` that are not already in it, each once,
/// in the order first met.
pub open spec fn dedup_into(acc: Seq<Seq<char>>, l: Seq<Seq<char>>) -> Seq<Seq<char>>
    decreases l.len(),
{
    if l.len() == 0 {
        acc
    } else {
        let a2 = dedup_into(acc, l.drop_last());
        if a2.contains(l.last()) {
            a2
        } else {
            a2.push(l.last())
        }
    }
}

/// The bounded types are distinct, and are exactly the types met: each
/// type needs its bound once.
pub proof fn law_dedup_distinct(acc: Seq<Seq<char>>, l: Seq<Seq<char>>)
    requires
        acc.no_duplicates(),
    ensures
        dedup_into(acc, l).no_duplicates(),
        forall|x: Seq<char>| #[trigger] dedup_into(acc, l).contains(x) <==> (acc.contains(x) || l.contains(x)),
    decreases l.len(),
{
    if l.len() > 0 {
        let pre = l.drop_last();
        law_dedup_distinct(acc, pre);
        let a2 = dedup_into(acc, pre);
        let y = l.last();
        assert forall|x: Seq<char>| l.contains(x) <==> (pre.contains(x) || x == y) by {
            if l.contains(x) {
                let i = choose|i: int| 0 <= i < l.len() && l[i] == x;
                if i < l.len() - 1 {
                    assert(pre[i] == x);
                }
            }
            if pre.contains(x) {
                let i = choose|i: int| 0 <= i < pre.len() && pre[i] == x;
                assert(l[i] == x);
            }
            if x == y {
                assert(l[l.len() - 1] == x);
            }
        }
        if !a2.contains(y) {
            let a3 = a2.push(y);
            assert forall|i: int, j: int| 0 <= i < j < a3.len() implies a3[i] != a3[j] by {
                if j == a3.len() - 1 {
                    assert(a2[i] == a3[i]);
                }
            }
            assert forall|x: Seq<char>| a3.contains(x) <==> (a2.contains(x) || x == y) by {
                if a3.contains(x) {
                    let i = choose|i: int| 0 <= i < a3.len() && a3[i] == x;
                    if i < a2.len() {
                        assert(a2[i] == x);
                    }
                }
                if a2.contains(x) {
                    let i = choose|i: int| 0 <= i < a2.len() && a2[i] == x;
                    assert(a3[i] == x);
                }
                if x == y {
                    assert(a3[a2.len() as int] == y);
                }
            }
        }
    }
}

pub proof fn lemma_dedup_concat(acc: Seq<Seq<char>>, l1: Seq<Seq<char>>, l2: Seq<Seq<char>>)
    ensures
        dedup_into(acc, l1 + l2) == dedup_into(dedup_into(acc, l1), l2),
    decreases l2.len(),
{
    if l2.len() == 0 {
        assert(l1 + l2 =~= l1);
    } else {
        lemma_dedup_concat(acc, l1, l2.drop_last());
        assert((l1 + l2).drop_last() =~= l1 + l2.drop_last());
        assert((l1 + l2).last() == l2.last());
    }
}

pub open spec fn sv(v: Seq<String>) -> Seq<Seq<char>> {
    v.map_values(|s: String| s@)
}

/// Whether one of the names is `s`.
fn contains_name(v: &Vec<String>, s: &str) -> (r: bool)
    ensures
        r == sv(v@).contains(s@),
{
    let mut i: usize = 0;
    while i < v.len()
        invariant
            i <= v@.len(),
            forall|j: int| 0 <= j < i ==> v@[j]@ != s@,
        decreases v@.len() - i,
    {
        if name_eq(v[i].as_str(), s) {
            proof {
                assert(sv(v@)[i as int] == s@);
            }
            return true;
        }
        i = i + 1;
    }
    proof {
        if sv(v@).contains(s@) {
            let j = choose|j: int| 0 <= j < sv(v@).len() && sv(v@)[j] == s@;
            assert(v@[j]@ == s@);
        }
    }
    false
}

fn insert_use(found: &mut Vec<String>, text: &String)
    ensures
        sv(final(found)@) == if sv(old(found)@).contains(text@) {
            sv(old(found)@)
        } else {
            sv(old(found)@).push(text@)
        },
{
    if !contains_name(found, text.as_str()) {
        found.push(text.clone());
        proof {
            assert(sv(found@) =~= sv(old(found)@).push(text@));
        }
    }
}

/// Adds to `found` the types of `t` that need a bound.
fn uses_ty_exec(gens: &Vec<String>, t: &TypeModel, found: &mut Vec<String>) -> (r: Result<(), GenericsError>)
    ensures
        match uses_ty(sv(gens@).to_set(), *t) {
            Ok(l) => r is Ok && sv(final(found)@) == dedup_into(sv(old(found)@), l),
            Err(e) => r == Err::<(), GenericsError>(e),
        },
    decreases t, 0int,
{
    let ghost g = sv(gens@).to_set();
    let ghost f0 = sv(found@);
    match t {
        TypeModel::Path(text, segs) => {
            proof {
                assert(uses_ty(g, *t) == uses_segs(g, text@, segs@, segs@.len() as int));
            }
            let mut k: usize = 0;
            let ghost acc: Seq<Seq<char>> = Seq::empty();
            while k < segs.len()
                invariant
                    k <= segs@.len(),
                    g == sv(gens@).to_set(),
                    uses_segs(g, text@, segs@, k as int) == Ok::<Seq<Seq<char>>, GenericsError>(acc),
                    *t == TypeModel::Path(*text, *segs),
                    f0 == sv(old(found)@),
                    sv(found@) == dedup_into(f0, acc),
                decreases segs@.len() - k,
            {
                let seg = &segs[k];
                let is_generic = name_eq(seg.ident.as_str(), "PhantomData") || contains_name(gens, seg.ident.as_str());
                proof {
                    assert(sv(gens@).contains(seg.ident@) == g.contains(seg.ident@));
                }
                if is_generic {
                    insert_use(found, text);
                    proof {
                        assert(acc.push(text@).drop_last() =~= acc);
                        acc = acc.push(text@);
                    }
                } else {
                    match &seg.args {
                        SegArgsModel::NoArgs => {},
                        SegArgsModel::Parenthesized => {
                            proof {
                                assert(uses_segs(g, text@, segs@, k as int + 1) == Err::<Seq<Seq<char>>, GenericsError>(GenericsError::Parenthesized));
                                lemma_segs_err(g, text@, segs@, k as int + 1, segs@.len() as int);
                            }
                            return Err(GenericsError::Parenthesized);
                        },
                        SegArgsModel::Angle(args) => {
                            proof {
                                assert(*t == TypeModel::Path(*text, *segs));
                                assert(decreases_to!(*t => *segs));
                            }
                            let ghost before = sv(found@);
                            match uses_args_exec(gens, args, found) {
                                Ok(()) => {
                                    proof {
                                        let u = uses_args(g, args@, args@.len() as int).unwrap();
                                        lemma_dedup_concat(f0, acc, u);
                                        acc = acc + u;
                                    }
                                },
                                Err(e) => {
                                    proof {
                                        lemma_segs_err(g, text@, segs@, k as int + 1, segs@.len() as int);
                                    }
                                    return Err(e);
                                },
                            }
                        },
                    }
                }
                k = k + 1;
            }
            Ok(())
        },
        TypeModel::Tuple(elems) => {
            let mut k: usize = 0;
            let ghost acc: Seq<Seq<char>> = Seq::empty();
            while k < elems.len()
                invariant
                    k <= elems@.len(),
                    g == sv(gens@).to_set(),
                    uses_tys(g, elems@, k as int) == Ok::<Seq<Seq<char>>, GenericsError>(acc),
                    *t == TypeModel::Tuple(*elems),
                    f0 == sv(old(found)@),
                    sv(found@) == dedup_into(f0, acc),
                decreases elems@.len() - k,
            {
                proof {
                    assert(*t == TypeModel::Tuple(*elems));
                    assert(decreases_to!(*t => elems@[k as int]));
                }
                match uses_ty_exec(gens, &elems[k], found) {
                    Ok(()) => {
                        proof {
                            let u = uses_ty(g, elems@[k as int]).unwrap();
                            lemma_dedup_concat(f0, acc, u);
                            acc = acc + u;
                        }
                    },
                    Err(e) => {
                        proof {
                            lemma_tys_err(g, elems@, k as int + 1, elems@.len() as int);
                        }
                        return Err(e);
                    },
                }
                k = k + 1;
            }
            Ok(())
        },
        TypeModel::Other => Ok(()),
    }
}

fn uses_args_exec(gens: &Vec<String>, args: &Vec<GenArgModel>, found: &mut Vec<String>) -> (r: Result<(), GenericsError>)
    ensures
        match uses_args(sv(gens@).to_set(), args@, args@.len() as int) {
            Ok(l) => r is Ok && sv(final(found)@) == dedup_into(sv(old(found)@), l),
            Err(e) => r == Err::<(), GenericsError>(e),
        },
    decreases args, args@.len(),
{
    let ghost g = sv(gens@).to_set();
    let ghost f0 = sv(found@);
    let mut k: usize = 0;
    let ghost acc: Seq<Seq<char>> = Seq::empty();
    while k < args.len()
        invariant
            k <= args@.len(),
            g == sv(gens@).to_set(),
            uses_args(g, args@, k as int) == Ok::<Seq<Seq<char>>, GenericsError>(acc),
            sv(found@) == dedup_into(f0, acc),
            f0 == sv(old(found)@),
        decreases args@.len() - k,
    {
        match &args[k] {
            GenArgModel::Type(t) => {
                proof {
                    assert(decreases_to!(args => args@[k as int]));
                }
                match uses_ty_exec(gens, t, found) {
                    Ok(()) => {
                        proof {
                            let u = uses_ty(g, *t).unwrap();
                            lemma_dedup_concat(f0, acc, u);
                            acc = acc + u;
                        }
                    },
                    Err(e) => {
                        proof {
                            lemma_args_err(g, args@, k as int + 1, args@.len() as int);
                        }
                        return Err(e);
                    },
                }
            },
            GenArgModel::Unsupported => {
                proof {
                    lemma_args_err(g, args@, k as int + 1, args@.len() as int);
                }
                return Err(GenericsError::UnsupportedArg);
            },
            _ => {},
        }
        k = k + 1;
    }
    Ok(())
}

proof fn lemma_segs_err(g: Set<Seq<char>>, text: Seq<char>, segs: Seq<Segment>, j: int, k: int)
    requires
        0 < j <= k <= segs.len(),
        uses_segs(g, text, segs, j) is Err,
    ensures
        uses_segs(g, text, segs, k) == uses_segs(g, text, segs, j),
    decreases k - j,
{
    if k > j {
        lemma_segs_err(g, text, segs, j, k - 1);
    }
}

proof fn lemma_args_err(g: Set<Seq<char>>, args: Seq<GenArgModel>, j: int, k: int)
    requires
        0 < j <= k <= args.len(),
        uses_args(g, args, j) is Err,
    ensures
        uses_args(g, args, k) == uses_args(g, args, j),
    decreases k - j,
{
    if k > j {
        lemma_args_err(g, args, j, k - 1);
    }
}

proof fn lemma_tys_err(g: Set<Seq<char>>, ts: Seq<TypeModel>, j: int, k: int)
    requires
        0 < j <= k <= ts.len(),
        uses_tys(g, ts, j) is Err,
    ensures
        uses_tys(g, ts, k) == uses_tys(g, ts, j),
    decreases k - j,
{
    if k > j {
        lemma_tys_err(g, ts, j, k - 1);
    }
}


/// The names of the type parameters; `Err` at the first const parameter.
pub open spec fn gen_names(params: Seq<GenericParamModel>, k: int) -> Result<Seq<Seq<char>>, GenericsError>
    decreases k,
{
    if k <= 0 || k > params.len() {
        Ok(Seq::empty())
    } else {
        match gen_names(params, k - 1) {
            Err(e) => Err(e),
            Ok(acc) => match params[k - 1] {
                GenericParamModel::Lifetime => Ok(acc),
                GenericParamModel::Type(n) => Ok(acc.push(n@)),
                GenericParamModel::Const => Err(GenericsError::ConstParam),
            },
        }
    }
}

/// The types that need a `Debug` bound, each once, in the order first met.
pub open spec fn bounds_spec(params: Seq<GenericParamModel>, types: Seq<TypeModel>) -> Result<Seq<Seq<char>>, GenericsError> {
    match gen_names(params, params.len() as int) {
        Err(e) => Err(e),
        Ok(names) => match uses_tys(names.to_set(), types, types.len() as int) {
            Err(e) => Err(e),
            Ok(l) => Ok(dedup_into(Seq::empty(), l)),
        },
    }
}

/// The types that need a `Debug` bound: every type (of a field, or inside the
/// type of a field) that is a path with a segment named after a type
/// parameter or `PhantomData`.
pub fn get_uses_of_generics(params: &Vec<GenericParamModel>, fields: &Vec<DebugField>) -> (r: Result<Vec<String>, GenericsError>)
    ensures
        match bounds_spec(params@, field_types(fields@)) {
            Ok(l) => r matches Ok(v) && sv(v@) == l,
            Err(e) => r == Err::<Vec<String>, GenericsError>(e),
        },
{
    let mut gens: Vec<String> = Vec::new();
    let mut i: usize = 0;
    proof {
        assert(sv(gens@) =~= Seq::<Seq<char>>::empty());
    }
    while i < params.len()
        invariant
            i <= params@.len(),
            gen_names(params@, i as int) == Ok::<Seq<Seq<char>>, GenericsError>(sv(gens@)),
        decreases params@.len() - i,
    {
        match &params[i] {
            GenericParamModel::Lifetime => {},
            GenericParamModel::Type(n) => {
                let ghost before = gens@;
                gens.push(n.clone());
                proof {
                    assert(sv(gens@) =~= sv(before).push(n@));
                }
            },
            GenericParamModel::Const => {
                proof {
                    lemma_names_err(params@, i as int + 1, params@.len() as int);
                }
                return Err(GenericsError::ConstParam);
            },
        }
        i = i + 1;
    }
    let ghost g = sv(gens@).to_set();
    let ghost types = field_types(fields@);
    let mut found: Vec<String> = Vec::new();
    let mut k: usize = 0;
    let ghost acc: Seq<Seq<char>> = Seq::empty();
    proof {
        assert(sv(found@) =~= Seq::<Seq<char>>::empty());
    }
    while k < fields.len()
        invariant
            k <= fields@.len(),
            types == field_types(fields@),
            g == sv(gens@).to_set(),
            gen_names(params@, params@.len() as int) == Ok::<Seq<Seq<char>>, GenericsError>(sv(gens@)),
            uses_tys(g, types, k as int) == Ok::<Seq<Seq<char>>, GenericsError>(acc),
            sv(found@) == dedup_into(Seq::empty(), acc),
        decreases fields@.len() - k,
    {
        match uses_ty_exec(&gens, &fields[k].ty, &mut found) {
            Ok(()) => {
                proof {
                    let u = uses_ty(g, types[k as int]).unwrap();
                    lemma_dedup_concat(Seq::empty(), acc, u);
                    acc = acc + u;
                }
            },
            Err(e) => {
                proof {
                    lemma_tys_err(g, types, k as int + 1, types.len() as int);
                }
                return Err(e);
            },
        }
        k = k + 1;
    }
    Ok(found)
}

proof fn lemma_names_err(params: Seq<GenericParamModel>, j: int, k: int)
    requires
        0 < j <= k <= params.len(),
        gen_names(params, j) is Err,
    ensures
        gen_names(params, k) == gen_names(params, j),
    decreases k - j,
{
    if k > j {
        lemma_names_err(params, j, k - 1);
    }
}

/// The types of the fields.
pub open spec fn field_types(fields: Seq<DebugField>) -> Seq<TypeModel> {
    fields.map_values(|f: DebugField| f.ty)
}

/// The first attribute of a field, as the derive reads it.
pub enum DebugAttr {
    /// `name = "text"`
    NameValueStr(String),
    /// `name = literal` with a literal that is no string
    NameValueLit,
    /// `name = expression` with an expression that is no literal
    NameValueExpr,
    /// `name` or `name(...)`
    NotNameValue,
}

/// A named field: its name, its first attribute if it has any, its type.
pub struct DebugField {
    pub name: String,
    pub attr: Option<DebugAttr>,
    pub ty: TypeModel,
}

/// How a field is printed: as its `Debug` value, or through the format
/// string given by its attribute.
pub enum FieldFmt {
    Plain,
    Format(String),
}

#[derive(Debug, PartialEq, Eq, Structural, Clone, Copy)]
pub enum DebugError {
    /// "Expected `debug = \"...\"`", at the given field.
    ExpectedNameValue(usize),
    /// "Expected a String Literal! `debug = \"...\"`", at the given field.
    ExpectedStrLit(usize),
    Generics(GenericsError),
}

pub open spec fn fmt_ok(a: Option<DebugAttr>, f: FieldFmt) -> bool {
    match a {
        None => f is Plain,
        Some(DebugAttr::NameValueStr(s)) => f matches FieldFmt::Format(t) && t@ == s@,
        _ => false,
    }
}

pub open spec fn attr_error(a: Option<DebugAttr>, i: usize) -> Option<DebugError> {
    match a {
        Some(DebugAttr::NotNameValue) => Some(DebugError::ExpectedNameValue(i)),
        Some(DebugAttr::NameValueLit) => Some(DebugError::ExpectedStrLit(i)),
        Some(DebugAttr::NameValueExpr) => Some(DebugError::ExpectedStrLit(i)),
        _ => None,
    }
}

/// How each field is printed; the error of the first field whose first
/// attribute is not `name = "..."`.
pub fn derive_struct(fields: &Vec<DebugField>) -> (r: Result<Vec<FieldFmt>, DebugError>)
    ensures
        match r {
            Ok(v) => v@.len() == fields@.len() && forall|i: int| 0 <= i < fields@.len() ==> fmt_ok(#[trigger] fields@[i].attr, v@[i]),
            Err(e) => exists|i: int| 0 <= i < fields@.len() && attr_error(#[trigger] fields@[i].attr, i as usize) == Some(e)
                && forall|j: int| 0 <= j < i ==> attr_error(#[trigger] fields@[j].attr, j as usize) is None,
        },
{
    let mut v: Vec<FieldFmt> = Vec::new();
    let mut i: usize = 0;
    while i < fields.len()
        invariant
            i <= fields@.len(),
            v@.len() == i,
            forall|j: int| 0 <= j < i ==> fmt_ok(#[trigger] fields@[j].attr, v@[j]),
        decreases fields@.len() - i,
    {
        let f = match &fields[i].attr {
            None => FieldFmt::Plain,
            Some(DebugAttr::NameValueStr(s)) => FieldFmt::Format(s.clone()),
            Some(DebugAttr::NotNameValue) => {
                proof {
                    assert forall|j: int| 0 <= j < i implies attr_error(#[trigger] fields@[j].attr, j as usize) is None by {
                        assert(fmt_ok(fields@[j].attr, v@[j]));
                    }
                    assert(attr_error(fields@[i as int].attr, i) == Some(DebugError::ExpectedNameValue(i)));
                }
                return Err(DebugError::ExpectedNameValue(i));
            },
            Some(_) => {
                proof {
                    assert forall|j: int| 0 <= j < i implies attr_error(#[trigger] fields@[j].attr, j as usize) is None by {
                        assert(fmt_ok(fields@[j].attr, v@[j]));
                    }
                    assert(attr_error(fields@[i as int].attr, i) == Some(DebugError::ExpectedStrLit(i)));
                }
                return Err(DebugError::ExpectedStrLit(i));
            },
        };
        v.push(f);
        i = i + 1;
    }
    Ok(v)
}

/// What the derive writes for a struct named `name`: the name given to
/// `debug_struct`, how each field is printed, and the bounded types.
pub struct DebugPlan {
    pub name: String,
    pub formats: Vec<FieldFmt>,
    pub bounds: Vec<String>,
}

/// `#[derive(CustomDebug)]` on a struct with named fields (or none): the
/// fields are read first, then the generics.
pub fn derive_impl(name: &String, fields: &Vec<DebugField>, params: &Vec<GenericParamModel>) -> (r: Result<DebugPlan, DebugError>)
    ensures
        match r {
            Ok(p) => {
                &&& p.name@ == name@
                &&& p.formats@.len() == fields@.len()
                &&& forall|i: int| 0 <= i < fields@.len() ==> fmt_ok(#[trigger] fields@[i].attr, p.formats@[i])
                &&& bounds_spec(params@, field_types(fields@)) == Ok::<Seq<Seq<char>>, GenericsError>(sv(p.bounds@))
            },
            Err(DebugError::Generics(g)) => {
                &&& forall|i: int| 0 <= i < fields@.len() ==> attr_error(#[trigger] fields@[i].attr, i as usize) is None
                &&& bounds_spec(params@, field_types(fields@)) == Err::<Seq<Seq<char>>, GenericsError>(g)
            },
            Err(e) => exists|i: int| 0 <= i < fields@.len() && attr_error(#[trigger] fields@[i].attr, i as usize) == Some(e)
                && forall|j: int| 0 <= j < i ==> attr_error(#[trigger] fields@[j].attr, j as usize) is None,
        },
{
    let formats = derive_struct(fields)?;
    proof {
        assert forall|i: int| 0 <= i < fields@.len() implies attr_error(#[trigger] fields@[i].attr, i as usize) is None by {
            assert(fmt_ok(fields@[i].attr, formats@[i]));
        }
    }
    match get_uses_of_generics(params, fields) {
        Ok(bounds) => Ok(DebugPlan { name: name.clone(), formats, bounds }),
        Err(g) => Err(DebugError::Generics(g)),
    }
}


/// The uses found, or none where the search fails.
pub open spec fn ok_uses(r: Result<Seq<Seq<char>>, GenericsError>) -> Seq<Seq<char>> {
    match r {
        Ok(u) => u,
        Err(_) => Seq::empty(),
    }
}

/// A segment named after a type parameter or `PhantomData`: the whole path
/// needs the bound.
pub open spec fn names_generic(gens: Set<Seq<char>>, ident: Seq<char>) -> bool {
    ident == "PhantomData"@ || gens.contains(ident)
}

/// A generic argument that the search accepts: a lifetime, or a type whose
/// own search succeeds (any argument but a constant, an associated item or a
/// constraint).
pub open spec fn arg_ok(gens: Set<Seq<char>>, a: GenArgModel) -> bool {
    match a {
        GenArgModel::Unsupported => false,
        GenArgModel::Type(t) => uses_ty(gens, t) is Ok,
        _ => true,
    }
}

/// The uses that a generic argument brings: those of its type, none for a
/// lifetime.
pub open spec fn arg_uses(gens: Set<Seq<char>>, a: GenArgModel) -> Seq<Seq<char>> {
    match a {
        GenArgModel::Type(t) => ok_uses(uses_ty(gens, t)),
        _ => Seq::empty(),
    }
}

/// A segment that the search accepts.
pub open spec fn seg_ok(gens: Set<Seq<char>>, s: Segment) -> bool {
    names_generic(gens, s.ident@) || match s.args {
        SegArgsModel::NoArgs => true,
        SegArgsModel::Parenthesized => false,
        SegArgsModel::Angle(args) => forall|a: int| 0 <= a < args@.len() ==> #[trigger] arg_ok(gens, args@[a]),
    }
}

/// `x` is a use that the segment brings to the path printed as `text`: the
/// whole path where the segment names a type parameter, else a use of one of
/// its generic arguments.
pub open spec fn seg_brings(gens: Set<Seq<char>>, text: Seq<char>, s: Segment, x: Seq<char>) -> bool {
    if names_generic(gens, s.ident@) {
        x == text
    } else {
        match s.args {
            SegArgsModel::Angle(args) => exists|a: int| 0 <= a < args@.len() && (#[trigger] arg_uses(gens, args@[a])).contains(x),
            _ => false,
        }
    }
}

proof fn lemma_concat_contains(a: Seq<Seq<char>>, b: Seq<Seq<char>>, x: Seq<char>)
    ensures
        (a + b).contains(x) <==> (a.contains(x) || b.contains(x)),
{
    if a.contains(x) {
        let j = choose|j: int| 0 <= j < a.len() && a[j] == x;
        assert((a + b)[j] == x);
    }
    if b.contains(x) {
        let j = choose|j: int| 0 <= j < b.len() && b[j] == x;
        assert((a + b)[a.len() + j] == x);
    }
    if (a + b).contains(x) {
        let j = choose|j: int| 0 <= j < (a + b).len() && (a + b)[j] == x;
        if j < a.len() {
            assert(a[j] == x);
        } else {
            assert(b[j - a.len()] == x);
        }
    }
}

proof fn lemma_args_uses(gens: Set<Seq<char>>, args: Seq<GenArgModel>, k: int)
    requires
        0 <= k <= args.len(),
    ensures
        uses_args(gens, args, k) is Ok <==> forall|a: int| 0 <= a < k ==> #[trigger] arg_ok(gens, args[a]),
        uses_args(gens, args, k) is Ok ==> forall|x: Seq<char>| #[trigger] ok_uses(uses_args(gens, args, k)).contains(x) <==> exists|a: int|
            0 <= a < k && (#[trigger] arg_uses(gens, args[a])).contains(x),
    decreases k,
{
    if k > 0 {
        lemma_args_uses(gens, args, k - 1);
        let r0 = uses_args(gens, args, k - 1);
        let last = args[k - 1];
        if r0 is Ok {
            let acc = r0->Ok_0;
            if uses_args(gens, args, k) is Ok {
                let u = ok_uses(uses_args(gens, args, k));
                assert(u =~= acc + arg_uses(gens, last));
                assert forall|x: Seq<char>| #[trigger] u.contains(x) <==> exists|a: int|
                    0 <= a < k && (#[trigger] arg_uses(gens, args[a])).contains(x) by {
                    lemma_concat_contains(acc, arg_uses(gens, last), x);
                    if acc.contains(x) {
                        assert(ok_uses(r0).contains(x));
                        let a = choose|a: int| 0 <= a < k - 1 && (#[trigger] arg_uses(gens, args[a])).contains(x);
                        assert(0 <= a < k && arg_uses(gens, args[a]).contains(x));
                    }
                    if arg_uses(gens, last).contains(x) {
                        assert(arg_uses(gens, args[k - 1]).contains(x));
                    }
                    if exists|a: int| 0 <= a < k && (#[trigger] arg_uses(gens, args[a])).contains(x) {
                        let a = choose|a: int| 0 <= a < k && (#[trigger] arg_uses(gens, args[a])).contains(x);
                        if a < k - 1 {
                            assert(ok_uses(r0).contains(x));
                        }
                    }
                }
            } else {
                assert(!arg_ok(gens, args[k - 1]));
            }
        } else {
            let a = choose|a: int| 0 <= a < k - 1 && !#[trigger] arg_ok(gens, args[a]);
            assert(!arg_ok(gens, args[a]));
        }
    }
}

proof fn lemma_segs_uses(gens: Set<Seq<char>>, text: Seq<char>, segs: Seq<Segment>, k: int)
    requires
        0 <= k <= segs.len(),
    ensures
        uses_segs(gens, text, segs, k) is Ok <==> forall|j: int| 0 <= j < k ==> #[trigger] seg_ok(gens, segs[j]),
        uses_segs(gens, text, segs, k) is Ok ==> forall|x: Seq<char>| #[trigger] ok_uses(uses_segs(gens, text, segs, k)).contains(x) <==> exists|j: int|
            0 <= j < k && #[trigger] seg_brings(gens, text, segs[j], x),
    decreases k,
{
    if k > 0 {
        lemma_segs_uses(gens, text, segs, k - 1);
        let r0 = uses_segs(gens, text, segs, k - 1);
        let seg = segs[k - 1];
        if r0 is Ok {
            let acc = r0->Ok_0;
            // what the last segment brings
            let ghost b: Seq<Seq<char>> = if names_generic(gens, seg.ident@) {
                seq![text]
            } else {
                match seg.args {
                    SegArgsModel::Angle(args) => ok_uses(uses_args(gens, args@, args@.len() as int)),
                    _ => Seq::empty(),
                }
            };
            if !names_generic(gens, seg.ident@) {
                match seg.args {
                    SegArgsModel::Angle(args) => {
                        lemma_args_uses(gens, args@, args@.len() as int);
                    },
                    _ => {},
                }
            }
            assert(uses_segs(gens, text, segs, k) is Ok <==> seg_ok(gens, seg));
            if uses_segs(gens, text, segs, k) is Ok {
                let u = ok_uses(uses_segs(gens, text, segs, k));
                if names_generic(gens, seg.ident@) {
                    assert(u =~= acc + seq![text]);
                } else {
                    assert(u =~= acc + b);
                }
                assert forall|x: Seq<char>| #[trigger] u.contains(x) <==> exists|j: int|
                    0 <= j < k && #[trigger] seg_brings(gens, text, segs[j], x) by {
                    lemma_concat_contains(acc, b, x);
                    assert(b.contains(x) <==> seg_brings(gens, text, seg, x)) by {
                        if names_generic(gens, seg.ident@) {
                            if x == text {
                                assert(b[0] == x);
                            }
                        }
                    }
                    if acc.contains(x) {
                        assert(ok_uses(r0).contains(x));
                        let j = choose|j: int| 0 <= j < k - 1 && #[trigger] seg_brings(gens, text, segs[j], x);
                        assert(0 <= j < k && seg_brings(gens, text, segs[j], x));
                    }
                    if seg_brings(gens, text, seg, x) {
                        assert(seg_brings(gens, text, segs[k - 1], x));
                    }
                    if exists|j: int| 0 <= j < k && #[trigger] seg_brings(gens, text, segs[j], x) {
                        let j = choose|j: int| 0 <= j < k && #[trigger] seg_brings(gens, text, segs[j], x);
                        if j < k - 1 {
                            assert(ok_uses(r0).contains(x));
                        }
                    }
                }
            }
            if !seg_ok(gens, seg) {
                assert(!seg_ok(gens, segs[k - 1]));
            }
        } else {
            let j = choose|j: int| 0 <= j < k - 1 && !#[trigger] seg_ok(gens, segs[j]);
            assert(!seg_ok(gens, segs[j]));
        }
    }
}

proof fn lemma_tys_uses(gens: Set<Seq<char>>, ts: Seq<TypeModel>, k: int)
    requires
        0 <= k <= ts.len(),
    ensures
        uses_tys(gens, ts, k) is Ok <==> forall|i: int| 0 <= i < k ==> #[trigger] uses_ty(gens, ts[i]) is Ok,
        uses_tys(gens, ts, k) is Ok ==> forall|x: Seq<char>| #[trigger] ok_uses(uses_tys(gens, ts, k)).contains(x) <==> exists|i: int|
            0 <= i < k && (#[trigger] ok_uses(uses_ty(gens, ts[i]))).contains(x),
    decreases k,
{
    if k > 0 {
        lemma_tys_uses(gens, ts, k - 1);
        let r0 = uses_tys(gens, ts, k - 1);
        let last = ts[k - 1];
        if r0 is Ok {
            let acc = r0->Ok_0;
            if uses_tys(gens, ts, k) is Ok {
                let u = ok_uses(uses_tys(gens, ts, k));
                let b = ok_uses(uses_ty(gens, last));
                assert(u =~= acc + b);
                assert forall|x: Seq<char>| #[trigger] u.contains(x) <==> exists|i: int|
                    0 <= i < k && (#[trigger] ok_uses(uses_ty(gens, ts[i]))).contains(x) by {
                    lemma_concat_contains(acc, b, x);
                    if acc.contains(x) {
                        assert(ok_uses(r0).contains(x));
                        let i = choose|i: int| 0 <= i < k - 1 && (#[trigger] ok_uses(uses_ty(gens, ts[i]))).contains(x);
                        assert(0 <= i < k && ok_uses(uses_ty(gens, ts[i])).contains(x));
                    }
                    if b.contains(x) {
                        assert(ok_uses(uses_ty(gens, ts[k - 1])).contains(x));
                    }
                    if exists|i: int| 0 <= i < k && (#[trigger] ok_uses(uses_ty(gens, ts[i]))).contains(x) {
                        let i = choose|i: int| 0 <= i < k && (#[trigger] ok_uses(uses_ty(gens, ts[i]))).contains(x);
                        if i < k - 1 {
                            assert(ok_uses(r0).contains(x));
                        }
                    }
                }
            } else {
                assert(!(uses_ty(gens, ts[k - 1]) is Ok));
            }
        } else {
            let i = choose|i: int| 0 <= i < k - 1 && !(#[trigger] uses_ty(gens, ts[i]) is Ok);
            assert(!(uses_ty(gens, ts[i]) is Ok));
        }
    }
}

/// The bounds that a tuple type needs are those of its elements: the search
/// succeeds on `(A, B, ..)` exactly when it succeeds on each element, and then
/// a type needs a bound for the tuple exactly when it needs one for some
/// element (so a tuple holding a type parameter `T` needs `T: Debug`).
pub proof fn law_uses_tuple(gens: Set<Seq<char>>, elems: Vec<TypeModel>)
    ensures
        uses_ty(gens, TypeModel::Tuple(elems)) is Ok <==> forall|i: int| 0 <= i < elems@.len() ==> #[trigger] uses_ty(gens, elems@[i]) is Ok,
        uses_ty(gens, TypeModel::Tuple(elems)) is Ok ==> forall|x: Seq<char>|
            #[trigger] ok_uses(uses_ty(gens, TypeModel::Tuple(elems))).contains(x) <==> exists|i: int|
                0 <= i < elems@.len() && (#[trigger] ok_uses(uses_ty(gens, elems@[i]))).contains(x),
{
    lemma_tys_uses(gens, elems@, elems@.len() as int);
}

/// The bounds that a path type (printed as `text`) needs come from all of
/// its segments, in any place: a segment named after a type parameter (or
/// `PhantomData`) makes the whole path need the bound, and any other segment
/// brings the bounds of the types among its angle-bracketed arguments, with
/// lifetime arguments bringing none and causing no error. The search fails
/// exactly when some segment that names no type parameter has parenthesized
/// arguments, an argument that is a constant, an associated item or a
/// constraint, or a type argument on which the search fails.
pub proof fn law_uses_path(gens: Set<Seq<char>>, text: String, segs: Vec<Segment>)
    ensures
        uses_ty(gens, TypeModel::Path(text, segs)) is Ok <==> forall|j: int| 0 <= j < segs@.len() ==> #[trigger] seg_ok(gens, segs@[j]),
        uses_ty(gens, TypeModel::Path(text, segs)) is Ok ==> forall|x: Seq<char>|
            #[trigger] ok_uses(uses_ty(gens, TypeModel::Path(text, segs))).contains(x) <==> exists|j: int|
                0 <= j < segs@.len() && #[trigger] seg_brings(gens, text@, segs@[j], x),
{
    lemma_segs_uses(gens, text@, segs@, segs@.len() as int);
}

} // verus!
