//! `#[derive(Builder)]`: how each field of the struct is read, and what the
//! builder that is written for the struct holds and does.

use vstd::prelude::*;
use crate::tokens::{Token, TokenV, views, lemma_views_len, lemma_views_index};
use crate::seq::{text_opt, token_text, push_char};
use crate::text::{ident_valid, valid_ident, name_eq};

verus! {

/// The first generic argument of the first segment of a field's type.
#[derive(Debug, PartialEq, Eq, Structural, Clone, Copy)]
pub enum GenericArg {
    /// The segment has `<>` with nothing inside.
    Missing,
    /// A type.
    Type,
    /// A lifetime, a constant or a constraint.
    Other,
}

/// The arguments of the first segment of a field's type.
#[derive(Debug, PartialEq, Eq, Structural, Clone, Copy)]
pub enum SegArgs {
    NoArgs,
    Angle(GenericArg),
    Parenthesized,
}

/// A field's type: a path, by its first segment, or another kind of type.
pub enum FieldTy {
    Path(String, SegArgs),
    NotPath,
}

/// An attribute of a field: a list attribute `name(tokens)`, by its tokens,
/// or any other attribute.
pub enum FieldAttr {
    List(Vec<Token>),
    Other,
}

/// A named field of the struct.
pub struct BuilderField {
    pub name: String,
    pub ty: FieldTy,
    pub attrs: Vec<FieldAttr>,
}

/// How the builder treats a field: set once (`Normal`), an `Option` set
/// once, or a `Vec` filled one item at a time by the method of the given name.
pub enum FieldKind {
    Normal,
    Optional,
    Each(String),
}

/// The value of a field kind.
pub enum KindV {
    Normal,
    Optional,
    Each(Seq<char>),
}

pub open spec fn kind_view(k: FieldKind) -> KindV {
    match k {
        FieldKind::Normal => KindV::Normal,
        FieldKind::Optional => KindV::Optional,
        FieldKind::Each(s) => KindV::Each(s@),
    }
}

/// What the derive makes of one field: a kind, the error
/// "expected `builder(each = \"...\")`", or a panic.
pub enum Classified {
    Kind(KindV),
    Error,
    Panic,
}

/// The literal `"name"` gives the method name `name`.
pub open spec fn quoted(t: Seq<char>) -> bool {
    t.len() >= 2 && t[0] == '"' && t[t.len() - 1] == '"'
}

pub open spec fn classify_spec(ty: FieldTy, attrs: Seq<FieldAttr>) -> Classified {
    match ty {
        FieldTy::NotPath => Classified::Panic,
        FieldTy::Path(first, args) => {
            if attrs.len() == 1 {
                match attrs[0] {
                    FieldAttr::Other => Classified::Panic,
                    FieldAttr::List(toks) => {
                        let ts = views(toks@);
                        if ts.len() == 0 {
                            Classified::Panic
                        } else if text_opt(ts[0]) != Some("each"@) {
                            Classified::Error
                        } else if ts.len() != 3 {
                            Classified::Panic
                        } else {
                            match ts[2] {
                                TokenV::Literal(t, _) => {
                                    let name = t.subrange(1, t.len() - 1);
                                    if quoted(t) && args == SegArgs::Angle(GenericArg::Type) && ident_valid(name) {
                                        Classified::Kind(KindV::Each(name))
                                    } else {
                                        Classified::Panic
                                    }
                                },
                                _ => Classified::Panic,
                            }
                        }
                    },
                }
            } else if attrs.len() > 1 {
                Classified::Panic
            } else if first@ == "Option"@ {
                if args == SegArgs::Angle(GenericArg::Type) {
                    Classified::Kind(KindV::Optional)
                } else {
                    Classified::Panic
                }
            } else {
                Classified::Kind(KindV::Normal)
            }
        },
    }
}

/// What the derive makes of the fields, in order: the first field that is not
/// read as a kind decides.
pub enum FieldsOutcome {
    Kinds(Vec<FieldKind>),
    /// The attribute of this field is not `builder(each = ...)`.
    Error(usize),
    /// The derive panics on this field.
    Panic(usize),
}

pub open spec fn fields_kinds(fields: Seq<BuilderField>, kinds: Seq<FieldKind>) -> bool {
    &&& kinds.len() == fields.len()
    &&& forall|i: int| 0 <= i < fields.len() ==> classify_spec(#[trigger] fields[i].ty, fields[i].attrs@) == Classified::Kind(kind_view(kinds[i]))
}

pub open spec fn fields_outcome_ok(fields: Seq<BuilderField>, r: FieldsOutcome) -> bool {
    match r {
        FieldsOutcome::Kinds(k) => fields_kinds(fields, k@),
        FieldsOutcome::Error(i) => {
            &&& i < fields.len()
            &&& classify_spec(fields[i as int].ty, fields[i as int].attrs@) == Classified::Error
            &&& forall|j: int| 0 <= j < i ==> #[trigger] classify_spec(fields[j].ty, fields[j].attrs@) is Kind
        },
        FieldsOutcome::Panic(i) => {
            &&& i < fields.len()
            &&& classify_spec(fields[i as int].ty, fields[i as int].attrs@) == Classified::Panic
            &&& forall|j: int| 0 <= j < i ==> #[trigger] classify_spec(fields[j].ty, fields[j].attrs@) is Kind
        },
    }
}

/// The text between the quotes of a string literal.
fn unquote(t: &String) -> (r: String)
    requires
        t@.len() >= 2,
    ensures
        r@ == t@.subrange(1, t@.len() - 1),
{
    let n = t.as_str().unicode_len();
    let mut r = String::new();
    let mut i: usize = 1;
    while i + 1 < n
        invariant
            1 <= i <= n - 1,
            n == t@.len(),
            r@ == t@.subrange(1, i as int),
        decreases n - i,
    {
        let c = t.as_str().get_char(i);
        push_char(&mut r, c);
        proof {
            assert(t@.subrange(1, i + 1) =~= t@.subrange(1, i as int).push(c));
        }
        i = i + 1;
    }
    r
}

fn classify(ty: &FieldTy, attrs: &Vec<FieldAttr>) -> (r: Result<FieldKind, bool>)
    ensures
        match r {
            Ok(k) => classify_spec(*ty, attrs@) == Classified::Kind(kind_view(k)),
            Err(is_panic) => classify_spec(*ty, attrs@) == if is_panic { Classified::Panic } else { Classified::Error },
        },
{
    match ty {
        FieldTy::NotPath => Err(true),
        FieldTy::Path(first, args) => {
            if attrs.len() == 1 {
                match &attrs[0] {
                    FieldAttr::Other => Err(true),
                    FieldAttr::List(toks) => {
                        let ghost ts = views(toks@);
                        proof {
                            lemma_views_len(toks@);
                        }
                        if toks.len() == 0 {
                            return Err(true);
                        }
                        proof {
                            lemma_views_index(toks@, 0);
                        }
                        let is_each = match token_text(&toks[0]) {
                            Some(s) => name_eq(s.as_str(), "each"),
                            None => false,
                        };
                        if !is_each {
                            return Err(false);
                        }
                        if toks.len() != 3 {
                            return Err(true);
                        }
                        proof {
                            lemma_views_index(toks@, 2);
                        }
                        match &toks[2] {
                            Token::Literal(t, _) => {
                                let n = t.as_str().unicode_len();
                                if n < 2 {
                                    return Err(true);
                                }
                                if t.as_str().get_char(0) != '"' || t.as_str().get_char(n - 1) != '"' {
                                    return Err(true);
                                }
                                if *args != SegArgs::Angle(GenericArg::Type) {
                                    return Err(true);
                                }
                                let name = unquote(t);
                                if !valid_ident(name.as_str()) {
                                    return Err(true);
                                }
                                Ok(FieldKind::Each(name))
                            },
                            _ => Err(true),
                        }
                    },
                }
            } else if attrs.len() > 1 {
                Err(true)
            } else if name_eq(first.as_str(), "Option") {
                if *args == SegArgs::Angle(GenericArg::Type) {
                    Ok(FieldKind::Optional)
                } else {
                    Err(true)
                }
            } else {
                Ok(FieldKind::Normal)
            }
        },
    }
}

/// Reads the fields in order, as the derive does.
pub fn classify_fields(fields: &Vec<BuilderField>) -> (r: FieldsOutcome)
    ensures
        fields_outcome_ok(fields@, r),
{
    let mut kinds: Vec<FieldKind> = Vec::new();
    let mut i: usize = 0;
    while i < fields.len()
        invariant
            i <= fields@.len(),
            kinds@.len() == i,
            forall|j: int| 0 <= j < i ==> classify_spec(#[trigger] fields@[j].ty, fields@[j].attrs@) == Classified::Kind(kind_view(kinds@[j])),
        decreases fields@.len() - i,
    {
        match classify(&fields[i].ty, &fields[i].attrs) {
            Ok(k) => {
                kinds.push(k);
            },
            Err(is_panic) => {
                if is_panic {
                    return FieldsOutcome::Panic(i);
                } else {
                    return FieldsOutcome::Error(i);
                }
            },
        }
        i = i + 1;
    }
    FieldsOutcome::Kinds(kinds)
}


/// The type of a builder field, from the type of the struct's field.
#[derive(Debug, PartialEq, Eq, Structural, Clone, Copy)]
pub enum Slot {
    /// `Option<field type>`
    OptionOfField,
    /// `Option<argument of the field type>`
    OptionOfInner,
    /// `Vec<argument of the field type>`
    VecOfInner,
}

pub open spec fn slot_of(k: KindV) -> Slot {
    match k {
        KindV::Normal => Slot::OptionOfField,
        KindV::Optional => Slot::OptionOfInner,
        KindV::Each(_) => Slot::VecOfInner,
    }
}

/// The fields of the builder: one per field of the struct, in order; each
/// starts out as `None`, or as an empty `Vec` for `VecOfInner`.
pub fn gen_builder_struct(kinds: &Vec<FieldKind>) -> (r: Vec<Slot>)
    ensures
        r@.len() == kinds@.len(),
        forall|i: int| 0 <= i < kinds@.len() ==> #[trigger] r@[i] == slot_of(kind_view(kinds@[i])),
{
    let mut r: Vec<Slot> = Vec::new();
    let mut i: usize = 0;
    while i < kinds.len()
        invariant
            i <= kinds@.len(),
            r@.len() == i,
            forall|j: int| 0 <= j < i ==> #[trigger] r@[j] == slot_of(kind_view(kinds@[j])),
        decreases kinds@.len() - i,
    {
        let s = match &kinds[i] {
            FieldKind::Normal => Slot::OptionOfField,
            FieldKind::Optional => Slot::OptionOfInner,
            FieldKind::Each(_) => Slot::VecOfInner,
        };
        r.push(s);
        i = i + 1;
    }
    r
}

/// The parameter of a setter.
#[derive(Debug, PartialEq, Eq, Structural, Clone, Copy)]
pub enum Param {
    /// The field's type.
    FieldType,
    /// The argument of the field's type.
    Inner,
    /// `Vec<argument of the field's type>`.
    VecOfInner,
}

/// What a setter does with the builder field.
#[derive(Debug, PartialEq, Eq, Structural, Clone, Copy)]
pub enum Action {
    /// Stores `Some(value)`.
    SetSome,
    /// Pushes the value.
    Push,
    /// Replaces the whole `Vec`.
    Assign,
}

/// A setter of the builder: for field `field`, named `name`; it returns
/// `&mut Self`.
pub struct MethodPlan {
    pub field: usize,
    pub name: String,
    pub param: Param,
    pub action: Action,
}

pub struct MethodV {
    pub field: int,
    pub name: Seq<char>,
    pub param: Param,
    pub action: Action,
}

pub open spec fn method_view(m: MethodPlan) -> MethodV {
    MethodV { field: m.field as int, name: m.name@, param: m.param, action: m.action }
}

/// The setters for field `i`, named `n`, of kind `k`.
pub open spec fn field_methods(i: int, n: Seq<char>, k: KindV) -> Seq<MethodV> {
    match k {
        KindV::Normal => seq![MethodV { field: i, name: n, param: Param::FieldType, action: Action::SetSome }],
        KindV::Optional => seq![MethodV { field: i, name: n, param: Param::Inner, action: Action::SetSome }],
        KindV::Each(e) => if e != n {
            seq![
                MethodV { field: i, name: e, param: Param::Inner, action: Action::Push },
                MethodV { field: i, name: n, param: Param::VecOfInner, action: Action::Assign },
            ]
        } else {
            seq![MethodV { field: i, name: e, param: Param::Inner, action: Action::Push }]
        },
    }
}

/// The setters for the first `k` fields, in order.
pub open spec fn methods_spec(names: Seq<Seq<char>>, kinds: Seq<KindV>, k: int) -> Seq<MethodV>
    decreases k,
{
    if k <= 0 {
        Seq::empty()
    } else {
        methods_spec(names, kinds, k - 1) + field_methods(k - 1, names[k - 1], kinds[k - 1])
    }
}

/// What `build` does with a field: fails with the text unless it was set
/// (`Required`), or takes a copy of what it holds.
pub enum BuildStep {
    Required(String),
    Cloned,
}

pub open spec fn build_step_ok(k: KindV, n: Seq<char>, b: BuildStep) -> bool {
    match k {
        KindV::Normal => b matches BuildStep::Required(msg) && msg@ == n + " wasn't initialized!"@,
        _ => b is Cloned,
    }
}

pub open spec fn names_view(v: Seq<String>) -> Seq<Seq<char>> {
    v.map_values(|s: String| s@)
}

pub open spec fn kinds_view(v: Seq<FieldKind>) -> Seq<KindV> {
    v.map_values(|k: FieldKind| kind_view(k))
}

/// The setters and the steps of `build`, for fields with these names and kinds.
pub fn gen_builder_impl(names: &Vec<String>, kinds: &Vec<FieldKind>) -> (r: (Vec<MethodPlan>, Vec<BuildStep>))
    requires
        names@.len() == kinds@.len(),
    ensures
        r.0@.map_values(|m: MethodPlan| method_view(m)) == methods_spec(names_view(names@), kinds_view(kinds@), names@.len() as int),
        r.1@.len() == kinds@.len(),
        forall|i: int| 0 <= i < kinds@.len() ==> build_step_ok(kind_view(kinds@[i]), names@[i]@, #[trigger] r.1@[i]),
{
    let ghost nv = names_view(names@);
    let ghost kv = kinds_view(kinds@);
    let mut methods: Vec<MethodPlan> = Vec::new();
    let mut steps: Vec<BuildStep> = Vec::new();
    let mut i: usize = 0;
    proof {
        assert(methods@.map_values(|m: MethodPlan| method_view(m)) =~= Seq::<MethodV>::empty());
    }
    while i < kinds.len()
        invariant
            i <= kinds@.len(),
            names@.len() == kinds@.len(),
            nv == names_view(names@),
            kv == kinds_view(kinds@),
            methods@.map_values(|m: MethodPlan| method_view(m)) == methods_spec(nv, kv, i as int),
            steps@.len() == i,
            forall|j: int| 0 <= j < i ==> build_step_ok(kind_view(kinds@[j]), names@[j]@, #[trigger] steps@[j]),
        decreases kinds@.len() - i,
    {
        let ghost before = methods@;
        let n = &names[i];
        match &kinds[i] {
            FieldKind::Normal => {
                methods.push(MethodPlan { field: i, name: n.clone(), param: Param::FieldType, action: Action::SetSome });
                steps.push(BuildStep::Required(n.clone().concat(" wasn't initialized!")));
            },
            FieldKind::Optional => {
                methods.push(MethodPlan { field: i, name: n.clone(), param: Param::Inner, action: Action::SetSome });
                steps.push(BuildStep::Cloned);
            },
            FieldKind::Each(e) => {
                methods.push(MethodPlan { field: i, name: e.clone(), param: Param::Inner, action: Action::Push });
                if !name_eq(e.as_str(), n.as_str()) {
                    methods.push(MethodPlan { field: i, name: n.clone(), param: Param::VecOfInner, action: Action::Assign });
                }
                steps.push(BuildStep::Cloned);
            },
        }
        proof {
            assert(nv[i as int] == names@[i as int]@);
            assert(kv[i as int] == kind_view(kinds@[i as int]));
            assert(methods@.map_values(|m: MethodPlan| method_view(m)) =~= methods_spec(nv, kv, i as int) + field_methods(i as int, nv[i as int], kv[i as int]));
        }
        i = i + 1;
    }
    (methods, steps)
}

/// What the written `build` returns when the fields marked in `set` hold a
/// value: the text of the first `Required` field that holds none, or success.
pub fn build_result(steps: &Vec<BuildStep>, set: &Vec<bool>) -> (r: Result<(), String>)
    requires
        steps@.len() == set@.len(),
    ensures
        match r {
            Ok(()) => forall|i: int| 0 <= i < steps@.len() && #[trigger] steps@[i] is Required ==> set@[i],
            Err(msg) => exists|i: int| {
                &&& 0 <= i < steps@.len()
                &&& #[trigger] steps@[i] matches BuildStep::Required(m) && m@ == msg@
                &&& !set@[i]
                &&& forall|j: int| 0 <= j < i && #[trigger] steps@[j] is Required ==> set@[j]
            },
        },
{
    let mut i: usize = 0;
    while i < steps.len()
        invariant
            i <= steps@.len(),
            steps@.len() == set@.len(),
            forall|j: int| 0 <= j < i && #[trigger] steps@[j] is Required ==> set@[j],
        decreases steps@.len() - i,
    {
        match &steps[i] {
            BuildStep::Required(m) => {
                if !set[i] {
                    let msg = m.clone();
                    proof {
                        assert(steps@[i as int] matches BuildStep::Required(mm) && mm@ == msg@);
                    }
                    return Err(msg);
                }
            },
            BuildStep::Cloned => {},
        }
        i = i + 1;
    }
    Ok(())
}


/// The data of the item that the derive is put on.
pub enum DeriveData {
    /// A struct with named fields.
    NamedStruct(Vec<BuilderField>),
    /// An enum, a union, or a struct with unnamed fields or none.
    Other,
}

/// What the derive writes: the builder struct `builder_name`, its fields,
/// its setters and the steps of its `build`.
pub struct BuilderPlan {
    pub builder_name: String,
    pub slots: Vec<Slot>,
    pub methods: Vec<MethodPlan>,
    pub steps: Vec<BuildStep>,
}

pub open spec fn plan_ok(name: Seq<char>, fields: Seq<BuilderField>, kinds: Seq<FieldKind>, p: BuilderPlan) -> bool {
    &&& p.builder_name@ == name + "Builder"@
    &&& p.slots@.len() == kinds.len()
    &&& forall|i: int| 0 <= i < kinds.len() ==> #[trigger] p.slots@[i] == slot_of(kind_view(kinds[i]))
    &&& p.methods@.map_values(|m: MethodPlan| method_view(m)) == methods_spec(
        fields.map_values(|f: BuilderField| f.name@),
        kinds_view(kinds),
        fields.len() as int,
    )
    &&& p.steps@.len() == kinds.len()
    &&& forall|i: int| 0 <= i < kinds.len() ==> build_step_ok(kind_view(kinds[i]), fields[i].name@, #[trigger] p.steps@[i])
}

/// The derive on a struct with named fields none of which it panics on:
/// the plan of the builder, or the first field whose attribute is wrong.
pub fn derive_impl(name: &String, fields: &Vec<BuilderField>) -> (r: Result<BuilderPlan, usize>)
    requires
        forall|i: int| 0 <= i < fields@.len() ==> !(#[trigger] classify_spec(fields@[i].ty, fields@[i].attrs@) is Panic),
    ensures
        match r {
            Ok(p) => exists|kinds: Seq<FieldKind>| fields_kinds(fields@, kinds) && plan_ok(name@, fields@, kinds, p),
            Err(i) => fields_outcome_ok(fields@, FieldsOutcome::Error(i)),
        },
{
    let kinds = match classify_fields(fields) {
        FieldsOutcome::Kinds(k) => k,
        FieldsOutcome::Error(i) => {
            return Err(i);
        },
        FieldsOutcome::Panic(i) => {
            proof {
                assert(!(classify_spec(fields@[i as int].ty, fields@[i as int].attrs@) is Panic));
            }
            return Err(i);
        },
    };
    let mut names: Vec<String> = Vec::new();
    let mut i: usize = 0;
    while i < fields.len()
        invariant
            i <= fields@.len(),
            names@.len() == i,
            forall|j: int| 0 <= j < i ==> #[trigger] names@[j]@ == fields@[j].name@,
        decreases fields@.len() - i,
    {
        names.push(fields[i].name.clone());
        i = i + 1;
    }
    proof {
        assert(names_view(names@) =~= fields@.map_values(|f: BuilderField| f.name@));
    }
    let slots = gen_builder_struct(&kinds);
    let (methods, steps) = gen_builder_impl(&names, &kinds);
    let builder_name = name.clone().concat("Builder");
    let p = BuilderPlan { builder_name, slots, methods, steps };
    proof {
        assert(plan_ok(name@, fields@, kinds@, p));
    }
    Ok(p)
}

/// Field `i` is the first field not read as a kind, and is read as `c`.
pub open spec fn fails_first_at(fields: Seq<BuilderField>, i: int, c: Classified) -> bool {
    &&& 0 <= i < fields.len()
    &&& classify_spec(fields[i].ty, fields[i].attrs@) == c
    &&& forall|j: int| 0 <= j < i ==> #[trigger] classify_spec(fields[j].ty, fields[j].attrs@) is Kind
}

/// What `#[derive(Builder)]` does: `None` where it panics (on an item that is
/// not a struct with named fields, or on a field it cannot read), else the
/// outcome of `derive_impl`.
pub fn derive(name: &String, data: &DeriveData) -> (r: Option<Result<BuilderPlan, usize>>)
    ensures
        r is None <==> match data {
            DeriveData::Other => true,
            DeriveData::NamedStruct(fields) => exists|i: int| fails_first_at(fields@, i, Classified::Panic),
        },
        r matches Some(Err(i)) ==> data matches DeriveData::NamedStruct(fields) && fails_first_at(fields@, i as int, Classified::Error),
        r matches Some(Ok(p)) ==> data matches DeriveData::NamedStruct(fields) && exists|kinds: Seq<FieldKind>| fields_kinds(fields@, kinds) && plan_ok(name@, fields@, kinds, p),
        data matches DeriveData::NamedStruct(fields) && (forall|i: int| 0 <= i < fields@.len() ==> #[trigger] classify_spec(fields@[i].ty, fields@[i].attrs@) is Kind) ==> r matches Some(Ok(_)),
{
    match data {
        DeriveData::Other => None,
        DeriveData::NamedStruct(fields) => match classify_fields(fields) {
            FieldsOutcome::Panic(i) => {
                proof {
                    assert(fails_first_at(fields@, i as int, Classified::Panic));
                }
                None
            },
            FieldsOutcome::Error(i) => {
                proof {
                    assert forall|k: int| !fails_first_at(fields@, k, Classified::Panic) by {
                        if fails_first_at(fields@, k, Classified::Panic) {
                            if k < i {
                                assert(classify_spec(fields@[k].ty, fields@[k].attrs@) is Kind);
                            } else if k > i {
                                assert(classify_spec(fields@[i as int].ty, fields@[i as int].attrs@) is Kind);
                            }
                        }
                    }
                }
                Some(Err(i))
            },
            FieldsOutcome::Kinds(kinds) => {
                proof {
                    assert forall|k: int| !fails_first_at(fields@, k, Classified::Panic) by {
                        if 0 <= k < fields@.len() {
                            assert(classify_spec(fields@[k].ty, fields@[k].attrs@) == Classified::Kind(kind_view(kinds@[k])));
                        }
                    }
                    assert forall|i: int| 0 <= i < fields@.len() implies !(#[trigger] classify_spec(fields@[i].ty, fields@[i].attrs@) is Panic) by {
                        assert(classify_spec(fields@[i].ty, fields@[i].attrs@) == Classified::Kind(kind_view(kinds@[i])));
                    }
                }
                let r = derive_impl(name, fields);
                match r {
                    Err(i) => {
                        proof {
                            assert(classify_spec(fields@[i as int].ty, fields@[i as int].attrs@) == Classified::Kind(kind_view(kinds@[i as int])));
                        }
                        Some(Err(i))
                    },
                    Ok(p) => Some(Ok(p)),
                }
            },
        },
    }
}


/// The setters of a plan, as values.
pub open spec fn plan_methods(p: BuilderPlan) -> Seq<MethodV> {
    p.methods@.map_values(|m: MethodPlan| method_view(m))
}

/// What a field of the written builder holds at run time: an `Option` (for
/// `OptionOfField` and `OptionOfInner` slots) or the items of a `Vec`.
pub enum HeldV<A> {
    One(Option<A>),
    Many(Seq<A>),
}

/// The argument of a call of a setter: one value, or a whole `Vec`.
pub enum ArgV<A> {
    Item(A),
    List(Seq<A>),
}

/// What `builder()` puts in a field of the builder.
pub open spec fn initial_held<A>(s: Slot) -> HeldV<A> {
    match s {
        Slot::VecOfInner => HeldV::Many(Seq::empty()),
        _ => HeldV::One(None),
    }
}

/// The fields of a new builder.
pub open spec fn initial_state<A>(slots: Seq<Slot>) -> Seq<HeldV<A>> {
    Seq::new(slots.len(), |i: int| initial_held::<A>(slots[i]))
}

/// What a written setter does: `SetSome` stores `Some(value)`, `Push` pushes
/// the value, `Assign` replaces the whole `Vec`.
pub open spec fn apply_call<A>(state: Seq<HeldV<A>>, m: MethodV, arg: ArgV<A>) -> Seq<HeldV<A>> {
    match (m.action, arg) {
        (Action::SetSome, ArgV::Item(a)) => state.update(m.field, HeldV::One(Some(a))),
        (Action::Push, ArgV::Item(a)) => match state[m.field] {
            HeldV::Many(l) => state.update(m.field, HeldV::Many(l.push(a))),
            HeldV::One(_) => state,
        },
        (Action::Assign, ArgV::List(l)) => state.update(m.field, HeldV::Many(l)),
        _ => state,
    }
}

/// A call passes what the setter takes: one value to `SetSome` and `Push`,
/// a `Vec` to `Assign`.
pub open spec fn call_ok<A>(methods: Seq<MethodV>, c: (int, ArgV<A>)) -> bool {
    &&& 0 <= c.0 < methods.len()
    &&& (methods[c.0].action == Action::Assign) == (c.1 is List)
}

/// The builder after the calls, in order; each call names a setter by its
/// place among `methods`.
pub open spec fn run_calls<A>(methods: Seq<MethodV>, state: Seq<HeldV<A>>, calls: Seq<(int, ArgV<A>)>) -> Seq<HeldV<A>>
    decreases calls.len(),
{
    if calls.len() == 0 {
        state
    } else {
        let c = calls.last();
        apply_call(run_calls(methods, state, calls.drop_last()), methods[c.0], c.1)
    }
}

/// The value of the last call that stores into field `i`, if any.
pub open spec fn last_set<A>(methods: Seq<MethodV>, calls: Seq<(int, ArgV<A>)>, i: int) -> Option<A>
    decreases calls.len(),
{
    if calls.len() == 0 {
        None
    } else {
        let c = calls.last();
        if methods[c.0].field == i && methods[c.0].action == Action::SetSome && c.1 is Item {
            Some(c.1->Item_0)
        } else {
            last_set(methods, calls.drop_last(), i)
        }
    }
}

/// The items of field `i`: the `Vec` of the last call that replaces it (or
/// none), followed by the values pushed after that call, in order.
pub open spec fn list_of<A>(methods: Seq<MethodV>, calls: Seq<(int, ArgV<A>)>, i: int) -> Seq<A>
    decreases calls.len(),
{
    if calls.len() == 0 {
        Seq::empty()
    } else {
        let c = calls.last();
        if methods[c.0].field == i && methods[c.0].action == Action::Assign && c.1 is List {
            c.1->List_0
        } else if methods[c.0].field == i && methods[c.0].action == Action::Push && c.1 is Item {
            list_of(methods, calls.drop_last(), i).push(c.1->Item_0)
        } else {
            list_of(methods, calls.drop_last(), i)
        }
    }
}

/// What the written `build` does with the first `k` fields: fails with the
/// text of the first `Required` field that holds `None`, or copies what the
/// fields hold.
pub open spec fn build_spec<A>(steps: Seq<BuildStep>, held: Seq<HeldV<A>>, k: int) -> Result<Seq<HeldV<A>>, Seq<char>>
    decreases k,
{
    if k <= 0 {
        Ok(held)
    } else {
        match build_spec(steps, held, k - 1) {
            Err(e) => Err(e),
            Ok(h) => match steps[k - 1] {
                BuildStep::Required(m) => if held[k - 1] matches HeldV::One(Some(_)) {
                    Ok(h)
                } else {
                    Err(m@)
                },
                BuildStep::Cloned => Ok(h),
            },
        }
    }
}

proof fn lemma_methods_targets(names: Seq<Seq<char>>, kinds: Seq<KindV>, k: int, q: int)
    requires
        0 <= k <= kinds.len(),
        k <= names.len(),
        0 <= q < methods_spec(names, kinds, k).len(),
    ensures
        ({
            let m = methods_spec(names, kinds, k)[q];
            &&& 0 <= m.field < k
            &&& (kinds[m.field] is Each) == (m.action != Action::SetSome)
        }),
    decreases k,
{
    let prev = methods_spec(names, kinds, k - 1);
    assert(methods_spec(names, kinds, k) == prev + field_methods(k - 1, names[k - 1], kinds[k - 1]));
    if q < prev.len() {
        lemma_methods_targets(names, kinds, k - 1, q);
    }
}

proof fn lemma_run_calls_field<A>(methods: Seq<MethodV>, state: Seq<HeldV<A>>, calls: Seq<(int, ArgV<A>)>, i: int)
    requires
        0 <= i < state.len(),
        forall|c: int| 0 <= c < calls.len() ==> #[trigger] call_ok(methods, calls[c]),
        forall|q: int| 0 <= q < methods.len() ==> 0 <= (#[trigger] methods[q]).field < state.len(),
        forall|q: int| 0 <= q < methods.len() && (#[trigger] methods[q]).field == i ==> (
            (state[i] is One) == (methods[q].action == Action::SetSome)),
    ensures
        run_calls(methods, state, calls).len() == state.len(),
        state[i] matches HeldV::One(o) ==> run_calls(methods, state, calls)[i] == HeldV::One(
            match last_set(methods, calls, i) {
                Some(a) => Some(a),
                None => o,
            },
        ),
        state[i] matches HeldV::Many(l) ==> run_calls(methods, state, calls)[i] == HeldV::Many(
            if exists|c: int| 0 <= c < calls.len() && #[trigger] methods[calls[c].0].field == i && methods[calls[c].0].action == Action::Assign {
                list_of(methods, calls, i)
            } else {
                l + list_of(methods, calls, i)
            },
        ),
    decreases calls.len(),
{
    if calls.len() > 0 {
        let pre = calls.drop_last();
        let c = calls.last();
        assert forall|x: int| 0 <= x < pre.len() implies #[trigger] call_ok(methods, pre[x]) by {
            assert(pre[x] == calls[x]);
        }
        assert(call_ok(methods, calls[calls.len() - 1]));
        lemma_run_calls_field(methods, state, pre, i);
        let st = run_calls(methods, state, pre);
        let m = methods[c.0];
        assert(0 <= m.field < state.len());
        if m.field == i {
            assert((state[i] is One) == (m.action == Action::SetSome));
        }
        match state[i] {
            HeldV::One(o) => {},
            HeldV::Many(l) => {
                let assigned = exists|x: int| 0 <= x < calls.len() && #[trigger] methods[calls[x].0].field == i && methods[calls[x].0].action == Action::Assign;
                let assigned_pre = exists|x: int| 0 <= x < pre.len() && #[trigger] methods[pre[x].0].field == i && methods[pre[x].0].action == Action::Assign;
                if assigned_pre {
                    let x = choose|x: int| 0 <= x < pre.len() && #[trigger] methods[pre[x].0].field == i && methods[pre[x].0].action == Action::Assign;
                    assert(pre[x] == calls[x]);
                    assert(assigned);
                }
                if m.field == i && m.action == Action::Assign {
                    assert(methods[calls[calls.len() - 1].0].field == i);
                    assert(assigned);
                } else if assigned {
                    let x = choose|x: int| 0 <= x < calls.len() && #[trigger] methods[calls[x].0].field == i && methods[calls[x].0].action == Action::Assign;
                    assert(x < pre.len());
                    assert(pre[x] == calls[x]);
                    assert(assigned_pre);
                }
                if m.field == i && m.action == Action::Push && !assigned_pre {
                    assert(l + list_of(methods, pre, i).push(c.1->Item_0) =~= (l + list_of(methods, pre, i)).push(c.1->Item_0));
                }
            },
        }
    }
}

proof fn lemma_build_spec<A>(steps: Seq<BuildStep>, held: Seq<HeldV<A>>, k: int)
    requires
        0 <= k <= steps.len(),
        k <= held.len(),
    ensures
        build_spec(steps, held, k) is Ok <==> forall|j: int| 0 <= j < k && #[trigger] steps[j] is Required ==> held[j] matches HeldV::One(Some(_)),
        build_spec(steps, held, k) matches Ok(h) ==> h == held,
        build_spec(steps, held, k) matches Err(msg) ==> exists|j: int| {
            &&& 0 <= j < k
            &&& #[trigger] steps[j] matches BuildStep::Required(m) && m@ == msg
            &&& !(held[j] matches HeldV::One(Some(_)))
            &&& forall|j2: int| 0 <= j2 < j && #[trigger] steps[j2] is Required ==> held[j2] matches HeldV::One(Some(_))
        },
    decreases k,
{
    if k > 0 {
        lemma_build_spec(steps, held, k - 1);
        if build_spec(steps, held, k - 1) is Err {
            let msg = build_spec(steps, held, k - 1)->Err_0;
            let j = choose|j: int| {
                &&& 0 <= j < k - 1
                &&& #[trigger] steps[j] matches BuildStep::Required(m) && m@ == msg
                &&& !(held[j] matches HeldV::One(Some(_)))
                &&& forall|j2: int| 0 <= j2 < j && #[trigger] steps[j2] is Required ==> held[j2] matches HeldV::One(Some(_))
            };
            assert(steps[j] is Required);
        } else if steps[k - 1] is Required && !(held[k - 1] matches HeldV::One(Some(_))) {
            assert(steps[k - 1] is Required);
        }
    }
}

/// The builder that the derive writes, run: after any sequence of calls of
/// its setters (each given what it takes), starting from `builder()`,
/// - a field set once (`Normal` or `Optional`) holds `Some` of the value of
///   the last call that set it, or `None` when none did;
/// - a field filled one item at a time holds the `Vec` of the last call that
///   replaced it (or an empty one), followed by the items pushed after it;
/// - `build` succeeds exactly when every required (`Normal`) field was set,
///   and then yields what the fields hold, leaving the builder as it was;
///   otherwise it fails with "`name` wasn't initialized!" for the first
///   required field that was not set.
pub proof fn law_builder_runs<A>(
    name: Seq<char>,
    fields: Seq<BuilderField>,
    kinds: Seq<FieldKind>,
    p: BuilderPlan,
    calls: Seq<(int, ArgV<A>)>,
)
    requires
        fields_kinds(fields, kinds),
        plan_ok(name, fields, kinds, p),
        forall|c: int| 0 <= c < calls.len() ==> #[trigger] call_ok(plan_methods(p), calls[c]),
    ensures
        ({
            let ms = plan_methods(p);
            let fin = run_calls(ms, initial_state::<A>(p.slots@), calls);
            let n = fields.len() as int;
            &&& fin.len() == n
            &&& forall|i: int| 0 <= i < n && !(kind_view(kinds[i]) is Each) ==> #[trigger] fin[i] == HeldV::One(last_set(ms, calls, i))
            &&& forall|i: int| 0 <= i < n && kind_view(kinds[i]) is Each ==> #[trigger] fin[i] == HeldV::Many(list_of(ms, calls, i))
            &&& (build_spec(p.steps@, fin, n) is Ok <==> forall|i: int| 0 <= i < n && #[trigger] kind_view(kinds[i]) is Normal ==> last_set(ms, calls, i) is Some)
            &&& build_spec(p.steps@, fin, n) matches Ok(h) ==> h == fin
            &&& build_spec(p.steps@, fin, n) matches Err(msg) ==> exists|i: int| {
                &&& 0 <= i < n
                &&& #[trigger] kind_view(kinds[i]) is Normal
                &&& last_set(ms, calls, i) is None
                &&& msg == fields[i].name@ + " wasn't initialized!"@
                &&& forall|j: int| 0 <= j < i && #[trigger] kind_view(kinds[j]) is Normal ==> last_set(ms, calls, j) is Some
            }
        }),
{
    let ms = plan_methods(p);
    let names = fields.map_values(|f: BuilderField| f.name@);
    let kv = kinds_view(kinds);
    let n = fields.len() as int;
    let init = initial_state::<A>(p.slots@);
    let fin = run_calls(ms, init, calls);
    assert(ms == methods_spec(names, kv, n));
    assert forall|q: int| 0 <= q < ms.len() implies 0 <= (#[trigger] ms[q]).field < init.len() && (kv[ms[q].field] is Each) == (ms[q].action != Action::SetSome) by {
        lemma_methods_targets(names, kv, n, q);
    }
    assert forall|i: int| 0 <= i < n implies (#[trigger] fin[i]) == (if kind_view(kinds[i]) is Each {
        HeldV::Many(list_of(ms, calls, i))
    } else {
        HeldV::One(last_set(ms, calls, i))
    }) && fin.len() == n by {
        assert(p.slots@[i] == slot_of(kind_view(kinds[i])));
        assert(kv[i] == kind_view(kinds[i]));
        assert forall|q: int| 0 <= q < ms.len() && (#[trigger] ms[q]).field == i implies ((init[i] is One) == (ms[q].action == Action::SetSome)) by {
            assert((kv[ms[q].field] is Each) == (ms[q].action != Action::SetSome));
        }
        lemma_run_calls_field(ms, init, calls, i);
        if kind_view(kinds[i]) is Each {
            assert(init[i] == HeldV::Many::<A>(Seq::empty()));
            assert(Seq::<A>::empty() + list_of(ms, calls, i) =~= list_of(ms, calls, i));
            if exists|c: int| 0 <= c < calls.len() && #[trigger] ms[calls[c].0].field == i && ms[calls[c].0].action == Action::Assign {
            }
        } else {
            assert(init[i] == HeldV::One::<A>(None));
            match last_set(ms, calls, i) {
                Some(a) => {},
                None => {},
            }
        }
    }
    if n == 0 {
        assert(ms.len() == 0);
        if calls.len() > 0 {
            assert(call_ok(ms, calls[0]));
        }
        assert(fin == init);
    } else {
        assert(fin[0] == fin[0]);
    }
    lemma_build_spec(p.steps@, fin, n);
    assert forall|j: int| 0 <= j < n implies (#[trigger] p.steps@[j] is Required) == (kind_view(kinds[j]) is Normal) by {
        assert(build_step_ok(kind_view(kinds[j]), fields[j].name@, p.steps@[j]));
    }
    if build_spec(p.steps@, fin, n) is Ok {
        assert forall|i: int| 0 <= i < n && #[trigger] kind_view(kinds[i]) is Normal implies last_set(ms, calls, i) is Some by {
            assert(p.steps@[i] is Required);
            assert(fin[i] == HeldV::One(last_set(ms, calls, i)));
        }
    } else {
        let msg = build_spec(p.steps@, fin, n)->Err_0;
        let j = choose|j: int| {
            &&& 0 <= j < n
            &&& #[trigger] p.steps@[j] matches BuildStep::Required(m) && m@ == msg
            &&& !(fin[j] matches HeldV::One(Some(_)))
            &&& forall|j2: int| 0 <= j2 < j && #[trigger] p.steps@[j2] is Required ==> fin[j2] matches HeldV::One(Some(_))
        };
        assert(p.steps@[j] is Required);
        assert(kind_view(kinds[j]) is Normal);
        assert(build_step_ok(kind_view(kinds[j]), fields[j].name@, p.steps@[j]));
        assert(fin[j] == HeldV::One(last_set(ms, calls, j)));
        assert forall|j2: int| 0 <= j2 < j && #[trigger] kind_view(kinds[j2]) is Normal implies last_set(ms, calls, j2) is Some by {
            assert(p.steps@[j2] is Required);
            assert(fin[j2] == HeldV::One(last_set(ms, calls, j2)));
        }
    }
}


/// How a field is read from its type and attributes: a field without
/// attributes is filled at most once; it is `Normal` (required by `build`)
/// whenever its type's first segment is not named `Option`, whatever the
/// generic arguments of that segment (a `Vec<T>` field without attribute is
/// a required field like any other), and `Optional` only for `Option<T>`.
/// Only a field with exactly one attribute is filled one item at a time.
pub proof fn law_classify_plain(first: String, args: SegArgs, attrs: Vec<FieldAttr>)
    ensures
        attrs@.len() == 0 && first@ != "Option"@ ==> classify_spec(FieldTy::Path(first, args), attrs@) == Classified::Kind(KindV::Normal),
        attrs@.len() == 0 ==> (classify_spec(FieldTy::Path(first, args), attrs@) == Classified::Kind(KindV::Optional) <==> (
            first@ == "Option"@ && args == SegArgs::Angle(GenericArg::Type))),
        classify_spec(FieldTy::Path(first, args), attrs@) matches Classified::Kind(KindV::Each(_)) ==> attrs@.len() == 1,
{
}

proof fn lemma_methods_prefix(names: Seq<Seq<char>>, kinds: Seq<KindV>, j: int, k: int)
    requires
        0 <= j <= k,
    ensures
        methods_spec(names, kinds, j).len() <= methods_spec(names, kinds, k).len(),
        methods_spec(names, kinds, k).take(methods_spec(names, kinds, j).len() as int) == methods_spec(names, kinds, j),
    decreases k - j,
{
    if j < k {
        lemma_methods_prefix(names, kinds, j, k - 1);
        let a = methods_spec(names, kinds, k - 1);
        let b = field_methods(k - 1, names[k - 1], kinds[k - 1]);
        assert(methods_spec(names, kinds, k) == a + b);
        assert((a + b).take(methods_spec(names, kinds, j).len() as int) =~= a.take(methods_spec(names, kinds, j).len() as int));
    } else {
        assert(methods_spec(names, kinds, k).take(methods_spec(names, kinds, k).len() as int) =~= methods_spec(names, kinds, k));
    }
}

/// The builder of a struct with a field that has no attributes and whose
/// type's first segment is not named `Option`: the builder holds an
/// `Option` of the field's own type, starting out empty; it has a setter
/// named after the field that takes the field's type and stores `Some` of
/// it; and `build` fails with "`name` wasn't initialized!" unless it was set.
pub proof fn law_plain_field_plan(name: Seq<char>, fields: Seq<BuilderField>, kinds: Seq<FieldKind>, p: BuilderPlan, i: int)
    requires
        fields_kinds(fields, kinds),
        plan_ok(name, fields, kinds, p),
        0 <= i < fields.len(),
        fields[i].attrs@.len() == 0,
        fields[i].ty matches FieldTy::Path(first, _) && first@ != "Option"@,
    ensures
        kind_view(kinds[i]) == KindV::Normal,
        p.slots@[i] == Slot::OptionOfField,
        p.steps@[i] matches BuildStep::Required(m) && m@ == fields[i].name@ + " wasn't initialized!"@,
        exists|q: int|
            0 <= q < plan_methods(p).len() && #[trigger] plan_methods(p)[q] == (MethodV {
                field: i,
                name: fields[i].name@,
                param: Param::FieldType,
                action: Action::SetSome,
            }),
{
    assert(classify_spec(fields[i].ty, fields[i].attrs@) == Classified::Kind(kind_view(kinds[i])));
    assert(build_step_ok(kind_view(kinds[i]), fields[i].name@, p.steps@[i]));
    assert(p.slots@[i] == slot_of(kind_view(kinds[i])));
    let names = fields.map_values(|f: BuilderField| f.name@);
    let kv = kinds_view(kinds);
    let n = fields.len() as int;
    assert(plan_methods(p) == methods_spec(names, kv, n));
    lemma_methods_prefix(names, kv, i + 1, n);
    let before = methods_spec(names, kv, i);
    assert(kv[i] == KindV::Normal);
    assert(names[i] == fields[i].name@);
    assert(methods_spec(names, kv, i + 1) == before + field_methods(i, names[i], kv[i]));
    let q = before.len() as int;
    let m = MethodV { field: i, name: fields[i].name@, param: Param::FieldType, action: Action::SetSome };
    assert(methods_spec(names, kv, i + 1)[q] == m);
    let whole = methods_spec(names, kv, n);
    assert(whole.take(methods_spec(names, kv, i + 1).len() as int)[q] == whole[q]);
    assert(plan_methods(p)[q] == m);
}

} // verus!
