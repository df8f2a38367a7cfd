use vstd::prelude::*;
use crate::bdd::Bdd;
use crate::context::{EngineError, ListAtomic, MappingAtomic, SemTypeContext, MAX_DEPTH};
use crate::literal::{LitKey, LitSet, Literal};
use crate::schema::{Json, JsonSchema, Optionality, Validator};
use crate::semtype::{Probe, SemType};

verus! {

/// Whether a schema is built without objects, arrays, references or structured
/// constants.
pub open spec fn is_flat(s: JsonSchema) -> bool
    decreases s,
{
    match s {
        JsonSchema::Null => true,
        JsonSchema::Boolean => true,
        JsonSchema::Number => true,
        JsonSchema::String => true,
        JsonSchema::StringWithFormat(_) => true,
        JsonSchema::Any => true,
        JsonSchema::AnyObject => true,
        JsonSchema::AnyArrayLike => true,
        JsonSchema::StNever => true,
        JsonSchema::Const(j) => !(j is Array) && !(j is Object),
        JsonSchema::AnyOf(vs) => forall|i: int| 0 <= i < vs.len() ==> is_flat(#[trigger] vs[i]),
        JsonSchema::AllOf(vs) => forall|i: int| 0 <= i < vs.len() ==> is_flat(#[trigger] vs[i]),
        JsonSchema::StNot(x) => is_flat(*x),
        _ => false,
    }
}

/// Whether a flat schema holds the value `p`. A union holds what one of its parts
/// holds, an intersection what all hold, a negation every present value that its
/// operand does not hold.
pub open spec fn denotes(s: JsonSchema, p: Probe) -> bool
    decreases s,
{
    match s {
        JsonSchema::Null => p is Null,
        JsonSchema::Boolean => p is Bool,
        JsonSchema::Number => p is Number,
        JsonSchema::String => p is Str,
        JsonSchema::StringWithFormat(f) => p == Probe::Str((2nat, f@)),
        JsonSchema::Any => !(p is Void),
        JsonSchema::AnyObject => p is Mapping,
        JsonSchema::AnyArrayLike => p is List,
        JsonSchema::StNever => false,
        JsonSchema::Const(Json::Null) => p is Null,
        JsonSchema::Const(Json::Bool(b)) => p == Probe::Bool(b),
        JsonSchema::Const(Json::Number(n)) => p == Probe::Number((0nat, n@)),
        JsonSchema::Const(Json::String(x)) => p == Probe::Str((1nat, x@)),
        JsonSchema::AnyOf(vs) => exists|i: int| 0 <= i < vs.len() && denotes(#[trigger] vs[i], p),
        JsonSchema::AllOf(vs) => !(p is Void) && forall|i: int|
            0 <= i < vs.len() ==> denotes(#[trigger] vs[i], p),
        JsonSchema::StNot(x) => !(p is Void) && !denotes(*x, p),
        _ => false,
    }
}

/// The parts of a flat union or intersection are flat.
proof fn lemma_flat_parts(s: JsonSchema)
    requires
        is_flat(s),
    ensures
        s matches JsonSchema::AnyOf(vs) ==> forall|i: int| 0 <= i < vs.len() ==> is_flat(#[trigger] vs[i]),
        s matches JsonSchema::AllOf(vs) ==> forall|i: int| 0 <= i < vs.len() ==> is_flat(#[trigger] vs[i]),
{
}

/// Whether `t` holds exactly the objects (`is_list` false) or arrays that have the
/// shape `h`.
pub open spec fn one_shape(t: SemType, h: u64, is_list: bool) -> bool {
    forall|p: Probe| #[trigger]
        t.contains(p) == if is_list {
            p matches Probe::List(e) && e.contains(h)
        } else {
            p matches Probe::Mapping(e) && e.contains(h)
        }
}

/// What the semantic type of a schema holds: exactly what a flat schema denotes; the
/// objects of one shape for an object schema; the arrays of one shape for an array or
/// tuple schema.
/// Whether the flat schema `s` nests unions, intersections and negations less deeply
/// than `fuel`.
pub open spec fn flat_within(s: JsonSchema, fuel: nat) -> bool
    decreases s,
{
    fuel > 0 && is_flat(s) && match s {
        JsonSchema::AnyOf(vs) => forall|i: int|
            0 <= i < vs.len() ==> flat_within(#[trigger] vs[i], (fuel - 1) as nat),
        JsonSchema::AllOf(vs) => forall|i: int|
            0 <= i < vs.len() ==> flat_within(#[trigger] vs[i], (fuel - 1) as nat),
        JsonSchema::StNot(x) => flat_within(*x, (fuel - 1) as nat),
        _ => true,
    }
}

/// Whether the literal set is an allow-list of exactly the literal `k`.
pub open spec fn one_literal(o: Option<LitSet>, k: LitKey) -> bool {
    o matches Some(ls) && ls.allowed && ls.values.len() == 1 && ls.values[0].key() == k
}

pub open spec fn lowers_to(s: JsonSchema, t: SemType) -> bool {
    &&& s matches JsonSchema::StringWithFormat(f) ==> one_literal(t.string, (2nat, f@))
        && t.number is None
    &&& s matches JsonSchema::Const(Json::String(x)) ==> one_literal(t.string, (1nat, x@))
        && t.number is None
    &&& s matches JsonSchema::Const(Json::Number(n)) ==> one_literal(t.number, (0nat, n@))
        && t.string is None
    &&& is_flat(s) ==> forall|p: Probe| #[trigger] t.contains(p) == denotes(s, p)
    &&& is_flat(s) ==> t.unstructured() && t.wf()
    &&& s is Object ==> exists|h: u64| #[trigger] one_shape(t, h, false)
    &&& (s is Array || s is Tuple) ==> exists|h: u64| #[trigger] one_shape(t, h, true)
}

/// Whether `t` holds the arrays of the shape `h` of `ctx`: a shape without prefix whose
/// items, for a flat item schema, are exactly what the item schema denotes.
pub open spec fn array_of(t: SemType, h: u64, ctx: SemTypeContext, item: JsonSchema) -> bool {
    &&& t.single_atom(h, true)
    &&& h < ctx.list_definitions.len()
    &&& ctx.list_definitions[h as int].prefix_items.len() == 0
    &&& is_flat(item) ==> {
        &&& ctx.list_definitions[h as int].items.unstructured()
        &&& forall|p: Probe| #[trigger]
            ctx.list_definitions[h as int].items.contains(p) == denotes(item, p)
    }
}

/// Whether `t` is the type of an object field of schema `f`: for a flat field schema,
/// what the schema denotes, and absence too when the field is optional; absence for
/// any optional field.
pub open spec fn field_holds(f: Optionality<JsonSchema>, t: SemType) -> bool {
    &&& is_flat(f.inner_spec()) ==> forall|p: Probe| #[trigger]
        t.contains(p) == (denotes(f.inner_spec(), p) || (f is Optional && p is Void))
    &&& f is Optional ==> t.contains(Probe::Void)
}

/// Whether `t` holds the objects of the shape `h` of `ctx`: a shape with the fields of
/// `fs`, by name and in order, each with the type of its field schema.
pub open spec fn object_of(
    t: SemType,
    h: u64,
    ctx: SemTypeContext,
    fs: Vec<(String, Optionality<JsonSchema>)>,
) -> bool {
    &&& t.single_atom(h, false)
    &&& h < ctx.mapping_definitions.len()
    &&& ctx.mapping_definitions[h as int].fields.len() == fs.len()
    &&& forall|i: int|
        0 <= i < fs.len() ==> (#[trigger] fs[i]).0@ == ctx.mapping_definitions[h as int].fields[i].0@
            && field_holds(fs[i].1, ctx.mapping_definitions[h as int].fields[i].1)
}

/// Whether `t` holds the arrays of the shape `h` of `ctx`: a shape with one position
/// per prefix schema, each flat one denoting what its schema denotes, and a rest that
/// holds nothing when the tuple has no rest schema, or the rest schema's values.
pub open spec fn tuple_of(
    t: SemType,
    h: u64,
    ctx: SemTypeContext,
    prefix: Vec<JsonSchema>,
    items: Option<Box<JsonSchema>>,
) -> bool {
    &&& t.single_atom(h, true)
    &&& h < ctx.list_definitions.len()
    &&& ctx.list_definitions[h as int].prefix_items.len() == prefix.len()
    &&& forall|i: int|
        0 <= i < prefix.len() && is_flat(#[trigger] prefix[i]) ==> forall|p: Probe| #[trigger]
            ctx.list_definitions[h as int].prefix_items[i].contains(p) == denotes(prefix[i], p)
    &&& items is None ==> ctx.list_definitions[h as int].items.never_shape()
    &&& items is Some && is_flat(*items->0) ==> forall|p: Probe| #[trigger]
        ctx.list_definitions[h as int].items.contains(p) == denotes(*items->0, p)
}

/// Every value but an absent field.
fn unknown() -> (r: SemType)
    ensures
        r.wf(),
        r.unstructured(),
        forall|p: Probe| #[trigger] r.contains(p) == !(p is Void),
{
    let r = SemType::of_categories(true, true, true, true, true, true, false);
    assert forall|p: Probe| #[trigger] r.contains(p) == !(p is Void) by {
        match p {
            Probe::Bool(b) => {
                assert(r.contains(Probe::Bool(b)) == !(Probe::Bool(b) is Void));
            },
            Probe::Number(k) => {
                assert(r.contains(Probe::Number(k)) == !(Probe::Number(k) is Void));
            },
            Probe::Str(k) => {
                assert(r.contains(Probe::Str(k)) == !(Probe::Str(k) is Void));
            },
            Probe::Mapping(e) => {
                assert(r.contains(Probe::Mapping(e)) == !(Probe::Mapping(e) is Void));
            },
            Probe::List(e) => {
                assert(r.contains(Probe::List(e)) == !(Probe::List(e) is Void));
            },
            Probe::Null => {
                assert(r.contains(Probe::Null) == !(Probe::Null is Void));
            },
            Probe::Void => {
                assert(r.contains(Probe::Void) == !(Probe::Void is Void));
            },
        }
    }
    r
}

/// The type of a field's value: an optional field also holds absence.
fn field_of(t: SemType, required: bool) -> (r: SemType)
    ensures
        required ==> r == t,
        !required ==> forall|p: Probe| #[trigger] r.contains(p) == (t.contains(p) || p is Void),
{
    if required {
        t
    } else {
        let v = SemType::of_categories(false, false, false, false, false, false, true);
        let r = t.union(&v);
        assert forall|p: Probe| #[trigger] r.contains(p) == (t.contains(p) || p is Void) by {
            assert(r.contains(p) == (t.contains(p) || v.contains(p)));
            match p {
                Probe::Bool(b) => {
                    assert(!v.contains(Probe::Bool(b)));
                },
                Probe::Number(k) => {
                    assert(!v.contains(Probe::Number(k)));
                },
                Probe::Str(k) => {
                    assert(!v.contains(Probe::Str(k)));
                },
                Probe::Mapping(e) => {
                    assert(!v.contains(Probe::Mapping(e)));
                },
                Probe::List(e) => {
                    assert(!v.contains(Probe::List(e)));
                },
                Probe::Null => {
                    assert(!v.contains(Probe::Null));
                },
                Probe::Void => {
                    assert(v.contains(Probe::Void));
                },
            }
        }
        r
    }
}

/// The type of the objects that have exactly the given fields.
fn object_type(ctx: &mut SemTypeContext, fields: Vec<(String, SemType)>) -> (r: Result<
    SemType,
    EngineError,
>)
    ensures
        r matches Ok(t) ==> exists|h: u64| #[trigger] one_shape(t, h, false),
        r matches Ok(t) ==> exists|h: u64|
            #[trigger] t.single_atom(h, false) && h < final(ctx).mapping_definitions.len()
                && final(ctx).mapping_definitions[h as int].same_as((MappingAtomic { fields: fields })),
{
    if ctx.mapping_definitions.len() as u64 >= u64::MAX - 1 {
        return Err(EngineError::TooComplex);
    }
    let h = ctx.intern_mapping(MappingAtomic { fields });
    let t = SemType::from_bdd(Bdd::from_atom(h), false);
    assert(t.single_atom(h, false)) by {
        assert(!t.contains(Probe::Null));
        assert(!t.contains(Probe::Void));
        assert(!t.contains(Probe::Bool(true)));
        assert(!t.contains(Probe::Number((0nat, Seq::empty()))));
        assert(!t.contains(Probe::Str((0nat, Seq::empty()))));
        assert(!t.contains(Probe::Mapping(Set::empty())));
        assert(!t.contains(Probe::List(Set::empty())));
    }
    assert(one_shape(t, h, false)) by {
        assert forall|p: Probe| #[trigger]
            t.contains(p) == (p matches Probe::Mapping(e) && e.contains(h)) by {
            match p {
                Probe::Mapping(e) => {},
                Probe::List(e) => {
                    assert(!t.contains(Probe::List(e)));
                },
                Probe::Bool(b) => {
                    assert(!t.contains(Probe::Bool(b)));
                },
                Probe::Number(k) => {
                    assert(!t.contains(Probe::Number(k)));
                },
                Probe::Str(k) => {
                    assert(!t.contains(Probe::Str(k)));
                },
                _ => {},
            }
        }
    }
    Ok(t)
}

/// The type of the arrays with the given prefix and rest.
fn list_type(ctx: &mut SemTypeContext, prefix_items: Vec<SemType>, items: SemType) -> (r: Result<
    SemType,
    EngineError,
>)
    ensures
        r matches Ok(t) ==> exists|h: u64| #[trigger] one_shape(t, h, true),
        r matches Ok(t) ==> exists|h: u64|
            #[trigger] t.single_atom(h, true) && h < final(ctx).list_definitions.len()
                && final(ctx).list_definitions[h as int].same_as(
                (ListAtomic { prefix_items: prefix_items, items: items }),
            ),
{
    if ctx.list_definitions.len() as u64 >= u64::MAX - 1 {
        return Err(EngineError::TooComplex);
    }
    let h = ctx.intern_list(ListAtomic { prefix_items, items });
    let t = SemType::from_bdd(Bdd::from_atom(h), true);
    assert(t.single_atom(h, true)) by {
        assert(!t.contains(Probe::Null));
        assert(!t.contains(Probe::Void));
        assert(!t.contains(Probe::Bool(true)));
        assert(!t.contains(Probe::Number((0nat, Seq::empty()))));
        assert(!t.contains(Probe::Str((0nat, Seq::empty()))));
        assert(!t.contains(Probe::Mapping(Set::empty())));
        assert(!t.contains(Probe::List(Set::empty())));
    }
    assert(one_shape(t, h, true)) by {
        assert forall|p: Probe| #[trigger]
            t.contains(p) == (p matches Probe::List(e) && e.contains(h)) by {
            match p {
                Probe::List(e) => {},
                Probe::Mapping(e) => {
                    assert(!t.contains(Probe::Mapping(e)));
                },
                Probe::Bool(b) => {
                    assert(!t.contains(Probe::Bool(b)));
                },
                Probe::Number(k) => {
                    assert(!t.contains(Probe::Number(k)));
                },
                Probe::Str(k) => {
                    assert(!t.contains(Probe::Str(k)));
                },
                _ => {},
            }
        }
    }
    Ok(t)
}

/// The type that holds exactly the JSON value `j`.
fn lower_const(j: &Json, ctx: &mut SemTypeContext, fuel: u64) -> (r: Result<SemType, EngineError>)
    ensures
        r matches Ok(t) ==> lowers_to(JsonSchema::Const(*j), t),
        !(j is Array) && !(j is Object) ==> r is Ok,
    decreases fuel,
{
    match j {
        Json::Null => {
            let t = SemType::of_categories(true, false, false, false, false, false, false);
            assert forall|p: Probe| #[trigger] t.contains(p) == (p is Null) by {
                match p {
                    Probe::Bool(b) => {
                        assert(t.contains(Probe::Bool(b)) == (Probe::Bool(b) is Null));
                    },
                    Probe::Number(k) => {
                        assert(t.contains(Probe::Number(k)) == (Probe::Number(k) is Null));
                    },
                    Probe::Str(k) => {
                        assert(t.contains(Probe::Str(k)) == (Probe::Str(k) is Null));
                    },
                    Probe::Mapping(e) => {
                        assert(t.contains(Probe::Mapping(e)) == (Probe::Mapping(e) is Null));
                    },
                    Probe::List(e) => {
                        assert(t.contains(Probe::List(e)) == (Probe::List(e) is Null));
                    },
                    Probe::Null => {
                        assert(t.contains(Probe::Null) == (Probe::Null is Null));
                    },
                    Probe::Void => {
                        assert(t.contains(Probe::Void) == (Probe::Void is Null));
                    },
                }
            }
            Ok(t)
        },
        Json::Bool(b) => Ok(SemType::bool_const(*b)),
        Json::Number(n) => {
            let t = SemType::from_literals(LitSet::single(Literal::Number(n.clone())), false);
            assert forall|p: Probe| #[trigger] t.contains(p) == (p == Probe::Number((0nat, n@))) by {
                match p {
                    Probe::Bool(b) => {
                        assert(t.contains(Probe::Bool(b)) == (Probe::Bool(b) == Probe::Number((0nat, n@))));
                    },
                    Probe::Number(k) => {
                        assert(t.contains(Probe::Number(k)) == (Probe::Number(k) == Probe::Number((0nat, n@))));
                    },
                    Probe::Str(k) => {
                        assert(t.contains(Probe::Str(k)) == (Probe::Str(k) == Probe::Number((0nat, n@))));
                    },
                    Probe::Mapping(e) => {
                        assert(t.contains(Probe::Mapping(e)) == (Probe::Mapping(e) == Probe::Number((0nat, n@))));
                    },
                    Probe::List(e) => {
                        assert(t.contains(Probe::List(e)) == (Probe::List(e) == Probe::Number((0nat, n@))));
                    },
                    Probe::Null => {
                        assert(t.contains(Probe::Null) == (Probe::Null == Probe::Number((0nat, n@))));
                    },
                    Probe::Void => {
                        assert(t.contains(Probe::Void) == (Probe::Void == Probe::Number((0nat, n@))));
                    },
                }
            }
            Ok(t)
        },
        Json::String(x) => {
            let t = SemType::from_literals(LitSet::single(Literal::Str(x.clone())), true);
            assert forall|p: Probe| #[trigger] t.contains(p) == (p == Probe::Str((1nat, x@))) by {
                match p {
                    Probe::Bool(b) => {
                        assert(t.contains(Probe::Bool(b)) == (Probe::Bool(b) == Probe::Str((1nat, x@))));
                    },
                    Probe::Number(k) => {
                        assert(t.contains(Probe::Number(k)) == (Probe::Number(k) == Probe::Str((1nat, x@))));
                    },
                    Probe::Str(k) => {
                        assert(t.contains(Probe::Str(k)) == (Probe::Str(k) == Probe::Str((1nat, x@))));
                    },
                    Probe::Mapping(e) => {
                        assert(t.contains(Probe::Mapping(e)) == (Probe::Mapping(e) == Probe::Str((1nat, x@))));
                    },
                    Probe::List(e) => {
                        assert(t.contains(Probe::List(e)) == (Probe::List(e) == Probe::Str((1nat, x@))));
                    },
                    Probe::Null => {
                        assert(t.contains(Probe::Null) == (Probe::Null == Probe::Str((1nat, x@))));
                    },
                    Probe::Void => {
                        assert(t.contains(Probe::Void) == (Probe::Void == Probe::Str((1nat, x@))));
                    },
                }
            }
            Ok(t)
        },
        Json::Array(items) => {
            if fuel == 0 {
                return Err(EngineError::TooComplex);
            }
            let mut prefix: Vec<SemType> = Vec::new();
            let mut i: usize = 0;
            while i < items.len()
                invariant
                    0 <= i <= items.len(),
                    fuel > 0,
                    *j is Array,
                decreases items.len() - i,
            {
                prefix.push(lower_const(&items[i], ctx, fuel - 1)?);
                i = i + 1;
            }
            list_type(ctx, prefix, SemType::never())
        },
        Json::Object(entries) => {
            if fuel == 0 {
                return Err(EngineError::TooComplex);
            }
            let mut fields: Vec<(String, SemType)> = Vec::new();
            let mut i: usize = 0;
            while i < entries.len()
                invariant
                    0 <= i <= entries.len(),
                    fuel > 0,
                    *j is Object,
                decreases entries.len() - i,
            {
                let (k, v) = &entries[i];
                fields.push((k.clone(), lower_const(v, ctx, fuel - 1)?));
                i = i + 1;
            }
            object_type(ctx, fields)
        },
    }
}

/// The position of the component named `name`.
fn find_validator(validators: &Vec<Validator>, name: &String) -> (r: Option<usize>)
    ensures
        r matches Some(i) ==> i < validators.len() && validators[i as int].name@ == name@,
{
    let mut i: usize = 0;
    while i < validators.len()
        invariant
            0 <= i <= validators.len(),
        decreases validators.len() - i,
    {
        if validators[i].name == *name {
            return Some(i);
        }
        i = i + 1;
    }
    None
}

/// The type already given to the component named `name`, if any.
fn find_ref(refs: &Vec<(String, SemType)>, name: &String) -> (r: Option<usize>)
    ensures
        r matches Some(i) ==> i < refs.len(),
{
    let mut i: usize = 0;
    while i < refs.len()
        invariant
            0 <= i <= refs.len(),
        decreases refs.len() - i,
    {
        if refs[i].0 == *name {
            return Some(i);
        }
        i = i + 1;
    }
    None
}

/// The field types of an object schema.
fn lower_fields(
    fields: &Vec<(String, Optionality<JsonSchema>)>,
    validators: &Vec<Validator>,
    ctx: &mut SemTypeContext,
    refs: &mut Vec<(String, SemType)>,
    fuel: u64,
) -> (r: Result<Vec<(String, SemType)>, EngineError>)
    ensures
        r matches Ok(out) ==> out.len() == fields.len() && forall|i: int|
            0 <= i < fields.len() ==> (#[trigger] out[i]).0@ == fields[i].0@ && field_holds(
                fields[i].1,
                out[i].1,
            ),
    decreases fuel, 1nat,
{
    let mut out: Vec<(String, SemType)> = Vec::new();
    let mut i: usize = 0;
    while i < fields.len()
        invariant
            0 <= i <= fields.len(),
            out.len() == i,
            forall|k: int|
                0 <= k < i ==> (#[trigger] out[k]).0@ == fields[k].0@ && field_holds(
                    fields[k].1,
                    out[k].1,
                ),
        decreases fields.len() - i,
    {
        let (k, v) = &fields[i];
        let t = lower(v.inner(), validators, ctx, refs, fuel)?;
        let required = v.is_required();
        let f = field_of(t, required);
        proof {
            if !required {
                assert(f.contains(Probe::Void));
            }
        }
        out.push((k.clone(), f));
        i = i + 1;
    }
    Ok(out)
}

/// The position types of a tuple schema.
fn lower_all(
    schemas: &Vec<JsonSchema>,
    validators: &Vec<Validator>,
    ctx: &mut SemTypeContext,
    refs: &mut Vec<(String, SemType)>,
    fuel: u64,
) -> (r: Result<Vec<SemType>, EngineError>)
    ensures
        r matches Ok(out) ==> out.len() == schemas.len() && forall|i: int|
            0 <= i < schemas.len() ==> lowers_to(#[trigger] schemas[i], out[i]),
    decreases fuel, 1nat,
{
    let mut out: Vec<SemType> = Vec::new();
    let mut i: usize = 0;
    while i < schemas.len()
        invariant
            0 <= i <= schemas.len(),
            out.len() == i,
            forall|k: int| 0 <= k < i ==> lowers_to(#[trigger] schemas[k], out[k]),
        decreases schemas.len() - i,
    {
        out.push(lower(&schemas[i], validators, ctx, refs, fuel)?);
        i = i + 1;
    }
    Ok(out)
}

/// The rest type of a tuple schema: nothing beyond the prefix when it has none.
fn lower_rest(
    items: &Option<Box<JsonSchema>>,
    validators: &Vec<Validator>,
    ctx: &mut SemTypeContext,
    refs: &mut Vec<(String, SemType)>,
    fuel: u64,
) -> (r: Result<SemType, EngineError>)
    ensures
        items is None ==> (r matches Ok(t) && t.never_shape()),
        items matches Some(x) ==> (r matches Ok(t) ==> lowers_to(**x, t)),
    decreases fuel, 1nat,
{
    match items {
        Some(s) => lower(&**s, validators, ctx, refs, fuel),
        None => Ok(SemType::never()),
    }
}

/// The semantic type of the component named `name`. A component that is an object or
/// an array gets its handle before its parts are lowered, so that a reference back to
/// it from inside stands for that handle.
fn lower_ref(
    name: &String,
    validators: &Vec<Validator>,
    ctx: &mut SemTypeContext,
    refs: &mut Vec<(String, SemType)>,
    fuel: u64,
) -> (r: Result<SemType, EngineError>)
    decreases fuel, 2nat,
{
    if let Some(i) = find_ref(refs, name) {
        return Ok(refs[i].1.duplicate());
    }
    let v = match find_validator(validators, name) {
        Some(i) => &validators[i],
        None => {
            return Err(EngineError::UnknownReference(name.clone()));
        },
    };
    if ctx.mapping_definitions.len() as u64 >= u64::MAX - 1 || ctx.list_definitions.len() as u64
        >= u64::MAX - 1 {
        return Err(EngineError::TooComplex);
    }
    match &v.schema {
        JsonSchema::Object(fields) => {
            let h = ctx.reserve_mapping();
            let t = SemType::from_bdd(Bdd::from_atom(h), false);
            refs.push((name.clone(), t.duplicate()));
            let fields = lower_fields(fields, validators, ctx, refs, fuel)?;
            ctx.define_mapping(h, MappingAtomic { fields })?;
            Ok(t)
        },
        JsonSchema::Array(item) => {
            let h = ctx.reserve_list();
            let t = SemType::from_bdd(Bdd::from_atom(h), true);
            refs.push((name.clone(), t.duplicate()));
            let items = lower(&**item, validators, ctx, refs, fuel)?;
            ctx.define_list(h, ListAtomic { prefix_items: Vec::new(), items })?;
            Ok(t)
        },
        JsonSchema::Tuple { prefix_items, items } => {
            let h = ctx.reserve_list();
            let t = SemType::from_bdd(Bdd::from_atom(h), true);
            refs.push((name.clone(), t.duplicate()));
            let prefix_items = lower_all(prefix_items, validators, ctx, refs, fuel)?;
            let items = lower_rest(items, validators, ctx, refs, fuel)?;
            ctx.define_list(h, ListAtomic { prefix_items, items })?;
            Ok(t)
        },
        other => {
            let t = lower(other, validators, ctx, refs, fuel)?;
            refs.push((name.clone(), t.duplicate()));
            Ok(t)
        },
    }
}

/// The semantic type of a schema, with `refs` holding the components already given
/// a type.
fn lower(
    s: &JsonSchema,
    validators: &Vec<Validator>,
    ctx: &mut SemTypeContext,
    refs: &mut Vec<(String, SemType)>,
    fuel: u64,
) -> (r: Result<SemType, EngineError>)
    ensures
        r matches Ok(t) ==> lowers_to(*s, t),
        *s is Array ==> (r matches Ok(t) ==> exists|h: u64|
            #[trigger] array_of(t, h, *final(ctx), *s->Array_0)),
        *s is Object ==> (r matches Ok(t) ==> exists|h: u64|
            #[trigger] object_of(t, h, *final(ctx), s->Object_0)),
        *s is Tuple ==> (r matches Ok(t) ==> exists|h: u64|
            #[trigger] tuple_of(t, h, *final(ctx), s->prefix_items, s->items)),
        fuel > 0 && (*s is Null || *s is Boolean || *s is Number || *s is String
            || *s is StringWithFormat || *s is Any || *s is AnyObject || *s is AnyArrayLike
            || *s is StNever) ==> r is Ok,
        flat_within(*s, fuel as nat) ==> r is Ok,
    decreases fuel, 0nat,
{
    if fuel == 0 {
        return Err(EngineError::TooComplex);
    }
    match s {
        JsonSchema::Null => {
            let t = SemType::of_categories(true, false, false, false, false, false, false);
            assert forall|p: Probe| #[trigger] t.contains(p) == (p is Null) by {
                match p {
                    Probe::Bool(b) => {
                        assert(t.contains(Probe::Bool(b)) == (Probe::Bool(b) is Null));
                    },
                    Probe::Number(k) => {
                        assert(t.contains(Probe::Number(k)) == (Probe::Number(k) is Null));
                    },
                    Probe::Str(k) => {
                        assert(t.contains(Probe::Str(k)) == (Probe::Str(k) is Null));
                    },
                    Probe::Mapping(e) => {
                        assert(t.contains(Probe::Mapping(e)) == (Probe::Mapping(e) is Null));
                    },
                    Probe::List(e) => {
                        assert(t.contains(Probe::List(e)) == (Probe::List(e) is Null));
                    },
                    Probe::Null => {
                        assert(t.contains(Probe::Null) == (Probe::Null is Null));
                    },
                    Probe::Void => {
                        assert(t.contains(Probe::Void) == (Probe::Void is Null));
                    },
                }
            }
            Ok(t)
        },
        JsonSchema::Boolean => {
            let t = SemType::of_categories(false, true, false, false, false, false, false);
            assert forall|p: Probe| #[trigger] t.contains(p) == (p is Bool) by {
                match p {
                    Probe::Bool(b) => {
                        assert(t.contains(Probe::Bool(b)) == (Probe::Bool(b) is Bool));
                    },
                    Probe::Number(k) => {
                        assert(t.contains(Probe::Number(k)) == (Probe::Number(k) is Bool));
                    },
                    Probe::Str(k) => {
                        assert(t.contains(Probe::Str(k)) == (Probe::Str(k) is Bool));
                    },
                    Probe::Mapping(e) => {
                        assert(t.contains(Probe::Mapping(e)) == (Probe::Mapping(e) is Bool));
                    },
                    Probe::List(e) => {
                        assert(t.contains(Probe::List(e)) == (Probe::List(e) is Bool));
                    },
                    Probe::Null => {
                        assert(t.contains(Probe::Null) == (Probe::Null is Bool));
                    },
                    Probe::Void => {
                        assert(t.contains(Probe::Void) == (Probe::Void is Bool));
                    },
                }
            }
            Ok(t)
        },
        JsonSchema::Number => {
            let t = SemType::of_categories(false, false, true, false, false, false, false);
            assert forall|p: Probe| #[trigger] t.contains(p) == (p is Number) by {
                match p {
                    Probe::Bool(b) => {
                        assert(t.contains(Probe::Bool(b)) == (Probe::Bool(b) is Number));
                    },
                    Probe::Number(k) => {
                        assert(t.contains(Probe::Number(k)) == (Probe::Number(k) is Number));
                    },
                    Probe::Str(k) => {
                        assert(t.contains(Probe::Str(k)) == (Probe::Str(k) is Number));
                    },
                    Probe::Mapping(e) => {
                        assert(t.contains(Probe::Mapping(e)) == (Probe::Mapping(e) is Number));
                    },
                    Probe::List(e) => {
                        assert(t.contains(Probe::List(e)) == (Probe::List(e) is Number));
                    },
                    Probe::Null => {
                        assert(t.contains(Probe::Null) == (Probe::Null is Number));
                    },
                    Probe::Void => {
                        assert(t.contains(Probe::Void) == (Probe::Void is Number));
                    },
                }
            }
            Ok(t)
        },
        JsonSchema::String => {
            let t = SemType::of_categories(false, false, false, true, false, false, false);
            assert forall|p: Probe| #[trigger] t.contains(p) == (p is Str) by {
                match p {
                    Probe::Bool(b) => {
                        assert(t.contains(Probe::Bool(b)) == (Probe::Bool(b) is Str));
                    },
                    Probe::Number(k) => {
                        assert(t.contains(Probe::Number(k)) == (Probe::Number(k) is Str));
                    },
                    Probe::Str(k) => {
                        assert(t.contains(Probe::Str(k)) == (Probe::Str(k) is Str));
                    },
                    Probe::Mapping(e) => {
                        assert(t.contains(Probe::Mapping(e)) == (Probe::Mapping(e) is Str));
                    },
                    Probe::List(e) => {
                        assert(t.contains(Probe::List(e)) == (Probe::List(e) is Str));
                    },
                    Probe::Null => {
                        assert(t.contains(Probe::Null) == (Probe::Null is Str));
                    },
                    Probe::Void => {
                        assert(t.contains(Probe::Void) == (Probe::Void is Str));
                    },
                }
            }
            Ok(t)
        },
        JsonSchema::StringWithFormat(f) => {
            let t = SemType::from_literals(LitSet::single(Literal::Format(f.clone())), true);
            assert forall|p: Probe| #[trigger] t.contains(p) == (p == Probe::Str((2nat, f@))) by {
                match p {
                    Probe::Bool(b) => {
                        assert(t.contains(Probe::Bool(b)) == (Probe::Bool(b) == Probe::Str((2nat, f@))));
                    },
                    Probe::Number(k) => {
                        assert(t.contains(Probe::Number(k)) == (Probe::Number(k) == Probe::Str((2nat, f@))));
                    },
                    Probe::Str(k) => {
                        assert(t.contains(Probe::Str(k)) == (Probe::Str(k) == Probe::Str((2nat, f@))));
                    },
                    Probe::Mapping(e) => {
                        assert(t.contains(Probe::Mapping(e)) == (Probe::Mapping(e) == Probe::Str((2nat, f@))));
                    },
                    Probe::List(e) => {
                        assert(t.contains(Probe::List(e)) == (Probe::List(e) == Probe::Str((2nat, f@))));
                    },
                    Probe::Null => {
                        assert(t.contains(Probe::Null) == (Probe::Null == Probe::Str((2nat, f@))));
                    },
                    Probe::Void => {
                        assert(t.contains(Probe::Void) == (Probe::Void == Probe::Str((2nat, f@))));
                    },
                }
            }
            Ok(t)
        },
        JsonSchema::Any => Ok(unknown()),
        JsonSchema::AnyObject => {
            let t = SemType::of_categories(false, false, false, false, true, false, false);
            assert forall|p: Probe| #[trigger] t.contains(p) == (p is Mapping) by {
                match p {
                    Probe::Bool(b) => {
                        assert(t.contains(Probe::Bool(b)) == (Probe::Bool(b) is Mapping));
                    },
                    Probe::Number(k) => {
                        assert(t.contains(Probe::Number(k)) == (Probe::Number(k) is Mapping));
                    },
                    Probe::Str(k) => {
                        assert(t.contains(Probe::Str(k)) == (Probe::Str(k) is Mapping));
                    },
                    Probe::Mapping(e) => {
                        assert(t.contains(Probe::Mapping(e)) == (Probe::Mapping(e) is Mapping));
                    },
                    Probe::List(e) => {
                        assert(t.contains(Probe::List(e)) == (Probe::List(e) is Mapping));
                    },
                    Probe::Null => {
                        assert(t.contains(Probe::Null) == (Probe::Null is Mapping));
                    },
                    Probe::Void => {
                        assert(t.contains(Probe::Void) == (Probe::Void is Mapping));
                    },
                }
            }
            Ok(t)
        },
        JsonSchema::AnyArrayLike => {
            let t = SemType::of_categories(false, false, false, false, false, true, false);
            assert forall|p: Probe| #[trigger] t.contains(p) == (p is List) by {
                match p {
                    Probe::Bool(b) => {
                        assert(t.contains(Probe::Bool(b)) == (Probe::Bool(b) is List));
                    },
                    Probe::Number(k) => {
                        assert(t.contains(Probe::Number(k)) == (Probe::Number(k) is List));
                    },
                    Probe::Str(k) => {
                        assert(t.contains(Probe::Str(k)) == (Probe::Str(k) is List));
                    },
                    Probe::Mapping(e) => {
                        assert(t.contains(Probe::Mapping(e)) == (Probe::Mapping(e) is List));
                    },
                    Probe::List(e) => {
                        assert(t.contains(Probe::List(e)) == (Probe::List(e) is List));
                    },
                    Probe::Null => {
                        assert(t.contains(Probe::Null) == (Probe::Null is List));
                    },
                    Probe::Void => {
                        assert(t.contains(Probe::Void) == (Probe::Void is List));
                    },
                }
            }
            Ok(t)
        },
        JsonSchema::StNever => Ok(SemType::never()),
        JsonSchema::Const(j) => lower_const(j, ctx, fuel - 1),
        JsonSchema::Object(fields) => {
            let lowered = lower_fields(fields, validators, ctx, refs, fuel - 1)?;
            let ghost ls = lowered;
            let r = object_type(ctx, lowered);
            proof {
                if r is Ok {
                    let t = r->Ok_0;
                    let h = choose|h: u64|
                        #[trigger] t.single_atom(h, false) && h < ctx.mapping_definitions.len()
                            && ctx.mapping_definitions[h as int].same_as(
                            (MappingAtomic { fields: ls }),
                        );
                    let stored = ctx.mapping_definitions[h as int].fields;
                    assert forall|i: int|
                        0 <= i < fields.len() implies (#[trigger] fields[i]).0@ == stored[i].0@
                        && field_holds(fields[i].1, stored[i].1) by {
                        assert(stored[i].0@ == ls[i].0@ && stored[i].1.same_as(ls[i].1));
                        stored[i].1.lemma_same_contains(ls[i].1);
                    }
                    assert(object_of(t, h, *ctx, *fields));
                }
            }
            r
        },
        JsonSchema::Array(item) => {
            let items = lower(&**item, validators, ctx, refs, fuel - 1)?;
            let ghost lowered = items;
            let no_prefix: Vec<SemType> = Vec::new();
            let ghost empty = no_prefix;
            let r = list_type(ctx, no_prefix, items);
            proof {
                if r is Ok {
                    let t = r->Ok_0;
                    let h = choose|h: u64|
                        #[trigger] t.single_atom(h, true) && h < ctx.list_definitions.len()
                            && ctx.list_definitions[h as int].same_as(
                            (ListAtomic { prefix_items: empty, items: lowered }),
                        );
                    ctx.list_definitions[h as int].items.lemma_same_contains(lowered);
                    assert(array_of(t, h, *ctx, **item));
                }
            }
            r
        },
        JsonSchema::Tuple { prefix_items, items } => {
            let lowered = lower_all(prefix_items, validators, ctx, refs, fuel - 1)?;
            let rest = lower_rest(items, validators, ctx, refs, fuel - 1)?;
            let ghost (lp, lr) = (lowered, rest);
            let r = list_type(ctx, lowered, rest);
            proof {
                if r is Ok {
                    let t = r->Ok_0;
                    let h = choose|h: u64|
                        #[trigger] t.single_atom(h, true) && h < ctx.list_definitions.len()
                            && ctx.list_definitions[h as int].same_as(
                            (ListAtomic { prefix_items: lp, items: lr }),
                        );
                    let stored = ctx.list_definitions[h as int];
                    stored.items.lemma_same_contains(lr);
                    assert forall|i: int|
                        0 <= i < prefix_items.len() && is_flat(#[trigger] prefix_items[i]) implies forall|p: Probe| #[trigger]
                        stored.prefix_items[i].contains(p) == denotes(prefix_items[i], p) by {
                        stored.prefix_items[i].lemma_same_contains(lp[i]);
                        assert(lowers_to(prefix_items[i], lp[i]));
                    }
                    if items is None {
                        assert(stored.items.same_as(lr));
                    }
                    assert(tuple_of(t, h, *ctx, *prefix_items, *items));
                }
            }
            r
        },
        JsonSchema::Ref(name) => lower_ref(name, validators, ctx, refs, fuel - 1),
        JsonSchema::AnyOf(vs) => {
            let mut acc = SemType::never();
            let mut i: usize = 0;
            while i < vs.len()
                invariant
                    0 <= i <= vs.len(),
                    fuel > 0,
                    *s == JsonSchema::AnyOf(*vs),
                    flat_within(*s, fuel as nat) ==> forall|k: int|
                        0 <= k < vs.len() ==> flat_within(#[trigger] vs[k], (fuel - 1) as nat),
                    is_flat(*s) ==> acc.unstructured() && acc.wf(),
                    is_flat(*s) ==> forall|p: Probe| #[trigger]
                        acc.contains(p) == exists|k: int| 0 <= k < i && denotes(#[trigger] vs[k], p),
                decreases vs.len() - i,
            {
                let t = lower(&vs[i], validators, ctx, refs, fuel - 1)?;
                let ghost before = acc;
                acc = acc.union(&t);
                proof {
                    if is_flat(*s) {
                        lemma_flat_parts(*s);
                        assert(is_flat(vs[i as int]));
                        assert forall|p: Probe| #[trigger] acc.contains(p) == exists|k: int|
                            0 <= k < i + 1 && denotes(#[trigger] vs[k], p) by {
                            assert(acc.contains(p) == (before.contains(p) || t.contains(p)));
                            if denotes(vs[i as int], p) {
                                assert(0 <= i < i + 1);
                            }
                            if exists|k: int| 0 <= k < i + 1 && denotes(#[trigger] vs[k], p) {
                                let k = choose|k: int| 0 <= k < i + 1 && denotes(#[trigger] vs[k], p);
                                if k < i {
                                    assert(before.contains(p));
                                }
                            }
                        }
                    }
                }
                i = i + 1;
            }
            Ok(acc)
        },
        JsonSchema::AllOf(vs) => {
            let mut acc = unknown();
            let mut i: usize = 0;
            while i < vs.len()
                invariant
                    0 <= i <= vs.len(),
                    fuel > 0,
                    *s == JsonSchema::AllOf(*vs),
                    flat_within(*s, fuel as nat) ==> forall|k: int|
                        0 <= k < vs.len() ==> flat_within(#[trigger] vs[k], (fuel - 1) as nat),
                    is_flat(*s) ==> acc.unstructured() && acc.wf(),
                    is_flat(*s) ==> forall|p: Probe| #[trigger]
                        acc.contains(p) == (!(p is Void) && forall|k: int|
                            0 <= k < i ==> denotes(#[trigger] vs[k], p)),
                decreases vs.len() - i,
            {
                let t = lower(&vs[i], validators, ctx, refs, fuel - 1)?;
                let ghost before = acc;
                acc = acc.intersect(&t);
                proof {
                    if is_flat(*s) {
                        lemma_flat_parts(*s);
                        assert(is_flat(vs[i as int]));
                        assert forall|p: Probe| #[trigger] acc.contains(p) == (!(p is Void) && forall|k: int|
                            0 <= k < i + 1 ==> denotes(#[trigger] vs[k], p)) by {
                            assert(acc.contains(p) == (before.contains(p) && t.contains(p)));
                            if !(p is Void) && (forall|k: int| 0 <= k < i ==> denotes(#[trigger] vs[k], p))
                                && denotes(vs[i as int], p) {
                                assert forall|k: int| 0 <= k < i + 1 implies denotes(#[trigger] vs[k], p) by {
                                    if k == i {
                                    }
                                }
                            }
                        }
                    }
                }
                i = i + 1;
            }
            Ok(acc)
        },
        JsonSchema::StNot(inner) => {
            let t = lower(&**inner, validators, ctx, refs, fuel - 1)?;
            Ok(unknown().diff(&t))
        },
        JsonSchema::OpenApiResponseRef(_) => Err(EngineError::UnsupportedSchema),
        JsonSchema::Error => Err(EngineError::UnsupportedSchema),
    }
}

impl JsonSchema {
    /// The semantic type of the schema, with `validators` naming the components that
    /// `Ref` reaches.
    pub fn to_sub_type(&self, validators: &Vec<Validator>, ctx: &mut SemTypeContext) -> (r: Result<
        SemType,
        EngineError,
    >)
        ensures
            r matches Ok(t) ==> lowers_to(*self, t),
            *self is Array ==> (r matches Ok(t) ==> exists|h: u64|
                #[trigger] array_of(t, h, *final(ctx), *self->Array_0)),
            *self is Object ==> (r matches Ok(t) ==> exists|h: u64|
                #[trigger] object_of(t, h, *final(ctx), self->Object_0)),
            *self is Tuple ==> (r matches Ok(t) ==> exists|h: u64|
                #[trigger] tuple_of(t, h, *final(ctx), self->prefix_items, self->items)),
            (*self is Null || *self is Boolean || *self is Number || *self is String
                || *self is StringWithFormat || *self is Any || *self is AnyObject
                || *self is AnyArrayLike || *self is StNever) ==> r is Ok,
            flat_within(*self, MAX_DEPTH as nat) ==> r is Ok,
    {
        let mut refs: Vec<(String, SemType)> = Vec::new();
        lower(self, validators, ctx, &mut refs, MAX_DEPTH)
    }
}

} // verus!
