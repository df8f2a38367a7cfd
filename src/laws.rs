use vstd::prelude::*;
use crate::codec::{codec_wf, decodable, decodes_well, encodes, DecodeError};
use crate::materialize::materializes_to;
use crate::context::SemTypeContext;
use crate::lower::{array_of, denotes, is_flat, lowers_to};
use crate::schema::{same_schema, Json, JsonSchema, Mater};
use crate::semtype::{includes_bit, Probe, SemType, BOOLEAN, LIST, MAPPING, NULL, NUMBER, STRING};
use crate::to_schema::{flat_parts, flat_rendering};
use crate::literal::LitKey;

verus! {

/// The example that a schema without structure names: `Null`, `Bool`, `Number` and
/// `String` for the plain categories, the format for a string format, the literal for
/// a string constant, `Never` for the empty schema.
pub open spec fn example_of(s: JsonSchema, m: Mater) -> bool {
    &&& s is Null ==> m == Mater::Null
    &&& s is Boolean ==> m == Mater::Bool
    &&& s is Number ==> m == Mater::Number
    &&& s is String ==> m == Mater::String
    &&& s is StNever ==> m == Mater::Never
    &&& s matches JsonSchema::StringWithFormat(f) ==> (m matches Mater::StringWithFormat(g) && g@
        == f@)
    &&& s matches JsonSchema::Const(Json::String(x)) ==> (m matches Mater::StringLiteral(y) && y@
        == x@)
    &&& s matches JsonSchema::Const(Json::Bool(b)) ==> m == Mater::Bool
    &&& s matches JsonSchema::Const(Json::Null) ==> m == Mater::Null
    &&& s matches JsonSchema::Const(Json::Number(n)) ==> m == Mater::Number
}

/// Lowering a schema without structure and then materializing its type gives the
/// example that the schema names.
pub proof fn lemma_materialize_lowered(s: JsonSchema, t: SemType, m: Mater)
    requires
        is_flat(s) ==> forall|p: Probe| #[trigger] t.contains(p) == denotes(s, p),
        materializes_to(t, m),
    ensures
        example_of(s, m),
{
    match s {
        JsonSchema::Null => {
            assert(t.contains(Probe::Null));
        },
        JsonSchema::Boolean => {
            assert(t.contains(Probe::Bool(true)));
            assert(!t.contains(Probe::Null));
        },
        JsonSchema::Number => {
            assert(t.contains(Probe::Number((0nat, Seq::empty()))));
            assert(!t.contains(Probe::Null));
            assert(!t.contains(Probe::Bool(true)));
            assert(!t.contains(Probe::Bool(false)));
        },
        JsonSchema::String => {
            assert(t.contains(Probe::Str((1nat, Seq::empty()))));
            assert(t.contains(Probe::Str((3nat, Seq::empty()))));
            assert(!t.contains(Probe::Null));
            assert(!t.contains(Probe::Bool(true)));
            assert(!t.contains(Probe::Bool(false)));
            assert forall|k| !t.contains(Probe::Number(k)) by {
                assert(!(Probe::Number(k) is Str));
            }
        },
        JsonSchema::StNever => {},
        JsonSchema::StringWithFormat(f) => {
            assert(t.contains(Probe::Str((2nat, f@))));
            assert(!t.contains(Probe::Str((3nat, Seq::empty()))));
            assert(!t.contains(Probe::Null));
            assert(!t.contains(Probe::Bool(true)));
            assert(!t.contains(Probe::Bool(false)));
            assert forall|k| !t.contains(Probe::Number(k)) by {
                assert(Probe::Number(k) != Probe::Str((2nat, f@)));
            }
            if let Mater::StringLiteral(y) = m {
                assert(Probe::Str((1nat, y@)) != Probe::Str((2nat, f@)));
                assert(Probe::Str((0nat, y@)) != Probe::Str((2nat, f@)));
            }
            if let Mater::StringWithFormat(g) = m {
                assert(t.contains(Probe::Str((2nat, g@))));
            }
        },
        JsonSchema::Const(j) => {
            match j {
                Json::String(x) => {
                    assert(t.contains(Probe::Str((1nat, x@))));
                    assert(!t.contains(Probe::Str((3nat, Seq::empty()))));
                    assert(!t.contains(Probe::Null));
                    assert(!t.contains(Probe::Bool(true)));
                    assert(!t.contains(Probe::Bool(false)));
                    assert forall|k| !t.contains(Probe::Number(k)) by {
                        assert(Probe::Number(k) != Probe::Str((1nat, x@)));
                    }
                    if let Mater::StringWithFormat(g) = m {
                        assert(Probe::Str((2nat, g@)) != Probe::Str((1nat, x@)));
                    }
                    if let Mater::StringLiteral(y) = m {
                        assert(Probe::Str((0nat, y@)) != Probe::Str((1nat, x@)));
                        assert(t.contains(Probe::Str((1nat, y@))));
                    }
                },
                Json::Bool(b) => {
                    assert(t.contains(Probe::Bool(b)));
                    assert(!t.contains(Probe::Null));
                },
                Json::Null => {
                    assert(t.contains(Probe::Null));
                },
                Json::Number(n) => {
                    assert(t.contains(Probe::Number((0nat, n@))));
                    assert(!t.contains(Probe::Null));
                    assert(!t.contains(Probe::Bool(true)));
                    assert(!t.contains(Probe::Bool(false)));
                },
                _ => {},
            }
        },
        _ => {},
    }
}

/// Lowering an array of a flat schema that holds some value, and materializing its
/// type, gives an array example without prefix whose items are the example of the
/// item schema: for `Array(String)`, `Array { items: String, prefix_items: [] }`.
/// The requirements are what lowering (`array_of`) and materializing state of their
/// results.
pub proof fn lemma_materialize_lowered_array(
    item: JsonSchema,
    t: SemType,
    h: u64,
    ctx: SemTypeContext,
    m: Mater,
)
    requires
        is_flat(item),
        exists|p: Probe| denotes(item, p),
        array_of(t, h, ctx, item),
        t.single_atom(h, true) && ctx.plain_list_path(seq![h], Seq::empty()) ==> (m matches Mater::Array {
            items,
            prefix_items,
        } && prefix_items.len() == 0 && materializes_to(ctx.list_definitions[h as int].items, *items)),
    ensures
        m matches Mater::Array { items, prefix_items } && prefix_items.len() == 0 && example_of(
            item,
            *items,
        ),
{
    let items = ctx.list_definitions[h as int].items;
    let p = choose|p: Probe| denotes(item, p);
    assert(items.contains(p));
    assert(ctx.plain_list_path(seq![h], Seq::empty()));
    lemma_materialize_lowered(item, items, *m->Array_items);
}

/// The difference of a type with itself holds no value; so `is_empty` answers
/// `Ok(true)` for it and `materialize` gives `Mater::Never`.
pub proof fn lemma_diff_self_empty(a: SemType, d: SemType, m: Mater)
    requires
        forall|p: Probe| #[trigger] d.contains(p) == (a.contains(p) && !a.contains(p)),
        materializes_to(d, m),
    ensures
        forall|p: Probe| !d.contains(p),
        m == Mater::Never,
{
    assert forall|p: Probe| !d.contains(p) by {
        assert(d.contains(p) == (a.contains(p) && !a.contains(p)));
    }
}

/// Whether the schema is one whole primitive category: null, boolean, number or
/// string.
pub open spec fn plain_category(s: JsonSchema) -> bool {
    s is Null || s is Boolean || s is Number || s is String
}

/// Intersecting two different primitive categories (null and string, say) holds no
/// value; so `is_empty` answers `Ok(true)` for it and `materialize` gives
/// `Mater::Never`.
pub proof fn lemma_disjoint_categories(
    s1: JsonSchema,
    s2: JsonSchema,
    a: SemType,
    b: SemType,
    i: SemType,
    m: Mater,
)
    requires
        plain_category(s1),
        plain_category(s2),
        s1 != s2,
        lowers_to(s1, a),
        lowers_to(s2, b),
        forall|p: Probe| #[trigger] i.contains(p) == (a.contains(p) && b.contains(p)),
        materializes_to(i, m),
    ensures
        forall|p: Probe| !i.contains(p),
        m == Mater::Never,
{
    assert forall|p: Probe| !i.contains(p) by {
        assert(i.contains(p) == (a.contains(p) && b.contains(p)));
        assert(a.contains(p) == denotes(s1, p));
        assert(b.contains(p) == denotes(s2, p));
    }
}

/// A schema whose document tells its shape apart (distinct field names, no tuple
/// with an empty prefix and a rest) is read back from the document that `to_json`
/// writes for it as the same schema.
pub proof fn lemma_round_trip(s: JsonSchema, j: Json, r: Result<JsonSchema, DecodeError>)
    requires
        codec_wf(s),
        encodes(s, j),
        decodable(j) ==> r is Ok,
        r matches Ok(t) ==> decodes_well(j, t),
    ensures
        r matches Ok(t) && same_schema(s, t),
{
    assert(encodes(s, j) && codec_wf(s));
}

/// A type that holds nothing and has no object or array part is rendered as the empty
/// schema `StNever`; so `to_validators` gives one validator, of `StNever`, for a type
/// without object or array part minus itself, and for the intersection of two
/// different primitive categories.
pub proof fn lemma_empty_renders_never(t: SemType, v: JsonSchema)
    requires
        t.wf(),
        t.unstructured(),
        forall|p: Probe| !t.contains(p),
        flat_rendering(v, t),
    ensures
        v == JsonSchema::StNever,
{
    t.lemma_empty_is_never();
}

/// A primitive category (null, boolean, number, string) is rendered as the union of
/// that category alone: `to_validators` gives `AnyOf [Null]` for the null schema and
/// `AnyOf [String]` for the string schema.
pub proof fn lemma_render_plain_category(s: JsonSchema, t: SemType, v: JsonSchema)
    requires
        plain_category(s),
        lowers_to(s, t),
        flat_rendering(v, t),
    ensures
        v matches JsonSchema::AnyOf(xs) && xs@ == seq![s],
{
    assert(t.contains(Probe::Null) == (s is Null));
    assert(t.contains(Probe::Bool(true)) == (s is Boolean));
    assert(t.contains(Probe::Bool(false)) == (s is Boolean));
    assert(t.contains(Probe::Void) == false);
    assert(!t.contains(Probe::Mapping(Set::empty())));
    assert(!t.contains(Probe::List(Set::empty())));
    assert(t.boolean is None) by {
        if let Some(b) = t.boolean {
            assert(t.contains(Probe::Bool(!b)) == t.contains(Probe::Bool(b)));
        }
    }
    assert(t.number is None) by {
        if t.number is Some {
            let k = choose|k: LitKey| t.number->0.admits(k);
            let j = choose|k: LitKey| !t.number->0.admits(k);
            assert(t.contains(Probe::Number(k)));
            assert(!t.contains(Probe::Number(j)));
        }
    }
    assert(t.string is None) by {
        if t.string is Some {
            let k = choose|k: LitKey| t.string->0.admits(k);
            let j = choose|k: LitKey| !t.string->0.admits(k);
            assert(t.contains(Probe::Str(k)));
            assert(!t.contains(Probe::Str(j)));
        }
    }
    assert(includes_bit(t.all, NUMBER) == (s is Number)) by {
        assert(t.contains(Probe::Number((0nat, Seq::empty()))) == (s is Number));
    }
    assert(includes_bit(t.all, STRING) == (s is String)) by {
        assert(t.contains(Probe::Str((1nat, Seq::empty()))) == (s is String));
    }
    assert(!t.never_shape()) by {
        assert(0u8 & 1u8 == 0) by (bit_vector);
        assert(0u8 & 2u8 == 0) by (bit_vector);
        assert(0u8 & 4u8 == 0) by (bit_vector);
        assert(0u8 & 8u8 == 0) by (bit_vector);
    }
    assert(flat_parts(t) =~= seq![s]);
}

} // verus!
