use vstd::prelude::*;
use crate::bdd::{atom_node, Bdd};
use crate::context::{EngineError, ListAtomic, SemTypeContext, MAX_DEPTH};
use crate::literal::{LitSet, Literal};
use crate::schema::{Json, JsonSchema, Optionality, Validator};
use crate::schema::same_schema;
use crate::semtype::{includes_bit, Probe, SemType, BOOLEAN, LIST, MAPPING, NULL, NUMBER, STRING};
use crate::text::{decimal, with_number};

verus! {

/// What the schemer knows of a semantic type: being computed under a name, or done.
pub enum SchemaMemo {
    Schema(JsonSchema),
    Undefined(String),
}

/// The state of one conversion of semantic types back into schemas.
pub struct SchemerContext {
    pub schemer_memo: Vec<(SemType, SchemaMemo)>,
    pub validators: Vec<Validator>,
    pub recursive_validators: Vec<String>,
    pub counter: u64,
}

/// Whether `names` holds `name`.
pub fn holds_name(names: &Vec<String>, name: &String) -> (r: bool)
    ensures
        r == exists|i: int| 0 <= i < names.len() && (#[trigger] names[i])@ == name@,
{
    let mut i: usize = 0;
    while i < names.len()
        invariant
            0 <= i <= names.len(),
            forall|j: int| 0 <= j < i ==> (#[trigger] names[j])@ != name@,
        decreases names.len() - i,
    {
        if names[i] == *name {
            return true;
        }
        i = i + 1;
    }
    false
}

/// The flat parts of a type's schema; see `flat_parts`.
#[verifier::rlimit(50)]
fn flat_schemas(ty: &SemType) -> (r: Vec<JsonSchema>)
    ensures
        r@ == flat_parts(*ty),
{
    let mut acc: Vec<JsonSchema> = Vec::new();
    if ty.all & NULL != 0 {
        acc.push(JsonSchema::Null);
    }
    if ty.all & BOOLEAN != 0 {
        acc.push(JsonSchema::Boolean);
    }
    if ty.all & NUMBER != 0 {
        acc.push(JsonSchema::Number);
    }
    if ty.all & STRING != 0 {
        acc.push(JsonSchema::String);
    }
    if ty.all & MAPPING != 0 {
        acc.push(JsonSchema::AnyObject);
    }
    if ty.all & LIST != 0 {
        acc.push(JsonSchema::AnyArrayLike);
    }
    if let Some(b) = ty.boolean {
        acc.push(JsonSchema::Const(Json::Bool(b)));
    }
    let ghost bits = acc@;
    assert(bits =~= bit_schema(ty.all, NULL, JsonSchema::Null) + bit_schema(
        ty.all,
        BOOLEAN,
        JsonSchema::Boolean,
    ) + bit_schema(ty.all, NUMBER, JsonSchema::Number) + bit_schema(
        ty.all,
        STRING,
        JsonSchema::String,
    ) + bit_schema(ty.all, MAPPING, JsonSchema::AnyObject) + bit_schema(
        ty.all,
        LIST,
        JsonSchema::AnyArrayLike,
    ) + match ty.boolean {
        Some(b) => seq![JsonSchema::Const(Json::Bool(b))],
        None => seq![],
    });
    if let Some(ls) = &ty.number {
        push_listed(&mut acc, ls);
    }
    let ghost with_numbers = acc@;
    assert(with_numbers =~= bits + match ty.number {
        Some(ls) => listed(ls),
        None => seq![],
    });
    if let Some(ls) = &ty.string {
        push_listed(&mut acc, ls);
    }
    assert(acc@ =~= flat_parts(*ty));
    acc
}

/// The schema of a type without object or array part; see `flat_rendering`.
fn flat_schema(ty: &SemType) -> (r: JsonSchema)
    requires
        ty.unstructured(),
    ensures
        flat_rendering(r, *ty),
{
    if ty.is_never() {
        JsonSchema::StNever
    } else {
        JsonSchema::AnyOf(flat_schemas(ty))
    }
}

/// Appends the schema of each literal of the set, negated for a deny-list.
fn push_listed(acc: &mut Vec<JsonSchema>, ls: &LitSet)
    ensures
        final(acc)@ == old(acc)@ + listed(*ls),
{
    let ghost start = acc@;
    let mut i: usize = 0;
    while i < ls.values.len()
        invariant
            0 <= i <= ls.values.len(),
            acc@ == start + listed(*ls).subrange(0, i as int),
        decreases ls.values.len() - i,
    {
        let it = match &ls.values[i] {
            Literal::Number(n) => JsonSchema::Const(Json::Number(n.clone())),
            Literal::Str(x) => JsonSchema::Const(Json::String(x.clone())),
            Literal::Format(f) => JsonSchema::StringWithFormat(f.clone()),
        };
        assert(it == lit_schema(ls.values[i as int]));
        acc.push(maybe_not(it, !ls.allowed));
        assert(listed(*ls).subrange(0, i + 1) =~= listed(*ls).subrange(0, i as int).push(
            listed(*ls)[i as int],
        ));
        i = i + 1;
    }
    assert(listed(*ls).subrange(0, ls.values.len() as int) =~= listed(*ls));
}

fn maybe_not(it: JsonSchema, add_not: bool) -> (r: JsonSchema)
    ensures
        add_not ==> r == JsonSchema::StNot(Box::new(it)),
        !add_not ==> r == it,
{
    if add_not {
        JsonSchema::StNot(Box::new(it))
    } else {
        it
    }
}


/// The schema of one listed literal.
pub open spec fn lit_schema(l: Literal) -> JsonSchema {
    match l {
        Literal::Number(n) => JsonSchema::Const(Json::Number(n)),
        Literal::Str(x) => JsonSchema::Const(Json::String(x)),
        Literal::Format(f) => JsonSchema::StringWithFormat(f),
    }
}

/// The schemas of the literals of a set, each negated when the set is a deny-list.
pub open spec fn listed(ls: LitSet) -> Seq<JsonSchema> {
    Seq::new(
        ls.values.len() as nat,
        |i: int|
            if ls.allowed {
                lit_schema(ls.values[i])
            } else {
                JsonSchema::StNot(Box::new(lit_schema(ls.values[i])))
            },
    )
}

/// `s` when the mask includes the category `bit`, else nothing.
pub open spec fn bit_schema(all: u8, bit: u8, s: JsonSchema) -> Seq<JsonSchema> {
    if includes_bit(all, bit) {
        seq![s]
    } else {
        seq![]
    }
}

/// The parts of a type's schema that do not come from objects or arrays: one bare
/// schema per fully included category (null, boolean, number, string, any object,
/// any array), the boolean literal, then the number and the string literals.
pub open spec fn flat_parts(ty: SemType) -> Seq<JsonSchema> {
    bit_schema(ty.all, NULL, JsonSchema::Null) + bit_schema(ty.all, BOOLEAN, JsonSchema::Boolean)
        + bit_schema(ty.all, NUMBER, JsonSchema::Number) + bit_schema(
        ty.all,
        STRING,
        JsonSchema::String,
    ) + bit_schema(ty.all, MAPPING, JsonSchema::AnyObject) + bit_schema(
        ty.all,
        LIST,
        JsonSchema::AnyArrayLike,
    ) + match ty.boolean {
        Some(b) => seq![JsonSchema::Const(Json::Bool(b))],
        None => seq![],
    } + match ty.number {
        Some(ls) => listed(ls),
        None => seq![],
    } + match ty.string {
        Some(ls) => listed(ls),
        None => seq![],
    }
}

/// The schema of a type without object or array refinement: nothing for the type
/// with no category and no refinement, else the union of its flat parts.
pub open spec fn flat_rendering(t: JsonSchema, ty: SemType) -> bool {
    if ty.never_shape() {
        t == JsonSchema::StNever
    } else {
        t matches JsonSchema::AnyOf(xs) && xs@ == flat_parts(ty)
    }
}


/// The object schema of a shape: the same field names in the same order, a field
/// optional exactly where its type holds absence.
pub open spec fn mapping_rendering(s: JsonSchema, fields: Vec<(String, SemType)>) -> bool {
    s matches JsonSchema::Object(fs) && fs.len() == fields.len() && forall|i: int|
        0 <= i < fields.len() ==> (#[trigger] fs[i]).0@ == fields[i].0@ && (fs[i].1 is Optional
            <==> fields[i].1.contains(Probe::Void)) && (fields[i].1.unstructured()
            ==> flat_rendering(fs[i].1.inner_spec(), fields[i].1))
}

/// Whether the member types of the shape `h` (its field types; or its prefix and rest
/// types) have no object or array part.
pub open spec fn flat_shape(ctx: SemTypeContext, is_list: bool, h: u64) -> bool {
    if is_list {
        &&& h < ctx.list_definitions.len()
        &&& ctx.list_definitions[h as int].items.unstructured()
        &&& forall|i: int|
            0 <= i < ctx.list_definitions[h as int].prefix_items.len() ==> (
            #[trigger] ctx.list_definitions[h as int].prefix_items[i]).unstructured()
    } else {
        &&& h < ctx.mapping_definitions.len()
        &&& forall|i: int|
            0 <= i < ctx.mapping_definitions[h as int].fields.len() ==> (
            #[trigger] ctx.mapping_definitions[h as int].fields[i]).1.unstructured()
    }
}

/// The array schema of a shape: an array when it has no prefix, else a tuple with as
/// many positions, whose rest is left out when the rest type holds no value.
pub open spec fn list_rendering(s: JsonSchema, atom: ListAtomic) -> bool {
    if atom.prefix_items.len() == 0 {
        s is Array && (atom.items.unstructured() ==> flat_rendering(*s->Array_0, atom.items))
    } else {
        &&& s is Tuple
        &&& s->prefix_items.len() == atom.prefix_items.len()
        &&& forall|i: int|
            0 <= i < atom.prefix_items.len() && (#[trigger] atom.prefix_items[i]).unstructured()
                ==> flat_rendering(s->prefix_items[i], atom.prefix_items[i])
        &&& (forall|p: Probe| !atom.items.contains(p)) ==> s->items is None
        &&& s->items is None && atom.items.unstructured() ==> forall|p: Probe|
            !atom.items.contains(p)
        &&& s->items is Some && atom.items.unstructured() ==> flat_rendering(
            *s->items->0,
            atom.items,
        )
    }
}

/// The schema of the shape `h` of `ctx`.
pub open spec fn atom_rendering(s: JsonSchema, ctx: SemTypeContext, is_list: bool, h: u64) -> bool {
    if is_list {
        h < ctx.list_definitions.len() && list_rendering(s, ctx.list_definitions[h as int])
    } else {
        h < ctx.mapping_definitions.len() && mapping_rendering(
            s,
            ctx.mapping_definitions[h as int].fields,
        )
    }
}

/// The schema of every object (`is_list` false) or every array.
pub open spec fn any_shape(is_list: bool) -> JsonSchema {
    if is_list {
        JsonSchema::AnyArrayLike
    } else {
        JsonSchema::AnyObject
    }
}

/// `t` is the union of `acc`, a single part standing for itself.
pub open spec fn is_any_of(t: JsonSchema, acc: Seq<JsonSchema>) -> bool {
    if acc.len() == 1 {
        t == acc[0]
    } else {
        t matches JsonSchema::AnyOf(xs) && xs@ == acc
    }
}

/// Whether `t` renders the diagram node `(atom, l, m, r)`: it is the union of, in
/// order, the shape's schema (with the rendering of `l` when `l` is a node) where `l`
/// is not `False`, the rendering of `m` where `m` is not `False`, and the negated shape
/// (with the rendering of `r` when `r` is a node) where `r` is not `False`.
pub open spec fn node_rendering(
    t: JsonSchema,
    ctx: SemTypeContext,
    is_list: bool,
    atom: u64,
    l: Bdd,
    m: Bdd,
    r: Bdd,
) -> bool
    decreases l.size() + m.size() + r.size(),
{
    let im: int = if l is False {
        0
    } else {
        1
    };
    let ir: int = im + if m is False {
        0int
    } else {
        1int
    };
    exists|shape: JsonSchema, acc: Seq<JsonSchema>|
        #[trigger] atom_rendering(shape, ctx, is_list, atom) && #[trigger] is_any_of(t, acc) && {
            &&& acc.len() == ir + if r is False {
                0int
            } else {
                1int
            }
            &&& l is True ==> same_schema(shape, acc[0])
            &&& l is Node ==> (acc[0] matches JsonSchema::AllOf(v) && v.len() == 2 && same_schema(
                shape,
                v[0],
            ) && node_rendering(v[1], ctx, is_list, l->atom, *l->left, *l->middle, *l->right))
            &&& m is True ==> acc[im] == any_shape(is_list)
            &&& m is Node ==> node_rendering(
                acc[im],
                ctx,
                is_list,
                m->atom,
                *m->left,
                *m->middle,
                *m->right,
            )
            &&& r is True ==> (acc[ir] matches JsonSchema::StNot(x) && same_schema(shape, *x))
            &&& r is Node ==> (acc[ir] matches JsonSchema::AllOf(v) && v.len() == 2 && (
            v[0] matches JsonSchema::StNot(x) && same_schema(shape, *x)) && node_rendering(
                v[1],
                ctx,
                is_list,
                r->atom,
                *r->left,
                *r->middle,
                *r->right,
            ))
        }
}

/// Whether every shape of the diagram is a flat shape (see `flat_shape`).
pub open spec fn flat_bdd(ctx: SemTypeContext, is_list: bool, b: Bdd) -> bool
    decreases b,
{
    match b {
        Bdd::Node { atom, left, middle, right } => flat_shape(ctx, is_list, atom) && flat_bdd(
            ctx,
            is_list,
            *left,
        ) && flat_bdd(ctx, is_list, *middle) && flat_bdd(ctx, is_list, *right),
        _ => true,
    }
}

/// Whether every object and array shape of the type is a flat shape: its schema then
/// needs no reference.
pub open spec fn flat_type(ctx: SemTypeContext, ty: SemType) -> bool {
    &&& ty.mapping matches Some(b) ==> flat_bdd(ctx, false, b)
    &&& ty.list matches Some(b) ==> flat_bdd(ctx, true, b)
}

/// Whether `t` is the schema of the type: nothing for the type with no category and
/// no refinement, else the union of its flat parts, then the rendering of its object
/// diagram, then that of its array diagram.
pub open spec fn type_rendering(t: JsonSchema, ctx: SemTypeContext, ty: SemType) -> bool {
    if ty.never_shape() {
        t == JsonSchema::StNever
    } else {
        t matches JsonSchema::AnyOf(xs) && {
            let n = flat_parts(ty).len() as int;
            &&& xs@.len() == n + (if ty.mapping is Some {
                1int
            } else {
                0int
            }) + (if ty.list is Some {
                1int
            } else {
                0int
            })
            &&& xs@.subrange(0, n) == flat_parts(ty)
            &&& ty.mapping matches Some(b) ==> bdd_rendering(xs@[n], ctx, false, b)
            &&& ty.list matches Some(b) ==> bdd_rendering(xs@[xs@.len() - 1], ctx, true, b)
        }
    }
}

proof fn lemma_flat_type_rendering(t: JsonSchema, ctx: SemTypeContext, ty: SemType)
    requires
        ty.unstructured(),
        flat_rendering(t, ty),
    ensures
        type_rendering(t, ctx, ty),
{
    if !ty.never_shape() {
        let xs = t->AnyOf_0;
        assert(xs@.subrange(0, flat_parts(ty).len() as int) =~= flat_parts(ty));
    }
}

/// Whether the object (`is_list` false) or array diagram is within `fuel`: each of its
/// shapes is a handle of `ctx`, `fuel` is positive there, and the diagrams of the
/// shape's member types (field types; prefix and rest types) are within `fuel - 1`.
pub open spec fn bdd_nests(ctx: SemTypeContext, is_list: bool, b: Bdd, fuel: nat) -> bool
    decreases fuel, b,
{
    match b {
        Bdd::Node { atom, left, middle, right } => {
            &&& fuel > 0
            &&& if is_list {
                &&& atom < ctx.list_definitions.len()
                &&& (ctx.list_definitions[atom as int].items.mapping matches Some(m) ==> bdd_nests(
                    ctx,
                    false,
                    m,
                    (fuel - 1) as nat,
                ))
                &&& (ctx.list_definitions[atom as int].items.list matches Some(m) ==> bdd_nests(
                    ctx,
                    true,
                    m,
                    (fuel - 1) as nat,
                ))
                &&& forall|i: int|
                    0 <= i < ctx.list_definitions[atom as int].prefix_items.len() ==> {
                        let t = #[trigger] ctx.list_definitions[atom as int].prefix_items[i];
                        &&& (t.mapping matches Some(m) ==> bdd_nests(ctx, false, m, (fuel - 1) as nat))
                        &&& (t.list matches Some(m) ==> bdd_nests(ctx, true, m, (fuel - 1) as nat))
                    }
            } else {
                &&& atom < ctx.mapping_definitions.len()
                &&& forall|i: int|
                    0 <= i < ctx.mapping_definitions[atom as int].fields.len() ==> {
                        let t = (#[trigger] ctx.mapping_definitions[atom as int].fields[i]).1;
                        &&& (t.mapping matches Some(m) ==> bdd_nests(ctx, false, m, (fuel - 1) as nat))
                        &&& (t.list matches Some(m) ==> bdd_nests(ctx, true, m, (fuel - 1) as nat))
                    }
            }
            &&& bdd_nests(ctx, is_list, *left, fuel)
            &&& bdd_nests(ctx, is_list, *middle, fuel)
            &&& bdd_nests(ctx, is_list, *right, fuel)
        },
        _ => true,
    }
}

/// Whether the type's diagrams are within `fuel` (see `bdd_nests`).
pub open spec fn type_nests(ctx: SemTypeContext, ty: SemType, fuel: nat) -> bool {
    &&& ty.mapping matches Some(m) ==> bdd_nests(ctx, false, m, fuel)
    &&& ty.list matches Some(m) ==> bdd_nests(ctx, true, m, fuel)
}

/// Whether the shape `h` is a handle of `ctx` whose member types are within `fuel - 1`,
/// with `fuel` positive.
pub open spec fn shape_nests(ctx: SemTypeContext, is_list: bool, h: u64, fuel: nat) -> bool {
    bdd_nests(ctx, is_list, atom_node(h), fuel)
}

/// Whether `t` renders a whole diagram: any object or array for `True`, nothing for
/// `False`, the node's rendering for a node.
pub open spec fn bdd_rendering(t: JsonSchema, ctx: SemTypeContext, is_list: bool, b: Bdd) -> bool {
    match b {
        Bdd::True => t == any_shape(is_list),
        Bdd::False => t == JsonSchema::StNever,
        Bdd::Node { atom, left, middle, right } => node_rendering(
            t,
            ctx,
            is_list,
            atom,
            *left,
            *middle,
            *right,
        ),
    }
}

/// Whether no two names of `v` are the same.
pub open spec fn distinct_names(v: Vec<String>) -> bool {
    forall|i: int, j: int| 0 <= i < v.len() && 0 <= j < v.len() && i != j ==> (#[trigger] v[i])@
        != (#[trigger] v[j])@
}

/// The schemer only adds: its counter does not go back, memo entries, validators and
/// recursive names already there stay as they are, and recursive names stay distinct.
pub open spec fn grows(a: SchemerContext, b: SchemerContext) -> bool {
    &&& distinct_names(a.recursive_validators) ==> distinct_names(b.recursive_validators)
    &&& a.counter <= b.counter
    &&& a.schemer_memo.len() <= b.schemer_memo.len()
    &&& forall|i: int| 0 <= i < a.schemer_memo.len() ==> b.schemer_memo[i] == a.schemer_memo[i]
    &&& a.validators.len() <= b.validators.len()
    &&& forall|i: int| 0 <= i < a.validators.len() ==> b.validators[i] == a.validators[i]
    &&& a.recursive_validators.len() <= b.recursive_validators.len()
    &&& forall|i: int|
        0 <= i < a.recursive_validators.len() ==> b.recursive_validators[i]
            == a.recursive_validators[i]
}

proof fn lemma_grows_trans(a: SchemerContext, b: SchemerContext, c: SchemerContext)
    requires
        grows(a, b),
        grows(b, c),
    ensures
        grows(a, c),
{
}

/// Whether `i` is the first entry of the memo whose type is the same as `ty`.
pub open spec fn first_same(memo: Seq<(SemType, SchemaMemo)>, ty: SemType, i: int) -> bool {
    &&& 0 <= i < memo.len()
    &&& memo[i].0.same_as(ty)
    &&& forall|k: int| 0 <= k < i ==> !(#[trigger] memo[k]).0.same_as(ty)
}

proof fn lemma_first_same_unique(memo: Seq<(SemType, SchemaMemo)>, ty: SemType, i: int)
    requires
        first_same(memo, ty, i),
    ensures
        forall|j: int| #[trigger] first_same(memo, ty, j) ==> j == i,
{
    assert forall|j: int| #[trigger] first_same(memo, ty, j) implies j == i by {
        if j < i {
            assert(!memo[j].0.same_as(ty));
        } else if j > i {
            assert(!memo[i].0.same_as(ty));
        }
    }
}

impl SchemerContext {
    pub fn new() -> (r: SchemerContext)
        ensures
            distinct_names(r.recursive_validators),
            r.schemer_memo.len() == 0,
            r.validators.len() == 0,
            r.recursive_validators.len() == 0,
            r.counter == 0,
    {
        SchemerContext {
            schemer_memo: Vec::new(),
            validators: Vec::new(),
            recursive_validators: Vec::new(),
            counter: 0,
        }
    }

    /// The object schema of a shape: a field whose type holds absence is optional.
    fn mapping_atom_schema(&mut self, ctx: &SemTypeContext, handle: u64, fuel: u64) -> (r: Result<
        JsonSchema,
        EngineError,
    >)
        ensures
            grows(*old(self), *final(self)),
            handle >= ctx.mapping_definitions.len() ==> r == Err::<JsonSchema, EngineError>(
                EngineError::InvalidHandle,
            ),
            r matches Ok(t) ==> atom_rendering(t, *ctx, false, handle),
            flat_shape(*ctx, false, handle) && fuel > 0 ==> r is Ok
                && final(self).recursive_validators == old(self).recursive_validators,
            shape_nests(*ctx, false, handle, fuel as nat) ==> r is Ok,
        decreases fuel, 0nat, 0nat,
    {
        let fields = match ctx.get_mapping_atomic(handle) {
            Some(a) => &a.fields,
            None => {
                return Err(EngineError::InvalidHandle);
            },
        };
        if fuel == 0 {
            return Err(EngineError::TooComplex);
        }
        let mut acc: Vec<(String, Optionality<JsonSchema>)> = Vec::new();
        let mut i: usize = 0;
        while i < fields.len()
            invariant
                0 <= i <= fields.len(),
                fuel > 0,
                grows(*old(self), *self),
                handle < ctx.mapping_definitions.len(),
                *fields == ctx.mapping_definitions[handle as int].fields,
                acc.len() == i,
                forall|k: int|
                    0 <= k < i ==> (#[trigger] acc[k]).0@ == fields[k].0@ && (acc[k].1 is Optional
                        <==> fields[k].1.contains(Probe::Void)) && (fields[k].1.unstructured()
                        ==> flat_rendering(acc[k].1.inner_spec(), fields[k].1)),
                flat_shape(*ctx, false, handle) ==> self.recursive_validators
                    == old(self).recursive_validators,
                shape_nests(*ctx, false, handle, fuel as nat) ==> forall|k: int|
                    0 <= k < fields.len() ==> type_nests(*ctx, #[trigger] fields[k].1, (fuel - 1) as nat),
            decreases fields.len() - i,
        {
            let (k, v) = &fields[i];
            let ghost before = *self;
            let schema = self.to_schema_depth(ctx, v, None, fuel - 1)?;
            proof {
                lemma_grows_trans(*old(self), before, *self);
            }
            let ty = if v.has_void() {
                schema.optional()
            } else {
                schema.required()
            };
            acc.push((k.clone(), ty));
            i = i + 1;
        }
        Ok(JsonSchema::Object(acc))
    }

    /// The array schema of a shape: an array of its rest type when it has no prefix,
    /// else a tuple.
    fn list_atom_schema(&mut self, ctx: &SemTypeContext, handle: u64, fuel: u64) -> (r: Result<
        JsonSchema,
        EngineError,
    >)
        ensures
            grows(*old(self), *final(self)),
            handle >= ctx.list_definitions.len() ==> r == Err::<JsonSchema, EngineError>(
                EngineError::InvalidHandle,
            ),
            r matches Ok(t) ==> atom_rendering(t, *ctx, true, handle),
            flat_shape(*ctx, true, handle) && fuel > 0 ==> r is Ok
                && final(self).recursive_validators == old(self).recursive_validators,
            shape_nests(*ctx, true, handle, fuel as nat) ==> r is Ok,
        decreases fuel, 0nat, 0nat,
    {
        let atom = match ctx.get_list_atomic(handle) {
            Some(a) => a,
            None => {
                return Err(EngineError::InvalidHandle);
            },
        };
        if fuel == 0 {
            return Err(EngineError::TooComplex);
        }
        if atom.prefix_items.len() == 0 {
            let items = self.to_schema_depth(ctx, &atom.items, None, fuel - 1)?;
            return Ok(JsonSchema::Array(Box::new(items)));
        }
        let mut prefix_items: Vec<JsonSchema> = Vec::new();
        let mut i: usize = 0;
        while i < atom.prefix_items.len()
            invariant
                0 <= i <= atom.prefix_items.len(),
                fuel > 0,
                grows(*old(self), *self),
                prefix_items.len() == i,
                handle < ctx.list_definitions.len(),
                *atom == ctx.list_definitions[handle as int],
                forall|k: int|
                    0 <= k < i && (#[trigger] atom.prefix_items[k]).unstructured() ==> flat_rendering(
                        prefix_items[k],
                        atom.prefix_items[k],
                    ),
                flat_shape(*ctx, true, handle) ==> self.recursive_validators
                    == old(self).recursive_validators,
                shape_nests(*ctx, true, handle, fuel as nat) ==> forall|k: int|
                    0 <= k < atom.prefix_items.len() ==> type_nests(*ctx, #[trigger] atom.prefix_items[k], (fuel - 1) as nat),
            decreases atom.prefix_items.len() - i,
        {
            let ghost before = *self;
            prefix_items.push(self.to_schema_depth(ctx, &atom.prefix_items[i], None, fuel - 1)?);
            proof {
                lemma_grows_trans(*old(self), before, *self);
            }
            i = i + 1;
        }
        let never = match ctx.is_empty_depth(&atom.items, fuel - 1) {
            Ok(b) => b,
            Err(_) => false,
        };
        let ghost before = *self;
        let items = if never {
            None
        } else {
            Some(Box::new(self.to_schema_depth(ctx, &atom.items, None, fuel - 1)?))
        };
        proof {
            lemma_grows_trans(*old(self), before, *self);
        }
        Ok(JsonSchema::Tuple { prefix_items, items })
    }

    /// The schema of a diagram node: the shape with what lies to its left, the middle
    /// on its own, and the negated shape with what lies to its right, in one union.
    fn to_schema_bdd_node(
        &mut self,
        ctx: &SemTypeContext,
        is_list: bool,
        atom: u64,
        left: &Bdd,
        middle: &Bdd,
        right: &Bdd,
        fuel: u64,
    ) -> (r: Result<JsonSchema, EngineError>)
        ensures
            grows(*old(self), *final(self)),
            !(if is_list {
                atom < ctx.list_definitions.len()
            } else {
                atom < ctx.mapping_definitions.len()
            }) ==> r == Err::<JsonSchema, EngineError>(EngineError::InvalidHandle),
            r matches Ok(t) ==> node_rendering(t, *ctx, is_list, atom, *left, *middle, *right),
            flat_shape(*ctx, is_list, atom) && flat_bdd(*ctx, is_list, *left) && flat_bdd(
                *ctx,
                is_list,
                *middle,
            ) && flat_bdd(*ctx, is_list, *right) && fuel > 0 ==> r is Ok
                && final(self).recursive_validators == old(self).recursive_validators,
            bdd_nests(
                *ctx,
                is_list,
                Bdd::Node {
                    atom,
                    left: Box::new(*left),
                    middle: Box::new(*middle),
                    right: Box::new(*right),
                },
                fuel as nat,
            ) ==> r is Ok,
        decreases fuel, 1nat, left.size() + middle.size() + right.size(),
    {
        proof {
            let node = Bdd::Node {
                atom,
                left: Box::new(*left),
                middle: Box::new(*middle),
                right: Box::new(*right),
            };
            if bdd_nests(*ctx, is_list, node, fuel as nat) {
                reveal_with_fuel(bdd_nests, 2);
                assert(shape_nests(*ctx, is_list, atom, fuel as nat));
            }
        }
        let explained = if is_list {
            self.list_atom_schema(ctx, atom, fuel)?
        } else {
            self.mapping_atom_schema(ctx, atom, fuel)?
        };
        let ghost shape = explained;
        let ghost s0 = *self;
        let mut acc: Vec<JsonSchema> = Vec::new();
        match left {
            Bdd::True => {
                acc.push(explained.duplicate());
            },
            Bdd::False => {},
            Bdd::Node { atom: a, left: l, middle: m, right: r } => {
                let inner = self.to_schema_bdd_node(ctx, is_list, *a, &**l, &**m, &**r, fuel)?;
                let mut both: Vec<JsonSchema> = Vec::new();
                both.push(explained.duplicate());
                both.push(inner);
                acc.push(JsonSchema::AllOf(both));
            },
        }
        let ghost s1 = *self;
        let ghost acc_l = acc@;
        match middle {
            Bdd::False => {},
            Bdd::True => {
                acc.push(if is_list {
                    JsonSchema::AnyArrayLike
                } else {
                    JsonSchema::AnyObject
                });
            },
            Bdd::Node { atom: a, left: l, middle: m, right: r } => {
                acc.push(self.to_schema_bdd_node(ctx, is_list, *a, &**l, &**m, &**r, fuel)?);
            },
        }
        let ghost s2 = *self;
        let ghost acc_m = acc@;
        match right {
            Bdd::True => {
                acc.push(JsonSchema::StNot(Box::new(explained.duplicate())));
            },
            Bdd::False => {},
            Bdd::Node { atom: a, left: l, middle: m, right: r } => {
                let inner = self.to_schema_bdd_node(ctx, is_list, *a, &**l, &**m, &**r, fuel)?;
                let mut both: Vec<JsonSchema> = Vec::new();
                both.push(JsonSchema::StNot(Box::new(explained.duplicate())));
                both.push(inner);
                acc.push(JsonSchema::AllOf(both));
            },
        }
        proof {
            lemma_grows_trans(*old(self), s0, s1);
            lemma_grows_trans(*old(self), s1, s2);
            lemma_grows_trans(*old(self), s2, *self);
            assert(acc@.subrange(0, acc_l.len() as int) =~= acc_l);
            assert(acc@.subrange(0, acc_m.len() as int) =~= acc_m);
        }
        let ghost parts = acc@;
        let t = JsonSchema::any_of(acc);
        assert(atom_rendering(shape, *ctx, is_list, atom));
        assert(is_any_of(t, parts));
        assert(node_rendering(t, *ctx, is_list, atom, *left, *middle, *right));
        Ok(t)
    }

    /// The schema of the objects (`is_list` false) or arrays that a diagram describes.
    fn to_schema_bdd(&mut self, ctx: &SemTypeContext, is_list: bool, bdd: &Bdd, fuel: u64) -> (r:
        Result<JsonSchema, EngineError>)
        ensures
            grows(*old(self), *final(self)),
            r matches Ok(t) ==> bdd_rendering(t, *ctx, is_list, *bdd),
            flat_bdd(*ctx, is_list, *bdd) && fuel > 0 ==> r is Ok
                && final(self).recursive_validators == old(self).recursive_validators,
            bdd_nests(*ctx, is_list, *bdd, fuel as nat) ==> r is Ok,
        decreases fuel, 2nat, 0nat,
    {
        match bdd {
            Bdd::True => Ok(
                if is_list {
                    JsonSchema::AnyArrayLike
                } else {
                    JsonSchema::AnyObject
                },
            ),
            Bdd::False => Ok(JsonSchema::StNever),
            Bdd::Node { atom, left, middle, right } => self.to_schema_bdd_node(
                ctx,
                is_list,
                *atom,
                &**left,
                &**middle,
                &**right,
                fuel,
            ),
        }
    }

    /// The schema of a type, computed afresh: a union of one schema per included
    /// category and refinement.
    fn to_schema_no_cache(&mut self, ctx: &SemTypeContext, ty: &SemType, fuel: u64) -> (r: Result<
        JsonSchema,
        EngineError,
    >)
        ensures
            grows(*old(self), *final(self)),
            ty.never_shape() ==> r == Ok::<JsonSchema, EngineError>(JsonSchema::StNever),
            ty.unstructured() ==> (r matches Ok(t) && flat_rendering(t, *ty)) && *final(self)
                == *old(self),
            !ty.never_shape() ==> (r matches Ok(t) ==> (t matches JsonSchema::AnyOf(xs)
                && xs@.len() == flat_parts(*ty).len() + (if ty.mapping is Some {
                1int
            } else {
                0int
            }) + (if ty.list is Some {
                1int
            } else {
                0int
            }) && xs@.subrange(0, flat_parts(*ty).len() as int) == flat_parts(*ty))),
            ty.mapping matches Some(b) ==> (r matches Ok(t) ==> (t matches JsonSchema::AnyOf(xs)
                && bdd_rendering(xs@[flat_parts(*ty).len() as int], *ctx, false, b))),
            ty.list matches Some(b) ==> (r matches Ok(t) ==> (t matches JsonSchema::AnyOf(xs)
                && bdd_rendering(xs@[xs@.len() - 1], *ctx, true, b))),
            r matches Ok(t) ==> type_rendering(t, *ctx, *ty),
            flat_type(*ctx, *ty) && fuel > 0 ==> r is Ok
                && final(self).recursive_validators == old(self).recursive_validators,
            type_nests(*ctx, *ty, fuel as nat) ==> r is Ok,
        decreases fuel, 3nat, 0nat,
    {
        if ty.is_never() {
            return Ok(JsonSchema::StNever);
        }
        let mut acc = flat_schemas(ty);
        let ghost flat = acc@;
        if let Some(b) = &ty.mapping {
            let x = self.to_schema_bdd(ctx, false, b, fuel)?;
            acc.push(x);
        }
        if let Some(b) = &ty.list {
            let ghost before = *self;
            let x = self.to_schema_bdd(ctx, true, b, fuel)?;
            proof {
                lemma_grows_trans(*old(self), before, *self);
            }
            acc.push(x);
        }
        assert(acc@.subrange(0, flat.len() as int) =~= flat);
        Ok(JsonSchema::AnyOf(acc))
    }

    /// The suggested name, else `t_` and the next value of the counter.
    fn fresh_name(&mut self, name: Option<&str>) -> (r: String)
        ensures
            grows(*old(self), *final(self)),
            final(self).schemer_memo == old(self).schemer_memo,
            final(self).validators == old(self).validators,
            final(self).recursive_validators == old(self).recursive_validators,
            name matches Some(n) ==> r@ == n@ && final(self).counter == old(self).counter,
            name is None && old(self).counter < u64::MAX ==> r@ == "t_"@ + decimal(
                (old(self).counter + 1) as nat,
            ),
    {
        match name {
            Some(n) => n.to_owned(),
            None => {
                if self.counter < u64::MAX {
                    self.counter = self.counter + 1;
                }
                with_number("t_", self.counter)
            },
        }
    }

    /// Where the memo first holds a type equal to `ty`.
    fn memo_lookup(&self, ty: &SemType) -> (r: Option<usize>)
        ensures
            r matches Some(i) ==> i < self.schemer_memo.len() && first_same(
                self.schemer_memo@,
                *ty,
                i as int,
            ),
            r is None ==> forall|i: int|
                0 <= i < self.schemer_memo.len() ==> !(#[trigger] self.schemer_memo[i]).0.same_as(*ty),
    {
        let mut i: usize = 0;
        while i < self.schemer_memo.len()
            invariant
                0 <= i <= self.schemer_memo.len(),
                forall|k: int| 0 <= k < i ==> !(#[trigger] self.schemer_memo[k]).0.same_as(*ty),
            decreases self.schemer_memo.len() - i,
        {
            if self.schemer_memo[i].0.equals(ty) {
                return Some(i);
            }
            i = i + 1;
        }
        None
    }

    /// The schema of a type under a suggested name (else `t_<counter>`). A type met
    /// again while its own schema is being computed becomes a reference to its name,
    /// and the name is recorded as recursive. Each schema computed afresh is also
    /// recorded as a validator under its name.
    pub fn to_schema_depth(
        &mut self,
        ctx: &SemTypeContext,
        ty: &SemType,
        name: Option<&str>,
        fuel: u64,
    ) -> (r: Result<JsonSchema, EngineError>)
        ensures
            type_nests(*ctx, *ty, fuel as nat) ==> r is Ok,
            (forall|i: int|
                0 <= i < old(self).schemer_memo.len() ==> !(#[trigger] old(self).schemer_memo[i]).0.same_as(*ty)) && flat_type(*ctx, *ty) && fuel > 0 ==> {
                &&& r matches Ok(t) && type_rendering(t, *ctx, *ty)
                &&& final(self).recursive_validators == old(self).recursive_validators
            },
            grows(*old(self), *final(self)),
            ty.unstructured() ==> (r matches Ok(t) && flat_rendering(t, *ty)),
            ty.unstructured() && (exists|i: int|
                0 <= i < old(self).schemer_memo.len() && (#[trigger] old(self).schemer_memo[i]).0.same_as(*ty))
                ==> *final(self) == *old(self),
            forall|i: int|
                #[trigger] first_same(old(self).schemer_memo@, *ty, i) && old(self).schemer_memo[i].1 is Schema
                    && !ty.unstructured() ==> (r matches Ok(t) && same_schema(old(self).schemer_memo[i].1->Schema_0, t))
                    && *final(self) == *old(self),
            forall|i: int|
                #[trigger] first_same(old(self).schemer_memo@, *ty, i) && old(self).schemer_memo[i].1 is Undefined
                    && !ty.unstructured() ==> {
                    let n = old(self).schemer_memo[i].1->Undefined_0;
                    &&& r == Ok::<JsonSchema, EngineError>(JsonSchema::Ref(n))
                    &&& (exists|k: int|
                        0 <= k < old(self).recursive_validators.len() && (#[trigger] old(self).recursive_validators[k])@ == n@)
                        ==> final(self).recursive_validators == old(self).recursive_validators
                    &&& !(exists|k: int|
                        0 <= k < old(self).recursive_validators.len() && (#[trigger] old(self).recursive_validators[k])@ == n@)
                        ==> final(self).recursive_validators@ == old(self).recursive_validators@.push(n)
                    &&& final(self).validators == old(self).validators
                    &&& final(self).schemer_memo == old(self).schemer_memo
                    &&& final(self).counter == old(self).counter
                },
            (forall|i: int|
                0 <= i < old(self).schemer_memo.len() ==> !(#[trigger] old(self).schemer_memo[i]).0.same_as(*ty)) ==> (r matches Ok(t) ==> {
                &&& final(self).schemer_memo.len() > old(self).schemer_memo.len()
                &&& final(self).schemer_memo[old(self).schemer_memo.len() as int].1 matches SchemaMemo::Schema(x) && same_schema(t, x)
                &&& final(self).validators.len() > old(self).validators.len()
                &&& same_schema(t, final(self).validators[final(self).validators.len() - 1].schema)
                &&& name matches Some(n) ==> final(self).validators[final(self).validators.len()
                    - 1].name@ == n@
                &&& name is None && old(self).counter < u64::MAX ==> final(self).validators[final(self).validators.len() - 1].name@
                    == "t_"@ + decimal((old(self).counter + 1) as nat)
            }),
            (forall|i: int|
                0 <= i < old(self).schemer_memo.len() ==> !(#[trigger] old(self).schemer_memo[i]).0.same_as(*ty)) && ty.unstructured() ==> {
                &&& final(self).validators.len() == old(self).validators.len() + 1
                &&& final(self).schemer_memo.len() == old(self).schemer_memo.len() + 1
                &&& final(self).recursive_validators == old(self).recursive_validators
            },
        decreases fuel, 4nat, 0nat,
    {
        if ty.mapping.is_none() && ty.list.is_none() {
            let schema = flat_schema(ty);
            proof {
                lemma_flat_type_rendering(schema, *ctx, *ty);
            }
            if let Some(i) = self.memo_lookup(ty) {
                return Ok(schema);
            }
            let new_name = self.fresh_name(name);
            let ghost named = *self;
            self.schemer_memo.push((ty.duplicate(), SchemaMemo::Schema(schema.duplicate())));
            self.validators.push(Validator { name: new_name, schema: schema.duplicate() });
            assert(grows(named, *self));
            return Ok(schema);
        }
        if let Some(i) = self.memo_lookup(ty) {
            proof {
                lemma_first_same_unique(old(self).schemer_memo@, *ty, i as int);
            }
            match &self.schemer_memo[i].1 {
                SchemaMemo::Schema(s) => {
                    return Ok(s.duplicate());
                },
                SchemaMemo::Undefined(ref_name) => {
                    let ref_name = ref_name.clone();
                    if !holds_name(&self.recursive_validators, &ref_name) {
                        let ghost before = self.recursive_validators;
                        self.recursive_validators.push(ref_name.clone());
                        proof {
                            if distinct_names(before) {
                                assert forall|a: int, b: int|
                                    0 <= a < self.recursive_validators.len() && 0 <= b
                                        < self.recursive_validators.len() && a != b implies (
                                    #[trigger] self.recursive_validators[a])@ != (
                                    #[trigger] self.recursive_validators[b])@ by {
                                    if a < before.len() && b < before.len() {
                                        assert(self.recursive_validators[a] == before[a]);
                                        assert(self.recursive_validators[b] == before[b]);
                                    } else if a < before.len() {
                                        assert(self.recursive_validators[a] == before[a]);
                                    } else {
                                        assert(self.recursive_validators[b] == before[b]);
                                    }
                                }
                            }
                        }
                        assert(self.recursive_validators[self.recursive_validators.len() - 1]@
                            == ref_name@);
                    }
                    return Ok(JsonSchema::Ref(ref_name));
                },
            }
        }
        let new_name = self.fresh_name(name);
        let ghost named = *self;
        self.schemer_memo.push((ty.duplicate(), SchemaMemo::Undefined(new_name.clone())));
        let slot = self.schemer_memo.len() - 1;
        let ghost pushed = *self;
        let schema = self.to_schema_no_cache(ctx, ty, fuel)?;
        let ghost computed = *self;
        proof {
            lemma_grows_trans(named, pushed, computed);
        }
        if slot < self.schemer_memo.len() {
            let t = ty.duplicate();
            self.schemer_memo.set(slot, (t, SchemaMemo::Schema(schema.duplicate())));
        }
        self.validators.push(Validator { name: new_name, schema: schema.duplicate() });
        assert(grows(named, *self));
        Ok(schema)
    }

    /// The schema of a type under a suggested name; see `to_schema_depth`.
    pub fn to_schema(&mut self, ctx: &SemTypeContext, ty: &SemType, name: Option<&str>) -> (r:
        Result<JsonSchema, EngineError>)
        ensures
            type_nests(*ctx, *ty, MAX_DEPTH as nat) ==> r is Ok,
            (forall|i: int|
                0 <= i < old(self).schemer_memo.len() ==> !(#[trigger] old(self).schemer_memo[i]).0.same_as(*ty)) && flat_type(*ctx, *ty) ==> {
                &&& r matches Ok(t) && type_rendering(t, *ctx, *ty)
                &&& final(self).recursive_validators == old(self).recursive_validators
            },
            grows(*old(self), *final(self)),
            ty.unstructured() ==> (r matches Ok(t) && flat_rendering(t, *ty)),
            ty.unstructured() && (exists|i: int|
                0 <= i < old(self).schemer_memo.len() && (#[trigger] old(self).schemer_memo[i]).0.same_as(*ty))
                ==> *final(self) == *old(self),
            forall|i: int|
                #[trigger] first_same(old(self).schemer_memo@, *ty, i) && old(self).schemer_memo[i].1 is Schema
                    && !ty.unstructured() ==> (r matches Ok(t) && same_schema(old(self).schemer_memo[i].1->Schema_0, t))
                    && *final(self) == *old(self),
            forall|i: int|
                #[trigger] first_same(old(self).schemer_memo@, *ty, i) && old(self).schemer_memo[i].1 is Undefined
                    && !ty.unstructured() ==> {
                    let n = old(self).schemer_memo[i].1->Undefined_0;
                    &&& r == Ok::<JsonSchema, EngineError>(JsonSchema::Ref(n))
                    &&& (exists|k: int|
                        0 <= k < old(self).recursive_validators.len() && (#[trigger] old(self).recursive_validators[k])@ == n@)
                        ==> final(self).recursive_validators == old(self).recursive_validators
                    &&& !(exists|k: int|
                        0 <= k < old(self).recursive_validators.len() && (#[trigger] old(self).recursive_validators[k])@ == n@)
                        ==> final(self).recursive_validators@ == old(self).recursive_validators@.push(n)
                    &&& final(self).validators == old(self).validators
                    &&& final(self).schemer_memo == old(self).schemer_memo
                    &&& final(self).counter == old(self).counter
                },
            (forall|i: int|
                0 <= i < old(self).schemer_memo.len() ==> !(#[trigger] old(self).schemer_memo[i]).0.same_as(*ty)) ==> (r matches Ok(t) ==> {
                &&& final(self).schemer_memo.len() > old(self).schemer_memo.len()
                &&& final(self).schemer_memo[old(self).schemer_memo.len() as int].1 matches SchemaMemo::Schema(x) && same_schema(t, x)
                &&& final(self).validators.len() > old(self).validators.len()
                &&& same_schema(t, final(self).validators[final(self).validators.len() - 1].schema)
                &&& name matches Some(n) ==> final(self).validators[final(self).validators.len()
                    - 1].name@ == n@
                &&& name is None && old(self).counter < u64::MAX ==> final(self).validators[final(self).validators.len() - 1].name@
                    == "t_"@ + decimal((old(self).counter + 1) as nat)
            }),
            (forall|i: int|
                0 <= i < old(self).schemer_memo.len() ==> !(#[trigger] old(self).schemer_memo[i]).0.same_as(*ty)) && ty.unstructured() ==> {
                &&& final(self).validators.len() == old(self).validators.len() + 1
                &&& final(self).schemer_memo.len() == old(self).schemer_memo.len() + 1
                &&& final(self).recursive_validators == old(self).recursive_validators
            },
    {
        self.to_schema_depth(ctx, ty, name, MAX_DEPTH)
    }
}

/// The validators that a type needs under `name`: the named schemas that refer to
/// themselves, and the schema of the type under `name` unless it is one of them.
pub fn to_validators(ctx: &SemTypeContext, ty: &SemType, name: &str) -> (r: Result<
    Vec<Validator>,
    EngineError,
>)
    ensures
        r matches Ok(vs) ==> exists|i: int| 0 <= i < vs@.len() && (#[trigger] vs@[i]).name@ == name@,
        ty.unstructured() ==> (r matches Ok(vs) && vs@.len() == 1 && vs@[0].name@ == name@
            && flat_rendering(vs@[0].schema, *ty)),
        flat_type(*ctx, *ty) ==> (r matches Ok(vs) && vs@.len() == 1 && vs@[0].name@ == name@
            && type_rendering(vs@[0].schema, *ctx, *ty)),
        type_nests(*ctx, *ty, MAX_DEPTH as nat) ==> r is Ok,
{
    let mut schemer = SchemerContext::new();
    let out = schemer.to_schema_depth(ctx, ty, Some(name), MAX_DEPTH)?;
    let n = schemer.validators.len();
    let name = &name.to_owned();
    let top_recursive = holds_name(&schemer.recursive_validators, name);
    let mut kept: Vec<Validator> = Vec::new();
    let mut i: usize = 0;
    while i < n
        invariant
            0 <= i <= n,
            n == schemer.validators.len(),
            n > 0,
            schemer.validators[n - 1].name@ == name@,
            top_recursive == exists|k: int|
                0 <= k < schemer.recursive_validators.len()
                    && (#[trigger] schemer.recursive_validators[k])@ == name@,
            top_recursive && i == n ==> exists|k: int|
                0 <= k < kept.len() && (#[trigger] kept[k]).name@ == name@,
            schemer.recursive_validators.len() == 0 ==> kept.len() == 0,
        decreases n - i,
    {
        let v = &schemer.validators[i];
        if holds_name(&schemer.recursive_validators, &v.name) {
            kept.push(Validator { name: v.name.clone(), schema: v.schema.duplicate() });
            if i == n - 1 {
                assert(kept[kept.len() - 1].name@ == name@);
            }
        }
        i = i + 1;
    }
    if !top_recursive {
        kept.push(Validator { name: name.clone(), schema: out });
        assert(kept@[kept@.len() - 1].name@ == name@);
    } else {
        let ghost k = choose|k: int| 0 <= k < kept.len() && (#[trigger] kept[k]).name@ == name@;
        assert(kept@[k].name@ == name@);
    }
    let r: Result<Vec<Validator>, EngineError> = Ok(kept);
    assert(r matches Ok(w) && exists|i: int| 0 <= i < w@.len() && (#[trigger] w@[i]).name@ == name@);
    r
}

} // verus!
