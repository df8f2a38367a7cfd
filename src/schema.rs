use vstd::prelude::*;

verus! {

/// Whether an object field must be present or may be absent.
#[derive(Debug, PartialEq)]
pub enum Optionality<T> {
    Optional(T),
    Required(T),
}

impl<T> Optionality<T> {
    pub open spec fn inner_spec(self) -> T {
        match self {
            Optionality::Optional(t) => t,
            Optionality::Required(t) => t,
        }
    }

    pub fn inner(&self) -> (r: &T)
        ensures
            *r == self.inner_spec(),
    {
        match self {
            Optionality::Optional(t) => t,
            Optionality::Required(t) => t,
        }
    }

    pub fn inner_move(self) -> (r: T)
        ensures
            r == self.inner_spec(),
    {
        match self {
            Optionality::Optional(t) => t,
            Optionality::Required(t) => t,
        }
    }

    pub fn is_required(&self) -> (r: bool)
        ensures
            r == (*self is Required),
    {
        match self {
            Optionality::Optional(_) => false,
            Optionality::Required(_) => true,
        }
    }
}

/// A JSON value. A number is kept as its decimal text.
#[derive(Debug, PartialEq)]
pub enum Json {
    Null,
    Bool(bool),
    Number(String),
    String(String),
    Array(Vec<Json>),
    Object(Vec<(String, Json)>),
}

/// Whether two JSON values are the same, comparing texts by their characters.
pub open spec fn same_json(a: Json, b: Json) -> bool
    decreases a,
{
    match a {
        Json::Null => b is Null,
        Json::Bool(x) => b matches Json::Bool(y) && x == y,
        Json::Number(x) => b matches Json::Number(y) && x@ == y@,
        Json::String(x) => b matches Json::String(y) && x@ == y@,
        Json::Array(xs) => b matches Json::Array(ys) && xs.len() == ys.len() && forall|i: int|
            0 <= i < xs.len() ==> same_json(#[trigger] xs[i], ys[i]),
        Json::Object(xs) => b matches Json::Object(ys) && xs.len() == ys.len() && forall|i: int|
            0 <= i < xs.len() ==> (#[trigger] xs[i]).0@ == ys[i].0@ && same_json(xs[i].1, ys[i].1),
    }
}

/// Sameness of JSON values carries over.
pub proof fn lemma_same_json_trans(a: Json, b: Json, c: Json)
    requires
        same_json(a, b),
        same_json(b, c),
    ensures
        same_json(a, c),
    decreases a,
{
    match a {
        Json::Array(xs) => {
            let ys = b->Array_0;
            let zs = c->Array_0;
            assert forall|i: int| 0 <= i < xs.len() implies same_json(#[trigger] xs[i], zs[i]) by {
                assert(decreases_to!(a => xs));
                assert(decreases_to!(xs => xs[i]));
                lemma_same_json_trans(xs[i], ys[i], zs[i]);
            }
        },
        Json::Object(xs) => {
            let ys = b->Object_0;
            let zs = c->Object_0;
            assert forall|i: int| 0 <= i < xs.len() implies (#[trigger] xs[i]).0@ == zs[i].0@
                && same_json(xs[i].1, zs[i].1) by {
                assert(decreases_to!(a => xs));
                assert(decreases_to!(xs => xs[i]));
                assert(decreases_to!(xs[i] => xs[i].1));
                lemma_same_json_trans(xs[i].1, ys[i].1, zs[i].1);
            }
        },
        _ => {},
    }
}

impl Json {
    /// A copy of the value.
    pub fn duplicate(&self) -> (r: Json)
        ensures
            same_json(*self, r),
        decreases self,
    {
        match self {
            Json::Null => Json::Null,
            Json::Bool(b) => Json::Bool(*b),
            Json::Number(n) => Json::Number(n.clone()),
            Json::String(x) => Json::String(x.clone()),
            Json::Array(items) => Json::Array(Json::duplicate_all(items)),
            Json::Object(entries) => Json::Object(Json::duplicate_entries(entries)),
        }
    }
}

impl Json {
    /// A copy of each value.
    pub fn duplicate_all(vs: &Vec<Json>) -> (r: Vec<Json>)
        ensures
            r.len() == vs.len(),
            forall|i: int| 0 <= i < vs.len() ==> same_json(#[trigger] vs[i], r[i]),
        decreases vs,
    {
        let mut out: Vec<Json> = Vec::new();
        let mut i: usize = 0;
        while i < vs.len()
            invariant
                0 <= i <= vs.len(),
                out.len() == i,
                forall|k: int| 0 <= k < i ==> same_json(#[trigger] vs[k], out[k]),
            decreases vs.len() - i,
        {
            proof {
                assert(decreases_to!(vs => vs[i as int]));
            }
            out.push(vs[i].duplicate());
            i = i + 1;
        }
        out
    }

    /// A copy of each entry.
    pub fn duplicate_entries(vs: &Vec<(String, Json)>) -> (r: Vec<(String, Json)>)
        ensures
            r.len() == vs.len(),
            forall|i: int|
                0 <= i < vs.len() ==> (#[trigger] vs[i]).0@ == r[i].0@ && same_json(vs[i].1, r[i].1),
        decreases vs,
    {
        let mut out: Vec<(String, Json)> = Vec::new();
        let mut i: usize = 0;
        while i < vs.len()
            invariant
                0 <= i <= vs.len(),
                out.len() == i,
                forall|k: int|
                    0 <= k < i ==> (#[trigger] vs[k]).0@ == out[k].0@ && same_json(vs[k].1, out[k].1),
            decreases vs.len() - i,
        {
            proof {
                assert(decreases_to!(vs => vs[i as int]));
                assert(decreases_to!(vs[i as int] => vs[i as int].1));
            }
            out.push((vs[i].0.clone(), vs[i].1.duplicate()));
            i = i + 1;
        }
        out
    }
}

impl Clone for Json {
    fn clone(&self) -> (r: Json) {
        self.duplicate()
    }
}

/// Whether two schemas are the same, comparing texts by their characters.
pub open spec fn same_schema(a: JsonSchema, b: JsonSchema) -> bool
    decreases a,
{
    match a {
        JsonSchema::Null => b is Null,
        JsonSchema::Boolean => b is Boolean,
        JsonSchema::String => b is String,
        JsonSchema::Number => b is Number,
        JsonSchema::Any => b is Any,
        JsonSchema::AnyObject => b is AnyObject,
        JsonSchema::AnyArrayLike => b is AnyArrayLike,
        JsonSchema::Error => b is Error,
        JsonSchema::StNever => b is StNever,
        JsonSchema::StringWithFormat(f) => b matches JsonSchema::StringWithFormat(g) && f@ == g@,
        JsonSchema::Ref(n) => b matches JsonSchema::Ref(m) && n@ == m@,
        JsonSchema::OpenApiResponseRef(n) => b matches JsonSchema::OpenApiResponseRef(m) && n@
            == m@,
        JsonSchema::Object(fs) => b matches JsonSchema::Object(gs) && fs.len() == gs.len()
            && forall|i: int|
            0 <= i < fs.len() ==> (#[trigger] fs[i]).0@ == gs[i].0@ && match (fs[i].1, gs[i].1) {
                (Optionality::Optional(x), Optionality::Optional(y)) => same_schema(x, y),
                (Optionality::Required(x), Optionality::Required(y)) => same_schema(x, y),
                _ => false,
            },
        JsonSchema::Array(x) => b matches JsonSchema::Array(y) && same_schema(*x, *y),
        JsonSchema::Tuple { prefix_items, items } => b is Tuple && prefix_items.len()
            == b->prefix_items.len() && (forall|i: int|
            0 <= i < prefix_items.len() ==> same_schema(
                #[trigger] prefix_items[i],
                b->prefix_items[i],
            )) && match (items, b->items) {
            (Some(x), Some(y)) => same_schema(*x, *y),
            (None, None) => true,
            _ => false,
        },
        JsonSchema::AnyOf(vs) => b matches JsonSchema::AnyOf(ws) && vs.len() == ws.len()
            && forall|i: int| 0 <= i < vs.len() ==> same_schema(#[trigger] vs[i], ws[i]),
        JsonSchema::AllOf(vs) => b matches JsonSchema::AllOf(ws) && vs.len() == ws.len()
            && forall|i: int| 0 <= i < vs.len() ==> same_schema(#[trigger] vs[i], ws[i]),
        JsonSchema::Const(c) => b matches JsonSchema::Const(d) && same_json(c, d),
        JsonSchema::StNot(x) => b matches JsonSchema::StNot(y) && same_schema(*x, *y),
    }
}

/// Whether some field is named `x`.
pub open spec fn names_field<V>(fs: Seq<(String, V)>, x: Seq<char>) -> bool {
    exists|i: int| 0 <= i < fs.len() && (#[trigger] fs[i]).0@ == x
}

/// Whether no two fields have the same name.
pub open spec fn distinct_fields<V>(fs: Seq<(String, V)>) -> bool {
    forall|i: int, j: int|
        0 <= i < fs.len() && 0 <= j < fs.len() && i != j ==> (#[trigger] fs[i]).0@ != (
        #[trigger] fs[j]).0@
}

/// Sets the field `k` to `v`: in place when a field of that name is there, else at
/// the end.
pub(crate) fn insert_field<V>(out: &mut Vec<(String, V)>, k: String, v: V)
    requires
        distinct_fields(old(out)@),
    ensures
        distinct_fields(final(out)@),
        forall|x: Seq<char>|
            #[trigger] names_field(final(out)@, x) == (names_field(old(out)@, x) || x == k@),
{
    let ghost before = out@;
    let mut i: usize = 0;
    while i < out.len()
        invariant
            0 <= i <= out.len(),
            out@ == before,
            before == old(out)@,
            distinct_fields(before),
            forall|m: int| 0 <= m < i ==> out@[m].0@ != k@,
        decreases out.len() - i,
    {
        if out[i].0 == k {
            let ghost old_name = out@[i as int].0@;
            out.set(i, (k, v));
            assert(out@ == before.update(i as int, out@[i as int]));
            assert(out@[i as int].0@ == old_name);
            proof {
                assert forall|a: int, b: int|
                    0 <= a < out@.len() && 0 <= b < out@.len() && a != b implies (#[trigger] out@[a]).0@
                        != (#[trigger] out@[b]).0@ by {
                    assert(out@[a].0@ == before[a].0@);
                    assert(out@[b].0@ == before[b].0@);
                }
                assert forall|x: Seq<char>|
                    #[trigger] names_field(out@, x) == (names_field(before, x) || x == k@) by {
                    if names_field(before, x) {
                        let j = choose|j: int| 0 <= j < before.len() && (#[trigger] before[j]).0@ == x;
                        assert(out@[j].0@ == x);
                    }
                    if names_field(out@, x) {
                        let j = choose|j: int| 0 <= j < out@.len() && (#[trigger] out@[j]).0@ == x;
                        assert(before[j].0@ == x);
                    }
                    if x == k@ {
                        assert(out@[i as int].0@ == x);
                    }
                }
            }
            return;
        }
        i = i + 1;
    }
    out.push((k, v));
    proof {
        assert forall|a: int, b: int|
            0 <= a < out@.len() && 0 <= b < out@.len() && a != b implies (#[trigger] out@[a]).0@
                != (#[trigger] out@[b]).0@ by {
            if a < before.len() && b < before.len() {
                assert(out@[a] == before[a] && out@[b] == before[b]);
            } else if a < before.len() {
                assert(out@[a] == before[a]);
            } else {
                assert(out@[b] == before[b]);
            }
        }
        assert forall|x: Seq<char>|
            #[trigger] names_field(out@, x) == (names_field(before, x) || x == k@) by {
            if names_field(before, x) {
                let j = choose|j: int| 0 <= j < before.len() && (#[trigger] before[j]).0@ == x;
                assert(out@[j] == before[j]);
            }
            if names_field(out@, x) {
                let j = choose|j: int| 0 <= j < out@.len() && (#[trigger] out@[j]).0@ == x;
                if j < before.len() {
                    assert(out@[j] == before[j]);
                }
            }
            if x == k@ {
                assert(out@[before.len() as int].0@ == x);
            }
        }
    }
}

/// A JSON-Schema-like description of the values a program accepts.
#[derive(Debug, PartialEq)]
pub enum JsonSchema {
    Null,
    Boolean,
    String,
    StringWithFormat(String),
    Number,
    Any,
    AnyObject,
    AnyArrayLike,
    Object(Vec<(String, Optionality<JsonSchema>)>),
    Array(Box<JsonSchema>),
    Tuple { prefix_items: Vec<JsonSchema>, items: Option<Box<JsonSchema>> },
    Ref(String),
    OpenApiResponseRef(String),
    AnyOf(Vec<JsonSchema>),
    AllOf(Vec<JsonSchema>),
    Const(Json),
    Error,
    StNever,
    StNot(Box<JsonSchema>),
}

impl JsonSchema {
    /// A copy of the schema.
    pub fn duplicate(&self) -> (r: JsonSchema)
        ensures
            same_schema(*self, r),
        decreases self,
    {
        match self {
            JsonSchema::Null => JsonSchema::Null,
            JsonSchema::Boolean => JsonSchema::Boolean,
            JsonSchema::String => JsonSchema::String,
            JsonSchema::StringWithFormat(f) => JsonSchema::StringWithFormat(f.clone()),
            JsonSchema::Number => JsonSchema::Number,
            JsonSchema::Any => JsonSchema::Any,
            JsonSchema::AnyObject => JsonSchema::AnyObject,
            JsonSchema::AnyArrayLike => JsonSchema::AnyArrayLike,
            JsonSchema::Object(fields) => JsonSchema::Object(JsonSchema::duplicate_fields(fields)),
            JsonSchema::Array(item) => JsonSchema::Array(Box::new((**item).duplicate())),
            JsonSchema::Tuple { prefix_items, items } => {
                let prefix = JsonSchema::duplicate_all(prefix_items);
                let items = match items {
                    Some(t) => Some(Box::new((**t).duplicate())),
                    None => None,
                };
                JsonSchema::Tuple { prefix_items: prefix, items }
            },
            JsonSchema::Ref(n) => JsonSchema::Ref(n.clone()),
            JsonSchema::OpenApiResponseRef(n) => JsonSchema::OpenApiResponseRef(n.clone()),
            JsonSchema::AnyOf(vs) => JsonSchema::AnyOf(JsonSchema::duplicate_all(vs)),
            JsonSchema::AllOf(vs) => JsonSchema::AllOf(JsonSchema::duplicate_all(vs)),
            JsonSchema::Const(j) => JsonSchema::Const(j.duplicate()),
            JsonSchema::Error => JsonSchema::Error,
            JsonSchema::StNever => JsonSchema::StNever,
            JsonSchema::StNot(t) => JsonSchema::StNot(Box::new((**t).duplicate())),
        }
    }

    /// A copy of each schema.
    pub fn duplicate_all(vs: &Vec<JsonSchema>) -> (r: Vec<JsonSchema>)
        ensures
            r.len() == vs.len(),
            forall|i: int| 0 <= i < vs.len() ==> same_schema(#[trigger] vs[i], r[i]),
        decreases vs,
    {
        let mut out: Vec<JsonSchema> = Vec::new();
        let mut i: usize = 0;
        while i < vs.len()
            invariant
                0 <= i <= vs.len(),
                out.len() == i,
                forall|k: int| 0 <= k < i ==> same_schema(#[trigger] vs[k], out[k]),
            decreases vs.len() - i,
        {
            proof {
                assert(decreases_to!(vs => vs[i as int]));
            }
            out.push(vs[i].duplicate());
            i = i + 1;
        }
        out
    }

    /// A copy of each field.
    pub fn duplicate_fields(vs: &Vec<(String, Optionality<JsonSchema>)>) -> (r: Vec<
        (String, Optionality<JsonSchema>),
    >)
        ensures
            r.len() == vs.len(),
            forall|i: int|
                0 <= i < vs.len() ==> (#[trigger] vs[i]).0@ == r[i].0@ && match (vs[i].1, r[i].1) {
                    (Optionality::Optional(x), Optionality::Optional(y)) => same_schema(x, y),
                    (Optionality::Required(x), Optionality::Required(y)) => same_schema(x, y),
                    _ => false,
                },
        decreases vs,
    {
        let mut out: Vec<(String, Optionality<JsonSchema>)> = Vec::new();
        let mut i: usize = 0;
        while i < vs.len()
            invariant
                0 <= i <= vs.len(),
                out.len() == i,
                forall|k: int|
                    0 <= k < i ==> (#[trigger] vs[k]).0@ == out[k].0@ && match (vs[k].1, out[k].1) {
                        (Optionality::Optional(x), Optionality::Optional(y)) => same_schema(x, y),
                        (Optionality::Required(x), Optionality::Required(y)) => same_schema(x, y),
                        _ => false,
                    },
            decreases vs.len() - i,
        {
            proof {
                assert(decreases_to!(vs => vs[i as int]));
                assert(decreases_to!(vs[i as int] => vs[i as int].1));
            }
            let v = match &vs[i].1 {
                Optionality::Optional(t) => Optionality::Optional(t.duplicate()),
                Optionality::Required(t) => Optionality::Required(t.duplicate()),
            };
            out.push((vs[i].0.clone(), v));
            i = i + 1;
        }
        out
    }

    /// An object schema of the given fields, one per name: a name given twice keeps
    /// its first position and its last schema.
    pub fn object(vs: Vec<(String, Optionality<JsonSchema>)>) -> (r: JsonSchema)
        ensures
            r matches JsonSchema::Object(fs) && distinct_fields(fs@) && forall|x: Seq<char>|
                #[trigger] names_field(fs@, x) == names_field(vs@, x),
    {
        let ghost all = vs@;
        let mut rest = vs;
        let mut out: Vec<(String, Optionality<JsonSchema>)> = Vec::new();
        let ghost mut n: int = 0;
        assert(rest@ =~= all.subrange(0, all.len() as int));
        while rest.len() > 0
            invariant
                0 <= n <= all.len(),
                n + rest.len() == all.len(),
                rest@ == all.subrange(n, all.len() as int),
                distinct_fields(out@),
                forall|x: Seq<char>|
                    #[trigger] names_field(out@, x) == names_field(all.subrange(0, n), x),
            decreases rest.len(),
        {
            let (k, v) = rest.remove(0);
            assert(k == all[n].0);
            let ghost before = all.subrange(0, n);
            insert_field(&mut out, k, v);
            proof {
                assert forall|x: Seq<char>|
                    #[trigger] names_field(all.subrange(0, n + 1), x) == (names_field(before, x)
                        || x == all[n].0@) by {
                    let s1 = all.subrange(0, n + 1);
                    if names_field(s1, x) {
                        let i = choose|i: int| 0 <= i < s1.len() && (#[trigger] s1[i]).0@ == x;
                        if i < n {
                            assert(before[i] == s1[i]);
                        }
                    }
                    if names_field(before, x) {
                        let i = choose|i: int| 0 <= i < before.len() && (#[trigger] before[i]).0@ == x;
                        assert(s1[i] == before[i]);
                    }
                    if x == all[n].0@ {
                        assert(s1[n] == all[n]);
                    }
                }
                n = n + 1;
            }
            assert(rest@ =~= all.subrange(n, all.len() as int));
        }
        assert(all.subrange(0, all.len() as int) =~= all);
        JsonSchema::Object(out)
    }

    pub fn required(self) -> (r: Optionality<JsonSchema>)
        ensures
            r == Optionality::Required(self),
    {
        Optionality::Required(self)
    }

    pub fn optional(self) -> (r: Optionality<JsonSchema>)
        ensures
            r == Optionality::Optional(self),
    {
        Optionality::Optional(self)
    }

    /// A union of the schemas; a single schema stands for itself.
    pub fn any_of(vs: Vec<JsonSchema>) -> (r: JsonSchema)
        ensures
            vs.len() == 1 ==> r == vs[0],
            vs.len() != 1 ==> r == JsonSchema::AnyOf(vs),
    {
        if vs.len() == 1 {
            let mut vs = vs;
            vs.pop().unwrap()
        } else {
            JsonSchema::AnyOf(vs)
        }
    }

    /// An intersection of the schemas; a single schema stands for itself.
    pub fn all_of(vs: Vec<JsonSchema>) -> (r: JsonSchema)
        ensures
            vs.len() == 1 ==> r == vs[0],
            vs.len() != 1 ==> r == JsonSchema::AllOf(vs),
    {
        if vs.len() == 1 {
            let mut vs = vs;
            vs.pop().unwrap()
        } else {
            JsonSchema::AllOf(vs)
        }
    }
}

impl Clone for JsonSchema {
    fn clone(&self) -> (r: JsonSchema) {
        self.duplicate()
    }
}

/// A named schema, emitted for code generation.
#[derive(Debug, PartialEq)]
pub struct Validator {
    pub name: String,
    pub schema: JsonSchema,
}

/// A minimal example of what a semantic type holds.
#[derive(Debug, PartialEq)]
pub enum Mater {
    Null,
    Bool,
    String,
    StringLiteral(String),
    StringWithFormat(String),
    Number,
    Array { items: Box<Mater>, prefix_items: Vec<Mater> },
    Object(Vec<(String, Mater)>),
    Never,
    Void,
}

/// The first component named `name`.
pub open spec fn first_validator(comps: Seq<Validator>, name: Seq<char>) -> Option<int> {
    if exists|i: int| 0 <= i < comps.len() && comps[i].name@ == name {
        Some(
            choose|i: int|
                0 <= i < comps.len() && comps[i].name@ == name && forall|k: int|
                    0 <= k < i ==> comps[k].name@ != name,
        )
    } else {
        None
    }
}

/// The schema that a chain of references ends in: a `Ref` stands for the first
/// component of its name. `None` where a name has no component or the chain is longer
/// than `fuel`.
pub open spec fn resolved(s: JsonSchema, comps: Seq<Validator>, fuel: nat) -> Option<JsonSchema>
    decreases fuel,
{
    match s {
        JsonSchema::Ref(n) => if fuel == 0 {
            None
        } else {
            match first_validator(comps, n@) {
                Some(i) => resolved(comps[i].schema, comps, (fuel - 1) as nat),
                None => None,
            }
        },
        _ => Some(s),
    }
}

/// Where the first component named `name` stands.
fn find_validator(comps: &Vec<Validator>, name: &String) -> (r: Option<usize>)
    ensures
        r matches Some(i) ==> i < comps.len() && first_validator(comps@, name@) == Some(i as int),
        r is None ==> first_validator(comps@, name@) is None,
{
    let mut i: usize = 0;
    while i < comps.len()
        invariant
            0 <= i <= comps.len(),
            forall|k: int| 0 <= k < i ==> (#[trigger] comps@[k]).name@ != name@,
        decreases comps.len() - i,
    {
        if comps[i].name == *name {
            let ghost j = choose|j: int|
                0 <= j < comps@.len() && comps@[j].name@ == name@ && forall|k: int|
                    0 <= k < j ==> comps@[k].name@ != name@;
            assert(j == i) by {
                if j < i {
                    assert(comps@[j].name@ != name@);
                } else if j > i {
                    assert(comps@[i as int].name@ != name@);
                }
            }
            return Some(i);
        }
        i = i + 1;
    }
    None
}

/// A copy of the schema that the reference `name` ends in; see `resolved`.
fn resolve_reference(name: &String, comps: &Vec<Validator>, fuel: u64) -> (r: Option<JsonSchema>)
    ensures
        match resolved(JsonSchema::Ref(*name), comps@, fuel as nat) {
            Some(t) => r matches Some(u) && same_schema(t, u),
            None => r is None,
        },
    decreases fuel,
{
    if fuel == 0 {
        return None;
    }
    let i = match find_validator(comps, name) {
        Some(i) => i,
        None => {
            return None;
        },
    };
    let ghost target = comps@[i as int].schema;
    assert(resolved(JsonSchema::Ref(*name), comps@, fuel as nat) == resolved(
        target,
        comps@,
        (fuel - 1) as nat,
    ));
    match &comps[i].schema {
        JsonSchema::Ref(next) => resolve_reference(next, comps, fuel - 1),
        other => {
            assert(resolved(target, comps@, (fuel - 1) as nat) == Some(target));
            let u = other.duplicate();
            Some(u)
        },
    }
}

/// The schema that `schema` stands for once its references are followed through the
/// components: the schema itself when it is no reference.
pub fn resolve_schema(schema: JsonSchema, components: &Vec<Validator>, fuel: u64) -> (r: Option<
    JsonSchema,
>)
    ensures
        !(schema is Ref) ==> r == Some(schema),
        schema is Ref ==> match resolved(schema, components@, fuel as nat) {
            Some(t) => r matches Some(u) && same_schema(t, u),
            None => r is None,
        },
{
    match schema {
        JsonSchema::Ref(name) => resolve_reference(&name, components, fuel),
        _ => Some(schema),
    }
}

} // verus!
