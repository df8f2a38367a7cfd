use vstd::prelude::*;
use crate::schema::{
    distinct_fields, insert_field, lemma_same_json_trans, names_field, same_json, same_schema, Json,
    JsonSchema, Optionality,
};
use crate::text::{chars_of, decimal, decimal_digits, string_of};

verus! {

/// Why a JSON value is not a schema.
#[derive(Debug, PartialEq)]
pub enum DecodeError {
    /// The value is not an object, or names no shape this codec knows.
    NotASchema,
    /// A keyword holds a value of the wrong kind.
    BadKeyword(String),
}

pub(crate) fn key(lit: &str) -> (r: String)
    ensures
        r@ == lit@,
{
    lit.to_owned()
}

/// Whether `k` is the keyword `lit`.
fn is_key(k: &String, lit: &str) -> (r: bool)
    ensures
        r == (k@ == lit@),
{
    *k == lit.to_owned()
}

/// The value stored under `name` in an object's entries.
fn lookup<'a>(entries: &'a Vec<(String, Json)>, name: &str) -> (r: Option<&'a Json>)
    ensures
        r matches Some(v) ==> exists|i: int|
            0 <= i < entries.len() && (#[trigger] entries[i]).0@ == name@ && entries[i].1 == *v,
{
    let mut i: usize = 0;
    while i < entries.len()
        invariant
            0 <= i <= entries.len(),
        decreases entries.len() - i,
    {
        if is_key(&entries[i].0, name) {
            return Some(&entries[i].1);
        }
        i = i + 1;
    }
    None
}

pub(crate) fn entry(name: &str, value: Json) -> (r: (String, Json))
    ensures
        r.0@ == name@,
        r.1 == value,
{
    (key(name), value)
}

fn typed(name: &str) -> (r: Vec<(String, Json)>)
    ensures
        r.len() == 1,
        typed_as(r, name@),
{
    let mut v: Vec<(String, Json)> = Vec::new();
    v.push(entry("type", Json::String(key(name))));
    v
}

/// `prefix` followed by `s`.
fn prefixed(prefix: &str, s: &String) -> (r: String)
    ensures
        r@ == prefix@ + s@,
{
    let mut cs = chars_of(prefix);
    let rest = chars_of(s.as_str());
    let ghost start = cs@;
    let mut i: usize = 0;
    while i < rest.len()
        invariant
            0 <= i <= rest.len(),
            cs@ == start + rest@.subrange(0, i as int),
        decreases rest.len() - i,
    {
        cs.push(rest[i]);
        assert(rest@.subrange(0, i + 1) == rest@.subrange(0, i as int).push(rest@[i as int]));
        i = i + 1;
    }
    assert(rest@.subrange(0, rest.len() as int) == rest@);
    string_of(&cs)
}

/// What follows `prefix` in `s`, when `s` starts with it.
fn strip_prefix(s: &String, prefix: &str) -> (r: Option<String>)
    ensures
        r matches Some(rest) ==> s@ == prefix@ + rest@,
        r is None ==> !(prefix@.len() <= s@.len() && s@.subrange(0, prefix@.len() as int)
            == prefix@),
{
    let cs = chars_of(s.as_str());
    let ps = chars_of(prefix);
    if ps.len() > cs.len() {
        return None;
    }
    let mut i: usize = 0;
    while i < ps.len()
        invariant
            0 <= i <= ps.len(),
            ps.len() <= cs.len(),
            cs@ == s@,
            ps@ == prefix@,
            forall|k: int| 0 <= k < i ==> cs@[k] == ps@[k],
        decreases ps.len() - i,
    {
        if cs[i] != ps[i] {
            assert(s@.subrange(0, prefix@.len() as int)[i as int] != prefix@[i as int]);
            return None;
        }
        i = i + 1;
    }
    let mut rest: Vec<char> = Vec::new();
    let mut j: usize = ps.len();
    while j < cs.len()
        invariant
            ps.len() <= j <= cs.len(),
            cs@ == s@,
            ps@ == prefix@,
            forall|k: int| 0 <= k < ps.len() ==> cs@[k] == ps@[k],
            rest@ == cs@.subrange(ps.len() as int, j as int),
        decreases cs.len() - j,
    {
        rest.push(cs[j]);
        assert(cs@.subrange(ps.len() as int, j + 1) == cs@.subrange(ps.len() as int, j as int).push(
            cs@[j as int],
        ));
        j = j + 1;
    }
    assert(cs@ =~= ps@ + rest@);
    Some(string_of(&rest))
}

/// Whether every schema of the union is a constant.
fn all_constants(vs: &Vec<JsonSchema>) -> (r: bool)
    ensures
        r == forall|i: int| 0 <= i < vs.len() ==> (#[trigger] vs[i]) is Const,
{
    let mut i: usize = 0;
    while i < vs.len()
        invariant
            0 <= i <= vs.len(),
            forall|k: int| 0 <= k < i ==> (#[trigger] vs[k]) is Const,
        decreases vs.len() - i,
    {
        match &vs[i] {
            JsonSchema::Const(_) => {},
            _ => {
                return false;
            },
        }
        i = i + 1;
    }
    true
}

/// A value stored in an object is smaller than the object.
proof fn lemma_entry_smaller(j: Json, v: Json)
    requires
        j is Object,
        exists|i: int| 0 <= i < j->Object_0.len() && (#[trigger] j->Object_0[i]).1 == v,
    ensures
        decreases_to!(j => v),
{
    let i = choose|i: int| 0 <= i < j->Object_0.len() && (#[trigger] j->Object_0[i]).1 == v;
    let entries = j->Object_0;
    assert(decreases_to!(j => entries));
    assert(decreases_to!(entries => entries[i]));
    assert(decreases_to!(entries[i] => entries[i].1));
}


/// Whether `j` is the text `t`.
pub open spec fn is_text(j: Json, t: Seq<char>) -> bool {
    j matches Json::String(x) && x@ == t
}

/// Whether the entries begin with `"type": t`.
pub open spec fn typed_as(e: Vec<(String, Json)>, t: Seq<char>) -> bool {
    e.len() >= 1 && e[0].0@ == "type"@ && is_text(e[0].1, t)
}

/// Whether `x` is the name of a required field among the first `n` fields.
pub open spec fn names_required_field(fs: Vec<(String, Optionality<JsonSchema>)>, n: int, x: Json) -> bool {
    exists|k: int| 0 <= k < n && (#[trigger] fs[k]).1 is Required && is_text(x, fs[k].0@)
}

/// Whether `ns` holds the text `t`.
pub open spec fn is_listed(ns: Vec<Json>, t: Seq<char>) -> bool {
    exists|m: int| 0 <= m < ns.len() && is_text(#[trigger] ns[m], t)
}

/// The text of a JSON string, empty for other values.
pub open spec fn json_text(j: Json) -> Seq<char> {
    match j {
        Json::String(x) => x@,
        _ => Seq::empty(),
    }
}

/// The names of the required fields, in field order.
pub open spec fn required_order(fs: Seq<(String, Optionality<JsonSchema>)>) -> Seq<Seq<char>> {
    fs.filter(|f: (String, Optionality<JsonSchema>)| f.1 is Required).map_values(
        |f: (String, Optionality<JsonSchema>)| f.0@,
    )
}

/// Whether `names` lists exactly the names of the required fields.
pub open spec fn lists_required(fs: Vec<(String, Optionality<JsonSchema>)>, names: Json) -> bool {
    names matches Json::Array(ns) && ns@.map_values(|j: Json| json_text(j)) == required_order(fs@) && (forall|m: int|
        0 <= m < ns.len() ==> names_required_field(fs, fs.len() as int, #[trigger] ns[m])) && (
    forall|k: int| 0 <= k < fs.len() && (#[trigger] fs[k]).1 is Required ==> is_listed(ns, fs[k].0@))
}

/// Whether `j` is the JSON Schema document that `to_json` writes for `s`.
pub open spec fn encodes(s: JsonSchema, j: Json) -> bool
    decreases s,
{
    match j {
        Json::Object(e) => match s {
            JsonSchema::Null => e.len() == 1 && typed_as(e, "null"@),
            JsonSchema::Boolean => e.len() == 1 && typed_as(e, "boolean"@),
            JsonSchema::String => e.len() == 1 && typed_as(e, "string"@),
            JsonSchema::Number => e.len() == 1 && typed_as(e, "number"@),
            JsonSchema::Error => e.len() == 1 && typed_as(e, "error"@),
            JsonSchema::StNever => e.len() == 1 && typed_as(e, "never"@),
            JsonSchema::AnyObject => e.len() == 1 && typed_as(e, "object"@),
            JsonSchema::AnyArrayLike => e.len() == 1 && typed_as(e, "array"@),
            JsonSchema::Any => e.len() == 0,
            JsonSchema::StringWithFormat(f) => e.len() == 2 && typed_as(e, "string"@) && e[1].0@
                == "format"@ && is_text(e[1].1, f@),
            JsonSchema::Object(fs) => e.len() == 3 && typed_as(e, "object"@) && e[1].0@
                == "required"@ && lists_required(fs, e[1].1) && e[2].0@ == "properties"@ && (
            e[2].1 matches Json::Object(ps) && ps.len() == fs.len() && forall|i: int|
                0 <= i < fs.len() ==> (#[trigger] ps[i]).0@ == fs[i].0@ && match fs[i].1 {
                    Optionality::Optional(t) => encodes(t, ps[i].1),
                    Optionality::Required(t) => encodes(t, ps[i].1),
                }),
            JsonSchema::Array(x) => e.len() == 2 && typed_as(e, "array"@) && e[1].0@ == "items"@
                && encodes(*x, e[1].1),
            JsonSchema::Tuple { prefix_items, items } => {
                let o: int = if prefix_items.len() > 0 {
                    2
                } else {
                    1
                };
                &&& typed_as(e, "array"@)
                &&& (prefix_items.len() > 0 ==> e.len() >= 2 && e[1].0@ == "prefixItems"@ && (
                e[1].1 matches Json::Array(ps) && ps.len() == prefix_items.len() && forall|i: int|
                    0 <= i < ps.len() ==> encodes(prefix_items[i], #[trigger] ps[i])))
                &&& match items {
                    Some(x) => e.len() == o + 1 && e[o].0@ == "items"@ && encodes(*x, e[o].1),
                    None => e.len() == o + 2 && e[o].0@ == "minItems"@ && e[o + 1].0@
                        == "maxItems"@ && (e[o].1 matches Json::Number(lo) && lo@ == decimal(
                        prefix_items.len() as nat,
                    )) && (e[o + 1].1 matches Json::Number(hi) && hi@ == decimal(
                        prefix_items.len() as nat,
                    )),
                }
            },
            JsonSchema::Ref(n) => e.len() == 1 && e[0].0@ == "$ref"@ && is_text(
                e[0].1,
                "#/components/schemas/"@ + n@,
            ),
            JsonSchema::OpenApiResponseRef(n) => e.len() == 1 && e[0].0@ == "$ref"@ && is_text(
                e[0].1,
                "#/components/responses/"@ + n@,
            ),
            JsonSchema::AnyOf(vs) => e.len() == 1 && if (forall|i: int|
                0 <= i < vs.len() ==> (#[trigger] vs[i]) is Const) {
                e[0].0@ == "enum"@ && (e[0].1 matches Json::Array(cs) && cs.len() == vs.len()
                    && forall|i: int|
                    0 <= i < vs.len() ==> same_json((#[trigger] vs[i])->Const_0, cs[i]))
            } else {
                e[0].0@ == "anyOf"@ && (e[0].1 matches Json::Array(ds) && ds.len() == vs.len()
                    && forall|i: int| 0 <= i < vs.len() ==> encodes(vs[i], #[trigger] ds[i]))
            },
            JsonSchema::AllOf(vs) => e.len() == 1 && e[0].0@ == "allOf"@ && (e[0].1 matches Json::Array(
                ds,
            ) && ds.len() == vs.len() && forall|i: int|
                0 <= i < vs.len() ==> encodes(vs[i], #[trigger] ds[i])),
            JsonSchema::Const(c) => e.len() == 1 && e[0].0@ == "const"@ && same_json(c, e[0].1),
            JsonSchema::StNot(x) => e.len() == 1 && e[0].0@ == "not"@ && encodes(*x, e[0].1),
        },
        _ => false,
    }
}

impl Json {
    /// A JSON number holding the integer `n`.
    pub fn parse_int(n: i64) -> (r: Json)
        ensures
            n >= 0 ==> (r matches Json::Number(t) && t@ == decimal(n as nat)),
            n < 0 ==> (r matches Json::Number(t) && t@ == seq!['-'] + decimal((-n) as nat)),
    {
        if n >= 0 {
            Json::Number(string_of(&decimal_digits(n as u64)))
        } else {
            let magnitude: u64 = if n == i64::MIN {
                9223372036854775808u64
            } else {
                (-n) as u64
            };
            let ds = decimal_digits(magnitude);
            let mut cs: Vec<char> = Vec::new();
            cs.push('-');
            let mut i: usize = 0;
            while i < ds.len()
                invariant
                    0 <= i <= ds.len(),
                    cs@ == seq!['-'] + ds@.subrange(0, i as int),
                decreases ds.len() - i,
            {
                cs.push(ds[i]);
                assert(ds@.subrange(0, i + 1) == ds@.subrange(0, i as int).push(ds@[i as int]));
                i = i + 1;
            }
            assert(ds@.subrange(0, ds.len() as int) == ds@);
            Json::Number(string_of(&cs))
        }
    }

    /// An object of the given entries, one per key: a key given twice keeps its first
    /// position and its last value.
    pub fn object(vs: Vec<(String, Json)>) -> (r: Json)
        ensures
            r matches Json::Object(es) && distinct_fields(es@) && forall|x: Seq<char>|
                #[trigger] names_field(es@, x) == names_field(vs@, x),
    {
        let ghost all = vs@;
        let mut rest = vs;
        let mut out: Vec<(String, Json)> = Vec::new();
        let ghost mut n: int = 0;
        assert(rest@ =~= all.subrange(0, all.len() as int));
        while rest.len() > 0
            invariant
                0 <= n <= all.len(),
                n + rest.len() == all.len(),
                rest@ == all.subrange(n, all.len() as int),
                distinct_fields(out@),
                forall|x: Seq<char>|
                    #[trigger] names_field(out@, x) == names_field(all.subrange(0, n), x),
            decreases rest.len(),
        {
            let (k, v) = rest.remove(0);
            assert(k == all[n].0);
            let ghost before = all.subrange(0, n);
            insert_field(&mut out, k, v);
            proof {
                assert forall|x: Seq<char>|
                    #[trigger] names_field(all.subrange(0, n + 1), x) == (names_field(before, x)
                        || x == all[n].0@) by {
                    let s1 = all.subrange(0, n + 1);
                    if names_field(s1, x) {
                        let i = choose|i: int| 0 <= i < s1.len() && (#[trigger] s1[i]).0@ == x;
                        if i < n {
                            assert(before[i] == s1[i]);
                        }
                    }
                    if names_field(before, x) {
                        let i = choose|i: int| 0 <= i < before.len() && (#[trigger] before[i]).0@ == x;
                        assert(s1[i] == before[i]);
                    }
                    if x == all[n].0@ {
                        assert(s1[n] == all[n]);
                    }
                }
                n = n + 1;
            }
            assert(rest@ =~= all.subrange(n, all.len() as int));
        }
        assert(all.subrange(0, all.len() as int) =~= all);
        Json::Object(out)
    }
}

/// The names of the required fields, in order.
fn required_names(fields: &Vec<(String, Optionality<JsonSchema>)>) -> (r: Vec<Json>)
    ensures
        lists_required(*fields, Json::Array(r)),
{
    let mut required: Vec<Json> = Vec::new();
    let mut i: usize = 0;
    while i < fields.len()
        invariant
            0 <= i <= fields.len(),
            required@.map_values(|j: Json| json_text(j)) == required_order(
                fields@.subrange(0, i as int),
            ),
            forall|m: int|
                0 <= m < required.len() ==> names_required_field(*fields, i as int, #[trigger] required[m]),
            forall|k: int|
                0 <= k < i && (#[trigger] fields[k]).1 is Required ==> is_listed(required, fields[k].0@),
        decreases fields.len() - i,
    {
        let ghost before = required;
        proof {
            let s0 = fields@.subrange(0, i as int);
            let s1 = fields@.subrange(0, i + 1);
            assert(s1.drop_last() =~= s0);
            assert(s1.last() == fields@[i as int]);
            reveal(Seq::filter);
        }
        if fields[i].1.is_required() {
            required.push(Json::String(fields[i].0.clone()));
        }
        proof {
            assert forall|m: int| 0 <= m < required.len() implies names_required_field(
                *fields,
                i + 1,
                #[trigger] required[m],
            ) by {
                if m < before.len() {
                    assert(required[m] == before[m]);
                    let k = choose|k: int|
                        0 <= k < i && (#[trigger] fields[k]).1 is Required && is_text(
                            before[m],
                            fields[k].0@,
                        );
                    assert(0 <= k < i + 1);
                } else {
                    assert(fields[i as int].1 is Required && is_text(required[m], fields[i as int].0@));
                }
            }
            assert forall|k: int| 0 <= k < i + 1 && (#[trigger] fields[k]).1 is Required implies is_listed(
                required,
                fields[k].0@,
            ) by {
                if k < i {
                    let m = choose|m: int| 0 <= m < before.len() && is_text(#[trigger] before[m], fields[k].0@);
                    assert(required[m] == before[m]);
                } else {
                    assert(is_text(required[required.len() - 1], fields[k].0@));
                }
            }
        }
        proof {
            let s0 = fields@.subrange(0, i as int);
            let s1 = fields@.subrange(0, i + 1);
            assert(s1.drop_last() =~= s0);
            reveal(Seq::filter);
            if fields@[i as int].1 is Required {
                assert(required@.map_values(|j: Json| json_text(j)) =~= before@.map_values(
                    |j: Json| json_text(j),
                ).push(fields@[i as int].0@));
            } else {
                assert(required@ == before@);
            }
        }
        i = i + 1;
    }
    assert(fields@.subrange(0, fields.len() as int) =~= fields@);
    required
}

impl JsonSchema {
    /// The JSON Schema document of the schema.
    pub fn to_json(&self) -> (r: Json)
        ensures
            r is Object,
            encodes(*self, r),
        decreases self,
    {
        match self {
            JsonSchema::Null => Json::Object(typed("null")),
            JsonSchema::Boolean => Json::Object(typed("boolean")),
            JsonSchema::String => Json::Object(typed("string")),
            JsonSchema::Number => Json::Object(typed("number")),
            JsonSchema::StringWithFormat(f) => {
                let mut v = typed("string");
                v.push(entry("format", Json::String(f.clone())));
                Json::Object(v)
            },
            JsonSchema::Any => Json::Object(Vec::new()),
            JsonSchema::AnyObject => Json::Object(typed("object")),
            JsonSchema::AnyArrayLike => Json::Object(typed("array")),
            JsonSchema::Object(fields) => {
                let (properties, required) = JsonSchema::fields_to_json(fields);
                let mut v = typed("object");
                v.push(entry("required", Json::Array(required)));
                v.push(entry("properties", Json::Object(properties)));
                Json::Object(v)
            },
            JsonSchema::Array(item) => {
                let mut v = typed("array");
                v.push(entry("items", (**item).to_json()));
                Json::Object(v)
            },
            JsonSchema::Tuple { prefix_items, items } => {
                let mut v = typed("array");
                if prefix_items.len() > 0 {
                    v.push(
                        entry("prefixItems", Json::Array(JsonSchema::all_to_json(prefix_items))),
                    );
                }
                match items {
                    Some(item) => {
                        v.push(entry("items", (**item).to_json()));
                    },
                    None => {
                        let n = string_of(&decimal_digits(prefix_items.len() as u64));
                        v.push(entry("minItems", Json::Number(n.clone())));
                        v.push(entry("maxItems", Json::Number(n)));
                    },
                }
                Json::Object(v)
            },
            JsonSchema::Ref(n) => {
                let mut v: Vec<(String, Json)> = Vec::new();
                v.push(entry("$ref", Json::String(prefixed("#/components/schemas/", n))));
                Json::Object(v)
            },
            JsonSchema::OpenApiResponseRef(n) => {
                let mut v: Vec<(String, Json)> = Vec::new();
                v.push(entry("$ref", Json::String(prefixed("#/components/responses/", n))));
                Json::Object(v)
            },
            JsonSchema::AnyOf(vs) => {
                let mut v: Vec<(String, Json)> = Vec::new();
                if all_constants(vs) {
                    let mut values: Vec<Json> = Vec::new();
                    let mut i: usize = 0;
                    while i < vs.len()
                        invariant
                            0 <= i <= vs.len(),
                            values.len() == i,
                            forall|k: int| 0 <= k < vs.len() ==> (#[trigger] vs[k]) is Const,
                            forall|k: int|
                                0 <= k < i ==> same_json((#[trigger] vs[k])->Const_0, values[k]),
                        decreases vs.len() - i,
                    {
                        match &vs[i] {
                            JsonSchema::Const(c) => {
                                values.push(c.duplicate());
                            },
                            _ => {
                                assert(vs[i as int] is Const);
                            },
                        }
                        i = i + 1;
                    }
                    v.push(entry("enum", Json::Array(values)));
                } else {
                    v.push(entry("anyOf", Json::Array(JsonSchema::all_to_json(vs))));
                }
                Json::Object(v)
            },
            JsonSchema::AllOf(vs) => {
                let mut v: Vec<(String, Json)> = Vec::new();
                v.push(entry("allOf", Json::Array(JsonSchema::all_to_json(vs))));
                Json::Object(v)
            },
            JsonSchema::Const(j) => {
                let mut v: Vec<(String, Json)> = Vec::new();
                v.push(entry("const", j.duplicate()));
                Json::Object(v)
            },
            JsonSchema::Error => Json::Object(typed("error")),
            JsonSchema::StNever => Json::Object(typed("never")),
            JsonSchema::StNot(inner) => {
                let mut v: Vec<(String, Json)> = Vec::new();
                v.push(entry("not", (**inner).to_json()));
                Json::Object(v)
            },
        }
    }

    /// The documents of each schema.
    fn all_to_json(vs: &Vec<JsonSchema>) -> (r: Vec<Json>)
        ensures
            r.len() == vs.len(),
            forall|i: int| 0 <= i < vs.len() ==> encodes(vs[i], #[trigger] r[i]),
        decreases vs,
    {
        let mut out: Vec<Json> = Vec::new();
        let mut i: usize = 0;
        while i < vs.len()
            invariant
                0 <= i <= vs.len(),
                out.len() == i,
                forall|k: int| 0 <= k < i ==> encodes(vs[k], #[trigger] out[k]),
            decreases vs.len() - i,
        {
            proof {
                assert(decreases_to!(vs => vs[i as int]));
            }
            out.push(vs[i].to_json());
            i = i + 1;
        }
        out
    }

    /// The `properties` entries and the `required` names of an object schema.
    fn fields_to_json(fields: &Vec<(String, Optionality<JsonSchema>)>) -> (r: (
        Vec<(String, Json)>,
        Vec<Json>,
    ))
        ensures
            r.0.len() == fields.len(),
            forall|i: int|
                0 <= i < fields.len() ==> (#[trigger] r.0[i]).0@ == fields[i].0@ && match fields[i].1 {
                    Optionality::Optional(t) => encodes(t, r.0[i].1),
                    Optionality::Required(t) => encodes(t, r.0[i].1),
                },
            lists_required(*fields, Json::Array(r.1)),
        decreases fields,
    {
        let mut properties: Vec<(String, Json)> = Vec::new();
        let mut i: usize = 0;
        while i < fields.len()
            invariant
                0 <= i <= fields.len(),
                properties.len() == i,
                forall|k: int|
                    0 <= k < i ==> (#[trigger] properties[k]).0@ == fields[k].0@ && match fields[k].1 {
                        Optionality::Optional(t) => encodes(t, properties[k].1),
                        Optionality::Required(t) => encodes(t, properties[k].1),
                    },
            decreases fields.len() - i,
        {
            proof {
                assert(decreases_to!(fields => fields[i as int]));
                assert(decreases_to!(fields[i as int] => fields[i as int].1));
            }
            let (name, v) = &fields[i];
            let doc = match v {
                Optionality::Required(t) => t.to_json(),
                Optionality::Optional(t) => t.to_json(),
            };
            properties.push((name.clone(), doc));
            i = i + 1;
        }
        (properties, required_names(fields))
    }
}

/// Whether the schema's document tells its shape apart: its object fields have
/// distinct names, and no tuple has an empty prefix with a rest (such a tuple is
/// written as an array).
pub open spec fn codec_wf(s: JsonSchema) -> bool
    decreases s,
{
    match s {
        JsonSchema::Object(fs) => (forall|i: int, k: int|
            0 <= i < fs.len() && 0 <= k < fs.len() && i != k ==> (#[trigger] fs[i]).0@ != (
            #[trigger] fs[k]).0@) && forall|i: int|
            0 <= i < fs.len() ==> match (#[trigger] fs[i]).1 {
                Optionality::Optional(t) => codec_wf(t),
                Optionality::Required(t) => codec_wf(t),
            },
        JsonSchema::Array(x) => codec_wf(*x),
        JsonSchema::Tuple { prefix_items, items } => !(prefix_items.len() == 0 && items is Some)
            && (forall|i: int| 0 <= i < prefix_items.len() ==> codec_wf(#[trigger] prefix_items[i]))
            && match items {
            Some(x) => codec_wf(*x),
            None => true,
        },
        JsonSchema::AnyOf(vs) => forall|i: int| 0 <= i < vs.len() ==> codec_wf(#[trigger] vs[i]),
        JsonSchema::AllOf(vs) => forall|i: int| 0 <= i < vs.len() ==> codec_wf(#[trigger] vs[i]),
        JsonSchema::StNot(x) => codec_wf(*x),
        _ => true,
    }
}

/// Whether some schema that the codec tells apart is written as `j`.
pub open spec fn decodable(j: Json) -> bool {
    exists|s: JsonSchema| #[trigger] encodes(s, j) && codec_wf(s)
}

/// Whether `t` is the same as every schema that the codec tells apart and that is
/// written as `j`.
pub open spec fn decodes_well(j: Json, t: JsonSchema) -> bool {
    forall|s: JsonSchema| #[trigger] encodes(s, j) && codec_wf(s) ==> same_schema(s, t)
}

/// Whether `j` is a text that begins with `p`.
pub open spec fn text_starts(j: Json, p: Seq<char>) -> bool {
    j matches Json::String(x) && p.len() <= x@.len() && x@.subrange(0, p.len() as int) == p
}

/// Which shape of schema a document is written for, read from its keywords.
pub open spec fn kind_of_json(j: Json) -> int {
    match j {
        Json::Object(e) => if e.len() == 0 {
            1
        } else if e[0].0@ == "$ref"@ {
            if text_starts(e[0].1, "#/components/schemas/"@) {
                2
            } else {
                3
            }
        } else if e[0].0@ == "enum"@ {
            4
        } else if e[0].0@ == "anyOf"@ {
            5
        } else if e[0].0@ == "allOf"@ {
            6
        } else if e[0].0@ == "const"@ {
            7
        } else if e[0].0@ == "not"@ {
            8
        } else if e[0].0@ == "type"@ {
            if is_text(e[0].1, "null"@) {
                10
            } else if is_text(e[0].1, "boolean"@) {
                11
            } else if is_text(e[0].1, "number"@) {
                12
            } else if is_text(e[0].1, "error"@) {
                13
            } else if is_text(e[0].1, "never"@) {
                14
            } else if is_text(e[0].1, "string"@) {
                if e.len() >= 2 && e[1].0@ == "format"@ {
                    16
                } else {
                    15
                }
            } else if is_text(e[0].1, "object"@) {
                if e.len() >= 3 && e[1].0@ == "required"@ && e[2].0@ == "properties"@ {
                    18
                } else {
                    17
                }
            } else if is_text(e[0].1, "array"@) {
                let has_prefix = e.len() >= 2 && e[1].0@ == "prefixItems"@;
                let o: int = if has_prefix {
                    2
                } else {
                    1
                };
                let closed = e.len() > o && e[o].0@ == "minItems"@;
                let has_items = e.len() > o && e[o].0@ == "items"@;
                if !has_prefix && !closed {
                    if has_items {
                        20
                    } else {
                        19
                    }
                } else {
                    21
                }
            } else {
                0
            }
        } else {
            0
        },
        _ => 0,
    }
}

/// Which shape a schema has, as `kind_of_json` reads it back.
pub open spec fn kind_of_schema(s: JsonSchema) -> int {
    match s {
        JsonSchema::Any => 1,
        JsonSchema::Ref(_) => 2,
        JsonSchema::OpenApiResponseRef(_) => 3,
        JsonSchema::AnyOf(vs) => if (forall|i: int| 0 <= i < vs.len() ==> (#[trigger] vs[i]) is Const) {
            4
        } else {
            5
        },
        JsonSchema::AllOf(_) => 6,
        JsonSchema::Const(_) => 7,
        JsonSchema::StNot(_) => 8,
        JsonSchema::Null => 10,
        JsonSchema::Boolean => 11,
        JsonSchema::Number => 12,
        JsonSchema::Error => 13,
        JsonSchema::StNever => 14,
        JsonSchema::String => 15,
        JsonSchema::StringWithFormat(_) => 16,
        JsonSchema::AnyObject => 17,
        JsonSchema::Object(_) => 18,
        JsonSchema::AnyArrayLike => 19,
        JsonSchema::Array(_) => 20,
        JsonSchema::Tuple { .. } => 21,
    }
}

/// The keywords of the format differ from one another.
proof fn lemma_keywords()
    ensures
        "$ref"@ != "enum"@,
        "$ref"@ != "anyOf"@,
        "$ref"@ != "allOf"@,
        "$ref"@ != "const"@,
        "$ref"@ != "not"@,
        "$ref"@ != "type"@,
        "enum"@ != "anyOf"@,
        "enum"@ != "allOf"@,
        "enum"@ != "const"@,
        "enum"@ != "not"@,
        "enum"@ != "type"@,
        "anyOf"@ != "allOf"@,
        "anyOf"@ != "const"@,
        "anyOf"@ != "not"@,
        "anyOf"@ != "type"@,
        "allOf"@ != "const"@,
        "allOf"@ != "not"@,
        "allOf"@ != "type"@,
        "const"@ != "not"@,
        "const"@ != "type"@,
        "not"@ != "type"@,
        "null"@ != "boolean"@,
        "null"@ != "number"@,
        "null"@ != "error"@,
        "null"@ != "never"@,
        "null"@ != "string"@,
        "null"@ != "object"@,
        "null"@ != "array"@,
        "boolean"@ != "number"@,
        "boolean"@ != "error"@,
        "boolean"@ != "never"@,
        "boolean"@ != "string"@,
        "boolean"@ != "object"@,
        "boolean"@ != "array"@,
        "number"@ != "error"@,
        "number"@ != "never"@,
        "number"@ != "string"@,
        "number"@ != "object"@,
        "number"@ != "array"@,
        "error"@ != "never"@,
        "error"@ != "string"@,
        "error"@ != "object"@,
        "error"@ != "array"@,
        "never"@ != "string"@,
        "never"@ != "object"@,
        "never"@ != "array"@,
        "string"@ != "object"@,
        "string"@ != "array"@,
        "object"@ != "array"@,
        "prefixItems"@ != "items"@,
        "prefixItems"@ != "minItems"@,
        "prefixItems"@ != "maxItems"@,
        "items"@ != "minItems"@,
        "items"@ != "maxItems"@,
        "minItems"@ != "maxItems"@,
        "format"@ != "type"@,
        "required"@ != "properties"@,
        "required"@ != "type"@,
        "properties"@ != "type"@,
{
    reveal_strlit("$ref");
    reveal_strlit("allOf");
    reveal_strlit("anyOf");
    reveal_strlit("array");
    reveal_strlit("boolean");
    reveal_strlit("const");
    reveal_strlit("enum");
    reveal_strlit("error");
    reveal_strlit("format");
    reveal_strlit("items");
    reveal_strlit("maxItems");
    reveal_strlit("minItems");
    reveal_strlit("never");
    reveal_strlit("not");
    reveal_strlit("null");
    reveal_strlit("number");
    reveal_strlit("object");
    reveal_strlit("prefixItems");
    reveal_strlit("properties");
    reveal_strlit("required");
    reveal_strlit("string");
    reveal_strlit("type");
    assert("$ref"@[0] != "enum"@[0]);
    assert("$ref"@.len() != "anyOf"@.len());
    assert("$ref"@.len() != "allOf"@.len());
    assert("$ref"@.len() != "const"@.len());
    assert("$ref"@.len() != "not"@.len());
    assert("$ref"@[0] != "type"@[0]);
    assert("enum"@.len() != "anyOf"@.len());
    assert("enum"@.len() != "allOf"@.len());
    assert("enum"@.len() != "const"@.len());
    assert("enum"@.len() != "not"@.len());
    assert("enum"@[0] != "type"@[0]);
    assert("anyOf"@[1] != "allOf"@[1]);
    assert("anyOf"@[0] != "const"@[0]);
    assert("anyOf"@.len() != "not"@.len());
    assert("anyOf"@.len() != "type"@.len());
    assert("allOf"@[0] != "const"@[0]);
    assert("allOf"@.len() != "not"@.len());
    assert("allOf"@.len() != "type"@.len());
    assert("const"@.len() != "not"@.len());
    assert("const"@.len() != "type"@.len());
    assert("not"@.len() != "type"@.len());
    assert("null"@.len() != "boolean"@.len());
    assert("null"@.len() != "number"@.len());
    assert("null"@.len() != "error"@.len());
    assert("null"@.len() != "never"@.len());
    assert("null"@.len() != "string"@.len());
    assert("null"@.len() != "object"@.len());
    assert("null"@.len() != "array"@.len());
    assert("boolean"@.len() != "number"@.len());
    assert("boolean"@.len() != "error"@.len());
    assert("boolean"@.len() != "never"@.len());
    assert("boolean"@.len() != "string"@.len());
    assert("boolean"@.len() != "object"@.len());
    assert("boolean"@.len() != "array"@.len());
    assert("number"@.len() != "error"@.len());
    assert("number"@.len() != "never"@.len());
    assert("number"@[0] != "string"@[0]);
    assert("number"@[0] != "object"@[0]);
    assert("number"@.len() != "array"@.len());
    assert("error"@[0] != "never"@[0]);
    assert("error"@.len() != "string"@.len());
    assert("error"@.len() != "object"@.len());
    assert("error"@[0] != "array"@[0]);
    assert("never"@.len() != "string"@.len());
    assert("never"@.len() != "object"@.len());
    assert("never"@[0] != "array"@[0]);
    assert("string"@[0] != "object"@[0]);
    assert("string"@.len() != "array"@.len());
    assert("object"@.len() != "array"@.len());
    assert("prefixItems"@.len() != "items"@.len());
    assert("prefixItems"@.len() != "minItems"@.len());
    assert("prefixItems"@.len() != "maxItems"@.len());
    assert("items"@.len() != "minItems"@.len());
    assert("items"@.len() != "maxItems"@.len());
    assert("minItems"@[1] != "maxItems"@[1]);
    assert("format"@.len() != "type"@.len());
    assert("required"@.len() != "properties"@.len());
    assert("required"@.len() != "type"@.len());
    assert("properties"@.len() != "type"@.len());
}

/// A document is read back as the shape it was written for.
proof fn lemma_encodes_kind(s: JsonSchema, j: Json)
    requires
        encodes(s, j),
        codec_wf(s),
    ensures
        kind_of_json(j) == kind_of_schema(s),
{
    lemma_keywords();
    match s {
        JsonSchema::Ref(n) => {
            let x = j->Object_0[0].1->String_0;
            assert(x@ == "#/components/schemas/"@ + n@);
            assert(x@.subrange(0, "#/components/schemas/"@.len() as int) =~= "#/components/schemas/"@);
            assert(text_starts(j->Object_0[0].1, "#/components/schemas/"@));
        },
        JsonSchema::OpenApiResponseRef(n) => {
            let x = j->Object_0[0].1->String_0;
            reveal_strlit("#/components/schemas/");
            reveal_strlit("#/components/responses/");
            assert(x@[13] == 'r');
            assert(!text_starts(j->Object_0[0].1, "#/components/schemas/"@)) by {
                if text_starts(j->Object_0[0].1, "#/components/schemas/"@) {
                    assert(x@.subrange(0, 21)[13] == "#/components/schemas/"@[13]);
                }
            }
        },
        _ => {},
    }
}

/// Where the keywords of an array document stand, for the array and tuple shapes.
proof fn lemma_array_layout(s: JsonSchema, j: Json)
    requires
        encodes(s, j),
        codec_wf(s),
    ensures
        ({
            let e = j->Object_0;
            let has_prefix = e.len() >= 2 && e[1].0@ == "prefixItems"@;
            let o: int = if has_prefix {
                2
            } else {
                1
            };
            &&& s matches JsonSchema::Array(x) ==> !has_prefix && e.len() == 2 && e[1].0@
                == "items"@ && encodes(*x, e[1].1) && codec_wf(*x)
            &&& s is Tuple ==> {
                &&& (s->prefix_items.len() > 0 <==> has_prefix)
                &&& (has_prefix ==> (e[1].1 matches Json::Array(ps) && ps.len()
                    == s->prefix_items.len() && forall|k: int|
                    0 <= k < ps.len() ==> encodes(s->prefix_items[k], #[trigger] ps[k])
                        && codec_wf(s->prefix_items[k])))
                &&& (s->items is Some <==> (e.len() > o && e[o].0@ == "items"@))
                &&& (s->items matches Some(x) ==> encodes(*x, e[o].1) && codec_wf(*x))
                &&& (s->items is None ==> e.len() > o && e[o].0@ == "minItems"@)
            }
        }),
{
    lemma_keywords();
}

/// The text after a prefix is what was joined to it.
proof fn lemma_after_prefix(p: Seq<char>, a: Seq<char>, b: Seq<char>)
    requires
        p + a == p + b,
    ensures
        a == b,
{
    assert(a =~= (p + a).subrange(p.len() as int, (p + a).len() as int));
    assert(b =~= (p + b).subrange(p.len() as int, (p + b).len() as int));
}

impl JsonSchema {
    /// The schema of a `$ref` document: a component schema or a component response.
    fn ref_from_json(j: &Json) -> (r: Result<JsonSchema, DecodeError>)
        requires
            kind_of_json(*j) == 2 || kind_of_json(*j) == 3,
        ensures
            decodable(*j) ==> r is Ok,
            r matches Ok(t) ==> decodes_well(*j, t),
    {
        let ghost e = j->Object_0;
        let target = match j {
            Json::Object(e) => match &e[0].1 {
                Json::String(n) => n,
                _ => {
                    assert(!text_starts(e[0].1, "#/components/schemas/"@));
                    assert forall|s: JsonSchema| #[trigger] encodes(s, *j) && codec_wf(s) implies false by {
                        lemma_encodes_kind(s, *j);
                    }
                    return Err(DecodeError::BadKeyword(key("$ref")));
                },
            },
            _ => {
                return Err(DecodeError::NotASchema);
            },
        };
        if let Some(n) = strip_prefix(target, "#/components/schemas/") {
            assert(text_starts(e[0].1, "#/components/schemas/"@)) by {
                assert(target@.subrange(0, "#/components/schemas/"@.len() as int) =~= "#/components/schemas/"@);
            }
            assert forall|s: JsonSchema| #[trigger] encodes(s, *j) && codec_wf(s) implies same_schema(
                s,
                JsonSchema::Ref(n),
            ) by {
                lemma_encodes_kind(s, *j);
                if let JsonSchema::Ref(m) = s {
                    lemma_after_prefix("#/components/schemas/"@, m@, n@);
                }
            }
            return Ok(JsonSchema::Ref(n));
        }
        if let Some(n) = strip_prefix(target, "#/components/responses/") {
            assert forall|s: JsonSchema| #[trigger] encodes(s, *j) && codec_wf(s) implies same_schema(
                s,
                JsonSchema::OpenApiResponseRef(n),
            ) by {
                lemma_encodes_kind(s, *j);
                if let JsonSchema::OpenApiResponseRef(m) = s {
                    lemma_after_prefix("#/components/responses/"@, m@, n@);
                }
            }
            return Ok(JsonSchema::OpenApiResponseRef(n));
        }
        assert forall|s: JsonSchema| #[trigger] encodes(s, *j) && codec_wf(s) implies false by {
            lemma_encodes_kind(s, *j);
            if let JsonSchema::OpenApiResponseRef(m) = s {
                assert(target@.subrange(0, "#/components/responses/"@.len() as int) =~= "#/components/responses/"@);
            }
        }
        Err(DecodeError::BadKeyword(key("$ref")))
    }

    /// The schema that a JSON Schema document written by `to_json` describes; the
    /// keywords are read in the order `to_json` writes them.
    pub fn from_json(j: &Json) -> (r: Result<JsonSchema, DecodeError>)
        ensures
            decodable(*j) ==> r is Ok,
            r matches Ok(t) ==> decodes_well(*j, t),
        decreases j, 2nat,
    {
        let e = match j {
            Json::Object(e) => e,
            _ => {
                return Err(DecodeError::NotASchema);
            },
        };
        proof {
            lemma_keywords();
        }
        if e.len() == 0 {
            assert forall|s: JsonSchema| #[trigger] encodes(s, *j) && codec_wf(s) implies same_schema(
                s,
                JsonSchema::Any,
            ) by {
                lemma_encodes_kind(s, *j);
            }
            return Ok(JsonSchema::Any);
        }
        let k0 = &e[0].0;
        let v0 = &e[0].1;
        proof {
            assert(e[0].1 == *v0);
            lemma_entry_smaller(*j, *v0);
        }
        if is_key(k0, "$ref") {
            return JsonSchema::ref_from_json(j);
        }
        if is_key(k0, "enum") {
            let values = match v0 {
                Json::Array(values) => values,
                _ => {
                    assert forall|s: JsonSchema| #[trigger] encodes(s, *j) && codec_wf(s) implies false by {
                        lemma_encodes_kind(s, *j);
                    }
                    return Err(DecodeError::BadKeyword(key("enum")));
                },
            };
            let mut out: Vec<JsonSchema> = Vec::new();
            let mut i: usize = 0;
            while i < values.len()
                invariant
                    0 <= i <= values.len(),
                    out.len() == i,
                    forall|k: int|
                        0 <= k < i ==> ((#[trigger] out[k]) matches JsonSchema::Const(d) && same_json(
                            values[k],
                            d,
                        )),
                decreases values.len() - i,
            {
                out.push(JsonSchema::Const(values[i].duplicate()));
                i = i + 1;
            }
            assert forall|s: JsonSchema| #[trigger] encodes(s, *j) && codec_wf(s) implies same_schema(
                s,
                JsonSchema::AnyOf(out),
            ) by {
                lemma_encodes_kind(s, *j);
                let vs = s->AnyOf_0;
                assert forall|k: int| 0 <= k < vs.len() implies same_schema(#[trigger] vs[k], out[k]) by {
                    assert(vs[k] is Const);
                    lemma_same_json_trans(vs[k]->Const_0, values[k], out[k]->Const_0);
                }
            }
            return Ok(JsonSchema::AnyOf(out));
        }
        if is_key(k0, "anyOf") || is_key(k0, "allOf") {
            let is_any = is_key(k0, "anyOf");
            let docs = match v0 {
                Json::Array(docs) => docs,
                _ => {
                    assert forall|s: JsonSchema| #[trigger] encodes(s, *j) && codec_wf(s) implies false by {
                        lemma_encodes_kind(s, *j);
                    }
                    return Err(DecodeError::BadKeyword(key("anyOf")));
                },
            };
            proof {
                assert(decreases_to!(*v0 => v0->Array_0));
                if decodable(*j) {
                    let s = choose|s: JsonSchema| #[trigger] encodes(s, *j) && codec_wf(s);
                    lemma_encodes_kind(s, *j);
                    let vs = if s is AnyOf { s->AnyOf_0 } else { s->AllOf_0 };
                    assert forall|k: int| 0 <= k < docs.len() implies decodable(#[trigger] docs[k]) by {
                        assert(encodes(vs[k], docs[k]) && codec_wf(vs[k]));
                    }
                }
            }
            let parts = JsonSchema::all_from_json(docs)?;
            let t = if is_any {
                JsonSchema::AnyOf(parts)
            } else {
                JsonSchema::AllOf(parts)
            };
            assert forall|s: JsonSchema| #[trigger] encodes(s, *j) && codec_wf(s) implies same_schema(
                s,
                t,
            ) by {
                lemma_encodes_kind(s, *j);
                let vs = if s is AnyOf { s->AnyOf_0 } else { s->AllOf_0 };
                assert forall|k: int| 0 <= k < vs.len() implies same_schema(#[trigger] vs[k], parts[k]) by {
                    assert(encodes(vs[k], docs[k]) && codec_wf(vs[k]));
                }
            }
            return Ok(t);
        }
        if is_key(k0, "const") {
            let d = v0.duplicate();
            assert forall|s: JsonSchema| #[trigger] encodes(s, *j) && codec_wf(s) implies same_schema(
                s,
                JsonSchema::Const(d),
            ) by {
                lemma_encodes_kind(s, *j);
                lemma_same_json_trans(s->Const_0, *v0, d);
            }
            return Ok(JsonSchema::Const(d));
        }
        if is_key(k0, "not") {
            proof {
                if decodable(*j) {
                    let s = choose|s: JsonSchema| #[trigger] encodes(s, *j) && codec_wf(s);
                    lemma_encodes_kind(s, *j);
                    assert(encodes(*s->StNot_0, *v0) && codec_wf(*s->StNot_0));
                }
            }
            let inner = JsonSchema::from_json(v0)?;
            assert forall|s: JsonSchema| #[trigger] encodes(s, *j) && codec_wf(s) implies same_schema(
                s,
                JsonSchema::StNot(Box::new(inner)),
            ) by {
                lemma_encodes_kind(s, *j);
                assert(encodes(*s->StNot_0, *v0) && codec_wf(*s->StNot_0));
            }
            return Ok(JsonSchema::StNot(Box::new(inner)));
        }
        if !is_key(k0, "type") {
            assert forall|s: JsonSchema| #[trigger] encodes(s, *j) && codec_wf(s) implies false by {
                lemma_encodes_kind(s, *j);
            }
            return Err(DecodeError::NotASchema);
        }
        JsonSchema::typed_from_json(j)
    }

    /// The schema of a document that begins with a `type` keyword.
    fn typed_from_json(j: &Json) -> (r: Result<JsonSchema, DecodeError>)
        requires
            j is Object,
            j->Object_0.len() > 0,
            j->Object_0[0].0@ == "type"@,
        ensures
            decodable(*j) ==> r is Ok,
            r matches Ok(t) ==> decodes_well(*j, t),
        decreases j, 1nat,
    {
        let e = match j {
            Json::Object(e) => e,
            _ => {
                return Err(DecodeError::NotASchema);
            },
        };
        proof {
            lemma_keywords();
        }
        let t = match &e[0].1 {
            Json::String(t) => t,
            _ => {
                assert forall|s: JsonSchema| #[trigger] encodes(s, *j) && codec_wf(s) implies false by {
                    lemma_encodes_kind(s, *j);
                }
                return Err(DecodeError::NotASchema);
            },
        };
        let leaf = if is_key(t, "null") {
            Some(JsonSchema::Null)
        } else if is_key(t, "boolean") {
            Some(JsonSchema::Boolean)
        } else if is_key(t, "number") {
            Some(JsonSchema::Number)
        } else if is_key(t, "error") {
            Some(JsonSchema::Error)
        } else if is_key(t, "never") {
            Some(JsonSchema::StNever)
        } else {
            None
        };
        if let Some(l) = leaf {
            assert forall|s: JsonSchema| #[trigger] encodes(s, *j) && codec_wf(s) implies same_schema(
                s,
                l,
            ) by {
                lemma_encodes_kind(s, *j);
            }
            return Ok(l);
        }
        if is_key(t, "string") {
            if e.len() >= 2 && is_key(&e[1].0, "format") {
                return match &e[1].1 {
                    Json::String(f) => {
                        let g = f.clone();
                        assert forall|s: JsonSchema| #[trigger] encodes(s, *j) && codec_wf(s) implies same_schema(
                            s,
                            JsonSchema::StringWithFormat(g),
                        ) by {
                            lemma_encodes_kind(s, *j);
                        }
                        Ok(JsonSchema::StringWithFormat(g))
                    },
                    _ => {
                        assert forall|s: JsonSchema| #[trigger] encodes(s, *j) && codec_wf(s) implies false by {
                            lemma_encodes_kind(s, *j);
                        }
                        Err(DecodeError::BadKeyword(key("format")))
                    },
                };
            }
            assert forall|s: JsonSchema| #[trigger] encodes(s, *j) && codec_wf(s) implies same_schema(
                s,
                JsonSchema::String,
            ) by {
                lemma_encodes_kind(s, *j);
            }
            return Ok(JsonSchema::String);
        }
        if is_key(t, "object") {
            return JsonSchema::object_from_json(j);
        }
        if is_key(t, "array") {
            return JsonSchema::array_from_json(j);
        }
        assert forall|s: JsonSchema| #[trigger] encodes(s, *j) && codec_wf(s) implies false by {
            lemma_encodes_kind(s, *j);
        }
        Err(DecodeError::NotASchema)
    }

    /// The schema of a document of `type` `object`.
    fn object_from_json(j: &Json) -> (r: Result<JsonSchema, DecodeError>)
        requires
            kind_of_json(*j) == 17 || kind_of_json(*j) == 18,
        ensures
            decodable(*j) ==> r is Ok,
            r matches Ok(t) ==> decodes_well(*j, t),
        decreases j, 0nat,
    {
        let e = match j {
            Json::Object(e) => e,
            _ => {
                return Err(DecodeError::NotASchema);
            },
        };
        if !(e.len() >= 3 && is_key(&e[1].0, "required") && is_key(&e[2].0, "properties")) {
            assert forall|s: JsonSchema| #[trigger] encodes(s, *j) && codec_wf(s) implies same_schema(
                s,
                JsonSchema::AnyObject,
            ) by {
                lemma_encodes_kind(s, *j);
            }
            return Ok(JsonSchema::AnyObject);
        }
        let (names, props) = match (&e[1].1, &e[2].1) {
            (Json::Array(names), Json::Object(props)) => (names, props),
            _ => {
                assert forall|s: JsonSchema| #[trigger] encodes(s, *j) && codec_wf(s) implies false by {
                    lemma_encodes_kind(s, *j);
                }
                return Err(DecodeError::BadKeyword(key("properties")));
            },
        };
        proof {
            assert(e[2].1 == Json::Object(*props));
            lemma_entry_smaller(*j, e[2].1);
            assert(decreases_to!(e[2].1 => *props));
            if decodable(*j) {
                let s = choose|s: JsonSchema| #[trigger] encodes(s, *j) && codec_wf(s);
                lemma_encodes_kind(s, *j);
                let fs = s->Object_0;
                assert forall|k: int| 0 <= k < props.len() implies decodable(#[trigger] props[k].1) by {
                    match fs[k].1 {
                        Optionality::Optional(x) => {
                            assert(encodes(x, props[k].1) && codec_wf(x));
                        },
                        Optionality::Required(x) => {
                            assert(encodes(x, props[k].1) && codec_wf(x));
                        },
                    }
                }
            }
        }
        let fields = JsonSchema::fields_from_json(props, names)?;
        assert forall|s: JsonSchema| #[trigger] encodes(s, *j) && codec_wf(s) implies same_schema(
            s,
            JsonSchema::Object(fields),
        ) by {
            lemma_encodes_kind(s, *j);
            let fs = s->Object_0;
            assert forall|i: int| 0 <= i < fs.len() implies (#[trigger] fs[i]).0@ == fields[i].0@ && match (
                fs[i].1,
                fields[i].1,
            ) {
                (Optionality::Optional(x), Optionality::Optional(y)) => same_schema(x, y),
                (Optionality::Required(x), Optionality::Required(y)) => same_schema(x, y),
                _ => false,
            } by {
                if fields[i].1 is Required {
                    let m = choose|m: int| 0 <= m < names.len() && is_text(#[trigger] names[m], props[i].0@);
                    assert(names_required_field(fs, fs.len() as int, names[m]));
                    let k = choose|k: int|
                        0 <= k < fs.len() && (#[trigger] fs[k]).1 is Required && is_text(
                            names[m],
                            fs[k].0@,
                        );
                    assert(fs[k].0@ == fs[i].0@);
                    assert(k == i);
                }
                if fs[i].1 is Required {
                    assert(is_listed(*names, fs[i].0@));
                }
                match fs[i].1 {
                    Optionality::Optional(x) => {
                        assert(encodes(x, props[i].1) && codec_wf(x));
                    },
                    Optionality::Required(x) => {
                        assert(encodes(x, props[i].1) && codec_wf(x));
                    },
                }
            }
        }
        Ok(JsonSchema::Object(fields))
    }

    /// The schema of a document of `type` `array`: an array when it has no prefix and
    /// no length bound, else a tuple.
    fn array_from_json(j: &Json) -> (r: Result<JsonSchema, DecodeError>)
        requires
            kind_of_json(*j) == 19 || kind_of_json(*j) == 20 || kind_of_json(*j) == 21,
        ensures
            decodable(*j) ==> r is Ok,
            r matches Ok(t) ==> decodes_well(*j, t),
        decreases j, 0nat,
    {
        let e = match j {
            Json::Object(e) => e,
            _ => {
                return Err(DecodeError::NotASchema);
            },
        };
        proof {
            lemma_keywords();
        }
        let has_prefix = e.len() >= 2 && is_key(&e[1].0, "prefixItems");
        let o: usize = if has_prefix {
            2
        } else {
            1
        };
        let closed = e.len() > o && is_key(&e[o].0, "minItems");
        let has_items = e.len() > o && is_key(&e[o].0, "items");
        let mut prefix_items: Vec<JsonSchema> = Vec::new();
        if has_prefix {
            let ps = match &e[1].1 {
                Json::Array(ps) => ps,
                _ => {
                    assert forall|s: JsonSchema| #[trigger] encodes(s, *j) && codec_wf(s) implies false by {
                        lemma_encodes_kind(s, *j);
                        lemma_array_layout(s, *j);
                    }
                    return Err(DecodeError::BadKeyword(key("prefixItems")));
                },
            };
            proof {
                lemma_entry_smaller(*j, e[1].1);
                assert(decreases_to!(e[1].1 => *ps));
                if decodable(*j) {
                    let w = choose|s: JsonSchema| #[trigger] encodes(s, *j) && codec_wf(s);
                    lemma_encodes_kind(w, *j);
                    lemma_array_layout(w, *j);
                    let q = w->prefix_items;
                    assert forall|k: int| 0 <= k < ps.len() implies decodable(#[trigger] ps[k]) by {
                        assert(encodes(q[k], ps[k]) && codec_wf(q[k]));
                    }
                }
            }
            prefix_items = JsonSchema::all_from_json(ps)?;
            assert(forall|k: int| 0 <= k < ps.len() ==> decodes_well(#[trigger] ps[k], prefix_items[k]));
        }
        let mut items: Option<Box<JsonSchema>> = None;
        if has_items {
            proof {
                lemma_entry_smaller(*j, e[o as int].1);
                if decodable(*j) {
                    let w = choose|s: JsonSchema| #[trigger] encodes(s, *j) && codec_wf(s);
                    lemma_encodes_kind(w, *j);
                    lemma_array_layout(w, *j);
                }
            }
            let inner = JsonSchema::from_json(&e[o].1)?;
            assert(decodes_well(e[o as int].1, inner));
            items = Some(Box::new(inner));
        }
        let ghost pi = prefix_items;
        let ghost it = items;
        if !has_prefix && !closed {
            match items {
                Some(x) => {
                    assert forall|s: JsonSchema| #[trigger] encodes(s, *j) && codec_wf(s) implies same_schema(
                        s,
                        JsonSchema::Array(x),
                    ) by {
                        lemma_encodes_kind(s, *j);
                        lemma_array_layout(s, *j);
                    }
                    Ok(JsonSchema::Array(x))
                },
                None => {
                    assert forall|s: JsonSchema| #[trigger] encodes(s, *j) && codec_wf(s) implies same_schema(
                        s,
                        JsonSchema::AnyArrayLike,
                    ) by {
                        lemma_encodes_kind(s, *j);
                    }
                    Ok(JsonSchema::AnyArrayLike)
                },
            }
        } else {
            assert forall|s: JsonSchema| #[trigger] encodes(s, *j) && codec_wf(s) implies same_schema(
                s,
                JsonSchema::Tuple { prefix_items: pi, items: it },
            ) by {
                lemma_encodes_kind(s, *j);
                lemma_array_layout(s, *j);
                let q = s->prefix_items;
                if q.len() > 0 {
                    let ps = e[1].1->Array_0;
                    assert forall|k: int| 0 <= k < q.len() implies same_schema(#[trigger] q[k], pi[k]) by {
                        assert(encodes(q[k], ps[k]) && codec_wf(q[k]));
                    }
                }
            }
            Ok(JsonSchema::Tuple { prefix_items, items })
        }
    }

    /// The schemas of each document.
    fn all_from_json(vs: &Vec<Json>) -> (r: Result<Vec<JsonSchema>, DecodeError>)
        ensures
            (forall|i: int| 0 <= i < vs.len() ==> decodable(#[trigger] vs[i])) ==> r is Ok,
            r matches Ok(out) ==> out.len() == vs.len() && forall|i: int|
                0 <= i < vs.len() ==> decodes_well(#[trigger] vs[i], out[i]),
        decreases vs, 0nat,
    {
        let mut out: Vec<JsonSchema> = Vec::new();
        let mut i: usize = 0;
        while i < vs.len()
            invariant
                0 <= i <= vs.len(),
                out.len() == i,
                forall|k: int| 0 <= k < i ==> decodes_well(#[trigger] vs[k], out[k]),
            decreases vs.len() - i,
        {
            proof {
                assert(decreases_to!(vs => vs[i as int]));
            }
            out.push(JsonSchema::from_json(&vs[i])?);
            i = i + 1;
        }
        Ok(out)
    }

    /// The fields of an object schema from its `properties` and `required` keywords:
    /// a field is required where `required` names it.
    fn fields_from_json(props: &Vec<(String, Json)>, names: &Vec<Json>) -> (r: Result<
        Vec<(String, Optionality<JsonSchema>)>,
        DecodeError,
    >)
        ensures
            (forall|i: int| 0 <= i < props.len() ==> decodable(#[trigger] props[i].1)) ==> r is Ok,
            r matches Ok(out) ==> out.len() == props.len() && forall|i: int|
                0 <= i < props.len() ==> (#[trigger] out[i]).0@ == props[i].0@ && decodes_well(
                    props[i].1,
                    out[i].1.inner_spec(),
                ) && (out[i].1 is Required <==> is_listed(*names, props[i].0@)),
        decreases props, 0nat,
    {
        let mut out: Vec<(String, Optionality<JsonSchema>)> = Vec::new();
        let mut i: usize = 0;
        while i < props.len()
            invariant
                0 <= i <= props.len(),
                out.len() == i,
                forall|k: int|
                    0 <= k < i ==> (#[trigger] out[k]).0@ == props[k].0@ && decodes_well(
                        props[k].1,
                        out[k].1.inner_spec(),
                    ) && (out[k].1 is Required <==> is_listed(*names, props[k].0@)),
            decreases props.len() - i,
        {
            proof {
                assert(decreases_to!(props => props[i as int]));
                assert(decreases_to!(props[i as int] => props[i as int].1));
            }
            let (name, doc) = &props[i];
            let schema = JsonSchema::from_json(doc)?;
            let mut required = false;
            let mut k: usize = 0;
            while k < names.len()
                invariant
                    0 <= k <= names.len(),
                    i < props.len(),
                    required == exists|m: int| 0 <= m < k && is_text(#[trigger] names[m], name@),
                decreases names.len() - k,
            {
                if let Json::String(n) = &names[k] {
                    if *n == *name {
                        required = true;
                    }
                }
                proof {
                    if required && !(exists|m: int| 0 <= m < k && is_text(#[trigger] names[m], name@)) {
                        assert(is_text(names[k as int], name@));
                    }
                }
                k = k + 1;
            }
            let v = if required {
                Optionality::Required(schema)
            } else {
                Optionality::Optional(schema)
            };
            out.push((name.clone(), v));
            i = i + 1;
        }
        Ok(out)
    }
}
} // verus!
