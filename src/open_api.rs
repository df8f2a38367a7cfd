use vstd::prelude::*;
use crate::api::{Info, ParameterIn};
use crate::codec::{encodes, entry, is_text, key};
use crate::schema::{Json, JsonSchema, Optionality};

verus! {

/// A parameter of an OpenAPI operation.
pub struct ParameterObject {
    pub name: String,
    pub in_: ParameterIn,
    pub description: Option<String>,
    pub required: bool,
    pub schema: JsonSchema,
}

/// The JSON body of an OpenAPI request.
pub struct JsonRequestBody {
    pub description: Option<String>,
    pub schema: JsonSchema,
    pub required: bool,
}

/// An OpenAPI operation: one method on one path.
pub struct OperationObject {
    pub summary: Option<String>,
    pub description: Option<String>,
    pub parameters: Vec<ParameterObject>,
    pub json_response_body: JsonSchema,
    pub json_request_body: Option<JsonRequestBody>,
}

/// The operations of one path pattern.
pub struct ApiPath {
    pub pattern: String,
    pub get: Option<OperationObject>,
    pub post: Option<OperationObject>,
    pub put: Option<OperationObject>,
    pub delete: Option<OperationObject>,
    pub patch: Option<OperationObject>,
    pub options: Option<OperationObject>,
}

/// A named component schema.
pub struct Definition {
    pub name: String,
    pub schema: JsonSchema,
}

/// An OpenAPI document.
pub struct OpenApi {
    pub info: Info,
    pub paths: Vec<ApiPath>,
    pub components: Vec<Definition>,
}

/// Whether entry `i` of `e` is under the keyword `k`.
pub open spec fn keyed(e: Vec<(String, Json)>, i: int, k: Seq<char>) -> bool {
    0 <= i < e.len() && e[i].0@ == k
}

/// 1 when the value is present, else 0.
pub open spec fn count<T>(o: Option<T>) -> int {
    if o is Some {
        1
    } else {
        0
    }
}

/// The `{"application/json": {"schema": doc}}` content of a body or response.
pub open spec fn json_content(j: Json, s: JsonSchema) -> bool {
    j matches Json::Object(c) && c.len() == 1 && keyed(c, 0, "application/json"@) && (
    c[0].1 matches Json::Object(m) && m.len() == 1 && keyed(m, 0, "schema"@) && encodes(s, m[0].1))
}

fn json_content_of(schema: &JsonSchema) -> (r: Json)
    ensures
        json_content(r, *schema),
{
    let mut inner: Vec<(String, Json)> = Vec::new();
    inner.push(entry("schema", schema.to_json()));
    let mut outer: Vec<(String, Json)> = Vec::new();
    outer.push(entry("application/json", Json::Object(inner)));
    Json::Object(outer)
}

/// The schema of the body of an error response: an object with a required message.
pub fn error_response_schema() -> (r: JsonSchema)
    ensures
        r matches JsonSchema::Object(fs) && fs.len() == 1 && fs[0].0@ == "message"@ && fs[0].1
            == Optionality::Required(JsonSchema::String),
{
    let mut fs: Vec<(String, Optionality<JsonSchema>)> = Vec::new();
    fs.push((key("message"), Optionality::Required(JsonSchema::String)));
    JsonSchema::Object(fs)
}

/// A response that refers to a component response.
pub fn error_response_ref(code: &str, reference: &str) -> (r: (String, Json))
    ensures
        r.0@ == code@,
        r.1 matches Json::Object(e) && e.len() == 1 && keyed(e, 0, "$ref"@) && is_text(
            e[0].1,
            "#/components/responses/"@ + reference@,
        ),
{
    (key(code), JsonSchema::OpenApiResponseRef(key(reference)).to_json())
}

/// A component response of an error, with its description and message body.
pub fn error_response(code: &str, description: &str) -> (r: (String, Json))
    ensures
        r.0@ == code@,
        r.1 matches Json::Object(e) && e.len() == 2 && keyed(e, 0, "description"@) && is_text(
            e[0].1,
            description@,
        ) && keyed(e, 1, "content"@),
{
    let mut v: Vec<(String, Json)> = Vec::new();
    v.push(entry("description", Json::String(key(description))));
    v.push(entry("content", json_content_of(&error_response_schema())));
    (key(code), Json::Object(v))
}

/// Whether `j` is the document that `to_json` writes for `info`.
pub open spec fn info_doc(j: Json, info: Info) -> bool {
    j matches Json::Object(e) && {
        let o = count(info.description);
        &&& e.len() == o + 2
        &&& info.description matches Some(d) ==> keyed(e, 0, "description"@) && is_text(
            e[0].1,
            d@,
        )
        &&& keyed(e, o, "title"@) && is_text(
            e[o].1,
            match info.title {
                Some(t) => t@,
                None => "No title"@,
            },
        )
        &&& keyed(e, o + 1, "version"@) && is_text(
            e[o + 1].1,
            match info.version {
                Some(t) => t@,
                None => "0.0.0"@,
            },
        )
    }
}

impl Info {
    /// The `info` object: the description when there is one, the title (else
    /// `No title`) and the version (else `0.0.0`).
    pub fn to_json(self) -> (r: Json)
        ensures
            info_doc(r, self),
    {
        let mut v: Vec<(String, Json)> = Vec::new();
        if let Some(desc) = self.description {
            v.push(entry("description", Json::String(desc)));
        }
        let title = match self.title {
            Some(t) => t,
            None => key("No title"),
        };
        v.push(entry("title", Json::String(title)));
        let version = match self.version {
            Some(t) => t,
            None => key("0.0.0"),
        };
        v.push(entry("version", Json::String(version)));
        Json::Object(v)
    }
}

/// Whether `j` is the document that `to_json` writes for `param`.
pub open spec fn param_doc(j: Json, param: ParameterObject) -> bool {
    j matches Json::Object(e) && {
        let o = count(param.description);
        &&& e.len() == o + 4
        &&& keyed(e, 0, "name"@) && is_text(e[0].1, param.name@)
        &&& keyed(e, 1, "in"@) && is_text(e[1].1, param.in_.text_spec())
        &&& param.description matches Some(d) ==> keyed(e, 2, "description"@) && is_text(
            e[2].1,
            d@,
        )
        &&& keyed(e, o + 2, "required"@) && e[o + 2].1 == Json::Bool(param.required)
        &&& keyed(e, o + 3, "schema"@) && encodes(param.schema, e[o + 3].1)
    }
}

impl ParameterObject {
    /// The parameter object: name, place, description when there is one, whether it
    /// is required, and its schema.
    pub fn to_json(self) -> (r: Json)
        ensures
            param_doc(r, self),
    {
        let mut v: Vec<(String, Json)> = Vec::new();
        let doc = self.schema.to_json();
        v.push(entry("name", Json::String(self.name)));
        v.push(entry("in", Json::String(self.in_.text())));
        if let Some(desc) = self.description {
            v.push(entry("description", Json::String(desc)));
        }
        v.push(entry("required", Json::Bool(self.required)));
        v.push(entry("schema", doc));
        Json::Object(v)
    }
}

/// Whether `j` is the document that `to_json` writes for `body`.
pub open spec fn body_doc(j: Json, body: JsonRequestBody) -> bool {
    j matches Json::Object(e) && {
        let o = count(body.description);
        &&& e.len() == o + 2
        &&& body.description matches Some(d) ==> keyed(e, 0, "description"@) && is_text(
            e[0].1,
            d@,
        )
        &&& keyed(e, o, "required"@) && e[o].1 == Json::Bool(body.required)
        &&& keyed(e, o + 1, "content"@) && json_content(e[o + 1].1, body.schema)
    }
}

impl JsonRequestBody {
    /// The request body object: description when there is one, whether it is
    /// required, and its JSON content.
    pub fn to_json(self) -> (r: Json)
        ensures
            body_doc(r, self),
    {
        let mut v: Vec<(String, Json)> = Vec::new();
        let content = json_content_of(&self.schema);
        if let Some(desc) = self.description {
            v.push(entry("description", Json::String(desc)));
        }
        v.push(entry("required", Json::Bool(self.required)));
        v.push(entry("content", content));
        Json::Object(v)
    }
}

/// Whether `j` is the document that `to_json` writes for the operation `op`: its
/// summary, description and request body when present, one parameter document per
/// parameter, and the success, decoding-error and other-error responses.
pub open spec fn op_doc(j: Json, op: OperationObject) -> bool {
    j matches Json::Object(e) && {
        let os = count(op.summary);
        let od = os + count(op.description);
        let o = od + count(op.json_request_body);
        &&& e.len() == o + 2
        &&& op.summary matches Some(x) ==> keyed(e, 0, "summary"@) && is_text(e[0].1, x@)
        &&& op.description matches Some(d) ==> keyed(e, os, "description"@) && is_text(
            e[os].1,
            d@,
        )
        &&& op.json_request_body matches Some(b) ==> keyed(e, od, "requestBody"@) && body_doc(
            e[od].1,
            b,
        )
        &&& keyed(e, o, "parameters"@) && (e[o].1 matches Json::Array(ps) && ps.len()
            == op.parameters.len() && forall|i: int|
            0 <= i < ps.len() ==> param_doc(#[trigger] ps[i], op.parameters[i]))
        &&& keyed(e, o + 1, "responses"@) && (e[o + 1].1 matches Json::Object(rs) && rs.len() == 3
            && keyed(rs, 0, "200"@) && keyed(rs, 1, "422"@) && keyed(rs, 2, "default"@) && (
        rs[0].1 matches Json::Object(ok) && ok.len() == 2 && keyed(ok, 0, "description"@)
            && is_text(ok[0].1, "Successful Operation"@) && keyed(ok, 1, "content"@)
            && json_content(ok[1].1, op.json_response_body)) && (rs[1].1 matches Json::Object(
            x,
        ) && x.len() == 1 && keyed(x, 0, "$ref"@) && is_text(
            x[0].1,
            "#/components/responses/"@ + "DecodeError"@,
        )) && (rs[2].1 matches Json::Object(x) && x.len() == 1 && keyed(x, 0, "$ref"@) && is_text(
            x[0].1,
            "#/components/responses/"@ + "UnexpectedError"@,
        )))
    }
}

/// The operations of a path with their method names, in method order.
pub open spec fn method_ops(path: ApiPath) -> Seq<(Seq<char>, OperationObject)> {
    (match path.get {
        Some(op) => seq![("get"@, op)],
        None => seq![],
    }) + (match path.post {
        Some(op) => seq![("post"@, op)],
        None => seq![],
    }) + (match path.put {
        Some(op) => seq![("put"@, op)],
        None => seq![],
    }) + (match path.delete {
        Some(op) => seq![("delete"@, op)],
        None => seq![],
    }) + (match path.patch {
        Some(op) => seq![("patch"@, op)],
        None => seq![],
    }) + (match path.options {
        Some(op) => seq![("options"@, op)],
        None => seq![],
    })
}

impl OperationObject {
    /// The operation object: summary, description and request body when there are
    /// some, the parameters, and the responses (success, decoding error, other error).
    pub fn to_json(self) -> (r: Json)
        ensures
            op_doc(r, self),
    {
        let mut v: Vec<(String, Json)> = Vec::new();
        if let Some(summary) = self.summary {
            v.push(entry("summary", Json::String(summary)));
        }
        if let Some(desc) = self.description {
            v.push(entry("description", Json::String(desc)));
        }
        if let Some(body) = self.json_request_body {
            v.push(entry("requestBody", body.to_json()));
        }
        let mut params: Vec<Json> = Vec::new();
        let ghost all = self.parameters@;
        let mut rest = self.parameters;
        let ghost total = rest.len();
        assert(rest@ =~= all.subrange(0, total as int));
        while rest.len() > 0
            invariant
                params.len() + rest.len() == total,
                total == all.len(),
                rest@ == all.subrange(params.len() as int, total as int),
                forall|k: int| 0 <= k < params.len() ==> param_doc(#[trigger] params[k], all[k]),
            decreases rest.len(),
        {
            let p = rest.remove(0);
            assert(p == all[params.len() as int]);
            params.push(p.to_json());
            assert(rest@ =~= all.subrange(params.len() as int, total as int));
        }
        v.push(entry("parameters", Json::Array(params)));
        let mut ok: Vec<(String, Json)> = Vec::new();
        ok.push(entry("description", Json::String(key("Successful Operation"))));
        ok.push(entry("content", json_content_of(&self.json_response_body)));
        let mut responses: Vec<(String, Json)> = Vec::new();
        responses.push(entry("200", Json::Object(ok)));
        responses.push(error_response_ref("422", "DecodeError"));
        responses.push(error_response_ref("default", "UnexpectedError"));
        v.push(entry("responses", Json::Object(responses)));
        Json::Object(v)
    }
}

/// Appends the entry of one operation under its method name.
fn push_op(v: &mut Vec<(String, Json)>, name: &str, op: OperationObject)
    ensures
        final(v).len() == old(v).len() + 1,
        forall|k: int| 0 <= k < old(v).len() ==> final(v)[k] == old(v)[k],
        final(v)[old(v).len() as int].0@ == name@,
        op_doc(final(v)[old(v).len() as int].1, op),
{
    v.push(entry(name, op.to_json()));
}

impl ApiPath {
    /// A path with no operations yet.
    pub fn from_pattern(pattern: &str) -> (r: ApiPath)
        ensures
            r.pattern@ == pattern@,
            r.get is None && r.post is None && r.put is None && r.delete is None && r.patch is None
                && r.options is None,
    {
        ApiPath {
            pattern: key(pattern),
            get: None,
            post: None,
            put: None,
            delete: None,
            patch: None,
            options: None,
        }
    }

    /// The entry of the path in the `paths` object: none when it has no operation,
    /// else its pattern with one entry per operation, in method order.
    #[verifier::rlimit(80)]
    pub fn to_json_kv(self) -> (r: Vec<(String, Json)>)
        ensures
            ({
                let n = count(self.get) + count(self.post) + count(self.put) + count(self.delete)
                    + count(self.patch) + count(self.options);
                &&& n == 0 ==> r.len() == 0
                &&& n > 0 ==> r.len() == 1 && r[0].0@ == self.pattern@ && (r[0].1 matches Json::Object(
                    ops,
                ) && ops.len() == n && ops.len() == method_ops(self).len() && forall|k: int|
                    0 <= k < ops.len() ==> (#[trigger] ops[k]).0@ == method_ops(self)[k].0
                        && op_doc(ops[k].1, method_ops(self)[k].1))
            }),
    {
        let mut v: Vec<(String, Json)> = Vec::new();
        let ghost ops = method_ops(self);
        if let Some(op) = self.get {
            push_op(&mut v, "get", op);
        }
        let ghost n1 = v.len();
        if let Some(op) = self.post {
            push_op(&mut v, "post", op);
        }
        let ghost n2 = v.len();
        if let Some(op) = self.put {
            push_op(&mut v, "put", op);
        }
        let ghost n3 = v.len();
        if let Some(op) = self.delete {
            push_op(&mut v, "delete", op);
        }
        let ghost n4 = v.len();
        if let Some(op) = self.patch {
            push_op(&mut v, "patch", op);
        }
        let ghost n5 = v.len();
        if let Some(op) = self.options {
            push_op(&mut v, "options", op);
        }
        proof {
            assert forall|k: int| 0 <= k < v.len() implies (#[trigger] v[k]).0@ == ops[k].0
                && op_doc(v[k].1, ops[k].1) by {
                assert(v[k] == v@[k]);
            }
        }
        if v.len() == 0 {
            return Vec::new();
        }
        let mut out: Vec<(String, Json)> = Vec::new();
        out.push((self.pattern, Json::Object(v)));
        out
    }
}

impl Definition {
    /// The entry of the component in the `schemas` object.
    pub fn to_json_kv(self) -> (r: Vec<(String, Json)>)
        ensures
            r.len() == 1,
            r[0].0@ == self.name@,
            encodes(self.schema, r[0].1),
    {
        let doc = self.schema.to_json();
        let mut out: Vec<(String, Json)> = Vec::new();
        out.push((self.name, doc));
        out
    }
}

/// How many operations a path has.
pub open spec fn op_count(p: ApiPath) -> int {
    count(p.get) + count(p.post) + count(p.put) + count(p.delete) + count(p.patch) + count(
        p.options,
    )
}

/// The patterns of the paths that have some operation, in order.
pub open spec fn path_keys(ps: Seq<ApiPath>) -> Seq<Seq<char>>
    decreases ps.len(),
{
    if ps.len() == 0 {
        Seq::empty()
    } else {
        path_keys(ps.drop_last()) + if op_count(ps.last()) > 0 {
            seq![ps.last().pattern@]
        } else {
            Seq::<Seq<char>>::empty()
        }
    }
}

/// The keys of the entries of an object.
pub open spec fn keys_of_entries(e: Seq<(String, Json)>) -> Seq<Seq<char>> {
    e.map_values(|x: (String, Json)| x.0@)
}

impl OpenApi {
    /// The OpenAPI 3.1 document: version, info, paths, and components (the schemas
    /// and the two error responses).
    pub fn to_json(self) -> (r: Json)
        ensures
            r matches Json::Object(e) && e.len() == 4 && keyed(e, 0, "openapi"@) && is_text(
                e[0].1,
                "3.1.0"@,
            ) && keyed(e, 1, "info"@) && keyed(e, 2, "paths"@) && keyed(e, 3, "components"@) && (
            e[3].1 matches Json::Object(c) && c.len() == 2 && keyed(c, 0, "schemas"@) && (
            c[0].1 matches Json::Object(schemas) && schemas.len() == self.components.len()
                && forall|i: int|
                0 <= i < schemas.len() ==> (#[trigger] schemas[i]).0@ == self.components[i].name@
                    && encodes(self.components[i].schema, schemas[i].1)) && keyed(
                c,
                1,
                "responses"@,
            )),
            r matches Json::Object(e) && e.len() == 4 && info_doc(e[1].1, self.info),
            r matches Json::Object(e) && e.len() == 4 && (e[2].1 matches Json::Object(pe)
                && keys_of_entries(pe@) == path_keys(self.paths@)),
            r matches Json::Object(e) && e.len() == 4 && (e[3].1 matches Json::Object(c) && c.len()
                == 2 && (c[1].1 matches Json::Object(rs) && rs.len() == 2 && keyed(
                rs,
                0,
                "DecodeError"@,
            ) && keyed(rs, 1, "UnexpectedError"@) && (rs[0].1 matches Json::Object(x) && x.len()
                == 2 && is_text(x[0].1, "Invalid parameters or request body"@)) && (
            rs[1].1 matches Json::Object(x) && x.len() == 2 && is_text(
                x[0].1,
                "Unexpected Error"@,
            )))),
    {
        let mut paths: Vec<(String, Json)> = Vec::new();
        let ghost all_paths = self.paths@;
        let mut rest = self.paths;
        let ghost mut done: int = 0;
        assert(rest@ =~= all_paths.subrange(0, all_paths.len() as int));
        assert(all_paths.subrange(0, 0) =~= Seq::<ApiPath>::empty());
        while rest.len() > 0
            invariant
                0 <= done <= all_paths.len(),
                rest@ == all_paths.subrange(done, all_paths.len() as int),
                keys_of_entries(paths@) == path_keys(all_paths.subrange(0, done)),
            decreases rest.len(),
        {
            let p = rest.remove(0);
            assert(p == all_paths[done]);
            let ghost before = paths@;
            let mut kv = p.to_json_kv();
            let ghost added = kv@;
            paths.append(&mut kv);
            proof {
                let s1 = all_paths.subrange(0, done + 1);
                assert(s1.drop_last() =~= all_paths.subrange(0, done));
                assert(s1.last() == p);
                assert(paths@ == before + added);
                if op_count(p) > 0 {
                    assert(keys_of_entries(added) =~= seq![p.pattern@]);
                } else {
                    assert(keys_of_entries(added) =~= Seq::<Seq<char>>::empty());
                }
                assert(keys_of_entries(paths@) =~= keys_of_entries(before) + keys_of_entries(added));
                done = done + 1;
            }
            assert(rest@ =~= all_paths.subrange(done, all_paths.len() as int));
        }
        assert(all_paths.subrange(0, all_paths.len() as int) =~= all_paths);
        let mut schemas: Vec<(String, Json)> = Vec::new();
        let ghost all = self.components@;
        let mut defs = self.components;
        let ghost total = defs.len();
        assert(defs@ =~= all.subrange(0, total as int));
        while defs.len() > 0
            invariant
                schemas.len() + defs.len() == total,
                total == all.len(),
                defs@ == all.subrange(schemas.len() as int, total as int),
                forall|k: int|
                    0 <= k < schemas.len() ==> (#[trigger] schemas[k]).0@ == all[k].name@
                        && encodes(all[k].schema, schemas[k].1),
            decreases defs.len(),
        {
            let d = defs.remove(0);
            assert(d == all[schemas.len() as int]);
            let ghost before = schemas@;
            let mut kv = d.to_json_kv();
            schemas.append(&mut kv);
            assert(defs@ =~= all.subrange(schemas.len() as int, total as int));
        }
        let mut responses: Vec<(String, Json)> = Vec::new();
        responses.push(error_response("DecodeError", "Invalid parameters or request body"));
        responses.push(error_response("UnexpectedError", "Unexpected Error"));
        let mut components: Vec<(String, Json)> = Vec::new();
        components.push(entry("schemas", Json::Object(schemas)));
        components.push(entry("responses", Json::Object(responses)));
        let mut v: Vec<(String, Json)> = Vec::new();
        v.push(entry("openapi", Json::String(key("3.1.0"))));
        v.push(entry("info", self.info.to_json()));
        v.push(entry("paths", Json::Object(paths)));
        v.push(entry("components", Json::Object(components)));
        Json::Object(v)
    }
}

} // verus!
