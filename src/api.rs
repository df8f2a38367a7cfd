use vstd::prelude::*;
use crate::open_api::Definition;
use crate::schema::JsonSchema;
use crate::text::{chars_of, string_of};

verus! {

/// Where an endpoint parameter that is not in the body comes from.
#[derive(Debug, Clone, Copy, PartialEq, Eq)]
pub enum HeaderOrCookie {
    Header,
    Cookie,
}

impl HeaderOrCookie {
    pub open spec fn text_spec(self) -> Seq<char> {
        match self {
            HeaderOrCookie::Header => seq!['h', 'e', 'a', 'd', 'e', 'r'],
            HeaderOrCookie::Cookie => seq!['c', 'o', 'o', 'k', 'i', 'e'],
        }
    }

    /// The name of the place, as OpenAPI writes it.
    pub fn text(&self) -> (r: String)
        ensures
            r@ == self.text_spec(),
    {
        let cs: Vec<char> = match self {
            HeaderOrCookie::Header => vec!['h', 'e', 'a', 'd', 'e', 'r'],
            HeaderOrCookie::Cookie => vec!['c', 'o', 'o', 'k', 'i', 'e'],
        };
        string_of(&cs)
    }
}

/// The HTTP method an endpoint answers, or `Use` for every method.
#[derive(Debug, Clone, Copy, PartialEq, Eq)]
pub enum MethodKind {
    Get,
    Post,
    Put,
    Delete,
    Patch,
    Options,
    Use,
}

impl MethodKind {
    pub open spec fn text_spec(self) -> Seq<char> {
        match self {
            MethodKind::Get => seq!['g', 'e', 't'],
            MethodKind::Post => seq!['p', 'o', 's', 't'],
            MethodKind::Put => seq!['p', 'u', 't'],
            MethodKind::Delete => seq!['d', 'e', 'l', 'e', 't', 'e'],
            MethodKind::Patch => seq!['p', 'a', 't', 'c', 'h'],
            MethodKind::Options => seq!['o', 'p', 't', 'i', 'o', 'n', 's'],
            MethodKind::Use => seq!['u', 's', 'e'],
        }
    }

    /// The lower-case name of the method.
    pub fn text(&self) -> (r: String)
        ensures
            r@ == self.text_spec(),
    {
        let cs: Vec<char> = match self {
            MethodKind::Get => vec!['g', 'e', 't'],
            MethodKind::Post => vec!['p', 'o', 's', 't'],
            MethodKind::Put => vec!['p', 'u', 't'],
            MethodKind::Delete => vec!['d', 'e', 'l', 'e', 't', 'e'],
            MethodKind::Patch => vec!['p', 'a', 't', 'c', 'h'],
            MethodKind::Options => vec!['o', 'p', 't', 'i', 'o', 'n', 's'],
            MethodKind::Use => vec!['u', 's', 'e'],
        };
        string_of(&cs)
    }

    /// The method with the lower-case name `name`, if any.
    pub fn from_name(name: &str) -> (r: Option<MethodKind>)
        ensures
            r matches Some(k) ==> k.text_spec() == name@,
            r is None ==> forall|k: MethodKind| k.text_spec() != name@,
    {
        let n = name.to_owned();
        let all = [
            MethodKind::Get,
            MethodKind::Post,
            MethodKind::Put,
            MethodKind::Delete,
            MethodKind::Patch,
            MethodKind::Options,
            MethodKind::Use,
        ];
        let mut i: usize = 0;
        while i < 7
            invariant
                0 <= i <= 7,
                all@ == seq![
                    MethodKind::Get,
                    MethodKind::Post,
                    MethodKind::Put,
                    MethodKind::Delete,
                    MethodKind::Patch,
                    MethodKind::Options,
                    MethodKind::Use,
                ],
                n@ == name@,
                forall|k: int| 0 <= k < i ==> (#[trigger] all@[k]).text_spec() != name@,
            decreases 7 - i,
        {
            let k = all[i];
            if k.text() == n {
                return Some(k);
            }
            i = i + 1;
        }
        proof {
            assert forall|k: MethodKind| k.text_spec() != name@ by {
                match k {
                    MethodKind::Get => assert(all@[0] == k),
                    MethodKind::Post => assert(all@[1] == k),
                    MethodKind::Put => assert(all@[2] == k),
                    MethodKind::Delete => assert(all@[3] == k),
                    MethodKind::Patch => assert(all@[4] == k),
                    MethodKind::Options => assert(all@[5] == k),
                    MethodKind::Use => assert(all@[6] == k),
                }
            }
        }
        None
    }

    /// The length of the method's name.
    pub fn text_len(&self) -> (r: usize)
        ensures
            r == self.text_spec().len(),
    {
        let t = self.text();
        t.as_str().unicode_len()
    }
}

/// Where a handler parameter is read from.
#[derive(Debug, Clone, Copy, PartialEq, Eq)]
pub enum FunctionParameterIn {
    Path,
    Query,
    Body,
    InvalidComplexPathParameter,
}

/// Where an OpenAPI parameter is read from.
#[derive(Debug, Clone, Copy, PartialEq, Eq)]
pub enum ParameterIn {
    Query,
    Header,
    Path,
}

impl ParameterIn {
    pub open spec fn text_spec(self) -> Seq<char> {
        match self {
            ParameterIn::Query => seq!['q', 'u', 'e', 'r', 'y'],
            ParameterIn::Header => seq!['h', 'e', 'a', 'd', 'e', 'r'],
            ParameterIn::Path => seq!['p', 'a', 't', 'h'],
        }
    }

    /// The name of the place, as OpenAPI writes it.
    pub fn text(&self) -> (r: String)
        ensures
            r@ == self.text_spec(),
    {
        let cs: Vec<char> = match self {
            ParameterIn::Query => vec!['q', 'u', 'e', 'r', 'y'],
            ParameterIn::Header => vec!['h', 'e', 'a', 'd', 'e', 'r'],
            ParameterIn::Path => vec!['p', 'a', 't', 'h'],
        };
        string_of(&cs)
    }
}

/// The `info` section of an OpenAPI document.
#[derive(Debug)]
pub struct Info {
    pub title: Option<String>,
    pub description: Option<String>,
    pub version: Option<String>,
}

/// The name of a source file.
#[derive(Debug, Clone, PartialEq, Eq, Hash)]
pub struct BffFileName(String);

impl BffFileName {
    pub closed spec fn view(self) -> Seq<char> {
        self.0@
    }

    pub fn new(s: String) -> (r: BffFileName)
        ensures
            r.view() == s@,
    {
        BffFileName(s)
    }

    pub fn as_str(&self) -> (r: &str)
        ensures
            r@ == self.view(),
    {
        self.0.as_str()
    }

    /// A copy of the name.
    pub fn duplicate(&self) -> (r: BffFileName)
        ensures
            r.view() == self.view(),
    {
        BffFileName(self.0.clone())
    }

    /// The name as a string.
    pub fn text(&self) -> (r: String)
        ensures
            r@ == self.view(),
    {
        self.0.clone()
    }
}

/// The settings a user gives the extractor.
#[derive(Debug)]
pub struct BeffUserSettings {
    pub custom_formats: Vec<String>,
}

/// The files the extraction starts from.
pub struct EntryPoints {
    pub router_entry_point: Option<BffFileName>,
    pub parser_entry_point: Option<BffFileName>,
    pub settings: BeffUserSettings,
}

/// The modules written out for an extraction.
pub struct WritableModules {
    pub js_server_data: String,
    pub json_schema: String,
    pub had_build_decoders_call: bool,
}

/// A result of extraction that can be written out as modules.
pub trait ToWritableModules {
    fn to_module(self) -> Result<WritableModules, String>;
}

/// The parameters that an OpenAPI path pattern and its characters up to now name, and
/// the text read since the last `{`.
pub open spec fn pattern_scan(s: Seq<char>) -> (Seq<Seq<char>>, Seq<char>)
    decreases s.len(),
{
    if s.len() == 0 {
        (Seq::empty(), Seq::empty())
    } else {
        let (params, current) = pattern_scan(s.drop_last());
        let c = s.last();
        if c == '{' {
            (params, Seq::empty())
        } else if c == '}' {
            (params.push(current), current)
        } else {
            (params, current.push(c))
        }
    }
}

/// The parameter names of an OpenAPI path pattern: at each `}`, the text read since
/// the last `{` (braces left out).
pub fn parse_pattern_params(pattern: &str) -> (r: Vec<String>)
    ensures
        r@.map_values(|p: String| p@) == pattern_scan(pattern@).0,
{
    let chars = chars_of(pattern);
    let mut params: Vec<String> = Vec::new();
    let mut current: Vec<char> = Vec::new();
    let mut i: usize = 0;
    while i < chars.len()
        invariant
            0 <= i <= chars.len(),
            chars@ == pattern@,
            (params@.map_values(|p: String| p@), current@) == pattern_scan(
                chars@.subrange(0, i as int),
            ),
        decreases chars.len() - i,
    {
        let c = chars[i];
        assert(chars@.subrange(0, i + 1).drop_last() == chars@.subrange(0, i as int));
        assert(chars@.subrange(0, i + 1).last() == c);
        if c == '{' {
            current = Vec::new();
            assert(current@ == Seq::<char>::empty());
        } else if c == '}' {
            let ghost before = params@.map_values(|p: String| p@);
            let p = string_of(&current);
            params.push(p);
            assert(params@.map_values(|p: String| p@) =~= before.push(current@));
        } else {
            current.push(c);
        }
        i = i + 1;
    }
    assert(chars@.subrange(0, chars.len() as int) == chars@);
    params
}

/// The path parameters of a pattern that no handler parameter is named after, in
/// order.
pub fn unmatched_path_params(path_params: &Vec<String>, parameter_names: &Vec<String>) -> (r: Vec<
    String,
>)
    ensures
        r@.map_values(|p: String| p@) == path_params@.map_values(|p: String| p@).filter(
            |p: Seq<char>| !parameter_names@.map_values(|q: String| q@).contains(p),
        ),
{
    let ghost names = parameter_names@.map_values(|q: String| q@);
    let ghost keep = |p: Seq<char>| !names.contains(p);
    let mut out: Vec<String> = Vec::new();
    let mut i: usize = 0;
    while i < path_params.len()
        invariant
            0 <= i <= path_params.len(),
            names == parameter_names@.map_values(|q: String| q@),
            keep == (|p: Seq<char>| !names.contains(p)),
            out@.map_values(|p: String| p@) == path_params@.subrange(0, i as int).map_values(
                |p: String| p@,
            ).filter(keep),
        decreases path_params.len() - i,
    {
        let mut found = false;
        let mut k: usize = 0;
        while k < parameter_names.len()
            invariant
                0 <= k <= parameter_names.len(),
                i < path_params.len(),
                names == parameter_names@.map_values(|q: String| q@),
                found == exists|m: int| 0 <= m < k && names[m] == path_params[i as int]@,
            decreases parameter_names.len() - k,
        {
            if parameter_names[k] == path_params[i] {
                found = true;
            }
            proof {
                if found && !(exists|m: int| 0 <= m < k && names[m] == path_params[i as int]@) {
                    assert(names[k as int] == path_params[i as int]@);
                }
            }
            k = k + 1;
        }
        proof {
            if found {
                let m = choose|m: int| 0 <= m < k && names[m] == path_params[i as int]@;
                assert(names.contains(path_params[i as int]@));
            }
        }
        let ghost before = out@;
        if !found {
            out.push(path_params[i].clone());
        }
        proof {
            let s0 = path_params@.subrange(0, i as int).map_values(|p: String| p@);
            let s1 = path_params@.subrange(0, i + 1).map_values(|p: String| p@);
            assert(s1 =~= s0.push(path_params[i as int]@));
            reveal(Seq::filter);
            assert(s1.drop_last() =~= s0);
            if !found {
                assert(out@.map_values(|p: String| p@) =~= before.map_values(|p: String| p@).push(
                    path_params[i as int]@,
                ));
                assert(s1.filter(keep) == s0.filter(keep).push(path_params[i as int]@)) by {
                    assert(s1.drop_last() =~= s0);
                }
            } else {
                assert(out@ == before);
                assert(s1.filter(keep) == s0.filter(keep)) by {
                    assert(s1.drop_last() =~= s0);
                }
            }
        }
        i = i + 1;
    }
    assert(path_params@.subrange(0, path_params.len() as int) == path_params@);
    out
}

/// A TypeScript keyword type.
#[derive(Debug, Clone, Copy, PartialEq, Eq)]
pub enum KeywordKind {
    Any,
    Unknown,
    Number,
    Object,
    Boolean,
    BigInt,
    String,
    Symbol,
    Void,
    Undefined,
    Null,
    Never,
    Intrinsic,
}

/// The schema of a keyword type: `None` for the keywords whose values JSON cannot
/// carry (`bigint`, `never`, `symbol`, `intrinsic`, `void`).
pub fn keyword_to_json_schema(kind: KeywordKind) -> (r: Option<JsonSchema>)
    ensures
        r == match kind {
            KeywordKind::Undefined | KeywordKind::Null => Some(JsonSchema::Null),
            KeywordKind::Any | KeywordKind::Unknown | KeywordKind::Object => Some(JsonSchema::Any),
            KeywordKind::Number => Some(JsonSchema::Number),
            KeywordKind::Boolean => Some(JsonSchema::Boolean),
            KeywordKind::String => Some(JsonSchema::String),
            _ => None,
        },
{
    match kind {
        KeywordKind::Undefined | KeywordKind::Null => Some(JsonSchema::Null),
        KeywordKind::Any | KeywordKind::Unknown | KeywordKind::Object => Some(JsonSchema::Any),
        KeywordKind::BigInt | KeywordKind::Never | KeywordKind::Symbol | KeywordKind::Intrinsic
        | KeywordKind::Void => None,
        KeywordKind::Number => Some(JsonSchema::Number),
        KeywordKind::Boolean => Some(JsonSchema::Boolean),
        KeywordKind::String => Some(JsonSchema::String),
    }
}

/// The item schema of an array schema; any other schema stands for itself.
pub fn extract_items_from_array(it: JsonSchema) -> (r: JsonSchema)
    ensures
        it matches JsonSchema::Array(items) ==> r == *items,
        !(it is Array) ==> r == it,
{
    match it {
        JsonSchema::Array(items) => *items,
        _ => it,
    }
}

/// Whether a description ends with this character that trimming removes.
pub open spec fn is_trimmed(c: char) -> bool {
    c == ' ' || c == '\t' || c == '\n' || c == '\r' || c == '\x0C' || c == '*'
}

/// The text without its trailing ASCII whitespace and `*`.
pub open spec fn trim_end_spec(s: Seq<char>) -> Seq<char>
    decreases s.len(),
{
    if s.len() > 0 && is_trimmed(s.last()) {
        trim_end_spec(s.drop_last())
    } else {
        s
    }
}

/// A doc comment's text without its trailing ASCII whitespace and `*`.
pub fn trim_description_comments(it: String) -> (r: String)
    ensures
        r@ == trim_end_spec(it@),
{
    let mut v = chars_of(it.as_str());
    let mut done = false;
    while !done && v.len() > 0
        invariant
            trim_end_spec(v@) == trim_end_spec(it@),
            done ==> v.len() > 0 && !is_trimmed(v@.last()),
        decreases v.len() + (if done { 0int } else { 1int }),
    {
        let c = v[v.len() - 1];
        if c == ' ' || c == '\t' || c == '\n' || c == '\r' || c == '\x0C' || c == '*' {
            v.pop();
        } else {
            done = true;
        }
    }
    string_of(&v)
}

/// A place in a source file.
#[derive(Debug, Clone, Copy, PartialEq, Eq)]
pub struct Loc {
    pub line: usize,
    pub col: usize,
}

/// What a diagnostic says, and where.
pub enum DiagnosticInformation {
    KnownFile { message: String, file_name: String, loc_lo: Loc, loc_hi: Loc },
    UnknownFile { message: String, current_file: String },
}

/// A diagnostic with its cause and related places.
pub struct Diagnostic {
    pub cause: DiagnosticInformation,
    pub related_information: Option<Vec<DiagnosticInformation>>,
    pub message: String,
}

/// A diagnostic's place, flattened for a web front end.
pub enum WasmDiagnosticInformation {
    KnownFile {
        message: String,
        file_name: String,
        line_lo: usize,
        col_lo: usize,
        line_hi: usize,
        col_hi: usize,
    },
    UnknownFile { message: String, current_file: String },
}

impl WasmDiagnosticInformation {
    pub open spec fn from_spec(info: DiagnosticInformation) -> WasmDiagnosticInformation {
        match info {
            DiagnosticInformation::KnownFile { message, file_name, loc_lo, loc_hi } =>
                WasmDiagnosticInformation::KnownFile {
                message,
                file_name,
                line_lo: loc_lo.line,
                col_lo: loc_lo.col,
                line_hi: loc_hi.line,
                col_hi: loc_hi.col,
            },
            DiagnosticInformation::UnknownFile { message, current_file } =>
                WasmDiagnosticInformation::UnknownFile { message, current_file },
        }
    }

    pub fn from_diagnostic_info(info: DiagnosticInformation) -> (r: WasmDiagnosticInformation)
        ensures
            r == Self::from_spec(info),
    {
        match info {
            DiagnosticInformation::KnownFile { message, file_name, loc_lo, loc_hi } =>
                WasmDiagnosticInformation::KnownFile {
                message,
                file_name,
                line_lo: loc_lo.line,
                col_lo: loc_lo.col,
                line_hi: loc_hi.line,
                col_hi: loc_hi.col,
            },
            DiagnosticInformation::UnknownFile { message, current_file } =>
                WasmDiagnosticInformation::UnknownFile { message, current_file },
        }
    }
}

/// A diagnostic flattened for a web front end.
pub struct WasmDiagnosticItem {
    pub cause: WasmDiagnosticInformation,
    pub related_information: Option<Vec<WasmDiagnosticInformation>>,
    pub message: String,
}

/// The diagnostics of one run, flattened for a web front end.
pub struct WasmDiagnostic {
    pub diagnostics: Vec<WasmDiagnosticItem>,
}

/// Each place of the list, flattened.
fn infos_to_wasm(infos: Vec<DiagnosticInformation>) -> (r: Vec<WasmDiagnosticInformation>)
    ensures
        r@ == infos@.map_values(|i: DiagnosticInformation| WasmDiagnosticInformation::from_spec(i)),
{
    let mut out: Vec<WasmDiagnosticInformation> = Vec::new();
    let mut rest = infos;
    let ghost all = rest@;
    let mut taken: usize = 0;
    assert(all.len() == rest.len());
    while rest.len() > 0
        invariant
            taken + rest.len() == all.len(),
            all.len() <= usize::MAX,
            rest@ == all.subrange(taken as int, all.len() as int),
            out@ == all.subrange(0, taken as int).map_values(
                |i: DiagnosticInformation| WasmDiagnosticInformation::from_spec(i),
            ),
        decreases rest.len(),
    {
        let info = rest.remove(0);
        assert(info == all[taken as int]);
        out.push(WasmDiagnosticInformation::from_diagnostic_info(info));
        assert(all.subrange(0, taken + 1) == all.subrange(0, taken as int).push(all[taken as int]));
        assert(rest@ =~= all.subrange(taken + 1, all.len() as int));
        taken = taken + 1;
        assert(out@ =~= all.subrange(0, taken as int).map_values(
            |i: DiagnosticInformation| WasmDiagnosticInformation::from_spec(i),
        ));
    }
    assert(all.subrange(0, all.len() as int) == all);
    out
}

/// A diagnostic, flattened.
fn diag_to_wasm(diag: Diagnostic) -> (r: WasmDiagnosticItem)
    ensures
        r.cause == WasmDiagnosticInformation::from_spec(diag.cause),
        r.message == diag.message,
        r.related_information is None <==> diag.related_information is None,
        diag.related_information matches Some(v) ==> r.related_information->0@ == v@.map_values(
            |i: DiagnosticInformation| WasmDiagnosticInformation::from_spec(i),
        ),
{
    let related_information = match diag.related_information {
        Some(it) => Some(infos_to_wasm(it)),
        None => None,
    };
    WasmDiagnosticItem {
        cause: WasmDiagnosticInformation::from_diagnostic_info(diag.cause),
        related_information,
        message: diag.message,
    }
}

impl WasmDiagnostic {
    pub fn from_diagnostics(diagnostics: Vec<Diagnostic>) -> (r: WasmDiagnostic)
        ensures
            r.diagnostics.len() == diagnostics.len(),
            forall|i: int|
                0 <= i < diagnostics.len() ==> (#[trigger] r.diagnostics[i]).cause
                    == WasmDiagnosticInformation::from_spec(diagnostics[i].cause)
                    && r.diagnostics[i].message == diagnostics[i].message,
    {
        let mut out: Vec<WasmDiagnosticItem> = Vec::new();
        let mut rest = diagnostics;
        let ghost all = rest@;
        let mut taken: usize = 0;
        assert(all.len() == rest.len());
        while rest.len() > 0
            invariant
                taken + rest.len() == all.len(),
                all.len() <= usize::MAX,
                rest@ == all.subrange(taken as int, all.len() as int),
                out.len() == taken,
                forall|i: int|
                    0 <= i < taken ==> (#[trigger] out[i]).cause == WasmDiagnosticInformation::from_spec(
                        all[i].cause,
                    ) && out[i].message == all[i].message,
            decreases rest.len(),
        {
            let d = rest.remove(0);
            assert(d == all[taken as int]);
            assert(rest@ =~= all.subrange(taken + 1, all.len() as int));
            out.push(diag_to_wasm(d));
            taken = taken + 1;
        }
        WasmDiagnostic { diagnostics: out }
    }
}

/// The first component named `name`.
pub open spec fn first_def(comps: Seq<Definition>, name: Seq<char>) -> Option<int> {
    if exists|i: int| 0 <= i < comps.len() && comps[i].name@ == name {
        Some(
            choose|i: int|
                0 <= i < comps.len() && comps[i].name@ == name && forall|k: int|
                    0 <= k < i ==> comps[k].name@ != name,
        )
    } else {
        None
    }
}

/// Whether a schema can stand in a path or a query: scalars, constants, error
/// markers and unions of such, reading references through the components. `None`
/// where a reference names no component or a chain of references is longer than
/// `fuel` (with one reference per component, only a cycle is). A
/// union is read part by part and stops at the first part that is not simple.
pub open spec fn simple_spec(s: JsonSchema, comps: Seq<Definition>, fuel: nat) -> Option<bool>
    decreases fuel, s, 0nat,
{
    match s {
        JsonSchema::Ref(r) => if fuel == 0 {
            None
        } else {
            match first_def(comps, r@) {
                Some(i) => simple_spec(comps[i].schema, comps, (fuel - 1) as nat),
                None => None,
            }
        },
        JsonSchema::OpenApiResponseRef(r) => if fuel == 0 {
            None
        } else {
            match first_def(comps, r@) {
                Some(i) => simple_spec(comps[i].schema, comps, (fuel - 1) as nat),
                None => None,
            }
        },
        JsonSchema::AnyOf(vs) => all_simple(vs, 0, comps, fuel),
        JsonSchema::Null => Some(true),
        JsonSchema::Boolean => Some(true),
        JsonSchema::String => Some(true),
        JsonSchema::Number => Some(true),
        JsonSchema::StringWithFormat(_) => Some(true),
        JsonSchema::Const(_) => Some(true),
        JsonSchema::Error => Some(true),
        _ => Some(false),
    }
}

/// The parts of a union from `i` on, read until one is not simple.
pub open spec fn all_simple(vs: Vec<JsonSchema>, i: int, comps: Seq<Definition>, fuel: nat) -> Option<
    bool,
>
    decreases fuel, vs, vs.len() - i,
{
    if i < 0 || i >= vs.len() {
        Some(true)
    } else {
        match simple_spec(vs[i], comps, fuel) {
            Some(true) => all_simple(vs, i + 1, comps, fuel),
            other => other,
        }
    }
}

/// Where the first component named `name` stands.
fn find_definition(comps: &Vec<Definition>, name: &String) -> (r: Option<usize>)
    ensures
        r matches Some(i) ==> i < comps.len() && first_def(comps@, name@) == Some(i as int),
        r is None ==> first_def(comps@, name@) is None,
{
    let mut i: usize = 0;
    while i < comps.len()
        invariant
            0 <= i <= comps.len(),
            forall|k: int| 0 <= k < i ==> (#[trigger] comps@[k]).name@ != name@,
        decreases comps.len() - i,
    {
        if comps[i].name == *name {
            let ghost j = choose|j: int|
                0 <= j < comps@.len() && comps@[j].name@ == name@ && forall|k: int|
                    0 <= k < j ==> comps@[k].name@ != name@;
            assert(j == i) by {
                if j < i {
                    assert(comps@[j].name@ != name@);
                } else if j > i {
                    assert(comps@[i as int].name@ != name@);
                }
            }
            return Some(i);
        }
        i = i + 1;
    }
    None
}

/// Whether a schema can stand in a path or a query; see `simple_spec`.
pub fn is_type_simple(it: &JsonSchema, components: &Vec<Definition>, fuel: u64) -> (r: Option<bool>)
    ensures
        r == simple_spec(*it, components@, fuel as nat),
    decreases fuel, it, 0nat,
{
    match it {
        JsonSchema::OpenApiResponseRef(r) | JsonSchema::Ref(r) => {
            if fuel == 0 {
                return None;
            }
            match find_definition(components, r) {
                Some(i) => is_type_simple(&components[i].schema, components, fuel - 1),
                None => None,
            }
        },
        JsonSchema::AnyOf(vs) => all_simple_from(vs, 0, components, fuel),
        JsonSchema::Null | JsonSchema::Boolean | JsonSchema::String | JsonSchema::Number
        | JsonSchema::StringWithFormat(_) | JsonSchema::Const(_) | JsonSchema::Error => Some(true),
        _ => Some(false),
    }
}

/// Whether the parts of a union from `i` on are simple; see `all_simple`.
fn all_simple_from(vs: &Vec<JsonSchema>, i: usize, components: &Vec<Definition>, fuel: u64) -> (r:
    Option<bool>)
    ensures
        r == all_simple(*vs, i as int, components@, fuel as nat),
    decreases fuel, vs, vs.len() - i,
{
    if i >= vs.len() {
        return Some(true);
    }
    proof {
        assert(decreases_to!(vs => vs[i as int]));
    }
    match is_type_simple(&vs[i], components, fuel) {
        Some(true) => all_simple_from(vs, i + 1, components, fuel),
        other => other,
    }
}

/// Where a handler parameter is read from: the path when the pattern names it (if its
/// schema is simple, else it is invalid there), else the query when its schema is
/// simple, else the body. `None` where the schema's simplicity cannot be decided.
pub fn operation_parameter_in_path_or_query_or_body(
    name: &str,
    path_params: &Vec<String>,
    schema: &JsonSchema,
    components: &Vec<Definition>,
) -> (r: Option<FunctionParameterIn>)
    ensures
        ({
            let in_path = exists|i: int| 0 <= i < path_params.len() && (#[trigger] path_params[i])@ == name@;
            match simple_spec(*schema, components@, components.len() as nat) {
                None => r is None,
                Some(simple) => r == Some(
                    if in_path {
                        if simple {
                            FunctionParameterIn::Path
                        } else {
                            FunctionParameterIn::InvalidComplexPathParameter
                        }
                    } else if simple {
                        FunctionParameterIn::Query
                    } else {
                        FunctionParameterIn::Body
                    },
                ),
            }
        }),
{
    let simple = match is_type_simple(schema, components, components.len() as u64) {
        Some(b) => b,
        None => {
            return None;
        },
    };
    let name = name.to_owned();
    let mut in_path = false;
    let mut i: usize = 0;
    while i < path_params.len()
        invariant
            0 <= i <= path_params.len(),
            in_path == exists|k: int| 0 <= k < i && (#[trigger] path_params[k])@ == name@,
        decreases path_params.len() - i,
    {
        if path_params[i] == name {
            in_path = true;
        }
        proof {
            if in_path && !(exists|k: int| 0 <= k < i && (#[trigger] path_params[k])@ == name@) {
                assert(path_params[i as int]@ == name@);
            }
        }
        i = i + 1;
    }
    Some(
        if in_path {
            if simple {
                FunctionParameterIn::Path
            } else {
                FunctionParameterIn::InvalidComplexPathParameter
            }
        } else if simple {
            FunctionParameterIn::Query
        } else {
            FunctionParameterIn::Body
        },
    )
}


} // verus!
