use vstd::prelude::*;
use crate::context::{
    same_field,
    field_type, lemma_path_ok_complete, lemma_path_ok_sound, path_ok, position_type, set_of,
    EngineError, SemTypeContext, MAX_DEPTH,
};
use crate::literal::{keys_of, LitKey, Literal};
use crate::schema::Mater;
use crate::semtype::{Probe, SemType, BOOLEAN, LIST, MAPPING, NULL, NUMBER, STRING, VOID};

verus! {

/// What a minimal example says of the type it was made from: it names the first
/// category that the type includes, in the order null, boolean, number, string; a
/// string example names a literal or format that the type includes, and a plain
/// string stands for a type that includes strings it does not list; an object or
/// array example stands for a type that includes some object or array.
pub open spec fn materializes_to(ty: SemType, m: Mater) -> bool {
    let null = ty.contains(Probe::Null);
    let boolean = ty.contains(Probe::Bool(true)) || ty.contains(Probe::Bool(false));
    let number = exists|k: LitKey| ty.contains(Probe::Number(k));
    let string = exists|k: LitKey| ty.contains(Probe::Str(k));
    &&& (m is Null <==> null)
    &&& (m is Bool <==> !null && boolean)
    &&& (m is Number <==> !null && !boolean && number)
    &&& (m is String || m is StringLiteral || m is StringWithFormat <==> !null && !boolean
        && !number && string)
    &&& (m matches Mater::StringLiteral(s) ==> ty.contains(Probe::Str((1nat, s@)))
        || ty.contains(Probe::Str((0nat, s@))))
    &&& (m matches Mater::StringWithFormat(f) ==> ty.contains(Probe::Str((2nat, f@))))
    &&& (m is String ==> ty.contains(Probe::Str((3nat, Seq::empty()))))
    &&& (m is StringLiteral || m is StringWithFormat ==> !ty.contains(
        Probe::Str((3nat, Seq::empty())),
    ))
    &&& (m is Object ==> exists|e: Set<u64>| ty.contains(Probe::Mapping(e)))
    &&& (m is Array ==> exists|e: Set<u64>| ty.contains(Probe::List(e)))
    &&& (m is Void ==> ty.contains(Probe::Void))
    &&& ((forall|p: Probe| !ty.contains(p)) ==> m is Never)
}

/// Whether the example fields are the fields of the shape, by name and in order, each
/// with an example of its type.
pub open spec fn fields_example(out: Vec<(String, Mater)>, fields: Vec<(String, SemType)>) -> bool {
    &&& out.len() == fields.len()
    &&& forall|k: int|
        0 <= k < fields.len() ==> (#[trigger] out[k]).0@ == fields[k].0@ && materializes_to(
            fields[k].1,
            out[k].1,
        )
}

/// What a minimal example says depends only on the values a type holds.
pub proof fn lemma_materializes_ext(a: SemType, b: SemType, m: Mater)
    requires
        forall|p: Probe| #[trigger] a.contains(p) == b.contains(p),
        materializes_to(a, m),
    ensures
        materializes_to(b, m),
{
    if exists|k: LitKey| a.contains(Probe::Number(k)) {
        let k = choose|k: LitKey| a.contains(Probe::Number(k));
        assert(b.contains(Probe::Number(k)));
    }
    if exists|k: LitKey| b.contains(Probe::Number(k)) {
        let k = choose|k: LitKey| b.contains(Probe::Number(k));
        assert(a.contains(Probe::Number(k)));
    }
    if exists|k: LitKey| a.contains(Probe::Str(k)) {
        let k = choose|k: LitKey| a.contains(Probe::Str(k));
        assert(b.contains(Probe::Str(k)));
    }
    if exists|k: LitKey| b.contains(Probe::Str(k)) {
        let k = choose|k: LitKey| b.contains(Probe::Str(k));
        assert(a.contains(Probe::Str(k)));
    }
    if exists|e: Set<u64>| a.contains(Probe::Mapping(e)) {
        let e = choose|e: Set<u64>| a.contains(Probe::Mapping(e));
        assert(b.contains(Probe::Mapping(e)));
    }
    if exists|e: Set<u64>| a.contains(Probe::List(e)) {
        let e = choose|e: Set<u64>| a.contains(Probe::List(e));
        assert(b.contains(Probe::List(e)));
    }
    if forall|p: Probe| !b.contains(p) {
        assert forall|p: Probe| !a.contains(p) by {
            assert(a.contains(p) == b.contains(p));
        }
    }
    assert(a.contains(Probe::Null) == b.contains(Probe::Null));
    assert(a.contains(Probe::Void) == b.contains(Probe::Void));
    assert(a.contains(Probe::Bool(true)) == b.contains(Probe::Bool(true)));
    assert(a.contains(Probe::Bool(false)) == b.contains(Probe::Bool(false)));
    assert(a.contains(Probe::Str((3nat, Seq::empty()))) == b.contains(
        Probe::Str((3nat, Seq::empty())),
    ));
    if let Mater::StringLiteral(x) = m {
        assert(a.contains(Probe::Str((1nat, x@))) == b.contains(Probe::Str((1nat, x@))));
        assert(a.contains(Probe::Str((0nat, x@))) == b.contains(Probe::Str((0nat, x@))));
    }
    if let Mater::StringWithFormat(x) = m {
        assert(a.contains(Probe::Str((2nat, x@))) == b.contains(Probe::Str((2nat, x@))));
    }
}

/// No literal has the key kind that stands for a string outside every list.
proof fn lemma_no_other_key(v: Seq<Literal>)
    ensures
        !keys_of(v).contains((3nat, Seq::empty())),
{
    if keys_of(v).contains((3nat, Seq::empty())) {
        let i = choose|i: int| 0 <= i < v.len() && (#[trigger] v[i]).key() == (3nat, Seq::<char>::empty());
        assert(v[i].key().0 <= 2);
    }
}

impl SemTypeContext {
    /// A minimal example of what the type holds: the first category it includes, in
    /// the order null, boolean, number, string, absent, object, array.
    pub fn materialize_depth(&self, ty: &SemType, fuel: u64) -> (r: Result<Mater, EngineError>)
        ensures
            r matches Ok(m) ==> materializes_to(*ty, m),
            (forall|p: Probe| !ty.contains(p)) ==> r == Ok::<Mater, EngineError>(Mater::Never),
            ty.mapping is None && ty.list is None ==> r is Ok,
            forall|h: u64|
                #[trigger] ty.single_atom(h, false) && self.plain_mapping_path(seq![h], Seq::empty())
                    && fuel > 0 ==> (r matches Ok(m) && (m matches Mater::Object(fs) && fields_example(
                    fs,
                    self.mapping_definitions[h as int].fields,
                ))),
            forall|h: u64|
                #[trigger] ty.single_atom(h, true) && self.plain_list_path(seq![h], Seq::empty())
                    && fuel > 0 ==> (r matches Ok(m) && (m matches Mater::Array {
                    items,
                    prefix_items,
                } && prefix_items.len() == 0 && materializes_to(
                    self.list_definitions[h as int].items,
                    *items,
                ))),
        decreases fuel, 0nat,
    {
        if ty.all & NULL != 0 {
            assert(ty.contains(Probe::Null));
            return Ok(Mater::Null);
        }
        if ty.all & BOOLEAN != 0 || ty.boolean.is_some() {
            proof {
                if ty.boolean is Some {
                    assert(ty.contains(Probe::Bool(ty.boolean->0)));
                    if ty.boolean->0 {
                    } else {
                    }
                } else {
                    assert(ty.contains(Probe::Bool(true)));
                }
            }
            return Ok(Mater::Bool);
        }
        assert(!(ty.contains(Probe::Bool(true)) || ty.contains(Probe::Bool(false))));
        if ty.all & NUMBER != 0 {
            assert(ty.contains(Probe::Number((0nat, Seq::empty()))));
            return Ok(Mater::Number);
        }
        if let Some(ls) = &ty.number {
            if !ls.is_empty() {
                let ghost k = choose|k: LitKey| ls.admits(k);
                assert(ty.contains(Probe::Number(k)));
                return Ok(Mater::Number);
            }
        }
        assert forall|k: LitKey| !ty.contains(Probe::Number(k)) by {
            if let Some(ls) = ty.number {
                assert(!ls.admits(k));
            }
        }
        let ghost other: LitKey = (3nat, Seq::empty());
        if ty.all & STRING != 0 {
            assert(ty.contains(Probe::Str(other)));
            return Ok(Mater::String);
        }
        if let Some(ls) = &ty.string {
            if !ls.is_empty() {
                let ghost k = choose|k: LitKey| ls.admits(k);
                assert(ty.contains(Probe::Str(k)));
                proof {
                    lemma_no_other_key(ls.values@);
                }
                if ls.allowed {
                    assert(!ty.contains(Probe::Str(other)));
                    let first = &ls.values[0];
                    assert(keys_of(ls.values@).contains(first.key()));
                    return match first {
                        Literal::Format(f) => Ok(Mater::StringWithFormat(f.clone())),
                        Literal::Str(s) => Ok(Mater::StringLiteral(s.clone())),
                        Literal::Number(s) => Ok(Mater::StringLiteral(s.clone())),
                    };
                }
                assert(ty.contains(Probe::Str(other)));
                return Ok(Mater::String);
            }
        }
        assert forall|k: LitKey| !ty.contains(Probe::Str(k)) by {
            if let Some(ls) = ty.string {
                assert(!ls.admits(k));
            }
        }
        if ty.all & VOID != 0 {
            assert(ty.contains(Probe::Void));
            return Ok(Mater::Void);
        }
        if ty.all & MAPPING != 0 {
            assert(ty.contains(Probe::Mapping(Set::empty())));
            return Ok(Mater::Object(Vec::new()));
        }
        if let Some(b) = &ty.mapping {
            proof {
                assert(set_of(Seq::<u64>::empty()) =~= Set::empty());
                if path_ok(*b, Set::empty(), Set::empty()) {
                    lemma_path_ok_sound(*b, Set::empty(), Set::empty());
                    let env = choose|env: Set<u64>|
                        Set::<u64>::empty().subset_of(env) && env.disjoint(Set::empty())
                            && #[trigger] b.eval(env);
                    assert(ty.contains(Probe::Mapping(env)));
                }
            }
            let w = self.bdd_witness(b, false, &Vec::new(), &Vec::new(), MAX_DEPTH)?;
            proof {
                assert(set_of(Seq::<u64>::empty()) =~= Set::empty());
                if w is Some {
                    lemma_path_ok_sound(*b, Set::empty(), Set::empty());
                    let env = choose|env: Set<u64>|
                        Set::<u64>::empty().subset_of(env) && env.disjoint(Set::empty())
                            && #[trigger] b.eval(env);
                    assert(ty.contains(Probe::Mapping(env)));
                }
            }
            if let Some((pos, neg)) = w {
                if fuel == 0 {
                    return Err(EngineError::TooComplex);
                }
                let fields = self.materialize_mapping_path(&pos, &neg, fuel - 1)?;
                return Ok(Mater::Object(fields));
            }
        }
        if ty.all & LIST != 0 {
            assert(ty.contains(Probe::List(Set::empty())));
            return Ok(Mater::Array { items: Box::new(Mater::Never), prefix_items: Vec::new() });
        }
        if let Some(b) = &ty.list {
            proof {
                assert(set_of(Seq::<u64>::empty()) =~= Set::empty());
                if path_ok(*b, Set::empty(), Set::empty()) {
                    lemma_path_ok_sound(*b, Set::empty(), Set::empty());
                    let env = choose|env: Set<u64>|
                        Set::<u64>::empty().subset_of(env) && env.disjoint(Set::empty())
                            && #[trigger] b.eval(env);
                    assert(ty.contains(Probe::List(env)));
                }
            }
            let w = self.bdd_witness(b, true, &Vec::new(), &Vec::new(), MAX_DEPTH)?;
            proof {
                assert(set_of(Seq::<u64>::empty()) =~= Set::empty());
                if w is Some {
                    lemma_path_ok_sound(*b, Set::empty(), Set::empty());
                    let env = choose|env: Set<u64>|
                        Set::<u64>::empty().subset_of(env) && env.disjoint(Set::empty())
                            && #[trigger] b.eval(env);
                    assert(ty.contains(Probe::List(env)));
                }
            }
            if let Some((pos, neg)) = w {
                if fuel == 0 {
                    return Err(EngineError::TooComplex);
                }
                return self.materialize_list_path(&pos, &neg, fuel - 1);
            }
        }
        Ok(Mater::Never)
    }

    /// The fields of an object with every shape of `pos`, each narrowed by the same
    /// field of every shape of `neg`.
    fn materialize_mapping_path(&self, pos: &Vec<u64>, neg: &Vec<u64>, fuel: u64) -> (r: Result<
        Vec<(String, Mater)>,
        EngineError,
    >)
        ensures
            self.plain_mapping_path(pos@, neg@) ==> (r matches Ok(out) && fields_example(
                out,
                self.mapping_definitions[pos[0] as int].fields,
            )),
        decreases fuel, 1nat,
    {
        if pos.len() == 0 {
            return Ok(Vec::new());
        }
        let fields = self.combined_mapping(pos)?;
        let ghost plain = self.plain_mapping_path(pos@, neg@);
        let mut out: Vec<(String, Mater)> = Vec::new();
        let mut i: usize = 0;
        while i < fields.len()
            invariant
                0 <= i <= fields.len(),
                plain == self.plain_mapping_path(pos@, neg@),
                plain ==> fields.len() == self.mapping_definitions[pos[0] as int].fields.len()
                    && forall|k: int|
                    0 <= k < fields.len() ==> #[trigger] same_field(
                        fields[k],
                        self.mapping_definitions[pos[0] as int].fields[k],
                    ),
                out.len() == i,
                plain ==> forall|k: int|
                    0 <= k < i ==> (#[trigger] out[k]).0@
                        == self.mapping_definitions[pos[0] as int].fields[k].0@ && materializes_to(
                        self.mapping_definitions[pos[0] as int].fields[k].1,
                        out[k].1,
                    ),
            decreases fields.len() - i,
        {
            let (name, t) = &fields[i];
            let mut narrowed = t.duplicate();
            let mut j: usize = 0;
            while j < neg.len()
                invariant
                    0 <= j <= neg.len(),
                    plain == self.plain_mapping_path(pos@, neg@),
                    plain ==> narrowed.unstructured() == t.unstructured() && forall|p: Probe| #[trigger]
                        narrowed.contains(p) == t.contains(p),
                decreases neg.len() - j,
            {
                let h = neg[j];
                if h >= self.mapping_definitions.len() as u64 {
                    return Err(EngineError::InvalidHandle);
                }
                let shape = &self.mapping_definitions[h as usize].fields;
                narrowed = narrowed.diff(&field_type(shape, name));
                j = j + 1;
            }
            let ghost stored = self.mapping_definitions[pos[0] as int].fields[i as int].1;
            proof {
                if plain {
                    assert(same_field(fields[i as int], self.mapping_definitions[pos[0] as int].fields[i as int]));
                }
            }
            let m = self.materialize_depth(&narrowed, fuel)?;
            proof {
                if plain {
                    lemma_materializes_ext(narrowed, stored, m);
                }
            }
            out.push((name.clone(), m));
            i = i + 1;
        }
        Ok(out)
    }

    /// An array with every shape of `pos`, each position narrowed by the same position
    /// of every shape of `neg`.
    fn materialize_list_path(&self, pos: &Vec<u64>, neg: &Vec<u64>, fuel: u64) -> (r: Result<
        Mater,
        EngineError,
    >)
        ensures
            r matches Ok(m) ==> m is Array,
            self.plain_list_path(pos@, neg@) ==> (r matches Ok(m) && (m matches Mater::Array {
                items,
                prefix_items,
            } && prefix_items.len() == 0 && materializes_to(
                self.list_definitions[pos[0] as int].items,
                *items,
            ))),
        decreases fuel, 1nat,
    {
        if pos.len() == 0 {
            return Ok(Mater::Array { items: Box::new(Mater::Never), prefix_items: Vec::new() });
        }
        let (prefix, rest, _) = self.combined_list(pos)?;
        let mut items = rest.duplicate();
        let ghost plain = self.plain_list_path(pos@, neg@);
        let mut out: Vec<Mater> = Vec::new();
        let mut j: usize = 0;
        while j < neg.len()
            invariant
                0 <= j <= neg.len(),
                plain == self.plain_list_path(pos@, neg@),
                plain ==> items.unstructured() && forall|p: Probe| #[trigger]
                    items.contains(p) == self.list_definitions[pos[0] as int].items.contains(p),
            decreases neg.len() - j,
        {
            let h = neg[j];
            if h >= self.list_definitions.len() as u64 {
                return Err(EngineError::InvalidHandle);
            }
            items = items.diff(&self.list_definitions[h as usize].items);
            j = j + 1;
        }
        let mut i: usize = 0;
        while i < prefix.len()
            invariant
                0 <= i <= prefix.len(),
                out.len() == i,
                plain == self.plain_list_path(pos@, neg@),
                plain ==> prefix.len() == 0,
                plain ==> items.unstructured() && forall|p: Probe| #[trigger]
                    items.contains(p) == self.list_definitions[pos[0] as int].items.contains(p),
            decreases prefix.len() - i,
        {
            let mut narrowed = prefix[i].duplicate();
            let mut j: usize = 0;
            while j < neg.len()
                invariant
                    0 <= j <= neg.len(),
                decreases neg.len() - j,
            {
                let h = neg[j];
                if h >= self.list_definitions.len() as u64 {
                    return Err(EngineError::InvalidHandle);
                }
                let shape = &self.list_definitions[h as usize];
                narrowed = narrowed.diff(&position_type(&shape.prefix_items, &shape.items, i));
                j = j + 1;
            }
            out.push(self.materialize_depth(&narrowed, fuel)?);
            i = i + 1;
        }
        let m = self.materialize_depth(&items, fuel)?;
        proof {
            if plain {
                lemma_materializes_ext(items, self.list_definitions[pos[0] as int].items, m);
            }
        }
        Ok(Mater::Array { items: Box::new(m), prefix_items: out })
    }

    /// A minimal example of what the type holds; see `materialize_depth`.
    pub fn materialize(&self, ty: &SemType) -> (r: Result<Mater, EngineError>)
        ensures
            r matches Ok(m) ==> materializes_to(*ty, m),
            (forall|p: Probe| !ty.contains(p)) ==> r == Ok::<Mater, EngineError>(Mater::Never),
            ty.mapping is None && ty.list is None ==> r is Ok,
            forall|h: u64|
                #[trigger] ty.single_atom(h, false) && self.plain_mapping_path(seq![h], Seq::empty())
                    ==> (r matches Ok(m) && (m matches Mater::Object(fs) && fields_example(
                    fs,
                    self.mapping_definitions[h as int].fields,
                ))),
            forall|h: u64|
                #[trigger] ty.single_atom(h, true) && self.plain_list_path(seq![h], Seq::empty())
                    ==> (r matches Ok(m) && (m matches Mater::Array { items, prefix_items }
                    && prefix_items.len() == 0 && materializes_to(
                    self.list_definitions[h as int].items,
                    *items,
                ))),
    {
        self.materialize_depth(ty, MAX_DEPTH)
    }
}

} // verus!
