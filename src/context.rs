use vstd::prelude::*;
use crate::bdd::{atom_node, Bdd};
use crate::literal::LitKey;
use crate::semtype::{Probe, SemType, BOOLEAN, LIST, MAPPING, NULL, NUMBER, STRING, VOID};

verus! {

/// How deep the engine may recurse through structural atoms before it gives up.
pub const MAX_DEPTH: u64 = 64;

/// Why the engine could not answer.
#[derive(Debug, PartialEq)]
pub enum EngineError {
    /// An atom handle that this context did not hand out.
    InvalidHandle,
    /// The type nests deeper than the engine is allowed to recurse.
    TooComplex,
    /// A reference to a schema name that the components table does not hold.
    UnknownReference(String),
    /// A schema shape that has no semantic type.
    UnsupportedSchema,
}

/// The shape of an object: its fields, each with the type of its value
/// (which includes the void category when the field may be absent).
pub struct MappingAtomic {
    pub fields: Vec<(String, SemType)>,
}

/// The shape of an array: the types of its first positions, and of the rest.
pub struct ListAtomic {
    pub prefix_items: Vec<SemType>,
    pub items: SemType,
}

/// The arena that owns the structural atoms of one extraction run.
pub struct SemTypeContext {
    pub mapping_definitions: Vec<MappingAtomic>,
    pub list_definitions: Vec<ListAtomic>,
    /// Object handles reserved for a shape that is not defined yet.
    pub pending_mappings: Vec<u64>,
    /// Array handles reserved for a shape that is not defined yet.
    pub pending_lists: Vec<u64>,
}

/// Whether `v` holds the handle `h`.
fn holds_handle(v: &Vec<u64>, h: u64) -> (r: bool)
    ensures
        r == v@.contains(h),
{
    let mut i: usize = 0;
    while i < v.len()
        invariant
            0 <= i <= v.len(),
            forall|k: int| 0 <= k < i ==> v@[k] != h,
        decreases v.len() - i,
    {
        if v[i] == h {
            assert(v@[i as int] == h);
            return true;
        }
        i = i + 1;
    }
    false
}

/// The handles of `v` other than `h`.
fn without_handle(v: &Vec<u64>, h: u64) -> (r: Vec<u64>)
    ensures
        forall|x: u64| r@.contains(x) <==> v@.contains(x) && x != h,
{
    let mut out: Vec<u64> = Vec::new();
    let mut i: usize = 0;
    while i < v.len()
        invariant
            0 <= i <= v.len(),
            forall|x: u64| out@.contains(x) <==> (exists|k: int| 0 <= k < i && v@[k] == x) && x != h,
        decreases v.len() - i,
    {
        let ghost before = out@;
        if v[i] != h {
            out.push(v[i]);
        }
        proof {
            assert forall|x: u64| out@.contains(x) <==> (exists|k: int| 0 <= k < i + 1 && v@[k] == x)
                && x != h by {
                if out@.contains(x) && !before.contains(x) {
                    assert(x == v@[i as int]);
                }
                if before.contains(x) {
                    let j = choose|j: int| 0 <= j < before.len() && before[j] == x;
                    assert(out@[j] == x);
                }
                if (exists|k: int| 0 <= k < i + 1 && v@[k] == x) && x != h {
                    let k = choose|k: int| 0 <= k < i + 1 && v@[k] == x;
                    if k == i {
                        assert(out@[out@.len() - 1] == x);
                    }
                }
            }
        }
        i = i + 1;
    }
    proof {
        assert forall|x: u64| v@.contains(x) implies exists|k: int| 0 <= k < v.len() && v@[k] == x by {
            let k = choose|k: int| 0 <= k < v@.len() && v@[k] == x;
        }
    }
    out
}

impl MappingAtomic {
    /// Whether the two shapes list the same fields, in the same order, with the same types.
    pub open spec fn same_as(self, other: MappingAtomic) -> bool {
        &&& self.fields.len() == other.fields.len()
        &&& forall|i: int|
            0 <= i < self.fields.len() ==> (#[trigger] self.fields[i]).0@ == other.fields[i].0@
                && self.fields[i].1.same_as(other.fields[i].1)
    }

    pub fn equals(&self, other: &MappingAtomic) -> (r: bool)
        ensures
            r == self.same_as(*other),
    {
        if self.fields.len() != other.fields.len() {
            return false;
        }
        let mut i: usize = 0;
        while i < self.fields.len()
            invariant
                0 <= i <= self.fields.len(),
                self.fields.len() == other.fields.len(),
                forall|j: int|
                    0 <= j < i ==> (#[trigger] self.fields[j]).0@ == other.fields[j].0@
                        && self.fields[j].1.same_as(other.fields[j].1),
            decreases self.fields.len() - i,
        {
            if self.fields[i].0 != other.fields[i].0 || !self.fields[i].1.equals(&other.fields[i].1) {
                return false;
            }
            i = i + 1;
        }
        true
    }
}

impl ListAtomic {
    /// Whether the two shapes have the same position types.
    pub open spec fn same_as(self, other: ListAtomic) -> bool {
        &&& self.items.same_as(other.items)
        &&& self.prefix_items.len() == other.prefix_items.len()
        &&& forall|i: int|
            0 <= i < self.prefix_items.len() ==> (#[trigger] self.prefix_items[i]).same_as(
                other.prefix_items[i],
            )
    }

    pub fn equals(&self, other: &ListAtomic) -> (r: bool)
        ensures
            r == self.same_as(*other),
    {
        if self.prefix_items.len() != other.prefix_items.len() || !self.items.equals(&other.items) {
            return false;
        }
        let mut i: usize = 0;
        while i < self.prefix_items.len()
            invariant
                0 <= i <= self.prefix_items.len(),
                self.prefix_items.len() == other.prefix_items.len(),
                forall|j: int|
                    0 <= j < i ==> (#[trigger] self.prefix_items[j]).same_as(other.prefix_items[j]),
            decreases self.prefix_items.len() - i,
        {
            if !self.prefix_items[i].equals(&other.prefix_items[i]) {
                return false;
            }
            i = i + 1;
        }
        true
    }
}

proof fn lemma_semtype_same_refl(t: SemType)
    ensures
        t.same_as(t),
{
}

proof fn lemma_semtypes_same_refl_fields(a: MappingAtomic)
    ensures
        a.same_as(a),
{
    assert forall|i: int| 0 <= i < a.fields.len() implies (#[trigger] a.fields[i]).0@ == a.fields[i].0@
        && a.fields[i].1.same_as(a.fields[i].1) by {
        lemma_semtype_same_refl(a.fields[i].1);
    }
}

proof fn lemma_semtypes_same_refl_list(a: ListAtomic)
    ensures
        a.same_as(a),
{
    lemma_semtype_same_refl(a.items);
    assert forall|i: int| 0 <= i < a.prefix_items.len() implies (#[trigger] a.prefix_items[i]).same_as(
        a.prefix_items[i],
    ) by {
        lemma_semtype_same_refl(a.prefix_items[i]);
    }
}


/// The atoms that a sequence of handles holds.
pub open spec fn set_of(s: Seq<u64>) -> Set<u64> {
    Set::new(|x: u64| s.contains(x))
}

/// Whether a path of `b` reaches `True` while the atoms it requires (with `pos`)
/// and the atoms it excludes (with `neg`) stay apart.
pub open spec fn path_ok(b: Bdd, pos: Set<u64>, neg: Set<u64>) -> bool
    decreases b,
{
    match b {
        Bdd::True => pos.disjoint(neg),
        Bdd::False => false,
        Bdd::Node { atom, left, middle, right } => path_ok(*left, pos.insert(atom), neg)
            || path_ok(*middle, pos, neg) || path_ok(*right, pos, neg.insert(atom)),
    }
}

/// A path that keeps its atoms apart is followed by some value.
pub proof fn lemma_path_ok_sound(b: Bdd, pos: Set<u64>, neg: Set<u64>)
    requires
        path_ok(b, pos, neg),
    ensures
        exists|env: Set<u64>| pos.subset_of(env) && env.disjoint(neg) && #[trigger] b.eval(env),
    decreases b,
{
    match b {
        Bdd::True => {
            assert(pos.subset_of(pos) && pos.disjoint(neg) && b.eval(pos));
        },
        Bdd::False => {},
        Bdd::Node { atom, left, middle, right } => {
            if path_ok(*left, pos.insert(atom), neg) {
                lemma_path_ok_sound(*left, pos.insert(atom), neg);
                let env = choose|env: Set<u64>|
                    pos.insert(atom).subset_of(env) && env.disjoint(neg) && #[trigger] (*left).eval(
                        env,
                    );
                assert(env.contains(atom));
                assert(pos.subset_of(env) && env.disjoint(neg) && b.eval(env));
            } else if path_ok(*middle, pos, neg) {
                lemma_path_ok_sound(*middle, pos, neg);
                let env = choose|env: Set<u64>|
                    pos.subset_of(env) && env.disjoint(neg) && #[trigger] (*middle).eval(env);
                assert(pos.subset_of(env) && env.disjoint(neg) && b.eval(env));
            } else {
                lemma_path_ok_sound(*right, pos, neg.insert(atom));
                let env = choose|env: Set<u64>|
                    pos.subset_of(env) && env.disjoint(neg.insert(atom)) && #[trigger] (
                    *right).eval(env);
                assert(!env.contains(atom));
                assert(pos.subset_of(env) && env.disjoint(neg) && b.eval(env));
            }
        },
    }
}

/// A value that the diagram holds follows a path that keeps its atoms apart.
pub proof fn lemma_path_ok_complete(b: Bdd, pos: Set<u64>, neg: Set<u64>, env: Set<u64>)
    requires
        pos.subset_of(env),
        env.disjoint(neg),
        b.eval(env),
    ensures
        path_ok(b, pos, neg),
    decreases b,
{
    match b {
        Bdd::True => {},
        Bdd::False => {},
        Bdd::Node { atom, left, middle, right } => {
            if env.contains(atom) && (*left).eval(env) {
                lemma_path_ok_complete(*left, pos.insert(atom), neg, env);
            } else if (*middle).eval(env) {
                lemma_path_ok_complete(*middle, pos, neg, env);
            } else {
                lemma_path_ok_complete(*right, pos, neg.insert(atom), env);
            }
        },
    }
}

proof fn lemma_set_of_push(s: Seq<u64>, x: u64)
    ensures
        set_of(s.push(x)) == set_of(s).insert(x),
{
    assert forall|y: u64| set_of(s.push(x)).contains(y) == set_of(s).insert(x).contains(y) by {
        if s.contains(y) {
            let i = choose|i: int| 0 <= i < s.len() && s[i] == y;
            assert(s.push(x)[i] == y);
        }
        if y == x {
            assert(s.push(x)[s.len() as int] == y);
        }
        if s.push(x).contains(y) && y != x {
            let i = choose|i: int| 0 <= i < s.len() + 1 && s.push(x)[i] == y;
            assert(s[i] == y);
        }
    }
    assert(set_of(s.push(x)) =~= set_of(s).insert(x));
}

fn pushed(v: &Vec<u64>, x: u64) -> (r: Vec<u64>)
    ensures
        set_of(r@) == set_of(v@).insert(x),
        r@ == v@.push(x),
{
    let mut r: Vec<u64> = Vec::new();
    let mut i: usize = 0;
    while i < v.len()
        invariant
            0 <= i <= v.len(),
            r@ == v@.subrange(0, i as int),
        decreases v.len() - i,
    {
        r.push(v[i]);
        assert(v@.subrange(0, i + 1) == v@.subrange(0, i as int).push(v@[i as int]));
        i = i + 1;
    }
    assert(v@.subrange(0, v.len() as int) == v@);
    proof {
        lemma_set_of_push(r@, x);
    }
    r.push(x);
    r
}

fn apart(a: &Vec<u64>, b: &Vec<u64>) -> (r: bool)
    ensures
        r == set_of(a@).disjoint(set_of(b@)),
{
    let mut i: usize = 0;
    while i < a.len()
        invariant
            0 <= i <= a.len(),
            forall|k: int| 0 <= k < i ==> !(#[trigger] b@.contains(a@[k])),
        decreases a.len() - i,
    {
        let mut j: usize = 0;
        while j < b.len()
            invariant
                0 <= i < a.len(),
                0 <= j <= b.len(),
                forall|k: int| 0 <= k < j ==> b@[k] != a@[i as int],
            decreases b.len() - j,
        {
            if b[j] == a[i] {
                assert(set_of(a@).contains(a@[i as int]));
                assert(set_of(b@).contains(b@[j as int]));
                return false;
            }
            j = j + 1;
        }
        i = i + 1;
    }
    assert forall|x: u64| set_of(a@).contains(x) implies !set_of(b@).contains(x) by {
        let k = choose|k: int| 0 <= k < a@.len() && a@[k] == x;
        assert(!b@.contains(a@[k]));
    }
    true
}

/// The type of an object field that is absent.
fn void_only() -> (r: SemType)
    ensures
        r.wf(),
{
    SemType::of_categories(false, false, false, false, false, false, true)
}

/// A copy of a list of fields.
fn copy_fields(fields: &Vec<(String, SemType)>) -> (r: Vec<(String, SemType)>)
    ensures
        r.len() == fields.len(),
        forall|i: int| 0 <= i < fields.len() ==> #[trigger] same_field(r[i], fields[i]),
{
    let mut out: Vec<(String, SemType)> = Vec::new();
    let mut i: usize = 0;
    while i < fields.len()
        invariant
            0 <= i <= fields.len(),
            out.len() == i,
            forall|k: int| 0 <= k < i ==> #[trigger] same_field(out[k], fields[k]),
        decreases fields.len() - i,
    {
        let (k, t) = &fields[i];
        out.push((k.clone(), t.duplicate()));
        i = i + 1;
    }
    out
}

/// Whether two fields have the same name and types holding the same values.
pub open spec fn same_field(a: (String, SemType), b: (String, SemType)) -> bool {
    &&& a.0@ == b.0@
    &&& a.1.unstructured() == b.1.unstructured()
    &&& forall|p: Probe| #[trigger] a.1.contains(p) == b.1.contains(p)
}

/// A copy of a list of types.
fn copy_types(types: &Vec<SemType>) -> (r: Vec<SemType>)
    ensures
        r.len() == types.len(),
{
    let mut out: Vec<SemType> = Vec::new();
    let mut i: usize = 0;
    while i < types.len()
        invariant
            0 <= i <= types.len(),
            out.len() == i,
        decreases types.len() - i,
    {
        out.push(types[i].duplicate());
        i = i + 1;
    }
    out
}

/// The position of the field named `name`, if any.
fn find_field(fields: &Vec<(String, SemType)>, name: &String) -> (r: Option<usize>)
    ensures
        r matches Some(i) ==> i < fields.len() && fields[i as int].0@ == name@,
{
    let mut i: usize = 0;
    while i < fields.len()
        invariant
            0 <= i <= fields.len(),
        decreases fields.len() - i,
    {
        if fields[i].0 == *name {
            return Some(i);
        }
        i = i + 1;
    }
    None
}

/// The type of the field named `name`: absent fields hold only the void category.
pub(crate) fn field_type(fields: &Vec<(String, SemType)>, name: &String) -> (r: SemType) {
    match find_field(fields, name) {
        Some(i) => fields[i].1.duplicate(),
        None => void_only(),
    }
}

/// The fields of a value that has both shapes: every name of either, each with the
/// intersection of the two field types.
fn intersect_fields(a: &Vec<(String, SemType)>, b: &Vec<(String, SemType)>) -> (r: Vec<
    (String, SemType),
>) {
    let mut out: Vec<(String, SemType)> = Vec::new();
    let mut i: usize = 0;
    while i < a.len()
        invariant
            0 <= i <= a.len(),
        decreases a.len() - i,
    {
        let (k, t) = &a[i];
        let other = field_type(b, k);
        out.push((k.clone(), t.intersect(&other)));
        i = i + 1;
    }
    let mut j: usize = 0;
    while j < b.len()
        invariant
            0 <= j <= b.len(),
        decreases b.len() - j,
    {
        let (k, t) = &b[j];
        if find_field(a, k).is_none() {
            out.push((k.clone(), t.intersect(&void_only())));
        }
        j = j + 1;
    }
    out
}

/// The type at position `i` of an array shape.
pub(crate) fn position_type(prefix: &Vec<SemType>, rest: &SemType, i: usize) -> (r: SemType) {
    if i < prefix.len() {
        prefix[i].duplicate()
    } else {
        rest.duplicate()
    }
}

/// The prefix of an array that has both shapes, position by position.
fn intersect_prefix(
    a: &Vec<SemType>,
    a_rest: &SemType,
    b: &Vec<SemType>,
    b_rest: &SemType,
) -> (r: Vec<SemType>) {
    let n = if a.len() < b.len() {
        b.len()
    } else {
        a.len()
    };
    let mut out: Vec<SemType> = Vec::new();
    let mut i: usize = 0;
    while i < n
        invariant
            0 <= i <= n,
        decreases n - i,
    {
        let x = position_type(a, a_rest, i);
        let y = position_type(b, b_rest, i);
        out.push(x.intersect(&y));
        i = i + 1;
    }
    out
}

impl SemTypeContext {
    pub fn new() -> (r: SemTypeContext)
        ensures
            r.mapping_definitions.len() == 0,
            r.list_definitions.len() == 0,
    {
        SemTypeContext {
            mapping_definitions: Vec::new(),
            list_definitions: Vec::new(),
            pending_mappings: Vec::new(),
            pending_lists: Vec::new(),
        }
    }

    /// The handle of an object shape: the one already stored when an equal shape is
    /// there (a reserved handle still waiting for its shape is not one), else a new one.
    pub fn intern_mapping(&mut self, atomic: MappingAtomic) -> (r: u64)
        requires
            old(self).mapping_definitions.len() < u64::MAX,
        ensures
            r < final(self).mapping_definitions.len(),
            final(self).mapping_definitions[r as int].same_as(atomic),
            final(self).list_definitions == old(self).list_definitions,
            final(self).pending_mappings == old(self).pending_mappings,
            final(self).pending_lists == old(self).pending_lists,
            final(self).mapping_definitions.len() <= old(self).mapping_definitions.len() + 1,
            forall|i: int|
                0 <= i < old(self).mapping_definitions.len() ==> final(self).mapping_definitions[i] == old(self).mapping_definitions[i],
            (exists|i: int|
                0 <= i < old(self).mapping_definitions.len() && !old(self).pending_mappings@.contains(i as u64) && (#[trigger] old(self).mapping_definitions[i]).same_as(atomic)) ==> final(self).mapping_definitions
                == old(self).mapping_definitions,
    {
        let mut i: usize = 0;
        while i < self.mapping_definitions.len()
            invariant
                0 <= i <= self.mapping_definitions.len(),
                forall|j: int|
                    0 <= j < i ==> !(#[trigger] self.mapping_definitions[j]).same_as(atomic) || self.pending_mappings@.contains(j as u64),
            decreases self.mapping_definitions.len() - i,
        {
            if self.mapping_definitions[i].equals(&atomic) && !holds_handle(&self.pending_mappings, i as u64) {
                return i as u64;
            }
            i = i + 1;
        }
        let r = self.mapping_definitions.len() as u64;
        proof {
            lemma_semtypes_same_refl_fields(atomic);
        }
        self.mapping_definitions.push(atomic);
        r
    }

    /// The handle of an array shape: the one already stored when an equal shape is
    /// there (a reserved handle still waiting for its shape is not one), else a new one.
    pub fn intern_list(&mut self, atomic: ListAtomic) -> (r: u64)
        requires
            old(self).list_definitions.len() < u64::MAX,
        ensures
            r < final(self).list_definitions.len(),
            final(self).list_definitions[r as int].same_as(atomic),
            final(self).mapping_definitions == old(self).mapping_definitions,
            final(self).pending_mappings == old(self).pending_mappings,
            final(self).pending_lists == old(self).pending_lists,
            final(self).list_definitions.len() <= old(self).list_definitions.len() + 1,
            forall|i: int|
                0 <= i < old(self).list_definitions.len() ==> final(self).list_definitions[i] == old(self).list_definitions[i],
            (exists|i: int|
                0 <= i < old(self).list_definitions.len() && !old(self).pending_lists@.contains(i as u64) && (#[trigger] old(self).list_definitions[i]).same_as(atomic)) ==> final(self).list_definitions
                == old(self).list_definitions,
    {
        let mut i: usize = 0;
        while i < self.list_definitions.len()
            invariant
                0 <= i <= self.list_definitions.len(),
                forall|j: int|
                    0 <= j < i ==> !(#[trigger] self.list_definitions[j]).same_as(atomic) || self.pending_lists@.contains(j as u64),
            decreases self.list_definitions.len() - i,
        {
            if self.list_definitions[i].equals(&atomic) && !holds_handle(&self.pending_lists, i as u64) {
                return i as u64;
            }
            i = i + 1;
        }
        let r = self.list_definitions.len() as u64;
        proof {
            lemma_semtypes_same_refl_list(atomic);
        }
        self.list_definitions.push(atomic);
        r
    }

    /// A fresh object handle whose shape is filled in later, for a shape that refers
    /// to itself; until then interning does not hand it out.
    pub fn reserve_mapping(&mut self) -> (r: u64)
        requires
            old(self).mapping_definitions.len() < u64::MAX,
        ensures
            r == old(self).mapping_definitions.len(),
            final(self).mapping_definitions.len() == old(self).mapping_definitions.len() + 1,
            final(self).list_definitions == old(self).list_definitions,
            final(self).pending_mappings@ == old(self).pending_mappings@.push(r),
            final(self).pending_lists == old(self).pending_lists,
    {
        let r = self.mapping_definitions.len() as u64;
        self.mapping_definitions.push(MappingAtomic { fields: Vec::new() });
        self.pending_mappings.push(r);
        r
    }

    /// A fresh array handle whose shape is filled in later.
    pub fn reserve_list(&mut self) -> (r: u64)
        requires
            old(self).list_definitions.len() < u64::MAX,
        ensures
            r == old(self).list_definitions.len(),
            final(self).list_definitions.len() == old(self).list_definitions.len() + 1,
            final(self).mapping_definitions == old(self).mapping_definitions,
            final(self).pending_lists@ == old(self).pending_lists@.push(r),
            final(self).pending_mappings == old(self).pending_mappings,
    {
        let r = self.list_definitions.len() as u64;
        self.list_definitions.push(ListAtomic { prefix_items: Vec::new(), items: SemType::never() });
        self.pending_lists.push(r);
        r
    }

    /// Fills in the shape of a reserved object handle.
    pub fn define_mapping(&mut self, handle: u64, atomic: MappingAtomic) -> (r: Result<
        (),
        EngineError,
    >)
        ensures
            r is Ok <==> handle < old(self).mapping_definitions.len(),
            r is Ok ==> final(self).mapping_definitions@ == old(self).mapping_definitions@.update(
                handle as int,
                atomic,
            ),
            r is Err ==> *final(self) == *old(self),
            final(self).list_definitions == old(self).list_definitions,
            final(self).pending_lists == old(self).pending_lists,
            r is Ok ==> forall|x: u64|
                final(self).pending_mappings@.contains(x) <==> old(self).pending_mappings@.contains(x)
                    && x != handle,
    {
        if handle >= self.mapping_definitions.len() as u64 {
            return Err(EngineError::InvalidHandle);
        }
        self.mapping_definitions.set(handle as usize, atomic);
        self.pending_mappings = without_handle(&self.pending_mappings, handle);
        Ok(())
    }

    /// Fills in the shape of a reserved array handle.
    pub fn define_list(&mut self, handle: u64, atomic: ListAtomic) -> (r: Result<(), EngineError>)
        ensures
            r is Ok <==> handle < old(self).list_definitions.len(),
            r is Ok ==> final(self).list_definitions@ == old(self).list_definitions@.update(
                handle as int,
                atomic,
            ),
            r is Err ==> *final(self) == *old(self),
            final(self).mapping_definitions == old(self).mapping_definitions,
            final(self).pending_mappings == old(self).pending_mappings,
            r is Ok ==> forall|x: u64|
                final(self).pending_lists@.contains(x) <==> old(self).pending_lists@.contains(x) && x
                    != handle,
    {
        if handle >= self.list_definitions.len() as u64 {
            return Err(EngineError::InvalidHandle);
        }
        self.list_definitions.set(handle as usize, atomic);
        self.pending_lists = without_handle(&self.pending_lists, handle);
        Ok(())
    }

    /// The shape behind an object handle.
    pub fn get_mapping_atomic(&self, handle: u64) -> (r: Option<&MappingAtomic>)
        ensures
            handle < self.mapping_definitions.len() ==> r == Some(
                &self.mapping_definitions[handle as int],
            ),
            handle >= self.mapping_definitions.len() ==> r is None,
    {
        if handle < self.mapping_definitions.len() as u64 {
            Some(&self.mapping_definitions[handle as usize])
        } else {
            None
        }
    }

    /// The shape behind an array handle.
    pub fn get_list_atomic(&self, handle: u64) -> (r: Option<&ListAtomic>)
        ensures
            handle < self.list_definitions.len() ==> r == Some(
                &self.list_definitions[handle as int],
            ),
            handle >= self.list_definitions.len() ==> r is None,
    {
        if handle < self.list_definitions.len() as u64 {
            Some(&self.list_definitions[handle as usize])
        } else {
            None
        }
    }

    /// The fields that a value with every shape of `pos` has.
    pub(crate) fn combined_mapping(&self, pos: &Vec<u64>) -> (r: Result<Vec<(String, SemType)>, EngineError>)
        requires
            pos.len() > 0,
        ensures
            pos.len() == 1 && pos[0] < self.mapping_definitions.len() ==> ({
                let fields = self.mapping_definitions[pos[0] as int].fields;
                r matches Ok(fs) && fs.len() == fields.len() && forall|i: int|
                    0 <= i < fields.len() ==> #[trigger] same_field(fs[i], fields[i])
            }),
    {
        let mut acc: Vec<(String, SemType)> = Vec::new();
        let mut i: usize = 0;
        while i < pos.len()
            invariant
                0 <= i <= pos.len(),
                i == 1 && pos.len() == 1 ==> ({
                    let fields = self.mapping_definitions[pos[0] as int].fields;
                    acc.len() == fields.len() && forall|k: int|
                        0 <= k < fields.len() ==> #[trigger] same_field(acc[k], fields[k])
                }),
            decreases pos.len() - i,
        {
            let h = pos[i];
            if h >= self.mapping_definitions.len() as u64 {
                return Err(EngineError::InvalidHandle);
            }
            let fields = &self.mapping_definitions[h as usize].fields;
            acc = if i == 0 {
                copy_fields(fields)
            } else {
                intersect_fields(&acc, fields)
            };
            i = i + 1;
        }
        Ok(acc)
    }

    /// Whether the path requires exactly one object shape, whose field types have no
    /// structural refinement and each hold a value, and excludes none.
    pub open spec fn plain_mapping_path(self, pos: Seq<u64>, neg: Seq<u64>) -> bool {
        &&& pos.len() == 1
        &&& neg.len() == 0
        &&& pos[0] < self.mapping_definitions.len()
        &&& forall|i: int|
            0 <= i < self.mapping_definitions[pos[0] as int].fields.len() ==> {
                let t = (#[trigger] self.mapping_definitions[pos[0] as int].fields[i]).1;
                t.unstructured() && exists|p: Probe| t.contains(p)
            }
    }

    /// Whether the path requires exactly one array shape, without prefix, whose items
    /// have no structural refinement and hold a value (or nothing, for a fixed length),
    /// and excludes none.
    pub open spec fn plain_list_path(self, pos: Seq<u64>, neg: Seq<u64>) -> bool {
        &&& pos.len() == 1
        &&& neg.len() == 0
        &&& pos[0] < self.list_definitions.len()
        &&& self.list_definitions[pos[0] as int].prefix_items.len() == 0
        &&& self.list_definitions[pos[0] as int].items.unstructured()
        &&& self.list_definitions[pos[0] as int].items.inhabited_or_closed()
    }

    /// The prefix and rest that a value with every shape of `pos` has, and whether one
    /// of the shapes is a tuple of fixed length (its rest holds nothing).
    pub(crate) fn combined_list(&self, pos: &Vec<u64>) -> (r: Result<(Vec<SemType>, SemType, bool), EngineError>)
        requires
            pos.len() > 0,
        ensures
            pos.len() == 1 && pos[0] < self.list_definitions.len() ==> ({
                let atom = self.list_definitions[pos[0] as int];
                r matches Ok((prefix, rest, closed)) && prefix.len() == atom.prefix_items.len()
                    && closed == atom.items.never_shape() && rest.unstructured()
                    == atom.items.unstructured() && forall|p: Probe| #[trigger]
                    rest.contains(p) == atom.items.contains(p)
            }),
    {
        let mut prefix: Vec<SemType> = Vec::new();
        let mut rest = SemType::never();
        let mut closed = false;
        let mut i: usize = 0;
        while i < pos.len()
            invariant
                0 <= i <= pos.len(),
                i == 1 && pos.len() == 1 ==> ({
                    let atom = self.list_definitions[pos[0] as int];
                    prefix.len() == atom.prefix_items.len() && closed == atom.items.never_shape()
                        && rest.unstructured() == atom.items.unstructured() && forall|p: Probe|
                        #[trigger] rest.contains(p) == atom.items.contains(p)
                }),
                i == 0 ==> !closed,
            decreases pos.len() - i,
        {
            let h = pos[i];
            if h >= self.list_definitions.len() as u64 {
                return Err(EngineError::InvalidHandle);
            }
            let atom = &self.list_definitions[h as usize];
            if i == 0 {
                prefix = copy_types(&atom.prefix_items);
                rest = atom.items.duplicate();
            } else {
                prefix = intersect_prefix(&prefix, &rest, &atom.prefix_items, &atom.items);
                rest = rest.intersect(&atom.items);
            }
            if atom.items.is_never() {
                closed = true;
            }
            i = i + 1;
        }
        Ok((prefix, rest, closed))
    }

    /// Whether the type holds no value. `Ok(false)` only where the type includes some
    /// value; `Ok(true)` wherever it includes none.
    pub fn is_empty_depth(&self, ty: &SemType, fuel: u64) -> (r: Result<bool, EngineError>)
        ensures
            fuel > 0 && r == Ok::<bool, EngineError>(true) ==> forall|h: u64|
                ty.mapping == Some(#[trigger] atom_node(h)) ==> !self.plain_mapping_path(
                    seq![h],
                    Seq::empty(),
                ),
            fuel > 0 && r == Ok::<bool, EngineError>(true) ==> forall|h: u64|
                ty.list == Some(#[trigger] atom_node(h)) ==> !self.plain_list_path(
                    seq![h],
                    Seq::empty(),
                ),
            r == Ok::<bool, EngineError>(false) ==> exists|p: Probe| ty.contains(p),
            (forall|p: Probe| !ty.contains(p)) ==> r == Ok::<bool, EngineError>(true),
            ty.mapping is None && ty.list is None ==> r == Ok::<bool, EngineError>(
                !exists|p: Probe| ty.contains(p),
            ),
        decreases fuel, 1nat, 0nat,
    {
        if ty.all & NULL != 0 {
            assert(ty.contains(Probe::Null));
            return Ok(false);
        }
        if ty.all & BOOLEAN != 0 {
            assert(ty.contains(Probe::Bool(true)));
            return Ok(false);
        }
        if ty.all & NUMBER != 0 {
            assert(ty.contains(Probe::Number((0nat, Seq::empty()))));
            return Ok(false);
        }
        if ty.all & STRING != 0 {
            assert(ty.contains(Probe::Str((1nat, Seq::empty()))));
            return Ok(false);
        }
        if ty.all & MAPPING != 0 {
            assert(ty.contains(Probe::Mapping(Set::empty())));
            return Ok(false);
        }
        if ty.all & LIST != 0 {
            assert(ty.contains(Probe::List(Set::empty())));
            return Ok(false);
        }
        if ty.all & VOID != 0 {
            assert(ty.contains(Probe::Void));
            return Ok(false);
        }
        if let Some(b) = ty.boolean {
            assert(ty.contains(Probe::Bool(b)));
            return Ok(false);
        }
        if let Some(ls) = &ty.number {
            if !ls.is_empty() {
                let ghost k = choose|k: LitKey| ls.admits(k);
                assert(ty.contains(Probe::Number(k)));
                return Ok(false);
            }
        }
        if let Some(ls) = &ty.string {
            if !ls.is_empty() {
                let ghost k = choose|k: LitKey| ls.admits(k);
                assert(ty.contains(Probe::Str(k)));
                return Ok(false);
            }
        }
        if let Some(b) = &ty.mapping {
            proof {
                assert(set_of(Seq::<u64>::empty()) =~= Set::empty());
                if path_ok(*b, Set::empty(), Set::empty()) {
                    lemma_path_ok_sound(*b, Set::empty(), Set::empty());
                    let env = choose|env: Set<u64>|
                        Set::<u64>::empty().subset_of(env) && env.disjoint(Set::empty())
                            && #[trigger] b.eval(env);
                    assert(ty.contains(Probe::Mapping(env)));
                }
            }
            let w = self.bdd_witness(b, false, &Vec::new(), &Vec::new(), fuel)?;
            proof {
                assert(set_of(Seq::<u64>::empty()) =~= Set::empty());
                if w is Some {
                    lemma_path_ok_sound(*b, Set::empty(), Set::empty());
                    let env = choose|env: Set<u64>|
                        Set::<u64>::empty().subset_of(env) && env.disjoint(Set::empty())
                            && #[trigger] b.eval(env);
                    assert(ty.contains(Probe::Mapping(env)));
                }
            }
            if w.is_some() {
                return Ok(false);
            }
        }
        if let Some(b) = &ty.list {
            proof {
                assert(set_of(Seq::<u64>::empty()) =~= Set::empty());
                if path_ok(*b, Set::empty(), Set::empty()) {
                    lemma_path_ok_sound(*b, Set::empty(), Set::empty());
                    let env = choose|env: Set<u64>|
                        Set::<u64>::empty().subset_of(env) && env.disjoint(Set::empty())
                            && #[trigger] b.eval(env);
                    assert(ty.contains(Probe::List(env)));
                }
            }
            let w = self.bdd_witness(b, true, &Vec::new(), &Vec::new(), fuel)?;
            proof {
                assert(set_of(Seq::<u64>::empty()) =~= Set::empty());
                if w is Some {
                    lemma_path_ok_sound(*b, Set::empty(), Set::empty());
                    let env = choose|env: Set<u64>|
                        Set::<u64>::empty().subset_of(env) && env.disjoint(Set::empty())
                            && #[trigger] b.eval(env);
                    assert(ty.contains(Probe::List(env)));
                }
            }
            if w.is_some() {
                return Ok(false);
            }
        }
        proof {
            if ty.mapping is None && ty.list is None {
                assert forall|p: Probe| !ty.contains(p) by {
                    match p {
                        Probe::Number(k) => {
                            if let Some(ls) = ty.number {
                                assert(!ls.admits(k));
                            }
                        },
                        Probe::Str(k) => {
                            if let Some(ls) = ty.string {
                                assert(!ls.admits(k));
                            }
                        },
                        _ => {},
                    }
                }
            }
        }
        Ok(true)
    }

    /// The first path of `b`, below the atoms already required (`pos`) and excluded
    /// (`neg`), that some value of the shapes it names can follow.
    pub(crate) fn bdd_witness(&self, b: &Bdd, is_list: bool, pos: &Vec<u64>, neg: &Vec<u64>, fuel: u64) -> (r:
        Result<Option<(Vec<u64>, Vec<u64>)>, EngineError>)
        ensures
            r matches Ok(Some(_)) ==> path_ok(*b, set_of(pos@), set_of(neg@)),
            !path_ok(*b, set_of(pos@), set_of(neg@)) ==> r matches Ok(None),
            *b is True && is_list && fuel > 0 && self.plain_list_path(pos@, neg@) ==> (r matches Ok(
                Some((p, n)),
            ) && p@ == pos@ && n@ == neg@),
            forall|h: u64|
                *b == #[trigger] atom_node(h) && is_list && fuel > 0 && pos@.len() == 0 && neg@.len()
                    == 0 && self.plain_list_path(seq![h], Seq::empty()) ==> (r matches Ok(
                    Some((p, n)),
                ) && p@ == seq![h] && n@.len() == 0),
            *b is True && !is_list && fuel > 0 && self.plain_mapping_path(pos@, neg@) ==> (r matches Ok(
                Some((p, n)),
            ) && p@ == pos@ && n@ == neg@),
            forall|h: u64|
                *b == #[trigger] atom_node(h) && !is_list && fuel > 0 && pos@.len() == 0 && neg@.len()
                    == 0 && self.plain_mapping_path(seq![h], Seq::empty()) ==> (r matches Ok(
                    Some((p, n)),
                ) && p@ == seq![h] && n@.len() == 0),
        decreases fuel, 0nat, b.size(),
    {
        match b {
            Bdd::False => Ok(None),
            Bdd::True => {
                proof {
                    if neg@.len() == 0 {
                        assert(set_of(neg@) =~= Set::empty());
                    }
                }
                if !apart(pos, neg) {
                    return Ok(None);
                }
                if fuel == 0 {
                    return Err(EngineError::TooComplex);
                }
                let inhabited = if is_list {
                    self.list_path_inhabited(pos, neg, fuel - 1)?
                } else {
                    self.mapping_path_inhabited(pos, neg, fuel - 1)?
                };
                if inhabited {
                    Ok(Some((copy_handles(pos), copy_handles(neg))))
                } else {
                    Ok(None)
                }
            },
            Bdd::Node { atom, left, middle, right } => {
                let pos_l = pushed(pos, *atom);
                proof {
                    if pos@.len() == 0 {
                        assert(pos_l@ =~= seq![*atom]);
                    }
                    if neg@.len() == 0 {
                        assert(neg@ =~= Seq::<u64>::empty());
                    }
                }
                let w = self.bdd_witness(&**left, is_list, &pos_l, neg, fuel)?;
                if w.is_some() {
                    return Ok(w);
                }
                let w = self.bdd_witness(&**middle, is_list, pos, neg, fuel)?;
                if w.is_some() {
                    return Ok(w);
                }
                let neg_r = pushed(neg, *atom);
                self.bdd_witness(&**right, is_list, pos, &neg_r, fuel)
            },
        }
    }

    /// Whether an object with every shape of `pos` and none of `neg` exists.
    fn mapping_path_inhabited(&self, pos: &Vec<u64>, neg: &Vec<u64>, fuel: u64) -> (r: Result<
        bool,
        EngineError,
    >)
        ensures
            self.plain_mapping_path(pos@, neg@) ==> r == Ok::<bool, EngineError>(true),
        decreases fuel, 3nat, 0nat,
    {
        if pos.len() == 0 {
            return Ok(true);
        }
        let fields = self.combined_mapping(pos)?;
        let ghost plain = self.plain_mapping_path(pos@, neg@);
        let mut i: usize = 0;
        while i < fields.len()
            invariant
                0 <= i <= fields.len(),
                plain == self.plain_mapping_path(pos@, neg@),
                plain ==> fields.len() == self.mapping_definitions[pos[0] as int].fields.len()
                    && forall|k: int|
                    0 <= k < fields.len() ==> #[trigger] same_field(
                        fields[k],
                        self.mapping_definitions[pos[0] as int].fields[k],
                    ),
            decreases fields.len() - i,
        {
            proof {
                if plain {
                    let ft = self.mapping_definitions[pos[0] as int].fields[i as int];
                    assert(same_field(fields[i as int], ft));
                    let p = choose|p: Probe| ft.1.contains(p);
                    assert(fields[i as int].1.contains(p));
                }
            }
            if self.is_empty_depth(&fields[i].1, fuel)? {
                return Ok(false);
            }
            i = i + 1;
        }
        self.mapping_neg_inhabited(&fields, neg, 0, fuel)
    }

    /// Whether an object with the `fields` exists outside the shapes `neg[i..]`: it
    /// escapes a shape where one of its fields can take a value that the shape's
    /// field does not admit.
    fn mapping_neg_inhabited(
        &self,
        fields: &Vec<(String, SemType)>,
        neg: &Vec<u64>,
        i: usize,
        fuel: u64,
    ) -> (r: Result<bool, EngineError>)
        ensures
            i >= neg.len() ==> r == Ok::<bool, EngineError>(true),
        decreases fuel, 2nat, neg.len() - i,
    {
        if i >= neg.len() {
            return Ok(true);
        }
        let h = neg[i];
        if h >= self.mapping_definitions.len() as u64 {
            return Err(EngineError::InvalidHandle);
        }
        let shape = &self.mapping_definitions[h as usize].fields;
        let mut names: Vec<String> = Vec::new();
        let mut j: usize = 0;
        while j < fields.len()
            invariant
                0 <= j <= fields.len(),
            decreases fields.len() - j,
        {
            names.push(fields[j].0.clone());
            j = j + 1;
        }
        let mut j: usize = 0;
        while j < shape.len()
            invariant
                0 <= j <= shape.len(),
            decreases shape.len() - j,
        {
            if find_field(fields, &shape[j].0).is_none() {
                names.push(shape[j].0.clone());
            }
            j = j + 1;
        }
        let mut j: usize = 0;
        while j < names.len()
            invariant
                0 <= j <= names.len(),
                i < neg.len(),
            decreases names.len() - j,
        {
            let name = &names[j];
            let d = field_type(fields, name).diff(&field_type(shape, name));
            if !self.is_empty_depth(&d, fuel)? {
                let mut narrowed = copy_fields(fields);
                match find_field(fields, name) {
                    Some(k) => {
                        narrowed.set(k, (name.clone(), d));
                    },
                    None => {
                        narrowed.push((name.clone(), d));
                    },
                }
                if self.mapping_neg_inhabited(&narrowed, neg, i + 1, fuel)? {
                    return Ok(true);
                }
            }
            j = j + 1;
        }
        Ok(false)
    }

    /// Whether an array with every shape of `pos` and none of `neg` exists: each of its
    /// positions, and its rest unless a shape fixes its length, must hold a value.
    fn list_path_inhabited(&self, pos: &Vec<u64>, neg: &Vec<u64>, fuel: u64) -> (r: Result<
        bool,
        EngineError,
    >)
        ensures
            self.plain_list_path(pos@, neg@) ==> r == Ok::<bool, EngineError>(true),
        decreases fuel, 3nat, 0nat,
    {
        if pos.len() == 0 {
            return Ok(true);
        }
        let (prefix, rest, closed) = self.combined_list(pos)?;
        proof {
            if self.plain_list_path(pos@, neg@) {
                let items = self.list_definitions[pos[0] as int].items;
                if !closed {
                    let p = choose|p: Probe| items.contains(p);
                    assert(rest.contains(p));
                }
            }
        }
        let mut i: usize = 0;
        while i < prefix.len()
            invariant
                0 <= i <= prefix.len(),
                self.plain_list_path(pos@, neg@) ==> prefix.len() == 0,
            decreases prefix.len() - i,
        {
            if self.is_empty_depth(&prefix[i], fuel)? {
                return Ok(false);
            }
            i = i + 1;
        }
        if !closed && self.is_empty_depth(&rest, fuel)? {
            return Ok(false);
        }
        self.list_neg_inhabited(&prefix, &rest, neg, 0, fuel)
    }

    /// Whether an array with the `prefix` and `rest` exists outside the shapes
    /// `neg[i..]`: it escapes a shape where one position can take a value that the
    /// shape does not admit there.
    fn list_neg_inhabited(
        &self,
        prefix: &Vec<SemType>,
        rest: &SemType,
        neg: &Vec<u64>,
        i: usize,
        fuel: u64,
    ) -> (r: Result<bool, EngineError>)
        ensures
            i >= neg.len() ==> r == Ok::<bool, EngineError>(true),
        decreases fuel, 2nat, neg.len() - i,
    {
        if i >= neg.len() {
            return Ok(true);
        }
        let h = neg[i];
        if h >= self.list_definitions.len() as u64 {
            return Err(EngineError::InvalidHandle);
        }
        let shape = &self.list_definitions[h as usize];
        let n = if prefix.len() < shape.prefix_items.len() {
            shape.prefix_items.len()
        } else {
            prefix.len()
        };
        let mut widened: Vec<SemType> = Vec::new();
        let mut j: usize = 0;
        while j < n
            invariant
                0 <= j <= n,
                widened.len() == j,
            decreases n - j,
        {
            widened.push(position_type(prefix, rest, j));
            j = j + 1;
        }
        let mut j: usize = 0;
        while j < n
            invariant
                0 <= j <= n,
                widened.len() == n,
                i < neg.len(),
            decreases n - j,
        {
            let d = widened[j].diff(&position_type(&shape.prefix_items, &shape.items, j));
            if !self.is_empty_depth(&d, fuel)? {
                let mut narrowed = copy_types(&widened);
                narrowed.set(j, d);
                if self.list_neg_inhabited(&narrowed, rest, neg, i + 1, fuel)? {
                    return Ok(true);
                }
            }
            j = j + 1;
        }
        let d = rest.diff(&shape.items);
        if !self.is_empty_depth(&d, fuel)? {
            let widened = copy_types(&widened);
            if self.list_neg_inhabited(&widened, &d, neg, i + 1, fuel)? {
                return Ok(true);
            }
        }
        Ok(false)
    }

}

/// A copy of a list of handles.
fn copy_handles(v: &Vec<u64>) -> (r: Vec<u64>)
    ensures
        r@ == v@,
{
    let mut r: Vec<u64> = Vec::new();
    let mut i: usize = 0;
    while i < v.len()
        invariant
            0 <= i <= v.len(),
            r@ == v@.subrange(0, i as int),
        decreases v.len() - i,
    {
        r.push(v[i]);
        assert(v@.subrange(0, i + 1) == v@.subrange(0, i as int).push(v@[i as int]));
        i = i + 1;
    }
    assert(v@.subrange(0, v.len() as int) == v@);
    r
}

impl SemType {
    /// Whether the type holds no value; see `SemTypeContext::is_empty_depth`.
    pub fn is_empty(&self, ctx: &SemTypeContext) -> (r: Result<bool, EngineError>)
        ensures
            r == Ok::<bool, EngineError>(true) ==> forall|h: u64|
                self.mapping == Some(#[trigger] atom_node(h)) ==> !ctx.plain_mapping_path(
                    seq![h],
                    Seq::empty(),
                ),
            r == Ok::<bool, EngineError>(true) ==> forall|h: u64|
                self.list == Some(#[trigger] atom_node(h)) ==> !ctx.plain_list_path(
                    seq![h],
                    Seq::empty(),
                ),
            r == Ok::<bool, EngineError>(false) ==> exists|p: Probe| self.contains(p),
            (forall|p: Probe| !self.contains(p)) ==> r == Ok::<bool, EngineError>(true),
            self.mapping is None && self.list is None ==> r == Ok::<bool, EngineError>(
                !exists|p: Probe| self.contains(p),
            ),
    {
        ctx.is_empty_depth(self, MAX_DEPTH)
    }

    /// Whether every value of this type is one of `other`: the difference is empty.
    pub fn is_subtype(&self, other: &SemType, ctx: &SemTypeContext) -> (r: Result<
        bool,
        EngineError,
    >)
        ensures
            r == Ok::<bool, EngineError>(false) ==> exists|p: Probe|
                self.contains(p) && !other.contains(p),
            (forall|p: Probe| self.contains(p) ==> other.contains(p)) ==> r == Ok::<
                bool,
                EngineError,
            >(true),
    {
        let d = self.diff(other);
        let r = d.is_empty(ctx);
        proof {
            if r == Ok::<bool, EngineError>(false) {
                let p = choose|p: Probe| d.contains(p);
                assert(self.contains(p) && !other.contains(p));
            }
        }
        r
    }
}

} // verus!
