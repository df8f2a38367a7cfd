use vstd::prelude::*;
use crate::bdd::{atom_node, Bdd};
use crate::literal::{LitKey, LitSet, Literal};

verus! {

pub const NULL: u8 = 1;

pub const BOOLEAN: u8 = 2;

pub const NUMBER: u8 = 4;

pub const STRING: u8 = 8;

pub const MAPPING: u8 = 16;

pub const LIST: u8 = 32;

/// The category of an absent object field.
pub const VOID: u8 = 64;

/// Whether the category `bit` is fully included in the mask `all`.
pub open spec fn includes_bit(all: u8, bit: u8) -> bool {
    all & bit != 0
}

proof fn lemma_mask(x0: u8, x1: u8, x2: u8, x3: u8, x4: u8, x5: u8, x6: u8, m: u8)
    by (bit_vector)
    requires
        x0 <= 1,
        x1 <= 1,
        x2 <= 1,
        x3 <= 1,
        x4 <= 1,
        x5 <= 1,
        x6 <= 1,
        m == x0 | (x1 << 1u8) | (x2 << 2u8) | (x3 << 3u8) | (x4 << 4u8) | (x5 << 5u8) | (x6
            << 6u8),
    ensures
        (m & 1u8 != 0) == (x0 == 1),
        (m & 2u8 != 0) == (x1 == 1),
        (m & 4u8 != 0) == (x2 == 1),
        (m & 8u8 != 0) == (x3 == 1),
        (m & 16u8 != 0) == (x4 == 1),
        (m & 32u8 != 0) == (x5 == 1),
        (m & 64u8 != 0) == (x6 == 1),
        m < 128,
{
}

/// A mask below 128 with none of the seven category bits is empty.
proof fn lemma_mask_empty(m: u8)
    by (bit_vector)
    requires
        m < 128,
        m & 1u8 == 0,
        m & 2u8 == 0,
        m & 4u8 == 0,
        m & 8u8 == 0,
        m & 16u8 == 0,
        m & 32u8 == 0,
        m & 64u8 == 0,
    ensures
        m == 0,
{
}

/// A value as the engine sees it: its category, and within the category what the
/// refinements can tell apart (a literal, or the set of structural atoms it satisfies).
pub enum Probe {
    Null,
    Bool(bool),
    Number(LitKey),
    Str(LitKey),
    Mapping(Set<u64>),
    List(Set<u64>),
    Void,
}

/// A semantic type: a mask of fully included categories and, for the others,
/// an optional refinement that includes part of the category.
pub struct SemType {
    pub all: u8,
    pub boolean: Option<bool>,
    pub number: Option<LitSet>,
    pub string: Option<LitSet>,
    pub mapping: Option<Bdd>,
    pub list: Option<Bdd>,
}

/// A refinement of one category.
pub enum ProperSubtype {
    Boolean(bool),
    Number(LitSet),
    String(LitSet),
    Mapping(Bdd),
    List(Bdd),
}

impl SemType {
    /// Whether the type includes the value `p`.
    pub open spec fn contains(self, p: Probe) -> bool {
        match p {
            Probe::Null => includes_bit(self.all, NULL),
            Probe::Bool(b) => includes_bit(self.all, BOOLEAN) || self.boolean == Some(b),
            Probe::Number(k) => includes_bit(self.all, NUMBER) || (match self.number {
                Some(ls) => ls.admits(k),
                None => false,
            }),
            Probe::Str(k) => includes_bit(self.all, STRING) || (match self.string {
                Some(ls) => ls.admits(k),
                None => false,
            }),
            Probe::Mapping(env) => includes_bit(self.all, MAPPING) || (match self.mapping {
                Some(b) => b.eval(env),
                None => false,
            }),
            Probe::List(env) => includes_bit(self.all, LIST) || (match self.list {
                Some(b) => b.eval(env),
                None => false,
            }),
            Probe::Void => includes_bit(self.all, VOID),
        }
    }

    /// Whether the type holds exactly the arrays (`is_list`) or objects that have the
    /// atom `h`, written as one diagram node and nothing else.
    pub open spec fn single_atom(self, h: u64, is_list: bool) -> bool {
        &&& !includes_bit(self.all, NULL)
        &&& !includes_bit(self.all, BOOLEAN)
        &&& !includes_bit(self.all, NUMBER)
        &&& !includes_bit(self.all, STRING)
        &&& !includes_bit(self.all, MAPPING)
        &&& !includes_bit(self.all, LIST)
        &&& !includes_bit(self.all, VOID)
        &&& self.boolean is None
        &&& self.number is None
        &&& self.string is None
        &&& if is_list {
            self.mapping is None && self.list == Some(atom_node(h))
        } else {
            self.list is None && self.mapping == Some(atom_node(h))
        }
    }

    /// Types written alike hold the same values.
    pub proof fn lemma_same_contains(self, other: SemType)
        requires
            self.same_as(other),
        ensures
            forall|p: Probe| #[trigger] self.contains(p) == other.contains(p),
            self.unstructured() == other.unstructured(),
    {
        if let (Some(a), Some(b)) = (self.number, other.number) {
            a.lemma_same_admits(b);
        }
        if let (Some(a), Some(b)) = (self.string, other.string) {
            a.lemma_same_admits(b);
        }
    }

    /// A well-formed type without object or array refinement that holds nothing has
    /// no category and no refinement.
    pub proof fn lemma_empty_is_never(self)
        requires
            self.wf(),
            self.unstructured(),
            forall|p: Probe| !self.contains(p),
        ensures
            self.never_shape(),
    {
        assert(!self.contains(Probe::Null));
        assert(!self.contains(Probe::Void));
        assert(!self.contains(Probe::Bool(true)));
        assert(!self.contains(Probe::Bool(false)));
        assert(!self.contains(Probe::Number((0nat, Seq::empty()))));
        assert(!self.contains(Probe::Str((0nat, Seq::empty()))));
        assert(!self.contains(Probe::Mapping(Set::empty())));
        assert(!self.contains(Probe::List(Set::empty())));
        assert(self.all & 1u8 == 0 && self.all & 2u8 == 0 && self.all & 4u8 == 0 && self.all & 8u8
            == 0 && self.all & 16u8 == 0 && self.all & 32u8 == 0 && self.all & 64u8 == 0);
        lemma_mask_empty(self.all);
        assert(self.boolean is None) by {
            if let Some(b) = self.boolean {
                assert(self.contains(Probe::Bool(b)));
            }
        }
        if let Some(ls) = self.number {
            let k = choose|k: LitKey| ls.admits(k);
            assert(self.contains(Probe::Number(k)));
        }
        if let Some(ls) = self.string {
            let k = choose|k: LitKey| ls.admits(k);
            assert(self.contains(Probe::Str(k)));
        }
    }

    /// Whether the type has no category and no refinement at all.
    pub open spec fn never_shape(self) -> bool {
        self.all == 0 && self.boolean is None && self.number is None && self.string is None
            && self.mapping is None && self.list is None
    }

    /// Whether the type holds some value, or is written as the type of nothing (the
    /// rest of a tuple of fixed length).
    pub open spec fn inhabited_or_closed(self) -> bool {
        self.never_shape() || exists|p: Probe| self.contains(p)
    }

    /// Whether the type has no object or array refinement.
    pub open spec fn unstructured(self) -> bool {
        self.mapping is None && self.list is None
    }

    /// No refinement stands for a category that the mask fully includes, and none
    /// includes the whole category or nothing of it.
    pub open spec fn wf(self) -> bool {
        &&& self.all < 128
        &&& (self.boolean is Some ==> !includes_bit(self.all, BOOLEAN))
        &&& (self.number is Some ==> !includes_bit(self.all, NUMBER))
        &&& (self.string is Some ==> !includes_bit(self.all, STRING))
        &&& (self.number matches Some(ls) ==> exists|k: LitKey| ls.admits(k))
        &&& (self.string matches Some(ls) ==> exists|k: LitKey| ls.admits(k))
        &&& (self.number matches Some(ls) ==> exists|k: LitKey| !ls.admits(k))
        &&& (self.string matches Some(ls) ==> exists|k: LitKey| !ls.admits(k))
        &&& (self.mapping is Some ==> !includes_bit(self.all, MAPPING) && !(self.mapping->0 is True)
            && !(self.mapping->0 is False))
        &&& (self.list is Some ==> !includes_bit(self.all, LIST) && !(self.list->0 is True)
            && !(self.list->0 is False))
    }

    /// Builds a type from what it includes of each category.
    fn assemble(
        null: bool,
        bool_true: bool,
        bool_false: bool,
        number: LitSet,
        string: LitSet,
        mapping: Bdd,
        list: Bdd,
        void: bool,
    ) -> (r: SemType)
        ensures
            r.wf(),
            r.contains(Probe::Null) == null,
            r.contains(Probe::Bool(true)) == bool_true,
            r.contains(Probe::Bool(false)) == bool_false,
            forall|k: LitKey| #[trigger] r.contains(Probe::Number(k)) == number.admits(k),
            forall|k: LitKey| #[trigger] r.contains(Probe::Str(k)) == string.admits(k),
            forall|e: Set<u64>| #[trigger] r.contains(Probe::Mapping(e)) == mapping.eval(e),
            forall|e: Set<u64>| #[trigger] r.contains(Probe::List(e)) == list.eval(e),
            r.contains(Probe::Void) == void,
            mapping.is_terminal() ==> r.mapping is None,
            list.is_terminal() ==> r.list is None,
            !mapping.is_terminal() ==> r.mapping == Some(mapping),
            !list.is_terminal() ==> r.list == Some(list),
            !bool_true && !bool_false ==> r.boolean is None,
            number.allowed && number.values.len() == 0 ==> r.number is None,
            number.allowed && number.values.len() > 0 ==> r.number == Some(number),
            string.allowed && string.values.len() > 0 ==> r.string == Some(string),
            string.allowed && string.values.len() == 0 ==> r.string is None,
    {
        let all_bool = bool_true && bool_false;
        let boolean = if all_bool {
            None
        } else if bool_true {
            Some(true)
        } else if bool_false {
            Some(false)
        } else {
            None
        };
        let all_number = number.is_full();
        let no_number = number.is_empty();
        let number = if all_number || no_number {
            None
        } else {
            Some(number)
        };
        let all_string = string.is_full();
        let no_string = string.is_empty();
        let string = if all_string || no_string {
            None
        } else {
            Some(string)
        };
        let all_mapping = mapping.is_true();
        let mapping = if all_mapping || mapping.is_false() {
            None
        } else {
            Some(mapping)
        };
        let all_list = list.is_true();
        let list = if all_list || list.is_false() {
            None
        } else {
            Some(list)
        };
        let x0: u8 = if null { 1 } else { 0 };
        let x1: u8 = if all_bool { 1 } else { 0 };
        let x2: u8 = if all_number { 1 } else { 0 };
        let x3: u8 = if all_string { 1 } else { 0 };
        let x4: u8 = if all_mapping { 1 } else { 0 };
        let x5: u8 = if all_list { 1 } else { 0 };
        let x6: u8 = if void { 1 } else { 0 };
        let all: u8 = x0 | (x1 << 1u8) | (x2 << 2u8) | (x3 << 3u8) | (x4 << 4u8) | (x5 << 5u8) | (
        x6 << 6u8);
        proof {
            lemma_mask(x0, x1, x2, x3, x4, x5, x6, all);
        }
        let r = SemType { all, boolean, number, string, mapping, list };
        proof {
            if r.number is Some {
                let k = choose|k: LitKey| r.number->0.admits(k);
                assert(r.number->0.admits(k));
                let j = choose|k: LitKey| !r.number->0.admits(k);
                assert(!r.number->0.admits(j));
            }
            if r.string is Some {
                let k = choose|k: LitKey| r.string->0.admits(k);
                assert(r.string->0.admits(k));
                let j = choose|k: LitKey| !r.string->0.admits(k);
                assert(!r.string->0.admits(j));
            }
        }
        assert(r.wf());
        r
    }

    fn number_part(&self) -> (r: LitSet)
        ensures
            forall|k: LitKey| #[trigger] r.admits(k) == self.contains(Probe::Number(k)),
    {
        if self.all & NUMBER != 0 {
            LitSet::full()
        } else {
            match &self.number {
                Some(ls) => ls.duplicate(),
                None => LitSet::empty(),
            }
        }
    }

    fn string_part(&self) -> (r: LitSet)
        ensures
            forall|k: LitKey| #[trigger] r.admits(k) == self.contains(Probe::Str(k)),
    {
        if self.all & STRING != 0 {
            LitSet::full()
        } else {
            match &self.string {
                Some(ls) => ls.duplicate(),
                None => LitSet::empty(),
            }
        }
    }

    fn mapping_part(&self) -> (r: Bdd)
        ensures
            forall|e: Set<u64>| #[trigger] r.eval(e) == self.contains(Probe::Mapping(e)),
            self.mapping is None ==> r.is_terminal(),
    {
        if self.all & MAPPING != 0 {
            Bdd::True
        } else {
            match &self.mapping {
                Some(b) => b.duplicate(),
                None => Bdd::False,
            }
        }
    }

    fn list_part(&self) -> (r: Bdd)
        ensures
            forall|e: Set<u64>| #[trigger] r.eval(e) == self.contains(Probe::List(e)),
            self.list is None ==> r.is_terminal(),
    {
        if self.all & LIST != 0 {
            Bdd::True
        } else {
            match &self.list {
                Some(b) => b.duplicate(),
                None => Bdd::False,
            }
        }
    }

    fn bool_part(&self, b: bool) -> (r: bool)
        ensures
            r == self.contains(Probe::Bool(b)),
    {
        self.all & BOOLEAN != 0 || match self.boolean {
            Some(x) => x == b,
            None => false,
        }
    }

    /// The type that includes nothing.
    pub fn never() -> (r: SemType)
        ensures
            r.wf(),
            r.never_shape(),
            r.unstructured(),
            r.never_shape(),
            forall|p: Probe| !r.contains(p),
    {
        proof {
            assert(0u8 & NULL == 0) by (bit_vector);
            assert(0u8 & BOOLEAN == 0) by (bit_vector);
            assert(0u8 & NUMBER == 0) by (bit_vector);
            assert(0u8 & STRING == 0) by (bit_vector);
            assert(0u8 & MAPPING == 0) by (bit_vector);
            assert(0u8 & LIST == 0) by (bit_vector);
            assert(0u8 & VOID == 0) by (bit_vector);
        }
        SemType { all: 0, boolean: None, number: None, string: None, mapping: None, list: None }
    }

    /// The type that fully includes the categories whose flags are set.
    pub fn of_categories(
        null: bool,
        boolean: bool,
        number: bool,
        string: bool,
        mapping: bool,
        list: bool,
        void: bool,
    ) -> (r: SemType)
        ensures
            r.wf(),
            r.unstructured(),
            r.contains(Probe::Null) == null,
            forall|b: bool| #[trigger] r.contains(Probe::Bool(b)) == boolean,
            forall|k: LitKey| #[trigger] r.contains(Probe::Number(k)) == number,
            forall|k: LitKey| #[trigger] r.contains(Probe::Str(k)) == string,
            forall|e: Set<u64>| #[trigger] r.contains(Probe::Mapping(e)) == mapping,
            forall|e: Set<u64>| #[trigger] r.contains(Probe::List(e)) == list,
            r.contains(Probe::Void) == void,
    {
        let n = if number { LitSet::full() } else { LitSet::empty() };
        let s = if string { LitSet::full() } else { LitSet::empty() };
        let m = if mapping { Bdd::True } else { Bdd::False };
        let l = if list { Bdd::True } else { Bdd::False };
        let r = SemType::assemble(null, boolean, boolean, n, s, m, l, void);
        assert forall|b: bool| #[trigger] r.contains(Probe::Bool(b)) == boolean by {
            if b {
            } else {
            }
        }
        r
    }

    /// The type of one boolean literal.
    pub fn bool_const(b: bool) -> (r: SemType)
        ensures
            r.wf(),
            r.unstructured(),
            forall|p: Probe| #[trigger] r.contains(p) == (p == Probe::Bool(b)),
    {
        let r = SemType::assemble(
            false,
            b,
            !b,
            LitSet::empty(),
            LitSet::empty(),
            Bdd::False,
            Bdd::False,
            false,
        );
        assert forall|p: Probe| #[trigger] r.contains(p) == (p == Probe::Bool(b)) by {
            match p {
                Probe::Bool(x) => {
                    if x {
                    } else {
                    }
                },
                Probe::Number(k) => {
                    assert(!r.contains(Probe::Number(k)));
                },
                Probe::Str(k) => {
                    assert(!r.contains(Probe::Str(k)));
                },
                Probe::Mapping(e) => {
                    assert(!r.contains(Probe::Mapping(e)));
                },
                Probe::List(e) => {
                    assert(!r.contains(Probe::List(e)));
                },
                _ => {},
            }
        }
        r
    }

    /// The type of the values that `ls` admits of the number category (`is_string`
    /// false) or of the string category (`is_string` true).
    pub fn from_literals(ls: LitSet, is_string: bool) -> (r: SemType)
        ensures
            r.wf(),
            r.unstructured(),
            ls.allowed && ls.values.len() > 0 ==> if is_string {
                r.string == Some(ls) && r.number is None
            } else {
                r.number == Some(ls) && r.string is None
            },
            forall|k: LitKey| #[trigger]
                r.contains(Probe::Number(k)) == (!is_string && ls.admits(k)),
            forall|k: LitKey| #[trigger] r.contains(Probe::Str(k)) == (is_string && ls.admits(k)),
            !r.contains(Probe::Null),
            !r.contains(Probe::Void),
            forall|b: bool| !(#[trigger] r.contains(Probe::Bool(b))),
            forall|e: Set<u64>| !(#[trigger] r.contains(Probe::Mapping(e))),
            forall|e: Set<u64>| !(#[trigger] r.contains(Probe::List(e))),
    {
        let (n, s) = if is_string {
            (LitSet::empty(), ls)
        } else {
            (ls, LitSet::empty())
        };
        let r = SemType::assemble(false, false, false, n, s, Bdd::False, Bdd::False, false);
        assert forall|b: bool| !(#[trigger] r.contains(Probe::Bool(b))) by {
            if b {
            } else {
            }
        }
        r
    }

    /// The type of the mappings (`is_list` false) or lists (`is_list` true) that `bdd`
    /// describes.
    pub fn from_bdd(bdd: Bdd, is_list: bool) -> (r: SemType)
        ensures
            r.wf(),
            r.boolean is None && r.number is None && r.string is None,
            !bdd.is_terminal() ==> if is_list {
                r.mapping is None && r.list == Some(bdd)
            } else {
                r.list is None && r.mapping == Some(bdd)
            },
            forall|e: Set<u64>| #[trigger] r.contains(Probe::Mapping(e)) == (!is_list && bdd.eval(e)),
            forall|e: Set<u64>| #[trigger] r.contains(Probe::List(e)) == (is_list && bdd.eval(e)),
            !r.contains(Probe::Null),
            !r.contains(Probe::Void),
            forall|b: bool| !(#[trigger] r.contains(Probe::Bool(b))),
            forall|k: LitKey| !(#[trigger] r.contains(Probe::Number(k))),
            forall|k: LitKey| !(#[trigger] r.contains(Probe::Str(k))),
    {
        let (m, l) = if is_list {
            (Bdd::False, bdd)
        } else {
            (bdd, Bdd::False)
        };
        let r = SemType::assemble(
            false,
            false,
            false,
            LitSet::empty(),
            LitSet::empty(),
            m,
            l,
            false,
        );
        assert forall|b: bool| !(#[trigger] r.contains(Probe::Bool(b))) by {
            if b {
            } else {
            }
        }
        r
    }

    /// The values that either type includes.
    pub fn union(&self, other: &SemType) -> (r: SemType)
        ensures
            r.wf(),
            forall|p: Probe| #[trigger] r.contains(p) == (self.contains(p) || other.contains(p)),
            self.unstructured() && other.unstructured() ==> r.unstructured(),
    {
        let (n1, n2) = (self.number_part(), other.number_part());
        let (s1, s2) = (self.string_part(), other.string_part());
        let (m1, m2) = (self.mapping_part(), other.mapping_part());
        let (l1, l2) = (self.list_part(), other.list_part());
        let n = n1.union(&n2);
        let s = s1.union(&s2);
        let m = m1.union(&m2);
        let l = l1.union(&l2);
        let ghost (gn, gs, gm, gl) = (n, s, m, l);
        let r = SemType::assemble(
            self.all & NULL != 0 || other.all & NULL != 0,
            self.bool_part(true) || other.bool_part(true),
            self.bool_part(false) || other.bool_part(false),
            n,
            s,
            m,
            l,
            self.all & VOID != 0 || other.all & VOID != 0,
        );
        assert forall|p: Probe| #[trigger]
            r.contains(p) == (self.contains(p) || other.contains(p)) by {
            match p {
                Probe::Bool(b) => {
                    if b {
                    } else {
                    }
                },
                Probe::Number(k) => {
                    assert(r.contains(Probe::Number(k)) == gn.admits(k));
                    assert(n1.admits(k) == self.contains(Probe::Number(k)));
                    assert(n2.admits(k) == other.contains(Probe::Number(k)));
                },
                Probe::Str(k) => {
                    assert(r.contains(Probe::Str(k)) == gs.admits(k));
                    assert(s1.admits(k) == self.contains(Probe::Str(k)));
                    assert(s2.admits(k) == other.contains(Probe::Str(k)));
                },
                Probe::Mapping(e) => {
                    assert(r.contains(Probe::Mapping(e)) == gm.eval(e));
                    assert(m1.eval(e) == self.contains(Probe::Mapping(e)));
                    assert(m2.eval(e) == other.contains(Probe::Mapping(e)));
                },
                Probe::List(e) => {
                    assert(r.contains(Probe::List(e)) == gl.eval(e));
                    assert(l1.eval(e) == self.contains(Probe::List(e)));
                    assert(l2.eval(e) == other.contains(Probe::List(e)));
                },
                _ => {},
            }
        }
        r
    }

    /// The values that both types include.
    pub fn intersect(&self, other: &SemType) -> (r: SemType)
        ensures
            r.wf(),
            forall|p: Probe| #[trigger] r.contains(p) == (self.contains(p) && other.contains(p)),
            self.unstructured() && other.unstructured() ==> r.unstructured(),
    {
        let (n1, n2) = (self.number_part(), other.number_part());
        let (s1, s2) = (self.string_part(), other.string_part());
        let (m1, m2) = (self.mapping_part(), other.mapping_part());
        let (l1, l2) = (self.list_part(), other.list_part());
        let n = n1.intersect(&n2);
        let s = s1.intersect(&s2);
        let m = m1.intersect(&m2);
        let l = l1.intersect(&l2);
        let ghost (gn, gs, gm, gl) = (n, s, m, l);
        let r = SemType::assemble(
            self.all & NULL != 0 && other.all & NULL != 0,
            self.bool_part(true) && other.bool_part(true),
            self.bool_part(false) && other.bool_part(false),
            n,
            s,
            m,
            l,
            self.all & VOID != 0 && other.all & VOID != 0,
        );
        assert forall|p: Probe| #[trigger]
            r.contains(p) == (self.contains(p) && other.contains(p)) by {
            match p {
                Probe::Bool(b) => {
                    if b {
                    } else {
                    }
                },
                Probe::Number(k) => {
                    assert(r.contains(Probe::Number(k)) == gn.admits(k));
                    assert(n1.admits(k) == self.contains(Probe::Number(k)));
                    assert(n2.admits(k) == other.contains(Probe::Number(k)));
                },
                Probe::Str(k) => {
                    assert(r.contains(Probe::Str(k)) == gs.admits(k));
                    assert(s1.admits(k) == self.contains(Probe::Str(k)));
                    assert(s2.admits(k) == other.contains(Probe::Str(k)));
                },
                Probe::Mapping(e) => {
                    assert(r.contains(Probe::Mapping(e)) == gm.eval(e));
                    assert(m1.eval(e) == self.contains(Probe::Mapping(e)));
                    assert(m2.eval(e) == other.contains(Probe::Mapping(e)));
                },
                Probe::List(e) => {
                    assert(r.contains(Probe::List(e)) == gl.eval(e));
                    assert(l1.eval(e) == self.contains(Probe::List(e)));
                    assert(l2.eval(e) == other.contains(Probe::List(e)));
                },
                _ => {},
            }
        }
        r
    }

    /// The values that this type does not include.
    pub fn complement(&self) -> (r: SemType)
        ensures
            r.wf(),
            forall|p: Probe| #[trigger] r.contains(p) == !self.contains(p),
            self.unstructured() ==> r.unstructured(),
    {
        let (n1, s1, m1, l1) = (
            self.number_part(),
            self.string_part(),
            self.mapping_part(),
            self.list_part(),
        );
        let n = n1.complement();
        let s = s1.complement();
        let m = m1.complement();
        let l = l1.complement();
        let ghost (gn, gs, gm, gl) = (n, s, m, l);
        let r = SemType::assemble(
            self.all & NULL == 0,
            !self.bool_part(true),
            !self.bool_part(false),
            n,
            s,
            m,
            l,
            self.all & VOID == 0,
        );
        assert forall|p: Probe| #[trigger] r.contains(p) == !self.contains(p) by {
            match p {
                Probe::Bool(b) => {
                    if b {
                    } else {
                    }
                },
                Probe::Number(k) => {
                    assert(r.contains(Probe::Number(k)) == gn.admits(k));
                    assert(n1.admits(k) == self.contains(Probe::Number(k)));
                },
                Probe::Str(k) => {
                    assert(r.contains(Probe::Str(k)) == gs.admits(k));
                    assert(s1.admits(k) == self.contains(Probe::Str(k)));
                },
                Probe::Mapping(e) => {
                    assert(r.contains(Probe::Mapping(e)) == gm.eval(e));
                    assert(m1.eval(e) == self.contains(Probe::Mapping(e)));
                },
                Probe::List(e) => {
                    assert(r.contains(Probe::List(e)) == gl.eval(e));
                    assert(l1.eval(e) == self.contains(Probe::List(e)));
                },
                _ => {},
            }
        }
        r
    }

    /// The values that this type includes and `other` does not.
    pub fn diff(&self, other: &SemType) -> (r: SemType)
        ensures
            r.wf(),
            forall|p: Probe| #[trigger] r.contains(p) == (self.contains(p) && !other.contains(p)),
            self.unstructured() && other.unstructured() ==> r.unstructured(),
    {
        let c = other.complement();
        self.intersect(&c)
    }

    /// Whether the two types have the same representation.
    pub open spec fn same_as(self, other: SemType) -> bool {
        &&& self.all == other.all
        &&& self.boolean == other.boolean
        &&& self.mapping == other.mapping
        &&& self.list == other.list
        &&& match (self.number, other.number) {
            (Some(a), Some(b)) => a.same_as(b),
            (None, None) => true,
            _ => false,
        }
        &&& match (self.string, other.string) {
            (Some(a), Some(b)) => a.same_as(b),
            (None, None) => true,
            _ => false,
        }
    }

    pub fn equals(&self, other: &SemType) -> (r: bool)
        ensures
            r == self.same_as(*other),
    {
        let lits_equal = |a: &Option<LitSet>, b: &Option<LitSet>| -> (r: bool)
            ensures
                r == match (*a, *b) {
                    (Some(x), Some(y)) => x.same_as(y),
                    (None, None) => true,
                    _ => false,
                },
            {
                match (a, b) {
                    (Some(x), Some(y)) => x.equals(y),
                    (None, None) => true,
                    _ => false,
                }
            };
        let bdds_equal = |a: &Option<Bdd>, b: &Option<Bdd>| -> (r: bool)
            ensures
                r == (*a == *b),
            {
                match (a, b) {
                    (Some(x), Some(y)) => x.same(y),
                    (None, None) => true,
                    _ => false,
                }
            };
        self.all == other.all && self.boolean == other.boolean && bdds_equal(
            &self.mapping,
            &other.mapping,
        ) && bdds_equal(&self.list, &other.list) && lits_equal(&self.number, &other.number)
            && lits_equal(&self.string, &other.string)
    }

    /// A copy of the type.
    pub fn duplicate(&self) -> (r: SemType)
        ensures
            r.all == self.all,
            r.boolean == self.boolean,
            r.mapping == self.mapping,
            r.list == self.list,
            forall|p: Probe| #[trigger] r.contains(p) == self.contains(p),
    {
        let number = match &self.number {
            Some(ls) => Some(ls.duplicate()),
            None => None,
        };
        let string = match &self.string {
            Some(ls) => Some(ls.duplicate()),
            None => None,
        };
        let mapping = match &self.mapping {
            Some(b) => Some(b.duplicate()),
            None => None,
        };
        let list = match &self.list {
            Some(b) => Some(b.duplicate()),
            None => None,
        };
        SemType { all: self.all, boolean: self.boolean, number, string, mapping, list }
    }

    /// Whether the type has no category and no refinement at all.
    pub fn is_never(&self) -> (r: bool)
        ensures
            r == self.never_shape(),
            r ==> forall|p: Probe| !self.contains(p),
    {
        proof {
            assert(0u8 & NULL == 0) by (bit_vector);
            assert(0u8 & BOOLEAN == 0) by (bit_vector);
            assert(0u8 & NUMBER == 0) by (bit_vector);
            assert(0u8 & STRING == 0) by (bit_vector);
            assert(0u8 & MAPPING == 0) by (bit_vector);
            assert(0u8 & LIST == 0) by (bit_vector);
            assert(0u8 & VOID == 0) by (bit_vector);
        }
        self.all == 0 && self.boolean.is_none() && self.number.is_none() && self.string.is_none()
            && self.mapping.is_none() && self.list.is_none()
    }

    /// Whether absence of an object field is included.
    pub fn has_void(&self) -> (r: bool)
        ensures
            r == self.contains(Probe::Void),
    {
        self.all & VOID != 0
    }

    /// The refinements of the type, one per partially included category.
    pub fn subtype_data(&self) -> (r: Vec<ProperSubtype>)
        ensures
            r.len() == (if self.boolean is Some { 1int } else { 0int }) + (if self.number is Some {
                1int
            } else {
                0int
            }) + (if self.string is Some { 1int } else { 0int }) + (if self.mapping is Some {
                1int
            } else {
                0int
            }) + (if self.list is Some { 1int } else { 0int }),
    {
        let mut out: Vec<ProperSubtype> = Vec::new();
        if let Some(b) = self.boolean {
            out.push(ProperSubtype::Boolean(b));
        }
        if let Some(ls) = &self.number {
            out.push(ProperSubtype::Number(ls.duplicate()));
        }
        if let Some(ls) = &self.string {
            out.push(ProperSubtype::String(ls.duplicate()));
        }
        if let Some(b) = &self.mapping {
            out.push(ProperSubtype::Mapping(b.duplicate()));
        }
        if let Some(b) = &self.list {
            out.push(ProperSubtype::List(b.duplicate()));
        }
        out
    }
}

} // verus!
