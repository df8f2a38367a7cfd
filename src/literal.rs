use vstd::prelude::*;

verus! {

/// A literal value that a number or string refinement lists.
pub enum Literal {
    /// A number, by its decimal text.
    Number(String),
    /// An exact string.
    Str(String),
    /// Any string of a named format.
    Format(String),
}

/// What a literal stands for: its kind (0 number, 1 string, 2 format) and its text.
pub type LitKey = (nat, Seq<char>);

impl Literal {
    pub open spec fn key(self) -> LitKey {
        match self {
            Literal::Number(s) => (0nat, s@),
            Literal::Str(s) => (1nat, s@),
            Literal::Format(s) => (2nat, s@),
        }
    }

    pub fn duplicate(&self) -> (r: Literal)
        ensures
            r.key() == self.key(),
    {
        match self {
            Literal::Number(s) => Literal::Number(s.clone()),
            Literal::Str(s) => Literal::Str(s.clone()),
            Literal::Format(s) => Literal::Format(s.clone()),
        }
    }

    pub fn same(&self, other: &Literal) -> (r: bool)
        ensures
            r == (self.key() == other.key()),
    {
        match (self, other) {
            (Literal::Number(a), Literal::Number(b)) => *a == *b,
            (Literal::Str(a), Literal::Str(b)) => *a == *b,
            (Literal::Format(a), Literal::Format(b)) => *a == *b,
            _ => false,
        }
    }
}

/// The keys that a list of literals holds.
pub open spec fn keys_of(v: Seq<Literal>) -> Set<LitKey> {
    Set::new(|k: LitKey| exists|i: int| 0 <= i < v.len() && (#[trigger] v[i]).key() == k)
}

/// Whether `v` lists a literal with the key of `x`.
pub fn lists(v: &Vec<Literal>, x: &Literal) -> (r: bool)
    ensures
        r == keys_of(v@).contains(x.key()),
{
    let mut i: usize = 0;
    while i < v.len()
        invariant
            0 <= i <= v.len(),
            forall|j: int| 0 <= j < i ==> (#[trigger] v@[j]).key() != x.key(),
        decreases v.len() - i,
    {
        if v[i].same(x) {
            assert(v@[i as int].key() == x.key());
            return true;
        }
        i = i + 1;
    }
    false
}

/// The literals of `a` whose keys `b` holds (`keep`) or does not hold (`!keep`).
pub fn filter_by(a: &Vec<Literal>, b: &Vec<Literal>, keep: bool) -> (r: Vec<Literal>)
    ensures
        keys_of(r@) == keys_of(a@).filter(|k: LitKey| keys_of(b@).contains(k) == keep),
{
    let mut out: Vec<Literal> = Vec::new();
    let mut i: usize = 0;
    while i < a.len()
        invariant
            0 <= i <= a.len(),
            keys_of(out@) == keys_of(a@.subrange(0, i as int)).filter(
                |k: LitKey| keys_of(b@).contains(k) == keep,
            ),
        decreases a.len() - i,
    {
        let ghost before = out@;
        if lists(b, &a[i]) == keep {
            out.push(a[i].duplicate());
        }
        proof {
            let s = a@.subrange(0, i + 1);
            let t = a@.subrange(0, i as int);
            assert(s == t.push(a@[i as int]));
            assert forall|k: LitKey|
                keys_of(out@).contains(k) == keys_of(s).filter(
                    |k: LitKey| keys_of(b@).contains(k) == keep,
                ).contains(k) by {
                if keys_of(out@).contains(k) {
                    let j = choose|j: int| 0 <= j < out@.len() && (#[trigger] out@[j]).key() == k;
                    if j < before.len() {
                        assert(before[j] == out@[j]);
                        assert(keys_of(before).contains(k));
                        let m = choose|m: int| 0 <= m < t.len() && (#[trigger] t[m]).key() == k;
                        assert(s[m] == t[m]);
                    } else {
                        assert(s[i as int] == a@[i as int]);
                    }
                }
                if keys_of(s).filter(|k: LitKey| keys_of(b@).contains(k) == keep).contains(k) {
                    let m = choose|m: int| 0 <= m < s.len() && (#[trigger] s[m]).key() == k;
                    if m < i {
                        assert(t[m] == s[m]);
                        assert(keys_of(t).contains(k));
                        assert(keys_of(t).filter(
                            |k: LitKey| keys_of(b@).contains(k) == keep,
                        ).contains(k));
                        assert(keys_of(before).contains(k));
                        let j = choose|j: int|
                            0 <= j < before.len() && (#[trigger] before[j]).key() == k;
                        assert(out@[j] == before[j]);
                    } else {
                        assert(out@[out@.len() - 1].key() == k);
                    }
                }
            }
            assert(keys_of(out@) =~= keys_of(s).filter(
                |k: LitKey| keys_of(b@).contains(k) == keep,
            ));
        }
        i = i + 1;
    }
    assert(a@.subrange(0, a.len() as int) == a@);
    out
}

/// The literals of `a` followed by those of `b` that `a` does not list.
pub fn merge(a: &Vec<Literal>, b: &Vec<Literal>) -> (r: Vec<Literal>)
    ensures
        keys_of(r@) == keys_of(a@).union(keys_of(b@)),
{
    let extra = filter_by(b, a, false);
    let mut out = filter_by(a, a, true);
    assert(keys_of(out@) =~= keys_of(a@));
    let mut i: usize = 0;
    while i < extra.len()
        invariant
            0 <= i <= extra.len(),
            keys_of(out@) == keys_of(a@).union(keys_of(extra@.subrange(0, i as int))),
        decreases extra.len() - i,
    {
        let ghost before = out@;
        out.push(extra[i].duplicate());
        proof {
            let s = extra@.subrange(0, i + 1);
            let t = extra@.subrange(0, i as int);
            assert forall|k: LitKey|
                keys_of(out@).contains(k) == keys_of(a@).union(keys_of(s)).contains(k) by {
                if keys_of(out@).contains(k) {
                    let j = choose|j: int| 0 <= j < out@.len() && (#[trigger] out@[j]).key() == k;
                    if j < before.len() {
                        assert(before[j] == out@[j]);
                        assert(keys_of(before).contains(k));
                        if !keys_of(a@).contains(k) {
                            let m = choose|m: int| 0 <= m < t.len() && (#[trigger] t[m]).key() == k;
                            assert(s[m] == t[m]);
                        }
                    } else {
                        assert(s[i as int] == extra@[i as int]);
                    }
                }
                if keys_of(a@).contains(k) {
                    assert(keys_of(before).contains(k));
                    let j = choose|j: int| 0 <= j < before.len() && (#[trigger] before[j]).key() == k;
                    assert(out@[j] == before[j]);
                } else if keys_of(s).contains(k) {
                    let m = choose|m: int| 0 <= m < s.len() && (#[trigger] s[m]).key() == k;
                    if m < i {
                        assert(t[m] == s[m]);
                        assert(keys_of(t).contains(k));
                        assert(keys_of(before).contains(k));
                        let j = choose|j: int|
                            0 <= j < before.len() && (#[trigger] before[j]).key() == k;
                        assert(out@[j] == before[j]);
                    } else {
                        assert(out@[out@.len() - 1].key() == k);
                    }
                }
            }
            assert(keys_of(out@) =~= keys_of(a@).union(keys_of(s)));
        }
        i = i + 1;
    }
    assert(extra@.subrange(0, extra.len() as int) == extra@);
    assert(keys_of(out@) =~= keys_of(a@).union(keys_of(b@)));
    out
}

/// A set of literals of one primitive category: exactly `values` when `allowed`,
/// every value of the category but `values` otherwise.
pub struct LitSet {
    pub allowed: bool,
    pub values: Vec<Literal>,
}

impl LitSet {
    pub open spec fn admits(self, k: LitKey) -> bool {
        self.allowed == keys_of(self.values@).contains(k)
    }

    /// Whether the two sets list the same literals in the same order, with the same polarity.
    pub open spec fn same_as(self, other: LitSet) -> bool {
        &&& self.allowed == other.allowed
        &&& self.values.len() == other.values.len()
        &&& forall|i: int|
            0 <= i < self.values.len() ==> (#[trigger] self.values[i]).key() == other.values[i].key()
    }

    /// Sets written alike admit the same literals.
    pub proof fn lemma_same_admits(self, other: LitSet)
        requires
            self.same_as(other),
        ensures
            forall|k: LitKey| #[trigger] self.admits(k) == other.admits(k),
    {
        assert forall|k: LitKey| #[trigger] self.admits(k) == other.admits(k) by {
            if keys_of(self.values@).contains(k) {
                let i = choose|i: int| 0 <= i < self.values@.len() && (#[trigger] self.values@[i]).key() == k;
                assert(other.values@[i].key() == k);
            }
            if keys_of(other.values@).contains(k) {
                let i = choose|i: int| 0 <= i < other.values@.len() && (#[trigger] other.values@[i]).key() == k;
                assert(self.values[i].key() == other.values[i].key());
            }
        }
    }

    pub fn equals(&self, other: &LitSet) -> (r: bool)
        ensures
            r == self.same_as(*other),
    {
        if self.allowed != other.allowed || self.values.len() != other.values.len() {
            return false;
        }
        let mut i: usize = 0;
        while i < self.values.len()
            invariant
                0 <= i <= self.values.len(),
                self.values.len() == other.values.len(),
                forall|j: int| 0 <= j < i ==> (#[trigger] self.values[j]).key() == other.values[j].key(),
            decreases self.values.len() - i,
        {
            if !self.values[i].same(&other.values[i]) {
                return false;
            }
            i = i + 1;
        }
        true
    }

    pub fn duplicate(&self) -> (r: LitSet)
        ensures
            forall|k: LitKey| #![trigger r.admits(k)] r.admits(k) == self.admits(k),
    {
        let values = filter_by(&self.values, &self.values, true);
        assert(keys_of(values@) =~= keys_of(self.values@));
        LitSet { allowed: self.allowed, values }
    }

    /// Exactly one literal.
    pub fn single(l: Literal) -> (r: LitSet)
        ensures
            forall|k: LitKey| #![trigger r.admits(k)] r.admits(k) == (k == l.key()),
            r.allowed && r.values.len() == 1 && r.values[0].key() == l.key(),
    {
        let ghost key = l.key();
        let mut values: Vec<Literal> = Vec::new();
        values.push(l);
        let r = LitSet { allowed: true, values };
        assert forall|k: LitKey| #![trigger r.admits(k)] r.admits(k) == (k == key) by {
            if k == key {
                assert(r.values@[0].key() == k);
            }
        }
        r
    }

    /// Every value of the category.
    pub fn full() -> (r: LitSet)
        ensures
            forall|k: LitKey| #![trigger r.admits(k)] r.admits(k),
    {
        LitSet { allowed: false, values: Vec::new() }
    }

    /// No value at all.
    pub fn empty() -> (r: LitSet)
        ensures
            forall|k: LitKey| #![trigger r.admits(k)] !r.admits(k),
            r.allowed && r.values.len() == 0,
    {
        LitSet { allowed: true, values: Vec::new() }
    }

    pub fn is_full(&self) -> (r: bool)
        ensures
            r ==> forall|k: LitKey| #![trigger self.admits(k)] self.admits(k),
            !r ==> exists|k: LitKey| !self.admits(k),
            r == (!self.allowed && self.values.len() == 0),
    {
        if !self.allowed && self.values.len() == 0 {
            true
        } else if self.allowed {
            assert(!self.admits((3nat, Seq::empty())));
            false
        } else {
            assert(!self.admits(self.values@[0].key()));
            false
        }
    }

    pub fn is_empty(&self) -> (r: bool)
        ensures
            r ==> forall|k: LitKey| #![trigger self.admits(k)] !self.admits(k),
            r == (self.allowed && self.values.len() == 0),
            !r ==> exists|k: LitKey| self.admits(k),
    {
        if self.allowed && self.values.len() == 0 {
            true
        } else if !self.allowed {
            assert(self.admits((3nat, Seq::empty())));
            false
        } else {
            assert(self.admits(self.values@[0].key()));
            false
        }
    }

    pub fn union(&self, other: &LitSet) -> (r: LitSet)
        ensures
            forall|k: LitKey|
                #![trigger r.admits(k)]
                r.admits(k) == (self.admits(k) || other.admits(k)),
    {
        if self.allowed && other.allowed {
            LitSet { allowed: true, values: merge(&self.values, &other.values) }
        } else if !self.allowed && !other.allowed {
            LitSet { allowed: false, values: filter_by(&self.values, &other.values, true) }
        } else if self.allowed {
            LitSet { allowed: false, values: filter_by(&other.values, &self.values, false) }
        } else {
            LitSet { allowed: false, values: filter_by(&self.values, &other.values, false) }
        }
    }

    pub fn intersect(&self, other: &LitSet) -> (r: LitSet)
        ensures
            forall|k: LitKey|
                #![trigger r.admits(k)]
                r.admits(k) == (self.admits(k) && other.admits(k)),
    {
        if self.allowed && other.allowed {
            LitSet { allowed: true, values: filter_by(&self.values, &other.values, true) }
        } else if !self.allowed && !other.allowed {
            LitSet { allowed: false, values: merge(&self.values, &other.values) }
        } else if self.allowed {
            LitSet { allowed: true, values: filter_by(&self.values, &other.values, false) }
        } else {
            LitSet { allowed: true, values: filter_by(&other.values, &self.values, false) }
        }
    }

    pub fn complement(&self) -> (r: LitSet)
        ensures
            forall|k: LitKey| #![trigger r.admits(k)] r.admits(k) == !self.admits(k),
    {
        let values = filter_by(&self.values, &self.values, true);
        assert(keys_of(values@) =~= keys_of(self.values@));
        LitSet { allowed: !self.allowed, values }
    }
}

} // verus!
