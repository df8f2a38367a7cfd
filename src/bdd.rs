use vstd::prelude::*;

verus! {

/// A ternary decision diagram over atom handles of one structural category.
///
/// `Node { atom, left, middle, right }` stands for
/// `(atom AND left) OR middle OR (NOT atom AND right)`.
pub enum Bdd {
    True,
    False,
    Node { atom: u64, left: Box<Bdd>, middle: Box<Bdd>, right: Box<Bdd> },
}

/// The diagram of one atom: `atom AND True`.
pub open spec fn atom_node(atom: u64) -> Bdd {
    Bdd::Node {
        atom,
        left: Box::new(Bdd::True),
        middle: Box::new(Bdd::False),
        right: Box::new(Bdd::False),
    }
}

impl Bdd {
    /// Whether a value that has exactly the atoms in `env` is described by the diagram.
    pub open spec fn eval(self, env: Set<u64>) -> bool
        decreases self,
    {
        match self {
            Bdd::True => true,
            Bdd::False => false,
            Bdd::Node { atom, left, middle, right } => (env.contains(atom) && (*left).eval(env))
                || (*middle).eval(env) || (!env.contains(atom) && (*right).eval(env)),
        }
    }

    /// Every atom of the diagram is below `bound`, and atoms strictly decrease along
    /// every path: the ordering that makes the diagram canonical.
    pub open spec fn below(self, bound: int) -> bool
        decreases self,
    {
        match self {
            Bdd::True => true,
            Bdd::False => true,
            Bdd::Node { atom, left, middle, right } => atom < bound && (*left).below(atom as int)
                && (*middle).below(atom as int) && (*right).below(atom as int),
        }
    }

    /// A diagram below a bound is below every larger bound.
    pub proof fn lemma_below_mono(self, a: int, b: int)
        requires
            self.below(a),
            a <= b,
        ensures
            self.below(b),
    {
    }

    /// Whether the diagram is `True` or `False`.
    pub open spec fn is_terminal(self) -> bool {
        self is True || self is False
    }

    pub open spec fn size(self) -> nat
        decreases self,
    {
        match self {
            Bdd::True => 1,
            Bdd::False => 1,
            Bdd::Node { atom, left, middle, right } => 1 + (*left).size() + (*middle).size()
                + (*right).size(),
        }
    }

    /// The diagram that holds of a value exactly when it has `atom`.
    pub fn from_atom(atom: u64) -> (r: Bdd)
        ensures
            r == atom_node(atom),
            forall|env: Set<u64>| r.eval(env) == env.contains(atom),
            forall|k: int| atom < k ==> #[trigger] r.below(k),
    {
        let r = Bdd::Node {
            atom,
            left: Box::new(Bdd::True),
            middle: Box::new(Bdd::False),
            right: Box::new(Bdd::False),
        };
        proof {
            reveal_with_fuel(Bdd::eval, 2);
            reveal_with_fuel(Bdd::below, 2);
        }
        r
    }

    pub fn is_true(&self) -> (r: bool)
        ensures
            r == (*self is True),
    {
        match self {
            Bdd::True => true,
            _ => false,
        }
    }

    pub fn is_false(&self) -> (r: bool)
        ensures
            r == (*self is False),
    {
        match self {
            Bdd::False => true,
            _ => false,
        }
    }

    /// A copy of the diagram.
    pub fn duplicate(&self) -> (r: Bdd)
        ensures
            r == *self,
        decreases self,
    {
        match self {
            Bdd::True => Bdd::True,
            Bdd::False => Bdd::False,
            Bdd::Node { atom, left, middle, right } => Bdd::Node {
                atom: *atom,
                left: Box::new((**left).duplicate()),
                middle: Box::new((**middle).duplicate()),
                right: Box::new((**right).duplicate()),
            },
        }
    }

    /// Whether the two diagrams are the same tree.
    pub fn same(&self, other: &Bdd) -> (r: bool)
        ensures
            r == (*self == *other),
        decreases self,
    {
        match (self, other) {
            (Bdd::True, Bdd::True) => true,
            (Bdd::False, Bdd::False) => true,
            (
                Bdd::Node { atom: a1, left: l1, middle: m1, right: r1 },
                Bdd::Node { atom: a2, left: l2, middle: m2, right: r2 },
            ) => *a1 == *a2 && (**l1).same(&**l2) && (**m1).same(&**m2) && (**r1).same(&**r2),
            _ => false,
        }
    }

    /// Builds a node, folding the shapes that reduce to a simpler diagram.
    pub fn node(atom: u64, left: Bdd, middle: Bdd, right: Bdd) -> (r: Bdd)
        ensures
            forall|env: Set<u64>|
                #![trigger r.eval(env)]
                r.eval(env) == ((env.contains(atom) && left.eval(env)) || middle.eval(env) || (
                !env.contains(atom) && right.eval(env))),
            forall|k: int|
                atom < k && left.below(atom as int) && middle.below(atom as int) && right.below(
                    atom as int,
                ) ==> #[trigger] r.below(k),
    {
        proof {
            assert forall|k: int|
                atom < k && left.below(atom as int) && middle.below(atom as int) && right.below(
                    atom as int,
                ) implies middle.below(k) by {
                middle.lemma_below_mono(atom as int, k);
            }
        }
        if middle.is_true() {
            Bdd::True
        } else if left.is_true() && right.is_true() {
            Bdd::True
        } else if left.is_false() && right.is_false() {
            middle
        } else {
            Bdd::Node { atom, left: Box::new(left), middle: Box::new(middle), right: Box::new(right) }
        }
    }

    /// The diagram that holds wherever either operand holds.
    pub fn union(&self, other: &Bdd) -> (r: Bdd)
        ensures
            forall|env: Set<u64>|
                #![trigger r.eval(env)]
                r.eval(env) == (self.eval(env) || other.eval(env)),
            forall|k: int| self.below(k) && other.below(k) ==> #[trigger] r.below(k),
            self.is_terminal() && other.is_terminal() ==> r.is_terminal(),
        decreases self.size() + other.size(),
    {
        match (self, other) {
            (Bdd::True, _) => Bdd::True,
            (_, Bdd::True) => Bdd::True,
            (Bdd::False, _) => other.duplicate(),
            (_, Bdd::False) => self.duplicate(),
            (
                Bdd::Node { atom: a1, left: l1, middle: m1, right: r1 },
                Bdd::Node { atom: a2, left: l2, middle: m2, right: r2 },
            ) => {
                if *a1 == *a2 {
                    let l = (**l1).union(&**l2);
                    let m = (**m1).union(&**m2);
                    let r = (**r1).union(&**r2);
                    Bdd::node(*a1, l, m, r)
                } else if *a1 < *a2 {
                    let m = (**m2).union(self);
                    Bdd::node(*a2, (**l2).duplicate(), m, (**r2).duplicate())
                } else {
                    let m = (**m1).union(other);
                    Bdd::node(*a1, (**l1).duplicate(), m, (**r1).duplicate())
                }
            },
        }
    }

    /// The diagram that holds wherever both operands hold.
    pub fn intersect(&self, other: &Bdd) -> (r: Bdd)
        ensures
            forall|env: Set<u64>|
                #![trigger r.eval(env)]
                r.eval(env) == (self.eval(env) && other.eval(env)),
            forall|k: int| self.below(k) && other.below(k) ==> #[trigger] r.below(k),
            self.is_terminal() && other.is_terminal() ==> r.is_terminal(),
        decreases self.size() + other.size(),
    {
        match (self, other) {
            (Bdd::False, _) => Bdd::False,
            (_, Bdd::False) => Bdd::False,
            (Bdd::True, _) => other.duplicate(),
            (_, Bdd::True) => self.duplicate(),
            (
                Bdd::Node { atom: a1, left: l1, middle: m1, right: r1 },
                Bdd::Node { atom: a2, left: l2, middle: m2, right: r2 },
            ) => {
                if *a1 == *a2 {
                    let ll = (**l1).intersect(&**l2);
                    let lm = (**l1).intersect(&**m2);
                    let ml = (**m1).intersect(&**l2);
                    let mm = (**m1).intersect(&**m2);
                    let rr = (**r1).intersect(&**r2);
                    let rm = (**r1).intersect(&**m2);
                    let mr = (**m1).intersect(&**r2);
                    let l = ll.union(&lm).union(&ml);
                    let r = rr.union(&rm).union(&mr);
                    Bdd::node(*a1, l, mm, r)
                } else if *a1 < *a2 {
                    let l = (**l2).intersect(self);
                    let m = (**m2).intersect(self);
                    let r = (**r2).intersect(self);
                    Bdd::node(*a2, l, m, r)
                } else {
                    let l = (**l1).intersect(other);
                    let m = (**m1).intersect(other);
                    let r = (**r1).intersect(other);
                    Bdd::node(*a1, l, m, r)
                }
            },
        }
    }

    /// The diagram that holds exactly where this one does not.
    pub fn complement(&self) -> (r: Bdd)
        ensures
            forall|env: Set<u64>| #![trigger r.eval(env)] r.eval(env) == !self.eval(env),
            forall|k: int| self.below(k) ==> #[trigger] r.below(k),
            self.is_terminal() ==> r.is_terminal(),
        decreases self,
    {
        match self {
            Bdd::True => Bdd::False,
            Bdd::False => Bdd::True,
            Bdd::Node { atom, left, middle, right } => {
                let nl = (**left).complement();
                let nm = (**middle).complement();
                let nr = (**right).complement();
                let l = nl.intersect(&nm);
                let r = nr.intersect(&nm);
                Bdd::node(*atom, l, Bdd::False, r)
            },
        }
    }

    /// The diagram that holds where this one holds and `other` does not.
    pub fn diff(&self, other: &Bdd) -> (r: Bdd)
        ensures
            forall|env: Set<u64>|
                #![trigger r.eval(env)]
                r.eval(env) == (self.eval(env) && !other.eval(env)),
            forall|k: int| self.below(k) && other.below(k) ==> #[trigger] r.below(k),
            self.is_terminal() && other.is_terminal() ==> r.is_terminal(),
    {
        let c = other.complement();
        self.intersect(&c)
    }
}

} // verus!
