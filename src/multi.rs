//! Alternatives: an ordered list of mutually exclusive formulas, combined by cross product.
use vstd::prelude::*;

use crate::formula::{
    difference_fits, difference_of, scaled_fits, scaled_of, sum_fits, sum_of, MolecularFormula,
};

verus! {

/// Mutually exclusive alternative formulas, in order. Duplicates are kept: they are
/// distinct alternatives.
#[derive(Debug)]
pub struct Multi {
    alternatives: Vec<MolecularFormula>,
}

impl View for Multi {
    type V = Seq<MolecularFormula>;

    closed spec fn view(&self) -> Seq<MolecularFormula> {
        self.alternatives@
    }
}

/// Every formula of the list is canonical.
pub open spec fn all_wf(s: Seq<MolecularFormula>) -> bool {
    forall|i: int| 0 <= i < s.len() ==> (#[trigger] s[i]).wf()
}

/// `r` is the cross product of `a` and `b` under addition: entry `i * |b| + j` is `a[i] + b[j]`.
pub open spec fn cross_sum_of(
    a: Seq<MolecularFormula>,
    b: Seq<MolecularFormula>,
    r: Seq<MolecularFormula>,
) -> bool {
    &&& r.len() == a.len() * b.len()
    &&& forall|i: int, j: int|
        0 <= i < a.len() && 0 <= j < b.len() ==> sum_of(a[i], b[j], #[trigger] r[i * b.len() + j])
}

/// `f` is the sum of an alternative of `a` and one of `b`.
pub open spec fn is_cross_sum(a: Seq<MolecularFormula>, b: Seq<MolecularFormula>, f: MolecularFormula) -> bool {
    exists|i: int, j: int| 0 <= i < a.len() && 0 <= j < b.len() && sum_of(a[i], b[j], f)
}

/// `r` is the cross product of `a` and `b` under subtraction: entry `i * |b| + j` is `a[i] - b[j]`.
pub open spec fn cross_difference_of(
    a: Seq<MolecularFormula>,
    b: Seq<MolecularFormula>,
    r: Seq<MolecularFormula>,
) -> bool {
    &&& r.len() == a.len() * b.len()
    &&& forall|i: int, j: int|
        0 <= i < a.len() && 0 <= j < b.len() ==> difference_of(a[i], b[j], #[trigger] r[i * b.len() + j])
}

/// `f` is the difference of an alternative of `a` and one of `b`.
pub open spec fn is_cross_difference(a: Seq<MolecularFormula>, b: Seq<MolecularFormula>, f: MolecularFormula) -> bool {
    exists|i: int, j: int| 0 <= i < a.len() && 0 <= j < b.len() && difference_of(a[i], b[j], f)
}

impl Multi {
    pub open spec fn wf(&self) -> bool {
        all_wf(self@)
    }

    /// The alternatives given, in order.
    pub fn new(alternatives: Vec<MolecularFormula>) -> (r: Self)
        requires
            all_wf(alternatives@),
        ensures
            r@ == alternatives@,
    {
        Multi { alternatives }
    }

    /// A single alternative.
    pub fn single(f: MolecularFormula) -> (r: Self)
        requires
            f.wf(),
        ensures
            r@ == seq![f],
    {
        let mut alternatives = Vec::new();
        alternatives.push(f);
        proof {
            assert(alternatives@ =~= seq![f]);
        }
        Multi { alternatives }
    }

    /// The alternatives, in order.
    pub fn alternatives(&self) -> (r: &[MolecularFormula])
        ensures
            r@ == self@,
    {
        self.alternatives.as_slice()
    }

    pub fn len(&self) -> (r: usize)
        ensures
            r == self@.len(),
    {
        self.alternatives.len()
    }

    /// Every pair of an alternative of `self` and one of `other`, summed; `self`'s
    /// alternatives vary slowest.
    pub fn cross(&self, other: &Multi) -> (r: Multi)
        requires
            self.wf(),
            other.wf(),
            self@.len() * other@.len() <= usize::MAX,
            forall|i: int, j: int|
                0 <= i < self@.len() && 0 <= j < other@.len() ==> sum_fits(
                    #[trigger] self@[i],
                    #[trigger] other@[j],
                ),
        ensures
            r.wf(),
            cross_sum_of(self@, other@, r@),
            forall|k: int| 0 <= k < r@.len() ==> is_cross_sum(self@, other@, #[trigger] r@[k]),
    {
        let n = self.alternatives.len();
        let m = other.alternatives.len();
        let mut out: Vec<MolecularFormula> = Vec::new();
        let mut i: usize = 0;
        while i < n
            invariant
                n == self@.len(),
                m == other@.len(),
                n * m <= usize::MAX,
                i <= n,
                self.wf(),
                other.wf(),
                forall|i: int, j: int|
                    0 <= i < self@.len() && 0 <= j < other@.len() ==> sum_fits(
                        #[trigger] self@[i],
                        #[trigger] other@[j],
                    ),
                out@.len() == i * m,
                all_wf(out@),
                forall|k: int| 0 <= k < out@.len() ==> is_cross_sum(self@, other@, #[trigger] out@[k]),
                forall|a: int, b: int|
                    0 <= a < i && 0 <= b < m ==> sum_of(self@[a], other@[b], #[trigger] out@[a * m + b]),
            decreases n - i,
        {
            let mut j: usize = 0;
            while j < m
                invariant
                    n == self@.len(),
                    m == other@.len(),
                    n * m <= usize::MAX,
                    i < n,
                    j <= m,
                    self.wf(),
                    other.wf(),
                    forall|i: int, j: int|
                        0 <= i < self@.len() && 0 <= j < other@.len() ==> sum_fits(
                            #[trigger] self@[i],
                            #[trigger] other@[j],
                        ),
                    out@.len() == i * m + j,
                    all_wf(out@),
                    forall|k: int| 0 <= k < out@.len() ==> is_cross_sum(self@, other@, #[trigger] out@[k]),
                    forall|a: int, b: int|
                        (0 <= a < i && 0 <= b < m) || (a == i && 0 <= b < j) ==> sum_of(
                            self@[a],
                            other@[b],
                            #[trigger] out@[a * m + b],
                        ),
                decreases m - j,
            {
                proof {
                    assert(self@[i as int].wf());
                    assert(other@[j as int].wf());
                }
                let f = self.alternatives[i].plus(&other.alternatives[j]);
                let ghost before = out@;
                out.push(f);
                proof {
                    assert forall|a: int, b: int|
                        (0 <= a < i && 0 <= b < m) || (a == i && 0 <= b < j + 1) implies sum_of(
                        self@[a],
                        other@[b],
                        #[trigger] out@[a * m + b],
                    ) by {
                        if a == i && b == j {
                        } else {
                            if a < i {
                                assert(a * m + b < i * m) by (nonlinear_arith)
                                    requires
                                        a < i,
                                        b < m,
                                {}
                            }
                            assert(out@[a * m + b] == before[a * m + b]);
                        }
                    }
                    assert forall|k: int| 0 <= k < out@.len() implies (#[trigger] out@[k]).wf() by {
                        if k < before.len() {
                            assert(out@[k] == before[k]);
                        }
                    }
                    assert forall|k: int| 0 <= k < out@.len() implies is_cross_sum(self@, other@, #[trigger] out@[k]) by {
                        if k < before.len() {
                            assert(out@[k] == before[k]);
                        } else {
                            assert(sum_of(self@[i as int], other@[j as int], out@[k]));
                        }
                    }
                }
                j += 1;
            }
            i += 1;
            proof {
                assert((i - 1) * m + m == i * m) by (nonlinear_arith);
            }
        }
        Multi { alternatives: out }
    }

    /// Every pair of an alternative of `self` and one of `other`, the second taken from the
    /// first; `self`'s alternatives vary slowest.
    pub fn cross_minus(&self, other: &Multi) -> (r: Multi)
        requires
            self.wf(),
            other.wf(),
            self@.len() * other@.len() <= usize::MAX,
            forall|i: int, j: int|
                0 <= i < self@.len() && 0 <= j < other@.len() ==> difference_fits(
                    #[trigger] self@[i],
                    #[trigger] other@[j],
                ),
        ensures
            r.wf(),
            cross_difference_of(self@, other@, r@),
            forall|k: int| 0 <= k < r@.len() ==> is_cross_difference(self@, other@, #[trigger] r@[k]),
    {
        let n = self.alternatives.len();
        let m = other.alternatives.len();
        let mut out: Vec<MolecularFormula> = Vec::new();
        let mut i: usize = 0;
        while i < n
            invariant
                n == self@.len(),
                m == other@.len(),
                n * m <= usize::MAX,
                i <= n,
                self.wf(),
                other.wf(),
                forall|i: int, j: int|
                    0 <= i < self@.len() && 0 <= j < other@.len() ==> difference_fits(
                        #[trigger] self@[i],
                        #[trigger] other@[j],
                    ),
                out@.len() == i * m,
                all_wf(out@),
                forall|k: int| 0 <= k < out@.len() ==> is_cross_difference(self@, other@, #[trigger] out@[k]),
                forall|a: int, b: int|
                    0 <= a < i && 0 <= b < m ==> difference_of(self@[a], other@[b], #[trigger] out@[a * m + b]),
            decreases n - i,
        {
            let mut j: usize = 0;
            while j < m
                invariant
                    n == self@.len(),
                    m == other@.len(),
                    n * m <= usize::MAX,
                    i < n,
                    j <= m,
                    self.wf(),
                    other.wf(),
                    forall|i: int, j: int|
                        0 <= i < self@.len() && 0 <= j < other@.len() ==> difference_fits(
                            #[trigger] self@[i],
                            #[trigger] other@[j],
                        ),
                    out@.len() == i * m + j,
                    all_wf(out@),
                    forall|k: int| 0 <= k < out@.len() ==> is_cross_difference(self@, other@, #[trigger] out@[k]),
                    forall|a: int, b: int|
                        (0 <= a < i && 0 <= b < m) || (a == i && 0 <= b < j) ==> difference_of(
                            self@[a],
                            other@[b],
                            #[trigger] out@[a * m + b],
                        ),
                decreases m - j,
            {
                proof {
                    assert(self@[i as int].wf());
                    assert(other@[j as int].wf());
                }
                let f = self.alternatives[i].minus(&other.alternatives[j]);
                let ghost before = out@;
                out.push(f);
                proof {
                    assert forall|a: int, b: int|
                        (0 <= a < i && 0 <= b < m) || (a == i && 0 <= b < j + 1) implies difference_of(
                        self@[a],
                        other@[b],
                        #[trigger] out@[a * m + b],
                    ) by {
                        if a == i && b == j {
                        } else {
                            if a < i {
                                assert(a * m + b < i * m) by (nonlinear_arith)
                                    requires
                                        a < i,
                                        b < m,
                                {}
                            }
                            assert(out@[a * m + b] == before[a * m + b]);
                        }
                    }
                    assert forall|k: int| 0 <= k < out@.len() implies (#[trigger] out@[k]).wf() by {
                        if k < before.len() {
                            assert(out@[k] == before[k]);
                        }
                    }
                    assert forall|k: int| 0 <= k < out@.len() implies is_cross_difference(self@, other@, #[trigger] out@[k]) by {
                        if k < before.len() {
                            assert(out@[k] == before[k]);
                        } else {
                            assert(difference_of(self@[i as int], other@[j as int], out@[k]));
                        }
                    }
                }
                j += 1;
            }
            i += 1;
            proof {
                assert((i - 1) * m + m == i * m) by (nonlinear_arith);
            }
        }
        Multi { alternatives: out }
    }

    /// `f` added to every alternative.
    pub fn plus_formula(&self, f: &MolecularFormula) -> (r: Multi)
        requires
            self.wf(),
            f.wf(),
            forall|i: int| 0 <= i < self@.len() ==> sum_fits(#[trigger] self@[i], *f),
        ensures
            r.wf(),
            r@.len() == self@.len(),
            forall|i: int| 0 <= i < self@.len() ==> sum_of(self@[i], *f, #[trigger] r@[i]),
    {
        let mut out: Vec<MolecularFormula> = Vec::new();
        let mut i: usize = 0;
        while i < self.alternatives.len()
            invariant
                i <= self@.len(),
                self.wf(),
                f.wf(),
                forall|i: int| 0 <= i < self@.len() ==> sum_fits(#[trigger] self@[i], *f),
                out@.len() == i,
                all_wf(out@),
                forall|k: int| 0 <= k < i ==> sum_of(self@[k], *f, #[trigger] out@[k]),
            decreases self@.len() - i,
        {
            proof {
                assert(self@[i as int].wf());
            }
            let g = self.alternatives[i].plus(f);
            out.push(g);
            i += 1;
        }
        Multi { alternatives: out }
    }

    /// `f` taken from every alternative.
    pub fn minus_formula(&self, f: &MolecularFormula) -> (r: Multi)
        requires
            self.wf(),
            f.wf(),
            forall|i: int| 0 <= i < self@.len() ==> difference_fits(#[trigger] self@[i], *f),
        ensures
            r.wf(),
            r@.len() == self@.len(),
            forall|i: int| 0 <= i < self@.len() ==> difference_of(self@[i], *f, #[trigger] r@[i]),
    {
        let mut out: Vec<MolecularFormula> = Vec::new();
        let mut i: usize = 0;
        while i < self.alternatives.len()
            invariant
                i <= self@.len(),
                self.wf(),
                f.wf(),
                forall|i: int| 0 <= i < self@.len() ==> difference_fits(#[trigger] self@[i], *f),
                out@.len() == i,
                all_wf(out@),
                forall|k: int| 0 <= k < i ==> difference_of(self@[k], *f, #[trigger] out@[k]),
            decreases self@.len() - i,
        {
            proof {
                assert(self@[i as int].wf());
            }
            let g = self.alternatives[i].minus(f);
            out.push(g);
            i += 1;
        }
        Multi { alternatives: out }
    }

    /// Every alternative negated.
    pub fn negated(&self) -> (r: Multi)
        requires
            self.wf(),
            forall|i: int| 0 <= i < self@.len() ==> scaled_fits(#[trigger] self@[i], -1),
        ensures
            r.wf(),
            r@.len() == self@.len(),
            forall|i: int| 0 <= i < self@.len() ==> scaled_of(self@[i], -1, #[trigger] r@[i]),
    {
        let mut out: Vec<MolecularFormula> = Vec::new();
        let mut i: usize = 0;
        while i < self.alternatives.len()
            invariant
                i <= self@.len(),
                self.wf(),
                forall|i: int| 0 <= i < self@.len() ==> scaled_fits(#[trigger] self@[i], -1),
                out@.len() == i,
                all_wf(out@),
                forall|k: int| 0 <= k < i ==> scaled_of(self@[k], -1, #[trigger] out@[k]),
            decreases self@.len() - i,
        {
            proof {
                assert(self@[i as int].wf());
            }
            let g = self.alternatives[i].negated();
            out.push(g);
            i += 1;
        }
        Multi { alternatives: out }
    }
}

impl Default for Multi {
    /// The identity: a single empty formula.
    fn default() -> (r: Multi)
        ensures
            r.wf(),
            r@.len() == 1,
            r@[0]@.len() == 0,
    {
        Multi::single(MolecularFormula::empty())
    }
}

} // verus!
