//! Charge carriers: adduct ions with their maximal multiplicities, and the choice of
//! carriers that gives a fragment a certain charge.
use vstd::prelude::*;

use crate::element::Element;
use crate::notation::{abs, digits, hill, push_digits, push_str, NotationStyle};
use crate::formula::{
    formula_lt, lemma_formula_lt_total, lemma_formula_lt_transitive, charge_of, count_in, lemma_sum_within, scaled_of, sum_of, within, Entry, MolecularFormula,
};

verus! {

/// The most kinds of carrier a charge state holds.
pub const MAX_CARRIERS: usize = 64;

/// The most times one carrier is given to [`MolecularCharge::new`].
pub const MAX_MULTIPLICITY: isize = 1024;

/// The most of any element in a carrier formula.
pub const MAX_CARRIER_ATOMS: i32 = 256;

/// A set of charge carriers: each a formula, whose electrons give its charge, with
/// the number of times it may occur.
#[derive(Debug)]
pub struct MolecularCharge {
    charge_carriers: Vec<(isize, MolecularFormula)>,
}

/// A carrier with a canonical formula of bounded size.
pub open spec fn carrier_formula_ok(f: MolecularFormula) -> bool {
    f.wf() && within(f, MAX_CARRIER_ATOMS as int)
}

/// The total multiplicity given to formula `f` by a list of carriers.
pub open spec fn multiplicity_in(s: Seq<(isize, MolecularFormula)>, f: Seq<Entry>) -> int
    decreases s.len(),
{
    if s.len() == 0 {
        0
    } else {
        multiplicity_in(s.drop_last(), f) + if s.last().1@ == f {
            s.last().0 as int
        } else {
            0
        }
    }
}

/// The sum of multiplicity times charge over a list of carriers.
pub open spec fn charge_in(s: Seq<(isize, MolecularFormula)>) -> int
    decreases s.len(),
{
    if s.len() == 0 {
        0
    } else {
        charge_in(s.drop_last()) + s.last().0 * charge_of(s.last().1)
    }
}

/// The count of (e, isotope) over all carriers, each at its multiplicity.
pub open spec fn carrier_count(s: Seq<(isize, MolecularFormula)>, e: Element, isotope: Option<u16>) -> int
    decreases s.len(),
{
    if s.len() == 0 {
        0
    } else {
        carrier_count(s.drop_last(), e, isotope) + s.last().1.count(e, isotope) * s.last().0
    }
}

/// Simplified: every formula once, with a positive multiplicity, in canonical order.
pub open spec fn simplified(s: Seq<(isize, MolecularFormula)>) -> bool {
    &&& s.len() <= MAX_CARRIERS
    &&& forall|i: int| 0 <= i < s.len() ==> 0 < #[trigger] s[i].0 <= MAX_MULTIPLICITY * MAX_CARRIERS
    &&& forall|i: int| 0 <= i < s.len() ==> carrier_formula_ok(#[trigger] s[i].1)
    &&& forall|i: int, j: int| 0 <= i < j < s.len() ==> s[i].1@ != s[j].1@
    &&& forall|i: int, j: int| 0 <= i < j < s.len() ==> formula_lt(s[i].1@, s[j].1@)
}

impl View for MolecularCharge {
    type V = Seq<(isize, MolecularFormula)>;

    closed spec fn view(&self) -> Seq<(isize, MolecularFormula)> {
        self.charge_carriers@
    }
}

impl MolecularCharge {
    pub open spec fn wf(&self) -> bool {
        simplified(self@)
    }

    /// The total charge.
    pub open spec fn total_charge(&self) -> int {
        charge_in(self@)
    }

    /// The carriers, each once, in order of first appearance.
    pub fn charge_carriers(&self) -> (r: &[(isize, MolecularFormula)])
        ensures
            r@ == self@,
    {
        self.charge_carriers.as_slice()
    }

    /// A charge state of the given carriers: a formula given more than once has its
    /// multiplicities summed, and a formula of total multiplicity zero is dropped.
    pub fn new(charge_carriers: &[(isize, MolecularFormula)]) -> (r: Self)
        requires
            charge_carriers@.len() <= MAX_CARRIERS,
            forall|i: int| 0 <= i < charge_carriers@.len() ==> 0 <= (#[trigger] charge_carriers@[i]).0 <= MAX_MULTIPLICITY,
            forall|i: int| 0 <= i < charge_carriers@.len() ==> carrier_formula_ok(#[trigger] charge_carriers@[i].1),
        ensures
            r.wf(),
            forall|f: Seq<Entry>| #[trigger] multiplicity_in(r@, f) == multiplicity_in(charge_carriers@, f),
    {
        let mut out: Vec<(isize, MolecularFormula)> = Vec::new();
        let mut j: usize = 0;
        while j < charge_carriers.len()
            invariant
                j <= charge_carriers@.len(),
                charge_carriers@.len() <= MAX_CARRIERS,
                forall|i: int| 0 <= i < charge_carriers@.len() ==> 0 <= (#[trigger] charge_carriers@[i]).0 <= MAX_MULTIPLICITY,
                forall|i: int| 0 <= i < charge_carriers@.len() ==> carrier_formula_ok(#[trigger] charge_carriers@[i].1),
                out@.len() <= j,
                forall|i: int| 0 <= i < out@.len() ==> 0 < #[trigger] out@[i].0 <= MAX_MULTIPLICITY * j,
                forall|i: int| 0 <= i < out@.len() ==> carrier_formula_ok(#[trigger] out@[i].1),
                forall|a: int, b: int| 0 <= a < b < out@.len() ==> out@[a].1@ != out@[b].1@,
                forall|a: int, b: int| 0 <= a < b < out@.len() ==> formula_lt(out@[a].1@, out@[b].1@),
                forall|f: Seq<Entry>| #[trigger] multiplicity_in(out@, f) == multiplicity_in(charge_carriers@.subrange(0, j as int), f),
            decreases charge_carriers@.len() - j,
        {
            let n = charge_carriers[j].0;
            let ghost fj = charge_carriers@[j as int].1@;
            let ghost start = out@;
            proof {
                assert(charge_carriers@.subrange(0, j + 1).drop_last() =~= charge_carriers@.subrange(0, j as int));
            }
            if n > 0 {
                let mut p: usize = 0;
                while p < out.len() && !(out[p].1 == charge_carriers[j].1)
                    invariant
                        p <= out@.len(),
                        j < charge_carriers@.len(),
                        forall|i: int| 0 <= i < p ==> out@[i].1@ != fj,
                        fj == charge_carriers@[j as int].1@,
                    decreases out@.len() - p,
                {
                    p += 1;
                }
                let ghost before = out@;
                if p < out.len() {
                    let total = out[p].0 + n;
                    let f = out[p].1.clone();
                    out.set(p, (total, f));
                    proof {
                        assert(carrier_formula_ok(before[p as int].1));
                        crate::formula::lemma_same_view(f, before[p as int].1);
                        assert(carrier_formula_ok(f));
                        assert forall|i: int| 0 <= i < out@.len() implies carrier_formula_ok(#[trigger] out@[i].1) by {
                            if i != p {
                                assert(out@[i] == before[i]);
                            }
                        }
                        lemma_multiplicity_update(before, p as int, out@, n as int);
                        assert(before[p as int].1@ == fj);
                        assert forall|a: int, b: int| 0 <= a < b < out@.len() implies out@[a].1@ != out@[b].1@ by {
                            assert(out@[a].1@ == before[a].1@);
                            assert(out@[b].1@ == before[b].1@);
                        }
                        assert forall|a: int, b: int| 0 <= a < b < out@.len() implies formula_lt(out@[a].1@, out@[b].1@) by {
                            assert(out@[a].1@ == before[a].1@);
                            assert(out@[b].1@ == before[b].1@);
                        }
                    }
                } else {
                    let f = charge_carriers[j].1.clone();
                    let mut q: usize = 0;
                    while q < out.len() && out[q].1.less_than(&f)
                        invariant
                            q <= out@.len(),
                            forall|i: int| 0 <= i < q ==> formula_lt(#[trigger] out@[i].1@, f@),
                        decreases out@.len() - q,
                    {
                        q += 1;
                    }
                    proof {
                        crate::formula::lemma_same_view(f, charge_carriers@[j as int].1);
                        if q < out@.len() {
                            assert(out@[q as int].1@ != fj);
                            lemma_formula_lt_total(out@[q as int].1@, fj);
                        }
                    }
                    out.insert(q, (n, f));
                    proof {
                        assert(carrier_formula_ok(charge_carriers@[j as int].1));
                        assert(carrier_formula_ok(f));
                        assert(out@ =~= before.subrange(0, q as int) + seq![(n, f)] + before.subrange(q as int, before.len() as int));
                        assert forall|i: int| 0 <= i < out@.len() implies carrier_formula_ok(#[trigger] out@[i].1) by {
                            if i < q {
                                assert(out@[i] == before[i]);
                            } else if i > q {
                                assert(out@[i] == before[i - 1]);
                            }
                        }
                        assert forall|i: int| 0 <= i < out@.len() implies 0 < #[trigger] out@[i].0 <= MAX_MULTIPLICITY * (j + 1) by {
                            if i < q {
                                assert(out@[i] == before[i]);
                            } else if i > q {
                                assert(out@[i] == before[i - 1]);
                            }
                        }
                        assert forall|a: int, b: int| 0 <= a < b < out@.len() implies out@[a].1@ != out@[b].1@ && formula_lt(out@[a].1@, out@[b].1@) by {
                            if b < q {
                                assert(out@[a] == before[a] && out@[b] == before[b]);
                            } else if b == q {
                                assert(out@[a] == before[a]);
                            } else if a < q {
                                assert(out@[a] == before[a] && out@[b] == before[b - 1]);
                            } else if a == q {
                                assert(out@[b] == before[b - 1]);
                                if b - 1 > q {
                                    lemma_formula_lt_transitive(fj, before[q as int].1@, before[b - 1].1@);
                                }
                            } else {
                                assert(out@[a] == before[a - 1] && out@[b] == before[b - 1]);
                            }
                            crate::formula::lemma_formula_lt_irreflexive(out@[a].1@);
                        }
                        lemma_multiplicity_absent(before, fj);
                        lemma_multiplicity_insert(before, q as int, (n, f), out@);
                    }
                }
            } else {
                proof {
                    assert(n == 0);
                }
            }
            proof {
                assert forall|f: Seq<Entry>| #[trigger] multiplicity_in(out@, f) == multiplicity_in(
                    charge_carriers@.subrange(0, j + 1), f) by {
                    assert(multiplicity_in(out@, f) == multiplicity_in(start, f) + if fj == f {
                        n as int
                    } else {
                        0
                    });
                }
            }
            j += 1;
        }
        proof {
            assert(charge_carriers@.subrange(0, j as int) =~= charge_carriers@);
        }
        MolecularCharge { charge_carriers: out }
    }

    /// Up to `n` protons: hydrogen less one electron.
    pub fn proton(n: isize) -> (r: Self)
        requires
            0 <= n <= MAX_MULTIPLICITY,
        ensures
            r.wf(),
            n > 0 ==> r@.len() == 1 && r@[0].0 == n && r@[0].1.count(Element::H, None) == 1
                && r@[0].1.count(Element::Electron, None) == -1 && r@[0].1@.len() == 2
                && r@[0].1@ == proton_entries(),
            n == 0 ==> r@.len() == 0,
            r.total_charge() == n,
    {
        let mut carriers: Vec<(isize, MolecularFormula)> = Vec::new();
        if n > 0 {
            carriers.push((n, proton_formula()));
            proof {
                assert(carriers@.drop_last().len() == 0);
                assert(charge_in(carriers@.drop_last()) == 0);
            }
        }
        MolecularCharge { charge_carriers: carriers }
    }

    /// The total charge: multiplicity times charge, summed over the carriers.
    pub fn charge(&self) -> (r: i64)
        requires
            self.wf(),
        ensures
            r == self.total_charge(),
            -0x4000_0000 <= r <= 0x4000_0000,
    {
        let mut total: i64 = 0;
        let mut j: usize = 0;
        while j < self.charge_carriers.len()
            invariant
                self.wf(),
                j <= self@.len(),
                total == charge_in(self@.subrange(0, j as int)),
                -(j as int) * 0x100_0000 <= total <= (j as int) * 0x100_0000,
            decreases self@.len() - j,
        {
            let c = &self.charge_carriers[j];
            proof {
                assert(self@.subrange(0, j + 1).drop_last() =~= self@.subrange(0, j as int));
                assert(carrier_formula_ok(self@[j as int].1));
                assert(-256 <= c.1.count(Element::Electron, None) <= 256);
            }
            let q = c.1.charge();
            proof {
                assert(-0x100_0000 <= c.0 * q <= 0x100_0000) by (nonlinear_arith)
                    requires
                        0 < c.0 <= 65536,
                        -256 <= q <= 256,
                {}
            }
            total = total + (c.0 as i64) * q;
            j += 1;
        }
        proof {
            assert(self@.subrange(0, j as int) =~= self@);
            assert(j <= 64);
            assert(-(j as int) * 0x100_0000 >= -0x4000_0000);
            assert((j as int) * 0x100_0000 <= 0x4000_0000);
        }
        total
    }

    /// The formula of all carriers, each at its multiplicity.
    pub fn formula(&self) -> (r: MolecularFormula)
        requires
            self.wf(),
        ensures
            r.wf(),
            forall|e: Element, iso: Option<u16>| #[trigger] r.count(e, iso) == carrier_count(self@, e, iso),
            within(r, 0x100_0000 * MAX_CARRIERS),
    {
        let mut total = MolecularFormula::empty();
        let mut j: usize = 0;
        while j < self.charge_carriers.len()
            invariant
                self.wf(),
                j <= self@.len(),
                total.wf(),
                forall|e: Element, iso: Option<u16>| #[trigger] total.count(e, iso) == carrier_count(self@.subrange(0, j as int), e, iso),
                within(total, 0x100_0000 * j),
            decreases self@.len() - j,
        {
            let c = &self.charge_carriers[j];
            proof {
                assert(self@.subrange(0, j + 1).drop_last() =~= self@.subrange(0, j as int));
                assert(carrier_formula_ok(self@[j as int].1));
                assert forall|e: Element, iso: Option<u16>| #[trigger] crate::formula::fits(c.1.count(e, iso) * c.0) by {
                    let k = c.1.count(e, iso);
                    assert(-256 <= k <= 256);
                    assert(-0x100_0000 <= k * c.0 <= 0x100_0000) by (nonlinear_arith)
                        requires 0 < c.0 <= 65536, -256 <= k <= 256,
                    {}
                }
            }
            let scaled = c.1.times(c.0 as i32);
            proof {
                assert forall|e: Element, iso: Option<u16>| -0x100_0000 <= #[trigger] scaled.count(e, iso) <= 0x100_0000 by {
                    let k = c.1.count(e, iso);
                    assert(-256 <= k <= 256);
                    assert(-0x100_0000 <= k * c.0 <= 0x100_0000) by (nonlinear_arith)
                        requires 0 < c.0 <= 65536, -256 <= k <= 256,
                    {}
                }
                lemma_sum_within(total, scaled, 0x100_0000 * j, 0x100_0000);
            }
            let next = total.plus(&scaled);
            proof {
                assert forall|e: Element, iso: Option<u16>| #[trigger] next.count(e, iso) == carrier_count(self@.subrange(0, j + 1), e, iso) by {
                    assert(scaled.count(e, iso) == c.1.count(e, iso) * c.0);
                    assert(next.count(e, iso) == total.count(e, iso) + scaled.count(e, iso));
                }
                assert(0x100_0000 * j + 0x100_0000 == 0x100_0000 * (j + 1));
            }
            total = next;
            j += 1;
        }
        proof {
            assert(self@.subrange(0, j as int) =~= self@);
        }
        total
    }
}

/// The carriers with their formulas seen as entry lists.
pub open spec fn deep(s: Seq<(isize, MolecularFormula)>) -> Seq<(isize, Seq<Entry>)> {
    s.map_values(|x: (isize, MolecularFormula)| (x.0, x.1@))
}

/// The charge of choosing `v[t]` of carrier `t`, for each t.
pub open spec fn selection_charge(c: Seq<(isize, MolecularFormula)>, v: Seq<isize>) -> int
    decreases v.len(),
{
    if v.len() == 0 || c.len() == 0 {
        0
    } else {
        selection_charge(c.drop_last(), v.drop_last()) + v.last() * charge_of(c.last().1)
    }
}

/// `v` chooses, of each carrier, between zero and its multiplicity, for a total `charge`.
pub open spec fn valid_selection(c: Seq<(isize, MolecularFormula)>, v: Seq<isize>, charge: int) -> bool {
    &&& v.len() == c.len()
    &&& forall|t: int| 0 <= t < v.len() ==> 0 <= #[trigger] v[t] <= c[t].0
    &&& selection_charge(c, v) == charge
}

/// The carriers chosen by `v`, each at its chosen multiplicity, those chosen zero times left out.
pub open spec fn selected(c: Seq<(isize, MolecularFormula)>, v: Seq<isize>) -> Seq<(isize, Seq<Entry>)>
    decreases v.len(),
{
    if v.len() == 0 || c.len() == 0 {
        Seq::empty()
    } else {
        selected(c.drop_last(), v.drop_last()) + if v.last() > 0 {
            seq![(v.last(), c.last().1@)]
        } else {
            Seq::empty()
        }
    }
}

/// `o` is the charge state that some selection of total `charge` chooses.
pub open spec fn is_option(c: Seq<(isize, MolecularFormula)>, o: Seq<(isize, Seq<Entry>)>, charge: int) -> bool {
    exists|v: Seq<isize>| valid_selection(c, v, charge) && o == selected(c, v)
}

/// `o` is an option for some charge from one to `max`.
pub open spec fn is_option_up_to(c: Seq<(isize, MolecularFormula)>, o: Seq<(isize, Seq<Entry>)>, max: int) -> bool {
    exists|z: int| 1 <= z <= max && is_option(c, o, z)
}

/// `o` is one carrier of `c` whose formula has charge one, taken once.
pub open spec fn is_single_option(c: Seq<(isize, MolecularFormula)>, o: Seq<(isize, Seq<Entry>)>) -> bool {
    exists|t: int| 0 <= t < c.len() && charge_of(c[t].1) == 1 && o == seq![(1isize, c[t].1@)]
}

/// The charge of a selection is bounded by the number of carriers.
proof fn lemma_selection_charge_bound(c: Seq<(isize, MolecularFormula)>, v: Seq<isize>)
    requires
        simplified(c),
        v.len() == c.len(),
        forall|t: int| 0 <= t < v.len() ==> 0 <= #[trigger] v[t] <= c[t].0,
    ensures
        -(v.len() as int) * 0x100_0000 <= selection_charge(c, v) <= (v.len() as int) * 0x100_0000,
    decreases v.len(),
{
    if v.len() > 0 {
        let c2 = c.drop_last();
        let v2 = v.drop_last();
        assert forall|t: int| 0 <= t < v2.len() implies 0 <= #[trigger] v2[t] <= c2[t].0 by {
            assert(v2[t] == v[t]);
        }
        assert forall|i: int, j: int| 0 <= i < j < c2.len() implies c2[i].1@ != c2[j].1@ by {
            assert(c2[i] == c[i]);
            assert(c2[j] == c[j]);
        }
        assert forall|i: int| 0 <= i < c2.len() implies 0 < #[trigger] c2[i].0 <= MAX_MULTIPLICITY * MAX_CARRIERS by {
            assert(c2[i] == c[i]);
        }
        assert forall|i: int| 0 <= i < c2.len() implies carrier_formula_ok(#[trigger] c2[i].1) by {
            assert(c2[i] == c[i]);
        }
        lemma_selection_charge_bound(c2, v2);
        let last = v.last();
        assert(carrier_formula_ok(c.last().1));
        let q = charge_of(c.last().1);
        assert(-256 <= c.last().1.count(Element::Electron, None) <= 256);
        assert(0 <= last <= 65536);
        assert(-0x100_0000 <= last * q <= 0x100_0000) by (nonlinear_arith)
            requires
                0 <= last <= 65536,
                -256 <= q <= 256,
        {}
    }
}

/// The number of selections of the first k carriers with total charge z.
pub open spec fn selection_count(c: Seq<(isize, MolecularFormula)>, k: int, z: int) -> nat
    decreases k, 1int, 0int,
{
    if k <= 0 || k > c.len() {
        if z == 0 {
            1
        } else {
            0
        }
    } else {
        count_upto(c, k, z, c[k - 1].0 + 1)
    }
}

/// The number of selections of the first k carriers with total charge z in which
/// carrier k - 1 is chosen fewer than n times.
pub open spec fn count_upto(c: Seq<(isize, MolecularFormula)>, k: int, z: int, n: int) -> nat
    decreases k, 0int, n,
{
    if n <= 0 || k <= 0 || k > c.len() {
        0
    } else {
        count_upto(c, k, z, n - 1) + selection_count(c, k - 1, z - (n - 1) * charge_of(c[k - 1].1))
    }
}

/// The number of options of every charge from one to `max`.
pub open spec fn options_up_to(c: Seq<(isize, MolecularFormula)>, max: int) -> nat
    decreases max,
{
    if max <= 0 {
        0
    } else {
        options_up_to(c, max - 1) + selection_count(c, c.len() as int, max)
    }
}

/// The number of carriers whose formula has charge one.
pub open spec fn single_count(c: Seq<(isize, MolecularFormula)>) -> nat
    decreases c.len(),
{
    if c.len() == 0 {
        0
    } else {
        single_count(c.drop_last()) + if charge_of(c.last().1) == 1 {
            1nat
        } else {
            0
        }
    }
}

/// No selection of the first k carriers reaches a charge beyond k times the largest
/// charge a carrier can bring.
proof fn lemma_count_out_of_reach(c: Seq<(isize, MolecularFormula)>, k: int, z: int)
    requires
        simplified(c),
        0 <= k <= c.len(),
        z > k * 0x100_0000 || z < -k * 0x100_0000,
    ensures
        selection_count(c, k, z) == 0,
    decreases k, 1int, 0int,
{
    if k > 0 {
        lemma_count_upto_out_of_reach(c, k, z, c[k - 1].0 + 1);
    }
}

proof fn lemma_count_upto_out_of_reach(c: Seq<(isize, MolecularFormula)>, k: int, z: int, n: int)
    requires
        simplified(c),
        0 < k <= c.len(),
        0 <= n <= c[k - 1].0 + 1,
        z > k * 0x100_0000 || z < -k * 0x100_0000,
    ensures
        count_upto(c, k, z, n) == 0,
    decreases k, 0int, n,
{
    if n > 0 {
        lemma_count_upto_out_of_reach(c, k, z, n - 1);
        let q = charge_of(c[k - 1].1);
        assert(carrier_formula_ok(c[k - 1].1));
        assert(-256 <= c[k - 1].1.count(Element::Electron, None) <= 256);
        assert(0 < c[k - 1].0 <= 65536);
        let m = n - 1;
        assert(-0x100_0000 <= m * q <= 0x100_0000) by (nonlinear_arith)
            requires
                0 <= m <= 65536,
                -256 <= q <= 256,
        {}
        lemma_count_out_of_reach(c, k - 1, z - m * q);
    }
}

/// With a single carrier of charge one that may occur `max` times, every charge from
/// one to `max` has exactly one option.
pub proof fn lemma_single_unit_carrier(c: Seq<(isize, MolecularFormula)>, max: int)
    requires
        c.len() == 1,
        c[0].0 == max,
        max >= 0,
        charge_of(c[0].1) == 1,
    ensures
        options_up_to(c, max) == max,
        single_count(c) == 1,
    decreases max,
{
    if max > 0 {
        lemma_unit_options_up_to(c, max, max);
    }
    assert(c.drop_last().len() == 0);
    assert(single_count(c.drop_last()) == 0);
    assert(c.last() == c[0]);
}

proof fn lemma_unit_options_up_to(c: Seq<(isize, MolecularFormula)>, max: int, z: int)
    requires
        c.len() == 1,
        c[0].0 == max,
        charge_of(c[0].1) == 1,
        0 <= z <= max,
    ensures
        options_up_to(c, z) == z,
    decreases z,
{
    if z > 0 {
        lemma_unit_options_up_to(c, max, z - 1);
        lemma_unit_count_upto(c, z, max + 1);
    }
}

proof fn lemma_unit_count_upto(c: Seq<(isize, MolecularFormula)>, z: int, n: int)
    requires
        c.len() == 1,
        charge_of(c[0].1) == 1,
        n >= 0,
        z >= 0,
    ensures
        count_upto(c, 1, z, n) == if z < n { 1nat } else { 0 },
    decreases n,
{
    if n > 0 {
        lemma_unit_count_upto(c, z, n - 1);
        assert(selection_count(c, 0, z - (n - 1) * 1) == if z == n - 1 { 1nat } else { 0 });
    }
}

/// The charges of the carriers, in order.
fn carrier_charges(c: &[(isize, MolecularFormula)]) -> (r: Vec<i64>)
    requires
        simplified(c@),
    ensures
        r@.len() == c@.len(),
        forall|t: int| 0 <= t < c@.len() ==> r@[t] == charge_of(#[trigger] c@[t].1),
{
    let mut r: Vec<i64> = Vec::new();
    let mut t: usize = 0;
    while t < c.len()
        invariant
            simplified(c@),
            t <= c@.len(),
            r@.len() == t,
            forall|i: int| 0 <= i < t ==> r@[i] == charge_of(#[trigger] c@[i].1),
        decreases c@.len() - t,
    {
        proof {
            assert(carrier_formula_ok(c@[t as int].1));
        }
        r.push(c[t].1.charge());
        t += 1;
    }
    r
}

/// Every selection of the first k carriers with the given total charge.
fn selections(c: &[(isize, MolecularFormula)], charges: &Vec<i64>, k: usize, charge: i64) -> (r: Vec<Vec<isize>>)
    requires
        simplified(c@),
        k <= c@.len(),
        charges@.len() == c@.len(),
        forall|t: int| 0 <= t < c@.len() ==> charges@[t] == charge_of(#[trigger] c@[t].1),
    ensures
        forall|i: int| 0 <= i < r@.len() ==> valid_selection(c@.subrange(0, k as int), (#[trigger] r@[i])@, charge as int),
        forall|v: Seq<isize>| valid_selection(c@.subrange(0, k as int), v, charge as int) ==> exists|i: int|
            0 <= i < r@.len() && (#[trigger] r@[i])@ == v,
        r@.len() == selection_count(c@, k as int, charge as int),
    decreases k,
{
    let ghost ck = c@.subrange(0, k as int);
    let mut out: Vec<Vec<isize>> = Vec::new();
    if k == 0 {
        if charge == 0 {
            out.push(Vec::new());
            proof {
                assert forall|v: Seq<isize>| valid_selection(ck, v, charge as int) implies exists|i: int|
                    0 <= i < out@.len() && (#[trigger] out@[i])@ == v by {
                    assert(v =~= out@[0]@);
                }
            }
        } else {
            proof {
                assert forall|v: Seq<isize>| valid_selection(ck, v, charge as int) implies false by {}
            }
        }
        return out;
    }
    if charge > 0x4000_0000 || charge < -0x4000_0000 {
        proof {
            lemma_count_out_of_reach(c@, k as int, charge as int);
            assert forall|v: Seq<isize>| valid_selection(ck, v, charge as int) implies false by {
                lemma_simplified_prefix(c@, k as int);
                lemma_selection_charge_bound(ck, v);
            }
        }
        return out;
    }
    let ghost ck1 = c@.subrange(0, k - 1);
    proof {
        assert(ck.drop_last() =~= ck1);
        assert(ck.last() == c@[k - 1]);
        lemma_simplified_prefix(c@, k - 1);
    }
    let max = c[k - 1].0;
    let q = charges[k - 1];
    proof {
        assert(carrier_formula_ok(c@[k - 1].1));
        assert(-256 <= c@[k - 1].1.count(Element::Electron, None) <= 256);
    }
    let mut n: isize = 0;
    while n <= max
        invariant
            simplified(c@),
            0 < k <= c@.len(),
            ck == c@.subrange(0, k as int),
            ck1 == c@.subrange(0, k - 1),
            ck.drop_last() == ck1,
            ck.last() == c@[k - 1],
            simplified(ck1),
            charges@.len() == c@.len(),
            forall|t: int| 0 <= t < c@.len() ==> charges@[t] == charge_of(#[trigger] c@[t].1),
            max == c@[k - 1].0,
            0 < max <= 65536,
            q == charge_of(c@[k - 1].1),
            -256 <= q <= 256,
            -0x4000_0000 <= charge <= 0x4000_0000,
            0 <= n <= max + 1,
            out@.len() == count_upto(c@, k as int, charge as int, n as int),
            forall|i: int| 0 <= i < out@.len() ==> valid_selection(ck, (#[trigger] out@[i])@, charge as int),
            forall|v: Seq<isize>| valid_selection(ck, v, charge as int) && v.last() < n ==> exists|i: int|
                0 <= i < out@.len() && (#[trigger] out@[i])@ == v,
        decreases max + 1 - n,
    {
        proof {
            assert(-0x100_0000 <= n * q <= 0x100_0000) by (nonlinear_arith)
                requires
                    0 <= n <= 65536,
                    -256 <= q <= 256,
            {}
        }
        let rest = charge - (n as i64) * q;
        let sub = selections(c, charges, k - 1, rest);
        let ghost out_before = out@;
        let mut i: usize = 0;
        while i < sub.len()
            invariant
                0 < k <= c@.len(),
                ck.drop_last() == ck1,
                ck.last() == c@[k - 1],
                ck.len() == k,
                max == c@[k - 1].0,
                q == charge_of(c@[k - 1].1),
                0 <= n <= max,
                rest == charge - n * q,
                i <= sub@.len(),
                sub@.len() == selection_count(c@, k - 1, rest as int),
                forall|j: int| 0 <= j < sub@.len() ==> valid_selection(ck1, (#[trigger] sub@[j])@, rest as int),
                out@.len() == out_before.len() + i,
                out_before.len() == count_upto(c@, k as int, charge as int, n as int),
                forall|j: int| 0 <= j < out_before.len() ==> out@[j] == out_before[j],
                forall|j: int| 0 <= j < i ==> (#[trigger] out@[out_before.len() + j])@ == sub@[j]@.push(n),
                forall|j: int| 0 <= j < out@.len() ==> valid_selection(ck, (#[trigger] out@[j])@, charge as int),
            decreases sub@.len() - i,
        {
            let mut v = sub[i].clone();
            proof {
                assert(v@ == sub@[i as int]@) by {
                    assert(v@ =~= sub@[i as int]@);
                }
            }
            v.push(n);
            proof {
                let w = sub@[i as int]@;
                assert(valid_selection(ck1, w, rest as int));
                assert(v@.drop_last() =~= w);
                assert forall|t: int| 0 <= t < v@.len() implies 0 <= #[trigger] v@[t] <= ck[t].0 by {
                    if t < w.len() {
                        assert(v@[t] == w[t]);
                        assert(ck1[t] == ck[t]);
                    }
                }
                assert(selection_charge(ck, v@) == selection_charge(ck1, w) + n * q);
            }
            out.push(v);
            i += 1;
        }
        proof {
            assert forall|v: Seq<isize>| valid_selection(ck, v, charge as int) && v.last() < n + 1 implies exists|j: int|
                0 <= j < out@.len() && (#[trigger] out@[j])@ == v by {
                if v.last() < n {
                    let j0 = choose|j: int| 0 <= j < out_before.len() && (#[trigger] out_before[j])@ == v;
                    assert(out@[j0] == out_before[j0]);
                } else {
                    let w = v.drop_last();
                    assert forall|t: int| 0 <= t < w.len() implies 0 <= #[trigger] w[t] <= ck1[t].0 by {
                        assert(w[t] == v[t]);
                        assert(ck1[t] == ck[t]);
                    }
                    assert(selection_charge(ck, v) == selection_charge(ck1, w) + v.last() * q);
                    assert(valid_selection(ck1, w, rest as int));
                    let j1 = choose|j: int| 0 <= j < sub@.len() && (#[trigger] sub@[j])@ == w;
                    assert(out@[out_before.len() + j1]@ == w.push(n));
                    assert(w.push(n) =~= v);
                }
            }
        }
        n += 1;
    }
    proof {
        assert forall|v: Seq<isize>| valid_selection(ck, v, charge as int) implies exists|j: int|
            0 <= j < out@.len() && (#[trigger] out@[j])@ == v by {
            assert(v.last() == v[v.len() - 1]);
            assert(v.last() < n);
        }
    }
    out
}

/// The charge state that chooses `v[t]` of carrier `t`.
fn chosen(c: &[(isize, MolecularFormula)], v: &Vec<isize>) -> (r: MolecularCharge)
    requires
        simplified(c@),
        valid_selection(c@, v@, selection_charge(c@, v@)),
    ensures
        r.wf(),
        deep(r@) == selected(c@, v@),
{
    let mut out: Vec<(isize, MolecularFormula)> = Vec::new();
    let mut t: usize = 0;
    while t < v.len()
        invariant
            simplified(c@),
            v@.len() == c@.len(),
            forall|t: int| 0 <= t < v@.len() ==> 0 <= #[trigger] v@[t] <= c@[t].0,
            t <= v@.len(),
            out@.len() <= t,
            forall|i: int| 0 <= i < out@.len() ==> 0 < #[trigger] out@[i].0 <= MAX_MULTIPLICITY * MAX_CARRIERS,
            forall|i: int| 0 <= i < out@.len() ==> carrier_formula_ok(#[trigger] out@[i].1),
            forall|i: int| 0 <= i < out@.len() ==> exists|s: int| 0 <= s < t && (#[trigger] out@[i]).1@ == c@[s].1@
                && forall|i2: int| 0 <= i2 < i ==> out@[i2].1@ != c@[s].1@,
            deep(out@) == selected(c@.subrange(0, t as int), v@.subrange(0, t as int)),
            forall|i: int, t2: int| 0 <= i < out@.len() && t <= t2 < c@.len() ==> formula_lt(#[trigger] out@[i].1@, #[trigger] c@[t2].1@),
            forall|a: int, b: int| 0 <= a < b < out@.len() ==> formula_lt(out@[a].1@, out@[b].1@),
        decreases v@.len() - t,
    {
        let ghost before = out@;
        proof {
            assert(c@.subrange(0, t + 1).drop_last() =~= c@.subrange(0, t as int));
            assert(v@.subrange(0, t + 1).drop_last() =~= v@.subrange(0, t as int));
        }
        if v[t] > 0 {
            let f = c[t].1.clone();
            proof {
                assert(carrier_formula_ok(c@[t as int].1));
                crate::formula::lemma_same_view(f, c@[t as int].1);
            }
            out.push((v[t], f));
            proof {
                assert(deep(out@) =~= deep(before) + seq![(v@[t as int], c@[t as int].1@)]);
                assert forall|i: int| 0 <= i < out@.len() implies exists|s: int| 0 <= s < t + 1 && (#[trigger] out@[i]).1@ == c@[s].1@
                    && forall|i2: int| 0 <= i2 < i ==> out@[i2].1@ != c@[s].1@ by {
                    if i < before.len() {
                        assert(out@[i] == before[i]);
                        let s = choose|s: int| 0 <= s < t && (#[trigger] before[i]).1@ == c@[s].1@
                            && forall|i2: int| 0 <= i2 < i ==> before[i2].1@ != c@[s].1@;
                        assert forall|i2: int| 0 <= i2 < i implies out@[i2].1@ != c@[s].1@ by {
                            assert(out@[i2] == before[i2]);
                        }
                    } else {
                        assert forall|i2: int| 0 <= i2 < i implies out@[i2].1@ != c@[t as int].1@ by {
                            assert(out@[i2] == before[i2]);
                            let s = choose|s: int| 0 <= s < t && (#[trigger] before[i2]).1@ == c@[s].1@
                                && forall|i3: int| 0 <= i3 < i2 ==> before[i3].1@ != c@[s].1@;
                        }
                    }
                }
                assert forall|i: int| 0 <= i < out@.len() implies carrier_formula_ok(#[trigger] out@[i].1) by {
                    if i < before.len() {
                        assert(out@[i] == before[i]);
                    }
                }
                assert forall|i: int, t2: int| 0 <= i < out@.len() && t + 1 <= t2 < c@.len() implies formula_lt(#[trigger] out@[i].1@, #[trigger] c@[t2].1@) by {
                    if i < before.len() {
                        assert(out@[i] == before[i]);
                    } else {
                        assert(out@[i].1@ == c@[t as int].1@);
                    }
                }
                assert forall|a: int, b: int| 0 <= a < b < out@.len() implies formula_lt(out@[a].1@, out@[b].1@) by {
                    assert(out@[a] == before[a]);
                    if b < before.len() {
                        assert(out@[b] == before[b]);
                    } else {
                        assert(out@[b].1@ == c@[t as int].1@);
                    }
                }
            }
        } else {
            proof {
                assert(deep(out@) =~= deep(before));
            }
        }
        t += 1;
    }
    proof {
        assert(c@.subrange(0, t as int) =~= c@);
        assert(v@.subrange(0, t as int) =~= v@);
        assert forall|a: int, b: int| 0 <= a < b < out@.len() implies out@[a].1@ != out@[b].1@ by {
            let s = choose|s: int| 0 <= s < t && (#[trigger] out@[b]).1@ == c@[s].1@
                && forall|i2: int| 0 <= i2 < b ==> out@[i2].1@ != c@[s].1@;
        }
    }
    MolecularCharge { charge_carriers: out }
}

impl MolecularCharge {
    /// Every choice of carriers, each between zero and its multiplicity, whose charges
    /// add up to exactly `charge`; none for charge zero. Each option keeps the carriers'
    /// order and leaves out those chosen zero times.
    pub fn options(&self, charge: i64) -> (r: Vec<MolecularCharge>)
        requires
            self.wf(),
        ensures
            charge == 0 ==> r@.len() == 0,
            charge != 0 ==> r@.len() == selection_count(self@, self@.len() as int, charge as int),
            forall|i: int| 0 <= i < r@.len() ==> (#[trigger] r@[i]).wf(),
            forall|i: int| 0 <= i < r@.len() ==> is_option(self@, deep((#[trigger] r@[i])@), charge as int),
            charge != 0 ==> forall|v: Seq<isize>| #[trigger] valid_selection(self@, v, charge as int) ==> exists|i: int|
                0 <= i < r@.len() && deep((#[trigger] r@[i])@) == selected(self@, v),
    {
        let mut out: Vec<MolecularCharge> = Vec::new();
        if charge == 0 {
            return out;
        }
        let c = self.charge_carriers.as_slice();
        let charges = carrier_charges(c);
        let sels = selections(c, &charges, c.len(), charge);
        proof {
            assert(c@.subrange(0, c@.len() as int) =~= c@);
        }
        let mut i: usize = 0;
        while i < sels.len()
            invariant
                c@ == self@,
                sels@.len() == selection_count(self@, self@.len() as int, charge as int),
                self.wf(),
                forall|j: int| 0 <= j < sels@.len() ==> valid_selection(c@, (#[trigger] sels@[j])@, charge as int),
                i <= sels@.len(),
                out@.len() == i,
                forall|j: int| 0 <= j < i ==> (#[trigger] out@[j]).wf(),
                forall|j: int| 0 <= j < i ==> deep((#[trigger] out@[j])@) == selected(self@, sels@[j]@),
            decreases sels@.len() - i,
        {
            let o = chosen(c, &sels[i]);
            out.push(o);
            i += 1;
        }
        proof {
            assert forall|j: int| 0 <= j < out@.len() implies is_option(self@, deep((#[trigger] out@[j])@), charge as int) by {
                assert(valid_selection(self@, sels@[j]@, charge as int));
                assert(deep(out@[j]@) == selected(self@, sels@[j]@));
            }
            assert forall|v: Seq<isize>| #[trigger] valid_selection(self@, v, charge as int) implies exists|j: int|
                0 <= j < out@.len() && deep((#[trigger] out@[j])@) == selected(self@, v) by {
                let j = choose|j: int| 0 <= j < sels@.len() && (#[trigger] sels@[j])@ == v;
                assert(deep(out@[j]@) == selected(self@, v));
            }
        }
        out
    }

    /// The options for every charge from one up to the total charge, charge by charge.
    pub fn all_charge_options(&self) -> (r: Vec<MolecularCharge>)
        requires
            self.wf(),
        ensures
            r@.len() == options_up_to(self@, self.total_charge()),
            forall|i: int| 0 <= i < r@.len() ==> (#[trigger] r@[i]).wf(),
            forall|i: int| 0 <= i < r@.len() ==> is_option_up_to(self@, deep((#[trigger] r@[i])@), self.total_charge()),
            forall|z: int, v: Seq<isize>| 1 <= z <= self.total_charge() && #[trigger] valid_selection(self@, v, z) ==> exists|i: int|
                0 <= i < r@.len() && deep((#[trigger] r@[i])@) == selected(self@, v),
    {
        let total = self.charge();
        let mut out: Vec<MolecularCharge> = Vec::new();
        let mut z: i64 = 1;
        while z <= total
            invariant
                self.wf(),
                total == self.total_charge(),
                total <= 0x4000_0000,
                1 <= z <= 0x4000_0001,
                z <= total + 1 || total < 1,
                total < 1 ==> z == 1,
                out@.len() == options_up_to(self@, (z - 1) as int),
                forall|i: int| 0 <= i < out@.len() ==> (#[trigger] out@[i]).wf(),
                forall|i: int| 0 <= i < out@.len() ==> is_option_up_to(self@, deep((#[trigger] out@[i])@), self.total_charge()),
                forall|y: int, v: Seq<isize>| 1 <= y < z && #[trigger] valid_selection(self@, v, y) ==> exists|i: int|
                    0 <= i < out@.len() && deep((#[trigger] out@[i])@) == selected(self@, v),
            decreases total + 1 - z,
        {
            let mut opts = self.options(z);
            let ghost before = out@;
            let ghost added = opts@;
            out.append(&mut opts);
            proof {
                assert forall|i: int| 0 <= i < out@.len() implies (#[trigger] out@[i]).wf() by {
                    if i >= before.len() {
                        assert(out@[i] == added[i - before.len()]);
                    }
                }
                assert forall|i: int| 0 <= i < out@.len() implies is_option_up_to(self@, deep((#[trigger] out@[i])@), self.total_charge()) by {
                    if i >= before.len() {
                        assert(out@[i] == added[i - before.len()]);
                        assert(is_option(self@, deep(added[i - before.len()]@), z as int));
                    } else {
                        assert(out@[i] == before[i]);
                    }
                }
                assert forall|y: int, v: Seq<isize>| 1 <= y < z + 1 && #[trigger] valid_selection(self@, v, y) implies exists|i: int|
                    0 <= i < out@.len() && deep((#[trigger] out@[i])@) == selected(self@, v) by {
                    if y < z {
                        let i = choose|i: int| 0 <= i < before.len() && deep((#[trigger] before[i])@) == selected(self@, v);
                        assert(out@[i] == before[i]);
                    } else {
                        let i = choose|i: int| 0 <= i < added.len() && deep((#[trigger] added[i])@) == selected(self@, v);
                        assert(out@[before.len() + i] == added[i]);
                    }
                }
            }
            z += 1;
        }
        proof {
            if total >= 1 {
                assert(z == total + 1);
            } else {
                assert(z == 1);
                assert(options_up_to(self@, total as int) == 0);
            }
        }
        out
    }
}

impl MolecularCharge {
    /// One option for each carrier whose own formula has charge one: that carrier, once.
    pub fn all_single_charge_options(&self) -> (r: Vec<MolecularCharge>)
        requires
            self.wf(),
        ensures
            r@.len() == single_count(self@),
            forall|i: int| 0 <= i < r@.len() ==> (#[trigger] r@[i]).wf(),
            forall|i: int| 0 <= i < r@.len() ==> is_single_option(self@, deep((#[trigger] r@[i])@)),
            forall|t: int| 0 <= t < self@.len() && charge_of(#[trigger] self@[t].1) == 1 ==> exists|i: int|
                0 <= i < r@.len() && deep(r@[i]@) == seq![(1isize, self@[t].1@)],
    {
        let mut out: Vec<MolecularCharge> = Vec::new();
        let mut t: usize = 0;
        while t < self.charge_carriers.len()
            invariant
                self.wf(),
                t <= self@.len(),
                out@.len() == single_count(self@.subrange(0, t as int)),
                forall|i: int| 0 <= i < out@.len() ==> (#[trigger] out@[i]).wf(),
                forall|i: int| 0 <= i < out@.len() ==> is_single_option(self@, deep((#[trigger] out@[i])@)),
                forall|s: int| 0 <= s < t && charge_of(#[trigger] self@[s].1) == 1 ==> exists|i: int|
                    0 <= i < out@.len() && deep(out@[i]@) == seq![(1isize, self@[s].1@)],
            decreases self@.len() - t,
        {
            proof {
                assert(carrier_formula_ok(self@[t as int].1));
                assert(self@.subrange(0, t + 1).drop_last() =~= self@.subrange(0, t as int));
            }
            if self.charge_carriers[t].1.charge() == 1 {
                let f = self.charge_carriers[t].1.clone();
                proof {
                    crate::formula::lemma_same_view(f, self@[t as int].1);
                }
                let mut carriers: Vec<(isize, MolecularFormula)> = Vec::new();
                carriers.push((1, f));
                let o = MolecularCharge { charge_carriers: carriers };
                proof {
                    assert(deep(o@) =~= seq![(1isize, self@[t as int].1@)]);
                }
                let ghost before = out@;
                out.push(o);
                proof {
                    assert forall|i: int| 0 <= i < out@.len() implies is_single_option(self@, deep((#[trigger] out@[i])@)) by {
                        if i < before.len() {
                            assert(out@[i] == before[i]);
                        }
                    }
                    assert forall|s: int| 0 <= s < t + 1 && charge_of(#[trigger] self@[s].1) == 1 implies exists|i: int|
                        0 <= i < out@.len() && deep(out@[i]@) == seq![(1isize, self@[s].1@)] by {
                        if s < t {
                            let i = choose|i: int| 0 <= i < before.len() && deep(before[i]@) == seq![(1isize, self@[s].1@)];
                            assert(out@[i] == before[i]);
                        } else {
                            assert(deep(out@[before.len() as int]@) == seq![(1isize, self@[s].1@)]);
                        }
                    }
                }
            }
            t += 1;
        }
        proof {
            assert(self@.subrange(0, t as int) =~= self@);
        }
        out
    }
}

/// The charge of the carriers a selection chooses is the selection's charge.
pub proof fn lemma_selected_charge(c: Seq<(isize, MolecularFormula)>, v: Seq<isize>, o: Seq<(isize, MolecularFormula)>)
    requires
        v.len() == c.len(),
        forall|t: int| 0 <= t < v.len() ==> 0 <= #[trigger] v[t],
        deep(o) == selected(c, v),
    ensures
        charge_in(o) == selection_charge(c, v),
    decreases v.len(),
{
    if v.len() == 0 {
        assert(deep(o).len() == 0);
    } else {
        let c2 = c.drop_last();
        let v2 = v.drop_last();
        assert forall|t: int| 0 <= t < v2.len() implies 0 <= #[trigger] v2[t] by {
            assert(v2[t] == v[t]);
        }
        if v.last() > 0 {
            assert(deep(o).len() == selected(c2, v2).len() + 1);
            assert(deep(o.drop_last()) =~= selected(c2, v2)) by {
                assert(deep(o.drop_last()) =~= deep(o).drop_last());
            }
            lemma_selected_charge(c2, v2, o.drop_last());
            assert(deep(o).last() == (v.last(), c.last().1@));
            assert(o.last().1@ == c.last().1@);
            assert(charge_of(o.last().1) == charge_of(c.last().1));
        } else {
            lemma_selected_charge(c2, v2, o);
        }
    }
}

/// Each option's carriers have the charge it was chosen for.
pub proof fn lemma_option_charge(c: Seq<(isize, MolecularFormula)>, o: MolecularCharge, z: int)
    requires
        is_option(c, deep(o@), z),
    ensures
        o.total_charge() == z,
{
    let v = choose|v: Seq<isize>| valid_selection(c, v, z) && deep(o@) == selected(c, v);
    lemma_selected_charge(c, v, o@);
}

/// A single-carrier option has charge one.
pub proof fn lemma_single_option_charge(c: Seq<(isize, MolecularFormula)>, o: MolecularCharge)
    requires
        is_single_option(c, deep(o@)),
    ensures
        o.total_charge() == 1,
{
    let t = choose|t: int| 0 <= t < c.len() && charge_of(c[t].1) == 1 && deep(o@) == seq![(1isize, c[t].1@)];
    assert(deep(o@).len() == 1);
    assert(o@.len() == 1);
    assert(deep(o@)[0] == (1isize, c[t].1@));
    assert(o@[0].1@ == c[t].1@);
    assert(charge_of(o@[0].1) == charge_of(c[t].1));
    assert(o@[0].0 == 1);
    assert(o@.drop_last().len() == 0);
    assert(charge_in(o@.drop_last()) == 0);
    assert(o@.last() == o@[0]);
}

proof fn lemma_simplified_prefix(c: Seq<(isize, MolecularFormula)>, k: int)
    requires
        simplified(c),
        0 <= k <= c.len(),
    ensures
        simplified(c.subrange(0, k)),
{
    let d = c.subrange(0, k);
    assert forall|i: int, j: int| 0 <= i < j < d.len() implies d[i].1@ != d[j].1@ by {
        assert(d[i] == c[i]);
        assert(d[j] == c[j]);
    }
    assert forall|i: int| 0 <= i < d.len() implies 0 < #[trigger] d[i].0 <= MAX_MULTIPLICITY * MAX_CARRIERS by {
        assert(d[i] == c[i]);
    }
    assert forall|i: int| 0 <= i < d.len() implies carrier_formula_ok(#[trigger] d[i].1) by {
        assert(d[i] == c[i]);
    }
}

/// A number in decimal, with a minus sign when negative, and a plus sign when positive
/// and `plus` is set.
pub open spec fn number_text(n: int, plus: bool) -> Seq<char> {
    (if n < 0 {
        seq!['-']
    } else if plus {
        seq!['+']
    } else {
        Seq::empty()
    }) + digits(abs(n), NotationStyle::Ascii)
}

/// One carrier: its multiplicity, the Hill notation of its formula, and its signed charge.
pub open spec fn carrier_text(x: (isize, MolecularFormula)) -> Seq<char> {
    number_text(x.0 as int, false) + hill(x.1@, NotationStyle::Ascii) + number_text(charge_of(x.1), true)
}

/// The carriers, separated by commas.
pub open spec fn carriers_text(s: Seq<(isize, MolecularFormula)>) -> Seq<char>
    decreases s.len(),
{
    if s.len() == 0 {
        Seq::empty()
    } else if s.len() == 1 {
        carrier_text(s[0])
    } else {
        carriers_text(s.drop_last()) + seq![','] + carrier_text(s.last())
    }
}

/// The entries of a proton: one hydrogen, less one electron.
pub open spec fn proton_entries() -> Seq<Entry> {
    seq![(Element::Electron, None, -1i32), (Element::H, None, 1i32)]
}

/// The text of a charge state: the total charge, then, unless all carriers are protons,
/// the carriers between brackets.
pub open spec fn charge_state_text(s: Seq<(isize, MolecularFormula)>) -> Seq<char> {
    number_text(charge_in(s), false) + if forall|i: int| 0 <= i < s.len() ==> (#[trigger] s[i]).1@ == proton_entries() {
        Seq::empty()
    } else {
        seq!['['] + carriers_text(s) + seq![']']
    }
}

fn push_number(out: &mut String, n: i64, plus: bool)
    requires
        -0x4000_0000_0000_0000 <= n,
    ensures
        final(out)@ == old(out)@ + number_text(n as int, plus),
{
    if n < 0 {
        push_str(out, "-");
        proof {
            reveal_strlit("-");
        }
    } else if plus {
        push_str(out, "+");
        proof {
            reveal_strlit("+");
        }
    }
    let magnitude: u64 = if n < 0 {
        (-n) as u64
    } else {
        n as u64
    };
    push_digits(out, magnitude, NotationStyle::Ascii);
    proof {
        assert(final(out)@ =~= old(out)@ + number_text(n as int, plus));
    }
}

impl MolecularCharge {
    /// The text of this charge state, as in `2` for two protons or `2[1Na+1,1H+1]`.
    pub fn to_string(&self) -> (r: String)
        requires
            self.wf(),
        ensures
            r@ == charge_state_text(self@),
    {
        let mut out = String::new();
        let total = self.charge();
        push_number(&mut out, total, false);
        let proton = proton_formula();
        let mut all_protons = true;
        let mut i: usize = 0;
        while i < self.charge_carriers.len()
            invariant
                i <= self@.len(),
                proton@ == proton_entries(),
                all_protons == forall|k: int| 0 <= k < i ==> (#[trigger] self@[k]).1@ == proton_entries(),
            decreases self@.len() - i,
        {
            if !(self.charge_carriers[i].1 == proton) {
                all_protons = false;
            }
            i += 1;
        }
        if !all_protons {
            let ghost head = out@;
            push_str(&mut out, "[");
            proof {
                reveal_strlit("[");
            }
            let ghost open = out@;
            let mut j: usize = 0;
            while j < self.charge_carriers.len()
                invariant
                    self.wf(),
                    j <= self@.len(),
                    out@ == open + carriers_text(self@.subrange(0, j as int)),
                decreases self@.len() - j,
            {
                let ghost before = out@;
                if j > 0 {
                    push_str(&mut out, ",");
                    proof {
                        reveal_strlit(",");
                    }
                }
                let c = &self.charge_carriers[j];
                proof {
                    assert(carrier_formula_ok(self@[j as int].1));
                    assert(-256 <= c.1.count(Element::Electron, None) <= 256);
                }
                push_number(&mut out, c.0 as i64, false);
                let hill_text = c.1.hill_notation();
                push_str(&mut out, hill_text.as_str());
                push_number(&mut out, c.1.charge(), true);
                proof {
                    let s = self@.subrange(0, j + 1);
                    assert(s.drop_last() =~= self@.subrange(0, j as int));
                    if j == 0 {
                        assert(s.len() == 1);
                        assert(out@ =~= open + carriers_text(s));
                    } else {
                        assert(out@ =~= open + carriers_text(s));
                    }
                }
                j += 1;
            }
            push_str(&mut out, "]");
            proof {
                reveal_strlit("]");
                assert(self@.subrange(0, j as int) =~= self@);
            }
        }
        proof {
            assert(out@ =~= charge_state_text(self@));
        }
        out
    }
}

/// The formula of a proton: one hydrogen, less one electron.
pub fn proton_formula() -> (r: MolecularFormula)
    ensures
        carrier_formula_ok(r),
        r@.len() == 2,
        r.count(Element::H, None) == 1,
        r.count(Element::Electron, None) == -1,
        charge_of(r) == 1,
        r@ == proton_entries(),
        forall|e: Element, iso: Option<u16>| !((e == Element::H || e == Element::Electron) && iso is None) ==> #[trigger] r.count(e, iso) == 0,
{
    let mut f = MolecularFormula::empty();
    f.add(Element::H, None, 1);
    f.add(Element::Electron, None, -1);
    proof {
        assert(f.count(Element::H, None) == 1);
        assert(f.count(Element::Electron, None) == -1);
        assert forall|e: Element, iso: Option<u16>| -256 <= #[trigger] f.count(e, iso) <= 256 by {}
        assert forall|i: int| 0 <= i < f@.len() implies ((#[trigger] f@[i]).0 == Element::H
            || f@[i].0 == Element::Electron) && f@[i].1 is None by {
            crate::formula::lemma_count_at(f@, i);
            assert(f.count(f@[i].0, f@[i].1) == f@[i].2);
        }
        if f@.len() > 2 {
            assert(crate::formula::entry_key(f@[0]) < crate::formula::entry_key(f@[1]));
            assert(crate::formula::entry_key(f@[1]) < crate::formula::entry_key(f@[2]));
        }
        crate::formula::lemma_count_nonzero_has_entry(f@, Element::H, None);
        crate::formula::lemma_count_nonzero_has_entry(f@, Element::Electron, None);
        assert(f@.len() == 2);
        assert(crate::formula::entry_key(f@[0]) < crate::formula::entry_key(f@[1]));
        assert(f@[0].0 == Element::Electron);
        assert(f@[1].0 == Element::H);
        crate::formula::lemma_count_at(f@, 0);
        crate::formula::lemma_count_at(f@, 1);
        assert(f.count(Element::Electron, None) == f@[0].2);
        assert(f.count(Element::H, None) == f@[1].2);
        assert(f@ =~= proton_entries());
    }
    f
}

proof fn lemma_multiplicity_update(
    s: Seq<(isize, MolecularFormula)>,
    p: int,
    t: Seq<(isize, MolecularFormula)>,
    n: int,
)
    requires
        0 <= p < s.len(),
        t.len() == s.len(),
        t[p].1@ == s[p].1@,
        t[p].0 == s[p].0 + n,
        forall|i: int| 0 <= i < s.len() && i != p ==> t[i] == s[i],
        forall|a: int, b: int| 0 <= a < b < s.len() ==> s[a].1@ != s[b].1@,
    ensures
        forall|f: Seq<Entry>| #[trigger] multiplicity_in(t, f) == multiplicity_in(s, f) + if f == s[p].1@ {
            n
        } else {
            0
        },
    decreases s.len(),
{
    assert forall|f: Seq<Entry>| #[trigger] multiplicity_in(t, f) == multiplicity_in(s, f) + if f == s[p].1@ {
        n
    } else {
        0
    } by {
        if p < s.len() - 1 {
            lemma_multiplicity_update(s.drop_last(), p, t.drop_last(), n);
            assert(multiplicity_in(t.drop_last(), f) == multiplicity_in(s.drop_last(), f) + if f == s[p].1@ {
                n
            } else {
                0
            });
        } else {
            assert(t.drop_last() =~= s.drop_last());
        }
    }
}

proof fn lemma_multiplicity_concat(a: Seq<(isize, MolecularFormula)>, b: Seq<(isize, MolecularFormula)>, f: Seq<Entry>)
    ensures
        multiplicity_in(a + b, f) == multiplicity_in(a, f) + multiplicity_in(b, f),
    decreases b.len(),
{
    if b.len() > 0 {
        assert((a + b).drop_last() =~= a + b.drop_last());
        lemma_multiplicity_concat(a, b.drop_last(), f);
    } else {
        assert(a + b =~= a);
    }
}

proof fn lemma_multiplicity_insert(s: Seq<(isize, MolecularFormula)>, q: int, x: (isize, MolecularFormula), t: Seq<(isize, MolecularFormula)>)
    requires
        0 <= q <= s.len(),
        t == s.subrange(0, q) + seq![x] + s.subrange(q, s.len() as int),
    ensures
        forall|f: Seq<Entry>| #[trigger] multiplicity_in(t, f) == multiplicity_in(s, f) + if x.1@ == f {
            x.0 as int
        } else {
            0
        },
{
    assert forall|f: Seq<Entry>| #[trigger] multiplicity_in(t, f) == multiplicity_in(s, f) + if x.1@ == f {
        x.0 as int
    } else {
        0
    } by {
        let pre = s.subrange(0, q);
        let post = s.subrange(q, s.len() as int);
        assert(s =~= pre + post);
        lemma_multiplicity_concat(pre + seq![x], post, f);
        lemma_multiplicity_concat(pre, seq![x], f);
        lemma_multiplicity_concat(pre, post, f);
        reveal_with_fuel(multiplicity_in, 2);
        assert(seq![x].drop_last() =~= Seq::<(isize, MolecularFormula)>::empty());
    }
}

proof fn lemma_multiplicity_absent(s: Seq<(isize, MolecularFormula)>, f: Seq<Entry>)
    requires
        forall|i: int| 0 <= i < s.len() ==> s[i].1@ != f,
    ensures
        multiplicity_in(s, f) == 0,
    decreases s.len(),
{
    if s.len() > 0 {
        lemma_multiplicity_absent(s.drop_last(), f);
    }
}

} // verus!
