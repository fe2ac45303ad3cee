//! Molecular formulas: canonical lists of (element, isotope, count) entries.
use vstd::prelude::*;

use crate::element::{Element, MassMode};

verus! {

/// One entry of a formula: an element, its isotope (none: natural composition) and a count.
pub type Entry = (Element, Option<u16>, i32);

/// The sort key of an (element, isotope) pair: by atomic number, then the natural
/// composition before any isotope, then by mass number.
pub open spec fn key(e: Element, isotope: Option<u16>) -> int {
    e.number() * 65537 + match isotope {
        None => 0int,
        Some(a) => a + 1,
    }
}

pub open spec fn entry_key(x: Entry) -> int {
    key(x.0, x.1)
}

/// Entries strictly ascending by key, none with a zero count.
pub open spec fn canonical(s: Seq<Entry>) -> bool {
    &&& forall|i: int, j: int| 0 <= i < j < s.len() ==> entry_key(s[i]) < entry_key(s[j])
    &&& forall|i: int| 0 <= i < s.len() ==> s[i].2 != 0
}

/// What one entry contributes to the count of (e, isotope).
pub open spec fn entry_count(x: Entry, e: Element, isotope: Option<u16>) -> int {
    if x.0 == e && x.1 == isotope {
        x.2 as int
    } else {
        0
    }
}

/// The total count of (e, isotope) over a list of entries.
pub open spec fn count_in(s: Seq<Entry>, e: Element, isotope: Option<u16>) -> int
    decreases s.len(),
{
    if s.len() == 0 {
        0
    } else {
        count_in(s.drop_last(), e, isotope) + entry_count(s.last(), e, isotope)
    }
}

pub proof fn lemma_key_injective(e1: Element, i1: Option<u16>, e2: Element, i2: Option<u16>)
    requires
        key(e1, i1) == key(e2, i2),
    ensures
        e1 == e2,
        i1 == i2,
{
    let a1: int = match i1 {
        None => 0int,
        Some(a) => a + 1,
    };
    let a2: int = match i2 {
        None => 0int,
        Some(a) => a + 1,
    };
    let n1 = e1.number() as int;
    let n2 = e2.number() as int;
    assert(n1 == n2) by (nonlinear_arith)
        requires
            n1 * 65537 + a1 == n2 * 65537 + a2,
            0 <= a1 < 65537,
            0 <= a2 < 65537,
            n1 >= 0,
            n2 >= 0,
    ;
}

pub proof fn lemma_count_concat(a: Seq<Entry>, b: Seq<Entry>, e: Element, isotope: Option<u16>)
    ensures
        count_in(a + b, e, isotope) == count_in(a, e, isotope) + count_in(b, e, isotope),
    decreases b.len(),
{
    if b.len() > 0 {
        assert((a + b).drop_last() =~= a + b.drop_last());
        lemma_count_concat(a, b.drop_last(), e, isotope);
    } else {
        assert(a + b =~= a);
    }
}

pub proof fn lemma_count_single(x: Entry, e: Element, isotope: Option<u16>)
    ensures
        count_in(seq![x], e, isotope) == entry_count(x, e, isotope),
{
    reveal_with_fuel(count_in, 2);
    assert(seq![x].drop_last() =~= Seq::<Entry>::empty());
}

/// A list with no entry for (e, isotope) counts zero of it.
pub proof fn lemma_count_absent(s: Seq<Entry>, e: Element, isotope: Option<u16>)
    requires
        forall|i: int| 0 <= i < s.len() ==> !(s[i].0 == e && s[i].1 == isotope),
    ensures
        count_in(s, e, isotope) == 0,
    decreases s.len(),
{
    if s.len() > 0 {
        lemma_count_absent(s.drop_last(), e, isotope);
    }
}

/// In a canonical list the count of the key at index i is that entry's count,
/// and any other key has count zero when no entry carries it.
pub proof fn lemma_count_at(s: Seq<Entry>, i: int)
    requires
        canonical(s),
        0 <= i < s.len(),
    ensures
        count_in(s, s[i].0, s[i].1) == s[i].2,
{
    let e = s[i].0;
    let iso = s[i].1;
    let pre = s.subrange(0, i);
    let post = s.subrange(i + 1, s.len() as int);
    assert(s =~= pre + seq![s[i]] + post);
    assert forall|j: int| 0 <= j < pre.len() implies !(pre[j].0 == e && pre[j].1 == iso) by {
        assert(entry_key(s[j]) < entry_key(s[i]));
    }
    assert forall|j: int| 0 <= j < post.len() implies !(post[j].0 == e && post[j].1 == iso) by {
        assert(entry_key(s[i]) < entry_key(s[i + 1 + j]));
    }
    lemma_count_absent(pre, e, iso);
    lemma_count_absent(post, e, iso);
    lemma_count_concat(pre + seq![s[i]], post, e, iso);
    lemma_count_concat(pre, seq![s[i]], e, iso);
    lemma_count_single(s[i], e, iso);
}

/// A canonical list has an entry for every (e, isotope) of nonzero count.
pub proof fn lemma_count_nonzero_has_entry(s: Seq<Entry>, e: Element, isotope: Option<u16>)
    requires
        count_in(s, e, isotope) != 0,
    ensures
        exists|i: int| 0 <= i < s.len() && s[i].0 == e && s[i].1 == isotope,
{
    if !(exists|i: int| 0 <= i < s.len() && s[i].0 == e && s[i].1 == isotope) {
        lemma_count_absent(s, e, isotope);
    }
}

/// A molecular formula: a canonical list of entries. Its charge is carried by
/// electrons: the negated count of electrons is the net charge.
#[derive(Debug)]
pub struct MolecularFormula {
    elements: Vec<Entry>,
}

impl View for MolecularFormula {
    type V = Seq<Entry>;

    closed spec fn view(&self) -> Seq<Entry> {
        self.elements@
    }
}

impl MolecularFormula {
    pub open spec fn wf(&self) -> bool {
        canonical(self@)
    }

    /// The count of (e, isotope) in this formula.
    pub open spec fn count(&self, e: Element, isotope: Option<u16>) -> int {
        count_in(self@, e, isotope)
    }

    /// The formula with no elements.
    pub fn empty() -> (r: Self)
        ensures
            r.wf(),
            r@.len() == 0,
            forall|e: Element, iso: Option<u16>| #[trigger] r.count(e, iso) == 0,
    {
        MolecularFormula { elements: Vec::new() }
    }

    /// The entries, in canonical order.
    pub fn elements(&self) -> (r: &[Entry])
        ensures
            r@ == self@,
    {
        self.elements.as_slice()
    }

    /// The index of the first entry whose key is at least `k`.
    fn search(&self, k: u32) -> (p: usize)
        requires
            self.wf(),
        ensures
            p <= self@.len(),
            forall|j: int| 0 <= j < p ==> entry_key(#[trigger] self@[j]) < k,
            p < self@.len() ==> entry_key(self@[p as int]) >= k,
    {
        let len = self.elements.len();
        let mut p: usize = 0;
        while p < len && key_of(self.elements[p].0, self.elements[p].1) < k
            invariant
                len == self@.len(),
                0 <= p <= len,
                forall|j: int| 0 <= j < p ==> entry_key(#[trigger] self@[j]) < k,
            decreases len - p,
        {
            p += 1;
        }
        p
    }

    /// Add `n` of (element, isotope): merge with an entry of the same key, drop it if
    /// the count reaches zero, or insert a new entry in order.
    pub fn add(&mut self, element: Element, isotope: Option<u16>, n: i32)
        requires
            old(self).wf(),
            i32::MIN <= old(self).count(element, isotope) + n <= i32::MAX,
        ensures
            final(self).wf(),
            added(*old(self), element, isotope, n as int, *final(self)),
    {
        let k = key_of(element, isotope);
        let p = self.search(k);
        let ghost s = self@;
        if p < self.elements.len() && key_of(self.elements[p].0, self.elements[p].1) == k {
            proof {
                lemma_key_injective(s[p as int].0, s[p as int].1, element, isotope);
                lemma_count_at(s, p as int);
            }
            let total = self.elements[p].2 + n;
            if total == 0 {
                self.elements.remove(p);
                proof {
                    lemma_splice(s, p as int, p + 1, Seq::empty(), self@);
                    lemma_splice_counts(s, p as int, element, isotope, n as int, self@);
                }
            } else {
                self.elements.set(p, (element, isotope, total));
                proof {
                    assert(self@ =~= s.subrange(0, p as int) + seq![(element, isotope, total)]
                        + s.subrange(p + 1, s.len() as int));
                    lemma_splice(s, p as int, p + 1, seq![(element, isotope, total)], self@);
                    lemma_splice_counts(s, p as int, element, isotope, n as int, self@);
                }
            }
        } else if n != 0 {
            self.elements.insert(p, (element, isotope, n));
            proof {
                assert(self@ =~= s.subrange(0, p as int) + seq![(element, isotope, n)]
                    + s.subrange(p as int, s.len() as int));
                lemma_splice(s, p as int, p as int, seq![(element, isotope, n)], self@);
                lemma_insert_sorted(s, p as int, (element, isotope, n), self@);
                assert(s.subrange(p as int, p as int) =~= Seq::<Entry>::empty());
                assert forall|e: Element, iso: Option<u16>| #[trigger] count_in(self@, e, iso)
                    == count_in(s, e, iso) + (if e == element && iso == isotope {
                    n as int
                } else {
                    0
                }) by {
                    lemma_count_single((element, isotope, n), e, iso);
                }
            }
        } else {
            proof {
                assert forall|e: Element, iso: Option<u16>| #[trigger] count_in(self@, e, iso)
                    == count_in(s, e, iso) + (if e == element && iso == isotope {
                    n as int
                } else {
                    0
                }) by {}
            }
        }
    }
}

impl Clone for MolecularFormula {
    fn clone(&self) -> (r: Self)
        ensures
            r@ == self@,
    {
        let mut elements: Vec<Entry> = Vec::new();
        let mut i: usize = 0;
        while i < self.elements.len()
            invariant
                i <= self@.len(),
                elements@ == self@.subrange(0, i as int),
            decreases self@.len() - i,
        {
            elements.push(self.elements[i]);
            i += 1;
            proof {
                assert(elements@ =~= self@.subrange(0, i as int));
            }
        }
        proof {
            assert(elements@ =~= self@);
        }
        MolecularFormula { elements }
    }
}

impl PartialEq for MolecularFormula {
    fn eq(&self, other: &MolecularFormula) -> (r: bool)
        ensures
            r == (self@ == other@),
    {
        if self.elements.len() != other.elements.len() {
            return false;
        }
        let mut i: usize = 0;
        while i < self.elements.len()
            invariant
                i <= self@.len(),
                self@.len() == other@.len(),
                forall|j: int| 0 <= j < i ==> self@[j] == other@[j],
            decreases self@.len() - i,
        {
            let a = self.elements[i];
            let b = other.elements[i];
            let same_isotope = match (a.1, b.1) {
                (None, None) => true,
                (Some(x), Some(y)) => x == y,
                _ => false,
            };
            if !(a.0 == b.0 && same_isotope && a.2 == b.2) {
                return false;
            }
            i += 1;
        }
        proof {
            assert(self@ =~= other@);
        }
        true
    }
}

impl vstd::std_specs::cmp::PartialEqSpecImpl for MolecularFormula {
    open spec fn obeys_eq_spec() -> bool {
        true
    }

    open spec fn eq_spec(&self, other: &MolecularFormula) -> bool {
        self@ == other@
    }
}

impl Eq for MolecularFormula {
}

/// No formula's mass reaches this many nanodaltons.
pub const MASS_LIMIT: i128 = 0x400_0000_0000_0000_0000_0000;

/// The count fits in an `i32`.
pub open spec fn fits(n: int) -> bool {
    i32::MIN <= n <= i32::MAX
}

/// `r` holds, of each (element, isotope), the sum of the counts in `a` and `b`.
pub open spec fn sum_of(a: MolecularFormula, b: MolecularFormula, r: MolecularFormula) -> bool {
    forall|e: Element, iso: Option<u16>| #[trigger] r.count(e, iso) == a.count(e, iso) + b.count(e, iso)
}

/// `r` holds, of each (element, isotope), the count in `a` less the count in `b`.
pub open spec fn difference_of(a: MolecularFormula, b: MolecularFormula, r: MolecularFormula) -> bool {
    forall|e: Element, iso: Option<u16>| #[trigger] r.count(e, iso) == a.count(e, iso) - b.count(e, iso)
}

/// `r` holds, of each (element, isotope), `n` times the count in `a`.
pub open spec fn scaled_of(a: MolecularFormula, n: int, r: MolecularFormula) -> bool {
    forall|e: Element, iso: Option<u16>| #[trigger] r.count(e, iso) == a.count(e, iso) * n
}

/// Adding `b` to `a` keeps every count within `i32`.
pub open spec fn sum_fits(a: MolecularFormula, b: MolecularFormula) -> bool {
    forall|e: Element, iso: Option<u16>| #[trigger] fits(a.count(e, iso) + b.count(e, iso))
}

/// Taking `b` from `a` keeps every count within `i32`.
pub open spec fn difference_fits(a: MolecularFormula, b: MolecularFormula) -> bool {
    forall|e: Element, iso: Option<u16>| #[trigger]
        fits(a.count(e, iso) - b.count(e, iso)) && fits(-b.count(e, iso))
}

/// Scaling `a` by `n` keeps every count within `i32`.
pub open spec fn scaled_fits(a: MolecularFormula, n: int) -> bool {
    forall|e: Element, iso: Option<u16>| #[trigger] fits(a.count(e, iso) * n)
}

/// The net charge: the negated count of electrons.
pub open spec fn charge_of(f: MolecularFormula) -> int {
    -f.count(Element::Electron, None)
}

/// Summing `mass * count` over the entries, or none when an entry has no tabulated mass.
pub open spec fn mass_of_entries(s: Seq<Entry>, mode: MassMode) -> Option<int>
    decreases s.len(),
{
    if s.len() == 0 {
        Some(0)
    } else {
        match (mass_of_entries(s.drop_last(), mode), s.last().0.mass_in_mode(s.last().1, mode)) {
            (Some(total), Some(m)) => Some(total + m * s.last().2),
            _ => None,
        }
    }
}

/// Adding the entries of a list to a formula one by one keeps every count within `i32`.
pub open spec fn list_fits(s: Seq<Entry>) -> bool {
    forall|j: int| 0 <= j < s.len() ==> #[trigger] fits(
        count_in(s.subrange(0, j), s[j].0, s[j].1) + s[j].2,
    )
}

impl MolecularFormula {
    /// The count of (e, isotope).
    pub fn count_of(&self, e: Element, isotope: Option<u16>) -> (r: i32)
        requires
            self.wf(),
        ensures
            r == self.count(e, isotope),
    {
        let k = key_of(e, isotope);
        let p = self.search(k);
        if p < self.elements.len() && key_of(self.elements[p].0, self.elements[p].1) == k {
            proof {
                lemma_key_injective(self@[p as int].0, self@[p as int].1, e, isotope);
                lemma_count_at(self@, p as int);
            }
            self.elements[p].2
        } else {
            proof {
                assert forall|j: int| 0 <= j < self@.len() implies !(self@[j].0 == e && self@[j].1
                    == isotope) by {
                    if j > p {
                        assert(entry_key(self@[p as int]) < entry_key(self@[j]));
                    }
                }
                lemma_count_absent(self@, e, isotope);
            }
            0
        }
    }

    /// A formula from a list of contributions, added in order; none when a count
    /// leaves the range of `i32` on the way.
    pub fn new(list: &[Entry]) -> (r: Option<Self>)
        ensures
            r is Some <==> list_fits(list@),
            r matches Some(f) ==> f.wf() && forall|e: Element, iso: Option<u16>| #[trigger]
                f.count(e, iso) == count_in(list@, e, iso),
    {
        let mut r = MolecularFormula::empty();
        let mut j: usize = 0;
        while j < list.len()
            invariant
                j <= list@.len(),
                r.wf(),
                forall|e: Element, iso: Option<u16>| #[trigger]
                    r.count(e, iso) == count_in(list@.subrange(0, j as int), e, iso),
                forall|i: int| 0 <= i < j ==> #[trigger] fits(
                    count_in(list@.subrange(0, i), list@[i].0, list@[i].1) + list@[i].2,
                ),
            decreases list@.len() - j,
        {
            let x = list[j];
            let c = r.count_of(x.0, x.1) as i64 + x.2 as i64;
            if c < i32::MIN as i64 || c > i32::MAX as i64 {
                proof {
                    assert(!fits(count_in(list@.subrange(0, j as int), x.0, x.1) + x.2));
                }
                return None;
            }
            r.add(x.0, x.1, x.2);
            proof {
                assert(list@.subrange(0, j + 1).drop_last() =~= list@.subrange(0, j as int));
            }
            j += 1;
        }
        proof {
            assert(list@.subrange(0, j as int) =~= list@);
        }
        Some(r)
    }

    /// The sum of two formulas.
    pub fn plus(&self, other: &MolecularFormula) -> (r: Self)
        requires
            self.wf(),
            other.wf(),
            sum_fits(*self, *other),
        ensures
            r.wf(),
            sum_of(*self, *other, r),
    {
        let mut r = self.clone();
        let mut j: usize = 0;
        while j < other.elements.len()
            invariant
                j <= other@.len(),
                r.wf(),
                other.wf(),
                sum_fits(*self, *other),
                forall|e: Element, iso: Option<u16>| #[trigger]
                    r.count(e, iso) == self.count(e, iso) + count_in(
                        other@.subrange(0, j as int),
                        e,
                        iso,
                    ),
            decreases other@.len() - j,
        {
            let x = other.elements[j];
            proof {
                lemma_prefix_count(other@, j as int);
                lemma_count_at(other@, j as int);
                assert(fits(self.count(x.0, x.1) + other.count(x.0, x.1)));
            }
            r.add(x.0, x.1, x.2);
            proof {
                assert(other@.subrange(0, j + 1).drop_last() =~= other@.subrange(0, j as int));
            }
            j += 1;
        }
        proof {
            assert(other@.subrange(0, j as int) =~= other@);
        }
        r
    }

    /// The difference of two formulas.
    pub fn minus(&self, other: &MolecularFormula) -> (r: Self)
        requires
            self.wf(),
            other.wf(),
            difference_fits(*self, *other),
        ensures
            r.wf(),
            difference_of(*self, *other, r),
    {
        let mut r = self.clone();
        let mut j: usize = 0;
        while j < other.elements.len()
            invariant
                j <= other@.len(),
                r.wf(),
                other.wf(),
                difference_fits(*self, *other),
                forall|e: Element, iso: Option<u16>| #[trigger]
                    r.count(e, iso) == self.count(e, iso) - count_in(
                        other@.subrange(0, j as int),
                        e,
                        iso,
                    ),
            decreases other@.len() - j,
        {
            let x = other.elements[j];
            proof {
                lemma_prefix_count(other@, j as int);
                lemma_count_at(other@, j as int);
                assert(fits(self.count(x.0, x.1) - other.count(x.0, x.1)));
                assert(fits(-other.count(x.0, x.1)));
            }
            r.add(x.0, x.1, -x.2);
            proof {
                assert(other@.subrange(0, j + 1).drop_last() =~= other@.subrange(0, j as int));
            }
            j += 1;
        }
        proof {
            assert(other@.subrange(0, j as int) =~= other@);
        }
        r
    }

    /// This formula with every count multiplied by `n`.
    pub fn times(&self, n: i32) -> (r: Self)
        requires
            self.wf(),
            scaled_fits(*self, n as int),
        ensures
            r.wf(),
            scaled_of(*self, n as int, r),
    {
        let mut elements: Vec<Entry> = Vec::new();
        if n == 0 {
            proof {
                assert forall|e: Element, iso: Option<u16>| #[trigger] count_in(elements@, e, iso)
                    == self.count(e, iso) * n by {}
            }
            return MolecularFormula { elements };
        }
        let mut j: usize = 0;
        while j < self.elements.len()
            invariant
                n != 0,
                j <= self@.len(),
                self.wf(),
                scaled_fits(*self, n as int),
                elements@.len() == j,
                forall|i: int| 0 <= i < j ==> (#[trigger] elements@[i]).0 == self@[i].0
                    && elements@[i].1 == self@[i].1 && elements@[i].2 == self@[i].2 * n,
                forall|e: Element, iso: Option<u16>| #[trigger] count_in(elements@, e, iso)
                    == count_in(self@.subrange(0, j as int), e, iso) * n,
            decreases self@.len() - j,
        {
            let x = self.elements[j];
            proof {
                lemma_count_at(self@, j as int);
                assert(fits(self.count(x.0, x.1) * n));
            }
            let y = (x.0, x.1, x.2 * n);
            let ghost before = elements@;
            elements.push(y);
            proof {
                assert(elements@.drop_last() =~= before);
                assert(self@.subrange(0, j + 1).drop_last() =~= self@.subrange(0, j as int));
                assert forall|e: Element, iso: Option<u16>| #[trigger] count_in(elements@, e, iso)
                    == count_in(self@.subrange(0, j + 1), e, iso) * n by {
                    if x.0 == e && x.1 == iso {
                        assert(entry_count(y, e, iso) == entry_count(x, e, iso) * n);
                    } else {
                        assert(entry_count(y, e, iso) == 0);
                    }
                    assert(count_in(elements@, e, iso) == count_in(before, e, iso) + entry_count(y, e, iso));
                    assert(count_in(self@.subrange(0, j + 1), e, iso) == count_in(
                        self@.subrange(0, j as int), e, iso) + entry_count(x, e, iso));
                    assert(count_in(before, e, iso) == count_in(self@.subrange(0, j as int), e, iso) * n);
                    assert((count_in(self@.subrange(0, j as int), e, iso) + entry_count(x, e, iso)) * n
                        == count_in(self@.subrange(0, j as int), e, iso) * n + entry_count(x, e, iso) * n)
                        by (nonlinear_arith);
                }
            }
            j += 1;
        }
        let r = MolecularFormula { elements };
        proof {
            assert(self@.subrange(0, j as int) =~= self@);
            assert forall|i: int| 0 <= i < r@.len() implies r@[i].2 != 0 by {
                assert(r@[i].2 == self@[i].2 * n);
                assert(self@[i].2 * n != 0) by (nonlinear_arith)
                    requires self@[i].2 != 0, n != 0,
                {}
            }
            assert forall|i: int, j: int| 0 <= i < j < r@.len() implies entry_key(r@[i]) < entry_key(r@[j]) by {
                assert(entry_key(r@[i]) == entry_key(self@[i]));
                assert(entry_key(r@[j]) == entry_key(self@[j]));
            }
        }
        r
    }

    /// This formula with every count negated.
    pub fn negated(&self) -> (r: Self)
        requires
            self.wf(),
            scaled_fits(*self, -1),
        ensures
            r.wf(),
            scaled_of(*self, -1, r),
    {
        self.times(-1)
    }

    /// The net charge: the negated count of electrons.
    pub fn charge(&self) -> (r: i64)
        requires
            self.wf(),
        ensures
            r == charge_of(*self),
    {
        -(self.count_of(Element::Electron, None) as i64)
    }

    /// The mass in nanodaltons in the given mode; none when an entry's isotope has no
    /// tabulated mass.
    pub fn mass(&self, mode: MassMode) -> (r: Option<i128>)
        requires
            self.wf(),
        ensures
            r matches Some(m) ==> mass_of_entries(self@, mode) == Some(m as int),
            r matches Some(m) ==> -MASS_LIMIT <= m <= MASS_LIMIT,
            r is None ==> mass_of_entries(self@, mode) is None,
    {
        proof {
            lemma_canonical_len(self@);
        }
        let mut total: i128 = 0;
        let mut j: usize = 0;
        while j < self.elements.len()
            invariant
                j <= self@.len(),
                self@.len() <= 4_194_304,
                mass_of_entries(self@.subrange(0, j as int), mode) == Some(total as int),
                -(j as int) * 0x1_0000_0000_0000_0000_0 <= total <= (j as int) * 0x1_0000_0000_0000_0000_0,
            decreases self@.len() - j,
        {
            let x = self.elements[j];
            proof {
                assert(self@.subrange(0, j + 1).drop_last() =~= self@.subrange(0, j as int));
                crate::element::lemma_mass_bounds(x.0, x.1, mode);
            }
            match x.0.mass(x.1, mode) {
                None => {
                    proof {
                        lemma_mass_none(self@, j as int, mode);
                    }
                    return None;
                },
                Some(m) => {
                    let c = x.2 as i128;
                    proof {
                        assert(-0x1_0000_0000_0000_0000_0 <= m * c <= 0x1_0000_0000_0000_0000_0) by (nonlinear_arith)
                            requires 0 < m < 128 * 1_000_000_000, -0x8000_0000 <= c < 0x8000_0000,
                        {}
                    }
                    total = total + m * c;
                },
            }
            j += 1;
        }
        proof {
            assert(self@.subrange(0, j as int) =~= self@);
            assert((j as int) * 0x1_0000_0000_0000_0000_0 <= MASS_LIMIT) by (nonlinear_arith)
                requires
                    j <= 4_194_304,
            {}
        }
        Some(total)
    }

    /// The monoisotopic mass in nanodaltons.
    pub fn monoisotopic_mass(&self) -> (r: Option<i128>)
        requires
            self.wf(),
        ensures
            r matches Some(m) ==> mass_of_entries(self@, MassMode::Monoisotopic) == Some(m as int),
            r is None ==> mass_of_entries(self@, MassMode::Monoisotopic) is None,
    {
        self.mass(MassMode::Monoisotopic)
    }

    /// The average weight in nanodaltons.
    pub fn average_weight(&self) -> (r: Option<i128>)
        requires
            self.wf(),
        ensures
            r matches Some(m) ==> mass_of_entries(self@, MassMode::Average) == Some(m as int),
            r is None ==> mass_of_entries(self@, MassMode::Average) is None,
    {
        self.mass(MassMode::Average)
    }

    /// The mass in nanodaltons with each natural element at its most abundant isotope.
    pub fn most_abundant_mass(&self) -> (r: Option<i128>)
        requires
            self.wf(),
        ensures
            r matches Some(m) ==> mass_of_entries(self@, MassMode::MostAbundant) == Some(m as int),
            r is None ==> mass_of_entries(self@, MassMode::MostAbundant) is None,
    {
        self.mass(MassMode::MostAbundant)
    }
}

impl MolecularFormula {
    /// Whether the entries are in canonical order with no zero count.
    pub fn is_canonical(&self) -> (r: bool)
        ensures
            r == self.wf(),
    {
        let n = self.elements.len();
        let mut i: usize = 0;
        while i < n
            invariant
                n == self@.len(),
                i <= n,
                forall|a: int, b: int| 0 <= a < b < i ==> entry_key(self@[a]) < entry_key(self@[b]),
                forall|a: int| 0 <= a < i ==> self@[a].2 != 0,
            decreases n - i,
        {
            let x = self.elements[i];
            if x.2 == 0 {
                return false;
            }
            if i > 0 {
                let y = self.elements[i - 1];
                if key_of(y.0, y.1) >= key_of(x.0, x.1) {
                    return false;
                }
                proof {
                    assert forall|a: int| 0 <= a < i implies entry_key(self@[a]) < entry_key(self@[i as int]) by {
                        if a < i - 1 {
                            assert(entry_key(self@[a]) < entry_key(self@[i - 1]));
                        }
                    }
                }
            }
            i += 1;
        }
        true
    }

    /// Whether every count lies within `-b ..= b`.
    pub fn is_within(&self, b: i32) -> (r: bool)
        requires
            self.wf(),
            b >= 0,
        ensures
            r == within(*self, b as int),
    {
        let n = self.elements.len();
        let mut i: usize = 0;
        while i < n
            invariant
                n == self@.len(),
                i <= n,
                b >= 0,
                self.wf(),
                forall|a: int| 0 <= a < i ==> -b <= (#[trigger] self@[a]).2 <= b,
            decreases n - i,
        {
            let c = self.elements[i].2;
            if c < -b || c > b {
                proof {
                    lemma_count_at(self@, i as int);
                    assert(self.count(self@[i as int].0, self@[i as int].1) == c);
                }
                return false;
            }
            i += 1;
        }
        proof {
            assert forall|e: Element, iso: Option<u16>| -b <= #[trigger] self.count(e, iso) <= b by {
                if self.count(e, iso) != 0 {
                    lemma_count_nonzero_has_entry(self@, e, iso);
                    let k = choose|k: int| 0 <= k < self@.len() && self@[k].0 == e && self@[k].1 == iso;
                    lemma_count_at(self@, k);
                }
            }
        }
        true
    }
}

/// Entries ordered by key, then by count.
pub open spec fn entry_lt(x: Entry, y: Entry) -> bool {
    entry_key(x) < entry_key(y) || (entry_key(x) == entry_key(y) && x.2 < y.2)
}

/// The canonical order of formulas: lexicographic over their entries.
pub open spec fn formula_lt(a: Seq<Entry>, b: Seq<Entry>) -> bool
    decreases a.len(),
{
    if a.len() == 0 {
        b.len() > 0
    } else if b.len() == 0 {
        false
    } else if entry_lt(a[0], b[0]) {
        true
    } else if a[0] == b[0] {
        formula_lt(a.drop_first(), b.drop_first())
    } else {
        false
    }
}

/// Entries with equal keys and counts are equal.
proof fn lemma_entry_eq(x: Entry, y: Entry)
    requires
        entry_key(x) == entry_key(y),
        x.2 == y.2,
    ensures
        x == y,
{
    lemma_key_injective(x.0, x.1, y.0, y.1);
}

/// The order of formulas is transitive.
pub proof fn lemma_formula_lt_transitive(a: Seq<Entry>, b: Seq<Entry>, c: Seq<Entry>)
    requires
        formula_lt(a, b),
        formula_lt(b, c),
    ensures
        formula_lt(a, c),
    decreases a.len(),
{
    if a.len() > 0 && b.len() > 0 && c.len() > 0 {
        if a[0] == b[0] && b[0] == c[0] {
            lemma_formula_lt_transitive(a.drop_first(), b.drop_first(), c.drop_first());
        } else if !entry_lt(a[0], c[0]) && a[0] != c[0] {
            if entry_key(a[0]) == entry_key(c[0]) && a[0].2 == c[0].2 {
                lemma_entry_eq(a[0], c[0]);
            }
        }
    }
}

/// The order of formulas is irreflexive.
pub proof fn lemma_formula_lt_irreflexive(a: Seq<Entry>)
    ensures
        !formula_lt(a, a),
    decreases a.len(),
{
    if a.len() > 0 {
        lemma_formula_lt_irreflexive(a.drop_first());
    }
}

/// Of two different formulas, one comes first.
pub proof fn lemma_formula_lt_total(a: Seq<Entry>, b: Seq<Entry>)
    requires
        a != b,
    ensures
        formula_lt(a, b) || formula_lt(b, a),
    decreases a.len(),
{
    if a.len() > 0 && b.len() > 0 {
        if a[0] == b[0] {
            if a.drop_first() == b.drop_first() {
                assert(a =~= seq![a[0]] + a.drop_first());
                assert(b =~= seq![b[0]] + b.drop_first());
            }
            lemma_formula_lt_total(a.drop_first(), b.drop_first());
        } else if entry_key(a[0]) == entry_key(b[0]) && a[0].2 == b[0].2 {
            lemma_entry_eq(a[0], b[0]);
        }
    } else if a.len() == 0 && b.len() == 0 {
        assert(a =~= b);
    }
}

impl MolecularFormula {
    /// Whether this formula comes before `other` in the canonical order.
    pub fn less_than(&self, other: &MolecularFormula) -> (r: bool)
        ensures
            r == formula_lt(self@, other@),
    {
        let n = self.elements.len();
        let m = other.elements.len();
        let mut i: usize = 0;
        proof {
            assert(self@.subrange(0, n as int) =~= self@);
            assert(other@.subrange(0, m as int) =~= other@);
        }
        while i < n && i < m
            invariant
                n == self@.len(),
                m == other@.len(),
                i <= n,
                i <= m,
                formula_lt(self@, other@) == formula_lt(self@.subrange(i as int, n as int), other@.subrange(i as int, m as int)),
            decreases n - i,
        {
            let x = self.elements[i];
            let y = other.elements[i];
            let kx = key_of(x.0, x.1);
            let ky = key_of(y.0, y.1);
            let ghost sa = self@.subrange(i as int, n as int);
            let ghost sb = other@.subrange(i as int, m as int);
            proof {
                assert(sa[0] == x);
                assert(sb[0] == y);
                assert(sa.drop_first() =~= self@.subrange(i + 1, n as int));
                assert(sb.drop_first() =~= other@.subrange(i + 1, m as int));
            }
            if kx < ky || (kx == ky && x.2 < y.2) {
                return true;
            }
            if kx != ky || x.2 != y.2 {
                return false;
            }
            proof {
                lemma_entry_eq(x, y);
            }
            i += 1;
        }
        proof {
            assert(self@.subrange(i as int, n as int).len() == n - i);
            assert(other@.subrange(i as int, m as int).len() == m - i);
        }
        i == n && i < m
    }
}

/// An entry without a tabulated mass leaves the whole mass undefined.
proof fn lemma_mass_none(s: Seq<Entry>, j: int, mode: MassMode)
    requires
        0 <= j < s.len(),
        s[j].0.mass_in_mode(s[j].1, mode) is None,
    ensures
        mass_of_entries(s, mode) is None,
    decreases s.len(),
{
    if j < s.len() - 1 {
        lemma_mass_none(s.drop_last(), j, mode);
    }
}

/// A canonical list is no longer than the number of keys below the largest possible key.
proof fn lemma_canonical_len(s: Seq<Entry>)
    requires
        canonical(s),
    ensures
        s.len() <= 4_194_304,
{
    if s.len() > 0 {
        lemma_keys_grow(s, s.len() - 1);
        let x = s.last();
        assert(x.0.number() <= 53);
        assert(entry_key(x) <= 53 * 65537 + 65536);
    }
}

proof fn lemma_keys_grow(s: Seq<Entry>, i: int)
    requires
        canonical(s),
        0 <= i < s.len(),
    ensures
        entry_key(s[i]) >= i,
    decreases i,
{
    if i > 0 {
        lemma_keys_grow(s, i - 1);
        assert(entry_key(s[i - 1]) < entry_key(s[i]));
    }
}

/// The prefix before index j of a canonical list has no entry with the key of entry j.
proof fn lemma_prefix_count(s: Seq<Entry>, j: int)
    requires
        canonical(s),
        0 <= j < s.len(),
    ensures
        count_in(s.subrange(0, j), s[j].0, s[j].1) == 0,
{
    let pre = s.subrange(0, j);
    assert forall|i: int| 0 <= i < pre.len() implies !(pre[i].0 == s[j].0 && pre[i].1 == s[j].1) by {
        assert(entry_key(s[i]) < entry_key(s[j]));
    }
    lemma_count_absent(pre, s[j].0, s[j].1);
}

/// Two canonical lists with the same counts are the same list: a formula is
/// determined by its counts, whatever the order in which they were added.
pub proof fn lemma_canonical_ext(a: Seq<Entry>, b: Seq<Entry>)
    requires
        canonical(a),
        canonical(b),
        forall|e: Element, iso: Option<u16>| #[trigger] count_in(a, e, iso) == count_in(b, e, iso),
    ensures
        a == b,
    decreases a.len() + b.len(),
{
    if a.len() == 0 && b.len() == 0 {
        assert(a =~= b);
    } else if a.len() == 0 {
        lemma_count_at(b, b.len() - 1);
        assert(count_in(a, b.last().0, b.last().1) == 0);
    } else if b.len() == 0 {
        lemma_count_at(a, a.len() - 1);
        assert(count_in(b, a.last().0, a.last().1) == 0);
    } else {
        let x = a.last();
        let y = b.last();
        lemma_count_at(a, a.len() - 1);
        lemma_count_at(b, b.len() - 1);
        if entry_key(x) < entry_key(y) {
            assert forall|i: int| 0 <= i < a.len() implies !(a[i].0 == y.0 && a[i].1 == y.1) by {
                if i < a.len() - 1 {
                    assert(entry_key(a[i]) < entry_key(x));
                }
            }
            lemma_count_absent(a, y.0, y.1);
        } else if entry_key(y) < entry_key(x) {
            assert forall|i: int| 0 <= i < b.len() implies !(b[i].0 == x.0 && b[i].1 == x.1) by {
                if i < b.len() - 1 {
                    assert(entry_key(b[i]) < entry_key(y));
                }
            }
            lemma_count_absent(b, x.0, x.1);
        } else {
            lemma_key_injective(x.0, x.1, y.0, y.1);
            assert(x == y);
            assert forall|e: Element, iso: Option<u16>| #[trigger] count_in(a.drop_last(), e, iso)
                == count_in(b.drop_last(), e, iso) by {
                assert(count_in(a, e, iso) == count_in(b, e, iso));
            }
            lemma_canonical_ext(a.drop_last(), b.drop_last());
            assert(a =~= a.drop_last().push(x));
            assert(b =~= b.drop_last().push(y));
        }
    }
}

/// A formula plus its negation is the empty formula.
pub proof fn law_plus_negation_is_empty(f: MolecularFormula, g: MolecularFormula, h: MolecularFormula)
    requires
        f.wf(),
        g.wf(),
        h.wf(),
        scaled_of(f, -1, g),
        sum_of(f, g, h),
    ensures
        h@.len() == 0,
{
    if h@.len() > 0 {
        lemma_count_at(h@, 0);
        assert(h.count(h@[0].0, h@[0].1) == f.count(h@[0].0, h@[0].1) + g.count(h@[0].0, h@[0].1));
    }
}

/// Adding twice to the same (element, isotope) merges the counts into a single entry,
/// and the entry is gone when the merged count is zero.
pub proof fn law_add_merges(
    f: MolecularFormula,
    g: MolecularFormula,
    h: MolecularFormula,
    e: Element,
    isotope: Option<u16>,
    n1: int,
    n2: int,
)
    requires
        h.wf(),
        added(f, e, isotope, n1, g),
        added(g, e, isotope, n2, h),
    ensures
        h.count(e, isotope) == f.count(e, isotope) + n1 + n2,
        forall|i: int, j: int| 0 <= i < j < h@.len() ==> !(h@[i].0 == h@[j].0 && h@[i].1 == h@[j].1),
        f.count(e, isotope) + n1 + n2 == 0 ==> forall|i: int| 0 <= i < h@.len() ==> !(h@[i].0 == e
            && h@[i].1 == isotope),
{
    assert(h.count(e, isotope) == g.count(e, isotope) + n2);
    assert(g.count(e, isotope) == f.count(e, isotope) + n1);
    if f.count(e, isotope) + n1 + n2 == 0 {
        assert forall|i: int| 0 <= i < h@.len() implies !(h@[i].0 == e && h@[i].1 == isotope) by {
            lemma_count_at(h@, i);
        }
    }
    assert forall|i: int, j: int| 0 <= i < j < h@.len() implies !(h@[i].0 == h@[j].0 && h@[i].1
        == h@[j].1) by {
        assert(entry_key(h@[i]) < entry_key(h@[j]));
    }
}

/// Every count of `f` lies within `-b ..= b`.
pub open spec fn within(f: MolecularFormula, b: int) -> bool {
    forall|e: Element, iso: Option<u16>| -b <= #[trigger] f.count(e, iso) <= b
}

/// Sums of formulas within bounds stay within the sum of the bounds.
pub proof fn lemma_sum_within(a: MolecularFormula, b: MolecularFormula, x: int, y: int)
    requires
        within(a, x),
        within(b, y),
        x + y <= i32::MAX,
    ensures
        sum_fits(a, b),
        difference_fits(a, b),
        forall|r: MolecularFormula| sum_of(a, b, r) ==> within(r, x + y),
        forall|r: MolecularFormula| difference_of(a, b, r) ==> within(r, x + y),
{
    assert forall|e: Element, iso: Option<u16>| #[trigger] fits(a.count(e, iso) + b.count(e, iso)) by {
        assert(-x <= a.count(e, iso) <= x);
        assert(-y <= b.count(e, iso) <= y);
    }
    assert forall|e: Element, iso: Option<u16>| #[trigger] fits(a.count(e, iso) - b.count(e, iso))
        && fits(-b.count(e, iso)) by {
        assert(-x <= a.count(e, iso) <= x);
        assert(-y <= b.count(e, iso) <= y);
    }
    assert forall|r: MolecularFormula| sum_of(a, b, r) implies within(r, x + y) by {
        assert forall|e: Element, iso: Option<u16>| -(x + y) <= #[trigger] r.count(e, iso) <= x + y by {
            assert(-x <= a.count(e, iso) <= x);
            assert(-y <= b.count(e, iso) <= y);
        }
    }
    assert forall|r: MolecularFormula| difference_of(a, b, r) implies within(r, x + y) by {
        assert forall|e: Element, iso: Option<u16>| -(x + y) <= #[trigger] r.count(e, iso) <= x + y by {
            assert(-x <= a.count(e, iso) <= x);
            assert(-y <= b.count(e, iso) <= y);
        }
    }
}

/// A negation stays within the same bound, and can be taken.
pub proof fn lemma_negation_within(a: MolecularFormula, x: int)
    requires
        within(a, x),
        x <= i32::MAX,
    ensures
        scaled_fits(a, -1),
        forall|r: MolecularFormula| scaled_of(a, -1, r) ==> within(r, x),
{
    assert forall|e: Element, iso: Option<u16>| #[trigger] fits(a.count(e, iso) * -1) by {
        assert(-x <= a.count(e, iso) <= x);
    }
    assert forall|r: MolecularFormula| scaled_of(a, -1, r) implies within(r, x) by {
        assert forall|e: Element, iso: Option<u16>| -x <= #[trigger] r.count(e, iso) <= x by {
            assert(-x <= a.count(e, iso) <= x);
        }
    }
}

/// Formulas with the same entries have the same counts and bounds.
pub proof fn lemma_same_view(a: MolecularFormula, b: MolecularFormula)
    requires
        a@ == b@,
    ensures
        a.wf() == b.wf(),
        forall|e: Element, iso: Option<u16>| #[trigger] a.count(e, iso) == b.count(e, iso),
        forall|x: int| within(a, x) == within(b, x),
{
    assert forall|x: int| within(a, x) == within(b, x) by {
        if within(b, x) {
            assert forall|e: Element, iso: Option<u16>| -x <= #[trigger] a.count(e, iso) <= x by {
                assert(b.count(e, iso) == a.count(e, iso));
            }
        }
        if within(a, x) {
            assert forall|e: Element, iso: Option<u16>| -x <= #[trigger] b.count(e, iso) <= x by {
                assert(b.count(e, iso) == a.count(e, iso));
            }
        }
    }
}

/// Adding n of (e, isotope) changes only that entry: its entry, if any, has the new
/// count, it has an entry when the new count is not zero, and every other entry is kept
/// unchanged with none added.
pub proof fn law_add_entries(f: MolecularFormula, g: MolecularFormula, e: Element, isotope: Option<u16>, n: int)
    requires
        f.wf(),
        g.wf(),
        added(f, e, isotope, n, g),
    ensures
        forall|i: int| 0 <= i < g@.len() && g@[i].0 == e && g@[i].1 == isotope ==> g@[i].2 == f.count(e, isotope) + n,
        f.count(e, isotope) + n != 0 ==> exists|i: int| 0 <= i < g@.len() && g@[i] == (e, isotope, (f.count(e, isotope) + n) as i32),
        forall|i: int| 0 <= i < f@.len() && !(f@[i].0 == e && f@[i].1 == isotope) ==> g@.contains(#[trigger] f@[i]),
        forall|i: int| 0 <= i < g@.len() && !(g@[i].0 == e && g@[i].1 == isotope) ==> f@.contains(#[trigger] g@[i]),
{
    assert forall|i: int| 0 <= i < g@.len() && g@[i].0 == e && g@[i].1 == isotope implies g@[i].2 == f.count(e, isotope) + n by {
        lemma_count_at(g@, i);
        assert(g.count(e, isotope) == f.count(e, isotope) + n);
    }
    if f.count(e, isotope) + n != 0 {
        assert(g.count(e, isotope) == f.count(e, isotope) + n);
        lemma_count_nonzero_has_entry(g@, e, isotope);
        let i = choose|i: int| 0 <= i < g@.len() && g@[i].0 == e && g@[i].1 == isotope;
        lemma_count_at(g@, i);
        assert(g@[i] == (e, isotope, (f.count(e, isotope) + n) as i32));
    }
    assert forall|i: int| 0 <= i < f@.len() && !(f@[i].0 == e && f@[i].1 == isotope) implies g@.contains(#[trigger] f@[i]) by {
        let x = f@[i];
        lemma_count_at(f@, i);
        assert(f.count(x.0, x.1) == x.2);
        assert(g.count(x.0, x.1) == f.count(x.0, x.1));
        lemma_count_nonzero_has_entry(g@, x.0, x.1);
        let j = choose|j: int| 0 <= j < g@.len() && g@[j].0 == x.0 && g@[j].1 == x.1;
        lemma_count_at(g@, j);
        assert(g@[j] == x);
    }
    assert forall|i: int| 0 <= i < g@.len() && !(g@[i].0 == e && g@[i].1 == isotope) implies f@.contains(#[trigger] g@[i]) by {
        let x = g@[i];
        lemma_count_at(g@, i);
        assert(g.count(x.0, x.1) == x.2);
        assert(g.count(x.0, x.1) == f.count(x.0, x.1));
        lemma_count_nonzero_has_entry(f@, x.0, x.1);
        let j = choose|j: int| 0 <= j < f@.len() && f@[j].0 == x.0 && f@[j].1 == x.1;
        lemma_count_at(f@, j);
        assert(f@[j] == x);
    }
}

/// Adding to a formula, one by one, the negation of each of its entries leaves the
/// empty formula: `steps[k + 1]` is `steps[k]` after adding the negated entry k.
pub proof fn law_add_negations_is_empty(f: MolecularFormula, steps: Seq<MolecularFormula>)
    requires
        f.wf(),
        steps.len() == f@.len() + 1,
        steps[0]@ == f@,
        forall|k: int| 0 <= k < f@.len() ==> added(#[trigger] steps[k], f@[k].0, f@[k].1, -f@[k].2, steps[k + 1]),
        steps.last().wf(),
    ensures
        steps.last()@.len() == 0,
{
    lemma_negation_steps(f, steps, f@.len() as int);
    assert(f@.subrange(0, f@.len() as int) =~= f@);
    let h = steps.last();
    assert(h == steps[f@.len() as int]);
    if h@.len() > 0 {
        lemma_count_at(h@, 0);
        assert(h.count(h@[0].0, h@[0].1) == f.count(h@[0].0, h@[0].1) - count_in(f@.subrange(0, f@.len() as int), h@[0].0, h@[0].1));
    }
}

proof fn lemma_negation_steps(f: MolecularFormula, steps: Seq<MolecularFormula>, k: int)
    requires
        steps.len() == f@.len() + 1,
        steps[0]@ == f@,
        forall|k: int| 0 <= k < f@.len() ==> added(#[trigger] steps[k], f@[k].0, f@[k].1, -f@[k].2, steps[k + 1]),
        0 <= k <= f@.len(),
    ensures
        forall|e: Element, iso: Option<u16>| #[trigger] steps[k].count(e, iso) == f.count(e, iso) - count_in(
            f@.subrange(0, k),
            e,
            iso,
        ),
    decreases k,
{
    if k == 0 {
        assert forall|e: Element, iso: Option<u16>| #[trigger] steps[k].count(e, iso) == f.count(e, iso) - count_in(
            f@.subrange(0, k), e, iso) by {
            assert(f@.subrange(0, 0).len() == 0);
        }
    } else {
        lemma_negation_steps(f, steps, k - 1);
        assert(f@.subrange(0, k).drop_last() =~= f@.subrange(0, k - 1));
        assert forall|e: Element, iso: Option<u16>| #[trigger] steps[k].count(e, iso) == f.count(e, iso) - count_in(
            f@.subrange(0, k), e, iso) by {
            assert(added(steps[k - 1], f@[k - 1].0, f@[k - 1].1, -f@[k - 1].2, steps[k]));
            assert(steps[k].count(e, iso) == steps[k - 1].count(e, iso) + (if e == f@[k - 1].0 && iso == f@[k - 1].1 {
                -f@[k - 1].2
            } else {
                0
            }));
        }
    }
}

/// Every entry of the list has a tabulated mass in the mode.
pub open spec fn all_defined(l: Seq<Entry>, mode: MassMode) -> bool {
    forall|i: int| 0 <= i < l.len() ==> (#[trigger] l[i]).0.mass_in_mode(l[i].1, mode) is Some
}

/// The sum of mass times count over the entries, each mass taken as tabulated.
pub open spec fn mass_sum(l: Seq<Entry>, mode: MassMode) -> int
    decreases l.len(),
{
    if l.len() == 0 {
        0
    } else {
        mass_sum(l.drop_last(), mode) + l.last().0.mass_in_mode(l.last().1, mode)->0 * l.last().2
    }
}

/// The entries of the list other than those of (e, isotope).
pub open spec fn without(l: Seq<Entry>, e: Element, isotope: Option<u16>) -> Seq<Entry>
    decreases l.len(),
{
    if l.len() == 0 {
        l
    } else {
        without(l.drop_last(), e, isotope) + if l.last().0 == e && l.last().1 == isotope {
            Seq::empty()
        } else {
            seq![l.last()]
        }
    }
}

proof fn lemma_mass_sum_defined(l: Seq<Entry>, mode: MassMode)
    requires
        all_defined(l, mode),
    ensures
        mass_of_entries(l, mode) == Some(mass_sum(l, mode)),
    decreases l.len(),
{
    if l.len() > 0 {
        lemma_mass_sum_defined(l.drop_last(), mode);
    }
}

/// Taking the entries of one key out of a list.
proof fn lemma_without(l: Seq<Entry>, e: Element, isotope: Option<u16>, mode: MassMode)
    ensures
        without(l, e, isotope).len() <= l.len(),
        l.len() > 0 && l.last().0 == e && l.last().1 == isotope ==> without(l, e, isotope).len() < l.len(),
        all_defined(l, mode) ==> all_defined(without(l, e, isotope), mode),
        all_defined(l, mode) ==> mass_sum(l, mode) == mass_sum(without(l, e, isotope), mode)
            + e.mass_in_mode(isotope, mode)->0 * count_in(l, e, isotope),
        count_in(without(l, e, isotope), e, isotope) == 0,
        forall|e2: Element, i2: Option<u16>| !(e2 == e && i2 == isotope) ==> #[trigger] count_in(without(l, e, isotope), e2, i2)
            == count_in(l, e2, i2),
    decreases l.len(),
{
    if l.len() > 0 {
        let t = l.drop_last();
        let x = l.last();
        lemma_without(t, e, isotope, mode);
        let w = without(t, e, isotope);
        if x.0 == e && x.1 == isotope {
            assert(without(l, e, isotope) =~= w);
            if all_defined(l, mode) {
                assert forall|i: int| 0 <= i < t.len() implies (#[trigger] t[i]).0.mass_in_mode(t[i].1, mode) is Some by {
                    assert(t[i] == l[i]);
                }
                let m = e.mass_in_mode(isotope, mode)->0;
                assert(m * count_in(l, e, isotope) == m * count_in(t, e, isotope) + m * x.2) by (nonlinear_arith)
                    requires count_in(l, e, isotope) == count_in(t, e, isotope) + x.2,
                {}
            }
        } else {
            let w2 = w + seq![x];
            assert(without(l, e, isotope) =~= w2);
            assert(w2.drop_last() =~= w);
            assert forall|e2: Element, i2: Option<u16>| !(e2 == e && i2 == isotope) implies #[trigger] count_in(w2, e2, i2)
                == count_in(l, e2, i2) by {
                assert(count_in(w, e2, i2) == count_in(t, e2, i2));
            }
            if all_defined(l, mode) {
                assert forall|i: int| 0 <= i < t.len() implies (#[trigger] t[i]).0.mass_in_mode(t[i].1, mode) is Some by {
                    assert(t[i] == l[i]);
                }
                assert forall|i: int| 0 <= i < w2.len() implies (#[trigger] w2[i]).0.mass_in_mode(w2[i].1, mode) is Some by {
                    if i < w.len() {
                        assert(w2[i] == w[i]);
                    } else {
                        assert(w2[i] == l[l.len() - 1]);
                    }
                }
            }
        }
    }
}

/// A list whose counts are all zero has a mass sum of zero.
proof fn lemma_mass_sum_zero(l: Seq<Entry>, mode: MassMode)
    requires
        all_defined(l, mode),
        forall|e: Element, iso: Option<u16>| #[trigger] count_in(l, e, iso) == 0,
    ensures
        mass_sum(l, mode) == 0,
    decreases l.len(),
{
    if l.len() > 0 {
        let x = l.last();
        lemma_without(l, x.0, x.1, mode);
        let w = without(l, x.0, x.1);
        assert forall|e: Element, iso: Option<u16>| #[trigger] count_in(w, e, iso) == 0 by {
            if !(e == x.0 && iso == x.1) {
                assert(count_in(w, e, iso) == count_in(l, e, iso));
            }
        }
        lemma_mass_sum_zero(w, mode);
        assert(count_in(l, x.0, x.1) == 0);
    }
}

/// Lists with the same counts as a canonical list have its mass sum.
proof fn lemma_mass_sum_by_counts(l: Seq<Entry>, r: Seq<Entry>, mode: MassMode)
    requires
        canonical(r),
        all_defined(l, mode),
        all_defined(r, mode),
        forall|e: Element, iso: Option<u16>| #[trigger] count_in(l, e, iso) == count_in(r, e, iso),
    ensures
        mass_sum(l, mode) == mass_sum(r, mode),
    decreases r.len(),
{
    if r.len() == 0 {
        lemma_mass_sum_zero(l, mode);
    } else {
        let x = r.last();
        let rt = r.drop_last();
        lemma_without(l, x.0, x.1, mode);
        let w = without(l, x.0, x.1);
        lemma_count_at(r, r.len() - 1);
        assert forall|i: int, j: int| 0 <= i < j < rt.len() implies entry_key(rt[i]) < entry_key(rt[j]) by {
            assert(rt[i] == r[i] && rt[j] == r[j]);
        }
        assert forall|i: int| 0 <= i < rt.len() implies rt[i].2 != 0 by {
            assert(rt[i] == r[i]);
        }
        assert forall|i: int| 0 <= i < rt.len() implies (#[trigger] rt[i]).0.mass_in_mode(rt[i].1, mode) is Some by {
            assert(rt[i] == r[i]);
        }
        assert forall|i: int| 0 <= i < rt.len() implies !(rt[i].0 == x.0 && rt[i].1 == x.1) by {
            assert(entry_key(r[i]) < entry_key(r[r.len() - 1]));
        }
        lemma_count_absent(rt, x.0, x.1);
        assert forall|e: Element, iso: Option<u16>| #[trigger] count_in(w, e, iso) == count_in(rt, e, iso) by {
            if !(e == x.0 && iso == x.1) {
                assert(count_in(w, e, iso) == count_in(l, e, iso));
                assert(count_in(r, e, iso) == count_in(rt, e, iso) + entry_count(x, e, iso));
            }
        }
        lemma_mass_sum_by_counts(w, rt, mode);
    }
}

/// The entries with their counts negated.
pub open spec fn negated_entries(l: Seq<Entry>) -> Seq<Entry> {
    l.map_values(|x: Entry| (x.0, x.1, (-x.2) as i32))
}

proof fn lemma_negated_entries(l: Seq<Entry>, mode: MassMode)
    requires
        forall|i: int| 0 <= i < l.len() ==> (#[trigger] l[i]).2 > i32::MIN,
    ensures
        all_defined(l, mode) ==> all_defined(negated_entries(l), mode),
        all_defined(l, mode) ==> mass_sum(negated_entries(l), mode) == -mass_sum(l, mode),
        forall|e: Element, iso: Option<u16>| #[trigger] count_in(negated_entries(l), e, iso) == -count_in(l, e, iso),
    decreases l.len(),
{
    if l.len() > 0 {
        let t = l.drop_last();
        assert forall|i: int| 0 <= i < t.len() implies (#[trigger] t[i]).2 > i32::MIN by {
            assert(t[i] == l[i]);
        }
        lemma_negated_entries(t, mode);
        assert(negated_entries(l).drop_last() =~= negated_entries(t));
        let x = l.last();
        assert(negated_entries(l).last() == (x.0, x.1, (-x.2) as i32));
        assert forall|e: Element, iso: Option<u16>| #[trigger] count_in(negated_entries(l), e, iso) == -count_in(l, e, iso) by {
            assert(count_in(negated_entries(t), e, iso) == -count_in(t, e, iso));
        }
        if all_defined(l, mode) {
            assert forall|i: int| 0 <= i < t.len() implies (#[trigger] t[i]).0.mass_in_mode(t[i].1, mode) is Some by {
                assert(t[i] == l[i]);
            }
            let m = l.last().0.mass_in_mode(l.last().1, mode)->0;
            assert(m * (-l.last().2) == -(m * l.last().2)) by (nonlinear_arith);
        }
    }
}

proof fn lemma_mass_sum_concat(a: Seq<Entry>, b: Seq<Entry>, mode: MassMode)
    ensures
        mass_sum(a + b, mode) == mass_sum(a, mode) + mass_sum(b, mode),
    decreases b.len(),
{
    if b.len() > 0 {
        assert((a + b).drop_last() =~= a + b.drop_last());
        lemma_mass_sum_concat(a, b.drop_last(), mode);
    } else {
        assert(a + b =~= a);
    }
}

/// The mass of a difference of formulas is the difference of their masses.
pub proof fn law_mass_of_difference(a: MolecularFormula, b: MolecularFormula, r: MolecularFormula, mode: MassMode)
    requires
        a.wf(),
        b.wf(),
        r.wf(),
        difference_of(a, b, r),
        difference_fits(a, b),
        mass_of_entries(a@, mode) is Some,
        mass_of_entries(b@, mode) is Some,
    ensures
        mass_of_entries(r@, mode) == Some(mass_of_entries(a@, mode)->0 - mass_of_entries(b@, mode)->0),
{
    lemma_defined_of_mass(a@, mode);
    lemma_defined_of_mass(b@, mode);
    lemma_mass_sum_defined(a@, mode);
    lemma_mass_sum_defined(b@, mode);
    assert forall|i: int| 0 <= i < b@.len() implies (#[trigger] b@[i]).2 > i32::MIN by {
        lemma_count_at(b@, i);
        assert(b.count(b@[i].0, b@[i].1) == b@[i].2);
        let k = (b@[i].0, b@[i].1);
        assert(fits(a.count(k.0, k.1) - b.count(k.0, k.1)) && fits(-b.count(k.0, k.1)));
    }
    lemma_negated_entries(b@, mode);
    let c = a@ + negated_entries(b@);
    lemma_mass_sum_concat(a@, negated_entries(b@), mode);
    assert forall|i: int| 0 <= i < c.len() implies (#[trigger] c[i]).0.mass_in_mode(c[i].1, mode) is Some by {
        if i < a@.len() {
            assert(c[i] == a@[i]);
        } else {
            assert(c[i] == negated_entries(b@)[i - a@.len()]);
        }
    }
    assert forall|e: Element, iso: Option<u16>| #[trigger] count_in(c, e, iso) == count_in(r@, e, iso) by {
        lemma_count_concat(a@, negated_entries(b@), e, iso);
        assert(r.count(e, iso) == a.count(e, iso) - b.count(e, iso));
    }
    assert forall|i: int| 0 <= i < r@.len() implies (#[trigger] r@[i]).0.mass_in_mode(r@[i].1, mode) is Some by {
        let x = r@[i];
        lemma_count_at(r@, i);
        assert(r.count(x.0, x.1) == a.count(x.0, x.1) - b.count(x.0, x.1));
        if a.count(x.0, x.1) != 0 {
            lemma_count_nonzero_has_entry(a@, x.0, x.1);
            let j = choose|j: int| 0 <= j < a@.len() && a@[j].0 == x.0 && a@[j].1 == x.1;
            assert(a@[j].0.mass_in_mode(a@[j].1, mode) is Some);
        } else {
            lemma_count_nonzero_has_entry(b@, x.0, x.1);
            let j = choose|j: int| 0 <= j < b@.len() && b@[j].0 == x.0 && b@[j].1 == x.1;
            assert(b@[j].0.mass_in_mode(b@[j].1, mode) is Some);
        }
    }
    lemma_mass_sum_by_counts(c, r@, mode);
    lemma_mass_sum_defined(r@, mode);
}

/// A list with a mass has a tabulated mass for every entry.
proof fn lemma_defined_of_mass(l: Seq<Entry>, mode: MassMode)
    requires
        mass_of_entries(l, mode) is Some,
    ensures
        all_defined(l, mode),
    decreases l.len(),
{
    if l.len() > 0 {
        lemma_defined_of_mass(l.drop_last(), mode);
        assert forall|i: int| 0 <= i < l.len() implies (#[trigger] l[i]).0.mass_in_mode(l[i].1, mode) is Some by {
            if i < l.len() - 1 {
                assert(l[i] == l.drop_last()[i]);
            }
        }
    }
}

/// The counts of a list with the part from p to q replaced by `mid`.
proof fn lemma_splice(s: Seq<Entry>, p: int, q: int, mid: Seq<Entry>, t: Seq<Entry>)
    requires
        0 <= p <= q <= s.len(),
        t == s.subrange(0, p) + mid + s.subrange(q, s.len() as int),
    ensures
        forall|e: Element, iso: Option<u16>| #[trigger] count_in(t, e, iso)
            == count_in(s, e, iso) - count_in(s.subrange(p, q), e, iso) + count_in(mid, e, iso),
{
    let pre = s.subrange(0, p);
    let old_mid = s.subrange(p, q);
    let post = s.subrange(q, s.len() as int);
    assert(s =~= pre + old_mid + post);
    assert forall|e: Element, iso: Option<u16>| #[trigger] count_in(t, e, iso)
        == count_in(s, e, iso) - count_in(old_mid, e, iso) + count_in(mid, e, iso) by {
        lemma_count_concat(pre + mid, post, e, iso);
        lemma_count_concat(pre, mid, e, iso);
        lemma_count_concat(pre + old_mid, post, e, iso);
        lemma_count_concat(pre, old_mid, e, iso);
    }
}

/// Merging into the entry at p (updated in place, or removed at zero) keeps the list
/// canonical and adds n to that key's count.
proof fn lemma_splice_counts(
    s: Seq<Entry>,
    p: int,
    element: Element,
    isotope: Option<u16>,
    n: int,
    t: Seq<Entry>,
)
    requires
        canonical(s),
        0 <= p < s.len(),
        s[p].0 == element,
        s[p].1 == isotope,
        s[p].2 + n == 0 ==> t == s.subrange(0, p) + s.subrange(p + 1, s.len() as int),
        s[p].2 + n != 0 ==> t == s.update(p, (element, isotope, (s[p].2 + n) as i32)),
        s[p].2 + n != 0 ==> i32::MIN <= s[p].2 + n <= i32::MAX,
        forall|e: Element, iso: Option<u16>| #[trigger] count_in(t, e, iso) == count_in(s, e, iso)
            - count_in(s.subrange(p, p + 1), e, iso) + count_in(
            if s[p].2 + n == 0 {
                Seq::empty()
            } else {
                seq![(element, isotope, (s[p].2 + n) as i32)]
            },
            e,
            iso,
        ),
    ensures
        canonical(t),
        forall|e: Element, iso: Option<u16>| #[trigger] count_in(t, e, iso) == count_in(s, e, iso)
            + (if e == element && iso == isotope {
            n
        } else {
            0
        }),
{
    assert(s.subrange(p, p + 1) =~= seq![s[p]]);
    assert forall|e: Element, iso: Option<u16>| #[trigger] count_in(t, e, iso) == count_in(s, e, iso)
        + (if e == element && iso == isotope {
        n
    } else {
        0
    }) by {
        lemma_count_single(s[p], e, iso);
        if s[p].2 + n != 0 {
            lemma_count_single((element, isotope, (s[p].2 + n) as i32), e, iso);
        } else {
            reveal_with_fuel(count_in, 1);
        }
    }
    if s[p].2 + n == 0 {
        assert forall|i: int, j: int| 0 <= i < j < t.len() implies entry_key(t[i]) < entry_key(
            t[j],
        ) by {
            if i < p {
                if j >= p {
                    assert(t[j] == s[j + 1]);
                }
            } else {
                assert(t[i] == s[i + 1]);
                assert(t[j] == s[j + 1]);
            }
        }
        assert forall|i: int| 0 <= i < t.len() implies t[i].2 != 0 by {
            if i >= p {
                assert(t[i] == s[i + 1]);
            }
        }
    } else {
        assert forall|i: int, j: int| 0 <= i < j < t.len() implies entry_key(t[i]) < entry_key(
            t[j],
        ) by {
            assert(entry_key(t[i]) == entry_key(s[i]));
            assert(entry_key(t[j]) == entry_key(s[j]));
        }
    }
}

/// Inserting a new key at its place keeps the list canonical.
proof fn lemma_insert_sorted(s: Seq<Entry>, p: int, x: Entry, t: Seq<Entry>)
    requires
        canonical(s),
        0 <= p <= s.len(),
        x.2 != 0,
        forall|j: int| 0 <= j < p ==> entry_key(#[trigger] s[j]) < entry_key(x),
        p < s.len() ==> entry_key(s[p]) > entry_key(x),
        t == s.subrange(0, p) + seq![x] + s.subrange(p, s.len() as int),
    ensures
        canonical(t),
{
    assert forall|i: int, j: int| 0 <= i < j < t.len() implies entry_key(t[i]) < entry_key(
        t[j],
    ) by {
        if i < p {
            assert(t[i] == s[i]);
            if j > p {
                assert(t[j] == s[j - 1]);
            }
        } else if i == p {
            assert(t[j] == s[j - 1]);
        } else {
            assert(t[i] == s[i - 1]);
            assert(t[j] == s[j - 1]);
        }
    }
    assert forall|i: int| 0 <= i < t.len() implies t[i].2 != 0 by {
        if i < p {
            assert(t[i] == s[i]);
        } else if i > p {
            assert(t[i] == s[i - 1]);
        }
    }
}

/// `new` is `old` with `n` more of (e, isotope), and nothing else changed.
pub open spec fn added(
    old: MolecularFormula,
    element: Element,
    isotope: Option<u16>,
    n: int,
    new: MolecularFormula,
) -> bool {
    forall|e: Element, iso: Option<u16>| #[trigger]
        new.count(e, iso) == old.count(e, iso) + (if e == element && iso == isotope {
            n
        } else {
            0
        })
}

pub fn key_of(e: Element, isotope: Option<u16>) -> (r: u32)
    ensures
        r == key(e, isotope),
{
    let n = e.atomic_number() as u32;
    let a: u32 = match isotope {
        None => 0,
        Some(a) => a as u32 + 1,
    };
    n * 65537 + a
}

} // verus!
