//! Peptides as sequences of modified residues, and peptidoforms of cross-linked peptides.
use vstd::prelude::*;

use crate::aminoacid::{
    composition_count, fragment_formula_ok, Composition,base_count, fragment_allowed, immonium_count, AminoAcid, MAX_ALTERNATIVES};
use crate::charge::MolecularCharge;
use crate::element::Element;
use crate::formula::{lemma_sum_within, within, Entry, MolecularFormula};
use crate::fragment::{all_within, Fragment, PART_ATOMS};
use crate::model::{ions_ok, Model, PossibleIons};
use crate::multi::{is_cross_sum, Multi};
use crate::placement_rule::{
    clone_specificities, specificities_view, SpecificityView,
    cross_link_sides, linker_possible, possible_in, sides_of, CrossLinkSide, LinkerSpecificity,
};

verus! {

/// A modification, or a cross-linker, with its placement rules.
#[derive(Debug)]
pub struct SimpleModification {
    /// The formula it adds.
    pub formula: MolecularFormula,
    /// Its PSI-MOD number, if it has one.
    pub psi_mod: Option<usize>,
    /// Where it may be placed, as a linker.
    pub specificities: Vec<LinkerSpecificity>,
}

/// The name of a cross-link.
#[derive(Debug, PartialEq, Eq)]
pub enum CrossLinkName {
    /// A branch between peptides.
    Branch,
    /// A named cross-link.
    Name(String),
}

/// A modification as plain values: formula, PSI-MOD number and linker specificities.
pub type ModificationView = (Seq<Entry>, Option<usize>, Seq<SpecificityView>);

impl View for SimpleModification {
    type V = ModificationView;

    open spec fn view(&self) -> ModificationView {
        (self.formula@, self.psi_mod, specificities_view(self.specificities@))
    }
}

impl Clone for SimpleModification {
    fn clone(&self) -> (r: Self)
        ensures
            r@ == self@,
    {
        SimpleModification {
            formula: self.formula.clone(),
            psi_mod: self.psi_mod,
            specificities: clone_specificities(&self.specificities),
        }
    }
}

impl Clone for CrossLinkName {
    fn clone(&self) -> (r: Self)
        ensures
            r == *self,
    {
        match self {
            CrossLinkName::Branch => CrossLinkName::Branch,
            CrossLinkName::Name(s) => CrossLinkName::Name(s.clone()),
        }
    }
}

/// A modification on a residue.
#[derive(Debug, Clone)]
pub enum Modification {
    /// A modification of this residue alone.
    Simple(SimpleModification),
    /// One end of a cross-link; the other end is on residue `sequence_index` of peptide
    /// `peptide` of the same peptidoform.
    CrossLink {
        peptide: usize,
        sequence_index: usize,
        linker: SimpleModification,
        name: CrossLinkName,
        side: CrossLinkSide,
    },
}

/// A residue with its modifications.
#[derive(Debug, Clone)]
pub struct SequenceElement {
    pub aminoacid: AminoAcid,
    pub modifications: Vec<Modification>,
}

/// A linear peptide: its residues in order.
#[derive(Debug, Clone)]
pub struct LinearPeptide {
    pub sequence: Vec<SequenceElement>,
    /// The modification of the N terminus, if any.
    pub n_term: Option<SimpleModification>,
    /// The modification of the C terminus, if any.
    pub c_term: Option<SimpleModification>,
}

/// A peptidoform: one or more peptides, joined by cross-links.
#[derive(Debug, Clone)]
pub struct Peptidoform(pub Vec<LinearPeptide>);

/// The PSI-MOD numbers of the simple modifications of a list.
pub open spec fn psi_mods_of(s: Seq<Modification>) -> Seq<usize>
    decreases s.len(),
{
    if s.len() == 0 {
        Seq::empty()
    } else {
        psi_mods_of(s.drop_last()) + match s.last() {
            Modification::Simple(m) => match m.psi_mod {
                Some(id) => seq![id],
                None => Seq::empty(),
            },
            _ => Seq::empty(),
        }
    }
}

fn psi_mods(s: &[Modification]) -> (r: Vec<usize>)
    ensures
        r@ == psi_mods_of(s@),
{
    let mut out: Vec<usize> = Vec::new();
    let mut i: usize = 0;
    while i < s.len()
        invariant
            i <= s@.len(),
            out@ == psi_mods_of(s@.subrange(0, i as int)),
        decreases s@.len() - i,
    {
        proof {
            assert(s@.subrange(0, i + 1).drop_last() =~= s@.subrange(0, i as int));
        }
        match &s[i] {
            Modification::Simple(m) => match m.psi_mod {
                Some(id) => out.push(id),
                None => {},
            },
            _ => {},
        }
        i += 1;
        proof {
            assert(out@ =~= psi_mods_of(s@.subrange(0, i as int)));
        }
    }
    proof {
        assert(s@.subrange(0, i as int) =~= s@);
    }
    out
}

/// Whether (peptide, index) names a residue of the peptidoform.
pub open spec fn has_residue(p: Peptidoform, at: (usize, usize)) -> bool {
    at.0 < p.0@.len() && at.1 < p.0@[at.0 as int].sequence@.len()
}

/// The residue at (peptide, index).
pub open spec fn residue(p: Peptidoform, at: (usize, usize)) -> SequenceElement {
    p.0@[at.0 as int].sequence@[at.1 as int]
}

/// How the linker may attach at (peptide, index).
pub open spec fn attachment(p: Peptidoform, at: (usize, usize), linker: SimpleModification) -> crate::placement_rule::RulePossible {
    possible_in(
        linker.specificities@,
        residue(p, at).aminoacid,
        psi_mods_of(residue(p, at).modifications@),
        at.1 as int,
        p.0@[at.0 as int].sequence@.len() as int,
    )
}

/// `m` is the end of a cross-link to residue `to` on the given side.
pub open spec fn is_cross_link_to(
    m: Modification,
    to: (usize, usize),
    side: CrossLinkSide,
    linker: ModificationView,
    name: CrossLinkName,
) -> bool {
    match m {
        Modification::CrossLink { peptide, sequence_index, side: s, linker: l, name: n } => peptide == to.0
            && sequence_index == to.1 && s == side && l@ == linker && n == name,
        _ => false,
    }
}

/// The most residues of a peptide whose fragments are generated.
pub const MAX_LENGTH: usize = 4096;

/// The most simple modifications on one residue whose fragments are generated.
pub const MAX_MODIFICATIONS: usize = 16;

/// The most of any element in a simple modification whose fragments are generated.
pub const MODIFICATION_SIZE: i32 = 256;

/// The most of any element in one residue with its modifications.
pub const RESIDUE_ATOMS: i32 = 64 + 16 * 256;

/// A simple modification whose formula is canonical within [`MODIFICATION_SIZE`].
pub open spec fn modification_ok(m: Modification) -> bool {
    match m {
        Modification::Simple(s) => s.formula.wf() && within(s.formula, MODIFICATION_SIZE as int),
        _ => true,
    }
}

/// The count of (e, isotope) over the formulas of the simple modifications of a list.
pub open spec fn simple_mods_count(s: Seq<Modification>, e: Element, isotope: Option<u16>) -> int
    decreases s.len(),
{
    if s.len() == 0 {
        0
    } else {
        simple_mods_count(s.drop_last(), e, isotope) + match s.last() {
            Modification::Simple(m) => m.formula.count(e, isotope),
            _ => 0,
        }
    }
}

/// A residue with at most [`MAX_MODIFICATIONS`] modifications, each within bounds.
pub open spec fn residue_ok(e: SequenceElement) -> bool {
    &&& e.modifications@.len() <= MAX_MODIFICATIONS
    &&& forall|k: int| 0 <= k < e.modifications@.len() ==> modification_ok(#[trigger] e.modifications@[k])
}

impl SequenceElement {
    /// The formula of the simple modifications; none when there are more than
    /// [`MAX_MODIFICATIONS`] or one is not canonical within [`MODIFICATION_SIZE`].
    pub fn modifications_formula(&self) -> (r: Option<MolecularFormula>)
        ensures
            r matches Some(f) ==> f.wf() && within(f, 4096),
            r matches Some(f) ==> forall|e: Element, iso: Option<u16>| #[trigger] f.count(e, iso)
                == simple_mods_count(self.modifications@, e, iso),
            r is Some <==> residue_ok(*self),
    {
        if self.modifications.len() > MAX_MODIFICATIONS {
            return None;
        }
        let mut total = MolecularFormula::empty();
        let mut i: usize = 0;
        while i < self.modifications.len()
            invariant
                self.modifications@.len() <= MAX_MODIFICATIONS,
                i <= self.modifications@.len(),
                total.wf(),
                within(total, 256 * i),
                forall|k: int| 0 <= k < i ==> modification_ok(#[trigger] self.modifications@[k]),
                forall|e: Element, iso: Option<u16>| #[trigger] total.count(e, iso)
                    == simple_mods_count(self.modifications@.subrange(0, i as int), e, iso),
            decreases self.modifications@.len() - i,
        {
            proof {
                assert(self.modifications@.subrange(0, i + 1).drop_last() =~= self.modifications@.subrange(0, i as int));
            }
            match &self.modifications[i] {
                Modification::Simple(m) => {
                    if !m.formula.is_canonical() || !m.formula.is_within(MODIFICATION_SIZE) {
                        proof {
                            assert(!modification_ok(self.modifications@[i as int]));
                        }
                        return None;
                    }
                    proof {
                        lemma_sum_within(total, m.formula, 256 * i, 256int);
                    }
                    total = total.plus(&m.formula);
                },
                _ => {
                    proof {
                        assert forall|e: Element, iso: Option<u16>| -(256 * (i + 1)) <= #[trigger] total.count(e, iso) <= 256 * (i + 1) by {
                            assert(-(256 * i) <= total.count(e, iso) <= 256 * i);
                        }
                    }
                },
            }
            i += 1;
        }
        proof {
            assert forall|e: Element, iso: Option<u16>| -(16 * 256) <= #[trigger] total.count(e, iso) <= 16 * 256 by {
                assert(-(256 * i) <= total.count(e, iso) <= 256 * i);
            }
            assert(self.modifications@.subrange(0, i as int) =~= self.modifications@);
        }
        Some(total)
    }
}

/// A fragment that the peptide's generation may give: allowed for one of its residues.
pub open spec fn produced_by(
    peptide: LinearPeptide,
    ions: PossibleIons,
    peptidoform_index: usize,
    peptide_index: usize,
    max_charge: int,
    f: Fragment,
) -> bool {
    exists|i: usize| i < peptide.sequence@.len() && fragment_allowed(
        peptide.sequence@[i as int].aminoacid,
        ions,
        i,
        peptide.sequence@.len() as usize,
        peptidoform_index,
        peptide_index,
        max_charge,
        f,
    )
}

/// `mf` is formula r of residue j with its simple modifications.
pub open spec fn residue_alt_match(p: LinearPeptide, j: int, mf: MolecularFormula, r: int) -> bool {
    &&& 0 <= r < p.sequence@[j].aminoacid.residue_compositions().len()
    &&& forall|e: Element, iso: Option<u16>| #[trigger] mf.count(e, iso) == composition_count(
        p.sequence@[j].aminoacid.residue_compositions()[r],
        e,
        iso,
    ) + simple_mods_count(p.sequence@[j].modifications@, e, iso)
}

/// `mf` is one of the formulas of residue j with its simple modifications.
pub open spec fn residue_alt(p: LinearPeptide, j: int, mf: MolecularFormula) -> bool {
    exists|r: int| #[trigger] residue_alt_match(p, j, mf, r)
}

/// The count of (e, isotope) over the residues from `from` up to `to` with their simple
/// modifications, residue j taking its formula `rs[j - from]`.
pub open spec fn span_sum(p: LinearPeptide, from: int, to: int, rs: Seq<int>, e: Element, iso: Option<u16>) -> int
    decreases to - from,
{
    if to <= from {
        0
    } else {
        span_sum(p, from, to - 1, rs, e, iso) + composition_count(
            p.sequence@[to - 1].aminoacid.residue_compositions()[rs[to - 1 - from]],
            e,
            iso,
        ) + simple_mods_count(p.sequence@[to - 1].modifications@, e, iso)
    }
}

/// `mf` is the composition `start` plus the residues from `from` up to `to` with their
/// simple modifications, residue j taking its formula `rs[j - from]`.
pub open spec fn span_match(p: LinearPeptide, from: int, to: int, start: Composition, mf: MolecularFormula, rs: Seq<int>) -> bool {
    &&& rs.len() == to - from
    &&& forall|j: int| 0 <= j < rs.len() ==> 0 <= #[trigger] rs[j] < p.sequence@[from + j].aminoacid.residue_compositions().len()
    &&& forall|e: Element, iso: Option<u16>| #[trigger] mf.count(e, iso) == composition_count(start, e, iso)
        + span_sum(p, from, to, rs, e, iso)
}

/// `mf` is the composition `start` plus, for each residue from `from` up to `to`, one of its
/// formulas with its simple modifications.
pub open spec fn span_alt(p: LinearPeptide, from: int, to: int, start: Composition, mf: MolecularFormula) -> bool {
    exists|rs: Seq<int>| #[trigger] span_match(p, from, to, start, mf, rs)
}

/// The span sum reads only the choices of its own residues.
proof fn lemma_span_sum_prefix(p: LinearPeptide, from: int, to: int, rs: Seq<int>, rs2: Seq<int>, e: Element, iso: Option<u16>)
    requires
        forall|j: int| 0 <= j < to - from ==> rs[j] == rs2[j],
    ensures
        span_sum(p, from, to, rs, e, iso) == span_sum(p, from, to, rs2, e, iso),
    decreases to - from,
{
    if to > from {
        lemma_span_sum_prefix(p, from, to - 1, rs, rs2, e, iso);
    }
}

/// A terminal modification, if any, is canonical within [`MODIFICATION_SIZE`].
pub open spec fn terminal_ok(t: Option<SimpleModification>) -> bool {
    match t {
        Some(m) => m.formula.wf() && within(m.formula, MODIFICATION_SIZE as int),
        None => true,
    }
}

/// The count of (e, isotope) in a terminal modification, zero without one.
pub open spec fn terminal_count(t: Option<SimpleModification>, e: Element, iso: Option<u16>) -> int {
    match t {
        Some(m) => m.formula.count(e, iso),
        None => 0,
    }
}

/// `mf` is a terminal part: alternative `x` of the residues from `from` up to `to` on top of
/// `start`, plus the terminal modification `t`.
pub open spec fn terminal_match(
    p: LinearPeptide,
    from: int,
    to: int,
    start: Composition,
    t: Option<SimpleModification>,
    mf: MolecularFormula,
    x: MolecularFormula,
) -> bool {
    &&& span_alt(p, from, to, start, x)
    &&& forall|e: Element, iso: Option<u16>| #[trigger] mf.count(e, iso) == x.count(e, iso) + terminal_count(t, e, iso)
}

/// `mf` is a terminal part: an alternative of the residues from `from` up to `to` on top of
/// `start`, plus the terminal modification `t`.
pub open spec fn terminal_alt(
    p: LinearPeptide,
    from: int,
    to: int,
    start: Composition,
    t: Option<SimpleModification>,
    mf: MolecularFormula,
) -> bool {
    exists|x: MolecularFormula| #[trigger] terminal_match(p, from, to, start, t, mf, x)
}

/// The formula of `f` is that of a fragment of residue i (see [`fragment_formula_ok`]),
/// with the residues before it plus a hydrogen as N terminus, those after it plus a
/// hydroxyl as C terminus (each with its terminal modification), its simple modifications,
/// and `max_charge` protons as carriers.
pub open spec fn residue_formula_match(
    p: LinearPeptide,
    ions: PossibleIons,
    max_charge: int,
    f: Fragment,
    i: int,
    n_term: Seq<MolecularFormula>,
    c_term: Seq<MolecularFormula>,
    mods: MolecularFormula,
    carriers: Seq<(isize, MolecularFormula)>,
) -> bool {
    let length = p.sequence@.len() as int;
    &&& 0 <= i < length
    &&& forall|k: int| 0 <= k < n_term.len() ==> terminal_alt(p, 0, i, (1, 0, 0, 0, 0, 0), p.n_term, #[trigger] n_term[k])
    &&& forall|k: int| 0 <= k < c_term.len() ==> terminal_alt(p, i + 1, length, (1, 0, 0, 1, 0, 0), p.c_term, #[trigger] c_term[k])
    &&& forall|e: Element, iso: Option<u16>| #[trigger] mods.count(e, iso) == simple_mods_count(p.sequence@[i].modifications@, e, iso)
    &&& carriers.len() == if max_charge > 0 { 1int } else { 0 }
    &&& max_charge > 0 ==> carriers[0].0 == max_charge && carriers[0].1@ == crate::charge::proton_entries()
    &&& fragment_formula_ok(p.sequence@[i].aminoacid, ions, n_term, c_term, seq![mods], carriers, max_charge, f)
}

/// The formula of `f` is that of a fragment of one of the peptide's residues.
pub open spec fn peptide_formula_ok(p: LinearPeptide, ions: PossibleIons, max_charge: int, f: Fragment) -> bool {
    exists|i: int, n_term: Seq<MolecularFormula>, c_term: Seq<MolecularFormula>, mods: MolecularFormula, carriers: Seq<(isize, MolecularFormula)>|
        #[trigger] residue_formula_match(p, ions, max_charge, f, i, n_term, c_term, mods, carriers)
}

/// The formula of `f` is that of a fragment of one of the peptidoform's peptides.
pub open spec fn peptidoform_formula_ok(pf: Peptidoform, ions: PossibleIons, max_charge: int, f: Fragment) -> bool {
    exists|q: int| 0 <= q < pf.0@.len() && #[trigger] peptide_formula_ok(pf.0@[q], ions, max_charge, f)
}

/// A fragment that the peptidoform's generation may give: produced by one of its peptides.
pub open spec fn produced_by_peptidoform(
    peptidoform: Peptidoform,
    ions: PossibleIons,
    peptidoform_index: usize,
    max_charge: int,
    f: Fragment,
) -> bool {
    exists|p: usize| p < peptidoform.0@.len() && produced_by(peptidoform.0@[p as int], ions, peptidoform_index, p, max_charge, f)
}

/// The number of alternative formulas of the residues from `from` up to `to`.
pub open spec fn span_len(peptide: LinearPeptide, from: int, to: int) -> int
    decreases to - from,
{
    if to <= from {
        1
    } else {
        span_len(peptide, from, to - 1) * peptide.sequence@[to - 1].aminoacid.residue_compositions().len()
    }
}

/// The number of fragments of residue i of the peptide, with up to `max_charge` protons.
pub open spec fn residue_fragment_count(peptide: LinearPeptide, ions: PossibleIons, max_charge: int, i: int) -> int {
    let length = peptide.sequence@.len() as int;
    let aa = peptide.sequence@[i].aminoacid;
    base_count(aa, ions, span_len(peptide, 0, i), span_len(peptide, i + 1, length), 1) * max_charge + if ions.immonium {
        immonium_count(aa, 1) * if max_charge > 0 { 1int } else { 0 }
    } else {
        0
    }
}

/// The number of fragments of the first k residues.
pub open spec fn fragment_count(peptide: LinearPeptide, ions: PossibleIons, max_charge: int, k: int) -> int
    decreases k,
{
    if k <= 0 {
        0
    } else {
        fragment_count(peptide, ions, max_charge, k - 1) + residue_fragment_count(peptide, ions, max_charge, k - 1)
    }
}

/// The number of fragments of the first k peptides.
pub open spec fn peptidoform_fragment_count(peptidoform: Peptidoform, ions: PossibleIons, max_charge: int, k: int) -> int
    decreases k,
{
    if k <= 0 {
        0
    } else {
        peptidoform_fragment_count(peptidoform, ions, max_charge, k - 1) + {
            let peptide = peptidoform.0@[k - 1];
            fragment_count(peptide, ions, max_charge, peptide.sequence@.len() as int)
        }
    }
}

/// The residues from `from` up to `to` are within bounds, with at most
/// [`MAX_ALTERNATIVES`] alternative formulas together.
pub open spec fn span_ok(peptide: LinearPeptide, from: int, to: int) -> bool {
    &&& forall|k: int| from <= k < to ==> residue_ok(#[trigger] peptide.sequence@[k])
    &&& span_len(peptide, from, to) <= MAX_ALTERNATIVES
}

/// Fragments can be generated for the peptide: its terminal modifications are within
/// bounds, it has at most [`MAX_LENGTH`] residues, each within bounds, and both the residues before the last and those after the first
/// have at most [`MAX_ALTERNATIVES`] alternative formulas together.
pub open spec fn peptide_ok(peptide: LinearPeptide) -> bool {
    let length = peptide.sequence@.len() as int;
    &&& terminal_ok(peptide.n_term)
    &&& terminal_ok(peptide.c_term)
    &&& length <= MAX_LENGTH
    &&& forall|k: int| 0 <= k < length ==> residue_ok(#[trigger] peptide.sequence@[k])
    &&& length > 0 ==> span_len(peptide, 0, length - 1) <= MAX_ALTERNATIVES && span_len(peptide, 1, length)
        <= MAX_ALTERNATIVES
}

/// Every amino acid has at least one formula.
proof fn lemma_residue_formulas(aa: AminoAcid)
    ensures
        aa.residue_compositions().len() >= 1,
{
}

proof fn lemma_span_positive(peptide: LinearPeptide, from: int, to: int)
    requires
        0 <= from,
        to <= peptide.sequence@.len(),
    ensures
        span_len(peptide, from, to) >= 1,
    decreases to - from,
{
    if to > from {
        lemma_span_positive(peptide, from, to - 1);
        lemma_residue_formulas(peptide.sequence@[to - 1].aminoacid);
        let a = span_len(peptide, from, to - 1);
        let b = peptide.sequence@[to - 1].aminoacid.residue_compositions().len() as int;
        assert(a * b >= 1) by (nonlinear_arith)
            requires a >= 1, b >= 1,
        {}
    }
}

/// The alternatives of a span are those of its two parts, crossed.
proof fn lemma_span_split(peptide: LinearPeptide, from: int, mid: int, to: int)
    requires
        0 <= from <= mid <= to <= peptide.sequence@.len(),
    ensures
        span_len(peptide, from, to) == span_len(peptide, from, mid) * span_len(peptide, mid, to),
    decreases to - mid,
{
    if to > mid {
        lemma_span_split(peptide, from, mid, to - 1);
        let a = span_len(peptide, from, mid);
        let b = span_len(peptide, mid, to - 1);
        let c = peptide.sequence@[to - 1].aminoacid.residue_compositions().len() as int;
        assert((a * b) * c == a * (b * c)) by (nonlinear_arith);
    }
}

/// The formula of a terminal modification (empty without one); none when it is out of bounds.
fn terminal_formula(t: &Option<SimpleModification>) -> (r: Option<MolecularFormula>)
    ensures
        r is Some <==> terminal_ok(*t),
        r matches Some(f) ==> f.wf() && within(f, MODIFICATION_SIZE as int) && forall|e: Element, iso: Option<u16>|
            #[trigger] f.count(e, iso) == terminal_count(*t, e, iso),
{
    match t {
        None => Some(MolecularFormula::empty()),
        Some(m) => {
            if m.formula.is_canonical() && m.formula.is_within(MODIFICATION_SIZE) {
                let f = m.formula.clone();
                proof {
                    crate::formula::lemma_same_view(f, m.formula);
                }
                Some(f)
            } else {
                None
            }
        },
    }
}

impl LinearPeptide {
    /// The alternative formulas of residue j with its modifications.
    fn residue_alternatives(&self, j: usize) -> (r: Option<Multi>)
        requires
            j < self.sequence@.len(),
        ensures
            r matches Some(m) ==> all_within(m@, RESIDUE_ATOMS as int) && m@.len() <= 3 && m.wf()
                && m@.len() == self.sequence@[j as int].aminoacid.residue_compositions().len(),
            r is Some <==> residue_ok(self.sequence@[j as int]),
            r matches Some(m) ==> forall|k: int| 0 <= k < m@.len() ==> residue_alt(*self, j as int, #[trigger] m@[k]),
    {
        let element = &self.sequence[j];
        let mods = match element.modifications_formula() {
            None => return None,
            Some(f) => f,
        };
        let residue = element.aminoacid.formulas();
        proof {
            assert(residue@.len() <= 3);
            assert forall|i: int| 0 <= i < residue@.len() implies crate::formula::sum_fits(#[trigger] residue@[i], mods) by {
                lemma_sum_within(residue@[i], mods, 64, 4096);
            }
        }
        let r = residue.plus_formula(&mods);
        proof {
            assert forall|i: int| 0 <= i < r@.len() implies (#[trigger] r@[i]).wf() && within(r@[i], RESIDUE_ATOMS as int) by {
                lemma_sum_within(residue@[i], mods, 64, 4096);
            }
            assert forall|k: int| 0 <= k < r@.len() implies residue_alt(*self, j as int, #[trigger] r@[k]) by {
                assert(crate::aminoacid::has_composition(residue@[k], element.aminoacid.residue_compositions()[k]));
                assert(residue_alt_match(*self, j as int, r@[k], k));
            }
        }
        Some(r)
    }

    /// `start` plus the residues from `from` up to `to`, with their modifications, as
    /// alternatives; none when there would be more than [`MAX_ALTERNATIVES`] of them or a
    /// modification is out of bounds.
    fn span(&self, from: usize, to: usize, start: MolecularFormula, Ghost(c): Ghost<Composition>) -> (r: Option<Multi>)
        requires
            forall|e: Element, iso: Option<u16>| #[trigger] start.count(e, iso) == composition_count(c, e, iso),
            from <= to <= self.sequence@.len(),
            self.sequence@.len() <= MAX_LENGTH,
            start.wf(),
            within(start, 2),
        ensures
            r matches Some(m) ==> all_within(m@, 2 + (to - from) * RESIDUE_ATOMS) && m@.len() <= MAX_ALTERNATIVES && m.wf()
                && m@.len() == span_len(*self, from as int, to as int),
            r is Some <==> span_ok(*self, from as int, to as int),
            r matches Some(m) ==> forall|k: int| 0 <= k < m@.len() ==> span_alt(*self, from as int, to as int, c, #[trigger] m@[k]),
    {
        let mut acc = Multi::single(start);
        proof {
            assert(span_match(*self, from as int, from as int, c, acc@[0], Seq::<int>::empty()));
        }
        let mut j = from;
        while j < to
            invariant
                from <= j <= to <= self.sequence@.len(),
                self.sequence@.len() <= MAX_LENGTH,
                acc.wf(),
                acc@.len() <= MAX_ALTERNATIVES,
                acc@.len() == span_len(*self, from as int, j as int),
                all_within(acc@, 2 + (j - from) * RESIDUE_ATOMS),
                forall|k: int| from <= k < j ==> residue_ok(#[trigger] self.sequence@[k]),
                forall|k: int| 0 <= k < acc@.len() ==> span_alt(*self, from as int, j as int, c, #[trigger] acc@[k]),
            decreases to - j,
        {
            proof {
                lemma_span_split(*self, from as int, j + 1, to as int);
                lemma_span_positive(*self, j + 1, to as int);
            }
            let residue = match self.residue_alternatives(j) {
                None => return None,
                Some(m) => m,
            };
            proof {
                assert(acc@.len() * residue@.len() <= 256 * 3) by (nonlinear_arith)
                    requires acc@.len() <= 256, residue@.len() <= 3,
                {}
            }
            if acc.len() * residue.len() > MAX_ALTERNATIVES {
                proof {
                    assert(span_len(*self, from as int, j + 1) == acc@.len() * residue@.len());
                    assert(span_len(*self, from as int, to as int) >= span_len(*self, from as int, j + 1)) by (nonlinear_arith)
                        requires
                            span_len(*self, from as int, to as int) == span_len(*self, from as int, j + 1) * span_len(*self, j + 1, to as int),
                            span_len(*self, j + 1, to as int) >= 1,
                            span_len(*self, from as int, j + 1) >= 0,
                    {}
                }
                return None;
            }
            let ghost bound = 2 + (j - from) * RESIDUE_ATOMS;
            proof {
                assert(bound + RESIDUE_ATOMS <= 2 + 4096 * RESIDUE_ATOMS) by (nonlinear_arith)
                    requires bound == 2 + (j - from) * RESIDUE_ATOMS, j - from < 4096,
                {}
                assert forall|a: int, b: int| 0 <= a < acc@.len() && 0 <= b < residue@.len() implies crate::formula::sum_fits(
                    #[trigger] acc@[a], #[trigger] residue@[b]) by {
                    lemma_sum_within(acc@[a], residue@[b], bound, RESIDUE_ATOMS as int);
                }
            }
            let next = acc.cross(&residue);
            proof {
                assert forall|k: int| 0 <= k < next@.len() implies (#[trigger] next@[k]).wf() && within(next@[k], bound + RESIDUE_ATOMS) by {
                    assert(is_cross_sum(acc@, residue@, next@[k]));
                    let (a, b) = choose|a: int, b: int| 0 <= a < acc@.len() && 0 <= b < residue@.len() && crate::formula::sum_of(acc@[a], residue@[b], next@[k]);
                    lemma_sum_within(acc@[a], residue@[b], bound, RESIDUE_ATOMS as int);
                }
                assert(bound + RESIDUE_ATOMS == 2 + (j + 1 - from) * RESIDUE_ATOMS) by (nonlinear_arith)
                    requires bound == 2 + (j - from) * RESIDUE_ATOMS,
                {}
                assert forall|k: int| 0 <= k < next@.len() implies span_alt(*self, from as int, j + 1, c, #[trigger] next@[k]) by {
                    assert(is_cross_sum(acc@, residue@, next@[k]));
                    let (a, b) = choose|a: int, b: int| 0 <= a < acc@.len() && 0 <= b < residue@.len() && crate::formula::sum_of(acc@[a], residue@[b], next@[k]);
                    assert(span_alt(*self, from as int, j as int, c, acc@[a]));
                    let rs = choose|rs: Seq<int>| #[trigger] span_match(*self, from as int, j as int, c, acc@[a], rs);
                    assert(residue_alt(*self, j as int, residue@[b]));
                    let r = choose|r: int| #[trigger] residue_alt_match(*self, j as int, residue@[b], r);
                    let rs2 = rs.push(r);
                    assert forall|e: Element, iso: Option<u16>| #[trigger] next@[k].count(e, iso) == composition_count(c, e, iso)
                        + span_sum(*self, from as int, j + 1, rs2, e, iso) by {
                        lemma_span_sum_prefix(*self, from as int, j as int, rs, rs2, e, iso);
                        assert(rs2[j - from] == r);
                        assert(next@[k].count(e, iso) == acc@[a].count(e, iso) + residue@[b].count(e, iso));
                    }
                    assert forall|q: int| 0 <= q < rs2.len() implies 0 <= #[trigger] rs2[q] < self.sequence@[from + q].aminoacid.residue_compositions().len() by {
                        if q < rs.len() {
                            assert(rs2[q] == rs[q]);
                        }
                    }
                    assert(span_match(*self, from as int, j + 1, c, next@[k], rs2));
                }
            }
            acc = next;
            j += 1;
        }
        Some(acc)
    }

    /// The fragments of every residue in order, with up to `max_charge` protons as charge
    /// carriers; the N terminus carries a hydrogen and the C terminus a hydroxyl, each with its
    /// terminal modification. None when the
    /// peptide is longer than [`MAX_LENGTH`], a modification is out of bounds, or a terminal
    /// part has more than [`MAX_ALTERNATIVES`] alternative formulas.
    pub fn generate_theoretical_fragments(
        &self,
        max_charge: usize,
        model: &Model,
        peptidoform_index: usize,
        peptide_index: usize,
    ) -> (r: Option<Vec<Fragment>>)
        requires
            ions_ok(model.ions),
            max_charge <= 1024,
        ensures
            r matches Some(v) ==> forall|k: int| 0 <= k < v@.len() ==> produced_by(
                *self,
                model.ions,
                peptidoform_index,
                peptide_index,
                max_charge as int,
                #[trigger] v@[k],
            ),
            r matches Some(v) ==> v@.len() == fragment_count(*self, model.ions, max_charge as int, self.sequence@.len() as int),
            r is Some <==> peptide_ok(*self),
            r matches Some(v) ==> forall|k: int| 0 <= k < v@.len() ==> peptide_formula_ok(*self, model.ions, max_charge as int, #[trigger] v@[k]),
    {
        let len = self.sequence.len();
        if len > MAX_LENGTH {
            return None;
        }
        let n_mod = match terminal_formula(&self.n_term) {
            None => return None,
            Some(f) => f,
        };
        let c_mod = match terminal_formula(&self.c_term) {
            None => return None,
            Some(f) => f,
        };
        let charge = MolecularCharge::proton(max_charge as isize);
        proof {
            if max_charge > 0 {
                assert(charge@[0].1.count(Element::Electron, None) == -1);
                crate::charge::lemma_single_unit_carrier(charge@, max_charge as int);
            } else {
                assert(crate::charge::options_up_to(charge@, 0) == 0);
                assert(crate::charge::single_count(charge@) == 0);
            }
        }
        let mut out: Vec<Fragment> = Vec::new();
        let mut i: usize = 0;
        while i < len
            invariant
                len == self.sequence@.len(),
                len <= MAX_LENGTH,
                i <= len,
                ions_ok(model.ions),
                charge.wf(),
                charge.total_charge() == max_charge,
                crate::charge::options_up_to(charge@, max_charge as int) == max_charge,
                crate::charge::single_count(charge@) == if max_charge > 0 { 1int } else { 0 },
                out@.len() == fragment_count(*self, model.ions, max_charge as int, i as int),
                forall|k: int| 0 <= k < out@.len() ==> peptide_formula_ok(*self, model.ions, max_charge as int, #[trigger] out@[k]),
                max_charge > 0 ==> charge@.len() == 1 && charge@[0].0 == max_charge && charge@[0].1@ == crate::charge::proton_entries(),
                max_charge == 0 ==> charge@.len() == 0,
                terminal_ok(self.n_term),
                terminal_ok(self.c_term),
                n_mod.wf() && within(n_mod, MODIFICATION_SIZE as int),
                c_mod.wf() && within(c_mod, MODIFICATION_SIZE as int),
                forall|e: Element, iso: Option<u16>| #[trigger] n_mod.count(e, iso) == terminal_count(self.n_term, e, iso),
                forall|e: Element, iso: Option<u16>| #[trigger] c_mod.count(e, iso) == terminal_count(self.c_term, e, iso),
                forall|k: int| 0 <= k < i ==> residue_ok(#[trigger] self.sequence@[k]) && span_len(*self, 0, k)
                    <= MAX_ALTERNATIVES && span_len(*self, k + 1, len as int) <= MAX_ALTERNATIVES,
                forall|k: int| 0 <= k < out@.len() ==> produced_by(
                    *self,
                    model.ions,
                    peptidoform_index,
                    peptide_index,
                    max_charge as int,
                    #[trigger] out@[k],
                ),
            decreases len - i,
        {
            let mut hydrogen = MolecularFormula::empty();
            hydrogen.add(Element::H, None, 1);
            let mut hydroxyl = MolecularFormula::empty();
            hydroxyl.add(Element::O, None, 1);
            hydroxyl.add(Element::H, None, 1);
            proof {
                assert(within(hydrogen, 2));
                assert(within(hydroxyl, 2));
            }
            proof {
                lemma_span_split(*self, 0, i as int, len - 1);
                lemma_span_positive(*self, i as int, len - 1);
                lemma_span_split(*self, 1, i + 1, len as int);
                lemma_span_positive(*self, 1, i + 1);
                lemma_span_positive(*self, 0, i as int);
                lemma_span_positive(*self, i + 1, len as int);
                let a = span_len(*self, 0, i as int);
                let b = span_len(*self, i as int, len - 1);
                assert(a * b >= a) by (nonlinear_arith)
                    requires a >= 0, b >= 1,
                {}
                let c = span_len(*self, 1, i + 1);
                let d = span_len(*self, i + 1, len as int);
                assert(c * d >= d) by (nonlinear_arith)
                    requires c >= 1, d >= 0,
                {}
            }
            let n_span = match self.span(0, i, hydrogen, Ghost((1, 0, 0, 0, 0, 0))) {
                None => return None,
                Some(m) => m,
            };
            let c_span = match self.span(i + 1, len, hydroxyl, Ghost((1, 0, 0, 1, 0, 0))) {
                None => return None,
                Some(m) => m,
            };
            let mods = match self.sequence[i].modifications_formula() {
                None => return None,
                Some(f) => f,
            };
            let ghost nb = 2 + (i - 0) * RESIDUE_ATOMS;
            let ghost cb = 2 + (len - (i + 1)) * RESIDUE_ATOMS;
            proof {
                assert(nb + 256 <= PART_ATOMS) by (nonlinear_arith)
                    requires i <= 4096, nb == 2 + (i - 0) * RESIDUE_ATOMS,
                {}
                assert(cb + 256 <= PART_ATOMS) by (nonlinear_arith)
                    requires len - (i + 1) <= 4096, cb == 2 + (len - (i + 1)) * RESIDUE_ATOMS,
                {}
                assert forall|k: int| 0 <= k < n_span@.len() implies crate::formula::sum_fits(#[trigger] n_span@[k], n_mod) by {
                    lemma_sum_within(n_span@[k], n_mod, nb, 256);
                }
                assert forall|k: int| 0 <= k < c_span@.len() implies crate::formula::sum_fits(#[trigger] c_span@[k], c_mod) by {
                    lemma_sum_within(c_span@[k], c_mod, cb, 256);
                }
            }
            let n_term = n_span.plus_formula(&n_mod);
            let c_term = c_span.plus_formula(&c_mod);
            proof {
                assert forall|k: int| 0 <= k < n_term@.len() implies (#[trigger] n_term@[k]).wf() && within(n_term@[k], PART_ATOMS as int)
                    && terminal_alt(*self, 0, i as int, (1, 0, 0, 0, 0, 0), self.n_term, n_term@[k]) by {
                    lemma_sum_within(n_span@[k], n_mod, nb, 256);
                    assert forall|e: Element, iso: Option<u16>| -(PART_ATOMS as int) <= #[trigger] n_term@[k].count(e, iso) <= PART_ATOMS as int by {
                        assert(-(nb + 256) <= n_term@[k].count(e, iso) <= nb + 256);
                    }
                    assert(terminal_match(*self, 0, i as int, (1, 0, 0, 0, 0, 0), self.n_term, n_term@[k], n_span@[k]));
                }
                assert forall|k: int| 0 <= k < c_term@.len() implies (#[trigger] c_term@[k]).wf() && within(c_term@[k], PART_ATOMS as int)
                    && terminal_alt(*self, i + 1, len as int, (1, 0, 0, 1, 0, 0), self.c_term, c_term@[k]) by {
                    lemma_sum_within(c_span@[k], c_mod, cb, 256);
                    assert forall|e: Element, iso: Option<u16>| -(PART_ATOMS as int) <= #[trigger] c_term@[k].count(e, iso) <= PART_ATOMS as int by {
                        assert(-(cb + 256) <= c_term@[k].count(e, iso) <= cb + 256);
                    }
                    assert(terminal_match(*self, i + 1, len as int, (1, 0, 0, 1, 0, 0), self.c_term, c_term@[k], c_span@[k]));
                }
            }
            let modifications = Multi::single(mods);
            proof {
                assert forall|k: int| 0 <= k < modifications@.len() implies (#[trigger] modifications@[k]).wf()
                    && within(modifications@[k], crate::aminoacid::MODIFICATION_ATOMS as int) by {
                    assert(modifications@[k] == mods);
                    assert forall|e: Element, iso: Option<u16>| -(crate::aminoacid::MODIFICATION_ATOMS as int) <= #[trigger] mods.count(e, iso)
                        <= crate::aminoacid::MODIFICATION_ATOMS as int by {
                        assert(-(16 * 256) <= mods.count(e, iso) <= 16 * 256);
                    }
                }
            }
            let aa = self.sequence[i].aminoacid;
            let mut fragments = aa.fragments(&n_term, &c_term, &modifications, &charge, i, len, &model.ions, peptidoform_index, peptide_index);
            let ghost before = out@;
            let ghost added = fragments@;
            out.append(&mut fragments);
            proof {
                assert forall|k: int| 0 <= k < out@.len() implies produced_by(
                    *self, model.ions, peptidoform_index, peptide_index, max_charge as int, #[trigger] out@[k]) by {
                    if k < before.len() {
                        assert(out@[k] == before[k]);
                    } else {
                        assert(out@[k] == added[k - before.len()]);
                        assert(fragment_allowed(aa, model.ions, i, len, peptidoform_index, peptide_index, max_charge as int, added[k - before.len()]));
                    }
                }
                assert(modifications@ == seq![mods]);
                assert forall|k: int| 0 <= k < out@.len() implies peptide_formula_ok(*self, model.ions, max_charge as int, #[trigger] out@[k]) by {
                    if k < before.len() {
                        assert(out@[k] == before[k]);
                    } else {
                        let x = added[k - before.len()];
                        assert(out@[k] == x);
                        assert(fragment_formula_ok(aa, model.ions, n_term@, c_term@, modifications@, charge@, max_charge as int, x));
                        assert(residue_formula_match(*self, model.ions, max_charge as int, x, i as int, n_term@, c_term@, mods, charge@));
                    }
                }
            }
            i += 1;
        }
        proof {
            if len > 0 {
                let s0 = self.sequence@[0];
                assert(residue_ok(s0) && span_len(*self, 0int + 1, len as int) <= MAX_ALTERNATIVES);
                assert(span_len(*self, 0, len - 1) <= MAX_ALTERNATIVES);
            }
        }
        Some(out)
    }
}

impl Peptidoform {
    /// The fragments of every peptide in order, each with its index.
    pub fn generate_theoretical_fragments(&self, max_charge: usize, model: &Model, peptidoform_index: usize) -> (r: Option<Vec<Fragment>>)
        requires
            ions_ok(model.ions),
            max_charge <= 1024,
        ensures
            r matches Some(v) ==> forall|k: int| 0 <= k < v@.len() ==> produced_by_peptidoform(
                *self,
                model.ions,
                peptidoform_index,
                max_charge as int,
                #[trigger] v@[k],
            ),
            r matches Some(v) ==> v@.len() == peptidoform_fragment_count(*self, model.ions, max_charge as int, self.0@.len() as int),
            r is Some <==> forall|q: int| 0 <= q < self.0@.len() ==> peptide_ok(#[trigger] self.0@[q]),
            r matches Some(v) ==> forall|k: int| 0 <= k < v@.len() ==> peptidoform_formula_ok(*self, model.ions, max_charge as int, #[trigger] v@[k]),
    {
        let mut out: Vec<Fragment> = Vec::new();
        let mut p: usize = 0;
        while p < self.0.len()
            invariant
                p <= self.0@.len(),
                ions_ok(model.ions),
                max_charge <= 1024,
                out@.len() == peptidoform_fragment_count(*self, model.ions, max_charge as int, p as int),
                forall|q: int| 0 <= q < p ==> peptide_ok(#[trigger] self.0@[q]),
                forall|k: int| 0 <= k < out@.len() ==> peptidoform_formula_ok(*self, model.ions, max_charge as int, #[trigger] out@[k]),
                forall|k: int| 0 <= k < out@.len() ==> produced_by_peptidoform(
                    *self,
                    model.ions,
                    peptidoform_index,
                    max_charge as int,
                    #[trigger] out@[k],
                ),
            decreases self.0@.len() - p,
        {
            let mut fragments = match self.0[p].generate_theoretical_fragments(max_charge, model, peptidoform_index, p) {
                None => return None,
                Some(v) => v,
            };
            let ghost before = out@;
            let ghost added = fragments@;
            out.append(&mut fragments);
            proof {
                assert forall|k: int| 0 <= k < out@.len() implies produced_by_peptidoform(
                    *self, model.ions, peptidoform_index, max_charge as int, #[trigger] out@[k]) by {
                    if k < before.len() {
                        assert(out@[k] == before[k]);
                    } else {
                        assert(out@[k] == added[k - before.len()]);
                        assert(produced_by(self.0@[p as int], model.ions, peptidoform_index, p, max_charge as int, out@[k]));
                    }
                }
                assert forall|k: int| 0 <= k < out@.len() implies peptidoform_formula_ok(*self, model.ions, max_charge as int, #[trigger] out@[k]) by {
                    if k < before.len() {
                        assert(out@[k] == before[k]);
                    } else {
                        assert(out@[k] == added[k - before.len()]);
                        assert(peptide_formula_ok(self.0@[p as int], model.ions, max_charge as int, out@[k]));
                    }
                }
            }
            p += 1;
        }
        Some(out)
    }
}

impl Peptidoform {
    /// The peptides.
    pub fn peptides(&self) -> (r: &[LinearPeptide])
        ensures
            r@ == self.0@,
    {
        self.0.as_slice()
    }

    /// The peptide, if there is exactly one.
    pub fn singular(self) -> (r: Option<LinearPeptide>)
        ensures
            self.0@.len() == 1 <==> r is Some,
            r matches Some(p) ==> p == self.0@[0],
    {
        let mut peptides = self.0;
        if peptides.len() == 1 {
            peptides.pop()
        } else {
            None
        }
    }

    /// Cross-link residue `position_1` with `position_2` (each a peptide index and a
    /// sequence index) when the linker's rules allow it at both: symmetric at both, or the
    /// left side at one and the right (or symmetric) side at the other. Both residues then
    /// get the cross-link, with opposite sides; otherwise nothing changes.
    pub fn add_cross_link(
        &mut self,
        position_1: (usize, usize),
        position_2: (usize, usize),
        linker: SimpleModification,
        name: CrossLinkName,
    ) -> (r: bool)
        ensures
            r == (has_residue(*old(self), position_1) && has_residue(*old(self), position_2) && sides_of(
                attachment(*old(self), position_1, linker),
                attachment(*old(self), position_2, linker),
            ) is Some),
            !r ==> *final(self) == *old(self),
            r ==> final(self).0@.len() == old(self).0@.len(),
            r ==> forall|q: int| 0 <= q < old(self).0@.len() ==> (#[trigger] final(self).0@[q]).sequence@.len()
                == old(self).0@[q].sequence@.len(),
            r ==> forall|q: usize, j: usize| has_residue(*old(self), (q, j)) && (q, j) != position_1 && (q, j) != position_2
                ==> #[trigger] residue(*final(self), (q, j)) == residue(*old(self), (q, j)),
            r ==> {
                let (left, right) = sides_of(attachment(*old(self), position_1, linker), attachment(*old(self), position_2, linker))->0;
                let m1 = residue(*final(self), position_1).modifications@;
                let m2 = residue(*final(self), position_2).modifications@;
                let n1 = residue(*old(self), position_1).modifications@.len();
                let n2 = residue(*old(self), position_2).modifications@.len();
                let added: int = if position_1 == position_2 { 2 } else { 1 };
                &&& residue(*final(self), position_1).aminoacid == residue(*old(self), position_1).aminoacid
                &&& residue(*final(self), position_2).aminoacid == residue(*old(self), position_2).aminoacid
                &&& m1.len() == n1 + added
                &&& m2.len() == n2 + added
                &&& m1.subrange(0, n1 as int) == residue(*old(self), position_1).modifications@
                &&& position_1 != position_2 ==> m2.subrange(0, n2 as int) == residue(*old(self), position_2).modifications@
                &&& is_cross_link_to(m1[n1 as int], position_2, left, linker@, name)
                &&& is_cross_link_to(m2.last(), position_1, right, linker@, name)
            },
    {
        if !(position_1.0 < self.0.len() && position_1.1 < self.0[position_1.0].sequence.len()
            && position_2.0 < self.0.len() && position_2.1 < self.0[position_2.0].sequence.len()) {
            return false;
        }
        let left = {
            let peptide = &self.0[position_1.0];
            let element = &peptide.sequence[position_1.1];
            let mods = psi_mods(element.modifications.as_slice());
            linker_possible(linker.specificities.as_slice(), element.aminoacid, mods.as_slice(), position_1.1, peptide.sequence.len())
        };
        let right = {
            let peptide = &self.0[position_2.0];
            let element = &peptide.sequence[position_2.1];
            let mods = psi_mods(element.modifications.as_slice());
            linker_possible(linker.specificities.as_slice(), element.aminoacid, mods.as_slice(), position_2.1, peptide.sequence.len())
        };
        match cross_link_sides(left, right) {
            None => false,
            Some((l, r)) => {
                let first = Modification::CrossLink {
                    peptide: position_2.0,
                    sequence_index: position_2.1,
                    linker: linker.clone(),
                    name: name.clone(),
                    side: l,
                };
                let second = Modification::CrossLink {
                    peptide: position_1.0,
                    sequence_index: position_1.1,
                    linker,
                    name,
                    side: r,
                };
                self.0[position_1.0].sequence[position_1.1].modifications.push(first);
                self.0[position_2.0].sequence[position_2.1].modifications.push(second);
                true
            },
        }
    }
}

} // verus!
