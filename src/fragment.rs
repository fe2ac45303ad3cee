//! Theoretical fragments: their ion types, positions, formulas, charges and losses.
use vstd::prelude::*;

use crate::aminoacid::AminoAcid;
use crate::charge::{carrier_count, MolecularCharge};
use crate::element::{Element, MassMode};
use crate::formula::count_in;
use crate::formula::{
    difference_of, lemma_sum_within, mass_of_entries, sum_of, within, Entry, MolecularFormula,
    MASS_LIMIT,
};
use crate::multi::Multi;
use crate::notation::{digits, push_digits, push_str, NotationStyle};

verus! {

/// The position of an ion on a peptide.
#[derive(Clone, Copy, Debug, PartialEq, Eq, Structural, Hash, Default, PartialOrd, Ord)]
pub struct PeptidePosition {
    /// The index into the sequence, from zero.
    pub sequence_index: usize,
    /// The number in the ion series, from one, counted from the series' terminus.
    pub series_number: usize,
    /// The length of the whole sequence.
    pub sequence_length: usize,
}

/// The same position counted from the other terminus.
pub open spec fn flipped(p: PeptidePosition) -> PeptidePosition {
    PeptidePosition {
        sequence_index: p.sequence_index,
        series_number: (p.sequence_length + 1 - p.series_number) as usize,
        sequence_length: p.sequence_length,
    }
}

impl PeptidePosition {
    /// A position in an N-terminal series.
    pub fn n(sequence_index: usize, length: usize) -> (r: Self)
        requires
            sequence_index < usize::MAX,
        ensures
            r.sequence_index == sequence_index,
            r.series_number == sequence_index + 1,
            r.sequence_length == length,
    {
        PeptidePosition { sequence_index, series_number: sequence_index + 1, sequence_length: length }
    }

    /// A position in a C-terminal series.
    pub fn c(sequence_index: usize, length: usize) -> (r: Self)
        requires
            sequence_index <= length,
        ensures
            r.sequence_index == sequence_index,
            r.series_number == length - sequence_index,
            r.sequence_length == length,
    {
        PeptidePosition { sequence_index, series_number: length - sequence_index, sequence_length: length }
    }

    /// Whether this is the first residue.
    pub fn is_n_terminal(&self) -> (r: bool)
        ensures
            r == (self.sequence_index == 0),
    {
        self.sequence_index == 0
    }

    /// Whether this is the last residue.
    pub fn is_c_terminal(&self) -> (r: bool)
        requires
            self.sequence_length > 0,
        ensures
            r == (self.sequence_index == self.sequence_length - 1),
    {
        self.sequence_index == self.sequence_length - 1
    }

    /// The same position in the series of the other terminus.
    pub fn flip_terminal(self) -> (r: Self)
        requires
            self.series_number <= self.sequence_length + 1,
            self.sequence_length < usize::MAX,
        ensures
            r == flipped(self),
    {
        PeptidePosition {
            sequence_index: self.sequence_index,
            series_number: self.sequence_length + 1 - self.series_number,
            sequence_length: self.sequence_length,
        }
    }
}

/// Flipping the terminus twice gives the position back.
pub proof fn law_flip_involution(p: PeptidePosition)
    requires
        p.series_number <= p.sequence_length + 1,
        p.sequence_length < usize::MAX,
    ensures
        flipped(flipped(p)) == p,
{
}

/// An N-terminal and a C-terminal series number of one residue add up to the length plus one.
pub proof fn law_series_numbers(i: usize, length: usize, n: PeptidePosition, c: PeptidePosition)
    requires
        i < length,
        n.sequence_index == i && n.series_number == i + 1 && n.sequence_length == length,
        c.sequence_index == i && c.series_number == length - i && c.sequence_length == length,
    ensures
        n.series_number + c.series_number == length + 1,
        flipped(n) == c,
        flipped(c) == n,
{
}

/// The position of an ion, counted in one series only.
#[derive(Clone, Copy, Debug, PartialEq, Eq, Structural, Hash)]
pub struct Position {
    /// The index into the sequence, from zero.
    pub sequence_index: usize,
    /// The number in the ion series, from one.
    pub series_number: usize,
}

impl Position {
    /// A position in an N-terminal series.
    pub fn n(sequence_index: usize, _length: usize) -> (r: Self)
        requires
            sequence_index < usize::MAX,
        ensures
            r.sequence_index == sequence_index,
            r.series_number == sequence_index + 1,
    {
        Position { sequence_index, series_number: sequence_index + 1 }
    }

    /// A position in a C-terminal series.
    pub fn c(sequence_index: usize, length: usize) -> (r: Self)
        requires
            sequence_index <= length,
        ensures
            r.sequence_index == sequence_index,
            r.series_number == length - sequence_index,
    {
        Position { sequence_index, series_number: length - sequence_index }
    }
}

/// Where a diagnostic ion comes from.
#[derive(Clone, Copy, Debug, PartialEq, Eq, Structural, Hash)]
pub enum DiagnosticPosition {
    /// A residue of the peptide.
    Peptide(PeptidePosition, AminoAcid),
}

/// The type of a fragment: its ion series and where on the peptide it comes from.
#[derive(Clone, Copy, Debug, PartialEq, Eq, Structural, Hash, Default)]
#[allow(non_camel_case_types)]
pub enum FragmentType {
    a(PeptidePosition),
    b(PeptidePosition),
    c(PeptidePosition),
    d(PeptidePosition),
    v(PeptidePosition),
    w(PeptidePosition),
    x(PeptidePosition),
    y(PeptidePosition),
    z(PeptidePosition),
    /// The z radical (z·).
    z_dot(PeptidePosition),
    /// An immonium ion.
    immonium(PeptidePosition, AminoAcid),
    /// The precursor less a side chain.
    m(PeptidePosition, AminoAcid),
    /// A diagnostic ion.
    diagnostic(DiagnosticPosition),
    /// The precursor.
    #[default]
    precursor,
}

/// The kind of a fragment: its type without position.
#[derive(Clone, Copy, Debug, PartialEq, Eq, Structural, Hash, PartialOrd, Ord)]
#[allow(non_camel_case_types)]
pub enum FragmentKind {
    a,
    b,
    c,
    d,
    v,
    w,
    x,
    y,
    /// z and z·
    z,
    Y,
    Oxonium,
    immonium,
    m,
    diagnostic,
    precursor,
}

impl FragmentType {
    /// The peptide position, unless this is a precursor.
    pub open spec fn position_spec(self) -> Option<PeptidePosition> {
        match self {
            FragmentType::a(p) | FragmentType::b(p) | FragmentType::c(p) | FragmentType::d(p)
            | FragmentType::v(p) | FragmentType::w(p) | FragmentType::x(p) | FragmentType::y(p)
            | FragmentType::z(p) | FragmentType::z_dot(p) | FragmentType::immonium(p, _)
            | FragmentType::m(p, _) | FragmentType::diagnostic(DiagnosticPosition::Peptide(p, _)) => Some(p),
            FragmentType::precursor => None,
        }
    }

    /// The peptide position, unless this is a precursor.
    pub fn position(&self) -> (r: Option<&PeptidePosition>)
        ensures
            r matches Some(p) ==> self.position_spec() == Some(*p),
            r is None ==> self.position_spec() is None,
    {
        match self {
            FragmentType::a(p) | FragmentType::b(p) | FragmentType::c(p) | FragmentType::d(p)
            | FragmentType::v(p) | FragmentType::w(p) | FragmentType::x(p) | FragmentType::y(p)
            | FragmentType::z(p) | FragmentType::z_dot(p) | FragmentType::immonium(p, _)
            | FragmentType::m(p, _) | FragmentType::diagnostic(DiagnosticPosition::Peptide(p, _)) => Some(p),
            FragmentType::precursor => None,
        }
    }

    pub open spec fn kind_spec(self) -> FragmentKind {
        match self {
            FragmentType::a(_) => FragmentKind::a,
            FragmentType::b(_) => FragmentKind::b,
            FragmentType::c(_) => FragmentKind::c,
            FragmentType::d(_) => FragmentKind::d,
            FragmentType::v(_) => FragmentKind::v,
            FragmentType::w(_) => FragmentKind::w,
            FragmentType::x(_) => FragmentKind::x,
            FragmentType::y(_) => FragmentKind::y,
            FragmentType::z(_) | FragmentType::z_dot(_) => FragmentKind::z,
            FragmentType::immonium(_, _) => FragmentKind::immonium,
            FragmentType::m(_, _) => FragmentKind::m,
            FragmentType::diagnostic(_) => FragmentKind::diagnostic,
            FragmentType::precursor => FragmentKind::precursor,
        }
    }

    /// The kind of this fragment type.
    pub fn kind(&self) -> (r: FragmentKind)
        ensures
            r == self.kind_spec(),
    {
        match self {
            FragmentType::a(_) => FragmentKind::a,
            FragmentType::b(_) => FragmentKind::b,
            FragmentType::c(_) => FragmentKind::c,
            FragmentType::d(_) => FragmentKind::d,
            FragmentType::v(_) => FragmentKind::v,
            FragmentType::w(_) => FragmentKind::w,
            FragmentType::x(_) => FragmentKind::x,
            FragmentType::y(_) => FragmentKind::y,
            FragmentType::z(_) | FragmentType::z_dot(_) => FragmentKind::z,
            FragmentType::immonium(_, _) => FragmentKind::immonium,
            FragmentType::m(_, _) => FragmentKind::m,
            FragmentType::diagnostic(_) => FragmentKind::diagnostic,
            FragmentType::precursor => FragmentKind::precursor,
        }
    }
}

impl FragmentKind {
    /// The name of the kind.
    pub open spec fn name_spec(self) -> Seq<char> {
        match self {
            FragmentKind::a => seq!['a'],
            FragmentKind::b => seq!['b'],
            FragmentKind::c => seq!['c'],
            FragmentKind::d => seq!['d'],
            FragmentKind::v => seq!['v'],
            FragmentKind::w => seq!['w'],
            FragmentKind::x => seq!['x'],
            FragmentKind::y => seq!['y'],
            FragmentKind::z => seq!['z'],
            FragmentKind::Y => seq!['Y'],
            FragmentKind::Oxonium => seq!['o', 'x', 'o', 'n', 'i', 'u', 'm'],
            FragmentKind::immonium => seq!['i', 'm', 'm', 'o', 'n', 'i', 'u', 'm'],
            FragmentKind::m => seq!['m'],
            FragmentKind::diagnostic => seq!['d', 'i', 'a', 'g', 'n', 'o', 's', 't', 'i', 'c'],
            FragmentKind::precursor => seq!['p', 'r', 'e', 'c', 'u', 'r', 's', 'o', 'r'],
        }
    }

    /// The name of the kind.
    pub fn name(&self) -> (r: &'static str)
        ensures
            r@ == self.name_spec(),
    {
        match self {
            FragmentKind::a => {
                proof {
                    reveal_strlit("a");
                }
                "a"
            },
            FragmentKind::b => {
                proof {
                    reveal_strlit("b");
                }
                "b"
            },
            FragmentKind::c => {
                proof {
                    reveal_strlit("c");
                }
                "c"
            },
            FragmentKind::d => {
                proof {
                    reveal_strlit("d");
                }
                "d"
            },
            FragmentKind::v => {
                proof {
                    reveal_strlit("v");
                }
                "v"
            },
            FragmentKind::w => {
                proof {
                    reveal_strlit("w");
                }
                "w"
            },
            FragmentKind::x => {
                proof {
                    reveal_strlit("x");
                }
                "x"
            },
            FragmentKind::y => {
                proof {
                    reveal_strlit("y");
                }
                "y"
            },
            FragmentKind::z => {
                proof {
                    reveal_strlit("z");
                }
                "z"
            },
            FragmentKind::Y => {
                proof {
                    reveal_strlit("Y");
                }
                "Y"
            },
            FragmentKind::Oxonium => {
                proof {
                    reveal_strlit("oxonium");
                }
                "oxonium"
            },
            FragmentKind::immonium => {
                proof {
                    reveal_strlit("immonium");
                }
                "immonium"
            },
            FragmentKind::m => {
                proof {
                    reveal_strlit("m");
                }
                "m"
            },
            FragmentKind::diagnostic => {
                proof {
                    reveal_strlit("diagnostic");
                }
                "diagnostic"
            },
            FragmentKind::precursor => {
                proof {
                    reveal_strlit("precursor");
                }
                "precursor"
            },
        }
    }
}

/// The decimal digits of a series number.
pub open spec fn number_text(n: usize) -> Seq<char> {
    digits(n as nat, NotationStyle::Ascii)
}

impl FragmentType {
    /// The label: the series letter, `i`, `p-s` or `d` with the residue's code for immonium,
    /// side-chain-loss and diagnostic ions, `p` for the precursor.
    pub open spec fn label_spec(self) -> Seq<char> {
        match self {
            FragmentType::a(_) => seq!['a'],
            FragmentType::b(_) => seq!['b'],
            FragmentType::c(_) => seq!['c'],
            FragmentType::d(_) => seq!['d'],
            FragmentType::v(_) => seq!['v'],
            FragmentType::w(_) => seq!['w'],
            FragmentType::x(_) => seq!['x'],
            FragmentType::y(_) => seq!['y'],
            FragmentType::z(_) => seq!['z'],
            FragmentType::z_dot(_) => seq!['z', '\u{B7}'],
            FragmentType::immonium(_, aa) => seq!['i', aa.code()],
            FragmentType::m(_, aa) => seq!['p', '-', 's', aa.code()],
            FragmentType::diagnostic(DiagnosticPosition::Peptide(_, aa)) => seq!['d', aa.code()],
            FragmentType::precursor => seq!['p'],
        }
    }

    /// The label of this fragment type.
    pub fn label(&self) -> (r: String)
        ensures
            r@ == self.label_spec(),
    {
        let mut out = String::new();
        match self {
            FragmentType::a(_) => {
                proof {
                    reveal_strlit("a");
                }
                push_str(&mut out, "a");
            },
            FragmentType::b(_) => {
                proof {
                    reveal_strlit("b");
                }
                push_str(&mut out, "b");
            },
            FragmentType::c(_) => {
                proof {
                    reveal_strlit("c");
                }
                push_str(&mut out, "c");
            },
            FragmentType::d(_) => {
                proof {
                    reveal_strlit("d");
                }
                push_str(&mut out, "d");
            },
            FragmentType::v(_) => {
                proof {
                    reveal_strlit("v");
                }
                push_str(&mut out, "v");
            },
            FragmentType::w(_) => {
                proof {
                    reveal_strlit("w");
                }
                push_str(&mut out, "w");
            },
            FragmentType::x(_) => {
                proof {
                    reveal_strlit("x");
                }
                push_str(&mut out, "x");
            },
            FragmentType::y(_) => {
                proof {
                    reveal_strlit("y");
                }
                push_str(&mut out, "y");
            },
            FragmentType::z(_) => {
                proof {
                    reveal_strlit("z");
                }
                push_str(&mut out, "z");
            },
            FragmentType::z_dot(_) => {
                proof {
                    reveal_strlit("z·");
                }
                push_str(&mut out, "z·");
            },
            FragmentType::immonium(_, aa) => {
                proof {
                    reveal_strlit("i");
                }
                push_str(&mut out, "i");
                push_str(&mut out, aa.code_str());
            },
            FragmentType::m(_, aa) => {
                proof {
                    reveal_strlit("p-s");
                }
                push_str(&mut out, "p-s");
                push_str(&mut out, aa.code_str());
            },
            FragmentType::diagnostic(DiagnosticPosition::Peptide(_, aa)) => {
                proof {
                    reveal_strlit("d");
                }
                push_str(&mut out, "d");
                push_str(&mut out, aa.code_str());
            },
            FragmentType::precursor => {
                proof {
                    reveal_strlit("p");
                }
                push_str(&mut out, "p");
            },
        }
        proof {
            assert(out@ =~= self.label_spec());
        }
        out
    }

    /// The series number as text, unless this is a precursor.
    pub fn position_label(&self) -> (r: Option<String>)
        ensures
            match self.position_spec() {
                Some(p) => r matches Some(s) && s@ == number_text(p.series_number),
                None => r is None,
            },
    {
        match self.position() {
            Some(p) => {
                let mut out = String::new();
                push_digits(&mut out, p.series_number as u64, NotationStyle::Ascii);
                proof {
                    assert(out@ =~= number_text(p.series_number));
                }
                Some(out)
            },
            None => None,
        }
    }

    /// The label followed by the series number, as in `b2` or `iK1`.
    pub fn to_string(&self) -> (r: String)
        ensures
            r@ == self.label_spec() + match self.position_spec() {
                Some(p) => number_text(p.series_number),
                None => Seq::empty(),
            },
    {
        let mut out = self.label();
        match self.position() {
            Some(p) => {
                push_digits(&mut out, p.series_number as u64, NotationStyle::Ascii);
            },
            None => {
                proof {
                    assert(out@ =~= out@ + Seq::<char>::empty());
                }
            },
        }
        out
    }
}

/// A neutral loss (or gain) of a small molecule from a fragment.
#[derive(Debug)]
pub enum NeutralLoss {
    /// The formula is taken off.
    Loss(MolecularFormula),
    /// The formula is added.
    Gain(MolecularFormula),
}

impl View for NeutralLoss {
    /// Whether it is a gain, and the formula.
    type V = (bool, Seq<Entry>);

    open spec fn view(&self) -> (bool, Seq<Entry>) {
        match self {
            NeutralLoss::Loss(f) => (false, f@),
            NeutralLoss::Gain(f) => (true, f@),
        }
    }
}

impl Clone for NeutralLoss {
    fn clone(&self) -> (r: Self)
        ensures
            r@ == self@,
    {
        match self {
            NeutralLoss::Loss(f) => NeutralLoss::Loss(f.clone()),
            NeutralLoss::Gain(f) => NeutralLoss::Gain(f.clone()),
        }
    }
}

impl NeutralLoss {
    pub open spec fn formula_spec(&self) -> MolecularFormula {
        match self {
            NeutralLoss::Loss(f) | NeutralLoss::Gain(f) => *f,
        }
    }

    pub open spec fn is_gain(&self) -> bool {
        self is Gain
    }

    /// A canonical formula of at most `bound` of any element.
    pub open spec fn within(&self, bound: int) -> bool {
        self.formula_spec().wf() && within(self.formula_spec(), bound)
    }

    /// The formula lost or gained.
    pub fn formula(&self) -> (r: &MolecularFormula)
        ensures
            *r == self.formula_spec(),
    {
        match self {
            NeutralLoss::Loss(f) | NeutralLoss::Gain(f) => f,
        }
    }
}

/// The most of any element in a fragment before charge carriers are added.
pub const FRAGMENT_ATOMS: i32 = 0x3FFF_FFFF;

/// With losses `[H2O]`, `with_neutral_losses` gives the fragment at its own mass and one
/// 18.010564684 Da lighter: `r` is its result for such a loss list.
pub proof fn law_water_loss_mass(f: Fragment, losses: Seq<NeutralLoss>, r: Seq<Fragment>)
    requires
        f.formula.wf(),
        within(f.formula, 0x3FFF_FFFF),
        losses.len() == 1,
        crate::model::is_water_loss(losses[0]),
        mass_of_entries(f.formula@, MassMode::Monoisotopic) is Some,
        r.len() == 2,
        r[0]@ == f@,
        lost(f, losses[0], r[1]),
    ensures
        mass_of_entries(r[0].formula@, MassMode::Monoisotopic) == mass_of_entries(f.formula@, MassMode::Monoisotopic),
        mass_of_entries(r[1].formula@, MassMode::Monoisotopic) == Some(
            mass_of_entries(f.formula@, MassMode::Monoisotopic)->0 - 18_010_564_684,
        ),
{
    let w = losses[0].formula_spec();
    let lit: Seq<Entry> = seq![(Element::H, None, 2i32), (Element::O, None, 1i32)];
    assert(lit.drop_last().drop_last() =~= Seq::<Entry>::empty());
    assert forall|e: Element, iso: Option<u16>| #[trigger] count_in(w@, e, iso) == count_in(lit, e, iso) by {
        assert(w.count(e, iso) == count_in(w@, e, iso));
        reveal_with_fuel(count_in, 3);
    }
    crate::formula::lemma_canonical_ext(w@, lit);
    reveal_with_fuel(mass_of_entries, 3);
    assert(mass_of_entries(w@, MassMode::Monoisotopic) == Some(18_010_564_684int));
    assert forall|e: Element, iso: Option<u16>| -2 <= #[trigger] w.count(e, iso) <= 2 by {}
    lemma_sum_within(f.formula, w, 0x3FFF_FFFF, 2);
    crate::formula::law_mass_of_difference(f.formula, w, r[1].formula, MassMode::Monoisotopic);
}

/// A theoretical fragment of a peptide.
#[derive(Debug)]
pub struct Fragment {
    /// The composition, charge carriers included.
    pub formula: MolecularFormula,
    /// The charge.
    pub charge: usize,
    /// The ion type.
    pub ion: FragmentType,
    /// The peptidoform it comes from, as an index into the list of peptidoforms.
    pub peptidoform_index: usize,
    /// The peptide it comes from, as an index into the peptidoform's peptides.
    pub peptide_index: usize,
    /// The neutral loss applied, if any.
    pub neutral_loss: Option<NeutralLoss>,
}

/// A fragment seen as plain values.
pub type FragmentView = (Seq<Entry>, usize, FragmentType, usize, usize, Option<(bool, Seq<Entry>)>);

impl View for Fragment {
    type V = FragmentView;

    open spec fn view(&self) -> FragmentView {
        (
            self.formula@,
            self.charge,
            self.ion,
            self.peptidoform_index,
            self.peptide_index,
            match self.neutral_loss {
                Some(l) => Some(l@),
                None => None,
            },
        )
    }
}

impl Clone for Fragment {
    fn clone(&self) -> (r: Self)
        ensures
            r@ == self@,
    {
        Fragment {
            formula: self.formula.clone(),
            charge: self.charge,
            ion: self.ion,
            peptidoform_index: self.peptidoform_index,
            peptide_index: self.peptide_index,
            neutral_loss: match &self.neutral_loss {
                Some(l) => Some(l.clone()),
                None => None,
            },
        }
    }
}

/// Integer division rounding towards zero.
pub open spec fn div_trunc(a: int, b: int) -> int {
    if a >= 0 {
        a / b
    } else {
        -((-a) / b)
    }
}

/// The m/z of a fragment in nanodaltons per unit charge, rounded towards zero; none
/// when the mass is undefined or the charge is zero.
pub open spec fn fragment_mz(f: Fragment, mode: MassMode) -> Option<int> {
    match mass_of_entries(f.formula@, mode) {
        Some(m) => if f.charge == 0 {
            None
        } else {
            Some(div_trunc(m, f.charge as int))
        },
        None => None,
    }
}

/// `r` is `f` with the charge carriers added to its formula and their charge.
pub open spec fn charged(f: Fragment, charge: MolecularCharge, r: Fragment) -> bool {
    &&& r.formula.wf()
    &&& forall|e: Element, iso: Option<u16>| #[trigger] r.formula.count(e, iso)
        == f.formula.count(e, iso) + carrier_count(charge@, e, iso)
    &&& r.charge == charge.total_charge()
    &&& r.ion == f.ion
    &&& r.peptidoform_index == f.peptidoform_index
    &&& r.peptide_index == f.peptide_index
    &&& r@.5 == f@.5
}

/// `r` is `f` with the loss applied: its formula less the loss (or plus the gain), and
/// the loss recorded.
pub open spec fn lost(f: Fragment, loss: NeutralLoss, r: Fragment) -> bool {
    &&& r.formula.wf()
    &&& if loss.is_gain() {
        sum_of(f.formula, loss.formula_spec(), r.formula)
    } else {
        difference_of(f.formula, loss.formula_spec(), r.formula)
    }
    &&& r.charge == f.charge
    &&& r.ion == f.ion
    &&& r.peptidoform_index == f.peptidoform_index
    &&& r.peptide_index == f.peptide_index
    &&& r@.5 == Some(loss@)
}

/// The most of any element in a part of a fragment given to [`Fragment::generate_all`].
pub const PART_ATOMS: i32 = 0x1000_0000;

/// `r` is the uncharged fragment with formula `term + mass`, the given type and origin,
/// and no loss.
pub open spec fn base_fragment(
    term: MolecularFormula,
    mass: MolecularFormula,
    peptidoform_index: usize,
    peptide_index: usize,
    ion: FragmentType,
    r: Fragment,
) -> bool {
    &&& r.formula.wf()
    &&& sum_of(term, mass, r.formula)
    &&& r.charge == 0
    &&& r.ion == ion
    &&& r.peptidoform_index == peptidoform_index
    &&& r.peptide_index == peptide_index
    &&& r.neutral_loss is None
}

/// `r` has the given type and origin, and a canonical formula of bounded size.
pub open spec fn generated(ion: FragmentType, peptidoform_index: usize, peptide_index: usize, r: Fragment) -> bool {
    &&& r.ion == ion
    &&& r.peptidoform_index == peptidoform_index
    &&& r.peptide_index == peptide_index
    &&& r.formula.wf()
    &&& within(r.formula, 0x3000_0000)
    &&& r.charge == 0
}

/// What loss `l` of the list adds to the count of (e, isotope): nothing for zero, else
/// the formula of loss `l - 1`, taken off for a loss and added for a gain.
pub open spec fn loss_count(losses: Seq<NeutralLoss>, l: int, e: Element, isotope: Option<u16>) -> int {
    if l <= 0 || l > losses.len() {
        0
    } else if losses[l - 1].is_gain() {
        losses[l - 1].formula_spec().count(e, isotope)
    } else {
        -losses[l - 1].formula_spec().count(e, isotope)
    }
}

/// The formula of `f` is a terminus plus an alternative formula, with one of the
/// losses applied or none.
pub open spec fn from_parts(
    termini: Seq<MolecularFormula>,
    masses: Seq<MolecularFormula>,
    losses: Seq<NeutralLoss>,
    f: Fragment,
) -> bool {
    exists|t: int, m: int, l: int| #[trigger] parts_match(termini, masses, losses, f, t, m, l)
}

/// The formula of `f` is terminus t plus alternative m, with loss l applied (none for zero).
pub open spec fn parts_match(
    termini: Seq<MolecularFormula>,
    masses: Seq<MolecularFormula>,
    losses: Seq<NeutralLoss>,
    f: Fragment,
    t: int,
    m: int,
    l: int,
) -> bool {
    &&& 0 <= t < termini.len()
    &&& 0 <= m < masses.len()
    &&& 0 <= l <= losses.len()
    &&& forall|e: Element, iso: Option<u16>| #[trigger] f.formula.count(e, iso) == termini[t].count(e, iso)
        + masses[m].count(e, iso) + loss_count(losses, l, e, iso)
}

/// Every formula of the list is canonical with at most `b` of any element.
pub open spec fn all_within(s: Seq<MolecularFormula>, b: int) -> bool {
    forall|i: int| 0 <= i < s.len() ==> (#[trigger] s[i]).wf() && within(s[i], b)
}

/// Every loss of the list is canonical with at most `b` of any element.
pub open spec fn losses_within(s: Seq<NeutralLoss>, b: int) -> bool {
    forall|i: int| 0 <= i < s.len() ==> (#[trigger] s[i]).within(b)
}

impl Fragment {
    /// A fragment with no neutral loss.
    pub fn new(
        theoretical_mass: MolecularFormula,
        charge: usize,
        peptidoform_index: usize,
        peptide_index: usize,
        ion: FragmentType,
    ) -> (r: Self)
        ensures
            r.formula == theoretical_mass,
            r.charge == charge,
            r.ion == ion,
            r.peptidoform_index == peptidoform_index,
            r.peptide_index == peptide_index,
            r.neutral_loss is None,
    {
        Fragment {
            formula: theoretical_mass,
            charge,
            ion,
            peptidoform_index,
            peptide_index,
            neutral_loss: None,
        }
    }

    /// The m/z in nanodaltons per unit charge.
    pub fn mz(&self, mode: MassMode) -> (r: Option<i128>)
        requires
            self.formula.wf(),
        ensures
            r matches Some(x) ==> fragment_mz(*self, mode) == Some(x as int),
            r matches Some(x) ==> -MASS_LIMIT <= x <= MASS_LIMIT,
            r is None ==> fragment_mz(*self, mode) is None,
    {
        match self.formula.mass(mode) {
            Some(m) => {
                if self.charge == 0 {
                    None
                } else {
                    let c = self.charge as i128;
                    if m >= 0 {
                        proof {
                            let ghost a: int = m as int;
                            assert(a / (c as int) <= a) by (nonlinear_arith)
                                requires a >= 0, c >= 1,
                            {}
                        }
                        Some(m / c)
                    } else {
                        proof {
                            let ghost a: int = -(m as int);
                            assert(a / (c as int) <= a) by (nonlinear_arith)
                                requires a >= 0, c >= 1,
                            {}
                        }
                        Some(-((-m) / c))
                    }
                }
            },
            None => None,
        }
    }

    /// For each terminus (slowest) and each alternative formula: the uncharged fragment of
    /// their sum, followed by its neutral-loss variants in the order of the losses.
    pub fn generate_all(
        theoretical_mass: &Multi,
        peptidoform_index: usize,
        peptide_index: usize,
        annotation: &FragmentType,
        termini: &Multi,
        neutral_losses: &[NeutralLoss],
    ) -> (r: Vec<Self>)
        requires
            all_within(theoretical_mass@, PART_ATOMS as int),
            all_within(termini@, PART_ATOMS as int),
            losses_within(neutral_losses@, PART_ATOMS as int),
            termini@.len() * theoretical_mass@.len() * (neutral_losses@.len() + 1) <= usize::MAX,
        ensures
            r@.len() == termini@.len() * theoretical_mass@.len() * (neutral_losses@.len() + 1),
            forall|t: int, m: int|
                0 <= t < termini@.len() && 0 <= m < theoretical_mass@.len() ==> base_fragment(
                    termini@[t],
                    theoretical_mass@[m],
                    peptidoform_index,
                    peptide_index,
                    *annotation,
                    #[trigger] r@[(t * theoretical_mass@.len() + m) * (neutral_losses@.len() + 1)],
                ),
            forall|t: int, m: int, l: int|
                0 <= t < termini@.len() && 0 <= m < theoretical_mass@.len() && 0 <= l
                    < neutral_losses@.len() ==> lost(
                    r@[(t * theoretical_mass@.len() + m) * (neutral_losses@.len() + 1)],
                    neutral_losses@[l],
                    #[trigger] r@[(t * theoretical_mass@.len() + m) * (neutral_losses@.len() + 1) + l + 1],
                ),
            forall|k: int| 0 <= k < r@.len() ==> generated(*annotation, peptidoform_index, peptide_index, #[trigger] r@[k]),
            forall|k: int| 0 <= k < r@.len() ==> from_parts(termini@, theoretical_mass@, neutral_losses@, #[trigger] r@[k]),
    {
        let ghost tn = termini@.len();
        let mm = theoretical_mass.len();
        let ghost ll = neutral_losses@.len() + 1;
        let terms = termini.alternatives();
        let masses = theoretical_mass.alternatives();
        let mut out: Vec<Fragment> = Vec::new();
        let mut t: usize = 0;
        proof {
            assert(0 * mm * ll == 0) by (nonlinear_arith);
        }
        while t < terms.len()
            invariant
                terms@ == termini@,
                masses@ == theoretical_mass@,
                mm == masses@.len(),
                tn == terms@.len(),
                ll == neutral_losses@.len() + 1,
                tn * mm * ll <= usize::MAX,
                all_within(theoretical_mass@, PART_ATOMS as int),
                all_within(termini@, PART_ATOMS as int),
                losses_within(neutral_losses@, PART_ATOMS as int),
                t <= tn,
                out@.len() == t * mm * ll,
                forall|k: int| 0 <= k < out@.len() ==> generated(*annotation, peptidoform_index, peptide_index, #[trigger] out@[k]),
                forall|k: int| 0 <= k < out@.len() ==> from_parts(termini@, theoretical_mass@, neutral_losses@, #[trigger] out@[k]),
                forall|a: int, b: int|
                    0 <= a < t && 0 <= b < mm ==> base_fragment(
                        termini@[a],
                        theoretical_mass@[b],
                        peptidoform_index,
                        peptide_index,
                        *annotation,
                        #[trigger] out@[(a * mm + b) * ll],
                    ),
                forall|a: int, b: int, l: int|
                    0 <= a < t && 0 <= b < mm && 0 <= l < ll - 1 ==> lost(
                        out@[(a * mm + b) * ll],
                        neutral_losses@[l],
                        #[trigger] out@[(a * mm + b) * ll + l + 1],
                    ),
            decreases tn - t,
        {
            let mut m: usize = 0;
            while m < masses.len()
                invariant
                    terms@ == termini@,
                    masses@ == theoretical_mass@,
                    mm == masses@.len(),
                    tn == terms@.len(),
                    ll == neutral_losses@.len() + 1,
                    tn * mm * ll <= usize::MAX,
                    all_within(theoretical_mass@, PART_ATOMS as int),
                    all_within(termini@, PART_ATOMS as int),
                    losses_within(neutral_losses@, PART_ATOMS as int),
                    t < tn,
                    m <= mm,
                    out@.len() == (t * mm + m) * ll,
                    forall|k: int| 0 <= k < out@.len() ==> generated(*annotation, peptidoform_index, peptide_index, #[trigger] out@[k]),
                    forall|k: int| 0 <= k < out@.len() ==> from_parts(termini@, theoretical_mass@, neutral_losses@, #[trigger] out@[k]),
                forall|k: int| 0 <= k < out@.len() ==> from_parts(termini@, theoretical_mass@, neutral_losses@, #[trigger] out@[k]),
                    forall|a: int, b: int|
                        (0 <= a < t && 0 <= b < mm) || (a == t && 0 <= b < m) ==> base_fragment(
                            termini@[a],
                            theoretical_mass@[b],
                            peptidoform_index,
                            peptide_index,
                            *annotation,
                            #[trigger] out@[(a * mm + b) * ll],
                        ),
                    forall|a: int, b: int, l: int|
                        ((0 <= a < t && 0 <= b < mm) || (a == t && 0 <= b < m)) && 0 <= l < ll - 1 ==> lost(
                            out@[(a * mm + b) * ll],
                            neutral_losses@[l],
                            #[trigger] out@[(a * mm + b) * ll + l + 1],
                        ),
                decreases mm - m,
            {
                proof {
                    assert(termini@[t as int].wf() && within(termini@[t as int], PART_ATOMS as int));
                    assert(theoretical_mass@[m as int].wf() && within(theoretical_mass@[m as int], PART_ATOMS as int));
                    lemma_sum_within(terms@[t as int], masses@[m as int], PART_ATOMS as int, PART_ATOMS as int);
                    assert forall|i: int| 0 <= i < neutral_losses@.len() implies (#[trigger] neutral_losses@[i]).within(0x3FFF_FFFF) by {
                        assert(neutral_losses@[i].within(PART_ATOMS as int));
                    }
                }
                let sum = terms[t].plus(&masses[m]);
                proof {
                    assert(within(sum, 0x2000_0000));
                }
                let base = Fragment::new(sum, 0, peptidoform_index, peptide_index, *annotation);
                let mut variants = base.with_neutral_losses(neutral_losses);
                let ghost before = out@;
                let ghost added = variants@;
                let ghost k0 = (t * mm + m) * ll;
                out.append(&mut variants);
                proof {
                    assert(k0 == before.len());
                    assert forall|k: int| 0 <= k < out@.len() implies generated(*annotation, peptidoform_index, peptide_index, #[trigger] out@[k]) by {
                        if k < before.len() {
                            assert(out@[k] == before[k]);
                        } else {
                            assert(out@[k] == added[k - before.len()]);
                            if k == before.len() {
                                crate::formula::lemma_same_view(out@[k].formula, base.formula);
                            } else {
                                let jj = k - before.len() - 1;
                                assert(lost(base, neutral_losses@[jj], added[jj + 1]));
                                let loss = neutral_losses@[k - before.len() - 1];
                                assert(loss.within(PART_ATOMS as int));
                                lemma_sum_within(base.formula, loss.formula_spec(), 0x2000_0000, PART_ATOMS as int);
                            }
                        }
                    }
                    assert forall|k: int| 0 <= k < out@.len() implies from_parts(termini@, theoretical_mass@, neutral_losses@, #[trigger] out@[k]) by {
                        if k < before.len() {
                            assert(out@[k] == before[k]);
                        } else {
                            let jj = k - before.len();
                            assert(out@[k] == added[jj]);
                            if jj == 0 {
                                crate::formula::lemma_same_view(out@[k].formula, base.formula);
                                assert forall|e: Element, iso: Option<u16>| #[trigger] out@[k].formula.count(e, iso)
                                    == termini@[t as int].count(e, iso) + theoretical_mass@[m as int].count(e, iso)
                                    + loss_count(neutral_losses@, 0, e, iso) by {
                                    assert(out@[k].formula.count(e, iso) == base.formula.count(e, iso));
                                }
                                assert(parts_match(termini@, theoretical_mass@, neutral_losses@, out@[k], t as int, m as int, 0));
                            } else {
                                let l = jj - 1;
                                assert(lost(base, neutral_losses@[l], added[l + 1]));
                                assert forall|e: Element, iso: Option<u16>| #[trigger] out@[k].formula.count(e, iso)
                                    == termini@[t as int].count(e, iso) + theoretical_mass@[m as int].count(e, iso)
                                    + loss_count(neutral_losses@, jj, e, iso) by {
                                    assert(base.formula.count(e, iso) == terms@[t as int].count(e, iso) + masses@[m as int].count(e, iso));
                                }
                                assert(parts_match(termini@, theoretical_mass@, neutral_losses@, out@[k], t as int, m as int, jj));
                            }
                        }
                    }
                    assert((t * mm + m) * ll + ll == (t * mm + m + 1) * ll) by (nonlinear_arith);
                    assert forall|a: int, b: int|
                        (0 <= a < t && 0 <= b < mm) || (a == t && 0 <= b < m + 1) implies base_fragment(
                            termini@[a],
                            theoretical_mass@[b],
                            peptidoform_index,
                            peptide_index,
                            *annotation,
                            #[trigger] out@[(a * mm + b) * ll],
                        ) by {
                        if a == t && b == m {
                            assert(out@[k0] == added[0]);
                            crate::formula::lemma_same_view(out@[k0].formula, base.formula);
                        } else {
                            assert(a * mm + b < t * mm + m) by (nonlinear_arith)
                                requires
                                    (0 <= a < t && 0 <= b < mm) || (a == t && 0 <= b < m),
                            {}
                            assert((a * mm + b) * ll < (t * mm + m) * ll) by (nonlinear_arith)
                                requires a * mm + b < t * mm + m, ll > 0, 0 <= a * mm + b,
                            {}
                            assert(out@[(a * mm + b) * ll] == before[(a * mm + b) * ll]);
                        }
                    }
                    assert forall|a: int, b: int, l: int|
                        ((0 <= a < t && 0 <= b < mm) || (a == t && 0 <= b < m + 1)) && 0 <= l < ll - 1 implies lost(
                            out@[(a * mm + b) * ll],
                            neutral_losses@[l],
                            #[trigger] out@[(a * mm + b) * ll + l + 1],
                        ) by {
                        if a == t && b == m {
                            assert(out@[k0] == added[0]);
                            assert(out@[k0 + l + 1] == added[l + 1]);
                            crate::formula::lemma_same_view(out@[k0].formula, base.formula);
                        } else {
                            assert(a * mm + b < t * mm + m) by (nonlinear_arith)
                                requires
                                    (0 <= a < t && 0 <= b < mm) || (a == t && 0 <= b < m),
                            {}
                            assert((a * mm + b) * ll + ll <= (t * mm + m) * ll) by (nonlinear_arith)
                                requires a * mm + b < t * mm + m, ll > 0, 0 <= a * mm + b,
                            {}
                            assert(out@[(a * mm + b) * ll] == before[(a * mm + b) * ll]);
                            assert(out@[(a * mm + b) * ll + l + 1] == before[(a * mm + b) * ll + l + 1]);
                        }
                    }
                }
                m += 1;
            }
            proof {
                assert((t * mm + mm) * ll == (t + 1) * mm * ll) by (nonlinear_arith);
            }
            t += 1;
        }
        out
    }

    /// A copy with the charge carriers added to the formula, charged as they are.
    pub fn with_charge(&self, charge: &MolecularCharge) -> (r: Self)
        requires
            self.formula.wf(),
            within(self.formula, FRAGMENT_ATOMS as int),
            charge.wf(),
            charge.total_charge() >= 0,
        ensures
            r.formula.wf(),
            forall|e: Element, iso: Option<u16>| #[trigger] r.formula.count(e, iso)
                == self.formula.count(e, iso) + carrier_count(charge@, e, iso),
            r.charge == charge.total_charge(),
            r.ion == self.ion,
            r.peptidoform_index == self.peptidoform_index,
            r.peptide_index == self.peptide_index,
            r@.5 == self@.5,
    {
        let carriers = charge.formula();
        proof {
            lemma_sum_within(self.formula, carriers, FRAGMENT_ATOMS as int, 0x4000_0000int);
        }
        let formula = self.formula.plus(&carriers);
        let c = charge.charge();
        Fragment {
            formula,
            charge: c as usize,
            ion: self.ion,
            peptidoform_index: self.peptidoform_index,
            peptide_index: self.peptide_index,
            neutral_loss: match &self.neutral_loss {
                Some(l) => Some(l.clone()),
                None => None,
            },
        }
    }

    /// A copy with each of the charge states, in order.
    pub fn with_charges(&self, charges: &[MolecularCharge]) -> (r: Vec<Self>)
        requires
            self.formula.wf(),
            within(self.formula, FRAGMENT_ATOMS as int),
            forall|i: int| 0 <= i < charges@.len() ==> (#[trigger] charges@[i]).wf() && charges@[i].total_charge() >= 0,
        ensures
            r@.len() == charges@.len(),
            forall|i: int| 0 <= i < charges@.len() ==> charged(*self, charges@[i], #[trigger] r@[i]),
    {
        let mut out: Vec<Fragment> = Vec::new();
        let mut i: usize = 0;
        while i < charges.len()
            invariant
                self.formula.wf(),
                within(self.formula, FRAGMENT_ATOMS as int),
                forall|i: int| 0 <= i < charges@.len() ==> (#[trigger] charges@[i]).wf() && charges@[i].total_charge() >= 0,
                i <= charges@.len(),
                out@.len() == i,
                forall|k: int| 0 <= k < i ==> charged(*self, charges@[k], #[trigger] out@[k]),
            decreases charges@.len() - i,
        {
            let f = self.with_charge(&charges[i]);
            out.push(f);
            i += 1;
        }
        out
    }

    /// A copy with the neutral loss applied.
    pub fn with_neutral_loss(&self, neutral_loss: &NeutralLoss) -> (r: Self)
        requires
            self.formula.wf(),
            within(self.formula, 0x3FFF_FFFF),
            neutral_loss.within(0x3FFF_FFFF),
        ensures
            lost(*self, *neutral_loss, r),
    {
        let f = neutral_loss.formula();
        proof {
            lemma_sum_within(self.formula, *f, 0x3FFF_FFFFint, 0x3FFF_FFFFint);
        }
        let formula = match neutral_loss {
            NeutralLoss::Gain(_) => self.formula.plus(f),
            NeutralLoss::Loss(_) => self.formula.minus(f),
        };
        Fragment {
            formula,
            charge: self.charge,
            ion: self.ion,
            peptidoform_index: self.peptidoform_index,
            peptide_index: self.peptide_index,
            neutral_loss: Some(neutral_loss.clone()),
        }
    }

    /// A copy of this fragment, then one copy for each neutral loss, in order.
    pub fn with_neutral_losses(&self, neutral_losses: &[NeutralLoss]) -> (r: Vec<Self>)
        requires
            self.formula.wf(),
            within(self.formula, 0x3FFF_FFFF),
            forall|i: int| 0 <= i < neutral_losses@.len() ==> (#[trigger] neutral_losses@[i]).within(0x3FFF_FFFF),
        ensures
            r@.len() == neutral_losses@.len() + 1,
            r@[0]@ == self@,
            forall|i: int| 0 <= i < neutral_losses@.len() ==> lost(*self, neutral_losses@[i], #[trigger] r@[i + 1]),
    {
        let mut out: Vec<Fragment> = Vec::new();
        out.push(self.clone());
        let mut i: usize = 0;
        while i < neutral_losses.len()
            invariant
                self.formula.wf(),
                within(self.formula, 0x3FFF_FFFF),
                forall|i: int| 0 <= i < neutral_losses@.len() ==> (#[trigger] neutral_losses@[i]).within(0x3FFF_FFFF),
                i <= neutral_losses@.len(),
                out@.len() == i + 1,
                out@[0]@ == self@,
                forall|k: int| 0 <= k < i ==> lost(*self, neutral_losses@[k], #[trigger] out@[k + 1]),
            decreases neutral_losses@.len() - i,
        {
            let f = self.with_neutral_loss(&neutral_losses[i]);
            out.push(f);
            i += 1;
        }
        out
    }
}

} // verus!
