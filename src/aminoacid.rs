//! Amino acids: their one-letter codes, formulas and fragmentation chemistry.
use vstd::prelude::*;

use crate::charge::{is_option, is_option_up_to, is_single_option, lemma_option_charge, lemma_single_option_charge, MolecularCharge};
use crate::element::Element;
use crate::formula::{lemma_negation_within, lemma_sum_within, within, MolecularFormula};
use crate::fragment::{
    loss_count, from_parts, parts_match, all_within, generated, losses_within, Fragment, FragmentType, NeutralLoss, PeptidePosition,
    PART_ATOMS,
};
use crate::model::{ions_ok, PossibleIons, MAX_LOSSES};
use crate::multi::{is_cross_sum, Multi};

verus! {

/// An amino acid, including the ambiguous codes B (N or D), J (I or L), Z (Q or E)
/// and the unknown residue X.
#[derive(Clone, Copy, Debug, PartialEq, Eq, Structural, Hash, PartialOrd, Ord)]
pub enum AminoAcid {
    Alanine,
    AmbiguousAsparagine,
    Cysteine,
    AsparticAcid,
    GlutamicAcid,
    Phenylalanine,
    Glycine,
    Histidine,
    Isoleucine,
    AmbiguousLeucine,
    Lysine,
    Leucine,
    Methionine,
    Asparagine,
    Pyrrolysine,
    Proline,
    Glutamine,
    Arginine,
    Serine,
    Threonine,
    Selenocysteine,
    Valine,
    Tryptophan,
    Unknown,
    Tyrosine,
    AmbiguousGlutamine,
}

impl AminoAcid {
    /// The one-letter code.
    pub open spec fn code(self) -> char {
        match self {
            AminoAcid::Alanine => 'A',
            AminoAcid::AmbiguousAsparagine => 'B',
            AminoAcid::Cysteine => 'C',
            AminoAcid::AsparticAcid => 'D',
            AminoAcid::GlutamicAcid => 'E',
            AminoAcid::Phenylalanine => 'F',
            AminoAcid::Glycine => 'G',
            AminoAcid::Histidine => 'H',
            AminoAcid::Isoleucine => 'I',
            AminoAcid::AmbiguousLeucine => 'J',
            AminoAcid::Lysine => 'K',
            AminoAcid::Leucine => 'L',
            AminoAcid::Methionine => 'M',
            AminoAcid::Asparagine => 'N',
            AminoAcid::Pyrrolysine => 'O',
            AminoAcid::Proline => 'P',
            AminoAcid::Glutamine => 'Q',
            AminoAcid::Arginine => 'R',
            AminoAcid::Serine => 'S',
            AminoAcid::Threonine => 'T',
            AminoAcid::Selenocysteine => 'U',
            AminoAcid::Valine => 'V',
            AminoAcid::Tryptophan => 'W',
            AminoAcid::Unknown => 'X',
            AminoAcid::Tyrosine => 'Y',
            AminoAcid::AmbiguousGlutamine => 'Z',
        }
    }

    /// The one-letter code.
    pub fn char(self) -> (r: char)
        ensures
            r == self.code(),
    {
        match self {
            AminoAcid::Alanine => 'A',
            AminoAcid::AmbiguousAsparagine => 'B',
            AminoAcid::Cysteine => 'C',
            AminoAcid::AsparticAcid => 'D',
            AminoAcid::GlutamicAcid => 'E',
            AminoAcid::Phenylalanine => 'F',
            AminoAcid::Glycine => 'G',
            AminoAcid::Histidine => 'H',
            AminoAcid::Isoleucine => 'I',
            AminoAcid::AmbiguousLeucine => 'J',
            AminoAcid::Lysine => 'K',
            AminoAcid::Leucine => 'L',
            AminoAcid::Methionine => 'M',
            AminoAcid::Asparagine => 'N',
            AminoAcid::Pyrrolysine => 'O',
            AminoAcid::Proline => 'P',
            AminoAcid::Glutamine => 'Q',
            AminoAcid::Arginine => 'R',
            AminoAcid::Serine => 'S',
            AminoAcid::Threonine => 'T',
            AminoAcid::Selenocysteine => 'U',
            AminoAcid::Valine => 'V',
            AminoAcid::Tryptophan => 'W',
            AminoAcid::Unknown => 'X',
            AminoAcid::Tyrosine => 'Y',
            AminoAcid::AmbiguousGlutamine => 'Z',
        }
    }

    /// The amino acid of a one-letter code, in either case.
    pub fn from_char(c: char) -> (r: Result<AminoAcid, ()>)
        ensures
            r matches Ok(a) ==> a.code() == upper(c),
            r is Err ==> forall|a: AminoAcid| a.code() != upper(c),
    {
        match c {
            'A' | 'a' => Ok(AminoAcid::Alanine),
            'B' | 'b' => Ok(AminoAcid::AmbiguousAsparagine),
            'C' | 'c' => Ok(AminoAcid::Cysteine),
            'D' | 'd' => Ok(AminoAcid::AsparticAcid),
            'E' | 'e' => Ok(AminoAcid::GlutamicAcid),
            'F' | 'f' => Ok(AminoAcid::Phenylalanine),
            'G' | 'g' => Ok(AminoAcid::Glycine),
            'H' | 'h' => Ok(AminoAcid::Histidine),
            'I' | 'i' => Ok(AminoAcid::Isoleucine),
            'J' | 'j' => Ok(AminoAcid::AmbiguousLeucine),
            'K' | 'k' => Ok(AminoAcid::Lysine),
            'L' | 'l' => Ok(AminoAcid::Leucine),
            'M' | 'm' => Ok(AminoAcid::Methionine),
            'N' | 'n' => Ok(AminoAcid::Asparagine),
            'O' | 'o' => Ok(AminoAcid::Pyrrolysine),
            'P' | 'p' => Ok(AminoAcid::Proline),
            'Q' | 'q' => Ok(AminoAcid::Glutamine),
            'R' | 'r' => Ok(AminoAcid::Arginine),
            'S' | 's' => Ok(AminoAcid::Serine),
            'T' | 't' => Ok(AminoAcid::Threonine),
            'U' | 'u' => Ok(AminoAcid::Selenocysteine),
            'V' | 'v' => Ok(AminoAcid::Valine),
            'W' | 'w' => Ok(AminoAcid::Tryptophan),
            'X' | 'x' => Ok(AminoAcid::Unknown),
            'Y' | 'y' => Ok(AminoAcid::Tyrosine),
            'Z' | 'z' => Ok(AminoAcid::AmbiguousGlutamine),
            _ => Err(()),
        }
    }

    /// The one-letter code as text.
    pub fn code_str(self) -> (r: &'static str)
        ensures
            r@ == seq![self.code()],
    {
        match self {
            AminoAcid::Alanine => {
                proof {
                    reveal_strlit("A");
                }
                "A"
            },
            AminoAcid::AmbiguousAsparagine => {
                proof {
                    reveal_strlit("B");
                }
                "B"
            },
            AminoAcid::Cysteine => {
                proof {
                    reveal_strlit("C");
                }
                "C"
            },
            AminoAcid::AsparticAcid => {
                proof {
                    reveal_strlit("D");
                }
                "D"
            },
            AminoAcid::GlutamicAcid => {
                proof {
                    reveal_strlit("E");
                }
                "E"
            },
            AminoAcid::Phenylalanine => {
                proof {
                    reveal_strlit("F");
                }
                "F"
            },
            AminoAcid::Glycine => {
                proof {
                    reveal_strlit("G");
                }
                "G"
            },
            AminoAcid::Histidine => {
                proof {
                    reveal_strlit("H");
                }
                "H"
            },
            AminoAcid::Isoleucine => {
                proof {
                    reveal_strlit("I");
                }
                "I"
            },
            AminoAcid::AmbiguousLeucine => {
                proof {
                    reveal_strlit("J");
                }
                "J"
            },
            AminoAcid::Lysine => {
                proof {
                    reveal_strlit("K");
                }
                "K"
            },
            AminoAcid::Leucine => {
                proof {
                    reveal_strlit("L");
                }
                "L"
            },
            AminoAcid::Methionine => {
                proof {
                    reveal_strlit("M");
                }
                "M"
            },
            AminoAcid::Asparagine => {
                proof {
                    reveal_strlit("N");
                }
                "N"
            },
            AminoAcid::Pyrrolysine => {
                proof {
                    reveal_strlit("O");
                }
                "O"
            },
            AminoAcid::Proline => {
                proof {
                    reveal_strlit("P");
                }
                "P"
            },
            AminoAcid::Glutamine => {
                proof {
                    reveal_strlit("Q");
                }
                "Q"
            },
            AminoAcid::Arginine => {
                proof {
                    reveal_strlit("R");
                }
                "R"
            },
            AminoAcid::Serine => {
                proof {
                    reveal_strlit("S");
                }
                "S"
            },
            AminoAcid::Threonine => {
                proof {
                    reveal_strlit("T");
                }
                "T"
            },
            AminoAcid::Selenocysteine => {
                proof {
                    reveal_strlit("U");
                }
                "U"
            },
            AminoAcid::Valine => {
                proof {
                    reveal_strlit("V");
                }
                "V"
            },
            AminoAcid::Tryptophan => {
                proof {
                    reveal_strlit("W");
                }
                "W"
            },
            AminoAcid::Unknown => {
                proof {
                    reveal_strlit("X");
                }
                "X"
            },
            AminoAcid::Tyrosine => {
                proof {
                    reveal_strlit("Y");
                }
                "Y"
            },
            AminoAcid::AmbiguousGlutamine => {
                proof {
                    reveal_strlit("Z");
                }
                "Z"
            },
        }
    }

    /// Whether two amino acids may be the same residue: X matches anything, J matches
    /// I and L, B matches N and D, Z matches Q and E.
    pub open spec fn identical_spec(self, rhs: AminoAcid) -> bool {
        ||| self == rhs
        ||| self == AminoAcid::Unknown
        ||| rhs == AminoAcid::Unknown
        ||| self == AminoAcid::AmbiguousLeucine && (rhs == AminoAcid::Leucine || rhs == AminoAcid::Isoleucine)
        ||| rhs == AminoAcid::AmbiguousLeucine && (self == AminoAcid::Leucine || self == AminoAcid::Isoleucine)
        ||| self == AminoAcid::AmbiguousAsparagine && (rhs == AminoAcid::Asparagine || rhs == AminoAcid::AsparticAcid)
        ||| rhs == AminoAcid::AmbiguousAsparagine && (self == AminoAcid::Asparagine || self == AminoAcid::AsparticAcid)
        ||| self == AminoAcid::AmbiguousGlutamine && (rhs == AminoAcid::Glutamine || rhs == AminoAcid::GlutamicAcid)
        ||| rhs == AminoAcid::AmbiguousGlutamine && (self == AminoAcid::Glutamine || self == AminoAcid::GlutamicAcid)
    }

    /// Whether two amino acids may be the same residue.
    pub fn canonical_identical(self, rhs: AminoAcid) -> (r: bool)
        ensures
            r == self.identical_spec(rhs),
    {
        match (self, rhs) {
            (AminoAcid::Unknown, _) | (_, AminoAcid::Unknown) => true,
            (AminoAcid::AmbiguousLeucine, AminoAcid::Leucine | AminoAcid::Isoleucine)
            | (AminoAcid::Leucine | AminoAcid::Isoleucine, AminoAcid::AmbiguousLeucine)
            | (AminoAcid::AmbiguousAsparagine, AminoAcid::Asparagine | AminoAcid::AsparticAcid)
            | (AminoAcid::Asparagine | AminoAcid::AsparticAcid, AminoAcid::AmbiguousAsparagine)
            | (AminoAcid::AmbiguousGlutamine, AminoAcid::Glutamine | AminoAcid::GlutamicAcid)
            | (AminoAcid::Glutamine | AminoAcid::GlutamicAcid, AminoAcid::AmbiguousGlutamine) => true,
            _ => self == rhs,
        }
    }
}

/// Counts of hydrogen, carbon, nitrogen, oxygen, sulfur and selenium.
pub type Composition = (int, int, int, int, int, int);

/// The count of (e, isotope) in a composition: natural isotopes of its six elements only.
pub open spec fn composition_count(c: Composition, e: Element, isotope: Option<u16>) -> int {
    if isotope is Some {
        0
    } else {
        match e {
            Element::H => c.0,
            Element::C => c.1,
            Element::N => c.2,
            Element::O => c.3,
            Element::S => c.4,
            Element::Se => c.5,
            _ => 0,
        }
    }
}

/// `f` is the canonical formula with exactly the counts of `c`.
pub open spec fn has_composition(f: MolecularFormula, c: Composition) -> bool {
    &&& f.wf()
    &&& forall|e: Element, iso: Option<u16>| #[trigger] f.count(e, iso) == composition_count(c, e, iso)
}

/// Each formula of `fs` has the composition at the same place in `cs`.
pub open spec fn has_compositions(fs: Seq<MolecularFormula>, cs: Seq<Composition>) -> bool {
    &&& fs.len() == cs.len()
    &&& forall|i: int| 0 <= i < fs.len() ==> has_composition(#[trigger] fs[i], cs[i])
}

/// Compositions with at most 64 of any element.
pub open spec fn small(cs: Seq<Composition>) -> bool {
    forall|i: int| 0 <= i < cs.len() ==> -64 <= (#[trigger] cs[i]).0 <= 64 && -64 <= cs[i].1 <= 64
        && -64 <= cs[i].2 <= 64 && -64 <= cs[i].3 <= 64 && -64 <= cs[i].4 <= 64 && -64 <= cs[i].5 <= 64
}

/// The formula of a composition.
fn compose(h: i32, c: i32, n: i32, o: i32, s: i32, se: i32) -> (r: MolecularFormula)
    requires
        -64 <= h <= 64, -64 <= c <= 64, -64 <= n <= 64, -64 <= o <= 64, -64 <= s <= 64, -64 <= se <= 64,
    ensures
        has_composition(r, (h as int, c as int, n as int, o as int, s as int, se as int)),
        within(r, 64),
{
    let mut f = MolecularFormula::empty();
    f.add(Element::H, None, h);
    f.add(Element::C, None, c);
    f.add(Element::N, None, n);
    f.add(Element::O, None, o);
    f.add(Element::S, None, s);
    f.add(Element::Se, None, se);
    proof {
        assert forall|e: Element, iso: Option<u16>| #[trigger] f.count(e, iso) == composition_count(
            (h as int, c as int, n as int, o as int, s as int, se as int), e, iso) by {}
    }
    f
}

impl AminoAcid {
    /// The compositions of the residue: one, or two for B and Z.
    pub open spec fn residue_compositions(self) -> Seq<Composition> {
        match self {
            AminoAcid::Alanine => seq![(5, 3, 1, 1, 0, 0)],
            AminoAcid::Arginine => seq![(12, 6, 4, 1, 0, 0)],
            AminoAcid::Asparagine => seq![(6, 4, 2, 2, 0, 0)],
            AminoAcid::AsparticAcid => seq![(5, 4, 1, 3, 0, 0)],
            AminoAcid::AmbiguousAsparagine => seq![(6, 4, 2, 2, 0, 0), (5, 4, 1, 3, 0, 0)],
            AminoAcid::Cysteine => seq![(5, 3, 1, 1, 1, 0)],
            AminoAcid::Glutamine => seq![(8, 5, 2, 2, 0, 0)],
            AminoAcid::GlutamicAcid => seq![(7, 5, 1, 3, 0, 0)],
            AminoAcid::AmbiguousGlutamine => seq![(8, 5, 2, 2, 0, 0), (7, 5, 1, 3, 0, 0)],
            AminoAcid::Glycine => seq![(3, 2, 1, 1, 0, 0)],
            AminoAcid::Histidine => seq![(7, 6, 3, 1, 0, 0)],
            AminoAcid::AmbiguousLeucine => seq![(11, 6, 1, 1, 0, 0)],
            AminoAcid::Isoleucine => seq![(11, 6, 1, 1, 0, 0)],
            AminoAcid::Leucine => seq![(11, 6, 1, 1, 0, 0)],
            AminoAcid::Lysine => seq![(12, 6, 2, 1, 0, 0)],
            AminoAcid::Methionine => seq![(9, 5, 1, 1, 1, 0)],
            AminoAcid::Phenylalanine => seq![(9, 9, 1, 1, 0, 0)],
            AminoAcid::Proline => seq![(7, 5, 1, 1, 0, 0)],
            AminoAcid::Pyrrolysine => seq![(19, 11, 3, 2, 0, 0)],
            AminoAcid::Selenocysteine => seq![(5, 3, 1, 1, 0, 1)],
            AminoAcid::Serine => seq![(5, 3, 1, 2, 0, 0)],
            AminoAcid::Threonine => seq![(7, 4, 1, 2, 0, 0)],
            AminoAcid::Tryptophan => seq![(10, 11, 2, 1, 0, 0)],
            AminoAcid::Tyrosine => seq![(9, 9, 1, 2, 0, 0)],
            AminoAcid::Valine => seq![(9, 5, 1, 1, 0, 0)],
            AminoAcid::Unknown => seq![(0, 0, 0, 0, 0, 0)],
        }
    }

    /// The side chains that satellite ions lose: none (the empty composition) for most.
    pub open spec fn side_chain_compositions(self) -> Seq<Composition> {
        match self {
            AminoAcid::Alanine => seq![(0, 0, 0, 0, 0, 0)],
            AminoAcid::Arginine => seq![(9, 2, 2, 0, 0, 0)],
            AminoAcid::Asparagine => seq![(2, 1, 1, 1, 0, 0)],
            AminoAcid::AsparticAcid => seq![(1, 1, 0, 2, 0, 0)],
            AminoAcid::AmbiguousAsparagine => seq![(2, 1, 1, 1, 0, 0), (1, 1, 0, 2, 0, 0)],
            AminoAcid::Cysteine => seq![(1, 0, 0, 0, 1, 0)],
            AminoAcid::Glutamine => seq![(4, 2, 1, 1, 0, 0)],
            AminoAcid::GlutamicAcid => seq![(3, 2, 0, 2, 0, 0)],
            AminoAcid::AmbiguousGlutamine => seq![(4, 2, 1, 1, 0, 0), (3, 2, 0, 2, 0, 0)],
            AminoAcid::Glycine => seq![(0, 0, 0, 0, 0, 0)],
            AminoAcid::Histidine => seq![(0, 0, 0, 0, 0, 0)],
            AminoAcid::AmbiguousLeucine => seq![(3, 1, 0, 0, 0, 0), (5, 2, 0, 0, 0, 0), (7, 3, 0, 0, 0, 0)],
            AminoAcid::Isoleucine => seq![(3, 1, 0, 0, 0, 0), (5, 2, 0, 0, 0, 0)],
            AminoAcid::Leucine => seq![(7, 3, 0, 0, 0, 0)],
            AminoAcid::Lysine => seq![(8, 3, 1, 0, 0, 0)],
            AminoAcid::Methionine => seq![(5, 2, 0, 0, 1, 0)],
            AminoAcid::Phenylalanine => seq![(0, 0, 0, 0, 0, 0)],
            AminoAcid::Proline => seq![(0, 0, 0, 0, 0, 0)],
            AminoAcid::Pyrrolysine => seq![(15, 9, 2, 1, 0, 0)],
            AminoAcid::Selenocysteine => seq![(0, 0, 0, 0, 0, 1)],
            AminoAcid::Serine => seq![(1, 0, 0, 1, 0, 0)],
            AminoAcid::Threonine => seq![(1, 0, 0, 1, 0, 0), (3, 1, 0, 0, 0, 0)],
            AminoAcid::Tryptophan => seq![(0, 0, 0, 0, 0, 0)],
            AminoAcid::Tyrosine => seq![(0, 0, 0, 0, 0, 0)],
            AminoAcid::Valine => seq![(3, 1, 0, 0, 0, 0)],
            AminoAcid::Unknown => seq![(0, 0, 0, 0, 0, 0)],
        }
    }

    /// The losses (false) and gains (true) of the immonium ion.
    pub open spec fn immonium_loss_compositions(self) -> Seq<(bool, Composition)> {
        match self {
            AminoAcid::Arginine => seq![(true, (0, 2, 0, 2, 0, 0)), (false, (2, 1, 0, 0, 0, 0)), (false, (3, 0, 1, 0, 0, 0)), (false, (3, 1, 1, 0, 0, 0)), (false, (2, 2, 2, 0, 0, 0)), (false, (6, 3, 2, 0, 0, 0)), (false, (5, 1, 3, 0, 0, 0)), (false, (4, 3, 2, -1, 0, 0)), (false, (8, 4, 1, 0, 0, 0)), (false, (10, 4, 2, 0, 0, 0))],
            AminoAcid::Asparagine => seq![(false, (3, 0, 1, 0, 0, 0))],
            AminoAcid::AsparticAcid => seq![(false, (2, 0, 0, 1, 0, 0))],
            AminoAcid::Glutamine => seq![(true, (0, 1, 0, 1, 0, 0)), (false, (3, 0, 1, 0, 0, 0)), (false, (3, 1, 1, 1, 0, 0))],
            AminoAcid::GlutamicAcid => seq![(false, (2, 0, 0, 1, 0, 0))],
            AminoAcid::Histidine => seq![(true, (0, 2, 0, 2, 0, 0)), (true, (0, 1, 0, 1, 0, 0)), (false, (3, 0, 0, -1, 0, 0)), (false, (5, 0, 0, -1, 0, 0)), (false, (2, 1, 1, 0, 0, 0))],
            AminoAcid::AmbiguousLeucine => seq![(false, (2, 1, 0, 0, 0, 0)), (false, (6, 3, 0, 0, 0, 0))],
            AminoAcid::Isoleucine => seq![(false, (2, 1, 0, 0, 0, 0)), (false, (6, 3, 0, 0, 0, 0))],
            AminoAcid::Leucine => seq![(false, (2, 1, 0, 0, 0, 0)), (false, (6, 3, 0, 0, 0, 0))],
            AminoAcid::Lysine => seq![(true, (0, 1, 0, 1, 0, 0)), (false, (1, -2, 1, -1, 0, 0)), (false, (5, 0, 0, -1, 0, 0)), (false, (3, 0, 1, 0, 0, 0)), (false, (5, 1, 1, 0, 0, 0)), (false, (7, 2, 1, 0, 0, 0))],
            AminoAcid::Methionine => seq![(false, (2, 0, 0, 0, 1, 0)), (false, (3, 2, 1, 0, 0, 0)), (false, (4, 1, 0, 0, 1, 0))],
            AminoAcid::Phenylalanine => seq![(true, (0, 2, 0, 2, 0, 0))],
            AminoAcid::Serine => seq![(false, (2, 0, 0, 1, 0, 0))],
            AminoAcid::Threonine => seq![(false, (2, 0, 1, 0, 0, 0))],
            AminoAcid::Tryptophan => seq![(false, (4, 0, 0, -1, 0, 0)), (false, (5, 0, 0, -1, 0, 0)), (false, (1, 1, 1, 0, 0, 0)), (false, (3, 1, 1, 0, 0, 0)), (false, (4, 2, 1, 0, 0, 0)), (false, (6, 4, 2, 0, 0, 0))],
            AminoAcid::Tyrosine => seq![(false, (3, 1, 1, 0, 0, 0)), (false, (3, 1, 1, 1, 0, 0)), (false, (7, 5, 1, 0, 0, 0))],
            AminoAcid::Valine => seq![(false, (1, 1, 0, -1, 0, 0)), (false, (3, 0, 1, 0, 0, 0)), (false, (2, 1, 1, 0, 0, 0)), (false, (5, 1, 1, 0, 0, 0))],
            _ => Seq::empty(),
        }
    }

    /// The possible formulas of the residue.
    pub fn formulas(self) -> (r: Multi)
        ensures
            r.wf(),
            has_compositions(r@, self.residue_compositions()),
            forall|i: int| 0 <= i < r@.len() ==> within(#[trigger] r@[i], 64),
    {
        let mut v: Vec<MolecularFormula> = Vec::new();
        match self {
            AminoAcid::Alanine => {
                v.push(compose(5, 3, 1, 1, 0, 0));
            },
            AminoAcid::Arginine => {
                v.push(compose(12, 6, 4, 1, 0, 0));
            },
            AminoAcid::Asparagine => {
                v.push(compose(6, 4, 2, 2, 0, 0));
            },
            AminoAcid::AsparticAcid => {
                v.push(compose(5, 4, 1, 3, 0, 0));
            },
            AminoAcid::AmbiguousAsparagine => {
                v.push(compose(6, 4, 2, 2, 0, 0));
                v.push(compose(5, 4, 1, 3, 0, 0));
            },
            AminoAcid::Cysteine => {
                v.push(compose(5, 3, 1, 1, 1, 0));
            },
            AminoAcid::Glutamine => {
                v.push(compose(8, 5, 2, 2, 0, 0));
            },
            AminoAcid::GlutamicAcid => {
                v.push(compose(7, 5, 1, 3, 0, 0));
            },
            AminoAcid::AmbiguousGlutamine => {
                v.push(compose(8, 5, 2, 2, 0, 0));
                v.push(compose(7, 5, 1, 3, 0, 0));
            },
            AminoAcid::Glycine => {
                v.push(compose(3, 2, 1, 1, 0, 0));
            },
            AminoAcid::Histidine => {
                v.push(compose(7, 6, 3, 1, 0, 0));
            },
            AminoAcid::AmbiguousLeucine => {
                v.push(compose(11, 6, 1, 1, 0, 0));
            },
            AminoAcid::Isoleucine => {
                v.push(compose(11, 6, 1, 1, 0, 0));
            },
            AminoAcid::Leucine => {
                v.push(compose(11, 6, 1, 1, 0, 0));
            },
            AminoAcid::Lysine => {
                v.push(compose(12, 6, 2, 1, 0, 0));
            },
            AminoAcid::Methionine => {
                v.push(compose(9, 5, 1, 1, 1, 0));
            },
            AminoAcid::Phenylalanine => {
                v.push(compose(9, 9, 1, 1, 0, 0));
            },
            AminoAcid::Proline => {
                v.push(compose(7, 5, 1, 1, 0, 0));
            },
            AminoAcid::Pyrrolysine => {
                v.push(compose(19, 11, 3, 2, 0, 0));
            },
            AminoAcid::Selenocysteine => {
                v.push(compose(5, 3, 1, 1, 0, 1));
            },
            AminoAcid::Serine => {
                v.push(compose(5, 3, 1, 2, 0, 0));
            },
            AminoAcid::Threonine => {
                v.push(compose(7, 4, 1, 2, 0, 0));
            },
            AminoAcid::Tryptophan => {
                v.push(compose(10, 11, 2, 1, 0, 0));
            },
            AminoAcid::Tyrosine => {
                v.push(compose(9, 9, 1, 2, 0, 0));
            },
            AminoAcid::Valine => {
                v.push(compose(9, 5, 1, 1, 0, 0));
            },
            AminoAcid::Unknown => {
                v.push(compose(0, 0, 0, 0, 0, 0));
            },
        }
        proof {
            assert(v@.len() == self.residue_compositions().len());
        }
        Multi::new(v)
    }

    /// The side chains lost in satellite (d and w) ions.
    pub fn satellite_ion_fragments(self) -> (r: Multi)
        ensures
            r.wf(),
            has_compositions(r@, self.side_chain_compositions()),
            forall|i: int| 0 <= i < r@.len() ==> within(#[trigger] r@[i], 64),
    {
        let mut v: Vec<MolecularFormula> = Vec::new();
        match self {
            AminoAcid::Alanine => {
                v.push(compose(0, 0, 0, 0, 0, 0));
            },
            AminoAcid::Arginine => {
                v.push(compose(9, 2, 2, 0, 0, 0));
            },
            AminoAcid::Asparagine => {
                v.push(compose(2, 1, 1, 1, 0, 0));
            },
            AminoAcid::AsparticAcid => {
                v.push(compose(1, 1, 0, 2, 0, 0));
            },
            AminoAcid::AmbiguousAsparagine => {
                v.push(compose(2, 1, 1, 1, 0, 0));
                v.push(compose(1, 1, 0, 2, 0, 0));
            },
            AminoAcid::Cysteine => {
                v.push(compose(1, 0, 0, 0, 1, 0));
            },
            AminoAcid::Glutamine => {
                v.push(compose(4, 2, 1, 1, 0, 0));
            },
            AminoAcid::GlutamicAcid => {
                v.push(compose(3, 2, 0, 2, 0, 0));
            },
            AminoAcid::AmbiguousGlutamine => {
                v.push(compose(4, 2, 1, 1, 0, 0));
                v.push(compose(3, 2, 0, 2, 0, 0));
            },
            AminoAcid::Glycine => {
                v.push(compose(0, 0, 0, 0, 0, 0));
            },
            AminoAcid::Histidine => {
                v.push(compose(0, 0, 0, 0, 0, 0));
            },
            AminoAcid::AmbiguousLeucine => {
                v.push(compose(3, 1, 0, 0, 0, 0));
                v.push(compose(5, 2, 0, 0, 0, 0));
                v.push(compose(7, 3, 0, 0, 0, 0));
            },
            AminoAcid::Isoleucine => {
                v.push(compose(3, 1, 0, 0, 0, 0));
                v.push(compose(5, 2, 0, 0, 0, 0));
            },
            AminoAcid::Leucine => {
                v.push(compose(7, 3, 0, 0, 0, 0));
            },
            AminoAcid::Lysine => {
                v.push(compose(8, 3, 1, 0, 0, 0));
            },
            AminoAcid::Methionine => {
                v.push(compose(5, 2, 0, 0, 1, 0));
            },
            AminoAcid::Phenylalanine => {
                v.push(compose(0, 0, 0, 0, 0, 0));
            },
            AminoAcid::Proline => {
                v.push(compose(0, 0, 0, 0, 0, 0));
            },
            AminoAcid::Pyrrolysine => {
                v.push(compose(15, 9, 2, 1, 0, 0));
            },
            AminoAcid::Selenocysteine => {
                v.push(compose(0, 0, 0, 0, 0, 1));
            },
            AminoAcid::Serine => {
                v.push(compose(1, 0, 0, 1, 0, 0));
            },
            AminoAcid::Threonine => {
                v.push(compose(1, 0, 0, 1, 0, 0));
                v.push(compose(3, 1, 0, 0, 0, 0));
            },
            AminoAcid::Tryptophan => {
                v.push(compose(0, 0, 0, 0, 0, 0));
            },
            AminoAcid::Tyrosine => {
                v.push(compose(0, 0, 0, 0, 0, 0));
            },
            AminoAcid::Valine => {
                v.push(compose(3, 1, 0, 0, 0, 0));
            },
            AminoAcid::Unknown => {
                v.push(compose(0, 0, 0, 0, 0, 0));
            },
        }
        Multi::new(v)
    }

    /// The neutral losses and gains of the immonium ion.
    pub fn immonium_losses(self) -> (r: Vec<NeutralLoss>)
        ensures
            r@.len() == self.immonium_loss_compositions().len(),
            forall|i: int| 0 <= i < r@.len() ==> (#[trigger] r@[i]).is_gain() == self.immonium_loss_compositions()[i].0
                && has_composition(r@[i].formula_spec(), self.immonium_loss_compositions()[i].1)
                && r@[i].within(64),
    {
        let mut v: Vec<NeutralLoss> = Vec::new();
        match self {
            AminoAcid::Arginine => {
                v.push(NeutralLoss::Gain(compose(0, 2, 0, 2, 0, 0)));
                v.push(NeutralLoss::Loss(compose(2, 1, 0, 0, 0, 0)));
                v.push(NeutralLoss::Loss(compose(3, 0, 1, 0, 0, 0)));
                v.push(NeutralLoss::Loss(compose(3, 1, 1, 0, 0, 0)));
                v.push(NeutralLoss::Loss(compose(2, 2, 2, 0, 0, 0)));
                v.push(NeutralLoss::Loss(compose(6, 3, 2, 0, 0, 0)));
                v.push(NeutralLoss::Loss(compose(5, 1, 3, 0, 0, 0)));
                v.push(NeutralLoss::Loss(compose(4, 3, 2, -1, 0, 0)));
                v.push(NeutralLoss::Loss(compose(8, 4, 1, 0, 0, 0)));
                v.push(NeutralLoss::Loss(compose(10, 4, 2, 0, 0, 0)));
            },
            AminoAcid::Asparagine => {
                v.push(NeutralLoss::Loss(compose(3, 0, 1, 0, 0, 0)));
            },
            AminoAcid::AsparticAcid => {
                v.push(NeutralLoss::Loss(compose(2, 0, 0, 1, 0, 0)));
            },
            AminoAcid::Glutamine => {
                v.push(NeutralLoss::Gain(compose(0, 1, 0, 1, 0, 0)));
                v.push(NeutralLoss::Loss(compose(3, 0, 1, 0, 0, 0)));
                v.push(NeutralLoss::Loss(compose(3, 1, 1, 1, 0, 0)));
            },
            AminoAcid::GlutamicAcid => {
                v.push(NeutralLoss::Loss(compose(2, 0, 0, 1, 0, 0)));
            },
            AminoAcid::Histidine => {
                v.push(NeutralLoss::Gain(compose(0, 2, 0, 2, 0, 0)));
                v.push(NeutralLoss::Gain(compose(0, 1, 0, 1, 0, 0)));
                v.push(NeutralLoss::Loss(compose(3, 0, 0, -1, 0, 0)));
                v.push(NeutralLoss::Loss(compose(5, 0, 0, -1, 0, 0)));
                v.push(NeutralLoss::Loss(compose(2, 1, 1, 0, 0, 0)));
            },
            AminoAcid::AmbiguousLeucine => {
                v.push(NeutralLoss::Loss(compose(2, 1, 0, 0, 0, 0)));
                v.push(NeutralLoss::Loss(compose(6, 3, 0, 0, 0, 0)));
            },
            AminoAcid::Isoleucine => {
                v.push(NeutralLoss::Loss(compose(2, 1, 0, 0, 0, 0)));
                v.push(NeutralLoss::Loss(compose(6, 3, 0, 0, 0, 0)));
            },
            AminoAcid::Leucine => {
                v.push(NeutralLoss::Loss(compose(2, 1, 0, 0, 0, 0)));
                v.push(NeutralLoss::Loss(compose(6, 3, 0, 0, 0, 0)));
            },
            AminoAcid::Lysine => {
                v.push(NeutralLoss::Gain(compose(0, 1, 0, 1, 0, 0)));
                v.push(NeutralLoss::Loss(compose(1, -2, 1, -1, 0, 0)));
                v.push(NeutralLoss::Loss(compose(5, 0, 0, -1, 0, 0)));
                v.push(NeutralLoss::Loss(compose(3, 0, 1, 0, 0, 0)));
                v.push(NeutralLoss::Loss(compose(5, 1, 1, 0, 0, 0)));
                v.push(NeutralLoss::Loss(compose(7, 2, 1, 0, 0, 0)));
            },
            AminoAcid::Methionine => {
                v.push(NeutralLoss::Loss(compose(2, 0, 0, 0, 1, 0)));
                v.push(NeutralLoss::Loss(compose(3, 2, 1, 0, 0, 0)));
                v.push(NeutralLoss::Loss(compose(4, 1, 0, 0, 1, 0)));
            },
            AminoAcid::Phenylalanine => {
                v.push(NeutralLoss::Gain(compose(0, 2, 0, 2, 0, 0)));
            },
            AminoAcid::Serine => {
                v.push(NeutralLoss::Loss(compose(2, 0, 0, 1, 0, 0)));
            },
            AminoAcid::Threonine => {
                v.push(NeutralLoss::Loss(compose(2, 0, 1, 0, 0, 0)));
            },
            AminoAcid::Tryptophan => {
                v.push(NeutralLoss::Loss(compose(4, 0, 0, -1, 0, 0)));
                v.push(NeutralLoss::Loss(compose(5, 0, 0, -1, 0, 0)));
                v.push(NeutralLoss::Loss(compose(1, 1, 1, 0, 0, 0)));
                v.push(NeutralLoss::Loss(compose(3, 1, 1, 0, 0, 0)));
                v.push(NeutralLoss::Loss(compose(4, 2, 1, 0, 0, 0)));
                v.push(NeutralLoss::Loss(compose(6, 4, 2, 0, 0, 0)));
            },
            AminoAcid::Tyrosine => {
                v.push(NeutralLoss::Loss(compose(3, 1, 1, 0, 0, 0)));
                v.push(NeutralLoss::Loss(compose(3, 1, 1, 1, 0, 0)));
                v.push(NeutralLoss::Loss(compose(7, 5, 1, 0, 0, 0)));
            },
            AminoAcid::Valine => {
                v.push(NeutralLoss::Loss(compose(1, 1, 0, -1, 0, 0)));
                v.push(NeutralLoss::Loss(compose(3, 0, 1, 0, 0, 0)));
                v.push(NeutralLoss::Loss(compose(2, 1, 1, 0, 0, 0)));
                v.push(NeutralLoss::Loss(compose(5, 1, 1, 0, 0, 0)));
            },
            _ => {},
        }
        v
    }
}

/// The most of any element in a modification given to [`AminoAcid::fragments`].
pub const MODIFICATION_ATOMS: i32 = 0x800_0000;

/// The most alternatives of a terminus or modification given to [`AminoAcid::fragments`].
pub const MAX_ALTERNATIVES: usize = 256;

/// Sums across alternatives within bounds stay within the sum of the bounds.
proof fn lemma_cross_within(a: Seq<MolecularFormula>, b: Seq<MolecularFormula>, r: Seq<MolecularFormula>, x: int, y: int)
    requires
        all_within(a, x),
        all_within(b, y),
        x + y <= i32::MAX,
        forall|k: int| 0 <= k < r.len() ==> (#[trigger] r[k]).wf() && is_cross_sum(a, b, r[k]),
    ensures
        all_within(r, x + y),
{
    assert forall|k: int| 0 <= k < r.len() implies (#[trigger] r[k]).wf() && within(r[k], x + y) by {
        assert(is_cross_sum(a, b, r[k]));
        let (i, j) = choose|i: int, j: int| 0 <= i < a.len() && 0 <= j < b.len() && crate::formula::sum_of(a[i], b[j], r[k]);
        assert(a[i].wf() && within(a[i], x));
        assert(b[j].wf() && within(b[j], y));
        lemma_sum_within(a[i], b[j], x, y);
    }
}

/// The N-terminal position of residue i of L.
pub open spec fn n_position(i: usize, length: usize) -> PeptidePosition {
    PeptidePosition { sequence_index: i, series_number: (i + 1) as usize, sequence_length: length }
}

/// The C-terminal position of residue i of L.
pub open spec fn c_position(i: usize, length: usize) -> PeptidePosition {
    PeptidePosition { sequence_index: i, series_number: (length - i) as usize, sequence_length: length }
}

/// A backbone or satellite ion type that the ions enable, at its position for residue i of L.
pub open spec fn series_allowed(ions: PossibleIons, i: usize, length: usize, ion: FragmentType) -> bool {
    match ion {
        FragmentType::a(q) => ions.a.0 && q == n_position(i, length),
        FragmentType::b(q) => ions.b.0 && q == n_position(i, length),
        FragmentType::c(q) => ions.c.0 && q == n_position(i, length),
        FragmentType::d(q) => ions.d.0 && q == n_position(i, length),
        FragmentType::v(q) => ions.v.0 && q == n_position(i, length),
        FragmentType::w(q) => ions.w.0 && q == c_position(i, length),
        FragmentType::x(q) => ions.x.0 && q == c_position(i, length),
        FragmentType::y(q) => ions.y.0 && q == c_position(i, length),
        FragmentType::z(q) => ions.z.0 && q == c_position(i, length),
        FragmentType::z_dot(q) => ions.z.0 && q == c_position(i, length),
        _ => false,
    }
}

/// A fragment that [`AminoAcid::fragments`] may give for residue `aa` at i of L: an
/// enabled series at its position with a charge from one to the carriers' total, or an
/// immonium ion of this residue with charge one.
pub open spec fn fragment_allowed(
    aa: AminoAcid,
    ions: PossibleIons,
    i: usize,
    length: usize,
    peptidoform_index: usize,
    peptide_index: usize,
    total_charge: int,
    f: Fragment,
) -> bool {
    &&& f.formula.wf()
    &&& f.peptidoform_index == peptidoform_index
    &&& f.peptide_index == peptide_index
    &&& match f.ion {
        FragmentType::immonium(q, b) => ions.immonium && q == n_position(i, length) && b == aa
            && f.charge == 1,
        _ => series_allowed(ions, i, length, f.ion) && 1 <= f.charge <= total_charge,
    }
}

/// The number of uncharged fragments of the enabled a, b, c, d and v series for residue
/// `aa`, with `n_terms` and `c_terms` alternative termini and `mods` alternative modifications.
pub open spec fn base_count_first(aa: AminoAcid, ions: PossibleIons, n_terms: int, c_terms: int, mods: int) -> int {
    let backbone = aa.residue_compositions().len() * mods;
    let satellite = aa.side_chain_compositions().len() * aa.residue_compositions().len();
    (if ions.a.0 { n_terms * backbone * (ions.a.1@.len() + 1) } else { 0 })
        + (if ions.b.0 { n_terms * backbone * (ions.b.1@.len() + 1) } else { 0 })
        + (if ions.c.0 { n_terms * backbone * (ions.c.1@.len() + 1) } else { 0 })
        + (if ions.d.0 { n_terms * satellite * (ions.d.1@.len() + 1) } else { 0 })
        + (if ions.v.0 { c_terms * 1 * (ions.v.1@.len() + 1) } else { 0 })
}

/// The number of uncharged fragments of the enabled w, x, y, z and z· series.
pub open spec fn base_count_second(aa: AminoAcid, ions: PossibleIons, c_terms: int, mods: int) -> int {
    let backbone = aa.residue_compositions().len() * mods;
    let satellite = aa.side_chain_compositions().len() * aa.residue_compositions().len();
    (if ions.w.0 { c_terms * satellite * (ions.w.1@.len() + 1) } else { 0 })
        + (if ions.x.0 { c_terms * backbone * (ions.x.1@.len() + 1) } else { 0 })
        + (if ions.y.0 { c_terms * backbone * (ions.y.1@.len() + 1) } else { 0 })
        + (if ions.z.0 { 2 * (c_terms * backbone * (ions.z.1@.len() + 1)) } else { 0 })
}

/// The number of uncharged fragments of the enabled series.
pub open spec fn base_count(aa: AminoAcid, ions: PossibleIons, n_terms: int, c_terms: int, mods: int) -> int {
    base_count_first(aa, ions, n_terms, c_terms, mods) + base_count_second(aa, ions, c_terms, mods)
}

/// The number of immonium fragments, before charging, of residue `aa` with `mods`
/// alternative modifications.
pub open spec fn immonium_count(aa: AminoAcid, mods: int) -> int {
    aa.residue_compositions().len() * mods * (aa.immonium_loss_compositions().len() + 1)
}

/// A composition, negated unless `gain`.
pub open spec fn signed(c: Composition, gain: bool) -> Composition {
    if gain {
        c
    } else {
        (-c.0, -c.1, -c.2, -c.3, -c.4, -c.5)
    }
}

/// `mf` is residue formula r plus modification m plus `delta`.
pub open spec fn backbone_match(aa: AminoAcid, mods: Seq<MolecularFormula>, delta: Composition, mf: MolecularFormula, r: int, m: int) -> bool {
    &&& 0 <= r < aa.residue_compositions().len()
    &&& 0 <= m < mods.len()
    &&& forall|e: Element, iso: Option<u16>| #[trigger] mf.count(e, iso) == composition_count(aa.residue_compositions()[r], e, iso)
        + mods[m].count(e, iso) + composition_count(delta, e, iso)
}

/// `mf` is a residue formula plus a modification plus `delta`.
pub open spec fn backbone_alt(aa: AminoAcid, mods: Seq<MolecularFormula>, delta: Composition, mf: MolecularFormula) -> bool {
    exists|r: int, m: int| #[trigger] backbone_match(aa, mods, delta, mf, r, m)
}

/// `mf` is residue formula r less side chain s plus `delta`.
pub open spec fn satellite_match(aa: AminoAcid, delta: Composition, mf: MolecularFormula, s: int, r: int) -> bool {
    &&& 0 <= s < aa.side_chain_compositions().len()
    &&& 0 <= r < aa.residue_compositions().len()
    &&& forall|e: Element, iso: Option<u16>| #[trigger] mf.count(e, iso) == composition_count(aa.residue_compositions()[r], e, iso)
        - composition_count(aa.side_chain_compositions()[s], e, iso) + composition_count(delta, e, iso)
}

/// `mf` is a residue formula less one of its side chains plus `delta`.
pub open spec fn satellite_alt(aa: AminoAcid, delta: Composition, mf: MolecularFormula) -> bool {
    exists|s: int, r: int| #[trigger] satellite_match(aa, delta, mf, s, r)
}

/// The alternative formulas of a series: backbone (kind 0), satellite (kind 1), or the
/// fixed composition `delta` (any other kind).
pub open spec fn alt_ok(aa: AminoAcid, mods: Seq<MolecularFormula>, kind: u8, delta: Composition, mf: MolecularFormula) -> bool {
    if kind == 0 {
        backbone_alt(aa, mods, delta, mf)
    } else if kind == 1 {
        satellite_alt(aa, delta, mf)
    } else {
        forall|e: Element, iso: Option<u16>| #[trigger] mf.count(e, iso) == composition_count(delta, e, iso)
    }
}

/// The formula of `f` is terminus t plus an alternative `mf` of the series with loss l.
pub open spec fn shape_match(
    f: Fragment,
    termini: Seq<MolecularFormula>,
    aa: AminoAcid,
    mods: Seq<MolecularFormula>,
    kind: u8,
    delta: Composition,
    losses: Seq<NeutralLoss>,
    t: int,
    mf: MolecularFormula,
    l: int,
) -> bool {
    &&& 0 <= t < termini.len()
    &&& alt_ok(aa, mods, kind, delta, mf)
    &&& 0 <= l <= losses.len()
    &&& forall|e: Element, iso: Option<u16>| #[trigger] f.formula.count(e, iso) == termini[t].count(e, iso)
        + mf.count(e, iso) + loss_count(losses, l, e, iso)
}

/// The formula of `f` is a terminus plus an alternative of the series, with one of the
/// losses applied or none.
pub open spec fn shaped(
    f: Fragment,
    termini: Seq<MolecularFormula>,
    aa: AminoAcid,
    mods: Seq<MolecularFormula>,
    kind: u8,
    delta: Composition,
    losses: Seq<NeutralLoss>,
) -> bool {
    exists|t: int, mf: MolecularFormula, l: int| #[trigger] shape_match(f, termini, aa, mods, kind, delta, losses, t, mf, l)
}

/// The uncharged formula of a fragment of residue `aa`, by its series: the terminus (N for
/// a, b, c, d; C for v, w, x, y, z, z·), the series' alternative formula, and a loss of
/// the series or none. The offsets are a: -CHO, b: -H, c: +NH2, x: +CO-H, y: +H, z: -NH2,
/// z·: -NH on residue plus modification; d: +CHO and w: +NH2 on residue less side chain;
/// v: C2H3NO.
pub open spec fn base_formula_ok(
    aa: AminoAcid,
    ions: PossibleIons,
    n_term: Seq<MolecularFormula>,
    c_term: Seq<MolecularFormula>,
    mods: Seq<MolecularFormula>,
    f: Fragment,
) -> bool {
    match f.ion {
        FragmentType::a(_) => shaped(f, n_term, aa, mods, 0, (-1, -1, 0, -1, 0, 0), ions.a.1@),
        FragmentType::b(_) => shaped(f, n_term, aa, mods, 0, (-1, 0, 0, 0, 0, 0), ions.b.1@),
        FragmentType::c(_) => shaped(f, n_term, aa, mods, 0, (2, 0, 1, 0, 0, 0), ions.c.1@),
        FragmentType::d(_) => shaped(f, n_term, aa, mods, 1, (1, 1, 0, 1, 0, 0), ions.d.1@),
        FragmentType::v(_) => shaped(f, c_term, aa, mods, 2, (3, 2, 1, 1, 0, 0), ions.v.1@),
        FragmentType::w(_) => shaped(f, c_term, aa, mods, 1, (2, 0, 1, 0, 0, 0), ions.w.1@),
        FragmentType::x(_) => shaped(f, c_term, aa, mods, 0, (-1, 1, 0, 1, 0, 0), ions.x.1@),
        FragmentType::y(_) => shaped(f, c_term, aa, mods, 0, (1, 0, 0, 0, 0, 0), ions.y.1@),
        FragmentType::z(_) => shaped(f, c_term, aa, mods, 0, (-2, 0, -1, 0, 0, 0), ions.z.1@),
        FragmentType::z_dot(_) => shaped(f, c_term, aa, mods, 0, (-1, 0, -1, 0, 0, 0), ions.z.1@),
        _ => false,
    }
}

/// `f` is uncharged fragment `b` with the carriers of option `o` added.
pub open spec fn charged_match(
    aa: AminoAcid,
    ions: PossibleIons,
    n_term: Seq<MolecularFormula>,
    c_term: Seq<MolecularFormula>,
    mods: Seq<MolecularFormula>,
    carriers: Seq<(isize, MolecularFormula)>,
    total: int,
    f: Fragment,
    b: Fragment,
    o: MolecularCharge,
) -> bool {
    &&& base_formula_ok(aa, ions, n_term, c_term, mods, b)
    &&& b.ion == f.ion
    &&& is_option_up_to(carriers, crate::charge::deep(o@), total)
    &&& forall|e: Element, iso: Option<u16>| #[trigger] f.formula.count(e, iso) == b.formula.count(e, iso)
        + crate::charge::carrier_count(o@, e, iso)
}

/// The formula of a charged series fragment: an uncharged one plus the carriers of one of
/// the charge options.
pub open spec fn charged_formula_ok(
    aa: AminoAcid,
    ions: PossibleIons,
    n_term: Seq<MolecularFormula>,
    c_term: Seq<MolecularFormula>,
    mods: Seq<MolecularFormula>,
    carriers: Seq<(isize, MolecularFormula)>,
    total: int,
    f: Fragment,
) -> bool {
    exists|b: Fragment, o: MolecularCharge| #[trigger] charged_match(aa, ions, n_term, c_term, mods, carriers, total, f, b, o)
}

/// What immonium loss l adds: nothing for zero, else the composition of loss `l - 1`,
/// taken off for a loss and added for a gain.
pub open spec fn immonium_loss_count(aa: AminoAcid, l: int, e: Element, iso: Option<u16>) -> int {
    if l <= 0 || l > aa.immonium_loss_compositions().len() {
        0
    } else if aa.immonium_loss_compositions()[l - 1].0 {
        composition_count(aa.immonium_loss_compositions()[l - 1].1, e, iso)
    } else {
        -composition_count(aa.immonium_loss_compositions()[l - 1].1, e, iso)
    }
}

/// The formula of `f` is alternative `mf` (residue plus modification less CO), with
/// immonium loss l, plus the carriers of single-charge option `o`.
pub open spec fn immonium_match(
    aa: AminoAcid,
    mods: Seq<MolecularFormula>,
    carriers: Seq<(isize, MolecularFormula)>,
    f: Fragment,
    mf: MolecularFormula,
    l: int,
    o: MolecularCharge,
) -> bool {
    &&& backbone_alt(aa, mods, (0, -1, 0, -1, 0, 0), mf)
    &&& 0 <= l <= aa.immonium_loss_compositions().len()
    &&& is_single_option(carriers, crate::charge::deep(o@))
    &&& forall|e: Element, iso: Option<u16>| #[trigger] f.formula.count(e, iso) == mf.count(e, iso)
        + immonium_loss_count(aa, l, e, iso) + crate::charge::carrier_count(o@, e, iso)
}

/// The formula of an immonium fragment: residue plus modification less CO, with one of the
/// immonium losses or none, plus the carriers of a single-charge option.
pub open spec fn immonium_formula_ok(
    aa: AminoAcid,
    mods: Seq<MolecularFormula>,
    carriers: Seq<(isize, MolecularFormula)>,
    f: Fragment,
) -> bool {
    exists|mf: MolecularFormula, l: int, o: MolecularCharge| #[trigger] immonium_match(aa, mods, carriers, f, mf, l, o)
}

/// The formula of a fragment of [`AminoAcid::fragments`]: an immonium one as
/// [`immonium_formula_ok`] says, any other as [`charged_formula_ok`] says.
pub open spec fn fragment_formula_ok(
    aa: AminoAcid,
    ions: PossibleIons,
    n_term: Seq<MolecularFormula>,
    c_term: Seq<MolecularFormula>,
    mods: Seq<MolecularFormula>,
    carriers: Seq<(isize, MolecularFormula)>,
    total: int,
    f: Fragment,
) -> bool {
    match f.ion {
        FragmentType::immonium(_, _) => immonium_formula_ok(aa, mods, carriers, f),
        _ => charged_formula_ok(aa, ions, n_term, c_term, mods, carriers, total, f),
    }
}

/// Uncharged fragments of enabled series for residue i of L.
pub open spec fn base_allowed(ions: PossibleIons, i: usize, length: usize, peptidoform_index: usize, peptide_index: usize, f: Fragment) -> bool {
    generated(f.ion, peptidoform_index, peptide_index, f) && series_allowed(ions, i, length, f.ion)
}

impl AminoAcid {
    /// The residue's formulas, each plus (or less) `delta`, crossed with the modifications.
    fn backbone(self, modifications: &Multi, delta: &MolecularFormula, gain: bool, Ghost(c): Ghost<Composition>) -> (r: Multi)
        requires
            has_composition(*delta, c),
            all_within(modifications@, MODIFICATION_ATOMS as int),
            modifications@.len() <= MAX_ALTERNATIVES,
            delta.wf(),
            within(*delta, 64),
        ensures
            all_within(r@, PART_ATOMS as int),
            r@.len() <= 3 * MAX_ALTERNATIVES,
            r@.len() == self.residue_compositions().len() * modifications@.len(),
            r.wf(),
            forall|k: int| 0 <= k < r@.len() ==> backbone_alt(self, modifications@, signed(c, gain), #[trigger] r@[k]),
    {
        proof {
            assert forall|i: int| 0 <= i < modifications@.len() implies crate::formula::sum_fits(#[trigger] modifications@[i], *delta)
                && crate::formula::difference_fits(modifications@[i], *delta) by {
                lemma_sum_within(modifications@[i], *delta, MODIFICATION_ATOMS as int, 64);
            }
        }
        let shifted = if gain {
            modifications.plus_formula(delta)
        } else {
            modifications.minus_formula(delta)
        };
        proof {
            assert forall|i: int| 0 <= i < shifted@.len() implies (#[trigger] shifted@[i]).wf() && within(shifted@[i], MODIFICATION_ATOMS + 64) by {
                lemma_sum_within(modifications@[i], *delta, MODIFICATION_ATOMS as int, 64);
            }
        }
        let residue = self.formulas();
        proof {
            assert(residue@.len() <= 3);
            assert forall|i: int, j: int| 0 <= i < residue@.len() && 0 <= j < shifted@.len() implies crate::formula::sum_fits(
                #[trigger] residue@[i], #[trigger] shifted@[j]) by {
                lemma_sum_within(residue@[i], shifted@[j], 64, MODIFICATION_ATOMS + 64);
            }
            assert(residue@.len() * shifted@.len() <= 3 * 256) by (nonlinear_arith)
                requires residue@.len() <= 3, shifted@.len() <= 256,
            {}
        }
        let r = residue.cross(&shifted);
        proof {
            lemma_cross_within(residue@, shifted@, r@, 64, MODIFICATION_ATOMS + 64);
            assert forall|k: int| 0 <= k < r@.len() implies backbone_alt(self, modifications@, signed(c, gain), #[trigger] r@[k]) by {
                assert(is_cross_sum(residue@, shifted@, r@[k]));
                let (i, j) = choose|i: int, j: int| 0 <= i < residue@.len() && 0 <= j < shifted@.len() && crate::formula::sum_of(residue@[i], shifted@[j], r@[k]);
                assert(has_composition(residue@[i], self.residue_compositions()[i]));
                assert forall|e: Element, iso: Option<u16>| #[trigger] r@[k].count(e, iso) == composition_count(self.residue_compositions()[i], e, iso)
                    + modifications@[j].count(e, iso) + composition_count(signed(c, gain), e, iso) by {
                    assert(r@[k].count(e, iso) == residue@[i].count(e, iso) + shifted@[j].count(e, iso));
                    assert(delta.count(e, iso) == composition_count(c, e, iso));
                }
                assert(backbone_match(self, modifications@, signed(c, gain), r@[k], i, j));
            }
        }
        r
    }

    /// The residue's formulas less a side chain, plus `delta`.
    fn satellite(self, delta: &MolecularFormula, Ghost(c): Ghost<Composition>) -> (r: Multi)
        requires
            has_composition(*delta, c),
            delta.wf(),
            within(*delta, 64),
        ensures
            all_within(r@, PART_ATOMS as int),
            r@.len() <= 9,
            r@.len() == self.side_chain_compositions().len() * self.residue_compositions().len(),
            r.wf(),
            forall|k: int| 0 <= k < r@.len() ==> satellite_alt(self, c, #[trigger] r@[k]),
    {
        let sides = self.satellite_ion_fragments();
        proof {
            assert forall|i: int| 0 <= i < sides@.len() implies crate::formula::scaled_fits(#[trigger] sides@[i], -1) by {
                lemma_negation_within(sides@[i], 64);
            }
        }
        let negated = sides.negated();
        let residue = self.formulas();
        proof {
            assert forall|i: int| 0 <= i < negated@.len() implies (#[trigger] negated@[i]).wf() && within(negated@[i], 64) by {
                lemma_negation_within(sides@[i], 64);
            }
            assert forall|i: int, j: int| 0 <= i < negated@.len() && 0 <= j < residue@.len() implies crate::formula::sum_fits(
                #[trigger] negated@[i], #[trigger] residue@[j]) by {
                lemma_sum_within(negated@[i], residue@[j], 64, 64);
            }
            assert(negated@.len() * residue@.len() <= 9) by (nonlinear_arith)
                requires negated@.len() <= 3, residue@.len() <= 3,
            {}
        }
        let crossed = negated.cross(&residue);
        proof {
            lemma_cross_within(negated@, residue@, crossed@, 64, 64);
            assert forall|i: int| 0 <= i < crossed@.len() implies crate::formula::sum_fits(#[trigger] crossed@[i], *delta) by {
                lemma_sum_within(crossed@[i], *delta, 128, 64);
            }
        }
        let r = crossed.plus_formula(delta);
        proof {
            assert forall|i: int| 0 <= i < r@.len() implies (#[trigger] r@[i]).wf() && within(r@[i], PART_ATOMS as int) by {
                lemma_sum_within(crossed@[i], *delta, 128, 64);
            }
            assert forall|k: int| 0 <= k < r@.len() implies satellite_alt(self, c, #[trigger] r@[k]) by {
                assert(is_cross_sum(negated@, residue@, crossed@[k]));
                let (s, i) = choose|s: int, i: int| 0 <= s < negated@.len() && 0 <= i < residue@.len() && crate::formula::sum_of(negated@[s], residue@[i], crossed@[k]);
                assert(has_composition(residue@[i], self.residue_compositions()[i]));
                assert(has_composition(sides@[s], self.side_chain_compositions()[s]));
                assert forall|e: Element, iso: Option<u16>| #[trigger] r@[k].count(e, iso) == composition_count(self.residue_compositions()[i], e, iso)
                    - composition_count(self.side_chain_compositions()[s], e, iso) + composition_count(c, e, iso) by {
                    assert(r@[k].count(e, iso) == crossed@[k].count(e, iso) + delta.count(e, iso));
                    assert(crossed@[k].count(e, iso) == negated@[s].count(e, iso) + residue@[i].count(e, iso));
                    assert(negated@[s].count(e, iso) == sides@[s].count(e, iso) * -1);
                }
                assert(satellite_match(self, c, r@[k], s, i));
            }
        }
        r
    }
}

/// Appends the uncharged fragments of one series.
fn add_series(
    base: &mut Vec<Fragment>,
    formulas: &Multi,
    ion: FragmentType,
    termini: &Multi,
    losses: &Vec<NeutralLoss>,
    peptidoform_index: usize,
    peptide_index: usize,
    Ghost(ions): Ghost<PossibleIons>,
    Ghost(i): Ghost<usize>,
    Ghost(length): Ghost<usize>,
    Ghost(aa): Ghost<AminoAcid>,
    Ghost(n_terms): Ghost<Seq<MolecularFormula>>,
    Ghost(c_terms): Ghost<Seq<MolecularFormula>>,
    Ghost(mods): Ghost<Seq<MolecularFormula>>,
    Ghost(kind): Ghost<u8>,
    Ghost(delta): Ghost<Composition>,
)
    requires
        forall|k: int| 0 <= k < old(base)@.len() ==> base_allowed(ions, i, length, peptidoform_index, peptide_index, #[trigger] old(base)@[k]),
        forall|k: int| 0 <= k < old(base)@.len() ==> base_formula_ok(aa, ions, n_terms, c_terms, mods, #[trigger] old(base)@[k]),
        forall|k: int| 0 <= k < formulas@.len() ==> alt_ok(aa, mods, kind, delta, #[trigger] formulas@[k]),
        forall|f: Fragment| f.ion == ion && #[trigger] shaped(f, termini@, aa, mods, kind, delta, losses@)
            ==> base_formula_ok(aa, ions, n_terms, c_terms, mods, f),
        series_allowed(ions, i, length, ion),
        all_within(formulas@, PART_ATOMS as int),
        formulas@.len() <= 3 * MAX_ALTERNATIVES,
        all_within(termini@, PART_ATOMS as int),
        termini@.len() <= MAX_ALTERNATIVES,
        losses_within(losses@, PART_ATOMS as int),
        losses@.len() <= MAX_LOSSES,
    ensures
        forall|k: int| 0 <= k < final(base)@.len() ==> base_allowed(ions, i, length, peptidoform_index, peptide_index, #[trigger] final(base)@[k]),
        forall|k: int| 0 <= k < final(base)@.len() ==> base_formula_ok(aa, ions, n_terms, c_terms, mods, #[trigger] final(base)@[k]),
        final(base)@.len() == old(base)@.len() + termini@.len() * formulas@.len() * (losses@.len() + 1),
{
    proof {
        assert(termini@.len() * formulas@.len() * (losses@.len() + 1) <= 256 * 768 * 256) by (nonlinear_arith)
            requires termini@.len() <= 256, formulas@.len() <= 768, losses@.len() + 1 <= 256,
        {}
    }
    let mut more = Fragment::generate_all(formulas, peptidoform_index, peptide_index, &ion, termini, losses.as_slice());
    let ghost before = base@;
    let ghost added = more@;
    base.append(&mut more);
    proof {
        assert forall|k: int| 0 <= k < base@.len() implies base_allowed(ions, i, length, peptidoform_index, peptide_index, #[trigger] base@[k]) by {
            if k < before.len() {
                assert(base@[k] == before[k]);
            } else {
                assert(base@[k] == added[k - before.len()]);
                assert(generated(ion, peptidoform_index, peptide_index, added[k - before.len()]));
            }
        }
        assert forall|k: int| 0 <= k < base@.len() implies base_formula_ok(aa, ions, n_terms, c_terms, mods, #[trigger] base@[k]) by {
            if k < before.len() {
                assert(base@[k] == before[k]);
            } else {
                let x = added[k - before.len()];
                assert(base@[k] == x);
                assert(from_parts(termini@, formulas@, losses@, x));
                let (t, m, l) = choose|t: int, m: int, l: int| #[trigger] parts_match(termini@, formulas@, losses@, x, t, m, l);
                assert(shape_match(x, termini@, aa, mods, kind, delta, losses@, t, formulas@[m], l));
                assert(shaped(x, termini@, aa, mods, kind, delta, losses@));
            }
        }
    }
}

impl AminoAcid {
    /// The uncharged fragments of the enabled a, b, c, d and v series.
    #[verifier::rlimit(100)]
    fn base_fragments_first(
        self,
        n_term: &Multi,
        c_term: &Multi,
        modifications: &Multi,
        sequence_index: usize,
        sequence_length: usize,
        ions: &PossibleIons,
        peptidoform_index: usize,
        peptide_index: usize,
    ) -> (base: Vec<Fragment>)
        requires
            all_within(n_term@, PART_ATOMS as int),
            all_within(c_term@, PART_ATOMS as int),
            n_term@.len() <= MAX_ALTERNATIVES,
            c_term@.len() <= MAX_ALTERNATIVES,
            all_within(modifications@, MODIFICATION_ATOMS as int),
            modifications@.len() <= MAX_ALTERNATIVES,
            sequence_index < sequence_length,
            ions_ok(*ions),
        ensures
            forall|k: int| 0 <= k < base@.len() ==> base_allowed(*ions, sequence_index, sequence_length, peptidoform_index, peptide_index, #[trigger] base@[k]),
            base@.len() == base_count_first(self, *ions, n_term@.len() as int, c_term@.len() as int, modifications@.len() as int),
            forall|k: int| 0 <= k < base@.len() ==> base_formula_ok(self, *ions, n_term@, c_term@, modifications@, #[trigger] base@[k]),
    {
        let i = sequence_index;
        let len = sequence_length;
        let ghost g = *ions;
        let n_pos = PeptidePosition::n(i, len);
        let mut base: Vec<Fragment> = Vec::new();
        if ions.a.0 {
            let f = self.backbone(modifications, &compose(1, 1, 0, 1, 0, 0), false, Ghost((1, 1, 0, 1, 0, 0)));
            add_series(&mut base, &f, FragmentType::a(n_pos), n_term, &ions.a.1, peptidoform_index, peptide_index, Ghost(g), Ghost(i), Ghost(len), Ghost(self), Ghost(n_term@), Ghost(c_term@), Ghost(modifications@), Ghost(0u8), Ghost((-1, -1, 0, -1, 0, 0)));
        }
        if ions.b.0 {
            let f = self.backbone(modifications, &compose(1, 0, 0, 0, 0, 0), false, Ghost((1, 0, 0, 0, 0, 0)));
            add_series(&mut base, &f, FragmentType::b(n_pos), n_term, &ions.b.1, peptidoform_index, peptide_index, Ghost(g), Ghost(i), Ghost(len), Ghost(self), Ghost(n_term@), Ghost(c_term@), Ghost(modifications@), Ghost(0u8), Ghost((-1, 0, 0, 0, 0, 0)));
        }
        if ions.c.0 {
            let f = self.backbone(modifications, &compose(2, 0, 1, 0, 0, 0), true, Ghost((2, 0, 1, 0, 0, 0)));
            add_series(&mut base, &f, FragmentType::c(n_pos), n_term, &ions.c.1, peptidoform_index, peptide_index, Ghost(g), Ghost(i), Ghost(len), Ghost(self), Ghost(n_term@), Ghost(c_term@), Ghost(modifications@), Ghost(0u8), Ghost((2, 0, 1, 0, 0, 0)));
        }
        if ions.d.0 {
            let f = self.satellite(&compose(1, 1, 0, 1, 0, 0), Ghost((1, 1, 0, 1, 0, 0)));
            add_series(&mut base, &f, FragmentType::d(n_pos), n_term, &ions.d.1, peptidoform_index, peptide_index, Ghost(g), Ghost(i), Ghost(len), Ghost(self), Ghost(n_term@), Ghost(c_term@), Ghost(modifications@), Ghost(1u8), Ghost((1, 1, 0, 1, 0, 0)));
        }
        if ions.v.0 {
            let f = Multi::single(compose(3, 2, 1, 1, 0, 0));
            proof {
                assert(all_within(f@, PART_ATOMS as int));
                assert(alt_ok(self, modifications@, 2u8, (3, 2, 1, 1, 0, 0), f@[0]));
            }
            add_series(&mut base, &f, FragmentType::v(n_pos), c_term, &ions.v.1, peptidoform_index, peptide_index, Ghost(g), Ghost(i), Ghost(len), Ghost(self), Ghost(n_term@), Ghost(c_term@), Ghost(modifications@), Ghost(2u8), Ghost((3, 2, 1, 1, 0, 0)));
        }
        base
    }

    /// The uncharged fragments of the enabled w, x, y, z and z· series, after `base`.
    #[verifier::rlimit(100)]
    fn base_fragments_second(
        self,
        base: &mut Vec<Fragment>,
        Ghost(n_term_alts): Ghost<Seq<MolecularFormula>>,
        c_term: &Multi,
        modifications: &Multi,
        sequence_index: usize,
        sequence_length: usize,
        ions: &PossibleIons,
        peptidoform_index: usize,
        peptide_index: usize,
    )
        requires
            all_within(c_term@, PART_ATOMS as int),
            c_term@.len() <= MAX_ALTERNATIVES,
            all_within(modifications@, MODIFICATION_ATOMS as int),
            modifications@.len() <= MAX_ALTERNATIVES,
            sequence_index < sequence_length,
            ions_ok(*ions),
            forall|k: int| 0 <= k < old(base)@.len() ==> base_allowed(*ions, sequence_index, sequence_length, peptidoform_index, peptide_index, #[trigger] old(base)@[k]),
            forall|k: int| 0 <= k < old(base)@.len() ==> base_formula_ok(self, *ions, n_term_alts, c_term@, modifications@, #[trigger] old(base)@[k]),
        ensures
            forall|k: int| 0 <= k < final(base)@.len() ==> base_allowed(*ions, sequence_index, sequence_length, peptidoform_index, peptide_index, #[trigger] final(base)@[k]),
            forall|k: int| 0 <= k < final(base)@.len() ==> base_formula_ok(self, *ions, n_term_alts, c_term@, modifications@, #[trigger] final(base)@[k]),
            final(base)@.len() == old(base)@.len() + base_count_second(self, *ions, c_term@.len() as int, modifications@.len() as int),
    {
        let i = sequence_index;
        let len = sequence_length;
        let ghost g = *ions;
        let c_pos = PeptidePosition::c(i, len);
        if ions.w.0 {
            let f = self.satellite(&compose(2, 0, 1, 0, 0, 0), Ghost((2, 0, 1, 0, 0, 0)));
            add_series(base, &f, FragmentType::w(c_pos), c_term, &ions.w.1, peptidoform_index, peptide_index, Ghost(g), Ghost(i), Ghost(len), Ghost(self), Ghost(n_term_alts), Ghost(c_term@), Ghost(modifications@), Ghost(1u8), Ghost((2, 0, 1, 0, 0, 0)));
        }
        if ions.x.0 {
            let f = self.backbone(modifications, &compose(-1, 1, 0, 1, 0, 0), true, Ghost((-1, 1, 0, 1, 0, 0)));
            add_series(base, &f, FragmentType::x(c_pos), c_term, &ions.x.1, peptidoform_index, peptide_index, Ghost(g), Ghost(i), Ghost(len), Ghost(self), Ghost(n_term_alts), Ghost(c_term@), Ghost(modifications@), Ghost(0u8), Ghost((-1, 1, 0, 1, 0, 0)));
        }
        if ions.y.0 {
            let f = self.backbone(modifications, &compose(1, 0, 0, 0, 0, 0), true, Ghost((1, 0, 0, 0, 0, 0)));
            add_series(base, &f, FragmentType::y(c_pos), c_term, &ions.y.1, peptidoform_index, peptide_index, Ghost(g), Ghost(i), Ghost(len), Ghost(self), Ghost(n_term_alts), Ghost(c_term@), Ghost(modifications@), Ghost(0u8), Ghost((1, 0, 0, 0, 0, 0)));
        }
        if ions.z.0 {
            let f = self.backbone(modifications, &compose(2, 0, 1, 0, 0, 0), false, Ghost((2, 0, 1, 0, 0, 0)));
            add_series(base, &f, FragmentType::z(c_pos), c_term, &ions.z.1, peptidoform_index, peptide_index, Ghost(g), Ghost(i), Ghost(len), Ghost(self), Ghost(n_term_alts), Ghost(c_term@), Ghost(modifications@), Ghost(0u8), Ghost((-2, 0, -1, 0, 0, 0)));
            let f = self.backbone(modifications, &compose(1, 0, 1, 0, 0, 0), false, Ghost((1, 0, 1, 0, 0, 0)));
            add_series(base, &f, FragmentType::z_dot(c_pos), c_term, &ions.z.1, peptidoform_index, peptide_index, Ghost(g), Ghost(i), Ghost(len), Ghost(self), Ghost(n_term_alts), Ghost(c_term@), Ghost(modifications@), Ghost(0u8), Ghost((-1, 0, -1, 0, 0, 0)));
        }
    }

    /// The uncharged fragments of the enabled series, in the order of [`AminoAcid::fragments`].
    fn base_fragments(
        self,
        n_term: &Multi,
        c_term: &Multi,
        modifications: &Multi,
        sequence_index: usize,
        sequence_length: usize,
        ions: &PossibleIons,
        peptidoform_index: usize,
        peptide_index: usize,
    ) -> (base: Vec<Fragment>)
        requires
            all_within(n_term@, PART_ATOMS as int),
            all_within(c_term@, PART_ATOMS as int),
            n_term@.len() <= MAX_ALTERNATIVES,
            c_term@.len() <= MAX_ALTERNATIVES,
            all_within(modifications@, MODIFICATION_ATOMS as int),
            modifications@.len() <= MAX_ALTERNATIVES,
            sequence_index < sequence_length,
            ions_ok(*ions),
        ensures
            forall|k: int| 0 <= k < base@.len() ==> base_allowed(*ions, sequence_index, sequence_length, peptidoform_index, peptide_index, #[trigger] base@[k]),
            base@.len() == base_count(self, *ions, n_term@.len() as int, c_term@.len() as int, modifications@.len() as int),
            forall|k: int| 0 <= k < base@.len() ==> base_formula_ok(self, *ions, n_term@, c_term@, modifications@, #[trigger] base@[k]),
    {
        let mut base = self.base_fragments_first(n_term, c_term, modifications, sequence_index, sequence_length, ions, peptidoform_index, peptide_index);
        self.base_fragments_second(&mut base, Ghost(n_term@), c_term, modifications, sequence_index, sequence_length, ions, peptidoform_index, peptide_index);
        base
    }

    /// Every uncharged fragment with every charge option, the fragments varying slowest.
    fn charge_base(
        self,
        base: &Vec<Fragment>,
        charge_carriers: &MolecularCharge,
        sequence_index: usize,
        sequence_length: usize,
        ions: &PossibleIons,
        peptidoform_index: usize,
        peptide_index: usize,
        Ghost(n_terms): Ghost<Seq<MolecularFormula>>,
        Ghost(c_terms): Ghost<Seq<MolecularFormula>>,
        Ghost(mods): Ghost<Seq<MolecularFormula>>,
    ) -> (charged: Vec<Fragment>)
        requires
            charge_carriers.wf(),
            forall|k: int| 0 <= k < base@.len() ==> base_allowed(*ions, sequence_index, sequence_length, peptidoform_index, peptide_index, #[trigger] base@[k]),
            forall|k: int| 0 <= k < base@.len() ==> base_formula_ok(self, *ions, n_terms, c_terms, mods, #[trigger] base@[k]),
        ensures
            forall|k: int| 0 <= k < charged@.len() ==> charged_formula_ok(self, *ions, n_terms, c_terms, mods, charge_carriers@, charge_carriers.total_charge(), #[trigger] charged@[k]),
            forall|k: int| 0 <= k < charged@.len() ==> fragment_allowed(self, *ions, sequence_index, sequence_length, peptidoform_index, peptide_index, charge_carriers.total_charge(), #[trigger] charged@[k]),
            charged@.len() == base@.len() * crate::charge::options_up_to(charge_carriers@, charge_carriers.total_charge()),
    {
        let i = sequence_index;
        let len = sequence_length;
        let ghost g = *ions;
        let charge_options = charge_carriers.all_charge_options();
        let ghost total = charge_carriers.total_charge();
        let ghost o = charge_options@.len() as int;
        let ghost bl = base@.len() as int;
        proof {
            assert(0 * o == 0) by (nonlinear_arith);
        }
        let mut charged: Vec<Fragment> = Vec::new();
        let mut k: usize = 0;
        while k < base.len()
            invariant
                forall|j: int| 0 <= j < base@.len() ==> base_allowed(g, i, len, peptidoform_index, peptide_index, #[trigger] base@[j]),
                forall|j: int| 0 <= j < charge_options@.len() ==> (#[trigger] charge_options@[j]).wf(),
                forall|j: int| 0 <= j < charge_options@.len() ==> is_option_up_to(charge_carriers@, crate::charge::deep((#[trigger] charge_options@[j])@), total),
                forall|j: int| 0 <= j < charged@.len() ==> fragment_allowed(self, g, i, len, peptidoform_index, peptide_index, total, #[trigger] charged@[j]),
                forall|j: int| 0 <= j < base@.len() ==> base_formula_ok(self, g, n_terms, c_terms, mods, #[trigger] base@[j]),
                forall|j: int| 0 <= j < charged@.len() ==> charged_formula_ok(self, g, n_terms, c_terms, mods, charge_carriers@, total, #[trigger] charged@[j]),
                k <= base@.len(),
                g == *ions,
                o == charge_options@.len(),
                bl == base@.len(),
                charged@.len() == k * o,
            decreases base@.len() - k,
        {
            let mut j: usize = 0;
            while j < charge_options.len()
                invariant
                    forall|j: int| 0 <= j < base@.len() ==> base_allowed(g, i, len, peptidoform_index, peptide_index, #[trigger] base@[j]),
                    forall|j: int| 0 <= j < charge_options@.len() ==> (#[trigger] charge_options@[j]).wf(),
                    forall|j: int| 0 <= j < charge_options@.len() ==> is_option_up_to(charge_carriers@, crate::charge::deep((#[trigger] charge_options@[j])@), total),
                    forall|j: int| 0 <= j < charged@.len() ==> fragment_allowed(self, g, i, len, peptidoform_index, peptide_index, total, #[trigger] charged@[j]),
                    forall|j: int| 0 <= j < base@.len() ==> base_formula_ok(self, g, n_terms, c_terms, mods, #[trigger] base@[j]),
                    forall|j: int| 0 <= j < charged@.len() ==> charged_formula_ok(self, g, n_terms, c_terms, mods, charge_carriers@, total, #[trigger] charged@[j]),
                forall|j: int| 0 <= j < base@.len() ==> base_formula_ok(self, g, n_terms, c_terms, mods, #[trigger] base@[j]),
                forall|j: int| 0 <= j < charged@.len() ==> charged_formula_ok(self, g, n_terms, c_terms, mods, charge_carriers@, total, #[trigger] charged@[j]),
                    k < base@.len(),
                    j <= charge_options@.len(),
                    g == *ions,
                    o == charge_options@.len(),
                    bl == base@.len(),
                    charged@.len() == k * o + j,
                decreases charge_options@.len() - j,
            {
                let opt = &charge_options[j];
                let ghost z = choose|z: int| 1 <= z <= total && is_option(charge_carriers@, crate::charge::deep(opt@), z);
                proof {
                    assert(is_option_up_to(charge_carriers@, crate::charge::deep(opt@), total));
                    lemma_option_charge(charge_carriers@, *opt, z);
                    assert(base_allowed(g, i, len, peptidoform_index, peptide_index, base@[k as int]));
                }
                let f = base[k].with_charge(opt);
                proof {
                    assert(base_formula_ok(self, g, n_terms, c_terms, mods, base@[k as int]));
                    assert(charged_match(self, g, n_terms, c_terms, mods, charge_carriers@, total, f, base@[k as int], *opt));
                }
                let ghost before = charged@;
                charged.push(f);
                proof {
                    assert forall|q: int| 0 <= q < charged@.len() implies charged_formula_ok(self, g, n_terms, c_terms, mods, charge_carriers@, total, #[trigger] charged@[q]) by {
                        if q < before.len() {
                            assert(charged@[q] == before[q]);
                        }
                    }
                }
                j += 1;
            }
            proof {
                assert(k * o + o == (k + 1) * o) by (nonlinear_arith);
            }
            k += 1;
        }
        charged
    }

    /// The immonium ions with their losses, each with every single-charge option.
    fn immonium_fragments(
        self,
        modifications: &Multi,
        charge_carriers: &MolecularCharge,
        sequence_index: usize,
        sequence_length: usize,
        ions: &PossibleIons,
        peptidoform_index: usize,
        peptide_index: usize,
    ) -> (charged: Vec<Fragment>)
        requires
            charge_carriers.wf(),
            all_within(modifications@, MODIFICATION_ATOMS as int),
            modifications@.len() <= MAX_ALTERNATIVES,
            sequence_index < sequence_length,
            ions.immonium,
        ensures
            forall|k: int| 0 <= k < charged@.len() ==> fragment_allowed(self, *ions, sequence_index, sequence_length, peptidoform_index, peptide_index, charge_carriers.total_charge(), #[trigger] charged@[k]),
            charged@.len() == immonium_count(self, modifications@.len() as int) * crate::charge::single_count(charge_carriers@),
            forall|k: int| 0 <= k < charged@.len() ==> immonium_formula_ok(self, modifications@, charge_carriers@, #[trigger] charged@[k]),
            forall|k: int| 0 <= k < charged@.len() ==> (#[trigger] charged@[k]).ion == FragmentType::immonium(n_position(sequence_index, sequence_length), self),
    {
        let i = sequence_index;
        let len = sequence_length;
        let ghost g = *ions;
        let ghost total = charge_carriers.total_charge();
        let n_pos = PeptidePosition::n(i, len);
        let mut charged: Vec<Fragment> = Vec::new();
        let f = self.backbone(modifications, &compose(0, 1, 0, 1, 0, 0), false, Ghost((0, 1, 0, 1, 0, 0)));
        let losses = self.immonium_losses();
        let none = Multi::default();
        proof {
            assert(all_within(none@, PART_ATOMS as int)) by {
                assert forall|e: Element, iso: Option<u16>| -(PART_ATOMS as int) <= #[trigger] none@[0].count(e, iso) <= PART_ATOMS as int by {
                    crate::formula::lemma_count_absent(none@[0]@, e, iso);
                }
            }
            assert(losses_within(losses@, PART_ATOMS as int)) by {
                assert forall|q: int| 0 <= q < losses@.len() implies (#[trigger] losses@[q]).within(PART_ATOMS as int) by {
                    assert(losses@[q].within(64));
                }
            }
            assert(1 * f@.len() * (losses@.len() + 1) <= 768 * 11) by (nonlinear_arith)
                requires f@.len() <= 768, losses@.len() <= 10,
            {}
        }
        let ion = FragmentType::immonium(n_pos, self);
        let options = Fragment::generate_all(&f, peptidoform_index, peptide_index, &ion, &none, losses.as_slice());
        let singles = charge_carriers.all_single_charge_options();
        let ghost sl = singles@.len() as int;
        let ghost ol = options@.len() as int;
        proof {
            assert(ol == 1 * f@.len() * (losses@.len() + 1));
            assert(ol == immonium_count(self, modifications@.len() as int)) by (nonlinear_arith)
                requires
                    ol == 1 * f@.len() * (losses@.len() + 1),
                    f@.len() == self.residue_compositions().len() * modifications@.len(),
                    losses@.len() == self.immonium_loss_compositions().len(),
            {}
            assert(0 * sl == 0) by (nonlinear_arith);
        }
        let mut k: usize = 0;
        while k < options.len()
            invariant
                forall|j: int| 0 <= j < options@.len() ==> generated(ion, peptidoform_index, peptide_index, #[trigger] options@[j]),
                forall|j: int| 0 <= j < singles@.len() ==> (#[trigger] singles@[j]).wf(),
                forall|j: int| 0 <= j < singles@.len() ==> is_single_option(charge_carriers@, crate::charge::deep((#[trigger] singles@[j])@)),
                forall|j: int| 0 <= j < charged@.len() ==> fragment_allowed(self, g, i, len, peptidoform_index, peptide_index, total, #[trigger] charged@[j]),
                ion == FragmentType::immonium(n_position(i, len), self),
                g == *ions,
                ions.immonium,
                k <= options@.len(),
                forall|q: int| 0 <= q < charged@.len() ==> (#[trigger] charged@[q]).ion == ion,
                forall|j: int| 0 <= j < options@.len() ==> from_parts(none@, f@, losses@, #[trigger] options@[j]),
                none@.len() == 1,
                none@[0]@.len() == 0,
                forall|q: int| 0 <= q < f@.len() ==> backbone_alt(self, modifications@, (0, -1, 0, -1, 0, 0), #[trigger] f@[q]),
                losses@.len() == self.immonium_loss_compositions().len(),
                forall|q: int| 0 <= q < losses@.len() ==> (#[trigger] losses@[q]).is_gain() == self.immonium_loss_compositions()[q].0 && has_composition(losses@[q].formula_spec(), self.immonium_loss_compositions()[q].1),
                forall|q: int| 0 <= q < charged@.len() ==> immonium_formula_ok(self, modifications@, charge_carriers@, #[trigger] charged@[q]),
                sl == singles@.len(),
                ol == options@.len(),
                charged@.len() == k * sl,
            decreases options@.len() - k,
        {
            let mut j: usize = 0;
            while j < singles.len()
                invariant
                    forall|j: int| 0 <= j < options@.len() ==> generated(ion, peptidoform_index, peptide_index, #[trigger] options@[j]),
                    forall|j: int| 0 <= j < singles@.len() ==> (#[trigger] singles@[j]).wf(),
                    forall|j: int| 0 <= j < singles@.len() ==> is_single_option(charge_carriers@, crate::charge::deep((#[trigger] singles@[j])@)),
                    forall|j: int| 0 <= j < charged@.len() ==> fragment_allowed(self, g, i, len, peptidoform_index, peptide_index, total, #[trigger] charged@[j]),
                    ion == FragmentType::immonium(n_position(i, len), self),
                    g == *ions,
                    ions.immonium,
                    k < options@.len(),
                    forall|q: int| 0 <= q < charged@.len() ==> (#[trigger] charged@[q]).ion == ion,
                    forall|j: int| 0 <= j < options@.len() ==> from_parts(none@, f@, losses@, #[trigger] options@[j]),
                    none@.len() == 1,
                    none@[0]@.len() == 0,
                    forall|q: int| 0 <= q < f@.len() ==> backbone_alt(self, modifications@, (0, -1, 0, -1, 0, 0), #[trigger] f@[q]),
                    losses@.len() == self.immonium_loss_compositions().len(),
                    forall|q: int| 0 <= q < losses@.len() ==> (#[trigger] losses@[q]).is_gain() == self.immonium_loss_compositions()[q].0 && has_composition(losses@[q].formula_spec(), self.immonium_loss_compositions()[q].1),
                    forall|q: int| 0 <= q < charged@.len() ==> immonium_formula_ok(self, modifications@, charge_carriers@, #[trigger] charged@[q]),
                    j <= singles@.len(),
                    sl == singles@.len(),
                    charged@.len() == k * sl + j,
                decreases singles@.len() - j,
            {
                proof {
                    lemma_single_option_charge(charge_carriers@, singles@[j as int]);
                    assert(generated(ion, peptidoform_index, peptide_index, options@[k as int]));
                }
                let fr = options[k].with_charge(&singles[j]);
                proof {
                    let x = options@[k as int];
                    assert(from_parts(none@, f@, losses@, x));
                    let (t, m, l) = choose|t: int, m: int, l: int| #[trigger] parts_match(none@, f@, losses@, x, t, m, l);
                    assert(backbone_alt(self, modifications@, (0, -1, 0, -1, 0, 0), f@[m]));
                    assert forall|e: Element, iso: Option<u16>| #[trigger] fr.formula.count(e, iso) == f@[m].count(e, iso)
                        + immonium_loss_count(self, l, e, iso) + crate::charge::carrier_count(singles@[j as int]@, e, iso) by {
                        assert(none@[0].count(e, iso) == 0);
                        assert(x.formula.count(e, iso) == none@[t].count(e, iso) + f@[m].count(e, iso) + loss_count(losses@, l, e, iso));
                        if l > 0 {
                            assert(has_composition(losses@[l - 1].formula_spec(), self.immonium_loss_compositions()[l - 1].1));
                        }
                    }
                    assert(immonium_match(self, modifications@, charge_carriers@, fr, f@[m], l, singles@[j as int]));
                }
                let ghost before = charged@;
                charged.push(fr);
                proof {
                    assert forall|q: int| 0 <= q < charged@.len() implies immonium_formula_ok(self, modifications@, charge_carriers@, #[trigger] charged@[q])
                        && charged@[q].ion == ion by {
                        if q < before.len() {
                            assert(charged@[q] == before[q]);
                        }
                    }
                }
                j += 1;
            }
            proof {
                assert(k * sl + sl == (k + 1) * sl) by (nonlinear_arith);
            }
            k += 1;
        }
        charged
    }

    /// The fragments of this residue at `sequence_index` of a sequence of `sequence_length`:
    /// for each enabled series (a, b, c, d, v, w, x, y, z and z·, in that order) every
    /// terminus with every alternative formula and its neutral losses, each charged with
    /// every charge option; then, if enabled, the immonium ions with their losses,
    /// charged with every single-charge option.
    pub fn fragments(
        self,
        n_term: &Multi,
        c_term: &Multi,
        modifications: &Multi,
        charge_carriers: &MolecularCharge,
        sequence_index: usize,
        sequence_length: usize,
        ions: &PossibleIons,
        peptidoform_index: usize,
        peptide_index: usize,
    ) -> (r: Vec<Fragment>)
        requires
            all_within(n_term@, PART_ATOMS as int),
            all_within(c_term@, PART_ATOMS as int),
            n_term@.len() <= MAX_ALTERNATIVES,
            c_term@.len() <= MAX_ALTERNATIVES,
            all_within(modifications@, MODIFICATION_ATOMS as int),
            modifications@.len() <= MAX_ALTERNATIVES,
            sequence_index < sequence_length,
            ions_ok(*ions),
            charge_carriers.wf(),
        ensures
            forall|k: int| 0 <= k < r@.len() ==> fragment_allowed(
                self,
                *ions,
                sequence_index,
                sequence_length,
                peptidoform_index,
                peptide_index,
                charge_carriers.total_charge(),
                #[trigger] r@[k],
            ),
            forall|k: int| 0 <= k < r@.len() ==> fragment_formula_ok(
                self,
                *ions,
                n_term@,
                c_term@,
                modifications@,
                charge_carriers@,
                charge_carriers.total_charge(),
                #[trigger] r@[k],
            ),
            r@.len() == base_count(self, *ions, n_term@.len() as int, c_term@.len() as int, modifications@.len() as int)
                * crate::charge::options_up_to(charge_carriers@, charge_carriers.total_charge()) + if ions.immonium {
                immonium_count(self, modifications@.len() as int) * crate::charge::single_count(charge_carriers@)
            } else {
                0
            },
    {
        let base = self.base_fragments(n_term, c_term, modifications, sequence_index, sequence_length, ions, peptidoform_index, peptide_index);
        let ghost total = charge_carriers.total_charge();
        let mut charged = self.charge_base(&base, charge_carriers, sequence_index, sequence_length, ions, peptidoform_index, peptide_index, Ghost(n_term@), Ghost(c_term@), Ghost(modifications@));
        proof {
            assert forall|k: int| 0 <= k < charged@.len() implies fragment_formula_ok(self, *ions, n_term@, c_term@, modifications@, charge_carriers@, total, #[trigger] charged@[k]) by {
                assert(charged_formula_ok(self, *ions, n_term@, c_term@, modifications@, charge_carriers@, total, charged@[k]));
                assert(fragment_allowed(self, *ions, sequence_index, sequence_length, peptidoform_index, peptide_index, total, charged@[k]));
                let (b, o) = choose|b: Fragment, o: MolecularCharge| #[trigger] charged_match(self, *ions, n_term@, c_term@, modifications@, charge_carriers@, total, charged@[k], b, o);
                assert(!(charged@[k].ion is immonium));
            }
        }
        if ions.immonium {
            let mut immonium = self.immonium_fragments(modifications, charge_carriers, sequence_index, sequence_length, ions, peptidoform_index, peptide_index);
            let ghost before = charged@;
            let ghost added = immonium@;
            charged.append(&mut immonium);
            proof {
                assert forall|k: int| 0 <= k < charged@.len() implies fragment_allowed(self, *ions, sequence_index, sequence_length, peptidoform_index, peptide_index, charge_carriers.total_charge(), #[trigger] charged@[k]) by {
                    if k < before.len() {
                        assert(charged@[k] == before[k]);
                    } else {
                        assert(charged@[k] == added[k - before.len()]);
                    }
                }
                assert forall|k: int| 0 <= k < charged@.len() implies fragment_formula_ok(self, *ions, n_term@, c_term@, modifications@, charge_carriers@, total, #[trigger] charged@[k]) by {
                    if k < before.len() {
                        assert(charged@[k] == before[k]);
                    } else {
                        assert(charged@[k] == added[k - before.len()]);
                        assert(immonium_formula_ok(self, modifications@, charge_carriers@, added[k - before.len()]));
                        assert(fragment_allowed(self, *ions, sequence_index, sequence_length, peptidoform_index, peptide_index, total, added[k - before.len()]));
                    }
                }
            }
        }
        charged
    }
}

/// The upper-case form of an ASCII lower-case letter; any other character unchanged.
pub open spec fn upper(c: char) -> char {
    if 'a' <= c <= 'z' {
        ((c as u32) - 32) as char
    } else {
        c
    }
}

impl TryFrom<char> for AminoAcid {
    type Error = ();

    fn try_from(value: char) -> Result<AminoAcid, ()> {
        AminoAcid::from_char(value)
    }
}

impl vstd::std_specs::convert::TryFromSpecImpl<char> for AminoAcid {
    open spec fn obeys_try_from_spec() -> bool {
        false
    }

    open spec fn try_from_spec(v: char) -> Result<AminoAcid, ()> {
        Err(())
    }
}

impl vstd::std_specs::convert::TryFromSpecImpl<u8> for AminoAcid {
    open spec fn obeys_try_from_spec() -> bool {
        false
    }

    open spec fn try_from_spec(v: u8) -> Result<AminoAcid, ()> {
        Err(())
    }
}

impl TryFrom<u8> for AminoAcid {
    type Error = ();

    fn try_from(value: u8) -> Result<AminoAcid, ()> {
        AminoAcid::from_char(value as char)
    }
}

} // verus!
