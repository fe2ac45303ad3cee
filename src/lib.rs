//! Theoretical fragment generation and spectrum annotation for peptides.
//!
//! Masses are fixed-point integers in nanodaltons (1 Da = 1_000_000_000), and
//! m/z values use the same scale per unit of charge.
pub mod aminoacid;
pub mod charge;
pub mod element;
pub mod formula;
pub mod fragment;
pub mod model;
pub mod multi;
pub mod notation;
pub mod peptide;
pub mod placement_rule;
pub mod psi_mod;
pub mod spectrum;

pub use aminoacid::AminoAcid;
pub use charge::MolecularCharge;
pub use element::{Element, MassMode};
pub use formula::MolecularFormula;
pub use fragment::{
    DiagnosticPosition, Fragment, FragmentKind, FragmentType, NeutralLoss, PeptidePosition, Position,
};
pub use model::{Model, PossibleIons};
pub use multi::Multi;
pub use notation::NotationStyle;
pub use peptide::{LinearPeptide, Peptidoform, SequenceElement};
pub use spectrum::{AnnotatedPeak, AnnotatedSpectrum, Peak, PeakSpectrum, RawPeak, RawSpectrum};
