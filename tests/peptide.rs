use rustyms::aminoacid::AminoAcid;
use rustyms::peptide::{CrossLinkName, LinearPeptide, Modification, Peptidoform, SequenceElement, SimpleModification};
use rustyms::placement_rule::{
    cross_link_sides, CrossLinkSide, LinkerSpecificity, PlacementRule, Position, RulePossible,
};
use rustyms::element::MassMode;
use rustyms::model::Model;
use rustyms::{FragmentType, MolecularFormula};

fn peptide(residues: &[AminoAcid]) -> LinearPeptide {
    LinearPeptide {
        sequence: residues
            .iter()
            .map(|aa| SequenceElement { aminoacid: *aa, modifications: Vec::new() })
            .collect(),
        n_term: None,
        c_term: None,
    }
}

fn linker(specificities: Vec<LinkerSpecificity>) -> SimpleModification {
    SimpleModification { formula: MolecularFormula::empty(), psi_mod: None, specificities }
}

fn on(aas: &[AminoAcid]) -> Vec<PlacementRule> {
    vec![PlacementRule::AminoAcid(aas.to_vec(), Position::Anywhere)]
}

#[test]
fn symmetric_cross_link_on_lysines() {
    let mut pf = Peptidoform(vec![peptide(&[AminoAcid::Lysine, AminoAcid::Glycine]), peptide(&[AminoAcid::Alanine, AminoAcid::Lysine])]);
    let dss = linker(vec![LinkerSpecificity::Symmetric(on(&[AminoAcid::Lysine]))]);
    assert!(pf.add_cross_link((0, 0), (1, 1), dss, CrossLinkName::Name("x".to_string())));
    match &pf.peptides()[0].sequence[0].modifications[0] {
        Modification::CrossLink { peptide, sequence_index, side, .. } => {
            assert_eq!((*peptide, *sequence_index, *side), (1, 1, CrossLinkSide::Symmetric));
        }
        _ => panic!("not a cross-link"),
    }
    match &pf.peptides()[1].sequence[1].modifications[0] {
        Modification::CrossLink { peptide, sequence_index, side, .. } => {
            assert_eq!((*peptide, *sequence_index, *side), (0, 0, CrossLinkSide::Symmetric));
        }
        _ => panic!("not a cross-link"),
    }
}

#[test]
fn impossible_cross_link_changes_nothing() {
    let mut pf = Peptidoform(vec![peptide(&[AminoAcid::Lysine, AminoAcid::Glycine])]);
    let dss = linker(vec![LinkerSpecificity::Symmetric(on(&[AminoAcid::Lysine]))]);
    assert!(!pf.add_cross_link((0, 0), (0, 1), dss.clone(), CrossLinkName::Branch));
    assert!(!pf.add_cross_link((0, 0), (3, 0), dss, CrossLinkName::Branch));
    assert!(pf.peptides()[0].sequence.iter().all(|e| e.modifications.is_empty()));
}

#[test]
fn asymmetric_cross_link_sides() {
    let mut pf = Peptidoform(vec![peptide(&[AminoAcid::Cysteine, AminoAcid::Lysine])]);
    let l = linker(vec![LinkerSpecificity::Asymmetric(on(&[AminoAcid::Cysteine]), on(&[AminoAcid::Lysine]))]);
    assert!(pf.add_cross_link((0, 1), (0, 0), l, CrossLinkName::Branch));
    match &pf.peptides()[0].sequence[1].modifications[0] {
        Modification::CrossLink { side, .. } => assert_eq!(*side, CrossLinkSide::Right),
        _ => panic!("not a cross-link"),
    }
    match &pf.peptides()[0].sequence[0].modifications[0] {
        Modification::CrossLink { side, .. } => assert_eq!(*side, CrossLinkSide::Left),
        _ => panic!("not a cross-link"),
    }
}

#[test]
fn terminal_rule() {
    let mut pf = Peptidoform(vec![peptide(&[AminoAcid::Glycine, AminoAcid::Glycine, AminoAcid::Glycine])]);
    let l = linker(vec![LinkerSpecificity::Symmetric(vec![PlacementRule::Terminal(Position::AnyNTerm), PlacementRule::Terminal(Position::AnyCTerm)])]);
    assert!(!pf.add_cross_link((0, 0), (0, 1), l.clone(), CrossLinkName::Branch));
    assert!(pf.add_cross_link((0, 0), (0, 2), l, CrossLinkName::Branch));
}

#[test]
fn side_table() {
    assert_eq!(cross_link_sides(RulePossible::Symmetric, RulePossible::Symmetric), Some((CrossLinkSide::Symmetric, CrossLinkSide::Symmetric)));
    assert_eq!(cross_link_sides(RulePossible::AsymmetricLeft, RulePossible::Symmetric), Some((CrossLinkSide::Left, CrossLinkSide::Right)));
    assert_eq!(cross_link_sides(RulePossible::AsymmetricRight, RulePossible::AsymmetricLeft), Some((CrossLinkSide::Right, CrossLinkSide::Left)));
    assert_eq!(cross_link_sides(RulePossible::Symmetric, RulePossible::AsymmetricLeft), None);
    assert_eq!(cross_link_sides(RulePossible::AsymmetricLeft, RulePossible::AsymmetricLeft), None);
    assert_eq!(cross_link_sides(RulePossible::No, RulePossible::Symmetric), None);
}

#[test]
fn singular_peptide() {
    let one = Peptidoform(vec![peptide(&[AminoAcid::Glycine])]);
    assert!(one.singular().is_some());
    let two = Peptidoform(vec![peptide(&[AminoAcid::Glycine]), peptide(&[AminoAcid::Alanine])]);
    assert!(two.singular().is_none());
}

#[test]
fn position_names() {
    assert_eq!(Position::AnyNTerm.name(), "AnyNTerm");
    assert!(Position::AnyCTerm.is_possible(2, 3));
    assert!(!Position::AnyCTerm.is_possible(1, 3));
}

#[test]
fn peptide_fragments_b_and_y() {
    let pf = Peptidoform(vec![peptide(&[AminoAcid::Glycine, AminoAcid::Alanine])]);
    let fragments = pf.generate_theoretical_fragments(1, &Model::cid_hcd(), 0).unwrap();
    assert_eq!(fragments.len(), 10);
    let mz = |f: &rustyms::Fragment| f.mz(MassMode::Monoisotopic).unwrap() as f64 / 1e9;
    let b1 = fragments
        .iter()
        .find(|f| matches!(f.ion, FragmentType::b(p) if p.series_number == 1) && f.neutral_loss.is_none())
        .unwrap();
    assert!((mz(b1) - 58.02874).abs() < 1e-4);
    let y1 = fragments
        .iter()
        .find(|f| matches!(f.ion, FragmentType::y(p) if p.series_number == 1) && f.neutral_loss.is_none())
        .unwrap();
    assert!((mz(y1) - 90.05495).abs() < 1e-4);
}

#[test]
fn too_many_modifications_gives_none() {
    let mut p = peptide(&[AminoAcid::Glycine]);
    for _ in 0..20 {
        p.sequence[0].modifications.push(Modification::Simple(linker(Vec::new())));
    }
    let pf = Peptidoform(vec![p]);
    assert!(pf.generate_theoretical_fragments(1, &Model::all(), 0).is_none());
}

#[test]
fn too_ambiguous_gives_none() {
    let ambiguous = vec![AminoAcid::AmbiguousAsparagine; 10];
    let pf = Peptidoform(vec![peptide(&ambiguous)]);
    assert!(pf.generate_theoretical_fragments(1, &Model::all(), 0).is_none());
    let fewer = vec![AminoAcid::AmbiguousAsparagine; 4];
    let pf = Peptidoform(vec![peptide(&fewer)]);
    assert!(pf.generate_theoretical_fragments(1, &Model::all(), 0).is_some());
}

#[test]
fn cross_link_records_linker_and_name() {
    let mut pf = Peptidoform(vec![peptide(&[AminoAcid::Lysine, AminoAcid::Lysine])]);
    let mut dss = linker(vec![LinkerSpecificity::Symmetric(on(&[AminoAcid::Lysine]))]);
    dss.psi_mod = Some(7);
    assert!(pf.add_cross_link((0, 0), (0, 1), dss, CrossLinkName::Name("dss".to_string())));
    for (i, other) in [(0usize, 1usize), (1, 0)] {
        let mods = &pf.peptides()[0].sequence[i].modifications;
        assert_eq!(mods.len(), 1);
        match &mods[0] {
            Modification::CrossLink { sequence_index, linker, name, .. } => {
                assert_eq!(*sequence_index, other);
                assert_eq!(linker.psi_mod, Some(7));
                assert_eq!(*name, CrossLinkName::Name("dss".to_string()));
            }
            _ => panic!("not a cross-link"),
        }
    }
}

#[test]
fn modification_formulas_are_summed() {
    let water = MolecularFormula::new(&[(rustyms::Element::H, None, 2), (rustyms::Element::O, None, 1)]).unwrap();
    let mut element = SequenceElement { aminoacid: AminoAcid::Serine, modifications: Vec::new() };
    let mut m = linker(Vec::new());
    m.formula = water.clone();
    element.modifications.push(Modification::Simple(m.clone()));
    element.modifications.push(Modification::Simple(m));
    assert_eq!(element.modifications_formula().unwrap(), water.times(2));
}

#[test]
fn n_terminal_modification_shifts_b_ions() {
    let acetyl = MolecularFormula::new(&[(rustyms::Element::C, None, 2), (rustyms::Element::H, None, 2), (rustyms::Element::O, None, 1)]).unwrap();
    let mut p = peptide(&[AminoAcid::Glycine, AminoAcid::Alanine]);
    let mut m = linker(Vec::new());
    m.formula = acetyl;
    p.n_term = Some(m);
    let pf = Peptidoform(vec![p]);
    let fragments = pf.generate_theoretical_fragments(1, &Model::cid_hcd(), 0).unwrap();
    let mz = |f: &rustyms::Fragment| f.mz(MassMode::Monoisotopic).unwrap() as f64 / 1e9;
    let b1 = fragments
        .iter()
        .find(|f| matches!(f.ion, FragmentType::b(p) if p.series_number == 1) && f.neutral_loss.is_none())
        .unwrap();
    assert!((mz(b1) - 58.02874 - 42.01057).abs() < 1e-4);
    let y1 = fragments
        .iter()
        .find(|f| matches!(f.ion, FragmentType::y(p) if p.series_number == 1) && f.neutral_loss.is_none())
        .unwrap();
    assert!((mz(y1) - 90.05495).abs() < 1e-4);
}
