use rustyms::aminoacid::AminoAcid;
use rustyms::element::{Element, MassMode};
use rustyms::model::Model;
use rustyms::{
    Fragment, FragmentKind, FragmentType, MolecularCharge, MolecularFormula, Multi, NeutralLoss,
    PeptidePosition, Position,
};

fn formula(entries: &[(Element, Option<u16>, i32)]) -> MolecularFormula {
    MolecularFormula::new(entries).unwrap()
}

fn water() -> MolecularFormula {
    formula(&[(Element::H, None, 2), (Element::O, None, 1)])
}

#[test]
fn flip_terminal() {
    let n0 = PeptidePosition::n(0, 2);
    let n1 = PeptidePosition::n(1, 2);
    let n2 = PeptidePosition::n(2, 2);
    let c0 = PeptidePosition::c(0, 2);
    let c1 = PeptidePosition::c(1, 2);
    let c2 = PeptidePosition::c(2, 2);
    assert_eq!(n0.flip_terminal(), c0);
    assert_eq!(n1.flip_terminal(), c1);
    assert_eq!(n2.flip_terminal(), c2);
}

#[test]
fn flip_twice_and_series_sum() {
    for length in 1..6usize {
        for i in 0..length {
            let n = PeptidePosition::n(i, length);
            let c = PeptidePosition::c(i, length);
            assert_eq!(n.series_number + c.series_number, length + 1);
            assert_eq!(n.flip_terminal().flip_terminal(), n);
        }
    }
}

#[test]
fn terminal_checks() {
    let p = PeptidePosition::n(0, 3);
    assert!(p.is_n_terminal());
    assert!(!p.is_c_terminal());
    let q = PeptidePosition::c(2, 3);
    assert!(q.is_c_terminal());
    assert_eq!(Position::n(1, 3).series_number, 2);
    assert_eq!(Position::c(1, 3).series_number, 2);
}

#[test]
fn fragment_neutral_loss() {
    let a = Fragment::new(
        AminoAcid::AsparticAcid.formulas().alternatives()[0].clone(),
        1,
        0,
        0,
        FragmentType::precursor,
    );
    let loss = a.with_neutral_losses(&[NeutralLoss::Loss(water())]);
    assert_eq!(a.formula, loss[0].formula);
    assert_eq!(a.formula, loss[1].formula.plus(&water()));
}

#[test]
fn neutral_loss_masses() {
    let f = Fragment::new(
        formula(&[(Element::C, None, 4), (Element::H, None, 5), (Element::N, None, 1), (Element::O, None, 3)]),
        1,
        0,
        0,
        FragmentType::precursor,
    );
    let variants = f.with_neutral_losses(&[NeutralLoss::Loss(water())]);
    assert_eq!(variants.len(), 2);
    let m0 = variants[0].formula.monoisotopic_mass().unwrap();
    let m1 = variants[1].formula.monoisotopic_mass().unwrap();
    assert_eq!(m0, f.formula.monoisotopic_mass().unwrap());
    assert!(((m0 - m1) as f64 / 1e9 - 18.0106).abs() < 1e-4);
}

#[test]
fn gain_adds_formula() {
    let f = Fragment::new(water(), 1, 0, 0, FragmentType::precursor);
    let g = f.with_neutral_loss(&NeutralLoss::Gain(water()));
    assert_eq!(g.formula, water().times(2));
}

#[test]
fn mz_divides_by_charge() {
    let f = Fragment::new(water(), 2, 0, 0, FragmentType::precursor);
    assert_eq!(f.mz(MassMode::Monoisotopic), Some(9_005_282_342));
    let uncharged = Fragment::new(water(), 0, 0, 0, FragmentType::precursor);
    assert_eq!(uncharged.mz(MassMode::Monoisotopic), None);
}

#[test]
fn with_charge_adds_carriers() {
    let f = Fragment::new(water(), 0, 0, 0, FragmentType::precursor);
    let charged = f.with_charge(&MolecularCharge::proton(2));
    assert_eq!(charged.charge, 2);
    assert_eq!(
        charged.formula,
        formula(&[(Element::H, None, 4), (Element::O, None, 1), (Element::Electron, None, -2)])
    );
}

#[test]
fn generate_all_crosses_termini() {
    let termini = Multi::new(vec![MolecularFormula::empty(), water()]);
    let masses = Multi::new(vec![water()]);
    let all = Fragment::generate_all(&masses, 0, 1, &FragmentType::precursor, &termini, &[NeutralLoss::Loss(water())]);
    assert_eq!(all.len(), 4);
    assert_eq!(all[0].formula, water());
    assert_eq!(all[1].formula.elements().len(), 0);
    assert_eq!(all[2].formula, water().times(2));
    assert_eq!(all[3].formula, water());
    assert_eq!(all[3].peptide_index, 1);
}

#[test]
fn fragment_kinds() {
    let p = PeptidePosition::c(1, 3);
    assert_eq!(FragmentType::z_dot(p).kind(), FragmentKind::z);
    assert_eq!(FragmentType::y(p).position(), Some(&p));
    assert_eq!(FragmentType::precursor.position(), None);
}

#[test]
fn masses() {
    let known = &[
        ('A', 71.03711, 71.08),
        ('R', 156.10111, 156.2),
        ('N', 114.04293, 114.1),
        ('D', 115.02694, 115.1),
        ('C', 103.00919, 103.1),
        ('E', 129.04259, 129.1),
        ('Q', 128.05858, 128.1),
        ('G', 57.02146, 57.05),
        ('H', 137.05891, 137.1),
        ('I', 113.08406, 113.2),
        ('L', 113.08406, 113.2),
        ('K', 128.09496, 128.2),
        ('M', 131.04049, 131.2),
        ('F', 147.06841, 147.2),
        ('P', 97.05276, 97.12),
        ('S', 87.03203, 87.08),
        ('T', 101.04768, 101.1),
        ('W', 186.07931, 186.2),
        ('Y', 163.06333, 163.2),
        ('V', 99.06841, 99.13),
    ];

    for (aa, mono_mass, average_weight) in known {
        let aa = AminoAcid::try_from(*aa).unwrap();
        let formulas = aa.formulas();
        let f = &formulas.alternatives()[0];
        let (mono, weight) = (
            f.monoisotopic_mass().unwrap() as f64 / 1e9,
            f.average_weight().unwrap() as f64 / 1e9,
        );
        println!("{}: {} {} {} {}", aa.char(), mono, mono_mass, weight, average_weight);
        assert!((mono - *mono_mass).abs() < 1e-5);
        assert!((weight - *average_weight).abs() < 1e-1);
    }
}

#[test]
fn read_aa() {
    assert_eq!(AminoAcid::try_from('B').unwrap(), AminoAcid::AmbiguousAsparagine);
    assert_eq!(AminoAcid::try_from(b'B').unwrap(), AminoAcid::AmbiguousAsparagine);
    assert_eq!(AminoAcid::try_from('c'), Ok(AminoAcid::Cysteine));
    assert_eq!(AminoAcid::try_from('🦀'), Err(()));
}

#[test]
fn canonical_identity() {
    assert!(AminoAcid::Unknown.canonical_identical(AminoAcid::Tryptophan));
    assert!(AminoAcid::AmbiguousLeucine.canonical_identical(AminoAcid::Isoleucine));
    assert!(!AminoAcid::Leucine.canonical_identical(AminoAcid::Isoleucine));
    assert_eq!(AminoAcid::Glycine.char(), 'G');
}

#[test]
fn ambiguous_residues_have_two_formulas() {
    assert_eq!(AminoAcid::AmbiguousAsparagine.formulas().len(), 2);
    assert_eq!(AminoAcid::AmbiguousLeucine.satellite_ion_fragments().len(), 3);
    assert_eq!(AminoAcid::Glycine.satellite_ion_fragments().len(), 1);
    assert_eq!(AminoAcid::Arginine.immonium_losses().len(), 10);
}

#[test]
fn residue_fragments_for_b_and_y() {
    let model = Model::cid_hcd();
    let none = Multi::default();
    let charge = MolecularCharge::proton(1);
    let fragments = AminoAcid::Glycine.fragments(&none, &none, &none, &charge, 0, 2, &model.ions, 0, 0);
    // a: one, b and y: each with a water loss
    assert_eq!(fragments.len(), 5);
    for f in &fragments {
        assert_eq!(f.charge, 1);
    }
    // b1 of glycine: residue less one hydrogen, plus a proton
    let b = fragments.iter().find(|f| matches!(f.ion, FragmentType::b(_)) && f.neutral_loss.is_none()).unwrap();
    let mz = b.mz(MassMode::Monoisotopic).unwrap() as f64 / 1e9;
    assert!((mz - 57.02146 + 1.00782503 - 1.00727646).abs() < 1e-5);
}

#[test]
fn immonium_only_with_single_charges() {
    let mut model = Model::cid_hcd();
    model.ions.a.0 = false;
    model.ions.b.0 = false;
    model.ions.y.0 = false;
    model.ions.immonium = true;
    let none = Multi::default();
    let charge = MolecularCharge::proton(2);
    let fragments = AminoAcid::Phenylalanine.fragments(&none, &none, &none, &charge, 1, 3, &model.ions, 0, 0);
    // the immonium ion and its one listed gain
    assert_eq!(fragments.len(), 2);
    for f in &fragments {
        assert_eq!(f.charge, 1);
        assert!(matches!(f.ion, FragmentType::immonium(_, AminoAcid::Phenylalanine)));
    }
}

#[test]
fn nothing_enabled_gives_nothing() {
    let mut model = Model::cid_hcd();
    model.ions.a.0 = false;
    model.ions.b.0 = false;
    model.ions.y.0 = false;
    let none = Multi::default();
    let fragments = AminoAcid::Glycine.fragments(&none, &none, &none, &MolecularCharge::proton(1), 0, 1, &model.ions, 0, 0);
    assert!(fragments.is_empty());
}

#[test]
fn fragment_labels() {
    let p = PeptidePosition::c(1, 4);
    assert_eq!(FragmentType::y(p).label(), "y");
    assert_eq!(FragmentType::y(p).position_label(), Some("3".to_string()));
    assert_eq!(FragmentType::y(p).to_string(), "y3");
    assert_eq!(FragmentType::z_dot(p).to_string(), "z·3");
    assert_eq!(FragmentType::immonium(PeptidePosition::n(0, 4), AminoAcid::Lysine).to_string(), "iK1");
    assert_eq!(FragmentType::m(PeptidePosition::n(11, 14), AminoAcid::Serine).to_string(), "p-sS12");
    assert_eq!(FragmentType::precursor.to_string(), "p");
    assert_eq!(FragmentType::precursor.position_label(), None);
    assert_eq!(FragmentKind::immonium.name(), "immonium");
}

#[test]
fn with_charges_in_order() {
    let f = Fragment::new(water(), 0, 0, 0, FragmentType::precursor);
    let charged = f.with_charges(&[MolecularCharge::proton(1), MolecularCharge::proton(3)]);
    assert_eq!(charged.len(), 2);
    assert_eq!(charged[0].charge, 1);
    assert_eq!(charged[1].charge, 3);
}

#[test]
fn mass() {
    let formulas = AminoAcid::Alanine.formulas();
    let f = &formulas.alternatives()[0];
    let weight_ala = f.average_weight().unwrap() as f64 / 1e9;
    let mass_ala = f.monoisotopic_mass().unwrap() as f64 / 1e9;
    assert_ne!(weight_ala, mass_ala);
    assert!((weight_ala - 71.07793).abs() < 1e-5);
    assert!((mass_ala - 71.037113783).abs() < 1e-5);
}

#[test]
fn mass_lysine() {
    let formulas = AminoAcid::Lysine.formulas();
    let f = &formulas.alternatives()[0];
    let weight_lys = f.average_weight().unwrap() as f64 / 1e9;
    let mass_lys = f.monoisotopic_mass().unwrap() as f64 / 1e9;
    assert_ne!(weight_lys, mass_lys);
    assert!((weight_lys - 128.17240999999999).abs() < 1e-5);
    assert!((mass_lys - 128.094963010536).abs() < 1e-5);
}
