use rustyms::element::Element;
use rustyms::notation::NotationStyle;
use rustyms::MolecularFormula;

fn formula(entries: &[(Element, Option<u16>, i32)]) -> MolecularFormula {
    MolecularFormula::new(entries).unwrap()
}

fn daltons(nano: i128) -> f64 {
    nano as f64 / 1e9
}

#[test]
fn plus_negation_is_empty() {
    let f = formula(&[(Element::C, None, 6), (Element::H, None, 12), (Element::O, None, 6)]);
    let sum = f.plus(&f.negated());
    assert_eq!(sum.elements().len(), 0);
}

#[test]
fn add_merges_and_removes_at_zero() {
    let mut f = MolecularFormula::empty();
    f.add(Element::C, None, 2);
    f.add(Element::C, None, 3);
    assert_eq!(f.elements(), &[(Element::C, None, 5)]);
    f.add(Element::C, None, -5);
    assert_eq!(f.elements().len(), 0);
}

#[test]
fn add_keeps_isotopes_apart_and_sorted() {
    let mut f = MolecularFormula::empty();
    f.add(Element::O, None, 1);
    f.add(Element::C, Some(13), 2);
    f.add(Element::C, None, 1);
    f.add(Element::H, None, 4);
    assert_eq!(
        f.elements(),
        &[
            (Element::H, None, 4),
            (Element::C, None, 1),
            (Element::C, Some(13), 2),
            (Element::O, None, 1)
        ]
    );
}

#[test]
fn new_rejects_overflowing_counts() {
    assert!(MolecularFormula::new(&[(Element::C, None, i32::MAX), (Element::C, None, 1)]).is_none());
}

#[test]
fn glycine_masses() {
    let g = formula(&[(Element::C, None, 2), (Element::H, None, 3), (Element::N, None, 1), (Element::O, None, 1)]);
    let mono = daltons(g.monoisotopic_mass().unwrap());
    let average = daltons(g.average_weight().unwrap());
    assert!((mono - 57.02146).abs() < 1e-5);
    assert!((average - 57.05).abs() < 0.1);
}

#[test]
fn exact_nanodalton_mass() {
    let water = formula(&[(Element::H, None, 2), (Element::O, None, 1)]);
    assert_eq!(water.monoisotopic_mass(), Some(18_010_564_684));
}

#[test]
fn untabulated_isotope_has_no_mass() {
    let f = formula(&[(Element::C, None, 2), (Element::C, Some(99), 1)]);
    assert_eq!(f.monoisotopic_mass(), None);
    assert_eq!(f.average_weight(), None);
}

#[test]
fn isotope_mass_is_used_in_every_mode() {
    let f = formula(&[(Element::C, Some(13), 1)]);
    assert_eq!(f.monoisotopic_mass(), Some(13_003_354_838));
    assert_eq!(f.average_weight(), Some(13_003_354_838));
    assert_eq!(f.most_abundant_mass(), Some(13_003_354_838));
}

#[test]
fn charge_from_electrons() {
    let proton = formula(&[(Element::H, None, 1), (Element::Electron, None, -1)]);
    assert_eq!(proton.charge(), 1);
    let anion = formula(&[(Element::Cl, None, 1), (Element::Electron, None, 1)]);
    assert_eq!(anion.charge(), -1);
}

#[test]
fn times_and_minus() {
    let water = formula(&[(Element::H, None, 2), (Element::O, None, 1)]);
    let three = water.times(3);
    assert_eq!(three.elements(), &[(Element::H, None, 6), (Element::O, None, 3)]);
    let two = three.minus(&water);
    assert_eq!(two, water.times(2));
    assert_eq!(water.times(0).elements().len(), 0);
}

#[test]
fn hill_order_independent_of_insertion() {
    let mut a = MolecularFormula::empty();
    a.add(Element::O, None, 2);
    a.add(Element::N, None, 1);
    a.add(Element::H, None, 7);
    a.add(Element::C, None, 3);
    let mut b = MolecularFormula::empty();
    b.add(Element::C, None, 3);
    b.add(Element::H, None, 7);
    b.add(Element::N, None, 1);
    b.add(Element::O, None, 2);
    assert_eq!(a.hill_notation(), "C3H7NO2");
    assert_eq!(b.hill_notation(), "C3H7NO2");
}

#[test]
fn hill_without_carbon_is_alphabetical() {
    let f = formula(&[(Element::O, None, 1), (Element::H, None, 2), (Element::Na, None, 1), (Element::Cl, None, 1)]);
    assert_eq!(f.hill_notation(), "ClH2NaO");
}

#[test]
fn hill_renderings() {
    let f = formula(&[(Element::C, None, 2), (Element::H, None, 3), (Element::N, None, 1), (Element::O, None, 1)]);
    assert_eq!(f.hill_notation_unicode(), "C₂H₃NO");
    assert_eq!(f.hill_notation_html(), "C<sub>2</sub>H<sub>3</sub>NO");
    assert_eq!(f.hill_notation_in(NotationStyle::Ascii), "C2H3NO");
}

#[test]
fn hill_negative_counts_and_isotopes() {
    let f = formula(&[(Element::C, Some(13), 2), (Element::C, None, 1), (Element::O, None, -1)]);
    assert_eq!(f.hill_notation(), "C[13]C2O-1");
    assert_eq!(f.hill_notation_unicode(), "C[13]C₂O₋₁");
}

#[test]
fn multi_cross_products() {
    let water = formula(&[(Element::H, None, 2), (Element::O, None, 1)]);
    let carbon = formula(&[(Element::C, None, 1)]);
    let a = rustyms::Multi::new(vec![water.clone(), carbon.clone()]);
    let b = rustyms::Multi::new(vec![carbon.clone(), water.clone(), MolecularFormula::empty()]);
    let sum = a.cross(&b);
    assert_eq!(sum.len(), 6);
    assert_eq!(sum.alternatives()[0], formula(&[(Element::H, None, 2), (Element::C, None, 1), (Element::O, None, 1)]));
    assert_eq!(sum.alternatives()[4], formula(&[(Element::H, None, 2), (Element::C, None, 1), (Element::O, None, 1)]));
    assert_eq!(sum.alternatives()[5], carbon);
    let difference = a.cross_minus(&b);
    assert_eq!(difference.len(), 6);
    assert_eq!(difference.alternatives()[1].elements().len(), 0);
    assert_eq!(difference.alternatives()[3].elements().len(), 0);
    assert_eq!(difference.alternatives()[4], carbon.minus(&water));
    let identity = rustyms::Multi::default();
    assert_eq!(identity.len(), 1);
    assert_eq!(a.cross(&identity).alternatives()[1], carbon);
    assert_eq!(a.negated().alternatives()[0], water.negated());
    assert_eq!(a.plus_formula(&carbon).alternatives()[1], carbon.times(2));
    assert_eq!(a.minus_formula(&carbon).alternatives()[1].elements().len(), 0);
}

#[test]
fn adding_negated_entries_empties() {
    let f = formula(&[(Element::C, None, 6), (Element::H, Some(2), 3), (Element::O, None, -2)]);
    let mut g = f.clone();
    for (e, i, n) in f.elements() {
        g.add(*e, *i, -*n);
    }
    assert_eq!(g.elements().len(), 0);
}
