use rustyms::element::Element;
use rustyms::{MolecularCharge, MolecularFormula};

fn formula(entries: &[(Element, Option<u16>, i32)]) -> MolecularFormula {
    MolecularFormula::new(entries).unwrap()
}

fn proton() -> MolecularFormula {
    formula(&[(Element::H, None, 1), (Element::Electron, None, -1)])
}

#[test]
fn simple_charge_options() {
    let mc = MolecularCharge::new(&[(1, proton())]);
    let options = mc.options(1);
    assert_eq!(options.len(), 1);
    assert_eq!(options[0].formula(), proton());
}

#[test]
fn proton_options_for_zero_charge() {
    let mc = MolecularCharge::new(&[(1, proton())]);
    assert_eq!(mc.options(0).len(), 0);
}

#[test]
fn proton_constructor() {
    let mc = MolecularCharge::proton(3);
    assert_eq!(mc.charge(), 3);
    assert_eq!(mc.charge_carriers().len(), 1);
    assert_eq!(mc.charge_carriers()[0].0, 3);
    assert_eq!(mc.formula(), proton().times(3));
    assert_eq!(MolecularCharge::proton(0).charge_carriers().len(), 0);
}

#[test]
fn new_merges_equal_carriers_and_drops_zero() {
    let sodium = formula(&[(Element::Na, None, 1), (Element::Electron, None, -1)]);
    let mc = MolecularCharge::new(&[(1, proton()), (0, sodium.clone()), (2, proton())]);
    assert_eq!(mc.charge_carriers().len(), 1);
    assert_eq!(mc.charge_carriers()[0].0, 3);
    assert_eq!(mc.charge(), 3);
}

#[test]
fn options_choose_carriers() {
    let sodium = formula(&[(Element::Na, None, 1), (Element::Electron, None, -1)]);
    let mc = MolecularCharge::new(&[(2, proton()), (1, sodium.clone())]);
    let two = mc.options(2);
    // 2H+, or H+ with Na+
    assert_eq!(two.len(), 2);
    for option in &two {
        assert_eq!(option.charge(), 2);
    }
    let three = mc.options(3);
    assert_eq!(three.len(), 1);
    assert_eq!(three[0].charge_carriers().len(), 2);
    assert_eq!(mc.options(4).len(), 0);
    let all = mc.all_charge_options();
    // charge 1: H+ or Na+; charge 2: two options; charge 3: one
    assert_eq!(all.len(), 5);
}

#[test]
fn single_charge_options() {
    let calcium = formula(&[(Element::Ca, None, 1), (Element::Electron, None, -2)]);
    let mc = MolecularCharge::new(&[(2, proton()), (1, calcium)]);
    let singles = mc.all_single_charge_options();
    assert_eq!(singles.len(), 1);
    assert_eq!(singles[0].charge(), 1);
    assert_eq!(singles[0].formula(), proton());
}

#[test]
fn carriers_are_sorted() {
    let sodium = formula(&[(Element::Na, None, 1), (Element::Electron, None, -1)]);
    let mc = MolecularCharge::new(&[(1, sodium.clone()), (2, proton())]);
    assert_eq!(mc.charge_carriers()[0].1, proton());
    assert_eq!(mc.charge_carriers()[1].1, sodium);
    assert!(proton().less_than(&sodium));
    assert!(!sodium.less_than(&proton()));
    assert!(!proton().less_than(&proton()));
}

#[test]
fn charge_state_text() {
    assert_eq!(MolecularCharge::proton(2).to_string(), "2");
    let sodium = formula(&[(Element::Na, None, 1), (Element::Electron, None, -1)]);
    let mc = MolecularCharge::new(&[(1, sodium), (1, proton())]);
    assert_eq!(mc.to_string(), "2[1He-1+1,1Nae-1+1]");
}
