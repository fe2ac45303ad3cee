use rustyms::element::Element;
use rustyms::psi_mod::parse_molecular_formula_psi_mod;
use rustyms::MolecularFormula;

#[test]
fn parse_molecular_formula() {
    assert_eq!(
        parse_molecular_formula_psi_mod("(12)C -5 (13)C 5 H 0 N 0 O 0 S 0").unwrap(),
        MolecularFormula::new(&[
            (Element::C, Some(12), -5),
            (Element::C, Some(13), 5),
            (Element::H, None, 0),
            (Element::N, None, 0),
            (Element::O, None, 0),
            (Element::S, None, 0),
        ])
        .unwrap()
    );
    assert_eq!(
        parse_molecular_formula_psi_mod("(12)C -9 (13)C 9").unwrap(),
        MolecularFormula::new(&[(Element::C, Some(12), -9), (Element::C, Some(13), 9)]).unwrap()
    );
}

#[test]
fn parse_two_letter_symbols_and_repeats() {
    let f = parse_molecular_formula_psi_mod("Na 1 H -1 Na 1").unwrap();
    assert_eq!(f.elements(), &[(Element::H, None, -1), (Element::Na, None, 2)]);
}

#[test]
fn parse_rejects_malformed_text() {
    assert!(parse_molecular_formula_psi_mod("C").is_none());
    assert!(parse_molecular_formula_psi_mod("Xx 1").is_none());
    assert!(parse_molecular_formula_psi_mod("(13C 1").is_none());
    assert!(parse_molecular_formula_psi_mod("C 1x").is_none());
    assert!(parse_molecular_formula_psi_mod("C 99999999999").is_none());
    assert_eq!(parse_molecular_formula_psi_mod("").unwrap().elements().len(), 0);
}
