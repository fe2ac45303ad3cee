use rustyms::element::{Element, MassMode};
use rustyms::model::Model;
use rustyms::Peptidoform;
use rustyms::{
    AnnotatedPeak, Fragment, FragmentType, MolecularCharge, MolecularFormula, PeakSpectrum, RawPeak,
    RawSpectrum,
};

fn peak(mz: i128) -> RawPeak {
    RawPeak { mz, intensity: 100, charge: 1 }
}

fn spectrum(mzs: &[i128]) -> RawSpectrum {
    let mut s = RawSpectrum::new("test".to_string(), 1, 0, 1, 0);
    s.extend(mzs.iter().map(|m| peak(*m)).collect());
    s
}

/// A precursor fragment of the given formula and charge.
fn fragment_with_charge(formula: MolecularFormula, charge: usize) -> Fragment {
    Fragment::new(formula, charge, 0, 0, FragmentType::precursor)
}

#[test]
fn peaks_stay_sorted() {
    let s = spectrum(&[300, 100, 200, 100]);
    let mzs: Vec<i128> = s.spectrum().iter().map(|p| p.mz).collect();
    assert_eq!(mzs, vec![100, 100, 200, 300]);
}

#[test]
fn range_query_includes_duplicates() {
    let s = spectrum(&[100, 150, 150, 150, 200, 250]);
    let r = s.binary_search(150, 200);
    assert_eq!(r.len(), 4);
    assert!(r.iter().all(|p| p.mz >= 150 && p.mz <= 200));
    assert_eq!(s.binary_search(151, 199).len(), 0);
    assert_eq!(s.binary_search(300, 100).len(), 0);
    assert_eq!(s.binary_search(0, 1000).len(), 6);
}

#[test]
fn annotation_attaches_to_nearest_within_tolerance() {
    // carbon-12 is exactly 12 Da: 12 carbons at charge one is 144 Da per charge.
    let carbon = |n: i32| MolecularFormula::new(&[(Element::C, None, n)]).unwrap();
    let target = 144_000_000_000i128;
    let s = spectrum(&[100_000_000_000, target + 480_000, 200_000_000_000]);
    let model = Model::all();
    let close = fragment_with_charge(carbon(12), 1);
    let far = fragment_with_charge(carbon(40), 1);
    let annotated = s.annotate(Peptidoform(Vec::new()), &[close, far], &model, MassMode::Monoisotopic);
    let peaks = annotated.spectrum();
    assert_eq!(peaks.len(), 3);
    assert_eq!(peaks[0].annotation.len(), 0);
    assert_eq!(peaks[1].annotation.len(), 1);
    assert_eq!(peaks[2].annotation.len(), 0);
}

#[test]
fn annotation_scenario_in_ppm() {
    // peaks at 100.0000, 150.0005, 200.0000; a fragment at 150.0000 with 10 ppm
    let s = spectrum(&[100_000_000_000, 150_000_500_000, 200_000_000_000]);
    let mut model = Model::all();
    model.ppm = 10;
    // 150 Da at charge one: 25 carbon-12 at charge two is 150 Da per charge
    let at_150 = fragment_with_charge(MolecularFormula::new(&[(Element::C, None, 25)]).unwrap(), 2);
    assert_eq!(at_150.mz(MassMode::Monoisotopic), Some(150_000_000_000));
    // 500 Da: 125 carbon-12 at charge three
    let at_500 = fragment_with_charge(MolecularFormula::new(&[(Element::C, None, 125)]).unwrap(), 3);
    assert_eq!(at_500.mz(MassMode::Monoisotopic), Some(500_000_000_000));
    let annotated = s.annotate(Peptidoform(Vec::new()), &[at_150, at_500], &model, MassMode::Monoisotopic);
    let peaks = annotated.spectrum();
    assert_eq!(peaks[0].annotation.len(), 0);
    assert_eq!(peaks[1].annotation.len(), 1);
    assert_eq!(peaks[2].annotation.len(), 0);
}

#[test]
fn outside_tolerance_is_dropped() {
    let s = spectrum(&[150_010_000_000]);
    let mut model = Model::all();
    model.ppm = 10;
    let at_150 = fragment_with_charge(MolecularFormula::new(&[(Element::C, None, 25)]).unwrap(), 2);
    let annotated = s.annotate(Peptidoform(Vec::new()), &[at_150], &model, MassMode::Monoisotopic);
    assert_eq!(annotated.spectrum()[0].annotation.len(), 0);
}

#[test]
fn empty_spectrum_annotates_nothing() {
    let s = spectrum(&[]);
    let model = Model::all();
    let f = fragment_with_charge(MolecularFormula::new(&[(Element::C, None, 1)]).unwrap(), 1);
    let annotated = s.annotate(Peptidoform(Vec::new()), &[f], &model, MassMode::Monoisotopic);
    assert_eq!(annotated.spectrum().len(), 0);
}

#[test]
fn charged_fragment_annotation() {
    let water = MolecularFormula::new(&[(Element::H, None, 2), (Element::O, None, 1)]).unwrap();
    let f = Fragment::new(water, 0, 0, 0, FragmentType::precursor).with_charge(&MolecularCharge::proton(1));
    let mz = f.mz(MassMode::Monoisotopic).unwrap();
    let s = spectrum(&[mz - 100, mz + 50_000_000]);
    let annotated = s.annotate(Peptidoform(Vec::new()), &[f], &Model::all(), MassMode::Monoisotopic);
    assert_eq!(annotated.spectrum()[0].annotation.len(), 1);
    assert_eq!(annotated.spectrum()[1].annotation.len(), 0);
}

#[test]
fn noise_filter_keeps_strong_peaks() {
    let mut s = RawSpectrum::new("noise".to_string(), 1, 0, 1, 0);
    s.extend(vec![
        RawPeak { mz: 300, intensity: 1000, charge: 1 },
        RawPeak { mz: 100, intensity: 50, charge: 1 },
        RawPeak { mz: 200, intensity: 500, charge: 1 },
    ]);
    s.noise_filter(100_000);
    let kept: Vec<i128> = s.spectrum().iter().map(|p| p.mz).collect();
    assert_eq!(kept, vec![200, 300]);
}

#[test]
fn add_peak_goes_after_equal_mz() {
    let mut s = RawSpectrum::new("order".to_string(), 1, 0, 1, 0);
    s.add_peak(RawPeak { mz: 100, intensity: 1, charge: 1 });
    s.add_peak(RawPeak { mz: 100, intensity: 2, charge: 1 });
    s.add_peak(RawPeak { mz: 50, intensity: 3, charge: 1 });
    let intensities: Vec<u64> = s.spectrum().iter().map(|p| p.intensity).collect();
    assert_eq!(intensities, vec![3, 1, 2]);
}

#[test]
fn default_spectrum_is_empty() {
    let s = RawSpectrum::default();
    assert_eq!(s.spectrum().len(), 0);
    assert_eq!(s.charge, 1);
}

#[test]
fn annotated_spectrum_extend_and_range() {
    let s = spectrum(&[100, 200]);
    let mut annotated = s.annotate(Peptidoform(Vec::new()), &[], &Model::all(), MassMode::Monoisotopic);
    annotated.extend(vec![
        AnnotatedPeak::background(&RawPeak { mz: 150, intensity: 1, charge: 1 }),
        AnnotatedPeak::background(&RawPeak { mz: 50, intensity: 1, charge: 1 }),
    ]);
    let mzs: Vec<i128> = annotated.spectrum().iter().map(|p| p.experimental_mz).collect();
    assert_eq!(mzs, vec![50, 100, 150, 200]);
    assert_eq!(annotated.binary_search(100, 150).len(), 2);
}

#[test]
fn annotation_keeps_metadata() {
    let mut s = RawSpectrum::new("scan 7".to_string(), 3, 1200, 2, 500_000_000_000);
    s.extend(vec![peak(100)]);
    let annotated = s.annotate(Peptidoform(Vec::new()), &[], &Model::all(), MassMode::Monoisotopic);
    assert_eq!(annotated.title, "scan 7");
    assert_eq!((annotated.num_scans, annotated.rt, annotated.charge, annotated.mass), (3, 1200, 2, 500_000_000_000));
    assert_eq!(annotated.peptide.peptides().len(), 0);
}

#[test]
fn presets_carry_water_loss() {
    let cid = Model::cid_hcd();
    assert!(cid.ions.a.1.is_empty());
    assert_eq!(cid.ions.b.1.len(), 1);
    assert_eq!(cid.ions.y.1.len(), 1);
    assert!(!cid.ions.c.0);
}
