//! Spectra: peak lists kept sorted by m/z, range queries, and annotation of peaks with
//! the theoretical fragments that match them.
use vstd::prelude::*;

use crate::element::MassMode;
use crate::formula::MASS_LIMIT;
use crate::fragment::{fragment_mz, Fragment, FragmentView};
use crate::model::Model;
use crate::peptide::Peptidoform;

verus! {

/// The count of m/z values at most `x`.
pub open spec fn count_at_most(s: Seq<int>, x: int) -> nat
    decreases s.len(),
{
    if s.len() == 0 {
        0
    } else {
        count_at_most(s.drop_last(), x) + if s.last() <= x {
            1nat
        } else {
            0
        }
    }
}

/// The count of m/z values below `x`.
pub open spec fn count_below(s: Seq<int>, x: int) -> nat
    decreases s.len(),
{
    if s.len() == 0 {
        0
    } else {
        count_below(s.drop_last(), x) + if s.last() < x {
            1nat
        } else {
            0
        }
    }
}

/// Ascending m/z values within `0 ..= MASS_LIMIT`.
pub open spec fn sorted_mzs(s: Seq<int>) -> bool {
    &&& forall|i: int, j: int| 0 <= i <= j < s.len() ==> s[i] <= s[j]
    &&& forall|i: int| 0 <= i < s.len() ==> 0 <= #[trigger] s[i] <= MASS_LIMIT
}

/// In a sorted list, the values below `x` are a prefix.
proof fn lemma_count_below(s: Seq<int>, x: int, p: int)
    requires
        forall|i: int, j: int| 0 <= i <= j < s.len() ==> s[i] <= s[j],
        0 <= p <= s.len(),
        forall|i: int| 0 <= i < p ==> s[i] < x,
        forall|i: int| p <= i < s.len() ==> s[i] >= x,
    ensures
        count_below(s, x) == p,
    decreases s.len(),
{
    if s.len() > 0 {
        if p == s.len() {
            lemma_count_below(s.drop_last(), x, p - 1);
        } else {
            lemma_count_below(s.drop_last(), x, p);
        }
    }
}

/// In a sorted list, the values at most `x` are a prefix.
proof fn lemma_count_at_most(s: Seq<int>, x: int, p: int)
    requires
        forall|i: int, j: int| 0 <= i <= j < s.len() ==> s[i] <= s[j],
        0 <= p <= s.len(),
        forall|i: int| 0 <= i < p ==> s[i] <= x,
        forall|i: int| p <= i < s.len() ==> s[i] > x,
    ensures
        count_at_most(s, x) == p,
    decreases s.len(),
{
    if s.len() > 0 {
        if p == s.len() {
            lemma_count_at_most(s.drop_last(), x, p - 1);
        } else {
            lemma_count_at_most(s.drop_last(), x, p);
        }
    }
}

/// The spectra that hold peaks sorted by m/z.
pub trait PeakSpectrum {
    type PeakType;

    /// The peaks, in order.
    spec fn peaks_view(&self) -> Seq<Self::PeakType>;

    /// The m/z of a peak.
    spec fn peak_mz(p: Self::PeakType) -> int;

    /// The m/z values of the peaks, in order.
    spec fn mzs(&self) -> Seq<int>;

    /// The peaks are sorted by m/z, and `mzs` lists their m/z values.
    spec fn spectrum_wf(&self) -> bool;

    /// Everything but the peaks is the same in both spectra.
    spec fn same_metadata(&self, other: &Self) -> bool;

    /// The peaks whose m/z lies in `low ..= high`.
    fn binary_search(&self, low: i128, high: i128) -> (r: &[Self::PeakType])
        requires
            self.spectrum_wf(),
        ensures
            r@ == self.peaks_view().subrange(
                count_below(self.mzs(), low as int) as int,
                if low <= high {
                    count_at_most(self.mzs(), high as int) as int
                } else {
                    count_below(self.mzs(), low as int) as int
                },
            ),
            forall|i: int| 0 <= i < r@.len() ==> low <= Self::peak_mz(#[trigger] r@[i]) <= high,
    ;

    /// All peaks, in order.
    fn spectrum(&self) -> (r: &[Self::PeakType])
        ensures
            r@ == self.peaks_view(),
    ;

    /// Insert a peak after the peaks of lower or equal m/z.
    fn add_peak(&mut self, item: Self::PeakType)
        requires
            old(self).spectrum_wf(),
            0 <= Self::peak_mz(item) <= MASS_LIMIT,
        ensures
            final(self).spectrum_wf(),
            final(self).same_metadata(old(self)),
            final(self).peaks_view() == old(self).peaks_view().insert(
                count_at_most(old(self).mzs(), Self::peak_mz(item)) as int,
                item,
            ),
    ;
}

/// A peak with an m/z.
pub trait Peak {
    spec fn mz_of(&self) -> int;

    fn mz_value(&self) -> (r: i128)
        ensures
            r == self.mz_of(),
    ;
}

/// The m/z values of a list of peaks.
pub open spec fn mz_seq<P: Peak>(s: Seq<P>) -> Seq<int> {
    s.map_values(|p: P| p.mz_of())
}

/// The index of the first peak with m/z not below `x`.
fn lower_bound<P: Peak>(s: &[P], x: i128) -> (p: usize)
    requires
        sorted_mzs(mz_seq(s@)),
    ensures
        p <= s@.len(),
        count_below(mz_seq(s@), x as int) == p,
{
    let ghost m = mz_seq(s@);
    let mut lo: usize = 0;
    let mut hi: usize = s.len();
    while lo < hi
        invariant
            m == mz_seq(s@),
            sorted_mzs(m),
            lo <= hi <= m.len(),
            forall|i: int| 0 <= i < lo ==> m[i] < x,
            forall|i: int| hi <= i < m.len() ==> m[i] >= x,
        decreases hi - lo,
    {
        let mid = lo + (hi - lo) / 2;
        proof {
            assert(m[mid as int] == s@[mid as int].mz_of());
        }
        if s[mid].mz_value() < x {
            lo = mid + 1;
        } else {
            hi = mid;
        }
    }
    proof {
        lemma_count_below(m, x as int, lo as int);
    }
    lo
}

/// The index of the first peak with m/z above `x`.
fn upper_bound<P: Peak>(s: &[P], x: i128) -> (p: usize)
    requires
        sorted_mzs(mz_seq(s@)),
    ensures
        p <= s@.len(),
        count_at_most(mz_seq(s@), x as int) == p,
{
    let ghost m = mz_seq(s@);
    let mut lo: usize = 0;
    let mut hi: usize = s.len();
    while lo < hi
        invariant
            m == mz_seq(s@),
            sorted_mzs(m),
            lo <= hi <= m.len(),
            forall|i: int| 0 <= i < lo ==> m[i] <= x,
            forall|i: int| hi <= i < m.len() ==> m[i] > x,
        decreases hi - lo,
    {
        let mid = lo + (hi - lo) / 2;
        proof {
            assert(m[mid as int] == s@[mid as int].mz_of());
        }
        if s[mid].mz_value() <= x {
            lo = mid + 1;
        } else {
            hi = mid;
        }
    }
    proof {
        lemma_count_at_most(m, x as int, lo as int);
    }
    lo
}

/// A peak that is not annotated.
#[derive(Clone, Copy, Debug, PartialEq, Eq, Structural)]
pub struct RawPeak {
    /// The m/z in nanodaltons per unit charge.
    pub mz: i128,
    /// The intensity.
    pub intensity: u64,
    /// The charge.
    pub charge: i64,
}

/// A spectrum whose peaks are not annotated.
#[derive(Debug)]
pub struct RawSpectrum {
    /// The title.
    pub title: String,
    /// The number of scans.
    pub num_scans: u64,
    /// The retention time in milliseconds.
    pub rt: u64,
    /// The precursor charge.
    pub charge: i64,
    /// The precursor mass in nanodaltons.
    pub mass: i128,
    /// The precursor intensity.
    pub intensity: Option<u64>,
    /// The peaks, sorted by m/z while the spectrum is well formed.
    pub spectrum: Vec<RawPeak>,
}

impl Peak for RawPeak {
    open spec fn mz_of(&self) -> int {
        self.mz as int
    }

    fn mz_value(&self) -> (r: i128) {
        self.mz
    }
}

/// The peaks with `x` inserted after those of lower or equal m/z.
pub open spec fn inserted<P: Peak>(s: Seq<P>, x: P) -> Seq<P> {
    s.insert(count_at_most(mz_seq(s), x.mz_of()) as int, x)
}

/// The peaks with the items inserted one by one.
pub open spec fn extended<P: Peak>(s: Seq<P>, items: Seq<P>) -> Seq<P>
    decreases items.len(),
{
    if items.len() == 0 {
        s
    } else {
        inserted(extended(s, items.drop_last()), items.last())
    }
}

/// The highest intensity; zero when there are no peaks.
pub open spec fn max_intensity(s: Seq<RawPeak>) -> int
    decreases s.len(),
{
    if s.len() == 0 {
        0
    } else {
        let m = max_intensity(s.drop_last());
        if s.last().intensity > m {
            s.last().intensity as int
        } else {
            m
        }
    }
}

/// The peaks, in order, whose intensity in millionths reaches `limit`.
pub open spec fn above_threshold(s: Seq<RawPeak>, limit: int) -> Seq<RawPeak>
    decreases s.len(),
{
    if s.len() == 0 {
        Seq::empty()
    } else {
        above_threshold(s.drop_last(), limit) + if s.last().intensity * 1_000_000 >= limit {
            seq![s.last()]
        } else {
            Seq::empty()
        }
    }
}

impl RawSpectrum {
    /// An empty spectrum.
    pub fn new(title: String, num_scans: u64, rt: u64, charge: i64, mass: i128) -> (r: Self)
        ensures
            r.spectrum_wf(),
            r.peaks_view().len() == 0,
            r.title@ == title@,
            r.num_scans == num_scans,
            r.rt == rt,
            r.charge == charge,
            r.mass == mass,
            r.intensity is None,
    {
        RawSpectrum {
            title,
            num_scans,
            rt,
            charge,
            mass,
            intensity: None,
            spectrum: Vec::new(),
        }
    }

    /// Insert every peak, each after the peaks of lower or equal m/z.
    pub fn extend(&mut self, peaks: Vec<RawPeak>)
        requires
            old(self).spectrum_wf(),
            forall|i: int| 0 <= i < peaks@.len() ==> 0 <= (#[trigger] peaks@[i]).mz <= MASS_LIMIT,
        ensures
            final(self).spectrum_wf(),
            final(self).same_metadata(old(self)),
            final(self).peaks_view() == extended(old(self).peaks_view(), peaks@),
    {
        let mut i: usize = 0;
        while i < peaks.len()
            invariant
                self.spectrum_wf(),
                self.same_metadata(old(self)),
                i <= peaks@.len(),
                forall|i: int| 0 <= i < peaks@.len() ==> 0 <= (#[trigger] peaks@[i]).mz <= MASS_LIMIT,
                self.peaks_view() == extended(old(self).peaks_view(), peaks@.subrange(0, i as int)),
            decreases peaks@.len() - i,
        {
            proof {
                assert(peaks@.subrange(0, i + 1).drop_last() =~= peaks@.subrange(0, i as int));
            }
            self.add_peak(peaks[i]);
            i += 1;
        }
        proof {
            assert(peaks@.subrange(0, i as int) =~= peaks@);
        }
    }

    /// Keep the peaks whose intensity is at least `filter_threshold` millionths of the
    /// highest intensity.
    pub fn noise_filter(&mut self, filter_threshold: u64)
        requires
            old(self).spectrum_wf(),
            filter_threshold <= 1_000_000,
        ensures
            final(self).spectrum_wf(),
            final(self).same_metadata(old(self)),
            final(self).peaks_view() == above_threshold(
                old(self).peaks_view(),
                max_intensity(old(self).peaks_view()) * filter_threshold,
            ),
    {
        let n = self.spectrum.len();
        let mut max: u64 = 0;
        let mut i: usize = 0;
        while i < n
            invariant
                n == self.spectrum@.len(),
                i <= n,
                max == max_intensity(self.spectrum@.subrange(0, i as int)),
            decreases n - i,
        {
            proof {
                assert(self.spectrum@.subrange(0, i + 1).drop_last() =~= self.spectrum@.subrange(0, i as int));
            }
            if self.spectrum[i].intensity > max {
                max = self.spectrum[i].intensity;
            }
            i += 1;
        }
        proof {
            assert(self.spectrum@.subrange(0, n as int) =~= self.spectrum@);
        }
        proof {
            assert((max as int) * (filter_threshold as int) <= 0x1_0000_0000_0000_0000 * 1_000_000) by (nonlinear_arith)
                requires 0 <= max < 0x1_0000_0000_0000_0000, 0 <= filter_threshold <= 1_000_000,
            {}
        }
        let limit: u128 = (max as u128) * (filter_threshold as u128);
        let ghost s = self.spectrum@;
        let mut kept: Vec<RawPeak> = Vec::new();
        let mut j: usize = 0;
        while j < n
            invariant
                n == s.len(),
                s == self.spectrum@,
                sorted_mzs(mz_seq(s)),
                j <= n,
                limit == max_intensity(s) * filter_threshold,
                kept@ == above_threshold(s.subrange(0, j as int), limit as int),
                sorted_mzs(mz_seq(kept@)),
                forall|a: int, b: int| 0 <= a < kept@.len() && j <= b < n ==> kept@[a].mz <= s[b].mz,
            decreases n - j,
        {
            proof {
                assert(s.subrange(0, j + 1).drop_last() =~= s.subrange(0, j as int));
                assert(mz_seq(s)[j as int] == s[j as int].mz);
            }
            let p = self.spectrum[j];
            if (p.intensity as u128) * 1_000_000 >= limit {
                let ghost before = kept@;
                kept.push(p);
                proof {
                    assert forall|a: int, b: int| 0 <= a <= b < kept@.len() implies mz_seq(kept@)[a] <= mz_seq(kept@)[b] by {
                        if b == kept@.len() - 1 && a < b {
                            assert(before[a].mz <= s[j as int].mz);
                        } else if b < kept@.len() - 1 {
                            assert(mz_seq(before)[a] <= mz_seq(before)[b]);
                        }
                    }
                    assert forall|a: int| 0 <= a < kept@.len() implies 0 <= #[trigger] mz_seq(kept@)[a] <= MASS_LIMIT by {
                        if a < kept@.len() - 1 {
                            assert(mz_seq(before)[a] == mz_seq(kept@)[a]);
                        }
                    }
                    assert forall|a: int, b: int| 0 <= a < kept@.len() && j + 1 <= b < n implies kept@[a].mz <= s[b].mz by {
                        assert(mz_seq(s)[j as int] <= mz_seq(s)[b]);
                        if a < kept@.len() - 1 {
                            assert(before[a].mz <= s[b].mz);
                        }
                    }
                }
            } else {
                proof {
                    assert forall|a: int, b: int| 0 <= a < kept@.len() && j + 1 <= b < n implies kept@[a].mz <= s[b].mz by {
                        assert(kept@[a].mz <= s[b].mz);
                    }
                }
            }
            j += 1;
        }
        proof {
            assert(s.subrange(0, j as int) =~= s);
        }
        self.spectrum = kept;
    }
}

impl Default for RawSpectrum {
    /// An untitled empty spectrum of precursor charge one.
    fn default() -> (r: RawSpectrum)
        ensures
            r.spectrum_wf(),
            r.peaks_view().len() == 0,
    {
        RawSpectrum::new(String::new(), 0, 0, 1, 0)
    }
}

impl PeakSpectrum for RawSpectrum {
    type PeakType = RawPeak;

    open spec fn peaks_view(&self) -> Seq<RawPeak> {
        self.spectrum@
    }

    open spec fn peak_mz(p: RawPeak) -> int {
        p.mz as int
    }

    open spec fn mzs(&self) -> Seq<int> {
        mz_seq(self.spectrum@)
    }

    open spec fn spectrum_wf(&self) -> bool {
        sorted_mzs(mz_seq(self.spectrum@))
    }

    open spec fn same_metadata(&self, other: &Self) -> bool {
        &&& self.title@ == other.title@
        &&& self.num_scans == other.num_scans
        &&& self.rt == other.rt
        &&& self.charge == other.charge
        &&& self.mass == other.mass
        &&& self.intensity == other.intensity
    }

    fn binary_search(&self, low: i128, high: i128) -> (r: &[RawPeak]) {
        let lo = lower_bound(self.spectrum.as_slice(), low);
        let mut hi = upper_bound(self.spectrum.as_slice(), high);
        if hi < lo {
            hi = lo;
        }
        proof {
            let m = mz_seq(self.spectrum@);
            lemma_below_split(m, low as int);
            lemma_at_most_split(m, high as int);
            if low <= high {
                if count_at_most(m, high as int) < count_below(m, low as int) {
                    let k = count_at_most(m, high as int) as int;
                    assert(m[k] < low);
                    assert(m[k] > high);
                }
            } else {
                if count_at_most(m, high as int) > count_below(m, low as int) {
                    let k = count_below(m, low as int) as int;
                    assert(m[k] >= low);
                    assert(m[k] <= high);
                }
            }
        }
        let r = vstd::slice::slice_subrange(self.spectrum.as_slice(), lo, hi);
        proof {
            let m = mz_seq(self.spectrum@);
            assert forall|i: int| 0 <= i < r@.len() implies low <= Self::peak_mz(#[trigger] r@[i]) <= high by {
                assert(r@[i] == self.spectrum@[lo + i]);
                assert(m[lo + i] == self.spectrum@[lo + i].mz);
                if m[lo + i] < low {
                    lemma_below_prefix(m, low as int, lo + i);
                }
                if m[lo + i] > high {
                    lemma_at_most_prefix(m, high as int, lo + i);
                }
            }
        }
        r
    }

    fn spectrum(&self) -> (r: &[RawPeak]) {
        self.spectrum.as_slice()
    }

    fn add_peak(&mut self, item: RawPeak) {
        let p = upper_bound(self.spectrum.as_slice(), item.mz);
        let ghost old_peaks = self.spectrum@;
        let ghost m = mz_seq(old_peaks);
        proof {
            lemma_at_most_split(m, item.mz as int);
        }
        self.spectrum.insert(p, item);
        proof {
            let n = mz_seq(self.spectrum@);
            assert forall|i: int| 0 <= i < self.spectrum@.len() implies #[trigger] n[i] == if i < p {
                m[i]
            } else if i == p {
                item.mz as int
            } else {
                m[i - 1]
            } by {
                if i > p {
                    assert(self.spectrum@[i] == old_peaks[i - 1]);
                }
            }
            assert forall|i: int, j: int| 0 <= i <= j < n.len() implies n[i] <= n[j] by {
                assert(n[i] == if i < p { m[i] } else if i == p { item.mz as int } else { m[i - 1] });
                assert(n[j] == if j < p { m[j] } else if j == p { item.mz as int } else { m[j - 1] });
            }
            assert forall|i: int| 0 <= i < n.len() implies 0 <= #[trigger] n[i] <= MASS_LIMIT by {
                assert(n[i] == if i < p { m[i] } else if i == p { item.mz as int } else { m[i - 1] });
            }
        }
    }
}

/// A peak with the fragments that explain it.
#[derive(Debug)]
pub struct AnnotatedPeak {
    /// The m/z in nanodaltons per unit charge.
    pub experimental_mz: i128,
    /// The intensity.
    pub intensity: u64,
    /// The charge.
    pub charge: i64,
    /// The fragments that match this peak.
    pub annotation: Vec<Fragment>,
}

impl Peak for AnnotatedPeak {
    open spec fn mz_of(&self) -> int {
        self.experimental_mz as int
    }

    fn mz_value(&self) -> (r: i128) {
        self.experimental_mz
    }
}

/// The views of a list of fragments.
pub open spec fn fragment_views(s: Seq<Fragment>) -> Seq<FragmentView> {
    s.map_values(|f: Fragment| f@)
}

impl AnnotatedPeak {
    /// The peak with one fragment.
    pub fn new(peak: &RawPeak, annotation: Fragment) -> (r: Self)
        ensures
            r.experimental_mz == peak.mz,
            r.intensity == peak.intensity,
            r.charge == peak.charge,
            r.annotation@ == seq![annotation],
    {
        let mut fragments: Vec<Fragment> = Vec::new();
        fragments.push(annotation);
        proof {
            assert(fragments@ =~= seq![annotation]);
        }
        AnnotatedPeak {
            experimental_mz: peak.mz,
            intensity: peak.intensity,
            charge: peak.charge,
            annotation: fragments,
        }
    }

    /// The peak with no fragment.
    pub fn background(peak: &RawPeak) -> (r: Self)
        ensures
            r.experimental_mz == peak.mz,
            r.intensity == peak.intensity,
            r.charge == peak.charge,
            r.annotation@.len() == 0,
    {
        AnnotatedPeak {
            experimental_mz: peak.mz,
            intensity: peak.intensity,
            charge: peak.charge,
            annotation: Vec::new(),
        }
    }
}

/// A spectrum whose peaks carry the fragments that match them.
#[derive(Debug)]
pub struct AnnotatedSpectrum {
    /// The title.
    pub title: String,
    /// The number of scans.
    pub num_scans: u64,
    /// The retention time in milliseconds.
    pub rt: u64,
    /// The precursor charge.
    pub charge: i64,
    /// The precursor mass in nanodaltons.
    pub mass: i128,
    /// The peptidoform the spectrum was annotated with.
    pub peptide: Peptidoform,
    /// The peaks, sorted by m/z while the spectrum is well formed.
    pub spectrum: Vec<AnnotatedPeak>,
}

impl AnnotatedSpectrum {
    /// Insert every peak, each after the peaks of lower or equal m/z.
    pub fn extend(&mut self, peaks: Vec<AnnotatedPeak>)
        requires
            old(self).spectrum_wf(),
            forall|i: int| 0 <= i < peaks@.len() ==> 0 <= (#[trigger] peaks@[i]).experimental_mz <= MASS_LIMIT,
        ensures
            final(self).spectrum_wf(),
            final(self).same_metadata(old(self)),
            final(self).peaks_view() == extended(old(self).peaks_view(), peaks@),
    {
        let ghost all = peaks@;
        let n = peaks.len();
        let mut rest = peaks;
        let mut k: usize = 0;
        while rest.len() > 0
            invariant
                self.spectrum_wf(),
                self.same_metadata(old(self)),
                k <= all.len(),
                all.len() == n,
                rest@ == all.subrange(k as int, all.len() as int),
                forall|i: int| 0 <= i < all.len() ==> 0 <= (#[trigger] all[i]).experimental_mz <= MASS_LIMIT,
                self.peaks_view() == extended(old(self).peaks_view(), all.subrange(0, k as int)),
            decreases rest@.len(),
        {
            let p = rest.remove(0);
            proof {
                assert(p == all[k as int]);
                assert(all.subrange(0, k + 1).drop_last() =~= all.subrange(0, k as int));
                assert(rest@ =~= all.subrange(k + 1, all.len() as int));
            }
            self.add_peak(p);
            k += 1;
        }
        proof {
            assert(all.subrange(0, k as int) =~= all);
        }
    }
}

impl PeakSpectrum for AnnotatedSpectrum {
    type PeakType = AnnotatedPeak;

    open spec fn peaks_view(&self) -> Seq<AnnotatedPeak> {
        self.spectrum@
    }

    open spec fn peak_mz(p: AnnotatedPeak) -> int {
        p.experimental_mz as int
    }

    open spec fn mzs(&self) -> Seq<int> {
        mz_seq(self.spectrum@)
    }

    open spec fn spectrum_wf(&self) -> bool {
        sorted_mzs(mz_seq(self.spectrum@))
    }

    open spec fn same_metadata(&self, other: &Self) -> bool {
        &&& self.title@ == other.title@
        &&& self.num_scans == other.num_scans
        &&& self.rt == other.rt
        &&& self.charge == other.charge
        &&& self.mass == other.mass
    }

    fn binary_search(&self, low: i128, high: i128) -> (r: &[AnnotatedPeak]) {
        let lo = lower_bound(self.spectrum.as_slice(), low);
        let mut hi = upper_bound(self.spectrum.as_slice(), high);
        if hi < lo {
            hi = lo;
        }
        proof {
            let m = mz_seq(self.spectrum@);
            lemma_below_split(m, low as int);
            lemma_at_most_split(m, high as int);
            if low <= high {
                if count_at_most(m, high as int) < count_below(m, low as int) {
                    let k = count_at_most(m, high as int) as int;
                    assert(m[k] < low);
                    assert(m[k] > high);
                }
            } else {
                if count_at_most(m, high as int) > count_below(m, low as int) {
                    let k = count_below(m, low as int) as int;
                    assert(m[k] >= low);
                    assert(m[k] <= high);
                }
            }
        }
        let r = vstd::slice::slice_subrange(self.spectrum.as_slice(), lo, hi);
        proof {
            let m = mz_seq(self.spectrum@);
            assert forall|i: int| 0 <= i < r@.len() implies low <= Self::peak_mz(#[trigger] r@[i]) <= high by {
                assert(r@[i] == self.spectrum@[lo + i]);
                assert(m[lo + i] == self.spectrum@[lo + i].experimental_mz);
                if m[lo + i] < low {
                    lemma_below_prefix(m, low as int, lo + i);
                }
                if m[lo + i] > high {
                    lemma_at_most_prefix(m, high as int, lo + i);
                }
            }
        }
        r
    }

    fn spectrum(&self) -> (r: &[AnnotatedPeak]) {
        self.spectrum.as_slice()
    }

    fn add_peak(&mut self, item: AnnotatedPeak) {
        let p = upper_bound(self.spectrum.as_slice(), item.experimental_mz);
        let ghost old_peaks = self.spectrum@;
        let ghost m = mz_seq(old_peaks);
        let ghost x = item.experimental_mz as int;
        proof {
            lemma_at_most_split(m, x);
        }
        self.spectrum.insert(p, item);
        proof {
            let n = mz_seq(self.spectrum@);
            assert forall|i: int| 0 <= i < self.spectrum@.len() implies #[trigger] n[i] == if i < p {
                m[i]
            } else if i == p {
                x
            } else {
                m[i - 1]
            } by {
                if i > p {
                    assert(self.spectrum@[i] == old_peaks[i - 1]);
                }
            }
            assert forall|i: int, j: int| 0 <= i <= j < n.len() implies n[i] <= n[j] by {
                assert(n[i] == if i < p { m[i] } else if i == p { x } else { m[i - 1] });
                assert(n[j] == if j < p { m[j] } else if j == p { x } else { m[j - 1] });
            }
            assert forall|i: int| 0 <= i < n.len() implies 0 <= #[trigger] n[i] <= MASS_LIMIT by {
                assert(n[i] == if i < p { m[i] } else if i == p { x } else { m[i - 1] });
            }
        }
    }
}

/// The distance between two m/z values.
pub open spec fn distance(a: int, b: int) -> int {
    if a >= b {
        a - b
    } else {
        b - a
    }
}

/// The first index in `lo .. k` whose value is nearest to `x`.
pub open spec fn nearest_in(m: Seq<int>, x: int, lo: int, k: int) -> int
    decreases k - lo,
{
    if k <= lo + 1 {
        lo
    } else {
        let b = nearest_in(m, x, lo, k - 1);
        if distance(m[k - 1], x) < distance(m[b], x) {
            k - 1
        } else {
            b
        }
    }
}

/// The peak a fragment of m/z `x` is matched against: the nearest of the peaks just
/// before, at and just after the first peak not below `x` (the first of equals).
pub open spec fn candidate(m: Seq<int>, x: int) -> int {
    let idx = count_below(m, x) as int;
    let lo = if idx == 0 {
        0
    } else {
        idx - 1
    };
    let hi = if idx + 1 < m.len() {
        idx + 1
    } else {
        m.len() - 1
    };
    nearest_in(m, x, lo, hi + 1)
}

/// The peak a fragment annotates, if any: its candidate peak, when within `ppm` parts
/// per million of the fragment's m/z.
pub open spec fn matched_peak(m: Seq<int>, f: Fragment, mode: MassMode, ppm: int) -> Option<int> {
    match fragment_mz(f, mode) {
        None => None,
        Some(x) => if m.len() == 0 {
            None
        } else {
            let c = candidate(m, x);
            if distance(m[c], x) * 1_000_000 < ppm * distance(x, 0) {
                Some(c)
            } else {
                None
            }
        },
    }
}

/// The fragments, in order, that annotate peak i.
pub open spec fn annotations_of(m: Seq<int>, fs: Seq<Fragment>, mode: MassMode, ppm: int, i: int) -> Seq<FragmentView>
    decreases fs.len(),
{
    if fs.len() == 0 {
        Seq::empty()
    } else {
        annotations_of(m, fs.drop_last(), mode, ppm, i) + if matched_peak(m, fs.last(), mode, ppm) == Some(i) {
            seq![fs.last()@]
        } else {
            Seq::empty()
        }
    }
}

/// The candidate peak of a fragment is a peak nearest to it among all peaks.
pub proof fn law_candidate_is_nearest(m: Seq<int>, x: int, j: int)
    requires
        sorted_mzs(m),
        m.len() > 0,
        0 <= j < m.len(),
    ensures
        0 <= candidate(m, x) < m.len(),
        distance(m[candidate(m, x)], x) <= distance(m[j], x),
{
    let idx = count_below(m, x) as int;
    lemma_below_split(m, x);
    let lo = if idx == 0 { 0 } else { idx - 1 };
    let hi = if idx + 1 < m.len() { idx + 1 } else { m.len() - 1 };
    lemma_nearest_in(m, x, lo, hi + 1);
    let c = candidate(m, x);
    if j < lo {
        assert(m[j] <= m[lo]);
        assert(m[lo] < x);
        assert(distance(m[c], x) <= distance(m[lo], x));
    } else if j > hi {
        assert(idx < m.len());
        assert(m[idx] <= m[j]);
        assert(m[idx] >= x);
        assert(distance(m[c], x) <= distance(m[idx], x));
    }
}

proof fn lemma_nearest_in(m: Seq<int>, x: int, lo: int, k: int)
    requires
        0 <= lo < k <= m.len(),
    ensures
        lo <= nearest_in(m, x, lo, k) < k,
        forall|j: int| lo <= j < k ==> distance(m[nearest_in(m, x, lo, k)], x) <= distance(#[trigger] m[j], x),
    decreases k - lo,
{
    if k > lo + 1 {
        lemma_nearest_in(m, x, lo, k - 1);
    }
}

impl RawSpectrum {
    /// Annotate the peaks with the fragments: each fragment whose m/z is defined goes to its
    /// candidate peak when that peak is within the model's tolerance, and is dropped otherwise.
    pub fn annotate(
        &self,
        peptide: Peptidoform,
        theoretical_fragments: &[Fragment],
        model: &Model,
        mode: MassMode,
    ) -> (r: AnnotatedSpectrum)
        requires
            self.spectrum_wf(),
            model.ppm <= 1_000_000,
            forall|k: int| 0 <= k < theoretical_fragments@.len() ==> (#[trigger] theoretical_fragments@[k]).formula.wf(),
        ensures
            r.spectrum_wf(),
            r.title@ == self.title@,
            r.num_scans == self.num_scans,
            r.rt == self.rt,
            r.charge == self.charge,
            r.mass == self.mass,
            r.peptide == peptide,
            r.peaks_view().len() == self.peaks_view().len(),
            forall|i: int| 0 <= i < r.peaks_view().len() ==> (#[trigger] r.peaks_view()[i]).experimental_mz
                == self.peaks_view()[i].mz && r.peaks_view()[i].intensity == self.peaks_view()[i].intensity
                && r.peaks_view()[i].charge == self.peaks_view()[i].charge,
            forall|i: int| 0 <= i < r.peaks_view().len() ==> fragment_views((#[trigger] r.peaks_view()[i]).annotation@)
                == annotations_of(self.mzs(), theoretical_fragments@, mode, model.ppm as int, i),
    {
        let peaks = self.spectrum.as_slice();
        let n = peaks.len();
        let ghost m = self.mzs();
        let mut out: Vec<AnnotatedPeak> = Vec::new();
        let mut i: usize = 0;
        while i < n
            invariant
                n == peaks@.len(),
                peaks@ == self.spectrum@,
                i <= n,
                out@.len() == i,
                forall|j: int| 0 <= j < i ==> (#[trigger] out@[j]).experimental_mz == peaks@[j].mz
                    && out@[j].intensity == peaks@[j].intensity && out@[j].charge == peaks@[j].charge
                    && out@[j].annotation@.len() == 0,
            decreases n - i,
        {
            out.push(AnnotatedPeak::background(&peaks[i]));
            i += 1;
        }
        let ghost fs = theoretical_fragments@;
        let ghost ppm = model.ppm as int;
        let mut k: usize = 0;
        while k < theoretical_fragments.len()
            invariant
                n == peaks@.len(),
                peaks@ == self.spectrum@,
                m == mz_seq(peaks@),
                sorted_mzs(m),
                fs == theoretical_fragments@,
                ppm == model.ppm,
                model.ppm <= 1_000_000,
                forall|k: int| 0 <= k < fs.len() ==> (#[trigger] fs[k]).formula.wf(),
                k <= fs.len(),
                out@.len() == n,
                forall|j: int| 0 <= j < n ==> (#[trigger] out@[j]).experimental_mz == peaks@[j].mz
                    && out@[j].intensity == peaks@[j].intensity && out@[j].charge == peaks@[j].charge,
                forall|j: int| 0 <= j < n ==> fragment_views((#[trigger] out@[j]).annotation@)
                    == annotations_of(m, fs.subrange(0, k as int), mode, ppm, j),
            decreases fs.len() - k,
        {
            let f = &theoretical_fragments[k];
            let ghost before = out@;
            let target = self.match_fragment(f, model.ppm, mode);
            proof {
                assert(fs.subrange(0, k + 1).drop_last() =~= fs.subrange(0, k as int));
                assert(fs.subrange(0, k + 1).last() == fs[k as int]);
            }
            match target {
                Some(c) => {
                    let copy = f.clone();
                    out[c].annotation.push(copy);
                    proof {
                        assert forall|j: int| 0 <= j < n implies fragment_views((#[trigger] out@[j]).annotation@)
                            == annotations_of(m, fs.subrange(0, k + 1), mode, ppm, j) by {
                            if j == c {
                                assert(fragment_views(out@[j].annotation@) =~= fragment_views(before[j].annotation@).push(copy@));
                            } else {
                                assert(out@[j] == before[j]);
                            }
                        }
                    }
                },
                None => {},
            }
            k += 1;
        }
        proof {
            assert(fs.subrange(0, k as int) =~= fs);
            assert forall|j: int| 0 <= j < n implies #[trigger] mz_seq(out@)[j] == m[j] by {
                assert(out@[j].experimental_mz == peaks@[j].mz);
            }
            assert(mz_seq(out@) =~= m);
        }
        AnnotatedSpectrum {
            title: self.title.clone(),
            num_scans: self.num_scans,
            rt: self.rt,
            charge: self.charge,
            mass: self.mass,
            peptide,
            spectrum: out,
        }
    }

    /// The peak that a fragment annotates, if any.
    fn match_fragment(&self, f: &Fragment, ppm: u64, mode: MassMode) -> (r: Option<usize>)
        requires
            self.spectrum_wf(),
            f.formula.wf(),
            ppm <= 1_000_000,
        ensures
            r matches Some(c) ==> matched_peak(self.mzs(), *f, mode, ppm as int) == Some(c as int)
                && c < self.peaks_view().len(),
            r is None ==> matched_peak(self.mzs(), *f, mode, ppm as int) is None,
    {
        let peaks = self.spectrum.as_slice();
        let n = peaks.len();
        let ghost m = self.mzs();
        let x = match f.mz(mode) {
            None => return None,
            Some(x) => x,
        };
        if n == 0 {
            return None;
        }
        proof {
            assert(-MASS_LIMIT <= x <= MASS_LIMIT) by {
                assert(fragment_mz(*f, mode) == Some(x as int));
            }
        }
        let idx = lower_bound(peaks, x);
        let lo: usize = if idx == 0 {
            0
        } else {
            idx - 1
        };
        let hi: usize = if idx < n - 1 {
            idx + 1
        } else {
            n - 1
        };
        proof {
            assert(m[lo as int] == peaks@[lo as int].mz);
        }
        let mut best: usize = lo;
        let mut best_d: i128 = dist(peaks[lo].mz, x);
        let mut i: usize = lo + 1;
        while i <= hi
            invariant
                n == peaks@.len(),
                m == mz_seq(peaks@),
                sorted_mzs(m),
                lo < i <= hi + 1,
                hi < n,
                -MASS_LIMIT <= x <= MASS_LIMIT,
                best == nearest_in(m, x as int, lo as int, i as int),
                lo <= best < i,
                best_d == distance(m[best as int], x as int),
            decreases hi + 1 - i,
        {
            proof {
                assert(m[i as int] == peaks@[i as int].mz);
            }
            let d = dist(peaks[i].mz, x);
            if d < best_d {
                best = i;
                best_d = d;
            }
            i += 1;
        }
        let size = dist(x, 0);
        proof {
            assert((ppm as int) * (size as int) <= 1_000_000 * (2 * MASS_LIMIT)) by (nonlinear_arith)
                requires 0 <= ppm <= 1_000_000, 0 <= size <= 2 * MASS_LIMIT,
            {}
            assert((best_d as int) * 1_000_000 <= (2 * MASS_LIMIT) * 1_000_000) by (nonlinear_arith)
                requires 0 <= best_d <= 2 * MASS_LIMIT,
            {}
        }
        let tolerance = (ppm as i128) * size;
        proof {
            assert(fragment_mz(*f, mode) == Some(x as int));
            assert(m.len() == n);
            assert(best as int == candidate(m, x as int));
        }
        if best_d * 1_000_000 < tolerance {
            Some(best)
        } else {
            None
        }
    }
}

/// The distance between two m/z values within the mass limit.
fn dist(a: i128, b: i128) -> (r: i128)
    requires
        -MASS_LIMIT <= a <= MASS_LIMIT,
        -MASS_LIMIT <= b <= MASS_LIMIT,
    ensures
        r == distance(a as int, b as int),
        0 <= r <= 2 * MASS_LIMIT,
{
    if a >= b {
        a - b
    } else {
        b - a
    }
}

/// In a sorted list, a value below `x` lies before the count of values below `x`.
proof fn lemma_below_prefix(s: Seq<int>, x: int, i: int)
    requires
        sorted_mzs(s),
        0 <= i < s.len(),
        s[i] < x,
    ensures
        i < count_below(s, x),
{
    lemma_below_split(s, x);
}

/// In a sorted list, a value above `x` lies at or after the count of values at most `x`.
proof fn lemma_at_most_prefix(s: Seq<int>, x: int, i: int)
    requires
        sorted_mzs(s),
        0 <= i < s.len(),
        s[i] > x,
    ensures
        i >= count_at_most(s, x),
{
    lemma_at_most_split(s, x);
}

/// In a sorted list, the values below `x` are exactly the first `count_below` ones.
proof fn lemma_below_split(s: Seq<int>, x: int)
    requires
        forall|i: int, j: int| 0 <= i <= j < s.len() ==> s[i] <= s[j],
    ensures
        count_below(s, x) <= s.len(),
        forall|i: int| 0 <= i < count_below(s, x) ==> s[i] < x,
        forall|i: int| count_below(s, x) <= i < s.len() ==> s[i] >= x,
    decreases s.len(),
{
    if s.len() > 0 {
        let t = s.drop_last();
        lemma_below_split(t, x);
        assert forall|i: int| 0 <= i < t.len() implies t[i] == s[i] by {}
        if s.last() < x {
            if count_below(t, x) < t.len() {
                assert(t[count_below(t, x) as int] >= x);
                assert(s[count_below(t, x) as int] <= s[s.len() - 1]);
            }
            assert(count_below(s, x) == count_below(t, x) + 1);
            assert forall|i: int| 0 <= i < count_below(s, x) implies s[i] < x by {
                if i < t.len() {
                    assert(t[i] < x);
                }
            }
        } else {
            assert(count_below(s, x) == count_below(t, x));
            assert forall|i: int| count_below(s, x) <= i < s.len() implies s[i] >= x by {
                if i < t.len() {
                    assert(t[i] >= x);
                }
            }
        }
    }
}

/// In a sorted list, the values at most `x` are exactly the first `count_at_most` ones.
proof fn lemma_at_most_split(s: Seq<int>, x: int)
    requires
        forall|i: int, j: int| 0 <= i <= j < s.len() ==> s[i] <= s[j],
    ensures
        count_at_most(s, x) <= s.len(),
        forall|i: int| 0 <= i < count_at_most(s, x) ==> s[i] <= x,
        forall|i: int| count_at_most(s, x) <= i < s.len() ==> s[i] > x,
    decreases s.len(),
{
    if s.len() > 0 {
        let t = s.drop_last();
        lemma_at_most_split(t, x);
        assert forall|i: int| 0 <= i < t.len() implies t[i] == s[i] by {}
        if s.last() <= x {
            if count_at_most(t, x) < t.len() {
                assert(t[count_at_most(t, x) as int] > x);
                assert(s[count_at_most(t, x) as int] <= s[s.len() - 1]);
            }
            assert(count_at_most(s, x) == count_at_most(t, x) + 1);
            assert forall|i: int| 0 <= i < count_at_most(s, x) implies s[i] <= x by {
                if i < t.len() {
                    assert(t[i] <= x);
                }
            }
        } else {
            assert(count_at_most(s, x) == count_at_most(t, x));
            assert forall|i: int| count_at_most(s, x) <= i < s.len() implies s[i] > x by {
                if i < t.len() {
                    assert(t[i] > x);
                }
            }
        }
    }
}

} // verus!
