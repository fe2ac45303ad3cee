//! Fragmentation models: which ion series are generated, with which neutral losses,
//! and the tolerance for matching peaks.
use vstd::prelude::*;

use crate::element::Element;
use crate::formula::MolecularFormula;
use crate::formula::within;
use crate::fragment::{losses_within, NeutralLoss, PART_ATOMS};

verus! {

/// The ion series to generate, each with its neutral losses.
#[derive(Debug)]
pub struct PossibleIons {
    pub a: (bool, Vec<NeutralLoss>),
    pub b: (bool, Vec<NeutralLoss>),
    pub c: (bool, Vec<NeutralLoss>),
    pub d: (bool, Vec<NeutralLoss>),
    pub v: (bool, Vec<NeutralLoss>),
    pub w: (bool, Vec<NeutralLoss>),
    pub x: (bool, Vec<NeutralLoss>),
    pub y: (bool, Vec<NeutralLoss>),
    /// The z series; z· is generated with it.
    pub z: (bool, Vec<NeutralLoss>),
    pub immonium: bool,
}

/// The most neutral losses of one series.
pub const MAX_LOSSES: usize = 255;

/// Every series has at most [`MAX_LOSSES`] losses, each of canonical formula with at most
/// [`PART_ATOMS`] of any element.
pub open spec fn ions_ok(ions: PossibleIons) -> bool {
    &&& losses_within(ions.a.1@, PART_ATOMS as int) && ions.a.1@.len() <= MAX_LOSSES
    &&& losses_within(ions.b.1@, PART_ATOMS as int) && ions.b.1@.len() <= MAX_LOSSES
    &&& losses_within(ions.c.1@, PART_ATOMS as int) && ions.c.1@.len() <= MAX_LOSSES
    &&& losses_within(ions.d.1@, PART_ATOMS as int) && ions.d.1@.len() <= MAX_LOSSES
    &&& losses_within(ions.v.1@, PART_ATOMS as int) && ions.v.1@.len() <= MAX_LOSSES
    &&& losses_within(ions.w.1@, PART_ATOMS as int) && ions.w.1@.len() <= MAX_LOSSES
    &&& losses_within(ions.x.1@, PART_ATOMS as int) && ions.x.1@.len() <= MAX_LOSSES
    &&& losses_within(ions.y.1@, PART_ATOMS as int) && ions.y.1@.len() <= MAX_LOSSES
    &&& losses_within(ions.z.1@, PART_ATOMS as int) && ions.z.1@.len() <= MAX_LOSSES
}

/// A fragmentation model: the ion series and the matching tolerance.
#[derive(Debug)]
pub struct Model {
    pub ions: PossibleIons,
    /// The tolerance in parts per million.
    pub ppm: u64,
}

/// The loss of one water.
pub fn water_loss() -> (r: NeutralLoss)
    ensures
        r is Loss,
        r.formula_spec().wf(),
        r.formula_spec().count(Element::H, None) == 2,
        r.formula_spec().count(Element::O, None) == 1,
        forall|e: Element, iso: Option<u16>| !((e == Element::H || e == Element::O) && iso is None)
            ==> #[trigger] r.formula_spec().count(e, iso) == 0,
        r.within(PART_ATOMS as int),
{
    let mut f = MolecularFormula::empty();
    f.add(Element::H, None, 2);
    f.add(Element::O, None, 1);
    NeutralLoss::Loss(f)
}

/// `l` is the loss of one water: H2O taken off.
pub open spec fn is_water_loss(l: NeutralLoss) -> bool {
    &&& l is Loss
    &&& l.formula_spec().wf()
    &&& forall|e: Element, iso: Option<u16>| #[trigger] l.formula_spec().count(e, iso) == if e == Element::H
        && iso is None {
        2int
    } else if e == Element::O && iso is None {
        1int
    } else {
        0int
    }
}

/// The series is enabled or not as given, with water loss as its one loss or with none.
pub open spec fn series_is(s: (bool, Vec<NeutralLoss>), on: bool, water: bool) -> bool {
    &&& s.0 == on
    &&& s.1@.len() == if water {
        1int
    } else {
        0
    }
    &&& water ==> is_water_loss(s.1@[0])
}

fn series(on: bool, water: bool) -> (r: (bool, Vec<NeutralLoss>))
    ensures
        series_is(r, on, water),
        losses_within(r.1@, PART_ATOMS as int),
{
    let mut losses: Vec<NeutralLoss> = Vec::new();
    if water {
        let l = water_loss();
        proof {
            assert forall|e: Element, iso: Option<u16>| #[trigger] l.formula_spec().count(e, iso) == if e == Element::H
                && iso is None {
                2int
            } else if e == Element::O && iso is None {
                1int
            } else {
                0int
            } by {}
        }
        losses.push(l);
    }
    (on, losses)
}

impl Model {
    /// Every series, each with water loss, and immonium ions; 20 ppm.
    pub fn all() -> (r: Model)
        ensures
            series_is(r.ions.a, true, true),
            series_is(r.ions.b, true, true),
            series_is(r.ions.c, true, true),
            series_is(r.ions.d, true, true),
            series_is(r.ions.v, true, true),
            series_is(r.ions.w, true, true),
            series_is(r.ions.x, true, true),
            series_is(r.ions.y, true, true),
            series_is(r.ions.z, true, true),
            r.ions.immonium,
            r.ppm == 20,
            ions_ok(r.ions),
    {
        Model {
            ions: PossibleIons {
                a: series(true, true),
                b: series(true, true),
                c: series(true, true),
                d: series(true, true),
                v: series(true, true),
                w: series(true, true),
                x: series(true, true),
                y: series(true, true),
                z: series(true, true),
                immonium: true,
            },
            ppm: 20,
        }
    }

    /// Collision-induced dissociation: a, b and y, with water loss on b and y; 20 ppm.
    pub fn cid_hcd() -> (r: Model)
        ensures
            series_is(r.ions.a, true, false),
            series_is(r.ions.b, true, true),
            series_is(r.ions.c, false, false),
            series_is(r.ions.d, false, false),
            series_is(r.ions.v, false, false),
            series_is(r.ions.w, false, false),
            series_is(r.ions.x, false, false),
            series_is(r.ions.y, true, true),
            series_is(r.ions.z, false, false),
            !r.ions.immonium,
            r.ppm == 20,
            ions_ok(r.ions),
    {
        Model {
            ions: PossibleIons {
                a: series(true, false),
                b: series(true, true),
                c: series(false, false),
                d: series(false, false),
                v: series(false, false),
                w: series(false, false),
                x: series(false, false),
                y: series(true, true),
                z: series(false, false),
                immonium: false,
            },
            ppm: 20,
        }
    }

    /// Electron-transfer dissociation: c, y, z and w; 20 ppm.
    pub fn etd() -> (r: Model)
        ensures
            series_is(r.ions.a, false, false),
            series_is(r.ions.b, false, false),
            series_is(r.ions.c, true, false),
            series_is(r.ions.d, false, false),
            series_is(r.ions.v, false, false),
            series_is(r.ions.w, true, false),
            series_is(r.ions.x, false, false),
            series_is(r.ions.y, true, true),
            series_is(r.ions.z, true, false),
            !r.ions.immonium,
            r.ppm == 20,
            ions_ok(r.ions),
    {
        Model {
            ions: PossibleIons {
                a: series(false, false),
                b: series(false, false),
                c: series(true, false),
                d: series(false, false),
                v: series(false, false),
                w: series(true, false),
                x: series(false, false),
                y: series(true, true),
                z: series(true, false),
                immonium: false,
            },
            ppm: 20,
        }
    }

    /// Electron-transfer and higher-energy collision dissociation: b, c, y, z and w; 20 ppm.
    pub fn ethcd() -> (r: Model)
        ensures
            series_is(r.ions.a, false, false),
            series_is(r.ions.b, true, true),
            series_is(r.ions.c, true, false),
            series_is(r.ions.d, false, false),
            series_is(r.ions.v, false, false),
            series_is(r.ions.w, true, false),
            series_is(r.ions.x, false, false),
            series_is(r.ions.y, true, true),
            series_is(r.ions.z, true, false),
            !r.ions.immonium,
            r.ppm == 20,
            ions_ok(r.ions),
    {
        Model {
            ions: PossibleIons {
                a: series(false, false),
                b: series(true, true),
                c: series(true, false),
                d: series(false, false),
                v: series(false, false),
                w: series(true, false),
                x: series(false, false),
                y: series(true, true),
                z: series(true, false),
                immonium: false,
            },
            ppm: 20,
        }
    }
}

} // verus!
