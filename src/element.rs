//! The element table: atomic numbers, symbols, isotope masses and average weights.
use vstd::prelude::*;

verus! {

/// Nanodaltons in one dalton.
pub const NANO: i128 = 1_000_000_000;

/// A chemical element, or the electron, which formulas use to carry charge.
#[derive(Clone, Copy, Debug, PartialEq, Eq, Structural, Hash)]
pub enum Element {
    Electron,
    H,
    C,
    N,
    O,
    F,
    Na,
    Mg,
    P,
    S,
    Cl,
    K,
    Ca,
    Fe,
    Cu,
    Zn,
    Se,
    Br,
    I,
}

/// The mode in which a mass is computed.
#[derive(Clone, Copy, Debug, PartialEq, Eq, Structural, Hash, Default)]
pub enum MassMode {
    /// Each element at its reference (most common) isotope.
    #[default]
    Monoisotopic,
    /// Each element at its natural-abundance-weighted average weight.
    Average,
    /// Each element at its single most abundant isotope.
    MostAbundant,
}

impl Element {
    /// The atomic number; the electron has number zero.
    pub open spec fn number(self) -> nat {
        match self {
            Element::Electron => 0,
            Element::H => 1,
            Element::C => 6,
            Element::N => 7,
            Element::O => 8,
            Element::F => 9,
            Element::Na => 11,
            Element::Mg => 12,
            Element::P => 15,
            Element::S => 16,
            Element::Cl => 17,
            Element::K => 19,
            Element::Ca => 20,
            Element::Fe => 26,
            Element::Cu => 29,
            Element::Zn => 30,
            Element::Se => 34,
            Element::Br => 35,
            Element::I => 53,
        }
    }

    pub fn atomic_number(&self) -> (r: u8)
        ensures
            r == self.number(),
    {
        match self {
            Element::Electron => 0,
            Element::H => 1,
            Element::C => 6,
            Element::N => 7,
            Element::O => 8,
            Element::F => 9,
            Element::Na => 11,
            Element::Mg => 12,
            Element::P => 15,
            Element::S => 16,
            Element::Cl => 17,
            Element::K => 19,
            Element::Ca => 20,
            Element::Fe => 26,
            Element::Cu => 29,
            Element::Zn => 30,
            Element::Se => 34,
            Element::Br => 35,
            Element::I => 53,
        }
    }
}

impl Element {
    /// The mass in nanodaltons of isotope `a` (mass number) of this element, where tabulated.
    /// The electron has one species, numbered zero.
    pub open spec fn isotope_mass(self, a: u16) -> Option<int> {
        match self {
            Element::Electron => match a { 0 => Some(548_580), _ => None },
            Element::H => match a { 1 => Some(1_007_825_032), 2 => Some(2_014_101_778), 3 => Some(3_016_049_278), _ => None },
            Element::C => match a { 12 => Some(12_000_000_000), 13 => Some(13_003_354_838), 14 => Some(14_003_241_989), _ => None },
            Element::N => match a { 14 => Some(14_003_074_005), 15 => Some(15_000_108_898), _ => None },
            Element::O => match a { 16 => Some(15_994_914_620), 17 => Some(16_999_131_700), 18 => Some(17_999_161_000), _ => None },
            Element::F => match a { 19 => Some(18_998_403_220), _ => None },
            Element::Na => match a { 23 => Some(22_989_769_281), _ => None },
            Element::Mg => match a { 24 => Some(23_985_041_700), 25 => Some(24_985_836_920), 26 => Some(25_982_592_929), _ => None },
            Element::P => match a { 31 => Some(30_973_761_630), _ => None },
            Element::S => match a { 32 => Some(31_972_071_000), 33 => Some(32_971_458_760), 34 => Some(33_967_866_900), 36 => Some(35_967_080_760), _ => None },
            Element::Cl => match a { 35 => Some(34_968_852_680), 37 => Some(36_965_902_590), _ => None },
            Element::K => match a { 39 => Some(38_963_706_680), 40 => Some(39_963_998_480), 41 => Some(40_961_825_760), _ => None },
            Element::Ca => match a { 40 => Some(39_962_590_980), 42 => Some(41_958_618_010), 43 => Some(42_958_766_600), 44 => Some(43_955_481_800), _ => None },
            Element::Fe => match a { 54 => Some(53_939_610_500), 56 => Some(55_934_937_500), 57 => Some(56_935_394_000), 58 => Some(57_933_275_600), _ => None },
            Element::Cu => match a { 63 => Some(62_929_597_500), 65 => Some(64_927_789_500), _ => None },
            Element::Zn => match a { 64 => Some(63_929_142_200), 66 => Some(65_926_033_400), 67 => Some(66_927_127_300), 68 => Some(67_924_844_200), 70 => Some(69_925_319_300), _ => None },
            Element::Se => match a { 74 => Some(73_922_476_400), 76 => Some(75_919_213_600), 77 => Some(76_919_914_000), 78 => Some(77_917_309_100), 80 => Some(79_916_521_300), 82 => Some(81_916_699_400), _ => None },
            Element::Br => match a { 79 => Some(78_918_337_100), 81 => Some(80_916_290_600), _ => None },
            Element::I => match a { 127 => Some(126_904_473_000), _ => None },
        }
    }

    pub fn isotope_mass_of(&self, a: u16) -> (r: Option<i128>)
        ensures
            r matches Some(m) ==> self.isotope_mass(a) == Some(m as int),
            r is None ==> self.isotope_mass(a) is None,
    {
        match self {
            Element::Electron => match a { 0 => Some(548_580), _ => None },
            Element::H => match a { 1 => Some(1_007_825_032), 2 => Some(2_014_101_778), 3 => Some(3_016_049_278), _ => None },
            Element::C => match a { 12 => Some(12_000_000_000), 13 => Some(13_003_354_838), 14 => Some(14_003_241_989), _ => None },
            Element::N => match a { 14 => Some(14_003_074_005), 15 => Some(15_000_108_898), _ => None },
            Element::O => match a { 16 => Some(15_994_914_620), 17 => Some(16_999_131_700), 18 => Some(17_999_161_000), _ => None },
            Element::F => match a { 19 => Some(18_998_403_220), _ => None },
            Element::Na => match a { 23 => Some(22_989_769_281), _ => None },
            Element::Mg => match a { 24 => Some(23_985_041_700), 25 => Some(24_985_836_920), 26 => Some(25_982_592_929), _ => None },
            Element::P => match a { 31 => Some(30_973_761_630), _ => None },
            Element::S => match a { 32 => Some(31_972_071_000), 33 => Some(32_971_458_760), 34 => Some(33_967_866_900), 36 => Some(35_967_080_760), _ => None },
            Element::Cl => match a { 35 => Some(34_968_852_680), 37 => Some(36_965_902_590), _ => None },
            Element::K => match a { 39 => Some(38_963_706_680), 40 => Some(39_963_998_480), 41 => Some(40_961_825_760), _ => None },
            Element::Ca => match a { 40 => Some(39_962_590_980), 42 => Some(41_958_618_010), 43 => Some(42_958_766_600), 44 => Some(43_955_481_800), _ => None },
            Element::Fe => match a { 54 => Some(53_939_610_500), 56 => Some(55_934_937_500), 57 => Some(56_935_394_000), 58 => Some(57_933_275_600), _ => None },
            Element::Cu => match a { 63 => Some(62_929_597_500), 65 => Some(64_927_789_500), _ => None },
            Element::Zn => match a { 64 => Some(63_929_142_200), 66 => Some(65_926_033_400), 67 => Some(66_927_127_300), 68 => Some(67_924_844_200), 70 => Some(69_925_319_300), _ => None },
            Element::Se => match a { 74 => Some(73_922_476_400), 76 => Some(75_919_213_600), 77 => Some(76_919_914_000), 78 => Some(77_917_309_100), 80 => Some(79_916_521_300), 82 => Some(81_916_699_400), _ => None },
            Element::Br => match a { 79 => Some(78_918_337_100), 81 => Some(80_916_290_600), _ => None },
            Element::I => match a { 127 => Some(126_904_473_000), _ => None },
        }
    }

    /// The natural-abundance-weighted average weight in nanodaltons: the 2013 standard
    /// atomic weight, at the middle of its interval where it is given as one.
    pub open spec fn average(self) -> int {
        match self {
            Element::Electron => 548_580,
            Element::H => 1_007_975_000,
            Element::C => 12_010_600_000,
            Element::N => 14_006_855_000,
            Element::O => 15_999_400_000,
            Element::F => 18_998_403_163,
            Element::Na => 22_989_769_280,
            Element::Mg => 24_305_500_000,
            Element::P => 30_973_761_998,
            Element::S => 32_067_500_000,
            Element::Cl => 35_451_500_000,
            Element::K => 39_098_300_000,
            Element::Ca => 40_078_000_000,
            Element::Fe => 55_845_000_000,
            Element::Cu => 63_546_000_000,
            Element::Zn => 65_380_000_000,
            Element::Se => 78_971_000_000,
            Element::Br => 79_904_000_000,
            Element::I => 126_904_470_000,
        }
    }

    pub fn average_weight(&self) -> (r: i128)
        ensures
            r == self.average(),
    {
        match self {
            Element::Electron => 548_580,
            Element::H => 1_007_975_000,
            Element::C => 12_010_600_000,
            Element::N => 14_006_855_000,
            Element::O => 15_999_400_000,
            Element::F => 18_998_403_163,
            Element::Na => 22_989_769_280,
            Element::Mg => 24_305_500_000,
            Element::P => 30_973_761_998,
            Element::S => 32_067_500_000,
            Element::Cl => 35_451_500_000,
            Element::K => 39_098_300_000,
            Element::Ca => 40_078_000_000,
            Element::Fe => 55_845_000_000,
            Element::Cu => 63_546_000_000,
            Element::Zn => 65_380_000_000,
            Element::Se => 78_971_000_000,
            Element::Br => 79_904_000_000,
            Element::I => 126_904_470_000,
        }
    }

    /// The mass number of the isotope of highest natural abundance, which is also the
    /// reference isotope of monoisotopic masses.
    pub open spec fn abundant_isotope(self) -> u16 {
        match self {
            Element::Electron => 0,
            Element::H => 1,
            Element::C => 12,
            Element::N => 14,
            Element::O => 16,
            Element::F => 19,
            Element::Na => 23,
            Element::Mg => 24,
            Element::P => 31,
            Element::S => 32,
            Element::Cl => 35,
            Element::K => 39,
            Element::Ca => 40,
            Element::Fe => 56,
            Element::Cu => 63,
            Element::Zn => 64,
            Element::Se => 80,
            Element::Br => 79,
            Element::I => 127,
        }
    }

    pub fn most_abundant_isotope(&self) -> (r: u16)
        ensures
            r == self.abundant_isotope(),
    {
        match self {
            Element::Electron => 0,
            Element::H => 1,
            Element::C => 12,
            Element::N => 14,
            Element::O => 16,
            Element::F => 19,
            Element::Na => 23,
            Element::Mg => 24,
            Element::P => 31,
            Element::S => 32,
            Element::Cl => 35,
            Element::K => 39,
            Element::Ca => 40,
            Element::Fe => 56,
            Element::Cu => 63,
            Element::Zn => 64,
            Element::Se => 80,
            Element::Br => 79,
            Element::I => 127,
        }
    }

    /// The mass of this element with the given isotope (or none: natural) in the given mode.
    pub open spec fn mass_in_mode(self, isotope: Option<u16>, mode: MassMode) -> Option<int> {
        match isotope {
            Some(a) => self.isotope_mass(a),
            None => match mode {
                MassMode::Average => Some(self.average()),
                _ => self.isotope_mass(self.abundant_isotope()),
            },
        }
    }

    pub fn mass(&self, isotope: Option<u16>, mode: MassMode) -> (r: Option<i128>)
        ensures
            r matches Some(m) ==> self.mass_in_mode(isotope, mode) == Some(m as int),
            r is None ==> self.mass_in_mode(isotope, mode) is None,
    {
        match isotope {
            Some(a) => self.isotope_mass_of(a),
            None => match mode {
                MassMode::Average => Some(self.average_weight()),
                _ => self.isotope_mass_of(self.most_abundant_isotope()),
            },
        }
    }
}

/// Every tabulated mass is positive and below 128 Da.
pub proof fn lemma_mass_bounds(e: Element, isotope: Option<u16>, mode: MassMode)
    ensures
        e.mass_in_mode(isotope, mode) matches Some(m) ==> 0 < m < 128 * NANO,
{
}

/// The number of entries in the table.
pub const ELEMENT_COUNT: u8 = 19;

impl Element {
    /// The symbol; the electron is written `e`.
    pub open spec fn symbol(self) -> Seq<char> {
        match self {
            Element::Br => seq!['B', 'r'],
            Element::C => seq!['C'],
            Element::Ca => seq!['C', 'a'],
            Element::Cl => seq!['C', 'l'],
            Element::Cu => seq!['C', 'u'],
            Element::F => seq!['F'],
            Element::Fe => seq!['F', 'e'],
            Element::H => seq!['H'],
            Element::I => seq!['I'],
            Element::K => seq!['K'],
            Element::Mg => seq!['M', 'g'],
            Element::N => seq!['N'],
            Element::Na => seq!['N', 'a'],
            Element::O => seq!['O'],
            Element::P => seq!['P'],
            Element::S => seq!['S'],
            Element::Se => seq!['S', 'e'],
            Element::Zn => seq!['Z', 'n'],
            Element::Electron => seq!['e'],
        }
    }

    pub fn symbol_str(&self) -> (r: &'static str)
        ensures
            r@ == self.symbol(),
    {
        match self {
            Element::Br => {
                proof {
                    reveal_strlit("Br");
                }
                "Br"
            },
            Element::C => {
                proof {
                    reveal_strlit("C");
                }
                "C"
            },
            Element::Ca => {
                proof {
                    reveal_strlit("Ca");
                }
                "Ca"
            },
            Element::Cl => {
                proof {
                    reveal_strlit("Cl");
                }
                "Cl"
            },
            Element::Cu => {
                proof {
                    reveal_strlit("Cu");
                }
                "Cu"
            },
            Element::F => {
                proof {
                    reveal_strlit("F");
                }
                "F"
            },
            Element::Fe => {
                proof {
                    reveal_strlit("Fe");
                }
                "Fe"
            },
            Element::H => {
                proof {
                    reveal_strlit("H");
                }
                "H"
            },
            Element::I => {
                proof {
                    reveal_strlit("I");
                }
                "I"
            },
            Element::K => {
                proof {
                    reveal_strlit("K");
                }
                "K"
            },
            Element::Mg => {
                proof {
                    reveal_strlit("Mg");
                }
                "Mg"
            },
            Element::N => {
                proof {
                    reveal_strlit("N");
                }
                "N"
            },
            Element::Na => {
                proof {
                    reveal_strlit("Na");
                }
                "Na"
            },
            Element::O => {
                proof {
                    reveal_strlit("O");
                }
                "O"
            },
            Element::P => {
                proof {
                    reveal_strlit("P");
                }
                "P"
            },
            Element::S => {
                proof {
                    reveal_strlit("S");
                }
                "S"
            },
            Element::Se => {
                proof {
                    reveal_strlit("Se");
                }
                "Se"
            },
            Element::Zn => {
                proof {
                    reveal_strlit("Zn");
                }
                "Zn"
            },
            Element::Electron => {
                proof {
                    reveal_strlit("e");
                }
                "e"
            },
        }
    }

    /// The place of the symbol in ascending (ASCII) symbol order.
    pub open spec fn symbol_rank(self) -> nat {
        match self {
            Element::Br => 0,
            Element::C => 1,
            Element::Ca => 2,
            Element::Cl => 3,
            Element::Cu => 4,
            Element::F => 5,
            Element::Fe => 6,
            Element::H => 7,
            Element::I => 8,
            Element::K => 9,
            Element::Mg => 10,
            Element::N => 11,
            Element::Na => 12,
            Element::O => 13,
            Element::P => 14,
            Element::S => 15,
            Element::Se => 16,
            Element::Zn => 17,
            Element::Electron => 18,
        }
    }
}

/// The element whose symbol has the given place in ascending symbol order.
pub open spec fn element_at(rank: u8) -> Element {
    match rank {
            0 => Element::Br,
            1 => Element::C,
            2 => Element::Ca,
            3 => Element::Cl,
            4 => Element::Cu,
            5 => Element::F,
            6 => Element::Fe,
            7 => Element::H,
            8 => Element::I,
            9 => Element::K,
            10 => Element::Mg,
            11 => Element::N,
            12 => Element::Na,
            13 => Element::O,
            14 => Element::P,
            15 => Element::S,
            16 => Element::Se,
            17 => Element::Zn,
        _ => Element::Electron,
    }
}

pub fn element_at_rank(rank: u8) -> (r: Element)
    requires
        rank < ELEMENT_COUNT,
    ensures
        r == element_at(rank),
        r.symbol_rank() == rank,
{
    match rank {
            0 => Element::Br,
            1 => Element::C,
            2 => Element::Ca,
            3 => Element::Cl,
            4 => Element::Cu,
            5 => Element::F,
            6 => Element::Fe,
            7 => Element::H,
            8 => Element::I,
            9 => Element::K,
            10 => Element::Mg,
            11 => Element::N,
            12 => Element::Na,
            13 => Element::O,
            14 => Element::P,
            15 => Element::S,
            16 => Element::Se,
            17 => Element::Zn,
        _ => Element::Electron,
    }
}

} // verus!
