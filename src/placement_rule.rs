//! Where modifications may be placed, and on which sides a cross-linker may attach.
use vstd::prelude::*;

use crate::aminoacid::AminoAcid;

verus! {

/// A position where a modification can be placed.
#[derive(Clone, Copy, Debug, PartialEq, Eq, Structural, Hash)]
pub enum Position {
    /// At any location.
    Anywhere,
    /// At the N terminus of a peptide or protein.
    AnyNTerm,
    /// At the C terminus of a peptide or protein.
    AnyCTerm,
    /// At the N terminus of a protein.
    ProteinNTerm,
    /// At the C terminus of a protein.
    ProteinCTerm,
}

impl Position {
    /// Whether residue `index` of a peptide of `length` residues is at this position; a
    /// peptide is taken as a whole protein.
    pub open spec fn holds(self, index: int, length: int) -> bool {
        match self {
            Position::Anywhere => true,
            Position::AnyNTerm | Position::ProteinNTerm => index == 0,
            Position::AnyCTerm | Position::ProteinCTerm => index == length - 1,
        }
    }

    /// Whether residue `index` of a peptide of `length` residues is at this position.
    pub fn is_possible(&self, index: usize, length: usize) -> (r: bool)
        ensures
            r == self.holds(index as int, length as int),
    {
        match self {
            Position::Anywhere => true,
            Position::AnyNTerm | Position::ProteinNTerm => index == 0,
            Position::AnyCTerm | Position::ProteinCTerm => length > 0 && index == length - 1,
        }
    }

    /// The name of the position.
    pub open spec fn name_spec(self) -> Seq<char> {
        match self {
            Position::Anywhere => seq!['A', 'n', 'y', 'w', 'h', 'e', 'r', 'e'],
            Position::AnyNTerm => seq!['A', 'n', 'y', 'N', 'T', 'e', 'r', 'm'],
            Position::AnyCTerm => seq!['A', 'n', 'y', 'C', 'T', 'e', 'r', 'm'],
            Position::ProteinNTerm => seq!['P', 'r', 'o', 't', 'e', 'i', 'n', 'N', 'T', 'e', 'r', 'm'],
            Position::ProteinCTerm => seq!['P', 'r', 'o', 't', 'e', 'i', 'n', 'C', 'T', 'e', 'r', 'm'],
        }
    }

    /// The name of the position.
    pub fn name(&self) -> (r: &'static str)
        ensures
            r@ == self.name_spec(),
    {
        match self {
            Position::Anywhere => {
                proof {
                    reveal_strlit("Anywhere");
                }
                "Anywhere"
            },
            Position::AnyNTerm => {
                proof {
                    reveal_strlit("AnyNTerm");
                }
                "AnyNTerm"
            },
            Position::AnyCTerm => {
                proof {
                    reveal_strlit("AnyCTerm");
                }
                "AnyCTerm"
            },
            Position::ProteinNTerm => {
                proof {
                    reveal_strlit("ProteinNTerm");
                }
                "ProteinNTerm"
            },
            Position::ProteinCTerm => {
                proof {
                    reveal_strlit("ProteinCTerm");
                }
                "ProteinCTerm"
            },
        }
    }
}

/// A rule for the placement of a modification.
#[derive(Debug)]
pub enum PlacementRule {
    /// On one of the amino acids, at the given position.
    AminoAcid(Vec<AminoAcid>, Position),
    /// On another modification, by its PSI-MOD number, at the given position.
    PsiModification(usize, Position),
    /// On a terminus.
    Terminal(Position),
}

impl PlacementRule {
    /// Whether the rule allows residue `aa` at `index` of `length`, the residue carrying
    /// modifications with the PSI-MOD numbers `psi_mods`.
    pub open spec fn allows(&self, aa: AminoAcid, psi_mods: Seq<usize>, index: int, length: int) -> bool {
        match self {
            PlacementRule::AminoAcid(list, pos) => list@.contains(aa) && pos.holds(index, length),
            PlacementRule::PsiModification(id, pos) => psi_mods.contains(*id) && pos.holds(index, length),
            PlacementRule::Terminal(pos) => pos.holds(index, length) && *pos != Position::Anywhere,
        }
    }

    /// Whether the rule allows residue `aa` at `index` of `length`.
    pub fn is_possible(&self, aa: AminoAcid, psi_mods: &[usize], index: usize, length: usize) -> (r: bool)
        ensures
            r == self.allows(aa, psi_mods@, index as int, length as int),
    {
        match self {
            PlacementRule::AminoAcid(list, pos) => {
                pos.is_possible(index, length) && contains_amino_acid(list.as_slice(), aa)
            },
            PlacementRule::PsiModification(id, pos) => {
                pos.is_possible(index, length) && contains_usize(psi_mods, *id)
            },
            PlacementRule::Terminal(pos) => {
                !matches!(pos, Position::Anywhere) && pos.is_possible(index, length)
            },
        }
    }
}

fn contains_amino_acid(list: &[AminoAcid], aa: AminoAcid) -> (r: bool)
    ensures
        r == list@.contains(aa),
{
    let mut i: usize = 0;
    while i < list.len()
        invariant
            i <= list@.len(),
            forall|j: int| 0 <= j < i ==> list@[j] != aa,
        decreases list@.len() - i,
    {
        if list[i] == aa {
            return true;
        }
        i += 1;
    }
    false
}

fn contains_usize(list: &[usize], x: usize) -> (r: bool)
    ensures
        r == list@.contains(x),
{
    let mut i: usize = 0;
    while i < list.len()
        invariant
            i <= list@.len(),
            forall|j: int| 0 <= j < i ==> list@[j] != x,
        decreases list@.len() - i,
    {
        if list[i] == x {
            return true;
        }
        i += 1;
    }
    false
}

/// Whether any rule of the list allows the residue.
pub open spec fn any_allows(rules: Seq<PlacementRule>, aa: AminoAcid, psi_mods: Seq<usize>, index: int, length: int) -> bool {
    exists|i: int| 0 <= i < rules.len() && (#[trigger] rules[i]).allows(aa, psi_mods, index, length)
}

fn any_possible(rules: &[PlacementRule], aa: AminoAcid, psi_mods: &[usize], index: usize, length: usize) -> (r: bool)
    ensures
        r == any_allows(rules@, aa, psi_mods@, index as int, length as int),
{
    let mut i: usize = 0;
    while i < rules.len()
        invariant
            i <= rules@.len(),
            forall|j: int| 0 <= j < i ==> !(#[trigger] rules@[j]).allows(aa, psi_mods@, index as int, length as int),
        decreases rules@.len() - i,
    {
        if rules[i].is_possible(aa, psi_mods, index, length) {
            return true;
        }
        i += 1;
    }
    false
}

/// How a cross-linker may attach at a residue.
#[derive(Clone, Copy, Debug, PartialEq, Eq, Structural, Hash)]
pub enum RulePossible {
    /// With a symmetric linker chemistry.
    Symmetric,
    /// As the left side of an asymmetric linker.
    AsymmetricLeft,
    /// As the right side of an asymmetric linker.
    AsymmetricRight,
    /// Not at all.
    No,
}

/// The side of a cross-link that a residue carries.
#[derive(Clone, Copy, Debug, PartialEq, Eq, Structural, Hash)]
pub enum CrossLinkSide {
    Symmetric,
    Left,
    Right,
}

/// The placement rules of a linker: the same on both sides, or different on its left
/// and right sides.
#[derive(Debug)]
pub enum LinkerSpecificity {
    Symmetric(Vec<PlacementRule>),
    Asymmetric(Vec<PlacementRule>, Vec<PlacementRule>),
}

/// A placement rule as plain values: its kind, amino acids, PSI-MOD number and position.
pub type RuleView = (u8, Seq<AminoAcid>, usize, Position);

pub open spec fn rule_view(r: PlacementRule) -> RuleView {
    match r {
        PlacementRule::AminoAcid(list, pos) => (0u8, list@, 0usize, pos),
        PlacementRule::PsiModification(id, pos) => (1u8, Seq::empty(), id, pos),
        PlacementRule::Terminal(pos) => (2u8, Seq::empty(), 0usize, pos),
    }
}

pub open spec fn rules_view(s: Seq<PlacementRule>) -> Seq<RuleView> {
    s.map_values(|r: PlacementRule| rule_view(r))
}

impl Clone for PlacementRule {
    fn clone(&self) -> (r: Self)
        ensures
            rule_view(r) == rule_view(*self),
    {
        match self {
            PlacementRule::AminoAcid(list, pos) => {
                let mut copy: Vec<AminoAcid> = Vec::new();
                let mut i: usize = 0;
                while i < list.len()
                    invariant
                        i <= list@.len(),
                        copy@ == list@.subrange(0, i as int),
                    decreases list@.len() - i,
                {
                    copy.push(list[i]);
                    i += 1;
                    proof {
                        assert(copy@ =~= list@.subrange(0, i as int));
                    }
                }
                proof {
                    assert(copy@ =~= list@);
                }
                PlacementRule::AminoAcid(copy, *pos)
            },
            PlacementRule::PsiModification(id, pos) => PlacementRule::PsiModification(*id, *pos),
            PlacementRule::Terminal(pos) => PlacementRule::Terminal(*pos),
        }
    }
}

/// A copy of a list of rules.
pub fn clone_rules(rules: &Vec<PlacementRule>) -> (r: Vec<PlacementRule>)
    ensures
        rules_view(r@) == rules_view(rules@),
{
    let mut copy: Vec<PlacementRule> = Vec::new();
    let mut i: usize = 0;
    while i < rules.len()
        invariant
            i <= rules@.len(),
            copy@.len() == i,
            forall|k: int| 0 <= k < i ==> rule_view(#[trigger] copy@[k]) == rule_view(rules@[k]),
        decreases rules@.len() - i,
    {
        let c = rules[i].clone();
        copy.push(c);
        i += 1;
    }
    proof {
        assert(rules_view(copy@) =~= rules_view(rules@));
    }
    copy
}

/// A linker specificity as plain values: whether it is symmetric, and its rule lists.
pub type SpecificityView = (bool, Seq<RuleView>, Seq<RuleView>);

pub open spec fn specificity_view(s: LinkerSpecificity) -> SpecificityView {
    match s {
        LinkerSpecificity::Symmetric(rules) => (true, rules_view(rules@), Seq::empty()),
        LinkerSpecificity::Asymmetric(left, right) => (false, rules_view(left@), rules_view(right@)),
    }
}

pub open spec fn specificities_view(s: Seq<LinkerSpecificity>) -> Seq<SpecificityView> {
    s.map_values(|x: LinkerSpecificity| specificity_view(x))
}

impl Clone for LinkerSpecificity {
    fn clone(&self) -> (r: Self)
        ensures
            specificity_view(r) == specificity_view(*self),
    {
        match self {
            LinkerSpecificity::Symmetric(rules) => LinkerSpecificity::Symmetric(clone_rules(rules)),
            LinkerSpecificity::Asymmetric(left, right) => LinkerSpecificity::Asymmetric(clone_rules(left), clone_rules(right)),
        }
    }
}

/// A copy of a list of linker specificities.
pub fn clone_specificities(specs: &Vec<LinkerSpecificity>) -> (r: Vec<LinkerSpecificity>)
    ensures
        specificities_view(r@) == specificities_view(specs@),
{
    let mut copy: Vec<LinkerSpecificity> = Vec::new();
    let mut i: usize = 0;
    while i < specs.len()
        invariant
            i <= specs@.len(),
            copy@.len() == i,
            forall|k: int| 0 <= k < i ==> specificity_view(#[trigger] copy@[k]) == specificity_view(specs@[k]),
        decreases specs@.len() - i,
    {
        let c = specs[i].clone();
        copy.push(c);
        i += 1;
    }
    proof {
        assert(specificities_view(copy@) =~= specificities_view(specs@));
    }
    copy
}

/// How a linker with these specificities, tried in order, may attach at a residue: the
/// first specificity that allows it decides; of an asymmetric one, the left side first.
pub open spec fn possible_in(specs: Seq<LinkerSpecificity>, aa: AminoAcid, psi_mods: Seq<usize>, index: int, length: int) -> RulePossible
    decreases specs.len(),
{
    if specs.len() == 0 {
        RulePossible::No
    } else {
        let first = match specs[0] {
            LinkerSpecificity::Symmetric(rules) => if any_allows(rules@, aa, psi_mods, index, length) {
                RulePossible::Symmetric
            } else {
                RulePossible::No
            },
            LinkerSpecificity::Asymmetric(left, right) => if any_allows(left@, aa, psi_mods, index, length) {
                RulePossible::AsymmetricLeft
            } else if any_allows(right@, aa, psi_mods, index, length) {
                RulePossible::AsymmetricRight
            } else {
                RulePossible::No
            },
        };
        if first != RulePossible::No {
            first
        } else {
            possible_in(specs.drop_first(), aa, psi_mods, index, length)
        }
    }
}

pub fn linker_possible(specs: &[LinkerSpecificity], aa: AminoAcid, psi_mods: &[usize], index: usize, length: usize) -> (r: RulePossible)
    ensures
        r == possible_in(specs@, aa, psi_mods@, index as int, length as int),
{
    let mut i: usize = 0;
    proof {
        assert(specs@.subrange(0, specs@.len() as int) =~= specs@);
    }
    while i < specs.len()
        invariant
            i <= specs@.len(),
            possible_in(specs@, aa, psi_mods@, index as int, length as int) == possible_in(
                specs@.subrange(i as int, specs@.len() as int), aa, psi_mods@, index as int, length as int),
        decreases specs@.len() - i,
    {
        proof {
            assert(specs@.subrange(i as int, specs@.len() as int).drop_first() =~= specs@.subrange(i + 1, specs@.len() as int));
            assert(specs@.subrange(i as int, specs@.len() as int)[0] == specs@[i as int]);
        }
        let first = match &specs[i] {
            LinkerSpecificity::Symmetric(rules) => if any_possible(rules.as_slice(), aa, psi_mods, index, length) {
                RulePossible::Symmetric
            } else {
                RulePossible::No
            },
            LinkerSpecificity::Asymmetric(left, right) => if any_possible(left.as_slice(), aa, psi_mods, index, length) {
                RulePossible::AsymmetricLeft
            } else if any_possible(right.as_slice(), aa, psi_mods, index, length) {
                RulePossible::AsymmetricRight
            } else {
                RulePossible::No
            },
        };
        if first != RulePossible::No {
            return first;
        }
        i += 1;
    }
    proof {
        assert(specs@.subrange(i as int, specs@.len() as int).len() == 0);
    }
    RulePossible::No
}

/// The sides of a cross-link between two residues, from how the linker may attach at
/// each: symmetric on both, or left on one and right (or symmetric) on the other.
pub open spec fn sides_of(left: RulePossible, right: RulePossible) -> Option<(CrossLinkSide, CrossLinkSide)> {
    match (left, right) {
        (RulePossible::Symmetric, RulePossible::Symmetric) => Some((CrossLinkSide::Symmetric, CrossLinkSide::Symmetric)),
        (RulePossible::AsymmetricLeft, RulePossible::AsymmetricRight)
        | (RulePossible::AsymmetricLeft, RulePossible::Symmetric) => Some((CrossLinkSide::Left, CrossLinkSide::Right)),
        (RulePossible::AsymmetricRight, RulePossible::AsymmetricLeft)
        | (RulePossible::AsymmetricRight, RulePossible::Symmetric) => Some((CrossLinkSide::Right, CrossLinkSide::Left)),
        _ => None,
    }
}

pub fn cross_link_sides(left: RulePossible, right: RulePossible) -> (r: Option<(CrossLinkSide, CrossLinkSide)>)
    ensures
        r == sides_of(left, right),
{
    match (left, right) {
        (RulePossible::Symmetric, RulePossible::Symmetric) => Some((CrossLinkSide::Symmetric, CrossLinkSide::Symmetric)),
        (RulePossible::AsymmetricLeft, RulePossible::AsymmetricRight)
        | (RulePossible::AsymmetricLeft, RulePossible::Symmetric) => Some((CrossLinkSide::Left, CrossLinkSide::Right)),
        (RulePossible::AsymmetricRight, RulePossible::AsymmetricLeft)
        | (RulePossible::AsymmetricRight, RulePossible::Symmetric) => Some((CrossLinkSide::Right, CrossLinkSide::Left)),
        _ => None,
    }
}

} // verus!
