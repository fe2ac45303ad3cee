//! The PSI-MOD notation of a formula difference: terms `(isotope)Symbol count`, separated
//! by spaces, as in `(12)C -5 (13)C 5 H 0 N 0 O 0 S 0`.
use vstd::prelude::*;
use vstd::string::StringSliceAdditionalSpecFns;

use crate::element::Element;
use crate::formula::{count_in, list_fits, Entry, MolecularFormula};

verus! {

pub open spec fn is_digit(c: u8) -> bool {
    48 <= c <= 57
}

pub open spec fn is_lower(c: u8) -> bool {
    97 <= c <= 122
}

pub open spec fn is_upper(c: u8) -> bool {
    65 <= c <= 90
}

/// The first index from i on that is not a space.
pub open spec fn skip_spaces(b: Seq<u8>, i: int) -> int
    decreases b.len() - i,
{
    if i < b.len() && b[i] == 32 {
        skip_spaces(b, i + 1)
    } else {
        i
    }
}

/// The first index from i on that is not a digit.
pub open spec fn digits_end(b: Seq<u8>, i: int) -> int
    decreases b.len() - i,
{
    if 0 <= i < b.len() && is_digit(b[i]) {
        digits_end(b, i + 1)
    } else {
        i
    }
}

/// The first index from i on that is not a lower-case letter.
pub open spec fn lower_end(b: Seq<u8>, i: int) -> int
    decreases b.len() - i,
{
    if 0 <= i < b.len() && is_lower(b[i]) {
        lower_end(b, i + 1)
    } else {
        i
    }
}

/// The number written by the digits from i up to j.
pub open spec fn digits_value(b: Seq<u8>, i: int, j: int) -> int
    decreases j - i,
{
    if j <= i {
        0
    } else {
        digits_value(b, i, j - 1) * 10 + (b[j - 1] - 48)
    }
}

/// The element of a one- or two-letter symbol.
pub open spec fn element_of_symbol(s: Seq<u8>) -> Option<Element> {
    if s.len() == 1 {
        match s[0] {
            72 => Some(Element::H),
            67 => Some(Element::C),
            78 => Some(Element::N),
            79 => Some(Element::O),
            70 => Some(Element::F),
            80 => Some(Element::P),
            83 => Some(Element::S),
            75 => Some(Element::K),
            73 => Some(Element::I),
            _ => None,
        }
    } else if s.len() == 2 {
        match (s[0], s[1]) {
            (78, 97) => Some(Element::Na),
            (77, 103) => Some(Element::Mg),
            (67, 108) => Some(Element::Cl),
            (67, 97) => Some(Element::Ca),
            (70, 101) => Some(Element::Fe),
            (67, 117) => Some(Element::Cu),
            (90, 110) => Some(Element::Zn),
            (83, 101) => Some(Element::Se),
            (66, 114) => Some(Element::Br),
            _ => None,
        }
    } else {
        None
    }
}

/// The optional isotope at i: the digits between parentheses and the index after them,
/// or none and i itself; `None` when the parentheses are malformed.
pub open spec fn isotope_at(b: Seq<u8>, i: int) -> Option<(Option<u16>, int)> {
    if i < b.len() && b[i] == 40 {
        let j = digits_end(b, i + 1);
        if j > i + 1 && j < b.len() && b[j] == 41 && digits_value(b, i + 1, j) <= u16::MAX {
            Some((Some(digits_value(b, i + 1, j) as u16), j + 1))
        } else {
            None
        }
    } else {
        Some((None, i))
    }
}

/// A signed count at i and the index after it.
pub open spec fn count_at(b: Seq<u8>, i: int) -> Option<(int, int)> {
    let negative = i < b.len() && b[i] == 45;
    let start = if negative {
        i + 1
    } else {
        i
    };
    let end = digits_end(b, start);
    if end == start {
        None
    } else {
        let v = digits_value(b, start, end);
        Some((if negative {
            -v
        } else {
            v
        }, end))
    }
}

/// One term from i (not a space): the entry and the index after it.
pub open spec fn term_at(b: Seq<u8>, i: int) -> Option<(Entry, int)> {
    match isotope_at(b, i) {
        None => None,
        Some((isotope, j)) => if j < b.len() && is_upper(b[j]) {
            let k = lower_end(b, j + 1);
            match element_of_symbol(b.subrange(j, k)) {
                None => None,
                Some(e) => {
                    let l = skip_spaces(b, k);
                    if l == k {
                        None
                    } else {
                        match count_at(b, l) {
                            None => None,
                            Some((n, m)) => if i32::MIN <= n <= i32::MAX && (m == b.len() || b[m] == 32) {
                                Some(((e, isotope, n as i32), m))
                            } else {
                                None
                            },
                        }
                    }
                },
            }
        } else {
            None
        },
    }
}

/// The terms from index i on.
pub open spec fn terms_from(b: Seq<u8>, i: int) -> Option<Seq<Entry>>
    decreases b.len() - i,
{
    let k = skip_spaces(b, i);
    if k >= b.len() || i < 0 {
        Some(Seq::empty())
    } else {
        match term_at(b, k) {
            None => None,
            Some((x, j)) => if j <= k || k < i || j > b.len() {
                None
            } else {
                match terms_from(b, j) {
                    None => None,
                    Some(rest) => Some(seq![x] + rest),
                }
            },
        }
    }
}

fn skip(b: &[u8], i: usize) -> (r: usize)
    requires
        i <= b@.len(),
    ensures
        r == skip_spaces(b@, i as int),
        i <= r <= b@.len(),
{
    let mut k = i;
    while k < b.len() && b[k] == 32
        invariant
            i <= k <= b@.len(),
            skip_spaces(b@, k as int) == skip_spaces(b@, i as int),
        decreases b@.len() - k,
    {
        k += 1;
    }
    k
}

/// The digits from i: their end and value, the value capped just above `u32::MAX`.
fn digits(b: &[u8], i: usize) -> (r: (usize, u64))
    requires
        i <= b@.len(),
    ensures
        r.0 == digits_end(b@, i as int),
        i <= r.0 <= b@.len(),
        digits_value(b@, i as int, r.0 as int) <= u32::MAX ==> r.1 == digits_value(b@, i as int, r.0 as int),
        digits_value(b@, i as int, r.0 as int) > u32::MAX ==> r.1 > u32::MAX,
{
    let mut k = i;
    let mut v: u64 = 0;
    while k < b.len() && 48 <= b[k] && b[k] <= 57
        invariant
            i <= k <= b@.len(),
            digits_end(b@, k as int) == digits_end(b@, i as int),
            digits_value(b@, i as int, k as int) >= 0,
            digits_value(b@, i as int, k as int) <= u32::MAX ==> v == digits_value(b@, i as int, k as int),
            digits_value(b@, i as int, k as int) > u32::MAX ==> v == u32::MAX as u64 + 1,
        decreases b@.len() - k,
    {
        let d = (b[k] - 48) as u64;
        if v <= u32::MAX as u64 {
            let w = v * 10 + d;
            v = if w > u32::MAX as u64 {
                u32::MAX as u64 + 1
            } else {
                w
            };
        }
        k += 1;
    }
    (k, v)
}

fn lower_letters(b: &[u8], i: usize) -> (r: usize)
    requires
        i <= b@.len(),
    ensures
        r == lower_end(b@, i as int),
        i <= r <= b@.len(),
{
    let mut k = i;
    while k < b.len() && 97 <= b[k] && b[k] <= 122
        invariant
            i <= k <= b@.len(),
            lower_end(b@, k as int) == lower_end(b@, i as int),
        decreases b@.len() - k,
    {
        k += 1;
    }
    k
}

/// The element written by the bytes from i up to j.
fn symbol_element(b: &[u8], i: usize, j: usize) -> (r: Option<Element>)
    requires
        i <= j <= b@.len(),
    ensures
        r == element_of_symbol(b@.subrange(i as int, j as int)),
{
    if j - i == 1 {
        match b[i] {
            72 => Some(Element::H),
            67 => Some(Element::C),
            78 => Some(Element::N),
            79 => Some(Element::O),
            70 => Some(Element::F),
            80 => Some(Element::P),
            83 => Some(Element::S),
            75 => Some(Element::K),
            73 => Some(Element::I),
            _ => None,
        }
    } else if j - i == 2 {
        match (b[i], b[i + 1]) {
            (78, 97) => Some(Element::Na),
            (77, 103) => Some(Element::Mg),
            (67, 108) => Some(Element::Cl),
            (67, 97) => Some(Element::Ca),
            (70, 101) => Some(Element::Fe),
            (67, 117) => Some(Element::Cu),
            (90, 110) => Some(Element::Zn),
            (83, 101) => Some(Element::Se),
            (66, 114) => Some(Element::Br),
            _ => None,
        }
    } else {
        None
    }
}

/// One term from i: the entry and the index after it.
fn term(b: &[u8], i: usize) -> (r: Option<(Entry, usize)>)
    requires
        i < b@.len(),
    ensures
        r matches Some((x, j)) ==> term_at(b@, i as int) == Some((x, j as int)) && i < j <= b@.len(),
        r is None ==> term_at(b@, i as int) is None,
{
    let (isotope, j): (Option<u16>, usize) = if b[i] == 40 {
        let (e, v) = digits(b, i + 1);
        if e > i + 1 && e < b.len() && b[e] == 41 && v <= 65535 {
            (Some(v as u16), e + 1)
        } else {
            return None;
        }
    } else {
        (None, i)
    };
    proof {
        assert(isotope_at(b@, i as int) == Some((isotope, j as int)));
    }
    if !(j < b.len() && 65 <= b[j] && b[j] <= 90) {
        return None;
    }
    let k = lower_letters(b, j + 1);
    let e = match symbol_element(b, j, k) {
        None => return None,
        Some(e) => e,
    };
    let l = skip(b, k);
    if l == k {
        return None;
    }
    let negative = l < b.len() && b[l] == 45;
    let start = if negative {
        l + 1
    } else {
        l
    };
    let (end, v) = digits(b, start);
    if end == start {
        return None;
    }
    if (negative && v > 2147483648) || (!negative && v > 2147483647) {
        return None;
    }
    let n: i32 = if negative {
        (-(v as i64)) as i32
    } else {
        v as i32
    };
    proof {
        assert(count_at(b@, l as int) == Some((n as int, end as int)));
    }
    if !(end == b.len() || b[end] == 32) {
        return None;
    }
    Some(((e, isotope, n), end))
}

/// The terms of the whole text, or none when it does not follow the notation.
fn terms(b: &[u8]) -> (r: Option<Vec<Entry>>)
    ensures
        r matches Some(v) ==> terms_from(b@, 0) == Some(v@),
        r is None ==> terms_from(b@, 0) is None,
{
    let mut acc: Vec<Entry> = Vec::new();
    let mut pos: usize = 0;
    while pos < b.len()
        invariant
            pos <= b@.len(),
            terms_from(b@, 0) == match terms_from(b@, pos as int) {
                None => None,
                Some(rest) => Some(acc@ + rest),
            },
        decreases b@.len() - pos,
    {
        let k = skip(b, pos);
        if k >= b.len() {
            proof {
                assert(acc@ + Seq::<Entry>::empty() =~= acc@);
            }
            return Some(acc);
        }
        match term(b, k) {
            None => return None,
            Some((x, j)) => {
                proof {
                    let ghost old_acc = acc@;
                    match terms_from(b@, j as int) {
                        None => {},
                        Some(rest) => {
                            assert(old_acc + (seq![x] + rest) =~= old_acc.push(x) + rest);
                        },
                    }
                }
                acc.push(x);
                pos = j;
            },
        }
    }
    proof {
        assert(terms_from(b@, pos as int) == Some(Seq::<Entry>::empty()));
        assert(acc@ + Seq::<Entry>::empty() =~= acc@);
    }
    Some(acc)
}

/// The formula of a PSI-MOD formula text: its terms added in order. None when the text
/// does not follow the notation, or a count leaves the range of `i32` on the way.
pub fn parse_molecular_formula_psi_mod(s: &str) -> (r: Option<MolecularFormula>)
    ensures
        match terms_from(s.spec_bytes(), 0) {
            None => r is None,
            Some(t) => (r is Some <==> list_fits(t)) && (r matches Some(f) ==> f.wf() && forall|e: Element, iso: Option<u16>|
                #[trigger] f.count(e, iso) == count_in(t, e, iso)),
        },
{
    let b = s.as_bytes();
    match terms(b) {
        None => None,
        Some(t) => MolecularFormula::new(t.as_slice()),
    }
}

} // verus!
