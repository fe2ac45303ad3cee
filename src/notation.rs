//! Hill notation: C first, then H, then the other elements in ascending symbol order
//! (all in symbol order where there is no carbon), in three renderings.
use vstd::prelude::*;
use vstd::string::StringExecFns;

use crate::element::{element_at, element_at_rank, Element, ELEMENT_COUNT};
use crate::formula::{count_in, Entry, MolecularFormula};

verus! {

/// How counts are written.
#[derive(Clone, Copy, Debug, PartialEq, Eq, Structural)]
pub enum NotationStyle {
    /// Plain ASCII digits: `C2H3NO`.
    Ascii,
    /// Unicode subscript digits: `C₂H₃NO`.
    Unicode,
    /// HTML markup: `C<sub>2</sub>H<sub>3</sub>NO`.
    Html,
}

/// The glyph of digit d.
pub open spec fn digit_char(d: int, style: NotationStyle) -> char {
    match style {
        NotationStyle::Unicode => (0x2080 + d) as char,
        _ => (0x30 + d) as char,
    }
}

/// The decimal digits of n.
pub open spec fn digits(n: nat, style: NotationStyle) -> Seq<char>
    decreases n,
{
    if n < 10 {
        seq![digit_char(n as int, style)]
    } else {
        digits(n / 10, style).push(digit_char((n % 10) as int, style))
    }
}

pub open spec fn abs(n: int) -> nat {
    if n < 0 {
        (-n) as nat
    } else {
        n as nat
    }
}

/// A signed count as text.
pub open spec fn count_text(n: int, style: NotationStyle) -> Seq<char> {
    let sign = if n < 0 {
        match style {
            NotationStyle::Unicode => seq!['\u{208B}'],
            _ => seq!['-'],
        }
    } else {
        Seq::empty()
    };
    match style {
        NotationStyle::Html => seq!['<', 's', 'u', 'b', '>'] + sign + digits(abs(n), style) + seq![
            '<',
            '/',
            's',
            'u',
            'b',
            '>',
        ],
        _ => sign + digits(abs(n), style),
    }
}

/// The isotope written before the symbol, if one is set.
pub open spec fn isotope_text(isotope: Option<u16>, style: NotationStyle) -> Seq<char> {
    match isotope {
        None => Seq::empty(),
        Some(a) => match style {
            NotationStyle::Html => seq!['<', 's', 'u', 'p', '>'] + digits(a as nat, NotationStyle::Ascii)
                + seq!['<', '/', 's', 'u', 'p', '>'],
            _ => seq!['['] + digits(a as nat, NotationStyle::Ascii) + seq![']'],
        },
    }
}

/// One entry: isotope, symbol, then the count unless it is one.
pub open spec fn entry_text(x: Entry, style: NotationStyle) -> Seq<char> {
    isotope_text(x.1, style) + x.0.symbol() + if x.2 == 1 {
        Seq::empty()
    } else {
        count_text(x.2 as int, style)
    }
}

/// The entries of element e, in order.
pub open spec fn element_text(s: Seq<Entry>, e: Element, style: NotationStyle) -> Seq<char>
    decreases s.len(),
{
    if s.len() == 0 {
        Seq::empty()
    } else {
        element_text(s.drop_last(), e, style) + if s.last().0 == e {
            entry_text(s.last(), style)
        } else {
            Seq::empty()
        }
    }
}

/// The elements of the first r places in symbol order; C and H left out when `skip_ch`.
pub open spec fn ranks_text(s: Seq<Entry>, r: nat, skip_ch: bool, style: NotationStyle) -> Seq<char>
    decreases r,
{
    if r == 0 {
        Seq::empty()
    } else {
        let e = element_at((r - 1) as u8);
        ranks_text(s, (r - 1) as nat, skip_ch, style) + if skip_ch && (e == Element::C || e
            == Element::H) {
            Seq::empty()
        } else {
            element_text(s, e, style)
        }
    }
}

pub open spec fn has_element(s: Seq<Entry>, e: Element) -> bool {
    exists|i: int| 0 <= i < s.len() && s[i].0 == e
}

/// The Hill notation of a list of entries.
pub open spec fn hill(s: Seq<Entry>, style: NotationStyle) -> Seq<char> {
    if has_element(s, Element::C) {
        element_text(s, Element::C, style) + element_text(s, Element::H, style) + ranks_text(
            s,
            ELEMENT_COUNT as nat,
            true,
            style,
        )
    } else {
        ranks_text(s, ELEMENT_COUNT as nat, false, style)
    }
}

/// The Hill notation depends on the counts alone, not on the order in which they were added.
pub proof fn law_hill_depends_on_counts(f: MolecularFormula, g: MolecularFormula, style: NotationStyle)
    requires
        f.wf(),
        g.wf(),
        forall|e: Element, iso: Option<u16>| #[trigger] f.count(e, iso) == g.count(e, iso),
    ensures
        hill(f@, style) == hill(g@, style),
{
    assert forall|e: Element, iso: Option<u16>| #[trigger] count_in(f@, e, iso) == count_in(g@, e, iso) by {
        assert(f.count(e, iso) == g.count(e, iso));
    }
    crate::formula::lemma_canonical_ext(f@, g@);
}

/// With carbon present, the Hill notation is the carbon entries, then the hydrogen ones,
/// then every other element in symbol order; in particular nitrogen comes before oxygen,
/// whatever other elements the formula holds.
#[verifier::rlimit(50)]
pub proof fn law_hill_order(s: Seq<Entry>, style: NotationStyle)
    requires
        has_element(s, Element::C),
    ensures
        hill(s, style) == element_text(s, Element::C, style) + element_text(s, Element::H, style)
            + ranks_text(s, 11, true, style) + element_text(s, Element::N, style) + element_text(
            s,
            Element::Na,
            style,
        ) + element_text(s, Element::O, style) + element_text(s, Element::P, style) + element_text(
            s,
            Element::S,
            style,
        ) + element_text(s, Element::Se, style) + element_text(s, Element::Zn, style) + element_text(
            s,
            Element::Electron,
            style,
        ),
{
    assert(ranks_text(s, 12, true, style) == ranks_text(s, 11, true, style) + element_text(s, Element::N, style));
    assert(ranks_text(s, 13, true, style) == ranks_text(s, 12, true, style) + element_text(s, Element::Na, style));
    assert(ranks_text(s, 14, true, style) == ranks_text(s, 13, true, style) + element_text(s, Element::O, style));
    assert(ranks_text(s, 15, true, style) == ranks_text(s, 14, true, style) + element_text(s, Element::P, style));
    assert(ranks_text(s, 16, true, style) == ranks_text(s, 15, true, style) + element_text(s, Element::S, style));
    assert(ranks_text(s, 17, true, style) == ranks_text(s, 16, true, style) + element_text(s, Element::Se, style));
    assert(ranks_text(s, 18, true, style) == ranks_text(s, 17, true, style) + element_text(s, Element::Zn, style));
    assert(ranks_text(s, 19, true, style) == ranks_text(s, 18, true, style) + element_text(s, Element::Electron, style));
    assert(hill(s, style) =~= element_text(s, Element::C, style) + element_text(s, Element::H, style)
        + ranks_text(s, 11, true, style) + element_text(s, Element::N, style) + element_text(s, Element::Na, style)
        + element_text(s, Element::O, style) + element_text(s, Element::P, style) + element_text(s, Element::S, style)
        + element_text(s, Element::Se, style) + element_text(s, Element::Zn, style) + element_text(s, Element::Electron, style));
}

/// An element without entries is not written.
proof fn lemma_element_text_absent(s: Seq<Entry>, e: Element, style: NotationStyle)
    requires
        forall|i: int| 0 <= i < s.len() ==> s[i].0 != e,
    ensures
        element_text(s, e, style) == Seq::<char>::empty(),
    decreases s.len(),
{
    if s.len() > 0 {
        lemma_element_text_absent(s.drop_last(), e, style);
        assert(element_text(s, e, style) =~= Seq::<char>::empty());
    }
}

/// A formula of carbon, hydrogen, nitrogen and oxygen, with carbon, is written as its
/// carbon, then hydrogen, then nitrogen, then oxygen entries.
pub proof fn law_hill_chno(s: Seq<Entry>, style: NotationStyle)
    requires
        has_element(s, Element::C),
        forall|i: int| 0 <= i < s.len() ==> s[i].0 == Element::C || s[i].0 == Element::H || s[i].0
            == Element::N || s[i].0 == Element::O,
    ensures
        hill(s, style) == element_text(s, Element::C, style) + element_text(s, Element::H, style)
            + element_text(s, Element::N, style) + element_text(s, Element::O, style),
{
    let others = seq![
        Element::Br, Element::Ca, Element::Cl, Element::Cu, Element::F, Element::Fe, Element::I,
        Element::K, Element::Mg, Element::Na, Element::P, Element::S, Element::Se, Element::Zn,
        Element::Electron,
    ];
    assert forall|k: int| 0 <= k < others.len() implies element_text(s, #[trigger] others[k], style)
        == Seq::<char>::empty() by {
        lemma_element_text_absent(s, others[k], style);
    }
    reveal_with_fuel(ranks_text, 20);
    let e = Seq::<char>::empty();
    assert(element_text(s, Element::Br, style) == e) by { assert(others[0] == Element::Br); }
    assert(element_text(s, Element::Ca, style) == e) by { assert(others[1] == Element::Ca); }
    assert(element_text(s, Element::Cl, style) == e) by { assert(others[2] == Element::Cl); }
    assert(element_text(s, Element::Cu, style) == e) by { assert(others[3] == Element::Cu); }
    assert(element_text(s, Element::F, style) == e) by { assert(others[4] == Element::F); }
    assert(element_text(s, Element::Fe, style) == e) by { assert(others[5] == Element::Fe); }
    assert(element_text(s, Element::I, style) == e) by { assert(others[6] == Element::I); }
    assert(element_text(s, Element::K, style) == e) by { assert(others[7] == Element::K); }
    assert(element_text(s, Element::Mg, style) == e) by { assert(others[8] == Element::Mg); }
    assert(element_text(s, Element::Na, style) == e) by { assert(others[9] == Element::Na); }
    assert(element_text(s, Element::P, style) == e) by { assert(others[10] == Element::P); }
    assert(element_text(s, Element::S, style) == e) by { assert(others[11] == Element::S); }
    assert(element_text(s, Element::Se, style) == e) by { assert(others[12] == Element::Se); }
    assert(element_text(s, Element::Zn, style) == e) by { assert(others[13] == Element::Zn); }
    assert(element_text(s, Element::Electron, style) == e) by { assert(others[14] == Element::Electron); }
    assert(hill(s, style) =~= element_text(s, Element::C, style) + element_text(s, Element::H, style)
        + element_text(s, Element::N, style) + element_text(s, Element::O, style));
}

pub(crate) fn push_str(out: &mut String, s: &str)
    ensures
        final(out)@ == old(out)@ + s@,
{
    out.append(s);
}

fn push_digit(out: &mut String, d: u32, style: NotationStyle)
    requires
        d < 10,
    ensures
        final(out)@ == old(out)@.push(digit_char(d as int, style)),
{
    let s: &str = match style {
        NotationStyle::Unicode => match d {
            0 => {
                proof {
                    reveal_strlit("₀");
                }
                "₀"
            },
            1 => {
                proof {
                    reveal_strlit("₁");
                }
                "₁"
            },
            2 => {
                proof {
                    reveal_strlit("₂");
                }
                "₂"
            },
            3 => {
                proof {
                    reveal_strlit("₃");
                }
                "₃"
            },
            4 => {
                proof {
                    reveal_strlit("₄");
                }
                "₄"
            },
            5 => {
                proof {
                    reveal_strlit("₅");
                }
                "₅"
            },
            6 => {
                proof {
                    reveal_strlit("₆");
                }
                "₆"
            },
            7 => {
                proof {
                    reveal_strlit("₇");
                }
                "₇"
            },
            8 => {
                proof {
                    reveal_strlit("₈");
                }
                "₈"
            },
            _ => {
                proof {
                    reveal_strlit("₉");
                }
                "₉"
            },
        },
        _ => match d {
            0 => {
                proof {
                    reveal_strlit("0");
                }
                "0"
            },
            1 => {
                proof {
                    reveal_strlit("1");
                }
                "1"
            },
            2 => {
                proof {
                    reveal_strlit("2");
                }
                "2"
            },
            3 => {
                proof {
                    reveal_strlit("3");
                }
                "3"
            },
            4 => {
                proof {
                    reveal_strlit("4");
                }
                "4"
            },
            5 => {
                proof {
                    reveal_strlit("5");
                }
                "5"
            },
            6 => {
                proof {
                    reveal_strlit("6");
                }
                "6"
            },
            7 => {
                proof {
                    reveal_strlit("7");
                }
                "7"
            },
            8 => {
                proof {
                    reveal_strlit("8");
                }
                "8"
            },
            _ => {
                proof {
                    reveal_strlit("9");
                }
                "9"
            },
        },
    };
    push_str(out, s);
    proof {
        assert(final(out)@ =~= old(out)@.push(digit_char(d as int, style)));
    }
}

pub(crate) fn push_digits(out: &mut String, n: u64, style: NotationStyle)
    ensures
        final(out)@ == old(out)@ + digits(n as nat, style),
    decreases n,
{
    if n < 10 {
        push_digit(out, n as u32, style);
        proof {
            assert(digits(n as nat, style) =~= seq![digit_char(n as int, style)]);
            assert(final(out)@ =~= old(out)@ + digits(n as nat, style));
        }
    } else {
        push_digits(out, n / 10, style);
        push_digit(out, (n % 10) as u32, style);
        proof {
            assert(final(out)@ =~= old(out)@ + digits(n as nat, style));
        }
    }
}

fn push_count(out: &mut String, n: i32, style: NotationStyle)
    ensures
        final(out)@ == old(out)@ + count_text(n as int, style),
{
    let magnitude: u32 = if n < 0 {
        (-(n as i64)) as u32
    } else {
        n as u32
    };
    if let NotationStyle::Html = style {
        push_str(out, "<sub>");
        proof {
            reveal_strlit("<sub>");
        }
    }
    if n < 0 {
        if let NotationStyle::Unicode = style {
            push_str(out, "\u{208B}");
            proof {
                reveal_strlit("\u{208B}");
            }
        } else {
            push_str(out, "-");
            proof {
                reveal_strlit("-");
            }
        }
    }
    push_digits(out, magnitude as u64, style);
    if let NotationStyle::Html = style {
        push_str(out, "</sub>");
        proof {
            reveal_strlit("</sub>");
        }
    }
    proof {
        assert(final(out)@ =~= old(out)@ + count_text(n as int, style));
    }
}

fn push_isotope(out: &mut String, isotope: Option<u16>, style: NotationStyle)
    ensures
        final(out)@ == old(out)@ + isotope_text(isotope, style),
{
    match isotope {
        None => {
            proof {
                assert(final(out)@ =~= old(out)@ + isotope_text(isotope, style));
            }
        },
        Some(a) => {
            let (open, close) = if let NotationStyle::Html = style {
                proof {
                    reveal_strlit("<sup>");
                    reveal_strlit("</sup>");
                }
                ("<sup>", "</sup>")
            } else {
                proof {
                    reveal_strlit("[");
                    reveal_strlit("]");
                }
                ("[", "]")
            };
            push_str(out, open);
            push_digits(out, a as u64, NotationStyle::Ascii);
            push_str(out, close);
            proof {
                assert(final(out)@ =~= old(out)@ + isotope_text(isotope, style));
            }
        },
    }
}

fn push_entry(out: &mut String, x: Entry, style: NotationStyle)
    ensures
        final(out)@ == old(out)@ + entry_text(x, style),
{
    push_isotope(out, x.1, style);
    push_str(out, x.0.symbol_str());
    if x.2 != 1 {
        push_count(out, x.2, style);
    }
    proof {
        assert(final(out)@ =~= old(out)@ + entry_text(x, style));
    }
}

fn push_element(out: &mut String, s: &[Entry], e: Element, style: NotationStyle)
    ensures
        final(out)@ == old(out)@ + element_text(s@, e, style),
{
    let mut j: usize = 0;
    while j < s.len()
        invariant
            j <= s@.len(),
            out@ == old(out)@ + element_text(s@.subrange(0, j as int), e, style),
        decreases s@.len() - j,
    {
        proof {
            assert(s@.subrange(0, j + 1).drop_last() =~= s@.subrange(0, j as int));
        }
        if s[j].0 == e {
            push_entry(out, s[j], style);
        }
        j += 1;
        proof {
            assert(out@ =~= old(out)@ + element_text(s@.subrange(0, j as int), e, style));
        }
    }
    proof {
        assert(s@.subrange(0, j as int) =~= s@);
    }
}

fn contains_element(s: &[Entry], e: Element) -> (r: bool)
    ensures
        r == has_element(s@, e),
{
    let mut j: usize = 0;
    while j < s.len()
        invariant
            j <= s@.len(),
            forall|i: int| 0 <= i < j ==> s@[i].0 != e,
        decreases s@.len() - j,
    {
        if s[j].0 == e {
            return true;
        }
        j += 1;
    }
    false
}

impl MolecularFormula {
    /// The Hill notation in the given style.
    pub fn hill_notation_in(&self, style: NotationStyle) -> (r: String)
        ensures
            r@ == hill(self@, style),
    {
        let s = self.elements();
        let mut out = String::new();
        let skip_ch = contains_element(s, Element::C);
        if skip_ch {
            push_element(&mut out, s, Element::C, style);
            push_element(&mut out, s, Element::H, style);
        }
        let ghost head = out@;
        let mut r: u8 = 0;
        while r < ELEMENT_COUNT
            invariant
                r <= ELEMENT_COUNT,
                out@ == head + ranks_text(s@, r as nat, skip_ch, style),
            decreases ELEMENT_COUNT - r,
        {
            let e = element_at_rank(r);
            if !(skip_ch && (e == Element::C || e == Element::H)) {
                push_element(&mut out, s, e, style);
            }
            r += 1;
            proof {
                assert(out@ =~= head + ranks_text(s@, r as nat, skip_ch, style));
            }
        }
        proof {
            assert(out@ =~= hill(self@, style));
        }
        out
    }

    /// The Hill notation in plain ASCII.
    pub fn hill_notation(&self) -> (r: String)
        ensures
            r@ == hill(self@, NotationStyle::Ascii),
    {
        self.hill_notation_in(NotationStyle::Ascii)
    }

    /// The Hill notation with Unicode subscript digits.
    pub fn hill_notation_unicode(&self) -> (r: String)
        ensures
            r@ == hill(self@, NotationStyle::Unicode),
    {
        self.hill_notation_in(NotationStyle::Unicode)
    }

    /// The Hill notation with HTML markup.
    pub fn hill_notation_html(&self) -> (r: String)
        ensures
            r@ == hill(self@, NotationStyle::Html),
    {
        self.hill_notation_in(NotationStyle::Html)
    }
}

} // verus!
