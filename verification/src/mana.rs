//! Mana colors and mana symbols, and the mana-cost mini-language parser: a
//! single left-to-right, case-insensitive scan with an explicit
//! finite-state-machine step.

use crate::json::CardError;
use crate::json::Field;
use vstd::prelude::*;

verus! {

/// One of the five colors of mana. No other values are valid.
#[derive(Clone, Copy, PartialEq, Eq, Structural, Debug)]
pub enum Color {
    White,
    Blue,
    Black,
    Red,
    Green,
}

/// One typed mana symbol, as written between braces in a mana cost.
#[derive(Clone, Copy, PartialEq, Eq, Structural, Debug)]
pub enum Mana {
    /// Payable by one mana of the given color.
    Colored(Color),
    /// An amount of colorless mana, e.g. the `3` of `{3}`.
    Colorless(u32),
    /// An unbound symbolic cost: 0, 1 and 2 stand for X, Y and Z.
    Arbitrary(u8),
    /// Payable by either of two colors, e.g. `{W/U}`.
    Hybrid(Color, Color),
    /// Payable by an amount of colorless or by one color, e.g. `{2/W}`.
    ColorlessHybrid(u32, Color),
    /// Payable by the color or by an alternate cost, e.g. `{W/P}`.
    PhyrexianHybrid(Color),
    /// Half a mana of the given color, e.g. `{HW}`.
    Half(Color),
}

/// The fragment part of the scanner state: no fragment open, an open but
/// still empty fragment, or an open fragment holding a partial symbol.
#[derive(Clone, Copy, PartialEq, Eq, Structural, Debug)]
pub enum Frag {
    Closed,
    OpenEmpty,
    OpenWith(Mana),
}

/// The color a single letter stands for, case-insensitively; `None` for any
/// character that is not a color letter.
pub open spec fn spec_color_ch(c: char) -> Option<Color> {
    if c == 'W' || c == 'w' {
        Some(Color::White)
    } else if c == 'U' || c == 'u' {
        Some(Color::Blue)
    } else if c == 'B' || c == 'b' {
        Some(Color::Black)
    } else if c == 'R' || c == 'r' {
        Some(Color::Red)
    } else if c == 'G' || c == 'g' {
        Some(Color::Green)
    } else {
        None
    }
}

/// Reads one color letter (W/U/B/R/G, either case) as a color.
pub fn read_color_ch(c: char) -> (r: Option<Color>)
    ensures
        r == spec_color_ch(c),
{
    match c {
        'W' | 'w' => Some(Color::White),
        'U' | 'u' => Some(Color::Blue),
        'B' | 'b' => Some(Color::Black),
        'R' | 'r' => Some(Color::Red),
        'G' | 'g' => Some(Color::Green),
        _ => None,
    }
}

/// The ASCII lowercase form of a character; anything but an ASCII capital
/// letter is left as it is.
pub open spec fn spec_lower(c: char) -> char {
    if 65 <= c as u32 && c as u32 <= 90 {
        ((c as u32 + 32) as u8) as char
    } else {
        c
    }
}

/// The ASCII lowercase form of a string.
pub open spec fn spec_lower_seq(s: Seq<char>) -> Seq<char> {
    s.map_values(|c: char| spec_lower(c))
}

/// Whether two strings are equal up to ASCII case.
pub open spec fn spec_eq_ci(a: Seq<char>, b: Seq<char>) -> bool {
    spec_lower_seq(a) == spec_lower_seq(b)
}

/// The ASCII lowercase form of a character.
pub fn char_lower(c: char) -> (r: char)
    ensures
        r == spec_lower(c),
{
    let u = c as u32;
    if 65 <= u && u <= 90 {
        ((u + 32) as u8) as char
    } else {
        c
    }
}

/// Compares two strings, ignoring ASCII case.
pub fn eq_ignore_case(a: &str, b: &str) -> (r: bool)
    ensures
        r == spec_eq_ci(a@, b@),
{
    let alen = a.unicode_len();
    let blen = b.unicode_len();
    if alen != blen {
        proof {
            assert(spec_lower_seq(a@).len() == a@.len());
            assert(spec_lower_seq(b@).len() == b@.len());
        }
        return false;
    }
    let mut i: usize = 0;
    while i < alen
        invariant
            alen == a@.len(),
            alen == b@.len(),
            i <= alen,
            forall|j: int| 0 <= j < i ==> spec_lower(a@[j]) == spec_lower(b@[j]),
        decreases alen - i,
    {
        if char_lower(a.get_char(i)) != char_lower(b.get_char(i)) {
            proof {
                assert(spec_lower_seq(a@)[i as int] != spec_lower_seq(b@)[i as int]);
            }
            return false;
        }
        i += 1;
    }
    proof {
        assert(spec_lower_seq(a@) =~= spec_lower_seq(b@));
    }
    true
}

/// The color a full color name stands for, up to ASCII case; `None` for any
/// unrecognized name.
pub open spec fn spec_color_st(s: Seq<char>) -> Option<Color> {
    if spec_eq_ci(s, "White"@) {
        Some(Color::White)
    } else if spec_eq_ci(s, "Blue"@) {
        Some(Color::Blue)
    } else if spec_eq_ci(s, "Black"@) {
        Some(Color::Black)
    } else if spec_eq_ci(s, "Red"@) {
        Some(Color::Red)
    } else if spec_eq_ci(s, "Green"@) {
        Some(Color::Green)
    } else {
        None
    }
}

/// Reads a color name (`White`, `Blue`, `Black`, `Red`, `Green`, in any
/// ASCII case) as a color.
pub fn read_color_st(s: &String) -> (r: Option<Color>)
    ensures
        r == spec_color_st(s@),
{
    if eq_ignore_case(s.as_str(), "White") {
        Some(Color::White)
    } else if eq_ignore_case(s.as_str(), "Blue") {
        Some(Color::Blue)
    } else if eq_ignore_case(s.as_str(), "Black") {
        Some(Color::Black)
    } else if eq_ignore_case(s.as_str(), "Red") {
        Some(Color::Red)
    } else if eq_ignore_case(s.as_str(), "Green") {
        Some(Color::Green)
    } else {
        None
    }
}

/// One transition of the mana scanner: from the current state and the
/// current character to the next state and the symbol completed by this
/// character, if any; `None` when the character is illegal in this state.
///
/// The rules, checked in this precedence:
/// - `{` opens an empty fragment; only legal when no fragment is open.
/// - `}` closes an open fragment that holds a complete partial symbol (no
///   half or split flag pending) and emits that symbol.
/// - `H` sets the half flag; only legal inside an empty fragment with no
///   flag pending.
/// - `/` sets the split flag; only legal when the fragment holds exactly a
///   `Colored` or `Colorless` partial and no flag is pending.
/// - A color letter combines with the state: a `Colored`/`Colorless`
///   partial under the split flag becomes `Hybrid`/`ColorlessHybrid`; an
///   empty fragment under the half flag becomes `Half`; an empty fragment
///   otherwise becomes `Colored`.
/// - `P` turns a `Colored` partial under the split flag into
///   `PhyrexianHybrid`.
/// - `X`, `Y`, `Z` become `Arbitrary(0/1/2)`; only legal in an empty
///   fragment with no flag pending.
/// - A digit starts a `Colorless` partial in an empty fragment or extends
///   one as `n * 10 + digit`; an amount beyond `u32::MAX` is illegal.
/// - Everything else is illegal.
pub open spec fn spec_mana_step(frag: Frag, half: bool, split: bool, c: char) -> Option<
    (Frag, bool, bool, Option<Mana>),
> {
    if c == '{' {
        if !half && !split && frag is Closed {
            Some((Frag::OpenEmpty, half, split, None))
        } else {
            None
        }
    } else if c == '}' {
        if !half && !split {
            match frag {
                Frag::OpenWith(m) => Some((Frag::Closed, false, false, Some(m))),
                _ => None,
            }
        } else {
            None
        }
    } else if c == 'H' || c == 'h' {
        if !half && !split && frag is OpenEmpty {
            Some((Frag::OpenEmpty, true, split, None))
        } else {
            None
        }
    } else if c == '/' {
        if !half && !split {
            match frag {
                Frag::OpenWith(m) => match m {
                    Mana::Colored(_) => Some((frag, half, true, None)),
                    Mana::Colorless(_) => Some((frag, half, true, None)),
                    _ => None,
                },
                _ => None,
            }
        } else {
            None
        }
    } else if spec_color_ch(c) is Some {
        let col = spec_color_ch(c).unwrap();
        match frag {
            Frag::OpenWith(m) => if split {
                match m {
                    Mana::Colored(oth) => Some(
                        (Frag::OpenWith(Mana::Hybrid(oth, col)), half, false, None),
                    ),
                    Mana::Colorless(v) => Some(
                        (Frag::OpenWith(Mana::ColorlessHybrid(v, col)), half, false, None),
                    ),
                    _ => None,
                }
            } else {
                None
            },
            Frag::OpenEmpty => if half {
                Some((Frag::OpenWith(Mana::Half(col)), false, split, None))
            } else {
                Some((Frag::OpenWith(Mana::Colored(col)), half, split, None))
            },
            Frag::Closed => None,
        }
    } else if c == 'P' || c == 'p' {
        if split {
            match frag {
                Frag::OpenWith(m) => match m {
                    Mana::Colored(x) => Some(
                        (Frag::OpenWith(Mana::PhyrexianHybrid(x)), half, false, None),
                    ),
                    _ => None,
                },
                _ => None,
            }
        } else {
            None
        }
    } else if c == 'X' || c == 'x' || c == 'Y' || c == 'y' || c == 'Z' || c == 'z' {
        if !half && !split && frag is OpenEmpty {
            let id: u8 = if c == 'X' || c == 'x' {
                0
            } else if c == 'Y' || c == 'y' {
                1
            } else {
                2
            };
            Some((Frag::OpenWith(Mana::Arbitrary(id)), half, split, None))
        } else {
            None
        }
    } else if 48 <= c as u32 && c as u32 <= 57 {
        let d = c as u32 - 48;
        match frag {
            Frag::OpenWith(m) => match m {
                Mana::Colorless(v) => if v * 10 + d <= u32::MAX {
                    Some((Frag::OpenWith(Mana::Colorless((v * 10 + d) as u32)), half, split, None))
                } else {
                    None
                },
                _ => None,
            },
            Frag::OpenEmpty => Some((Frag::OpenWith(Mana::Colorless(d as u32)), half, split, None)),
            Frag::Closed => None,
        }
    } else {
        None
    }
}

/// One transition of the mana scanner, executable form.
pub fn mana_step(frag: Frag, half: bool, split: bool, c: char) -> (r: Option<
    (Frag, bool, bool, Option<Mana>),
>)
    ensures
        r == spec_mana_step(frag, half, split, c),
{
    if c == '{' {
        if !half && !split && matches!(frag, Frag::Closed) {
            Some((Frag::OpenEmpty, half, split, None))
        } else {
            None
        }
    } else if c == '}' {
        if !half && !split {
            match frag {
                Frag::OpenWith(m) => Some((Frag::Closed, false, false, Some(m))),
                _ => None,
            }
        } else {
            None
        }
    } else if c == 'H' || c == 'h' {
        if !half && !split && matches!(frag, Frag::OpenEmpty) {
            Some((Frag::OpenEmpty, true, split, None))
        } else {
            None
        }
    } else if c == '/' {
        if !half && !split {
            match frag {
                Frag::OpenWith(Mana::Colored(_)) => Some((frag, half, true, None)),
                Frag::OpenWith(Mana::Colorless(_)) => Some((frag, half, true, None)),
                _ => None,
            }
        } else {
            None
        }
    } else if let Some(col) = read_color_ch(c) {
        match frag {
            Frag::OpenWith(Mana::Colored(oth)) => if split {
                Some((Frag::OpenWith(Mana::Hybrid(oth, col)), half, false, None))
            } else {
                None
            },
            Frag::OpenWith(Mana::Colorless(v)) => if split {
                Some((Frag::OpenWith(Mana::ColorlessHybrid(v, col)), half, false, None))
            } else {
                None
            },
            Frag::OpenWith(_) => None,
            Frag::OpenEmpty => if half {
                Some((Frag::OpenWith(Mana::Half(col)), false, split, None))
            } else {
                Some((Frag::OpenWith(Mana::Colored(col)), half, split, None))
            },
            Frag::Closed => None,
        }
    } else if c == 'P' || c == 'p' {
        if split {
            match frag {
                Frag::OpenWith(Mana::Colored(x)) => Some(
                    (Frag::OpenWith(Mana::PhyrexianHybrid(x)), half, false, None),
                ),
                _ => None,
            }
        } else {
            None
        }
    } else if c == 'X' || c == 'x' || c == 'Y' || c == 'y' || c == 'Z' || c == 'z' {
        if !half && !split && matches!(frag, Frag::OpenEmpty) {
            let id: u8 = if c == 'X' || c == 'x' {
                0
            } else if c == 'Y' || c == 'y' {
                1
            } else {
                2
            };
            Some((Frag::OpenWith(Mana::Arbitrary(id)), half, split, None))
        } else {
            None
        }
    } else if 48 <= c as u32 && (c as u32) <= 57 {
        let d: u32 = c as u32 - 48;
        match frag {
            Frag::OpenWith(Mana::Colorless(v)) => {
                let big: u64 = (v as u64) * 10 + (d as u64);
                if big <= u32::MAX as u64 {
                    Some((Frag::OpenWith(Mana::Colorless(big as u32)), half, split, None))
                } else {
                    None
                }
            },
            Frag::OpenWith(_) => None,
            Frag::OpenEmpty => Some((Frag::OpenWith(Mana::Colorless(d)), half, split, None)),
            Frag::Closed => None,
        }
    } else {
        None
    }
}

/// The symbols of the characters of `s` scanned from state
/// (`frag`, `half`, `split`) onward, appended to `acc`; `None` when some
/// character is illegal or the string ends with a fragment still open.
pub open spec fn spec_scan_mana(
    s: Seq<char>,
    frag: Frag,
    half: bool,
    split: bool,
    acc: Seq<Mana>,
) -> Option<Seq<Mana>>
    decreases s.len(),
{
    if s.len() == 0 {
        if frag is Closed {
            Some(acc)
        } else {
            None
        }
    } else {
        match spec_mana_step(frag, half, split, s[0]) {
            Option::Some(st) => spec_scan_mana(
                s.drop_first(),
                st.0,
                st.1,
                st.2,
                match st.3 {
                    Option::Some(m) => acc.push(m),
                    Option::None => acc,
                },
            ),
            Option::None => None,
        }
    }
}

/// The ordered mana symbols a mana-cost string denotes, or `None` when the
/// string is malformed.
pub open spec fn spec_parse_mana(s: Seq<char>) -> Option<Seq<Mana>> {
    spec_scan_mana(s, Frag::Closed, false, false, Seq::empty())
}

/// Parses one mana-cost string, e.g. `{3}{U}{U}`, into its ordered mana
/// symbols. Fails with `InvalidField(ManaCost)` exactly on the strings the
/// scanner rejects.
pub fn read_mana_st(s: &str) -> (r: Result<Vec<Mana>, CardError>)
    ensures
        match r {
            Ok(v) => spec_parse_mana(s@) == Some(v@),
            Err(e) => spec_parse_mana(s@) is None && e == CardError::InvalidField(Field::ManaCost),
        },
{
    let n = s.unicode_len();
    let mut mana: Vec<Mana> = Vec::new();
    let mut frag = Frag::Closed;
    let mut half = false;
    let mut split = false;
    let mut i: usize = 0;
    proof {
        assert(s@.skip(0) =~= s@);
    }
    while i < n
        invariant
            n == s@.len(),
            i <= n,
            spec_parse_mana(s@) == spec_scan_mana(s@.skip(i as int), frag, half, split, mana@),
        decreases n - i,
    {
        let c = s.get_char(i);
        proof {
            assert(s@.skip(i as int)[0] == s@[i as int]);
            assert(s@.skip(i as int).drop_first() =~= s@.skip(i as int + 1));
        }
        match mana_step(frag, half, split, c) {
            Option::Some((f2, h2, p2, emit)) => {
                frag = f2;
                half = h2;
                split = p2;
                match emit {
                    Option::Some(m) => mana.push(m),
                    Option::None => (),
                }
            },
            Option::None => {
                return Err(CardError::InvalidField(Field::ManaCost));
            },
        }
        i += 1;
    }
    proof {
        assert(s@.skip(n as int) =~= Seq::<char>::empty());
    }
    match frag {
        Frag::Closed => Ok(mana),
        _ => Err(CardError::InvalidField(Field::ManaCost)),
    }
}

} // verus!
