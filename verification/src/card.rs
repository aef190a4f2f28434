//! The flat per-name card record (a card face), the printed layouts, and the
//! record builder that assembles one face from a card's JSON object.

use crate::json::CardError;
use crate::json::Field;
use crate::json::JsonObject;
use crate::json::JsonValue;
use crate::json::spec_optional;
use crate::json::spec_read_integer;
use crate::json::spec_read_string;
use crate::json::spec_read_string_array;
use crate::json::str_eq;
use crate::json::strings_view;
use crate::json::read_opt_string;
use crate::json::read_opt_string_array;
use crate::json::read_opt_integer;
use crate::json::read_string;
use crate::mana::Color;
use crate::mana::Mana;
use crate::mana::read_color_st;
use crate::mana::read_mana_st;
use crate::mana::spec_color_st;
use crate::mana::spec_parse_mana;
use vstd::prelude::*;

verus! {

/// The printed physical arrangement of a card. No other layout value is
/// valid.
#[derive(Clone, Copy, PartialEq, Eq, Structural, Debug)]
pub enum CardLayout {
    Normal,
    Leveler,
    Split,
    Flip,
    DoubleFaced,
    Token,
    Plane,
    Scheme,
    Phenomenon,
    Vanguard,
}

/// The extra printed numbers of a face: none, a power/toughness pair (kept
/// as strings, since printed values may be non-numeric, e.g. `*`), or a
/// planeswalker's starting loyalty.
#[derive(Clone, PartialEq, Eq, Debug)]
pub enum ExtraInfo {
    NoExtra,
    PowerToughness(String, String),
    StartingLoyalty(i64),
}

/// The mathematical value of an `ExtraInfo`.
pub enum ExtraV {
    NoExtra,
    PowerToughness(Seq<char>, Seq<char>),
    StartingLoyalty(i64),
}

impl View for ExtraInfo {
    type V = ExtraV;

    open spec fn view(&self) -> ExtraV {
        match self {
            ExtraInfo::NoExtra => ExtraV::NoExtra,
            ExtraInfo::PowerToughness(p, t) => ExtraV::PowerToughness(p@, t@),
            ExtraInfo::StartingLoyalty(l) => ExtraV::StartingLoyalty(*l),
        }
    }
}

/// The flat per-name record: one printed face of a card. Immutable once
/// constructed.
#[derive(Clone, PartialEq, Eq, Debug)]
pub struct CardFace {
    pub name: String,
    pub mana: Option<Vec<Mana>>,
    pub color: Option<Vec<Color>>,
    pub supertypes: Option<Vec<String>>,
    pub types: Option<Vec<String>>,
    pub subtypes: Option<Vec<String>>,
    pub image_name: String,
    pub text: Option<String>,
    pub flavor_text: Option<String>,
    pub extra: ExtraInfo,
}

/// The mathematical value of a card face.
pub struct FaceV {
    pub name: Seq<char>,
    pub mana: Option<Seq<Mana>>,
    pub color: Option<Seq<Color>>,
    pub supertypes: Option<Seq<Seq<char>>>,
    pub types: Option<Seq<Seq<char>>>,
    pub subtypes: Option<Seq<Seq<char>>>,
    pub image_name: Seq<char>,
    pub text: Option<Seq<char>>,
    pub flavor_text: Option<Seq<char>>,
    pub extra: ExtraV,
}

/// The value of an optional vector of plain values.
pub open spec fn opt_vec_view<T>(o: Option<Vec<T>>) -> Option<Seq<T>> {
    match o {
        Option::Some(v) => Some(v@),
        Option::None => None,
    }
}

/// The value of an optional vector of strings.
pub open spec fn opt_strings_view(o: Option<Vec<String>>) -> Option<Seq<Seq<char>>> {
    match o {
        Option::Some(v) => Some(strings_view(v@)),
        Option::None => None,
    }
}

/// The value of an optional string.
pub open spec fn opt_string_view(o: Option<String>) -> Option<Seq<char>> {
    match o {
        Option::Some(s) => Some(s@),
        Option::None => None,
    }
}

impl View for CardFace {
    type V = FaceV;

    open spec fn view(&self) -> FaceV {
        FaceV {
            name: self.name@,
            mana: opt_vec_view(self.mana),
            color: opt_vec_view(self.color),
            supertypes: opt_strings_view(self.supertypes),
            types: opt_strings_view(self.types),
            subtypes: opt_strings_view(self.subtypes),
            image_name: self.image_name@,
            text: opt_string_view(self.text),
            flavor_text: opt_string_view(self.flavor_text),
            extra: self.extra@,
        }
    }
}

/// The layout a layout string denotes, or `None` for a value outside the
/// enumerated set.
pub open spec fn spec_layout_of(s: Seq<char>) -> Option<CardLayout> {
    if s == "normal"@ {
        Some(CardLayout::Normal)
    } else if s == "leveler"@ {
        Some(CardLayout::Leveler)
    } else if s == "split"@ {
        Some(CardLayout::Split)
    } else if s == "flip"@ {
        Some(CardLayout::Flip)
    } else if s == "double-faced"@ {
        Some(CardLayout::DoubleFaced)
    } else if s == "token"@ {
        Some(CardLayout::Token)
    } else if s == "plane"@ {
        Some(CardLayout::Plane)
    } else if s == "scheme"@ {
        Some(CardLayout::Scheme)
    } else if s == "phenomenon"@ {
        Some(CardLayout::Phenomenon)
    } else if s == "vanguard"@ {
        Some(CardLayout::Vanguard)
    } else {
        None
    }
}

/// What reading the `layout` field yields: the layout, `NoField`/
/// `InvalidField` from the string read, or `InvalidField(Layout)` for a
/// string outside the enumerated set.
pub open spec fn spec_read_layout(obj: Seq<(String, JsonValue)>) -> Result<CardLayout, CardError> {
    match spec_read_string(obj, Field::Layout) {
        Ok(s) => match spec_layout_of(s) {
            Option::Some(l) => Ok(l),
            Option::None => Err(CardError::InvalidField(Field::Layout)),
        },
        Err(e) => Err(e),
    }
}

/// Reads and classifies the required `layout` field.
pub fn read_layout(js: &JsonObject) -> (r: Result<CardLayout, CardError>)
    ensures
        r == spec_read_layout(js@),
{
    let s = match read_string(js, Field::Layout) {
        Ok(s) => s,
        Err(e) => {
            return Err(e);
        },
    };
    if str_eq(s.as_str(), "normal") {
        Ok(CardLayout::Normal)
    } else if str_eq(s.as_str(), "leveler") {
        Ok(CardLayout::Leveler)
    } else if str_eq(s.as_str(), "split") {
        Ok(CardLayout::Split)
    } else if str_eq(s.as_str(), "flip") {
        Ok(CardLayout::Flip)
    } else if str_eq(s.as_str(), "double-faced") {
        Ok(CardLayout::DoubleFaced)
    } else if str_eq(s.as_str(), "token") {
        Ok(CardLayout::Token)
    } else if str_eq(s.as_str(), "plane") {
        Ok(CardLayout::Plane)
    } else if str_eq(s.as_str(), "scheme") {
        Ok(CardLayout::Scheme)
    } else if str_eq(s.as_str(), "phenomenon") {
        Ok(CardLayout::Phenomenon)
    } else if str_eq(s.as_str(), "vanguard") {
        Ok(CardLayout::Vanguard)
    } else {
        Err(CardError::InvalidField(Field::Layout))
    }
}

/// The colors a list of color names denotes; `None` as soon as any name is
/// unrecognized.
pub open spec fn spec_colors_of(ss: Seq<Seq<char>>) -> Option<Seq<Color>>
    decreases ss.len(),
{
    if ss.len() == 0 {
        Some(Seq::empty())
    } else {
        match spec_color_st(ss[0]) {
            Option::Some(c) => match spec_colors_of(ss.drop_first()) {
                Option::Some(rest) => Some(seq![c] + rest),
                Option::None => None,
            },
            Option::None => None,
        }
    }
}

/// What reading the optional `colors` field yields: absent, the color list,
/// or `InvalidField(Colors)` when the array is malformed or holds an
/// unrecognized name.
pub open spec fn spec_read_color(obj: Seq<(String, JsonValue)>) -> Result<
    Option<Seq<Color>>,
    CardError,
> {
    match spec_optional(spec_read_string_array(obj, Field::Colors)) {
        Ok(Option::None) => Ok(None),
        Ok(Option::Some(ss)) => match spec_colors_of(ss) {
            Option::Some(cols) => Ok(Some(cols)),
            Option::None => Err(CardError::InvalidField(Field::Colors)),
        },
        Err(e) => Err(e),
    }
}

/// Reads the optional `colors` field, mapping each name to a color.
pub fn read_color(js: &JsonObject) -> (r: Result<Option<Vec<Color>>, CardError>)
    ensures
        match r {
            Ok(o) => spec_read_color(js@) == Ok::<Option<Seq<Color>>, CardError>(opt_vec_view(o)),
            Err(e) => spec_read_color(js@) == Err::<Option<Seq<Color>>, CardError>(e),
        },
{
    let names = match read_opt_string_array(js, Field::Colors) {
        Ok(Option::Some(v)) => v,
        Ok(Option::None) => {
            return Ok(None);
        },
        Err(e) => {
            return Err(e);
        },
    };
    let n = names.len();
    let mut cols: Vec<Color> = Vec::new();
    let mut i: usize = 0;
    let ghost ss = strings_view(names@);
    proof {
        assert(ss.skip(0) =~= ss);
        if spec_colors_of(ss) is Some {
            let whole = spec_colors_of(ss).unwrap();
            assert(cols@ + whole =~= whole);
        }
    }
    while i < n
        invariant
            n == names@.len(),
            ss == strings_view(names@),
            spec_optional(spec_read_string_array(js@, Field::Colors)) == Ok::<
                Option<Seq<Seq<char>>>,
                CardError,
            >(Some(ss)),
            i <= n,
            match spec_colors_of(ss.skip(i as int)) {
                Option::Some(rest) => spec_colors_of(ss) == Some(cols@ + rest),
                Option::None => spec_colors_of(ss) is None,
            },
        decreases n - i,
    {
        proof {
            assert(ss.skip(i as int)[0] == ss[i as int]);
            assert(ss[i as int] == names@[i as int]@);
            assert(ss.skip(i as int).drop_first() =~= ss.skip(i as int + 1));
        }
        match read_color_st(&names[i]) {
            Option::Some(c) => {
                let ghost prev = cols@;
                cols.push(c);
                proof {
                    if spec_colors_of(ss.skip(i as int + 1)) is Some {
                        let rest = spec_colors_of(ss.skip(i as int + 1)).unwrap();
                        assert((prev + (seq![c] + rest)) =~= (cols@ + rest));
                    }
                }
            },
            Option::None => {
                return Err(CardError::InvalidField(Field::Colors));
            },
        }
        i += 1;
    }
    proof {
        assert(ss.skip(n as int) =~= Seq::<Seq<char>>::empty());
        assert(cols@ + Seq::<Color>::empty() =~= cols@);
    }
    Ok(Some(cols))
}

/// What reading the optional `manaCost` field yields: absent, the parsed
/// symbols, or `InvalidField(ManaCost)` when the string is malformed.
pub open spec fn spec_read_mana(obj: Seq<(String, JsonValue)>) -> Result<
    Option<Seq<Mana>>,
    CardError,
> {
    match spec_optional(spec_read_string(obj, Field::ManaCost)) {
        Ok(Option::None) => Ok(None),
        Ok(Option::Some(s)) => match spec_parse_mana(s) {
            Option::Some(ms) => Ok(Some(ms)),
            Option::None => Err(CardError::InvalidField(Field::ManaCost)),
        },
        Err(e) => Err(e),
    }
}

/// Reads and parses the optional `manaCost` field.
pub fn read_mana(js: &JsonObject) -> (r: Result<Option<Vec<Mana>>, CardError>)
    ensures
        match r {
            Ok(o) => spec_read_mana(js@) == Ok::<Option<Seq<Mana>>, CardError>(opt_vec_view(o)),
            Err(e) => spec_read_mana(js@) == Err::<Option<Seq<Mana>>, CardError>(e),
        },
{
    match read_opt_string(js, Field::ManaCost) {
        Ok(Option::None) => Ok(None),
        Ok(Option::Some(s)) => match read_mana_st(s.as_str()) {
            Ok(ms) => Ok(Some(ms)),
            Err(e) => Err(e),
        },
        Err(e) => Err(e),
    }
}

/// What resolving the extra printed numbers yields: if `power` is present,
/// `toughness` is required and the pair wins; otherwise a present `loyalty`
/// wins; otherwise there is nothing extra.
pub open spec fn spec_read_extra(obj: Seq<(String, JsonValue)>) -> Result<ExtraV, CardError> {
    match spec_optional(spec_read_string(obj, Field::Power)) {
        Ok(Option::Some(p)) => match spec_read_string(obj, Field::Toughness) {
            Ok(t) => Ok(ExtraV::PowerToughness(p, t)),
            Err(e) => Err(e),
        },
        Ok(Option::None) => match spec_optional(spec_read_integer(obj, Field::Loyalty)) {
            Ok(Option::Some(l)) => Ok(ExtraV::StartingLoyalty(l)),
            Ok(Option::None) => Ok(ExtraV::NoExtra),
            Err(e) => Err(e),
        },
        Err(e) => Err(e),
    }
}

/// Reads the power/toughness pair or the starting loyalty, if either is
/// present.
pub fn read_extra(js: &JsonObject) -> (r: Result<ExtraInfo, CardError>)
    ensures
        match r {
            Ok(x) => spec_read_extra(js@) == Ok::<ExtraV, CardError>(x@),
            Err(e) => spec_read_extra(js@) == Err::<ExtraV, CardError>(e),
        },
{
    match read_opt_string(js, Field::Power) {
        Ok(Option::Some(p)) => match read_string(js, Field::Toughness) {
            Ok(t) => Ok(ExtraInfo::PowerToughness(p, t)),
            Err(e) => Err(e),
        },
        Ok(Option::None) => match read_opt_integer(js, Field::Loyalty) {
            Ok(Option::Some(l)) => Ok(ExtraInfo::StartingLoyalty(l)),
            Ok(Option::None) => Ok(ExtraInfo::NoExtra),
            Err(e) => Err(e),
        },
        Err(e) => Err(e),
    }
}

/// The face a card's JSON object denotes, or the first field-level error,
/// the fields being read in this order: `name`, `manaCost`, `colors`,
/// `supertypes`, `types`, `subtypes`, `imageName`, `text`, `flavorText`,
/// then the extra numbers.
pub open spec fn spec_build_face(obj: Seq<(String, JsonValue)>) -> Result<FaceV, CardError> {
    match spec_read_string(obj, Field::Name) {
        Err(e) => Err(e),
        Ok(name) => match spec_read_mana(obj) {
            Err(e) => Err(e),
            Ok(mana) => match spec_read_color(obj) {
                Err(e) => Err(e),
                Ok(color) => match spec_optional(spec_read_string_array(obj, Field::Supertypes)) {
                    Err(e) => Err(e),
                    Ok(supertypes) => match spec_optional(
                        spec_read_string_array(obj, Field::Types),
                    ) {
                        Err(e) => Err(e),
                        Ok(types) => match spec_optional(
                            spec_read_string_array(obj, Field::Subtypes),
                        ) {
                            Err(e) => Err(e),
                            Ok(subtypes) => match spec_read_string(obj, Field::ImageName) {
                                Err(e) => Err(e),
                                Ok(image_name) => match spec_optional(
                                    spec_read_string(obj, Field::Text),
                                ) {
                                    Err(e) => Err(e),
                                    Ok(text) => match spec_optional(
                                        spec_read_string(obj, Field::FlavorText),
                                    ) {
                                        Err(e) => Err(e),
                                        Ok(flavor_text) => match spec_read_extra(obj) {
                                            Err(e) => Err(e),
                                            Ok(extra) => Ok(
                                                FaceV {
                                                    name,
                                                    mana,
                                                    color,
                                                    supertypes,
                                                    types,
                                                    subtypes,
                                                    image_name,
                                                    text,
                                                    flavor_text,
                                                    extra,
                                                },
                                            ),
                                        },
                                    },
                                },
                            },
                        },
                    },
                },
            },
        },
    }
}

/// Assembles one card face from a card's JSON object.
pub fn read_card(card_obj: &JsonObject) -> (r: Result<CardFace, CardError>)
    ensures
        match r {
            Ok(f) => spec_build_face(card_obj@) == Ok::<FaceV, CardError>(f@),
            Err(e) => spec_build_face(card_obj@) == Err::<FaceV, CardError>(e),
        },
{
    let name = match read_string(card_obj, Field::Name) {
        Ok(v) => v,
        Err(e) => {
            return Err(e);
        },
    };
    let mana = match read_mana(card_obj) {
        Ok(v) => v,
        Err(e) => {
            return Err(e);
        },
    };
    let color = match read_color(card_obj) {
        Ok(v) => v,
        Err(e) => {
            return Err(e);
        },
    };
    let supertypes = match read_opt_string_array(card_obj, Field::Supertypes) {
        Ok(v) => v,
        Err(e) => {
            return Err(e);
        },
    };
    let types = match read_opt_string_array(card_obj, Field::Types) {
        Ok(v) => v,
        Err(e) => {
            return Err(e);
        },
    };
    let subtypes = match read_opt_string_array(card_obj, Field::Subtypes) {
        Ok(v) => v,
        Err(e) => {
            return Err(e);
        },
    };
    let image_name = match read_string(card_obj, Field::ImageName) {
        Ok(v) => v,
        Err(e) => {
            return Err(e);
        },
    };
    let text = match read_opt_string(card_obj, Field::Text) {
        Ok(v) => v,
        Err(e) => {
            return Err(e);
        },
    };
    let flavor_text = match read_opt_string(card_obj, Field::FlavorText) {
        Ok(v) => v,
        Err(e) => {
            return Err(e);
        },
    };
    let extra = match read_extra(card_obj) {
        Ok(v) => v,
        Err(e) => {
            return Err(e);
        },
    };
    Ok(
        CardFace {
            name,
            mana,
            color,
            supertypes,
            types,
            subtypes,
            image_name,
            text,
            flavor_text,
            extra,
        },
    )
}

} // verus!
