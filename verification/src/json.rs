//! The generic JSON value tree that the loader consumes, and the typed,
//! presence-checked field readers over a JSON object.
//!
//! The tree is handed over by an external JSON adapter; the readers here are
//! verified against spec-level mirrors of each lookup.

use vstd::prelude::*;

verus! {

/// A generic JSON-like value: an object (ordered key/value pairs), an array,
/// a string, an integer, or anything else the loader has no use for
/// (null, boolean, non-integral number). `Other` values are never read; a
/// field holding one is of the wrong shape.
#[derive(Debug)]
pub enum JsonValue {
    Object(Vec<(String, JsonValue)>),
    Array(Vec<JsonValue>),
    Str(String),
    Int(i64),
    Other,
}

/// A JSON object: its fields in source order.
pub type JsonObject = Vec<(String, JsonValue)>;

/// The card-record fields the loader knows. Each corresponds to one key of a
/// card's JSON object.
#[derive(Clone, Copy, PartialEq, Eq, Structural, Debug)]
pub enum Field {
    Name,
    ManaCost,
    Colors,
    Layout,
    Names,
    Supertypes,
    Types,
    Subtypes,
    ImageName,
    Text,
    FlavorText,
    Power,
    Toughness,
    Loyalty,
}

/// A field-level failure: the field is absent, or present but of the wrong
/// shape.
#[derive(Clone, Copy, PartialEq, Eq, Structural, Debug)]
pub enum CardError {
    NoField(Field),
    InvalidField(Field),
}

/// The JSON key each field is stored under.
pub open spec fn field_key(f: Field) -> Seq<char> {
    match f {
        Field::Name => "name"@,
        Field::ManaCost => "manaCost"@,
        Field::Colors => "colors"@,
        Field::Layout => "layout"@,
        Field::Names => "names"@,
        Field::Supertypes => "supertypes"@,
        Field::Types => "types"@,
        Field::Subtypes => "subtypes"@,
        Field::ImageName => "imageName"@,
        Field::Text => "text"@,
        Field::FlavorText => "flavorText"@,
        Field::Power => "power"@,
        Field::Toughness => "toughness"@,
        Field::Loyalty => "loyalty"@,
    }
}

impl Field {
    /// The JSON key of this field.
    pub fn key(self) -> (r: &'static str)
        ensures
            r@ == field_key(self),
    {
        match self {
            Field::Name => "name",
            Field::ManaCost => "manaCost",
            Field::Colors => "colors",
            Field::Layout => "layout",
            Field::Names => "names",
            Field::Supertypes => "supertypes",
            Field::Types => "types",
            Field::Subtypes => "subtypes",
            Field::ImageName => "imageName",
            Field::Text => "text",
            Field::FlavorText => "flavorText",
            Field::Power => "power",
            Field::Toughness => "toughness",
            Field::Loyalty => "loyalty",
        }
    }
}

/// Character-for-character string equality on views.
pub fn str_eq(a: &str, b: &str) -> (r: bool)
    ensures
        r == (a@ == b@),
{
    let alen = a.unicode_len();
    let blen = b.unicode_len();
    if alen != blen {
        return false;
    }
    let mut i: usize = 0;
    while i < alen
        invariant
            alen == a@.len(),
            alen == b@.len(),
            i <= alen,
            forall|j: int| 0 <= j < i ==> a@[j] == b@[j],
        decreases alen - i,
    {
        if a.get_char(i) != b.get_char(i) {
            return false;
        }
        i += 1;
    }
    proof {
        assert(a@ =~= b@);
    }
    true
}

/// The first value stored under `key`, if any.
pub open spec fn spec_lookup(obj: Seq<(String, JsonValue)>, key: Seq<char>) -> Option<JsonValue>
    decreases obj.len(),
{
    if obj.len() == 0 {
        None
    } else if obj[0].0@ == key {
        Some(obj[0].1)
    } else {
        spec_lookup(obj.drop_first(), key)
    }
}

/// Finds the first field of `obj` stored under `key`.
pub fn lookup<'a>(obj: &'a JsonObject, key: &str) -> (r: Option<&'a JsonValue>)
    ensures
        match r {
            Some(v) => spec_lookup(obj@, key@) == Some(*v),
            None => spec_lookup(obj@, key@) is None,
        },
{
    let n = obj.len();
    let mut i: usize = 0;
    proof {
        assert(obj@.skip(0) =~= obj@);
    }
    while i < n
        invariant
            n == obj@.len(),
            i <= n,
            spec_lookup(obj@, key@) == spec_lookup(obj@.skip(i as int), key@),
        decreases n - i,
    {
        proof {
            assert(obj@.skip(i as int)[0] == obj@[i as int]);
            assert(obj@.skip(i as int).drop_first() =~= obj@.skip(i as int + 1));
        }
        if str_eq(obj[i].0.as_str(), key) {
            return Some(&obj[i].1);
        }
        i += 1;
    }
    None
}

/// What reading a required string field yields: the string's characters, or
/// `NoField` when the key is absent, or `InvalidField` when the value is not
/// a string.
pub open spec fn spec_read_string(obj: Seq<(String, JsonValue)>, f: Field) -> Result<
    Seq<char>,
    CardError,
> {
    match spec_lookup(obj, field_key(f)) {
        Option::None => Err(CardError::NoField(f)),
        Option::Some(v) => match v {
            JsonValue::Str(s) => Ok(s@),
            _ => Err(CardError::InvalidField(f)),
        },
    }
}

/// The view of a string-read result.
pub open spec fn str_result_view(r: Result<String, CardError>) -> Result<Seq<char>, CardError> {
    match r {
        Ok(s) => Ok(s@),
        Err(e) => Err(e),
    }
}

/// Reads a required string field.
pub fn read_string(js: &JsonObject, field: Field) -> (r: Result<String, CardError>)
    ensures
        str_result_view(r) == spec_read_string(js@, field),
{
    match lookup(js, field.key()) {
        Option::None => Err(CardError::NoField(field)),
        Option::Some(v) => match v {
            JsonValue::Str(s) => Ok(s.clone()),
            _ => Err(CardError::InvalidField(field)),
        },
    }
}

/// What reading a required integer field yields.
pub open spec fn spec_read_integer(obj: Seq<(String, JsonValue)>, f: Field) -> Result<
    i64,
    CardError,
> {
    match spec_lookup(obj, field_key(f)) {
        Option::None => Err(CardError::NoField(f)),
        Option::Some(v) => match v {
            JsonValue::Int(n) => Ok(n),
            _ => Err(CardError::InvalidField(f)),
        },
    }
}

/// Reads a required integer field.
pub fn read_integer(js: &JsonObject, field: Field) -> (r: Result<i64, CardError>)
    ensures
        r == spec_read_integer(js@, field),
{
    match lookup(js, field.key()) {
        Option::None => Err(CardError::NoField(field)),
        Option::Some(v) => match v {
            JsonValue::Int(n) => Ok(*n),
            _ => Err(CardError::InvalidField(field)),
        },
    }
}

/// The characters of each element of `a`, provided every element is a
/// string; `None` as soon as any element is not.
pub open spec fn spec_str_elems(a: Seq<JsonValue>) -> Option<Seq<Seq<char>>>
    decreases a.len(),
{
    if a.len() == 0 {
        Some(Seq::empty())
    } else {
        match a[0] {
            JsonValue::Str(s) => match spec_str_elems(a.drop_first()) {
                Option::Some(rest) => Some(seq![s@] + rest),
                Option::None => None,
            },
            _ => None,
        }
    }
}

/// What reading a required string-array field yields. An array holding any
/// non-string element fails atomically.
pub open spec fn spec_read_string_array(obj: Seq<(String, JsonValue)>, f: Field) -> Result<
    Seq<Seq<char>>,
    CardError,
> {
    match spec_lookup(obj, field_key(f)) {
        Option::None => Err(CardError::NoField(f)),
        Option::Some(v) => match v {
            JsonValue::Array(a) => match spec_str_elems(a@) {
                Option::Some(ss) => Ok(ss),
                Option::None => Err(CardError::InvalidField(f)),
            },
            _ => Err(CardError::InvalidField(f)),
        },
    }
}

/// The character sequences of a vector of strings.
pub open spec fn strings_view(v: Seq<String>) -> Seq<Seq<char>> {
    v.map_values(|s: String| s@)
}

/// The view of a string-array-read result.
pub open spec fn str_array_result_view(r: Result<Vec<String>, CardError>) -> Result<
    Seq<Seq<char>>,
    CardError,
> {
    match r {
        Ok(v) => Ok(strings_view(v@)),
        Err(e) => Err(e),
    }
}

/// Reads a required array-of-strings field.
pub fn read_string_array(js: &JsonObject, field: Field) -> (r: Result<Vec<String>, CardError>)
    ensures
        str_array_result_view(r) == spec_read_string_array(js@, field),
{
    match lookup(js, field.key()) {
        Option::None => Err(CardError::NoField(field)),
        Option::Some(v) => match v {
            JsonValue::Array(a) => {
                let n = a.len();
                let mut out: Vec<String> = Vec::new();
                let mut i: usize = 0;
                proof {
                    assert(a@.skip(0) =~= a@);
                    assert(strings_view(out@) =~= Seq::<Seq<char>>::empty());
                    if spec_str_elems(a@) is Some {
                        let whole = spec_str_elems(a@).unwrap();
                        assert(strings_view(out@) + whole =~= whole);
                    }
                }
                while i < n
                    invariant
                        n == a@.len(),
                        i <= n,
                        spec_lookup(js@, field_key(field)) == Some(JsonValue::Array(*a)),
                        match spec_str_elems(a@.skip(i as int)) {
                            Option::Some(rest) => spec_str_elems(a@) == Some(
                                strings_view(out@) + rest,
                            ),
                            Option::None => spec_str_elems(a@) is None,
                        },
                    decreases n - i,
                {
                    proof {
                        assert(a@.skip(i as int)[0] == a@[i as int]);
                        assert(a@.skip(i as int).drop_first() =~= a@.skip(i as int + 1));
                    }
                    match &a[i] {
                        JsonValue::Str(s) => {
                            let ghost prev = out@;
                            out.push(s.clone());
                            proof {
                                assert(strings_view(out@) =~= strings_view(prev) + seq![s@]);
                                if spec_str_elems(a@.skip(i as int + 1)) is Some {
                                    let rest = spec_str_elems(a@.skip(i as int + 1)).unwrap();
                                    assert((strings_view(prev) + (seq![s@] + rest)) =~= (
                                    strings_view(out@) + rest));
                                }
                            }
                        },
                        _ => {
                            return Err(CardError::InvalidField(field));
                        },
                    }
                    i += 1;
                }
                proof {
                    assert(a@.skip(n as int) =~= Seq::<JsonValue>::empty());
                    assert(strings_view(out@) + Seq::<Seq<char>>::empty() =~= strings_view(out@));
                }
                Ok(out)
            },
            _ => Err(CardError::InvalidField(field)),
        },
    }
}

/// Turns `NoField` into an absent value; a present but malformed field is
/// still an error.
pub open spec fn spec_optional<T>(r: Result<T, CardError>) -> Result<Option<T>, CardError> {
    match r {
        Ok(v) => Ok(Some(v)),
        Err(CardError::NoField(_)) => Ok(None),
        Err(e) => Err(e),
    }
}

/// Reads an optional string field: absent is `None`, malformed is an error.
pub fn read_opt_string(js: &JsonObject, field: Field) -> (r: Result<Option<String>, CardError>)
    ensures
        match r {
            Ok(Option::Some(s)) => spec_optional(spec_read_string(js@, field)) == Ok::<
                Option<Seq<char>>,
                CardError,
            >(Some(s@)),
            Ok(Option::None) => spec_optional(spec_read_string(js@, field)) == Ok::<
                Option<Seq<char>>,
                CardError,
            >(None),
            Err(e) => spec_optional(spec_read_string(js@, field)) == Err::<
                Option<Seq<char>>,
                CardError,
            >(e),
        },
{
    match read_string(js, field) {
        Ok(s) => Ok(Some(s)),
        Err(CardError::NoField(_)) => Ok(None),
        Err(e) => Err(e),
    }
}

/// Reads an optional integer field: absent is `None`, malformed is an error.
pub fn read_opt_integer(js: &JsonObject, field: Field) -> (r: Result<Option<i64>, CardError>)
    ensures
        r == spec_optional(spec_read_integer(js@, field)),
{
    match read_integer(js, field) {
        Ok(n) => Ok(Some(n)),
        Err(CardError::NoField(_)) => Ok(None),
        Err(e) => Err(e),
    }
}

/// Reads an optional array-of-strings field: absent is `None`, malformed is
/// an error.
pub fn read_opt_string_array(js: &JsonObject, field: Field) -> (r: Result<
    Option<Vec<String>>,
    CardError,
>)
    ensures
        match r {
            Ok(Option::Some(v)) => spec_optional(spec_read_string_array(js@, field)) == Ok::<
                Option<Seq<Seq<char>>>,
                CardError,
            >(Some(strings_view(v@))),
            Ok(Option::None) => spec_optional(spec_read_string_array(js@, field)) == Ok::<
                Option<Seq<Seq<char>>>,
                CardError,
            >(None),
            Err(e) => spec_optional(spec_read_string_array(js@, field)) == Err::<
                Option<Seq<Seq<char>>>,
                CardError,
            >(e),
        },
{
    match read_string_array(js, field) {
        Ok(v) => Ok(Some(v)),
        Err(CardError::NoField(_)) => Ok(None),
        Err(e) => Err(e),
    }
}

} // verus!
