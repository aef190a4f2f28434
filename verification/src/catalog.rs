//! The published catalog: the layout resolver and face linker, which
//! classifies every entry of the document by printed layout and cross-links
//! multi-face cards into shared face records.
//!
//! Faces are stored once in an arena, in document order; a published card
//! holds arena indices, so two catalog entries that share a face share the
//! very same record, and identity is index equality.

use crate::card::CardFace;
use crate::card::CardLayout;
use crate::card::FaceV;
use crate::card::read_card;
use crate::card::read_layout;
use crate::card::spec_build_face;
use crate::card::spec_read_layout;
use crate::json::CardError;
use crate::json::Field;
use crate::json::JsonValue;
use crate::json::read_string_array;
use crate::json::spec_read_string_array;
use crate::json::str_eq;
use crate::json::strings_view;
use vstd::prelude::*;
use vstd::seq_lib::group_seq_properties;

verus! {

/// A published catalog entry, tagged by layout family. Faces are referred to
/// by index into the catalog's face arena; two entries that name the same
/// index share one face record.
#[derive(Clone, PartialEq, Eq, Debug)]
pub enum Card {
    /// A normal or leveler card: one face, no companions.
    SingleFace(usize),
    /// A split, flip or double-faced card with exactly one companion: this
    /// entry's own face first, its counterpart second.
    TwoFace(usize, usize),
    /// A card whose printed group has more than two names: this entry's own
    /// face first, then the faces of every companion.
    ManyFace(usize, Vec<usize>),
    /// A token, plane, scheme, phenomenon or vanguard: a single record with
    /// no companion-linking rules.
    Special(usize),
}

/// The mathematical value of a published card.
pub enum CardV {
    SingleFace(int),
    TwoFace(int, int),
    ManyFace(int, Seq<int>),
    Special(int),
}

/// The values of a vector of arena indices.
pub open spec fn indices_view(v: Seq<usize>) -> Seq<int> {
    v.map_values(|x: usize| x as int)
}

impl View for Card {
    type V = CardV;

    open spec fn view(&self) -> CardV {
        match self {
            Card::SingleFace(i) => CardV::SingleFace(*i as int),
            Card::TwoFace(i, j) => CardV::TwoFace(*i as int, *j as int),
            Card::ManyFace(i, o) => CardV::ManyFace(*i as int, indices_view(o@)),
            Card::Special(i) => CardV::Special(*i as int),
        }
    }
}

/// A load failure: the document root is not an object, an entry's value is
/// not an object, a field-level error wrapped with the failing card's name,
/// or an error of the external JSON text parser, passed through as its
/// message.
#[derive(Clone, PartialEq, Eq, Debug)]
pub enum BuilderError {
    NoTopLevelObject,
    InvalidCardObject(String),
    Named(String, CardError),
    Json(String),
}

/// The mathematical value of a load failure.
pub enum BuildErrV {
    NoTopLevelObject,
    InvalidCardObject(Seq<char>),
    Named(Seq<char>, CardError),
    Json(Seq<char>),
}

impl View for BuilderError {
    type V = BuildErrV;

    open spec fn view(&self) -> BuildErrV {
        match self {
            BuilderError::NoTopLevelObject => BuildErrV::NoTopLevelObject,
            BuilderError::InvalidCardObject(n) => BuildErrV::InvalidCardObject(n@),
            BuilderError::Named(n, e) => BuildErrV::Named(n@, *e),
            BuilderError::Json(m) => BuildErrV::Json(m@),
        }
    }
}

/// The validated catalog: the face arena and the name-to-card entries, both
/// immutable once the load returns.
#[derive(Clone, PartialEq, Eq, Debug)]
pub struct Catalog {
    faces: Vec<CardFace>,
    entries: Vec<(String, Card)>,
}

/// The mathematical value of a catalog.
pub struct CatalogV {
    pub faces: Seq<FaceV>,
    pub entries: Seq<(Seq<char>, CardV)>,
}

/// The values of a sequence of faces.
pub open spec fn faces_view(faces: Seq<CardFace>) -> Seq<FaceV> {
    faces.map_values(|f: CardFace| f@)
}

/// The values of a sequence of name-to-card entries.
pub open spec fn entries_view(entries: Seq<(String, Card)>) -> Seq<(Seq<char>, CardV)> {
    entries.map_values(|p: (String, Card)| (p.0@, p.1@))
}

impl View for Catalog {
    type V = CatalogV;

    closed spec fn view(&self) -> CatalogV {
        CatalogV { faces: faces_view(self.faces@), entries: entries_view(self.entries@) }
    }
}

/// Whether some entry is stored under `k`.
pub open spec fn spec_contains_key(entries: Seq<(Seq<char>, CardV)>, k: Seq<char>) -> bool {
    exists|j: int| 0 <= j < entries.len() && entries[j].0 == k
}

/// The first card stored under `k`, if any.
pub open spec fn spec_entry_lookup(entries: Seq<(Seq<char>, CardV)>, k: Seq<char>) -> Option<CardV>
    decreases entries.len(),
{
    if entries.len() == 0 {
        None
    } else if entries[0].0 == k {
        Some(entries[0].1)
    } else {
        spec_entry_lookup(entries.drop_first(), k)
    }
}

/// The first position at or after `i` whose key is `k`, if any.
pub open spec fn spec_find_key(doc: Seq<(String, JsonValue)>, k: Seq<char>, i: int) -> Option<int>
    decreases doc.len() - i,
{
    if i < 0 || i >= doc.len() {
        None
    } else if doc[i].0@ == k {
        Some(i)
    } else {
        spec_find_key(doc, k, i + 1)
    }
}

/// The predicate holding of every name other than `x`.
pub open spec fn spec_not_name(x: Seq<char>) -> spec_fn(Seq<char>) -> bool {
    |n: Seq<char>| n != x
}

/// The companion names of group member `x`: the group's name list with
/// every occurrence of `x` removed.
pub open spec fn spec_member_others(names: Seq<Seq<char>>, x: Seq<char>) -> Seq<Seq<char>> {
    names.filter(spec_not_name(x))
}

/// The document positions of the given names, in order; `None` as soon as
/// some name is not a key of the document.
pub open spec fn spec_find_indices(doc: Seq<(String, JsonValue)>, names: Seq<Seq<char>>) -> Option<
    Seq<int>,
>
    decreases names.len(),
{
    if names.len() == 0 {
        Some(Seq::empty())
    } else {
        match spec_find_key(doc, names[0], 0) {
            Option::Some(j) => match spec_find_indices(doc, names.drop_first()) {
                Option::Some(rest) => Some(seq![j] + rest),
                Option::None => None,
            },
            Option::None => None,
        }
    }
}

/// The published card of group member `x`, whose own face sits at document
/// position `ix`: a `TwoFace` when exactly one companion remains, otherwise
/// a `ManyFace`; `None` when some companion name dangles.
pub open spec fn spec_member_card(
    doc: Seq<(String, JsonValue)>,
    names: Seq<Seq<char>>,
    x: Seq<char>,
    ix: int,
) -> Option<CardV> {
    let others = spec_member_others(names, x);
    match spec_find_indices(doc, others) {
        Option::Some(idx) => Some(
            if idx.len() == 1 {
                CardV::TwoFace(ix, idx[0])
            } else {
                CardV::ManyFace(ix, idx)
            },
        ),
        Option::None => None,
    }
}

/// Inserts the published card of every listed companion, in list order;
/// `None` when a companion dangles, is already resolved, or appears twice.
pub open spec fn spec_insert_members(
    doc: Seq<(String, JsonValue)>,
    names: Seq<Seq<char>>,
    members: Seq<Seq<char>>,
    acc: Seq<(Seq<char>, CardV)>,
) -> Option<Seq<(Seq<char>, CardV)>>
    decreases members.len(),
{
    if members.len() == 0 {
        Some(acc)
    } else {
        let o = members[0];
        if spec_contains_key(acc, o) {
            None
        } else {
            match spec_find_key(doc, o, 0) {
                Option::Some(j) => match spec_member_card(doc, names, o, j) {
                    Option::Some(c) => spec_insert_members(
                        doc,
                        names,
                        members.drop_first(),
                        acc.push((o, c)),
                    ),
                    Option::None => None,
                },
                Option::None => None,
            }
        }
    }
}

/// The faces of the document's entries from position `i` on, in document
/// order, or the first failure: an entry whose value is not an object, or a
/// field-level error wrapped with the entry's key.
pub open spec fn spec_pass1(doc: Seq<(String, JsonValue)>, i: int) -> Result<Seq<FaceV>, BuildErrV>
    decreases doc.len() - i,
{
    if i < 0 || i >= doc.len() {
        Ok(Seq::empty())
    } else {
        match doc[i].1 {
            JsonValue::Object(obj) => match spec_build_face(obj@) {
                Ok(f) => match spec_pass1(doc, i + 1) {
                    Ok(rest) => Ok(seq![f] + rest),
                    Err(e) => Err(e),
                },
                Err(e) => Err(BuildErrV::Named(doc[i].0@, e)),
            },
            _ => Err(BuildErrV::InvalidCardObject(doc[i].0@)),
        }
    }
}

/// The linking step for one multi-face entry: validates the name list,
/// requires exactly one occurrence of the entry's own key, resolves every
/// companion, and inserts a card for every member of the group.
pub open spec fn spec_link_entry(
    doc: Seq<(String, JsonValue)>,
    i: int,
    k: Seq<char>,
    names: Seq<Seq<char>>,
    acc: Seq<(Seq<char>, CardV)>,
) -> Option<Seq<(Seq<char>, CardV)>> {
    if names.len() < 2 {
        None
    } else {
        let others = spec_member_others(names, k);
        if others.len() != names.len() - 1 {
            None
        } else {
            match spec_member_card(doc, names, k, i) {
                Option::Some(c) => spec_insert_members(doc, names, others, acc.push((k, c))),
                Option::None => None,
            }
        }
    }
}

/// The published entries of the document from position `i` on, given the
/// entries already resolved: each unresolved key is classified by its
/// `layout` field and its card (and, for multi-face layouts, the cards of
/// its whole group) is appended; or the first failure.
pub open spec fn spec_pass2(
    doc: Seq<(String, JsonValue)>,
    i: int,
    acc: Seq<(Seq<char>, CardV)>,
) -> Result<Seq<(Seq<char>, CardV)>, BuildErrV>
    decreases doc.len() - i,
{
    if i < 0 || i >= doc.len() {
        Ok(acc)
    } else {
        let k = doc[i].0@;
        if spec_contains_key(acc, k) {
            spec_pass2(doc, i + 1, acc)
        } else {
            match doc[i].1 {
                JsonValue::Object(obj) => match spec_read_layout(obj@) {
                    Err(e) => Err(BuildErrV::Named(k, e)),
                    Ok(l) => match l {
                        CardLayout::Normal | CardLayout::Leveler => spec_pass2(
                            doc,
                            i + 1,
                            acc.push((k, CardV::SingleFace(i))),
                        ),
                        CardLayout::Token | CardLayout::Plane | CardLayout::Scheme
                        | CardLayout::Phenomenon | CardLayout::Vanguard => spec_pass2(
                            doc,
                            i + 1,
                            acc.push((k, CardV::Special(i))),
                        ),
                        CardLayout::Split | CardLayout::Flip | CardLayout::DoubleFaced => match
                        spec_read_string_array(obj@, Field::Names) {
                            Err(e) => Err(BuildErrV::Named(k, e)),
                            Ok(names) => match spec_link_entry(doc, i, k, names, acc) {
                                Option::Some(acc2) => spec_pass2(doc, i + 1, acc2),
                                Option::None => Err(
                                    BuildErrV::Named(k, CardError::InvalidField(Field::Names)),
                                ),
                            },
                        },
                    },
                },
                _ => Err(BuildErrV::InvalidCardObject(k)),
            }
        }
    }
}

/// The catalog a document denotes: the faces of the first pass and the
/// entries of the second, or the first failure of either pass.
pub open spec fn spec_load(doc: Seq<(String, JsonValue)>) -> Result<CatalogV, BuildErrV> {
    match spec_pass1(doc, 0) {
        Err(e) => Err(e),
        Ok(faces) => match spec_pass2(doc, 0, Seq::empty()) {
            Err(e) => Err(e),
            Ok(entries) => Ok(CatalogV { faces, entries }),
        },
    }
}

/// The catalog a JSON value denotes: its top level must be an object.
pub open spec fn spec_from_json(js: JsonValue) -> Result<CatalogV, BuildErrV> {
    match js {
        JsonValue::Object(doc) => spec_load(doc@),
        _ => Err(BuildErrV::NoTopLevelObject),
    }
}

/// Finds the first document position holding key `k`.
fn find_key(doc: &Vec<(String, JsonValue)>, k: &str) -> (r: Option<usize>)
    ensures
        match r {
            Some(j) => spec_find_key(doc@, k@, 0) == Some(j as int),
            None => spec_find_key(doc@, k@, 0) is None,
        },
{
    let n = doc.len();
    let mut i: usize = 0;
    while i < n
        invariant
            n == doc@.len(),
            i <= n,
            spec_find_key(doc@, k@, 0) == spec_find_key(doc@, k@, i as int),
        decreases n - i,
    {
        if str_eq(doc[i].0.as_str(), k) {
            return Some(i);
        }
        i += 1;
    }
    None
}

/// Whether some resolved entry is stored under `k`.
fn has_key(entries: &Vec<(String, Card)>, k: &str) -> (r: bool)
    ensures
        r == spec_contains_key(entries_view(entries@), k@),
{
    let n = entries.len();
    let mut i: usize = 0;
    while i < n
        invariant
            n == entries@.len(),
            i <= n,
            forall|j: int| 0 <= j < i ==> entries_view(entries@)[j].0 != k@,
        decreases n - i,
    {
        if str_eq(entries[i].0.as_str(), k) {
            proof {
                assert(entries_view(entries@)[i as int].0 == k@);
            }
            return true;
        }
        i += 1;
    }
    false
}

/// The group's name list with every occurrence of `x` removed.
fn filter_out(names: &Vec<String>, x: &str) -> (r: Vec<String>)
    ensures
        strings_view(r@) == spec_member_others(strings_view(names@), x@),
{
    broadcast use group_seq_properties;

    let ghost ss = strings_view(names@);
    let ghost pred = spec_not_name(x@);
    let n = names.len();
    let mut out: Vec<String> = Vec::new();
    let mut i: usize = 0;
    proof {
        reveal(Seq::filter);
        assert(ss.take(0) =~= Seq::<Seq<char>>::empty());
        assert(Seq::<Seq<char>>::empty().filter(pred) =~= Seq::<Seq<char>>::empty());
        assert(strings_view(out@) =~= Seq::<Seq<char>>::empty());
    }
    while i < n
        invariant
            n == names@.len(),
            ss == strings_view(names@),
            pred == spec_not_name(x@),
            i <= n,
            strings_view(out@) == ss.take(i as int).filter(pred),
        decreases n - i,
    {
        let ghost prefix = ss.take(i as int);
        let ghost cur = ss[i as int];
        proof {
            reveal(Seq::filter);
            assert(ss.take(i as int + 1).drop_last() =~= prefix);
            assert(ss.take(i as int + 1).last() == cur);
            assert(cur == names@[i as int]@);
            assert(ss.take(i as int + 1).filter(pred) == (if pred(cur) {
                prefix.filter(pred).push(cur)
            } else {
                prefix.filter(pred)
            }));
        }
        if !str_eq(names[i].as_str(), x) {
            let ghost prev = out@;
            out.push(names[i].clone());
            proof {
                assert(pred(cur));
                assert(strings_view(out@) =~= strings_view(prev).push(cur));
            }
        } else {
            proof {
                assert(!pred(cur));
            }
        }
        i += 1;
    }
    proof {
        assert(ss.take(n as int) =~= ss);
    }
    out
}

/// The document positions of the given names, in order.
fn find_indices(doc: &Vec<(String, JsonValue)>, names: &Vec<String>) -> (r: Option<Vec<usize>>)
    ensures
        match r {
            Some(v) => spec_find_indices(doc@, strings_view(names@)) == Some(indices_view(v@)),
            None => spec_find_indices(doc@, strings_view(names@)) is None,
        },
{
    let ghost ss = strings_view(names@);
    let n = names.len();
    let mut out: Vec<usize> = Vec::new();
    let mut i: usize = 0;
    proof {
        assert(ss.skip(0) =~= ss);
        if spec_find_indices(doc@, ss) is Some {
            let whole = spec_find_indices(doc@, ss).unwrap();
            assert(indices_view(out@) + whole =~= whole);
        }
    }
    while i < n
        invariant
            n == names@.len(),
            ss == strings_view(names@),
            i <= n,
            match spec_find_indices(doc@, ss.skip(i as int)) {
                Option::Some(rest) => spec_find_indices(doc@, ss) == Some(indices_view(out@) + rest),
                Option::None => spec_find_indices(doc@, ss) is None,
            },
        decreases n - i,
    {
        proof {
            assert(ss.skip(i as int)[0] == ss[i as int]);
            assert(ss[i as int] == names@[i as int]@);
            assert(ss.skip(i as int).drop_first() =~= ss.skip(i as int + 1));
        }
        match find_key(doc, names[i].as_str()) {
            Option::Some(j) => {
                let ghost prev = out@;
                out.push(j);
                proof {
                    assert(indices_view(out@) =~= indices_view(prev).push(j as int));
                    if spec_find_indices(doc@, ss.skip(i as int + 1)) is Some {
                        let rest = spec_find_indices(doc@, ss.skip(i as int + 1)).unwrap();
                        assert((indices_view(prev) + (seq![j as int] + rest)) =~= (indices_view(
                            out@,
                        ) + rest));
                    }
                }
            },
            Option::None => {
                return None;
            },
        }
        i += 1;
    }
    proof {
        assert(ss.skip(n as int) =~= Seq::<Seq<char>>::empty());
        assert(indices_view(out@) + Seq::<int>::empty() =~= indices_view(out@));
    }
    Some(out)
}

/// Inserts the published card of every listed companion of the group into
/// the resolved entries, in list order; fails (and reports `false`) when a
/// companion dangles, is already resolved, or appears twice in the list.
fn insert_members(
    doc: &Vec<(String, JsonValue)>,
    names: &Vec<String>,
    members: &Vec<String>,
    entries: &mut Vec<(String, Card)>,
) -> (r: bool)
    ensures
        match spec_insert_members(
            doc@,
            strings_view(names@),
            strings_view(members@),
            entries_view(old(entries)@),
        ) {
            Option::Some(acc2) => r && entries_view(final(entries)@) == acc2,
            Option::None => !r,
        },
{
    let ghost ms = strings_view(members@);
    let ghost orig = entries_view(entries@);
    let n = members.len();
    let mut i: usize = 0;
    proof {
        assert(ms.skip(0) =~= ms);
    }
    while i < n
        invariant
            n == members@.len(),
            ms == strings_view(members@),
            orig == entries_view(old(entries)@),
            i <= n,
            spec_insert_members(doc@, strings_view(names@), ms, orig) == spec_insert_members(
                doc@,
                strings_view(names@),
                ms.skip(i as int),
                entries_view(entries@),
            ),
        decreases n - i,
    {
        proof {
            assert(ms.skip(i as int)[0] == ms[i as int]);
            assert(ms[i as int] == members@[i as int]@);
            assert(ms.skip(i as int).drop_first() =~= ms.skip(i as int + 1));
        }
        let o = &members[i];
        if has_key(entries, o.as_str()) {
            return false;
        }
        match find_key(doc, o.as_str()) {
            Option::None => {
                return false;
            },
            Option::Some(j) => {
                match member_card(doc, names, o.as_str(), j) {
                    Option::None => {
                        return false;
                    },
                    Option::Some(c) => {
                        let ghost prev = entries@;
                        let co = o.clone();
                        entries.push((co, c));
                        proof {
                            assert(entries_view(entries@) =~= entries_view(prev).push((o@, c@)));
                        }
                    },
                }
            },
        }
        i += 1;
    }
    proof {
        assert(ms.skip(n as int) =~= Seq::<Seq<char>>::empty());
    }
    true
}

/// Builds the published card of group member `x`, whose face sits at
/// document position `ix`.
fn member_card(
    doc: &Vec<(String, JsonValue)>,
    names: &Vec<String>,
    x: &str,
    ix: usize,
) -> (r: Option<Card>)
    ensures
        match r {
            Some(c) => spec_member_card(doc@, strings_view(names@), x@, ix as int) == Some(c@),
            None => spec_member_card(doc@, strings_view(names@), x@, ix as int) is None,
        },
{
    let others = filter_out(names, x);
    match find_indices(doc, &others) {
        Option::Some(idx) => {
            if idx.len() == 1 {
                let j = idx[0];
                Some(Card::TwoFace(ix, j))
            } else {
                proof {
                    assert(indices_view(idx@).len() == idx@.len());
                }
                Some(Card::ManyFace(ix, idx))
            }
        },
        Option::None => None,
    }
}

/// Whether a published card's face indices all point into an arena of `n`
/// faces.
pub open spec fn spec_card_wf(c: CardV, n: int) -> bool {
    match c {
        CardV::SingleFace(i) => 0 <= i < n,
        CardV::TwoFace(i, j) => 0 <= i < n && 0 <= j < n,
        CardV::ManyFace(i, o) => 0 <= i < n && (forall|m: int|
            0 <= m < o.len() ==> 0 <= #[trigger] o[m] < n),
        CardV::Special(i) => 0 <= i < n,
    }
}

/// Whether the entries are stored under pairwise distinct names and every
/// card points into an arena of `n` faces.
pub open spec fn spec_entries_wf(entries: Seq<(Seq<char>, CardV)>, n: int) -> bool {
    (forall|p: int, q: int|
        0 <= p < q < entries.len() ==> (#[trigger] entries[p].0) != (#[trigger] entries[q].0))
        && (forall|j: int| 0 <= j < entries.len() ==> spec_card_wf((#[trigger] entries[j]).1, n))
}

impl Catalog {
    /// Every entry name is unique and every face index points into the
    /// face arena.
    pub open spec fn wf(self) -> bool {
        spec_entries_wf(self@.entries, self@.faces.len() as int)
    }

    /// The number of published entries.
    pub fn card_count(&self) -> (r: usize)
        ensures
            r == self@.entries.len(),
    {
        self.entries.len()
    }

    /// The number of faces in the arena.
    pub fn face_count(&self) -> (r: usize)
        ensures
            r == self@.faces.len(),
    {
        self.faces.len()
    }

    /// Looks a card up by name.
    pub fn get(&self, name: &str) -> (r: Option<&Card>)
        ensures
            match r {
                Some(c) => spec_entry_lookup(self@.entries, name@) == Some(c@),
                None => spec_entry_lookup(self@.entries, name@) is None,
            },
    {
        let n = self.entries.len();
        let mut i: usize = 0;
        proof {
            assert(self@.entries.skip(0) =~= self@.entries);
        }
        while i < n
            invariant
                n == self.entries@.len(),
                self@.entries.len() == n,
                self@.entries == entries_view(self.entries@),
                i <= n,
                spec_entry_lookup(self@.entries, name@) == spec_entry_lookup(
                    self@.entries.skip(i as int),
                    name@,
                ),
            decreases n - i,
        {
            proof {
                assert(self@.entries.skip(i as int)[0] == self@.entries[i as int]);
                assert(self@.entries.skip(i as int).drop_first() =~= self@.entries.skip(
                    i as int + 1,
                ));
            }
            if str_eq(self.entries[i].0.as_str(), name) {
                return Some(&self.entries[i].1);
            }
            i += 1;
        }
        None
    }

    /// The face at an arena index, shared by every entry that names it;
    /// `None` when the index is out of range.
    pub fn face(&self, i: usize) -> (r: Option<&CardFace>)
        ensures
            match r {
                Some(f) => i < self@.faces.len() && f@ == self@.faces[i as int],
                None => i >= self@.faces.len(),
            },
    {
        if i < self.faces.len() {
            Some(&self.faces[i])
        } else {
            None
        }
    }
}

/// A found key lies in the document, at or after the start of the search,
/// and holds the key searched for.
pub proof fn lemma_find_key_props(doc: Seq<(String, JsonValue)>, k: Seq<char>, i: int)
    ensures
        match spec_find_key(doc, k, i) {
            Option::Some(j) => i <= j < doc.len() && doc[j].0@ == k,
            Option::None => true,
        },
    decreases doc.len() - i,
{
    if i < 0 || i >= doc.len() {
    } else if doc[i].0@ == k {
    } else {
        lemma_find_key_props(doc, k, i + 1);
    }
}

/// Found positions are one per name and all lie in the document.
pub proof fn lemma_find_indices_props(doc: Seq<(String, JsonValue)>, names: Seq<Seq<char>>)
    ensures
        match spec_find_indices(doc, names) {
            Option::Some(idx) => idx.len() == names.len() && (forall|m: int|
                0 <= m < idx.len() ==> 0 <= #[trigger] idx[m] < doc.len()),
            Option::None => true,
        },
    decreases names.len(),
{
    if names.len() == 0 {
    } else {
        lemma_find_key_props(doc, names[0], 0);
        lemma_find_indices_props(doc, names.drop_first());
    }
}

/// A member card built at a document position is well formed for an arena
/// of one face per document entry.
pub proof fn lemma_member_card_wf(
    doc: Seq<(String, JsonValue)>,
    names: Seq<Seq<char>>,
    x: Seq<char>,
    ix: int,
)
    requires
        0 <= ix < doc.len(),
    ensures
        match spec_member_card(doc, names, x, ix) {
            Option::Some(c) => spec_card_wf(c, doc.len() as int),
            Option::None => true,
        },
{
    lemma_find_indices_props(doc, spec_member_others(names, x));
}

/// Inserting a group's companions preserves well-formedness of the
/// resolved entries.
pub proof fn lemma_insert_members_wf(
    doc: Seq<(String, JsonValue)>,
    names: Seq<Seq<char>>,
    members: Seq<Seq<char>>,
    acc: Seq<(Seq<char>, CardV)>,
)
    requires
        spec_entries_wf(acc, doc.len() as int),
    ensures
        match spec_insert_members(doc, names, members, acc) {
            Option::Some(acc2) => spec_entries_wf(acc2, doc.len() as int),
            Option::None => true,
        },
    decreases members.len(),
{
    if members.len() == 0 {
    } else {
        let o = members[0];
        if spec_contains_key(acc, o) {
        } else {
            match spec_find_key(doc, o, 0) {
                Option::Some(j) => {
                    lemma_find_key_props(doc, o, 0);
                    match spec_member_card(doc, names, o, j) {
                        Option::Some(c) => {
                            lemma_member_card_wf(doc, names, o, j);
                            let pushed = acc.push((o, c));
                            assert forall|p: int, q: int| 0 <= p < q < pushed.len() implies (
                            #[trigger] pushed[p].0) != (#[trigger] pushed[q].0) by {
                                if q == pushed.len() - 1 {
                                    assert(pushed[q].0 == o);
                                    assert(!spec_contains_key(acc, o));
                                    assert(pushed[p] == acc[p]);
                                }
                            }
                            lemma_insert_members_wf(doc, names, members.drop_first(), pushed);
                        },
                        Option::None => {},
                    }
                },
                Option::None => {},
            }
        }
    }
}

/// The second pass preserves well-formedness of the resolved entries.
pub proof fn lemma_pass2_wf(doc: Seq<(String, JsonValue)>, i: int, acc: Seq<(Seq<char>, CardV)>)
    requires
        spec_entries_wf(acc, doc.len() as int),
    ensures
        match spec_pass2(doc, i, acc) {
            Ok(entries) => spec_entries_wf(entries, doc.len() as int),
            Err(_) => true,
        },
    decreases doc.len() - i,
{
    if i < 0 || i >= doc.len() {
    } else {
        let k = doc[i].0@;
        if spec_contains_key(acc, k) {
            lemma_pass2_wf(doc, i + 1, acc);
        } else {
            match doc[i].1 {
                JsonValue::Object(obj) => match spec_read_layout(obj@) {
                    Err(_) => {},
                    Ok(l) => match l {
                        CardLayout::Normal | CardLayout::Leveler => {
                            let pushed = acc.push((k, CardV::SingleFace(i)));
                            lemma_push_unresolved_wf(doc, acc, k, CardV::SingleFace(i));
                            lemma_pass2_wf(doc, i + 1, pushed);
                        },
                        CardLayout::Token | CardLayout::Plane | CardLayout::Scheme
                        | CardLayout::Phenomenon | CardLayout::Vanguard => {
                            let pushed = acc.push((k, CardV::Special(i)));
                            lemma_push_unresolved_wf(doc, acc, k, CardV::Special(i));
                            lemma_pass2_wf(doc, i + 1, pushed);
                        },
                        CardLayout::Split | CardLayout::Flip | CardLayout::DoubleFaced => match
                        spec_read_string_array(obj@, Field::Names) {
                            Err(_) => {},
                            Ok(names) => {
                                if names.len() >= 2 {
                                    let others = spec_member_others(names, k);
                                    match spec_member_card(doc, names, k, i) {
                                        Option::Some(c) => {
                                            lemma_member_card_wf(doc, names, k, i);
                                            lemma_push_unresolved_wf(doc, acc, k, c);
                                            lemma_insert_members_wf(
                                                doc,
                                                names,
                                                others,
                                                acc.push((k, c)),
                                            );
                                            match spec_insert_members(
                                                doc,
                                                names,
                                                others,
                                                acc.push((k, c)),
                                            ) {
                                                Option::Some(acc2) => {
                                                    lemma_pass2_wf(doc, i + 1, acc2);
                                                },
                                                Option::None => {},
                                            }
                                        },
                                        Option::None => {},
                                    }
                                }
                            },
                        },
                    },
                },
                _ => {},
            }
        }
    }
}

/// Appending an unresolved name with a well-formed card preserves
/// well-formedness.
proof fn lemma_push_unresolved_wf(
    doc: Seq<(String, JsonValue)>,
    acc: Seq<(Seq<char>, CardV)>,
    k: Seq<char>,
    c: CardV,
)
    requires
        spec_entries_wf(acc, doc.len() as int),
        !spec_contains_key(acc, k),
        spec_card_wf(c, doc.len() as int),
    ensures
        spec_entries_wf(acc.push((k, c)), doc.len() as int),
{
    let pushed = acc.push((k, c));
    assert forall|p: int, q: int| 0 <= p < q < pushed.len() implies (#[trigger] pushed[p].0) != (
    #[trigger] pushed[q].0) by {
        if q == pushed.len() - 1 {
            assert(pushed[p] == acc[p]);
        }
    }
}

/// The first pass yields one face per document entry.
pub proof fn lemma_pass1_len(doc: Seq<(String, JsonValue)>, i: int)
    requires
        0 <= i <= doc.len(),
    ensures
        match spec_pass1(doc, i) {
            Ok(faces) => faces.len() == doc.len() - i,
            Err(_) => true,
        },
    decreases doc.len() - i,
{
    if i >= doc.len() {
    } else {
        lemma_pass1_len(doc, i + 1);
    }
}

/// Loads the catalog from a parsed JSON tree: the first pass builds one
/// face per document entry, the second classifies each entry by layout and
/// links multi-face groups. The first error anywhere aborts the whole load;
/// no partial catalog is ever returned.
pub fn from_json(js: &JsonValue) -> (r: Result<Catalog, BuilderError>)
    ensures
        match r {
            Ok(c) => spec_from_json(*js) == Ok::<CatalogV, BuildErrV>(c@) && c.wf(),
            Err(e) => spec_from_json(*js) == Err::<CatalogV, BuildErrV>(e@),
        },
{
    let doc = match js {
        JsonValue::Object(doc) => doc,
        _ => {
            return Err(BuilderError::NoTopLevelObject);
        },
    };
    let n = doc.len();
    let mut faces: Vec<CardFace> = Vec::new();
    let mut i: usize = 0;
    proof {
        if spec_pass1(doc@, 0) is Ok {
            let whole = spec_pass1(doc@, 0)->Ok_0;
            assert(faces_view(faces@) + whole =~= whole);
        }
    }
    while i < n
        invariant
            n == doc@.len(),
            spec_from_json(*js) == spec_load(doc@),
            i <= n,
            faces@.len() == i,
            match spec_pass1(doc@, i as int) {
                Ok(rest) => spec_pass1(doc@, 0) == Ok::<Seq<FaceV>, BuildErrV>(
                    faces_view(faces@) + rest,
                ),
                Err(e) => spec_pass1(doc@, 0) == Err::<Seq<FaceV>, BuildErrV>(e),
            },
        decreases n - i,
    {
        match &doc[i].1 {
            JsonValue::Object(obj) => {
                match read_card(obj) {
                    Ok(f) => {
                        let ghost prev = faces@;
                        faces.push(f);
                        proof {
                            assert(faces_view(faces@) =~= faces_view(prev).push(f@));
                            if spec_pass1(doc@, i as int + 1) is Ok {
                                let rest = spec_pass1(doc@, i as int + 1)->Ok_0;
                                assert((faces_view(prev) + (seq![f@] + rest)) =~= (faces_view(
                                    faces@,
                                ) + rest));
                            }
                        }
                    },
                    Err(e) => {
                        return Err(BuilderError::Named(doc[i].0.clone(), e));
                    },
                }
            },
            _ => {
                return Err(BuilderError::InvalidCardObject(doc[i].0.clone()));
            },
        }
        i += 1;
    }
    proof {
        assert(faces_view(faces@) + Seq::<FaceV>::empty() =~= faces_view(faces@));
    }
    let mut entries: Vec<(String, Card)> = Vec::new();
    let mut i: usize = 0;
    proof {
        assert(entries_view(entries@) =~= Seq::<(Seq<char>, CardV)>::empty());
    }
    while i < n
        invariant
            n == doc@.len(),
            spec_from_json(*js) == spec_load(doc@),
            spec_pass1(doc@, 0) == Ok::<Seq<FaceV>, BuildErrV>(faces_view(faces@)),
            i <= n,
            spec_pass2(doc@, 0, Seq::empty()) == spec_pass2(
                doc@,
                i as int,
                entries_view(entries@),
            ),
        decreases n - i,
    {
        let k = &doc[i].0;
        if !has_key(&entries, k.as_str()) {
            match &doc[i].1 {
                JsonValue::Object(obj) => {
                    match read_layout(obj) {
                        Err(e) => {
                            return Err(BuilderError::Named(k.clone(), e));
                        },
                        Ok(l) => match l {
                            CardLayout::Normal | CardLayout::Leveler => {
                                let ghost prev = entries@;
                                entries.push((k.clone(), Card::SingleFace(i)));
                                proof {
                                    assert(entries_view(entries@) =~= entries_view(prev).push(
                                        (k@, CardV::SingleFace(i as int)),
                                    ));
                                }
                            },
                            CardLayout::Token | CardLayout::Plane | CardLayout::Scheme
                            | CardLayout::Phenomenon | CardLayout::Vanguard => {
                                let ghost prev = entries@;
                                entries.push((k.clone(), Card::Special(i)));
                                proof {
                                    assert(entries_view(entries@) =~= entries_view(prev).push(
                                        (k@, CardV::Special(i as int)),
                                    ));
                                }
                            },
                            CardLayout::Split | CardLayout::Flip | CardLayout::DoubleFaced => {
                                let names = match read_string_array(obj, Field::Names) {
                                    Ok(v) => v,
                                    Err(e) => {
                                        return Err(BuilderError::Named(k.clone(), e));
                                    },
                                };
                                if names.len() < 2 {
                                    return Err(
                                        BuilderError::Named(
                                            k.clone(),
                                            CardError::InvalidField(Field::Names),
                                        ),
                                    );
                                }
                                let others = filter_out(&names, k.as_str());
                                proof {
                                    assert(strings_view(others@).len() == others@.len());
                                    assert(strings_view(names@).len() == names@.len());
                                }
                                if others.len() != names.len() - 1 {
                                    return Err(
                                        BuilderError::Named(
                                            k.clone(),
                                            CardError::InvalidField(Field::Names),
                                        ),
                                    );
                                }
                                let c = match member_card(doc, &names, k.as_str(), i) {
                                    Option::Some(c) => c,
                                    Option::None => {
                                        return Err(
                                            BuilderError::Named(
                                                k.clone(),
                                                CardError::InvalidField(Field::Names),
                                            ),
                                        );
                                    },
                                };
                                let ghost prev = entries@;
                                entries.push((k.clone(), c));
                                proof {
                                    assert(entries_view(entries@) =~= entries_view(prev).push(
                                        (k@, c@),
                                    ));
                                }
                                let linked = insert_members(doc, &names, &others, &mut entries);
                                if !linked {
                                    return Err(
                                        BuilderError::Named(
                                            k.clone(),
                                            CardError::InvalidField(Field::Names),
                                        ),
                                    );
                                }
                            },
                        },
                    }
                },
                _ => {
                    return Err(BuilderError::InvalidCardObject(k.clone()));
                },
            }
        }
        i += 1;
    }
    proof {
        lemma_pass1_len(doc@, 0);
        lemma_pass2_wf(doc@, 0, Seq::empty());
    }
    Ok(Catalog { faces, entries })
}

} // verus!
