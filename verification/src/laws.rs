//! Catalog-wide laws: what holds of every catalog a load returns, proved
//! from the load's own specification — the shape of single-face entries,
//! the symmetry and sharing of two-face pairs, and the fail-fast naming of
//! the first invalid card.

use crate::card::CardLayout;
use crate::card::FaceV;
use crate::card::spec_build_face;
use crate::card::spec_read_color;
use crate::card::spec_read_layout;
use crate::card::spec_read_mana;
use crate::catalog::BuildErrV;
use crate::catalog::CardV;
use crate::catalog::CatalogV;
use crate::catalog::spec_contains_key;
use crate::catalog::spec_entry_lookup;
use crate::catalog::spec_find_indices;
use crate::catalog::spec_find_key;
use crate::catalog::spec_insert_members;
use crate::catalog::spec_link_entry;
use crate::catalog::spec_load;
use crate::catalog::spec_member_card;
use crate::catalog::spec_member_others;
use crate::catalog::spec_not_name;
use crate::catalog::spec_pass1;
use crate::catalog::spec_pass2;
use crate::json::Field;
use crate::json::JsonValue;
use crate::json::spec_read_string_array;
use vstd::prelude::*;

verus! {

/// The predicate holding exactly of the name `x`.
pub open spec fn spec_is_name(x: Seq<char>) -> spec_fn(Seq<char>) -> bool {
    |n: Seq<char>| n == x
}

/// How often `x` occurs in `s`.
pub open spec fn spec_count(s: Seq<Seq<char>>, x: Seq<char>) -> int {
    s.filter(spec_is_name(x)).len() as int
}

/// Keeping and dropping the occurrences of `x` split a sequence's length.
proof fn lemma_filter_split_len(s: Seq<Seq<char>>, x: Seq<char>)
    ensures
        s.filter(spec_not_name(x)).len() + spec_count(s, x) == s.len(),
    decreases s.len(),
{
    reveal(Seq::filter);
    if s.len() == 0 {
    } else {
        lemma_filter_split_len(s.drop_last(), x);
    }
}

/// Dropping the occurrences of one name leaves the count of a different
/// name unchanged.
proof fn lemma_count_after_filter(s: Seq<Seq<char>>, k: Seq<char>, o: Seq<char>)
    requires
        o != k,
    ensures
        spec_count(s.filter(spec_not_name(k)), o) == spec_count(s, o),
    decreases s.len(),
{
    reveal(Seq::filter);
    if s.len() == 0 {
    } else {
        lemma_count_after_filter(s.drop_last(), k, o);
        let pre = s.drop_last().filter(spec_not_name(k));
        if s.last() != k {
            assert(s.filter(spec_not_name(k)) == pre.push(s.last()));
            assert(pre.push(s.last()).drop_last() =~= pre);
        } else {
            assert(s.filter(spec_not_name(k)) == pre);
        }
    }
}

/// A name that occurs nowhere in a sequence has count zero.
proof fn lemma_count_zero(s: Seq<Seq<char>>, x: Seq<char>)
    requires
        forall|p: int| 0 <= p < s.len() ==> s[p] != x,
    ensures
        spec_count(s, x) == 0,
    decreases s.len(),
{
    reveal(Seq::filter);
    if s.len() == 0 {
    } else {
        assert(forall|p: int| 0 <= p < s.drop_last().len() ==> s.drop_last()[p] != x);
        lemma_count_zero(s.drop_last(), x);
    }
}

/// An element of a duplicate-free sequence occurs exactly once in it.
proof fn lemma_distinct_count(s: Seq<Seq<char>>, x: Seq<char>)
    requires
        forall|p: int, q: int| 0 <= p < q < s.len() ==> s[p] != s[q],
        exists|p: int| 0 <= p < s.len() && s[p] == x,
    ensures
        spec_count(s, x) == 1,
    decreases s.len(),
{
    reveal(Seq::filter);
    if s.len() == 0 {
    } else {
        let d = s.drop_last();
        if s.last() == x {
            assert(forall|p: int| 0 <= p < d.len() ==> d[p] != x);
            lemma_count_zero(d, x);
        } else {
            let p = choose|p: int| 0 <= p < s.len() && s[p] == x;
            assert(0 <= p < d.len() && d[p] == x);
            lemma_distinct_count(d, x);
        }
    }
}

/// A successful lookup names an entry of the sequence.
proof fn lemma_lookup_to_index(entries: Seq<(Seq<char>, CardV)>, k: Seq<char>)
    ensures
        match spec_entry_lookup(entries, k) {
            Option::Some(c) => exists|m: int|
                0 <= m < entries.len() && entries[m] == (k, c),
            Option::None => !spec_contains_key(entries, k),
        },
    decreases entries.len(),
{
    if entries.len() == 0 {
    } else if entries[0].0 == k {
        assert(entries[0] == (k, entries[0].1));
    } else {
        lemma_lookup_to_index(entries.drop_first(), k);
        match spec_entry_lookup(entries.drop_first(), k) {
            Option::Some(c) => {
                let m = choose|m: int|
                    0 <= m < entries.drop_first().len() && entries.drop_first()[m] == (k, c);
                assert(entries[m + 1] == (k, c));
            },
            Option::None => {
                assert forall|j: int| 0 <= j < entries.len() implies entries[j].0 != k by {
                    if j > 0 {
                        assert(entries.drop_first()[j - 1] == entries[j]);
                    }
                }
            },
        }
    }
}

/// Under pairwise distinct names, an entry of the sequence is what lookup
/// finds.
proof fn lemma_index_to_lookup(entries: Seq<(Seq<char>, CardV)>, m: int)
    requires
        forall|p: int, q: int|
            0 <= p < q < entries.len() ==> (#[trigger] entries[p].0) != (#[trigger] entries[q].0),
        0 <= m < entries.len(),
    ensures
        spec_entry_lookup(entries, entries[m].0) == Some(entries[m].1),
    decreases entries.len(),
{
    if m == 0 {
    } else {
        assert(entries[0].0 != entries[m].0);
        assert(entries.drop_first()[m - 1] == entries[m]);
        assert forall|p: int, q: int|
            0 <= p < q < entries.drop_first().len() implies (#[trigger] entries.drop_first()[p].0)
            != (#[trigger] entries.drop_first()[q].0) by {
            assert(entries.drop_first()[p] == entries[p + 1]);
            assert(entries.drop_first()[q] == entries[q + 1]);
        }
        lemma_index_to_lookup(entries.drop_first(), m - 1);
    }
}

/// The face the first pass stores at a position is the face built from that
/// position's object.
proof fn lemma_pass1_index(doc: Seq<(String, JsonValue)>, t: int, i: int)
    requires
        0 <= t <= i < doc.len(),
        spec_pass1(doc, t) is Ok,
    ensures
        doc[i].1 is Object,
        spec_build_face((doc[i].1->Object_0)@) is Ok,
        spec_pass1(doc, t)->Ok_0[i - t] == spec_build_face((doc[i].1->Object_0)@)->Ok_0,
    decreases i - t,
{
    crate::catalog::lemma_pass1_len(doc, t + 1);
    if t == i {
    } else {
        lemma_pass1_index(doc, t + 1, i);
    }
}

/// Fail-fast on the first invalid card: when every entry before position
/// `i` is an object whose face builds, and the entry at `i` is an object
/// whose face fails, the whole load fails with that error, named with the
/// failing entry's key.
pub proof fn lemma_load_names_first_invalid(doc: Seq<(String, JsonValue)>, i: int)
    requires
        0 <= i < doc.len(),
        forall|j: int|
            0 <= j < i ==> (#[trigger] doc[j].1) is Object && spec_build_face(
                (doc[j].1->Object_0)@,
            ) is Ok,
        doc[i].1 is Object,
        spec_build_face((doc[i].1->Object_0)@) is Err,
    ensures
        spec_load(doc) == Err::<CatalogV, BuildErrV>(
            BuildErrV::Named(doc[i].0@, spec_build_face((doc[i].1->Object_0)@)->Err_0),
        ),
{
    lemma_pass1_first_error(doc, 0, i);
}

/// Whether a layout publishes a single-face card.
pub open spec fn spec_is_single_layout(l: CardLayout) -> bool {
    l == CardLayout::Normal || l == CardLayout::Leveler
}

/// Whether a layout publishes a special card.
pub open spec fn spec_is_special_layout(l: CardLayout) -> bool {
    l == CardLayout::Token || l == CardLayout::Plane || l == CardLayout::Scheme || l
        == CardLayout::Phenomenon || l == CardLayout::Vanguard
}

/// What holds of one resolved entry: its own face index points at the
/// document entry of its own name; a single-face or special entry has a
/// layout of the matching family; and a two-face entry's companion holds
/// the mirrored entry, built on the very same pair of face indices.
pub open spec fn spec_entry_linked(
    doc: Seq<(String, JsonValue)>,
    entries: Seq<(Seq<char>, CardV)>,
    m: int,
) -> bool {
    match entries[m].1 {
        CardV::SingleFace(i) => 0 <= i < doc.len() && doc[i].0@ == entries[m].0 && doc[i].1
            is Object && (spec_read_layout((doc[i].1->Object_0)@) matches Ok(l)
            && spec_is_single_layout(l)),
        CardV::TwoFace(i, j) => 0 <= i < doc.len() && 0 <= j < doc.len() && doc[i].0@
            == entries[m].0 && (exists|m2: int|
            0 <= m2 < entries.len() && #[trigger] entries[m2] == (
                doc[j].0@,
                CardV::TwoFace(j, i),
            )),
        CardV::ManyFace(i, _) => 0 <= i < doc.len() && doc[i].0@ == entries[m].0,
        CardV::Special(i) => 0 <= i < doc.len() && doc[i].0@ == entries[m].0 && doc[i].1 is Object
            && (spec_read_layout((doc[i].1->Object_0)@) matches Ok(l) && spec_is_special_layout(
            l,
        )),
    }
}

/// Every resolved entry is linked as `spec_entry_linked` says.
pub open spec fn spec_linked(doc: Seq<(String, JsonValue)>, entries: Seq<(Seq<char>, CardV)>) -> bool {
    forall|m: int| 0 <= m < entries.len() ==> spec_entry_linked(doc, entries, m)
}

/// A linked entry stays linked when the sequence grows at the end.
proof fn lemma_entry_linked_extend(
    doc: Seq<(String, JsonValue)>,
    acc: Seq<(Seq<char>, CardV)>,
    ext: Seq<(Seq<char>, CardV)>,
    m: int,
)
    requires
        0 <= m < acc.len(),
        spec_entry_linked(doc, acc, m),
        acc.len() <= ext.len(),
        forall|p: int| 0 <= p < acc.len() ==> ext[p] == acc[p],
    ensures
        spec_entry_linked(doc, ext, m),
{
    match acc[m].1 {
        CardV::TwoFace(i, j) => {
            let m2 = choose|m2: int|
                0 <= m2 < acc.len() && #[trigger] acc[m2] == (doc[j].0@, CardV::TwoFace(j, i));
            assert(ext[m2] == (doc[j].0@, CardV::TwoFace(j, i)));
        },
        _ => {},
    }
}

/// In a successful insertion, the companions are pairwise distinct and none
/// was already resolved.
proof fn lemma_insert_members_no_dup(
    doc: Seq<(String, JsonValue)>,
    names: Seq<Seq<char>>,
    members: Seq<Seq<char>>,
    acc: Seq<(Seq<char>, CardV)>,
)
    requires
        spec_insert_members(doc, names, members, acc) is Some,
    ensures
        forall|p: int, q: int|
            0 <= p < q < members.len() ==> (#[trigger] members[p]) != (#[trigger] members[q]),
        forall|p: int| 0 <= p < members.len() ==> !spec_contains_key(acc, #[trigger] members[p]),
    decreases members.len(),
{
    if members.len() == 0 {
    } else {
        let o = members[0];
        let j = spec_find_key(doc, o, 0)->Some_0;
        let c = spec_member_card(doc, names, o, j)->Some_0;
        let acc1 = acc.push((o, c));
        let rest = members.drop_first();
        lemma_insert_members_no_dup(doc, names, rest, acc1);
        assert forall|p: int, q: int|
            0 <= p < q < members.len() implies (#[trigger] members[p]) != (
        #[trigger] members[q]) by {
            if p == 0 {
                assert(rest[q - 1] == members[q]);
                assert(!spec_contains_key(acc1, rest[q - 1]));
                assert(acc1[acc1.len() - 1].0 == o);
            } else {
                assert(rest[p - 1] == members[p]);
                assert(rest[q - 1] == members[q]);
            }
        }
        assert forall|p: int|
            0 <= p < members.len() implies !spec_contains_key(acc, #[trigger] members[p]) by {
            if p > 0 {
                assert(rest[p - 1] == members[p]);
                assert(!spec_contains_key(acc1, rest[p - 1]));
                if spec_contains_key(acc, members[p]) {
                    let w = choose|w: int| 0 <= w < acc.len() && acc[w].0 == members[p];
                    assert(acc1[w].0 == members[p]);
                }
            }
        }
    }
}

/// Inserting companions whose cards are all many-face keeps the entries
/// linked, and only appends.
proof fn lemma_insert_members_linked(
    doc: Seq<(String, JsonValue)>,
    names: Seq<Seq<char>>,
    members: Seq<Seq<char>>,
    acc: Seq<(Seq<char>, CardV)>,
)
    requires
        spec_linked(doc, acc),
        forall|p: int|
            0 <= p < members.len() ==> match spec_find_key(doc, #[trigger] members[p], 0) {
                Option::Some(j) => match spec_member_card(doc, names, members[p], j) {
                    Option::Some(c) => !(c is TwoFace),
                    Option::None => true,
                },
                Option::None => true,
            },
    ensures
        match spec_insert_members(doc, names, members, acc) {
            Option::Some(acc2) => spec_linked(doc, acc2) && acc.len() <= acc2.len() && (forall|
                p: int,
            |
                0 <= p < acc.len() ==> acc2[p] == acc[p]),
            Option::None => true,
        },
    decreases members.len(),
{
    if members.len() == 0 {
    } else if spec_insert_members(doc, names, members, acc) is Some {
        let o = members[0];
        let j = spec_find_key(doc, o, 0)->Some_0;
        let c = spec_member_card(doc, names, o, j)->Some_0;
        let acc1 = acc.push((o, c));
        crate::catalog::lemma_find_key_props(doc, o, 0);
        crate::catalog::lemma_find_indices_props(doc, spec_member_others(names, o));
        assert(!(c is TwoFace));
        assert forall|m: int| 0 <= m < acc1.len() implies spec_entry_linked(doc, acc1, m) by {
            if m < acc.len() {
                lemma_entry_linked_extend(doc, acc, acc1, m);
            } else {
                assert(acc1[m] == (o, c));
            }
        }
        assert forall|p: int|
            0 <= p < members.drop_first().len() implies match spec_find_key(
            doc,
            #[trigger] members.drop_first()[p],
            0,
        ) {
            Option::Some(j2) => match spec_member_card(doc, names, members.drop_first()[p], j2) {
                Option::Some(c2) => !(c2 is TwoFace),
                Option::None => true,
            },
            Option::None => true,
        } by {
            assert(members.drop_first()[p] == members[p + 1]);
        }
        lemma_insert_members_linked(doc, names, members.drop_first(), acc1);
    }
}

/// In a two-name group, the companion's own companion list is exactly the
/// current key.
proof fn lemma_pair_filter(names: Seq<Seq<char>>, k: Seq<char>)
    requires
        names.len() == 2,
        names.filter(spec_not_name(k)).len() == 1,
    ensures
        names.filter(spec_not_name(k))[0] != k,
        names.filter(spec_not_name(names.filter(spec_not_name(k))[0])) =~= seq![k],
{
    reveal_with_fuel(Seq::<Seq<char>>::filter, 3);
    let o = names.filter(spec_not_name(k))[0];
    assert(names.drop_last().drop_last() =~= Seq::<Seq<char>>::empty());
    assert(names.drop_last() =~= seq![names[0]]);
    assert(seq![names[0]].drop_last() =~= Seq::<Seq<char>>::empty());
    assert(seq![names[0]].last() == names[0]);
    assert(names.last() == names[1]);
    let fk = names.filter(spec_not_name(k));
    if names[0] == k && names[1] != k {
        assert(fk =~= seq![names[1]]);
        assert(o == names[1]);
        assert(names.filter(spec_not_name(o)) =~= seq![k]);
    } else if names[0] != k && names[1] == k {
        assert(fk =~= seq![names[0]]);
        assert(o == names[0]);
        assert(names.filter(spec_not_name(o)) =~= seq![k]);
    } else if names[0] != k && names[1] != k {
        assert(fk.len() == 2);
    } else {
        assert(fk.len() == 0);
    }
}

/// A key that first occurs at `t` is found there.
proof fn lemma_find_key_first(doc: Seq<(String, JsonValue)>, k: Seq<char>, s: int, t: int)
    requires
        0 <= s <= t < doc.len(),
        doc[t].0@ == k,
        forall|j: int| s <= j < t ==> (#[trigger] doc[j]).0@ != k,
    ensures
        spec_find_key(doc, k, s) == Some(t),
    decreases t - s,
{
    if s == t {
    } else {
        lemma_find_key_first(doc, k, s + 1, t);
    }
}

/// The second pass keeps every resolved entry linked.
proof fn lemma_pass2_linked(doc: Seq<(String, JsonValue)>, t: int, acc: Seq<(Seq<char>, CardV)>)
    requires
        0 <= t,
        spec_linked(doc, acc),
        forall|j: int| 0 <= j < t ==> spec_contains_key(acc, (#[trigger] doc[j]).0@),
    ensures
        match spec_pass2(doc, t, acc) {
            Ok(entries) => spec_linked(doc, entries),
            Err(_) => true,
        },
    decreases doc.len() - t,
{
    if t >= doc.len() {
    } else {
        let k = doc[t].0@;
        if spec_contains_key(acc, k) {
            lemma_pass2_linked(doc, t + 1, acc);
        } else {
            assert forall|j: int| 0 <= j < t implies doc[j].0@ != k by {
                if doc[j].0@ == k {
                    assert(spec_contains_key(acc, doc[j].0@));
                }
            }
            match doc[t].1 {
                JsonValue::Object(obj) => match spec_read_layout(obj@) {
                    Err(_) => {},
                    Ok(l) => {
                        if spec_is_single_layout(l) || spec_is_special_layout(l) {
                            let c = if spec_is_single_layout(l) {
                                CardV::SingleFace(t)
                            } else {
                                CardV::Special(t)
                            };
                            let acc1 = acc.push((k, c));
                            assert forall|m: int|
                                0 <= m < acc1.len() implies spec_entry_linked(doc, acc1, m) by {
                                if m < acc.len() {
                                    lemma_entry_linked_extend(doc, acc, acc1, m);
                                } else {
                                    assert(acc1[m] == (k, c));
                                }
                            }
                            assert forall|j: int|
                                0 <= j < t + 1 implies spec_contains_key(
                                acc1,
                                (#[trigger] doc[j]).0@,
                            ) by {
                                if j < t {
                                    let w = choose|w: int|
                                        0 <= w < acc.len() && acc[w].0 == doc[j].0@;
                                    assert(acc1[w].0 == doc[j].0@);
                                } else {
                                    assert(acc1[acc1.len() - 1].0 == k);
                                }
                            }
                            lemma_pass2_linked(doc, t + 1, acc1);
                        } else {
                            match spec_read_string_array(obj@, Field::Names) {
                                Err(_) => {},
                                Ok(names) => {
                                    lemma_link_entry_linked(doc, t, k, names, acc);
                                    match spec_link_entry(doc, t, k, names, acc) {
                                        Option::Some(acc2) => {
                                            lemma_pass2_linked(doc, t + 1, acc2);
                                        },
                                        Option::None => {},
                                    }
                                },
                            }
                        }
                    },
                },
                _ => {},
            }
        }
    }
}

/// Linking one multi-face entry keeps every resolved entry linked, resolves
/// the entry's own key, and only appends.
proof fn lemma_link_entry_linked(
    doc: Seq<(String, JsonValue)>,
    t: int,
    k: Seq<char>,
    names: Seq<Seq<char>>,
    acc: Seq<(Seq<char>, CardV)>,
)
    requires
        0 <= t < doc.len(),
        doc[t].0@ == k,
        !spec_contains_key(acc, k),
        forall|j: int| 0 <= j < t ==> (#[trigger] doc[j]).0@ != k,
        spec_linked(doc, acc),
    ensures
        match spec_link_entry(doc, t, k, names, acc) {
            Option::Some(acc2) => spec_linked(doc, acc2) && spec_contains_key(acc2, k) && (forall|
                j: int,
            |
                spec_contains_key(acc, (#[trigger] doc[j]).0@) ==> spec_contains_key(
                    acc2,
                    doc[j].0@,
                )),
            Option::None => true,
        },
{
    if names.len() < 2 {
    } else {
        let others = spec_member_others(names, k);
        if others.len() != names.len() - 1 {
        } else {
            match spec_member_card(doc, names, k, t) {
                Option::None => {},
                Option::Some(ck) => {
                    let idx = spec_find_indices(doc, others)->Some_0;
                    crate::catalog::lemma_find_indices_props(doc, others);
                    let acc1 = acc.push((k, ck));
                    if others.len() == 1 {
                        lemma_link_pair(doc, t, k, names, acc, ck);
                    } else {
                        assert(!(ck is TwoFace));
                        assert forall|m: int|
                            0 <= m < acc1.len() implies spec_entry_linked(doc, acc1, m) by {
                            if m < acc.len() {
                                lemma_entry_linked_extend(doc, acc, acc1, m);
                            } else {
                                assert(acc1[m] == (k, ck));
                            }
                        }
                        match spec_insert_members(doc, names, others, acc1) {
                            Option::None => {},
                            Option::Some(acc2) => {
                                lemma_insert_members_no_dup(doc, names, others, acc1);
                                assert forall|p: int|
                                    0 <= p < others.len() implies match spec_find_key(
                                    doc,
                                    #[trigger] others[p],
                                    0,
                                ) {
                                    Option::Some(j2) => match spec_member_card(
                                        doc,
                                        names,
                                        others[p],
                                        j2,
                                    ) {
                                        Option::Some(c2) => !(c2 is TwoFace),
                                        Option::None => true,
                                    },
                                    Option::None => true,
                                } by {
                                    lemma_member_not_pair(doc, names, others, k, p);
                                }
                                lemma_insert_members_linked(doc, names, others, acc1);
                                assert(acc2[acc.len() as int] == (k, ck));
                                assert forall|j: int|
                                    spec_contains_key(
                                        acc,
                                        (#[trigger] doc[j]).0@,
                                    ) implies spec_contains_key(acc2, doc[j].0@) by {
                                    let w = choose|w: int|
                                        0 <= w < acc.len() && acc[w].0 == doc[j].0@;
                                    assert(acc2[w] == acc1[w]);
                                    assert(acc2[w].0 == doc[j].0@);
                                }
                            },
                        }
                    }
                },
            }
        }
    }
}

/// In a group of three or more pairwise distinct companions, no member's
/// card is a pair.
proof fn lemma_member_not_pair(
    doc: Seq<(String, JsonValue)>,
    names: Seq<Seq<char>>,
    others: Seq<Seq<char>>,
    k: Seq<char>,
    p: int,
)
    requires
        others == spec_member_others(names, k),
        others.len() == names.len() - 1,
        others.len() >= 2,
        0 <= p < others.len(),
        forall|a: int, b: int|
            0 <= a < b < others.len() ==> (#[trigger] others[a]) != (#[trigger] others[b]),
    ensures
        match spec_find_key(doc, others[p], 0) {
            Option::Some(j2) => match spec_member_card(doc, names, others[p], j2) {
                Option::Some(c2) => !(c2 is TwoFace),
                Option::None => true,
            },
            Option::None => true,
        },
{
    broadcast use vstd::seq_lib::group_seq_properties;

    let o = others[p];
    assert(o != k) by {
        Seq::lemma_filter_pred(names, spec_not_name(k), p);
    }
    lemma_distinct_count(others, o);
    lemma_count_after_filter(names, k, o);
    lemma_filter_split_len(names, o);
    assert(names.filter(spec_not_name(o)).len() == names.len() - 1);
    assert(spec_member_others(names, o).len() >= 2);
    match spec_find_key(doc, o, 0) {
        Option::Some(j2) => {
            crate::catalog::lemma_find_indices_props(doc, spec_member_others(names, o));
        },
        Option::None => {},
    }
}

/// Linking a two-name group inserts the mirrored pair of entries.
proof fn lemma_link_pair(
    doc: Seq<(String, JsonValue)>,
    t: int,
    k: Seq<char>,
    names: Seq<Seq<char>>,
    acc: Seq<(Seq<char>, CardV)>,
    ck: CardV,
)
    requires
        0 <= t < doc.len(),
        doc[t].0@ == k,
        !spec_contains_key(acc, k),
        forall|j: int| 0 <= j < t ==> (#[trigger] doc[j]).0@ != k,
        spec_linked(doc, acc),
        names.len() == 2,
        spec_member_others(names, k).len() == 1,
        spec_member_card(doc, names, k, t) == Some(ck),
    ensures
        match spec_insert_members(doc, names, spec_member_others(names, k), acc.push((k, ck))) {
            Option::Some(acc2) => spec_linked(doc, acc2) && spec_contains_key(acc2, k) && (forall|
                j: int,
            |
                spec_contains_key(acc, (#[trigger] doc[j]).0@) ==> spec_contains_key(
                    acc2,
                    doc[j].0@,
                )),
            Option::None => true,
        },
{
    let others = spec_member_others(names, k);
    let o = others[0];
    lemma_pair_filter(names, k);
    let jo = spec_find_key(doc, o, 0);
    let acc1 = acc.push((k, ck));
    if jo is Some && !spec_contains_key(acc1, o) {
        let j = jo->Some_0;
        crate::catalog::lemma_find_key_props(doc, o, 0);
        assert(others.drop_first() =~= Seq::<Seq<char>>::empty());
        assert(spec_find_indices(doc, others.drop_first()) == Some(Seq::<int>::empty()));
        assert(spec_find_indices(doc, others) == Some(seq![j] + Seq::<int>::empty()));
        assert((seq![j] + Seq::<int>::empty()) =~= seq![j]);
        assert(ck == CardV::TwoFace(t, j));
        // the companion's own companion list is exactly `k`, found at `t`
        lemma_find_key_first(doc, k, 0, t);
        let others_o = spec_member_others(names, o);
        assert(others_o =~= seq![k]);
        assert(others_o[0] == k);
        assert(others_o.drop_first() =~= Seq::<Seq<char>>::empty());
        assert(spec_find_indices(doc, others_o.drop_first()) == Some(Seq::<int>::empty()));
        assert(spec_find_indices(doc, others_o) == Some(seq![t as int] + Seq::<int>::empty()));
        assert((seq![t as int] + Seq::<int>::empty()) =~= seq![t as int]);
        let co = CardV::TwoFace(j, t);
        assert(spec_member_card(doc, names, o, j) == Some(co));
        let acc2 = acc1.push((o, co));
        assert(spec_insert_members(doc, names, others.drop_first(), acc2) == Some(acc2));
        assert(spec_insert_members(doc, names, others, acc1) == Some(acc2));
        assert forall|m: int| 0 <= m < acc2.len() implies spec_entry_linked(doc, acc2, m) by {
            if m < acc.len() {
                lemma_entry_linked_extend(doc, acc, acc2, m);
            } else if m == acc.len() {
                assert(acc2[m] == (k, ck));
                assert(doc[j].0@ == o);
                assert(acc2[acc.len() as int + 1] == (o, co));
            } else {
                assert(acc2[m] == (o, co));
                assert(doc[t].0@ == k);
                assert(acc2[acc.len() as int] == (k, ck));
            }
        }
        assert(acc2[acc.len() as int].0 == k);
        assert forall|j2: int|
            spec_contains_key(acc, (#[trigger] doc[j2]).0@) implies spec_contains_key(
            acc2,
            doc[j2].0@,
        ) by {
            let w = choose|w: int| 0 <= w < acc.len() && acc[w].0 == doc[j2].0@;
            assert(acc2[w].0 == doc[j2].0@);
        }
    }
}

/// A two-entry name list that repeats one name — the entry's own key twice,
/// or another name twice — never links: the load rejects the entry with
/// `InvalidField(Names)`.
pub proof fn lemma_duplicate_pair_names_rejected(
    doc: Seq<(String, JsonValue)>,
    i: int,
    k: Seq<char>,
    names: Seq<Seq<char>>,
    acc: Seq<(Seq<char>, CardV)>,
)
    requires
        names.len() == 2,
        names[0] == names[1],
    ensures
        spec_link_entry(doc, i, k, names, acc) is None,
{
    reveal_with_fuel(Seq::<Seq<char>>::filter, 3);
    let others = spec_member_others(names, k);
    assert(names.drop_last() =~= seq![names[0]]);
    assert(seq![names[0]].drop_last() =~= Seq::<Seq<char>>::empty());
    if names[0] == k {
        assert(others.len() == 0);
    } else {
        assert(others.len() == 2);
    }
}

/// Whether a layout publishes a multi-face card.
pub open spec fn spec_is_multi_layout(l: CardLayout) -> bool {
    l == CardLayout::Split || l == CardLayout::Flip || l == CardLayout::DoubleFaced
}

/// Whether some multi-face entry of the document lists `k` as a companion.
pub open spec fn spec_named_as_companion(doc: Seq<(String, JsonValue)>, k: Seq<char>) -> bool {
    exists|j: int|
        0 <= j < doc.len() && (#[trigger] doc[j].1) is Object && doc[j].0@ != k && (
        spec_read_layout((doc[j].1->Object_0)@) matches Ok(l) && spec_is_multi_layout(l)) && (
        spec_read_string_array((doc[j].1->Object_0)@, Field::Names) matches Ok(names)
            && names.contains(k))
}

/// An element kept by the filter was an element of the sequence.
proof fn lemma_filter_subset(s: Seq<Seq<char>>, x: Seq<char>, k: Seq<char>)
    requires
        s.filter(spec_not_name(k)).contains(x),
    ensures
        s.contains(x),
    decreases s.len(),
{
    reveal(Seq::filter);
    if s.len() == 0 {
    } else {
        let f = s.filter(spec_not_name(k));
        let fd = s.drop_last().filter(spec_not_name(k));
        if s.last() == x {
            assert(s[s.len() - 1] == x);
        } else {
            assert(fd.contains(x)) by {
                let w = choose|w: int| 0 <= w < f.len() && f[w] == x;
                assert(fd[w] == x);
            }
            lemma_filter_subset(s.drop_last(), x, k);
            let w2 = choose|w2: int| 0 <= w2 < s.drop_last().len() && s.drop_last()[w2] == x;
            assert(s[w2] == x);
        }
    }
}

/// Inserting companions never resolves a name outside the companion list.
proof fn lemma_insert_members_other_keys(
    doc: Seq<(String, JsonValue)>,
    names: Seq<Seq<char>>,
    members: Seq<Seq<char>>,
    acc: Seq<(Seq<char>, CardV)>,
    k: Seq<char>,
)
    requires
        !spec_contains_key(acc, k),
        !members.contains(k),
    ensures
        match spec_insert_members(doc, names, members, acc) {
            Option::Some(acc2) => !spec_contains_key(acc2, k),
            Option::None => true,
        },
    decreases members.len(),
{
    if members.len() == 0 {
    } else {
        let o = members[0];
        if !spec_contains_key(acc, o) && spec_find_key(doc, o, 0) is Some && spec_member_card(
            doc,
            names,
            o,
            spec_find_key(doc, o, 0)->Some_0,
        ) is Some {
            let c = spec_member_card(doc, names, o, spec_find_key(doc, o, 0)->Some_0)->Some_0;
            let acc1 = acc.push((o, c));
            assert(members[0] == o && o != k);
            assert(!spec_contains_key(acc1, k)) by {
                if spec_contains_key(acc1, k) {
                    let w = choose|w: int| 0 <= w < acc1.len() && acc1[w].0 == k;
                    if w < acc.len() {
                        assert(acc[w].0 == k);
                    }
                }
            }
            assert(!members.drop_first().contains(k)) by {
                if members.drop_first().contains(k) {
                    let w = choose|w: int|
                        0 <= w < members.drop_first().len() && members.drop_first()[w] == k;
                    assert(members[w + 1] == k);
                }
            }
            lemma_insert_members_other_keys(doc, names, members.drop_first(), acc1, k);
        }
    }
}

/// Inserting companions only appends to the resolved entries.
proof fn lemma_insert_members_extends(
    doc: Seq<(String, JsonValue)>,
    names: Seq<Seq<char>>,
    members: Seq<Seq<char>>,
    acc: Seq<(Seq<char>, CardV)>,
)
    ensures
        match spec_insert_members(doc, names, members, acc) {
            Option::Some(acc2) => acc.len() <= acc2.len() && (forall|p: int|
                0 <= p < acc.len() ==> acc2[p] == acc[p]),
            Option::None => true,
        },
    decreases members.len(),
{
    if members.len() == 0 {
    } else {
        let o = members[0];
        if !spec_contains_key(acc, o) && spec_find_key(doc, o, 0) is Some && spec_member_card(
            doc,
            names,
            o,
            spec_find_key(doc, o, 0)->Some_0,
        ) is Some {
            let c = spec_member_card(doc, names, o, spec_find_key(doc, o, 0)->Some_0)->Some_0;
            lemma_insert_members_extends(doc, names, members.drop_first(), acc.push((o, c)));
        }
    }
}

/// The second pass only appends to the resolved entries.
proof fn lemma_pass2_extends(doc: Seq<(String, JsonValue)>, t: int, acc: Seq<(Seq<char>, CardV)>)
    ensures
        match spec_pass2(doc, t, acc) {
            Ok(entries) => acc.len() <= entries.len() && (forall|p: int|
                0 <= p < acc.len() ==> entries[p] == acc[p]),
            Err(_) => true,
        },
    decreases doc.len() - t,
{
    if t < 0 || t >= doc.len() {
    } else {
        let k = doc[t].0@;
        if spec_contains_key(acc, k) {
            lemma_pass2_extends(doc, t + 1, acc);
        } else {
            match doc[t].1 {
                JsonValue::Object(obj) => match spec_read_layout(obj@) {
                    Err(_) => {},
                    Ok(l) => {
                        if spec_is_single_layout(l) || spec_is_special_layout(l) {
                            let c = if spec_is_single_layout(l) {
                                CardV::SingleFace(t)
                            } else {
                                CardV::Special(t)
                            };
                            lemma_pass2_extends(doc, t + 1, acc.push((k, c)));
                        } else {
                            match spec_read_string_array(obj@, Field::Names) {
                                Err(_) => {},
                                Ok(names) => match spec_link_entry(doc, t, k, names, acc) {
                                    Option::Some(acc2) => {
                                        if names.len() >= 2 && spec_member_others(names, k).len()
                                            == names.len() - 1 && spec_member_card(
                                            doc,
                                            names,
                                            k,
                                            t,
                                        ) is Some {
                                            let ck = spec_member_card(doc, names, k, t)->Some_0;
                                            lemma_insert_members_extends(
                                                doc,
                                                names,
                                                spec_member_others(names, k),
                                                acc.push((k, ck)),
                                            );
                                        }
                                        lemma_pass2_extends(doc, t + 1, acc2);
                                    },
                                    Option::None => {},
                                },
                            }
                        }
                    },
                },
                _ => {},
            }
        }
    }
}

/// The second pass publishes an unclaimed single-family entry under its own
/// key, with its own document position as its face.
proof fn lemma_pass2_single(
    doc: Seq<(String, JsonValue)>,
    t: int,
    acc: Seq<(Seq<char>, CardV)>,
    k: Seq<char>,
    i: int,
)
    requires
        0 <= t <= i < doc.len(),
        doc[i].0@ == k,
        forall|j: int| 0 <= j < i ==> (#[trigger] doc[j]).0@ != k,
        doc[i].1 is Object,
        (spec_read_layout((doc[i].1->Object_0)@) matches Ok(l) && spec_is_single_layout(l)),
        !spec_named_as_companion(doc, k),
        !spec_contains_key(acc, k),
    ensures
        match spec_pass2(doc, t, acc) {
            Ok(entries) => exists|m: int|
                0 <= m < entries.len() && #[trigger] entries[m] == (k, CardV::SingleFace(i)),
            Err(_) => true,
        },
    decreases doc.len() - t,
{
    if spec_pass2(doc, t, acc) is Err {
    } else if t == i {
        let acc1 = acc.push((k, CardV::SingleFace(i)));
        lemma_pass2_extends(doc, t + 1, acc1);
        match spec_pass2(doc, t + 1, acc1) {
            Ok(entries) => {
                assert(entries[acc.len() as int] == (k, CardV::SingleFace(i)));
            },
            Err(_) => {},
        }
    } else {
        let kt = doc[t].0@;
        assert(kt != k);
        if spec_contains_key(acc, kt) {
            lemma_pass2_single(doc, t + 1, acc, k, i);
        } else {
            match doc[t].1 {
                JsonValue::Object(obj) => match spec_read_layout(obj@) {
                    Err(_) => {},
                    Ok(l) => {
                        if spec_is_single_layout(l) || spec_is_special_layout(l) {
                            let c = if spec_is_single_layout(l) {
                                CardV::SingleFace(t)
                            } else {
                                CardV::Special(t)
                            };
                            let acc1 = acc.push((kt, c));
                            assert(!spec_contains_key(acc1, k)) by {
                                if spec_contains_key(acc1, k) {
                                    let w = choose|w: int| 0 <= w < acc1.len() && acc1[w].0 == k;
                                    if w < acc.len() {
                                        assert(acc[w].0 == k);
                                    }
                                }
                            }
                            lemma_pass2_single(doc, t + 1, acc1, k, i);
                        } else {
                            match spec_read_string_array(obj@, Field::Names) {
                                Err(_) => {},
                                Ok(names) => match spec_link_entry(doc, t, kt, names, acc) {
                                    Option::Some(acc2) => {
                                        let others = spec_member_others(names, kt);
                                        assert(names.len() >= 2 && others.len() == names.len() - 1
                                            && spec_member_card(doc, names, kt, t) is Some);
                                        let ck = spec_member_card(doc, names, kt, t)->Some_0;
                                        let acc1 = acc.push((kt, ck));
                                        assert(!spec_contains_key(acc1, k)) by {
                                            if spec_contains_key(acc1, k) {
                                                let w = choose|w: int|
                                                    0 <= w < acc1.len() && acc1[w].0 == k;
                                                if w < acc.len() {
                                                    assert(acc[w].0 == k);
                                                }
                                            }
                                        }
                                        assert(!others.contains(k)) by {
                                            if others.contains(k) {
                                                lemma_filter_subset(names, k, kt);
                                                assert(spec_named_as_companion(doc, k)) by {
                                                    assert((doc[t].1) is Object && doc[t].0@ != k
                                                        && (spec_read_layout(
                                                        (doc[t].1->Object_0)@,
                                                    ) matches Ok(l2) && spec_is_multi_layout(l2))
                                                        && (spec_read_string_array(
                                                        (doc[t].1->Object_0)@,
                                                        Field::Names,
                                                    ) matches Ok(ns) && ns.contains(k)));
                                                }
                                            }
                                        }
                                        lemma_insert_members_other_keys(
                                            doc,
                                            names,
                                            others,
                                            acc1,
                                            k,
                                        );
                                        lemma_pass2_single(doc, t + 1, acc2, k, i);
                                    },
                                    Option::None => {},
                                },
                            }
                        }
                    },
                },
                _ => {},
            }
        }
    }
}

/// The shape of the two entries a two-name group's link appends: its own
/// key paired with the companion's document position, and the companion's
/// key with the mirrored pair.
proof fn lemma_link_pair_entries(
    doc: Seq<(String, JsonValue)>,
    t: int,
    k: Seq<char>,
    names: Seq<Seq<char>>,
    acc: Seq<(Seq<char>, CardV)>,
)
    requires
        0 <= t < doc.len(),
        doc[t].0@ == k,
        forall|j: int| 0 <= j < t ==> (#[trigger] doc[j]).0@ != k,
        names.len() == 2,
    ensures
        match spec_link_entry(doc, t, k, names, acc) {
            Option::Some(acc2) => ({
                let o = spec_member_others(names, k)[0];
                let j = spec_find_key(doc, o, 0)->Some_0;
                &&& o != k
                &&& spec_find_key(doc, o, 0) is Some
                &&& 0 <= j < doc.len()
                &&& doc[j].0@ == o
                &&& acc2.len() == acc.len() + 2
                &&& acc2[acc.len() as int] == (k, CardV::TwoFace(t, j))
                &&& acc2[acc.len() as int + 1] == (o, CardV::TwoFace(j, t))
            }),
            Option::None => true,
        },
{
    if spec_link_entry(doc, t, k, names, acc) is Some {
        let others = spec_member_others(names, k);
        assert(others.len() == 1);
        lemma_pair_filter(names, k);
        let o = others[0];
        let ck = spec_member_card(doc, names, k, t)->Some_0;
        let acc1 = acc.push((k, ck));
        assert(others.drop_first() =~= Seq::<Seq<char>>::empty());
        let jo = spec_find_key(doc, o, 0);
        assert(jo is Some);
        let j = jo->Some_0;
        crate::catalog::lemma_find_key_props(doc, o, 0);
        assert(spec_find_indices(doc, others.drop_first()) == Some(Seq::<int>::empty()));
        assert(spec_find_indices(doc, others) == Some(seq![j] + Seq::<int>::empty()));
        assert((seq![j] + Seq::<int>::empty()) =~= seq![j]);
        assert(ck == CardV::TwoFace(t, j));
        lemma_find_key_first(doc, k, 0, t);
        let others_o = spec_member_others(names, o);
        assert(others_o =~= seq![k]);
        assert(others_o[0] == k);
        assert(others_o.drop_first() =~= Seq::<Seq<char>>::empty());
        assert(spec_find_indices(doc, others_o.drop_first()) == Some(Seq::<int>::empty()));
        assert(spec_find_indices(doc, others_o) == Some(seq![t as int] + Seq::<int>::empty()));
        assert((seq![t as int] + Seq::<int>::empty()) =~= seq![t as int]);
        let co = CardV::TwoFace(j, t);
        assert(spec_member_card(doc, names, o, j) == Some(co));
        let acc2 = acc1.push((o, co));
        assert(spec_insert_members(doc, names, others.drop_first(), acc2) == Some(acc2));
        assert(spec_insert_members(doc, names, others, acc1) == Some(acc2));
        assert(acc2[acc.len() as int] == (k, ck));
        assert(acc2[acc.len() as int + 1] == (o, co));
    }
}

/// The second pass publishes an unclaimed two-name group as the mirrored
/// pair of entries.
proof fn lemma_pass2_pair(
    doc: Seq<(String, JsonValue)>,
    t: int,
    acc: Seq<(Seq<char>, CardV)>,
    a: Seq<char>,
    i: int,
)
    requires
        0 <= t <= i < doc.len(),
        doc[i].0@ == a,
        forall|j: int| 0 <= j < i ==> (#[trigger] doc[j]).0@ != a,
        doc[i].1 is Object,
        (spec_read_layout((doc[i].1->Object_0)@) matches Ok(l) && spec_is_multi_layout(l)),
        spec_read_string_array((doc[i].1->Object_0)@, Field::Names) is Ok,
        spec_read_string_array((doc[i].1->Object_0)@, Field::Names)->Ok_0.len() == 2,
        !spec_named_as_companion(doc, a),
        !spec_contains_key(acc, a),
    ensures
        match spec_pass2(doc, t, acc) {
            Ok(entries) => ({
                let names = spec_read_string_array((doc[i].1->Object_0)@, Field::Names)->Ok_0;
                let b = spec_member_others(names, a)[0];
                let j = spec_find_key(doc, b, 0)->Some_0;
                &&& spec_member_others(names, a).len() == 1
                &&& b != a
                &&& spec_find_key(doc, b, 0) is Some
                &&& 0 <= j < doc.len()
                &&& doc[j].0@ == b
                &&& (exists|m: int|
                    0 <= m < entries.len() && #[trigger] entries[m] == (a, CardV::TwoFace(i, j)))
                &&& (exists|m: int|
                    0 <= m < entries.len() && #[trigger] entries[m] == (b, CardV::TwoFace(j, i)))
            }),
            Err(_) => true,
        },
    decreases doc.len() - t,
{
    if spec_pass2(doc, t, acc) is Err {
    } else if t == i {
        let names = spec_read_string_array((doc[i].1->Object_0)@, Field::Names)->Ok_0;
        lemma_link_pair_entries(doc, i, a, names, acc);
        match spec_link_entry(doc, i, a, names, acc) {
            Option::Some(acc2) => {
                lemma_pass2_extends(doc, i + 1, acc2);
                match spec_pass2(doc, i + 1, acc2) {
                    Ok(entries) => {
                        assert(entries[acc.len() as int] == acc2[acc.len() as int]);
                        assert(entries[acc.len() as int + 1] == acc2[acc.len() as int + 1]);
                    },
                    Err(_) => {},
                }
            },
            Option::None => {},
        }
    } else {
        let kt = doc[t].0@;
        assert(kt != a);
        if spec_contains_key(acc, kt) {
            lemma_pass2_pair(doc, t + 1, acc, a, i);
        } else {
            match doc[t].1 {
                JsonValue::Object(obj) => match spec_read_layout(obj@) {
                    Err(_) => {},
                    Ok(l) => {
                        if spec_is_single_layout(l) || spec_is_special_layout(l) {
                            let c = if spec_is_single_layout(l) {
                                CardV::SingleFace(t)
                            } else {
                                CardV::Special(t)
                            };
                            let acc1 = acc.push((kt, c));
                            assert(!spec_contains_key(acc1, a)) by {
                                if spec_contains_key(acc1, a) {
                                    let w = choose|w: int| 0 <= w < acc1.len() && acc1[w].0 == a;
                                    if w < acc.len() {
                                        assert(acc[w].0 == a);
                                    }
                                }
                            }
                            lemma_pass2_pair(doc, t + 1, acc1, a, i);
                        } else {
                            match spec_read_string_array(obj@, Field::Names) {
                                Err(_) => {},
                                Ok(names_t) => match spec_link_entry(doc, t, kt, names_t, acc) {
                                    Option::Some(acc2) => {
                                        let others = spec_member_others(names_t, kt);
                                        assert(names_t.len() >= 2 && others.len() == names_t.len()
                                            - 1 && spec_member_card(doc, names_t, kt, t) is Some);
                                        let ck = spec_member_card(doc, names_t, kt, t)->Some_0;
                                        let acc1 = acc.push((kt, ck));
                                        assert(!spec_contains_key(acc1, a)) by {
                                            if spec_contains_key(acc1, a) {
                                                let w = choose|w: int|
                                                    0 <= w < acc1.len() && acc1[w].0 == a;
                                                if w < acc.len() {
                                                    assert(acc[w].0 == a);
                                                }
                                            }
                                        }
                                        assert(!others.contains(a)) by {
                                            if others.contains(a) {
                                                lemma_filter_subset(names_t, a, kt);
                                                assert(spec_named_as_companion(doc, a)) by {
                                                    assert((doc[t].1) is Object && doc[t].0@ != a
                                                        && (spec_read_layout(
                                                        (doc[t].1->Object_0)@,
                                                    ) matches Ok(l2) && spec_is_multi_layout(l2))
                                                        && (spec_read_string_array(
                                                        (doc[t].1->Object_0)@,
                                                        Field::Names,
                                                    ) matches Ok(ns) && ns.contains(a)));
                                                }
                                            }
                                        }
                                        lemma_insert_members_other_keys(
                                            doc,
                                            names_t,
                                            others,
                                            acc1,
                                            a,
                                        );
                                        lemma_pass2_pair(doc, t + 1, acc2, a, i);
                                    },
                                    Option::None => {},
                                },
                            }
                        }
                    },
                },
                _ => {},
            }
        }
    }
}

/// A valid pair is published from either side: an entry whose layout is of
/// the multi-face family, whose two-name list keeps exactly one companion
/// after its own key is removed, and whose key no other multi-face group
/// claims, is published as `TwoFace` of its own document position and its
/// companion's — and the companion's key is published as the mirrored
/// `TwoFace`, built on the very same pair of arena faces.
pub proof fn lemma_pair_published(
    doc: Seq<(String, JsonValue)>,
    cat: CatalogV,
    a: Seq<char>,
    i: int,
)
    requires
        spec_load(doc) == Ok::<CatalogV, BuildErrV>(cat),
        0 <= i < doc.len(),
        doc[i].0@ == a,
        forall|j: int| 0 <= j < i ==> (#[trigger] doc[j]).0@ != a,
        doc[i].1 is Object,
        (spec_read_layout((doc[i].1->Object_0)@) matches Ok(l) && spec_is_multi_layout(l)),
        spec_read_string_array((doc[i].1->Object_0)@, Field::Names) is Ok,
        spec_read_string_array((doc[i].1->Object_0)@, Field::Names)->Ok_0.len() == 2,
        !spec_named_as_companion(doc, a),
    ensures
        ({
            let names = spec_read_string_array((doc[i].1->Object_0)@, Field::Names)->Ok_0;
            let b = spec_member_others(names, a)[0];
            let j = spec_find_key(doc, b, 0)->Some_0;
            &&& b != a
            &&& spec_find_key(doc, b, 0) is Some
            &&& 0 <= j < doc.len()
            &&& doc[j].0@ == b
            &&& spec_entry_lookup(cat.entries, a) == Some(CardV::TwoFace(i, j))
            &&& spec_entry_lookup(cat.entries, b) == Some(CardV::TwoFace(j, i))
        }),
{
    lemma_pass2_pair(doc, 0, Seq::empty(), a, i);
    crate::catalog::lemma_pass2_wf(doc, 0, Seq::empty());
    let names = spec_read_string_array((doc[i].1->Object_0)@, Field::Names)->Ok_0;
    let b = spec_member_others(names, a)[0];
    let j = spec_find_key(doc, b, 0)->Some_0;
    let m = choose|m: int|
        0 <= m < cat.entries.len() && #[trigger] cat.entries[m] == (a, CardV::TwoFace(i, j));
    lemma_index_to_lookup(cat.entries, m);
    let m2 = choose|m2: int|
        0 <= m2 < cat.entries.len() && #[trigger] cat.entries[m2] == (b, CardV::TwoFace(j, i));
    lemma_index_to_lookup(cat.entries, m2);
}

/// Normal cards publish as single faces: an entry whose layout is of the
/// single-face family, stored under a key no multi-face group lists as a
/// companion, is published as `SingleFace` of its own document position,
/// and the published face reflects the entry's fields exactly — its mana
/// cost and colors are precisely what the `manaCost` and `colors` fields
/// denote, an absent input field giving an absent output field.
pub proof fn lemma_normal_entry_single_face(
    doc: Seq<(String, JsonValue)>,
    cat: CatalogV,
    k: Seq<char>,
    i: int,
)
    requires
        spec_load(doc) == Ok::<CatalogV, BuildErrV>(cat),
        0 <= i < doc.len(),
        doc[i].0@ == k,
        forall|j: int| 0 <= j < i ==> (#[trigger] doc[j]).0@ != k,
        doc[i].1 is Object,
        (spec_read_layout((doc[i].1->Object_0)@) matches Ok(l) && spec_is_single_layout(l)),
        !spec_named_as_companion(doc, k),
    ensures
        spec_entry_lookup(cat.entries, k) == Some(CardV::SingleFace(i)),
        cat.faces[i] == spec_build_face((doc[i].1->Object_0)@)->Ok_0,
        cat.faces[i].mana == spec_read_mana((doc[i].1->Object_0)@)->Ok_0,
        cat.faces[i].color == spec_read_color((doc[i].1->Object_0)@)->Ok_0,
{
    lemma_pass2_single(doc, 0, Seq::empty(), k, i);
    crate::catalog::lemma_pass2_wf(doc, 0, Seq::empty());
    let m = choose|m: int|
        0 <= m < cat.entries.len() && #[trigger] cat.entries[m] == (k, CardV::SingleFace(i));
    lemma_index_to_lookup(cat.entries, m);
    lemma_pass1_index(doc, 0, i);
}

/// Two-face pairs are symmetric and share their faces: when a loaded
/// catalog publishes `a` as a two-face card of faces `(i, j)`, then `i` is
/// the document entry of `a` itself, and the catalog publishes the name of
/// document entry `j` as the mirrored two-face card `(j, i)` — the same two
/// arena faces, not copies.
pub proof fn lemma_two_face_symmetric(
    doc: Seq<(String, JsonValue)>,
    cat: CatalogV,
    a: Seq<char>,
    i: int,
    j: int,
)
    requires
        spec_load(doc) == Ok::<CatalogV, BuildErrV>(cat),
        spec_entry_lookup(cat.entries, a) == Some(CardV::TwoFace(i, j)),
    ensures
        0 <= i < doc.len(),
        0 <= j < doc.len(),
        doc[i].0@ == a,
        spec_entry_lookup(cat.entries, doc[j].0@) == Some(CardV::TwoFace(j, i)),
{
    lemma_pass2_linked(doc, 0, Seq::empty());
    crate::catalog::lemma_pass2_wf(doc, 0, Seq::empty());
    lemma_lookup_to_index(cat.entries, a);
    let m = choose|m: int|
        0 <= m < cat.entries.len() && cat.entries[m] == (a, CardV::TwoFace(i, j));
    assert(spec_entry_linked(doc, cat.entries, m));
    let m2 = choose|m2: int|
        0 <= m2 < cat.entries.len() && #[trigger] cat.entries[m2] == (
            doc[j].0@,
            CardV::TwoFace(j, i),
        );
    lemma_index_to_lookup(cat.entries, m2);
}

/// Single-face entries come from their own document entry: when a loaded
/// catalog publishes `a` as a single-face card of face `i`, then `i` is the
/// document entry of `a` itself, that entry's layout is of the single-face
/// family, and the published face reflects the entry's fields exactly — in
/// particular its mana cost and colors are precisely what the `manaCost`
/// and `colors` fields denote, an absent input field giving an absent
/// output field.
pub proof fn lemma_single_face_normal(
    doc: Seq<(String, JsonValue)>,
    cat: CatalogV,
    a: Seq<char>,
    i: int,
)
    requires
        spec_load(doc) == Ok::<CatalogV, BuildErrV>(cat),
        spec_entry_lookup(cat.entries, a) == Some(CardV::SingleFace(i)),
    ensures
        0 <= i < doc.len(),
        doc[i].0@ == a,
        doc[i].1 is Object,
        (spec_read_layout((doc[i].1->Object_0)@) matches Ok(l) && spec_is_single_layout(l)),
        spec_build_face((doc[i].1->Object_0)@) is Ok,
        cat.faces[i] == spec_build_face((doc[i].1->Object_0)@)->Ok_0,
        cat.faces[i].mana == spec_read_mana((doc[i].1->Object_0)@)->Ok_0,
        cat.faces[i].color == spec_read_color((doc[i].1->Object_0)@)->Ok_0,
{
    lemma_pass2_linked(doc, 0, Seq::empty());
    lemma_lookup_to_index(cat.entries, a);
    let m = choose|m: int|
        0 <= m < cat.entries.len() && cat.entries[m] == (a, CardV::SingleFace(i));
    assert(spec_entry_linked(doc, cat.entries, m));
    lemma_pass1_index(doc, 0, i);
}

/// The first pass reports the error of the first failing entry.
proof fn lemma_pass1_first_error(doc: Seq<(String, JsonValue)>, t: int, i: int)
    requires
        0 <= t <= i < doc.len(),
        forall|j: int|
            t <= j < i ==> (#[trigger] doc[j].1) is Object && spec_build_face(
                (doc[j].1->Object_0)@,
            ) is Ok,
        doc[i].1 is Object,
        spec_build_face((doc[i].1->Object_0)@) is Err,
    ensures
        spec_pass1(doc, t) == Err::<Seq<FaceV>, BuildErrV>(
            BuildErrV::Named(doc[i].0@, spec_build_face((doc[i].1->Object_0)@)->Err_0),
        ),
    decreases i - t,
{
    if t == i {
    } else {
        lemma_pass1_first_error(doc, t + 1, i);
    }
}

} // verus!
