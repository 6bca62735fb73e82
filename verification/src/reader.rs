//! Reading a whole document: one group of entries for each map.

use vstd::prelude::*;
use vstd::string::*;
use crate::document::{document_of, parse_document, DocumentError};
use crate::grenade::{parse_entry, Grenade, Lineup, ParseError};
use crate::value::{
    fields_view, items_view, lemma_list_view, lemma_object_view, lookup, Tree, Value,
};

verus! {

/// What one map's group of entries was read into.
#[derive(Clone, Debug, PartialEq)]
pub struct MapLineups {
    /// Name of the map.
    pub map: String,
    /// The records of the group, in the order of the entries, each one once.
    pub grenades: Vec<Grenade>,
    /// Why each entry that is no record was turned down, in the order of
    /// the entries.
    pub rejected: Vec<ParseError>,
}

/// The mathematical content of a `MapLineups`.
pub struct MapView {
    pub map: Seq<char>,
    pub grenades: Seq<Lineup>,
    pub rejected: Seq<ParseError>,
}

/// The content of a sequence of records.
pub open spec fn lineups_view(s: Seq<Grenade>) -> Seq<Lineup> {
    Seq::new(s.len(), |i: int| s[i]@)
}

impl View for MapLineups {
    type V = MapView;

    open spec fn view(&self) -> MapView {
        MapView {
            map: self.map@,
            grenades: lineups_view(self.grenades@),
            rejected: self.rejected@,
        }
    }
}

/// The content of a sequence of groups.
pub open spec fn maps_view(s: Seq<MapLineups>) -> Seq<MapView> {
    Seq::new(s.len(), |i: int| s[i]@)
}

/// The records among the entries, in the order of the entries.
pub open spec fn accepted(entries: Seq<Tree>) -> Seq<Lineup>
    decreases entries.len(),
{
    if entries.len() == 0 {
        Seq::empty()
    } else {
        let before = accepted(entries.drop_last());
        match parse_entry(entries.last()) {
            Ok(g) => before.push(g),
            Err(_) => before,
        }
    }
}

/// Why each entry that is no record is none, in the order of the entries.
pub open spec fn rejections(entries: Seq<Tree>) -> Seq<ParseError>
    decreases entries.len(),
{
    if entries.len() == 0 {
        Seq::empty()
    } else {
        let before = rejections(entries.drop_last());
        match parse_entry(entries.last()) {
            Ok(_) => before,
            Err(e) => before.push(e),
        }
    }
}

/// The sequence without its repetitions: a record stays where none equal
/// to it comes earlier in the sequence.
pub open spec fn deduplicated(s: Seq<Lineup>) -> Seq<Lineup>
    decreases s.len(),
{
    if s.len() == 0 {
        Seq::empty()
    } else if s.drop_last().contains(s.last()) {
        deduplicated(s.drop_last())
    } else {
        deduplicated(s.drop_last()).push(s.last())
    }
}

/// Whether no record occurs twice in the sequence.
pub open spec fn distinct(s: Seq<Lineup>) -> bool {
    forall|i: int, j: int| 0 <= i < j < s.len() ==> s[i] != s[j]
}

/// The members of a list; none for anything else.
pub open spec fn members(t: Tree) -> Seq<Tree> {
    match t {
        Tree::List(items) => items,
        _ => Seq::empty(),
    }
}

/// What the group `entries` of the map `name` reads as.
pub open spec fn group_of(name: Seq<char>, entries: Tree) -> MapView {
    MapView {
        map: name,
        grenades: deduplicated(accepted(members(entries))),
        rejected: rejections(members(entries)),
    }
}

/// Whether the field at position `at` has the name of a field before it.
pub open spec fn is_named_before(fields: Seq<(Seq<char>, Tree)>, at: int) -> bool {
    exists|j: int| 0 <= j < at && (#[trigger] fields[j]).0 == fields[at].0
}

/// The groups of the first `upto` fields of a document, in the order of
/// the fields. A field that has the name of a field before it has no
/// group: a map has one group, that of the first field of its name.
pub open spec fn groups_upto(fields: Seq<(Seq<char>, Tree)>, upto: int) -> Seq<MapView>
    decreases upto,
{
    if upto <= 0 {
        Seq::empty()
    } else {
        let before = groups_upto(fields, upto - 1);
        if is_named_before(fields, upto - 1) {
            before
        } else {
            before.push(group_of(fields[upto - 1].0, fields[upto - 1].1))
        }
    }
}

/// What a document reads as: one group for each map that it names;
/// nothing where the document is not an object.
pub open spec fn groups_of(doc: Tree) -> Option<Seq<MapView>> {
    match doc {
        Tree::Object(fields) => Some(groups_upto(fields, fields.len() as int)),
        _ => None,
    }
}

/// What `read_document` makes of a document.
pub open spec fn reading_of(doc: Tree) -> Result<Seq<MapView>, DocumentError> {
    match groups_of(doc) {
        Some(groups) => Ok(groups),
        None => Err(DocumentError::NotAMapping),
    }
}

/// The number of records in all the groups together.
pub open spec fn total_of(groups: Seq<MapView>) -> nat
    decreases groups.len(),
{
    if groups.len() == 0 {
        0
    } else {
        total_of(groups.drop_last()) + groups.last().grenades.len()
    }
}

/// The records of a sequence with one more at its end are those of the
/// sequence and that one.
proof fn lemma_pushed_members(s: Seq<Lineup>, last: Lineup, g: Lineup)
    ensures
        s.push(last).contains(g) <==> s.contains(g) || g == last,
{
    let all = s.push(last);
    if all.contains(g) {
        let i = choose|i: int| 0 <= i < all.len() && all[i] == g;
        if i < s.len() {
            assert(s[i] == g);
        }
    }
    if s.contains(g) {
        let i = choose|i: int| 0 <= i < s.len() && s[i] == g;
        assert(all[i] == g);
    }
    assert(all[all.len() - 1] == last);
}

/// A record is in the deduplicated sequence exactly if it is in the
/// sequence.
pub proof fn lemma_deduplicated_keeps_members(s: Seq<Lineup>, g: Lineup)
    ensures
        deduplicated(s).contains(g) <==> s.contains(g),
    decreases s.len(),
{
    if s.len() > 0 {
        let before = s.drop_last();
        lemma_deduplicated_keeps_members(before, g);
        assert(s =~= before.push(s.last()));
        lemma_pushed_members(before, s.last(), g);
        lemma_pushed_members(deduplicated(before), s.last(), g);
    }
}

/// No record occurs twice in a deduplicated sequence.
pub proof fn lemma_deduplicated_is_distinct(s: Seq<Lineup>)
    ensures
        distinct(deduplicated(s)),
    decreases s.len(),
{
    if s.len() > 0 {
        let before = s.drop_last();
        lemma_deduplicated_is_distinct(before);
        lemma_deduplicated_keeps_members(before, s.last());
    }
}

/// A sequence in which no record occurs twice is its own deduplication.
pub proof fn lemma_distinct_is_kept(s: Seq<Lineup>)
    requires
        distinct(s),
    ensures
        deduplicated(s) == s,
    decreases s.len(),
{
    if s.len() > 0 {
        let before = s.drop_last();
        assert(distinct(before)) by {
            assert forall|i: int, j: int| 0 <= i < j < before.len() implies before[i]
                != before[j] by {
                assert(before[i] == s[i] && before[j] == s[j]);
            }
        }
        lemma_distinct_is_kept(before);
        if before.contains(s.last()) {
            let i = choose|i: int| 0 <= i < before.len() && before[i] == s.last();
            assert(s[i] == s[s.len() - 1]);
        }
        assert(before.push(s.last()) =~= s);
    } else {
        assert(deduplicated(s) =~= s);
    }
}

/// Deduplicating twice gives what deduplicating once gives.
pub proof fn lemma_deduplicated_is_idempotent(s: Seq<Lineup>)
    ensures
        deduplicated(deduplicated(s)) == deduplicated(s),
{
    lemma_deduplicated_is_distinct(s);
    lemma_distinct_is_kept(deduplicated(s));
}

/// Every group is that of a field that is the first of its name, and
/// every field has the name of a group.
pub proof fn lemma_groups_and_fields(fields: Seq<(Seq<char>, Tree)>, upto: int)
    requires
        0 <= upto <= fields.len(),
    ensures
        forall|i: int|
            0 <= i < groups_upto(fields, upto).len() ==> exists|j: int|
                0 <= j < upto && !is_named_before(fields, j) && #[trigger] groups_upto(
                    fields,
                    upto,
                )[i] == group_of(fields[j].0, fields[j].1),
        forall|j: int|
            0 <= j < upto ==> exists|i: int|
                0 <= i < groups_upto(fields, upto).len() && groups_upto(fields, upto)[i].map
                    == #[trigger] fields[j].0,
    decreases upto,
{
    if upto > 0 {
        lemma_groups_and_fields(fields, upto - 1);
        let before = groups_upto(fields, upto - 1);
        let now = groups_upto(fields, upto);
        assert forall|i: int| 0 <= i < now.len() implies exists|j: int|
            0 <= j < upto && !is_named_before(fields, j) && #[trigger] now[i] == group_of(
                fields[j].0,
                fields[j].1,
            ) by {
            if i < before.len() {
                assert(now[i] == before[i]);
                let j = choose|j: int|
                    0 <= j < upto - 1 && !is_named_before(fields, j) && before[i] == group_of(
                        fields[j].0,
                        fields[j].1,
                    );
                assert(0 <= j < upto);
            } else {
                assert(!is_named_before(fields, upto - 1));
            }
        }
        assert forall|j: int| 0 <= j < upto implies exists|i: int|
            0 <= i < now.len() && now[i].map == #[trigger] fields[j].0 by {
            if j < upto - 1 {
                let i = choose|i: int| 0 <= i < before.len() && before[i].map == fields[j].0;
                assert(now[i] == before[i]);
            } else if is_named_before(fields, upto - 1) {
                let k = choose|k: int| 0 <= k < upto - 1 && (#[trigger] fields[k]).0 == fields[upto - 1].0;
                let i = choose|i: int| 0 <= i < before.len() && before[i].map == fields[k].0;
                assert(now[i] == before[i]);
            } else {
                assert(now[now.len() - 1].map == fields[j].0);
            }
        }
    }
}

/// No two groups of a document have the same map name.
pub proof fn lemma_group_names_are_distinct(fields: Seq<(Seq<char>, Tree)>, upto: int)
    requires
        0 <= upto <= fields.len(),
    ensures
        forall|a: int, b: int|
            0 <= a < b < groups_upto(fields, upto).len() ==> groups_upto(fields, upto)[a].map
                != groups_upto(fields, upto)[b].map,
    decreases upto,
{
    if upto > 0 {
        lemma_group_names_are_distinct(fields, upto - 1);
        lemma_groups_and_fields(fields, upto - 1);
        let before = groups_upto(fields, upto - 1);
        let now = groups_upto(fields, upto);
        assert forall|a: int, b: int| 0 <= a < b < now.len() implies now[a].map
            != now[b].map by {
            if b < before.len() {
                assert(now[a] == before[a] && now[b] == before[b]);
            } else {
                assert(!is_named_before(fields, upto - 1));
                assert(now[a] == before[a]);
                let j = choose|j: int|
                    0 <= j < upto - 1 && !is_named_before(fields, j) && before[a] == group_of(
                        fields[j].0,
                        fields[j].1,
                    );
                if now[a].map == now[b].map {
                    assert(fields[j].0 == fields[upto - 1].0);
                    assert(false);
                }
            }
        }
    }
}

/// Whether the record at position `at` occurs nowhere before it.
pub open spec fn is_first(s: Seq<Lineup>, at: int) -> bool {
    0 <= at < s.len() && !s.take(at).contains(s[at])
}

/// Every record of a sequence has a first occurrence in it.
pub proof fn lemma_first_occurrence(s: Seq<Lineup>, g: Lineup) -> (at: int)
    requires
        s.contains(g),
    ensures
        is_first(s, at),
        s[at] == g,
    decreases s.len(),
{
    let before = s.drop_last();
    if before.contains(g) {
        let at = lemma_first_occurrence(before, g);
        assert(s.take(at) =~= before.take(at));
        at
    } else {
        let i = choose|i: int| 0 <= i < s.len() && s[i] == g;
        if i < s.len() - 1 {
            assert(before[i] == g);
        }
        assert(s.take(s.len() - 1) =~= before);
        s.len() - 1
    }
}

/// Deduplicating keeps the order of first occurrence: of two records of
/// the deduplicated sequence, the earlier one occurs first in the
/// sequence before the later one does.
pub proof fn lemma_deduplicated_keeps_order(s: Seq<Lineup>, i: int, j: int) -> (at: (int, int))
    requires
        0 <= i < j < deduplicated(s).len(),
    ensures
        at.0 < at.1,
        is_first(s, at.0) && s[at.0] == deduplicated(s)[i],
        is_first(s, at.1) && s[at.1] == deduplicated(s)[j],
    decreases s.len(),
{
    let before = s.drop_last();
    let d = deduplicated(before);
    if before.contains(s.last()) || j < d.len() {
        let at = lemma_deduplicated_keeps_order(before, i, j);
        assert(s.take(at.0) =~= before.take(at.0));
        assert(s.take(at.1) =~= before.take(at.1));
        at
    } else {
        assert(d.contains(d[i]));
        lemma_deduplicated_keeps_members(before, d[i]);
        let a = lemma_first_occurrence(before, d[i]);
        assert(s.take(a) =~= before.take(a));
        assert(s.take(s.len() - 1) =~= before);
        (a, s.len() - 1)
    }
}

/// The records of a group are the records among its entries, each one
/// once: no record occurs twice, a record is in the group exactly if it
/// is among the entries, and deduplicating the group again changes
/// nothing.
pub proof fn lemma_group_is_deduplicated(name: Seq<char>, entries: Tree)
    ensures
        distinct(group_of(name, entries).grenades),
        forall|g: Lineup| #[trigger]
            group_of(name, entries).grenades.contains(g) <==> accepted(members(entries)).contains(
                g,
            ),
        deduplicated(group_of(name, entries).grenades) == group_of(name, entries).grenades,
{
    let records = accepted(members(entries));
    lemma_deduplicated_is_distinct(records);
    lemma_deduplicated_is_idempotent(records);
    assert forall|g: Lineup| #[trigger]
        deduplicated(records).contains(g) <==> records.contains(g) by {
        lemma_deduplicated_keeps_members(records, g);
    }
}

/// A group whose entries are those of another without the repetitions
/// has the records of the other, as many as it has entries that are
/// records.
pub proof fn lemma_group_without_repetitions(name: Seq<char>, entries: Tree, fewer: Tree)
    requires
        accepted(members(fewer)) == deduplicated(accepted(members(entries))),
    ensures
        group_of(name, fewer).grenades == group_of(name, entries).grenades,
        group_of(name, fewer).grenades.len() == accepted(members(fewer)).len(),
{
    lemma_deduplicated_is_idempotent(accepted(members(entries)));
}

/// Every group that a document reads as holds each of its records once,
/// in the order of first occurrence among the entries of the first field
/// of the group's name.
pub proof fn lemma_reading_is_deduplicated(doc: Tree, at: int)
    requires
        reading_of(doc) is Ok,
        0 <= at < reading_of(doc)->Ok_0.len(),
    ensures
        distinct(reading_of(doc)->Ok_0[at].grenades),
        reading_of(doc)->Ok_0[at].grenades == deduplicated(
            accepted(members(doc.field(reading_of(doc)->Ok_0[at].map))),
        ),
        forall|g: Lineup| #[trigger]
            reading_of(doc)->Ok_0[at].grenades.contains(g) <==> accepted(
                members(doc.field(reading_of(doc)->Ok_0[at].map)),
            ).contains(g),
{
    let fields = doc->Object_0;
    let groups = groups_upto(fields, fields.len() as int);
    lemma_groups_and_fields(fields, fields.len() as int);
    let j = choose|j: int|
        0 <= j < fields.len() && !is_named_before(fields, j) && groups[at] == group_of(
            fields[j].0,
            fields[j].1,
        );
    lemma_first_field(fields, fields[j].0, 0, j);
    lemma_group_is_deduplicated(fields[j].0, fields[j].1);
}

/// The field that `lookup` finds from `from` on is the first of its name
/// at or after `from`.
proof fn lemma_first_field(fields: Seq<(Seq<char>, Tree)>, key: Seq<char>, from: int, at: int)
    requires
        0 <= from <= at < fields.len(),
        fields[at].0 == key,
        forall|k: int| from <= k < at ==> (#[trigger] fields[k]).0 != key,
    ensures
        lookup(fields, key, from) == fields[at].1,
    decreases at - from,
{
    if from < at {
        lemma_first_field(fields, key, from + 1, at);
    }
}

/// Whether a record with the content of `nade` is in the list.
pub fn holds(list: &Vec<Grenade>, nade: &Grenade) -> (r: bool)
    ensures
        r == lineups_view(list@).contains(nade@),
{
    let mut i: usize = 0;
    while i < list.len()
        invariant
            i <= list.len(),
            forall|j: int| 0 <= j < i ==> lineups_view(list@)[j] != nade@,
        decreases list.len() - i,
    {
        if list[i].same_as(nade) {
            assert(lineups_view(list@)[i as int] == nade@);
            return true;
        }
        i = i + 1;
    }
    false
}

/// The records without their repetitions, as `deduplicated` defines it:
/// of equal records the first stays.
pub fn deduplicate(nades: &Vec<Grenade>) -> (r: Vec<Grenade>)
    ensures
        lineups_view(r@) == deduplicated(lineups_view(nades@)),
{
    let ghost all = lineups_view(nades@);
    let mut kept: Vec<Grenade> = Vec::new();
    let mut i: usize = 0;
    assert(all.take(0) =~= Seq::empty());
    assert(lineups_view(kept@) =~= Seq::empty());
    while i < nades.len()
        invariant
            i <= nades.len(),
            all == lineups_view(nades@),
            lineups_view(kept@) == deduplicated(all.take(i as int)),
        decreases nades.len() - i,
    {
        proof {
            let next = all.take(i + 1);
            assert(next.drop_last() =~= all.take(i as int));
            assert(next.last() == nades[i as int]@);
            lemma_deduplicated_keeps_members(all.take(i as int), nades[i as int]@);
        }
        if !holds(&kept, &nades[i]) {
            let ghost before = lineups_view(kept@);
            kept.push(nades[i].duplicate());
            assert(lineups_view(kept@) =~= before.push(nades[i as int]@));
        }
        i = i + 1;
    }
    assert(all.take(i as int) =~= all);
    kept
}

/// Reads the group of entries of one map: every entry that is a record,
/// each record once, and the reason for every entry that is none.
pub fn read_group(name: &String, entries: &Value) -> (r: MapLineups)
    ensures
        r@ == group_of(name@, entries@),
{
    let mut grenades: Vec<Grenade> = Vec::new();
    let mut rejected: Vec<ParseError> = Vec::new();
    match entries {
        Value::List(items) => {
            proof {
                lemma_list_view(*items);
            }
            let ghost all = items_view(items@);
            let mut i: usize = 0;
            assert(all.take(0) =~= Seq::empty());
            assert(lineups_view(grenades@) =~= Seq::empty());
            while i < items.len()
                invariant
                    i <= items.len(),
                    all == items_view(items@),
                    lineups_view(grenades@) == accepted(all.take(i as int)),
                    rejected@ == rejections(all.take(i as int)),
                decreases items.len() - i,
            {
                proof {
                    let next = all.take(i + 1);
                    assert(next.drop_last() =~= all.take(i as int));
                    assert(next.last() == items[i as int]@);
                }
                match Grenade::from_gs_json(&items[i]) {
                    Ok(g) => {
                        let ghost before = lineups_view(grenades@);
                        let ghost content = g@;
                        grenades.push(g);
                        assert(lineups_view(grenades@) =~= before.push(content));
                    },
                    Err(e) => {
                        rejected.push(e);
                    },
                }
                i = i + 1;
            }
            assert(all.take(i as int) =~= all);
        },
        _ => {
            assert(lineups_view(grenades@) =~= Seq::empty());
        },
    }
    MapLineups { map: name.clone(), grenades: deduplicate(&grenades), rejected }
}

/// Whether one of the first `upto` fields has the name of the field at
/// position `upto`.
fn named_before(fields: &Vec<(String, Value)>, upto: usize) -> (r: bool)
    requires
        upto < fields.len(),
    ensures
        r == is_named_before(fields_view(fields@), upto as int),
{
    let mut j: usize = 0;
    while j < upto
        invariant
            j <= upto < fields.len(),
            forall|k: int| 0 <= k < j ==> fields_view(fields@)[k].0 != fields_view(fields@)[upto as int].0,
        decreases upto - j,
    {
        if fields[j].0 == fields[upto].0 {
            assert(fields_view(fields@)[j as int].0 == fields_view(fields@)[upto as int].0);
            return true;
        }
        j = j + 1;
    }
    false
}

/// Reads a document of groups of entries: one group for each map that the
/// document names, in the order in which it names them.
pub fn read_document(doc: &Value) -> (r: Result<Vec<MapLineups>, DocumentError>)
    ensures
        match r {
            Ok(groups) => reading_of(doc@) == Ok::<Seq<MapView>, DocumentError>(
                maps_view(groups@),
            ),
            Err(e) => reading_of(doc@) == Err::<Seq<MapView>, DocumentError>(e),
        },
{
    match doc {
        Value::Object(fields) => {
            proof {
                lemma_object_view(*fields);
            }
            let ghost all = fields_view(fields@);
            let mut groups: Vec<MapLineups> = Vec::new();
            let mut i: usize = 0;
            assert(maps_view(groups@) =~= Seq::empty());
            while i < fields.len()
                invariant
                    i <= fields.len(),
                    all == fields_view(fields@),
                    maps_view(groups@) == groups_upto(all, i as int),
                decreases fields.len() - i,
            {
                assert(all[i as int] == (fields[i as int].0@, fields[i as int].1@));
                if !named_before(fields, i) {
                    let ghost before = maps_view(groups@);
                    let group = read_group(&fields[i].0, &fields[i].1);
                    let ghost content = group@;
                    groups.push(group);
                    assert(maps_view(groups@) =~= before.push(content));
                }
                i = i + 1;
            }
            Ok(groups)
        },
        _ => Err(DocumentError::NotAMapping),
    }
}

/// What `read_gs_json` makes of a text.
pub open spec fn lineups_of(data: &str) -> Result<Seq<MapView>, DocumentError> {
    match document_of(data) {
        Ok(doc) => reading_of(doc),
        Err(e) => Err(e),
    }
}

/// Every group that a text reads as holds each of its records once, in
/// the order of first occurrence among the entries of its map.
pub proof fn lemma_lineups_are_deduplicated(data: &str, at: int)
    requires
        lineups_of(data) is Ok,
        0 <= at < lineups_of(data)->Ok_0.len(),
    ensures
        document_of(data) is Ok,
        distinct(lineups_of(data)->Ok_0[at].grenades),
        lineups_of(data)->Ok_0[at].grenades == deduplicated(
            accepted(members(document_of(data)->Ok_0.field(lineups_of(data)->Ok_0[at].map))),
        ),
        deduplicated(lineups_of(data)->Ok_0[at].grenades) == lineups_of(data)->Ok_0[at].grenades,
{
    lemma_reading_is_deduplicated(document_of(data)->Ok_0, at);
    lemma_deduplicated_is_idempotent(
        accepted(members(document_of(data)->Ok_0.field(lineups_of(data)->Ok_0[at].map))),
    );
}

/// Reads a JSON text of groups of entries, one group for each map.
pub fn read_gs_json(data: &str) -> (r: Result<Vec<MapLineups>, DocumentError>)
    ensures
        match r {
            Ok(groups) => lineups_of(data) == Ok::<Seq<MapView>, DocumentError>(
                maps_view(groups@),
            ),
            Err(e) => lineups_of(data) == Err::<Seq<MapView>, DocumentError>(e),
        },
{
    match parse_document(data) {
        Ok(doc) => read_document(&doc),
        Err(e) => Err(e),
    }
}

/// The number of records in all the groups together.
pub fn total_count(groups: &Vec<MapLineups>) -> (r: u128)
    ensures
        r == total_of(maps_view(groups@)),
{
    let ghost all = maps_view(groups@);
    let mut total: u128 = 0;
    let mut i: usize = 0;
    assert(all.take(0) =~= Seq::empty());
    while i < groups.len()
        invariant
            i <= groups.len(),
            all == maps_view(groups@),
            total == total_of(all.take(i as int)),
            total <= i * usize::MAX,
        decreases groups.len() - i,
    {
        proof {
            let next = all.take(i + 1);
            assert(next.drop_last() =~= all.take(i as int));
            assert(next.last() == groups[i as int]@);
            assert((i + 1) * usize::MAX == i * usize::MAX + usize::MAX) by (nonlinear_arith);
            assert(i * usize::MAX <= 0xffff_ffff_ffff_ffff * 0xffff_ffff_ffff_ffff)
                by (nonlinear_arith)
                requires
                    0 <= i <= 0xffff_ffff_ffff_ffff,
                    0 <= usize::MAX <= 0xffff_ffff_ffff_ffff,
            ;
        }
        total = total + groups[i].grenades.len() as u128;
        i = i + 1;
    }
    assert(all.take(i as int) =~= all);
    total
}

} // verus!
