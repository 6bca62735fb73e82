//! Converting the records of one map, all at once.

use vstd::prelude::*;
use vstd::string::*;
use crate::grenade::{Grenade, Lineup};
use crate::kidua::{kidua_outcome, KiduaError, KiduaReason};
use crate::mono::{
    mono_outcome, mono_weapon, mono_weapon_of, short_name, MonoError, MonoReason, MonoWeapon,
};
use crate::prim::{prim_outcome, PrimError, PrimReason};
use crate::reader::lineups_view;
use crate::text::{append_number, digits_of};
use crate::value::{fields_view, items_view, put, Tree, Value};

verus! {

/// The successes among the outcomes, in their order.
pub open spec fn successes<T, E>(outcomes: Seq<Result<T, E>>) -> Seq<T>
    decreases outcomes.len(),
{
    if outcomes.len() == 0 {
        Seq::empty()
    } else {
        let before = successes(outcomes.drop_last());
        match outcomes.last() {
            Ok(t) => before.push(t),
            Err(_) => before,
        }
    }
}

/// The failures among the outcomes, in their order.
pub open spec fn failures<T, E>(outcomes: Seq<Result<T, E>>) -> Seq<E>
    decreases outcomes.len(),
{
    if outcomes.len() == 0 {
        Seq::empty()
    } else {
        let before = failures(outcomes.drop_last());
        match outcomes.last() {
            Ok(_) => before,
            Err(e) => before.push(e),
        }
    }
}

/// Every outcome is a success or a failure.
pub proof fn lemma_outcomes_are_counted<T, E>(outcomes: Seq<Result<T, E>>)
    ensures
        successes(outcomes).len() + failures(outcomes).len() == outcomes.len(),
    decreases outcomes.len(),
{
    if outcomes.len() > 0 {
        lemma_outcomes_are_counted(outcomes.drop_last());
    }
}

/// The Mono outcomes of the records of the weapon `weapon`, in the order
/// of the records.
pub open spec fn mono_outcomes(s: Seq<Lineup>, weapon: MonoWeapon) -> Seq<
    Result<Tree, MonoReason>,
>
    decreases s.len(),
{
    if s.len() == 0 {
        Seq::empty()
    } else {
        let before = mono_outcomes(s.drop_last(), weapon);
        if mono_weapon_of(s.last().weapon) == Some(weapon) {
            before.push(mono_outcome(s.last()))
        } else {
            before
        }
    }
}

/// Why each record of a weapon that the Mono schema carries has no place
/// in it, where it has none, in the order of the records.
pub open spec fn mono_failures(s: Seq<Lineup>) -> Seq<MonoReason>
    decreases s.len(),
{
    if s.len() == 0 {
        Seq::empty()
    } else {
        let before = mono_failures(s.drop_last());
        if mono_weapon_of(s.last().weapon) is Some && mono_outcome(s.last()) is Err {
            before.push(mono_outcome(s.last())->Err_0)
        } else {
            before
        }
    }
}

/// The Primordial outcomes of the records, in their order.
pub open spec fn prim_outcomes(s: Seq<Lineup>) -> Seq<Result<Tree, PrimReason>> {
    Seq::new(s.len(), |i: int| prim_outcome(s[i]))
}

/// The Kidua outcomes of the records, in their order.
pub open spec fn kidua_outcomes(s: Seq<Lineup>) -> Seq<Result<Tree, KiduaReason>> {
    Seq::new(s.len(), |i: int| kidua_outcome(s[i]))
}

/// The values under their places in the sequence, written in decimal
/// digits: the first under `0`, the next under `1`, and so on.
pub open spec fn numbered(values: Seq<Tree>) -> Seq<(Seq<char>, Tree)> {
    Seq::new(values.len(), |i: int| (digits_of(i as nat), values[i]))
}

/// The field that holds the values of one weapon: none where there is no
/// value.
pub open spec fn shelf(weapon: MonoWeapon, values: Seq<Tree>) -> Seq<(Seq<char>, Tree)> {
    if values.len() == 0 {
        Seq::empty()
    } else {
        seq![(short_name(weapon), Tree::List(values))]
    }
}

/// The records of one map in the Mono schema.
#[derive(Debug, PartialEq)]
pub struct MonoBatch {
    /// The values of the molotovs that the schema has a place for.
    pub fire: Vec<Value>,
    /// The values of the HE grenades that the schema has a place for.
    pub he: Vec<Value>,
    /// Why each of the other molotovs and HE grenades has none.
    pub rejected: Vec<MonoError>,
}

/// The records of one map in the Primordial schema.
#[derive(Debug, PartialEq)]
pub struct PrimBatch {
    /// The value of each record that the schema has a place for, under its
    /// number: the values are numbered from 0 in the order of the records.
    pub numbered: Vec<(String, Value)>,
    /// Why each of the other records has none.
    pub rejected: Vec<PrimError>,
}

/// The records of one map in the Kidua schema.
#[derive(Debug, PartialEq)]
pub struct KiduaBatch {
    /// The value of each record that the schema has a place for.
    pub values: Vec<Value>,
    /// Why each of the other records has none.
    pub rejected: Vec<KiduaError>,
}

/// The content of a sequence of Mono rejections.
pub open spec fn mono_reasons(s: Seq<MonoError>) -> Seq<MonoReason> {
    Seq::new(s.len(), |i: int| s[i]@)
}

/// The content of a sequence of Primordial rejections.
pub open spec fn prim_reasons(s: Seq<PrimError>) -> Seq<PrimReason> {
    Seq::new(s.len(), |i: int| s[i]@)
}

/// The content of a sequence of Kidua rejections.
pub open spec fn kidua_reasons(s: Seq<KiduaError>) -> Seq<KiduaReason> {
    Seq::new(s.len(), |i: int| s[i]@)
}

impl MonoBatch {
    /// The map's object in the schema: the values of each weapon that has
    /// any, in a list under the short name of the weapon.
    pub fn into_object(self) -> (r: Value)
        ensures
            r@ == Tree::Object(
                shelf(MonoWeapon::Fire, items_view(self.fire@)) + shelf(
                    MonoWeapon::He,
                    items_view(self.he@),
                ),
            ),
    {
        let ghost fire = items_view(self.fire@);
        let ghost he = items_view(self.he@);
        let mut fields: Vec<(String, Value)> = Vec::new();
        assert(fields_view(fields@) =~= Seq::empty());
        if self.fire.len() > 0 {
            put(&mut fields, MonoWeapon::Fire.name(), Value::list(self.fire));
        }
        if self.he.len() > 0 {
            put(&mut fields, MonoWeapon::He.name(), Value::list(self.he));
        }
        assert(fields_view(fields@) =~= shelf(MonoWeapon::Fire, fire) + shelf(MonoWeapon::He, he));
        Value::object(fields)
    }
}

/// Maps the records of one map into the Mono schema. Records of a weapon
/// that the schema does not carry are passed over.
pub fn convert_mono(nades: &Vec<Grenade>) -> (r: MonoBatch)
    ensures
        items_view(r.fire@) == successes(mono_outcomes(lineups_view(nades@), MonoWeapon::Fire)),
        items_view(r.he@) == successes(mono_outcomes(lineups_view(nades@), MonoWeapon::He)),
        mono_reasons(r.rejected@) == mono_failures(lineups_view(nades@)),
{
    let ghost all = lineups_view(nades@);
    let mut fire: Vec<Value> = Vec::new();
    let mut he: Vec<Value> = Vec::new();
    let mut rejected: Vec<MonoError> = Vec::new();
    let mut i: usize = 0;
    assert(all.take(0) =~= Seq::empty());
    assert(items_view(fire@) =~= Seq::empty());
    assert(items_view(he@) =~= Seq::empty());
    assert(mono_reasons(rejected@) =~= Seq::empty());
    while i < nades.len()
        invariant
            i <= nades.len(),
            all == lineups_view(nades@),
            items_view(fire@) == successes(mono_outcomes(all.take(i as int), MonoWeapon::Fire)),
            items_view(he@) == successes(mono_outcomes(all.take(i as int), MonoWeapon::He)),
            mono_reasons(rejected@) == mono_failures(all.take(i as int)),
        decreases nades.len() - i,
    {
        proof {
            let next = all.take(i + 1);
            assert(next.drop_last() =~= all.take(i as int));
            assert(next.last() == nades[i as int]@);
            let weapon = mono_weapon_of(next.last().weapon);
            if weapon == Some(MonoWeapon::Fire) {
                assert(mono_outcomes(next, MonoWeapon::Fire).drop_last() =~= mono_outcomes(
                    all.take(i as int),
                    MonoWeapon::Fire,
                ));
            }
            if weapon == Some(MonoWeapon::He) {
                assert(mono_outcomes(next, MonoWeapon::He).drop_last() =~= mono_outcomes(
                    all.take(i as int),
                    MonoWeapon::He,
                ));
            }
        }
        match mono_weapon(&nades[i].weapon) {
            None => {},
            Some(weapon) => {
                match nades[i].to_mono() {
                    Ok(v) => {
                        let ghost content = v@;
                        match weapon {
                            MonoWeapon::Fire => {
                                let ghost before = items_view(fire@);
                                fire.push(v);
                                assert(items_view(fire@) =~= before.push(content));
                            },
                            MonoWeapon::He => {
                                let ghost before = items_view(he@);
                                he.push(v);
                                assert(items_view(he@) =~= before.push(content));
                            },
                        }
                    },
                    Err(e) => {
                        let ghost before = mono_reasons(rejected@);
                        rejected.push(e);
                        assert(mono_reasons(rejected@) =~= before.push(e@));
                    },
                }
            },
        }
        i = i + 1;
    }
    assert(all.take(i as int) =~= all);
    MonoBatch { fire, he, rejected }
}

/// Maps the records of one map into the Primordial schema.
pub fn convert_prim(nades: &Vec<Grenade>) -> (r: PrimBatch)
    ensures
        fields_view(r.numbered@) == numbered(successes(prim_outcomes(lineups_view(nades@)))),
        prim_reasons(r.rejected@) == failures(prim_outcomes(lineups_view(nades@))),
{
    let ghost all = prim_outcomes(lineups_view(nades@));
    let mut values: Vec<(String, Value)> = Vec::new();
    let mut rejected: Vec<PrimError> = Vec::new();
    let mut i: usize = 0;
    assert(all.take(0) =~= Seq::empty());
    assert(fields_view(values@) =~= numbered(Seq::empty()));
    assert(prim_reasons(rejected@) =~= Seq::empty());
    while i < nades.len()
        invariant
            i <= nades.len(),
            values.len() <= i,
            all == prim_outcomes(lineups_view(nades@)),
            fields_view(values@) == numbered(successes(all.take(i as int))),
            prim_reasons(rejected@) == failures(all.take(i as int)),
        decreases nades.len() - i,
    {
        proof {
            let next = all.take(i + 1);
            assert(next.drop_last() =~= all.take(i as int));
            assert(next.last() == prim_outcome(nades[i as int]@));
        }
        match nades[i].to_prim() {
            Ok(v) => {
                let ghost before = successes(all.take(i as int));
                let ghost content = v@;
                let ghost fields = fields_view(values@);
                let mut number = String::new();
                append_number(&mut number, values.len() as u64);
                assert(number@ =~= digits_of(values.len() as nat));
                assert(fields.len() == before.len());
                values.push((number, v));
                assert(fields_view(values@) =~= fields.push((number@, content)));
                assert(fields.push((number@, content)) =~= numbered(before.push(content)));
            },
            Err(e) => {
                let ghost before = prim_reasons(rejected@);
                let ghost content = e@;
                rejected.push(e);
                assert(prim_reasons(rejected@) =~= before.push(content));
            },
        }
        i = i + 1;
    }
    assert(all.take(i as int) =~= all);
    PrimBatch { numbered: values, rejected }
}

/// Maps the records of one map into the Kidua schema.
pub fn convert_kidua(nades: &Vec<Grenade>) -> (r: KiduaBatch)
    ensures
        items_view(r.values@) == successes(kidua_outcomes(lineups_view(nades@))),
        kidua_reasons(r.rejected@) == failures(kidua_outcomes(lineups_view(nades@))),
{
    let ghost all = kidua_outcomes(lineups_view(nades@));
    let mut values: Vec<Value> = Vec::new();
    let mut rejected: Vec<KiduaError> = Vec::new();
    let mut i: usize = 0;
    assert(all.take(0) =~= Seq::empty());
    assert(items_view(values@) =~= Seq::empty());
    assert(kidua_reasons(rejected@) =~= Seq::empty());
    while i < nades.len()
        invariant
            i <= nades.len(),
            all == kidua_outcomes(lineups_view(nades@)),
            items_view(values@) == successes(all.take(i as int)),
            kidua_reasons(rejected@) == failures(all.take(i as int)),
        decreases nades.len() - i,
    {
        proof {
            let next = all.take(i + 1);
            assert(next.drop_last() =~= all.take(i as int));
            assert(next.last() == kidua_outcome(nades[i as int]@));
        }
        match nades[i].to_kidua() {
            Ok(v) => {
                let ghost before = items_view(values@);
                let ghost content = v@;
                values.push(v);
                assert(items_view(values@) =~= before.push(content));
            },
            Err(e) => {
                let ghost before = kidua_reasons(rejected@);
                let ghost content = e@;
                rejected.push(e);
                assert(kidua_reasons(rejected@) =~= before.push(content));
            },
        }
        i = i + 1;
    }
    assert(all.take(i as int) =~= all);
    KiduaBatch { values, rejected }
}

} // verus!
