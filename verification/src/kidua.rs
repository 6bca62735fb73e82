//! The Kidua schema: instant throws only, the weapon as a number.

use vstd::prelude::*;
use vstd::string::*;
use crate::decimal::SCALE;
use crate::grenade::{name_of, Grenade, Lineup};
use crate::value::{fields_view, put, Tree, Value};

verus! {

/// Why a record has no place in the Kidua schema.
#[derive(Clone, Debug, PartialEq, Eq, Hash)]
pub enum KiduaError {
    /// The throw has an approach run.
    Run,
    /// The throw is held back before the release.
    Delay,
    /// The schema has no number for this weapon.
    Weapon(String),
}

/// The mathematical content of a `KiduaError`.
pub enum KiduaReason {
    Run,
    Delay,
    Weapon(Seq<char>),
}

impl View for KiduaError {
    type V = KiduaReason;

    open spec fn view(&self) -> KiduaReason {
        match self {
            KiduaError::Run => KiduaReason::Run,
            KiduaError::Delay => KiduaReason::Delay,
            KiduaError::Weapon(w) => KiduaReason::Weapon(w@),
        }
    }
}

/// What `message` says of a rejection.
pub open spec fn kidua_message(e: KiduaReason) -> Seq<char> {
    match e {
        KiduaReason::Run => "Run is not supported"@,
        KiduaReason::Delay => "Delay is not supported"@,
        KiduaReason::Weapon(w) => "Weapon "@ + w + " is not supported"@,
    }
}

impl KiduaError {
    /// The rejection in words.
    pub fn message(&self) -> (r: String)
        ensures
            r@ == kidua_message(self@),
    {
        match self {
            KiduaError::Run => String::from_str("Run is not supported"),
            KiduaError::Delay => String::from_str("Delay is not supported"),
            KiduaError::Weapon(w) => {
                let mut text = String::from_str("Weapon ");
                text.append(w.as_str());
                text.append(" is not supported");
                text
            },
        }
    }
}

/// The number that the schema gives a weapon: its place in the list
/// flashbang, HE grenade, smoke grenade, molotov.
pub open spec fn kidua_code(weapon: Seq<char>) -> Option<int> {
    if weapon == "weapon_flashbang"@ {
        Some(0)
    } else if weapon == "weapon_hegrenade"@ {
        Some(1)
    } else if weapon == "weapon_smokegrenade"@ {
        Some(2)
    } else if weapon == "weapon_molotov"@ {
        Some(3)
    } else {
        None
    }
}

/// The four weapons of the schema have the numbers 0 to 3, each its own,
/// and no other weapon has a number.
pub proof fn lemma_kidua_codes()
    ensures
        kidua_code("weapon_flashbang"@) == Some(0int),
        kidua_code("weapon_hegrenade"@) == Some(1int),
        kidua_code("weapon_smokegrenade"@) == Some(2int),
        kidua_code("weapon_molotov"@) == Some(3int),
        forall|w: Seq<char>| #[trigger]
            kidua_code(w) is Some ==> w == "weapon_flashbang"@ || w == "weapon_hegrenade"@ || w
                == "weapon_smokegrenade"@ || w == "weapon_molotov"@,
        forall|a: Seq<char>, b: Seq<char>|
            kidua_code(a) is Some && #[trigger] kidua_code(a) == #[trigger] kidua_code(b) ==> a
                == b,
{
    reveal_strlit("weapon_flashbang");
    reveal_strlit("weapon_hegrenade");
    reveal_strlit("weapon_smokegrenade");
    reveal_strlit("weapon_molotov");
    assert("weapon_flashbang"@.len() == 16);
    assert("weapon_hegrenade"@[7] == 'h');
    assert("weapon_flashbang"@[7] == 'f');
    assert("weapon_smokegrenade"@.len() == 19);
    assert("weapon_molotov"@.len() == 14);
}

/// A point in space as an object of `x`, `y` and `z`.
pub open spec fn point_tree(x: int, y: int, z: int) -> Tree {
    Tree::Object(seq![("x"@, Tree::Number(x)), ("y"@, Tree::Number(y)), ("z"@, Tree::Number(z))])
}

/// The Kidua value of a record that the schema has a place for.
pub open spec fn kidua_tree(g: Lineup, code: int) -> Tree {
    Tree::Object(
        seq![
            ("spot"@, Tree::Text(name_of(g))),
            ("origin"@, point_tree(g.x, g.y, g.z)),
            ("view"@, point_tree(g.pitch, g.yaw, 0)),
            ("nade"@, Tree::Number(code * SCALE)),
        ],
    )
}

/// What the Kidua mapping makes of a record: its value in the schema,
/// or the first condition that the record fails.
pub open spec fn kidua_outcome(g: Lineup) -> Result<Tree, KiduaReason> {
    if g.run != 0 {
        Err(KiduaReason::Run)
    } else if g.delay != 0 {
        Err(KiduaReason::Delay)
    } else {
        match kidua_code(g.weapon) {
            Some(code) => Ok(kidua_tree(g, code)),
            None => Err(KiduaReason::Weapon(g.weapon)),
        }
    }
}

/// The tags that describe how a throw is made: `jump` for a jump throw,
/// `duck` for a crouched one, then `right` for a throw of no strength and
/// `right+left` for one of half strength. The schema has no field for
/// them.
pub open spec fn tags_of(g: Lineup) -> Seq<Seq<char>> {
    let jump = if g.jump {
        seq!["jump"@]
    } else {
        Seq::empty()
    };
    let duck = if g.duck {
        seq!["duck"@]
    } else {
        Seq::empty()
    };
    let button = if g.strength == 0 {
        seq!["right"@]
    } else if g.strength * 2 == SCALE {
        seq!["right+left"@]
    } else {
        Seq::empty()
    };
    jump + duck + button
}

/// The content of a sequence of texts.
pub open spec fn texts_view(s: Seq<String>) -> Seq<Seq<char>> {
    Seq::new(s.len(), |i: int| s[i]@)
}

/// The number of a weapon, as `kidua_code` defines it.
pub fn weapon_code(weapon: &String) -> (r: Option<u8>)
    ensures
        match r {
            Some(c) => kidua_code(weapon@) == Some(c as int),
            None => kidua_code(weapon@) is None,
        },
{
    if *weapon == String::from_str("weapon_flashbang") {
        Some(0)
    } else if *weapon == String::from_str("weapon_hegrenade") {
        Some(1)
    } else if *weapon == String::from_str("weapon_smokegrenade") {
        Some(2)
    } else if *weapon == String::from_str("weapon_molotov") {
        Some(3)
    } else {
        None
    }
}

/// The object `{x, y, z}`.
pub fn point(x: Value, y: Value, z: Value) -> (r: Value)
    ensures
        r@ == Tree::Object(seq![("x"@, x@), ("y"@, y@), ("z"@, z@)]),
{
    let mut fields: Vec<(String, Value)> = Vec::new();
    assert(fields_view(fields@) =~= Seq::empty());
    put(&mut fields, "x", x);
    put(&mut fields, "y", y);
    put(&mut fields, "z", z);
    assert(fields_view(fields@) =~= seq![("x"@, x@), ("y"@, y@), ("z"@, z@)]);
    Value::object(fields)
}

impl Grenade {
    /// The tags of the throw, as `tags_of` defines them.
    pub fn tags(&self) -> (r: Vec<String>)
        ensures
            texts_view(r@) == tags_of(self@),
    {
        let mut tags: Vec<String> = Vec::new();
        if self.jump {
            tags.push(String::from_str("jump"));
        }
        if self.duck {
            tags.push(String::from_str("duck"));
        }
        if self.strength.units() == 0 {
            tags.push(String::from_str("right"));
        } else if self.strength.units() == SCALE / 2 {
            tags.push(String::from_str("right+left"));
        }
        assert(texts_view(tags@) =~= tags_of(self@));
        tags
    }

    /// Maps the record into the Kidua schema.
    pub fn to_kidua(&self) -> (r: Result<Value, KiduaError>)
        ensures
            match r {
                Ok(v) => kidua_outcome(self@) == Ok::<Tree, KiduaReason>(v@),
                Err(e) => kidua_outcome(self@) == Err::<Tree, KiduaReason>(e@),
            },
    {
        if self.run != 0 {
            return Err(KiduaError::Run);
        }
        if self.delay != 0 {
            return Err(KiduaError::Delay);
        }
        let code = match weapon_code(&self.weapon) {
            Some(c) => c,
            None => {
                return Err(KiduaError::Weapon(self.weapon.clone()));
            },
        };
        let mut fields: Vec<(String, Value)> = Vec::new();
        assert(fields_view(fields@) =~= Seq::empty());
        put(&mut fields, "spot", Value::Text(self.make_name()));
        put(
            &mut fields,
            "origin",
            point(Value::Number(self.x), Value::Number(self.y), Value::Number(self.z)),
        );
        put(
            &mut fields,
            "view",
            point(Value::Number(self.pitch), Value::Number(self.yaw), Value::integer(0)),
        );
        put(&mut fields, "nade", Value::integer(code as i128));
        assert(fields_view(fields@) =~= kidua_tree(self@, code as int)->Object_0);
        Ok(Value::object(fields))
    }
}

} // verus!
