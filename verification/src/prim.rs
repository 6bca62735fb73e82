//! The Primordial schema: throws made out of a run.

use vstd::prelude::*;
use vstd::string::*;
use crate::decimal::{clamped, folded, Decimal, SCALE};
use crate::grenade::{name_of, Grenade, Lineup};
use crate::kidua::{point, point_tree};
use crate::value::{fields_view, put, Tree, Value};

verus! {

/// Why a record has no place in the Primordial schema.
#[derive(Clone, Debug, PartialEq, Eq, Hash)]
pub enum PrimError {
    /// The throw is made standing still.
    NotRunning,
    /// The run is walked.
    RunSpeed,
    /// The throw jumps with nothing held back before the release.
    JumpWithoutDelay,
    /// The thrower is crouched.
    Duck,
    /// The weapon is of none of the four categories.
    UnknownWeapon(String),
}

/// The mathematical content of a `PrimError`.
pub enum PrimReason {
    NotRunning,
    RunSpeed,
    JumpWithoutDelay,
    Duck,
    UnknownWeapon(Seq<char>),
}

impl View for PrimError {
    type V = PrimReason;

    open spec fn view(&self) -> PrimReason {
        match self {
            PrimError::NotRunning => PrimReason::NotRunning,
            PrimError::RunSpeed => PrimReason::RunSpeed,
            PrimError::JumpWithoutDelay => PrimReason::JumpWithoutDelay,
            PrimError::Duck => PrimReason::Duck,
            PrimError::UnknownWeapon(w) => PrimReason::UnknownWeapon(w@),
        }
    }
}

/// What `message` says of a rejection.
pub open spec fn prim_message(e: PrimReason) -> Seq<char> {
    match e {
        PrimReason::NotRunning =>
            "nades not thrown while running are unsupported"@,
        PrimReason::RunSpeed => "run speed is not supported"@,
        PrimReason::JumpWithoutDelay => "jumping without delay unsupported"@,
        PrimReason::Duck => "ducking is not supported"@,
        PrimReason::UnknownWeapon(w) => "unknown weapon: "@ + w,
    }
}

impl PrimError {
    /// The rejection in words.
    pub fn message(&self) -> (r: String)
        ensures
            r@ == prim_message(self@),
    {
        match self {
            PrimError::NotRunning => String::from_str(
                "nades not thrown while running are unsupported",
            ),
            PrimError::RunSpeed => String::from_str("run speed is not supported"),
            PrimError::JumpWithoutDelay => String::from_str(
                "jumping without delay unsupported",
            ),
            PrimError::Duck => String::from_str("ducking is not supported"),
            PrimError::UnknownWeapon(w) => {
                let mut text = String::from_str("unknown weapon: ");
                text.append(w.as_str());
                text
            },
        }
    }
}

/// The four categories of weapon that the schema tells apart.
#[derive(Clone, Copy, Debug, PartialEq, Eq, Hash, Structural)]
pub enum Category {
    Fire,
    Explosive,
    Smoke,
    Flash,
}

/// The category of a weapon: fire for the molotov and the incendiary
/// grenade, explosive for the HE grenade, smoke, flash; none for any other
/// name.
pub open spec fn category_of(weapon: Seq<char>) -> Option<Category> {
    if weapon == "weapon_molotov"@ || weapon == "weapon_incgrenade"@ {
        Some(Category::Fire)
    } else if weapon == "weapon_hegrenade"@ {
        Some(Category::Explosive)
    } else if weapon == "weapon_smokegrenade"@ {
        Some(Category::Smoke)
    } else if weapon == "weapon_flashbang"@ {
        Some(Category::Flash)
    } else {
        None
    }
}

/// The four availability flags of a category: the one of the category is
/// set, the other three are not.
pub open spec fn availability_tree(category: Category) -> Tree {
    Tree::Object(
        seq![
            ("fire"@, Tree::Flag(category == Category::Fire)),
            ("explosive"@, Tree::Flag(category == Category::Explosive)),
            ("smoke"@, Tree::Flag(category == Category::Smoke)),
            ("flash"@, Tree::Flag(category == Category::Flash)),
        ],
    )
}

/// Whether the flag at position `at` is the only one of the four that is
/// set.
pub open spec fn is_only_flag(flags: Seq<(Seq<char>, Tree)>, at: int) -> bool {
    &&& flags.len() == 4
    &&& 0 <= at < 4
    &&& forall|j: int| 0 <= j < 4 ==> (#[trigger] flags[j]).1 == Tree::Flag(j == at)
}

/// Of the four availability flags of a weapon, one is set and three are
/// not.
pub proof fn lemma_one_flag_is_set(category: Category)
    ensures
        exists|at: int| is_only_flag(availability_tree(category)->Object_0, at),
{
    let at: int = match category {
        Category::Fire => 0,
        Category::Explosive => 1,
        Category::Smoke => 2,
        Category::Flash => 3,
    };
    assert(is_only_flag(availability_tree(category)->Object_0, at));
}

/// The tick on which the grenade leaves the hand, counted from the start
/// of the run.
pub open spec fn throw_tick(run: int, delay: int) -> int {
    if delay == 0 {
        run
    } else {
        run + delay - 1
    }
}

/// The Primordial value of a record that the schema has a place for.
pub open spec fn prim_tree(g: Lineup, category: Category) -> Tree {
    Tree::Object(
        seq![
            ("angle"@, Tree::Object(seq![("x"@, Tree::Number(g.pitch)), ("y"@, Tree::Number(g.yaw))])),
            ("availability"@, availability_tree(category)),
            ("delay throw ticks"@, Tree::Number(clamped(throw_tick(g.run, g.delay) * SCALE))),
            ("jump throw"@, Tree::Flag(g.jump)),
            ("jump throw delay ticks"@, Tree::Number(clamped(g.run * SCALE))),
            ("name"@, Tree::Text(name_of(g))),
            ("pos"@, point_tree(g.x, g.y, g.z)),
            ("run direction"@, Tree::Number(folded(clamped(g.yaw + g.run_yaw)))),
            ("run ticks"@, Tree::Number(clamped(g.run * SCALE))),
            ("throw strength"@, Tree::Number(clamped(100 * g.strength))),
        ],
    )
}

/// What the Primordial mapping makes of a record: its value in the
/// schema, or the first condition that the record fails.
pub open spec fn prim_outcome(g: Lineup) -> Result<Tree, PrimReason> {
    if g.run == 0 {
        Err(PrimReason::NotRunning)
    } else if g.run_speed {
        Err(PrimReason::RunSpeed)
    } else if g.jump && g.delay == 0 {
        Err(PrimReason::JumpWithoutDelay)
    } else if g.duck {
        Err(PrimReason::Duck)
    } else {
        match category_of(g.weapon) {
            Some(category) => Ok(prim_tree(g, category)),
            None => Err(PrimReason::UnknownWeapon(g.weapon)),
        }
    }
}

/// The category of a weapon, as `category_of` defines it.
pub fn weapon_category(weapon: &String) -> (r: Option<Category>)
    ensures
        r == category_of(weapon@),
{
    if *weapon == String::from_str("weapon_molotov") || *weapon == String::from_str(
        "weapon_incgrenade",
    ) {
        Some(Category::Fire)
    } else if *weapon == String::from_str("weapon_hegrenade") {
        Some(Category::Explosive)
    } else if *weapon == String::from_str("weapon_smokegrenade") {
        Some(Category::Smoke)
    } else if *weapon == String::from_str("weapon_flashbang") {
        Some(Category::Flash)
    } else {
        None
    }
}

impl Grenade {
    /// The angle folded into `[0, 360)` degrees.
    pub fn normalize_yaw(yaw: Decimal) -> (r: Decimal)
        ensures
            r@ == folded(yaw@),
            0 <= r@ < 360 * SCALE,
    {
        yaw.fold()
    }

    /// The availability flags of the record's weapon, or the rejection of
    /// a weapon of no category.
    pub fn get_availability(&self) -> (r: Result<Value, PrimError>)
        ensures
            match r {
                Ok(v) => category_of(self@.weapon) is Some && v@ == availability_tree(
                    category_of(self@.weapon)->0,
                ),
                Err(e) => category_of(self@.weapon) is None && e@ == PrimReason::UnknownWeapon(
                    self@.weapon,
                ),
            },
    {
        match weapon_category(&self.weapon) {
            Some(category) => {
                let mut fields: Vec<(String, Value)> = Vec::new();
                assert(fields_view(fields@) =~= Seq::empty());
                put(&mut fields, "fire", Value::Flag(category == Category::Fire));
                put(&mut fields, "explosive", Value::Flag(category == Category::Explosive));
                put(&mut fields, "smoke", Value::Flag(category == Category::Smoke));
                put(&mut fields, "flash", Value::Flag(category == Category::Flash));
                assert(fields_view(fields@) =~= availability_tree(category)->Object_0);
                Ok(Value::object(fields))
            },
            None => Err(PrimError::UnknownWeapon(self.weapon.clone())),
        }
    }

    /// Maps the record into the Primordial schema.
    pub fn to_prim(&self) -> (r: Result<Value, PrimError>)
        ensures
            match r {
                Ok(v) => prim_outcome(self@) == Ok::<Tree, PrimReason>(v@),
                Err(e) => prim_outcome(self@) == Err::<Tree, PrimReason>(e@),
            },
    {
        if self.run == 0 {
            return Err(PrimError::NotRunning);
        }
        if self.run_speed {
            return Err(PrimError::RunSpeed);
        }
        if self.jump && self.delay == 0 {
            return Err(PrimError::JumpWithoutDelay);
        }
        if self.duck {
            return Err(PrimError::Duck);
        }
        let throw_delay: i128 = if self.delay == 0 {
            self.run as i128
        } else {
            self.run as i128 + self.delay as i128 - 1
        };
        let availability = match self.get_availability() {
            Ok(v) => v,
            Err(e) => {
                return Err(e);
            },
        };
        let ghost category = category_of(self@.weapon)->0;
        let mut angle: Vec<(String, Value)> = Vec::new();
        assert(fields_view(angle@) =~= Seq::empty());
        put(&mut angle, "x", Value::Number(self.pitch));
        put(&mut angle, "y", Value::Number(self.yaw));
        assert(fields_view(angle@) =~= seq![
            ("x"@, Tree::Number(self@.pitch)),
            ("y"@, Tree::Number(self@.yaw)),
        ]);
        let mut fields: Vec<(String, Value)> = Vec::new();
        assert(fields_view(fields@) =~= Seq::empty());
        put(&mut fields, "angle", Value::object(angle));
        put(&mut fields, "availability", availability);
        put(&mut fields, "delay throw ticks", Value::integer(throw_delay));
        put(&mut fields, "jump throw", Value::Flag(self.jump));
        put(&mut fields, "jump throw delay ticks", Value::integer(self.run as i128));
        put(&mut fields, "name", Value::Text(self.make_name()));
        put(
            &mut fields,
            "pos",
            point(Value::Number(self.x), Value::Number(self.y), Value::Number(self.z)),
        );
        put(
            &mut fields,
            "run direction",
            Value::Number(Grenade::normalize_yaw(self.yaw.plus(&self.run_yaw))),
        );
        put(&mut fields, "run ticks", Value::integer(self.run as i128));
        put(&mut fields, "throw strength", Value::Number(self.strength.hundredfold()));
        assert(fields_view(fields@) =~= prim_tree(self@, category)->Object_0);
        Ok(Value::object(fields))
    }
}

} // verus!
