//! The Mono schema: runs along one of four directions, times in seconds.

use vstd::prelude::*;
use vstd::string::*;
use crate::decimal::{clamped, fraction_part, whole_part, Decimal, SCALE, TICK};
use crate::grenade::{name_of, Grenade, Lineup};
use crate::text::{append_decimal, notation};
use crate::value::{fields_view, put, Tree, Value};

verus! {

/// A run direction may carry a fractional part below this many units,
/// 10^-6, and still count as a whole number of degrees.
pub const YAW_TOLERANCE: u64 = 1_000_000_000_000;

/// Direction of a movement, seen from the look direction.
#[derive(Clone, Copy, Debug, PartialEq, Eq, Hash, Structural)]
pub enum Direction {
    Forward,
    Right,
    Back,
    Left,
}

/// Why a record has no place in the Mono schema.
#[derive(Clone, Copy, Debug, PartialEq, Eq, Hash)]
pub enum MonoError {
    /// The run is walked.
    RunSpeed,
    /// The run direction, held here, is not a whole number of degrees.
    RunYawNotInteger(Decimal),
    /// The angle, held here, is none of the four directions.
    UnknownDirection(Decimal),
}

/// The mathematical content of a `MonoError`.
pub enum MonoReason {
    RunSpeed,
    RunYawNotInteger(int),
    UnknownDirection(int),
}

impl View for MonoError {
    type V = MonoReason;

    open spec fn view(&self) -> MonoReason {
        match self {
            MonoError::RunSpeed => MonoReason::RunSpeed,
            MonoError::RunYawNotInteger(d) => MonoReason::RunYawNotInteger(d@),
            MonoError::UnknownDirection(d) => MonoReason::UnknownDirection(d@),
        }
    }
}

/// What `message` says of a rejection.
pub open spec fn mono_message(e: MonoReason) -> Seq<char> {
    match e {
        MonoReason::RunSpeed => "run speed is not supported"@,
        MonoReason::RunYawNotInteger(u) => "run yaw is non-integer: "@ + notation(u),
        MonoReason::UnknownDirection(u) => "unknown run direction: "@ + notation(u),
    }
}

impl MonoError {
    /// The rejection in words.
    pub fn message(&self) -> (r: String)
        ensures
            r@ == mono_message(self@),
    {
        match self {
            MonoError::RunSpeed => String::from_str("run speed is not supported"),
            MonoError::RunYawNotInteger(d) => {
                let mut text = String::from_str("run yaw is non-integer: ");
                append_decimal(&mut text, *d);
                text
            },
            MonoError::UnknownDirection(d) => {
                let mut text = String::from_str("unknown run direction: ");
                append_decimal(&mut text, *d);
                text
            },
        }
    }
}

/// The direction that a whole number of degrees stands for: 0 is forward,
/// 90 right, 180 and -180 back, -90 left; no other number is a direction.
pub open spec fn direction_of(degrees: int) -> Option<Direction> {
    if degrees == 0 {
        Some(Direction::Forward)
    } else if degrees == 90 {
        Some(Direction::Right)
    } else if degrees == 180 || degrees == -180 {
        Some(Direction::Back)
    } else if degrees == -90 {
        Some(Direction::Left)
    } else {
        None
    }
}

/// The direction of an angle of `u` units: that of its integer part.
pub open spec fn heading(u: int) -> Option<Direction> {
    direction_of(whole_part(u))
}

/// The letter of a direction.
pub open spec fn letter(d: Direction) -> Seq<char> {
    match d {
        Direction::Forward => "f"@,
        Direction::Right => "r"@,
        Direction::Back => "b"@,
        Direction::Left => "l"@,
    }
}

/// `text`, followed by `mark` where `on` holds.
pub open spec fn marked(text: Seq<char>, on: bool, mark: Seq<char>) -> Seq<char> {
    if on {
        text + mark
    } else {
        text
    }
}

/// The weapons that the schema carries.
#[derive(Clone, Copy, Debug, PartialEq, Eq, Hash, Structural)]
pub enum MonoWeapon {
    Fire,
    He,
}

/// The weapon of the schema that a weapon name stands for: fire for the
/// molotov, he for the HE grenade; none for a weapon that the schema does
/// not carry.
pub open spec fn mono_weapon_of(weapon: Seq<char>) -> Option<MonoWeapon> {
    if weapon == "weapon_molotov"@ {
        Some(MonoWeapon::Fire)
    } else if weapon == "weapon_hegrenade"@ {
        Some(MonoWeapon::He)
    } else {
        None
    }
}

/// The short name that the schema files a weapon under.
pub open spec fn short_name(weapon: MonoWeapon) -> Seq<char> {
    match weapon {
        MonoWeapon::Fire => "fire"@,
        MonoWeapon::He => "he"@,
    }
}

/// The Mono value of a record that runs toward `run` and recovers toward
/// `recovery`.
pub open spec fn mono_tree(g: Lineup, run: Direction, recovery: Direction) -> Tree {
    Tree::Object(
        seq![
            ("n"@, Tree::Text(name_of(g))),
            ("x"@, Tree::Number(g.x)),
            ("y"@, Tree::Number(g.y)),
            ("z"@, Tree::Number(g.z)),
            ("yaw"@, Tree::Number(g.yaw)),
            ("pitch"@, Tree::Number(g.pitch)),
            ("st"@, Tree::Number(clamped(whole_part(2 * g.strength) * SCALE))),
            ("tr"@, Tree::Number(g.run * TICK)),
            ("jtt"@, Tree::Number(g.delay * TICK)),
            (
                "rt"@,
                Tree::Number(
                    if recovery == Direction::Forward {
                        0
                    } else {
                        SCALE / 2
                    },
                ),
            ),
            ("m"@, Tree::Text(marked(marked(letter(run), g.jump, "j"@), g.duck, "d"@))),
            ("r"@, Tree::Text(marked(letter(recovery), g.recovery_jump, "j"@))),
        ],
    )
}

/// What the Mono mapping makes of a record: its value in the schema, or
/// the first condition that the record fails.
pub open spec fn mono_outcome(g: Lineup) -> Result<Tree, MonoReason> {
    if g.run_speed {
        Err(MonoReason::RunSpeed)
    } else if fraction_part(g.run_yaw) >= YAW_TOLERANCE {
        Err(MonoReason::RunYawNotInteger(g.run_yaw))
    } else if heading(g.run_yaw) is None {
        Err(MonoReason::UnknownDirection(g.run_yaw))
    } else if heading(g.recovery_yaw) is None {
        Err(MonoReason::UnknownDirection(g.recovery_yaw))
    } else {
        Ok(mono_tree(g, heading(g.run_yaw)->0, heading(g.recovery_yaw)->0))
    }
}

/// The mapping accepts a record exactly if its run is not walked, its run
/// direction is a whole number of degrees up to the tolerance, and its
/// run and recovery angles are directions.
pub proof fn lemma_mono_accepts(g: Lineup)
    ensures
        mono_outcome(g) is Ok <==> !g.run_speed && fraction_part(g.run_yaw) < YAW_TOLERANCE
            && heading(g.run_yaw) is Some && heading(g.recovery_yaw) is Some,
{
}

/// Records of the same content have the same outcome.
pub proof fn lemma_mono_depends_on_content(a: Grenade, b: Grenade)
    requires
        a@ == b@,
    ensures
        mono_outcome(a@) == mono_outcome(b@),
{
}

impl Direction {
    /// The letter of the direction.
    pub fn code(&self) -> (r: &'static str)
        ensures
            r@ == letter(*self),
    {
        match self {
            Direction::Forward => "f",
            Direction::Right => "r",
            Direction::Back => "b",
            Direction::Left => "l",
        }
    }
}

impl MonoWeapon {
    /// The short name of the weapon.
    pub fn name(&self) -> (r: &'static str)
        ensures
            r@ == short_name(*self),
    {
        match self {
            MonoWeapon::Fire => "fire",
            MonoWeapon::He => "he",
        }
    }
}

/// The weapon of the schema that a weapon name stands for, as
/// `mono_weapon_of` defines it.
pub fn mono_weapon(weapon: &String) -> (r: Option<MonoWeapon>)
    ensures
        r == mono_weapon_of(weapon@),
{
    if *weapon == String::from_str("weapon_molotov") {
        Some(MonoWeapon::Fire)
    } else if *weapon == String::from_str("weapon_hegrenade") {
        Some(MonoWeapon::He)
    } else {
        None
    }
}

/// `text` with `mark` appended where `on` holds.
pub fn mark(text: String, on: bool, suffix: &str) -> (r: String)
    ensures
        r@ == marked(text@, on, suffix@),
{
    if on {
        let mut t = text;
        t.append(suffix);
        t
    } else {
        text
    }
}

impl Grenade {
    /// The direction of an angle: that of its integer part, as
    /// `direction_of` defines it. An angle of no direction is handed back
    /// in the rejection.
    pub fn yaw_to_direction(yaw: Decimal) -> (r: Result<Direction, MonoError>)
        ensures
            match r {
                Ok(d) => heading(yaw@) == Some(d),
                Err(e) => heading(yaw@) is None && e@ == MonoReason::UnknownDirection(yaw@),
            },
    {
        let degrees = yaw.whole();
        if degrees == 0 {
            Ok(Direction::Forward)
        } else if degrees == 90 {
            Ok(Direction::Right)
        } else if degrees == 180 || degrees == -180 {
            Ok(Direction::Back)
        } else if degrees == -90 {
            Ok(Direction::Left)
        } else {
            Err(MonoError::UnknownDirection(yaw))
        }
    }

    /// Maps the record into the Mono schema.
    pub fn to_mono(&self) -> (r: Result<Value, MonoError>)
        ensures
            match r {
                Ok(v) => mono_outcome(self@) == Ok::<Tree, MonoReason>(v@),
                Err(e) => mono_outcome(self@) == Err::<Tree, MonoReason>(e@),
            },
    {
        if self.run_speed {
            return Err(MonoError::RunSpeed);
        }
        if self.run_yaw.fraction() >= YAW_TOLERANCE {
            return Err(MonoError::RunYawNotInteger(self.run_yaw));
        }
        let run_direction = match Grenade::yaw_to_direction(self.run_yaw) {
            Ok(d) => d,
            Err(e) => {
                return Err(e);
            },
        };
        let recovery_direction = match Grenade::yaw_to_direction(self.recovery_yaw) {
            Ok(d) => d,
            Err(e) => {
                return Err(e);
            },
        };
        let m = mark(mark(String::from_str(run_direction.code()), self.jump, "j"), self.duck, "d");
        let r = mark(String::from_str(recovery_direction.code()), self.recovery_jump, "j");
        let rt = if recovery_direction == Direction::Forward {
            Decimal::from_units(0)
        } else {
            Decimal::from_units(SCALE / 2)
        };
        let mut fields: Vec<(String, Value)> = Vec::new();
        assert(fields_view(fields@) =~= Seq::empty());
        put(&mut fields, "n", Value::Text(self.make_name()));
        put(&mut fields, "x", Value::Number(self.x));
        put(&mut fields, "y", Value::Number(self.y));
        put(&mut fields, "z", Value::Number(self.z));
        put(&mut fields, "yaw", Value::Number(self.yaw));
        put(&mut fields, "pitch", Value::Number(self.pitch));
        put(&mut fields, "st", Value::integer(self.strength.whole_of_double() as i128));
        put(&mut fields, "tr", Value::Number(Decimal::from_ticks(self.run)));
        put(&mut fields, "jtt", Value::Number(Decimal::from_ticks(self.delay)));
        put(&mut fields, "rt", Value::Number(rt));
        put(&mut fields, "m", Value::Text(m));
        put(&mut fields, "r", Value::Text(r));
        assert(fields_view(fields@) =~= mono_tree(
            self@,
            run_direction,
            recovery_direction,
        )->Object_0);
        Ok(Value::object(fields))
    }
}

} // verus!
