//! The grenade record and the reading of one source entry into it.

use vstd::prelude::*;
use vstd::string::*;
use crate::decimal::{
    clamped, fraction_part, lemma_nearest_whole, lemma_whole_and_fraction, magnitude,
    nearest_whole, Decimal, SCALE,
};
use crate::value::{Tree, Value};

verus! {

/// A run or a delay may be off a whole number by less than this many
/// units, 10^-7, and still count as a whole number of ticks.
pub const TICK_TOLERANCE: u64 = 100_000_000_000;

/// One documented grenade throw.
#[derive(Clone, Debug, PartialEq)]
pub struct Grenade {
    /// Where the throw starts.
    pub from: String,
    /// Where the grenade lands.
    pub to: String,
    /// Console name of the weapon.
    pub weapon: String,
    pub x: Decimal,
    pub y: Decimal,
    pub z: Decimal,
    pub yaw: Decimal,
    pub pitch: Decimal,
    /// Free-text annotation, possibly empty.
    pub description: String,
    /// Whether the thrower has to be fully crouched.
    pub duck: bool,
    /// Throw power, from 0 to 1.
    pub strength: Decimal,
    /// Whether the throw ends the run with a jump.
    pub jump: bool,
    /// Length of the approach run, in ticks.
    pub run: u64,
    /// Direction of the run, in degrees off the look yaw.
    pub run_yaw: Decimal,
    /// Whether the run is walked.
    pub run_speed: bool,
    /// Direction of the movement after the throw, in degrees off the look yaw.
    pub recovery_yaw: Decimal,
    /// Whether the movement after the throw starts with a jump.
    pub recovery_jump: bool,
    /// Ticks to hold before releasing.
    pub delay: u64,
}

/// The mathematical content of a `Grenade`.
pub struct Lineup {
    pub from: Seq<char>,
    pub to: Seq<char>,
    pub weapon: Seq<char>,
    pub x: int,
    pub y: int,
    pub z: int,
    pub yaw: int,
    pub pitch: int,
    pub description: Seq<char>,
    pub duck: bool,
    pub strength: int,
    pub jump: bool,
    pub run: int,
    pub run_yaw: int,
    pub run_speed: bool,
    pub recovery_yaw: int,
    pub recovery_jump: bool,
    pub delay: int,
}

impl View for Grenade {
    type V = Lineup;

    open spec fn view(&self) -> Lineup {
        Lineup {
            from: self.from@,
            to: self.to@,
            weapon: self.weapon@,
            x: self.x@,
            y: self.y@,
            z: self.z@,
            yaw: self.yaw@,
            pitch: self.pitch@,
            description: self.description@,
            duck: self.duck,
            strength: self.strength@,
            jump: self.jump,
            run: self.run as int,
            run_yaw: self.run_yaw@,
            run_speed: self.run_speed,
            recovery_yaw: self.recovery_yaw@,
            recovery_jump: self.recovery_jump,
            delay: self.delay as int,
        }
    }
}

/// Why a source entry is not a grenade record.
#[derive(Clone, Copy, Debug, PartialEq, Eq, Hash, Structural)]
pub enum ParseError {
    NoFrom,
    NoTo,
    NoWeapon,
    NoX,
    NoY,
    NoZ,
    NoYaw,
    NoPitch,
    RunNotInteger,
    RunNegative,
    DelayNotInteger,
    DelayNegative,
}

/// What `message` says of a rejection.
pub open spec fn parse_message(e: ParseError) -> Seq<char> {
    match e {
        ParseError::NoFrom => "no from"@,
        ParseError::NoTo => "no to"@,
        ParseError::NoWeapon => "no weapon"@,
        ParseError::NoX => "no x"@,
        ParseError::NoY => "no y"@,
        ParseError::NoZ => "no z"@,
        ParseError::NoYaw => "no yaw"@,
        ParseError::NoPitch => "no pitch"@,
        ParseError::RunNotInteger => "run is not an integer"@,
        ParseError::RunNegative => "run is negative"@,
        ParseError::DelayNotInteger => "delay is not an integer"@,
        ParseError::DelayNegative => "delay is negative"@,
    }
}

impl ParseError {
    /// The rejection in words.
    pub fn message(&self) -> (r: String)
        ensures
            r@ == parse_message(*self),
    {
        match self {
            ParseError::NoFrom => String::from_str("no from"),
            ParseError::NoTo => String::from_str("no to"),
            ParseError::NoWeapon => String::from_str("no weapon"),
            ParseError::NoX => String::from_str("no x"),
            ParseError::NoY => String::from_str("no y"),
            ParseError::NoZ => String::from_str("no z"),
            ParseError::NoYaw => String::from_str("no yaw"),
            ParseError::NoPitch => String::from_str("no pitch"),
            ParseError::RunNotInteger => String::from_str("run is not an integer"),
            ParseError::RunNegative => String::from_str("run is negative"),
            ParseError::DelayNotInteger => String::from_str("delay is not an integer"),
            ParseError::DelayNegative => String::from_str("delay is negative"),
        }
    }
}

/// The units of a number value, `default` for anything else.
pub open spec fn number_or(t: Tree, default: int) -> int {
    match t.number() {
        Some(u) => u,
        None => default,
    }
}

/// The truth value of a flag, `false` for anything else.
pub open spec fn flag_or_false(t: Tree) -> bool {
    match t.flag() {
        Some(b) => b,
        None => false,
    }
}

/// The characters of a text value, none for anything else.
pub open spec fn text_or_empty(t: Tree) -> Seq<char> {
    match t.text() {
        Some(s) => s,
        None => Seq::empty(),
    }
}

/// Whether `u` units is within the tolerance of a whole number of ticks,
/// from below or from above.
pub open spec fn is_whole_ticks(u: int) -> bool {
    fraction_part(u) < TICK_TOLERANCE || fraction_part(u) > SCALE - TICK_TOLERANCE
}

/// The ticks that `u` units stands for: the nearest whole number.
pub open spec fn ticks_of(u: int) -> int {
    nearest_whole(u)
}

/// What reading the source entry `t` gives: the record, or the first
/// rule that the entry breaks.
pub open spec fn parse_entry(t: Tree) -> Result<Lineup, ParseError> {
    let name = t.field("name"@);
    let position = t.field("position"@);
    let angles = t.field("viewangles"@);
    let g = t.field("grenade"@);
    let run = number_or(g.field("run"@), 0);
    let delay = number_or(g.field("delay"@), 0);
    let run_yaw = number_or(g.field("run_yaw"@), 0);
    if name.item(0).text() is None {
        Err(ParseError::NoFrom)
    } else if name.item(1).text() is None {
        Err(ParseError::NoTo)
    } else if t.field("weapon"@).text() is None {
        Err(ParseError::NoWeapon)
    } else if position.item(0).number() is None {
        Err(ParseError::NoX)
    } else if position.item(1).number() is None {
        Err(ParseError::NoY)
    } else if position.item(2).number() is None {
        Err(ParseError::NoZ)
    } else if angles.item(1).number() is None {
        Err(ParseError::NoYaw)
    } else if angles.item(0).number() is None {
        Err(ParseError::NoPitch)
    } else if !is_whole_ticks(run) {
        Err(ParseError::RunNotInteger)
    } else if run < 0 {
        Err(ParseError::RunNegative)
    } else if !is_whole_ticks(delay) {
        Err(ParseError::DelayNotInteger)
    } else if delay < 0 {
        Err(ParseError::DelayNegative)
    } else {
        Ok(
            Lineup {
                from: name.item(0).text()->0,
                to: name.item(1).text()->0,
                weapon: t.field("weapon"@).text()->0,
                x: position.item(0).number()->0,
                y: position.item(1).number()->0,
                z: position.item(2).number()->0,
                yaw: angles.item(1).number()->0,
                pitch: angles.item(0).number()->0,
                description: text_or_empty(t.field("description"@)),
                duck: flag_or_false(t.field("duck"@)),
                strength: number_or(g.field("strength"@), SCALE as int),
                jump: flag_or_false(g.field("jump"@)),
                run: ticks_of(run),
                run_yaw: run_yaw,
                run_speed: flag_or_false(g.field("run_speed"@)),
                recovery_yaw: number_or(
                    g.field("recovery_yaw"@),
                    clamped(run_yaw - 180 * SCALE),
                ),
                recovery_jump: flag_or_false(g.field("recovery_jump"@)),
                delay: ticks_of(delay),
            },
        )
    }
}

/// Whether the entry names its two places and its weapon and gives its
/// three coordinates and its two angles.
pub open spec fn is_complete(t: Tree) -> bool {
    &&& t.field("name"@).item(0).text() is Some
    &&& t.field("name"@).item(1).text() is Some
    &&& t.field("weapon"@).text() is Some
    &&& t.field("position"@).item(0).number() is Some
    &&& t.field("position"@).item(1).number() is Some
    &&& t.field("position"@).item(2).number() is Some
    &&& t.field("viewangles"@).item(0).number() is Some
    &&& t.field("viewangles"@).item(1).number() is Some
}

/// The run that the entry asks for, in units; zero where it names none.
pub open spec fn run_of(t: Tree) -> int {
    number_or(t.field("grenade"@).field("run"@), 0)
}

/// The delay that the entry asks for, in units; zero where it names none.
pub open spec fn delay_of(t: Tree) -> int {
    number_or(t.field("grenade"@).field("delay"@), 0)
}

/// A complete entry whose run and delay are within the tolerance of a
/// whole number and not negative is read, and the record holds what the
/// entry holds: the texts, numbers and flags of the entry as they are,
/// for run and delay the nearest whole number, and the stated default for
/// each field that the entry leaves out.
pub proof fn lemma_parse_accepts(t: Tree)
    requires
        is_complete(t),
        is_whole_ticks(run_of(t)) && run_of(t) >= 0,
        is_whole_ticks(delay_of(t)) && delay_of(t) >= 0,
    ensures
        parse_entry(t) matches Ok(g) && {
            &&& t.field("name"@).item(0) == Tree::Text(g.from)
            &&& t.field("name"@).item(1) == Tree::Text(g.to)
            &&& t.field("weapon"@) == Tree::Text(g.weapon)
            &&& t.field("position"@).item(0) == Tree::Number(g.x)
            &&& t.field("position"@).item(1) == Tree::Number(g.y)
            &&& t.field("position"@).item(2) == Tree::Number(g.z)
            &&& t.field("viewangles"@).item(0) == Tree::Number(g.pitch)
            &&& t.field("viewangles"@).item(1) == Tree::Number(g.yaw)
            &&& g.description == text_or_empty(t.field("description"@))
            &&& g.duck == flag_or_false(t.field("duck"@))
            &&& g.strength == number_or(t.field("grenade"@).field("strength"@), SCALE as int)
            &&& g.jump == flag_or_false(t.field("grenade"@).field("jump"@))
            &&& g.run == nearest_whole(run_of(t))
            &&& g.run_yaw == number_or(t.field("grenade"@).field("run_yaw"@), 0)
            &&& g.run_speed == flag_or_false(t.field("grenade"@).field("run_speed"@))
            &&& g.recovery_yaw == number_or(
                t.field("grenade"@).field("recovery_yaw"@),
                clamped(g.run_yaw - 180 * SCALE),
            )
            &&& g.recovery_jump == flag_or_false(t.field("grenade"@).field("recovery_jump"@))
            &&& g.delay == nearest_whole(delay_of(t))
        },
{
}

/// An entry is read exactly if it is complete and its run and its delay
/// are within the tolerance of a whole number and not negative.
pub proof fn lemma_parse_accepts_exactly(t: Tree)
    ensures
        parse_entry(t) is Ok <==> is_complete(t) && is_whole_ticks(run_of(t)) && run_of(t) >= 0
            && is_whole_ticks(delay_of(t)) && delay_of(t) >= 0,
{
}

/// The ticks of a number within the tolerance of a whole number are that
/// whole number: they are off the number by less than the tolerance, and
/// no other whole number is.
pub proof fn lemma_ticks_are_within_tolerance(u: int, n: int)
    requires
        is_whole_ticks(u),
    ensures
        magnitude(u - ticks_of(u) * SCALE) < TICK_TOLERANCE,
        magnitude(u - n * SCALE) < TICK_TOLERANCE ==> n == ticks_of(u),
{
    lemma_whole_and_fraction(u);
    lemma_nearest_whole(u);
    let k = ticks_of(u);
    if magnitude(u - n * SCALE) < TICK_TOLERANCE && n != k {
        assert(magnitude((n - k) * SCALE) >= SCALE) by (nonlinear_arith)
            requires
                n != k,
                SCALE > 0,
        ;
        assert((n - k) * SCALE == n * SCALE - k * SCALE) by (nonlinear_arith);
    }
}

/// A run or a delay that a complete entry gives as a whole number of
/// ticks is the record's run or delay.
pub proof fn lemma_parse_keeps_whole_ticks(t: Tree, run: int, delay: int)
    requires
        is_complete(t),
        0 <= run,
        0 <= delay,
        run_of(t) == run * SCALE,
        delay_of(t) == delay * SCALE,
    ensures
        parse_entry(t) matches Ok(g) && g.run == run && g.delay == delay,
{
    assert(run * SCALE >= 0 && delay * SCALE >= 0) by (nonlinear_arith)
        requires
            run >= 0,
            delay >= 0,
            SCALE > 0,
    ;
    lemma_whole_is_whole(run);
    lemma_whole_is_whole(delay);
}

/// A whole number of ticks is within the tolerance of itself.
proof fn lemma_whole_is_whole(n: int)
    requires
        n >= 0,
    ensures
        is_whole_ticks(n * SCALE),
        ticks_of(n * SCALE) == n,
{
    assert(n * SCALE >= 0) by (nonlinear_arith)
        requires
            n >= 0,
            SCALE > 0,
    ;
    assert((n * SCALE) % (SCALE as int) == 0) by (nonlinear_arith)
        requires
            SCALE > 0,
    ;
    assert(is_whole_ticks(n * SCALE));
    lemma_ticks_are_within_tolerance(n * SCALE, n);
}

/// An entry whose run or delay is not within the tolerance of a whole
/// number, or is negative, is turned down. Where the entry is complete,
/// it is turned down for that: for its run, or, with the run in order,
/// for its delay; for being off a whole number before being negative.
pub proof fn lemma_parse_rejects(t: Tree)
    ensures
        !(is_whole_ticks(run_of(t)) && run_of(t) >= 0 && is_whole_ticks(delay_of(t)) && delay_of(t)
            >= 0) ==> parse_entry(t) is Err,
        is_complete(t) && !is_whole_ticks(run_of(t)) ==> parse_entry(t) == Err::<
            Lineup,
            ParseError,
        >(ParseError::RunNotInteger),
        is_complete(t) && is_whole_ticks(run_of(t)) && run_of(t) < 0 ==> parse_entry(t) == Err::<
            Lineup,
            ParseError,
        >(ParseError::RunNegative),
        is_complete(t) && is_whole_ticks(run_of(t)) && run_of(t) >= 0 && !is_whole_ticks(
            delay_of(t),
        ) ==> parse_entry(t) == Err::<Lineup, ParseError>(ParseError::DelayNotInteger),
        is_complete(t) && is_whole_ticks(run_of(t)) && run_of(t) >= 0 && is_whole_ticks(
            delay_of(t),
        ) && delay_of(t) < 0 ==> parse_entry(t) == Err::<Lineup, ParseError>(
            ParseError::DelayNegative,
        ),
{
}

/// The run and the delay of every record that is read are not negative.
pub proof fn lemma_parsed_ticks_are_natural(t: Tree)
    ensures
        parse_entry(t) matches Ok(g) ==> 0 <= g.run && 0 <= g.delay,
{
    lemma_nearest_whole(run_of(t));
    lemma_nearest_whole(delay_of(t));
}

/// The display name of a throw: where it lands, followed by the
/// description in round brackets where there is one.
pub open spec fn name_of(g: Lineup) -> Seq<char> {
    if g.description.len() == 0 {
        g.to
    } else {
        g.to + " ("@ + g.description + ")"@
    }
}

/// The number held by `v`, `default` where `v` is not a number.
pub fn number_or_default(v: &Value, default: Decimal) -> (r: Decimal)
    ensures
        r@ == number_or(v@, default@),
{
    match v.as_number() {
        Some(d) => d,
        None => default,
    }
}

/// The flag held by `v`, `false` where `v` is not a flag.
pub fn flag_or_default(v: &Value) -> (r: bool)
    ensures
        r == flag_or_false(v@),
{
    match v.as_flag() {
        Some(b) => b,
        None => false,
    }
}

/// Whether the number is within the tolerance of a whole number of ticks,
/// as `is_whole_ticks` defines it.
pub fn is_whole(d: &Decimal) -> (r: bool)
    ensures
        r == is_whole_ticks(d@),
{
    let fraction = d.fraction();
    fraction < TICK_TOLERANCE || fraction > (SCALE as u64) - TICK_TOLERANCE
}

impl Grenade {
    /// The record with empty labels, all numbers zero, all flags off and
    /// full strength.
    pub fn new() -> (r: Grenade)
        ensures
            r@.from.len() == 0,
            r@.to.len() == 0,
            r@.weapon.len() == 0,
            r@.description.len() == 0,
            r@.x == 0 && r@.y == 0 && r@.z == 0 && r@.yaw == 0 && r@.pitch == 0,
            r@.strength == SCALE,
            r@.run == 0 && r@.delay == 0 && r@.run_yaw == 0 && r@.recovery_yaw == 0,
            !r@.duck && !r@.jump && !r@.run_speed && !r@.recovery_jump,
    {
        Grenade {
            from: String::new(),
            to: String::new(),
            weapon: String::new(),
            x: Decimal::from_integer(0),
            y: Decimal::from_integer(0),
            z: Decimal::from_integer(0),
            yaw: Decimal::from_integer(0),
            pitch: Decimal::from_integer(0),
            description: String::new(),
            duck: false,
            strength: Decimal::from_integer(1),
            jump: false,
            run: 0,
            run_yaw: Decimal::from_integer(0),
            run_speed: false,
            recovery_yaw: Decimal::from_integer(0),
            recovery_jump: false,
            delay: 0,
        }
    }

    /// Reads one source entry. The result is the record that `parse_entry`
    /// describes, or the first rule that the entry breaks.
    pub fn from_gs_json(json: &Value) -> (r: Result<Grenade, ParseError>)
        ensures
            match r {
                Ok(g) => parse_entry(json@) == Ok::<Lineup, ParseError>(g@),
                Err(e) => parse_entry(json@) == Err::<Lineup, ParseError>(e),
            },
    {
        let mut grenade = Grenade::new();
        let name = json.field("name");
        let position = json.field("position");
        let angles = json.field("viewangles");
        let throw = json.field("grenade");
        match name.item(0).as_text() {
            Some(s) => {
                grenade.from = s.clone();
            },
            None => {
                return Err(ParseError::NoFrom);
            },
        }
        match name.item(1).as_text() {
            Some(s) => {
                grenade.to = s.clone();
            },
            None => {
                return Err(ParseError::NoTo);
            },
        }
        match json.field("description").as_text() {
            Some(s) => {
                grenade.description = s.clone();
            },
            None => {},
        }
        match json.field("weapon").as_text() {
            Some(s) => {
                grenade.weapon = s.clone();
            },
            None => {
                return Err(ParseError::NoWeapon);
            },
        }
        match position.item(0).as_number() {
            Some(d) => {
                grenade.x = d;
            },
            None => {
                return Err(ParseError::NoX);
            },
        }
        match position.item(1).as_number() {
            Some(d) => {
                grenade.y = d;
            },
            None => {
                return Err(ParseError::NoY);
            },
        }
        match position.item(2).as_number() {
            Some(d) => {
                grenade.z = d;
            },
            None => {
                return Err(ParseError::NoZ);
            },
        }
        match angles.item(1).as_number() {
            Some(d) => {
                grenade.yaw = d;
            },
            None => {
                return Err(ParseError::NoYaw);
            },
        }
        match angles.item(0).as_number() {
            Some(d) => {
                grenade.pitch = d;
            },
            None => {
                return Err(ParseError::NoPitch);
            },
        }
        grenade.duck = flag_or_default(json.field("duck"));
        grenade.strength = number_or_default(throw.field("strength"), Decimal::from_integer(1));
        grenade.jump = flag_or_default(throw.field("jump"));
        let run = number_or_default(throw.field("run"), Decimal::from_integer(0));
        if !is_whole(&run) {
            return Err(ParseError::RunNotInteger);
        } else if run.is_negative() {
            return Err(ParseError::RunNegative);
        } else {
            proof {
                lemma_nearest_whole(run@);
            }
            grenade.run = run.nearest() as u64;
        }
        grenade.run_yaw = number_or_default(throw.field("run_yaw"), Decimal::from_integer(0));
        grenade.run_speed = flag_or_default(throw.field("run_speed"));
        grenade.recovery_yaw = number_or_default(
            throw.field("recovery_yaw"),
            grenade.run_yaw.minus(&Decimal::from_integer(180)),
        );
        grenade.recovery_jump = flag_or_default(throw.field("recovery_jump"));
        let delay = number_or_default(throw.field("delay"), Decimal::from_integer(0));
        if !is_whole(&delay) {
            return Err(ParseError::DelayNotInteger);
        } else if delay.is_negative() {
            return Err(ParseError::DelayNegative);
        } else {
            proof {
                lemma_nearest_whole(delay@);
            }
            grenade.delay = delay.nearest() as u64;
        }
        proof {
            assert(grenade@.description =~= text_or_empty(json@.field("description"@)));
            assert(grenade@ == parse_entry(json@)->Ok_0);
        }
        Ok(grenade)
    }

    /// The display name, as `name_of` defines it.
    pub fn make_name(&self) -> (r: String)
        ensures
            r@ == name_of(self@),
    {
        if self.description.as_str().is_empty() {
            self.to.clone()
        } else {
            let mut name = self.to.clone();
            name.append(" (");
            name.append(self.description.as_str());
            name.append(")");
            name
        }
    }

    /// Whether the two records agree in every field.
    pub fn same_as(&self, other: &Grenade) -> (r: bool)
        ensures
            r == (self@ == other@),
    {
        self.from == other.from && self.to == other.to && self.weapon == other.weapon
            && self.x.same(&other.x) && self.y.same(&other.y) && self.z.same(&other.z)
            && self.yaw.same(&other.yaw) && self.pitch.same(&other.pitch) && self.description
            == other.description && self.duck == other.duck && self.strength.same(&other.strength)
            && self.jump == other.jump && self.run == other.run && self.run_yaw.same(
            &other.run_yaw,
        ) && self.run_speed == other.run_speed && self.recovery_yaw.same(&other.recovery_yaw)
            && self.recovery_jump == other.recovery_jump && self.delay == other.delay
    }

    /// A copy of the record.
    pub fn duplicate(&self) -> (r: Grenade)
        ensures
            r == *self,
            r@ == self@,
    {
        Grenade {
            from: self.from.clone(),
            to: self.to.clone(),
            weapon: self.weapon.clone(),
            x: self.x,
            y: self.y,
            z: self.z,
            yaw: self.yaw,
            pitch: self.pitch,
            description: self.description.clone(),
            duck: self.duck,
            strength: self.strength,
            jump: self.jump,
            run: self.run,
            run_yaw: self.run_yaw,
            run_speed: self.run_speed,
            recovery_yaw: self.recovery_yaw,
            recovery_jump: self.recovery_jump,
            delay: self.delay,
        }
    }
}

} // verus!
