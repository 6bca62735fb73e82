use nade_converter::mono::{mono_weapon, MonoWeapon};
use nade_converter::{parse_document, Decimal, Direction, Grenade, MonoError, Value};

fn nade(text: &str) -> Grenade {
    Grenade::from_gs_json(&parse_document(text).unwrap()).unwrap()
}

fn running(grenade: &str) -> Grenade {
    nade(&format!(
        r#"{{"name": ["A", "B"], "weapon": "weapon_hegrenade", "position": [0, 0, 0], "viewangles": [0, 90], "duck": false, "grenade": {}}}"#,
        grenade
    ))
}

fn number(n: i128) -> Value {
    Value::Number(Decimal::from_integer(n))
}

fn text(s: &str) -> Value {
    Value::Text(s.to_string())
}

fn half() -> Value {
    Value::Number(Decimal::from_parts(true, 5, -1))
}

#[test]
fn mono_maps_a_run_to_the_right() {
    let g = running(r#"{"strength": 1.0, "run": 64, "run_yaw": 90, "delay": 0, "jump": false}"#);
    let out = g.to_mono().unwrap();
    let expected = Value::Object(vec![
        ("n".to_string(), text("B")),
        ("x".to_string(), number(0)),
        ("y".to_string(), number(0)),
        ("z".to_string(), number(0)),
        ("yaw".to_string(), number(90)),
        ("pitch".to_string(), number(0)),
        ("st".to_string(), number(2)),
        ("tr".to_string(), number(1)),
        ("jtt".to_string(), number(0)),
        ("rt".to_string(), half()),
        ("m".to_string(), text("r")),
        ("r".to_string(), text("l")),
    ]);
    assert_eq!(out, expected);
}

#[test]
fn mono_rejects_an_angle_off_the_four_directions() {
    let g = running(r#"{"run": 64, "run_yaw": 45}"#);
    let e = g.to_mono().unwrap_err();
    assert_eq!(e, MonoError::UnknownDirection(Decimal::from_integer(45)));
    assert_eq!(e.message(), "unknown run direction: 45");
}

#[test]
fn mono_rejects_a_recovery_off_the_four_directions() {
    let g = running(r#"{"run_yaw": 180, "recovery_yaw": 270}"#);
    assert_eq!(g.to_mono(), Err(MonoError::UnknownDirection(Decimal::from_integer(270))));
    let g = running(r#"{"run_yaw": -90}"#);
    assert_eq!(g.to_mono(), Err(MonoError::UnknownDirection(Decimal::from_integer(-270))));
}

#[test]
fn mono_rejects_a_walked_run_first() {
    let g = running(r#"{"run_speed": true, "run_yaw": 45.5}"#);
    let e = g.to_mono().unwrap_err();
    assert_eq!(e, MonoError::RunSpeed);
    assert_eq!(e.message(), "run speed is not supported");
}

#[test]
fn mono_rejects_a_run_direction_that_is_not_whole() {
    let g = running(r#"{"run_yaw": 90.5}"#);
    let e = g.to_mono().unwrap_err();
    assert_eq!(e, MonoError::RunYawNotInteger(Decimal::from_parts(true, 905, -1)));
    assert_eq!(e.message(), "run yaw is non-integer: 90.5");
    let g = running(r#"{"run_yaw": 90.000001}"#);
    assert_eq!(
        g.to_mono(),
        Err(MonoError::RunYawNotInteger(Decimal::from_parts(true, 90000001, -6)))
    );
    let g = running(r#"{"run_yaw": -0.5}"#);
    assert_eq!(g.to_mono(), Err(MonoError::RunYawNotInteger(Decimal::from_parts(false, 5, -1))));
}

#[test]
fn mono_accepts_a_run_direction_within_the_tolerance() {
    let g = running(r#"{"run_yaw": 90.0000009, "recovery_yaw": 0}"#);
    let out = g.to_mono().unwrap();
    assert_eq!(out.field("m"), &text("r"));
    let g = running(r#"{"run_yaw": 0.0000001, "recovery_yaw": 180}"#);
    let out = g.to_mono().unwrap();
    assert_eq!(out.field("m"), &text("f"));
}

#[test]
fn mono_takes_the_whole_degrees_of_the_recovery() {
    let g = running(r#"{"run_yaw": 0, "recovery_yaw": 90.7}"#);
    let out = g.to_mono().unwrap();
    assert_eq!(out.field("r"), &text("r"));
    let g = running(r#"{"run_yaw": 0, "recovery_yaw": -0.9}"#);
    let out = g.to_mono().unwrap();
    assert_eq!(out.field("r"), &text("f"));
    assert_eq!(out.field("rt"), &number(0));
}

#[test]
fn mono_reads_the_direction_off_the_table() {
    let table = [
        (0, Direction::Forward, "f"),
        (90, Direction::Right, "r"),
        (180, Direction::Back, "b"),
        (-90, Direction::Left, "l"),
        (-180, Direction::Back, "b"),
    ];
    for (degrees, direction, code) in table {
        assert_eq!(Grenade::yaw_to_direction(Decimal::from_integer(degrees)), Ok(direction));
        assert_eq!(direction.code(), code);
    }
    for degrees in [1, -1, 89, 91, 270, -270, 360, 179, -179, 45, 1_000_000] {
        let yaw = Decimal::from_integer(degrees);
        assert_eq!(Grenade::yaw_to_direction(yaw), Err(MonoError::UnknownDirection(yaw)));
    }
}

#[test]
fn mono_marks_jump_and_duck() {
    let cases = [
        (false, false, false, "b", "f"),
        (true, false, false, "bj", "f"),
        (false, true, false, "bd", "f"),
        (true, true, false, "bjd", "f"),
        (false, false, true, "b", "fj"),
        (true, true, true, "bjd", "fj"),
    ];
    for (jump, duck, recovery_jump, m, r) in cases {
        let mut g = running(r#"{"run_yaw": 180}"#);
        g.jump = jump;
        g.duck = duck;
        g.recovery_jump = recovery_jump;
        let out = g.to_mono().unwrap();
        assert_eq!(out.field("m"), &text(m));
        assert_eq!(out.field("r"), &text(r));
    }
}

#[test]
fn mono_rests_only_after_a_recovery_that_is_not_forward() {
    for (recovery, rt) in [(0, number(0)), (90, half()), (180, half()), (-90, half()), (-180, half())]
    {
        let mut g = running(r#"{"run_yaw": 0}"#);
        g.recovery_yaw = Decimal::from_integer(recovery);
        assert_eq!(g.to_mono().unwrap().field("rt"), &rt);
    }
    let mut g = running(r#"{"run_yaw": 180}"#);
    g.recovery_jump = true;
    assert_eq!(g.to_mono().unwrap().field("rt"), &number(0));
}

#[test]
fn mono_gives_times_in_seconds() {
    let g = running(r#"{"run": 12, "delay": 5}"#);
    let out = g.to_mono().unwrap();
    assert_eq!(out.field("tr"), &Value::Number(Decimal::from_parts(true, 1875, -4)));
    assert_eq!(out.field("jtt"), &Value::Number(Decimal::from_parts(true, 78125, -6)));
    let g = running(r#"{"run": 128, "delay": 32}"#);
    let out = g.to_mono().unwrap();
    assert_eq!(out.field("tr"), &number(2));
    assert_eq!(out.field("jtt"), &half());
}

#[test]
fn mono_doubles_the_strength_and_drops_the_fraction() {
    for (strength, st) in [("1.0", 2), ("0.5", 1), ("0", 0), ("0.49", 0), ("0.75", 1), ("2.6", 5)] {
        let g = running(&format!(r#"{{"strength": {}}}"#, strength));
        assert_eq!(g.to_mono().unwrap().field("st"), &number(st), "{}", strength);
    }
}

#[test]
fn mono_names_the_throw_with_its_description() {
    let g = nade(
        r#"{"name": ["A", "B"], "description": "one-way", "weapon": "weapon_molotov", "position": [1, 2, 3], "viewangles": [4, 5]}"#,
    );
    let out = g.to_mono().unwrap();
    assert_eq!(out.field("n"), &text("B (one-way)"));
    assert_eq!(out.field("x"), &number(1));
    assert_eq!(out.field("y"), &number(2));
    assert_eq!(out.field("z"), &number(3));
    assert_eq!(out.field("pitch"), &number(4));
    assert_eq!(out.field("yaw"), &number(5));
}

#[test]
fn mono_gives_the_same_value_for_the_same_record() {
    let a = running(r#"{"run": 64, "run_yaw": 90, "jump": true}"#);
    let b = a.duplicate();
    assert_eq!(a.to_mono(), b.to_mono());
    assert_eq!(a.to_mono(), a.to_mono());
    let c = running(r#"{"run_yaw": 33}"#);
    assert_eq!(c.to_mono(), c.duplicate().to_mono());
}

#[test]
fn mono_carries_two_weapons() {
    assert_eq!(mono_weapon(&"weapon_molotov".to_string()), Some(MonoWeapon::Fire));
    assert_eq!(mono_weapon(&"weapon_hegrenade".to_string()), Some(MonoWeapon::He));
    assert_eq!(MonoWeapon::Fire.name(), "fire");
    assert_eq!(MonoWeapon::He.name(), "he");
    for other in ["weapon_smokegrenade", "weapon_flashbang", "weapon_incgrenade", "", "fire", "he"] {
        assert_eq!(mono_weapon(&other.to_string()), None);
    }
}

#[test]
fn mono_errors_say_what_is_wrong() {
    assert_eq!(MonoError::RunSpeed.message(), "run speed is not supported");
    assert_eq!(
        MonoError::RunYawNotInteger(Decimal::from_parts(false, 125, -2)).message(),
        "run yaw is non-integer: -1.25"
    );
    assert_eq!(
        MonoError::UnknownDirection(Decimal::from_integer(-270)).message(),
        "unknown run direction: -270"
    );
}
