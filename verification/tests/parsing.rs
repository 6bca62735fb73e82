use assert_float_eq::{next_n_f32, previous_n_f32};
use nade_converter::{parse_document, Decimal, Grenade, ParseError, Value};

fn as_f32(d: Decimal) -> f32 {
    (d.units() as f64 / 1e18) as f32
}

fn near(a: f32, b: f32) -> bool {
    b >= previous_n_f32(a, 4) && b <= next_n_f32(a, 4)
}

fn entry(text: &str) -> Value {
    parse_document(text).unwrap()
}

const COMPLETE: &str = r#"{
    "name": ["A", "B"],
    "weapon": "weapon_hegrenade",
    "position": [1, 2, 3],
    "viewangles": [10, 90]
}"#;

fn with_grenade(grenade: &str) -> Value {
    entry(&format!(
        r#"{{"name": ["A", "B"], "weapon": "weapon_hegrenade", "position": [1, 2, 3], "viewangles": [10, 90], "grenade": {}}}"#,
        grenade
    ))
}

#[test]
fn parsing() {
    let test_gs_nade = entry(
        r#"{
            "name": ["T Roof", "Scaffolding Box"],
            "description": "Jump on the left box for a good one-way",
            "weapon": "weapon_smokegrenade",
            "position": [691.63653564453, -1130.1051025391, -127.96875],
            "position_visibility": [-44, 0, 0],
            "viewangles": [-1.8710323572159, -136.26739501953],
            "duck": true,
            "tickrate": 128,
            "approach_accurate": true,
            "grenade": {
                "strength": 0.5,
                "fov": 0.3,
                "jump": true,
                "run": 12,
                "run_yaw": 90,
                "run_speed": true,
                "recovery_yaw": 90,
                "delay": 5
            },
            "destroy": {
                "start": [392.701141, -1442.725342, 1936.63842],
                "end": [232.03129134004, -1425.9891813532, 1899.5775623479],
                "text": "Break the left window"
            },
            "target": [-19.584310531616, -1810.5485839844, -110.97956085205]
        }"#,
    );
    let nade = Grenade::from_gs_json(&test_gs_nade);
    assert!(nade.is_ok());
    let nade = nade.unwrap();
    assert_eq!(nade.from, "T Roof");
    assert_eq!(nade.to, "Scaffolding Box");
    assert_eq!(nade.description, "Jump on the left box for a good one-way");
    assert_eq!(nade.weapon, "weapon_smokegrenade");
    assert!(near(as_f32(nade.x), 691.636_54));
    assert!(near(as_f32(nade.y), -1_130.105_1));
    assert!(near(as_f32(nade.z), -127.96875));
    assert!(near(as_f32(nade.pitch), -1.871_032_4));
    assert!(near(as_f32(nade.yaw), -136.267_4));
    assert!(nade.duck);
    assert!(near(as_f32(nade.strength), 0.5));
    assert!(nade.jump);
    assert_eq!(nade.run, 12);
    assert!(near(as_f32(nade.run_yaw), 90.0));
    assert_eq!(nade.delay, 5);
}

#[test]
fn parsing_keeps_numbers_digit_for_digit() {
    let nade = Grenade::from_gs_json(&entry(
        r#"{"name": ["A", "B"], "weapon": "w", "position": [691.63653564453, -1130.1051025391, -127.96875], "viewangles": [-1.8710323572159, -136.26739501953]}"#,
    ))
    .unwrap();
    assert_eq!(nade.x.units(), 691_636_535_644_530_000_000);
    assert_eq!(nade.y.units(), -1_130_105_102_539_100_000_000);
    assert_eq!(nade.z.units(), -127_968_750_000_000_000_000);
    assert_eq!(nade.pitch.units(), -1_871_032_357_215_900_000);
    assert_eq!(nade.yaw.units(), -136_267_395_019_530_000_000);
}

#[test]
fn parsing_fills_in_the_defaults() {
    let nade = Grenade::from_gs_json(&entry(COMPLETE)).unwrap();
    assert_eq!(nade.from, "A");
    assert_eq!(nade.to, "B");
    assert_eq!(nade.description, "");
    assert_eq!(nade.weapon, "weapon_hegrenade");
    assert_eq!(nade.x, Decimal::from_integer(1));
    assert_eq!(nade.y, Decimal::from_integer(2));
    assert_eq!(nade.z, Decimal::from_integer(3));
    assert!(!nade.duck);
    assert_eq!(nade.strength, Decimal::from_integer(1));
    assert!(!nade.jump);
    assert_eq!(nade.run, 0);
    assert_eq!(nade.run_yaw, Decimal::from_integer(0));
    assert!(!nade.run_speed);
    assert_eq!(nade.recovery_yaw, Decimal::from_integer(-180));
    assert!(!nade.recovery_jump);
    assert_eq!(nade.delay, 0);
}

#[test]
fn parsing_takes_pitch_first_and_yaw_second() {
    let nade = Grenade::from_gs_json(&entry(COMPLETE)).unwrap();
    assert_eq!(nade.pitch, Decimal::from_integer(10));
    assert_eq!(nade.yaw, Decimal::from_integer(90));
}

#[test]
fn parsing_defaults_the_recovery_to_the_opposite_of_the_run() {
    let nade = Grenade::from_gs_json(&with_grenade(r#"{"run_yaw": 90}"#)).unwrap();
    assert_eq!(nade.recovery_yaw, Decimal::from_integer(-90));
    let nade = Grenade::from_gs_json(&with_grenade(r#"{"run_yaw": 22.5}"#)).unwrap();
    assert_eq!(nade.recovery_yaw.units(), -157_500_000_000_000_000_000);
    let nade =
        Grenade::from_gs_json(&with_grenade(r#"{"run_yaw": 90, "recovery_yaw": 0}"#)).unwrap();
    assert_eq!(nade.recovery_yaw, Decimal::from_integer(0));
}

#[test]
fn parsing_reads_every_field_of_the_throw() {
    let nade = Grenade::from_gs_json(&with_grenade(
        r#"{"strength": 0.25, "jump": true, "run": 7, "run_yaw": -90, "run_speed": true, "recovery_yaw": 180, "recovery_jump": true, "delay": 3}"#,
    ))
    .unwrap();
    assert_eq!(nade.strength.units(), 250_000_000_000_000_000);
    assert!(nade.jump);
    assert_eq!(nade.run, 7);
    assert_eq!(nade.run_yaw, Decimal::from_integer(-90));
    assert!(nade.run_speed);
    assert_eq!(nade.recovery_yaw, Decimal::from_integer(180));
    assert!(nade.recovery_jump);
    assert_eq!(nade.delay, 3);
}

#[test]
fn parsing_names_the_missing_field() {
    let cases = [
        (r#"{}"#, ParseError::NoFrom),
        (r#"{"name": "A"}"#, ParseError::NoFrom),
        (r#"{"name": [1, "B"]}"#, ParseError::NoFrom),
        (r#"{"name": ["A"]}"#, ParseError::NoTo),
        (r#"{"name": ["A", "B"]}"#, ParseError::NoWeapon),
        (r#"{"name": ["A", "B"], "weapon": 5}"#, ParseError::NoWeapon),
        (r#"{"name": ["A", "B"], "weapon": "w"}"#, ParseError::NoX),
        (r#"{"name": ["A", "B"], "weapon": "w", "position": [1]}"#, ParseError::NoY),
        (r#"{"name": ["A", "B"], "weapon": "w", "position": [1, 2]}"#, ParseError::NoZ),
        (r#"{"name": ["A", "B"], "weapon": "w", "position": [1, 2, 3]}"#, ParseError::NoYaw),
        (
            r#"{"name": ["A", "B"], "weapon": "w", "position": [1, 2, 3], "viewangles": [1]}"#,
            ParseError::NoYaw,
        ),
        (
            r#"{"name": ["A", "B"], "weapon": "w", "position": [1, 2, 3], "viewangles": ["a", 2]}"#,
            ParseError::NoPitch,
        ),
    ];
    for (text, expected) in cases {
        assert_eq!(Grenade::from_gs_json(&entry(text)), Err(expected), "{}", text);
    }
}

#[test]
fn parsing_reports_the_first_broken_rule() {
    let text = r#"{"name": ["A"], "grenade": {"run": 0.5, "delay": -1}}"#;
    assert_eq!(Grenade::from_gs_json(&entry(text)), Err(ParseError::NoTo));
    let both = with_grenade(r#"{"run": -1, "delay": 0.5}"#);
    assert_eq!(Grenade::from_gs_json(&both), Err(ParseError::RunNegative));
    let fraction_first = with_grenade(r#"{"run": -0.5}"#);
    assert_eq!(Grenade::from_gs_json(&fraction_first), Err(ParseError::RunNotInteger));
}

#[test]
fn parsing_rejects_a_run_that_is_not_whole() {
    for run in ["12.5", "12.0000001", "11.9999999", "12.0000002", "0.1", "0.9", "11.9999"] {
        assert_eq!(
            Grenade::from_gs_json(&with_grenade(&format!(r#"{{"run": {}}}"#, run))),
            Err(ParseError::RunNotInteger),
            "{}",
            run
        );
    }
}

#[test]
fn parsing_accepts_a_run_within_the_tolerance() {
    for (run, ticks) in [
        ("12.00000009", 12),
        ("11.99999995", 12),
        ("11.99999999", 12),
        ("11.99999991", 12),
        ("0.00000001", 0),
        ("0.99999995", 1),
        ("64.0", 64),
        ("64", 64),
    ] {
        let nade = Grenade::from_gs_json(&with_grenade(&format!(r#"{{"run": {}}}"#, run)));
        assert_eq!(nade.unwrap().run, ticks, "{}", run);
    }
}

#[test]
fn parsing_rejects_a_negative_run() {
    assert_eq!(
        Grenade::from_gs_json(&with_grenade(r#"{"run": -3}"#)),
        Err(ParseError::RunNegative)
    );
    assert_eq!(
        Grenade::from_gs_json(&with_grenade(r#"{"run": -0.00000001}"#)),
        Err(ParseError::RunNegative)
    );
    assert_eq!(
        Grenade::from_gs_json(&with_grenade(r#"{"run": -2.99999995}"#)),
        Err(ParseError::RunNegative)
    );
}

#[test]
fn parsing_rejects_a_delay_that_is_not_whole_or_negative() {
    assert_eq!(
        Grenade::from_gs_json(&with_grenade(r#"{"delay": 0.3}"#)),
        Err(ParseError::DelayNotInteger)
    );
    assert_eq!(
        Grenade::from_gs_json(&with_grenade(r#"{"delay": -2}"#)),
        Err(ParseError::DelayNegative)
    );
    assert_eq!(
        Grenade::from_gs_json(&with_grenade(r#"{"delay": 4.9999999}"#)),
        Err(ParseError::DelayNotInteger)
    );
    let nade = Grenade::from_gs_json(&with_grenade(r#"{"delay": 5.00000001}"#)).unwrap();
    assert_eq!(nade.delay, 5);
    let nade = Grenade::from_gs_json(&with_grenade(r#"{"delay": 4.99999995}"#)).unwrap();
    assert_eq!(nade.delay, 5);
}

#[test]
fn parsing_keeps_a_long_run_and_a_long_delay() {
    let nade =
        Grenade::from_gs_json(&with_grenade(r#"{"run": 3000000000, "delay": 5000000000}"#))
            .unwrap();
    assert_eq!(nade.run, 3_000_000_000);
    assert_eq!(nade.delay, 5_000_000_000);
    let nade = Grenade::from_gs_json(&with_grenade(r#"{"run": 123456789012345678}"#)).unwrap();
    assert_eq!(nade.run, 123_456_789_012_345_678);
}

#[test]
fn parsing_ignores_fields_of_the_wrong_type() {
    let nade = Grenade::from_gs_json(&entry(
        r#"{"name": ["A", "B"], "weapon": "w", "position": [1, 2, 3], "viewangles": [1, 2], "description": 7, "duck": "yes", "grenade": {"strength": "full", "run": true, "jump": 1}}"#,
    ))
    .unwrap();
    assert_eq!(nade.description, "");
    assert!(!nade.duck);
    assert_eq!(nade.strength, Decimal::from_integer(1));
    assert_eq!(nade.run, 0);
    assert!(!nade.jump);
}

#[test]
fn parse_errors_say_what_is_wrong() {
    assert_eq!(ParseError::NoFrom.message(), "no from");
    assert_eq!(ParseError::NoTo.message(), "no to");
    assert_eq!(ParseError::NoWeapon.message(), "no weapon");
    assert_eq!(ParseError::NoX.message(), "no x");
    assert_eq!(ParseError::NoY.message(), "no y");
    assert_eq!(ParseError::NoZ.message(), "no z");
    assert_eq!(ParseError::NoYaw.message(), "no yaw");
    assert_eq!(ParseError::NoPitch.message(), "no pitch");
    assert_eq!(ParseError::RunNotInteger.message(), "run is not an integer");
    assert_eq!(ParseError::RunNegative.message(), "run is negative");
    assert_eq!(ParseError::DelayNotInteger.message(), "delay is not an integer");
    assert_eq!(ParseError::DelayNegative.message(), "delay is negative");
}

#[test]
fn new_record_is_blank_at_full_strength() {
    let nade = Grenade::new();
    assert_eq!(nade.from, "");
    assert_eq!(nade.to, "");
    assert_eq!(nade.weapon, "");
    assert_eq!(nade.description, "");
    assert_eq!(nade.x.units(), 0);
    assert_eq!(nade.strength.units(), 1_000_000_000_000_000_000);
    assert_eq!(nade.run, 0);
    assert_eq!(nade.delay, 0);
    assert_eq!(nade.recovery_yaw.units(), 0);
    assert!(!nade.duck && !nade.jump && !nade.run_speed && !nade.recovery_jump);
}

#[test]
fn name_appends_the_description_in_brackets() {
    let mut nade = Grenade::new();
    nade.to = "Window".to_string();
    assert_eq!(nade.make_name(), "Window");
    nade.description = "from the car".to_string();
    assert_eq!(nade.make_name(), "Window (from the car)");
}

#[test]
fn records_are_equal_field_by_field() {
    let a = Grenade::from_gs_json(&entry(COMPLETE)).unwrap();
    let b = a.duplicate();
    assert!(a.same_as(&b));
    assert_eq!(a, b);
    assert_eq!(a.clone(), a);
    let mut c = a.duplicate();
    c.delay = 1;
    assert!(!a.same_as(&c));
    let mut d = a.duplicate();
    d.pitch = Decimal::from_units(a.pitch.units() + 1);
    assert!(!a.same_as(&d));
    let mut e = a.duplicate();
    e.description = "x".to_string();
    assert!(!a.same_as(&e));
}
