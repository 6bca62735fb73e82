use nade_converter::prim::weapon_category;
use nade_converter::{parse_document, Decimal, Grenade, Category, PrimError, Value};

fn nade(text: &str) -> Grenade {
    Grenade::from_gs_json(&parse_document(text).unwrap()).unwrap()
}

fn running(grenade: &str) -> Grenade {
    nade(&format!(
        r#"{{"name": ["A", "B"], "weapon": "weapon_hegrenade", "position": [0, 0, 0], "viewangles": [0, 90], "duck": false, "grenade": {}}}"#,
        grenade
    ))
}

fn number(n: i128) -> Value {
    Value::Number(Decimal::from_integer(n))
}

fn flags(fire: bool, explosive: bool, smoke: bool, flash: bool) -> Value {
    Value::Object(vec![
        ("fire".to_string(), Value::Flag(fire)),
        ("explosive".to_string(), Value::Flag(explosive)),
        ("smoke".to_string(), Value::Flag(smoke)),
        ("flash".to_string(), Value::Flag(flash)),
    ])
}

#[test]
fn prim_maps_a_run_to_the_right() {
    let g = running(r#"{"strength": 1.0, "run": 64, "run_yaw": 90, "delay": 0, "jump": false}"#);
    let out = g.to_prim().unwrap();
    let expected = Value::Object(vec![
        (
            "angle".to_string(),
            Value::Object(vec![("x".to_string(), number(0)), ("y".to_string(), number(90))]),
        ),
        ("availability".to_string(), flags(false, true, false, false)),
        ("delay throw ticks".to_string(), number(64)),
        ("jump throw".to_string(), Value::Flag(false)),
        ("jump throw delay ticks".to_string(), number(64)),
        ("name".to_string(), Value::Text("B".to_string())),
        (
            "pos".to_string(),
            Value::Object(vec![
                ("x".to_string(), number(0)),
                ("y".to_string(), number(0)),
                ("z".to_string(), number(0)),
            ]),
        ),
        ("run direction".to_string(), number(180)),
        ("run ticks".to_string(), number(64)),
        ("throw strength".to_string(), number(100)),
    ]);
    assert_eq!(out, expected);
}

#[test]
fn prim_does_not_look_at_the_direction_table() {
    let g = running(r#"{"run": 64, "run_yaw": 45}"#);
    let out = g.to_prim().unwrap();
    assert_eq!(out.field("run direction"), &number(135));
    assert_eq!(out.field("delay throw ticks"), &number(64));
}

#[test]
fn prim_folds_the_run_direction_into_one_turn() {
    let cases = [
        ("90", "-180", "270"),
        ("-136.26739501953", "90", "313.73260498047"),
        ("350", "20", "10"),
        ("0", "0", "0"),
        ("180", "180", "0"),
        ("-0.5", "0", "359.5"),
        ("720", "725", "5"),
    ];
    for (yaw, run_yaw, direction) in cases {
        let g = nade(&format!(
            r#"{{"name": ["A", "B"], "weapon": "weapon_flashbang", "position": [0, 0, 0], "viewangles": [0, {}], "grenade": {{"run": 1, "run_yaw": {}}}}}"#,
            yaw, run_yaw
        ));
        let out = g.to_prim().unwrap();
        assert_eq!(
            out.field("run direction").as_number().unwrap().to_text(),
            direction,
            "{} {}",
            yaw,
            run_yaw
        );
    }
}

#[test]
fn prim_normalizes_any_angle() {
    assert_eq!(Grenade::normalize_yaw(Decimal::from_integer(-90)), Decimal::from_integer(270));
    assert_eq!(Grenade::normalize_yaw(Decimal::from_integer(360)), Decimal::from_integer(0));
    assert_eq!(Grenade::normalize_yaw(Decimal::from_integer(1085)), Decimal::from_integer(5));
    assert_eq!(Grenade::normalize_yaw(Decimal::from_integer(-1085)), Decimal::from_integer(355));
    let once = Grenade::normalize_yaw(Decimal::from_parts(false, 7255, -1));
    assert_eq!(once.to_text(), "354.5");
    assert_eq!(Grenade::normalize_yaw(once), once);
}

#[test]
fn prim_counts_the_throw_tick_from_run_and_delay() {
    for (run, delay, jump, tick) in
        [(64, 0, false, 64), (64, 1, false, 64), (64, 5, true, 68), (1, 1, true, 1), (12, 5, false, 16)]
    {
        let mut g = running("{}");
        g.run = run;
        g.delay = delay;
        g.jump = jump;
        let out = g.to_prim().unwrap();
        assert_eq!(out.field("delay throw ticks"), &number(tick));
        assert_eq!(out.field("jump throw delay ticks"), &number(run as i128));
        assert_eq!(out.field("run ticks"), &number(run as i128));
        assert_eq!(out.field("jump throw"), &Value::Flag(jump));
    }
}

#[test]
fn prim_counts_the_throw_tick_without_overflow() {
    let mut g = running("{}");
    g.run = 3_000_000_000;
    g.delay = 5_000_000_000;
    let out = g.to_prim().unwrap();
    assert_eq!(out.field("delay throw ticks"), &number(7_999_999_999));
    assert_eq!(out.field("run ticks"), &number(3_000_000_000));
    g.run = u64::MAX;
    g.delay = u64::MAX;
    let out = g.to_prim().unwrap();
    assert_eq!(out.field("delay throw ticks"), &number(2 * (u64::MAX as i128) - 1));
}

#[test]
fn prim_gives_the_strength_in_hundredths() {
    for (strength, shown) in [("1.0", "100"), ("0.5", "50"), ("0", "0"), ("0.123", "12.3")] {
        let g = running(&format!(r#"{{"run": 1, "strength": {}}}"#, strength));
        let out = g.to_prim().unwrap();
        assert_eq!(out.field("throw strength").as_number().unwrap().to_text(), shown);
    }
}

#[test]
fn prim_rejects_a_throw_without_a_run_first() {
    let mut g = running("{}");
    g.run_speed = true;
    g.jump = true;
    g.duck = true;
    g.weapon = "weapon_unknown".to_string();
    assert_eq!(g.to_prim(), Err(PrimError::NotRunning));
}

#[test]
fn prim_rejects_in_the_order_of_its_conditions() {
    let mut g = running(r#"{"run": 10}"#);
    g.run_speed = true;
    g.jump = true;
    g.duck = true;
    g.weapon = "weapon_unknown".to_string();
    assert_eq!(g.to_prim(), Err(PrimError::RunSpeed));
    g.run_speed = false;
    assert_eq!(g.to_prim(), Err(PrimError::JumpWithoutDelay));
    g.delay = 1;
    assert_eq!(g.to_prim(), Err(PrimError::Duck));
    g.duck = false;
    assert_eq!(g.to_prim(), Err(PrimError::UnknownWeapon("weapon_unknown".to_string())));
    g.weapon = "weapon_smokegrenade".to_string();
    assert!(g.to_prim().is_ok());
}

#[test]
fn prim_lets_a_jump_with_a_delay_through() {
    let g = running(r#"{"run": 10, "jump": true, "delay": 1}"#);
    assert!(g.to_prim().is_ok());
    let g = running(r#"{"run": 10, "jump": false, "delay": 0}"#);
    assert!(g.to_prim().is_ok());
    let g = running(r#"{"run": 10, "jump": true, "delay": 0}"#);
    assert_eq!(g.to_prim(), Err(PrimError::JumpWithoutDelay));
}

#[test]
fn prim_sets_one_flag_for_each_category() {
    let cases = [
        ("weapon_molotov", Category::Fire, flags(true, false, false, false)),
        ("weapon_incgrenade", Category::Fire, flags(true, false, false, false)),
        ("weapon_hegrenade", Category::Explosive, flags(false, true, false, false)),
        ("weapon_smokegrenade", Category::Smoke, flags(false, false, true, false)),
        ("weapon_flashbang", Category::Flash, flags(false, false, false, true)),
    ];
    for (weapon, category, expected) in cases {
        assert_eq!(weapon_category(&weapon.to_string()), Some(category));
        let mut g = running(r#"{"run": 1}"#);
        g.weapon = weapon.to_string();
        assert_eq!(g.get_availability(), Ok(expected));
        assert_eq!(g.to_prim().unwrap().field("availability"), &g.get_availability().unwrap());
    }
}

#[test]
fn prim_rejects_a_weapon_of_no_category() {
    for weapon in ["weapon_decoy", "", "molotov", "weapon_hegrenade "] {
        assert_eq!(weapon_category(&weapon.to_string()), None);
        let mut g = running(r#"{"run": 1}"#);
        g.weapon = weapon.to_string();
        assert_eq!(g.get_availability(), Err(PrimError::UnknownWeapon(weapon.to_string())));
        assert_eq!(g.to_prim(), Err(PrimError::UnknownWeapon(weapon.to_string())));
    }
}

#[test]
fn prim_errors_say_what_is_wrong() {
    assert_eq!(
        PrimError::NotRunning.message(),
        "nades not thrown while running are unsupported"
    );
    assert_eq!(PrimError::RunSpeed.message(), "run speed is not supported");
    assert_eq!(
        PrimError::JumpWithoutDelay.message(),
        "jumping without delay unsupported"
    );
    assert_eq!(PrimError::Duck.message(), "ducking is not supported");
    assert_eq!(
        PrimError::UnknownWeapon("weapon_decoy".to_string()).message(),
        "unknown weapon: weapon_decoy"
    );
}
