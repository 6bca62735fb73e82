use nade_converter::convert::{convert_kidua, convert_mono, convert_prim};
use nade_converter::{read_gs_json, Grenade, KiduaError, MonoError, PrimError, Value};

fn entry(to: &str, weapon: &str, grenade: &str) -> String {
    format!(
        r#"{{"name": ["A", "{}"], "weapon": "{}", "position": [0, 0, 0], "viewangles": [0, 90], "grenade": {}}}"#,
        to, weapon, grenade
    )
}

fn lineups() -> Vec<Grenade> {
    let text = format!(
        r#"{{"m": [{}, {}, {}, {}, {}, {}]}}"#,
        entry("B", "weapon_hegrenade", "{}"),
        entry("C", "weapon_molotov", r#"{"run": 64, "run_yaw": 90}"#),
        entry("D", "weapon_smokegrenade", r#"{"run": 10, "run_speed": true}"#),
        entry("E", "weapon_hegrenade", r#"{"run_speed": true}"#),
        entry("F", "weapon_decoy", r#"{"delay": 3}"#),
        entry("G", "weapon_molotov", r#"{"run": 5, "duck": true}"#)
    );
    read_gs_json(&text).unwrap().remove(0).grenades
}

#[test]
fn converting_to_mono_files_by_weapon_and_passes_over_the_rest() {
    let nades = lineups();
    let batch = convert_mono(&nades);
    let names = |values: &Vec<Value>| -> Vec<String> {
        values.iter().map(|v| v.field("n").as_text().unwrap().clone()).collect()
    };
    assert_eq!(names(&batch.he), vec!["B"]);
    assert_eq!(names(&batch.fire), vec!["C", "G"]);
    assert_eq!(batch.rejected, vec![MonoError::RunSpeed]);
    assert_eq!(batch.fire[0], nades[1].to_mono().unwrap());
}

#[test]
fn mono_object_has_a_list_for_each_weapon_that_has_values() {
    let nades = lineups();
    let object = convert_mono(&nades).into_object();
    let expected = Value::Object(vec![
        (
            "fire".to_string(),
            Value::List(vec![nades[1].to_mono().unwrap(), nades[5].to_mono().unwrap()]),
        ),
        ("he".to_string(), Value::List(vec![nades[0].to_mono().unwrap()])),
    ]);
    assert_eq!(object, expected);
    let only_he = convert_mono(&vec![nades[0].duplicate()]).into_object();
    assert_eq!(
        only_he,
        Value::Object(vec![("he".to_string(), Value::List(vec![nades[0].to_mono().unwrap()]))])
    );
    assert_eq!(convert_mono(&Vec::new()).into_object(), Value::Object(vec![]));
}

#[test]
fn converting_to_prim_numbers_the_values_from_zero() {
    let nades = lineups();
    let batch = convert_prim(&nades);
    let numbered: Vec<(&str, &str)> = batch
        .numbered
        .iter()
        .map(|(n, v)| (n.as_str(), v.field("name").as_text().unwrap().as_str()))
        .collect();
    assert_eq!(numbered, vec![("0", "C"), ("1", "G")]);
    assert_eq!(
        batch.rejected,
        vec![
            PrimError::NotRunning,
            PrimError::RunSpeed,
            PrimError::NotRunning,
            PrimError::NotRunning,
        ]
    );
    assert_eq!(batch.numbered[0].1, nades[1].to_prim().unwrap());
}

#[test]
fn prim_numbers_run_on_past_nine() {
    let mut many = Vec::new();
    for _ in 0..12 {
        many.push(lineups().remove(1));
        many.push(lineups().remove(0));
    }
    let batch = convert_prim(&many);
    let numbers: Vec<&str> = batch.numbered.iter().map(|(n, _)| n.as_str()).collect();
    assert_eq!(numbers, vec!["0", "1", "2", "3", "4", "5", "6", "7", "8", "9", "10", "11"]);
    assert_eq!(batch.rejected.len(), 12);
}

#[test]
fn converting_to_kidua_keeps_the_order_and_the_reasons() {
    let nades = lineups();
    let batch = convert_kidua(&nades);
    let spots: Vec<&str> =
        batch.values.iter().map(|v| v.field("spot").as_text().unwrap().as_str()).collect();
    assert_eq!(spots, vec!["B", "E"]);
    assert_eq!(
        batch.rejected,
        vec![KiduaError::Run, KiduaError::Run, KiduaError::Delay, KiduaError::Run]
    );
    assert_eq!(batch.values[1], nades[3].to_kidua().unwrap());
}

#[test]
fn converting_nothing_gives_nothing() {
    let none: Vec<Grenade> = Vec::new();
    let mono = convert_mono(&none);
    assert!(mono.fire.is_empty() && mono.he.is_empty() && mono.rejected.is_empty());
    let prim = convert_prim(&none);
    assert!(prim.numbered.is_empty() && prim.rejected.is_empty());
    let kidua = convert_kidua(&none);
    assert!(kidua.values.is_empty() && kidua.rejected.is_empty());
}

#[test]
fn converting_accounts_for_every_record() {
    let nades = lineups();
    let prim = convert_prim(&nades);
    assert_eq!(prim.numbered.len() + prim.rejected.len(), nades.len());
    let kidua = convert_kidua(&nades);
    assert_eq!(kidua.values.len() + kidua.rejected.len(), nades.len());
    let mono = convert_mono(&nades);
    assert_eq!(mono.fire.len() + mono.he.len() + mono.rejected.len(), 4);
}
