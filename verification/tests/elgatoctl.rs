use omgato::elgatoctl::dispatch::{
    brightness_for, exit_status, merge, needs_rediscovery, parse_level, same_light, set_patch, temperature_for,
    toggled_power, Level, Out, Report,
};
use omgato::elgatoctl::setup::{repl_action, ReplAction};
use omgato::elgatoctl::waybar::summary;
use omgato::keylight::config::Light;
use omgato::elgatoctl::light::first;
use omgato::keylight::light::{LightState, LightsResponse};

fn light(name: &str, ip: &str, mac: &str) -> Light {
    Light { name: name.into(), ip: ip.into(), port: 9123, mac: mac.into() }
}

#[test]
fn lights_are_matched_by_mac_then_address() {
    assert!(same_light(&light("a", "1", "aa:bb"), &light("b", "2", "AA:BB")));
    assert!(!same_light(&light("a", "1", "aa:bb"), &light("b", "1", "cc:dd")));
    assert!(same_light(&light("a", "1", ""), &light("b", "1", "cc:dd")));
}

#[test]
fn a_scan_keeps_cached_lights_it_missed() {
    let found = vec![light("Zed", "10.0.0.2", "")];
    let cached = vec![light("Alpha", "10.0.0.3", ""), light("Zed old", "10.0.0.2", "")];
    let (cache, kept) = merge(found, cached, false);
    assert_eq!(cache.lights.iter().map(|l| l.name.as_str()).collect::<Vec<_>>(), vec!["Alpha", "Zed"]);
    assert_eq!(kept.len(), 1);
    let (pruned, none) = merge(vec![light("Zed", "10.0.0.2", "")], vec![light("Alpha", "10.0.0.3", "")], true);
    assert_eq!(pruned.lights.len(), 1);
    assert!(none.is_empty());
}

#[test]
fn listings_report_each_light() {
    let lights = vec![light("Desk", "10.0.0.2", ""), light("Shelf", "10.0.0.3", "")];
    let states = vec![Ok(LightState { on: 1, brightness: 40, temperature: 200 }), Err("Shelf: timeout".to_string())];
    match (Out { json: false }).emit(&lights, &states) {
        Report::Lines(lines) => {
            let text: Vec<(bool, String)> = lines.into_iter().map(|l| (l.err, l.text)).collect();
            assert_eq!(
                text,
                vec![
                    (false, "Desk\t10.0.0.2\ton\tbr=40\tk=5000".to_string()),
                    (true, "Shelf: timeout".to_string()),
                    (false, "Shelf\t10.0.0.3\tunreachable".to_string()),
                ]
            );
        }
        Report::Rows(_) => panic!("expected text"),
    }
    match (Out { json: true }).emit(&lights, &states) {
        Report::Rows(rows) => {
            assert_eq!(rows.len(), 2);
            assert!(rows[0].reachable && rows[0].on && rows[0].kelvin == 5000);
            assert!(!rows[1].reachable && rows[1].brightness == 0);
        }
        Report::Lines(_) => panic!("expected rows"),
    }
}

#[test]
fn commands_decide_the_change() {
    let p = set_patch(true, false, Some(150), Some(5000));
    assert_eq!((p.on, p.brightness, p.temperature), (Some(1), Some(100), Some(200)));
    let none = set_patch(false, false, None, None);
    assert!(none.is_empty());
    let on = Ok(LightState { on: 1, brightness: 1, temperature: 200 });
    let off = Ok(LightState { on: 0, brightness: 1, temperature: 200 });
    assert_eq!(toggled_power(&[off.clone(), on.clone()]), 0);
    assert_eq!(toggled_power(&[off.clone()]), 1);
    assert!(needs_rediscovery(&[]));
    assert!(needs_rediscovery(&[on.clone(), Err("x".into())]));
    assert!(!needs_rediscovery(&[on.clone()]));
    assert_eq!(exit_status(&[Err("x".into())]), 1);
    assert_eq!(exit_status(&[Err("x".into()), off]), 0);
}

#[test]
fn levels_are_absolute_or_offsets() {
    assert_eq!(parse_level("+10"), Some(Level::By(10)));
    assert_eq!(parse_level("-300"), Some(Level::By(-300)));
    assert_eq!(parse_level("55"), Some(Level::To(55)));
    assert_eq!(parse_level("lots"), None);
    assert_eq!(brightness_for(Level::By(10), 95), 100);
    assert_eq!(brightness_for(Level::By(-10), 5), 0);
    assert_eq!(brightness_for(Level::To(250), 5), 100);
    assert_eq!(temperature_for(Level::By(-300), 200), 212);
    assert_eq!(temperature_for(Level::By(300), 200), 188);
    assert_eq!(temperature_for(Level::To(5000), 0), 200);
}

#[test]
fn status_bar_summary() {
    let lights = vec![light("Desk", "1", ""), light("Shelf", "2", "")];
    let states = vec![Ok(LightState { on: 0, brightness: 40, temperature: 200 }), Err("x".to_string())];
    let (class, tooltip) = summary(&lights, &states);
    assert_eq!(class, "off");
    assert_eq!(tooltip, "Desk: off 40% 5000K\nShelf: unreachable");
    let (class, _) = summary(&lights, &[Err("x".to_string()), Err("y".to_string())]);
    assert_eq!(class, "unreachable");
    let (class, tooltip) = summary(&[], &[]);
    assert_eq!(class, "off");
    assert_eq!(tooltip, "no lights cached - run: elgatoctl discover");
}

#[test]
fn prompt_lines() {
    assert!(matches!(repl_action("   "), ReplAction::Skip));
    assert!(matches!(repl_action(" q "), ReplAction::Quit));
    assert!(matches!(repl_action("?"), ReplAction::Help));
    match repl_action("  on desk ") {
        ReplAction::Run(argv) => assert_eq!(argv, vec!["keylight-ctl", "on", "desk"]),
        _ => panic!("expected a command"),
    }
}

#[test]
fn first_state_of_any_answer() {
    let s = LightState { on: 1, brightness: 40, temperature: 200 };
    let t = LightState { on: 0, brightness: 3, temperature: 150 };
    let mut lights = vec![s];
    lights.extend(std::iter::repeat(t).take(8));
    let many = LightsResponse { number_of_lights: 9, lights };
    assert_eq!(first(many, "desk"), Ok(s));
    let empty = LightsResponse { number_of_lights: 0, lights: vec![] };
    assert_eq!(first(empty, "desk"), Err("desk: empty lights array".to_string()));
}
