use omgato::omgato::camera::{apply_command, corner_of, detail, settle_travel, Placement as CamPlacement};
use omgato::omgato::deck::{describe, keys, layout, listed_devices, neighbours, ordered_pages, pagination_indices, preview_stamp, ButtonConfig, DeckConfig, PageConfig, Snapshot};
use omgato::omgato::lights::{
    check_default, default_snapshot, is_mac, migrate_aliases, migrate_order, order_from, rename, remap_key, restore_commands, restore_outcome, restore_targets,
    snapshot, sync_levels, Light,
};
use omgato::omgato::record::{elapsed_seconds, processed_name, readable, record_command, recording_name, scope_from_pick, Options};
use omgato::omgato::shortcuts::{
    actions, check_id, conflict_for, key_of, keys_for, modmask, pretty, rebind, render, source_text, sourced, Bind, LEGACY_REQUIRE_LINE,
    LEGACY_SOURCE_COMMENT, REQUIRE_LINE, SOURCE_COMMENT,
};
use omgato::omgato::state::{History, Snap, HISTORY_MAX};
use omgato::paths::file_name;

fn light(ip: &str, reachable: bool, brightness: u8) -> Light {
    Light {
        name: "Key Light".into(),
        display: "Key Light".into(),
        ip: ip.into(),
        mac: String::new(),
        reachable,
        on: true,
        brightness,
        kelvin: 4000,
    }
}

#[test]
fn remaps_addresses_to_macs_and_drops_dead_ones() {
    let by_ip = vec![("192.168.68.56".to_string(), "3C:6A:9D:24:F6:AB".to_string())];
    assert_eq!(remap_key("192.168.68.56", &by_ip).as_deref(), Some("3C:6A:9D:24:F6:AB"));
    assert_eq!(remap_key("3C:6A:9D:24:F6:AC", &by_ip).as_deref(), Some("3C:6A:9D:24:F6:AC"));
    assert_eq!(remap_key("192.168.68.58", &by_ip), None);
}

#[test]
fn snapshots_identically_named_lights_by_address() {
    let snap = snapshot(&[light("10.0.0.2", true, 20), light("10.0.0.3", true, 80)], None).unwrap();
    assert_eq!(snap[0].ip, "10.0.0.2");
    assert_eq!(snap[0].brightness, 20);
    assert_eq!(snap[1].ip, "10.0.0.3");
    assert_eq!(snap[1].brightness, 80);

    let carried = snapshot(&[light("10.0.0.2", false, 0), light("10.0.0.3", true, 70)], Some(&snap)).unwrap();
    assert_eq!(carried[0].brightness, 20);
    assert_eq!(carried[1].brightness, 70);
}

#[test]
fn no_snapshot_without_an_answering_light() {
    assert!(snapshot(&[], None).is_none());
    assert!(snapshot(&[light("10.0.0.2", false, 0)], None).is_none());
}

#[test]
fn macs_and_order_migration() {
    assert!(is_mac("3C:6A:9D:24:F6:AB"));
    assert!(!is_mac("10.0.0.1"));
    assert!(!is_mac("abc"));
    let by_ip = vec![("10.0.0.1".to_string(), "AA:BB".to_string())];
    let order = vec!["10.0.0.1".to_string(), "CC:DD".to_string(), "10.9.9.9".to_string()];
    assert_eq!(migrate_order(&order, &by_ip), Some(vec!["AA:BB".to_string(), "CC:DD".to_string()]));
    assert_eq!(migrate_order(&vec!["CC:DD".to_string()], &by_ip), None);
    assert_eq!(migrate_order(&order, &vec![]), None);
}

fn snap(name: &str, ip: &str, mac: &str, on: bool) -> Snap {
    Snap { name: name.into(), ip: ip.into(), mac: mac.into(), on, brightness: 30, kelvin: 4500 }
}

#[test]
fn restoring_targets_addresses_and_reports_failures() {
    let saved = vec![snap("A", "10.0.0.1", "AA:BB", true), snap("B", "10.0.0.2", "", false)];
    let targets = restore_targets(&saved, &[]).unwrap();
    assert_eq!(targets, vec!["AA:BB".to_string(), "10.0.0.2".to_string()]);
    let cmds = restore_commands("keylight-ctl", &saved, &targets);
    assert_eq!(cmds[0], vec!["keylight-ctl", "set", "--on", "--brightness", "30", "--temp", "4500", "AA:BB"]);
    let earlier = restore_commands("elgatoctl", &saved, &targets);
    assert_eq!(earlier[1], vec!["elgatoctl", "set", "--off", "--brightness", "30", "--temp", "4500", "10.0.0.2"]);
    assert_eq!(cmds[1][2], "--off");
    assert_eq!(restore_outcome(&saved, &[true, false]), Err("could not restore: B".to_string()));
    assert_eq!(restore_outcome(&saved, &[true, true]), Ok(()));
    let nameless = vec![snap("Desk", "", "", true)];
    assert_eq!(restore_targets(&nameless, &[]), Err("the saved light \"Desk\" is no longer configured".to_string()));
    let live = vec![light("10.0.0.9", true, 1)];
    let mut desk = live;
    desk[0].name = "Desk".into();
    assert_eq!(restore_targets(&nameless, &desk), Ok(vec!["10.0.0.9".to_string()]));
}

#[test]
fn default_needs_every_light() {
    assert_eq!(
        default_snapshot(&[light("10.0.0.2", false, 0)]).err(),
        Some("not saving a default while these lights are unreachable: Key Light".to_string())
    );
    assert_eq!(default_snapshot(&[]).err(), Some("no reachable lights to save".to_string()));
    assert_eq!(default_snapshot(&[light("10.0.0.2", true, 5)]).unwrap().len(), 1);
}

#[test]
fn sync_averages_and_rounds() {
    let mut a = light("1", true, 20);
    a.kelvin = 4000;
    let mut b = light("2", true, 25);
    b.kelvin = 4130;
    assert_eq!(sync_levels(&[a, b]), Some((23, 4050)));
    assert_eq!(sync_levels(&[]), None);
}

#[test]
fn history_folds_and_seeks() {
    let mut h: History<String> = History::load(None);
    assert_eq!(h.pos, -1);
    assert!(h.fold("a".into()));
    assert!(!h.fold("a".into()));
    assert!(h.fold("b".into()));
    assert_eq!(h.current().map(|s| s.as_str()), Some("b"));
    assert!(h.flags().can_undo && !h.flags().can_redo);
    assert_eq!(h.seek(-1).map(|(p, v)| (p, v.clone())), Some((0, "a".to_string())));
    h.pos = 0;
    assert!(h.fold("c".into()));
    assert_eq!(h.stack, vec!["a".to_string(), "c".to_string()]);
    for i in 0..20 {
        h.fold(format!("x{i}"));
    }
    assert_eq!(h.stack.len(), HISTORY_MAX);
    assert_eq!(h.current().map(|s| s.as_str()), Some("x19"));
    assert_eq!(h.seek(-1).map(|(_, v)| v.clone()), Some("x18".to_string()));
    let loaded = History::load(Some(History { stack: vec!["only".to_string()], pos: 7 }));
    assert_eq!(loaded.pos, 0);
}

#[test]
fn install_replaces_legacy_and_duplicate_source_lines() {
    let input = format!(
        "o.bind({{}})\n{LEGACY_SOURCE_COMMENT}\n{LEGACY_REQUIRE_LINE}\n{SOURCE_COMMENT}\n{REQUIRE_LINE}\n"
    );
    assert_eq!(source_text(&input, true), format!("o.bind({{}})\n\n{SOURCE_COMMENT}\n{REQUIRE_LINE}\n"));
}

#[test]
fn uninstall_removes_both_generations_of_source_line() {
    let input = format!("before\n{LEGACY_REQUIRE_LINE}\n{REQUIRE_LINE}\nafter\n");
    assert_eq!(source_text(&input, false), "before\nafter\n");
}

#[test]
fn installing_into_an_empty_file() {
    assert_eq!(source_text("", true), format!("{SOURCE_COMMENT}\n{REQUIRE_LINE}\n"));
    assert_eq!(source_text("", false), "");
}

#[test]
fn combinations_are_read_and_shown() {
    assert_eq!(modmask("SUPER + ALT + L"), 72);
    assert_eq!(modmask("ctrl+shift"), 5);
    assert_eq!(key_of("SUPER + ALT + semicolon"), "semicolon");
    assert_eq!(key_of("SUPER"), "");
    assert_eq!(pretty("SUPER + ALT + semicolon"), "SUPER + ALT + ;");
    assert_eq!(pretty("  "), "");
    let binds = vec![
        Bind { modmask: 72, key: "l".into(), description: "Omgato: Toggle all lights".into() },
        Bind { modmask: 72, key: "L".into(), description: String::new() },
    ];
    assert_eq!(conflict_for("SUPER + ALT + L", &binds), "another binding");
    assert_eq!(conflict_for("SUPER + ALT + K", &binds), "");
}

#[test]
fn shortcuts_are_rebound_and_rendered() {
    assert!(check_id("camera.tl").is_ok());
    assert_eq!(check_id("nope"), Err("unknown shortcut: nope".to_string()));
    let cfg = rebind(vec![], "camera.tl", "  SUPER + 1 ");
    assert_eq!(cfg, vec![("camera.tl".to_string(), "SUPER + 1".to_string())]);
    assert_eq!(rebind(cfg.clone(), "camera.tl", " "), vec![]);
    let text = render(&cfg);
    assert!(text.starts_with("-- Generated by the Omgato plugin."));
    assert!(text.contains("o.bind(\"SUPER + 1\", \"Omgato: Camera top-left\", \"camlink-ctl move tl\")\n"));
    assert!(!text.contains("Lights brighter"));
}

#[test]
fn recording_scopes_and_commands() {
    assert_eq!(readable("monitor:DP-1"), "screen DP-1");
    assert_eq!(readable("region:640x480+10+20"), "area 640x480 at 10,20");
    assert_eq!(readable("other"), "other");
    assert_eq!(scope_from_pick(" 10,20 640x480\n"), Some("region:640x480+10+20".into()));
    assert_eq!(scope_from_pick("monitor:DP-1"), Some("monitor:DP-1".into()));
    assert_eq!(scope_from_pick("   "), None);
    let cmd = record_command("monitor:DP-1", "/v/a.mp4", Options { desktop_audio: true, mic: true });
    assert_eq!(cmd[2], "DP-1");
    assert_eq!(cmd[12], "/v/a.mp4");
    assert_eq!(&cmd[13..], &["-a", "default_output|default_input", "-ac", "aac"]);
    let stat = "9 (gpu) S 1 2 3 4 5 6 7 8 9 10 11 12 13 14 15 16 17 18 5000 20";
    assert_eq!(elapsed_seconds(80, stat), 30);
    assert_eq!(elapsed_seconds(10, stat), 0);
}

#[test]
fn camera_placements() {
    assert_eq!(corner_of("top-left"), "tl");
    assert_eq!(corner_of("rect:1,2,3,4"), "area");
    assert_eq!(corner_of("middle"), "");
    let p = CamPlacement { overlay: true, position: "rect:1,2,3,4".into() };
    assert_eq!(apply_command("camlink-ctl", &p), Some(vec!["camlink-ctl".to_string(), "place".into(), "1,2 3x4".into()]));
    let hidden = CamPlacement { overlay: false, position: String::new() };
    assert_eq!(apply_command("camlink-ctl", &hidden), Some(vec!["camlink-ctl".to_string(), "hide".into()]));
    let nowhere = CamPlacement { overlay: true, position: "middle".into() };
    assert_eq!(apply_command("camlink-ctl", &nowhere), None);
    assert_eq!(detail("disabled", "x"), "monitor paused");
    assert_eq!(detail("on", "Camera in use"), "in use");
}

#[test]
fn deck_pages_and_actions() {
    assert_eq!(pagination_indices(15, 5), Some((10, 14)));
    assert_eq!(pagination_indices(3, 5), None);
    assert_eq!(describe("key:KEY_VOLUME_UP"), "VOLUME UP");
    assert_eq!(describe("page:media"), "Page media");
    assert_eq!(describe("exec: /usr/bin/firefox https://www.example.com/path"), "example.com");
    assert_eq!(describe("omarchy-launch-web-app"), "Web app");
    assert_eq!(describe("noop"), "");
    let cfg = DeckConfig {
        brightness: 70,
        default_page: "main".into(),
        auto_paginate: true,
        display_off: false,
        page_order: vec!["main".into(), "media".into(), "gone".into()],
        pages: vec![("main".into(), PageConfig { buttons: vec![] }), ("media".into(), PageConfig { buttons: vec![] })],
    };
    assert_eq!(ordered_pages(&cfg), vec!["main".to_string(), "media".to_string()]);
    assert_eq!(neighbours(&cfg, "main"), (None, Some("media".to_string())));
    let a = Snapshot::new("brightness = 10\nkey = 1\n".into());
    let b = Snapshot::new("  brightness = 90\nkey = 1\n".into());
    assert_eq!(a.key, b.key);
}

#[test]
fn migrates_saved_names_to_hardware_addresses() {
    let by_ip = vec![("192.0.2.5".to_string(), "AA:BB:CC:DD:EE:01".to_string())];
    let aliases = vec![
        ("192.0.2.5".to_string(), "Desk".to_string()),
        ("192.0.2.9".to_string(), "Gone".to_string()),
        ("AA:BB:CC:DD:EE:02".to_string(), "Shelf".to_string()),
    ];
    assert_eq!(
        migrate_aliases(&aliases, &by_ip),
        Some(vec![
            ("AA:BB:CC:DD:EE:01".to_string(), "Desk".to_string()),
            ("AA:BB:CC:DD:EE:02".to_string(), "Shelf".to_string()),
        ])
    );
    let done = vec![("AA:BB:CC:DD:EE:02".to_string(), "Shelf".to_string())];
    assert_eq!(migrate_aliases(&done, &by_ip), None);
    assert_eq!(migrate_aliases(&aliases, &vec![]), None);
}

#[test]
fn installing_twice_is_installing_once() {
    let text = "o.bind(\"SUPER + Q\", \"quit\", \"exit\")\n\n\n";
    let once = source_text(text, true);
    assert_eq!(source_text(&once, true), once);
    assert_eq!(source_text(&once, false), source_text(text, false));
    assert_eq!(source_text(&once, false), "o.bind(\"SUPER + Q\", \"quit\", \"exit\")\n");
    let removed = source_text(text, false);
    assert_eq!(source_text(&removed, false), removed);
}

#[test]
fn rebinding_sets_or_restores_an_action() {
    let all = actions();
    let toggle = all.iter().find(|a| a.id == "lights.toggle").unwrap();
    let pick = all.iter().find(|a| a.id == "camera.pick").unwrap();
    let cfg = rebind(vec![("lights.toggle".into(), "SUPER + T".into())], "lights.toggle", "   ");
    assert_eq!(keys_for(toggle, &cfg), toggle.default_keys);
    let cfg = rebind(cfg, "camera.pick", " SUPER + P ");
    assert_eq!(keys_for(pick, &cfg), "SUPER + P");
    assert_eq!(keys_for(toggle, &cfg), "SUPER + ALT + L");
}

#[test]
fn moving_the_brightness_slider_keeps_the_snapshot_key() {
    let a = Snapshot::new("[deck]\nbrightness = 10\n[deck.pages.main]\nindex = 0\n".into());
    let b = Snapshot::new("[deck]\nbrightness = 95\n[deck.pages.main]\nindex = 0\n".into());
    let c = Snapshot::new("[deck]\nbrightness = 10\n[deck.pages.main]\nindex = 1\n".into());
    assert_eq!(a.key, b.key);
    assert_ne!(a.key, c.key);
}

#[test]
fn display_order_and_names() {
    assert_eq!(order_from(" 10.0.0.2, ,AA:BB ,"), vec!["10.0.0.2".to_string(), "AA:BB".to_string()]);
    assert!(order_from("").is_empty());
    let named = rename(vec![], "AA:BB", "  Desk ");
    assert_eq!(named, vec![("AA:BB".to_string(), "Desk".to_string())]);
    assert_eq!(rename(named, "AA:BB", " "), vec![]);
}

#[test]
fn file_names_and_stamps() {
    assert_eq!(recording_name("2024-01-02_03-04-05", 0), "screenrecording-2024-01-02_03-04-05.mp4");
    assert_eq!(recording_name("2024-01-02_03-04-05", 3), "screenrecording-2024-01-02_03-04-05-3.mp4");
    assert_eq!(processed_name("clip", 42), "clip-processed-42.mp4");
    assert_eq!(preview_stamp(15, 5, "none"), "keys=15 cols=5 radius=9 config=none");
}

#[test]
fn keys_show_buttons_arrows_and_blanks() {
    let button = ButtonConfig {
        index: 0,
        label: "Browser".into(),
        glyph: String::new(),
        icon: "/usr/share/icons/hicolor/web-browser.png".into(),
        bg: "#000000".into(),
        fg: "#ffffff".into(),
        action: "exec:firefox".into(),
    };
    let page = PageConfig { buttons: vec![button] };
    let cfg = DeckConfig {
        brightness: 70,
        default_page: "main".into(),
        auto_paginate: true,
        display_off: false,
        page_order: vec![],
        pages: vec![("extra".into(), PageConfig { buttons: vec![] }), ("main".into(), PageConfig { buttons: vec![] })],
    };
    let previews: Vec<String> = (0..6).map(|i| if i == 0 { "/cache/main/0.png".to_string() } else { String::new() }).collect();
    let ks = keys(&cfg, "main", &page, 6, 3, &previews);
    assert_eq!(ks.len(), 6);
    assert_eq!(ks[0].kind, "button");
    assert_eq!(ks[0].icon, "web-browser.png");
    assert_eq!(ks[0].preview, "/cache/main/0.png");
    assert_eq!(ks[3].kind, "page");
    assert_eq!(ks[3].target, "extra");
    assert_eq!(ks[3].action, "page:extra");
    assert_eq!(ks[5].kind, "blank");
}

#[test]
fn text_listing_of_devices() {
    assert_eq!(layout("XL"), (8, 4));
    assert_eq!(layout("MK2"), (5, 3));
    let ds = listed_devices("Mini  serial= A1 \nPedal  serial=P9\n\n  Plus\n");
    assert_eq!(ds.len(), 3);
    assert_eq!((ds[0].kind.as_str(), ds[0].serial.as_str(), ds[0].cols, ds[0].rows, ds[0].pedal), ("Mini", "A1", 3, 2, false));
    assert!(ds[1].pedal);
    assert_eq!((ds[2].kind.as_str(), ds[2].serial.as_str(), ds[2].cols), ("Plus", "", 4));
}

#[test]
fn camera_travel_commits_only_a_restored_placement() {
    let spot = |position: &str| CamPlacement { overlay: true, position: position.to_string() };
    let h = History { stack: vec![spot("top-left"), spot("bottom-right"), spot("top-right")], pos: 1 };
    assert_eq!(settle_travel(&h, -1, true), Ok(Some(0)));
    assert_eq!(settle_travel(&h, 1, true), Ok(Some(2)));
    assert_eq!(settle_travel(&h, -1, false), Err("could not restore the camera placement".to_string()));
    assert_eq!(settle_travel(&h, 2, true), Ok(None));
    assert_eq!(settle_travel(&h, -2, false), Ok(None));
    let flags = h.flags();
    assert!(flags.can_undo && flags.can_redo);
    let top = History { stack: vec![spot("top-left")], pos: 0 };
    let flags = top.flags();
    assert!(!flags.can_undo && !flags.can_redo);
    assert!(top.seek(-1).is_none() && top.seek(1).is_none());
}

#[test]
fn file_name_as_the_path_gives_it() {
    assert_eq!(file_name("/usr/share/icons/web-browser.png"), Some("web-browser.png".to_string()));
    assert_eq!(file_name("icons/firefox.svg/"), Some("firefox.svg".to_string()));
    assert_eq!(file_name("foo.txt/."), Some("foo.txt".to_string()));
    assert_eq!(file_name("./shot.png"), Some("shot.png".to_string()));
    assert_eq!(file_name("icons/.."), None);
    assert_eq!(file_name("/"), None);
    assert_eq!(file_name("."), None);
    assert_eq!(file_name(""), None);
}

#[test]
fn installing_into_a_crlf_file_is_settled_after_once() {
    let input = format!("a.bind({{}})\r\n{REQUIRE_LINE}\r\n\r\nb.bind({{}})\r\n");
    let once = source_text(&input, true);
    assert_eq!(once, format!("a.bind({{}})\n\nb.bind({{}})\n\n{SOURCE_COMMENT}\n{REQUIRE_LINE}\n"));
    assert_eq!(source_text(&once, true), once);
    assert!(sourced(&once));
    let removed = source_text(&once, false);
    assert_eq!(removed, source_text(&input, false));
    assert_eq!(removed, "a.bind({})\n\nb.bind({})\n");
    assert!(!sourced(&removed));
}

#[test]
fn restoring_a_default_that_was_never_saved_names_the_panel() {
    assert_eq!(check_default("omgato-panel", None).unwrap_err(), "no default saved yet - run: omgato-panel save-default");
    assert_eq!(check_default("elgato-panel", None).unwrap_err(), "no default saved yet - run: elgato-panel save-default");
    assert_eq!(check_default("omgato-panel", Some(vec![])).unwrap_err(), "the saved default is empty");
}

#[test]
fn deck_pages_stay_in_name_order() {
    let mut cfg = DeckConfig::default();
    cfg.insert_page("media".into(), PageConfig { buttons: vec![] });
    cfg.insert_page("extra".into(), PageConfig { buttons: vec![] });
    cfg.insert_page("main".into(), PageConfig { buttons: vec![] });
    cfg.insert_page("extra".into(), PageConfig { buttons: vec![] });
    let names: Vec<&str> = cfg.pages.iter().map(|(n, _)| n.as_str()).collect();
    assert_eq!(names, vec!["extra", "main", "media"]);
}

