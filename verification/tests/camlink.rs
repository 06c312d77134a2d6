use omgato::camctl::config::Config;
use omgato::camctl::holder::{describe as describe_holders, Holder as CamHolder};
use omgato::camlink::blocker::{claim_body, fresh, identity, obstruction, read_claim, read_owner, safe_name, alive};
use omgato::camlink::holder::{borrowable_unit, describe, remedy, same_processes, Holder};
use omgato::camlink::hypr::Monitor;
use omgato::camlink::obs::Region;
use omgato::camlink::overlay::{busy_message, read_process, stat_running, write_process, ProcessRef};
use omgato::camlink::positioning::{dodge, geometry_fits, pinned_fits, placement, Placement};
use omgato::camlink::procfs::{command_text, ppid_from_status, start_time_from_stat, user_unit_from_cgroup};
use omgato::camlink::state::{borrowed_unit, position_file};
use omgato::camlink::status::{detect_state, needs_holder, pw_state, CamState, PwNode};
use omgato::camlink::dispatch::{
    after_wait, avoid_blocker, borrow_failure, holders_verdict, plan_placement, status_fields, window_requests,
    HolderVerdict,
};
use omgato::camlink::overlay::{is_running, poll_window, settled, viewer_command, Poll, WaitResult};

fn holder(unit: Option<&str>) -> Holder {
    Holder { pid: 1, start: 1, command: "camera".into(), unit: unit.map(str::to_owned) }
}

#[test]
fn borrows_only_when_every_holder_has_the_same_user_unit() {
    assert_eq!(
        borrowable_unit(&[holder(Some("camera.service")), holder(Some("camera.service"))]),
        Some("camera.service".into())
    );
    assert_eq!(
        borrowable_unit(&[holder(Some("camera.service")), holder(Some("other.service"))]),
        None
    );
    assert_eq!(borrowable_unit(&[holder(Some("camera.service")), holder(None)]), None);
}

#[test]
fn compares_both_pid_and_process_start() {
    let first = holder(Some("camera.service"));
    let mut reused = first.clone();
    reused.start += 1;
    assert!(!same_processes(&[first], &[reused]));
}

#[test]
fn same_processes_ignores_order_but_counts_repeats() {
    let a = Holder { pid: 5, start: 9, command: "a".into(), unit: None };
    let b = Holder { pid: 6, start: 9, command: "b".into(), unit: None };
    assert!(same_processes(&[a.clone(), b.clone()], &[b.clone(), a.clone()]));
    assert!(!same_processes(&[a.clone(), a.clone()], &[a.clone()]));
    assert!(same_processes(&[], &[]));
}

#[test]
fn remedy_names_the_unit_then_the_pid() {
    let plain = Holder { pid: 42, start: 0, command: "ffplay".into(), unit: None };
    assert_eq!(remedy(&[plain.clone(), holder(Some("cam.service"))]), "stop it with: systemctl --user stop cam.service");
    assert_eq!(remedy(&[plain]), "stop it with: kill 42");
    assert_eq!(remedy(&[]), "");
}

#[test]
fn describe_shortens_long_commands_by_characters() {
    let long = "é".repeat(70);
    let h = Holder { pid: 3, start: 0, command: long, unit: None };
    let text = describe(&[h, holder(Some("cam.service"))]);
    assert_eq!(text, format!("pid 3 ({}...), cam.service (pid 1)", "é".repeat(57)));
}

fn monitor() -> Monitor {
    Monitor {
        id: 7,
        name: "DP-2".into(),
        x: 1920,
        y: -100,
        width: 3000,
        height: 1800,
        logical_width: 2000,
        logical_height: 1200,
        focused: false,
        reserved: [10, 40, 20, 30],
    }
}

#[test]
fn intersects_obs_region_with_reserved_area() {
    let p = placement(
        &Config::default(),
        &monitor(),
        "bottom-right",
        true,
        Some(Region { x: 1900, y: -100, w: 2100, h: 1100 }),
    );
    assert_eq!(p, Placement { x: 1930, y: -60, w: 1970, h: 1060 });
}

#[test]
fn ignores_an_obs_region_outside_the_monitor() {
    let p = placement(
        &Config::default(),
        &monitor(),
        "bottom-right",
        true,
        Some(Region { x: -4000, y: -4000, w: 100, h: 100 }),
    );
    assert_eq!(p, Placement { x: 1930, y: -60, w: 1970, h: 1130 });
}

#[test]
fn brings_a_persisted_rectangle_back_after_a_display_change() {
    let p = placement(&Config::default(), &monitor(), "rect:-1200,600,600,400", false, None);
    assert_eq!(p, Placement { x: 1920, y: 600, w: 600, h: 400 });
}

#[test]
fn fits_an_oversized_corner_placement_on_screen() {
    let cfg = Config { size: [u32::MAX, u32::MAX], margin: u32::MAX, ..Config::default() };
    let p = placement(&cfg, &monitor(), "bottom-right", false, None);
    assert_eq!(p, Placement { x: 1930, y: -60, w: 1970, h: 1130 });
}

#[test]
fn dodges_to_the_other_side_of_a_left_panel() {
    let overlay = Placement { x: 1930, y: 0, w: 320, h: 180 };
    let blocker = Placement { x: 1930, y: -60, w: 400, h: 600 };
    assert_eq!(dodge(&overlay, &blocker, &monitor(), 18), Some(Placement { x: 2348, ..overlay }));
}

#[test]
fn obstruction_is_the_box_around_overlapped_claims() {
    let overlay = Placement { x: 100, y: 100, w: 200, h: 100 };
    let a = Placement { x: 50, y: 120, w: 100, h: 10 };
    let b = Placement { x: 250, y: 90, w: 100, h: 50 };
    let far = Placement { x: 1000, y: 1000, w: 10, h: 10 };
    assert_eq!(obstruction(&overlay, &[a, far, b]), Some(Placement { x: 50, y: 90, w: 300, h: 50 }));
    assert_eq!(obstruction(&overlay, &[far]), None);
    assert_eq!(obstruction(&overlay, &[]), None);
}

#[test]
fn owner_names_become_safe_file_names() {
    assert_eq!(safe_name("../panel 1"), ".._panel_1");
    assert_eq!(safe_name(""), "panel");
    assert_eq!(safe_name("ok-name_2.x"), "ok-name_2.x");
}

#[test]
fn claims_read_back_as_written() {
    let rect = Placement { x: -5, y: 10, w: 300, h: 40 };
    let body = claim_body(&rect, &identity(77, Some(1234)), 900);
    assert_eq!(body, "rect:-5,10,300,40\n77 1234\n900\n");
    let (r, owner, issued) = read_claim(&body).unwrap();
    assert_eq!(r, rect);
    assert_eq!(owner, "77 1234");
    assert_eq!(issued.as_deref(), Some("900"));
    assert_eq!(read_owner(&owner), Some((77, Some("1234".to_string()))));
    assert_eq!(read_claim("garbage\n77\n"), None);
    assert_eq!(read_claim("rect:1,2,3,4\n"), None);
    assert_eq!(identity(5, None), "5");
}

#[test]
fn lease_identity_checks_the_start_time() {
    assert!(alive(&Some("55".into()), Some(55), false));
    assert!(!alive(&Some("0".into()), Some(55), true));
    assert!(!alive(&Some("55".into()), None, true));
    assert!(alive(&None, None, true));
    assert_eq!(read_owner("not-a-pid"), None);
}

#[test]
fn leases_expire_after_fifteen_seconds() {
    assert_eq!(fresh(Some("1000"), Some(16000)), Some(true));
    assert_eq!(fresh(Some("1000"), Some(16001)), Some(false));
    assert_eq!(fresh(Some("2000"), Some(1000)), Some(false));
    assert_eq!(fresh(Some("soon"), Some(1000)), None);
    assert_eq!(fresh(None, Some(1000)), None);
}

#[test]
fn reads_process_files() {
    let stat = "1234 (my (odd) prog) S 1 2 3 4 5 6 7 8 9 10 11 12 13 14 15 16 17 18 424242 20";
    assert_eq!(start_time_from_stat(stat), Some(424242));
    assert_eq!(start_time_from_stat("no paren here"), None);
    assert!(stat_running(stat));
    assert!(!stat_running("1 (mpv) Z 0"));
    assert_eq!(ppid_from_status("Name:\tx\nPPid:\t  812\nUid: 1\n"), Some(812));
    assert_eq!(ppid_from_status("Name:\tx\n"), None);
    let cgroup = "0::/system.slice/camera.service\n0::/user.slice/user-1000.slice/user@1000.service/app.slice/camera.service\n";
    assert_eq!(user_unit_from_cgroup(cgroup, 1000), Some("camera.service".into()));
    assert_eq!(user_unit_from_cgroup(cgroup, 1001), None);
}

#[test]
fn pid_file_round_trips() {
    let p = ProcessRef { pid: 31, start: Some(99) };
    let text = write_process(p);
    assert_eq!(text, "31 99");
    let back = read_process(&text).unwrap();
    assert_eq!((back.pid, back.start), (31, Some(99)));
    let bare = read_process("31 later").unwrap();
    assert_eq!((bare.pid, bare.start), (31, None));
    assert!(read_process("").is_none());
}

#[test]
fn busy_device_message_names_holder_and_remedy() {
    let h = Holder { pid: 8, start: 0, command: "obs".into(), unit: None };
    assert_eq!(busy_message("video0", &[h]), "video0 is already in use by pid 8 (obs); stop it with: kill 8");
}

#[test]
fn state_files_live_in_the_run_directory() {
    assert_eq!(position_file("/run/user/1000/camlink-ctl"), "/run/user/1000/camlink-ctl/position");
    assert_eq!(borrowed_unit("/tmp/x/"), "/tmp/x/borrowed_unit");
}

#[test]
fn camera_state_follows_pipewire_then_holder() {
    assert!(matches!(detect_state(true, Some("running".into()), None), CamState::Disabled));
    assert_eq!(detect_state(false, Some("running".into()), None), CamState::On("PipeWire client".into()));
    assert_eq!(detect_state(false, Some("running".into()), Some("obs".into())), CamState::On("obs".into()));
    assert_eq!(detect_state(false, Some("suspended".into()), None), CamState::Off("suspended".into()));
    assert_eq!(detect_state(false, None, Some("ffplay".into())), CamState::On("ffplay".into()));
    assert_eq!(detect_state(false, None, None), CamState::Disconnected);
    assert!(needs_holder(false, &None));
    assert!(!needs_holder(false, &Some("idle".into())));
}

#[test]
fn a_bare_size_hangs_from_the_bar_at_the_right_edge() {
    assert_eq!(avoid_blocker("300x200", &monitor(), false), Ok(Placement { x: 3600, y: -60, w: 300, h: 200 }));
}

#[test]
fn a_rectangle_on_a_named_output_is_relative_to_it() {
    assert_eq!(avoid_blocker("10,20 30x40", &monitor(), true), Ok(Placement { x: 1930, y: -80, w: 30, h: 40 }));
    assert_eq!(avoid_blocker("10,20 30x40", &monitor(), false), Ok(Placement { x: 10, y: 20, w: 30, h: 40 }));
}

#[test]
fn avoid_rejects_other_text() {
    assert_eq!(
        avoid_blocker("nonsense", &monitor(), false),
        Err("avoid: expected \"WxH\" or \"X,Y WxH\", got \"nonsense\"".to_string())
    );
    let mut far = monitor();
    far.x = i32::MAX - 5;
    assert_eq!(
        avoid_blocker("10,20 30x40", &far, true),
        Err("avoid: horizontal coordinate is out of range".to_string())
    );
}

#[test]
fn fullscreen_placement_ignores_claims_and_persists_nothing() {
    let claim = Placement { x: 1930, y: -60, w: 1970, h: 1130 };
    let (p, persist) = plan_placement(&Config::default(), &monitor(), "bottom-right", true, None, &[claim]);
    assert_eq!(p, Placement { x: 1930, y: -60, w: 1970, h: 1130 });
    assert_eq!(persist, None);
}

#[test]
fn a_moved_rectangle_is_persisted_again() {
    let (p, persist) = plan_placement(&Config::default(), &monitor(), "rect:-1200,600,600,400", false, None, &[]);
    assert_eq!(p, Placement { x: 1920, y: 600, w: 600, h: 400 });
    assert_eq!(persist, Some("rect:1920,600,600,400".to_string()));
}

#[test]
fn window_requests_pin_only_unpinned_windows() {
    let p = Placement { x: -5, y: 7, w: 320, h: 180 };
    let r = window_requests("0xabc", &p, false);
    assert_eq!(
        r,
        vec![
            "/dispatch hl.dsp.window.resize({ x = 320, y = 180, exact = true, window = \"address:0xabc\" })".to_string(),
            "/dispatch hl.dsp.window.move({ x = -5, y = 7, exact = true, window = \"address:0xabc\" })".to_string(),
            "/dispatch hl.dsp.window.pin({ window = \"address:0xabc\" })".to_string(),
        ]
    );
    assert_eq!(window_requests("0xabc", &p, true).len(), 2);
}

#[test]
fn status_fields_name_the_holder() {
    let (alt, class, tip) = status_fields(&CamState::On("ffplay".into()));
    assert_eq!((alt, class, tip.as_str()), ("on", "on", "Camera ON (ffplay)"));
    assert_eq!(status_fields(&CamState::Disconnected).2, "Cam Link 4K not detected");
}

#[test]
fn holders_decide_whether_to_borrow() {
    assert!(matches!(holders_verdict(&[], None), HolderVerdict::Free));
    let mixed = [holder(Some("camera.service")), holder(None)];
    match holders_verdict(&mixed, None) {
        HolderVerdict::Refuse(m) => assert!(m.starts_with("camera is held by ")),
        other => panic!("unexpected {other:?}"),
    }
    let one = [holder(Some("camera.service"))];
    match holders_verdict(&one, Some("other.service".into())) {
        HolderVerdict::ReturnFirst { previous, unit } => {
            assert_eq!(previous, "other.service");
            assert_eq!(unit, "camera.service");
        }
        other => panic!("unexpected {other:?}"),
    }
    match holders_verdict(&one, Some("camera.service".into())) {
        HolderVerdict::Borrow(u) => assert_eq!(u, "camera.service"),
        other => panic!("unexpected {other:?}"),
    }
}

#[test]
fn borrow_failure_adds_the_give_back_error() {
    assert_eq!(borrow_failure("stop failed", &Ok(())), "stop failed");
    assert_eq!(borrow_failure("stop failed", &Err("start failed".into())), "stop failed; start failed");
}

#[test]
fn a_dead_viewer_gives_the_device_back() {
    let died = after_wait(&WaitResult::Died);
    assert!(!died.place && died.give_back && died.status == 1);
    assert_eq!(died.notice, Some("Cam Link 4K receiving no HDMI signal. Power on the source and try again."));
    let mapped = after_wait(&WaitResult::Mapped("0x1".into()));
    assert!(mapped.place && mapped.notice.is_none());
    let waiting = after_wait(&WaitResult::Timeout);
    assert!(!waiting.place && !waiting.give_back && waiting.status == 0);
}

#[test]
fn pipewire_state_of_the_first_camera_node() {
    let node = |class: &str, desc: &str, name: &str, state: &str| PwNode {
        media_class: class.into(),
        description: desc.into(),
        name: name.into(),
        state: state.into(),
    };
    let nodes = [
        node("Audio/Source", "Cam Link 4K", "x", "running"),
        node("Video/Source", "Cam Link 4K", "v4l2", "suspended"),
        node("Video/Source", "other", "Cam_Link_4K", "idle"),
    ];
    assert_eq!(pw_state(&nodes, "Cam_Link_4K"), Some("suspended".to_string()));
    assert_eq!(pw_state(&nodes[2..], "Cam_Link_4K"), Some("idle".to_string()));
    assert_eq!(pw_state(&nodes[..1], "Cam_Link_4K"), None);
}

#[test]
fn viewer_command_sizes_window_and_capture() {
    let argv = viewer_command(&Config::default(), "/dev/video3");
    assert_eq!(argv[0], "mpv");
    assert!(argv.iter().any(|a| a == "--title=cam-overlay"));
    assert!(argv.iter().any(|a| a == "--geometry=320x180"));
    assert_eq!(argv.last().unwrap(), "av://v4l2:/dev/video3");
    assert!(argv.iter().any(|a| a == "--demuxer-lavf-o=video_size=1280x720,framerate=30"));
}

#[test]
fn running_trusts_a_recorded_start_time() {
    let stored = Some(ProcessRef { pid: 10, start: Some(5) });
    let r = is_running(stored, true, None, false, None);
    assert!(r.running && !r.remove_record && r.record.is_none());
}

#[test]
fn running_upgrades_a_record_without_start_time() {
    let stored = Some(ProcessRef { pid: 10, start: None });
    let r = is_running(stored, true, Some(10), true, Some(77));
    assert!(r.running && !r.remove_record);
    let rec = r.record.unwrap();
    assert_eq!((rec.pid, rec.start), (10, Some(77)));
}

#[test]
fn running_falls_back_to_the_window_process() {
    let r = is_running(None, false, Some(12), true, Some(3));
    assert!(r.running && r.remove_record);
    assert_eq!(r.record.map(|p| (p.pid, p.start)), Some((12, Some(3))));
    let gone = is_running(Some(ProcessRef { pid: 10, start: Some(5) }), false, Some(0), true, None);
    assert!(!gone.running && gone.remove_record && gone.record.is_none());
}

#[test]
fn commands_read_from_cmdline_or_name() {
    assert_eq!(command_text("mpv\0--title=x\0\0", "mpv\n"), "mpv --title=x");
    assert_eq!(command_text("", " kworker \n"), "kworker");
}

#[test]
fn waiting_for_the_window() {
    assert!(matches!(poll_window(false, Some((true, "0x1".into()))), Poll::Died));
    assert!(matches!(poll_window(true, None), Poll::Again));
    assert!(matches!(poll_window(true, Some((false, "0x1".into()))), Poll::Again));
    match poll_window(true, Some((true, "0x1".into()))) {
        Poll::Settle(a) => assert_eq!(a, "0x1"),
        other => panic!("unexpected {other:?}"),
    }
    assert!(matches!(settled("0x1".into(), true), WaitResult::Mapped(a) if a == "0x1"));
    assert!(matches!(settled("0x1".into(), false), WaitResult::Died));
}

#[test]
fn camctl_describe_counts_characters() {
    let wide = CamHolder { pid: 9, command: "é".repeat(31), unit: None };
    assert_eq!(describe_holders(&[wide]), format!("pid 9 ({})", "é".repeat(31)));
    let long = CamHolder { pid: 7, command: "é".repeat(61), unit: None };
    assert_eq!(describe_holders(&[long]), format!("pid 7 ({}...)", "é".repeat(57)));
    let unit = CamHolder { pid: 3, command: "obs".into(), unit: Some("obs.service".into()) };
    let short = CamHolder { pid: 4, command: "cheese".into(), unit: None };
    assert_eq!(describe_holders(&[unit, short]), "obs.service (pid 3), pid 4 (cheese)");
}

#[test]
fn monitor_geometry_that_the_placement_can_use() {
    assert!(geometry_fits(&monitor()));
    let mut m = monitor();
    m.reserved = [-5, -5, -5, -5];
    assert!(geometry_fits(&m));
    let mut m = monitor();
    m.logical_width = 0;
    assert!(!geometry_fits(&m));
    let mut m = monitor();
    m.x = i32::MAX - 10;
    m.reserved = [0, 0, 0, 0];
    assert!(geometry_fits(&m));
    assert!(pinned_fits(&m, "rect:1,2,3,4", false));
    m.x = i32::MAX;
    assert!(!geometry_fits(&m));
    m.reserved = [-5, 0, 0, 0];
    assert!(geometry_fits(&m));
    assert!(!pinned_fits(&m, "rect:1,2,3,4", false));
    assert!(pinned_fits(&m, "rect:1,2,3,4", true));
    assert!(pinned_fits(&m, "top-left", false));
    let mut m = monitor();
    m.reserved = [i32::MIN, 0, i32::MIN, 0];
    assert!(!geometry_fits(&m));
}
