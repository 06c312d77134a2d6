use omgato::keylight::config::{bounded, select, validate_cache, Cache, Light, MAX_LIGHTS, MAX_NAME_BYTES};
use omgato::keylight::discover::{
    arp_entries, browse_entries, candidates, discovered, parse_txt_mac, read_bounded, take_found, valid_mac,
    MAX_DISCOVERY_OUTPUT_BYTES, MAX_HOST_BYTES,
};
use omgato::keylight::light::{first, kelvin_to_mired, mired_to_kelvin, should_retry, LightPatch, LightState, LightsResponse};

fn light(index: usize) -> Light {
    Light {
        name: format!("Light {index}"),
        ip: format!("192.0.2.{}", index + 1),
        port: 9123,
        mac: format!("00:11:22:33:44:{index:02X}"),
    }
}

#[test]
fn bounds_cached_device_state() {
    let cache = bounded(Cache { lights: (0..MAX_LIGHTS + 8).map(light).collect() });
    assert_eq!(cache.lights.len(), MAX_LIGHTS);
}

#[test]
fn rejects_oversized_or_non_ipv4_fields() {
    let mut candidate = light(0);
    candidate.name = "x".repeat(MAX_NAME_BYTES + 1);
    assert!(candidate.validate().is_err());

    candidate = light(0);
    candidate.ip = "not-an-address".into();
    assert!(candidate.validate().is_err());

    candidate = light(0);
    candidate.mac = "not a mac".into();
    assert!(candidate.validate().is_err());
}

#[test]
fn validation_reasons_and_address_rules() {
    assert_eq!(light(3).validate(), Ok(()));
    let mut l = light(0);
    l.name = String::new();
    assert_eq!(l.validate(), Err("invalid display name length"));
    l = light(0);
    l.name = "bad\u{7}name".into();
    assert_eq!(l.validate(), Err("display name contains control characters"));
    l = light(0);
    l.ip = "192.168.001.2".into();
    assert_eq!(l.validate(), Err("invalid IPv4 address"));
    l.ip = "256.1.1.1".into();
    assert_eq!(l.validate(), Err("invalid IPv4 address"));
    l.ip = "10.0.0.1".into();
    l.port = 0;
    assert_eq!(l.validate(), Err("invalid port"));
    l = light(0);
    l.mac = "a".repeat(65);
    assert_eq!(l.validate(), Err("invalid MAC address"));
    l = light(0);
    l.name = "é".repeat(64);
    assert_eq!(l.validate(), Ok(()));
    l.name = "é".repeat(65);
    assert_eq!(l.validate(), Err("invalid display name length"));
}

#[test]
fn bounded_drops_invalid_lights_before_capping() {
    let mut lights: Vec<Light> = (0..3).map(light).collect();
    lights[1].port = 0;
    let cache = bounded(Cache { lights });
    assert_eq!(cache.lights.iter().map(|l| l.name.as_str()).collect::<Vec<_>>(), vec!["Light 0", "Light 2"]);
}

#[test]
fn cache_validation_names_the_first_problem() {
    assert_eq!(validate_cache(&Cache { lights: (0..MAX_LIGHTS + 1).map(light).collect() }), Err("too many lights"));
    let mut lights: Vec<Light> = (0..3).map(light).collect();
    lights[2].ip = "x".into();
    assert_eq!(validate_cache(&Cache { lights }), Err("invalid IPv4 address"));
    assert_eq!(validate_cache(&Cache::default()), Ok(()));
}

#[test]
fn url_joins_address_port_and_path() {
    assert_eq!(light(0).url("/elgato/lights"), "http://192.0.2.1:9123/elgato/lights");
}

#[test]
fn exact_matches_win_over_substrings() {
    let mut a = light(0);
    a.name = "Key".into();
    let mut b = light(1);
    b.name = "Key Light".into();
    let cache = Cache { lights: vec![a, b] };
    let names = |v: Vec<&Light>| v.iter().map(|l| l.name.clone()).collect::<Vec<_>>();
    assert_eq!(names(select(&cache, "key")), vec!["Key"]);
    assert_eq!(names(select(&cache, "light")), vec!["Key Light"]);
    assert_eq!(names(select(&cache, "all")), vec!["Key", "Key Light"]);
    assert_eq!(names(select(&cache, "192.0.2.2")), vec!["Key Light"]);
    assert_eq!(names(select(&cache, "00:11:22:33:44:00")), vec!["Key"]);
    assert!(select(&cache, "desk").is_empty());
}

fn service(index: usize) -> String {
    format!(
        "=;eth0;IPv4;Light {index};_elg._tcp;local;light-{index}.local;192.0.2.{};9123;\"id=00:11:22:33:44:{index:02X}\"\n",
        index + 1
    )
}

#[test]
fn caps_mdns_services() {
    let output: String = (0..MAX_LIGHTS + 8).map(service).collect();
    let (entries, dropped) = browse_entries(output.as_bytes()).unwrap();
    assert_eq!(entries.len(), MAX_LIGHTS);
    assert_eq!(dropped, 8);
}

#[test]
fn rejects_oversized_discovery_output() {
    let output = vec![b'x'; MAX_DISCOVERY_OUTPUT_BYTES + 1];
    assert!(read_bounded(output, MAX_DISCOVERY_OUTPUT_BYTES, "test").is_err());
}

#[test]
fn read_bounded_error_names_the_limit() {
    assert_eq!(read_bounded(vec![1, 2, 3], 2, "ip"), Err("ip: output exceeds 2 bytes".to_string()));
    assert_eq!(read_bounded(vec![1, 2], 2, "ip"), Ok(vec![1, 2]));
}

#[test]
fn rejects_unbounded_or_invalid_mdns_fields() {
    let oversized_host = "x".repeat(MAX_HOST_BYTES + 1);
    let output = format!(
        "=;eth0;IPv4;Light;_elg._tcp;local;{oversized_host};192.0.2.1;9123;\"id=00:11:22:33:44:55\"\n\
         =;eth0;IPv4;Light;_elg._tcp;local;valid.local;not-an-ip;9123;\"id=00:11:22:33:44:55\"\n"
    );
    let (entries, _) = browse_entries(output.as_bytes()).unwrap();
    assert_eq!(entries.len(), 1);
    let valid = entries.iter().find(|(host, _)| host == "valid.local").unwrap();
    assert!(valid.1.ipv4.is_none());
}

#[test]
fn browse_keeps_first_port_and_first_mac() {
    let output = "+;eth0;IPv4;x;_elg._tcp;local\n\
                  =;eth0;IPv6;Light;_elg._tcp;local;a.local;fe80::1;9123;\"id=aa:bb\"\n\
                  =;eth0;IPv4;Light;_elg._tcp;local;a.local;10.0.0.5;80;\"id=cc:dd\"\n";
    let (entries, dropped) = browse_entries(output.as_bytes()).unwrap();
    assert_eq!(dropped, 0);
    assert_eq!(entries.len(), 1);
    let e = &entries[0].1;
    assert_eq!(e.port, 9123);
    assert_eq!(e.ipv4.as_deref(), Some("10.0.0.5"));
    assert_eq!(e.mac.as_deref(), Some("AA:BB"));
    assert_eq!(browse_entries(&[0xff, 0xfe]).unwrap_err(), "avahi-browse: invalid UTF-8");
}

#[test]
fn txt_records_and_macs() {
    assert_eq!(parse_txt_mac("\"md=Elgato\" \"id=3c:6a:9d:24:f6:ab\""), Some("3C:6A:9D:24:F6:AB".into()));
    assert_eq!(parse_txt_mac("\"id=zz\""), None);
    assert!(valid_mac("00-11-22"));
    assert!(!valid_mac(""));
    assert!(!valid_mac("00:11:2g"));
}

#[test]
fn neighbour_table_and_candidates() {
    let arp = arp_entries(b"10.0.0.7 dev wlan0 lladdr 3c:6a:9d:24:f6:ab REACHABLE\nfe80::1 dev wlan0 lladdr 00:00:00:00:00:01 STALE\n10.0.0.8 dev wlan0 FAILED\n");
    assert_eq!(arp, vec![("3C:6A:9D:24:F6:AB".to_string(), "10.0.0.7".to_string())]);
    let entry = omgato::keylight::discover::Entry { port: 9123, ipv4: None, mac: Some("3C:6A:9D:24:F6:AB".into()) };
    assert_eq!(candidates(&entry, &arp), vec!["10.0.0.7".to_string()]);
    let both = omgato::keylight::discover::Entry { port: 9123, ipv4: Some("10.0.0.7".into()), mac: Some("3C:6A:9D:24:F6:AB".into()) };
    assert_eq!(candidates(&both, &arp), vec!["10.0.0.7".to_string()]);
}

#[test]
fn found_lights_are_deduplicated_and_sorted() {
    let mut lights = Vec::new();
    let mut b = light(1);
    b.name = "Beta".into();
    let mut a = light(2);
    a.name = "Alpha".into();
    assert_eq!(take_found(&mut lights, b), Ok(()));
    assert_eq!(take_found(&mut lights, a), Ok(()));
    let mut again = light(9);
    again.mac = "00:11:22:33:44:01".into();
    assert_eq!(take_found(&mut lights, again), Ok(()));
    let mut bad = light(4);
    bad.port = 0;
    assert_eq!(take_found(&mut lights, bad), Err("invalid port"));
    assert_eq!(lights.len(), 2);
    let cache = discovered(lights);
    assert_eq!(cache.lights[0].name, "Alpha");
    assert_eq!(cache.lights[1].name, "Beta");
}

#[test]
fn first_state_is_bounded() {
    let s = LightState { on: 1, brightness: 40, temperature: 200 };
    let resp = LightsResponse { number_of_lights: 1, lights: vec![s] };
    assert_eq!(first(resp, "desk"), Ok(s));
    let empty = LightsResponse { number_of_lights: 0, lights: vec![] };
    assert_eq!(first(empty, "desk"), Err("desk: empty lights array".to_string()));
    let many = LightsResponse { number_of_lights: 9, lights: vec![s; 9] };
    assert_eq!(first(many, "desk"), Err("desk: too many light states in response".to_string()));
}

#[test]
fn temperature_conversions() {
    assert_eq!(kelvin_to_mired(5000), 200);
    assert_eq!(kelvin_to_mired(0), 344);
    assert_eq!(kelvin_to_mired(2000), 344);
    assert_eq!(kelvin_to_mired(2900), 344);
    assert_eq!(kelvin_to_mired(7000), 143);
    assert_eq!(mired_to_kelvin(200), 5000);
    assert_eq!(mired_to_kelvin(0), 0);
    assert!(LightPatch::default().is_empty());
    assert!(!LightPatch { on: Some(1), ..Default::default() }.is_empty());
}

#[test]
fn requests_retry_within_the_budget() {
    assert!(should_retry(1, false, 0));
    assert!(should_retry(2, false, 499));
    assert!(!should_retry(3, false, 0));
    assert!(!should_retry(1, false, 500));
    assert!(!should_retry(1, true, 0));
}

#[test]
fn a_loaded_cache_can_be_saved() {
    let mut lights: Vec<Light> = (0..MAX_LIGHTS + 8).map(light).collect();
    lights[0].ip = "not an address".into();
    lights[5].name = String::new();
    assert!(validate_cache(&Cache { lights: lights.clone() }).is_err());
    assert_eq!(validate_cache(&bounded(Cache { lights })), Ok(()));
}

#[test]
fn mireds_survive_a_trip_to_kelvin_and_back() {
    for m in 143u16..=344 {
        assert_eq!(kelvin_to_mired(mired_to_kelvin(m)), m);
    }
    assert_eq!(kelvin_to_mired(0), 344);
    assert_eq!(kelvin_to_mired(2900), 344);
    assert_eq!(kelvin_to_mired(4000), 250);
    assert_eq!(kelvin_to_mired(7000), 143);
    assert!(kelvin_to_mired(3000) >= kelvin_to_mired(3001));
}
