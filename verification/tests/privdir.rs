use omgato::privdir::{private_dir_check, trusted_component_check};

#[test]
fn refuses_a_state_directory_others_can_enter() {
    let err = private_dir_check("/run/user/1000/camlink-ctl", true, 1000, 1000, 0o40777).unwrap_err();
    assert_eq!(err, "/run/user/1000/camlink-ctl is reachable by other users (mode 777); refusing to use it");
}

#[test]
fn refuses_a_link_planted_at_the_state_directory() {
    let err = private_dir_check("/tmp/x", false, 1000, 1000, 0o700).unwrap_err();
    assert!(err.contains("not a directory"), "{err}");
}

#[test]
fn refuses_a_state_directory_of_another_user() {
    let err = private_dir_check("/tmp/x", true, 0, 1000, 0o700).unwrap_err();
    assert_eq!(err, "/tmp/x is owned by uid 0, not 1000; refusing to use it");
}

#[test]
fn accepts_a_private_directory() {
    assert_eq!(private_dir_check("/tmp/x", true, 1000, 1000, 0o40700), Ok(()));
}

#[test]
fn refuses_a_writable_parent_without_the_sticky_bit() {
    let err = trusted_component_check("/tmp/p", "test temp", true, 1000, 1000, 0, 0o777).unwrap_err();
    assert_eq!(
        err,
        "/tmp/p is writable by other users without the sticky bit (mode 777); refusing to use test temp"
    );
    assert_eq!(trusted_component_check("/tmp", "temporary directory", true, 0, 1000, 0, 0o41777), Ok(()));
    let err = trusted_component_check("/srv", "recording directory", true, 42, 1000, 0, 0o755).unwrap_err();
    assert_eq!(err, "/srv is owned by untrusted uid 42; refusing to use recording directory");
    let err = trusted_component_check("/srv/l", "x", false, 0, 1000, 0, 0o755).unwrap_err();
    assert_eq!(err, "/srv/l is not a real directory");
}
