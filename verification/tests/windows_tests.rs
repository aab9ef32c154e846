use sysmon::windows::{derive_window_id, WindowRegistry};

#[test]
fn window_id_is_prefix_plus_component() {
    assert_eq!(derive_window_id("metrics"), "detached_metrics");
    assert_eq!(derive_window_id(""), "detached_");
}

#[test]
fn open_twice_second_is_rejected() {
    let mut reg = WindowRegistry::new();
    let first = reg.create_detached_window("metrics");
    assert_eq!(first, Ok("detached_metrics".to_string()));
    let second = reg.create_detached_window("metrics");
    assert_eq!(second, Err("Window already exists".to_string()));
}

#[test]
fn different_components_both_open() {
    let mut reg = WindowRegistry::new();
    assert!(reg.create_detached_window("metrics").is_ok());
    assert!(reg.create_detached_window("disks").is_ok());
    assert_eq!(
        reg.create_detached_window("disks"),
        Err("Window already exists".to_string())
    );
}
