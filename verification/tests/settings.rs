use cosmic_switch_less::config::{resolve, LoadError, KEY, VERSION};

fn why() -> String {
    "why".to_string()
}

#[test]
fn loaded_settings_are_in_force() {
    let r = resolve(Ok(5), 1);
    assert_eq!(r.config, 5);
    assert_eq!(r.report, None);
}

#[test]
fn missing_settings_are_no_error() {
    let r = resolve(Err(LoadError::GetKey { not_found: true, why: why() }), 1);
    assert_eq!(r.config, 1);
    assert_eq!(r.report, None);
}

#[test]
fn failures_are_reported() {
    let r = resolve(Err(LoadError::Open(why())), 1);
    assert_eq!(r.config, 1);
    assert_eq!(r.report.unwrap(), "cosmic-switch-less: failed to open config helper: why");
    let r = resolve(Err(LoadError::GetKey { not_found: false, why: why() }), 1);
    assert_eq!(r.config, 1);
    assert_eq!(r.report.unwrap(), "cosmic-switch-less: config load error: why");
    let r = resolve(Err(LoadError::Get(why())), 1);
    assert_eq!(r.config, 1);
    assert_eq!(r.report.unwrap(), "cosmic-switch-less: config load error: why");
}

#[test]
fn settings_are_stored_under_one_key() {
    assert_eq!(KEY, "settings");
    assert_eq!(VERSION, 1);
}
