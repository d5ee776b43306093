use session_tree::config::Config;
use session_tree::utils::{to_keybind, IdGenerator, KeybindGenerator};

#[test]
fn keybind_digits() {
    assert_eq!(to_keybind(0), "0");
    assert_eq!(to_keybind(5), "5");
    assert_eq!(to_keybind(9), "9");
}

#[test]
fn keybind_letters() {
    assert_eq!(to_keybind(10), "A");
    assert_eq!(to_keybind(11), "B");
    assert_eq!(to_keybind(35), "Z");
}

#[test]
fn keybind_exhausted() {
    assert_eq!(to_keybind(36), " ");
    assert_eq!(to_keybind(1000), " ");
}

#[test]
fn keybind_generator_sequence() {
    let mut keys = KeybindGenerator::new();
    let all: Vec<String> = (0..37).map(|_| keys.next()).collect();
    let expected: Vec<String> = "0123456789ABCDEFGHIJKLMNOPQRSTUVWXYZ "
        .chars()
        .map(|c| c.to_string())
        .collect();
    assert_eq!(all, expected);
}

#[test]
fn id_generator_counts_up() {
    let mut ids = IdGenerator::new();
    assert_eq!(ids.next(), 0);
    assert_eq!(ids.next(), 1);
    assert_eq!(ids.next(), 2);
}

#[test]
fn config_reads_show_plugins() {
    assert!(Config::from_setting(Some("true".to_string())).show_plugins);
    assert!(!Config::from_setting(Some("false".to_string())).show_plugins);
    assert!(!Config::from_setting(Some("TRUE".to_string())).show_plugins);
    assert!(!Config::from_setting(None).show_plugins);
    assert!(!Config::default().show_plugins);
}
