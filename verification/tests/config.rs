use auto_boya::config::{set_config, Config, Setting};

fn base() -> Config {
    Config {
        chrome_binary: "/usr/bin/chromium".to_string(),
        chrome_driver: "/usr/bin/chromedriver".to_string(),
        driver_port: "9515".to_string(),
        account: "student".to_string(),
        password: "SECRET-REDACTED".to_string(),
    }
}

fn none() -> Setting {
    Setting { chrome_binary: None, chrome_driver: None, driver_port: None, account: None, password: None }
}

#[test]
fn empty_setting_changes_nothing() {
    assert_eq!(set_config(base(), none()), base());
}

#[test]
fn given_fields_replace_others_stay() {
    let set = Setting { driver_port: Some("4444".to_string()), account: Some("other".to_string()), ..none() };
    let cfg = set_config(base(), set);
    assert_eq!(cfg.driver_port, "4444");
    assert_eq!(cfg.account, "other");
    assert_eq!(cfg.chrome_binary, "/usr/bin/chromium");
    assert_eq!(cfg.chrome_driver, "/usr/bin/chromedriver");
    assert_eq!(cfg.password, "SECRET-REDACTED");
}

#[test]
fn every_field_can_be_set() {
    let set = Setting {
        chrome_binary: Some("b".to_string()),
        chrome_driver: Some("d".to_string()),
        driver_port: Some("p".to_string()),
        account: Some("a".to_string()),
        password: Some("w".to_string()),
    };
    let cfg = set_config(base(), set);
    assert_eq!(
        cfg,
        Config {
            chrome_binary: "b".to_string(),
            chrome_driver: "d".to_string(),
            driver_port: "p".to_string(),
            account: "a".to_string(),
            password: "w".to_string(),
        }
    );
}

#[test]
fn empty_string_is_a_value() {
    let set = Setting { password: Some(String::new()), ..none() };
    assert_eq!(set_config(base(), set).password, "");
}

#[test]
fn setting_twice_is_setting_once() {
    let set = Setting { chrome_binary: Some("x".to_string()), ..none() };
    let once = set_config(base(), set.clone());
    let twice = set_config(once.clone(), set);
    assert_eq!(once, twice);
}

#[test]
fn later_setting_wins() {
    let first = Setting { account: Some("first".to_string()), driver_port: Some("1".to_string()), ..none() };
    let later = Setting { account: Some("later".to_string()), ..none() };
    let cfg = set_config(set_config(base(), first), later);
    assert_eq!(cfg.account, "later");
    assert_eq!(cfg.driver_port, "1");
}
