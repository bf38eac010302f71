//! The configuration of the assistant, the settings that change it, and the
//! command line.
use vstd::prelude::*;

verus! {

/// The command line: one command.
pub struct Cli {
    pub command: Command,
}

/// What the assistant is asked to do.
pub enum Command {
    /// Ask for a configuration and save it.
    Init,
    /// Show the configuration.
    Show,
    /// Choose a course, with these changes to the configuration.
    Run(Setting),
    /// Change the configuration and save it.
    Update(Setting),
}

/// Changes to the configuration: each field that is given replaces the
/// configured one.
#[derive(Clone, Debug, PartialEq, Eq)]
pub struct Setting {
    /// Path of the Chrome binary.
    pub chrome_binary: Option<String>,
    /// Path of the Chrome driver.
    pub chrome_driver: Option<String>,
    /// Port of the Chrome driver.
    pub driver_port: Option<String>,
    /// The account.
    pub account: Option<String>,
    /// The password.
    pub password: Option<String>,
}

/// The configuration.
#[derive(Clone, Debug, PartialEq, Eq)]
pub struct Config {
    pub chrome_binary: String,
    pub chrome_driver: String,
    pub driver_port: String,
    pub account: String,
    pub password: String,
}

/// A configuration, with its texts as character sequences.
pub struct ConfigView {
    pub chrome_binary: Seq<char>,
    pub chrome_driver: Seq<char>,
    pub driver_port: Seq<char>,
    pub account: Seq<char>,
    pub password: Seq<char>,
}

/// A setting, with its texts as character sequences.
pub struct SettingView {
    pub chrome_binary: Option<Seq<char>>,
    pub chrome_driver: Option<Seq<char>>,
    pub driver_port: Option<Seq<char>>,
    pub account: Option<Seq<char>>,
    pub password: Option<Seq<char>>,
}

/// The text of an optional string.
pub open spec fn text_of(s: Option<String>) -> Option<Seq<char>> {
    match s {
        Some(s) => Some(s@),
        None => None,
    }
}

impl View for Config {
    type V = ConfigView;

    open spec fn view(&self) -> ConfigView {
        ConfigView {
            chrome_binary: self.chrome_binary@,
            chrome_driver: self.chrome_driver@,
            driver_port: self.driver_port@,
            account: self.account@,
            password: self.password@,
        }
    }
}

impl View for Setting {
    type V = SettingView;

    open spec fn view(&self) -> SettingView {
        SettingView {
            chrome_binary: text_of(self.chrome_binary),
            chrome_driver: text_of(self.chrome_driver),
            driver_port: text_of(self.driver_port),
            account: text_of(self.account),
            password: text_of(self.password),
        }
    }
}

/// A field after a change: the new value where one is given, else the
/// current one.
pub open spec fn changed(current: Seq<char>, new: Option<Seq<char>>) -> Seq<char> {
    match new {
        Some(v) => v,
        None => current,
    }
}

/// The configuration `c` with the setting `s` applied.
pub open spec fn apply_setting(c: ConfigView, s: SettingView) -> ConfigView {
    ConfigView {
        chrome_binary: changed(c.chrome_binary, s.chrome_binary),
        chrome_driver: changed(c.chrome_driver, s.chrome_driver),
        driver_port: changed(c.driver_port, s.driver_port),
        account: changed(c.account, s.account),
        password: changed(c.password, s.password),
    }
}

/// The setting that changes nothing.
pub open spec fn no_change() -> SettingView {
    SettingView {
        chrome_binary: None,
        chrome_driver: None,
        driver_port: None,
        account: None,
        password: None,
    }
}

/// One setting after another, as a single setting: a field given by the
/// later one wins.
pub open spec fn then(first: SettingView, later: SettingView) -> SettingView {
    SettingView {
        chrome_binary: if later.chrome_binary is Some { later.chrome_binary } else { first.chrome_binary },
        chrome_driver: if later.chrome_driver is Some { later.chrome_driver } else { first.chrome_driver },
        driver_port: if later.driver_port is Some { later.driver_port } else { first.driver_port },
        account: if later.account is Some { later.account } else { first.account },
        password: if later.password is Some { later.password } else { first.password },
    }
}

/// Applies the setting `set` to the configuration `cfg`: every field that
/// `set` gives replaces the one in `cfg`, the others stay.
pub fn set_config(cfg: Config, set: Setting) -> (r: Config)
    ensures
        r@ == apply_setting(cfg@, set@),
{
    let mut cfg = cfg;
    let Setting { chrome_binary, chrome_driver, driver_port, account, password } = set;
    if let Some(s) = chrome_binary {
        cfg.chrome_binary = s;
    }
    if let Some(s) = chrome_driver {
        cfg.chrome_driver = s;
    }
    if let Some(s) = driver_port {
        cfg.driver_port = s;
    }
    if let Some(s) = account {
        cfg.account = s;
    }
    if let Some(s) = password {
        cfg.password = s;
    }
    cfg
}

/// Every field that a setting gives is stored exactly as given, and every
/// field it does not give keeps its configured value.
pub proof fn lemma_given_fields_stored(c: ConfigView, s: SettingView)
    ensures
        s.chrome_binary matches Some(v) ==> apply_setting(c, s).chrome_binary == v,
        s.chrome_driver matches Some(v) ==> apply_setting(c, s).chrome_driver == v,
        s.driver_port matches Some(v) ==> apply_setting(c, s).driver_port == v,
        s.account matches Some(v) ==> apply_setting(c, s).account == v,
        s.password matches Some(v) ==> apply_setting(c, s).password == v,
        s.chrome_binary is None ==> apply_setting(c, s).chrome_binary == c.chrome_binary,
        s.chrome_driver is None ==> apply_setting(c, s).chrome_driver == c.chrome_driver,
        s.driver_port is None ==> apply_setting(c, s).driver_port == c.driver_port,
        s.account is None ==> apply_setting(c, s).account == c.account,
        s.password is None ==> apply_setting(c, s).password == c.password,
{
}

/// A setting that gives no field leaves the configuration as it was.
pub proof fn lemma_no_change(c: ConfigView)
    ensures
        apply_setting(c, no_change()) == c,
{
}

/// Applying a setting a second time changes nothing more.
pub proof fn lemma_setting_idempotent(c: ConfigView, s: SettingView)
    ensures
        apply_setting(apply_setting(c, s), s) == apply_setting(c, s),
{
}

/// Two settings applied one after the other act as one setting in which
/// the later one wins.
pub proof fn lemma_later_setting_wins(c: ConfigView, first: SettingView, later: SettingView)
    ensures
        apply_setting(apply_setting(c, first), later) == apply_setting(c, then(first, later)),
{
}

/// A setting that gives every field makes the configuration it gives,
/// whatever the configuration was.
pub proof fn lemma_full_setting(c1: ConfigView, c2: ConfigView, s: SettingView)
    requires
        s.chrome_binary is Some,
        s.chrome_driver is Some,
        s.driver_port is Some,
        s.account is Some,
        s.password is Some,
    ensures
        apply_setting(c1, s) == apply_setting(c2, s),
{
}

} // verus!
