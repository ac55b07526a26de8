//! Configuration: built-in defaults, the `KEY=value` configuration file, and
//! overrides taken from the environment.
//!
//! Settings that hold fractional quantities (the tariff and the wattage
//! figures) are recognised here but their values are handed back to the
//! caller to read, since this crate holds no floating-point values.
use vstd::prelude::*;
use crate::text::{
    chars_of, eq_ignore_ascii_case, equals_ignore_ascii_case, is_prefix, list_entries, parse_u16,
    parse_u32, parse_u64, parse_unsigned, split_list, starts_with, str_eq, strip_char, string_of,
    trim, trim_chars, trim_matches_char, first_index_of, find_char, decimal, lemma_parse_decimal,
};
use vstd::string::StringExecFns;
use crate::sensors::{FileRead, FileReadModel};

verus! {

/// The settings whose values are fractional numbers.
#[derive(Clone, Copy, PartialEq, Eq, Structural, Debug)]
pub enum FloatSetting {
    TariffEurKwh,
    HddActiveW,
    HddStandbyW,
    SsdActiveW,
    SsdIdleW,
    MaxPowerAlertWatts,
}

/// A setting whose fractional value was found, in the order found:
/// which setting, and the text to read it from.
pub struct FloatAssignment {
    pub setting: FloatSetting,
    pub text: String,
}

/// The configuration of the monitor (all settings but the fractional ones).
pub struct Config {
    pub sample_interval: u64,
    pub currency: String,
    pub telegram_enabled: bool,
    pub telegram_bot_token: String,
    pub telegram_chat_id: String,
    pub report_hour: u32,
    pub report_minute: u32,
    pub telegram_report_interval_hours: u32,
    pub host_label: String,
    pub retention_days: u32,
    pub csv_export_enabled: bool,
    pub mqtt_enabled: bool,
    pub mqtt_host: String,
    pub mqtt_port: u16,
    pub mqtt_username: String,
    pub mqtt_password: String,
    pub mqtt_topic_prefix: String,
    pub p2p_enabled: bool,
    pub cluster_secret: String,
    pub p2p_port: u16,
    pub p2p_peers: Vec<String>,
    pub config_file: String,
    pub state_dir: String,
    pub log_file: String,
    pub csv_file: String,
}

/// The mathematical content of a `Config`.
pub struct ConfigModel {
    pub sample_interval: u64,
    pub currency: Seq<char>,
    pub telegram_enabled: bool,
    pub telegram_bot_token: Seq<char>,
    pub telegram_chat_id: Seq<char>,
    pub report_hour: u32,
    pub report_minute: u32,
    pub telegram_report_interval_hours: u32,
    pub host_label: Seq<char>,
    pub retention_days: u32,
    pub csv_export_enabled: bool,
    pub mqtt_enabled: bool,
    pub mqtt_host: Seq<char>,
    pub mqtt_port: u16,
    pub mqtt_username: Seq<char>,
    pub mqtt_password: Seq<char>,
    pub mqtt_topic_prefix: Seq<char>,
    pub p2p_enabled: bool,
    pub cluster_secret: Seq<char>,
    pub p2p_port: u16,
    pub p2p_peers: Seq<Seq<char>>,
    pub config_file: Seq<char>,
    pub state_dir: Seq<char>,
    pub log_file: Seq<char>,
    pub csv_file: Seq<char>,
}

impl Config {
    /// The content of this configuration.
    pub open spec fn model(&self) -> ConfigModel {
        ConfigModel {
            sample_interval: self.sample_interval,
            currency: self.currency@,
            telegram_enabled: self.telegram_enabled,
            telegram_bot_token: self.telegram_bot_token@,
            telegram_chat_id: self.telegram_chat_id@,
            report_hour: self.report_hour,
            report_minute: self.report_minute,
            telegram_report_interval_hours: self.telegram_report_interval_hours,
            host_label: self.host_label@,
            retention_days: self.retention_days,
            csv_export_enabled: self.csv_export_enabled,
            mqtt_enabled: self.mqtt_enabled,
            mqtt_host: self.mqtt_host@,
            mqtt_port: self.mqtt_port,
            mqtt_username: self.mqtt_username@,
            mqtt_password: self.mqtt_password@,
            mqtt_topic_prefix: self.mqtt_topic_prefix@,
            p2p_enabled: self.p2p_enabled,
            cluster_secret: self.cluster_secret@,
            p2p_port: self.p2p_port,
            p2p_peers: self.p2p_peers@.map_values(|s: String| s@),
            config_file: self.config_file@,
            state_dir: self.state_dir@,
            log_file: self.log_file@,
            csv_file: self.csv_file@,
        }
    }
}

/// The built-in defaults, on a machine named `machine_name`.
pub open spec fn default_model(machine_name: Seq<char>) -> ConfigModel {
    ConfigModel {
        sample_interval: 5,
        currency: "EUR"@,
        telegram_enabled: false,
        telegram_bot_token: Seq::empty(),
        telegram_chat_id: Seq::empty(),
        report_hour: 23,
        report_minute: 55,
        telegram_report_interval_hours: 6,
        host_label: machine_name,
        retention_days: 365,
        csv_export_enabled: true,
        mqtt_enabled: false,
        mqtt_host: "localhost"@,
        mqtt_port: 1883,
        mqtt_username: Seq::empty(),
        mqtt_password: Seq::empty(),
        mqtt_topic_prefix: "server-power-monitor"@,
        p2p_enabled: false,
        cluster_secret: Seq::empty(),
        p2p_port: 7432,
        p2p_peers: Seq::empty(),
        config_file: "server-power-monitor.conf"@,
        state_dir: "./state"@,
        log_file: "./server-power-monitor.log"@,
        csv_file: "./history.csv"@,
    }
}

/// Whether a configured value switches a feature on: `1`, or `true` in any
/// ASCII case.
pub open spec fn flag_value(val: Seq<char>) -> bool {
    val == "1"@ || eq_ignore_ascii_case(val, "true"@)
}

/// Whether a host label asks for the machine's own name.
pub open spec fn is_hostname_placeholder(val: Seq<char>) -> bool {
    val == "$(hostname)"@ || val == "$HOSTNAME"@ || val == "`hostname`"@
}

/// The fractional setting a key names, if it names one.
pub open spec fn float_setting_named(key: Seq<char>) -> Option<FloatSetting> {
    if key == "TARIFF_EUR_KWH"@ {
        Some(FloatSetting::TariffEurKwh)
    } else if key == "HDD_ACTIVE_W"@ {
        Some(FloatSetting::HddActiveW)
    } else if key == "HDD_STANDBY_W"@ {
        Some(FloatSetting::HddStandbyW)
    } else if key == "SSD_ACTIVE_W"@ {
        Some(FloatSetting::SsdActiveW)
    } else if key == "SSD_IDLE_W"@ {
        Some(FloatSetting::SsdIdleW)
    } else if key == "MAX_POWER_ALERT_WATTS"@ {
        Some(FloatSetting::MaxPowerAlertWatts)
    } else {
        None
    }
}

/// The configuration after `key=val`: a numeric setting changes only when
/// `val` reads as a number of its type; a flag becomes `flag_value(val)`;
/// a host label that is a placeholder becomes `machine_name`, an empty one
/// changes nothing; the peer list becomes the entries of `val`; an unknown
/// key, or one of a fractional setting, changes nothing.
pub open spec fn applied(m: ConfigModel, key: Seq<char>, val: Seq<char>, machine_name: Seq<char>) -> ConfigModel {
    if float_setting_named(key) is Some {
        m
    } else if key == "SAMPLE_INTERVAL"@ {
        match parse_unsigned(val, u64::MAX as int) {
            Some(v) => ConfigModel { sample_interval: v as u64, ..m },
            None => m,
        }
    } else if key == "CURRENCY"@ {
        ConfigModel { currency: val, ..m }
    } else if key == "TELEGRAM_ENABLED"@ {
        ConfigModel { telegram_enabled: flag_value(val), ..m }
    } else if key == "TELEGRAM_BOT_TOKEN"@ {
        ConfigModel { telegram_bot_token: val, ..m }
    } else if key == "TELEGRAM_CHAT_ID"@ {
        ConfigModel { telegram_chat_id: val, ..m }
    } else if key == "REPORT_HOUR"@ {
        match parse_unsigned(val, u32::MAX as int) {
            Some(v) => ConfigModel { report_hour: v as u32, ..m },
            None => m,
        }
    } else if key == "REPORT_MINUTE"@ {
        match parse_unsigned(val, u32::MAX as int) {
            Some(v) => ConfigModel { report_minute: v as u32, ..m },
            None => m,
        }
    } else if key == "TELEGRAM_REPORT_INTERVAL_HOURS"@ {
        match parse_unsigned(val, u32::MAX as int) {
            Some(v) => ConfigModel { telegram_report_interval_hours: v as u32, ..m },
            None => m,
        }
    } else if key == "HOST_LABEL"@ {
        if val.len() == 0 {
            m
        } else if is_hostname_placeholder(val) {
            ConfigModel { host_label: machine_name, ..m }
        } else {
            ConfigModel { host_label: val, ..m }
        }
    } else if key == "RETENTION_DAYS"@ {
        match parse_unsigned(val, u32::MAX as int) {
            Some(v) => ConfigModel { retention_days: v as u32, ..m },
            None => m,
        }
    } else if key == "CSV_EXPORT_ENABLED"@ {
        ConfigModel { csv_export_enabled: flag_value(val), ..m }
    } else if key == "MQTT_ENABLED"@ {
        ConfigModel { mqtt_enabled: flag_value(val), ..m }
    } else if key == "MQTT_HOST"@ {
        ConfigModel { mqtt_host: val, ..m }
    } else if key == "MQTT_PORT"@ {
        match parse_unsigned(val, u16::MAX as int) {
            Some(v) => ConfigModel { mqtt_port: v as u16, ..m },
            None => m,
        }
    } else if key == "MQTT_USERNAME"@ {
        ConfigModel { mqtt_username: val, ..m }
    } else if key == "MQTT_PASSWORD"@ {
        ConfigModel { mqtt_password: val, ..m }
    } else if key == "MQTT_TOPIC_PREFIX"@ {
        ConfigModel { mqtt_topic_prefix: val, ..m }
    } else if key == "P2P_ENABLED"@ {
        ConfigModel { p2p_enabled: flag_value(val), ..m }
    } else if key == "CLUSTER_SECRET"@ {
        ConfigModel { cluster_secret: val, ..m }
    } else if key == "P2P_PORT"@ {
        match parse_unsigned(val, u16::MAX as int) {
            Some(v) => ConfigModel { p2p_port: v as u16, ..m },
            None => m,
        }
    } else if key == "P2P_PEERS"@ {
        ConfigModel { p2p_peers: list_entries(val), ..m }
    } else {
        m
    }
}


/// A `String` holding the characters of `s`.
pub fn owned(s: &str) -> (res: String)
    ensures
        res@ == s@,
{
    String::from_str(s)
}

/// Whether `val` switches a feature on.
pub fn flag(val: &[char]) -> (b: bool)
    ensures
        b == flag_value(val@),
{
    let one = chars_of("1");
    let yes = chars_of("true");
    let is_one = val.len() == one.len() && starts_with(val, one.as_slice());
    assert(val@.take(val@.len() as int) =~= val@);
    assert(is_one == (val@ == "1"@));
    is_one || equals_ignore_ascii_case(val, yes.as_slice())
}

/// The strings holding each of `entries`.
pub fn strings_of(entries: &Vec<Vec<char>>) -> (res: Vec<String>)
    ensures
        res@.map_values(|s: String| s@) == entries@.map_values(|v: Vec<char>| v@),
{
    let mut res: Vec<String> = Vec::new();
    let mut i: usize = 0;
    while i < entries.len()
        invariant
            i <= entries.len(),
            res@.map_values(|s: String| s@) == entries@.take(i as int).map_values(|v: Vec<char>| v@),
        decreases entries.len() - i,
    {
        let s = string_of(entries[i].as_slice());
        let ghost before = res@;
        res.push(s);
        assert(res@.map_values(|s: String| s@) =~= before.map_values(|s: String| s@).push(s@));
        assert(entries@.take(i + 1).map_values(|v: Vec<char>| v@) =~= entries@.take(i as int).map_values(
            |v: Vec<char>| v@,
        ).push(entries@[i as int]@));
        i += 1;
    }
    assert(entries@.take(entries.len() as int) =~= entries@);
    res
}

impl Config {
    /// The built-in defaults on a machine named `machine_name`.
    pub fn defaults_for_host(machine_name: &str) -> (c: Config)
        ensures
            c.model() == default_model(machine_name@),
    {
        let c = Config {
            sample_interval: 5,
            currency: owned("EUR"),
            telegram_enabled: false,
            telegram_bot_token: String::new(),
            telegram_chat_id: String::new(),
            report_hour: 23,
            report_minute: 55,
            telegram_report_interval_hours: 6,
            host_label: owned(machine_name),
            retention_days: 365,
            csv_export_enabled: true,
            mqtt_enabled: false,
            mqtt_host: owned("localhost"),
            mqtt_port: 1883,
            mqtt_username: String::new(),
            mqtt_password: String::new(),
            mqtt_topic_prefix: owned("server-power-monitor"),
            p2p_enabled: false,
            cluster_secret: String::new(),
            p2p_port: 7432,
            p2p_peers: Vec::new(),
            config_file: owned("server-power-monitor.conf"),
            state_dir: owned("./state"),
            log_file: owned("./server-power-monitor.log"),
            csv_file: owned("./history.csv"),
        };
        assert(c.p2p_peers@.map_values(|s: String| s@) =~= Seq::<Seq<char>>::empty());
        c
    }

    /// Applies one `key=val` setting, `machine_name` standing in for a host
    /// label placeholder. For a fractional setting nothing changes here and
    /// the setting is returned, for the caller to read `val`.
    pub fn apply_setting(&mut self, key: &str, val: &str, machine_name: &str) -> (res: Option<FloatSetting>)
        ensures
            final(self).model() == applied(old(self).model(), key@, val@, machine_name@),
            res == float_setting_named(key@),
    {
        let v = chars_of(val);
        if str_eq(key, "TARIFF_EUR_KWH") {
            return Some(FloatSetting::TariffEurKwh);
        } else if str_eq(key, "HDD_ACTIVE_W") {
            return Some(FloatSetting::HddActiveW);
        } else if str_eq(key, "HDD_STANDBY_W") {
            return Some(FloatSetting::HddStandbyW);
        } else if str_eq(key, "SSD_ACTIVE_W") {
            return Some(FloatSetting::SsdActiveW);
        } else if str_eq(key, "SSD_IDLE_W") {
            return Some(FloatSetting::SsdIdleW);
        } else if str_eq(key, "MAX_POWER_ALERT_WATTS") {
            return Some(FloatSetting::MaxPowerAlertWatts);
        }
        if str_eq(key, "SAMPLE_INTERVAL") {
            if let Some(n) = parse_u64(v.as_slice()) {
                self.sample_interval = n;
            }
        } else if str_eq(key, "CURRENCY") {
            self.currency = owned(val);
        } else if str_eq(key, "TELEGRAM_ENABLED") {
            self.telegram_enabled = flag(v.as_slice());
        } else if str_eq(key, "TELEGRAM_BOT_TOKEN") {
            self.telegram_bot_token = owned(val);
        } else if str_eq(key, "TELEGRAM_CHAT_ID") {
            self.telegram_chat_id = owned(val);
        } else if str_eq(key, "REPORT_HOUR") {
            if let Some(n) = parse_u32(v.as_slice()) {
                self.report_hour = n;
            }
        } else if str_eq(key, "REPORT_MINUTE") {
            if let Some(n) = parse_u32(v.as_slice()) {
                self.report_minute = n;
            }
        } else if str_eq(key, "TELEGRAM_REPORT_INTERVAL_HOURS") {
            if let Some(n) = parse_u32(v.as_slice()) {
                self.telegram_report_interval_hours = n;
            }
        } else if str_eq(key, "HOST_LABEL") {
            if v.len() > 0 {
                if is_placeholder(val) {
                    self.host_label = owned(machine_name);
                } else {
                    self.host_label = owned(val);
                }
            }
        } else if str_eq(key, "RETENTION_DAYS") {
            if let Some(n) = parse_u32(v.as_slice()) {
                self.retention_days = n;
            }
        } else if str_eq(key, "CSV_EXPORT_ENABLED") {
            self.csv_export_enabled = flag(v.as_slice());
        } else if str_eq(key, "MQTT_ENABLED") {
            self.mqtt_enabled = flag(v.as_slice());
        } else if str_eq(key, "MQTT_HOST") {
            self.mqtt_host = owned(val);
        } else if str_eq(key, "MQTT_PORT") {
            if let Some(n) = parse_u16(v.as_slice()) {
                self.mqtt_port = n;
            }
        } else if str_eq(key, "MQTT_USERNAME") {
            self.mqtt_username = owned(val);
        } else if str_eq(key, "MQTT_PASSWORD") {
            self.mqtt_password = owned(val);
        } else if str_eq(key, "MQTT_TOPIC_PREFIX") {
            self.mqtt_topic_prefix = owned(val);
        } else if str_eq(key, "P2P_ENABLED") {
            self.p2p_enabled = flag(v.as_slice());
        } else if str_eq(key, "CLUSTER_SECRET") {
            self.cluster_secret = owned(val);
        } else if str_eq(key, "P2P_PORT") {
            if let Some(n) = parse_u16(v.as_slice()) {
                self.p2p_port = n;
            }
        } else if str_eq(key, "P2P_PEERS") {
            let entries = split_list(v.as_slice());
            self.p2p_peers = strings_of(&entries);
            assert(entries@.map_values(|e: Vec<char>| e@) =~= list_entries(val@));
        }
        None
    }
}

/// Whether `val` is a host label placeholder.
pub fn is_placeholder(val: &str) -> (b: bool)
    ensures
        b == is_hostname_placeholder(val@),
{
    str_eq(val, "$(hostname)") || str_eq(val, "$HOSTNAME") || str_eq(val, "`hostname`")
}



/// The setting a line of the configuration file makes, if any: blank lines
/// and lines starting with `#` (after trimming) make none, nor do lines
/// without `=`; otherwise the key is the trimmed text before the first
/// `=`, and the value the trimmed text after it with surrounding double,
/// then single, quotes removed.
pub open spec fn conf_line_setting(line: Seq<char>) -> Option<(Seq<char>, Seq<char>)> {
    let t = trim(line);
    if t.len() == 0 || t[0] == '#' {
        None
    } else {
        match first_index_of(t, '=') {
            Some(i) => Some((trim(t.take(i)), strip_char(strip_char(trim(t.skip(i + 1)), '"'), '\''))),
            None => None,
        }
    }
}

/// The configuration after the lines of a configuration file, in order.
pub open spec fn conf_applied(m: ConfigModel, lines: Seq<Seq<char>>, machine_name: Seq<char>) -> ConfigModel
    decreases lines.len(),
{
    if lines.len() == 0 {
        m
    } else {
        let before = conf_applied(m, lines.drop_last(), machine_name);
        match conf_line_setting(lines.last()) {
            Some((k, v)) => applied(before, k, v, machine_name),
            None => before,
        }
    }
}

/// The fractional settings the lines of a configuration file make, in
/// order, with their value texts.
pub open spec fn conf_floats(lines: Seq<Seq<char>>) -> Seq<(FloatSetting, Seq<char>)>
    decreases lines.len(),
{
    if lines.len() == 0 {
        Seq::empty()
    } else {
        let before = conf_floats(lines.drop_last());
        match conf_line_setting(lines.last()) {
            Some((k, v)) => match float_setting_named(k) {
                Some(f) => before.push((f, v)),
                None => before,
            },
            None => before,
        }
    }
}

/// The view of a list of fractional assignments.
pub open spec fn float_assignments_view(v: Seq<FloatAssignment>) -> Seq<(FloatSetting, Seq<char>)> {
    v.map_values(|a: FloatAssignment| (a.setting, a.text@))
}

/// The setting one line of a configuration file makes.
pub fn parse_conf_line(line: &str) -> (res: Option<(String, String)>)
    ensures
        match res {
            Some((k, v)) => conf_line_setting(line@) == Some((k@, v@)),
            None => conf_line_setting(line@) is None,
        },
{
    let chars = chars_of(line);
    let t = trim_chars(chars.as_slice());
    if t.len() == 0 || t[0] == '#' {
        return None;
    }
    match find_char(t.as_slice(), '=') {
        Some(i) => {
            let mut before: Vec<char> = Vec::new();
            let mut after: Vec<char> = Vec::new();
            let mut k: usize = 0;
            while k < t.len()
                invariant
                    i < t.len(),
                    k <= t.len(),
                    k <= i ==> before@ == t@.take(k as int),
                    k > i ==> before@ == t@.take(i as int),
                    k <= i + 1 ==> after@ == Seq::<char>::empty(),
                    k > i + 1 ==> after@ == t@.subrange(i + 1, k as int),
                decreases t.len() - k,
            {
                if k < i {
                    before.push(t[k]);
                    assert(t@.take(k + 1) =~= t@.take(k as int).push(t@[k as int]));
                } else if k > i {
                    let ghost prev = after@;
                    after.push(t[k]);
                    proof {
                        if k > i + 1 {
                            assert(t@.subrange(i + 1, k + 1) =~= prev.push(t@[k as int]));
                        } else {
                            assert(t@.subrange(i + 1, k + 1) =~= after@);
                        }
                    }
                }
                k += 1;
            }
            proof {
                if t.len() == i + 1 {
                    assert(t@.skip(i + 1) =~= after@);
                } else {
                    assert(t@.skip(i + 1) =~= after@);
                }
            }
            let key = trim_chars(before.as_slice());
            let v1 = trim_chars(after.as_slice());
            let v2 = trim_matches_char(v1.as_slice(), '"');
            let v3 = trim_matches_char(v2.as_slice(), '\'');
            Some((string_of(key.as_slice()), string_of(v3.as_slice())))
        },
        None => None,
    }
}

impl Config {
    /// Applies the lines of a configuration file, in order, and returns the
    /// fractional settings they make, in order, for the caller to read.
    pub fn parse_conf_lines(&mut self, lines: &Vec<String>, machine_name: &str) -> (floats: Vec<FloatAssignment>)
        ensures
            final(self).model() == conf_applied(
                old(self).model(),
                lines@.map_values(|l: String| l@),
                machine_name@,
            ),
            float_assignments_view(floats@) == conf_floats(lines@.map_values(|l: String| l@)),
    {
        let ghost all = lines@.map_values(|l: String| l@);
        let mut floats: Vec<FloatAssignment> = Vec::new();
        let mut i: usize = 0;
        while i < lines.len()
            invariant
                i <= lines.len(),
                all == lines@.map_values(|l: String| l@),
                self.model() == conf_applied(old(self).model(), all.take(i as int), machine_name@),
                float_assignments_view(floats@) == conf_floats(all.take(i as int)),
            decreases lines.len() - i,
        {
            assert(all.take(i + 1).drop_last() =~= all.take(i as int));
            assert(all.take(i + 1).last() == lines@[i as int]@);
            match parse_conf_line(lines[i].as_str()) {
                Some((k, v)) => {
                    let found = self.apply_setting(k.as_str(), v.as_str(), machine_name);
                    match found {
                        Some(f) => {
                            let ghost before = floats@;
                            let text = v;
                            floats.push(FloatAssignment { setting: f, text });
                            assert(float_assignments_view(floats@) =~= float_assignments_view(before).push(
                                (f, text@),
                            ));
                        },
                        None => {},
                    }
                },
                None => {},
            }
            i += 1;
        }
        assert(all.take(lines.len() as int) =~= all);
        floats
    }
}


/// Whether the environment may override the setting `key` (all settings
/// but the per-device wattages of disks).
pub open spec fn env_overridable(key: Seq<char>) -> bool {
    key != "HDD_ACTIVE_W"@ && key != "HDD_STANDBY_W"@ && key != "SSD_ACTIVE_W"@ && key
        != "SSD_IDLE_W"@
}

/// The configuration after the environment variables `vars` (name, value),
/// in order; those that name no overridable setting are ignored.
pub open spec fn env_applied(m: ConfigModel, vars: Seq<(Seq<char>, Seq<char>)>, machine_name: Seq<char>) -> ConfigModel
    decreases vars.len(),
{
    if vars.len() == 0 {
        m
    } else {
        let before = env_applied(m, vars.drop_last(), machine_name);
        let (k, v) = vars.last();
        if env_overridable(k) {
            applied(before, k, v, machine_name)
        } else {
            before
        }
    }
}

/// The fractional settings among the environment variables `vars`, in order.
pub open spec fn env_floats(vars: Seq<(Seq<char>, Seq<char>)>) -> Seq<(FloatSetting, Seq<char>)>
    decreases vars.len(),
{
    if vars.len() == 0 {
        Seq::empty()
    } else {
        let before = env_floats(vars.drop_last());
        let (k, v) = vars.last();
        if env_overridable(k) {
            match float_setting_named(k) {
                Some(f) => before.push((f, v)),
                None => before,
            }
        } else {
            before
        }
    }
}

/// The view of a list of environment variables.
pub open spec fn vars_view(vars: Seq<(String, String)>) -> Seq<(Seq<char>, Seq<char>)> {
    vars.map_values(|p: (String, String)| (p.0@, p.1@))
}

/// The host label to run under: the machine's name when the label is empty
/// or a placeholder (`$(hostname)` or `$HOSTNAME`), else the label itself.
pub open spec fn resolved_host_label(label: Seq<char>, machine_name: Seq<char>) -> Seq<char> {
    if label == "$(hostname)"@ || label == "$HOSTNAME"@ || label.len() == 0 {
        machine_name
    } else {
        label
    }
}

impl Config {
    /// Applies the environment variables `vars` (name, value), in order,
    /// and returns the fractional settings among them, in order.
    pub fn override_from_env(&mut self, vars: &Vec<(String, String)>, machine_name: &str) -> (floats: Vec<FloatAssignment>)
        ensures
            final(self).model() == env_applied(old(self).model(), vars_view(vars@), machine_name@),
            float_assignments_view(floats@) == env_floats(vars_view(vars@)),
    {
        let ghost all = vars_view(vars@);
        let mut floats: Vec<FloatAssignment> = Vec::new();
        let mut i: usize = 0;
        while i < vars.len()
            invariant
                i <= vars.len(),
                all == vars_view(vars@),
                self.model() == env_applied(old(self).model(), all.take(i as int), machine_name@),
                float_assignments_view(floats@) == env_floats(all.take(i as int)),
            decreases vars.len() - i,
        {
            assert(all.take(i + 1).drop_last() =~= all.take(i as int));
            assert(all.take(i + 1).last() == (vars@[i as int].0@, vars@[i as int].1@));
            let key = vars[i].0.as_str();
            let val = vars[i].1.as_str();
            let skip = str_eq(key, "HDD_ACTIVE_W") || str_eq(key, "HDD_STANDBY_W") || str_eq(
                key,
                "SSD_ACTIVE_W",
            ) || str_eq(key, "SSD_IDLE_W");
            if !skip {
                let found = self.apply_setting(key, val, machine_name);
                match found {
                    Some(f) => {
                        let ghost before = floats@;
                        let text = owned(val);
                        floats.push(FloatAssignment { setting: f, text });
                        assert(float_assignments_view(floats@) =~= float_assignments_view(before).push(
                            (f, text@),
                        ));
                    },
                    None => {},
                }
            }
            i += 1;
        }
        assert(all.take(vars.len() as int) =~= all);
        floats
    }

    /// Replaces an empty or placeholder host label by the machine's name.
    pub fn resolve_host_label(&mut self, machine_name: &str)
        ensures
            final(self).model() == (ConfigModel {
                host_label: resolved_host_label(old(self).host_label@, machine_name@),
                ..old(self).model()
            }),
    {
        let label = self.host_label.as_str();
        if str_eq(label, "$(hostname)") || str_eq(label, "$HOSTNAME") || self.host_label.as_str().is_empty() {
            self.host_label = owned(machine_name);
        }
    }
}

impl Default for Config {
    /// The built-in defaults, before the machine's name is known: the host
    /// label is `localhost`, the name used when the machine's cannot be read.
    fn default() -> (c: Config)
        ensures
            c.model() == default_model("localhost"@),
    {
        Config::defaults_for_host("localhost")
    }
}


/// Whether `val` takes effect for `key`: a numeric setting needs a number
/// of its type, a host label must not be empty; any other value of any key
/// takes effect (for unknown and fractional keys, trivially).
pub open spec fn takes_effect(key: Seq<char>, val: Seq<char>) -> bool {
    if float_setting_named(key) is Some {
        true
    } else if key == "SAMPLE_INTERVAL"@ {
        parse_unsigned(val, u64::MAX as int) is Some
    } else if key == "REPORT_HOUR"@ || key == "REPORT_MINUTE"@ || key == "TELEGRAM_REPORT_INTERVAL_HOURS"@
        || key == "RETENTION_DAYS"@ {
        parse_unsigned(val, u32::MAX as int) is Some
    } else if key == "MQTT_PORT"@ || key == "P2P_PORT"@ {
        parse_unsigned(val, u16::MAX as int) is Some
    } else if key == "HOST_LABEL"@ {
        val.len() > 0
    } else {
        true
    }
}

/// A setting that takes effect overrides every earlier setting of the same
/// key: only the last effective value of a key counts.
pub proof fn lemma_effective_setting_overrides(m: ConfigModel, key: Seq<char>, v1: Seq<char>, v2: Seq<char>, machine_name: Seq<char>)
    requires
        takes_effect(key, v2),
    ensures
        applied(applied(m, key, v1, machine_name), key, v2, machine_name) == applied(m, key, v2, machine_name),
{
    let a1 = applied(m, key, v1, machine_name);
    if float_setting_named(key) is Some {
    } else if key == "SAMPLE_INTERVAL"@ {
        assert(applied(a1, key, v2, machine_name) =~= applied(m, key, v2, machine_name));
    } else if key == "CURRENCY"@ {
        assert(applied(a1, key, v2, machine_name) =~= applied(m, key, v2, machine_name));
    } else if key == "TELEGRAM_ENABLED"@ {
        assert(applied(a1, key, v2, machine_name) =~= applied(m, key, v2, machine_name));
    } else if key == "TELEGRAM_BOT_TOKEN"@ {
        assert(applied(a1, key, v2, machine_name) =~= applied(m, key, v2, machine_name));
    } else if key == "TELEGRAM_CHAT_ID"@ {
        assert(applied(a1, key, v2, machine_name) =~= applied(m, key, v2, machine_name));
    } else if key == "REPORT_HOUR"@ {
        assert(applied(a1, key, v2, machine_name) =~= applied(m, key, v2, machine_name));
    } else if key == "REPORT_MINUTE"@ {
        assert(applied(a1, key, v2, machine_name) =~= applied(m, key, v2, machine_name));
    } else if key == "TELEGRAM_REPORT_INTERVAL_HOURS"@ {
        assert(applied(a1, key, v2, machine_name) =~= applied(m, key, v2, machine_name));
    } else if key == "HOST_LABEL"@ {
        assert(applied(a1, key, v2, machine_name) =~= applied(m, key, v2, machine_name));
    } else if key == "RETENTION_DAYS"@ {
        assert(applied(a1, key, v2, machine_name) =~= applied(m, key, v2, machine_name));
    } else if key == "CSV_EXPORT_ENABLED"@ {
        assert(applied(a1, key, v2, machine_name) =~= applied(m, key, v2, machine_name));
    } else if key == "MQTT_ENABLED"@ {
        assert(applied(a1, key, v2, machine_name) =~= applied(m, key, v2, machine_name));
    } else if key == "MQTT_HOST"@ {
        assert(applied(a1, key, v2, machine_name) =~= applied(m, key, v2, machine_name));
    } else if key == "MQTT_PORT"@ {
        assert(applied(a1, key, v2, machine_name) =~= applied(m, key, v2, machine_name));
    } else if key == "MQTT_USERNAME"@ {
        assert(applied(a1, key, v2, machine_name) =~= applied(m, key, v2, machine_name));
    } else if key == "MQTT_PASSWORD"@ {
        assert(applied(a1, key, v2, machine_name) =~= applied(m, key, v2, machine_name));
    } else if key == "MQTT_TOPIC_PREFIX"@ {
        assert(applied(a1, key, v2, machine_name) =~= applied(m, key, v2, machine_name));
    } else if key == "P2P_ENABLED"@ {
        assert(applied(a1, key, v2, machine_name) =~= applied(m, key, v2, machine_name));
    } else if key == "CLUSTER_SECRET"@ {
        assert(applied(a1, key, v2, machine_name) =~= applied(m, key, v2, machine_name));
    } else if key == "P2P_PORT"@ {
        assert(applied(a1, key, v2, machine_name) =~= applied(m, key, v2, machine_name));
    } else if key == "P2P_PEERS"@ {
        assert(applied(a1, key, v2, machine_name) =~= applied(m, key, v2, machine_name));
    }
}

/// The setting keys have these lengths, and those of equal length differ.
proof fn lemma_setting_keys_apart()
    ensures
        "TARIFF_EUR_KWH"@.len() == 14,
        "HDD_ACTIVE_W"@.len() == 12,
        "HDD_STANDBY_W"@.len() == 13,
        "SSD_ACTIVE_W"@.len() == 12,
        "SSD_IDLE_W"@.len() == 10,
        "MAX_POWER_ALERT_WATTS"@.len() == 21,
        "SAMPLE_INTERVAL"@.len() == 15,
        "CURRENCY"@.len() == 8,
        "TELEGRAM_ENABLED"@.len() == 16,
        "TELEGRAM_BOT_TOKEN"@.len() == 18,
        "TELEGRAM_CHAT_ID"@.len() == 16,
        "REPORT_HOUR"@.len() == 11,
        "REPORT_MINUTE"@.len() == 13,
        "TELEGRAM_REPORT_INTERVAL_HOURS"@.len() == 30,
        "HOST_LABEL"@.len() == 10,
        "RETENTION_DAYS"@.len() == 14,
        "CSV_EXPORT_ENABLED"@.len() == 18,
        "MQTT_ENABLED"@.len() == 12,
        "MQTT_HOST"@.len() == 9,
        "MQTT_PORT"@.len() == 9,
        "MQTT_USERNAME"@.len() == 13,
        "MQTT_PASSWORD"@.len() == 13,
        "MQTT_TOPIC_PREFIX"@.len() == 17,
        "P2P_ENABLED"@.len() == 11,
        "CLUSTER_SECRET"@.len() == 14,
        "P2P_PORT"@.len() == 8,
        "P2P_PEERS"@.len() == 9,
        "TARIFF_EUR_KWH"@ != "RETENTION_DAYS"@,
        "TARIFF_EUR_KWH"@ != "CLUSTER_SECRET"@,
        "HDD_ACTIVE_W"@ != "SSD_ACTIVE_W"@,
        "HDD_ACTIVE_W"@ != "MQTT_ENABLED"@,
        "HDD_STANDBY_W"@ != "REPORT_MINUTE"@,
        "HDD_STANDBY_W"@ != "MQTT_USERNAME"@,
        "HDD_STANDBY_W"@ != "MQTT_PASSWORD"@,
        "SSD_ACTIVE_W"@ != "MQTT_ENABLED"@,
        "SSD_IDLE_W"@ != "HOST_LABEL"@,
        "CURRENCY"@ != "P2P_PORT"@,
        "TELEGRAM_ENABLED"@ != "TELEGRAM_CHAT_ID"@,
        "TELEGRAM_BOT_TOKEN"@ != "CSV_EXPORT_ENABLED"@,
        "REPORT_HOUR"@ != "P2P_ENABLED"@,
        "REPORT_MINUTE"@ != "MQTT_USERNAME"@,
        "REPORT_MINUTE"@ != "MQTT_PASSWORD"@,
        "RETENTION_DAYS"@ != "CLUSTER_SECRET"@,
        "MQTT_HOST"@ != "MQTT_PORT"@,
        "MQTT_HOST"@ != "P2P_PEERS"@,
        "MQTT_PORT"@ != "P2P_PEERS"@,
        "MQTT_USERNAME"@ != "MQTT_PASSWORD"@,
{
    reveal_strlit("TARIFF_EUR_KWH");
    reveal_strlit("HDD_ACTIVE_W");
    reveal_strlit("HDD_STANDBY_W");
    reveal_strlit("SSD_ACTIVE_W");
    reveal_strlit("SSD_IDLE_W");
    reveal_strlit("MAX_POWER_ALERT_WATTS");
    reveal_strlit("SAMPLE_INTERVAL");
    reveal_strlit("CURRENCY");
    reveal_strlit("TELEGRAM_ENABLED");
    reveal_strlit("TELEGRAM_BOT_TOKEN");
    reveal_strlit("TELEGRAM_CHAT_ID");
    reveal_strlit("REPORT_HOUR");
    reveal_strlit("REPORT_MINUTE");
    reveal_strlit("TELEGRAM_REPORT_INTERVAL_HOURS");
    reveal_strlit("HOST_LABEL");
    reveal_strlit("RETENTION_DAYS");
    reveal_strlit("CSV_EXPORT_ENABLED");
    reveal_strlit("MQTT_ENABLED");
    reveal_strlit("MQTT_HOST");
    reveal_strlit("MQTT_PORT");
    reveal_strlit("MQTT_USERNAME");
    reveal_strlit("MQTT_PASSWORD");
    reveal_strlit("MQTT_TOPIC_PREFIX");
    reveal_strlit("P2P_ENABLED");
    reveal_strlit("CLUSTER_SECRET");
    reveal_strlit("P2P_PORT");
    reveal_strlit("P2P_PEERS");
    assert("TARIFF_EUR_KWH"@[0] != "RETENTION_DAYS"@[0]);
    assert("TARIFF_EUR_KWH"@[0] != "CLUSTER_SECRET"@[0]);
    assert("HDD_ACTIVE_W"@[0] != "SSD_ACTIVE_W"@[0]);
    assert("HDD_ACTIVE_W"@[0] != "MQTT_ENABLED"@[0]);
    assert("HDD_STANDBY_W"@[0] != "REPORT_MINUTE"@[0]);
    assert("HDD_STANDBY_W"@[0] != "MQTT_USERNAME"@[0]);
    assert("HDD_STANDBY_W"@[0] != "MQTT_PASSWORD"@[0]);
    assert("SSD_ACTIVE_W"@[0] != "MQTT_ENABLED"@[0]);
    assert("SSD_IDLE_W"@[0] != "HOST_LABEL"@[0]);
    assert("CURRENCY"@[0] != "P2P_PORT"@[0]);
    assert("TELEGRAM_ENABLED"@[9] != "TELEGRAM_CHAT_ID"@[9]);
    assert("TELEGRAM_BOT_TOKEN"@[0] != "CSV_EXPORT_ENABLED"@[0]);
    assert("REPORT_HOUR"@[0] != "P2P_ENABLED"@[0]);
    assert("REPORT_MINUTE"@[0] != "MQTT_USERNAME"@[0]);
    assert("REPORT_MINUTE"@[0] != "MQTT_PASSWORD"@[0]);
    assert("RETENTION_DAYS"@[0] != "CLUSTER_SECRET"@[0]);
    assert("MQTT_HOST"@[5] != "MQTT_PORT"@[5]);
    assert("MQTT_HOST"@[0] != "P2P_PEERS"@[0]);
    assert("MQTT_PORT"@[0] != "P2P_PEERS"@[0]);
    assert("MQTT_USERNAME"@[5] != "MQTT_PASSWORD"@[5]);
}

/// A numeric setting given as the decimal text of a number of its type
/// stores that number in its field and leaves every other setting as it
/// was: the sampling interval (`u64`), report hour and minute, interval of
/// status reports and retention days (`u32`), and the MQTT and mesh ports
/// (`u16`).
pub proof fn lemma_numeric_setting_stored(m: ConfigModel, machine_name: Seq<char>, n64: u64, n32: u32, n16: u16)
    ensures
        applied(m, "SAMPLE_INTERVAL"@, decimal(n64 as nat), machine_name) == (ConfigModel { sample_interval: n64, ..m }),
        applied(m, "REPORT_HOUR"@, decimal(n32 as nat), machine_name) == (ConfigModel { report_hour: n32, ..m }),
        applied(m, "REPORT_MINUTE"@, decimal(n32 as nat), machine_name) == (ConfigModel { report_minute: n32, ..m }),
        applied(m, "TELEGRAM_REPORT_INTERVAL_HOURS"@, decimal(n32 as nat), machine_name)
            == (ConfigModel { telegram_report_interval_hours: n32, ..m }),
        applied(m, "RETENTION_DAYS"@, decimal(n32 as nat), machine_name) == (ConfigModel { retention_days: n32, ..m }),
        applied(m, "MQTT_PORT"@, decimal(n16 as nat), machine_name) == (ConfigModel { mqtt_port: n16, ..m }),
        applied(m, "P2P_PORT"@, decimal(n16 as nat), machine_name) == (ConfigModel { p2p_port: n16, ..m }),
{
    lemma_setting_keys_apart();
    lemma_parse_decimal(n64 as nat, u64::MAX as int);
    lemma_parse_decimal(n32 as nat, u32::MAX as int);
    lemma_parse_decimal(n16 as nat, u16::MAX as int);
}

/// A text setting stores the value as given and leaves every other
/// setting as it was: currency, Telegram token and chat, MQTT host, user,
/// password and topic prefix, and the cluster secret; a host label that is
/// not empty and not a placeholder is stored as given.
pub proof fn lemma_text_setting_stored(m: ConfigModel, machine_name: Seq<char>, val: Seq<char>)
    ensures
        applied(m, "CURRENCY"@, val, machine_name) == (ConfigModel { currency: val, ..m }),
        applied(m, "TELEGRAM_BOT_TOKEN"@, val, machine_name) == (ConfigModel { telegram_bot_token: val, ..m }),
        applied(m, "TELEGRAM_CHAT_ID"@, val, machine_name) == (ConfigModel { telegram_chat_id: val, ..m }),
        applied(m, "MQTT_HOST"@, val, machine_name) == (ConfigModel { mqtt_host: val, ..m }),
        applied(m, "MQTT_USERNAME"@, val, machine_name) == (ConfigModel { mqtt_username: val, ..m }),
        applied(m, "MQTT_PASSWORD"@, val, machine_name) == (ConfigModel { mqtt_password: val, ..m }),
        applied(m, "MQTT_TOPIC_PREFIX"@, val, machine_name) == (ConfigModel { mqtt_topic_prefix: val, ..m }),
        applied(m, "CLUSTER_SECRET"@, val, machine_name) == (ConfigModel { cluster_secret: val, ..m }),
        val.len() > 0 && val != "$(hostname)"@ && val != "$HOSTNAME"@ && val != "`hostname`"@
            ==> applied(m, "HOST_LABEL"@, val, machine_name) == (ConfigModel { host_label: val, ..m }),
{
    lemma_setting_keys_apart();
}

/// A switch set to `1` is on and set to `0` is off, every other setting
/// unchanged: Telegram, CSV export, MQTT and the mesh.
pub proof fn lemma_flag_setting_stored(m: ConfigModel, machine_name: Seq<char>)
    ensures
        applied(m, "TELEGRAM_ENABLED"@, "1"@, machine_name) == (ConfigModel { telegram_enabled: true, ..m }),
        applied(m, "TELEGRAM_ENABLED"@, "0"@, machine_name) == (ConfigModel { telegram_enabled: false, ..m }),
        applied(m, "CSV_EXPORT_ENABLED"@, "1"@, machine_name) == (ConfigModel { csv_export_enabled: true, ..m }),
        applied(m, "CSV_EXPORT_ENABLED"@, "0"@, machine_name) == (ConfigModel { csv_export_enabled: false, ..m }),
        applied(m, "MQTT_ENABLED"@, "1"@, machine_name) == (ConfigModel { mqtt_enabled: true, ..m }),
        applied(m, "MQTT_ENABLED"@, "0"@, machine_name) == (ConfigModel { mqtt_enabled: false, ..m }),
        applied(m, "P2P_ENABLED"@, "1"@, machine_name) == (ConfigModel { p2p_enabled: true, ..m }),
        applied(m, "P2P_ENABLED"@, "0"@, machine_name) == (ConfigModel { p2p_enabled: false, ..m }),
{
    lemma_setting_keys_apart();
    reveal_strlit("1");
    reveal_strlit("0");
    reveal_strlit("true");
    assert(!eq_ignore_ascii_case("0"@, "true"@));
}

/// An environment variable overrides the configuration file: whatever a
/// file line sets a key to, an environment variable that sets the same key
/// (one the environment may override, with a value that takes effect)
/// gives the same configuration as if the file had not set it.
pub proof fn lemma_environment_overrides_file(m: ConfigModel, lines: Seq<Seq<char>>, line: Seq<char>, key: Seq<char>, file_val: Seq<char>, env_val: Seq<char>, machine_name: Seq<char>)
    requires
        conf_line_setting(line) == Some((key, file_val)),
        env_overridable(key),
        takes_effect(key, env_val),
    ensures
        env_applied(conf_applied(m, lines.push(line), machine_name), seq![(key, env_val)], machine_name)
            == env_applied(conf_applied(m, lines, machine_name), seq![(key, env_val)], machine_name),
{
    let vars = seq![(key, env_val)];
    assert(lines.push(line).drop_last() =~= lines);
    assert(vars.drop_last() =~= Seq::<(Seq<char>, Seq<char>)>::empty());
    let before = conf_applied(m, lines, machine_name);
    let with_line = conf_applied(m, lines.push(line), machine_name);
    assert(with_line == applied(before, key, file_val, machine_name));
    assert(vars.last() == (key, env_val));
    assert(env_applied(with_line, vars.drop_last(), machine_name) == with_line);
    assert(env_applied(before, vars.drop_last(), machine_name) == before);
    assert(env_applied(with_line, vars, machine_name) == applied(with_line, key, env_val, machine_name));
    assert(env_applied(before, vars, machine_name) == applied(before, key, env_val, machine_name));
    lemma_effective_setting_overrides(before, key, file_val, env_val, machine_name);
}

/// Lines that are blank, comments, or without `=` change nothing.
pub proof fn lemma_comment_lines_change_nothing(m: ConfigModel, lines: Seq<Seq<char>>, line: Seq<char>, machine_name: Seq<char>)
    requires
        trim(line).len() == 0 || trim(line)[0] == '#' || !trim(line).contains('='),
    ensures
        conf_applied(m, lines.push(line), machine_name) == conf_applied(m, lines, machine_name),
        conf_floats(lines.push(line)) == conf_floats(lines),
{
    assert(lines.push(line).drop_last() =~= lines);
}


/// The machine's name from the kernel's hostname file: its trimmed content
/// when readable and not empty, else `localhost`.
pub open spec fn machine_name_of(hostname_file: FileReadModel) -> Seq<char> {
    match hostname_file {
        FileReadModel::Text(t) => if trim(t).len() > 0 { trim(t) } else { "localhost"@ },
        _ => "localhost"@,
    }
}

/// The machine's name from the content of the kernel's hostname file.
pub fn machine_name(hostname_file: &FileRead) -> (name: String)
    ensures
        name@ == machine_name_of(hostname_file@),
{
    match hostname_file {
        FileRead::Text(t) => {
            let tc = trim_chars(chars_of(t.as_str()).as_slice());
            if tc.len() > 0 {
                string_of(tc.as_slice())
            } else {
                owned("localhost")
            }
        },
        _ => owned("localhost"),
    }
}

/// Where the configuration file and the state, log and history files may
/// live, as found at start-up.
pub struct PathCandidates {
    /// The configuration file in the working directory, and whether it exists.
    pub cwd_conf: String,
    pub cwd_conf_exists: bool,
    /// The configuration file beside the executable, and whether it exists.
    pub exe_conf: String,
    pub exe_conf_exists: bool,
    /// The state directory, log file and history file in the working directory.
    pub cwd_state: String,
    pub cwd_log: String,
    pub cwd_csv: String,
    /// Whether the process runs under a service manager (`INVOCATION_ID` set).
    pub under_service_manager: bool,
    /// The paths the environment sets (`CONFIG_FILE`, `STATE_DIR`,
    /// `LOG_FILE`, `CSV_FILE`).
    pub env_config_file: Option<String>,
    pub env_state_dir: Option<String>,
    pub env_log_file: Option<String>,
    pub env_csv_file: Option<String>,
}

/// The view of an optional string.
pub open spec fn opt_chars(o: Option<String>) -> Option<Seq<char>> {
    match o {
        Some(s) => Some(s@),
        None => None,
    }
}

/// An environment path, else the fallback.
pub open spec fn env_or(e: Option<Seq<char>>, fallback: Seq<char>) -> Seq<char> {
    match e {
        Some(p) => p,
        None => fallback,
    }
}

/// The files in use: a configuration file in the working directory wins
/// over one beside the executable, which wins over `/etc`; outside a
/// service manager, or with a local configuration file, state, log and
/// history live in the working directory, else in the system locations;
/// the environment overrides each path.
pub open spec fn resolved_paths(c: PathCandidates) -> (Seq<char>, Seq<char>, Seq<char>, Seq<char>) {
    let local_conf = if c.cwd_conf_exists {
        c.cwd_conf@
    } else if c.exe_conf_exists {
        c.exe_conf@
    } else {
        "/etc/server-power-monitor.conf"@
    };
    let is_local = c.cwd_conf_exists || !c.under_service_manager;
    (
        env_or(opt_chars(c.env_config_file), local_conf),
        env_or(opt_chars(c.env_state_dir), if is_local { c.cwd_state@ } else { "/var/lib/server-power-monitor"@ }),
        env_or(opt_chars(c.env_log_file), if is_local { c.cwd_log@ } else { "/var/log/server-power-monitor.log"@ }),
        env_or(opt_chars(c.env_csv_file), if is_local { c.cwd_csv@ } else { "/var/log/server-power-monitor-history.csv"@ }),
    )
}

/// An environment path, else the fallback.
fn env_path(e: &Option<String>, fallback: &str) -> (p: String)
    ensures
        p@ == env_or(opt_chars(*e), fallback@),
{
    match e {
        Some(p) => owned(p.as_str()),
        None => owned(fallback),
    }
}

impl Config {
    /// Sets the configuration, state, log and history paths.
    pub fn resolve_paths(&mut self, c: &PathCandidates)
        ensures
            (final(self).config_file@, final(self).state_dir@, final(self).log_file@, final(self).csv_file@)
                == resolved_paths(*c),
            final(self).model() == (ConfigModel {
                config_file: final(self).config_file@,
                state_dir: final(self).state_dir@,
                log_file: final(self).log_file@,
                csv_file: final(self).csv_file@,
                ..old(self).model()
            }),
    {
        let local_conf = if c.cwd_conf_exists {
            c.cwd_conf.as_str()
        } else if c.exe_conf_exists {
            c.exe_conf.as_str()
        } else {
            "/etc/server-power-monitor.conf"
        };
        let is_local = c.cwd_conf_exists || !c.under_service_manager;
        self.config_file = env_path(&c.env_config_file, local_conf);
        self.state_dir = env_path(&c.env_state_dir, if is_local { c.cwd_state.as_str() } else { "/var/lib/server-power-monitor" });
        self.log_file = env_path(&c.env_log_file, if is_local { c.cwd_log.as_str() } else { "/var/log/server-power-monitor.log" });
        self.csv_file = env_path(&c.env_csv_file, if is_local { c.cwd_csv.as_str() } else { "/var/log/server-power-monitor-history.csv" });
    }
}

} // verus!
