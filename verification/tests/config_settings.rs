use server_power_monitor::config::{Config, FloatSetting};

fn lines(text: &[&str]) -> Vec<String> {
    text.iter().map(|s| s.to_string()).collect()
}

#[test]
fn test_config_default() {
    let config = Config::default();
    assert_eq!(config.sample_interval, 5);
    assert_eq!(config.currency, "EUR");
    assert!(!config.telegram_enabled);
    assert_eq!(config.retention_days, 365);
    assert!(config.csv_export_enabled);
}

#[test]
fn test_parse_conf_file() {
    let mut config = Config::default();
    let file = lines(&[
        "# Comment line",
        "SAMPLE_INTERVAL=10",
        "TARIFF_EUR_KWH=0.25",
        "CURRENCY=\"USD\"",
        "TELEGRAM_ENABLED=1",
        "P2P_PEERS=\"192.168.1.50 10.0.0.2:7432\"",
    ]);

    let floats = config.parse_conf_lines(&file, "localhost");
    let mut tariff_eur_kwh = 0.30f64;
    for a in &floats {
        if a.setting == FloatSetting::TariffEurKwh {
            if let Ok(v) = a.text.parse::<f64>() {
                tariff_eur_kwh = v;
            }
        }
    }

    assert_eq!(config.sample_interval, 10);
    assert_eq!(tariff_eur_kwh, 0.25);
    assert_eq!(config.currency, "USD");
    assert!(config.telegram_enabled);
    assert_eq!(config.p2p_peers.len(), 2);
    assert_eq!(config.p2p_peers[0], "192.168.1.50");
    assert_eq!(config.p2p_peers[1], "10.0.0.2:7432");
}

#[test]
fn test_hostname_resolution() {
    let mut config = Config::default();
    config.host_label = "$(hostname)".to_string();
    config.resolve_host_label("localhost");
    assert_ne!(config.host_label, "$(hostname)");
    assert!(!config.host_label.is_empty());
}

#[test]
fn invalid_numbers_keep_the_previous_value() {
    let mut config = Config::default();
    config.parse_conf_lines(&lines(&["SAMPLE_INTERVAL=abc", "MQTT_PORT=70000", "REPORT_HOUR=-1", "P2P_PORT=+8000"]), "h");
    assert_eq!(config.sample_interval, 5);
    assert_eq!(config.mqtt_port, 1883);
    assert_eq!(config.report_hour, 23);
    assert_eq!(config.p2p_port, 8000);
}

#[test]
fn later_lines_win_and_keys_are_trimmed() {
    let mut config = Config::default();
    config.parse_conf_lines(&lines(&["  CURRENCY = 'GBP'  ", "CURRENCY=CHF", "UNKNOWN=1", "no equals sign"]), "h");
    assert_eq!(config.currency, "CHF");
}

#[test]
fn flags_accept_one_and_true_in_any_case() {
    let mut config = Config::default();
    config.parse_conf_lines(&lines(&["MQTT_ENABLED=TrUe", "P2P_ENABLED=1", "CSV_EXPORT_ENABLED=yes"]), "h");
    assert!(config.mqtt_enabled);
    assert!(config.p2p_enabled);
    assert!(!config.csv_export_enabled);
}

#[test]
fn host_label_placeholders_and_empty_values() {
    let mut config = Config::defaults_for_host("box");
    config.parse_conf_lines(&lines(&["HOST_LABEL="]), "box");
    assert_eq!(config.host_label, "box");
    config.parse_conf_lines(&lines(&["HOST_LABEL=`hostname`"]), "machine");
    assert_eq!(config.host_label, "machine");
    config.parse_conf_lines(&lines(&["HOST_LABEL=\"web-01\""]), "machine");
    assert_eq!(config.host_label, "web-01");
}

#[test]
fn float_settings_are_returned_in_order() {
    let mut config = Config::default();
    let floats = config.parse_conf_lines(
        &lines(&["HDD_ACTIVE_W=6.5", "MAX_POWER_ALERT_WATTS=300", "HDD_ACTIVE_W=x"]),
        "h",
    );
    assert_eq!(floats.len(), 3);
    assert_eq!(floats[0].setting, FloatSetting::HddActiveW);
    assert_eq!(floats[0].text, "6.5");
    assert_eq!(floats[1].setting, FloatSetting::MaxPowerAlertWatts);
    assert_eq!(floats[2].text, "x");
}

#[test]
fn environment_overrides_skip_disk_wattages() {
    let mut config = Config::default();
    let vars = vec![
        ("HDD_ACTIVE_W".to_string(), "9".to_string()),
        ("TARIFF_EUR_KWH".to_string(), "0.4".to_string()),
        ("SAMPLE_INTERVAL".to_string(), " 7".to_string()),
        ("MQTT_HOST".to_string(), "broker".to_string()),
        ("P2P_PEERS".to_string(), "a,b  c".to_string()),
    ];
    let floats = config.override_from_env(&vars, "h");
    assert_eq!(floats.len(), 1);
    assert_eq!(floats[0].setting, FloatSetting::TariffEurKwh);
    assert_eq!(config.sample_interval, 5);
    assert_eq!(config.mqtt_host, "broker");
    assert_eq!(config.p2p_peers, vec!["a".to_string(), "b".to_string(), "c".to_string()]);
}
