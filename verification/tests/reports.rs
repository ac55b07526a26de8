use server_power_monitor::mqtt::{clean_label, client_id, discovery_device, discovery_entries, state_topic};
use server_power_monitor::report::{
    alert_cooldown_elapsed, elapsed_secs, report_order, report_section, scheduled_reports, startup_message, telegram_active,
    ReportSection,
};
use server_power_monitor::sensors::{SensorInfo, SensorType};

fn sensor(id: &str, raw: &str) -> SensorInfo {
    SensorInfo {
        id: id.to_string(),
        raw_name: raw.to_string(),
        friendly_name: SensorInfo::compute_friendly_name(id, raw),
        sensor_type: SensorType::Rapl,
        path: String::new(),
        max_energy_range_uj: 0,
    }
}

#[test]
fn report_lists_sections_in_order() {
    let sensors = vec![
        sensor("disk_sda", "HDD sda"),
        sensor("rapl_p", "psys"),
        sensor("rapl_a", "package-0"),
        sensor("nvidia_gpu_0", "RTX"),
        sensor("rapl_b", "package-0"),
        sensor("rapl_d", "dram"),
        sensor("rapl_c", "core"),
    ];
    assert_eq!(report_order(&sensors), vec![2, 6, 3, 5, 0, 1]);
    assert_eq!(report_section("🧠 Cores"), ReportSection::Cpu);
    assert_eq!(report_section("📀 SSD nvme0n1"), ReportSection::Disk);
}

#[test]
fn schedules() {
    let plan = scheduled_reports(23, 55, "2024-05-01", 23, 55, 6, &None, &None);
    assert!(plan.daily);
    assert!(plan.interval.is_none());
    let again = scheduled_reports(23, 55, "2024-05-01", 23, 55, 6, &Some("2024-05-01".to_string()), &None);
    assert!(!again.daily);
    let six = scheduled_reports(6, 0, "2024-05-01", 23, 55, 6, &None, &None);
    let r = six.interval.unwrap();
    assert_eq!(r.tag, "06:00");
    assert_eq!(r.key, "2024-05-01_06");
    let sent = scheduled_reports(6, 0, "2024-05-01", 23, 55, 6, &None, &Some("2024-05-01_06".to_string()));
    assert!(sent.interval.is_none());
    assert!(scheduled_reports(7, 0, "d", 23, 55, 6, &None, &None).interval.is_none());
    assert!(scheduled_reports(6, 1, "d", 23, 55, 6, &None, &None).interval.is_none());
    assert!(scheduled_reports(6, 0, "d", 6, 55, 6, &None, &None).interval.is_none());
    assert!(scheduled_reports(12, 0, "d", 23, 55, 0, &None, &None).interval.is_none());
}

#[test]
fn alerts_and_elapsed_time() {
    assert!(!alert_cooldown_elapsed(1000, 100));
    assert!(alert_cooldown_elapsed(1001, 100));
    assert!(alert_cooldown_elapsed(901, 0));
    assert!(!alert_cooldown_elapsed(5, 10));
    assert_eq!(elapsed_secs(Some(100), 130), 30);
    assert_eq!(elapsed_secs(Some(200), 130), 0);
    assert_eq!(elapsed_secs(None, 130), 0);
    assert!(telegram_active(true, "t", "c"));
    assert!(!telegram_active(true, "", "c"));
    assert!(!telegram_active(false, "t", "c"));
}

#[test]
fn mqtt_names() {
    assert_eq!(clean_label("NTM-PC.local"), "ntm_pc_local");
    assert_eq!(client_id("NTM-PC"), "spm_ntm_pc");
    assert_eq!(state_topic("server-power-monitor", "NTM-PC"), "server-power-monitor/ntm_pc/state");
    let entries = discovery_entries("power", "NTM-PC", &vec!["rapl_intelrapl0".to_string()]);
    assert_eq!(entries.len(), 4);
    assert_eq!(entries[0].state_topic, "power/ntm_pc/state");
    assert_eq!(entries[3].state_topic, "power/ntm_pc/state");
    assert_eq!(entries[0].config_topic, "homeassistant/sensor/server-power-monitor_ntm_pc_total_watts/config");
    assert_eq!(entries[0].name, "NTM-PC Total Power");
    assert_eq!(entries[0].unique_id, "spm_ntm_pc_total_watts");
    assert_eq!(entries[1].value_template, "{{ value_json.today_kwh }}");
    assert_eq!(entries[2].unit_of_measurement, "kWh");
    assert_eq!(entries[3].name, "NTM-PC Power rapl_intelrapl0");
    assert_eq!(entries[3].value_template, "{{ value_json.sensors.rapl_intelrapl0 }}");
    assert_eq!(entries[3].device_class, "power");
}

#[test]
fn startup_message_names_host_and_count() {
    assert_eq!(
        startup_message("NTM-PC", 12),
        "🚀 <b>Server Power Monitor</b> avviato su <code>NTM-PC</code>\n📡 Sensori energetici attivi: <b>12</b>"
    );
}

#[test]
fn disk_device_paths() {
    assert_eq!(SensorInfo::disk_device_path("disk_sda"), "/dev/sda");
    assert_eq!(SensorInfo::disk_device_path("disk_disk_nvme0n1"), "/dev/nvme0n1");
    assert_eq!(SensorInfo::disk_device_path("sdb"), "/dev/sdb");
}

#[test]
fn discovery_device_of_host() {
    let d = discovery_device("NTM-PC");
    assert_eq!(d.identifier, "spm_ntm_pc");
    assert_eq!(d.name, "Server Power Monitor (NTM-PC)");
    assert_eq!(d.model, "Power Telemetry Agent (Rust)");
    assert_eq!(d.manufacturer, "Server Power Monitor");
}
