use chrono::{Datelike, NaiveDate};
use server_power_monitor::sensors::{FileRead, SensorInfo, SensorType};
use server_power_monitor::state::{
    daily_file_date_of, expired_daily_files, history_files, total_energy_sensors, LastState, MIN_DAY_NUMBER,
};

fn sensor(id: &str, raw: &str) -> SensorInfo {
    SensorInfo {
        id: id.to_string(),
        raw_name: raw.to_string(),
        friendly_name: SensorInfo::compute_friendly_name(id, raw),
        sensor_type: SensorType::Rapl,
        path: String::new(),
        max_energy_range_uj: 0,
    }
}

fn strings(v: &[&str]) -> Vec<String> {
    v.iter().map(|s| s.to_string()).collect()
}

#[test]
fn state_file_written_and_read_back() {
    let sensors = vec![sensor("rapl_a", "package-0"), sensor("disk_sda", "HDD sda")];
    let (mut st, changed) = LastState::load_or_init(&Vec::new(), &sensors, 1234);
    assert!(changed);
    st.last_uj.insert("rapl_a", 987654321);
    st.last_ts.insert("rapl_a", 1300);
    let lines = st.state_lines();
    assert_eq!(lines, strings(&[
        "LAST_UJ_rapl_a=987654321",
        "LAST_TS_rapl_a=1300",
        "LAST_UJ_disk_sda=0",
        "LAST_TS_disk_sda=1234",
    ]));
    let (back, changed_again) = LastState::load_or_init(&lines, &sensors, 9999);
    assert!(!changed_again);
    assert_eq!(back.last_uj.get("rapl_a"), Some(987654321));
    assert_eq!(back.last_ts.get("disk_sda"), Some(1234));
}

#[test]
fn state_lines_ignore_noise() {
    let st = LastState::parse_state_lines(&strings(&["  LAST_UJ_x=5 ", "LAST_TS_x=notanumber", "garbage", "OTHER=1", "LAST_UJ_x=6"]));
    assert_eq!(st.last_uj.len(), 1);
    assert_eq!(st.last_uj.get("x"), Some(6));
    assert_eq!(st.last_ts.get("x"), None);
}

#[test]
fn total_energy_prefers_psys() {
    let with_psys = vec![sensor("rapl_a", "package-0"), sensor("rapl_b", "psys"), sensor("nvidia_gpu_0", "RTX")];
    assert_eq!(total_energy_sensors(&with_psys), (vec![1], true));
    let without = vec![sensor("rapl_a", "package-0"), sensor("rapl_c", "core"), sensor("nvidia_gpu_0", "RTX"), sensor("disk_sda", "HDD sda")];
    assert_eq!(total_energy_sensors(&without), (vec![0, 2, 3], false));
}

#[test]
fn daily_file_names_and_history() {
    assert_eq!(daily_file_date_of("today_2024-05-01.env"), Some("2024-05-01".to_string()));
    assert_eq!(daily_file_date_of("today_today_x.env.env"), Some("x".to_string()));
    assert_eq!(daily_file_date_of("state.env"), None);
    let names = strings(&["state.env", "today_2024-05-02.env", "today_2024-04-30.env", "lifetime_base.env"]);
    let h = history_files(&names, "2024-05-01");
    assert_eq!(h.dates, strings(&["2024-05-02", "2024-04-30"]));
    assert_eq!(h.days_count, 2);
    assert_eq!(h.first_date, "2024-04-30");
    let none = history_files(&strings(&["x"]), "");
    assert_eq!(none.days_count, 1);
    assert_eq!(none.first_date, "");
}

#[test]
fn retention_expires_old_files_only() {
    // 2024-05-10 is day 739016 counted from 0001-01-01 (day 1).
    let today = 739016;
    let names = strings(&["today_2024-05-01.env", "today_2024-05-09.env", "today_bad.env", "today_2024-04-30.env"]);
    assert_eq!(expired_daily_files(&names, today, 9), vec![3]);
    assert_eq!(expired_daily_files(&names, today, 8), vec![0, 3]);
    assert_eq!(expired_daily_files(&names, today, 0), Vec::<usize>::new());
}

#[test]
fn earliest_chrono_day_number() {
    assert_eq!(NaiveDate::MIN.num_days_from_ce() as i64, MIN_DAY_NUMBER);
    assert_eq!(NaiveDate::from_ymd_opt(2024, 5, 10).unwrap().num_days_from_ce(), 739016);
}

#[test]
fn file_read_variants_compile() {
    let _ = FileRead::Missing;
}
