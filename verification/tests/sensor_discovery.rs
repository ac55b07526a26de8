use server_power_monitor::sensors::{
    discover_sensors, disk_power_level, effective_interval_secs, get_power_status, is_partition_name,
    parse_gpu_count, rapl_delta_uj, rapl_sensor_paths, read_disk_io_stats, BlockDevice, DiskPowerLevel,
    FileRead, PowercapEntry, SensorInfo, SensorType,
};

#[test]
fn friendly_names_by_prefix() {
    assert_eq!(SensorInfo::compute_friendly_name("rapl_x", "package-0"), "🔳 CPU Package");
    assert_eq!(SensorInfo::compute_friendly_name("rapl_x", "core"), "🧠 Cores");
    assert_eq!(SensorInfo::compute_friendly_name("rapl_x", "uncore"), "🎨 iGPU");
    assert_eq!(SensorInfo::compute_friendly_name("rapl_x", "dram"), "📟 RAM");
    assert_eq!(SensorInfo::compute_friendly_name("rapl_x", "psys"), "💻 System");
    assert_eq!(SensorInfo::compute_friendly_name("disk_nvme0n1", "SSD nvme0n1"), "📀 SSD nvme0n1");
    assert_eq!(SensorInfo::compute_friendly_name("disk_sda", "HDD sda"), "💿 HDD sda");
    assert_eq!(SensorInfo::compute_friendly_name("nvidia_gpu_0", "RTX 4090"), "🎨 GPU (NVIDIA)");
    assert_eq!(SensorInfo::compute_friendly_name("other", "thing"), "thing");
    assert_eq!(SensorInfo::compute_friendly_name("other", ""), "other");
}

#[test]
fn partition_names() {
    assert!(is_partition_name("nvme0n1p1"));
    assert!(!is_partition_name("nvme0n1"));
    assert!(is_partition_name("sda1"));
    assert!(!is_partition_name("sda"));
    assert!(!is_partition_name("loop0"));
    assert!(is_partition_name("nvme0n1p"));
}

#[test]
fn discovery_from_observations() {
    let powercap = vec![
        PowercapEntry {
            dir_name: "intel-rapl:0".to_string(),
            energy_path: "/sys/class/powercap/intel-rapl:0/energy_uj".to_string(),
            has_energy_file: true,
            name_file: FileRead::Text("package-0\n".to_string()),
            max_energy_file: FileRead::Text("262143328850\n".to_string()),
        },
        PowercapEntry {
            dir_name: "intel-rapl:0:0".to_string(),
            energy_path: "p".to_string(),
            has_energy_file: true,
            name_file: FileRead::Unreadable,
            max_energy_file: FileRead::Missing,
        },
        PowercapEntry {
            dir_name: "dtpm".to_string(),
            energy_path: "q".to_string(),
            has_energy_file: true,
            name_file: FileRead::Text("x".to_string()),
            max_energy_file: FileRead::Missing,
        },
    ];
    let gpus = vec![Some(" NVIDIA RTX\n".to_string()), None];
    let disks = vec![
        BlockDevice { name: "sda".to_string(), path: "/sys/block/sda".to_string(), rotational_file: FileRead::Text("1\n".to_string()) },
        BlockDevice { name: "sda1".to_string(), path: "/sys/block/sda1".to_string(), rotational_file: FileRead::Missing },
        BlockDevice { name: "nvme0n1".to_string(), path: "/sys/block/nvme0n1".to_string(), rotational_file: FileRead::Text("0".to_string()) },
        BlockDevice { name: "loop0".to_string(), path: "/sys/block/loop0".to_string(), rotational_file: FileRead::Missing },
    ];
    let sensors = discover_sensors(&powercap, &gpus, &disks);
    assert_eq!(sensors.len(), 6);
    assert_eq!(sensors[0].id, "rapl_intelrapl0");
    assert_eq!(sensors[0].raw_name, "package-0");
    assert_eq!(sensors[0].max_energy_range_uj, 262143328850);
    assert_eq!(sensors[0].sensor_type, SensorType::Rapl);
    assert_eq!(sensors[1].id, "rapl_intelrapl00");
    assert_eq!(sensors[1].raw_name, "unknown");
    assert_eq!(sensors[2].id, "nvidia_gpu_0");
    assert_eq!(sensors[2].raw_name, "NVIDIA RTX");
    assert_eq!(sensors[2].friendly_name, "🎨 GPU (NVIDIA)");
    assert_eq!(sensors[3].raw_name, "NVIDIA GPU 1");
    assert_eq!(sensors[3].path, "1");
    assert_eq!(sensors[4].id, "disk_sda");
    assert_eq!(sensors[4].raw_name, "HDD sda");
    assert_eq!(sensors[4].friendly_name, "💿 HDD sda");
    assert_eq!(sensors[5].raw_name, "SSD nvme0n1");
    assert_eq!(rapl_sensor_paths(&sensors), vec!["/sys/class/powercap/intel-rapl:0/energy_uj".to_string(), "p".to_string()]);
}

#[test]
fn rapl_deltas_with_wraparound() {
    assert_eq!(rapl_delta_uj(1_500_000, 500_000, 0), 1_000_000);
    assert_eq!(rapl_delta_uj(100, 0, 1000), 0);
    assert_eq!(rapl_delta_uj(100, 900, 1000), 200);
    assert_eq!(rapl_delta_uj(100, 900, 0), 0);
    assert_eq!(rapl_delta_uj(100, 1200, 1000), 100);
    assert_eq!(rapl_delta_uj(u64::MAX - 1, u64::MAX, u64::MAX), u64::MAX - 1);
    assert_eq!(effective_interval_secs(0), 1);
    assert_eq!(effective_interval_secs(5), 5);
}

#[test]
fn disk_levels_and_io_counters() {
    assert_eq!(disk_power_level(true, &Some("drive state is:  standby".to_string()), 0, 0), DiskPowerLevel::HddStandby);
    assert_eq!(disk_power_level(true, &Some("active/idle".to_string()), 0, 0), DiskPowerLevel::HddActive);
    assert_eq!(disk_power_level(true, &None, 0, 0), DiskPowerLevel::HddActive);
    assert_eq!(disk_power_level(false, &None, 10, 5), DiskPowerLevel::SsdActive);
    assert_eq!(disk_power_level(false, &None, 10, 0), DiskPowerLevel::SsdIdle);
    assert_eq!(disk_power_level(false, &None, 5, 5), DiskPowerLevel::SsdIdle);
    assert_eq!(read_disk_io_stats("  10 0 300 0 20 0 40 0 0 0 0\n"), Some(340));
    assert_eq!(read_disk_io_stats("1 2 3"), Some(0));
    assert_eq!(read_disk_io_stats("1 2 x 4 5 6 7"), Some(7));
    assert_eq!(read_disk_io_stats("0 0 18446744073709551615 0 0 0 1"), None);
    assert_eq!(parse_gpu_count(" 2\n"), Some(2));
    assert_eq!(parse_gpu_count("No devices"), None);
}

#[test]
fn power_status_icons() {
    assert_eq!(get_power_status(&FileRead::Missing, &FileRead::Missing), ("🔌".to_string(), String::new()));
    assert_eq!(get_power_status(&FileRead::Text("0\n".to_string()), &FileRead::Text("96\n".to_string())), ("🔋".to_string(), "(96%)".to_string()));
    assert_eq!(get_power_status(&FileRead::Unreadable, &FileRead::Unreadable), ("🔌".to_string(), String::new()));
}

#[test]
fn nvidia_gpu_row_name() {
    assert_eq!(
        SensorInfo::compute_friendly_name("nvidia_gpu_0", "NVIDIA GeForce RTX 3060"),
        "🎨 GPU (NVIDIA)"
    );
}
