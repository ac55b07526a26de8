use server_power_monitor::tui::{row_color, sparkline_from_levels, visible_rows, PowerHistory, RowColor};

#[test]
fn test_power_history_push_and_limit() {
    let mut history = PowerHistory::new(3);
    history.push(10.0);
    history.push(20.0);
    history.push(30.0);
    assert_eq!(history.samples.len(), 3);

    history.push(40.0);
    assert_eq!(history.samples.len(), 3);
    assert_eq!(history.samples.front().copied(), Some(20.0));
    assert_eq!(history.samples.back().copied(), Some(40.0));
}

#[test]
fn history_of_zero_keeps_the_newest() {
    let mut history = PowerHistory::new(0);
    history.push(1u64);
    history.push(2u64);
    assert_eq!(history.samples.len(), 1);
    assert_eq!(history.samples.back().copied(), Some(2));
}

#[test]
fn test_generate_sparkline_empty() {
    let spark = sparkline_from_levels(&Vec::new());
    assert_eq!(spark.len(), 35);
    assert_eq!(spark, " ".repeat(35));
}

#[test]
fn test_generate_sparkline_values() {
    // 0 W, 5 W and 10 W on a 10 W scale are the levels 0, 4 and 7.
    let spark = sparkline_from_levels(&vec![0, 4, 7]);
    assert!(spark.starts_with(' '));
    assert!(spark.contains('█'));
}

#[test]
fn sparkline_of_levels() {
    let spark = sparkline_from_levels(&vec![0, 4, 7, 12]);
    assert!(spark.starts_with(' '));
    assert!(spark.starts_with(" ▅██"));
    assert_eq!(spark.chars().count(), 35);
    let long: Vec<usize> = (0..40).collect();
    assert_eq!(sparkline_from_levels(&long).chars().count(), 40);
}

#[test]
fn rows_and_colors() {
    let raws: Vec<String> = ["package-0", "core", "package-0", "dram", "SSD sda"].iter().map(|s| s.to_string()).collect();
    assert_eq!(visible_rows(&raws), vec![0, 3, 4]);
    let raws2: Vec<String> = ["core", "core", "dram"].iter().map(|s| s.to_string()).collect();
    assert_eq!(visible_rows(&raws2), vec![0, 2]);
    assert_eq!(row_color("🎨 GPU (NVIDIA)"), RowColor::Green);
    assert_eq!(row_color("🔳 CPU Package"), RowColor::Cyan);
    assert_eq!(row_color("💻 System"), RowColor::Cyan);
    assert_eq!(row_color("📟 RAM"), RowColor::Magenta);
}
