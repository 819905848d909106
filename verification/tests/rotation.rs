use std::collections::HashMap;

use chrono::{DateTime, Datelike, NaiveDate, NaiveDateTime, Utc};

use funrotate::plan::{plan_rotation, RotationPlan};
use funrotate::transform::duplicate_bytes_in_lines;
use funrotate::trigger::{
    is_rotation_triggered, is_rotation_triggered_due_to_size, is_rotation_triggered_on_time,
    parse_interval, parse_strategy, RotatedFile, RotationInterval, RotationStrategy,
};

const ROTATION_TIME_FORMAT: &str = "%Y-%m-%d %H:%M";

fn get_rotation_time(rotation_time: NaiveDateTime) -> String {
    rotation_time.format(ROTATION_TIME_FORMAT).to_string()
}

fn get_rotated_file_info(interval: String) -> RotatedFile {
    RotatedFile {
        interval: parse_interval(&interval).unwrap(),
        strategy: parse_strategy("copytruncate").unwrap(),
        compress: true,
        path: String::new(),
        max_files: 100,
        size: 0,
    }
}

fn minutes_of(stamp: &str) -> i64 {
    NaiveDateTime::parse_from_str(stamp, ROTATION_TIME_FORMAT)
        .unwrap()
        .and_utc()
        .timestamp()
        / 60
}

#[test]
fn test_duplicate_bytes_in_lines() {
    let tests: Vec<(String, String)> = vec![
        (String::from("abc"), String::from("aabbcc")),
        (String::from("abc\n"), String::from("aabbcc\n")),
        (String::from("abc\ndef"), String::from("aabbcc\nddeeff")),
        (String::from("abc\ndef\n"), String::from("aabbcc\nddeeff\n")),
    ];
    for (mut input_contents, expected) in tests.into_iter() {
        duplicate_bytes_in_lines(&mut input_contents);

        assert_eq!(input_contents, expected);
    }
}

#[test]
fn test_is_rotation_triggered_on_time() {
    let now: DateTime<Utc> = Utc::now();
    let tests: Vec<(String, RotatedFile, bool)> = vec![
        // file must be rotated daily
        (
            get_rotation_time(
                NaiveDate::from_ymd_opt(now.year(), now.month(), now.day() - 2)
                    .unwrap()
                    .and_hms_opt(0, 0, 0)
                    .unwrap(),
            ),
            get_rotated_file_info("daily".to_string()),
            true,
        ),
        // file must be rotated weekly
        (
            get_rotation_time(
                NaiveDate::from_ymd_opt(now.year(), now.month() - 1, now.day())
                    .unwrap()
                    .and_hms_opt(0, 0, 0)
                    .unwrap(),
            ),
            get_rotated_file_info("weekly".to_string()),
            true,
        ),
        // file must be rotated weekly and not enough time passed
        (
            get_rotation_time(
                NaiveDate::from_ymd_opt(now.year(), now.month(), now.day() - 1)
                    .unwrap()
                    .and_hms_opt(0, 0, 0)
                    .unwrap(),
            ),
            get_rotated_file_info("weekly".to_string()),
            false,
        ),
    ];

    for (rotation_time_str, rotated_file, expected) in tests.into_iter() {
        let minutes = minutes_of(&rotation_time_str);
        let now_seconds = Utc::now().timestamp();

        assert_eq!(
            is_rotation_triggered_on_time(Some(minutes), rotated_file.interval, now_seconds),
            expected
        );
    }
}

#[test]
fn time_trigger_boundary_equality_counts_as_due() {
    let last: i64 = 1000;
    let due_at: i64 = last * 60 + 3600;
    assert!(is_rotation_triggered_on_time(
        Some(last),
        RotationInterval::Hourly,
        due_at
    ));
    assert!(!is_rotation_triggered_on_time(
        Some(last),
        RotationInterval::Hourly,
        due_at - 1
    ));
}

#[test]
fn time_trigger_never_rotated_is_always_due() {
    assert!(is_rotation_triggered_on_time(None, RotationInterval::Monthly, 0));
}

#[test]
fn interval_durations() {
    // One fixed duration for each interval, checked at the boundary.
    for (name, seconds) in [
        ("hourly", 3600i64),
        ("daily", 86400),
        ("weekly", 604800),
        ("monthly", 2592000),
    ] {
        let interval = parse_interval(name).unwrap();
        assert!(is_rotation_triggered_on_time(Some(0), interval, seconds));
        assert!(!is_rotation_triggered_on_time(Some(0), interval, seconds - 1));
    }
}

#[test]
fn unknown_interval_and_strategy_names_are_rejected() {
    assert!(parse_interval("fortnightly").is_none());
    assert!(parse_interval("").is_none());
    assert!(parse_strategy("truncate").is_none());
    assert!(parse_strategy("").is_none());
}

#[test]
fn strategy_name_aliases() {
    for name in ["copy", "copytruncate", "create"] {
        assert_eq!(parse_strategy(name), Some(RotationStrategy::CopyTruncate));
    }
    assert_eq!(parse_strategy("nocopytruncate"), Some(RotationStrategy::Copy));
}

#[test]
fn size_trigger_is_strict() {
    let mut file = get_rotated_file_info("daily".to_string());
    file.size = 100;
    assert!(!is_rotation_triggered_due_to_size(&file, 100));
    assert!(is_rotation_triggered_due_to_size(&file, 101));
}

#[test]
fn either_trigger_rotates() {
    let mut file = get_rotated_file_info("weekly".to_string());
    file.size = 100;
    // Not due by time (rotated just now), but over the size threshold.
    assert!(is_rotation_triggered(&file, Some(1000), 1000 * 60, 101));
    // Due by neither.
    assert!(!is_rotation_triggered(&file, Some(1000), 1000 * 60, 100));
}

fn target(path: &str, max_files: usize, strategy: &str, compress: bool) -> RotatedFile {
    RotatedFile {
        path: path.to_string(),
        interval: parse_interval("daily").unwrap(),
        strategy: parse_strategy(strategy).unwrap(),
        max_files,
        compress,
        size: 0,
    }
}

fn copies_of(plan: &RotationPlan) -> Vec<(String, String)> {
    plan.copies.clone()
}

#[test]
fn plan_with_no_matched_files_is_a_no_op() {
    let plan = plan_rotation(&target("log", 3, "copytruncate", true), Vec::new());
    assert!(plan.copies.is_empty());
    assert!(plan.transform_source.is_none());
    assert!(plan.truncate.is_none());
}

#[test]
fn plan_first_rotation_copies_live_file_into_new_slot() {
    let plan = plan_rotation(&target("log", 3, "copytruncate", false), vec!["log".to_string()]);
    assert_eq!(
        copies_of(&plan),
        vec![("log".to_string(), "log.1".to_string())]
    );
    assert_eq!(plan.truncate, Some("log".to_string()));
    assert!(plan.transform_source.is_none());
}

#[test]
fn plan_grows_history_until_the_cap() {
    let files = vec!["log".to_string(), "log.1".to_string()];
    let plan = plan_rotation(&target("log", 3, "copytruncate", false), files);
    assert_eq!(
        copies_of(&plan),
        vec![
            ("log.1".to_string(), "log.2".to_string()),
            ("log".to_string(), "log.1".to_string()),
        ]
    );
}

#[test]
fn plan_at_capacity_synthesizes_no_slot() {
    let files = vec!["log".to_string(), "log.1".to_string(), "log.2".to_string()];
    let plan = plan_rotation(&target("log", 3, "copytruncate", false), files);
    assert_eq!(
        copies_of(&plan),
        vec![
            ("log.1".to_string(), "log.2".to_string()),
            ("log".to_string(), "log.1".to_string()),
        ]
    );
    assert!(plan.transform_source.is_none());
}

#[test]
fn plan_transform_fires_only_at_capacity() {
    let growing = plan_rotation(
        &target("log", 3, "copytruncate", true),
        vec!["log".to_string()],
    );
    assert!(growing.transform_source.is_none());

    let full = plan_rotation(
        &target("log", 2, "copytruncate", true),
        vec!["log".to_string(), "log.1".to_string()],
    );
    assert_eq!(full.transform_source, Some("log".to_string()));
}

#[test]
fn plan_copy_strategy_leaves_live_file_alone() {
    let plan = plan_rotation(&target("log", 3, "nocopytruncate", false), vec!["log".to_string()]);
    assert!(plan.truncate.is_none());
}

#[test]
fn plan_sorts_matched_names_lexicographically() {
    // "log.10" sorts before "log.2": the order is lexicographic, not numeric.
    let files = vec!["log.2".to_string(), "log.10".to_string(), "log".to_string()];
    let plan = plan_rotation(&target("log", 3, "copytruncate", false), files);
    assert_eq!(
        copies_of(&plan),
        vec![
            ("log.10".to_string(), "log.2".to_string()),
            ("log".to_string(), "log.10".to_string()),
        ]
    );
}

#[test]
fn plan_synthesized_slot_uses_decimal_count() {
    let files: Vec<String> = (0..10)
        .map(|k| if k == 0 { "log".to_string() } else { format!("log.{}", k) })
        .collect();
    let plan = plan_rotation(&target("log", 20, "copytruncate", false), files);
    let copies = copies_of(&plan);
    assert_eq!(copies.len(), 10);
    // The new highest slot is named after the matched-file count.
    assert_eq!(copies[0].1, "log.10".to_string());
}

fn apply_plan_to(fs: &mut HashMap<String, Vec<u8>>, plan: &RotationPlan) {
    if let Some(source) = &plan.transform_source {
        let mut contents = String::from_utf8(fs[source].clone()).unwrap();
        duplicate_bytes_in_lines(&mut contents);
        fs.insert(format!("{}.zip", source), contents.into_bytes());
    }
    for (from, to) in &plan.copies {
        let bytes = fs[from].clone();
        fs.insert(to.clone(), bytes);
    }
    if let Some(path) = &plan.truncate {
        fs.insert(path.clone(), Vec::new());
    }
}

fn matched(fs: &HashMap<String, Vec<u8>>, prefix: &str) -> Vec<String> {
    fs.keys().filter(|k| k.starts_with(prefix)).cloned().collect()
}

#[test]
fn copy_truncate_scenario() {
    let mut fs: HashMap<String, Vec<u8>> = HashMap::new();
    fs.insert("log".to_string(), b"hello".to_vec());
    let t = target("log", 3, "copytruncate", false);
    let plan = plan_rotation(&t, matched(&fs, "log"));
    apply_plan_to(&mut fs, &plan);
    assert_eq!(fs["log"], b"");
    assert_eq!(fs["log.1"], b"hello");
}

#[test]
fn repeated_rotation_never_exceeds_the_cap() {
    let mut fs: HashMap<String, Vec<u8>> = HashMap::new();
    fs.insert("log".to_string(), b"gen0".to_vec());
    let t = target("log", 3, "copytruncate", false);
    for round in 0..6 {
        let plan = plan_rotation(&t, matched(&fs, "log"));
        apply_plan_to(&mut fs, &plan);
        assert!(fs.len() <= 3);
        // The live file is refilled before the next rotation.
        fs.insert("log".to_string(), format!("gen{}", round + 1).into_bytes());
    }
    // The history holds only the newest generations; older contents are gone.
    assert_eq!(fs.len(), 3);
    assert_eq!(fs["log"], b"gen6");
    assert_eq!(fs["log.1"], b"gen5");
    assert_eq!(fs["log.2"], b"gen4");
}

#[test]
fn transform_output_is_a_zip_sibling() {
    assert_eq!(
        funrotate::transform::make_transform_output_name("log"),
        "log.zip".to_string()
    );
    let mut fs: HashMap<String, Vec<u8>> = HashMap::new();
    fs.insert("log".to_string(), b"ab".to_vec());
    fs.insert("log.1".to_string(), b"old".to_vec());
    let t = target("log", 2, "copytruncate", true);
    let plan = plan_rotation(&t, matched(&fs, "log"));
    apply_plan_to(&mut fs, &plan);
    assert_eq!(fs["log.zip"], b"aabb");
}

#[test]
fn duplicate_bytes_leaves_empty_contents_empty() {
    let mut s = String::new();
    duplicate_bytes_in_lines(&mut s);
    assert_eq!(s, "");
}

#[test]
fn duplicate_bytes_keeps_blank_lines() {
    let mut s = String::from("a\n\nb");
    duplicate_bytes_in_lines(&mut s);
    assert_eq!(s, "aa\n\nbb");
}
