use funrotate::store::RotationRecorder;
use funrotate::timefmt::MAX_STAMP_MINUTES;

#[test]
fn round_trip_keeps_every_record() {
    let mut st = RotationRecorder::empty();
    st.update_rotation_time("a.log".to_string(), 29_000_000);
    st.update_rotation_time("b.log".to_string(), 29_000_001);
    st.update_rotation_time("c.log".to_string(), 0);
    let bytes = st.save().expect("the store was updated");

    let reloaded = RotationRecorder::new(&bytes).expect("written bytes read back");
    assert_eq!(reloaded.last_rotation_time("a.log"), Some(29_000_000));
    assert_eq!(reloaded.last_rotation_time("b.log"), Some(29_000_001));
    assert_eq!(reloaded.last_rotation_time("c.log"), Some(0));
    assert_eq!(reloaded.last_rotation_time("missing.log"), None);
}

#[test]
fn round_trip_keeps_awkward_paths() {
    // Paths with the field separator, quotes and newlines must survive
    // the container format.
    let mut st = RotationRecorder::empty();
    st.update_rotation_time("a,b.log".to_string(), 123_456);
    st.update_rotation_time("say \"hi\".log".to_string(), 123_457);
    st.update_rotation_time("line\nbreak.log".to_string(), 123_458);
    let bytes = st.save().expect("the store was updated");

    let reloaded = RotationRecorder::new(&bytes).expect("written bytes read back");
    assert_eq!(reloaded.last_rotation_time("a,b.log"), Some(123_456));
    assert_eq!(reloaded.last_rotation_time("say \"hi\".log"), Some(123_457));
    assert_eq!(reloaded.last_rotation_time("line\nbreak.log"), Some(123_458));
}

#[test]
fn round_trip_keeps_the_largest_timestamp() {
    let mut st = RotationRecorder::empty();
    st.update_rotation_time("a.log".to_string(), MAX_STAMP_MINUTES);
    let bytes = st.save().expect("the store was updated");
    let reloaded = RotationRecorder::new(&bytes).expect("written bytes read back");
    assert_eq!(reloaded.last_rotation_time("a.log"), Some(MAX_STAMP_MINUTES));
}

#[test]
fn untouched_store_is_not_rewritten() {
    let st = RotationRecorder::empty();
    assert!(st.save().is_none());

    let mut touched = RotationRecorder::empty();
    touched.update_rotation_time("a.log".to_string(), 1);
    assert!(touched.save().is_some());
}

#[test]
fn reloaded_store_counts_as_untouched() {
    let mut st = RotationRecorder::empty();
    st.update_rotation_time("a.log".to_string(), 1);
    let bytes = st.save().unwrap();
    let reloaded = RotationRecorder::new(&bytes).unwrap();
    assert!(reloaded.save().is_none());
}

#[test]
fn later_updates_win() {
    let mut st = RotationRecorder::empty();
    st.update_rotation_time("a.log".to_string(), 10);
    st.update_rotation_time("a.log".to_string(), 20);
    assert_eq!(st.last_rotation_time("a.log"), Some(20));
    let bytes = st.save().unwrap();
    let reloaded = RotationRecorder::new(&bytes).unwrap();
    assert_eq!(reloaded.last_rotation_time("a.log"), Some(20));
}

#[test]
fn empty_store_resolves_every_path_to_never() {
    let st = RotationRecorder::empty();
    assert_eq!(st.last_rotation_time("anything"), None);
}

#[test]
fn empty_state_file_is_a_valid_store() {
    let st = RotationRecorder::new(&Vec::new()).expect("no records at all");
    assert_eq!(st.last_rotation_time("a.log"), None);
}

#[test]
fn record_with_malformed_timestamp_is_passed_over() {
    let data: Vec<u8> = b"a.log,not a time\nb.log,2024-05-06 07:08\n".to_vec();
    let st = RotationRecorder::new(&data).expect("container is readable");
    assert_eq!(st.last_rotation_time("a.log"), None);
    // 2024-05-06 07:08 UTC in whole minutes since the epoch.
    assert_eq!(st.last_rotation_time("b.log"), Some(28_582_988));
}

#[test]
fn record_missing_a_field_is_a_broken_container() {
    let data: Vec<u8> = b"only-one-field\n".to_vec();
    assert!(RotationRecorder::new(&data).is_none());
}
