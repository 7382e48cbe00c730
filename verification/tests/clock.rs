use quickshot::clock::format_time;

#[test]
fn file_name_from_the_time() {
    let pattern = "Screenshot_%Y-%m-%d_%H-%M-%S.png";
    assert_eq!(format_time(pattern, 0, 0, 0).as_deref(), Some("Screenshot_1970-01-01_00-00-00.png"));
    assert_eq!(format_time(pattern, 1_700_000_000, 0, 7 * 3600).as_deref(), Some("Screenshot_2023-11-15_05-13-20.png"));
}

#[test]
fn refused_offsets_and_patterns() {
    assert_eq!(format_time("%Y", 0, 0, 86_400), None);
    assert_eq!(format_time("%Q", 0, 0, 0), None);
}
