use toaster::system_stage::{SStage, Schedule, Time};

#[test]
fn to_seconds_formula() {
    let s = Schedule::from_str("1:2:3:4:5").unwrap();
    assert_eq!(
        s.get_as_u64(),
        1 * 2_592_000 + 2 * 86_400 + 3 * 3_600 + 4 * 60 + 5
    );
}

#[test]
fn to_seconds_simple() {
    let s = Schedule::from_str("0:0:0:0:30").unwrap();
    assert_eq!(s.get_as_u64(), 30);
}

#[test]
fn to_seconds_maximum_fields() {
    let s = Schedule::from_str("255:255:255:255:255").unwrap();
    assert_eq!(
        s.get_as_u64(),
        255 * (2_592_000 + 86_400 + 3_600 + 60 + 1)
    );
}

#[test]
fn to_seconds_zero() {
    let s = Schedule::new(Time::new(0, 0, 0, 0, 0));
    assert_eq!(s.get_as_u64(), 0);
}

#[test]
fn parse_rejects_four_fields() {
    assert!(Schedule::from_str("1:2:3:4").is_err());
}

#[test]
fn parse_rejects_six_fields() {
    assert!(Schedule::from_str("1:2:3:4:5:6").is_err());
}

#[test]
fn parse_rejects_non_integer_field() {
    assert!(Schedule::from_str("1:2:3:4:x").is_err());
    assert!(Schedule::from_str("a:b:c:d:e").is_err());
}

#[test]
fn parse_rejects_empty_fields() {
    assert!(Schedule::from_str("::::").is_err());
    assert!(Schedule::from_str("").is_err());
    assert!(Schedule::from_str("1:2:3:4:").is_err());
}

#[test]
fn parse_rejects_field_over_255() {
    assert!(Schedule::from_str("0:0:0:0:256").is_err());
    assert!(Schedule::from_str("999:0:0:0:0").is_err());
}

#[test]
fn parse_error_message() {
    let e = Schedule::from_str("nope").unwrap_err();
    assert_eq!(e, "Invalid schedule format");
}

#[test]
fn parse_accepts_leading_zeros() {
    let s = Schedule::from_str("000:00:0:0:007").unwrap();
    assert_eq!(s.get_as_u64(), 7);
}

#[test]
fn granularity_predicates() {
    let s = Schedule::from_str("0:0:0:0:5").unwrap();
    assert!(s.is_sec_only());
    assert!(s.is_min_only());
    assert!(s.is_hour_only());
    assert!(s.is_day_only());
    assert!(s.is_month_only());

    let m = Schedule::from_str("0:0:0:2:0").unwrap();
    assert!(!m.is_sec_only());
    assert!(m.is_min_only());

    let mo = Schedule::from_str("3:0:0:0:0").unwrap();
    assert!(!mo.is_day_only());
    assert!(mo.is_month_only());

    let d = Schedule::from_str("0:4:0:0:0").unwrap();
    assert!(d.is_day_only());
    assert!(!d.is_month_only());
}

#[test]
fn stage_holds_command_and_schedule() {
    let s = Schedule::from_str("0:0:1:0:0").unwrap();
    let st = SStage::new("echo hi".to_string(), s);
    assert_eq!(st.command, "echo hi");
    assert_eq!(st.schedule.get_as_u64(), 3600);
}
