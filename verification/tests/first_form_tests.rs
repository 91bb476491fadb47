use subtitle_converter::subtitle_rw_interface::{SubTitle, SubTitleError};

#[test]
fn first_form_accepts_short_text() {
    assert!(SubTitle::new_from_strs("00:00:01.00", "00:00:02.00", &"x".repeat(80)).is_ok());
}

#[test]
fn first_form_rejects_text_over_eighty_bytes() {
    let text = "é".repeat(41);
    match SubTitle::new_from_strs("00:00:01.00", "00:00:02.00", &text) {
        Err(SubTitleError::Text(m)) => assert_eq!(m, format!("This subtitle is too long: {}", text)),
        _ => panic!("unexpected result"),
    }
}

#[test]
fn first_form_checks_times_before_text() {
    match SubTitle::new_from_strs("00:00:01.00", "x", &"y".repeat(100)) {
        Err(SubTitleError::End(m)) => assert_eq!(m, "End has invalid time format: x"),
        _ => panic!("unexpected result"),
    }
    match SubTitle::new_from_strs("x", "y", "") {
        Err(SubTitleError::Start(m)) => assert_eq!(m, "Start has invalid time format: x"),
        _ => panic!("unexpected result"),
    }
}
