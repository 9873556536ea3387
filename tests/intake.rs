use levelrelay::intake::{capacity_hint, upload_reply, BodyIntake, UploadError, MAX_BODY_LEN};

fn receive(body: &[u8], chunk: usize) -> BodyIntake {
    let mut intake = BodyIntake::new(capacity_hint(Some(&body.len().to_string())));
    for part in body.chunks(chunk) {
        intake.push(part);
        if intake.overflowed() {
            break;
        }
    }
    intake
}

#[test]
fn small_named_upload_is_accepted_whole() {
    let body: Vec<u8> = (0..5000u32).map(|i| (i % 251) as u8).collect();
    let intake = receive(&body, 777);
    let file = intake.finish(Some("level.vvvvvv".to_string()), true).ok().unwrap();
    assert_eq!(file.data, body);
    assert_eq!(file.name, "level.vvvvvv");
    assert_eq!(upload_reply(None), (200, "Data received!"));
}

#[test]
fn body_of_exactly_the_limit_is_accepted() {
    let body = vec![7u8; MAX_BODY_LEN];
    let intake = receive(&body, 65536);
    assert!(!intake.overflowed());
    let file = intake.finish(Some("big".to_string()), true).ok().unwrap();
    assert_eq!(file.data.len(), MAX_BODY_LEN);
}

#[test]
fn empty_body_is_accepted() {
    let intake = BodyIntake::new(0);
    let file = intake.finish(Some("empty".to_string()), true).ok().unwrap();
    assert!(file.data.is_empty());
    assert_eq!(file.name, "empty");
}

#[test]
fn body_one_byte_over_the_limit_is_refused() {
    let body = vec![1u8; MAX_BODY_LEN + 1];
    let intake = receive(&body, 4096);
    assert!(intake.overflowed());
    let err = intake.finish(Some("big".to_string()), true).err().unwrap();
    assert_eq!(err, UploadError::DataTooLong);
    assert_eq!(upload_reply(Some(err)), (400, "Data too long!"));
    assert_eq!(err.status(), 400);
    assert_eq!(err.message(), "Data too long!");
}

#[test]
fn missing_filename_is_refused_whatever_the_body() {
    for body in [vec![], vec![1u8, 2, 3], vec![9u8; MAX_BODY_LEN + 10]] {
        let intake = receive(&body, 1000);
        let err = intake.finish(None, true).err().unwrap();
        assert_eq!(err, UploadError::MissingData);
        assert_eq!(upload_reply(Some(err)), (400, "Missing data!"));
    }
}

#[test]
fn failed_read_is_missing_data() {
    let intake = receive(b"partial", 3);
    let err = intake.finish(Some("x".to_string()), false).err().unwrap();
    assert_eq!(err, UploadError::MissingData);
}

#[test]
fn length_hint_is_read_when_it_fits() {
    assert_eq!(capacity_hint(Some("1234")), 1234);
    assert_eq!(capacity_hint(Some("+42")), 42);
    assert_eq!(capacity_hint(Some("0")), 0);
    assert_eq!(capacity_hint(Some("1048576")), 1048576);
}

#[test]
fn length_hint_is_ignored_otherwise() {
    assert_eq!(capacity_hint(None), 0);
    assert_eq!(capacity_hint(Some("")), 0);
    assert_eq!(capacity_hint(Some("+")), 0);
    assert_eq!(capacity_hint(Some("1048577")), 0);
    assert_eq!(capacity_hint(Some("99999999999999999999999")), 0);
    assert_eq!(capacity_hint(Some("12a")), 0);
    assert_eq!(capacity_hint(Some("-5")), 0);
    assert_eq!(capacity_hint(Some(" 5")), 0);
}
