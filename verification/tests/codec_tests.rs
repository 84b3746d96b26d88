use backup_extract::timecode::{decode, msg_timestamp};
use backup_extract::Error;

#[test]
fn decode_zero_is_epoch_start_year_known() {
    let r = decode(0);
    match r {
        Ok((t, year_known)) => {
            assert_eq!(t, 978307200);
            assert!(year_known);
        },
        Err(_) => panic!("raw value 0 must decode"),
    }
}

#[test]
fn decode_negative_uses_no_year_offset() {
    // raw + 978307200 == -1, so the no-year epoch applies.
    let r = decode(-978307201);
    match r {
        Ok((t, year_known)) => {
            assert_eq!(t, -1 + 12528129600);
            assert!(!year_known);
        },
        Err(_) => panic!("no-year raw value must decode"),
    }
}

#[test]
fn decode_small_positive() {
    let r = decode(86400);
    match r {
        Ok((t, year_known)) => {
            assert_eq!(t, 978307200 + 86400);
            assert!(year_known);
        },
        Err(_) => panic!("must decode"),
    }
}

#[test]
fn decode_overflow_is_decode_error() {
    let r = decode(i64::MAX);
    match r {
        Ok(_) => panic!("offset addition past the integer range must fail"),
        Err(Error::Decode(v)) => assert_eq!(v, i64::MAX),
        Err(_) => panic!("failure must be a decode error"),
    }
}

#[test]
fn message_timestamp_divides_nanoseconds() {
    assert_eq!(msg_timestamp(0), 978307200);
    assert_eq!(msg_timestamp(1_000_000_000), 978307201);
    // truncation toward zero, as the store's own query engine divides
    assert_eq!(msg_timestamp(1_999_999_999), 978307201);
    assert_eq!(msg_timestamp(-1_999_999_999), 978307200 - 1);
}

#[test]
fn error_messages_name_their_kind() {
    let e = Error::NotFound(String::from("Library/SMS/sms.db"));
    assert_eq!(e.message(), "not found in backup: Library/SMS/sms.db");
    let e = Error::Sql(String::from("malformed"));
    assert_eq!(e.message(), "database failure: malformed");
    let e = Error::Io(String::from("denied"));
    assert_eq!(e.message(), "I/O failure: denied");
    let e = Error::Decode(5);
    assert_eq!(e.message(), "timestamp out of range");
}
