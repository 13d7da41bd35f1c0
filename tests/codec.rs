use facility_booking::day::Day;
use facility_booking::facility::{FacilityRecord, Record};
use facility_booking::message::{
    Booking, BookingResponse, Monitor, QueryRequest, QueryResponse, RequestType, Update,
    UpdateResponse,
};
use facility_booking::wire::{read_string, write_string, DecodeError};

#[test]
fn booking_round_trip_with_boundary_slots() {
    let b = Booking {
        facility_name: "facility1".to_string(),
        day: Day::Friday,
        start_slot: 15,
        num_slots: 1,
        user_id: 255,
    };
    let mut out = vec![RequestType::BOOK.to_byte()];
    b.serialize(&mut out);
    let mut expected = vec![1u8];
    expected.extend_from_slice(b"facility1");
    expected.extend_from_slice(&[0, 4, 15, 1, 255]);
    assert_eq!(out, expected);
    let mut pos = 1;
    let back = Booking::deserialize(&out, &mut pos).unwrap();
    assert_eq!(back, b);
    assert_eq!(pos, out.len());
}

#[test]
fn booking_round_trip_with_empty_name() {
    let b = Booking { facility_name: String::new(), day: Day::Monday, start_slot: 0, num_slots: 16, user_id: 1 };
    let mut out = Vec::new();
    b.serialize(&mut out);
    assert_eq!(out, vec![0, 0, 0, 16, 1]);
    let mut pos = 0;
    assert_eq!(Booking::deserialize(&out, &mut pos).unwrap(), b);
    assert_eq!(pos, 5);
}

#[test]
fn booking_response_round_trip() {
    let r = BookingResponse { success: true, message: "Booking Successful".to_string(), confirmation_id: 3 };
    let mut out = Vec::new();
    r.serialize(&mut out);
    assert_eq!(out[0], 1);
    assert_eq!(*out.last().unwrap(), 3);
    let mut pos = 0;
    let back = BookingResponse::deserialize(&out, &mut pos).unwrap();
    assert!(back.success);
    assert_eq!(back.message, "Booking Successful");
    assert_eq!(back.confirmation_id, 3);
    assert_eq!(pos, out.len());
}

#[test]
fn update_round_trip_negative_offset() {
    let u = Update { confirmation_id: 9, offset: -1 };
    let mut out = Vec::new();
    u.serialize(&mut out);
    assert_eq!(out, vec![9, 255]);
    let mut pos = 0;
    assert_eq!(Update::deserialize(&out, &mut pos).unwrap(), u);
    assert_eq!(pos, 2);
    let extremes = [Update { confirmation_id: 0, offset: -128 }, Update { confirmation_id: 255, offset: 127 }];
    for u in extremes {
        let mut out = Vec::new();
        u.serialize(&mut out);
        let mut pos = 0;
        assert_eq!(Update::deserialize(&out, &mut pos).unwrap(), u);
    }
}

#[test]
fn update_response_round_trip_unicode() {
    let r = UpdateResponse { success: false, message: "déjà réservé".to_string() };
    let mut out = Vec::new();
    r.serialize(&mut out);
    let mut pos = 0;
    let back = UpdateResponse::deserialize(&out, &mut pos).unwrap();
    assert!(!back.success);
    assert_eq!(back.message, "déjà réservé");
    assert_eq!(pos, out.len());
}

#[test]
fn monitor_is_little_endian() {
    let m = Monitor { duration: 0x0102_0304 };
    let mut out = Vec::new();
    m.serialize(&mut out);
    assert_eq!(out, vec![4, 3, 2, 1]);
    let mut pos = 0;
    assert_eq!(Monitor::deserialize(&out, &mut pos).unwrap(), m);
    assert_eq!(pos, 4);
    let mut out = Vec::new();
    Monitor { duration: u32::MAX }.serialize(&mut out);
    let mut pos = 0;
    assert_eq!(Monitor::deserialize(&out, &mut pos).unwrap().duration, u32::MAX);
}

#[test]
fn query_request_round_trip() {
    let q = QueryRequest { name: "hall".to_string(), days: vec![Day::Wednesday, Day::Monday, Day::Wednesday] };
    let mut out = vec![0u8];
    q.serialize(&mut out);
    assert_eq!(out, vec![0, b'h', b'a', b'l', b'l', 0, 2, 0, 2]);
    let mut pos = 1;
    let back = QueryRequest::deserialize(&out, &mut pos).unwrap();
    assert_eq!(back.name, "hall");
    assert_eq!(back.days, q.days);
    assert_eq!(pos, out.len());
}

#[test]
fn query_request_with_no_days() {
    let q = QueryRequest { name: String::new(), days: vec![] };
    let mut out = Vec::new();
    q.serialize(&mut out);
    assert_eq!(out, vec![0]);
    let mut pos = 0;
    let back = QueryRequest::deserialize(&out, &mut pos).unwrap();
    assert!(back.name.is_empty());
    assert!(back.days.is_empty());
}

#[test]
fn query_response_round_trip() {
    let mut slots = vec![0u8; 32];
    slots[0] = 5;
    slots[31] = 7;
    let r = QueryResponse { name: "facility1".to_string(), availaible: slots.clone() };
    let mut out = Vec::new();
    r.serialize(&mut out);
    assert_eq!(out.len(), 10 + 32);
    let mut pos = 0;
    let back = QueryResponse::deserialize(&out, &mut pos).unwrap();
    assert_eq!(back.name, "facility1");
    assert_eq!(back.availaible, slots);
    assert_eq!(pos, out.len());
}

#[test]
fn facility_record_round_trip() {
    let mut rec = FacilityRecord::new();
    assert!(rec.is_slot_availaible(Day::Thursday, 3, 2, 9));
    let mut out = vec![42u8];
    rec.serialize(&mut out);
    assert_eq!(out.len(), 81);
    assert_eq!(out[1 + 3 * 16 + 3], 9);
    assert_eq!(out[1 + 3 * 16 + 4], 9);
    let mut pos = 1;
    let back = FacilityRecord::deserialize(&out, &mut pos).unwrap();
    assert_eq!(back, rec);
    assert_eq!(pos, 81);
}

#[test]
fn facility_record_too_short() {
    let bytes = vec![0u8; 79];
    let mut pos = 0;
    assert_eq!(FacilityRecord::deserialize(&bytes, &mut pos), Err(DecodeError::UnexpectedEnd));
    assert_eq!(pos, 0);
}

#[test]
fn unterminated_string_is_an_error() {
    let bytes = b"abc".to_vec();
    let mut pos = 0;
    assert_eq!(read_string(&bytes, &mut pos), Err(DecodeError::UnterminatedString));
    assert_eq!(pos, 0);
    let mut pos = 3;
    assert_eq!(read_string(&bytes, &mut pos), Err(DecodeError::UnterminatedString));
}

#[test]
fn invalid_utf8_is_an_error() {
    let bytes = vec![0xff, 0xfe, 0];
    let mut pos = 0;
    assert_eq!(read_string(&bytes, &mut pos), Err(DecodeError::InvalidUtf8));
    assert_eq!(pos, 0);
}

#[test]
fn string_written_with_terminator() {
    let mut out = vec![7u8];
    write_string(&"ab".to_string(), &mut out);
    assert_eq!(out, vec![7, b'a', b'b', 0]);
    let mut pos = 1;
    assert_eq!(read_string(&out, &mut pos).unwrap(), "ab");
    assert_eq!(pos, 4);
}

#[test]
fn invalid_day_byte_is_an_error() {
    let bytes = vec![b'x', 0, 5, 0, 1, 1];
    let mut pos = 0;
    assert_eq!(Booking::deserialize(&bytes, &mut pos), Err(DecodeError::InvalidDay));
    assert_eq!(pos, 0);
    let q = vec![b'x', 0, 1, 9];
    let mut pos = 0;
    assert!(matches!(QueryRequest::deserialize(&q, &mut pos), Err(DecodeError::InvalidDay)));
}

#[test]
fn truncated_frames_are_errors() {
    let bytes = vec![b'x', 0, 0, 1];
    let mut pos = 0;
    assert_eq!(Booking::deserialize(&bytes, &mut pos), Err(DecodeError::UnexpectedEnd));
    let mut pos = 0;
    assert_eq!(Update::deserialize(&[1], &mut pos), Err(DecodeError::UnexpectedEnd));
    let mut pos = 0;
    assert_eq!(Monitor::deserialize(&[1, 2, 3], &mut pos), Err(DecodeError::UnexpectedEnd));
    let mut pos = 0;
    assert!(matches!(BookingResponse::deserialize(&[1, b'o', b'k', 0], &mut pos), Err(DecodeError::UnexpectedEnd)));
    let mut pos = 5;
    assert!(matches!(UpdateResponse::deserialize(&[1], &mut pos), Err(DecodeError::UnexpectedEnd)));
}

#[test]
fn day_bytes_and_names() {
    assert_eq!(Day::from_byte(0), Some(Day::Monday));
    assert_eq!(Day::from_byte(4), Some(Day::Friday));
    assert_eq!(Day::from_byte(5), None);
    assert_eq!(Day::Thursday.to_byte(), 3);
    assert!(Day::Monday < Day::Friday);
    assert_eq!(Day::from_name("MONDAY"), Some(Day::Monday));
    assert_eq!(Day::from_name("Friday"), Some(Day::Friday));
    assert_eq!(Day::from_name("saturday"), None);
    assert_eq!(Day::from_lowercase_name("tuesday"), Some(Day::Tuesday));
    assert_eq!(Day::from_lowercase_name("Tuesday"), None);
}

#[test]
fn request_tags() {
    assert_eq!(RequestType::from_byte(0), Some(RequestType::QUERY));
    assert_eq!(RequestType::from_byte(3), Some(RequestType::MONITOR));
    assert_eq!(RequestType::from_byte(4), None);
    assert_eq!(RequestType::UPDATE.to_byte(), 2);
}

#[test]
fn records_split_by_day() {
    let mut bytes = vec![0u8; 35];
    bytes[0] = 5;
    bytes[16] = 6;
    let records = Record::split_days(&bytes);
    assert_eq!(records.len(), 2);
    assert_eq!(records[0].0[0], 5);
    assert_eq!(records[1].0[0], 6);
    assert_eq!(records[1].0[15], 0);
}
