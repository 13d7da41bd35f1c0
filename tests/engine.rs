use facility_booking::day::Day;
use facility_booking::dispatch::Reply;
use facility_booking::engine::Engine;
use facility_booking::facility::FacilityRecord;
use facility_booking::message::{
    Booking, BookingResponse, Monitor, QueryRequest, QueryResponse, RequestType, Update,
    UpdateResponse,
};
use facility_booking::wire::DecodeError;

fn engine() -> Engine {
    let mut e = Engine::new();
    assert!(e.add_facility("facility1".to_string()));
    assert!(e.add_facility("facility2".to_string()));
    assert!(!e.add_facility("facility1".to_string()));
    e
}

fn booking(name: &str, day: Day, start: u8, count: u8, user: u8) -> Booking {
    Booking { facility_name: name.to_string(), day, start_slot: start, num_slots: count, user_id: user }
}

fn monday(e: &Engine) -> Vec<u8> {
    let q = QueryRequest { name: "facility1".to_string(), days: vec![Day::Monday] };
    e.query(&q).unwrap().availaible
}

#[test]
fn book_first_slots() {
    let mut e = engine();
    let r = e.book(booking("facility1", Day::Monday, 0, 2, 5));
    assert!(r.success);
    assert_eq!(r.confirmation_id, 1);
    let slots = monday(&e);
    assert_eq!(&slots[0..2], &[5, 5]);
    assert!(slots[2..16].iter().all(|&x| x == 0));
}

#[test]
fn book_same_range_fails() {
    let mut e = engine();
    e.book(booking("facility1", Day::Monday, 0, 2, 5));
    let r = e.book(booking("facility1", Day::Monday, 0, 2, 7));
    assert!(!r.success);
    assert_eq!(r.confirmation_id, 0);
    assert!(r.message.contains("not available"));
    let mut expected = vec![0u8; 16];
    expected[0] = 5;
    expected[1] = 5;
    assert_eq!(monday(&e), expected);
}

#[test]
fn query_after_booking() {
    let mut e = engine();
    e.book(booking("facility1", Day::Monday, 0, 2, 5));
    assert_eq!(monday(&e), vec![5, 5, 0, 0, 0, 0, 0, 0, 0, 0, 0, 0, 0, 0, 0, 0]);
}

#[test]
fn query_keeps_requested_order() {
    let mut e = engine();
    e.book(booking("facility1", Day::Friday, 15, 1, 3));
    let q = QueryRequest { name: "facility1".to_string(), days: vec![Day::Friday, Day::Monday, Day::Friday] };
    let r = e.query(&q).unwrap();
    assert_eq!(r.name, "facility1");
    assert_eq!(r.availaible.len(), 48);
    assert_eq!(r.availaible[15], 3);
    assert_eq!(r.availaible[31], 0);
    assert_eq!(r.availaible[47], 3);
    let unknown = QueryRequest { name: "nowhere".to_string(), days: vec![Day::Monday] };
    assert!(e.query(&unknown).is_none());
}

#[test]
fn update_moves_booking() {
    let mut e = engine();
    e.book(booking("facility1", Day::Monday, 0, 2, 5));
    let r = e.update(&Update { confirmation_id: 1, offset: 2 });
    assert!(r.success);
    let slots = monday(&e);
    assert_eq!(&slots[0..4], &[0, 0, 5, 5]);
    // the stored booking moved with it
    let r = e.update(&Update { confirmation_id: 1, offset: -2 });
    assert!(r.success);
    assert_eq!(&monday(&e)[0..4], &[5, 5, 0, 0]);
}

#[test]
fn update_past_end_fails() {
    let mut e = engine();
    e.book(booking("facility1", Day::Monday, 0, 2, 5));
    let r = e.update(&Update { confirmation_id: 1, offset: 20 });
    assert!(!r.success);
    assert!(r.message.contains("not available"));
    assert_eq!(&monday(&e)[0..3], &[5, 5, 0]);
    let r = e.update(&Update { confirmation_id: 1, offset: -1 });
    assert!(!r.success);
}

#[test]
fn book_unknown_facility() {
    let mut e = engine();
    let r = e.book(booking("unknown", Day::Monday, 0, 2, 5));
    assert!(!r.success);
    assert_eq!(r.confirmation_id, 0);
    assert!(r.message.contains("Facility not available"));
}

#[test]
fn book_past_end_of_day_fails() {
    let mut e = engine();
    let r = e.book(booking("facility1", Day::Tuesday, 15, 2, 5));
    assert!(!r.success);
    let r = e.book(booking("facility1", Day::Tuesday, 255, 255, 5));
    assert!(!r.success);
    let r = e.book(booking("facility1", Day::Tuesday, 0, 16, 5));
    assert!(r.success);
}

#[test]
fn user_zero_is_refused() {
    let mut e = engine();
    let r = e.book(booking("facility1", Day::Monday, 0, 1, 0));
    assert!(!r.success);
    assert_eq!(r.confirmation_id, 0);
    assert!(r.message.contains("invalid user"));
}

#[test]
fn ids_increase_and_run_out() {
    let mut e = engine();
    let mut last = 0u8;
    for i in 0..255u32 {
        let day = Day::from_byte((i % 5) as u8).unwrap();
        let name = if i % 2 == 0 { "facility1" } else { "facility2" };
        let r = e.book(booking(name, day, 0, 0, 1));
        assert!(r.success);
        assert!(r.confirmation_id > last);
        last = r.confirmation_id;
    }
    assert_eq!(last, 255);
    let r = e.book(booking("facility1", Day::Monday, 0, 1, 1));
    assert!(!r.success);
    assert!(r.message.contains("no confirmation ids left"));
}

#[test]
fn update_of_unknown_booking() {
    let mut e = engine();
    let r = e.update(&Update { confirmation_id: 1, offset: 0 });
    assert!(!r.success);
    assert!(r.message.contains("no such booking"));
    let r = e.update(&Update { confirmation_id: 0, offset: 0 });
    assert!(!r.success);
}

#[test]
fn zero_offset_update_changes_nothing() {
    let mut e = engine();
    e.book(booking("facility1", Day::Monday, 4, 3, 8));
    let before = monday(&e);
    let r = e.update(&Update { confirmation_id: 1, offset: 0 });
    assert!(r.success);
    assert_eq!(monday(&e), before);
}

#[test]
fn update_blocked_by_other_user() {
    let mut e = engine();
    e.book(booking("facility1", Day::Monday, 0, 2, 5));
    e.book(booking("facility1", Day::Monday, 3, 2, 6));
    let r = e.update(&Update { confirmation_id: 1, offset: 2 });
    assert!(!r.success);
    assert_eq!(&monday(&e)[0..5], &[5, 5, 0, 6, 6]);
    let r = e.update(&Update { confirmation_id: 1, offset: 1 });
    assert!(r.success);
    assert_eq!(&monday(&e)[0..5], &[0, 5, 5, 6, 6]);
}

#[test]
fn update_needs_recorded_owner() {
    // booking 1 is moved onto the range of booking 2 of the same user, after which
    // booking 2 no longer owns its slots
    let mut e = engine();
    e.book(booking("facility1", Day::Monday, 0, 2, 5));
    e.book(booking("facility1", Day::Monday, 2, 2, 5));
    assert!(e.update(&Update { confirmation_id: 2, offset: -1 }).success);
    assert!(e.update(&Update { confirmation_id: 1, offset: 2 }).success);
    assert_eq!(&monday(&e)[0..4], &[0, 0, 5, 5]);
    let r = e.update(&Update { confirmation_id: 2, offset: 0 });
    assert!(!r.success);
}

#[test]
fn record_books_and_shifts() {
    let mut rec = FacilityRecord::new();
    assert!(rec.is_slot_availaible(Day::Wednesday, 14, 2, 4));
    assert!(!rec.is_slot_availaible(Day::Wednesday, 15, 1, 9));
    assert!(!rec.is_slot_availaible(Day::Wednesday, 15, 2, 9));
    assert!(rec.update_booking(Day::Wednesday, 14, 2, 4, -14));
    let day = rec.get_day_slots(Day::Wednesday);
    assert_eq!(&day[0..2], &[4, 4]);
    assert_eq!(&day[14..16], &[0, 0]);
    assert!(!rec.update_booking(Day::Wednesday, 0, 2, 7, 1));
    assert_eq!(rec.get_day_slots(Day::Monday), vec![0u8; 16]);
}

fn frame(kind: RequestType, body: impl FnOnce(&mut Vec<u8>)) -> Vec<u8> {
    let mut out = vec![kind.to_byte()];
    body(&mut out);
    out
}

#[test]
fn handle_book_then_query_frames() {
    let mut e = engine();
    let f = frame(RequestType::BOOK, |o| booking("facility1", Day::Monday, 0, 2, 5).serialize(o));
    let reply: Reply = e.handle(&f).unwrap();
    let bytes = reply.response.unwrap();
    let mut pos = 0;
    let resp = BookingResponse::deserialize(&bytes, &mut pos).unwrap();
    assert!(resp.success);
    assert_eq!(resp.confirmation_id, 1);
    let note = reply.notification.unwrap();
    let mut pos = 0;
    let rec = FacilityRecord::deserialize(&note, &mut pos).unwrap();
    assert_eq!(&rec.get_day_slots(Day::Monday)[0..3], &[5, 5, 0]);
    assert!(reply.monitor.is_none());

    let f = frame(RequestType::BOOK, |o| booking("facility1", Day::Monday, 1, 1, 6).serialize(o));
    let reply = e.handle(&f).unwrap();
    assert!(reply.notification.is_none());

    let f = frame(RequestType::QUERY, |o| {
        QueryRequest { name: "facility1".to_string(), days: vec![Day::Monday] }.serialize(o)
    });
    let bytes = e.handle(&f).unwrap().response.unwrap();
    let mut pos = 0;
    let q = QueryResponse::deserialize(&bytes, &mut pos).unwrap();
    assert_eq!(q.availaible, vec![5, 5, 0, 0, 0, 0, 0, 0, 0, 0, 0, 0, 0, 0, 0, 0]);
}

#[test]
fn handle_update_and_monitor_frames() {
    let mut e = engine();
    e.book(booking("facility1", Day::Monday, 0, 2, 5));
    let f = frame(RequestType::UPDATE, |o| Update { confirmation_id: 1, offset: 2 }.serialize(o));
    let reply = e.handle(&f).unwrap();
    let bytes = reply.response.unwrap();
    let mut pos = 0;
    let r = UpdateResponse::deserialize(&bytes, &mut pos).unwrap();
    assert!(r.success);
    assert!(reply.notification.is_none());
    let f = frame(RequestType::MONITOR, |o| Monitor { duration: 30 }.serialize(o));
    let reply = e.handle(&f).unwrap();
    assert_eq!(reply.monitor, Some(30));
    assert!(reply.response.is_none());
}

#[test]
fn handle_rejects_bad_frames() {
    let mut e = engine();
    assert!(matches!(e.handle(&[]), Err(DecodeError::UnexpectedEnd)));
    assert!(matches!(e.handle(&[9, 1, 2]), Err(DecodeError::UnknownTag)));
    assert!(matches!(e.handle(&[1, b'f', 0, 7, 0, 1, 1]), Err(DecodeError::InvalidDay)));
    assert!(matches!(e.handle(&[1, b'f']), Err(DecodeError::UnterminatedString)));
    assert_eq!(monday(&e), vec![0u8; 16]);
}
