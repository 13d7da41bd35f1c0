use vstd::prelude::*;
use crate::day::Day;
use crate::facility::{
    FacilityRecord, can_book, booked, can_shift, shifted, slot_index, range_owned,
    lemma_no_double_booking, lemma_zero_shift,
};
use crate::message::{
    Booking, BookingView, BookingResponse, BookingResponseView, Update, UpdateResponse,
    UpdateResponseView, QueryRequest, QueryRequestView, QueryResponse, QueryResponseView,
};

verus! {

broadcast use vstd::string::group_string_axioms;

pub const MSG_BOOKED: &'static str = "Booking Successful";

pub const MSG_SLOTS_TAKEN: &'static str = "Booking Failed, Slots not available";

pub const MSG_NO_FACILITY: &'static str = "Booking Failed, Facility not available";

pub const MSG_BAD_USER: &'static str = "Booking Failed, invalid user id";

pub const MSG_NO_IDS_LEFT: &'static str = "Booking Failed, no confirmation ids left";

pub const MSG_UPDATED: &'static str = "Booking updated";

pub const MSG_SHIFT_BLOCKED: &'static str = "Update Failed, Slot not available";

pub const MSG_NO_BOOKING: &'static str = "Update Failed, no such booking made";

/// The largest confirmation id; ids are single bytes and 0 means none.
pub const MAX_CONFIRMATION_ID: usize = 255;

/// The state of the scheduling engine: the known facilities with their slots, and every
/// booking made so far, the booking with confirmation id `k` at position `k - 1`.
pub struct EngineView {
    pub names: Seq<Seq<char>>,
    pub records: Seq<Seq<u8>>,
    pub bookings: Seq<BookingView>,
}

impl EngineView {
    /// The position of the facility named `n`.
    pub open spec fn facility(self, n: Seq<char>) -> Option<int> {
        if exists|i: int| 0 <= i < self.names.len() && self.names[i] == n {
            Some(choose|i: int| 0 <= i < self.names.len() && self.names[i] == n)
        } else {
            None
        }
    }

    /// The confirmation id that the next successful booking receives.
    pub open spec fn next_id(self) -> int {
        self.bookings.len() + 1int
    }

    pub open spec fn wf(self) -> bool {
        &&& self.names.len() == self.records.len()
        &&& forall|i: int, j: int|
            0 <= i < j < self.names.len() ==> self.names[i] != self.names[j]
        &&& forall|i: int| 0 <= i < self.records.len() ==> (#[trigger] self.records[i]).len() == 80
        &&& self.bookings.len() <= 255
        &&& forall|k: int|
            0 <= k < self.bookings.len() ==> {
                let b = #[trigger] self.bookings[k];
                &&& self.facility(b.facility_name) is Some
                &&& b.start_slot + b.num_slots <= 16
                &&& b.user_id != 0
            }
    }
}

pub open spec fn booking_failure(msg: Seq<char>) -> BookingResponseView {
    BookingResponseView { success: false, message: msg, confirmation_id: 0 }
}

/// The state and the response after a booking request.
pub open spec fn book_step(e: EngineView, b: BookingView) -> (EngineView, BookingResponseView) {
    match e.facility(b.facility_name) {
        None => (e, booking_failure(MSG_NO_FACILITY@)),
        Some(i) => if b.user_id == 0 {
            (e, booking_failure(MSG_BAD_USER@))
        } else if e.bookings.len() >= 255 {
            (e, booking_failure(MSG_NO_IDS_LEFT@))
        } else if !can_book(e.records[i], b.day, b.start_slot as int, b.num_slots as int) {
            (e, booking_failure(MSG_SLOTS_TAKEN@))
        } else {
            (
                EngineView {
                    names: e.names,
                    records: e.records.update(
                        i,
                        booked(e.records[i], b.day, b.start_slot as int, b.num_slots as int, b.user_id),
                    ),
                    bookings: e.bookings.push(b),
                },
                BookingResponseView {
                    success: true,
                    message: MSG_BOOKED@,
                    confirmation_id: e.next_id() as u8,
                },
            )
        },
    }
}

pub open spec fn update_failure(msg: Seq<char>) -> UpdateResponseView {
    UpdateResponseView { success: false, message: msg }
}

/// The state and the response after an update request.
pub open spec fn update_step(e: EngineView, u: Update) -> (EngineView, UpdateResponseView) {
    if u.confirmation_id == 0 || u.confirmation_id > e.bookings.len() {
        (e, update_failure(MSG_NO_BOOKING@))
    } else {
        let k = u.confirmation_id - 1;
        let b = e.bookings[k];
        match e.facility(b.facility_name) {
            None => (e, update_failure(MSG_NO_BOOKING@)),
            Some(i) => {
                let s = e.records[i];
                let start = b.start_slot as int;
                let num = b.num_slots as int;
                if can_shift(s, b.day, start, num, b.user_id, u.offset as int) {
                    (
                        EngineView {
                            names: e.names,
                            records: e.records.update(
                                i,
                                shifted(s, b.day, start, num, b.user_id, u.offset as int),
                            ),
                            bookings: e.bookings.update(
                                k,
                                BookingView { start_slot: (start + u.offset) as u8, ..b },
                            ),
                        },
                        UpdateResponseView { success: true, message: MSG_UPDATED@ },
                    )
                } else {
                    (e, update_failure(MSG_SHIFT_BLOCKED@))
                }
            },
        }
    }
}

/// The slots of each listed day, in the order listed.
pub open spec fn slots_of_days(s: Seq<u8>, days: Seq<Day>) -> Seq<u8>
    decreases days.len(),
{
    if days.len() == 0 {
        Seq::empty()
    } else {
        slots_of_days(s, days.drop_last()) + s.subrange(
            slot_index(days.last(), 0),
            slot_index(days.last(), 16),
        )
    }
}

/// The answer to a query, or none for an unknown facility.
pub open spec fn query_step(e: EngineView, q: QueryRequestView) -> Option<QueryResponseView> {
    match e.facility(q.name) {
        None => None,
        Some(i) => Some(QueryResponseView { name: q.name, availaible: slots_of_days(e.records[i], q.days) }),
    }
}

/// The scheduling engine: facilities, their slots, and the bookings made.
pub struct Engine {
    names: Vec<String>,
    records: Vec<FacilityRecord>,
    bookings: Vec<Booking>,
}

impl View for Engine {
    type V = EngineView;

    closed spec fn view(&self) -> EngineView {
        EngineView {
            names: self.names@.map_values(|s: String| s@),
            records: self.records@.map_values(|r: FacilityRecord| r@),
            bookings: self.bookings@.map_values(|b: Booking| b@),
        }
    }
}

impl Engine {
    pub closed spec fn wf(&self) -> bool {
        &&& self@.wf()
        &&& self.names@.len() == self.records@.len()
    }

    /// An engine with no facilities and no bookings.
    pub fn new() -> (r: Self)
        ensures
            r.wf(),
            r@.names.len() == 0,
            r@.bookings.len() == 0,
    {
        let r = Engine { names: Vec::new(), records: Vec::new(), bookings: Vec::new() };
        assert(r@.names =~= Seq::<Seq<char>>::empty());
        assert(r@.bookings =~= Seq::<BookingView>::empty());
        r
    }

    /// The position of the facility named `name`.
    fn find(&self, name: &String) -> (r: Option<usize>)
        requires
            self.wf(),
        ensures
            match r {
                Some(i) => self@.facility(name@) == Some(i as int),
                None => self@.facility(name@) is None,
            },
    {
        let mut i: usize = 0;
        while i < self.names.len()
            invariant
                i <= self.names@.len(),
                self.wf(),
                forall|k: int| 0 <= k < i ==> self@.names[k] != name@,
            decreases self.names.len() - i,
        {
            if self.names[i] == *name {
                assert(self@.names[i as int] == name@);
                let ghost j = choose|j: int| 0 <= j < self@.names.len() && self@.names[j] == name@;
                assert(j == i as int) by {
                    if j < i {
                    } else if j > i {
                        assert(self@.names[i as int] != self@.names[j]);
                    }
                }
                return Some(i);
            }
            i = i + 1;
        }
        None
    }

    /// Adds a facility with every slot free, unless one of that name exists. Returns
    /// whether it was added.
    pub fn add_facility(&mut self, name: String) -> (r: bool)
        requires
            old(self).wf(),
        ensures
            final(self).wf(),
            r == (old(self)@.facility(name@) is None),
            r ==> final(self)@.names == old(self)@.names.push(name@),
            r ==> final(self)@.records == old(self)@.records.push(Seq::new(80, |k: int| 0u8)),
            !r ==> final(self)@ == old(self)@,
            final(self)@.bookings == old(self)@.bookings,
    {
        match self.find(&name) {
            Some(_) => false,
            None => {
                let ghost e0 = self@;
                let rec = FacilityRecord::new();
                assert(rec@ =~= Seq::new(80, |k: int| 0u8));
                self.names.push(name);
                self.records.push(rec);
                let ghost n = self@.names;
                assert(self@.names =~= e0.names.push(name@));
                assert(self@.records =~= e0.records.push(Seq::new(80, |k: int| 0u8)));
                assert(self@.bookings =~= e0.bookings);
                assert forall|s: Seq<char>| e0.facility(s) is Some implies self@.facility(s) == e0.facility(s) by {
                    let i = choose|i: int| 0 <= i < e0.names.len() && e0.names[i] == s;
                    assert(n[i] == s);
                }
                true
            },
        }
    }
    fn refuse_booking(msg: &str) -> (r: BookingResponse)
        ensures
            r@ == booking_failure(msg@),
    {
        BookingResponse { success: false, message: msg.to_string(), confirmation_id: 0 }
    }

    fn refuse_update(msg: &str) -> (r: UpdateResponse)
        ensures
            r@ == update_failure(msg@),
    {
        UpdateResponse { success: false, message: msg.to_string() }
    }

    /// Books the requested slots if the facility is known, the user id is not 0, a
    /// confirmation id is left and the slots lie within the day and are all free. On
    /// success the booking is recorded under the next confirmation id; on failure
    /// nothing changes.
    pub fn book(&mut self, req: Booking) -> (r: BookingResponse)
        requires
            old(self).wf(),
        ensures
            final(self).wf(),
            (final(self)@, r@) == book_step(old(self)@, req@),
    {
        let idx = match self.find(&req.facility_name) {
            None => return Self::refuse_booking(MSG_NO_FACILITY),
            Some(i) => i,
        };
        if req.user_id == 0 {
            return Self::refuse_booking(MSG_BAD_USER);
        }
        if self.bookings.len() >= MAX_CONFIRMATION_ID {
            return Self::refuse_booking(MSG_NO_IDS_LEFT);
        }
        let ghost e0 = self@;
        let mut rec = self.records.remove(idx);
        let ok = rec.is_slot_availaible(req.day, req.start_slot, req.num_slots, req.user_id);
        let ghost rec_after = rec@;
        self.records.insert(idx, rec);
        if !ok {
            assert(self@.records =~= e0.records);
            assert(self@.names =~= e0.names);
            assert(self@.bookings =~= e0.bookings);
            return Self::refuse_booking(MSG_SLOTS_TAKEN);
        }
        self.bookings.push(req);
        let id = self.bookings.len() as u8;
        assert(self@.records =~= e0.records.update(idx as int, rec_after));
        assert(self@.names =~= e0.names);
        assert(self@.bookings =~= e0.bookings.push(req@));
        assert(self@.wf()) by {
            assert forall|k: int| 0 <= k < self@.bookings.len() implies {
                let b = #[trigger] self@.bookings[k];
                &&& self@.facility(b.facility_name) is Some
                &&& b.start_slot + b.num_slots <= 16
                &&& b.user_id != 0
            } by {
                if k < e0.bookings.len() {
                    assert(self@.bookings[k] == e0.bookings[k]);
                }
            }
        }
        BookingResponse { success: true, message: MSG_BOOKED.to_string(), confirmation_id: id }
    }

    /// Moves the booking `req.confirmation_id` by `req.offset` slots, on behalf of the user
    /// recorded with it, when the booking exists and the facility record allows the move.
    /// On failure nothing changes.
    pub fn update(&mut self, req: &Update) -> (r: UpdateResponse)
        requires
            old(self).wf(),
        ensures
            final(self).wf(),
            (final(self)@, r@) == update_step(old(self)@, *req),
    {
        let id = req.confirmation_id as usize;
        if id == 0 || id > self.bookings.len() {
            return Self::refuse_update(MSG_NO_BOOKING);
        }
        let k = id - 1;
        let idx = match self.find(&self.bookings[k].facility_name) {
            None => return Self::refuse_update(MSG_NO_BOOKING),
            Some(i) => i,
        };
        let day = self.bookings[k].day;
        let start = self.bookings[k].start_slot;
        let num = self.bookings[k].num_slots;
        let user = self.bookings[k].user_id;
        assert(self@.bookings[k as int] == self.bookings@[k as int]@);
        assert(start + num <= 16);
        let ghost e0 = self@;
        let mut rec = self.records.remove(idx);
        let ok = rec.update_booking(day, start, num, user, req.offset);
        let ghost rec_after = rec@;
        self.records.insert(idx, rec);
        if !ok {
            assert(self@.records =~= e0.records);
            assert(self@.names =~= e0.names);
            assert(self@.bookings =~= e0.bookings);
            return Self::refuse_update(MSG_SHIFT_BLOCKED);
        }
        let mut bk = self.bookings.remove(k);
        bk.start_slot = (start as i16 + req.offset as i16) as u8;
        let ghost bk_view = bk@;
        self.bookings.insert(k, bk);
        assert(self@.records =~= e0.records.update(idx as int, rec_after));
        assert(self@.names =~= e0.names);
        assert(self@.bookings =~= e0.bookings.update(k as int, bk_view));
        assert(self@.wf()) by {
            assert forall|j: int| 0 <= j < self@.bookings.len() implies {
                let b = #[trigger] self@.bookings[j];
                &&& self@.facility(b.facility_name) is Some
                &&& b.start_slot + b.num_slots <= 16
                &&& b.user_id != 0
            } by {
                if j != k {
                    assert(self@.bookings[j] == e0.bookings[j]);
                } else {
                    assert(e0.bookings[j] == e0.bookings[k as int]);
                }
            }
        }
        UpdateResponse { success: true, message: MSG_UPDATED.to_string() }
    }

    /// The slots of the requested facility on each requested day, in the order requested;
    /// none for an unknown facility.
    pub fn query(&self, req: &QueryRequest) -> (r: Option<QueryResponse>)
        requires
            self.wf(),
        ensures
            match r {
                Some(resp) => query_step(self@, req@) == Some(resp@),
                None => query_step(self@, req@) is None,
            },
    {
        let idx = match self.find(&req.name) {
            None => return None,
            Some(i) => i,
        };
        let rec = &self.records[idx];
        assert(rec@ == self@.records[idx as int]);
        let mut out: Vec<u8> = Vec::new();
        let mut i: usize = 0;
        while i < req.days.len()
            invariant
                i <= req.days@.len(),
                rec.wf(),
                out@ == slots_of_days(rec@, req.days@.subrange(0, i as int)),
            decreases req.days.len() - i,
        {
            let mut d = rec.get_day_slots(req.days[i]);
            out.append(&mut d);
            i = i + 1;
            assert(req.days@.subrange(0, i as int).drop_last() =~= req.days@.subrange(0, i - 1));
        }
        assert(req.days@.subrange(0, i as int) =~= req.days@);
        Some(QueryResponse { name: req.name.clone(), availaible: out })
    }
    /// The push frame of the facility named `name`: its whole record.
    pub fn record_bytes(&self, name: &String) -> (r: Vec<u8>)
        requires
            self.wf(),
            self@.facility(name@) is Some,
        ensures
            r@ == self@.records[self@.facility(name@)->0],
    {
        let idx = match self.find(name) {
            Some(i) => i,
            None => return Vec::new(),
        };
        let mut out: Vec<u8> = Vec::new();
        assert(self.records@[idx as int]@ == self@.records[idx as int]);
        assert(self@.records[idx as int].len() == 80);
        self.records[idx].serialize(&mut out);
        assert(out@ =~= self@.records[idx as int]);
        out
    }
}

/// Two successful bookings, one right after the other, on the same facility and day hold
/// no slot in common.
pub proof fn lemma_engine_no_double_booking(e: EngineView, b1: BookingView, b2: BookingView)
    requires
        e.wf(),
        book_step(e, b1).1.success,
        book_step(book_step(e, b1).0, b2).1.success,
        b1.facility_name == b2.facility_name,
        b1.day == b2.day,
    ensures
        b1.num_slots == 0 || b2.num_slots == 0 || b1.start_slot + b1.num_slots <= b2.start_slot
            || b2.start_slot + b2.num_slots <= b1.start_slot,
{
    let f = e.facility(b1.facility_name)->0;
    let e1 = book_step(e, b1).0;
    assert(e1.names == e.names);
    assert(e1.facility(b2.facility_name) == Some(f));
    lemma_no_double_booking(
        e.records[f],
        b1.day,
        b1.start_slot as int,
        b1.num_slots as int,
        b1.user_id,
        b2.start_slot as int,
        b2.num_slots as int,
    );
}

/// A booking that fails leaves the whole state, every slot included, as it was.
pub proof fn lemma_failed_booking_changes_nothing(e: EngineView, b: BookingView)
    requires
        !book_step(e, b).1.success,
    ensures
        book_step(e, b).0 == e,
        book_step(e, b).1.confirmation_id == 0,
{
}

/// No request lowers the next confirmation id: a booking raises it by one when it
/// succeeds, and an update keeps it.
pub proof fn lemma_next_id_never_decreases(e: EngineView, b: BookingView, u: Update)
    ensures
        book_step(e, b).0.next_id() == e.next_id() + (if book_step(e, b).1.success {
            1int
        } else {
            0int
        }),
        update_step(e, u).0.next_id() == e.next_id(),
{
}

/// A successful booking receives the confirmation id that was next, and any booking that
/// succeeds later, from a state reached since, receives a strictly greater one.
pub proof fn lemma_ids_increase(e: EngineView, b1: BookingView, later: EngineView, b2: BookingView)
    requires
        book_step(e, b1).1.success,
        later.next_id() >= book_step(e, b1).0.next_id(),
        book_step(later, b2).1.success,
    ensures
        book_step(e, b1).1.confirmation_id == e.next_id(),
        book_step(e, b1).1.confirmation_id < book_step(later, b2).1.confirmation_id,
{
}

/// An update succeeds only if every slot of the booking's current range still belongs to
/// the user recorded with the booking; otherwise it fails and changes nothing.
pub proof fn lemma_update_needs_recorded_owner(e: EngineView, u: Update, i: int)
    requires
        e.wf(),
        1 <= u.confirmation_id <= e.bookings.len(),
        ({
            let b = e.bookings[u.confirmation_id - 1];
            let s = e.records[e.facility(b.facility_name)->0];
            b.start_slot <= i < b.start_slot + b.num_slots && s[slot_index(b.day, i)] != b.user_id
        }),
    ensures
        !update_step(e, u).1.success,
        update_step(e, u).0 == e,
{
    let b = e.bookings[u.confirmation_id - 1];
    let s = e.records[e.facility(b.facility_name)->0];
    assert(!range_owned(s, b.day, b.start_slot as int, b.start_slot + b.num_slots, b.user_id));
}

/// Moving an existing booking by no slots succeeds when its slots are its user's, and
/// leaves every slot and every booking as they were.
pub proof fn lemma_zero_offset_update(e: EngineView, id: u8)
    requires
        e.wf(),
        1 <= id <= e.bookings.len(),
        ({
            let b = e.bookings[id - 1];
            range_owned(
                e.records[e.facility(b.facility_name)->0],
                b.day,
                b.start_slot as int,
                b.start_slot + b.num_slots,
                b.user_id,
            )
        }),
    ensures
        update_step(e, Update { confirmation_id: id, offset: 0 }).1.success,
        update_step(e, Update { confirmation_id: id, offset: 0 }).0 == e,
{
    let k = id - 1;
    let b = e.bookings[k];
    let f = e.facility(b.facility_name)->0;
    assert(e.bookings[k] == b);
    lemma_zero_shift(e.records[f], b.day, b.start_slot as int, b.num_slots as int, b.user_id);
    let e2 = update_step(e, Update { confirmation_id: id, offset: 0 }).0;
    assert(e2.records =~= e.records);
    assert(BookingView { start_slot: (b.start_slot + 0int) as u8, ..b } == b);
    assert(e2.bookings =~= e.bookings);
}

} // verus!
