use vstd::prelude::*;
use vstd::array::ArrayAdditionalExecFns;
use crate::day::Day;
use crate::wire::DecodeError;

verus! {

/// Number of half-hour slots in a day, from 8:00 to 16:00.
pub const SLOTS_PER_DAY: usize = 16;

/// Number of slots in a week.
pub const SLOTS_PER_WEEK: usize = 80;

/// Position of slot `i` of day `d` in the week's slots.
pub open spec fn slot_index(d: Day, i: int) -> int {
    16 * d.ordinal() + i
}

/// The sequence `s` with the slots of `d` from `start` to `end` set to `v`.
pub open spec fn fill(s: Seq<u8>, d: Day, start: int, end: int, v: u8) -> Seq<u8> {
    Seq::new(
        s.len(),
        |k: int|
            if slot_index(d, start) <= k < slot_index(d, end) {
                v
            } else {
                s[k]
            },
    )
}

/// Every slot of `d` from `start` to `end` is free.
pub open spec fn range_free(s: Seq<u8>, d: Day, start: int, end: int) -> bool {
    forall|i: int| start <= i < end ==> #[trigger] s[slot_index(d, i)] == 0
}

/// Every slot of `d` from `start` to `end` belongs to `user`.
pub open spec fn range_owned(s: Seq<u8>, d: Day, start: int, end: int, user: u8) -> bool {
    forall|i: int| start <= i < end ==> #[trigger] s[slot_index(d, i)] == user
}

/// No slot of `d` from `start` to `end` belongs to a user other than `user`.
pub open spec fn range_open_to(s: Seq<u8>, d: Day, start: int, end: int, user: u8) -> bool {
    forall|i: int|
        start <= i < end ==> #[trigger] s[slot_index(d, i)] == 0 || s[slot_index(d, i)] == user
}

/// A booking of `num` slots from `start` on `d` can be made.
pub open spec fn can_book(s: Seq<u8>, d: Day, start: int, num: int) -> bool {
    start + num <= 16 && range_free(s, d, start, start + num)
}

/// The slots after a booking of `num` slots from `start` on `d` by `user`.
pub open spec fn booked(s: Seq<u8>, d: Day, start: int, num: int, user: u8) -> Seq<u8> {
    fill(s, d, start, start + num, user)
}

/// A booking of `user` for `num` slots from `start` on `d` can move by `offset`.
pub open spec fn can_shift(s: Seq<u8>, d: Day, start: int, num: int, user: u8, offset: int) -> bool {
    &&& start + offset >= 0
    &&& start + offset + num <= 16
    &&& range_owned(s, d, start, start + num, user)
    &&& range_open_to(s, d, start + offset, start + offset + num, user)
}

/// The slots after the booking is moved: the old range is cleared, then the new one filled.
pub open spec fn shifted(s: Seq<u8>, d: Day, start: int, num: int, user: u8, offset: int) -> Seq<u8> {
    fill(fill(s, d, start, start + num, 0), d, start + offset, start + offset + num, user)
}

/// The weekly slots of one facility: for each day, sixteen owners, 0 for a free slot.
#[derive(Debug, Clone, PartialEq, Eq)]
pub struct FacilityRecord {
    slots: Vec<u8>,
}

impl View for FacilityRecord {
    type V = Seq<u8>;

    /// The week's slots, Monday to Friday, sixteen per day.
    closed spec fn view(&self) -> Seq<u8> {
        self.slots@
    }
}

impl FacilityRecord {
    pub open spec fn wf(&self) -> bool {
        self@.len() == 80
    }

    /// The sixteen slots of `d`.
    pub open spec fn day_view(&self, d: Day) -> Seq<u8> {
        self@.subrange(slot_index(d, 0), slot_index(d, 16))
    }

    /// A record with every slot free.
    pub fn new() -> (r: Self)
        ensures
            r.wf(),
            forall|k: int| 0 <= k < 80 ==> r@[k] == 0,
    {
        let mut slots: Vec<u8> = Vec::new();
        let mut i: usize = 0;
        while i < SLOTS_PER_WEEK
            invariant
                i <= 80,
                slots@.len() == i,
                forall|k: int| 0 <= k < i ==> slots@[k] == 0,
            decreases 80 - i,
        {
            slots.push(0);
            i = i + 1;
        }
        FacilityRecord { slots }
    }

    /// Appends the five days' slots, Monday first.
    pub fn serialize(&self, output_stream: &mut Vec<u8>)
        requires
            self.wf(),
        ensures
            final(output_stream)@ == old(output_stream)@ + self@,
    {
        let ghost start = output_stream@;
        let mut i: usize = 0;
        while i < SLOTS_PER_WEEK
            invariant
                i <= 80,
                self.wf(),
                output_stream@ == start + self@.subrange(0, i as int),
            decreases 80 - i,
        {
            output_stream.push(self.slots[i]);
            i = i + 1;
            assert(self@.subrange(0, i as int) =~= self@.subrange(0, i - 1).push(self@[i - 1]));
        }
        assert(self@.subrange(0, 80) =~= self@);
    }

    /// Reads the five days' slots at `*pos`; on failure `*pos` stays.
    pub fn deserialize(input_stream: &[u8], pos: &mut usize) -> (r: Result<Self, DecodeError>)
        ensures
            match r {
                Ok(f) => f.wf() && *old(pos) + 80 <= input_stream@.len() && *final(pos) == *old(pos) + 80
                    && f@ == input_stream@.subrange(*old(pos) as int, *old(pos) + 80),
                Err(e) => e == DecodeError::UnexpectedEnd && input_stream@.len() < *old(pos) + 80
                    && *final(pos) == *old(pos),
            },
    {
        let p = *pos;
        if input_stream.len() < p || input_stream.len() - p < SLOTS_PER_WEEK {
            return Err(DecodeError::UnexpectedEnd);
        }
        let mut slots: Vec<u8> = Vec::new();
        let mut i: usize = 0;
        while i < SLOTS_PER_WEEK
            invariant
                i <= 80,
                p + 80 <= input_stream.len(),
                slots@ == input_stream@.subrange(p as int, p + i),
            decreases 80 - i,
        {
            slots.push(input_stream[p + i]);
            i = i + 1;
            assert(slots@ =~= input_stream@.subrange(p as int, p + i));
        }
        *pos = p + SLOTS_PER_WEEK;
        Ok(FacilityRecord { slots })
    }

    /// A copy of the sixteen slots of `day`.
    pub fn get_day_slots(&self, day: Day) -> (r: Vec<u8>)
        requires
            self.wf(),
        ensures
            r@ == self.day_view(day),
    {
        let base: usize = day.to_byte() as usize * SLOTS_PER_DAY;
        let mut out: Vec<u8> = Vec::new();
        let mut i: usize = 0;
        while i < SLOTS_PER_DAY
            invariant
                i <= 16,
                self.wf(),
                base == slot_index(day, 0),
                out@ == self@.subrange(base as int, base + i),
            decreases 16 - i,
        {
            out.push(self.slots[base + i]);
            i = i + 1;
            assert(out@ =~= self@.subrange(base as int, base + i));
        }
        out
    }

    /// Books `num_slot` slots of `day` from `start_slot` for `user_id` if they lie within
    /// the day and are all free; otherwise changes nothing. Returns whether it booked.
    pub fn is_slot_availaible(&mut self, day: Day, start_slot: u8, num_slot: u8, user_id: u8) -> (r: bool)
        requires
            old(self).wf(),
            user_id != 0,
        ensures
            final(self).wf(),
            r == can_book(old(self)@, day, start_slot as int, num_slot as int),
            r ==> final(self)@ == booked(old(self)@, day, start_slot as int, num_slot as int, user_id),
            !r ==> final(self)@ == old(self)@,
    {
        let start = start_slot as usize;
        let end = start + num_slot as usize;
        if end > SLOTS_PER_DAY {
            return false;
        }
        let base: usize = day.to_byte() as usize * SLOTS_PER_DAY;
        let mut i: usize = start;
        while i < end
            invariant
                start <= i <= end <= 16,
                start == start_slot as usize,
                end == start + num_slot as usize,
                self.wf(),
                base == slot_index(day, 0),
                range_free(self@, day, start as int, i as int),
                self@ == old(self)@,
            decreases end - i,
        {
            if self.slots[base + i] != 0 {
                assert(self@[slot_index(day, i as int)] != 0);
                return false;
            }
            i = i + 1;
        }
        let ghost before = self@;
        self.fill_range(base + start, base + end, user_id);
        assert(self@ =~= booked(before, day, start as int, num_slot as int, user_id));
        true
    }

    fn fill_range(&mut self, from: usize, to: usize, v: u8)
        requires
            old(self).wf(),
            from <= to <= 80,
        ensures
            final(self).wf(),
            final(self)@ == Seq::new(80, |k: int| if from <= k < to { v } else { old(self)@[k] }),
    {
        let mut k: usize = from;
        while k < to
            invariant
                from <= k <= to <= 80,
                self.wf(),
                forall|j: int| 0 <= j < 80 ==> self@[j] == (if from <= j < k { v } else { old(self)@[j] }),
            decreases to - k,
        {
            self.slots.set(k, v);
            k = k + 1;
        }
        assert(self@ =~= Seq::new(80, |j: int| if from <= j < to { v } else { old(self)@[j] }));
    }

    /// Moves the booking of `user_id` for `num_slot` slots from `start_slot` on `day` by
    /// `offset` slots, if the new range lies within the day, the old range is wholly the
    /// user's and no slot of the new range is another user's; otherwise changes nothing.
    /// Returns whether it moved the booking.
    pub fn update_booking(&mut self, day: Day, start_slot: u8, num_slot: u8, user_id: u8, offset: i8) -> (r: bool)
        requires
            old(self).wf(),
            start_slot + num_slot <= 16,
        ensures
            final(self).wf(),
            r == can_shift(old(self)@, day, start_slot as int, num_slot as int, user_id, offset as int),
            r ==> final(self)@ == shifted(old(self)@, day, start_slot as int, num_slot as int, user_id, offset as int),
            !r ==> final(self)@ == old(self)@,
    {
        let start = start_slot as i16;
        let end = start + num_slot as i16;
        let new_start = start + offset as i16;
        let new_end = end + offset as i16;
        if new_start < 0 || new_end > 16 {
            return false;
        }
        let base: usize = day.to_byte() as usize * SLOTS_PER_DAY;
        let mut i: usize = start as usize;
        while i < end as usize
            invariant
                start <= i <= end <= 16,
                start == start_slot as i16,
                end == start + num_slot as i16, new_start == start + offset as i16, new_end == end + offset as i16, 0 <= new_start, new_end <= 16,
                self.wf(),
                base == slot_index(day, 0),
                range_owned(self@, day, start as int, i as int, user_id),
                self@ == old(self)@,
            decreases end - i,
        {
            if self.slots[base + i] != user_id {
                assert(self@[slot_index(day, i as int)] != user_id);
                return false;
            }
            i = i + 1;
        }
        let mut j: usize = new_start as usize;
        while j < new_end as usize
            invariant
                0 <= new_start <= j <= new_end <= 16,
                start == start_slot as i16,
                end == start + num_slot as i16,
                new_start == start + offset as i16,
                new_end == end + offset as i16,
                self.wf(),
                base == slot_index(day, 0),
                range_open_to(self@, day, new_start as int, j as int, user_id),
                range_owned(self@, day, start as int, end as int, user_id),
                self@ == old(self)@,
            decreases new_end - j,
        {
            let x = self.slots[base + j];
            if x != 0 && x != user_id {
                assert(self@[slot_index(day, j as int)] == x);
                return false;
            }
            j = j + 1;
        }
        let ghost before = self@;
        self.fill_range(base + start as usize, base + end as usize, 0);
        let ghost cleared = self@;
        assert(cleared =~= fill(before, day, start as int, end as int, 0));
        self.fill_range(base + new_start as usize, base + new_end as usize, user_id);
        assert(self@ =~= fill(cleared, day, new_start as int, new_end as int, user_id));
        true
    }
}

/// The sixteen slots of one day, as a client receives them.
#[derive(Debug, Clone, Copy, PartialEq, Eq)]
pub struct Record(pub [u8; 16]);

impl Record {
    /// Cuts the slot bytes of a query response into one record per day, in order; bytes
    /// after the last whole day are left out.
    pub fn split_days(availaible: &[u8]) -> (r: Vec<Record>)
        ensures
            r@.len() == availaible@.len() / 16,
            forall|i: int|
                0 <= i < r@.len() ==> (#[trigger] r@[i]).0@ == availaible@.subrange(16 * i, 16 * i + 16),
    {
        let mut out: Vec<Record> = Vec::new();
        let mut p: usize = 0;
        while availaible.len() - p >= SLOTS_PER_DAY
            invariant
                p <= availaible@.len(),
                p == 16 * out@.len(),
                forall|i: int|
                    0 <= i < out@.len() ==> (#[trigger] out@[i]).0@ == availaible@.subrange(16 * i, 16 * i + 16),
            decreases availaible.len() - p,
        {
            let mut day: [u8; 16] = [0u8; 16];
            let mut j: usize = 0;
            while j < SLOTS_PER_DAY
                invariant
                    j <= 16,
                    p + 16 <= availaible.len(),
                    day@.len() == 16,
                    forall|k: int| 0 <= k < j ==> day@[k] == availaible@[p + k],
                decreases 16 - j,
            {
                day.set(j, availaible[p + j]);
                j = j + 1;
            }
            assert(day@ =~= availaible@.subrange(p as int, p + 16));
            out.push(Record(day));
            p = p + SLOTS_PER_DAY;
        }
        assert(out@.len() == availaible@.len() / 16);
        out
    }
}

/// Two bookings made one after the other on the same day of a record, both successful,
/// hold no slot in common.
pub proof fn lemma_no_double_booking(
    s: Seq<u8>,
    d: Day,
    start1: int,
    num1: int,
    user1: u8,
    start2: int,
    num2: int,
)
    requires
        s.len() == 80,
        0 <= start1,
        0 <= num1,
        0 <= start2,
        0 <= num2,
        user1 != 0,
        can_book(s, d, start1, num1),
        can_book(booked(s, d, start1, num1, user1), d, start2, num2),
    ensures
        num1 == 0 || num2 == 0 || start1 + num1 <= start2 || start2 + num2 <= start1,
{
    let s1 = booked(s, d, start1, num1, user1);
    if !(num1 == 0 || num2 == 0 || start1 + num1 <= start2 || start2 + num2 <= start1) {
        let i = if start1 < start2 {
            start2
        } else {
            start1
        };
        assert(s1[slot_index(d, i)] == 0);
        assert(s1[slot_index(d, i)] == user1);
    }
}

/// Moving a booking by no slots succeeds when its slots are its user's, and leaves every
/// slot as it was.
pub proof fn lemma_zero_shift(s: Seq<u8>, d: Day, start: int, num: int, user: u8)
    requires
        s.len() == 80,
        0 <= start,
        0 <= num,
        start + num <= 16,
        range_owned(s, d, start, start + num, user),
    ensures
        can_shift(s, d, start, num, user, 0),
        shifted(s, d, start, num, user, 0) == s,
{
    let t = shifted(s, d, start, num, user, 0);
    assert forall|k: int| 0 <= k < 80 implies t[k] == s[k] by {
        if slot_index(d, start) <= k < slot_index(d, start + num) {
            assert(s[slot_index(d, k - slot_index(d, 0))] == user);
        }
    }
    assert(t =~= s);
}

} // verus!
