use vstd::prelude::*;
use vstd::arithmetic::div_mod::lemma_fundamental_div_mod;
use crate::day::Day;
use crate::wire::{
    DecodeError, string_encoding, wire_string, parse_string, parse_byte, write_string,
    read_string, read_byte, lemma_string_decodes,
};

verus! {

/// A request to book `num_slots` slots from `start_slot` on one day of a facility.
#[derive(Debug, Clone, PartialEq, Eq)]
pub struct Booking {
    pub facility_name: String,
    pub day: Day,
    pub start_slot: u8,
    pub num_slots: u8,
    pub user_id: u8,
}

pub struct BookingView {
    pub facility_name: Seq<char>,
    pub day: Day,
    pub start_slot: u8,
    pub num_slots: u8,
    pub user_id: u8,
}

impl View for Booking {
    type V = BookingView;

    open spec fn view(&self) -> BookingView {
        BookingView {
            facility_name: self.facility_name@,
            day: self.day,
            start_slot: self.start_slot,
            num_slots: self.num_slots,
            user_id: self.user_id,
        }
    }
}

impl BookingView {
    pub open spec fn encoding(self) -> Seq<u8> {
        string_encoding(self.facility_name) + seq![
            self.day.ordinal() as u8,
            self.start_slot,
            self.num_slots,
            self.user_id,
        ]
    }
}

pub open spec fn parse_booking(b: Seq<u8>, p: int) -> Result<(BookingView, int), DecodeError> {
    match parse_string(b, p) {
        Err(e) => Err(e),
        Ok((name, q)) => if b.len() - q < 4 {
            Err(DecodeError::UnexpectedEnd)
        } else {
            match Day::spec_from_byte(b[q]) {
                None => Err(DecodeError::InvalidDay),
                Some(day) => Ok(
                    (
                        BookingView {
                            facility_name: name,
                            day,
                            start_slot: b[q + 1],
                            num_slots: b[q + 2],
                            user_id: b[q + 3],
                        },
                        q + 4,
                    ),
                ),
            }
        },
    }
}

impl Booking {
    pub fn serialize(&self, output_stream: &mut Vec<u8>)
        ensures
            final(output_stream)@ == old(output_stream)@ + self@.encoding(),
    {
        write_string(&self.facility_name, output_stream);
        output_stream.push(self.day.to_byte());
        output_stream.push(self.start_slot);
        output_stream.push(self.num_slots);
        output_stream.push(self.user_id);
        assert(final(output_stream)@ =~= old(output_stream)@ + self@.encoding());
    }

    pub fn deserialize(input_stream: &[u8], pos: &mut usize) -> (r: Result<Self, DecodeError>)
        ensures
            match r {
                Ok(m) => parse_booking(input_stream@, *old(pos) as int)
                    == Ok::<(BookingView, int), DecodeError>((m@, *final(pos) as int)),
                Err(e) => parse_booking(input_stream@, *old(pos) as int)
                    == Err::<(BookingView, int), DecodeError>(e) && *final(pos) == *old(pos),
            },
    {
        let mut p: usize = *pos;
        let facility_name = match read_string(input_stream, &mut p) {
            Ok(s) => s,
            Err(e) => return Err(e),
        };
        if input_stream.len() - p < 4 {
            return Err(DecodeError::UnexpectedEnd);
        }
        let day = match Day::from_byte(input_stream[p]) {
            Some(d) => d,
            None => return Err(DecodeError::InvalidDay),
        };
        let start_slot = input_stream[p + 1];
        let num_slots = input_stream[p + 2];
        let user_id = input_stream[p + 3];
        *pos = p + 4;
        Ok(Booking { facility_name, day, start_slot, num_slots, user_id })
    }
}

/// The server's answer to a booking request; `confirmation_id` is 0 when none was issued.
#[derive(Debug)]
pub struct BookingResponse {
    pub success: bool,
    pub message: String,
    pub confirmation_id: u8,
}

pub struct BookingResponseView {
    pub success: bool,
    pub message: Seq<char>,
    pub confirmation_id: u8,
}

impl View for BookingResponse {
    type V = BookingResponseView;

    open spec fn view(&self) -> BookingResponseView {
        BookingResponseView {
            success: self.success,
            message: self.message@,
            confirmation_id: self.confirmation_id,
        }
    }
}

pub open spec fn flag_byte(b: bool) -> u8 {
    if b {
        1
    } else {
        0
    }
}

impl BookingResponseView {
    pub open spec fn encoding(self) -> Seq<u8> {
        seq![flag_byte(self.success)] + string_encoding(self.message) + seq![self.confirmation_id]
    }
}

pub open spec fn parse_booking_response(b: Seq<u8>, p: int) -> Result<(BookingResponseView, int), DecodeError> {
    match parse_byte(b, p) {
        Err(e) => Err(e),
        Ok((flag, p1)) => match parse_string(b, p1) {
            Err(e) => Err(e),
            Ok((message, p2)) => match parse_byte(b, p2) {
                Err(e) => Err(e),
                Ok((id, p3)) => Ok(
                    (
                        BookingResponseView { success: flag != 0, message, confirmation_id: id },
                        p3,
                    ),
                ),
            },
        },
    }
}

impl BookingResponse {
    pub fn serialize(&self, output_stream: &mut Vec<u8>)
        ensures
            final(output_stream)@ == old(output_stream)@ + self@.encoding(),
    {
        output_stream.push(if self.success { 1 } else { 0 });
        write_string(&self.message, output_stream);
        output_stream.push(self.confirmation_id);
        assert(final(output_stream)@ =~= old(output_stream)@ + self@.encoding());
    }

    pub fn deserialize(input_stream: &[u8], pos: &mut usize) -> (r: Result<Self, DecodeError>)
        ensures
            match r {
                Ok(m) => parse_booking_response(input_stream@, *old(pos) as int)
                    == Ok::<(BookingResponseView, int), DecodeError>((m@, *final(pos) as int)),
                Err(e) => parse_booking_response(input_stream@, *old(pos) as int)
                    == Err::<(BookingResponseView, int), DecodeError>(e) && *final(pos) == *old(pos),
            },
    {
        let mut p: usize = *pos;
        let flag = match read_byte(input_stream, &mut p) {
            Ok(x) => x,
            Err(e) => return Err(e),
        };
        let message = match read_string(input_stream, &mut p) {
            Ok(s) => s,
            Err(e) => return Err(e),
        };
        let confirmation_id = match read_byte(input_stream, &mut p) {
            Ok(x) => x,
            Err(e) => return Err(e),
        };
        *pos = p;
        Ok(BookingResponse { success: flag != 0, message, confirmation_id })
    }
}


/// A request to move the booking `confirmation_id` by `offset` slots.
#[derive(Debug, Clone, Copy, PartialEq, Eq, Structural)]
pub struct Update {
    pub confirmation_id: u8,
    pub offset: i8,
}

/// The two's-complement byte of a signed offset.
pub open spec fn offset_byte(x: i8) -> u8 {
    if x >= 0 {
        x as u8
    } else {
        (x + 256) as u8
    }
}

/// The signed offset that a byte stands for in two's complement.
pub open spec fn offset_of_byte(b: u8) -> i8 {
    if b < 128 {
        b as i8
    } else {
        (b - 256) as i8
    }
}

impl Update {
    pub open spec fn encoding(self) -> Seq<u8> {
        seq![self.confirmation_id, offset_byte(self.offset)]
    }

    pub fn serialize(&self, output_stream: &mut Vec<u8>)
        ensures
            final(output_stream)@ == old(output_stream)@ + self.encoding(),
    {
        output_stream.push(self.confirmation_id);
        let b: u8 = if self.offset >= 0 {
            self.offset as u8
        } else {
            (self.offset as i16 + 256) as u8
        };
        output_stream.push(b);
        assert(final(output_stream)@ =~= old(output_stream)@ + self.encoding());
    }

    pub fn deserialize(input_stream: &[u8], pos: &mut usize) -> (r: Result<Self, DecodeError>)
        ensures
            match r {
                Ok(m) => parse_update(input_stream@, *old(pos) as int)
                    == Ok::<(Update, int), DecodeError>((m, *final(pos) as int)),
                Err(e) => parse_update(input_stream@, *old(pos) as int)
                    == Err::<(Update, int), DecodeError>(e) && *final(pos) == *old(pos),
            },
    {
        if input_stream.len() <= *pos || input_stream.len() - *pos < 2 {
            return Err(DecodeError::UnexpectedEnd);
        }
        let confirmation_id = input_stream[*pos];
        let b = input_stream[*pos + 1];
        let offset: i8 = if b < 128 {
            b as i8
        } else {
            (b as i16 - 256) as i8
        };
        *pos = *pos + 2;
        Ok(Update { confirmation_id, offset })
    }
}

pub open spec fn parse_update(b: Seq<u8>, p: int) -> Result<(Update, int), DecodeError> {
    if 0 <= p && p + 2 <= b.len() {
        Ok((Update { confirmation_id: b[p], offset: offset_of_byte(b[p + 1]) }, p + 2))
    } else {
        Err(DecodeError::UnexpectedEnd)
    }
}

/// The server's answer to an update request.
#[derive(Debug)]
pub struct UpdateResponse {
    pub success: bool,
    pub message: String,
}

pub struct UpdateResponseView {
    pub success: bool,
    pub message: Seq<char>,
}

impl View for UpdateResponse {
    type V = UpdateResponseView;

    open spec fn view(&self) -> UpdateResponseView {
        UpdateResponseView { success: self.success, message: self.message@ }
    }
}

impl UpdateResponseView {
    pub open spec fn encoding(self) -> Seq<u8> {
        seq![flag_byte(self.success)] + string_encoding(self.message)
    }
}

pub open spec fn parse_update_response(b: Seq<u8>, p: int) -> Result<(UpdateResponseView, int), DecodeError> {
    match parse_byte(b, p) {
        Err(e) => Err(e),
        Ok((flag, p1)) => match parse_string(b, p1) {
            Err(e) => Err(e),
            Ok((message, p2)) => Ok((UpdateResponseView { success: flag != 0, message }, p2)),
        },
    }
}

impl UpdateResponse {
    pub fn serialize(&self, output_stream: &mut Vec<u8>)
        ensures
            final(output_stream)@ == old(output_stream)@ + self@.encoding(),
    {
        output_stream.push(if self.success { 1 } else { 0 });
        write_string(&self.message, output_stream);
        assert(final(output_stream)@ =~= old(output_stream)@ + self@.encoding());
    }

    pub fn deserialize(input_stream: &[u8], pos: &mut usize) -> (r: Result<Self, DecodeError>)
        ensures
            match r {
                Ok(m) => parse_update_response(input_stream@, *old(pos) as int)
                    == Ok::<(UpdateResponseView, int), DecodeError>((m@, *final(pos) as int)),
                Err(e) => parse_update_response(input_stream@, *old(pos) as int)
                    == Err::<(UpdateResponseView, int), DecodeError>(e) && *final(pos) == *old(pos),
            },
    {
        let mut p: usize = *pos;
        let flag = match read_byte(input_stream, &mut p) {
            Ok(x) => x,
            Err(e) => return Err(e),
        };
        let message = match read_string(input_stream, &mut p) {
            Ok(s) => s,
            Err(e) => return Err(e),
        };
        *pos = p;
        Ok(UpdateResponse { success: flag != 0, message })
    }
}

/// A request to be told of schedule changes for `duration` seconds.
#[derive(Debug, Clone, Copy, PartialEq, Eq, Structural)]
pub struct Monitor {
    pub duration: u32,
}

/// The value of four bytes read as a little-endian unsigned integer.
pub open spec fn le_value(b0: u8, b1: u8, b2: u8, b3: u8) -> int {
    b0 + 256 * b1 + 65536 * b2 + 16777216 * b3
}

/// The four little-endian bytes of `d`.
pub open spec fn le_bytes(d: u32) -> Seq<u8> {
    seq![(d % 256) as u8, (d / 256 % 256) as u8, (d / 65536 % 256) as u8, (d / 16777216) as u8]
}

pub open spec fn parse_monitor(b: Seq<u8>, p: int) -> Result<(Monitor, int), DecodeError> {
    if 0 <= p && p + 4 <= b.len() {
        Ok((Monitor { duration: le_value(b[p], b[p + 1], b[p + 2], b[p + 3]) as u32 }, p + 4))
    } else {
        Err(DecodeError::UnexpectedEnd)
    }
}

/// Reading back the little-endian bytes of a number gives the number.
pub proof fn lemma_le_round_trip(d: u32)
    ensures
        le_value(le_bytes(d)[0], le_bytes(d)[1], le_bytes(d)[2], le_bytes(d)[3]) == d as int,
{
    let x = d as int;
    lemma_fundamental_div_mod(x, 256);
    lemma_fundamental_div_mod(x / 256, 256);
    lemma_fundamental_div_mod(x / 65536, 256);
    vstd::arithmetic::div_mod::lemma_div_denominator(x, 256, 256);
    vstd::arithmetic::div_mod::lemma_div_denominator(x, 65536, 256);
    assert(x / 16777216 < 256) by {
        vstd::arithmetic::div_mod::lemma_div_is_ordered(x, 4294967295, 16777216);
    }
}

impl Monitor {
    pub open spec fn encoding(self) -> Seq<u8> {
        le_bytes(self.duration)
    }

    pub fn serialize(&self, output_stream: &mut Vec<u8>)
        ensures
            final(output_stream)@ == old(output_stream)@ + self.encoding(),
    {
        let d = self.duration;
        output_stream.push((d % 256) as u8);
        output_stream.push((d / 256 % 256) as u8);
        output_stream.push((d / 65536 % 256) as u8);
        assert(d / 16777216 < 256) by {
            vstd::arithmetic::div_mod::lemma_div_is_ordered(d as int, 4294967295, 16777216);
        }
        output_stream.push((d / 16777216) as u8);
        assert(final(output_stream)@ =~= old(output_stream)@ + self.encoding());
    }

    pub fn deserialize(input_stream: &[u8], pos: &mut usize) -> (r: Result<Self, DecodeError>)
        ensures
            match r {
                Ok(m) => parse_monitor(input_stream@, *old(pos) as int)
                    == Ok::<(Monitor, int), DecodeError>((m, *final(pos) as int)),
                Err(e) => parse_monitor(input_stream@, *old(pos) as int)
                    == Err::<(Monitor, int), DecodeError>(e) && *final(pos) == *old(pos),
            },
    {
        if input_stream.len() <= *pos || input_stream.len() - *pos < 4 {
            return Err(DecodeError::UnexpectedEnd);
        }
        let p = *pos;
        let duration: u32 = input_stream[p] as u32 + 256 * (input_stream[p + 1] as u32) + 65536
            * (input_stream[p + 2] as u32) + 16777216 * (input_stream[p + 3] as u32);
        *pos = p + 4;
        Ok(Monitor { duration })
    }
}

/// The kind of a request frame, given by its first byte.
#[derive(Debug, Clone, Copy, PartialEq, Eq, Structural)]
pub enum RequestType {
    QUERY,
    BOOK,
    UPDATE,
    MONITOR,
}

impl RequestType {
    pub open spec fn tag(self) -> u8 {
        match self {
            RequestType::QUERY => 0,
            RequestType::BOOK => 1,
            RequestType::UPDATE => 2,
            RequestType::MONITOR => 3,
        }
    }

    pub open spec fn spec_from_byte(b: u8) -> Option<RequestType> {
        if b == 0 {
            Some(RequestType::QUERY)
        } else if b == 1 {
            Some(RequestType::BOOK)
        } else if b == 2 {
            Some(RequestType::UPDATE)
        } else if b == 3 {
            Some(RequestType::MONITOR)
        } else {
            None
        }
    }

    pub fn to_byte(self) -> (r: u8)
        ensures
            r == self.tag(),
    {
        match self {
            RequestType::QUERY => 0,
            RequestType::BOOK => 1,
            RequestType::UPDATE => 2,
            RequestType::MONITOR => 3,
        }
    }

    pub fn from_byte(b: u8) -> (r: Option<RequestType>)
        ensures
            r == RequestType::spec_from_byte(b),
    {
        match b {
            0 => Some(RequestType::QUERY),
            1 => Some(RequestType::BOOK),
            2 => Some(RequestType::UPDATE),
            3 => Some(RequestType::MONITOR),
            _ => None,
        }
    }
}

/// A request for the slots of a facility on the listed days, in that order.
#[derive(Debug, Clone)]
pub struct QueryRequest {
    pub name: String,
    pub days: Vec<Day>,
}

pub struct QueryRequestView {
    pub name: Seq<char>,
    pub days: Seq<Day>,
}

impl View for QueryRequest {
    type V = QueryRequestView;

    open spec fn view(&self) -> QueryRequestView {
        QueryRequestView { name: self.name@, days: self.days@ }
    }
}

pub open spec fn day_bytes(days: Seq<Day>) -> Seq<u8> {
    Seq::new(days.len(), |i: int| days[i].ordinal() as u8)
}

impl QueryRequestView {
    pub open spec fn encoding(self) -> Seq<u8> {
        string_encoding(self.name) + day_bytes(self.days)
    }
}

/// The days that the bytes of `b` from `p` to the end stand for, if all are day bytes.
pub open spec fn parse_days(b: Seq<u8>, p: int) -> Result<Seq<Day>, DecodeError> {
    if forall|k: int| p <= k < b.len() ==> #[trigger] Day::spec_from_byte(b[k]) is Some {
        Ok(Seq::new((b.len() - p) as nat, |i: int| Day::spec_from_byte(b[p + i])->0))
    } else {
        Err(DecodeError::InvalidDay)
    }
}

pub open spec fn parse_query_request(b: Seq<u8>, p: int) -> Result<(QueryRequestView, int), DecodeError> {
    match parse_string(b, p) {
        Err(e) => Err(e),
        Ok((name, q)) => match parse_days(b, q) {
            Err(e) => Err(e),
            Ok(days) => Ok((QueryRequestView { name, days }, b.len() as int)),
        },
    }
}

impl QueryRequest {
    pub fn serialize(&self, output_stream: &mut Vec<u8>)
        ensures
            final(output_stream)@ == old(output_stream)@ + self@.encoding(),
    {
        write_string(&self.name, output_stream);
        let ghost mid = output_stream@;
        let mut i: usize = 0;
        while i < self.days.len()
            invariant
                i <= self.days@.len(),
                output_stream@ == mid + day_bytes(self.days@.subrange(0, i as int)),
            decreases self.days.len() - i,
        {
            output_stream.push(self.days[i].to_byte());
            i = i + 1;
            assert(day_bytes(self.days@.subrange(0, i as int)) =~= day_bytes(
                self.days@.subrange(0, i - 1),
            ).push(self.days@[i - 1].ordinal() as u8));
        }
        assert(self.days@.subrange(0, i as int) =~= self.days@);
        assert(final(output_stream)@ =~= old(output_stream)@ + self@.encoding());
    }

    /// Decodes a query request whose day list fills the rest of the frame.
    pub fn deserialize(input_stream: &[u8], pos: &mut usize) -> (r: Result<Self, DecodeError>)
        ensures
            match r {
                Ok(m) => parse_query_request(input_stream@, *old(pos) as int)
                    == Ok::<(QueryRequestView, int), DecodeError>((m@, *final(pos) as int)),
                Err(e) => parse_query_request(input_stream@, *old(pos) as int)
                    == Err::<(QueryRequestView, int), DecodeError>(e) && *final(pos) == *old(pos),
            },
    {
        let mut p: usize = *pos;
        let name = match read_string(input_stream, &mut p) {
            Ok(s) => s,
            Err(e) => return Err(e),
        };
        let ghost b = input_stream@;
        let ghost q = p as int;
        let mut days: Vec<Day> = Vec::new();
        let mut i: usize = p;
        while i < input_stream.len()
            invariant
                q <= i <= b.len(),
                b == input_stream@,
                parse_string(b, *pos as int) == Ok::<(Seq<char>, int), DecodeError>((name@, q)),
                days@.len() == i - q,
                forall|k: int| q <= k < i ==> #[trigger] Day::spec_from_byte(b[k]) is Some,
                forall|k: int| 0 <= k < days@.len() ==> days@[k] == Day::spec_from_byte(b[q + k])->0,
            decreases input_stream.len() - i,
        {
            match Day::from_byte(input_stream[i]) {
                Some(d) => days.push(d),
                None => {
                    assert(!(Day::spec_from_byte(b[i as int]) is Some));
                    assert(!(forall|k: int| q <= k < b.len() ==> #[trigger] Day::spec_from_byte(b[k]) is Some));
                    assert(parse_days(b, q) == Err::<Seq<Day>, DecodeError>(DecodeError::InvalidDay));
                    return Err(DecodeError::InvalidDay);
                },
            }
            i = i + 1;
        }
        assert(days@ =~= Seq::new((b.len() - q) as nat, |k: int| Day::spec_from_byte(b[q + k])->0));
        *pos = input_stream.len();
        Ok(QueryRequest { name, days })
    }
}

/// The slots of a facility on the requested days, one run of sixteen per day.
#[derive(Debug)]
pub struct QueryResponse {
    pub name: String,
    pub availaible: Vec<u8>,
}

pub struct QueryResponseView {
    pub name: Seq<char>,
    pub availaible: Seq<u8>,
}

impl View for QueryResponse {
    type V = QueryResponseView;

    open spec fn view(&self) -> QueryResponseView {
        QueryResponseView { name: self.name@, availaible: self.availaible@ }
    }
}

impl QueryResponseView {
    pub open spec fn encoding(self) -> Seq<u8> {
        string_encoding(self.name) + self.availaible
    }
}

pub open spec fn parse_query_response(b: Seq<u8>, p: int) -> Result<(QueryResponseView, int), DecodeError> {
    match parse_string(b, p) {
        Err(e) => Err(e),
        Ok((name, q)) => Ok(
            (QueryResponseView { name, availaible: b.subrange(q, b.len() as int) }, b.len() as int),
        ),
    }
}

impl QueryResponse {
    pub fn serialize(&self, output_stream: &mut Vec<u8>)
        ensures
            final(output_stream)@ == old(output_stream)@ + self@.encoding(),
    {
        write_string(&self.name, output_stream);
        let ghost mid = output_stream@;
        let mut i: usize = 0;
        while i < self.availaible.len()
            invariant
                i <= self.availaible@.len(),
                output_stream@ == mid + self.availaible@.subrange(0, i as int),
            decreases self.availaible.len() - i,
        {
            output_stream.push(self.availaible[i]);
            i = i + 1;
            assert(self.availaible@.subrange(0, i as int) =~= self.availaible@.subrange(0, i - 1).push(
                self.availaible@[i - 1],
            ));
        }
        assert(self.availaible@.subrange(0, i as int) =~= self.availaible@);
        assert(final(output_stream)@ =~= old(output_stream)@ + self@.encoding());
    }

    /// Decodes a query response whose slot bytes fill the rest of the frame.
    pub fn deserialize(input_stream: &[u8], pos: &mut usize) -> (r: Result<Self, DecodeError>)
        ensures
            match r {
                Ok(m) => parse_query_response(input_stream@, *old(pos) as int)
                    == Ok::<(QueryResponseView, int), DecodeError>((m@, *final(pos) as int)),
                Err(e) => parse_query_response(input_stream@, *old(pos) as int)
                    == Err::<(QueryResponseView, int), DecodeError>(e) && *final(pos) == *old(pos),
            },
    {
        let mut p: usize = *pos;
        let name = match read_string(input_stream, &mut p) {
            Ok(s) => s,
            Err(e) => return Err(e),
        };
        let mut availaible: Vec<u8> = Vec::new();
        let mut i: usize = p;
        while i < input_stream.len()
            invariant
                p <= i <= input_stream@.len(),
                availaible@ == input_stream@.subrange(p as int, i as int),
            decreases input_stream.len() - i,
        {
            availaible.push(input_stream[i]);
            i = i + 1;
            assert(availaible@ =~= input_stream@.subrange(p as int, i as int));
        }
        *pos = input_stream.len();
        Ok(QueryResponse { name, availaible })
    }
}

/// Decoding a booking request from any frame that holds its encoding gives it back, and
/// moves past exactly its encoding.
pub proof fn lemma_booking_round_trip(m: BookingView, prefix: Seq<u8>, suffix: Seq<u8>)
    requires
        wire_string(m.facility_name),
    ensures
        parse_booking(prefix + m.encoding() + suffix, prefix.len() as int)
            == Ok::<(BookingView, int), DecodeError>((m, (prefix.len() + m.encoding().len()) as int)),
{
    let b = prefix + m.encoding() + suffix;
    let p = prefix.len() as int;
    let se = string_encoding(m.facility_name);
    let q = p + se.len();
    assert(b.subrange(p, q) =~= se);
    lemma_string_decodes(b, p, m.facility_name);
    assert(b[q] == m.day.ordinal() as u8);
    assert(b[q + 1] == m.start_slot);
    assert(b[q + 2] == m.num_slots);
    assert(b[q + 3] == m.user_id);
    crate::day::lemma_day_byte_round_trip(m.day);
}

/// Decoding a booking response from any frame that holds its encoding gives it back, and
/// moves past exactly its encoding.
pub proof fn lemma_booking_response_round_trip(m: BookingResponseView, prefix: Seq<u8>, suffix: Seq<u8>)
    requires
        wire_string(m.message),
    ensures
        parse_booking_response(prefix + m.encoding() + suffix, prefix.len() as int)
            == Ok::<(BookingResponseView, int), DecodeError>((m, (prefix.len() + m.encoding().len()) as int)),
{
    let b = prefix + m.encoding() + suffix;
    let p = prefix.len() as int;
    let se = string_encoding(m.message);
    let q = p + 1 + se.len();
    assert(b[p] == flag_byte(m.success));
    assert(b.subrange(p + 1, q) =~= se);
    lemma_string_decodes(b, p + 1, m.message);
    assert(b[q] == m.confirmation_id);
}

/// Decoding an update request from any frame that holds its encoding gives it back, and
/// moves past exactly its encoding.
pub proof fn lemma_update_round_trip(m: Update, prefix: Seq<u8>, suffix: Seq<u8>)
    ensures
        parse_update(prefix + m.encoding() + suffix, prefix.len() as int)
            == Ok::<(Update, int), DecodeError>((m, (prefix.len() + m.encoding().len()) as int)),
{
    let b = prefix + m.encoding() + suffix;
    let p = prefix.len() as int;
    assert(b[p] == m.confirmation_id);
    assert(b[p + 1] == offset_byte(m.offset));
    assert(offset_of_byte(offset_byte(m.offset)) == m.offset);
}

/// Decoding an update response from any frame that holds its encoding gives it back, and
/// moves past exactly its encoding.
pub proof fn lemma_update_response_round_trip(m: UpdateResponseView, prefix: Seq<u8>, suffix: Seq<u8>)
    requires
        wire_string(m.message),
    ensures
        parse_update_response(prefix + m.encoding() + suffix, prefix.len() as int)
            == Ok::<(UpdateResponseView, int), DecodeError>((m, (prefix.len() + m.encoding().len()) as int)),
{
    let b = prefix + m.encoding() + suffix;
    let p = prefix.len() as int;
    let se = string_encoding(m.message);
    assert(b[p] == flag_byte(m.success));
    assert(b.subrange(p + 1, p + 1 + se.len()) =~= se);
    lemma_string_decodes(b, p + 1, m.message);
}

/// Decoding a monitor request from any frame that holds its encoding gives it back, and
/// moves past exactly its encoding.
pub proof fn lemma_monitor_round_trip(m: Monitor, prefix: Seq<u8>, suffix: Seq<u8>)
    ensures
        parse_monitor(prefix + m.encoding() + suffix, prefix.len() as int)
            == Ok::<(Monitor, int), DecodeError>((m, (prefix.len() + m.encoding().len()) as int)),
{
    let b = prefix + m.encoding() + suffix;
    let p = prefix.len() as int;
    let e = le_bytes(m.duration);
    assert(b[p] == e[0] && b[p + 1] == e[1] && b[p + 2] == e[2] && b[p + 3] == e[3]);
    lemma_le_round_trip(m.duration);
}

/// Decoding a query request from a frame that ends with its encoding gives it back, and
/// moves to the end of the frame.
pub proof fn lemma_query_request_round_trip(m: QueryRequestView, prefix: Seq<u8>)
    requires
        wire_string(m.name),
    ensures
        parse_query_request(prefix + m.encoding(), prefix.len() as int)
            == Ok::<(QueryRequestView, int), DecodeError>((m, (prefix.len() + m.encoding().len()) as int)),
{
    let b = prefix + m.encoding();
    let p = prefix.len() as int;
    let se = string_encoding(m.name);
    let q = p + se.len();
    assert(b.subrange(p, q) =~= se);
    lemma_string_decodes(b, p, m.name);
    assert forall|k: int| q <= k < b.len() implies #[trigger] Day::spec_from_byte(b[k]) is Some
        && Day::spec_from_byte(b[k])->0 == m.days[k - q] by {
        assert(b[k] == m.days[k - q].ordinal() as u8);
        crate::day::lemma_day_byte_round_trip(m.days[k - q]);
    }
    assert(Seq::new((b.len() - q) as nat, |i: int| Day::spec_from_byte(b[q + i])->0) =~= m.days);
}

/// Decoding a query response from a frame that ends with its encoding gives it back, and
/// moves to the end of the frame.
pub proof fn lemma_query_response_round_trip(m: QueryResponseView, prefix: Seq<u8>)
    requires
        wire_string(m.name),
    ensures
        parse_query_response(prefix + m.encoding(), prefix.len() as int)
            == Ok::<(QueryResponseView, int), DecodeError>((m, (prefix.len() + m.encoding().len()) as int)),
{
    let b = prefix + m.encoding();
    let p = prefix.len() as int;
    let se = string_encoding(m.name);
    let q = p + se.len();
    assert(b.subrange(p, q) =~= se);
    lemma_string_decodes(b, p, m.name);
    assert(b.subrange(q, b.len() as int) =~= m.availaible);
}

} // verus!
