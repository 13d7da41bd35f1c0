use vstd::prelude::*;

verus! {

broadcast use vstd::string::group_string_axioms;

/// The lower-case form of a text, as Rust's Unicode case mapping gives it.
pub uninterp spec fn lower_of(s: Seq<char>) -> Seq<char>;

/// Relies on str::to_lowercase: the result depends on the characters alone.
#[verifier::external_body]
fn lowercase(s: &str) -> (r: String)
    ensures
        r@ == lower_of(s@),
{
    s.to_lowercase()
}

/// A weekday on which facilities can be booked, in calendar order.
#[derive(Debug, Clone, Copy, PartialEq, Eq, Structural, PartialOrd, Ord)]
pub enum Day {
    Monday,
    Tuesday,
    Wednesday,
    Thursday,
    Friday,
}

impl Day {
    /// The ordinal of the day, which is also its byte on the wire.
    pub open spec fn ordinal(self) -> nat {
        match self {
            Day::Monday => 0,
            Day::Tuesday => 1,
            Day::Wednesday => 2,
            Day::Thursday => 3,
            Day::Friday => 4,
        }
    }

    /// The day whose ordinal is `b`, if there is one.
    pub open spec fn spec_from_byte(b: u8) -> Option<Day> {
        if b == 0 {
            Some(Day::Monday)
        } else if b == 1 {
            Some(Day::Tuesday)
        } else if b == 2 {
            Some(Day::Wednesday)
        } else if b == 3 {
            Some(Day::Thursday)
        } else if b == 4 {
            Some(Day::Friday)
        } else {
            None
        }
    }

    pub fn to_byte(self) -> (r: u8)
        ensures
            r as nat == self.ordinal(),
            r < 5,
    {
        match self {
            Day::Monday => 0,
            Day::Tuesday => 1,
            Day::Wednesday => 2,
            Day::Thursday => 3,
            Day::Friday => 4,
        }
    }

    pub fn from_byte(b: u8) -> (r: Option<Day>)
        ensures
            r == Day::spec_from_byte(b),
    {
        match b {
            0 => Some(Day::Monday),
            1 => Some(Day::Tuesday),
            2 => Some(Day::Wednesday),
            3 => Some(Day::Thursday),
            4 => Some(Day::Friday),
            _ => None,
        }
    }
    /// The day whose lower-case English name is `name`, if there is one.
    pub open spec fn spec_from_lower_name(name: Seq<char>) -> Option<Day> {
        if name == "monday"@ {
            Some(Day::Monday)
        } else if name == "tuesday"@ {
            Some(Day::Tuesday)
        } else if name == "wednesday"@ {
            Some(Day::Wednesday)
        } else if name == "thursday"@ {
            Some(Day::Thursday)
        } else if name == "friday"@ {
            Some(Day::Friday)
        } else {
            None
        }
    }

    /// The day named exactly `name` in lower case, if there is one.
    pub fn from_lowercase_name(name: &str) -> (r: Option<Day>)
        ensures
            r == Day::spec_from_lower_name(name@),
    {
        let n = name.to_string();
        if n == "monday".to_string() {
            Some(Day::Monday)
        } else if n == "tuesday".to_string() {
            Some(Day::Tuesday)
        } else if n == "wednesday".to_string() {
            Some(Day::Wednesday)
        } else if n == "thursday".to_string() {
            Some(Day::Thursday)
        } else if n == "friday".to_string() {
            Some(Day::Friday)
        } else {
            None
        }
    }

    /// The day named `name` in any mix of upper and lower case, if there is one.
    pub fn from_name(name: &str) -> (r: Option<Day>)
        ensures
            r == Day::spec_from_lower_name(lower_of(name@)),
    {
        let lowered = lowercase(name);
        Day::from_lowercase_name(lowered.as_str())
    }
}

/// The byte of a day decodes to that day.
pub proof fn lemma_day_byte_round_trip(d: Day)
    ensures
        Day::spec_from_byte(d.ordinal() as u8) == Some(d),
{
}

} // verus!
