//! Where a snapshot is kept: one directory per calendar day.

use vstd::prelude::*;
use vstd::string::StringExecFns;

verus! {

/// The calendar day under which a snapshot is kept.
#[derive(Clone, Copy, Debug, PartialEq, Eq, Structural)]
pub struct PartitionKey {
    pub year: i32,
    pub month: u32,
    pub day: u32,
}

/// The character of one decimal digit.
pub open spec fn digit(value: nat) -> char {
    if value == 0 {
        '0'
    } else if value == 1 {
        '1'
    } else if value == 2 {
        '2'
    } else if value == 3 {
        '3'
    } else if value == 4 {
        '4'
    } else if value == 5 {
        '5'
    } else if value == 6 {
        '6'
    } else if value == 7 {
        '7'
    } else if value == 8 {
        '8'
    } else {
        '9'
    }
}

/// A number in decimal, without leading zeros.
pub open spec fn decimal(value: nat) -> Seq<char>
    decreases value,
{
    if value < 10 {
        seq![digit(value)]
    } else {
        decimal(value / 10).push(digit(value % 10))
    }
}

/// A number in decimal, with a minus sign before a negative one.
pub open spec fn signed_decimal(value: int) -> Seq<char> {
    if value < 0 {
        seq!['-'] + decimal((-value) as nat)
    } else {
        decimal(value as nat)
    }
}

/// The directory of a day: `./data/`, then year, month and day in decimal
/// with a slash between them.
pub open spec fn directory_of(key: PartitionKey) -> Seq<char> {
    "./data/"@ + signed_decimal(key.year as int) + seq!['/'] + decimal(key.month as nat)
        + seq!['/'] + decimal(key.day as nat)
}

fn digit_text(value: u64) -> (text: &'static str)
    requires
        value < 10,
    ensures
        text@ == seq![digit(value as nat)],
{
    proof {
        reveal_strlit("0");
        reveal_strlit("1");
        reveal_strlit("2");
        reveal_strlit("3");
        reveal_strlit("4");
        reveal_strlit("5");
        reveal_strlit("6");
        reveal_strlit("7");
        reveal_strlit("8");
        reveal_strlit("9");
    }
    let text = if value == 0 {
        "0"
    } else if value == 1 {
        "1"
    } else if value == 2 {
        "2"
    } else if value == 3 {
        "3"
    } else if value == 4 {
        "4"
    } else if value == 5 {
        "5"
    } else if value == 6 {
        "6"
    } else if value == 7 {
        "7"
    } else if value == 8 {
        "8"
    } else {
        "9"
    };
    assert(text@ =~= seq![digit(value as nat)]);
    text
}

/// Writes a number in decimal.
pub fn render_decimal(value: u64) -> (text: String)
    ensures
        text@ == decimal(value as nat),
    decreases value,
{
    if value < 10 {
        String::from_str(digit_text(value))
    } else {
        let mut text = render_decimal(value / 10);
        text.append(digit_text(value % 10));
        assert(text@ =~= decimal(value as nat));
        text
    }
}

/// Writes a number in decimal, a negative one with its sign.
pub fn render_signed(value: i64) -> (text: String)
    ensures
        text@ == signed_decimal(value as int),
{
    if value < 0 {
        proof {
            reveal_strlit("-");
        }
        let magnitude: u64 = if value == i64::MIN {
            9223372036854775808u64
        } else {
            (-value) as u64
        };
        let mut text = String::from_str("-");
        let digits = render_decimal(magnitude);
        text.append(digits.as_str());
        assert(text@ =~= signed_decimal(value as int));
        text
    } else {
        render_decimal(value as u64)
    }
}

impl PartitionKey {
    /// Month and day lie in the ranges that a calendar has.
    pub open spec fn in_calendar_range(self) -> bool {
        1 <= self.month <= 12 && 1 <= self.day <= 31
    }

    /// The directory under which the snapshot of this day is kept.
    pub fn directory(&self) -> (path: String)
        ensures
            path@ == directory_of(*self),
    {
        proof {
            reveal_strlit("/");
        }
        let mut path = String::from_str("./data/");
        let year = render_signed(self.year as i64);
        path.append(year.as_str());
        path.append("/");
        let month = render_decimal(self.month as u64);
        path.append(month.as_str());
        path.append("/");
        let day = render_decimal(self.day as u64);
        path.append(day.as_str());
        assert(path@ =~= directory_of(*self));
        path
    }
}

/// Reads today's date off the local clock with `chrono::Local::now` and
/// the `Datelike` getters `year`, `month` and `day`.
///
/// Trusted, not proved: the month lies in 1 to 12 and the day in 1 to 31,
/// as `Datelike` documents. Which day it is depends on the clock and the
/// time zone of the machine, so nothing more is claimed. `Local::now`
/// panics on a machine whose clock stands before 1970.
#[verifier::external_body]
fn local_today() -> (today: PartitionKey)
    ensures
        today.in_calendar_range(),
{
    let now = chrono::Local::now();
    PartitionKey {
        year: chrono::Datelike::year(&now),
        month: chrono::Datelike::month(&now),
        day: chrono::Datelike::day(&now),
    }
}

/// Today's partition by the local clock, with its directory.
pub fn todays_partition() -> (today: (PartitionKey, String))
    ensures
        today.0.in_calendar_range(),
        today.1@ == directory_of(today.0),
{
    let key = local_today();
    let path = key.directory();
    (key, path)
}

} // verus!
