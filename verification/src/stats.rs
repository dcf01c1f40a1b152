//! File statistics: the row count taken from an action's statistics payload,
//! and how it is shown.

use vstd::prelude::*;

verus! {

/// Statistics of a data file.
#[derive(Debug, Clone, Copy, PartialEq, Eq, Structural)]
pub struct Stats {
    /// Number of rows in the file.
    pub num_records: u64,
}

/// The unsigned integer that `serde_json` reads under `key` from a JSON text,
/// if it reads one.
pub uninterp spec fn json_u64_member(payload: Seq<char>, key: Seq<char>) -> Option<u64>;

/// Calls `serde_json::from_str` for a `serde_json::Value`, then `Value::get`
/// with `key` and `Value::as_u64` on what it finds. The contract only names
/// the outcome: it is a function of the two texts.
#[verifier::external_body]
fn json_member_u64(payload: &str, key: &str) -> (found: Option<u64>)
    ensures
        found == json_u64_member(payload@, key@),
{
    let value: serde_json::Value = serde_json::from_str(payload).ok()?;
    value.get(key)?.as_u64()
}

impl Stats {
    /// The statistics that a row count stands for, if there is one.
    pub open spec fn of_count(count: Option<u64>) -> Option<Stats> {
        match count {
            Some(n) => Some(Stats { num_records: n }),
            None => None,
        }
    }

    /// The statistics of a payload: those of its `numRecords` member. Absent
    /// where there is no payload or the payload holds no such count.
    pub open spec fn of_payload(payload: Option<Seq<char>>) -> Option<Stats> {
        match payload {
            Some(text) => Stats::of_count(json_u64_member(text, "numRecords"@)),
            None => None,
        }
    }

    /// Wraps a row count, if there is one.
    pub fn from_count(count: Option<u64>) -> (stats: Option<Stats>)
        ensures
            stats == Stats::of_count(count),
    {
        match count {
            Some(n) => Some(Stats { num_records: n }),
            None => None,
        }
    }

    /// Reads the statistics out of an action's payload. A missing payload
    /// and a payload without a row count both give none: unknown statistics
    /// are a state, not a failure.
    pub fn parse(payload: &Option<String>) -> (stats: Option<Stats>)
        ensures
            stats == Stats::of_payload(payload.deep_view()),
            payload is None ==> stats is None,
    {
        match payload {
            Some(text) => Stats::from_count(json_member_u64(text.as_str(), "numRecords")),
            None => None,
        }
    }
}

/// The decimal digit for `d`.
pub open spec fn digit_char(d: nat) -> char {
    if d == 0 {
        '0'
    } else if d == 1 {
        '1'
    } else if d == 2 {
        '2'
    } else if d == 3 {
        '3'
    } else if d == 4 {
        '4'
    } else if d == 5 {
        '5'
    } else if d == 6 {
        '6'
    } else if d == 7 {
        '7'
    } else if d == 8 {
        '8'
    } else {
        '9'
    }
}

/// The decimal numeral of `n`, without leading zeros.
pub open spec fn decimal(n: nat) -> Seq<char>
    decreases n,
{
    if n < 10 {
        seq![digit_char(n)]
    } else {
        decimal(n / 10).push(digit_char(n % 10))
    }
}

/// The text of one decimal digit.
fn digit(d: u64) -> (text: &'static str)
    requires
        d < 10,
    ensures
        text@ == seq![digit_char(d as nat)],
{
    proof {
        reveal_strlit("0");
        reveal_strlit("1");
        reveal_strlit("2");
        reveal_strlit("3");
        reveal_strlit("4");
        reveal_strlit("5");
        reveal_strlit("6");
        reveal_strlit("7");
        reveal_strlit("8");
        reveal_strlit("9");
    }
    let text = if d == 0 {
        "0"
    } else if d == 1 {
        "1"
    } else if d == 2 {
        "2"
    } else if d == 3 {
        "3"
    } else if d == 4 {
        "4"
    } else if d == 5 {
        "5"
    } else if d == 6 {
        "6"
    } else if d == 7 {
        "7"
    } else if d == 8 {
        "8"
    } else {
        "9"
    };
    assert(text@ =~= seq![digit_char(d as nat)]);
    text
}

/// Writes `n` as a decimal numeral.
pub fn to_decimal(n: u64) -> (text: String)
    ensures
        text@ == decimal(n as nat),
    decreases n,
{
    if n < 10 {
        String::from_str(digit(n))
    } else {
        let mut text = to_decimal(n / 10);
        text.append(digit(n % 10));
        assert(text@ =~= decimal(n as nat));
        text
    }
}

/// What stands for a row count when a file carries no statistics.
pub open spec fn unknown_label() -> Seq<char> {
    "[unknown]"@
}

/// The row count as it is shown: the decimal numeral, or the placeholder
/// where the statistics are absent.
pub open spec fn records_label(stats: Option<Stats>) -> Seq<char> {
    match stats {
        Some(s) => decimal(s.num_records as nat),
        None => unknown_label(),
    }
}

/// Renders the row count of a file for display. Absent statistics render as
/// `[unknown]`.
pub fn num_records_label(stats: &Option<Stats>) -> (text: String)
    ensures
        text@ == records_label(*stats),
{
    match stats {
        Some(s) => to_decimal(s.num_records),
        None => String::from_str("[unknown]"),
    }
}

} // verus!
