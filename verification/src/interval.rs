//! The intervals at which quote information is sampled, and their texts.

use crate::text::same_text;
use vstd::prelude::*;

verus! {

/// An interval used when requesting periods of quote information.
///
/// The variants are named by their text with an underscore in front, since a
/// name cannot start with a digit: `m` is for minutes and `mo` for months.
#[allow(non_camel_case_types)]
#[derive(Clone, Copy, Debug, PartialEq, Eq, Structural)]
pub enum Interval {
    _1m,
    _2m,
    _5m,
    _15m,
    _30m,
    _60m,
    _90m,
    _1d,
    _5d,
    _1mo,
    _3mo,
    _6mo,
    _1y,
    _2y,
    _5y,
    _10y,
    _ytd,
    _max,
}

/// The error for a text that names no interval.
#[derive(Clone, Copy, Debug, PartialEq, Eq, Structural)]
pub struct InvalidIntervalError;

impl InvalidIntervalError {
    /// What the error says to a reader.
    pub open spec fn text() -> Seq<char> {
        "Invalid interval value"@
    }

    /// The error's message.
    pub fn to_string(&self) -> (message: String)
        ensures
            message@ == Self::text(),
    {
        "Invalid interval value".to_owned()
    }
}

impl Interval {
    /// The text of an interval: its name without the underscore.
    pub open spec fn text(self) -> Seq<char> {
        match self {
            Interval::_1m => "1m"@,
            Interval::_2m => "2m"@,
            Interval::_5m => "5m"@,
            Interval::_15m => "15m"@,
            Interval::_30m => "30m"@,
            Interval::_60m => "60m"@,
            Interval::_90m => "90m"@,
            Interval::_1d => "1d"@,
            Interval::_5d => "5d"@,
            Interval::_1mo => "1mo"@,
            Interval::_3mo => "3mo"@,
            Interval::_6mo => "6mo"@,
            Interval::_1y => "1y"@,
            Interval::_2y => "2y"@,
            Interval::_5y => "5y"@,
            Interval::_10y => "10y"@,
            Interval::_ytd => "ytd"@,
            Interval::_max => "max"@,
        }
    }

    /// Whether an interval is shorter than a day, that is, counted in minutes.
    pub open spec fn intraday(self) -> bool {
        self is _1m || self is _2m || self is _5m || self is _15m || self is _30m || self is _60m
            || self is _90m
    }

    /// What parsing the text `t` gives: the one interval with that text, or
    /// the error where no interval has it.
    pub open spec fn parsed(t: Seq<char>, outcome: Result<Interval, InvalidIntervalError>) -> bool {
        match outcome {
            Ok(interval) => interval.text() == t,
            Err(_) => forall|interval: Interval| interval.text() != t,
        }
    }

    /// Whether the interval is shorter than a day.
    pub fn is_intraday(&self) -> (intraday: bool)
        ensures
            intraday == self.intraday(),
    {
        match self {
            Self::_1m | Self::_2m | Self::_5m | Self::_15m | Self::_30m | Self::_60m | Self::_90m => true,
            _ => false,
        }
    }

    /// The interval's text, as a string slice.
    pub fn as_str(&self) -> (text: &'static str)
        ensures
            text@ == self.text(),
    {
        match self {
            Interval::_1m => "1m",
            Interval::_2m => "2m",
            Interval::_5m => "5m",
            Interval::_15m => "15m",
            Interval::_30m => "30m",
            Interval::_60m => "60m",
            Interval::_90m => "90m",
            Interval::_1d => "1d",
            Interval::_5d => "5d",
            Interval::_1mo => "1mo",
            Interval::_3mo => "3mo",
            Interval::_6mo => "6mo",
            Interval::_1y => "1y",
            Interval::_2y => "2y",
            Interval::_5y => "5y",
            Interval::_10y => "10y",
            Interval::_ytd => "ytd",
            Interval::_max => "max",
        }
    }

    /// The interval's text, as an owned string.
    pub fn to_string(&self) -> (text: String)
        ensures
            text@ == self.text(),
    {
        self.as_str().to_owned()
    }

    /// Reads an interval from its text. Every interval is found by its own
    /// text and by no other; any other text is an error.
    pub fn parse(s: &str) -> (outcome: Result<Interval, InvalidIntervalError>)
        ensures
            Self::parsed(s@, outcome),
    {
        if same_text(s, "1m") {
            Ok(Interval::_1m)
        } else if same_text(s, "2m") {
            Ok(Interval::_2m)
        } else if same_text(s, "5m") {
            Ok(Interval::_5m)
        } else if same_text(s, "15m") {
            Ok(Interval::_15m)
        } else if same_text(s, "30m") {
            Ok(Interval::_30m)
        } else if same_text(s, "60m") {
            Ok(Interval::_60m)
        } else if same_text(s, "90m") {
            Ok(Interval::_90m)
        } else if same_text(s, "1d") {
            Ok(Interval::_1d)
        } else if same_text(s, "5d") {
            Ok(Interval::_5d)
        } else if same_text(s, "1mo") {
            Ok(Interval::_1mo)
        } else if same_text(s, "3mo") {
            Ok(Interval::_3mo)
        } else if same_text(s, "6mo") {
            Ok(Interval::_6mo)
        } else if same_text(s, "1y") {
            Ok(Interval::_1y)
        } else if same_text(s, "2y") {
            Ok(Interval::_2y)
        } else if same_text(s, "5y") {
            Ok(Interval::_5y)
        } else if same_text(s, "10y") {
            Ok(Interval::_10y)
        } else if same_text(s, "ytd") {
            Ok(Interval::_ytd)
        } else if same_text(s, "max") {
            Ok(Interval::_max)
        } else {
            Err(InvalidIntervalError)
        }
    }
}

impl std::str::FromStr for Interval {
    type Err = InvalidIntervalError;

    fn from_str(s: &str) -> (outcome: Result<Self, InvalidIntervalError>)
        ensures
            Interval::parsed(s@, outcome),
    {
        Interval::parse(s)
    }
}

/// Spells out the text of every interval, character by character.
proof fn lemma_texts_spelled()
    ensures
        Interval::_1m.text() =~= seq!['1', 'm'],
        Interval::_2m.text() =~= seq!['2', 'm'],
        Interval::_5m.text() =~= seq!['5', 'm'],
        Interval::_15m.text() =~= seq!['1', '5', 'm'],
        Interval::_30m.text() =~= seq!['3', '0', 'm'],
        Interval::_60m.text() =~= seq!['6', '0', 'm'],
        Interval::_90m.text() =~= seq!['9', '0', 'm'],
        Interval::_1d.text() =~= seq!['1', 'd'],
        Interval::_5d.text() =~= seq!['5', 'd'],
        Interval::_1mo.text() =~= seq!['1', 'm', 'o'],
        Interval::_3mo.text() =~= seq!['3', 'm', 'o'],
        Interval::_6mo.text() =~= seq!['6', 'm', 'o'],
        Interval::_1y.text() =~= seq!['1', 'y'],
        Interval::_2y.text() =~= seq!['2', 'y'],
        Interval::_5y.text() =~= seq!['5', 'y'],
        Interval::_10y.text() =~= seq!['1', '0', 'y'],
        Interval::_ytd.text() =~= seq!['y', 't', 'd'],
        Interval::_max.text() =~= seq!['m', 'a', 'x'],
{
    reveal_strlit("1m");
    reveal_strlit("2m");
    reveal_strlit("5m");
    reveal_strlit("15m");
    reveal_strlit("30m");
    reveal_strlit("60m");
    reveal_strlit("90m");
    reveal_strlit("1d");
    reveal_strlit("5d");
    reveal_strlit("1mo");
    reveal_strlit("3mo");
    reveal_strlit("6mo");
    reveal_strlit("1y");
    reveal_strlit("2y");
    reveal_strlit("5y");
    reveal_strlit("10y");
    reveal_strlit("ytd");
    reveal_strlit("max");
}

/// No two intervals share a text.
pub proof fn law_text_names_one_interval(a: Interval, b: Interval)
    requires
        a.text() == b.text(),
    ensures
        a == b,
{
    lemma_texts_spelled();
    let t = a.text();
    assert(t.len() == b.text().len());
    assert(t[0] == b.text()[0]);
    assert(t[1] == b.text()[1]);
    if t.len() == 3 {
        assert(t[2] == b.text()[2]);
    }
}

/// Parsing an interval's own text gives that interval back, and nothing else.
pub proof fn law_parse_inverts_text(interval: Interval, outcome: Result<Interval, InvalidIntervalError>)
    requires
        Interval::parsed(interval.text(), outcome),
    ensures
        outcome == Ok::<Interval, InvalidIntervalError>(interval),
{
    match outcome {
        Ok(found) => law_text_names_one_interval(found, interval),
        Err(_) => {},
    }
}

/// A text has one parse: any two outcomes for the same text agree.
pub proof fn law_parse_is_a_function(
    t: Seq<char>,
    first: Result<Interval, InvalidIntervalError>,
    second: Result<Interval, InvalidIntervalError>,
)
    requires
        Interval::parsed(t, first),
        Interval::parsed(t, second),
    ensures
        first == second,
{
    match (first, second) {
        (Ok(a), Ok(b)) => law_text_names_one_interval(a, b),
        (Ok(a), Err(_)) => assert(a.text() == t),
        (Err(_), Ok(b)) => assert(b.text() == t),
        (Err(a), Err(b)) => law_error_is_unit(a, b),
    }
}

/// The intraday intervals are those whose text ends in `m`, the minutes.
pub proof fn law_intraday_is_minutes(interval: Interval)
    ensures
        interval.intraday() <==> interval.text().last() == 'm',
{
    lemma_texts_spelled();
}

/// There is one error value: every text that fails gives the same error.
pub proof fn law_error_is_unit(a: InvalidIntervalError, b: InvalidIntervalError)
    ensures
        a == b,
{
}

} // verus!
