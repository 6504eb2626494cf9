//! Real numbers, spans of time and points in time, and how the latter two are written.
use vstd::prelude::*;

use crate::port::{ParseError, ParseErrorView};
use crate::text::{
    chars_of, decimal, format_integer, integer_text, integer_text_reads_back, is_digit, joined,
    lemma_decimal_digits, parse_integer, parsed_integer, same_text, string_of, IntegerError,
};

verus! {

/// A 64-bit binary floating point number, held as its bits.
#[derive(Debug, Clone, Copy, PartialEq, Eq, Hash, Structural)]
pub struct Real {
    pub bits: u64,
}

/// The bit pattern of positive infinity.
pub const INFINITY_BITS: u64 = 0x7ff0_0000_0000_0000;

/// The bit that holds the sign.
pub const SIGN_BIT: u64 = 0x8000_0000_0000_0000;

impl Real {
    /// The bits without the sign.
    pub open spec fn spec_magnitude(self) -> int {
        if self.bits >= SIGN_BIT {
            self.bits - SIGN_BIT
        } else {
            self.bits as int
        }
    }

    /// Neither an infinity nor a NaN.
    pub open spec fn spec_is_finite(self) -> bool {
        self.spec_magnitude() < INFINITY_BITS
    }

    /// Place among the real numbers: both zeros share one place, and every NaN has the same
    /// place behind positive infinity.
    pub open spec fn rank(self) -> int {
        if self.spec_magnitude() > INFINITY_BITS {
            SIGN_BIT as int
        } else if self.bits >= SIGN_BIT {
            -self.spec_magnitude()
        } else {
            self.spec_magnitude()
        }
    }

    pub fn rank_of(&self) -> (r: i128)
        ensures
            r == self.rank(),
    {
        let negative = self.bits >= SIGN_BIT;
        let magnitude: u64 = if negative {
            self.bits - SIGN_BIT
        } else {
            self.bits
        };
        if magnitude > INFINITY_BITS {
            SIGN_BIT as i128
        } else if negative {
            -(magnitude as i128)
        } else {
            magnitude as i128
        }
    }
}

impl Real {
    /// A number is finite where the eleven bits of its exponent are not all set.
    pub proof fn finite_by_exponent(self)
        ensures
            self.spec_is_finite() <==> (self.bits as int / 0x10_0000_0000_0000) % 0x800 != 0x7ff,
    {
    }

    /// Numbers sort as numbers do: of two without a sign the one with the greater bits is the
    /// greater, of two with a sign it is the smaller, and what has a sign is no greater than what
    /// has none; the two zeros sort alike. Behind all of these, what is not a number sorts alike.
    pub proof fn reals_are_ordered(self, other: Real)
        ensures
            ({
                let sign: u64 = 0x8000_0000_0000_0000;
                let infinity: u64 = 0x7ff0_0000_0000_0000;
                let nan = self.bits % sign > infinity;
                let other_nan = other.bits % sign > infinity;
                &&& nan && other_nan ==> self.rank() == other.rank()
                &&& !nan && other_nan ==> self.rank() < other.rank()
                &&& !nan && !other_nan && self.bits < sign && other.bits < sign ==> (self.rank()
                    < other.rank() <==> self.bits < other.bits)
                &&& !nan && !other_nan && self.bits >= sign && other.bits >= sign ==> (self.rank()
                    < other.rank() <==> self.bits > other.bits)
                &&& !nan && !other_nan && self.bits >= sign && other.bits < sign ==> self.rank()
                    <= other.rank() && (self.rank() == other.rank() <==> self.bits == sign
                    && other.bits == 0)
            }),
    {
    }
}

/// An offset from UTC is less than 26 hours either way.
pub proof fn offsets_are_short(seconds: int)
    ensures
        offset_fits(seconds) <==> -26 * 3_600 < seconds < 26 * 3_600,
{
}

/// A negative span is shown as the span without its sign behind a minus sign, and no span as zero
/// seconds.
pub proof fn spans_are_shown(n: int)
    requires
        n > 0,
    ensures
        duration_text(0) == "0s"@,
        duration_text(-n) == "-"@ + duration_text(n),
{
    lemma_in_front_of_all(
        "-"@,
        unit_text(n / 86_400_000_000_000, "d"@),
        unit_text(n / 3_600_000_000_000 % 24, "h"@),
        unit_text(n / 60_000_000_000 % 60, "m"@),
        unit_text(n / 1_000_000_000 % 60, "s"@),
        unit_text(n / 1_000_000 % 1_000, "ms"@),
        unit_text(n / 1_000 % 1_000, "µs"@),
        unit_text(n % 1_000, "ns"@),
    );
}

/// So many of one unit are shown as that number and the name of the unit, where they are less than
/// one of the next greater unit.
pub proof fn units_are_shown(n: int)
    requires
        n > 0,
    ensures
        n < 1_000 ==> duration_text(n) == integer_text(n) + "ns"@,
        n < 1_000 ==> duration_text(n * 1_000) == integer_text(n) + "µs"@,
        n < 1_000 ==> duration_text(n * 1_000_000) == integer_text(n) + "ms"@,
        n < 60 ==> duration_text(n * 1_000_000_000) == integer_text(n) + "s"@,
        n < 60 ==> duration_text(n * 60_000_000_000) == integer_text(n) + "m"@,
        n < 24 ==> duration_text(n * 3_600_000_000_000) == integer_text(n) + "h"@,
        duration_text(n * 86_400_000_000_000) == integer_text(n) + "d"@,
{
    lemma_days_shown(n);
    if n < 24 {
        lemma_hours_shown(n);
    }
    if n < 60 {
        lemma_minutes_shown(n);
    }
    if n < 60 {
        lemma_seconds_shown(n);
    }
    if n < 1_000 {
        lemma_milliseconds_shown(n);
    }
    if n < 1_000 {
        lemma_microseconds_shown(n);
    }
    if n < 1_000 {
        lemma_nanoseconds_shown(n);
    }
}

proof fn lemma_days_shown(n: int)
    requires
        n > 0,
    ensures
        duration_text(n * 86_400_000_000_000) == integer_text(n) + "d"@,
{
    let m = n * 86_400_000_000_000;
    assert(m / 86_400_000_000_000 == n);
    assert(m / 3_600_000_000_000 % 24 == 0);
    assert(m / 60_000_000_000 % 60 == 0);
    assert(m / 1_000_000_000 % 60 == 0);
    assert(m / 1_000_000 % 1_000 == 0);
    assert(m / 1_000 % 1_000 == 0);
    assert(m % 1_000 == 0);
    lemma_only_one(0, integer_text(n) + "d"@);
}

proof fn lemma_hours_shown(n: int)
    requires
        0 < n < 24,
    ensures
        duration_text(n * 3_600_000_000_000) == integer_text(n) + "h"@,
{
    let m = n * 3_600_000_000_000;
    assert(m / 86_400_000_000_000 == 0);
    assert(m / 3_600_000_000_000 % 24 == n);
    assert(m / 60_000_000_000 % 60 == 0);
    assert(m / 1_000_000_000 % 60 == 0);
    assert(m / 1_000_000 % 1_000 == 0);
    assert(m / 1_000 % 1_000 == 0);
    assert(m % 1_000 == 0);
    lemma_only_one(1, integer_text(n) + "h"@);
}

proof fn lemma_minutes_shown(n: int)
    requires
        0 < n < 60,
    ensures
        duration_text(n * 60_000_000_000) == integer_text(n) + "m"@,
{
    let m = n * 60_000_000_000;
    assert(m / 86_400_000_000_000 == 0);
    assert(m / 3_600_000_000_000 % 24 == 0);
    assert(m / 60_000_000_000 % 60 == n);
    assert(m / 1_000_000_000 % 60 == 0);
    assert(m / 1_000_000 % 1_000 == 0);
    assert(m / 1_000 % 1_000 == 0);
    assert(m % 1_000 == 0);
    lemma_only_one(2, integer_text(n) + "m"@);
}

proof fn lemma_seconds_shown(n: int)
    requires
        0 < n < 60,
    ensures
        duration_text(n * 1_000_000_000) == integer_text(n) + "s"@,
{
    let m = n * 1_000_000_000;
    assert(m / 86_400_000_000_000 == 0);
    assert(m / 3_600_000_000_000 % 24 == 0);
    assert(m / 60_000_000_000 % 60 == 0);
    assert(m / 1_000_000_000 % 60 == n);
    assert(m / 1_000_000 % 1_000 == 0);
    assert(m / 1_000 % 1_000 == 0);
    assert(m % 1_000 == 0);
    lemma_only_one(3, integer_text(n) + "s"@);
}

proof fn lemma_milliseconds_shown(n: int)
    requires
        0 < n < 1_000,
    ensures
        duration_text(n * 1_000_000) == integer_text(n) + "ms"@,
{
    let m = n * 1_000_000;
    assert(m / 86_400_000_000_000 == 0);
    assert(m / 3_600_000_000_000 % 24 == 0);
    assert(m / 60_000_000_000 % 60 == 0);
    assert(m / 1_000_000_000 % 60 == 0);
    assert(m / 1_000_000 % 1_000 == n);
    assert(m / 1_000 % 1_000 == 0);
    assert(m % 1_000 == 0);
    lemma_only_one(4, integer_text(n) + "ms"@);
}

proof fn lemma_microseconds_shown(n: int)
    requires
        0 < n < 1_000,
    ensures
        duration_text(n * 1_000) == integer_text(n) + "µs"@,
{
    let m = n * 1_000;
    assert(m / 86_400_000_000_000 == 0);
    assert(m / 3_600_000_000_000 % 24 == 0);
    assert(m / 60_000_000_000 % 60 == 0);
    assert(m / 1_000_000_000 % 60 == 0);
    assert(m / 1_000_000 % 1_000 == 0);
    assert(m / 1_000 % 1_000 == n);
    assert(m % 1_000 == 0);
    lemma_only_one(5, integer_text(n) + "µs"@);
}

proof fn lemma_nanoseconds_shown(n: int)
    requires
        0 < n < 1_000,
    ensures
        duration_text(n) == integer_text(n) + "ns"@,
{
    let m = n;
    assert(m / 86_400_000_000_000 == 0);
    assert(m / 3_600_000_000_000 % 24 == 0);
    assert(m / 60_000_000_000 % 60 == 0);
    assert(m / 1_000_000_000 % 60 == 0);
    assert(m / 1_000_000 % 1_000 == 0);
    assert(m / 1_000 % 1_000 == 0);
    assert(m % 1_000 == n);
    lemma_only_one(6, integer_text(n) + "ns"@);
}

/// Nothing is added to a text by nothing on either side.
proof fn lemma_only_one(k: int, s: Seq<char>)
    requires
        0 <= k < 7,
    ensures
        ({
            let none = Seq::<char>::empty();
            let part = |i: int|
                if i == k {
                    s
                } else {
                    none
                };
            none + part(0) + part(1) + part(2) + part(3) + part(4) + part(5) + part(6) == s
        }),
{
    let none = Seq::<char>::empty();
    assert(none + none =~= none);
    assert(none + s =~= s);
    assert(s + none =~= s);
}

proof fn lemma_in_front_of_all(
    s: Seq<char>,
    a: Seq<char>,
    b: Seq<char>,
    c: Seq<char>,
    d: Seq<char>,
    e: Seq<char>,
    f: Seq<char>,
    g: Seq<char>,
)
    ensures
        s + a + b + c + d + e + f + g == s + (Seq::<char>::empty() + a + b + c + d + e + f + g),
{
    let none = Seq::<char>::empty();
    assert(s + a =~= s + (none + a));
    assert(s + a + b =~= s + (none + a + b));
    assert(s + a + b + c =~= s + (none + a + b + c));
    assert(s + a + b + c + d =~= s + (none + a + b + c + d));
    assert(s + a + b + c + d + e =~= s + (none + a + b + c + d + e));
    assert(s + a + b + c + d + e + f =~= s + (none + a + b + c + d + e + f));
}

/// A value cannot be written.
#[derive(Debug, Clone, PartialEq)]
pub enum SerializationError {
    NotRepresentable(String),
}

/// A [`SerializationError`] with the text that it is about.
pub enum SerializationErrorView {
    NotRepresentable(Seq<char>),
}

impl View for SerializationError {
    type V = SerializationErrorView;

    open spec fn view(&self) -> SerializationErrorView {
        match self {
            SerializationError::NotRepresentable(s) => SerializationErrorView::NotRepresentable(s@),
        }
    }
}

impl SerializationErrorView {
    pub open spec fn text(self) -> Seq<char> {
        match self {
            SerializationErrorView::NotRepresentable(s) => "value not representable: "@ + s + ""@,
        }
    }
}

impl SerializationError {
    /// Describes the error.
    pub fn to_string(&self) -> (r: String)
        ensures
            r@ == self@.text(),
    {
        match self {
            SerializationError::NotRepresentable(s) => joined(
                "value not representable: ",
                s.as_str(),
                "",
            ),
        }
    }
}

/// So many of a unit; nothing where there are none.
pub open spec fn unit_text(n: int, unit: Seq<char>) -> Seq<char> {
    if n == 0 {
        Seq::empty()
    } else {
        integer_text(n) + unit
    }
}

/// How a span of so many nanoseconds is shown: as days, hours, minutes, seconds, milliseconds,
/// microseconds and nanoseconds, without those of which there are none.
pub open spec fn duration_text(nanoseconds: int) -> Seq<char> {
    let n = if nanoseconds < 0 {
        -nanoseconds
    } else {
        nanoseconds
    };
    if n == 0 {
        "0s"@
    } else {
        (if nanoseconds < 0 {
            "-"@
        } else {
            Seq::empty()
        }) + unit_text(n / 86_400_000_000_000, "d"@) + unit_text(
            n / 3_600_000_000_000 % 24,
            "h"@,
        ) + unit_text(n / 60_000_000_000 % 60, "m"@) + unit_text(n / 1_000_000_000 % 60, "s"@)
            + unit_text(n / 1_000_000 % 1_000, "ms"@) + unit_text(n / 1_000 % 1_000, "µs"@)
            + unit_text(n % 1_000, "ns"@)
    }
}

/// `time::Duration` displayed, built by `time::Duration::new`: the days, hours, minutes, seconds
/// and parts of a second of the span.
#[verifier::external_body]
fn display_duration(seconds: i64, rest: i32) -> (r: String)
    requires
        -1_000_000_000 < rest < 1_000_000_000,
        seconds > 0 ==> rest >= 0,
        seconds < 0 ==> rest <= 0,
    ensures
        r@ == duration_text(seconds * 1_000_000_000 + rest),
{
    time::Duration::new(seconds, rest).to_string()
}

/// `time::Duration::nanoseconds`, measured by `whole_nanoseconds`.
#[verifier::external_body]
fn span_of_nanoseconds(n: i64) -> (r: i128)
    ensures
        r == n as int,
{
    time::Duration::nanoseconds(n).whole_nanoseconds()
}

/// `time::Duration::milliseconds`, measured by `whole_nanoseconds`.
#[verifier::external_body]
fn span_of_milliseconds(n: i64) -> (r: i128)
    ensures
        r == n as int * 1_000_000,
{
    time::Duration::milliseconds(n).whole_nanoseconds()
}

/// `time::Duration::seconds`, measured by `whole_nanoseconds`.
#[verifier::external_body]
fn span_of_seconds(n: i64) -> (r: i128)
    ensures
        r == n as int * 1_000_000_000,
{
    time::Duration::seconds(n).whole_nanoseconds()
}

/// `time::Duration::minutes`, measured by `whole_nanoseconds`. It does not return where the
/// seconds exceed 64 bits.
#[verifier::external_body]
fn span_of_minutes(n: i64) -> (r: i128)
    requires
        i64::MIN <= n * 60 <= i64::MAX,
    ensures
        r == n as int * 60_000_000_000,
{
    time::Duration::minutes(n).whole_nanoseconds()
}

/// `time::Duration::hours`, measured by `whole_nanoseconds`. It does not return where the
/// seconds exceed 64 bits.
#[verifier::external_body]
fn span_of_hours(n: i64) -> (r: i128)
    requires
        i64::MIN <= n * 3_600 <= i64::MAX,
    ensures
        r == n as int * 3_600_000_000_000,
{
    time::Duration::hours(n).whole_nanoseconds()
}

/// `time::Duration::days`, measured by `whole_nanoseconds`. It does not return where the
/// seconds exceed 64 bits.
#[verifier::external_body]
fn span_of_days(n: i64) -> (r: i128)
    requires
        i64::MIN <= n * 86_400 <= i64::MAX,
    ensures
        r == n as int * 86_400_000_000_000,
{
    time::Duration::days(n).whole_nanoseconds()
}

/// Whether a span of so many nanoseconds has a whole number of seconds within 64 bits.
pub open spec fn timespan_fits(nanoseconds: int) -> bool {
    -9_223_372_036_854_775_808_999_999_999 <= nanoseconds <= 9_223_372_036_854_775_807_999_999_999
}

/// Why a text is not a timespan.
#[derive(Debug, Clone, PartialEq)]
pub enum TimespanError {
    /// What precedes the unit is not a number.
    Number(IntegerError),
    /// The unit is unknown.
    Unit(ParseError),
    /// The number of seconds exceeds 64 bits.
    Overflow,
}

/// A [`TimespanError`] with the text that it is about.
pub enum TimespanErrorView {
    Number(IntegerError),
    Unit(ParseErrorView),
    Overflow,
}

impl View for TimespanError {
    type V = TimespanErrorView;

    open spec fn view(&self) -> TimespanErrorView {
        match self {
            TimespanError::Number(e) => TimespanErrorView::Number(*e),
            TimespanError::Unit(e) => TimespanErrorView::Unit(e@),
            TimespanError::Overflow => TimespanErrorView::Overflow,
        }
    }
}

impl TimespanErrorView {
    pub open spec fn text(self) -> Seq<char> {
        match self {
            TimespanErrorView::Number(e) => e.text(),
            TimespanErrorView::Unit(e) => e.text(),
            TimespanErrorView::Overflow => "overflow constructing timespan"@,
        }
    }
}

impl TimespanError {
    /// Describes the error.
    pub fn to_string(&self) -> (r: String)
        ensures
            r@ == self@.text(),
    {
        match self {
            TimespanError::Number(e) => e.to_text(),
            TimespanError::Unit(e) => e.to_string(),
            TimespanError::Overflow => "overflow constructing timespan".to_owned(),
        }
    }
}

/// A span of time, positive or negative, to the nanosecond.
#[derive(Debug, Clone, Copy, PartialEq, Eq, PartialOrd, Ord, Hash, Structural)]
pub struct Timespan {
    nanoseconds: i128,
}

impl View for Timespan {
    type V = int;

    /// Length in nanoseconds.
    closed spec fn view(&self) -> int {
        self.nanoseconds as int
    }
}

/// Part of a number: a minus sign or a digit.
pub open spec fn is_number_char(c: char) -> bool {
    c == '-' || is_digit(c)
}

/// Where the unit starts: at the first character that is not part of a number, or at the front
/// where there is none.
pub open spec fn unit_start(s: Seq<char>) -> int {
    match first_non_number(s) {
        Some(i) => i,
        None => 0,
    }
}

pub open spec fn first_non_number(s: Seq<char>) -> Option<int>
    decreases s.len(),
{
    if s.len() == 0 {
        None
    } else if !is_number_char(s[0]) {
        Some(0)
    } else {
        match first_non_number(s.drop_first()) {
            Some(i) => Some(i + 1),
            None => None,
        }
    }
}

proof fn lemma_first_non_number(s: Seq<char>, at: int)
    requires
        0 <= at <= s.len(),
        forall|i: int| 0 <= i < at ==> is_number_char(s[i]),
        at < s.len() ==> !is_number_char(s[at]),
    ensures
        first_non_number(s) == if at < s.len() {
            Some(at)
        } else {
            None
        },
    decreases s.len(),
{
    if s.len() > 0 && at > 0 {
        lemma_first_non_number(s.drop_first(), at - 1);
    }
}

/// The seconds in a unit that is longer than a second.
pub open spec fn long_unit(unit: Seq<char>) -> Option<int> {
    if unit == "min"@ {
        Some(60)
    } else if unit == "h"@ {
        Some(3_600)
    } else if unit == "d"@ {
        Some(86_400)
    } else {
        None
    }
}

/// So many of a unit, in nanoseconds.
pub open spec fn in_unit(n: int, unit: Seq<char>) -> Result<int, TimespanErrorView> {
    if unit == "ns"@ {
        Ok(n)
    } else if unit == "ms"@ {
        Ok(n * 1_000_000)
    } else if unit == "s"@ {
        Ok(n * 1_000_000_000)
    } else {
        match long_unit(unit) {
            Some(seconds) => if i64::MIN <= n * seconds <= i64::MAX {
                Ok(n * seconds * 1_000_000_000)
            } else {
                Err(TimespanErrorView::Overflow)
            },
            None => Err(TimespanErrorView::Unit(ParseErrorView::InvalidTimespanUnit(unit))),
        }
    }
}

impl Timespan {
    #[verifier::type_invariant]
    spec fn valid(self) -> bool {
        timespan_fits(self.nanoseconds as int)
    }

    /// The length of the timespan that is written so: a number and a unit.
    pub open spec fn parsed(s: Seq<char>) -> Result<int, TimespanErrorView> {
        match parsed_integer(s.take(unit_start(s)), i64::MIN as int, i64::MAX as int) {
            Err(e) => Err(TimespanErrorView::Number(e)),
            Ok(n) => in_unit(n, s.skip(unit_start(s))),
        }
    }

    /// How a span of so many nanoseconds is written: in seconds where they are whole, else in
    /// nanoseconds where these fit 64 bits.
    pub open spec fn text(nanoseconds: int) -> Result<Seq<char>, SerializationErrorView> {
        if nanoseconds % 1_000_000_000 == 0 {
            Ok(integer_text(nanoseconds / 1_000_000_000) + "s"@ + ""@)
        } else if i64::MIN <= nanoseconds <= i64::MAX {
            Ok(integer_text(nanoseconds) + "ns"@ + ""@)
        } else {
            Err(
                SerializationErrorView::NotRepresentable(
                    "'"@ + duration_text(nanoseconds)
                        + "' needs nanosecond accuracy but exceeds its range"@,
                ),
            )
        }
    }

    /// The span of so many nanoseconds, where its seconds fit 64 bits.
    pub fn new(nanoseconds: i128) -> (r: Option<Timespan>)
        ensures
            match r {
                Some(t) => t@ == nanoseconds && timespan_fits(nanoseconds as int),
                None => !timespan_fits(nanoseconds as int),
            },
    {
        if -9_223_372_036_854_775_808_999_999_999 <= nanoseconds && nanoseconds
            <= 9_223_372_036_854_775_807_999_999_999 {
            Some(Timespan { nanoseconds })
        } else {
            None
        }
    }

    pub fn from_nanoseconds(n: i64) -> (r: Timespan)
        ensures
            r@ == n,
    {
        Timespan { nanoseconds: span_of_nanoseconds(n) }
    }

    pub fn from_milliseconds(n: i64) -> (r: Timespan)
        ensures
            r@ == n * 1_000_000,
    {
        Timespan { nanoseconds: span_of_milliseconds(n) }
    }

    pub fn from_seconds(n: i64) -> (r: Timespan)
        ensures
            r@ == n * 1_000_000_000,
    {
        Timespan { nanoseconds: span_of_seconds(n) }
    }

    /// Length in nanoseconds.
    pub fn nanoseconds(&self) -> (r: i128)
        ensures
            r == self@,
            timespan_fits(self@),
    {
        proof {
            use_type_invariant(self);
        }
        self.nanoseconds
    }

    /// Reads a timespan.
    pub fn from_str(s: &str) -> (r: Result<Timespan, TimespanError>)
        ensures
            match r {
                Ok(t) => Timespan::parsed(s@) == Ok::<int, TimespanErrorView>(t@),
                Err(e) => Timespan::parsed(s@) == Err::<int, TimespanErrorView>(e@),
            },
    {
        let cs = chars_of(s);
        let mut at: usize = 0;
        while at < cs.len() && (cs[at] == '-' || ('0' <= cs[at] && cs[at] <= '9'))
            invariant
                at <= cs.len(),
                forall|i: int| 0 <= i < at ==> is_number_char(cs@[i]),
            decreases cs.len() - at,
        {
            at = at + 1;
        }
        proof {
            lemma_first_non_number(cs@, at as int);
        }
        let start: usize = if at < cs.len() {
            at
        } else {
            0
        };
        assert(s@.take(start as int) =~= cs@.subrange(0, start as int));
        assert(s@.skip(start as int) =~= cs@.subrange(start as int, cs@.len() as int));
        let n: i64 = match parse_integer(&cs, 0, start, i64::MIN, i64::MAX) {
            Ok(n) => n,
            Err(e) => {
                return Err(TimespanError::Number(e));
            },
        };
        let unit = string_of(&cs, start, cs.len());
        let unit = unit.as_str();
        if same_text(unit, "ns") {
            Ok(Timespan { nanoseconds: span_of_nanoseconds(n) })
        } else if same_text(unit, "ms") {
            Ok(Timespan { nanoseconds: span_of_milliseconds(n) })
        } else if same_text(unit, "s") {
            Ok(Timespan { nanoseconds: span_of_seconds(n) })
        } else if same_text(unit, "min") {
            if -153_722_867_280_912_930 <= n && n <= 153_722_867_280_912_930 {
                Ok(Timespan { nanoseconds: span_of_minutes(n) })
            } else {
                Err(TimespanError::Overflow)
            }
        } else if same_text(unit, "h") {
            if -2_562_047_788_015_215 <= n && n <= 2_562_047_788_015_215 {
                Ok(Timespan { nanoseconds: span_of_hours(n) })
            } else {
                Err(TimespanError::Overflow)
            }
        } else if same_text(unit, "d") {
            if -106_751_991_167_300 <= n && n <= 106_751_991_167_300 {
                Ok(Timespan { nanoseconds: span_of_days(n) })
            } else {
                Err(TimespanError::Overflow)
            }
        } else {
            Err(TimespanError::Unit(ParseError::InvalidTimespanUnit(unit.to_owned())))
        }
    }

    /// Writes the timespan.
    pub fn to_text(&self) -> (r: Result<String, SerializationError>)
        ensures
            match r {
                Ok(t) => Timespan::text(self@) == Ok::<Seq<char>, SerializationErrorView>(t@),
                Err(e) => Timespan::text(self@) == Err::<Seq<char>, SerializationErrorView>(e@),
            },
            timespan_fits(self@),
    {
        proof {
            use_type_invariant(self);
        }
        let n: i128 = self.nanoseconds;
        let magnitude: u128 = if n < 0 {
            (-n) as u128
        } else {
            n as u128
        };
        let whole: u128 = magnitude / 1_000_000_000;
        if magnitude % 1_000_000_000 == 0 {
            assert(magnitude == whole * 1_000_000_000);
            let seconds: i64 = if n < 0 {
                (-(whole as i128)) as i64
            } else {
                whole as i64
            };
            assert(n == seconds * 1_000_000_000);
            Ok(joined(format_integer(seconds).as_str(), "s", ""))
        } else {
            assert(n % 1_000_000_000 != 0) by {
                if n % 1_000_000_000 == 0 {
                    let q = n as int / 1_000_000_000;
                    assert(n == q * 1_000_000_000);
                    assert(magnitude == q * 1_000_000_000 || magnitude == (-q) * 1_000_000_000);
                }
            }
            if (i64::MIN as i128) <= n && n <= (i64::MAX as i128) {
                Ok(joined(format_integer(n as i64).as_str(), "ns", ""))
            } else {
                let part: u128 = magnitude % 1_000_000_000;
                let (seconds, rest): (i64, i32) = if n < 0 {
                    ((-(whole as i128)) as i64, (-(part as i128)) as i32)
                } else {
                    (whole as i64, part as i32)
                };
                assert(n == seconds * 1_000_000_000 + rest);
                Err(
                    SerializationError::NotRepresentable(
                        joined(
                            "'",
                            display_duration(seconds, rest).as_str(),
                            "' needs nanosecond accuracy but exceeds its range",
                        ),
                    ),
                )
            }
        }
    }

    /// A timespan that can be written is read back as it was.
    pub proof fn text_reads_back(nanoseconds: int)
        requires
            timespan_fits(nanoseconds),
            Timespan::text(nanoseconds) is Ok,
        ensures
            Timespan::parsed(Timespan::text(nanoseconds)->Ok_0) == Ok::<int, TimespanErrorView>(
                nanoseconds,
            ),
    {
        reveal_strlit("s");
        reveal_strlit("ns");
        reveal_strlit("ms");
        reveal_strlit("");
        let t = Timespan::text(nanoseconds)->Ok_0;
        if nanoseconds % 1_000_000_000 == 0 {
            let n = nanoseconds / 1_000_000_000;
            Timespan::lemma_split(n, "s"@, t);
            assert("s"@.len() != "ns"@.len());
            assert("s"@.len() != "ms"@.len());
        } else {
            Timespan::lemma_split(nanoseconds, "ns"@, t);
        }
    }

    /// A number and a unit are found again in their concatenation.
    proof fn lemma_split(n: int, unit: Seq<char>, t: Seq<char>)
        requires
            i64::MIN <= n <= i64::MAX,
            unit.len() > 0,
            !is_number_char(unit[0]),
            t == integer_text(n) + unit + ""@,
        ensures
            t.skip(unit_start(t)) == unit,
            parsed_integer(t.take(unit_start(t)), i64::MIN as int, i64::MAX as int) == Ok::<
                int,
                IntegerError,
            >(n),
    {
        reveal_strlit("");
        let digits = integer_text(n);
        let at = digits.len() as int;
        lemma_decimal_digits(
            if n < 0 {
                (-n) as nat
            } else {
                n as nat
            },
        );
        assert forall|i: int| 0 <= i < at implies is_number_char(t[i]) by {
            assert(t[i] == digits[i]);
            if n < 0 && i > 0 {
                assert(digits[i] == decimal((-n) as nat)[i - 1]);
            }
        }
        assert(t[at] == unit[0]);
        lemma_first_non_number(t, at);
        assert(t.take(at) =~= digits);
        assert(t.skip(at) =~= unit);
        integer_text_reads_back(n, i64::MIN as int, i64::MAX as int);
    }

    /// A number and a unit are read as so many times the length of the unit: a nanosecond, a
    /// million or a thousand million of them for a millisecond and a second, and sixty, 3600 and
    /// 86400 seconds for a minute, an hour and a day. Numbers of the longer units are refused where
    /// their seconds exceed 64 bits.
    pub proof fn units_have_lengths(n: i64)
        ensures
            Timespan::parsed(integer_text(n as int) + "ns"@) == Ok::<int, TimespanErrorView>(
                n as int,
            ),
            Timespan::parsed(integer_text(n as int) + "ms"@) == Ok::<int, TimespanErrorView>(
                n * 1_000_000,
            ),
            Timespan::parsed(integer_text(n as int) + "s"@) == Ok::<int, TimespanErrorView>(
                n * 1_000_000_000,
            ),
            Timespan::parsed(integer_text(n as int) + "min"@) == if i64::MIN <= n * 60 <= i64::MAX {
                Ok::<int, TimespanErrorView>(n * 60_000_000_000)
            } else {
                Err(TimespanErrorView::Overflow)
            },
            Timespan::parsed(integer_text(n as int) + "h"@) == if i64::MIN <= n * 3_600
                <= i64::MAX {
                Ok::<int, TimespanErrorView>(n * 3_600_000_000_000)
            } else {
                Err(TimespanErrorView::Overflow)
            },
            Timespan::parsed(integer_text(n as int) + "d"@) == if i64::MIN <= n * 86_400
                <= i64::MAX {
                Ok::<int, TimespanErrorView>(n * 86_400_000_000_000)
            } else {
                Err(TimespanErrorView::Overflow)
            },
    {
        reveal_strlit("ns");
        reveal_strlit("ms");
        reveal_strlit("s");
        reveal_strlit("min");
        reveal_strlit("h");
        reveal_strlit("d");
        assert("ns"@[0] == 'n' && "ns"@.len() == 2);
        assert("ms"@[0] == 'm' && "ms"@.len() == 2);
        assert("s"@[0] == 's' && "s"@.len() == 1);
        assert("min"@[0] == 'm' && "min"@.len() == 3);
        assert("h"@[0] == 'h' && "h"@.len() == 1);
        assert("d"@[0] == 'd' && "d"@.len() == 1);
        Timespan::lemma_in_front(n as int, "ns"@);
        Timespan::lemma_in_front(n as int, "ms"@);
        Timespan::lemma_in_front(n as int, "s"@);
        Timespan::lemma_in_front(n as int, "min"@);
        Timespan::lemma_in_front(n as int, "h"@);
        Timespan::lemma_in_front(n as int, "d"@);
    }

    /// There are no other units: a number with anything else behind it is refused with what
    /// stands there.
    pub proof fn other_units_are_refused(n: i64, unit: Seq<char>)
        requires
            unit.len() > 0,
            unit[0] != '-' && !('0' <= unit[0] <= '9'),
            unit != "ns"@ && unit != "ms"@ && unit != "s"@ && unit != "min"@ && unit != "h"@
                && unit != "d"@,
        ensures
            Timespan::parsed(integer_text(n as int) + unit) == Err::<int, TimespanErrorView>(
                TimespanErrorView::Unit(ParseErrorView::InvalidTimespanUnit(unit)),
            ),
    {
        Timespan::lemma_in_front(n as int, unit);
    }

    /// A unit needs a number in front of it that fits 64 bits, and a number needs a unit: digits
    /// and minus signs alone count as no number in front of a unit.
    pub proof fn numbers_are_required(number: Seq<char>, unit: Seq<char>)
        requires
            forall|i: int|
                0 <= i < number.len() ==> #[trigger] number[i] == '-' || '0' <= number[i] <= '9',
        ensures
            Timespan::parsed(number) == Err::<int, TimespanErrorView>(
                TimespanErrorView::Number(IntegerError::Empty),
            ),
            unit.len() > 0 && unit[0] != '-' && !('0' <= unit[0] <= '9') ==> (parsed_integer(
                number,
                i64::MIN as int,
                i64::MAX as int,
            ) matches Err(e) ==> Timespan::parsed(number + unit) == Err::<int, TimespanErrorView>(
                TimespanErrorView::Number(e),
            )),
    {
        lemma_first_non_number(number, number.len() as int);
        assert(number.take(0) =~= Seq::<char>::empty());
        if unit.len() > 0 && !is_number_char(unit[0]) {
            let t = number + unit;
            assert(t[number.len() as int] == unit[0]);
            assert forall|i: int| 0 <= i < number.len() implies is_number_char(t[i]) by {
                assert(t[i] == number[i]);
            }
            lemma_first_non_number(t, number.len() as int);
            assert(t.take(number.len() as int) =~= number);
        }
    }

    proof fn lemma_in_front(n: int, unit: Seq<char>)
        requires
            i64::MIN <= n <= i64::MAX,
            unit.len() > 0,
            !is_number_char(unit[0]),
        ensures
            Timespan::parsed(integer_text(n) + unit) == in_unit(n, unit),
    {
        reveal_strlit("");
        let t = integer_text(n) + unit;
        assert(t =~= integer_text(n) + unit + ""@);
        Timespan::lemma_split(n, unit, t);
    }

    /// Whole seconds are written as their number and `s`, other spans as the number of their
    /// nanoseconds and `ns` where that fits 64 bits. Other spans are refused, and the refusal shows
    /// the span.
    pub proof fn spans_in_writing(n: int)
        ensures
            Timespan::text(n * 1_000_000_000) == Ok::<Seq<char>, SerializationErrorView>(
                integer_text(n) + "s"@,
            ),
            n % 1_000_000_000 != 0 && i64::MIN <= n <= i64::MAX ==> Timespan::text(n) == Ok::<
                Seq<char>,
                SerializationErrorView,
            >(integer_text(n) + "ns"@),
            n % 1_000_000_000 != 0 && !(i64::MIN <= n <= i64::MAX) ==> (Timespan::text(
                n,
            ) matches Err(e) && e.text() == "value not representable: '"@ + duration_text(n)
                + "' needs nanosecond accuracy but exceeds its range"@),
    {
        reveal_strlit("");
        reveal_strlit("'");
        reveal_strlit("value not representable: ");
        reveal_strlit("value not representable: '");
        assert(integer_text(n) + "s"@ + ""@ =~= integer_text(n) + "s"@);
        assert(integer_text(n) + "ns"@ + ""@ =~= integer_text(n) + "ns"@);
        let rest = duration_text(n) + "' needs nanosecond accuracy but exceeds its range"@;
        assert("value not representable: "@ + ("'"@ + duration_text(n)
            + "' needs nanosecond accuracy but exceeds its range"@) + ""@
            =~= "value not representable: '"@ + duration_text(n)
            + "' needs nanosecond accuracy but exceeds its range"@);
    }

    /// A span is a number of seconds that fits 64 bits, and less than a second of the same sign.
    pub proof fn spans_have_seconds(seconds: int, rest: int)
        requires
            -1_000_000_000 < rest < 1_000_000_000,
            seconds > 0 ==> rest >= 0,
            seconds < 0 ==> rest <= 0,
        ensures
            timespan_fits(seconds * 1_000_000_000 + rest) <==> i64::MIN <= seconds <= i64::MAX,
    {
    }

    /// What a reader is told of a text that is no timespan.
    pub proof fn errors_are_described(e: IntegerError, unit: ParseErrorView)
        ensures
            TimespanErrorView::Number(e).text() == e.text(),
            TimespanErrorView::Unit(unit).text() == unit.text(),
            TimespanErrorView::Overflow.text() == "overflow constructing timespan"@,
            IntegerError::Empty.text() == "cannot parse integer from empty string"@,
            IntegerError::InvalidDigit.text() == "invalid digit found in string"@,
            IntegerError::PosOverflow.text() == "number too large to fit in target type"@,
            IntegerError::NegOverflow.text() == "number too small to fit in target type"@,
    {
    }
}

/// How points in time are laid out, as `time` describes formats.
pub open spec fn timestamp_layout() -> Seq<char> {
    "[year]-[month]-[day]T[hour]:[minute]:[second].[subsecond]"@
}

/// Whether a date and time, in nanoseconds from the start of 1970, falls within the years that
/// can be written.
pub open spec fn civil_fits(local: int) -> bool {
    -377_705_116_800_000_000_000 <= local <= 253_402_300_799_999_999_999
}

/// How `time` writes a date and time in a layout.
pub uninterp spec fn civil_text(local: int, layout: Seq<char>) -> Seq<char>;

/// What `time` reads from a text in a layout, or what it says is wrong with the text.
pub uninterp spec fn civil_parsed(s: Seq<char>, layout: Seq<char>) -> Result<int, Seq<char>>;

/// Whether `time` reads this date and time from the text.
pub open spec fn civil_reads_as(s: Seq<char>, layout: Seq<char>, local: int) -> bool {
    civil_parsed(s, layout) == Ok::<int, Seq<char>>(local)
}

/// `time::OffsetDateTime::from_unix_timestamp_nanos` and `time::PrimitiveDateTime::format`: the
/// text is a function of the date and time, and `time::PrimitiveDateTime::parse` reads it back.
#[verifier::external_body]
fn format_civil(local: i128, layout: &str) -> (r: String)
    requires
        civil_fits(local as int),
        layout@ == timestamp_layout(),
    ensures
        r@ == civil_text(local as int, layout@),
        civil_reads_as(r@, layout@, local as int),
{
    let items = time::format_description::parse(layout).unwrap();
    let utc = time::OffsetDateTime::from_unix_timestamp_nanos(local).unwrap();
    time::PrimitiveDateTime::new(utc.date(), utc.time()).format(&items).unwrap()
}

/// `time::PrimitiveDateTime::parse`: the outcome is a function of the text, and what is read
/// falls within the years that can be written.
#[verifier::external_body]
fn parse_civil(s: &str, layout: &str) -> (r: Result<i128, String>)
    requires
        layout@ == timestamp_layout(),
    ensures
        match r {
            Ok(local) => civil_reads_as(s@, layout@, local as int) && civil_fits(local as int),
            Err(e) => civil_parsed(s@, layout@) matches Err(t) && t == e@,
        },
{
    let items = time::format_description::parse(layout).unwrap();
    match time::PrimitiveDateTime::parse(s, &items) {
        Ok(local) => Ok(local.assume_utc().unix_timestamp_nanos()),
        Err(e) => Err(e.to_string()),
    }
}

/// `time::UtcOffset::current_local_offset` in seconds, where the system knows it. Which offset
/// it is depends on the machine and the day.
#[verifier::external_body]
fn current_local_offset() -> (r: Option<i32>)
    ensures
        r matches Some(seconds) ==> offset_fits(seconds as int),
{
    match time::UtcOffset::current_local_offset() {
        Ok(offset) => Some(offset.whole_seconds()),
        Err(_) => None,
    }
}

/// Whether an offset from UTC in seconds is shorter than 26 hours.
pub open spec fn offset_fits(seconds: int) -> bool {
    -93_599 <= seconds <= 93_599
}

/// Distance of local time from UTC.
#[derive(Debug, Clone, Copy, PartialEq, Eq, Structural)]
pub struct UtcOffset {
    seconds: i32,
}

impl View for UtcOffset {
    type V = int;

    /// Seconds that local time is ahead.
    closed spec fn view(&self) -> int {
        self.seconds as int
    }
}

/// The offset, where it is known, in seconds.
pub open spec fn offset_view(offset: Option<UtcOffset>) -> Option<int> {
    match offset {
        Some(o) => Some(o@),
        None => None,
    }
}

impl UtcOffset {
    #[verifier::type_invariant]
    spec fn valid(self) -> bool {
        offset_fits(self.seconds as int)
    }

    /// The offset of so many seconds, where it is shorter than 26 hours.
    pub fn from_whole_seconds(seconds: i32) -> (r: Option<UtcOffset>)
        ensures
            match r {
                Some(o) => o@ == seconds && offset_fits(seconds as int),
                None => !offset_fits(seconds as int),
            },
    {
        if -93_599 <= seconds && seconds <= 93_599 {
            Some(UtcOffset { seconds })
        } else {
            None
        }
    }

    /// The system's offset, where it is known: what [`UtcOffset::from_whole_seconds`] makes of its
    /// seconds. Which offset that is depends on the machine and the day.
    pub fn current() -> (r: Option<UtcOffset>)
        ensures
            r matches Some(o) ==> offset_fits(o@),
    {
        match current_local_offset() {
            Some(seconds) => UtcOffset::from_whole_seconds(seconds),
            None => None,
        }
    }

    pub fn whole_seconds(&self) -> (r: i32)
        ensures
            r == self@,
            offset_fits(self@),
    {
        proof {
            use_type_invariant(self);
        }
        self.seconds
    }
}

/// Why a point in time cannot be written or read.
#[derive(Debug, Clone, PartialEq)]
pub enum TimestampError {
    /// The text is not a date and time.
    Format(String),
    /// The offset of local time is not known.
    IndeterminateOffset,
    /// In local time the date falls outside the years that can be written.
    LocalRange,
}

/// A [`TimestampError`] with the text that it is about.
pub enum TimestampErrorView {
    Format(Seq<char>),
    IndeterminateOffset,
    LocalRange,
}

impl TimestampError {
    /// An error is seen as the one that it is.
    pub proof fn errors_are_seen(self)
        ensures
            self matches TimestampError::Format(s) ==> self@ == TimestampErrorView::Format(s@),
            self is IndeterminateOffset ==> self@ == TimestampErrorView::IndeterminateOffset,
            self is LocalRange ==> self@ == TimestampErrorView::LocalRange,
    {
    }
}

impl View for TimestampError {
    type V = TimestampErrorView;

    open spec fn view(&self) -> TimestampErrorView {
        match self {
            TimestampError::Format(s) => TimestampErrorView::Format(s@),
            TimestampError::IndeterminateOffset => TimestampErrorView::IndeterminateOffset,
            TimestampError::LocalRange => TimestampErrorView::LocalRange,
        }
    }
}

impl TimestampErrorView {
    pub open spec fn text(self) -> Seq<char> {
        match self {
            TimestampErrorView::Format(s) => s,
            TimestampErrorView::IndeterminateOffset =>
                "The system's UTC offset could not be determined"@,
            TimestampErrorView::LocalRange => "local datetime out of valid range"@,
        }
    }
}

impl TimestampError {
    /// Describes the error.
    pub fn to_string(&self) -> (r: String)
        ensures
            r@ == self@.text(),
    {
        match self {
            TimestampError::Format(s) => s.clone(),
            TimestampError::IndeterminateOffset =>
                "The system's UTC offset could not be determined".to_owned(),
            TimestampError::LocalRange => "local datetime out of valid range".to_owned(),
        }
    }
}

/// Whether a point in time, in nanoseconds from the start of 1970 in UTC, falls in some time
/// zone within the years that can be written.
pub open spec fn timestamp_fits(nanoseconds: int) -> bool {
    -377_705_210_399_000_000_000 <= nanoseconds <= 253_402_394_398_999_999_999
}

/// A point in time, to the nanosecond, and how far from UTC it was given. Points in time are
/// compared and written without regard to where they were given.
#[derive(Debug, Clone, Copy)]
pub struct Timestamp {
    nanoseconds: i128,
    offset: UtcOffset,
}

impl View for Timestamp {
    type V = (int, int);

    /// Nanoseconds from the start of 1970 in UTC, and seconds from UTC at which the point was
    /// given.
    closed spec fn view(&self) -> (int, int) {
        (self.nanoseconds as int, self.offset@)
    }
}

impl PartialEq for Timestamp {
    fn eq(&self, other: &Timestamp) -> (r: bool) {
        self.nanoseconds == other.nanoseconds
    }
}

impl vstd::std_specs::cmp::PartialEqSpecImpl for Timestamp {
    open spec fn obeys_eq_spec() -> bool {
        true
    }

    open spec fn eq_spec(&self, other: &Timestamp) -> bool {
        self@.0 == other@.0
    }
}

impl Eq for Timestamp {

}

impl Timestamp {
    #[verifier::type_invariant]
    spec fn valid(self) -> bool {
        civil_fits(self.nanoseconds + self.offset@ * 1_000_000_000)
    }

    /// How a point in time is written: in local time.
    pub open spec fn text(nanoseconds: int, offset: Option<int>) -> Result<
        Seq<char>,
        TimestampErrorView,
    > {
        match offset {
            None => Err(TimestampErrorView::IndeterminateOffset),
            Some(seconds) => if civil_fits(nanoseconds + seconds * 1_000_000_000) {
                Ok(civil_text(nanoseconds + seconds * 1_000_000_000, timestamp_layout()))
            } else {
                Err(TimestampErrorView::LocalRange)
            },
        }
    }

    /// The point in time that is written so in local time, where it is then given.
    pub open spec fn parsed(s: Seq<char>, offset: Option<int>) -> Result<
        (int, int),
        TimestampErrorView,
    > {
        match civil_parsed(s, timestamp_layout()) {
            Err(e) => Err(TimestampErrorView::Format(e)),
            Ok(local) => match offset {
                None => Err(TimestampErrorView::IndeterminateOffset),
                Some(seconds) => Ok((local - seconds * 1_000_000_000, seconds)),
            },
        }
    }

    /// Where the point in time can be written, it is read back from what is written, given in
    /// local time.
    pub open spec fn reads_back(nanoseconds: int, offset: Option<int>) -> bool {
        Timestamp::text(nanoseconds, offset) matches Ok(t) ==> Timestamp::parsed(t, offset) == Ok::<
            (int, int),
            TimestampErrorView,
        >((nanoseconds, offset->Some_0))
    }

    /// Points in time are written and read as dates and times on the clocks at an offset: where
    /// clocks are ahead of UTC, they show a point as clocks in UTC show the point so much later,
    /// and what they show is a point so much earlier.
    pub proof fn clocks_are_ahead(nanoseconds: int, s: Seq<char>, seconds: int)
        ensures
            Timestamp::text(nanoseconds, Some(seconds)) == Timestamp::text(
                nanoseconds + seconds * 1_000_000_000,
                Some(0),
            ),
            Timestamp::parsed(s, Some(seconds)) == match Timestamp::parsed(s, Some(0)) {
                Ok(t) => Ok::<(int, int), TimestampErrorView>(
                    (t.0 - seconds * 1_000_000_000, seconds),
                ),
                Err(e) => Err(e),
            },
    {
    }

    /// In UTC a point in time is written as the date and time that it is, to the nanosecond, where
    /// the year has four digits, and read in the same way. Without an offset nothing is written,
    /// and nothing is read but what is wrong with the text.
    pub proof fn points_in_writing(nanoseconds: int, s: Seq<char>)
        ensures
            -377_705_116_800_000_000_000 <= nanoseconds < 253_402_300_800_000_000_000
                ==> Timestamp::text(nanoseconds, Some(0)) == Ok::<Seq<char>, TimestampErrorView>(
                civil_text(
                    nanoseconds,
                    "[year]-[month]-[day]T[hour]:[minute]:[second].[subsecond]"@,
                ),
            ),
            !(-377_705_116_800_000_000_000 <= nanoseconds < 253_402_300_800_000_000_000)
                ==> Timestamp::text(nanoseconds, Some(0)) == Err::<Seq<char>, TimestampErrorView>(
                TimestampErrorView::LocalRange,
            ),
            match civil_parsed(s, "[year]-[month]-[day]T[hour]:[minute]:[second].[subsecond]"@) {
                Ok(local) => Timestamp::parsed(s, Some(0)) == Ok::<(int, int), TimestampErrorView>(
                    (local, 0int),
                ) && Timestamp::parsed(s, None) == Err::<(int, int), TimestampErrorView>(
                    TimestampErrorView::IndeterminateOffset,
                ),
                Err(e) => Timestamp::parsed(s, Some(0)) == Err::<(int, int), TimestampErrorView>(
                    TimestampErrorView::Format(e),
                ) && Timestamp::parsed(s, None) == Err::<(int, int), TimestampErrorView>(
                    TimestampErrorView::Format(e),
                ),
            },
            Timestamp::text(nanoseconds, None) == Err::<Seq<char>, TimestampErrorView>(
                TimestampErrorView::IndeterminateOffset,
            ),
    {
    }

    /// The point so many nanoseconds from the start of 1970 in UTC, given in UTC, where its date
    /// falls within the supported years.
    pub fn new(nanoseconds: i128) -> (r: Option<Timestamp>)
        ensures
            match r {
                Some(t) => t@ == (nanoseconds as int, 0int) && civil_fits(nanoseconds as int),
                None => !civil_fits(nanoseconds as int),
            },
    {
        Timestamp::in_offset(nanoseconds, UtcOffset { seconds: 0 })
    }

    /// The point so many nanoseconds from the start of 1970 in UTC, given so far from UTC, where
    /// its date there falls within the supported years.
    pub fn in_offset(nanoseconds: i128, offset: UtcOffset) -> (r: Option<Timestamp>)
        ensures
            match r {
                Some(t) => t@ == (nanoseconds as int, offset@) && civil_fits(
                    nanoseconds + offset@ * 1_000_000_000,
                ),
                None => !civil_fits(nanoseconds + offset@ * 1_000_000_000),
            },
    {
        let ahead: i128 = offset.whole_seconds() as i128 * 1_000_000_000;
        if -377_705_116_800_000_000_000 - ahead <= nanoseconds && nanoseconds
            <= 253_402_300_799_999_999_999 - ahead {
            Some(Timestamp { nanoseconds, offset })
        } else {
            None
        }
    }

    /// The point so many nanoseconds from the start of 1970 in UTC, given in UTC.
    pub fn from_nanoseconds(nanoseconds: i64) -> (r: Timestamp)
        ensures
            r@ == (nanoseconds as int, 0int),
    {
        Timestamp { nanoseconds: nanoseconds as i128, offset: UtcOffset { seconds: 0 } }
    }

    /// How far from UTC the point was given.
    pub fn offset(&self) -> (r: UtcOffset)
        ensures
            r@ == self@.1,
            civil_fits(self@.0 + self@.1 * 1_000_000_000),
    {
        proof {
            use_type_invariant(self);
        }
        self.offset
    }

    /// Nanoseconds from the start of 1970 in UTC.
    pub fn nanoseconds(&self) -> (r: i128)
        ensures
            r == self@.0,
            timestamp_fits(self@.0),
    {
        proof {
            use_type_invariant(self);
            use_type_invariant(&self.offset);
        }
        self.nanoseconds
    }

    /// Reads a point in local time, where it is then given.
    pub fn from_str(s: &str, offset: Option<UtcOffset>) -> (r: Result<Timestamp, TimestampError>)
        ensures
            match r {
                Ok(t) => Timestamp::parsed(s@, offset_view(offset)) == Ok::<
                    (int, int),
                    TimestampErrorView,
                >(t@),
                Err(e) => Timestamp::parsed(s@, offset_view(offset)) == Err::<
                    (int, int),
                    TimestampErrorView,
                >(e@),
            },
    {
        match parse_civil(s, "[year]-[month]-[day]T[hour]:[minute]:[second].[subsecond]") {
            Err(e) => Err(TimestampError::Format(e)),
            Ok(local) => match offset {
                None => Err(TimestampError::IndeterminateOffset),
                Some(o) => {
                    let seconds: i32 = o.whole_seconds();
                    Ok(
                        Timestamp {
                            nanoseconds: local - seconds as i128 * 1_000_000_000,
                            offset: o,
                        },
                    )
                },
            },
        }
    }

    /// Writes the point in local time. It is read back from what is written.
    pub fn to_text(&self, offset: Option<UtcOffset>) -> (r: Result<String, TimestampError>)
        ensures
            match r {
                Ok(t) => Timestamp::text(self@.0, offset_view(offset)) == Ok::<
                    Seq<char>,
                    TimestampErrorView,
                >(t@),
                Err(e) => Timestamp::text(self@.0, offset_view(offset)) == Err::<
                    Seq<char>,
                    TimestampErrorView,
                >(e@),
            },
            Timestamp::reads_back(self@.0, offset_view(offset)),
    {
        proof {
            use_type_invariant(self);
            use_type_invariant(&self.offset);
        }
        match offset {
            None => Err(TimestampError::IndeterminateOffset),
            Some(o) => {
                let seconds: i32 = o.whole_seconds();
                let local: i128 = self.nanoseconds + seconds as i128 * 1_000_000_000;
                if -377_705_116_800_000_000_000 <= local && local <= 253_402_300_799_999_999_999 {
                    Ok(
                        format_civil(
                            local,
                            "[year]-[month]-[day]T[hour]:[minute]:[second].[subsecond]",
                        ),
                    )
                } else {
                    Err(TimestampError::LocalRange)
                }
            },
        }
    }
}

} // verus!
