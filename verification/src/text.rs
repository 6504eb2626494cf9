//! Characters, decimal numbers and the comparison of strings.
use vstd::prelude::*;
use vstd::utf8::{decode_utf8, valid_utf8};

use crate::order::{lex_order, Order};

verus! {

/// `String::push` appends one character.
pub assume_specification[ std::string::String::push ](s: &mut std::string::String, c: char)
    ensures
        final(s)@ == old(s)@.push(c),
;

/// `String::from` copies a text.
pub assume_specification<'a>[ <std::string::String as From<&'a str>>::from ](s: &str) -> (r:
    std::string::String)
    ensures
        r@ == s@,
;

/// `From` of a type to itself gives the value back.
pub assume_specification<Same>[ <Same as core::convert::From<Same>>::from ](kept: Same) -> (r: Same)
    ensures
        r == kept,
;

/// The characters that bytes encode.
pub open spec fn utf8_decoded(bytes: Seq<u8>) -> Option<Seq<char>> {
    if valid_utf8(bytes) {
        Some(decode_utf8(bytes))
    } else {
        None
    }
}

/// `core::str::from_utf8` gives the text that the bytes encode, where they encode one.
#[verifier::external_body]
pub(crate) fn utf8_text(bytes: &[u8]) -> (r: Option<String>)
    ensures
        match r {
            Some(s) => utf8_decoded(bytes@) == Some(s@),
            None => utf8_decoded(bytes@) == None::<Seq<char>>,
        },
{
    match core::str::from_utf8(bytes) {
        Ok(s) => Some(s.to_owned()),
        Err(_) => None,
    }
}

/// A copy of the bytes.
pub fn copy_bytes(b: &Vec<u8>) -> (r: Vec<u8>)
    ensures
        r@ == b@,
{
    let mut out: Vec<u8> = Vec::new();
    let mut i: usize = 0;
    while i < b.len()
        invariant
            i <= b.len(),
            out@ == b@.take(i as int),
        decreases b.len() - i,
    {
        out.push(b[i]);
        i = i + 1;
        assert(out@ =~= b@.take(i as int));
    }
    assert(b@.take(i as int) =~= b@);
    out
}

/// Where the character stands first.
pub open spec fn first_index(s: Seq<char>, c: char) -> Option<int>
    decreases s.len(),
{
    if s.len() == 0 {
        None
    } else if s[0] == c {
        Some(0)
    } else {
        match first_index(s.drop_first(), c) {
            Some(i) => Some(i + 1),
            None => None,
        }
    }
}

/// No such character stands before the first one, and none anywhere if there is no first.
pub proof fn lemma_first_index(s: Seq<char>, c: char)
    ensures
        match first_index(s, c) {
            Some(i) => 0 <= i < s.len() && s[i] == c && forall|j: int| 0 <= j < i ==> s[j] != c,
            None => forall|j: int| 0 <= j < s.len() ==> s[j] != c,
        },
    decreases s.len(),
{
    if s.len() > 0 && s[0] != c {
        let rest = s.drop_first();
        lemma_first_index(rest, c);
        assert(forall|j: int| 0 < j < s.len() ==> s[j] == rest[j - 1]);
    }
}

pub proof fn lemma_first_index_is(s: Seq<char>, c: char, at: int)
    requires
        0 <= at < s.len(),
        s[at] == c,
        forall|j: int| 0 <= j < at ==> s[j] != c,
    ensures
        first_index(s, c) == Some(at),
    decreases s.len(),
{
    if at > 0 {
        lemma_first_index_is(s.drop_first(), c, at - 1);
    }
}

pub proof fn lemma_first_index_none(s: Seq<char>, c: char)
    requires
        forall|j: int| 0 <= j < s.len() ==> s[j] != c,
    ensures
        first_index(s, c) == None::<int>,
    decreases s.len(),
{
    if s.len() > 0 {
        lemma_first_index_none(s.drop_first(), c);
    }
}

/// The characters of a string.
pub fn chars_of(s: &str) -> (r: Vec<char>)
    ensures
        r@ == s@,
{
    let mut out: Vec<char> = Vec::new();
    for c in it: s.chars()
        invariant
            out@ == it.seq().take(it.index()),
            it.seq() == s@,
    {
        out.push(c);
        assert(it.seq().take(it.index() + 1) =~= it.seq().take(it.index()).push(c));
    }
    assert(s@.take(s@.len() as int) =~= s@);
    out
}

/// The string made of the characters from `from` up to `to`.
pub fn string_of(cs: &Vec<char>, from: usize, to: usize) -> (r: String)
    requires
        from <= to <= cs.len(),
    ensures
        r@ == cs@.subrange(from as int, to as int),
{
    let mut out = String::new();
    let mut i: usize = from;
    while i < to
        invariant
            from <= i <= to <= cs.len(),
            out@ == cs@.subrange(from as int, i as int),
        decreases to - i,
    {
        out.push(cs[i]);
        assert(cs@.subrange(from as int, i + 1) =~= cs@.subrange(from as int, i as int).push(
            cs@[i as int],
        ));
        i = i + 1;
    }
    out
}

/// Whether two strings hold the same characters.
pub fn same_text(a: &str, b: &str) -> (r: bool)
    ensures
        r == (a@ == b@),
{
    a.to_owned() == b.to_owned()
}

/// Three strings, one behind the other.
pub fn joined(a: &str, b: &str, c: &str) -> (r: String)
    ensures
        r@ == a@ + b@ + c@,
{
    let mut out = a.to_owned();
    out.append(b);
    out.append(c);
    out
}

/// The position of the first such character.
pub fn find_char(cs: &Vec<char>, c: char) -> (r: Option<usize>)
    ensures
        match r {
            Some(i) => first_index(cs@, c) == Some(i as int) && i < cs.len(),
            None => first_index(cs@, c) == None::<int>,
        },
{
    let mut i: usize = 0;
    while i < cs.len()
        invariant
            i <= cs.len(),
            forall|j: int| 0 <= j < i ==> cs@[j] != c,
        decreases cs.len() - i,
    {
        if cs[i] == c {
            proof {
                lemma_first_index_is(cs@, c, i as int);
            }
            return Some(i);
        }
        i = i + 1;
    }
    proof {
        lemma_first_index_none(cs@, c);
    }
    None
}

/// The characters as numbers, the way strings sort.
pub open spec fn code_points(s: Seq<char>) -> Seq<int> {
    Seq::new(s.len(), |i: int| s[i] as int)
}

/// Distinct strings have distinct code points.
pub proof fn lemma_code_points_distinct(a: Seq<char>, b: Seq<char>)
    ensures
        code_points(a) == code_points(b) <==> a == b,
{
    if code_points(a) == code_points(b) {
        assert(code_points(a).len() == code_points(b).len());
        assert forall|i: int| 0 <= i < a.len() implies a[i] == b[i] by {
            assert(code_points(a)[i] == code_points(b)[i]);
        }
        assert(a =~= b);
    }
}

/// Compares two strings by their code points.
pub fn compare_text(a: &str, b: &str) -> (o: Order)
    ensures
        o == lex_order(code_points(a@), code_points(b@)),
{
    let x = chars_of(a);
    let y = chars_of(b);
    let mut i: usize = 0;
    assert(code_points(x@).skip(0) =~= code_points(x@));
    assert(code_points(y@).skip(0) =~= code_points(y@));
    while i < x.len() && i < y.len()
        invariant
            i <= x.len(),
            i <= y.len(),
            lex_order(code_points(x@), code_points(y@)) == lex_order(
                code_points(x@).skip(i as int),
                code_points(y@).skip(i as int),
            ),
            x@ == a@,
            y@ == b@,
        decreases x.len() - i,
    {
        let (p, q) = (x[i], y[i]);
        assert(code_points(x@).skip(i as int)[0] == p as int);
        assert(code_points(y@).skip(i as int)[0] == q as int);
        if p < q {
            return Order::Less;
        } else if q < p {
            return Order::Greater;
        }
        assert(code_points(x@).skip(i as int).drop_first() =~= code_points(x@).skip(i + 1));
        assert(code_points(y@).skip(i as int).drop_first() =~= code_points(y@).skip(i + 1));
        i = i + 1;
    }
    if i < x.len() {
        Order::Greater
    } else if i < y.len() {
        Order::Less
    } else {
        Order::Equal
    }
}

/// The character of a decimal digit.
pub open spec fn digit_char(d: int) -> char {
    ('0' as int + d) as char
}

pub open spec fn is_digit(c: char) -> bool {
    '0' <= c && c <= '9'
}

pub open spec fn digit_value(c: char) -> int {
    c as int - '0' as int
}

/// The decimal digits of a number, most significant first.
pub open spec fn decimal(n: nat) -> Seq<char>
    decreases n,
{
    if n < 10 {
        seq![digit_char(n as int)]
    } else {
        decimal(n / 10).push(digit_char((n % 10) as int))
    }
}

/// A number in decimal, with a minus sign where it is negative.
pub open spec fn integer_text(n: int) -> Seq<char> {
    if n < 0 {
        seq!['-'] + decimal((-n) as nat)
    } else {
        decimal(n as nat)
    }
}

/// Why a text is not a number of the wanted range.
#[derive(Debug, Clone, Copy, PartialEq, Eq, Structural)]
pub enum IntegerError {
    Empty,
    InvalidDigit,
    PosOverflow,
    NegOverflow,
}

impl IntegerError {
    /// What a reader is told of a text that is no number.
    pub proof fn errors_are_described(self)
        ensures
            self is Empty ==> self.text() == "cannot parse integer from empty string"@,
            self is InvalidDigit ==> self.text() == "invalid digit found in string"@,
            self is PosOverflow ==> self.text() == "number too large to fit in target type"@,
            self is NegOverflow ==> self.text() == "number too small to fit in target type"@,
    {
    }

    /// What a reader of the error is told.
    pub open spec fn text(self) -> Seq<char> {
        match self {
            IntegerError::Empty => "cannot parse integer from empty string"@,
            IntegerError::InvalidDigit => "invalid digit found in string"@,
            IntegerError::PosOverflow => "number too large to fit in target type"@,
            IntegerError::NegOverflow => "number too small to fit in target type"@,
        }
    }

    pub fn to_text(&self) -> (r: String)
        ensures
            r@ == self.text(),
    {
        match self {
            IntegerError::Empty => "cannot parse integer from empty string".to_owned(),
            IntegerError::InvalidDigit => "invalid digit found in string".to_owned(),
            IntegerError::PosOverflow => "number too large to fit in target type".to_owned(),
            IntegerError::NegOverflow => "number too small to fit in target type".to_owned(),
        }
    }
}

/// One more digit behind a number read so far.
pub open spec fn digit_step(
    acc: int,
    c: char,
    negative: bool,
    min: int,
    max: int,
) -> Result<int, IntegerError> {
    if !is_digit(c) {
        Err(IntegerError::InvalidDigit)
    } else if negative {
        if acc * 10 - digit_value(c) < min {
            Err(IntegerError::NegOverflow)
        } else {
            Ok(acc * 10 - digit_value(c))
        }
    } else {
        if acc * 10 + digit_value(c) > max {
            Err(IntegerError::PosOverflow)
        } else {
            Ok(acc * 10 + digit_value(c))
        }
    }
}

/// Reads digits from the left; the first that does not fit decides the error.
pub open spec fn digit_steps(
    s: Seq<char>,
    negative: bool,
    min: int,
    max: int,
) -> Result<int, IntegerError>
    decreases s.len(),
{
    if s.len() == 0 {
        Ok(0)
    } else {
        match digit_steps(s.drop_last(), negative, min, max) {
            Ok(acc) => digit_step(acc, s.last(), negative, min, max),
            Err(e) => Err(e),
        }
    }
}

/// The number that a text stands for: digits behind an optional sign. A minus sign counts as a
/// sign only where negative numbers are wanted.
pub open spec fn parsed_integer(s: Seq<char>, min: int, max: int) -> Result<int, IntegerError> {
    if s.len() == 0 {
        Err(IntegerError::Empty)
    } else if s.len() == 1 && (s[0] == '+' || s[0] == '-') {
        Err(IntegerError::InvalidDigit)
    } else if s[0] == '+' {
        digit_steps(s.drop_first(), false, min, max)
    } else if s[0] == '-' && min < 0 {
        digit_steps(s.drop_first(), true, min, max)
    } else {
        digit_steps(s, false, min, max)
    }
}

/// The digits are the characters from `0` to `9`, and each stands for its number.
pub proof fn digits_are_characters(c: char)
    ensures
        ({
            let digits = seq!['0', '1', '2', '3', '4', '5', '6', '7', '8', '9'];
            &&& is_digit(c) <==> digits.contains(c)
            &&& forall|d: int|
                0 <= d < 10 ==> digit_char(d) == #[trigger] digits[d] && digit_value(digits[d]) == d
        }),
{
    let digits = seq!['0', '1', '2', '3', '4', '5', '6', '7', '8', '9'];
    if is_digit(c) {
        assert(digits[c as int - '0' as int] == c);
    }
}

pub proof fn lemma_digit_char(d: int)
    requires
        0 <= d < 10,
    ensures
        is_digit(digit_char(d)),
        digit_value(digit_char(d)) == d,
{
}

pub proof fn lemma_decimal_digits(n: nat)
    ensures
        decimal(n).len() > 0,
        forall|i: int| 0 <= i < decimal(n).len() ==> is_digit(#[trigger] decimal(n)[i]),
    decreases n,
{
    if n >= 10 {
        lemma_decimal_digits(n / 10);
    }
    lemma_digit_char((n % 10) as int);
}

proof fn lemma_decimal_steps(n: nat, negative: bool, min: int, max: int)
    requires
        min <= 0 <= max,
        negative ==> min <= -n,
        !negative ==> n <= max,
    ensures
        digit_steps(decimal(n), negative, min, max) == Ok::<int, IntegerError>(
            if negative {
                -n
            } else {
                n as int
            },
        ),
    decreases n,
{
    reveal_with_fuel(digit_steps, 2);
    lemma_digit_char((n % 10) as int);
    if n >= 10 {
        lemma_decimal_steps(n / 10, negative, min, max);
        assert(decimal(n).drop_last() =~= decimal(n / 10));
    } else {
        assert(decimal(n).drop_last() =~= Seq::<char>::empty());
    }
}

/// A number is read back from its decimal text.
pub proof fn integer_text_reads_back(n: int, min: int, max: int)
    requires
        min <= 0 <= max,
        min <= n <= max,
    ensures
        parsed_integer(integer_text(n), min, max) == Ok::<int, IntegerError>(n),
{
    if n < 0 {
        let m = (-n) as nat;
        lemma_decimal_digits(m);
        lemma_decimal_steps(m, true, min, max);
        assert(integer_text(n).drop_first() =~= decimal(m));
    } else {
        lemma_decimal_digits(n as nat);
        lemma_decimal_steps(n as nat, false, min, max);
        assert(is_digit(decimal(n as nat)[0]));
    }
}

/// A single decimal digit stands for its value, and one more digit behind digits makes the number
/// ten times as large and adds the digit, in reading as in writing.
pub proof fn digits_are_decimal(s: Seq<char>, d: int, min: int, max: int)
    requires
        0 <= d < 10,
        min <= 0,
        9 <= max,
    ensures
        decimal(d as nat) == seq![('0' as int + d) as char],
        parsed_integer(seq![('0' as int + d) as char], min, max) == Ok::<int, IntegerError>(d),
        forall|n: nat|
            n > 0 ==> #[trigger] decimal(n * 10 + d as nat) == decimal(n).push(
                ('0' as int + d) as char,
            ),
        s.len() > 0 && '0' <= s[0] <= '9' ==> (parsed_integer(s, min, max) matches Ok(n)
            ==> parsed_integer(s.push(('0' as int + d) as char), min, max) == if n * 10 + d
            <= max {
            Ok::<int, IntegerError>(n * 10 + d)
        } else {
            Err(IntegerError::PosOverflow)
        }),
{
    lemma_digit_char(d);
    let c = digit_char(d);
    let one = seq![c];
    assert(one.drop_last() =~= Seq::<char>::empty());
    reveal_with_fuel(digit_steps, 2);
    assert(s.push(c).drop_last() =~= s);
    assert(s.push(c)[0] == s[0] || s.len() == 0);
    assert forall|n: nat| n > 0 implies #[trigger] decimal(n * 10 + d as nat) == decimal(n).push(
        c,
    ) by {
        let m = n * 10 + d as nat;
        assert(m / 10 == n && m % 10 == d) by (nonlinear_arith)
            requires
                m == n * 10 + d as nat,
                0 <= d < 10,
        ;
    }
}

/// A plus sign in front of digits does not matter; a minus sign turns the number round where
/// negative numbers are wanted; no text, a sign alone, and text with anything but digits behind
/// the sign are no numbers.
pub proof fn signs_are_read(n: int, s: Seq<char>, min: int, max: int)
    requires
        min <= 0 <= max,
    ensures
        0 <= n <= max ==> parsed_integer(seq!['+'] + decimal(n as nat), min, max) == Ok::<
            int,
            IntegerError,
        >(n),
        min < 0 && 0 <= n <= -min ==> parsed_integer(seq!['-'] + decimal(n as nat), min, max)
            == Ok::<int, IntegerError>(-n),
        n >= 0 && min == 0 ==> parsed_integer(seq!['-'] + decimal(n as nat), min, max) == Err::<
            int,
            IntegerError,
        >(IntegerError::InvalidDigit),
        parsed_integer(Seq::empty(), min, max) == Err::<int, IntegerError>(IntegerError::Empty),
        parsed_integer(seq!['+'], min, max) == Err::<int, IntegerError>(
            IntegerError::InvalidDigit,
        ),
        parsed_integer(seq!['-'], min, max) == Err::<int, IntegerError>(
            IntegerError::InvalidDigit,
        ),
        s.len() > 0 && !is_digit(s[0]) && s[0] != '+' && s[0] != '-' ==> parsed_integer(
            s,
            min,
            max,
        ) == Err::<int, IntegerError>(IntegerError::InvalidDigit),
        forall|c: char|
            !is_digit(c) && parsed_integer(s, min, max) is Ok ==> #[trigger] parsed_integer(
                s.push(c),
                min,
                max,
            ) == Err::<int, IntegerError>(IntegerError::InvalidDigit),
{
    if n >= 0 {
        let digits = decimal(n as nat);
        let plus = seq!['+'] + digits;
        let minus = seq!['-'] + digits;
        lemma_decimal_digits(n as nat);
        assert(plus.drop_first() =~= digits);
        assert(minus.drop_first() =~= digits);
        if n <= max {
            lemma_decimal_steps(n as nat, false, min, max);
        }
        if min <= -n {
            lemma_decimal_steps(n as nat, true, min, max);
        }
        lemma_steps_first(minus, false, min, max);
    }
    if s.len() > 0 && !is_digit(s[0]) {
        lemma_steps_first(s, false, min, max);
    }
    assert forall|c: char| !is_digit(c) && parsed_integer(s, min, max) is Ok implies #[trigger] parsed_integer(
    s.push(c), min, max) == Err::<int, IntegerError>(IntegerError::InvalidDigit) by {
        assert(s.push(c).drop_last() =~= s);
        assert(s.push(c).drop_first().drop_last() =~= s.drop_first());
        assert(s.push(c)[0] == s[0]);
    }
}

/// Where the first character is no digit, nothing behind it matters.
proof fn lemma_steps_first(s: Seq<char>, negative: bool, min: int, max: int)
    requires
        s.len() > 0,
        !is_digit(s[0]),
    ensures
        digit_steps(s, negative, min, max) == Err::<int, IntegerError>(IntegerError::InvalidDigit),
{
    reveal_with_fuel(digit_steps, 2);
    assert(s.take(1).drop_last() =~= Seq::<char>::empty());
    assert(s.take(1).last() == s[0]);
    lemma_steps_error(s, 1, negative, min, max);
}

/// A number that is too large or too small for what is wanted is refused as such.
pub proof fn numbers_out_of_range(n: int, min: int, max: int)
    requires
        min <= 0 <= max,
        n < min || max < n,
        n < 0 ==> min < 0,
    ensures
        parsed_integer(integer_text(n), min, max) == Err::<int, IntegerError>(
            if n < 0 {
                IntegerError::NegOverflow
            } else {
                IntegerError::PosOverflow
            },
        ),
{
    let m = if n < 0 {
        (-n) as nat
    } else {
        n as nat
    };
    lemma_decimal_digits(m);
    lemma_steps_overflow(m, n < 0, min, max);
    if n < 0 {
        assert(integer_text(n).drop_first() =~= decimal(m));
    } else {
        assert(is_digit(decimal(m)[0]));
    }
}

proof fn lemma_steps_overflow(n: nat, negative: bool, min: int, max: int)
    requires
        min <= 0 <= max,
        negative ==> -n < min,
        !negative ==> max < n,
    ensures
        digit_steps(decimal(n), negative, min, max) == Err::<int, IntegerError>(
            if negative {
                IntegerError::NegOverflow
            } else {
                IntegerError::PosOverflow
            },
        ),
    decreases n,
{
    reveal_with_fuel(digit_steps, 2);
    lemma_digit_char((n % 10) as int);
    if n >= 10 {
        assert(decimal(n).drop_last() =~= decimal(n / 10));
        let front = n / 10;
        if (negative && -front < min) || (!negative && max < front) {
            lemma_steps_overflow(front, negative, min, max);
        } else {
            lemma_decimal_steps(front, negative, min, max);
        }
    } else {
        assert(decimal(n).drop_last() =~= Seq::<char>::empty());
    }
}

fn digit_to_char(d: u8) -> (c: char)
    requires
        d < 10,
    ensures
        c == digit_char(d as int),
{
    match d {
        0 => '0',
        1 => '1',
        2 => '2',
        3 => '3',
        4 => '4',
        5 => '5',
        6 => '6',
        7 => '7',
        8 => '8',
        _ => '9',
    }
}

/// Writes a number that has no sign.
pub fn format_unsigned(n: u128) -> (r: String)
    ensures
        r@ == decimal(n as nat),
{
    let mut out = String::new();
    push_decimal(&mut out, n);
    assert(Seq::<char>::empty() + decimal(n as nat) =~= decimal(n as nat));
    out
}

/// Appends the decimal digits of a number.
fn push_decimal(out: &mut String, n: u128)
    ensures
        final(out)@ == old(out)@ + decimal(n as nat),
    decreases n,
{
    if n >= 10 {
        push_decimal(out, n / 10);
    }
    out.push(digit_to_char((n % 10) as u8));
    if n >= 10 {
        assert(out@ =~= old(out)@ + decimal(n as nat));
    } else {
        assert(out@ =~= old(out)@ + decimal(n as nat));
    }
}

/// Writes a number in decimal.
pub fn format_integer(n: i64) -> (r: String)
    ensures
        r@ == integer_text(n as int),
{
    let mut out = String::new();
    if n < 0 {
        out.push('-');
        // The magnitude of the least number does not fit its own type.
        let magnitude: u64 = if n == i64::MIN {
            0x8000_0000_0000_0000
        } else {
            (-n) as u64
        };
        push_decimal(&mut out, (magnitude) as u128);
        assert(out@ =~= integer_text(n as int));
    } else {
        push_decimal(&mut out, (n as u64) as u128);
        assert(out@ =~= integer_text(n as int));
    }
    out
}

/// Reads a number between `min` and `max` from a part of a text.
pub fn parse_integer(cs: &Vec<char>, from: usize, to: usize, min: i64, max: i64) -> (r: Result<
    i64,
    IntegerError,
>)
    requires
        from <= to <= cs.len(),
        min <= 0 <= max,
    ensures
        match r {
            Ok(n) => parsed_integer(cs@.subrange(from as int, to as int), min as int, max as int)
                == Ok::<int, IntegerError>(n as int) && min <= n <= max,
            Err(e) => parsed_integer(cs@.subrange(from as int, to as int), min as int, max as int)
                == Err::<int, IntegerError>(e),
        },
{
    let ghost s = cs@.subrange(from as int, to as int);
    if from == to {
        return Err(IntegerError::Empty);
    }
    let first = cs[from];
    assert(s[0] == first);
    if to - from == 1 && (first == '+' || first == '-') {
        return Err(IntegerError::InvalidDigit);
    }
    let negative = first == '-' && min < 0;
    let start: usize = if first == '+' || negative {
        from + 1
    } else {
        from
    };
    let ghost digits = cs@.subrange(start as int, to as int);
    proof {
        if start == from {
            assert(digits =~= s);
        } else {
            assert(digits =~= s.drop_first());
        }
        assert(digits.take(0) =~= Seq::<char>::empty());
    }
    let mut acc: i128 = 0;
    let mut i: usize = start;
    while i < to
        invariant
            from <= start <= i <= to <= cs.len(),
            min <= 0 <= max,
            digits == cs@.subrange(start as int, to as int),
            min <= acc <= max,
            negative ==> acc <= 0,
            !negative ==> acc >= 0,
            digit_steps(digits.take(i - start), negative, min as int, max as int) == Ok::<
                int,
                IntegerError,
            >(acc as int),
            digit_steps(digits, negative, min as int, max as int) == parsed_integer(
                cs@.subrange(from as int, to as int),
                min as int,
                max as int,
            ),
        decreases to - i,
    {
        let c = cs[i];
        let ghost done = digits.take(i - start + 1);
        proof {
            assert(done.drop_last() =~= digits.take(i - start));
            assert(done.last() == c);
            lemma_steps_error(digits, i - start + 1, negative, min as int, max as int);
        }
        if c < '0' || c > '9' {
            return Err(IntegerError::InvalidDigit);
        }
        let d: i128 = (c as u32 - '0' as u32) as i128;
        if negative {
            acc = acc * 10 - d;
            if acc < min as i128 {
                return Err(IntegerError::NegOverflow);
            }
        } else {
            acc = acc * 10 + d;
            if acc > max as i128 {
                return Err(IntegerError::PosOverflow);
            }
        }
        i = i + 1;
    }
    assert(digits.take(to - start) =~= digits);
    Ok(acc as i64)
}

/// An error in a prefix is the error of the whole.
proof fn lemma_steps_error(s: Seq<char>, n: int, negative: bool, min: int, max: int)
    requires
        0 <= n <= s.len(),
    ensures
        match digit_steps(s.take(n), negative, min, max) {
            Err(e) => digit_steps(s, negative, min, max) == Err::<int, IntegerError>(e),
            Ok(_) => true,
        },
    decreases s.len(),
{
    if n < s.len() {
        let front = s.drop_last();
        lemma_steps_error(front, n, negative, min, max);
        assert(front.take(n) =~= s.take(n));
    } else {
        assert(s.take(n) =~= s);
    }
}

} // verus!
