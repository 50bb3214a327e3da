//! Cadence-string parsing and next-occurrence computation.
//!
//! A cadence string is one of
//!
//! ```text
//! Day <HH:MM:SS>
//! Week <0-6> <HH:MM:SS>      (0 = Sunday)
//! Month <1-31> <HH:MM:SS>
//! ```
//!
//! with a case-insensitive leading keyword.  [`DateParser::parser`] splits
//! such a string into its parts; [`parser_next`] and [`parser_nextUtc`]
//! resolve the parts against the current time to the next instant at which
//! the cadence fires, and [`parser_timestamp`] / [`parser_timestampUtc`]
//! return that instant's Unix timestamp.

pub use crate::calendar::getMonthDay;
use crate::errors::{message_of, TError, TErrorKind, TResult};
use crate::occurrence::{
    bad_clock_msg, lemma_keywords_distinct, next_occurrence, next_post, NextDate,
};
use crate::wallclock::{now_local, now_utc, NowParts};
use vstd::prelude::*;

verus! {

/// Splitting a character sequence at every occurrence of `sep`, keeping
/// empty pieces, as `str::split` does: the result always has at least one
/// piece, and `sep` occurs in none of them.
pub open spec fn split_char(s: Seq<char>, sep: char) -> Seq<Seq<char>>
    decreases s.len(),
{
    if s.len() == 0 {
        seq![Seq::<char>::empty()]
    } else if s[0] == sep {
        seq![Seq::<char>::empty()] + split_char(s.drop_first(), sep)
    } else {
        let rest = split_char(s.drop_first(), sep);
        seq![seq![s[0]] + rest[0]] + rest.drop_first()
    }
}

pub proof fn lemma_split_char_len(s: Seq<char>, sep: char)
    ensures
        split_char(s, sep).len() >= 1,
    decreases s.len(),
{
    if s.len() != 0 {
        lemma_split_char_len(s.drop_first(), sep);
    }
}

/// The first piece of a split, extended at the front by `c`.
spec fn join_front(c: Seq<char>, parts: Seq<Seq<char>>) -> Seq<Seq<char>> {
    seq![c + parts[0]] + parts.drop_first()
}

/// Relies on std's `String::push`: appends exactly the one character.
#[verifier::external_body]
fn push_char(s: &mut String, c: char)
    ensures
        final(s)@ == old(s)@.push(c),
{
    s.push(c);
}

/// Splits `s` at every occurrence of `sep`, keeping empty pieces.
fn split_str(s: &str, sep: char) -> (r: Vec<String>)
    ensures
        r@.map_values(|t: String| t@) == split_char(s@, sep),
{
    let len = s.unicode_len();
    let mut done: Vec<String> = Vec::new();
    let mut cur: String = String::new();
    let mut i: usize = 0;
    proof {
        assert(s@.subrange(0, len as int) =~= s@);
        lemma_split_char_len(s@, sep);
        assert(done@.map_values(|t: String| t@) + join_front(cur@, split_char(s@, sep))
            =~= split_char(s@, sep)) by {
            assert(cur@ + split_char(s@, sep)[0] =~= split_char(s@, sep)[0]);
        }
    }
    while i < len
        invariant
            i <= len,
            len == s@.len(),
            split_char(s@, sep) == done@.map_values(|t: String| t@) + join_front(
                cur@,
                split_char(s@.subrange(i as int, len as int), sep),
            ),
        decreases len - i,
    {
        let ghost pre = s@.subrange(i as int, len as int);
        let ghost post = s@.subrange(i + 1, len as int);
        proof {
            assert(pre.drop_first() =~= post);
            lemma_split_char_len(post, sep);
        }
        let c = s.get_char(i);
        if c == sep {
            proof {
                let f = |t: String| t@;
                assert(join_front(cur@, split_char(pre, sep)) =~= seq![cur@] + join_front(
                    Seq::<char>::empty(),
                    split_char(post, sep),
                )) by {
                    assert(cur@ + Seq::<char>::empty() =~= cur@);
                    assert(Seq::<char>::empty() + split_char(post, sep)[0] =~= split_char(
                        post,
                        sep,
                    )[0]);
                }
                assert(done@.push(cur).map_values(f) =~= done@.map_values(f) + seq![cur@]);
            }
            done.push(cur);
            cur = String::new();
        } else {
            proof {
                assert(join_front(cur@, split_char(pre, sep)) =~= join_front(
                    cur@.push(c),
                    split_char(post, sep),
                )) by {
                    assert(cur@ + (seq![c] + split_char(post, sep)[0]) =~= cur@.push(c)
                        + split_char(post, sep)[0]);
                    assert((seq![seq![c] + split_char(post, sep)[0]] + split_char(
                        post,
                        sep,
                    ).drop_first()).drop_first() =~= split_char(post, sep).drop_first());
                }
            }
            push_char(&mut cur, c);
        }
        i = i + 1;
    }
    proof {
        assert(s@.subrange(len as int, len as int) =~= Seq::<char>::empty());
        assert(join_front(cur@, split_char(Seq::<char>::empty(), sep)) =~= seq![cur@]) by {
            assert(cur@ + Seq::<char>::empty() =~= cur@);
        }
        let f = |t: String| t@;
        assert(done@.push(cur).map_values(f) =~= done@.map_values(f) + seq![cur@]);
    }
    done.push(cur);
    done
}

/// ASCII lower-casing of one character; all others are kept.
pub open spec fn lower_char(c: char) -> char {
    if 65 <= c as u32 && c as u32 <= 90 {
        (((c as u32 + 32) as u8) as char)
    } else {
        c
    }
}

/// ASCII lower-casing of a character sequence.
pub open spec fn lower_seq(s: Seq<char>) -> Seq<char> {
    s.map_values(|c: char| lower_char(c))
}

/// Lower-cases the ASCII letters of `s`, keeping every other character.
fn to_lower(s: &str) -> (r: String)
    ensures
        r@ == lower_seq(s@),
{
    let len = s.unicode_len();
    let mut r = String::new();
    let mut i: usize = 0;
    while i < len
        invariant
            i <= len,
            len == s@.len(),
            r@ == lower_seq(s@.subrange(0, i as int)),
        decreases len - i,
    {
        let c = s.get_char(i);
        let u = c as u32;
        let c2 = if 65 <= u && u <= 90 {
            ((u + 32) as u8) as char
        } else {
            c
        };
        push_char(&mut r, c2);
        proof {
            assert(s@.subrange(0, i + 1).map_values(|x: char| lower_char(x)) =~= s@.subrange(
                0,
                i as int,
            ).map_values(|x: char| lower_char(x)).push(lower_char(s@[i as int])));
        }
        i = i + 1;
    }
    proof {
        assert(s@.subrange(0, len as int) =~= s@);
    }
    r
}

/// Compares two string slices character by character.
pub(crate) fn str_eq_str(a: &str, b: &str) -> (r: bool)
    ensures
        r == (a@ == b@),
{
    let alen = a.unicode_len();
    let blen = b.unicode_len();
    if alen != blen {
        return false;
    }
    let mut i: usize = 0;
    while i < alen
        invariant
            i <= alen,
            alen == a@.len(),
            alen == b@.len(),
            forall|j: int| 0 <= j < i ==> a@[j] == b@[j],
        decreases alen - i,
    {
        if a.get_char(i) != b.get_char(i) {
            return false;
        }
        i = i + 1;
    }
    proof {
        assert(a@ =~= b@);
    }
    true
}

pub open spec fn is_digit(c: char) -> bool {
    48 <= c as u32 <= 57
}

pub open spec fn digit_val(c: char) -> int {
    c as u32 - 48
}

pub open spec fn all_digits(s: Seq<char>) -> bool {
    forall|i: int| 0 <= i < s.len() ==> is_digit(#[trigger] s[i])
}

/// Value of a sequence of decimal digits, most significant first.
pub open spec fn digits_val(s: Seq<char>) -> int
    decreases s.len(),
{
    if s.len() == 0 {
        0
    } else {
        digits_val(s.drop_last()) * 10 + digit_val(s.last())
    }
}

/// Why a decimal string fails to denote an `i8`, with the same cases as
/// `str::parse::<i8>`.
#[derive(Debug, Clone, Copy, PartialEq, Eq, Structural)]
pub enum NumErr {
    /// The string is empty.
    Empty,
    /// A character is not a digit (or the string is only a sign).
    InvalidDigit,
    /// The value exceeds the largest `i8`.
    PosOverflow,
    /// The value falls below the smallest `i8`.
    NegOverflow,
}

/// The message `str::parse::<i8>`'s error displays for each failure.
pub open spec fn num_err_msg(e: NumErr) -> Seq<char> {
    match e {
        NumErr::Empty => "cannot parse integer from empty string"@,
        NumErr::InvalidDigit => "invalid digit found in string"@,
        NumErr::PosOverflow => "number too large to fit in target type"@,
        NumErr::NegOverflow => "number too small to fit in target type"@,
    }
}

/// Reading the digits of `ds` from position `i` with the value `acc`
/// accumulated so far, exactly as `str::parse::<i8>` does: the first
/// non-digit fails, and so does the first step that leaves the `i8` range.
pub open spec fn scan_i8(ds: Seq<char>, i: int, acc: int, neg: bool) -> Result<int, NumErr>
    decreases ds.len() - i,
{
    if i >= ds.len() {
        Ok(acc)
    } else if !is_digit(ds[i]) {
        Err(NumErr::InvalidDigit)
    } else {
        let a2 = if neg {
            acc * 10 - digit_val(ds[i])
        } else {
            acc * 10 + digit_val(ds[i])
        };
        if a2 < -128 {
            Err(NumErr::NegOverflow)
        } else if a2 > 127 {
            Err(NumErr::PosOverflow)
        } else {
            scan_i8(ds, i + 1, a2, neg)
        }
    }
}

/// A scan that starts within the `i8` range only succeeds within it.
pub proof fn lemma_scan_i8_range(ds: Seq<char>, i: int, acc: int, neg: bool)
    requires
        -128 <= acc <= 127,
    ensures
        scan_i8(ds, i, acc, neg) matches Ok(v) ==> -128 <= v <= 127,
    decreases ds.len() - i,
{
    if i < ds.len() && is_digit(ds[i]) {
        let a2 = if neg {
            acc * 10 - digit_val(ds[i])
        } else {
            acc * 10 + digit_val(ds[i])
        };
        if -128 <= a2 <= 127 {
            lemma_scan_i8_range(ds, i + 1, a2, neg);
        }
    }
}

/// The value a decimal string denotes as an `i8`, or the failure, exactly
/// as `str::parse::<i8>` reads it: an optional sign, then at least one
/// digit, no other characters, and a value within the `i8` range.
pub open spec fn parse_i8_result(s: Seq<char>) -> Result<int, NumErr> {
    if s.len() == 0 {
        Err(NumErr::Empty)
    } else {
        let ds: Seq<char> = if s[0] == '-' || s[0] == '+' {
            s.drop_first()
        } else {
            s
        };
        if ds.len() == 0 {
            Err(NumErr::InvalidDigit)
        } else {
            scan_i8(ds, 0, 0, s[0] == '-')
        }
    }
}

/// A successfully read decimal lies within the `i8` range.
pub proof fn lemma_parse_i8_range(s: Seq<char>)
    ensures
        parse_i8_result(s) matches Ok(v) ==> -128 <= v <= 127,
{
    if s.len() > 0 {
        let ds: Seq<char> = if s[0] == '-' || s[0] == '+' {
            s.drop_first()
        } else {
            s
        };
        if ds.len() > 0 {
            lemma_scan_i8_range(ds, 0, 0, s[0] == '-');
        }
    }
}

/// Reads a decimal `i8` from `s`, accepting exactly the strings that
/// `str::parse::<i8>` accepts and failing with the same error case.
fn parse_i8(s: &str) -> (r: Result<i8, NumErr>)
    ensures
        match parse_i8_result(s@) {
            Ok(v) => r == Ok::<i8, NumErr>(v as i8),
            Err(e) => r == Err::<i8, NumErr>(e),
        },
{
    let len = s.unicode_len();
    if len == 0 {
        return Err(NumErr::Empty);
    }
    let c0 = s.get_char(0);
    let neg = c0 == '-';
    let start: usize = if c0 == '-' || c0 == '+' {
        1
    } else {
        0
    };
    if start >= len {
        return Err(NumErr::InvalidDigit);
    }
    let ghost ds: Seq<char> = if start == 1 {
        s@.drop_first()
    } else {
        s@
    };
    proof {
        assert(ds =~= s@.subrange(start as int, len as int));
        assert(parse_i8_result(s@) == scan_i8(ds, 0, 0, neg));
    }
    let mut i: usize = start;
    let mut acc: i32 = 0;
    while i < len
        invariant
            start <= i <= len,
            len == s@.len(),
            ds == s@.subrange(start as int, len as int),
            -128 <= acc <= 127,
            parse_i8_result(s@) == scan_i8(ds, i - start, acc as int, neg),
        decreases len - i,
    {
        let c = s.get_char(i);
        let u = c as u32;
        if u < 48 || u > 57 {
            proof {
                assert(!is_digit(ds[i - start]));
                assert(scan_i8(ds, i - start, acc as int, neg) == Err::<int, NumErr>(
                    NumErr::InvalidDigit,
                ));
            }
            return Err(NumErr::InvalidDigit);
        }
        let d = (u - 48) as i32;
        let a2 = if neg {
            acc * 10 - d
        } else {
            acc * 10 + d
        };
        proof {
            assert(is_digit(ds[i - start]) && digit_val(ds[i - start]) == d);
        }
        if a2 < -128 {
            proof {
                assert(scan_i8(ds, i - start, acc as int, neg) == Err::<int, NumErr>(
                    NumErr::NegOverflow,
                ));
            }
            return Err(NumErr::NegOverflow);
        }
        if a2 > 127 {
            proof {
                assert(scan_i8(ds, i - start, acc as int, neg) == Err::<int, NumErr>(
                    NumErr::PosOverflow,
                ));
            }
            return Err(NumErr::PosOverflow);
        }
        proof {
            assert(scan_i8(ds, i - start, acc as int, neg) == scan_i8(
                ds,
                i + 1 - start,
                a2 as int,
                neg,
            ));
        }
        acc = a2;
        i = i + 1;
    }
    proof {
        assert(scan_i8(ds, len - start, acc as int, neg) == Ok::<int, NumErr>(acc as int));
    }
    Ok(acc as i8)
}

/// The message of a number-reading failure, as `str::parse` would show it.
fn num_err_string(e: NumErr) -> (r: String)
    ensures
        r@ == num_err_msg(e),
{
    match e {
        NumErr::Empty => String::from_str("cannot parse integer from empty string"),
        NumErr::InvalidDigit => String::from_str("invalid digit found in string"),
        NumErr::PosOverflow => String::from_str("number too large to fit in target type"),
        NumErr::NegOverflow => String::from_str("number too small to fit in target type"),
    }
}

/// A wall-clock time of day.
pub struct ClockTime {
    pub hour: u8,
    pub minute: u8,
    pub second: u8,
}

impl ClockTime {
    pub open spec fn wf(self) -> bool {
        self.hour < 24 && self.minute < 60 && self.second < 60
    }
}

/// One field of a clock string: one or two decimal digits.
pub open spec fn is_clock_field(f: Seq<char>) -> bool {
    1 <= f.len() <= 2 && all_digits(f)
}

/// The time of day an `HH:MM:SS` string denotes: three colon-separated
/// fields of one or two digits, in range; `None` otherwise.
pub open spec fn clock_spec(s: Seq<char>) -> Option<(int, int, int)> {
    let fs = split_char(s, ':');
    if fs.len() == 3 && is_clock_field(fs[0]) && is_clock_field(fs[1]) && is_clock_field(fs[2])
        && digits_val(fs[0]) < 24 && digits_val(fs[1]) < 60 && digits_val(fs[2]) < 60 {
        Some((digits_val(fs[0]), digits_val(fs[1]), digits_val(fs[2])))
    } else {
        None
    }
}

/// Reads one clock field (one or two digits, at most `limit`).
fn parse_clock_field(f: &String, limit: u8) -> (r: Option<u8>)
    ensures
        match r {
            Some(v) => is_clock_field(f@) && digits_val(f@) == v && v < limit,
            None => !(is_clock_field(f@) && digits_val(f@) < limit),
        },
{
    let len = f.as_str().unicode_len();
    if len < 1 || len > 2 {
        return None;
    }
    let c0 = f.as_str().get_char(0);
    let u0 = c0 as u32;
    if u0 < 48 || u0 > 57 {
        return None;
    }
    let mut v: u8 = (u0 - 48) as u8;
    proof {
        assert(digits_val(Seq::<char>::empty()) == 0);
        assert(f@.subrange(0, 1).drop_last() =~= Seq::<char>::empty());
        assert(f@.subrange(0, 1).last() == f@[0]);
        assert(digits_val(f@.subrange(0, 1)) == digit_val(f@[0]));
    }
    if len == 2 {
        let c1 = f.as_str().get_char(1);
        let u1 = c1 as u32;
        if u1 < 48 || u1 > 57 {
            return None;
        }
        v = v * 10 + (u1 - 48) as u8;
        proof {
            assert(f@.subrange(0, 2).drop_last() =~= f@.subrange(0, 1));
            assert(f@.subrange(0, 2).last() == f@[1]);
            assert(digits_val(f@.subrange(0, 2)) == digits_val(f@.subrange(0, 1)) * 10
                + digit_val(f@[1]));
            assert(f@.subrange(0, 2) =~= f@);
        }
    } else {
        proof {
            assert(f@.subrange(0, 1) =~= f@);
        }
    }
    if v < limit {
        Some(v)
    } else {
        None
    }
}

/// Reads an `HH:MM:SS` time-of-day string.
pub fn parse_clock(s: &str) -> (r: Option<ClockTime>)
    ensures
        match clock_spec(s@) {
            Some(c) => r matches Some(t) && t.hour == c.0 && t.minute == c.1 && t.second == c.2
                && t.wf(),
            None => r is None,
        },
{
    let fields = split_str(s, ':');
    if fields.len() != 3 {
        return None;
    }
    let h = match parse_clock_field(&fields[0], 24) {
        Some(v) => v,
        None => {
            return None;
        },
    };
    let mi = match parse_clock_field(&fields[1], 60) {
        Some(v) => v,
        None => {
            return None;
        },
    };
    let se = match parse_clock_field(&fields[2], 60) {
        Some(v) => v,
        None => {
            return None;
        },
    };
    Some(ClockTime { hour: h, minute: mi, second: se })
}

/// The parts of a cadence string: the lower-cased leading keyword, the
/// clock string, and — for weekly and monthly cadences — the day number.
pub struct DateParser {
    pub action: String,
    pub clock: String,
    pub day_time: i8,
}

/// Everything `DateParser::parser` does, as a relation between the parser
/// before the call (`pre`), the input, the parser after the call (`post`)
/// and the returned result.  The lower-cased first token must name a
/// cadence kind, `day` demands exactly two whitespace-separated tokens
/// (the keyword and the clock), `week` and `month` demand at least three
/// (keyword, day number, clock); any other shape is a format error, a day
/// token that is not a small integer surfaces the conversion failure, and
/// every failure leaves the parser exactly as it was.
pub open spec fn parser_post(
    pre: DateParser,
    s: Seq<char>,
    post: DateParser,
    r: TResult<()>,
) -> bool {
    let toks = split_char(s, ' ');
    let act = lower_seq(toks[0]);
    if toks.len() == 2 && act == "day"@ {
        &&& r is Ok
        &&& post.action@ == act
        &&& post.clock@ == toks[1]
        &&& post.day_time == pre.day_time
    } else if toks.len() >= 3 && (act == "week"@ || act == "month"@) {
        match parse_i8_result(toks[1]) {
            Ok(v) => {
                &&& r is Ok
                &&& post.action@ == act
                &&& post.clock@ == toks[2]
                &&& post.day_time == v
            },
            Err(e) => {
                &&& post == pre
                &&& r matches Err(te) && te.kind matches TErrorKind::Other(m) && m@
                    == num_err_msg(e) && te.error@ == num_err_msg(e)
            },
        }
    } else {
        &&& post == pre
        &&& r matches Err(e) && e.kind is BadFormat && e.error@ == message_of(
            TErrorKind::BadFormat,
        )
    }
}

impl DateParser {
    /// A parser with no parts yet: empty action and clock, day number 0.
    pub fn new() -> (r: DateParser)
        ensures
            r.action@ == Seq::<char>::empty(),
            r.clock@ == Seq::<char>::empty(),
            r.day_time == 0,
    {
        DateParser { action: String::new(), clock: String::new(), day_time: 0 }
    }

    /// Splits a cadence string into its parts, as [`parser_post`] states:
    /// a malformed string is rejected here, with the parser unchanged,
    /// never stored in part.
    pub fn parser(&mut self, date_format: &str) -> (r: TResult<()>)
        ensures
            parser_post(*old(self), date_format@, *final(self), r),
    {
        let toks = split_str(date_format, ' ');
        proof {
            lemma_split_char_len(date_format@, ' ');
            lemma_keywords_distinct();
        }
        if toks.len() < 2 {
            return Err(TError::new(TErrorKind::BadFormat));
        }
        let act = to_lower(toks[0].as_str());
        if str_eq_str(act.as_str(), "day") {
            if toks.len() != 2 {
                return Err(TError::new(TErrorKind::BadFormat));
            }
            self.action = act;
            self.clock = toks[1].clone();
            Ok(())
        } else if str_eq_str(act.as_str(), "week") || str_eq_str(act.as_str(), "month") {
            if toks.len() < 3 {
                return Err(TError::new(TErrorKind::BadFormat));
            }
            match parse_i8(toks[1].as_str()) {
                Ok(v) => {
                    proof {
                        lemma_parse_i8_range(toks@[1]@);
                    }
                    self.action = act;
                    self.clock = toks[2].clone();
                    self.day_time = v;
                    Ok(())
                },
                Err(e) => Err(TError::new(TErrorKind::Other(num_err_string(e)))),
            }
        } else {
            Err(TError::new(TErrorKind::BadFormat))
        }
    }
}

/// Two runs of the parser on the same input, from parsers in the same
/// state, end in observably equal states with matching results: parsing is
/// deterministic, so parsing a cadence string twice yields structurally
/// equal parts.
pub proof fn lemma_parser_deterministic(
    pre: DateParser,
    s: Seq<char>,
    post1: DateParser,
    r1: TResult<()>,
    post2: DateParser,
    r2: TResult<()>,
)
    requires
        parser_post(pre, s, post1, r1),
        parser_post(pre, s, post2, r2),
    ensures
        post1.action@ == post2.action@,
        post1.clock@ == post2.clock@,
        post1.day_time == post2.day_time,
        r1 is Ok <==> r2 is Ok,
        (r1 is Err && r2 is Err) ==> ((r1->Err_0.kind is BadFormat <==> r2->Err_0.kind
            is BadFormat) && r1->Err_0.error@ == r2->Err_0.error@),
{
}

/// What a cadence string asks for, read from the string alone.
pub enum Cadence {
    /// The wrong number of tokens for its keyword, or no known keyword.
    Malformed,
    /// A weekly or monthly cadence whose day token is not a small integer.
    BadNumber(NumErr),
    Daily { clock: Seq<char> },
    Weekly { clock: Seq<char>, weekday: int },
    Monthly { clock: Seq<char>, day: int },
}

/// Reading a cadence string from a fresh parser: the structure
/// [`DateParser::parser`] finds, before the clock string and the ranges are
/// checked.
pub open spec fn cadence_of(s: Seq<char>) -> Cadence {
    let toks = split_char(s, ' ');
    let act = lower_seq(toks[0]);
    if toks.len() == 2 && act == "day"@ {
        Cadence::Daily { clock: toks[1] }
    } else if toks.len() >= 3 && (act == "week"@ || act == "month"@) {
        match parse_i8_result(toks[1]) {
            Err(e) => Cadence::BadNumber(e),
            Ok(v) => {
                if act == "week"@ {
                    Cadence::Weekly { clock: toks[2], weekday: v }
                } else {
                    Cadence::Monthly { clock: toks[2], day: v }
                }
            },
        }
    } else {
        Cadence::Malformed
    }
}

/// The exact relation between a cadence string and what resolving it
/// against some snapshot returns.  Malformed input fails the same way at
/// every snapshot; a daily or weekly cadence succeeds exactly when its
/// parts are valid; a monthly cadence may also overflow the month the
/// snapshot resolves it to, which for a day of at most 28 never happens.
pub open spec fn parser_result_post(s: Seq<char>, r: TResult<NextDate>) -> bool {
    match cadence_of(s) {
        Cadence::Malformed => r matches Err(e) && e.kind is BadFormat && e.error@ == message_of(
            TErrorKind::BadFormat,
        ),
        Cadence::BadNumber(ne) => r matches Err(e) && e.kind matches TErrorKind::Other(m) && m@
            == num_err_msg(ne) && e.error@ == num_err_msg(ne),
        Cadence::Daily { clock } => match clock_spec(clock) {
            None => r matches Err(e) && e.kind matches TErrorKind::Other(m) && m@
                == bad_clock_msg() && e.error@ == bad_clock_msg(),
            Some(c) => r matches Ok(n) && n.wf() && n.hour == c.0 && n.minute == c.1 && n.second
                == c.2,
        },
        Cadence::Weekly { clock, weekday } => match clock_spec(clock) {
            None => r matches Err(e) && e.kind matches TErrorKind::Other(m) && m@
                == bad_clock_msg() && e.error@ == bad_clock_msg(),
            Some(c) => {
                if !(0 <= weekday <= 6) {
                    r matches Err(e) && e.kind is WeekDay && e.error@ == message_of(
                        TErrorKind::WeekDay,
                    )
                } else {
                    r matches Ok(n) && n.wf() && n.hour == c.0 && n.minute == c.1 && n.second
                        == c.2 && n.weekday == weekday
                }
            },
        },
        Cadence::Monthly { clock, day } => {
            if day < 1 || day > 31 {
                r matches Err(e) && e.kind is DateOverflow && e.error@ == message_of(
                    TErrorKind::DateOverflow,
                )
            } else {
                match clock_spec(clock) {
                    None => {
                        &&& r matches Err(e) && (e.kind is DateOverflow || (e.kind
                            matches TErrorKind::Other(m) && m@ == bad_clock_msg()))
                        &&& day <= 28 ==> (r matches Err(e) && e.kind matches TErrorKind::Other(m)
                            && m@ == bad_clock_msg() && e.error@ == bad_clock_msg())
                    },
                    Some(c) => {
                        &&& (r matches Ok(n) ==> n.wf() && n.day == day && n.hour == c.0
                            && n.minute == c.1 && n.second == c.2)
                        &&& (r matches Err(e) ==> e.kind is DateOverflow && e.error@ == message_of(
                            TErrorKind::DateOverflow,
                        ))
                        &&& day <= 28 ==> r is Ok
                    },
                }
            }
        },
    }
}

/// Composes the parser's postcondition with the resolver's: running the
/// resolver on what a fresh parser read from `s` meets
/// [`parser_result_post`].
proof fn lemma_cadence_compose(
    pre: DateParser,
    s: Seq<char>,
    p: DateParser,
    now: NowParts,
    r: TResult<NextDate>,
)
    requires
        pre.action@ == Seq::<char>::empty(),
        pre.clock@ == Seq::<char>::empty(),
        pre.day_time == 0,
        parser_post(pre, s, p, Ok(())),
        now.wf(),
        next_post(p, now, r),
        r matches Ok(n) ==> n.timestamp > now.timestamp,
        p.action@ == "week"@ ==> (r matches Ok(n) ==> n.weekday as int == p.day_time as int),
        p.action@ == "month"@ ==> (r matches Ok(n) ==> n.day as int == p.day_time as int),
    ensures
        parser_result_post(s, r),
{
    lemma_keywords_distinct();
    let toks = split_char(s, ' ');
    if toks.len() >= 2 {
        let act = lower_seq(toks[0]);
        if act == "day"@ || act == "week"@ || act == "month"@ {
            if toks.len() >= 3 || act == "day"@ {
                assert(1 <= now.month <= 12);
                assert(days_in_month_of_at_least_28(now)) by {
                    assert(28 <= crate::calendar::days_in_month_of(
                        now.year as int,
                        now.month as int,
                    ) <= 31);
                }
            }
        }
    }
}

/// Every month has between 28 and 31 days.
spec fn days_in_month_of_at_least_28(now: NowParts) -> bool {
    28 <= crate::calendar::days_in_month_of(now.year as int, now.month as int) <= 31
}

/// A failed parse from a fresh parser meets [`parser_result_post`] with the
/// parser's own error, whatever snapshot would have followed.
proof fn lemma_cadence_compose_err(pre: DateParser, s: Seq<char>, p: DateParser, e: TError)
    requires
        pre.action@ == Seq::<char>::empty(),
        pre.clock@ == Seq::<char>::empty(),
        pre.day_time == 0,
        parser_post(pre, s, p, Err(e)),
    ensures
        parser_result_post(s, Err(e)),
{
    lemma_keywords_distinct();
}

/// The timestamp of a resolved occurrence, with its error passed through.
pub open spec fn timestamp_of(r: TResult<NextDate>) -> TResult<i64> {
    match r {
        Ok(n) => Ok(n.timestamp),
        Err(e) => Err(e),
    }
}

/// Resolves a cadence string against the current local time: the next
/// instant, strictly in the future, at which the cadence fires on the
/// machine's wall clock.
#[allow(non_snake_case)]
pub fn parser_next(timeStr: &str) -> (r: TResult<NextDate>)
    ensures
        parser_result_post(timeStr@, r),
{
    let mut date_pv = DateParser::new();
    let ghost pre = date_pv;
    let pr = date_pv.parser(timeStr);
    match pr {
        Err(e) => {
            proof {
                lemma_cadence_compose_err(pre, timeStr@, date_pv, e);
            }
            Err(e)
        },
        Ok(_) => {
            let now = now_local();
            let r = next_occurrence(&date_pv, &now);
            proof {
                lemma_cadence_compose(pre, timeStr@, date_pv, now, r);
            }
            r
        },
    }
}

/// Resolves a cadence string against the current UTC time.
#[allow(non_snake_case)]
pub fn parser_nextUtc(timeStr: &str) -> (r: TResult<NextDate>)
    ensures
        parser_result_post(timeStr@, r),
        r matches Ok(n) ==> n.offset == 0,
{
    let mut date_pv = DateParser::new();
    let ghost pre = date_pv;
    let pr = date_pv.parser(timeStr);
    match pr {
        Err(e) => {
            proof {
                lemma_cadence_compose_err(pre, timeStr@, date_pv, e);
            }
            Err(e)
        },
        Ok(_) => {
            let now = now_utc();
            let r = next_occurrence(&date_pv, &now);
            proof {
                lemma_cadence_compose(pre, timeStr@, date_pv, now, r);
            }
            r
        },
    }
}

/// Resolves a cadence string against the current local time and returns
/// the Unix timestamp of the next firing.
#[allow(non_snake_case)]
pub fn parser_timestamp(timeStr: &str) -> (r: TResult<i64>)
    ensures
        exists|rn: TResult<NextDate>|
            #[trigger] parser_result_post(timeStr@, rn) && r == timestamp_of(rn),
{
    let rn = parser_next(timeStr);
    let ghost grn = rn;
    match rn {
        Ok(n) => {
            proof {
                assert(parser_result_post(timeStr@, grn) && timestamp_of(grn) == Ok::<
                    i64,
                    TError,
                >(n.timestamp));
            }
            Ok(n.timestamp)
        },
        Err(e) => {
            proof {
                assert(parser_result_post(timeStr@, grn) && timestamp_of(grn) == Err::<
                    i64,
                    TError,
                >(e));
            }
            Err(e)
        },
    }
}

/// Resolves a cadence string against the current UTC time and returns the
/// Unix timestamp of the next firing.
#[allow(non_snake_case)]
pub fn parser_timestampUtc(timeStr: &str) -> (r: TResult<i64>)
    ensures
        exists|rn: TResult<NextDate>|
            #[trigger] parser_result_post(timeStr@, rn) && r == timestamp_of(rn),
{
    let rn = parser_nextUtc(timeStr);
    let ghost grn = rn;
    match rn {
        Ok(n) => {
            proof {
                assert(parser_result_post(timeStr@, grn) && timestamp_of(grn) == Ok::<
                    i64,
                    TError,
                >(n.timestamp));
            }
            Ok(n.timestamp)
        },
        Err(e) => {
            proof {
                assert(parser_result_post(timeStr@, grn) && timestamp_of(grn) == Err::<
                    i64,
                    TError,
                >(e));
            }
            Err(e)
        },
    }
}

} // verus!
