use vstd::prelude::*;

use crate::error::DataGenError;

verus! {

/// The separators between the hour and the minute field.
pub open spec fn is_separator(c: char) -> bool {
    c == ':' || c == '.'
}

pub open spec fn is_digit(c: char) -> bool {
    48 <= (c as u32) && (c as u32) <= 57
}

pub open spec fn digit_value(c: char) -> int {
    (c as u32) - 48
}

/// A character that may stand in a time argument.
pub open spec fn is_time_char(c: char) -> bool {
    is_digit(c) || is_separator(c)
}

/// The number written by the digits of `t`, read in decimal; other characters are skipped.
pub open spec fn digits_value(t: Seq<char>) -> nat
    decreases t.len(),
{
    if t.len() == 0 {
        0
    } else if is_digit(t.last()) {
        (10 * digits_value(t.drop_last()) + digit_value(t.last())) as nat
    } else {
        digits_value(t.drop_last())
    }
}

/// The index of the first separator of `s`, or its length if it has none.
pub open spec fn first_separator(s: Seq<char>) -> nat
    decreases s.len(),
{
    if s.len() == 0 {
        0
    } else if is_separator(s[0]) {
        0
    } else {
        1 + first_separator(s.drop_first())
    }
}

/// The hour field: the digits before the first separator.
pub open spec fn hour_of(s: Seq<char>) -> nat {
    digits_value(s.take(first_separator(s) as int))
}

/// The minute field: all digits after the first separator (zero without one).
pub open spec fn minute_of(s: Seq<char>) -> nat {
    digits_value(s.skip(first_separator(s) as int))
}

/// `k` is the position of the first character of `s` that may not stand in a time.
pub open spec fn first_invalid_at(s: Seq<char>, k: int) -> bool {
    &&& 0 <= k < s.len()
    &&& !is_time_char(s[k])
    &&& forall|j: int| 0 <= j < k ==> is_time_char(#[trigger] s[j])
}

pub open spec fn all_time_chars(s: Seq<char>) -> bool {
    forall|j: int| 0 <= j < s.len() ==> is_time_char(#[trigger] s[j])
}

/// The text is a well-formed time of day.
pub open spec fn time_ok(s: Seq<char>) -> bool {
    all_time_chars(s) && hour_of(s) <= 23 && minute_of(s) <= 59
}

/// The minutes since midnight that a well-formed time stands for.
pub open spec fn minute_of_day(s: Seq<char>) -> nat {
    hour_of(s) * 60 + minute_of(s)
}

/// `e` is the error that parsing the text `s` reports: a bad character first,
/// then an hour above 23, then a minute above 59.
pub open spec fn time_error(s: Seq<char>, e: DataGenError) -> bool {
    if !all_time_chars(s) {
        match e {
            DataGenError::InvalidCharacter { character, param } => param@ == s && exists|k: int|
                first_invalid_at(s, k) && s[k] == character,
            _ => false,
        }
    } else if hour_of(s) > 23 {
        match e {
            DataGenError::HourOutOfRange { param } => param@ == s,
            _ => false,
        }
    } else if minute_of(s) > 59 {
        match e {
            DataGenError::MinuteOutOfRange { param } => param@ == s,
            _ => false,
        }
    } else {
        false
    }
}

/// The outcome of parsing `s`: its minute of day, or the error that it gives.
pub open spec fn parses_to(s: Seq<char>, r: Result<u32, DataGenError>) -> bool {
    match r {
        Ok(v) => time_ok(s) && v == minute_of_day(s),
        Err(e) => !time_ok(s) && time_error(s, e),
    }
}

/// Running fields are held capped at this value, which lies above every accepted field.
const FIELD_CAP: u32 = 100;

spec fn capped(v: nat) -> nat {
    if v < FIELD_CAP { v } else { FIELD_CAP as nat }
}

proof fn lemma_digits_value_push(t: Seq<char>, c: char)
    ensures
        digits_value(t.push(c)) == if is_digit(c) {
            10 * digits_value(t) + digit_value(c)
        } else {
            digits_value(t) as int
        },
{
    assert(t.push(c).drop_last() =~= t);
}

proof fn lemma_first_separator(s: Seq<char>, p: int)
    requires
        0 <= p <= s.len(),
        forall|j: int| 0 <= j < p ==> !is_separator(#[trigger] s[j]),
        p == s.len() || is_separator(s[p]),
    ensures
        first_separator(s) == p,
    decreases p,
{
    if p > 0 {
        let t = s.drop_first();
        assert forall|j: int| 0 <= j < p - 1 implies !is_separator(#[trigger] t[j]) by {
            assert(t[j] == s[j + 1]);
        }
        lemma_first_separator(t, p - 1);
    }
}

proof fn lemma_digits_value_skip_front(c: char, t: Seq<char>)
    requires
        !is_digit(c),
    ensures
        digits_value(seq![c] + t) == digits_value(t),
    decreases t.len(),
{
    if t.len() == 0 {
        lemma_digits_value_push(Seq::<char>::empty(), c);
        assert(seq![c] + t =~= Seq::<char>::empty().push(c));
    } else {
        lemma_digits_value_skip_front(c, t.drop_last());
        lemma_digits_value_push(seq![c] + t.drop_last(), t.last());
        lemma_digits_value_push(t.drop_last(), t.last());
        assert(seq![c] + t =~= (seq![c] + t.drop_last()).push(t.last()));
        assert(t =~= t.drop_last().push(t.last()));
    }
}

pub open spec fn all_digits(t: Seq<char>) -> bool {
    forall|j: int| 0 <= j < t.len() ==> is_digit(#[trigger] t[j])
}

/// The fields of `hs`, a separator and `ms` are `hs` and `ms`.
proof fn lemma_fields(hs: Seq<char>, sep: char, ms: Seq<char>)
    requires
        all_digits(hs),
        all_digits(ms),
        is_separator(sep),
    ensures
        all_time_chars(hs + seq![sep] + ms),
        hour_of(hs + seq![sep] + ms) == digits_value(hs),
        minute_of(hs + seq![sep] + ms) == digits_value(ms),
{
    let s = hs + seq![sep] + ms;
    let p = hs.len() as int;
    assert forall|j: int| 0 <= j < s.len() implies is_time_char(#[trigger] s[j]) by {
        if j < p {
            assert(s[j] == hs[j]);
        } else if j > p {
            assert(s[j] == ms[j - p - 1]);
        }
    }
    assert forall|j: int| 0 <= j < p implies !is_separator(#[trigger] s[j]) by {
        assert(s[j] == hs[j]);
    }
    lemma_first_separator(s, p);
    assert(s.take(p) =~= hs);
    assert(s.skip(p) =~= seq![sep] + ms);
    lemma_digits_value_skip_front(sep, ms);
}

/// A text of digits alone is all hour field.
proof fn lemma_fields_hour_only(hs: Seq<char>)
    requires
        all_digits(hs),
    ensures
        all_time_chars(hs),
        hour_of(hs) == digits_value(hs),
        minute_of(hs) == 0,
{
    let p = hs.len() as int;
    assert forall|j: int| 0 <= j < p implies !is_separator(#[trigger] hs[j]) by {
        assert(is_digit(hs[j]));
    }
    lemma_first_separator(hs, p);
    assert(hs.take(p) =~= hs);
    assert(hs.skip(p) =~= Seq::<char>::empty());
}

/// An hour of at most 23 and a minute of at most 59, written in digits and joined
/// by `:` or `.` (or the hour alone, the minute then being zero), parse to
/// hour × 60 + minute.
pub proof fn lemma_valid_time_parses(hs: Seq<char>, sep: char, ms: Seq<char>)
    requires
        all_digits(hs),
        all_digits(ms),
        is_separator(sep),
        digits_value(hs) <= 23,
        digits_value(ms) <= 59,
    ensures
        forall|r: Result<u32, DataGenError>|
            parses_to(hs + seq![sep] + ms, r) ==> r == Ok::<u32, DataGenError>(
                (digits_value(hs) * 60 + digits_value(ms)) as u32,
            ),
        forall|r: Result<u32, DataGenError>|
            parses_to(hs, r) ==> r == Ok::<u32, DataGenError>((digits_value(hs) * 60) as u32),
{
    lemma_fields(hs, sep, ms);
    lemma_fields_hour_only(hs);
}

/// A time whose hour is above 23 fails with `HourOutOfRange`; one whose hour is
/// in range but whose minute is above 59 fails with `MinuteOutOfRange`.
pub proof fn lemma_out_of_range_time(hs: Seq<char>, sep: char, ms: Seq<char>)
    requires
        all_digits(hs),
        all_digits(ms),
        is_separator(sep),
    ensures
        digits_value(hs) > 23 ==> forall|r: Result<u32, DataGenError>|
            parses_to(hs + seq![sep] + ms, r) ==> r is Err && r->Err_0 is HourOutOfRange,
        digits_value(hs) > 23 ==> forall|r: Result<u32, DataGenError>|
            parses_to(hs, r) ==> r is Err && r->Err_0 is HourOutOfRange,
        digits_value(hs) <= 23 && digits_value(ms) > 59 ==> forall|
            r: Result<u32, DataGenError>,
        |
            parses_to(hs + seq![sep] + ms, r) ==> r is Err && r->Err_0 is MinuteOutOfRange,
{
    lemma_fields(hs, sep, ms);
    lemma_fields_hour_only(hs);
}

/// A text holding a character that is neither a digit nor a separator fails with
/// `InvalidCharacter`.
pub proof fn lemma_invalid_character(s: Seq<char>, k: int)
    requires
        0 <= k < s.len(),
        !is_time_char(s[k]),
    ensures
        forall|r: Result<u32, DataGenError>|
            parses_to(s, r) ==> r is Err && r->Err_0 is InvalidCharacter,
{
}

/// Converts a time argument such as `9:00`, `17.30` or `8` into minutes since midnight.
pub fn parse_time(s: &str) -> (r: Result<u32, DataGenError>)
    ensures
        parses_to(s@, r),
{
    let n = s.unicode_len();
    let ghost t = s@;
    let ghost mut p: int = 0;
    let mut h: u32 = 0;
    let mut m: u32 = 0;
    let mut hrs = true;
    let mut i: usize = 0;
    while i < n
        invariant
            n == t.len(),
            t == s@,
            0 <= i <= n,
            forall|j: int| 0 <= j < i ==> is_time_char(#[trigger] t[j]),
            hrs ==> forall|j: int| 0 <= j < i ==> !is_separator(#[trigger] t[j]),
            hrs ==> h == capped(digits_value(t.take(i as int))) && m == 0,
            !hrs ==> 0 <= p < i && is_separator(t[p]),
            !hrs ==> forall|j: int| 0 <= j < p ==> !is_separator(#[trigger] t[j]),
            !hrs ==> h == capped(digits_value(t.take(p))),
            !hrs ==> m == capped(digits_value(t.subrange(p, i as int))),
        decreases n - i,
    {
        let c = s.get_char(i);
        let code = c as u32;
        proof {
            assert(t.take(i + 1) =~= t.take(i as int).push(c));
            lemma_digits_value_push(t.take(i as int), c);
            if !hrs {
                assert(t.subrange(p, i + 1) =~= t.subrange(p, i as int).push(c));
                lemma_digits_value_push(t.subrange(p, i as int), c);
            }
        }
        if c == ':' || c == '.' {
            if hrs {
                proof {
                    p = i as int;
                    assert(t.subrange(p, i + 1) =~= Seq::<char>::empty().push(c));
                    lemma_digits_value_push(Seq::<char>::empty(), c);
                }
            }
            hrs = false;
        } else if 48 <= code && code <= 57 {
            let d = code - 48;
            if hrs {
                if h < FIELD_CAP {
                    h = h * 10 + d;
                    if h > FIELD_CAP {
                        h = FIELD_CAP;
                    }
                }
            } else {
                if m < FIELD_CAP {
                    m = m * 10 + d;
                    if m > FIELD_CAP {
                        m = FIELD_CAP;
                    }
                }
            }
        } else {
            assert(first_invalid_at(t, i as int));
            return Err(DataGenError::InvalidCharacter { character: c, param: String::from_str(s) });
        }
        i = i + 1;
    }
    proof {
        if hrs {
            lemma_first_separator(t, n as int);
            assert(t.take(n as int) =~= t);
            assert(t.skip(n as int) =~= Seq::<char>::empty());
        } else {
            lemma_first_separator(t, p);
            assert(t.subrange(p, n as int) =~= t.skip(p));
        }
    }
    if h > 23 {
        return Err(DataGenError::HourOutOfRange { param: String::from_str(s) });
    }
    if m > 59 {
        return Err(DataGenError::MinuteOutOfRange { param: String::from_str(s) });
    }
    Ok(h * 60 + m)
}

} // verus!
