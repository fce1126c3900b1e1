//! Parser for the ISO-8601 duration subset `P[nY][nM][nD][T[nH][nM][nS]]`,
//! producing a calendar-aware [`RelDuration`].
//!
//! Each component is an optionally signed decimal integer followed by its
//! marker letter. Years and months fold into the month-granular component;
//! days, hours, minutes and seconds fold into the second-granular one.

use vstd::prelude::*;
use vstd::string::StrSliceExecFns;

use crate::time::RelDuration;

verus! {

/// Error type for duration parsing.
#[derive(Debug)]
pub enum Error {
    /// The input did not match the grammar, or a component was out of range
    Parse(String),
}

/// True for an ASCII decimal digit.
pub open spec fn spec_is_digit(c: char) -> bool {
    48 <= (c as u32) <= 57
}

/// Numeric value of a digit sequence, most significant digit first.
pub open spec fn spec_digits_value(s: Seq<char>) -> int
    decreases s.len(),
{
    if s.len() == 0 {
        0
    } else {
        spec_digits_value(s.drop_last()) * 10 + ((s.last() as u32) - 48)
    }
}

/// True when `s` is what `str::parse::<i32>` accepts: an optional sign
/// followed by at least one digit, and nothing else.
pub open spec fn spec_is_int_literal(s: Seq<char>) -> bool {
    &&& s.len() >= 1
    &&& (spec_is_digit(s[0]) || ((s[0] == '-' || s[0] == '+') && s.len() >= 2))
    &&& forall|i: int| 1 <= i < s.len() ==> spec_is_digit(#[trigger] s[i])
}

/// The integer a literal denotes.
pub open spec fn spec_int_value(s: Seq<char>) -> int {
    if s.len() > 0 && s[0] == '-' {
        -spec_digits_value(s.subrange(1, s.len() as int))
    } else if s.len() > 0 && s[0] == '+' {
        spec_digits_value(s.subrange(1, s.len() as int))
    } else {
        spec_digits_value(s)
    }
}

/// True when the literal's value fits in an `i32`.
pub open spec fn spec_in_i32(s: Seq<char>) -> bool {
    i32::MIN <= spec_int_value(s) <= i32::MAX
}

/// A digit sequence denotes a non-negative value.
proof fn lemma_digits_nonneg(s: Seq<char>)
    requires
        forall|i: int| 0 <= i < s.len() ==> spec_is_digit(#[trigger] s[i]),
    ensures
        spec_digits_value(s) >= 0,
    decreases s.len(),
{
    if s.len() > 0 {
        lemma_digits_nonneg(s.drop_last());
        let v = spec_digits_value(s.drop_last());
        assert(spec_digits_value(s) >= v) by (nonlinear_arith)
            requires
                v >= 0,
                spec_digits_value(s) == v * 10 + ((s.last() as u32) - 48),
                48 <= (s.last() as u32) <= 57,
        {}
    }
}

/// A prefix of a digit sequence denotes at most what the whole denotes.
proof fn lemma_digits_prefix_le(s: Seq<char>, n: int)
    requires
        forall|i: int| 0 <= i < s.len() ==> spec_is_digit(#[trigger] s[i]),
        0 <= n <= s.len(),
    ensures
        spec_digits_value(s.take(n)) <= spec_digits_value(s),
    decreases s.len(),
{
    if n < s.len() {
        assert(s.drop_last().take(n) =~= s.take(n));
        lemma_digits_prefix_le(s.drop_last(), n);
        lemma_digits_nonneg(s.drop_last());
        let v = spec_digits_value(s.drop_last());
        assert(spec_digits_value(s) >= v) by (nonlinear_arith)
            requires
                v >= 0,
                spec_digits_value(s) == v * 10 + ((s.last() as u32) - 48),
                48 <= (s.last() as u32) <= 57,
        {}
    } else {
        assert(s.take(n) =~= s);
    }
}

/// Parse a decimal integer exactly as `str::parse::<i32>` would: `Ok` if and
/// only if the input is a signed digit string whose value fits in an `i32`.
fn parse_i32(s: &str) -> (r: Result<i32, ()>)
    ensures
        r is Ok <==> spec_is_int_literal(s@) && spec_in_i32(s@),
        r matches Ok(v) ==> v == spec_int_value(s@),
{
    let n = s.unicode_len();
    if n == 0 {
        return Err(());
    }
    let first = s.get_char(0);
    let first_code = first as u32;
    let negative = first == '-';
    let start: usize = if negative || first == '+' {
        1
    } else {
        0
    };
    if start == 1 && n == 1 {
        return Err(());
    }
    if start == 0 && !(48 <= first_code && first_code <= 57) {
        return Err(());
    }
    let ghost body = s@.subrange(start as int, n as int);
    let mut acc: u64 = 0;
    let mut k: usize = start;
    while k < n
        invariant
            start <= k <= n,
            n == s@.len(),
            start == 0 || start == 1,
            start == 0 ==> s@[0] != '-' && s@[0] != '+' && spec_is_digit(s@[0]),
            start == 1 ==> s@.len() >= 1 && (s@[0] == '-' || s@[0] == '+'),
            body == s@.subrange(start as int, n as int),
            forall|i: int| start <= i < k ==> spec_is_digit(#[trigger] s@[i]),
            acc == spec_digits_value(body.take(k - start)),
            acc <= 0x8000_0000,
        decreases n - k,
    {
        let c = s.get_char(k);
        let code = c as u32;
        if !(48 <= code && code <= 57) {
            proof {
                assert(!spec_is_digit(s@[k as int]));
            }
            return Err(());
        }
        proof {
            assert(body.take(k - start + 1).drop_last() =~= body.take(k - start));
            assert(body.take(k - start + 1).last() == s@[k as int]);
        }
        acc = acc * 10 + ((code - 48) as u64);
        k += 1;
        if acc > 0x8000_0000 {
            // any continuation only grows the magnitude, so the value cannot
            // fit in an i32 whichever sign it carries
            proof {
                if spec_is_int_literal(s@) {
                    assert forall|i: int| 0 <= i < body.len() implies spec_is_digit(
                        #[trigger] body[i],
                    ) by {
                        assert(body[i] == s@[start + i]);
                    }
                    lemma_digits_prefix_le(body, k - start);
                    lemma_digits_nonneg(body);
                    assert(spec_digits_value(body) > 0x8000_0000);
                    if start == 1 {
                        assert(body =~= s@.subrange(1, s@.len() as int));
                    } else {
                        assert(body =~= s@);
                    }
                    assert(!spec_in_i32(s@));
                }
            }
            return Err(());
        }
    }
    proof {
        assert(body.take(n - start) =~= body);
        if start == 1 {
            assert(body =~= s@.subrange(1, s@.len() as int));
        } else {
            assert(body =~= s@);
        }
    }
    if negative {
        Ok((-(acc as i64)) as i32)
    } else {
        if acc == 0x8000_0000 {
            proof {
                if start == 1 {
                    assert(s@[0] == '+');
                }
            }
            Err(())
        } else {
            Ok(acc as i32)
        }
    }
}

/// What splitting at the first occurrence of `marker` and parsing the part
/// before it yields: the rest of the input and the component's value.
///
/// With no marker present the input is untouched and the component is 0;
/// with a marker present, the text before it must be an `i32` literal, else
/// the whole parse fails (`None`).
pub open spec fn spec_component(s: Seq<char>, marker: char) -> Option<(Seq<char>, int)> {
    if forall|i: int| 0 <= i < s.len() ==> #[trigger] s[i] != marker {
        Some((s, 0))
    } else {
        let i = choose|i: int|
            0 <= i < s.len() && s[i] == marker && forall|j: int| 0 <= j < i ==> s[j] != marker;
        let pre = s.subrange(0, i);
        if spec_is_int_literal(pre) && spec_in_i32(pre) {
            Some((s.subrange(i + 1, s.len() as int), spec_int_value(pre)))
        } else {
            None
        }
    }
}

/// Split `input` at the first occurrence of `terminator`; parse what stands
/// before it as an `i32` and return it beside what stands after. Without the
/// terminator, return the input unchanged and 0.
pub fn get_terminated<'a>(input: &'a str, terminator: char) -> (r: Result<(&'a str, i32), Error>)
    ensures
        match spec_component(input@, terminator) {
            Some(p) => r matches Ok(q) && q.0@ == p.0 && q.1 == p.1,
            None => r is Err,
        },
{
    let n = input.unicode_len();
    let mut k: usize = 0;
    while k < n
        invariant
            0 <= k <= n,
            n == input@.len(),
            forall|j: int| 0 <= j < k ==> input@[j] != terminator,
        decreases n - k,
    {
        if input.get_char(k) == terminator {
            proof {
                let i = choose|i: int|
                    0 <= i < input@.len() && input@[i] == terminator && forall|j: int|
                        0 <= j < i ==> input@[j] != terminator;
                assert(input@[k as int] == terminator);
                assert(!(forall|i: int|
                    0 <= i < input@.len() ==> #[trigger] input@[i] != terminator));
                assert(i == k);
            }
            let pre = input.substring_char(0, k);
            let post = input.substring_char(k + 1, n);
            return match parse_i32(pre) {
                Ok(v) => Ok((post, v)),
                Err(_) => Err(Error::Parse("component before a marker is not a valid i32".to_owned())),
            };
        }
        k += 1;
    }
    Ok((input, 0))
}

/// What parsing a three-component spec (`datespec` with markers `Y M D`,
/// `timespec` with markers `H M S`) yields, demanding that nothing trails
/// the last component.
pub open spec fn spec_three_components(s: Seq<char>, m1: char, m2: char, m3: char) -> Option<
    (int, int, int),
> {
    match spec_component(s, m1) {
        Some(p1) => match spec_component(p1.0, m2) {
            Some(p2) => match spec_component(p2.0, m3) {
                Some(p3) => if p3.0.len() == 0 {
                    Some((p1.1, p2.1, p3.1))
                } else {
                    None
                },
                None => None,
            },
            None => None,
        },
        None => None,
    }
}

/// Parse the date part of a duration: `[nY][nM][nD]`, in that order, with
/// nothing trailing.
pub fn parse_datespec(datespec: &str) -> (r: Result<(i32, i32, i32), Error>)
    ensures
        match spec_three_components(datespec@, 'Y', 'M', 'D') {
            Some(t) => r matches Ok(v) && v.0 == t.0 && v.1 == t.1 && v.2 == t.2,
            None => r is Err,
        },
{
    let (remainder, years) = match get_terminated(datespec, 'Y') {
        Ok(p) => p,
        Err(e) => {
            return Err(e);
        },
    };
    let (remainder, months) = match get_terminated(remainder, 'M') {
        Ok(p) => p,
        Err(e) => {
            return Err(e);
        },
    };
    let (remainder, days) = match get_terminated(remainder, 'D') {
        Ok(p) => p,
        Err(e) => {
            return Err(e);
        },
    };
    if remainder.unicode_len() != 0 {
        return Err(Error::Parse("trailing characters in datespec".to_owned()));
    }
    Ok((years, months, days))
}

/// Parse the time part of a duration: `[nH][nM][nS]`, in that order, with
/// nothing trailing.
pub fn parse_timespec(timespec: &str) -> (r: Result<(i32, i32, i32), Error>)
    ensures
        match spec_three_components(timespec@, 'H', 'M', 'S') {
            Some(t) => r matches Ok(v) && v.0 == t.0 && v.1 == t.1 && v.2 == t.2,
            None => r is Err,
        },
{
    let (remainder, hours) = match get_terminated(timespec, 'H') {
        Ok(p) => p,
        Err(e) => {
            return Err(e);
        },
    };
    let (remainder, mins) = match get_terminated(remainder, 'M') {
        Ok(p) => p,
        Err(e) => {
            return Err(e);
        },
    };
    let (remainder, secs) = match get_terminated(remainder, 'S') {
        Ok(p) => p,
        Err(e) => {
            return Err(e);
        },
    };
    if remainder.unicode_len() != 0 {
        return Err(Error::Parse("trailing characters in timespec".to_owned()));
    }
    Ok((hours, mins, secs))
}

/// Seconds denoted by a day-hour-minute-second tuple.
pub open spec fn spec_dhms_seconds(days: int, hours: int, minutes: int, seconds: int) -> int {
    ((days * 24 + hours) * 60 + minutes) * 60 + seconds
}

/// What the whole duration grammar yields: the input must open with `P`; the
/// rest splits at the first `T` (or not at all) into a datespec and a
/// timespec; both must parse, the months total must fit in an `i32`.
pub open spec fn spec_parse_duration(s: Seq<char>) -> Option<RelDuration> {
    if s.len() == 0 || s[0] != 'P' {
        None
    } else {
        let rest = s.subrange(1, s.len() as int);
        let date_part = if exists|i: int| 0 <= i < rest.len() && rest[i] == 'T' {
            let i = choose|i: int|
                0 <= i < rest.len() && rest[i] == 'T' && forall|j: int| 0 <= j < i ==> rest[j] != 'T';
            (rest.subrange(0, i), rest.subrange(i + 1, rest.len() as int))
        } else {
            (rest, Seq::<char>::empty())
        };
        match spec_three_components(date_part.0, 'Y', 'M', 'D') {
            Some(d) => match spec_three_components(date_part.1, 'H', 'M', 'S') {
                Some(t) => {
                    let months = d.0 * 12 + d.1;
                    if i32::MIN <= months <= i32::MAX {
                        Some(
                            RelDuration {
                                months: months as i32,
                                seconds: spec_dhms_seconds(d.2, t.0, t.1, t.2) as i64,
                            },
                        )
                    } else {
                        None
                    }
                },
                None => None,
            },
            None => None,
        }
    }
}

/// Parse an ISO-8601 duration of the shape `P[nY][nM][nD][T[nH][nM][nS]]`.
pub fn parse_duration_handwritten(input: &str) -> (r: Result<RelDuration, Error>)
    ensures
        match spec_parse_duration(input@) {
            Some(d) => r matches Ok(v) && v == d,
            None => r is Err,
        },
{
    let n = input.unicode_len();
    if n == 0 || input.get_char(0) != 'P' {
        return Err(Error::Parse("duration was not prefixed with P".to_owned()));
    }
    let rest = input.substring_char(1, n);
    let rest_len = n - 1;

    // split at the first 'T', keeping everything when there is none
    let mut t_index: usize = rest_len;
    let mut found_t = false;
    let mut k: usize = 0;
    while k < rest_len && !found_t
        invariant
            0 <= k <= rest_len,
            rest_len == rest@.len(),
            !found_t ==> forall|j: int| 0 <= j < k ==> rest@[j] != 'T',
            found_t ==> t_index < rest_len && rest@[t_index as int] == 'T' && forall|j: int|
                0 <= j < t_index ==> rest@[j] != 'T',
            !found_t ==> t_index == rest_len,
        decreases rest_len - k + (if found_t {
            0int
        } else {
            1int
        }),
    {
        if rest.get_char(k) == 'T' {
            found_t = true;
            t_index = k;
        } else {
            k += 1;
        }
    }
    let (datespec, timespec) = if found_t {
        proof {
            let i = choose|i: int|
                0 <= i < rest@.len() && rest@[i] == 'T' && forall|j: int|
                    0 <= j < i ==> rest@[j] != 'T';
            assert(i == t_index);
        }
        (rest.substring_char(0, t_index), rest.substring_char(t_index + 1, rest_len))
    } else {
        proof {
            assert(rest@.subrange(0, rest@.len() as int) =~= rest@);
        }
        (rest.substring_char(0, rest_len), rest.substring_char(rest_len, rest_len))
    };
    proof {
        if !found_t {
            assert(timespec@ =~= Seq::<char>::empty());
        }
    }

    let (years, months, days) = match parse_datespec(datespec) {
        Ok(t) => t,
        Err(e) => {
            return Err(e);
        },
    };
    let (hours, mins, secs) = match parse_timespec(timespec) {
        Ok(t) => t,
        Err(e) => {
            return Err(e);
        },
    };
    let month_total: i64 = (years as i64) * 12 + (months as i64);
    if month_total < i32::MIN as i64 || month_total > i32::MAX as i64 {
        return Err(Error::Parse("months out of range".to_owned()));
    }
    let second_total: i64 = (((days as i64) * 24 + (hours as i64)) * 60 + (mins as i64)) * 60
        + (secs as i64);
    Ok(RelDuration { months: month_total as i32, seconds: second_total })
}

} // verus!
