//! Executable fingerprinting: choosing the game executable among its
//! known filename variants, breaking a timestamp into a calendar date,
//! and formatting the fixed-layout info string.
use vstd::prelude::*;
use vstd::string::*;

use crate::AuthError;

verus! {

/// Capacity of the info string; longer output is cut off here.
pub const INFO_CAPACITY: usize = 1024;

/// The two bytes of a zero-padded two-digit number.
pub open spec fn two_digit_bytes(x: u32) -> Seq<u8> {
    seq![(48 + x / 10) as u8, (48 + x % 10) as u8]
}

/// The decimal digits of `x`, most significant first.
pub open spec fn dec_bytes(x: u64) -> Seq<u8>
    decreases x,
{
    if x < 10 {
        seq![(48 + x) as u8]
    } else {
        dec_bytes(x / 10).push((48 + x % 10) as u8)
    }
}

/// ASCII bytes read as characters.
pub open spec fn bytes_to_chars(s: Seq<u8>) -> Seq<char> {
    Seq::new(s.len(), |i: int| s[i] as char)
}

/// The bytes that follow the file name in the info string:
/// ` MM/DD/YY HH:MM:SS <size>`.
pub open spec fn tail_bytes(
    month: u32,
    day: u32,
    year: u32,
    hour: u32,
    minute: u32,
    second: u32,
    size: u64,
) -> Seq<u8> {
    seq![32u8] + two_digit_bytes(month) + seq![47u8] + two_digit_bytes(day) + seq![47u8]
        + two_digit_bytes(year % 100) + seq![32u8] + two_digit_bytes(hour) + seq![58u8]
        + two_digit_bytes(minute) + seq![58u8] + two_digit_bytes(second) + seq![32u8] + dec_bytes(
        size,
    )
}

/// The info string `<name> MM/DD/YY HH:MM:SS <size>`, cut off at the
/// fixed capacity.
pub open spec fn spec_exe_info(
    name: Seq<char>,
    month: u32,
    day: u32,
    year: u32,
    hour: u32,
    minute: u32,
    second: u32,
    size: u64,
) -> Seq<char> {
    let full = name + bytes_to_chars(tail_bytes(month, day, year, hour, minute, second, size));
    if full.len() <= 1024 {
        full
    } else {
        full.take(1024)
    }
}

proof fn lemma_dec_bytes_ascii(x: u64)
    ensures
        forall|i: int| 0 <= i < dec_bytes(x).len() ==> 48 <= #[trigger] dec_bytes(x)[i] < 58,
        dec_bytes(x).len() >= 1,
    decreases x,
{
    if x >= 10 {
        lemma_dec_bytes_ascii(x / 10);
    }
}

/// Relies on `String::from_utf8`: a vector of ASCII bytes is valid
/// UTF-8 and becomes the string with those characters.
#[verifier::external_body]
fn ascii_to_string(v: Vec<u8>) -> (r: String)
    requires
        forall|i: int| 0 <= i < v@.len() ==> v@[i] < 128,
    ensures
        r@ == bytes_to_chars(v@),
{
    match String::from_utf8(v) {
        Ok(s) => s,
        Err(_) => String::new(),
    }
}

/// Appends the decimal digits of `x`.
fn push_dec(v: &mut Vec<u8>, x: u64)
    ensures
        final(v)@ == old(v)@ + dec_bytes(x),
    decreases x,
{
    if x < 10 {
        v.push(48 + x as u8);
        assert(final(v)@ =~= old(v)@ + dec_bytes(x));
    } else {
        push_dec(v, x / 10);
        v.push(48 + (x % 10) as u8);
        assert(final(v)@ =~= old(v)@ + dec_bytes(x));
    }
}

/// Appends a zero-padded two-digit number.
fn push_two_digits(v: &mut Vec<u8>, x: u32)
    requires
        x < 100,
    ensures
        final(v)@ == old(v)@ + two_digit_bytes(x),
{
    v.push((48 + x / 10) as u8);
    v.push((48 + x % 10) as u8);
    assert(final(v)@ =~= old(v)@ + two_digit_bytes(x));
}

/// Formats the info string for an executable: its file name, its
/// timestamp as `MM/DD/YY HH:MM:SS`, and its size in bytes.  Output
/// beyond the fixed capacity is cut off.
pub fn format_exe_info(
    name: &str,
    month: u32,
    day: u32,
    year: u32,
    hour: u32,
    minute: u32,
    second: u32,
    size: u64,
) -> (r: String)
    requires
        month <= 12,
        day <= 31,
        hour < 24,
        minute < 60,
        second < 60,
    ensures
        r@ == spec_exe_info(name@, month, day, year, hour, minute, second, size),
{
    let ghost full = name@ + bytes_to_chars(
        tail_bytes(month, day, year, hour, minute, second, size),
    );
    let name_len = name.unicode_len();
    if name_len >= INFO_CAPACITY {
        let head = name.substring_char(0, INFO_CAPACITY);
        assert(full.take(1024) =~= name@.take(1024));
        return head.to_owned();
    }
    let mut tail: Vec<u8> = Vec::new();
    tail.push(32);
    push_two_digits(&mut tail, month);
    tail.push(47);
    push_two_digits(&mut tail, day);
    tail.push(47);
    push_two_digits(&mut tail, year % 100);
    tail.push(32);
    push_two_digits(&mut tail, hour);
    tail.push(58);
    push_two_digits(&mut tail, minute);
    tail.push(58);
    push_two_digits(&mut tail, second);
    tail.push(32);
    push_dec(&mut tail, size);
    assert(tail@ =~= tail_bytes(month, day, year, hour, minute, second, size));
    proof {
        lemma_dec_bytes_ascii(size);
    }
    assert(forall|i: int| 0 <= i < tail@.len() ==> tail@[i] < 128);
    let budget = INFO_CAPACITY - name_len;
    let ghost untruncated = tail@;
    if tail.len() > budget {
        tail.truncate(budget);
        assert(tail@ == untruncated.take(budget as int));
    }
    let tail_str = ascii_to_string(tail);
    let mut out = name.to_owned();
    out.append(tail_str.as_str());
    proof {
        if name@.len() + untruncated.len() <= 1024 {
            assert(out@ =~= full);
        } else {
            assert(bytes_to_chars(untruncated.take(budget as int)) =~= bytes_to_chars(
                untruncated,
            ).take(budget as int));
            assert(out@ =~= full.take(1024));
        }
    }
    out
}

/// Days since 1970-01-01 broken into a calendar date `(year, month,
/// day)`, by era arithmetic over 400-year cycles; an out-of-range
/// intermediate falls back to the epoch date.
pub open spec fn spec_civil_from_days(days: u64) -> (u64, u32, u32) {
    let z = days + 719468;
    let era = z / 146097;
    let doe = z % 146097;
    let yoe = (doe - doe / 1460 + doe / 36524 - doe / 146096) / 365;
    let doy = doe - (365 * yoe + yoe / 4 - yoe / 100);
    let mp = (5 * doy + 2) / 153;
    let d = doy - (153 * mp + 2) / 5 + 1;
    let m = if mp < 10 {
        mp + 3
    } else {
        mp - 9
    };
    let y = yoe + era * 400 + if m <= 2 {
        1int
    } else {
        0int
    };
    if 1 <= m <= 12 && 1 <= d <= 31 && 0 <= y <= 0xFFFF_FFFF_FFFF {
        (y as u64, m as u32, d as u32)
    } else {
        (1970u64, 1u32, 1u32)
    }
}

/// Breaks a day count since 1970-01-01 into `(year, month, day)`.
#[verifier::rlimit(50)]
pub fn civil_from_days(days: u64) -> (r: (u64, u32, u32))
    requires
        days + 719468 <= u64::MAX,
    ensures
        r == spec_civil_from_days(days),
        1 <= r.1 <= 12,
        1 <= r.2 <= 31,
{
    let z: u64 = days + 719468;
    let era: u64 = z / 146097;
    let doe: u64 = z % 146097;
    let yoe: u64 = (doe - doe / 1460 + doe / 36524 - doe / 146096) / 365;
    let doy: u64 = doe - (365 * yoe + yoe / 4 - yoe / 100);
    let mp: u64 = (5 * doy + 2) / 153;
    let d: u64 = doy - (153 * mp + 2) / 5 + 1;
    let m: u64 = if mp < 10 {
        mp + 3
    } else {
        mp - 9
    };
    let y: u64 = yoe + era * 400 + if m <= 2 {
        1
    } else {
        0
    };
    if 1 <= m && m <= 12 && 1 <= d && d <= 31 && y <= 0xFFFF_FFFF_FFFF {
        (y, m as u32, d as u32)
    } else {
        (1970u64, 1u32, 1u32)
    }
}

/// True when some entry of `names` reads `t`.
pub open spec fn contains_name(names: Seq<String>, t: Seq<char>) -> bool {
    exists|i: int| 0 <= i < names.len() && #[trigger] names[i]@ == t
}

/// The game executable chosen from a directory listing: the first of
/// the known filename variants that is present.
pub open spec fn spec_select_executable(names: Seq<String>) -> Option<Seq<char>> {
    if contains_name(names, "Warcraft III.exe"@) {
        Some("Warcraft III.exe"@)
    } else if contains_name(names, "warcraft.exe"@) {
        Some("warcraft.exe"@)
    } else if contains_name(names, "war3.exe"@) {
        Some("war3.exe"@)
    } else {
        None
    }
}

fn contains_exec(names: &Vec<String>, t: &String) -> (b: bool)
    ensures
        b == contains_name(names@, t@),
{
    let mut i: usize = 0;
    while i < names.len()
        invariant
            i <= names@.len(),
            forall|j: int| 0 <= j < i ==> #[trigger] names@[j]@ != t@,
        decreases names@.len() - i,
    {
        if names[i].eq(t) {
            assert(names@[i as int]@ == t@);
            return true;
        }
        i += 1;
    }
    false
}

/// Picks the game executable from a directory listing, or reports that
/// none of the candidate names is present.
pub fn select_executable(names: &Vec<String>) -> (r: Result<String, AuthError>)
    ensures
        match r {
            Ok(s) => spec_select_executable(names@) == Some(s@),
            Err(e) => spec_select_executable(names@) is None && e
                == AuthError::ExecutableNotFound,
        },
{
    let c1 = String::from_str("Warcraft III.exe");
    let c2 = String::from_str("warcraft.exe");
    let c3 = String::from_str("war3.exe");
    if contains_exec(names, &c1) {
        Ok(c1)
    } else if contains_exec(names, &c2) {
        Ok(c2)
    } else if contains_exec(names, &c3) {
        Ok(c3)
    } else {
        Err(AuthError::ExecutableNotFound)
    }
}

/// The support libraries needed by the three-file revision check: the
/// storm library under either of its case variants, then the game
/// library.
pub open spec fn spec_support_files(names: Seq<String>) -> Option<(Seq<char>, Seq<char>)> {
    let storm = if contains_name(names, "Storm.dll"@) {
        Some("Storm.dll"@)
    } else if contains_name(names, "storm.dll"@) {
        Some("storm.dll"@)
    } else {
        None
    };
    match storm {
        Some(s) => if contains_name(names, "game.dll"@) {
            Some((s, "game.dll"@))
        } else {
            None
        },
        None => None,
    }
}

/// Picks the two support libraries from a directory listing, or reports
/// the one that is missing.
pub fn select_support_files(names: &Vec<String>) -> (r: Result<(String, String), AuthError>)
    ensures
        match r {
            Ok(t) => spec_support_files(names@) == Some((t.0@, t.1@)),
            Err(e) => spec_support_files(names@) is None && e == AuthError::SupportFileMissing,
        },
{
    let s1 = String::from_str("Storm.dll");
    let s2 = String::from_str("storm.dll");
    let g = String::from_str("game.dll");
    let storm = if contains_exec(names, &s1) {
        s1
    } else if contains_exec(names, &s2) {
        s2
    } else {
        return Err(AuthError::SupportFileMissing);
    };
    if contains_exec(names, &g) {
        Ok((storm, g))
    } else {
        Err(AuthError::SupportFileMissing)
    }
}

} // verus!
