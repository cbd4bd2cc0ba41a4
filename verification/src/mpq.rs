//! Extraction of the archive version number from a version-archive file
//! name such as `ver-IX86-1.mpq`: the digits between the last `-` of the
//! stem and the first `.`.
use vstd::prelude::*;
use vstd::string::*;

verus! {

/// True when `c` is a decimal digit.
pub open spec fn is_digit(c: char) -> bool {
    48 <= c as u32 && c as u32 <= 57
}

/// Value of a run of decimal digits, most significant first.
pub open spec fn digits_value(s: Seq<char>) -> int
    decreases s.len(),
{
    if s.len() == 0 {
        0
    } else {
        digits_value(s.drop_last()) * 10 + (s.last() as u32 - 48)
    }
}

pub open spec fn all_digits(s: Seq<char>) -> bool {
    forall|i: int| 0 <= i < s.len() ==> is_digit(#[trigger] s[i])
}

/// Index of the first occurrence of `c` in `s`, or -1 when absent.
pub open spec fn find_first(s: Seq<char>, c: char) -> int
    decreases s.len(),
{
    if s.len() == 0 {
        -1
    } else if s[0] == c {
        0
    } else if find_first(s.skip(1), c) == -1 {
        -1
    } else {
        find_first(s.skip(1), c) + 1
    }
}

/// Index of the last occurrence of `c` in `s`, or -1 when absent.
pub open spec fn find_last(s: Seq<char>, c: char) -> int
    decreases s.len(),
{
    if s.len() == 0 {
        -1
    } else if s.last() == c {
        s.len() - 1
    } else {
        find_last(s.drop_last(), c)
    }
}

/// The archive version number carried by `name`: the decimal digits of the
/// stem (everything before the first `.`) that follow its last `-`, when
/// they are non-empty, all digits, and fit in a `u32`.
pub open spec fn spec_extract_mpq_number(name: Seq<char>) -> Option<u32> {
    if name.len() == 0 || find_first(name, '.') == -1 {
        None
    } else {
        let dot = find_first(name, '.');
        let start = find_last(name.take(dot), '-') + 1;
        let seg = name.subrange(start, dot);
        if seg.len() > 0 && all_digits(seg) && digits_value(seg) <= u32::MAX {
            Some(digits_value(seg) as u32)
        } else {
            None
        }
    }
}

pub proof fn lemma_find_first(s: Seq<char>, c: char)
    ensures
        find_first(s, c) == -1 ==> forall|j: int| 0 <= j < s.len() ==> (#[trigger] s[j]) != c,
        find_first(s, c) != -1 ==> {
            &&& 0 <= find_first(s, c) < s.len()
            &&& s[find_first(s, c)] == c
            &&& forall|j: int| 0 <= j < find_first(s, c) ==> (#[trigger] s[j]) != c
        },
    decreases s.len(),
{
    if s.len() > 0 && s[0] != c {
        lemma_find_first(s.skip(1), c);
        assert(forall|j: int| 1 <= j < s.len() ==> (#[trigger] s[j]) == s.skip(1)[j - 1]);
    }
}

proof fn lemma_find_last(s: Seq<char>, c: char)
    ensures
        find_last(s, c) == -1 ==> forall|j: int| 0 <= j < s.len() ==> (#[trigger] s[j]) != c,
        find_last(s, c) != -1 ==> {
            &&& 0 <= find_last(s, c) < s.len()
            &&& s[find_last(s, c)] == c
            &&& forall|j: int| find_last(s, c) < j < s.len() ==> (#[trigger] s[j]) != c
        },
    decreases s.len(),
{
    if s.len() > 0 && s.last() != c {
        lemma_find_last(s.drop_last(), c);
        assert(forall|j: int| 0 <= j < s.len() - 1 ==> (#[trigger] s[j]) == s.drop_last()[j]);
    }
}

pub proof fn lemma_digits_take_step(s: Seq<char>, i: int)
    requires
        0 <= i < s.len(),
    ensures
        digits_value(s.take(i + 1)) == digits_value(s.take(i)) * 10 + (s[i] as u32 - 48),
{
    assert(s.take(i + 1).drop_last() =~= s.take(i));
    assert(s.take(i + 1).last() == s[i]);
}

pub proof fn lemma_digits_suffix_grows(s: Seq<char>, i: int)
    requires
        0 <= i <= s.len(),
        forall|j: int| i <= j < s.len() ==> is_digit(#[trigger] s[j]),
        digits_value(s.take(i)) >= 0,
    ensures
        digits_value(s.take(i)) <= digits_value(s),
    decreases s.len() - i,
{
    if i == s.len() {
        assert(s.take(i) =~= s);
    } else {
        lemma_digits_take_step(s, i);
        lemma_digits_suffix_grows(s, i + 1);
    }
}

/// Returns the archive version number encoded in `name`, or `None` when
/// `name` carries none.
pub fn extract_mpq_number(name: String) -> (r: Option<u32>)
    ensures
        r == spec_extract_mpq_number(name@),
{
    let s = name.as_str();
    let n = s.unicode_len();
    if n == 0 {
        return None;
    }
    // Find the first '.'; `dot == n` means none seen yet.
    let mut dot: usize = n;
    let mut i: usize = 0;
    while i < n && dot == n
        invariant
            n == s@.len(),
            i <= n,
            dot <= n,
            dot == n ==> forall|j: int| 0 <= j < i ==> (#[trigger] s@[j]) != '.',
            dot < n ==> s@[dot as int] == '.' && forall|j: int|
                0 <= j < dot ==> (#[trigger] s@[j]) != '.',
        decreases n - i,
    {
        let c = s.get_char(i);
        if c == '.' {
            dot = i;
        }
        i += 1;
    }
    proof {
        lemma_find_first(s@, '.');
    }
    if dot == n {
        return None;
    }
    assert(find_first(s@, '.') == dot);
    // Find the last '-' before the dot; `last_dash == dot` means none seen.
    let ghost stem = s@.take(dot as int);
    let mut last_dash: usize = dot;
    let mut j: usize = 0;
    while j < dot
        invariant
            n == s@.len(),
            dot < n,
            j <= dot,
            last_dash <= dot,
            stem == s@.take(dot as int),
            last_dash == dot ==> forall|k: int| 0 <= k < j ==> (#[trigger] stem[k]) != '-',
            last_dash < dot ==> last_dash < j && stem[last_dash as int] == '-' && forall|k: int|
                last_dash < k < j ==> (#[trigger] stem[k]) != '-',
        decreases dot - j,
    {
        let c = s.get_char(j);
        assert(stem[j as int] == s@[j as int]);
        if c == '-' {
            last_dash = j;
        }
        j += 1;
    }
    proof {
        lemma_find_last(stem, '-');
    }
    let start: usize = if last_dash == dot {
        assert(find_last(stem, '-') == -1);
        0
    } else {
        assert(find_last(stem, '-') == last_dash);
        last_dash + 1
    };
    assert(start == find_last(stem, '-') + 1);
    let ghost seg = s@.subrange(start as int, dot as int);
    let seg_len = dot - start;
    if seg_len == 0 {
        assert(seg.len() == 0);
        return None;
    }
    // Parse the digits of the segment.
    let mut val: u64 = 0;
    let mut k: usize = 0;
    while k < seg_len
        invariant
            name@ == s@,
            n == s@.len(),
            n != 0,
            start + seg_len == dot < n,
            find_first(s@, '.') == dot,
            start == find_last(s@.take(dot as int), '-') + 1,
            k <= seg_len,
            seg == s@.subrange(start as int, dot as int),
            seg.len() == seg_len,
            all_digits(seg.take(k as int)),
            val == digits_value(seg.take(k as int)),
            val <= u32::MAX,
        decreases seg_len - k,
    {
        let c = s.get_char(start + k);
        assert(seg[k as int] == s@[start + k]);
        let cv = c as u32;
        if cv < 48 || cv > 57 {
            assert(!is_digit(seg[k as int]));
            return None;
        }
        proof {
            lemma_digits_take_step(seg, k as int);
        }
        val = val * 10 + (cv - 48) as u64;
        k += 1;
        if val > u32::MAX as u64 {
            proof {
                if all_digits(seg) {
                    lemma_digits_suffix_grows(seg, k as int);
                }
            }
            return None;
        }
    }
    assert(seg.take(seg_len as int) =~= seg);
    Some(val as u32)
}

} // verus!
