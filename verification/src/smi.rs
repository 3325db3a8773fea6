//! Reading the GPU memory that `nvidia-smi` reports for a step's processes:
//! its `pid, used_memory` lines (memory in MiB) are summed over the
//! processes that belong to the step.
use crate::strs::{char_vecs_view, lines_of, newline_pieces, split_chars, split_spec, trim_chars, trim_spec, SplitSep};
use vstd::prelude::*;

verus! {

/// An ASCII decimal digit.
pub open spec fn is_digit(c: char) -> bool {
    '0' <= c <= '9'
}

/// The value of a run of decimal digits.
pub open spec fn digits_value(s: Seq<char>) -> nat
    decreases s.len(),
{
    if s.len() == 0 {
        0
    } else {
        digits_value(s.drop_last()) * 10 + ((s.last() as u32) - ('0' as u32)) as nat
    }
}

/// Every character is a digit.
pub open spec fn all_digits(s: Seq<char>) -> bool {
    forall|i: int| 0 <= i < s.len() ==> is_digit(#[trigger] s[i])
}

/// Decimal digits, at least one, whose value is at most `max`.
pub open spec fn parse_digits(s: Seq<char>, max: nat) -> Option<nat> {
    if s.len() > 0 && all_digits(s) && digits_value(s) <= max {
        Some(digits_value(s))
    } else {
        None
    }
}

/// `u32::from_str`: an optional plus sign, then digits whose value fits.
pub open spec fn parse_u32_spec(s: Seq<char>) -> Option<u32> {
    let d = if s.len() > 0 && s[0] == '+' {
        s.drop_first()
    } else {
        s
    };
    match parse_digits(d, u32::MAX as nat) {
        Some(v) => Some(v as u32),
        None => None,
    }
}

/// The digits a text starts with.
pub open spec fn leading_digits(s: Seq<char>) -> Seq<char>
    decreases s.len(),
{
    if s.len() > 0 && is_digit(s[0]) {
        seq![s[0]] + leading_digits(s.drop_first())
    } else {
        Seq::empty()
    }
}

/// The memory in MiB that line `line` reports for a watched process, if any:
/// its first comma-separated field, trimmed, is the process id; its second,
/// trimmed, starts with the memory's digits.
pub open spec fn line_memory(line: Seq<char>, watched: Seq<u32>) -> Option<u64> {
    let parts = split_spec(line, SplitSep::Char(','));
    if parts.len() < 2 {
        None
    } else {
        match parse_u32_spec(trim_spec(parts[0])) {
            None => None,
            Some(pid) => if !watched.contains(pid) {
                None
            } else {
                match parse_digits(leading_digits(trim_spec(parts[1])), u64::MAX as nat) {
                    Some(v) => Some(v as u64),
                    None => None,
                }
            },
        }
    }
}

/// Adds without overflow past the largest value.
pub open spec fn sat_add(a: u64, b: u64) -> u64 {
    if a + b > u64::MAX {
        u64::MAX
    } else {
        (a + b) as u64
    }
}

/// The memory in MiB of the first `k` lines, summed without overflow.
pub open spec fn lines_memory(lines: Seq<Seq<char>>, watched: Seq<u32>, k: int) -> u64
    decreases k,
{
    if k <= 0 {
        0
    } else {
        let prev = lines_memory(lines, watched, k - 1);
        match line_memory(lines[k - 1], watched) {
            Some(m) => sat_add(prev, m),
            None => prev,
        }
    }
}

/// The GPU memory in bytes that the report gives the watched processes.
pub open spec fn smi_memory_spec(stdout: Seq<char>, watched: Seq<u32>) -> u64 {
    let lines = newline_pieces(stdout);
    let mib = lines_memory(lines, watched, lines.len() as int);
    if mib * 1048576 > u64::MAX {
        u64::MAX
    } else {
        (mib * 1048576) as u64
    }
}

/// The value of a digit.
fn digit_of(c: char) -> (r: u64)
    requires
        is_digit(c),
    ensures
        r == (c as u32) - ('0' as u32),
        r < 10,
{
    (c as u32 - '0' as u32) as u64
}

/// A longer run of digits is worth at least as much.
proof fn lemma_digits_grow(s: Seq<char>, k: int)
    requires
        0 <= k <= s.len(),
        all_digits(s),
    ensures
        digits_value(s.take(k)) <= digits_value(s),
    decreases s.len() - k,
{
    if k < s.len() {
        lemma_digits_grow(s, k + 1);
        assert(s.take(k + 1).drop_last() =~= s.take(k));
    } else {
        assert(s.take(k) =~= s);
    }
}

/// Parses digits whose value is at most `max` (`max` below 2^64).
fn parse_digits_exec(s: &Vec<char>, max: u64) -> (r: Option<u64>)
    ensures
        match parse_digits(s@, max as nat) {
            Some(v) => r == Some(v as u64),
            None => r is None,
        },
{
    if s.len() == 0 {
        return None;
    }
    let mut value: u64 = 0;
    let mut i: usize = 0;
    assert(s@.take(0) =~= Seq::<char>::empty());
    while i < s.len()
        invariant
            i <= s@.len(),
            s@.len() > 0,
            all_digits(s@.take(i as int)),
            value as nat == digits_value(s@.take(i as int)),
            value <= max,
        decreases s@.len() - i,
    {
        let c = s[i];
        assert(s@.take(i + 1).drop_last() =~= s@.take(i as int));
        assert(s@.take(i + 1).last() == c);
        if !('0' <= c && c <= '9') {
            assert(!all_digits(s@));
            return None;
        }
        let d = digit_of(c);
        if d > max || value > (max - d) / 10 {
            proof {
                assert(digits_value(s@.take(i + 1)) == value * 10 + d);
                if d <= max {
                    assert(value * 10 + d > max) by (nonlinear_arith)
                        requires
                            value > (max - d) / 10,
                            d <= max,
                    ;
                }
                if all_digits(s@) {
                    lemma_digits_grow(s@, i + 1);
                }
            }
            return None;
        }
        proof {
            assert(value * 10 + d <= max) by (nonlinear_arith)
                requires
                    value <= (max - d) / 10,
                    d < 10,
            ;
        }
        value = value * 10 + d;
        assert(all_digits(s@.take(i + 1)));
        i += 1;
    }
    assert(s@.take(s@.len() as int) =~= s@);
    Some(value)
}

/// `u32::from_str` on characters.
fn parse_u32_exec(s: &Vec<char>) -> (r: Option<u32>)
    ensures
        r == parse_u32_spec(s@),
{
    let d = if s.len() > 0 && s[0] == '+' {
        crate::strs::chars_slice(s, 1, s.len())
    } else {
        crate::strs::chars_slice(s, 0, s.len())
    };
    assert(s@.subrange(0, s@.len() as int) =~= s@);
    assert(s@.len() > 0 ==> s@.subrange(1, s@.len() as int) =~= s@.drop_first());
    match parse_digits_exec(&d, 0xffff_ffffu64) {
        Some(v) => Some(v as u32),
        None => None,
    }
}

/// The digits `s` starts with are its first `k` characters when those are
/// digits and the next one is not.
proof fn lemma_leading_digits(s: Seq<char>, k: int)
    requires
        0 <= k <= s.len(),
        all_digits(s.take(k)),
        k == s.len() || !is_digit(s[k]),
    ensures
        leading_digits(s) == s.take(k),
    decreases k,
{
    if k == 0 {
        assert(s.take(0) =~= Seq::<char>::empty());
    } else {
        assert(is_digit(s.take(k)[0]));
        let t = s.drop_first();
        assert forall|i: int| 0 <= i < k - 1 implies is_digit(#[trigger] t.take(k - 1)[i]) by {
            assert(t.take(k - 1)[i] == s.take(k)[i + 1]);
        }
        if k < s.len() {
            assert(t[k - 1] == s[k]);
        }
        lemma_leading_digits(t, k - 1);
        assert(seq![s[0]] + t.take(k - 1) =~= s.take(k));
    }
}

/// The digits a text starts with.
fn leading_digits_exec(s: &Vec<char>) -> (r: Vec<char>)
    ensures
        r@ == leading_digits(s@),
{
    let mut k: usize = 0;
    while k < s.len() && '0' <= s[k] && s[k] <= '9'
        invariant
            k <= s@.len(),
            all_digits(s@.take(k as int)),
        decreases s@.len() - k,
    {
        assert(s@.take(k + 1) =~= s@.take(k as int).push(s@[k as int]));
        k += 1;
    }
    proof {
        lemma_leading_digits(s@, k as int);
    }
    crate::strs::chars_slice(s, 0, k)
}

/// Whether `x` is among `v`.
fn contains_u32(v: &Vec<u32>, x: u32) -> (r: bool)
    ensures
        r == v@.contains(x),
{
    let mut i: usize = 0;
    while i < v.len()
        invariant
            i <= v@.len(),
            forall|j: int| 0 <= j < i ==> v@[j] != x,
        decreases v@.len() - i,
    {
        if v[i] == x {
            assert(v@[i as int] == x);
            return true;
        }
        i += 1;
    }
    false
}

/// The memory a line reports for a watched process, if any.
fn line_memory_exec(line: &Vec<char>, watched: &Vec<u32>) -> (r: Option<u64>)
    ensures
        r == line_memory(line@, watched@),
{
    let parts = split_chars(line, SplitSep::Char(','));
    assert(char_vecs_view(parts@).len() == parts@.len());
    if parts.len() < 2 {
        return None;
    }
    assert(char_vecs_view(parts@)[0] == parts@[0]@);
    assert(char_vecs_view(parts@)[1] == parts@[1]@);
    let pid_text = trim_chars(&parts[0]);
    let pid = match parse_u32_exec(&pid_text) {
        None => {
            return None;
        },
        Some(p) => p,
    };
    if !contains_u32(watched, pid) {
        return None;
    }
    let mem_text = trim_chars(&parts[1]);
    let digits = leading_digits_exec(&mem_text);
    parse_digits_exec(&digits, u64::MAX)
}

/// The GPU memory in bytes that an `nvidia-smi` report (`pid, used_memory`
/// lines, memory in MiB) gives the watched processes; sums that would not
/// fit stop at the largest value.
pub fn gpu_memory_from_smi(stdout: &str, watched: &Vec<u32>) -> (r: u64)
    ensures
        r == smi_memory_spec(stdout@, watched@),
{
    let lines = lines_of(stdout);
    let ghost lv = char_vecs_view(lines@);
    let mut total: u64 = 0;
    let mut i: usize = 0;
    while i < lines.len()
        invariant
            lv == char_vecs_view(lines@),
            lv == newline_pieces(stdout@),
            i <= lines@.len(),
            total == lines_memory(lv, watched@, i as int),
        decreases lines@.len() - i,
    {
        assert(lv[i as int] == lines@[i as int]@);
        match line_memory_exec(&lines[i], watched) {
            Some(m) => {
                total = if total > u64::MAX - m {
                    u64::MAX
                } else {
                    total + m
                };
            },
            None => {},
        }
        i += 1;
    }
    if total > u64::MAX / 1048576 {
        proof {
            assert(total * 1048576 > u64::MAX) by (nonlinear_arith)
                requires
                    total > u64::MAX / 1048576,
            ;
        }
        u64::MAX
    } else {
        proof {
            assert(total * 1048576 <= u64::MAX) by (nonlinear_arith)
                requires
                    total <= u64::MAX / 1048576,
            ;
        }
        total * 1048576
    }
}

} // verus!
