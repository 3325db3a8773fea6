//! Character-level string primitives shared by the rest of the library.
//!
//! Strings are reasoned about through their view, a `Seq<char>`.  The
//! executable helpers here convert between `&str`/`String` and `Vec<char>`
//! and implement the few `str` operations the library needs, each proved
//! against a spec function over character sequences.
use vstd::prelude::*;

verus! {

/// The characters of `s`, in order.
pub fn chars_of(s: &str) -> (v: Vec<char>)
    ensures
        v@ == s@,
{
    let mut v: Vec<char> = Vec::new();
    for c in it: s.chars()
        invariant
            v@ == it.seq().take(it.index() as int),
    {
        v.push(c);
    }
    v
}

/// Appends one character to a string (`String::push`).
#[verifier::external_body]
pub(crate) fn push_char(s: &mut String, c: char)
    ensures
        final(s)@ == old(s)@.push(c),
{
    s.push(c);
}

/// Appends the characters of `v` to `s`.
pub fn push_chars(s: &mut String, v: &Vec<char>)
    ensures
        final(s)@ == old(s)@ + v@,
{
    let mut i: usize = 0;
    while i < v.len()
        invariant
            i <= v.len(),
            s@ == old(s)@ + v@.take(i as int),
        decreases v.len() - i,
    {
        push_char(s, v[i]);
        i += 1;
        assert(v@.take(i as int) =~= v@.take((i - 1) as int).push(v@[i - 1]));
    }
    assert(v@.take(v.len() as int) =~= v@);
}

/// A string holding exactly the characters of `v`.
pub fn string_from_chars(v: &Vec<char>) -> (s: String)
    ensures
        s@ == v@,
{
    let mut s = String::new();
    push_chars(&mut s, v);
    assert(s@ =~= v@);
    s
}

/// Character sequences compared for equality.
pub fn chars_eq(a: &Vec<char>, b: &Vec<char>) -> (r: bool)
    ensures
        r == (a@ == b@),
{
    if a.len() != b.len() {
        return false;
    }
    let mut i: usize = 0;
    while i < a.len()
        invariant
            a.len() == b.len(),
            i <= a.len(),
            forall|j: int| 0 <= j < i ==> a@[j] == b@[j],
        decreases a.len() - i,
    {
        if a[i] != b[i] {
            return false;
        }
        i += 1;
    }
    assert(a@ =~= b@);
    true
}

/// String equality by content.
pub fn str_eq(a: &str, b: &str) -> (r: bool)
    ensures
        r == (a@ == b@),
{
    let va = chars_of(a);
    let vb = chars_of(b);
    chars_eq(&va, &vb)
}

/// Whether `pat` occurs in `s` starting at position `start`.
pub open spec fn occurs_at(s: Seq<char>, start: int, pat: Seq<char>) -> bool {
    0 <= start && start + pat.len() <= s.len() && s.subrange(start, start + pat.len()) == pat
}

/// Whether `pat` occurs anywhere in `s` (`str::contains`).
pub open spec fn contains_seq(s: Seq<char>, pat: Seq<char>) -> bool {
    exists|i: int| occurs_at(s, i, pat)
}

/// Checks `occurs_at` on character vectors.
pub fn chars_occur_at(s: &Vec<char>, start: usize, pat: &Vec<char>) -> (r: bool)
    ensures
        r == occurs_at(s@, start as int, pat@),
{
    if start > s.len() || pat.len() > s.len() - start {
        return false;
    }
    let mut j: usize = 0;
    while j < pat.len()
        invariant
            start + pat.len() <= s.len(),
            j <= pat.len(),
            forall|k: int| 0 <= k < j ==> s@[start + k] == pat@[k],
        decreases pat.len() - j,
    {
        if s[start + j] != pat[j] {
            assert(s@.subrange(start as int, start + pat.len())[j as int] != pat@[j as int]);
            return false;
        }
        j += 1;
    }
    assert(s@.subrange(start as int, start + pat.len()) =~= pat@);
    true
}

/// `str::starts_with`.
pub fn starts_with(s: &str, prefix: &str) -> (r: bool)
    ensures
        r == prefix@.is_prefix_of(s@),
{
    let vs = chars_of(s);
    let vp = chars_of(prefix);
    let r = chars_occur_at(&vs, 0, &vp);
    proof {
        if r {
            assert forall|i: int| 0 <= i < prefix@.len() implies prefix@[i] == s@[i] by {
                assert(s@.subrange(0, prefix@.len() as int)[i] == s@[i]);
            }
        }
        if prefix@.is_prefix_of(s@) {
            assert(s@.subrange(0, prefix@.len() as int) =~= prefix@);
        }
    }
    r
}

/// `str::ends_with`.
pub fn ends_with(s: &str, suffix: &str) -> (r: bool)
    ensures
        r == suffix@.is_suffix_of(s@),
{
    let vs = chars_of(s);
    let vp = chars_of(suffix);
    if vp.len() > vs.len() {
        return false;
    }
    let start = vs.len() - vp.len();
    let r = chars_occur_at(&vs, start, &vp);
    proof {
        if r {
            assert forall|i: int| 0 <= i < suffix@.len() implies suffix@[i] == s@[s@.len() - suffix@.len() + i] by {
                assert(s@.subrange(start as int, s@.len() as int)[i] == s@[start + i]);
            }
        }
        if suffix@.is_suffix_of(s@) {
            assert(s@.subrange(start as int, s@.len() as int) =~= suffix@);
        }
    }
    r
}

/// `str::contains` with a string pattern, on character vectors.
pub fn chars_contain(s: &Vec<char>, pat: &Vec<char>) -> (r: bool)
    ensures
        r == contains_seq(s@, pat@),
{
    if pat.len() == 0 {
        assert(s@.subrange(0, 0) =~= pat@);
        assert(occurs_at(s@, 0, pat@));
        return true;
    }
    let mut i: usize = 0;
    while i < s.len()
        invariant
            pat@.len() > 0,
            i <= s.len(),
            forall|k: int| 0 <= k < i ==> !occurs_at(s@, k, pat@),
        decreases s.len() - i,
    {
        if chars_occur_at(s, i, pat) {
            return true;
        }
        i += 1;
    }
    false
}

/// `str::contains` with a string pattern.
pub fn contains_str(s: &str, pat: &str) -> (r: bool)
    ensures
        r == contains_seq(s@, pat@),
{
    let vs = chars_of(s);
    let vp = chars_of(pat);
    chars_contain(&vs, &vp)
}

/// `str::contains` with a character pattern.
pub fn contains_char(s: &str, c: char) -> (r: bool)
    ensures
        r == s@.contains(c),
{
    let vs = chars_of(s);
    let mut i: usize = 0;
    while i < vs.len()
        invariant
            vs@ == s@,
            i <= vs.len(),
            forall|k: int| 0 <= k < i ==> vs@[k] != c,
        decreases vs.len() - i,
    {
        if vs[i] == c {
            return true;
        }
        i += 1;
    }
    false
}

/// The `White_Space` property of Unicode, which `char::is_whitespace` reports.
pub open spec fn is_ws(c: char) -> bool {
    let u = c as u32;
    (0x9 <= u && u <= 0xd) || u == 0x20 || u == 0x85 || u == 0xa0 || u == 0x1680 || (0x2000 <= u
        && u <= 0x200a) || u == 0x2028 || u == 0x2029 || u == 0x202f || u == 0x205f || u == 0x3000
}

/// `char::is_whitespace`.
pub fn char_is_whitespace(c: char) -> (r: bool)
    ensures
        r == is_ws(c),
{
    let u = c as u32;
    (0x9 <= u && u <= 0xd) || u == 0x20 || u == 0x85 || u == 0xa0 || u == 0x1680 || (0x2000 <= u
        && u <= 0x200a) || u == 0x2028 || u == 0x2029 || u == 0x202f || u == 0x205f || u == 0x3000
}

/// The general category `Cc`, which `char::is_control` reports.
pub open spec fn is_ctrl(c: char) -> bool {
    let u = c as u32;
    u <= 0x1f || (0x7f <= u && u <= 0x9f)
}

/// `char::is_control`.
pub fn char_is_control(c: char) -> (r: bool)
    ensures
        r == is_ctrl(c),
{
    let u = c as u32;
    u <= 0x1f || (0x7f <= u && u <= 0x9f)
}

/// The character classes that the library trims from the ends of a string.
#[derive(Clone, Copy, Debug)]
pub enum TrimSet {
    /// `char::is_whitespace`, as `str::trim` uses.
    Whitespace,
    /// A space or a dot.
    SpaceOrDot,
    /// Whitespace or a dot.
    WhitespaceOrDot,
    /// A forward slash.
    Slash,
}

/// Whether `c` belongs to the class `set`.
pub open spec fn in_trim_set(set: TrimSet, c: char) -> bool {
    match set {
        TrimSet::Whitespace => is_ws(c),
        TrimSet::SpaceOrDot => c == ' ' || c == '.',
        TrimSet::WhitespaceOrDot => is_ws(c) || c == '.',
        TrimSet::Slash => c == '/',
    }
}

/// Membership of `c` in `set`.
pub fn char_in_trim_set(set: TrimSet, c: char) -> (r: bool)
    ensures
        r == in_trim_set(set, c),
{
    match set {
        TrimSet::Whitespace => char_is_whitespace(c),
        TrimSet::SpaceOrDot => c == ' ' || c == '.',
        TrimSet::WhitespaceOrDot => char_is_whitespace(c) || c == '.',
        TrimSet::Slash => c == '/',
    }
}

/// `s` without its leading characters of class `set`.
pub open spec fn trim_start_set(s: Seq<char>, set: TrimSet) -> Seq<char>
    decreases s.len(),
{
    if s.len() > 0 && in_trim_set(set, s[0]) {
        trim_start_set(s.drop_first(), set)
    } else {
        s
    }
}

/// `s` without its trailing characters of class `set`.
pub open spec fn trim_end_set(s: Seq<char>, set: TrimSet) -> Seq<char>
    decreases s.len(),
{
    if s.len() > 0 && in_trim_set(set, s.last()) {
        trim_end_set(s.drop_last(), set)
    } else {
        s
    }
}

/// `str::trim_matches` with the class `set`.
pub open spec fn trim_set(s: Seq<char>, set: TrimSet) -> Seq<char> {
    trim_end_set(trim_start_set(s, set), set)
}

/// `str::trim`: `s` without leading and trailing whitespace.
pub open spec fn trim_spec(s: Seq<char>) -> Seq<char> {
    trim_set(s, TrimSet::Whitespace)
}

/// Skipping a prefix of class `set` of length `k` that ends at another character (or the end).
pub proof fn lemma_trim_start_skip(s: Seq<char>, set: TrimSet, k: int)
    requires
        0 <= k <= s.len(),
        forall|i: int| 0 <= i < k ==> in_trim_set(set, #[trigger] s[i]),
        k == s.len() || !in_trim_set(set, s[k]),
    ensures
        trim_start_set(s, set) == s.skip(k),
    decreases k,
{
    if k == 0 {
        assert(s.skip(0) =~= s);
    } else {
        let t = s.drop_first();
        assert forall|i: int| 0 <= i < k - 1 implies in_trim_set(set, #[trigger] t[i]) by {
            assert(t[i] == s[i + 1]);
        }
        lemma_trim_start_skip(t, set, k - 1);
        assert(t.skip(k - 1) =~= s.skip(k));
    }
}

/// Dropping a suffix of class `set` that starts right after another character (or at 0).
pub proof fn lemma_trim_end_take(s: Seq<char>, set: TrimSet, k: int)
    requires
        0 <= k <= s.len(),
        forall|i: int| k <= i < s.len() ==> in_trim_set(set, #[trigger] s[i]),
        k == 0 || !in_trim_set(set, s[k - 1]),
    ensures
        trim_end_set(s, set) == s.take(k),
    decreases s.len() - k,
{
    if k == s.len() {
        assert(s.take(k) =~= s);
    } else {
        let t = s.drop_last();
        assert forall|i: int| k <= i < t.len() implies in_trim_set(set, #[trigger] t[i]) by {
            assert(t[i] == s[i]);
        }
        lemma_trim_end_take(t, set, k);
        assert(t.take(k) =~= s.take(k));
    }
}

/// The range of `v` that `trim_set` keeps.
pub fn trim_bounds(v: &Vec<char>, set: TrimSet) -> (r: (usize, usize))
    ensures
        r.0 <= r.1 <= v.len(),
        trim_set(v@, set) == v@.subrange(r.0 as int, r.1 as int),
{
    let mut a: usize = 0;
    while a < v.len() && char_in_trim_set(set, v[a])
        invariant
            a <= v.len(),
            forall|i: int| 0 <= i < a ==> in_trim_set(set, #[trigger] v@[i]),
        decreases v.len() - a,
    {
        a += 1;
    }
    proof {
        lemma_trim_start_skip(v@, set, a as int);
    }
    let mut b: usize = v.len();
    while b > a && char_in_trim_set(set, v[b - 1])
        invariant
            a <= b <= v.len(),
            forall|i: int| b <= i < v.len() ==> in_trim_set(set, #[trigger] v@[i]),
        decreases b,
    {
        b -= 1;
    }
    proof {
        let t = v@.skip(a as int);
        let k = b - a;
        assert forall|i: int| k <= i < t.len() implies in_trim_set(set, #[trigger] t[i]) by {
            assert(t[i] == v@[a + i]);
        }
        if k > 0 {
            assert(t[k - 1] == v@[b - 1]);
        }
        lemma_trim_end_take(t, set, k as int);
        assert(t.take(k as int) =~= v@.subrange(a as int, b as int));
    }
    (a, b)
}

/// The characters of `v` between `from` and `to`.
pub fn chars_slice(v: &Vec<char>, from: usize, to: usize) -> (r: Vec<char>)
    requires
        from <= to <= v.len(),
    ensures
        r@ == v@.subrange(from as int, to as int),
{
    let mut r: Vec<char> = Vec::new();
    let mut i = from;
    while i < to
        invariant
            from <= i <= to <= v.len(),
            r@ == v@.subrange(from as int, i as int),
        decreases to - i,
    {
        r.push(v[i]);
        i += 1;
        assert(r@ =~= v@.subrange(from as int, i as int));
    }
    r
}

/// `trim_set` on character vectors.
pub fn trim_chars_set(v: &Vec<char>, set: TrimSet) -> (r: Vec<char>)
    ensures
        r@ == trim_set(v@, set),
{
    let (a, b) = trim_bounds(v, set);
    chars_slice(v, a, b)
}

/// `str::trim` on character vectors.
pub fn trim_chars(v: &Vec<char>) -> (r: Vec<char>)
    ensures
        r@ == trim_spec(v@),
{
    trim_chars_set(v, TrimSet::Whitespace)
}

/// `str::trim`, returned as an owned string.
pub fn trim(s: &str) -> (r: String)
    ensures
        r@ == trim_spec(s@),
{
    let v = chars_of(s);
    let t = trim_chars(&v);
    string_from_chars(&t)
}

/// `str::replace` with a non-empty pattern: every non-overlapping occurrence
/// of `pat`, scanning from the left, is replaced by `rep`.
pub open spec fn replace_all(s: Seq<char>, pat: Seq<char>, rep: Seq<char>) -> Seq<char>
    decreases s.len(),
{
    if pat.len() == 0 || s.len() == 0 {
        s
    } else if pat.is_prefix_of(s) {
        rep + replace_all(s.skip(pat.len() as int), pat, rep)
    } else {
        seq![s[0]] + replace_all(s.drop_first(), pat, rep)
    }
}

/// `str::replace` on character vectors.
pub fn replace_chars(s: &Vec<char>, pat: &Vec<char>, rep: &Vec<char>) -> (r: Vec<char>)
    requires
        pat@.len() > 0,
    ensures
        r@ == replace_all(s@, pat@, rep@),
{
    let mut out: Vec<char> = Vec::new();
    let mut i: usize = 0;
    assert(s@.skip(0) =~= s@);
    assert(out@ + replace_all(s@, pat@, rep@) =~= replace_all(s@, pat@, rep@));
    while i < s.len()
        invariant
            pat@.len() > 0,
            i <= s.len(),
            out@ + replace_all(s@.skip(i as int), pat@, rep@) == replace_all(s@, pat@, rep@),
        decreases s.len() - i,
    {
        let ghost rest = s@.skip(i as int);
        if chars_occur_at(s, i, pat) {
            proof {
                assert forall|k: int| 0 <= k < pat@.len() implies pat@[k] == rest[k] by {
                    assert(s@.subrange(i as int, i + pat@.len())[k] == s@[i + k]);
                }
                assert(pat@.is_prefix_of(rest));
                assert(rest.skip(pat@.len() as int) =~= s@.skip(i + pat@.len()));
            }
            let mut j: usize = 0;
            let ghost before = out@;
            while j < rep.len()
                invariant
                    j <= rep.len(),
                    out@ == before + rep@.take(j as int),
                decreases rep.len() - j,
            {
                out.push(rep[j]);
                j += 1;
                assert(rep@.take(j as int) =~= rep@.take((j - 1) as int).push(rep@[j - 1]));
            }
            assert(rep@.take(rep.len() as int) =~= rep@);
            assert(out@ + replace_all(s@.skip(i + pat@.len()), pat@, rep@) =~= before + (rep@
                + replace_all(rest.skip(pat@.len() as int), pat@, rep@)));
            i = i + pat.len();
        } else {
            proof {
                if pat@.is_prefix_of(rest) {
                    assert(s@.subrange(i as int, i + pat@.len()) =~= pat@);
                }
                assert(rest.drop_first() =~= s@.skip(i + 1));
            }
            let ghost before = out@;
            out.push(s[i]);
            assert(out@ + replace_all(s@.skip(i + 1), pat@, rep@) =~= before + (seq![rest[0]]
                + replace_all(rest.drop_first(), pat@, rep@)));
            i = i + 1;
        }
    }
    assert(out@ + replace_all(s@.skip(i as int), pat@, rep@) =~= out@);
    out
}

/// `str::replace` with a non-empty pattern.
pub fn replace_str(s: &str, pat: &str, rep: &str) -> (r: String)
    requires
        pat@.len() > 0,
    ensures
        r@ == replace_all(s@, pat@, rep@),
{
    let vs = chars_of(s);
    let vp = chars_of(pat);
    let vr = chars_of(rep);
    let out = replace_chars(&vs, &vp, &vr);
    string_from_chars(&out)
}

/// The ASCII digit for `d < 10`.
pub open spec fn digit_char(d: nat) -> char {
    (48 + d) as char
}

/// Decimal digits of `n`, as `format!("{n}")` writes an unsigned integer.
pub open spec fn decimal(n: nat) -> Seq<char>
    decreases n,
{
    if n < 10 {
        seq![digit_char(n)]
    } else {
        decimal(n / 10).push(digit_char(n % 10))
    }
}

/// Appends the decimal digits of `n` to `out`.
pub fn push_decimal(out: &mut String, n: u128)
    ensures
        final(out)@ == old(out)@ + decimal(n as nat),
    decreases n,
{
    if n >= 10 {
        push_decimal(out, n / 10);
    }
    let d = (n % 10) as u8;
    let c = (48u8 + d) as char;
    assert(c == digit_char((n % 10) as nat));
    push_char(out, c);
    proof {
        if n < 10 {
            assert(old(out)@ + decimal(n as nat) =~= old(out)@.push(c));
        } else {
            assert(old(out)@ + decimal(n as nat) =~= (old(out)@ + decimal((n / 10) as nat)).push(c));
        }
    }
}

/// The decimal text of an unsigned integer.
pub fn u64_to_string(n: u64) -> (r: String)
    ensures
        r@ == decimal(n as nat),
{
    let mut s = String::new();
    push_decimal(&mut s, n as u128);
    assert(s@ =~= decimal(n as nat));
    s
}

/// The decimal text of a `usize`.
pub fn usize_to_string(n: usize) -> (r: String)
    ensures
        r@ == decimal(n as nat),
{
    u64_to_string(n as u64)
}

/// ASCII lower-casing of one character (`char::to_ascii_lowercase`).
pub open spec fn ascii_lower(c: char) -> char {
    if 'A' <= c && c <= 'Z' {
        ((c as u32) + 32) as char
    } else {
        c
    }
}

/// `str::to_ascii_lowercase` on sequences.
pub open spec fn ascii_lower_seq(s: Seq<char>) -> Seq<char> {
    s.map_values(|c: char| ascii_lower(c))
}

/// `char::to_ascii_lowercase`.
pub fn char_to_ascii_lowercase(c: char) -> (r: char)
    ensures
        r == ascii_lower(c),
{
    if 'A' <= c && c <= 'Z' {
        let u = (c as u32) + 32;
        let b = u as u8;
        (b as char)
    } else {
        c
    }
}

/// `str::to_ascii_lowercase` on character vectors.
pub fn lower_chars(v: &Vec<char>) -> (r: Vec<char>)
    ensures
        r@ == ascii_lower_seq(v@),
{
    let mut r: Vec<char> = Vec::new();
    let mut i: usize = 0;
    while i < v.len()
        invariant
            i <= v.len(),
            r@ == ascii_lower_seq(v@.take(i as int)),
        decreases v.len() - i,
    {
        r.push(char_to_ascii_lowercase(v[i]));
        i += 1;
        assert(r@ =~= ascii_lower_seq(v@.take(i as int)));
    }
    assert(v@.take(v.len() as int) =~= v@);
    r
}

/// `str::to_ascii_lowercase`.
pub fn to_ascii_lowercase(s: &str) -> (r: String)
    ensures
        r@ == ascii_lower_seq(s@),
{
    let v = chars_of(s);
    let l = lower_chars(&v);
    string_from_chars(&l)
}

/// The first `n` characters of `s` (`chars().take(n)`).
pub open spec fn take_chars(s: Seq<char>, n: nat) -> Seq<char> {
    if s.len() <= n {
        s
    } else {
        s.take(n as int)
    }
}

/// A string holding `a` followed by `b`.
pub fn concat2(a: &str, b: &str) -> (r: String)
    ensures
        r@ == a@ + b@,
{
    let mut s = a.to_owned();
    s.append(b);
    s
}

/// A string holding `a`, `b` and `c` in turn.
pub fn concat3(a: &str, b: &str, c: &str) -> (r: String)
    ensures
        r@ == a@ + b@ + c@,
{
    let mut s = a.to_owned();
    s.append(b);
    s.append(c);
    s
}

/// A separator class for splitting strings.
#[derive(Clone, Copy, Debug)]
pub enum SplitSep {
    /// One given character.
    Char(char),
    /// Any whitespace character.
    Whitespace,
}

/// Whether `c` separates pieces under `sep`.
pub open spec fn is_sep(sep: SplitSep, c: char) -> bool {
    match sep {
        SplitSep::Char(x) => c == x,
        SplitSep::Whitespace => is_ws(c),
    }
}

/// The pieces of `s` between separators (`str::split`); there is always at
/// least one piece, and one more than there are separators.
pub open spec fn split_spec(s: Seq<char>, sep: SplitSep) -> Seq<Seq<char>>
    decreases s.len(),
{
    if s.len() == 0 {
        seq![Seq::<char>::empty()]
    } else {
        let init = split_spec(s.drop_last(), sep);
        if is_sep(sep, s.last()) {
            init.push(Seq::<char>::empty())
        } else {
            init.update(init.len() - 1, init.last().push(s.last()))
        }
    }
}

/// `split_spec` never yields an empty list of pieces.
pub proof fn lemma_split_nonempty(s: Seq<char>, sep: SplitSep)
    ensures
        split_spec(s, sep).len() >= 1,
    decreases s.len(),
{
    if s.len() > 0 {
        lemma_split_nonempty(s.drop_last(), sep);
    }
}

/// The views of a sequence of character vectors.
pub open spec fn char_vecs_view(v: Seq<Vec<char>>) -> Seq<Seq<char>> {
    v.map_values(|x: Vec<char>| x@)
}

/// Splits `v` at every separator.
pub fn split_chars(v: &Vec<char>, sep: SplitSep) -> (r: Vec<Vec<char>>)
    ensures
        char_vecs_view(r@) == split_spec(v@, sep),
{
    let mut pieces: Vec<Vec<char>> = Vec::new();
    let mut cur: Vec<char> = Vec::new();
    let mut i: usize = 0;
    assert(v@.take(0) =~= Seq::<char>::empty());
    assert(char_vecs_view(pieces@).push(cur@) =~= split_spec(v@.take(0), sep));
    while i < v.len()
        invariant
            i <= v.len(),
            char_vecs_view(pieces@).push(cur@) == split_spec(v@.take(i as int), sep),
        decreases v.len() - i,
    {
        let c = v[i];
        let ghost pre = v@.take(i as int);
        assert(v@.take(i + 1).drop_last() =~= pre);
        assert(v@.take(i + 1).last() == c);
        let is_separator = match sep {
            SplitSep::Char(x) => c == x,
            SplitSep::Whitespace => char_is_whitespace(c),
        };
        if is_separator {
            let ghost before = char_vecs_view(pieces@);
            let done = cur;
            pieces.push(done);
            cur = Vec::new();
            assert(char_vecs_view(pieces@) =~= before.push(done@));
            assert(char_vecs_view(pieces@).push(cur@) =~= before.push(done@).push(Seq::<char>::empty()));
        } else {
            let ghost before = char_vecs_view(pieces@);
            let ghost old_cur = cur@;
            cur.push(c);
            assert(char_vecs_view(pieces@) == before);
            assert(before.push(cur@) =~= before.push(old_cur).update(before.len() as int, old_cur.push(c)));
        }
        i += 1;
    }
    assert(v@.take(v.len() as int) =~= v@);
    pieces.push(cur);
    pieces
}

/// The lines of `s` as `str::lines` yields them, except that a carriage
/// return before the newline is kept (every caller trims each line).
pub open spec fn newline_pieces(s: Seq<char>) -> Seq<Seq<char>> {
    if s.len() == 0 {
        Seq::empty()
    } else if s.last() == '\n' {
        split_spec(s, SplitSep::Char('\n')).drop_last()
    } else {
        split_spec(s, SplitSep::Char('\n'))
    }
}

/// The lines of `s` (see `newline_pieces`).
pub fn lines_of(s: &str) -> (r: Vec<Vec<char>>)
    ensures
        char_vecs_view(r@) == newline_pieces(s@),
{
    let v = chars_of(s);
    let mut pieces = split_chars(&v, SplitSep::Char('\n'));
    if v.len() == 0 {
        return Vec::new();
    }
    if v[v.len() - 1] == '\n' {
        proof {
            lemma_split_nonempty(v@, SplitSep::Char('\n'));
        }
        let ghost before = char_vecs_view(pieces@);
        pieces.pop();
        assert(char_vecs_view(pieces@) =~= before.drop_last());
    }
    pieces
}

/// The non-empty pieces of `s` between whitespace (`str::split_whitespace`).
pub open spec fn words_spec(s: Seq<char>) -> Seq<Seq<char>> {
    split_spec(s, SplitSep::Whitespace).filter(nonempty_piece())
}

/// The predicate "this piece is not empty".
pub open spec fn nonempty_piece() -> spec_fn(Seq<char>) -> bool {
    |w: Seq<char>| w.len() > 0
}

/// `parts` joined with one `sep` between neighbours (`[T]::join`).
pub open spec fn join_spec(parts: Seq<Seq<char>>, sep: Seq<char>) -> Seq<char>
    decreases parts.len(),
{
    if parts.len() == 0 {
        Seq::empty()
    } else if parts.len() == 1 {
        parts[0]
    } else {
        join_spec(parts.drop_last(), sep) + sep + parts.last()
    }
}

/// `s.split_whitespace().collect::<Vec<_>>().join(" ")`.
pub fn join_words(s: &Vec<char>) -> (r: Vec<char>)
    ensures
        r@ == join_spec(words_spec(s@), seq![' ']),
{
    let pieces = split_chars(s, SplitSep::Whitespace);
    let ghost all = split_spec(s@, SplitSep::Whitespace);
    let mut out: Vec<char> = Vec::new();
    let mut count: usize = 0;
    let mut i: usize = 0;
    assert(all.take(0).filter(nonempty_piece()) =~= Seq::<Seq<char>>::empty());
    while i < pieces.len()
        invariant
            i <= pieces.len(),
            char_vecs_view(pieces@) == all,
            out@ == join_spec(all.take(i as int).filter(nonempty_piece()), seq![' ']),
            count == all.take(i as int).filter(nonempty_piece()).len(),
        decreases pieces.len() - i,
    {
        let ghost prev = all.take(i as int).filter(nonempty_piece());
        assert(all.take(i + 1) =~= all.take(i as int).push(all[i as int]));
        proof {
            all.take(i as int).lemma_filter_push(all[i as int], nonempty_piece());
        }
        let piece = &pieces[i];
        assert(piece@ == all[i as int]);
        if piece.len() > 0 {
            assert(nonempty_piece()(all[i as int]));
            let ghost before = out@;
            if count > 0 {
                out.push(' ');
            }
            let mut j: usize = 0;
            let ghost mid = out@;
            while j < piece.len()
                invariant
                    j <= piece.len(),
                    out@ == mid + piece@.take(j as int),
                decreases piece.len() - j,
            {
                out.push(piece[j]);
                j += 1;
                assert(piece@.take(j as int) =~= piece@.take((j - 1) as int).push(piece@[j - 1]));
            }
            assert(piece@.take(piece.len() as int) =~= piece@);
            let ghost next = prev.push(all[i as int]);
            assert(next.drop_last() =~= prev);
            if count > 0 {
                assert(out@ =~= join_spec(prev, seq![' ']) + seq![' '] + piece@);
            } else {
                assert(prev.len() == 0);
                assert(out@ =~= piece@);
            }
            count = count + 1;
        } else {
            assert(!nonempty_piece()(all[i as int]));
        }
        i += 1;
    }
    assert(all.take(pieces.len() as int) =~= all);
    out
}

/// Characters that cannot stand in a Windows file name, and control characters.
pub open spec fn path_unsafe(c: char) -> bool {
    c == '\\' || c == '/' || c == ':' || c == '*' || c == '?' || c == '"' || c == '<' || c == '>'
        || c == '|' || is_ctrl(c)
}

/// `c`, or `_` where `c` cannot stand in a file name.
pub open spec fn file_safe_char(c: char) -> char {
    if path_unsafe(c) {
        '_'
    } else {
        c
    }
}

/// Every character that cannot stand in a file name replaced by `_`.
pub open spec fn file_safe_seq(s: Seq<char>) -> Seq<char> {
    s.map_values(|c: char| file_safe_char(c))
}

/// Replaces each file-unsafe character of `v` by `_`.
pub fn file_safe_chars(v: &Vec<char>) -> (r: Vec<char>)
    ensures
        r@ == file_safe_seq(v@),
{
    let mut r: Vec<char> = Vec::new();
    let mut i: usize = 0;
    while i < v.len()
        invariant
            i <= v.len(),
            r@ == file_safe_seq(v@.take(i as int)),
        decreases v.len() - i,
    {
        let c = v[i];
        let unsafe_char = c == '\\' || c == '/' || c == ':' || c == '*' || c == '?' || c == '"'
            || c == '<' || c == '>' || c == '|' || char_is_control(c);
        r.push(if unsafe_char { '_' } else { c });
        i += 1;
        assert(r@ =~= file_safe_seq(v@.take(i as int)));
    }
    assert(v@.take(v.len() as int) =~= v@);
    r
}

/// The first `n` characters of `v`.
pub fn take_first(v: &Vec<char>, n: usize) -> (r: Vec<char>)
    ensures
        r@ == take_chars(v@, n as nat),
{
    if v.len() <= n {
        chars_slice(v, 0, v.len())
    } else {
        chars_slice(v, 0, n)
    }
}

/// The decimal text of a number is never empty.
pub proof fn lemma_decimal_len(n: nat)
    ensures
        decimal(n).len() >= 1,
        n >= 10 ==> decimal(n).len() >= 2,
    decreases n,
{
    if n >= 10 {
        lemma_decimal_len(n / 10);
    }
}

/// Different numbers have different decimal texts.
pub proof fn lemma_decimal_injective(a: nat, b: nat)
    requires
        decimal(a) == decimal(b),
    ensures
        a == b,
    decreases a,
{
    lemma_decimal_len(a);
    lemma_decimal_len(b);
    if a < 10 && b < 10 {
        assert(decimal(a)[0] == digit_char(a));
        assert(decimal(b)[0] == digit_char(b));
        assert((48 + a) as char == (48 + b) as char);
        assert(((48 + a) as char) as u32 == 48 + a);
        assert(((48 + b) as char) as u32 == 48 + b);
    } else if a >= 10 && b >= 10 {
        let da = decimal(a);
        let db = decimal(b);
        assert(da.last() == digit_char(a % 10));
        assert(db.last() == digit_char(b % 10));
        assert(((48 + a % 10) as char) as u32 == 48 + a % 10);
        assert(((48 + b % 10) as char) as u32 == 48 + b % 10);
        assert(da.drop_last() =~= decimal(a / 10));
        assert(db.drop_last() =~= decimal(b / 10));
        lemma_decimal_injective(a / 10, b / 10);
    } else {
        assert(decimal(a).len() != decimal(b).len());
    }
}

/// Among `used.len() + 1` pairwise different candidates some candidate is unused.
pub proof fn lemma_free_candidate(used: Seq<Seq<char>>, f: spec_fn(int) -> Seq<char>, lo: int)
    requires
        forall|i: int, j: int|
            lo <= i <= lo + used.len() && lo <= j <= lo + used.len() && i != j ==> #[trigger] f(i)
                != #[trigger] f(j),
    ensures
        exists|i: int| lo <= i <= lo + used.len() && !used.contains(#[trigger] f(i)),
{
    let n = used.len();
    if forall|i: int| lo <= i <= lo + n ==> used.contains(#[trigger] f(i)) {
        let cands = Seq::new((n + 1) as nat, |k: int| f(lo + k));
        assert forall|x: int, y: int| 0 <= x < cands.len() && 0 <= y < cands.len() && x != y implies cands[x]
            != cands[y] by {
            assert(f(lo + x) != f(lo + y));
        }
        cands.unique_seq_to_set();
        assert forall|s: Seq<char>| cands.to_set().contains(s) implies used.to_set().contains(s) by {
            let k = choose|k: int| 0 <= k < cands.len() && cands[k] == s;
            assert(used.contains(f(lo + k)));
        }
        used.lemma_cardinality_of_set();
        vstd::set_lib::lemma_len_subset(cands.to_set(), used.to_set());
        assert(false);
    }
}

} // verus!
