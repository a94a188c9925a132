//! Character-level text helpers shared by the configuration, credential and
//! script modules: Unicode trimming, ASCII case folding, decimal rendering and
//! substring tests, each with its mathematical model over `Seq<char>`.

use vstd::prelude::*;

verus! {

// ---------------------------------------------------------------- models

/// Unicode `White_Space` property (the characters `char::is_whitespace` accepts).
pub open spec fn is_ws(c: char) -> bool {
    let u = c as u32;
    (0x09 <= u <= 0x0d) || u == 0x20 || u == 0x85 || u == 0xa0 || u == 0x1680 || (0x2000 <= u
        <= 0x200a) || u == 0x2028 || u == 0x2029 || u == 0x202f || u == 0x205f || u == 0x3000
}

/// The characters that `str::trim` (whitespace) or `trim_matches(c)` (one character) strip.
pub enum Strip {
    Whitespace,
    Char(char),
}

pub open spec fn strips(k: Strip, c: char) -> bool {
    match k {
        Strip::Whitespace => is_ws(c),
        Strip::Char(x) => c == x,
    }
}

/// `s` without its leading characters of kind `k`.
pub open spec fn strip_start(s: Seq<char>, k: Strip) -> Seq<char>
    decreases s.len(),
{
    if s.len() > 0 && strips(k, s[0]) {
        strip_start(s.drop_first(), k)
    } else {
        s
    }
}

/// `s` without its trailing characters of kind `k`.
pub open spec fn strip_end(s: Seq<char>, k: Strip) -> Seq<char>
    decreases s.len(),
{
    if s.len() > 0 && strips(k, s.last()) {
        strip_end(s.drop_last(), k)
    } else {
        s
    }
}

/// Both ends stripped of characters of kind `k`.
pub open spec fn strip(s: Seq<char>, k: Strip) -> Seq<char> {
    strip_end(strip_start(s, k), k)
}

/// `str::trim`: leading and trailing whitespace removed.
pub open spec fn trim(s: Seq<char>) -> Seq<char> {
    strip(s, Strip::Whitespace)
}

pub open spec fn is_upper(c: char) -> bool {
    'A' <= c <= 'Z'
}

/// `char::to_ascii_lowercase`.
pub open spec fn lower_char(c: char) -> char {
    if is_upper(c) {
        ((c as u32) + 32) as char
    } else {
        c
    }
}

/// `str::to_ascii_lowercase`.
pub open spec fn lower(s: Seq<char>) -> Seq<char> {
    s.map_values(|c: char| lower_char(c))
}

pub open spec fn is_digit(c: char) -> bool {
    '0' <= c <= '9'
}

/// `char::is_ascii_alphanumeric`.
pub open spec fn is_alnum(c: char) -> bool {
    is_digit(c) || is_upper(c) || ('a' <= c <= 'z')
}

/// The decimal digit character of `d < 10`.
pub open spec fn digit_char(d: nat) -> char {
    (('0' as u32) + d) as char
}

/// Decimal rendering of a natural number, as `{}` formats an unsigned integer.
pub open spec fn dec(n: nat) -> Seq<char>
    decreases n,
{
    if n < 10 {
        seq![digit_char(n)]
    } else {
        dec(n / 10).push(digit_char(n % 10))
    }
}

pub open spec fn starts_with(s: Seq<char>, p: Seq<char>) -> bool {
    p.len() <= s.len() && s.take(p.len() as int) == p
}

pub open spec fn ends_with(s: Seq<char>, p: Seq<char>) -> bool {
    p.len() <= s.len() && s.skip(s.len() - p.len()) == p
}

/// `pat` occurs in `s` starting at `i`.
pub open spec fn occurs_at(s: Seq<char>, pat: Seq<char>, i: int) -> bool {
    0 <= i && i + pat.len() <= s.len() && s.subrange(i, i + pat.len()) == pat
}

pub open spec fn contains_sub(s: Seq<char>, pat: Seq<char>) -> bool {
    exists|i: int| occurs_at(s, pat, i)
}

// ---------------------------------------------------------------- lemmas

pub proof fn lemma_strip_start_at(s: Seq<char>, k: Strip, i: int)
    requires
        0 <= i <= s.len(),
        forall|j: int| 0 <= j < i ==> strips(k, #[trigger] s[j]),
        i == s.len() || !strips(k, s[i]),
    ensures
        strip_start(s, k) == s.skip(i),
    decreases i,
{
    if i == 0 {
        assert(s.skip(0) =~= s);
    } else {
        let t = s.drop_first();
        assert forall|j: int| 0 <= j < i - 1 implies strips(k, #[trigger] t[j]) by {
            assert(t[j] == s[j + 1]);
        }
        if i - 1 < t.len() {
            assert(t[i - 1] == s[i]);
        }
        lemma_strip_start_at(t, k, i - 1);
        assert(t.skip(i - 1) =~= s.skip(i));
    }
}

pub proof fn lemma_strip_end_at(s: Seq<char>, k: Strip, m: int)
    requires
        0 <= m <= s.len(),
        forall|j: int| m <= j < s.len() ==> strips(k, #[trigger] s[j]),
        m == 0 || !strips(k, s[m - 1]),
    ensures
        strip_end(s, k) == s.take(m),
    decreases s.len() - m,
{
    if m == s.len() {
        assert(s.take(m) =~= s);
    } else {
        let t = s.drop_last();
        assert(strips(k, s[s.len() - 1]));
        assert forall|j: int| m <= j < t.len() implies strips(k, #[trigger] t[j]) by {
            assert(t[j] == s[j]);
        }
        if m > 0 {
            assert(t[m - 1] == s[m - 1]);
        }
        lemma_strip_end_at(t, k, m);
        assert(t.take(m) =~= s.take(m));
    }
}

/// `strip_start(s)` is a suffix of `s`.
pub proof fn lemma_strip_start_suffix(s: Seq<char>, k: Strip)
    ensures
        strip_start(s, k).len() <= s.len(),
        strip_start(s, k) == s.skip(s.len() - strip_start(s, k).len()),
        strip_start(s, k).len() > 0 ==> !strips(k, strip_start(s, k)[0]),
    decreases s.len(),
{
    if s.len() > 0 && strips(k, s[0]) {
        lemma_strip_start_suffix(s.drop_first(), k);
        let t = s.drop_first();
        assert(t.skip(t.len() - strip_start(t, k).len()) =~= s.skip(
            s.len() - strip_start(t, k).len(),
        ));
    } else {
        assert(s.skip(0) =~= s);
    }
}

/// `strip_end(s)` is a prefix of `s`, and keeps a non-stripped first character.
pub proof fn lemma_strip_end_prefix(s: Seq<char>, k: Strip)
    ensures
        strip_end(s, k).len() <= s.len(),
        strip_end(s, k) == s.take(strip_end(s, k).len() as int),
        strip_end(s, k).len() > 0 ==> !strips(k, strip_end(s, k).last()),
        s.len() > 0 && !strips(k, s[0]) ==> strip_end(s, k).len() > 0,
    decreases s.len(),
{
    if s.len() > 0 && strips(k, s.last()) {
        lemma_strip_end_prefix(s.drop_last(), k);
        let t = s.drop_last();
        assert(t.take(strip_end(t, k).len() as int) =~= s.take(strip_end(t, k).len() as int));
        if s.len() > 1 && !strips(k, s[0]) {
            assert(t[0] == s[0]);
        }
    } else {
        assert(s.take(s.len() as int) =~= s);
    }
}

/// A stripped sequence neither starts nor ends with a stripped character,
/// and is a contiguous piece of the input.
pub proof fn lemma_strip_edges(s: Seq<char>, k: Strip) -> (i: int)
    ensures
        strip(s, k).len() > 0 ==> !strips(k, strip(s, k)[0]) && !strips(k, strip(s, k).last()),
        strip(s, k).len() <= s.len(),
        0 <= i && i + strip(s, k).len() <= s.len(),
        strip(s, k) == s.subrange(i, i + strip(s, k).len()),
{
    lemma_strip_start_suffix(s, k);
    let t = strip_start(s, k);
    lemma_strip_end_prefix(t, k);
    let r = strip_end(t, k);
    let i = s.len() - t.len();
    if r.len() > 0 {
        assert(r[0] == t[0]);
    }
    assert(r =~= s.subrange(i, i + r.len()));
    i
}

/// Stripping is idempotent.
pub proof fn lemma_strip_idempotent(s: Seq<char>, k: Strip)
    ensures
        strip(strip(s, k), k) == strip(s, k),
{
    let _ = lemma_strip_edges(s, k);
    let t = strip(s, k);
    assert(strip_start(t, k) == t);
    assert(strip_end(t, k) == t);
}

pub proof fn lemma_dec_nonempty(n: nat)
    ensures
        dec(n).len() >= 1,
        forall|i: int| 0 <= i < dec(n).len() ==> is_digit(#[trigger] dec(n)[i]),
        n >= 10 ==> dec(n).len() >= 2,
    decreases n,
{
    if n >= 10 {
        lemma_dec_nonempty(n / 10);
        assert forall|i: int| 0 <= i < dec(n).len() implies is_digit(#[trigger] dec(n)[i]) by {
            if i < dec(n / 10).len() {
                assert(dec(n)[i] == dec(n / 10)[i]);
            }
        }
    }
}

/// Distinct numbers have distinct decimal renderings.
pub proof fn lemma_dec_injective(a: nat, b: nat)
    requires
        dec(a) == dec(b),
    ensures
        a == b,
    decreases a,
{
    lemma_dec_nonempty(a);
    lemma_dec_nonempty(b);
    if a < 10 && b < 10 {
        assert(dec(a)[0] == dec(b)[0]);
        assert(digit_char(a) as u32 == 48 + a);
        assert(digit_char(b) as u32 == 48 + b);
        assert(dec(a)[0] == digit_char(a));
        assert(a == b);
    } else if a >= 10 && b >= 10 {
        assert(dec(a).last() == dec(b).last());
        assert(digit_char(a % 10) as u32 == 48 + a % 10);
        assert(digit_char(b % 10) as u32 == 48 + b % 10);
        assert(dec(a).drop_last() =~= dec(a / 10));
        assert(dec(b).drop_last() =~= dec(b / 10));
        lemma_dec_injective(a / 10, b / 10);
        assert(a == 10 * (a / 10) + a % 10);
        assert(b == 10 * (b / 10) + b % 10);
        assert(dec(a).last() == digit_char(a % 10));
        assert(a % 10 == b % 10);
        assert(a == b);
    } else {
        assert(dec(a).len() != dec(b).len());
    }
}

// ---------------------------------------------------------------- exec

/// `String::push`: appends one character.
#[verifier::external_body]
pub(crate) fn push_char(s: &mut String, c: char)
    ensures
        final(s)@ == old(s)@.push(c),
{
    s.push(c);
}

pub fn char_is_ws(c: char) -> (r: bool)
    ensures
        r == is_ws(c),
{
    let u = c as u32;
    (0x09 <= u && u <= 0x0d) || u == 0x20 || u == 0x85 || u == 0xa0 || u == 0x1680 || (0x2000
        <= u && u <= 0x200a) || u == 0x2028 || u == 0x2029 || u == 0x202f || u == 0x205f || u
        == 0x3000
}

pub fn char_is_alnum(c: char) -> (r: bool)
    ensures
        r == is_alnum(c),
{
    ('0' <= c && c <= '9') || ('A' <= c && c <= 'Z') || ('a' <= c && c <= 'z')
}

pub fn char_lower(c: char) -> (r: char)
    ensures
        r == lower_char(c),
{
    if 'A' <= c && c <= 'Z' {
        let b: u8 = c as u8;
        assert(b as u32 == c as u32);
        ((b + 32) as char)
    } else {
        c
    }
}

/// The characters of `s`.
pub fn chars_of(s: &str) -> (v: Vec<char>)
    ensures
        v@ == s@,
{
    let mut v: Vec<char> = Vec::new();
    for c in it: s.chars()
        invariant
            v@ == it.seq().take(it.index() as int),
            it.seq() == s@,
    {
        v.push(c);
    }
    v
}

/// A `String` holding exactly the characters `v`.
pub fn string_of(v: &Vec<char>) -> (s: String)
    ensures
        s@ == v@,
{
    let mut s = String::new();
    for i in 0..v.len()
        invariant
            s@ == v@.take(i as int),
    {
        push_char(&mut s, v[i]);
        assert(v@.take(i as int).push(v@[i as int]) =~= v@.take(i + 1));
    }
    assert(v@.take(v.len() as int) =~= v@);
    s
}

/// Appends the characters of `t` to `s`.
pub fn push_str(s: &mut String, t: &str)
    ensures
        final(s)@ == old(s)@ + t@,
{
    s.append(t);
}

/// Characters `v[from..to]`.
pub fn sub_chars(v: &Vec<char>, from: usize, to: usize) -> (r: Vec<char>)
    requires
        from <= to <= v.len(),
    ensures
        r@ == v@.subrange(from as int, to as int),
{
    let mut r: Vec<char> = Vec::new();
    let mut i = from;
    while i < to
        invariant
            from <= i <= to <= v.len(),
            r@ == v@.subrange(from as int, i as int),
        decreases to - i,
    {
        r.push(v[i]);
        assert(v@.subrange(from as int, i as int).push(v@[i as int]) =~= v@.subrange(
            from as int,
            i + 1,
        ));
        i = i + 1;
    }
    r
}

/// Characters of kind `k` removed from both ends (`str::trim`, `trim_matches('-')`).
pub fn strip_chars(v: &Vec<char>, k: Strip) -> (r: Vec<char>)
    ensures
        r@ == strip(v@, k),
{
    let n = v.len();
    let mut i: usize = 0;
    while i < n && char_strips(&k, v[i])
        invariant
            i <= n == v.len(),
            forall|j: int| 0 <= j < i ==> strips(k, #[trigger] v@[j]),
        decreases n - i,
    {
        i = i + 1;
    }
    proof {
        lemma_strip_start_at(v@, k, i as int);
    }
    let mut m: usize = n;
    while m > i && char_strips(&k, v[m - 1])
        invariant
            i <= m <= n == v.len(),
            forall|j: int| m <= j < n ==> strips(k, #[trigger] v@[j]),
        decreases m,
    {
        m = m - 1;
    }
    let ghost t = v@.skip(i as int);
    proof {
        assert forall|j: int| m - i <= j < t.len() implies strips(k, #[trigger] t[j]) by {
            assert(t[j] == v@[j + i]);
        }
        if m > i {
            assert(t[m - i - 1] == v@[m - 1]);
        }
        lemma_strip_end_at(t, k, m - i);
        assert(t.take(m - i) =~= v@.subrange(i as int, m as int));
    }
    sub_chars(v, i, m)
}

pub fn char_strips(k: &Strip, c: char) -> (r: bool)
    ensures
        r == strips(*k, c),
{
    match k {
        Strip::Whitespace => char_is_ws(c),
        Strip::Char(x) => c == *x,
    }
}

/// `str::trim` over characters.
pub fn trim_chars(v: &Vec<char>) -> (r: Vec<char>)
    ensures
        r@ == trim(v@),
{
    strip_chars(v, Strip::Whitespace)
}

/// `str::trim`.
pub fn trim_str(s: &str) -> (r: String)
    ensures
        r@ == trim(s@),
{
    let v = chars_of(s);
    let t = trim_chars(&v);
    string_of(&t)
}

/// `str::to_ascii_lowercase` over characters.
pub fn lower_chars(v: &Vec<char>) -> (r: Vec<char>)
    ensures
        r@ == lower(v@),
{
    let mut r: Vec<char> = Vec::new();
    for i in 0..v.len()
        invariant
            r@ =~= lower(v@.take(i as int)),
    {
        let c = char_lower(v[i]);
        r.push(c);
        assert(lower(v@.take(i + 1)) =~= lower(v@.take(i as int)).push(lower_char(v@[i as int])));
    }
    assert(v@.take(v.len() as int) =~= v@);
    r
}

/// Whether the characters `a` and `b` are equal.
pub fn chars_eq(a: &Vec<char>, b: &Vec<char>) -> (r: bool)
    ensures
        r == (a@ == b@),
{
    if a.len() != b.len() {
        return false;
    }
    for i in 0..a.len()
        invariant
            a.len() == b.len(),
            forall|j: int| 0 <= j < i ==> a@[j] == b@[j],
    {
        if a[i] != b[i] {
            return false;
        }
    }
    assert(a@ =~= b@);
    true
}

/// Whether the texts `a` and `b` are equal.
pub fn str_eq(a: &str, b: &str) -> (r: bool)
    ensures
        r == (a@ == b@),
{
    let x = chars_of(a);
    let y = chars_of(b);
    chars_eq(&x, &y)
}

/// Whether `pat` occurs in `v` at position `i`.
pub fn occurs_at_exec(v: &Vec<char>, pat: &Vec<char>, i: usize) -> (r: bool)
    ensures
        r == occurs_at(v@, pat@, i as int),
{
    if i > v.len() || pat.len() > v.len() - i {
        return false;
    }
    for j in 0..pat.len()
        invariant
            i + pat.len() <= v.len(),
            forall|k: int| 0 <= k < j ==> v@[i + k] == pat@[k],
    {
        if v[i + j] != pat[j] {
            assert(v@.subrange(i as int, i + pat.len())[j as int] != pat@[j as int]);
            return false;
        }
    }
    assert(v@.subrange(i as int, i + pat.len()) =~= pat@);
    true
}

/// `str::contains` for a pattern string.
pub fn contains_chars(v: &Vec<char>, pat: &Vec<char>) -> (r: bool)
    ensures
        r == contains_sub(v@, pat@),
{
    for i in 0..v.len()
        invariant
            forall|k: int| 0 <= k < i ==> !occurs_at(v@, pat@, k),
    {
        if occurs_at_exec(v, pat, i) {
            return true;
        }
    }
    let last = occurs_at_exec(v, pat, v.len());
    assert(last ==> occurs_at(v@, pat@, v.len() as int));
    assert(!last ==> forall|k: int| !occurs_at(v@, pat@, k)) by {
        if !last {
            assert forall|k: int| !occurs_at(v@, pat@, k) by {
                if 0 <= k < v.len() {
                }
            }
        }
    }
    last
}

/// `str::starts_with`.
pub fn starts_with_chars(v: &Vec<char>, p: &Vec<char>) -> (r: bool)
    ensures
        r == starts_with(v@, p@),
{
    let r = occurs_at_exec(v, p, 0);
    proof {
        if p@.len() <= v@.len() {
            assert(v@.subrange(0, p@.len() as int) =~= v@.take(p@.len() as int));
        }
    }
    r
}

/// `str::ends_with`.
pub fn ends_with_chars(v: &Vec<char>, p: &Vec<char>) -> (r: bool)
    ensures
        r == ends_with(v@, p@),
{
    if p.len() > v.len() {
        return false;
    }
    let r = occurs_at_exec(v, p, v.len() - p.len());
    proof {
        assert(v@.subrange(v@.len() - p@.len(), v@.len() as int) =~= v@.skip(
            v@.len() - p@.len(),
        ));
    }
    r
}

/// Decimal rendering of `n`, as `format!("{n}")`.
pub fn dec_chars(n: u64) -> (r: Vec<char>)
    ensures
        r@ == dec(n as nat),
    decreases n,
{
    if n < 10 {
        let c = char_digit(n);
        let mut r: Vec<char> = Vec::new();
        r.push(c);
        assert(r@ =~= seq![digit_char(n as nat)]);
        r
    } else {
        let mut r = dec_chars(n / 10);
        let c = char_digit(n % 10);
        r.push(c);
        r
    }
}

fn char_digit(d: u64) -> (c: char)
    requires
        d < 10,
    ensures
        c == digit_char(d as nat),
{
    let b: u8 = 48 + (d as u8);
    b as char
}

} // verus!
