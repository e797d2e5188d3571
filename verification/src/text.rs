//! Character-level text primitives with their mathematical meaning.
//!
//! Text is modelled as `Seq<char>`, the view of `str` and `String`.
//! The executable primitives work on `&[char]` and are proved to compute
//! their spec functions, except two trusted wrappers around std:
//! `push_char` (`String::push`) and `lowercase_chars` (`str::to_lowercase`).
use vstd::prelude::*;

verus! {

broadcast use vstd::string::group_string_axioms;

/// Appends one character to a string.
///
/// Trusted: wraps `String::push`, whose documentation says it appends the
/// given char to the end of the string.
#[verifier::external_body]
fn push_char(s: &mut String, c: char)
    ensures
        final(s)@ == old(s)@.push(c),
{
    s.push(c);
}

/// The characters of a string slice, in order.
pub fn to_chars(s: &str) -> (v: Vec<char>)
    ensures
        v@ == s@,
{
    let mut v: Vec<char> = Vec::new();
    for c in it: s.chars()
        invariant
            v@ == it.seq().take(it.index() as int),
            it.seq() == s@,
    {
        v.push(c);
    }
    v
}

/// A string holding exactly the given characters.
pub fn string_of(cs: &[char]) -> (s: String)
    ensures
        s@ == cs@,
{
    let mut s = String::new();
    let n = cs.len();
    for i in 0..n
        invariant
            n == cs@.len(),
            s@ == cs@.take(i as int),
    {
        push_char(&mut s, cs[i]);
        assert(cs@.take(i + 1) == cs@.take(i as int).push(cs@[i as int]));
    }
    assert(cs@.take(n as int) == cs@);
    s
}

// ---------------------------------------------------------------------------
// Whitespace and trimming
// ---------------------------------------------------------------------------

/// The characters with the Unicode `White_Space` property, which is what
/// `char::is_whitespace` tests.
pub open spec fn is_ws(c: char) -> bool {
    ||| ('\u{9}' <= c && c <= '\u{D}')
    ||| c == ' '
    ||| c == '\u{85}'
    ||| c == '\u{A0}'
    ||| c == '\u{1680}'
    ||| ('\u{2000}' <= c && c <= '\u{200A}')
    ||| c == '\u{2028}'
    ||| c == '\u{2029}'
    ||| c == '\u{202F}'
    ||| c == '\u{205F}'
    ||| c == '\u{3000}'
}

pub fn is_ws_exec(c: char) -> (b: bool)
    ensures
        b == is_ws(c),
{
    ('\u{9}' <= c && c <= '\u{D}') || c == ' ' || c == '\u{85}' || c == '\u{A0}' || c == '\u{1680}'
        || ('\u{2000}' <= c && c <= '\u{200A}') || c == '\u{2028}' || c == '\u{2029}' || c
        == '\u{202F}' || c == '\u{205F}' || c == '\u{3000}'
}

/// `s` without its leading whitespace.
pub open spec fn trim_start(s: Seq<char>) -> Seq<char>
    decreases s.len(),
{
    if s.len() > 0 && is_ws(s[0]) {
        trim_start(s.drop_first())
    } else {
        s
    }
}

/// `s` without its trailing whitespace.
pub open spec fn trim_end(s: Seq<char>) -> Seq<char>
    decreases s.len(),
{
    if s.len() > 0 && is_ws(s.last()) {
        trim_end(s.drop_last())
    } else {
        s
    }
}

/// `s` without leading and trailing whitespace.
pub open spec fn trim(s: Seq<char>) -> Seq<char> {
    trim_end(trim_start(s))
}

/// The index at which `trim_start(s)` begins.
fn trim_start_index(s: &[char]) -> (i: usize)
    ensures
        i <= s@.len(),
        trim_start(s@) == s@.skip(i as int),
{
    let n = s.len();
    let mut i: usize = 0;
    assert(s@.skip(0) == s@);
    while i < n && is_ws_exec(s[i])
        invariant
            i <= n,
            n == s@.len(),
            trim_start(s@) == trim_start(s@.skip(i as int)),
        decreases n - i,
    {
        assert(s@.skip(i as int).drop_first() == s@.skip(i + 1));
        i = i + 1;
    }
    i
}

/// The index at which `trim_end(s)` ends.
fn trim_end_index(s: &[char]) -> (j: usize)
    ensures
        j <= s@.len(),
        trim_end(s@) == s@.take(j as int),
{
    let mut j: usize = s.len();
    assert(s@.take(j as int) == s@);
    while j > 0 && is_ws_exec(s[j - 1])
        invariant
            j <= s@.len(),
            trim_end(s@) == trim_end(s@.take(j as int)),
        decreases j,
    {
        assert(s@.take(j as int).drop_last() == s@.take(j - 1));
        j = j - 1;
    }
    j
}

pub fn trim_start_chars(s: &[char]) -> (r: &[char])
    ensures
        r@ == trim_start(s@),
{
    let i = trim_start_index(s);
    vstd::slice::slice_subrange(s, i, s.len())
}

pub fn trim_chars(s: &[char]) -> (r: &[char])
    ensures
        r@ == trim(s@),
{
    let t = trim_start_chars(s);
    let j = trim_end_index(t);
    vstd::slice::slice_subrange(t, 0, j)
}

// ---------------------------------------------------------------------------
// Searching
// ---------------------------------------------------------------------------

/// `p` occurs in `s` starting at index `i`.
pub open spec fn occurs_at(s: Seq<char>, p: Seq<char>, i: int) -> bool {
    0 <= i && i + p.len() <= s.len() && s.subrange(i, i + p.len()) == p
}

/// `p` occurs somewhere in `s`.
pub open spec fn contains(s: Seq<char>, p: Seq<char>) -> bool {
    exists|i: int| occurs_at(s, p, i)
}

/// The first index at or after `i` where `p` occurs in `s`.
pub open spec fn find_from(s: Seq<char>, p: Seq<char>, i: int) -> Option<int>
    decreases s.len() + 1 - i,
{
    if i < 0 || i + p.len() > s.len() {
        None
    } else if occurs_at(s, p, i) {
        Some(i)
    } else {
        find_from(s, p, i + 1)
    }
}

/// The first index where `p` occurs in `s`.
pub open spec fn find(s: Seq<char>, p: Seq<char>) -> Option<int> {
    find_from(s, p, 0)
}

/// The last index before `k` where `p` occurs in `s`.
pub open spec fn rfind_before(s: Seq<char>, p: Seq<char>, k: int) -> Option<int>
    decreases k,
{
    if k <= 0 {
        None
    } else if occurs_at(s, p, k - 1) {
        Some(k - 1)
    } else {
        rfind_before(s, p, k - 1)
    }
}

/// The last index where `p` occurs in `s`.
pub open spec fn rfind(s: Seq<char>, p: Seq<char>) -> Option<int> {
    rfind_before(s, p, s.len() - p.len() + 1)
}

/// `find_from` gives the least occurrence at or after `i`, and `None` only
/// when there is none.
pub proof fn lemma_find_from(s: Seq<char>, p: Seq<char>, i: int)
    requires
        0 <= i,
    ensures
        find_from(s, p, i) matches Some(k) ==> i <= k && occurs_at(s, p, k) && forall|j: int|
            i <= j < k ==> !occurs_at(s, p, j),
        find_from(s, p, i) is None ==> forall|j: int| i <= j ==> !occurs_at(s, p, j),
    decreases s.len() + 1 - i,
{
    if i + p.len() <= s.len() && !occurs_at(s, p, i) {
        lemma_find_from(s, p, i + 1);
    }
}

/// `find` gives the least occurrence, and `None` exactly when `p` does not occur.
pub proof fn lemma_find(s: Seq<char>, p: Seq<char>)
    ensures
        find(s, p) matches Some(k) ==> occurs_at(s, p, k) && forall|j: int|
            0 <= j < k ==> !occurs_at(s, p, j),
        find(s, p) is None <==> !contains(s, p),
{
    lemma_find_from(s, p, 0);
}

/// An occurrence with none before it is what `find` returns.
pub proof fn lemma_find_first(s: Seq<char>, p: Seq<char>, k: int)
    requires
        occurs_at(s, p, k),
        forall|j: int| 0 <= j < k ==> !occurs_at(s, p, j),
    ensures
        find(s, p) == Some(k),
{
    lemma_find_from(s, p, 0);
}

/// `rfind_before` gives the greatest occurrence before `k`.
pub proof fn lemma_rfind_before(s: Seq<char>, p: Seq<char>, k: int)
    ensures
        rfind_before(s, p, k) matches Some(m) ==> m < k && occurs_at(s, p, m) && forall|j: int|
            m < j < k ==> !occurs_at(s, p, j),
        rfind_before(s, p, k) is None ==> forall|j: int| j < k ==> !occurs_at(s, p, j),
    decreases k,
{
    if k > 0 && !occurs_at(s, p, k - 1) {
        lemma_rfind_before(s, p, k - 1);
    }
}

/// Whether `p` occurs in `s` at `i`.
fn matches_at(s: &[char], p: &[char], i: usize) -> (b: bool)
    requires
        i <= s@.len(),
    ensures
        b == occurs_at(s@, p@, i as int),
{
    let n = s.len();
    let m = p.len();
    if m > n - i {
        return false;
    }
    let mut k: usize = 0;
    while k < m
        invariant
            k <= m,
            m == p@.len(),
            n == s@.len(),
            i + m <= n,
            forall|t: int| 0 <= t < k ==> s@[i + t] == p@[t],
        decreases m - k,
    {
        if s[i + k] != p[k] {
            assert(s@.subrange(i as int, i + m)[k as int] != p@[k as int]);
            return false;
        }
        k = k + 1;
    }
    assert(s@.subrange(i as int, i + m) == p@);
    true
}

/// The first index where `p` occurs in `s`.
pub fn find_chars(s: &[char], p: &[char]) -> (r: Option<usize>)
    ensures
        match r {
            Some(k) => find(s@, p@) == Some(k as int),
            None => find(s@, p@) is None,
        },
{
    let n = s.len();
    let m = p.len();
    if m > n {
        return None;
    }
    if m == 0 {
        assert(s@.subrange(0, 0) == p@);
        return Some(0);
    }
    let mut i: usize = 0;
    while i <= n - m
        invariant
            n == s@.len(),
            m == p@.len(),
            0 < m <= n,
            find(s@, p@) == find_from(s@, p@, i as int),
        decreases n - m + 1 - i,
    {
        if matches_at(s, p, i) {
            return Some(i);
        }
        i = i + 1;
    }
    None
}

/// The last index where `p` occurs in `s`.
pub fn rfind_chars(s: &[char], p: &[char]) -> (r: Option<usize>)
    ensures
        match r {
            Some(k) => rfind(s@, p@) == Some(k as int),
            None => rfind(s@, p@) is None,
        },
{
    let n = s.len();
    let m = p.len();
    if m > n {
        proof {
            lemma_rfind_before(s@, p@, n - m + 1);
        }
        return None;
    }
    if m == 0 {
        assert(s@.subrange(n as int, n as int) == p@);
        return Some(n);
    }
    let mut k: usize = n - m + 1;
    while k > 0
        invariant
            k <= n - m + 1,
            n == s@.len(),
            m == p@.len(),
            m <= n,
            rfind(s@, p@) == rfind_before(s@, p@, k as int),
        decreases k,
    {
        if matches_at(s, p, k - 1) {
            return Some(k - 1);
        }
        k = k - 1;
    }
    None
}

/// Whether `p` occurs in `s`.
pub fn contains_chars(s: &[char], p: &[char]) -> (b: bool)
    ensures
        b == contains(s@, p@),
{
    proof {
        lemma_find(s@, p@);
    }
    find_chars(s, p).is_some()
}

/// Whether the literal `p` occurs in `s`.
pub fn contains_str(s: &[char], p: &str) -> (b: bool)
    ensures
        b == contains(s@, p@),
{
    let pc = to_chars(p);
    contains_chars(s, pc.as_slice())
}

// ---------------------------------------------------------------------------
// Removing a pattern
// ---------------------------------------------------------------------------

/// `s` with every occurrence of `p` removed, scanning from the left and
/// taking matches that do not overlap (what `str::replace(p, "")` gives).
pub open spec fn remove_all(s: Seq<char>, p: Seq<char>) -> Seq<char>
    decreases s.len(),
{
    if p.len() == 0 || s.len() < p.len() {
        s
    } else if s.take(p.len() as int) == p {
        remove_all(s.skip(p.len() as int), p)
    } else {
        seq![s[0]] + remove_all(s.drop_first(), p)
    }
}

pub fn remove_all_chars(s: &[char], p: &str) -> (r: Vec<char>)
    ensures
        r@ == remove_all(s@, p@),
{
    let pc = to_chars(p);
    let pat = pc.as_slice();
    if pat.len() == 0 {
        return vstd::slice::slice_to_vec(s);
    }
    let n = s.len();
    let m = pat.len();
    let mut out: Vec<char> = Vec::new();
    let mut i: usize = 0;
    assert(s@.skip(0) == s@);
    while i < n
        invariant
            i <= n,
            n == s@.len(),
            m == pat@.len(),
            pat@ == p@,
            m > 0,
            remove_all(s@, p@) == out@ + remove_all(s@.skip(i as int), p@),
        decreases n - i,
    {
        let ghost rest = s@.skip(i as int);
        if m <= n - i && matches_at(s, pat, i) {
            assert(rest.take(m as int) == s@.subrange(i as int, i + m));
            assert(rest.skip(m as int) == s@.skip(i + m));
            i = i + m;
        } else {
            if m <= n - i {
                assert(rest.take(m as int) == s@.subrange(i as int, i + m));
            }
            assert(rest.drop_first() == s@.skip(i + 1));
            assert(remove_all(rest, p@) == seq![rest[0]] + remove_all(rest.drop_first(), p@));
            out.push(s[i]);
            assert(out@ + remove_all(s@.skip(i + 1), p@) == out@.drop_last() + (seq![s@[i as int]]
                + remove_all(s@.skip(i + 1), p@)));
            i = i + 1;
        }
    }
    assert(s@.skip(n as int).len() == 0);
    assert(out@ + s@.skip(n as int) == out@);
    out
}

// ---------------------------------------------------------------------------
// Lines
// ---------------------------------------------------------------------------

/// `l` without one trailing carriage return.
pub open spec fn strip_cr(l: Seq<char>) -> Seq<char> {
    if l.len() > 0 && l.last() == '\r' {
        l.drop_last()
    } else {
        l
    }
}

/// The lines of `s`, given that the line being read so far holds `cur`.
/// A line ends at `\n` (a `\r` just before it is dropped); a last line
/// without `\n` is kept when it is not empty.
pub open spec fn lines_from(s: Seq<char>, cur: Seq<char>) -> Seq<Seq<char>>
    decreases s.len(),
{
    if s.len() == 0 {
        if cur.len() == 0 {
            seq![]
        } else {
            seq![cur]
        }
    } else if s[0] == '\n' {
        seq![strip_cr(cur)] + lines_from(s.drop_first(), seq![])
    } else {
        lines_from(s.drop_first(), cur.push(s[0]))
    }
}

/// The lines of `s`, as `str::lines` yields them.
pub open spec fn lines(s: Seq<char>) -> Seq<Seq<char>> {
    lines_from(s, seq![])
}

/// Text that ends with a line break splits into lines independently of
/// what follows it.
pub proof fn lemma_lines_from_concat(a: Seq<char>, c: Seq<char>, cur: Seq<char>)
    requires
        a.len() > 0,
        a.last() == '\n',
    ensures
        lines_from(a + c, cur) == lines_from(a, cur) + lines_from(c, seq![]),
    decreases a.len(),
{
    let ac = a + c;
    assert(ac[0] == a[0]);
    assert(ac.drop_first() == a.drop_first() + c);
    if a[0] == '\n' {
        if a.len() == 1 {
            assert(a.drop_first() + c == c);
            assert(lines_from(a.drop_first(), seq![]) == Seq::<Seq<char>>::empty());
            assert(lines_from(a, cur) == seq![strip_cr(cur)]);
        } else {
            lemma_lines_from_concat(a.drop_first(), c, seq![]);
            assert(lines_from(ac, cur) == seq![strip_cr(cur)] + lines_from(a.drop_first() + c, seq![]));
            assert(seq![strip_cr(cur)] + (lines_from(a.drop_first(), seq![]) + lines_from(c, seq![]))
                == (seq![strip_cr(cur)] + lines_from(a.drop_first(), seq![])) + lines_from(c, seq![]));
        }
    } else {
        assert(a.drop_first().last() == a.last());
        lemma_lines_from_concat(a.drop_first(), c, cur.push(a[0]));
    }
}

/// A line break after text without one makes one line.
pub proof fn lemma_single_line(w: Seq<char>, cur: Seq<char>)
    requires
        forall|i: int| 0 <= i < w.len() ==> w[i] != '\n',
    ensures
        lines_from(w + seq!['\n'], cur) == seq![strip_cr(cur + w)],
    decreases w.len(),
{
    let s = w + seq!['\n'];
    if w.len() == 0 {
        assert(s == seq!['\n']);
        assert(cur + w == cur);
        assert(s.drop_first() == Seq::<char>::empty());
        assert(lines_from(s.drop_first(), seq![]) == Seq::<Seq<char>>::empty());
    } else {
        assert(s[0] == w[0]);
        assert(s.drop_first() == w.drop_first() + seq!['\n']);
        lemma_single_line(w.drop_first(), cur.push(w[0]));
        assert(cur.push(w[0]) + w.drop_first() == cur + w);
    }
}

/// The lines of `a + c`, when `a` ends with a line break, are those of `a`
/// followed by those of `c`.
pub proof fn lemma_lines_concat(a: Seq<char>, c: Seq<char>)
    requires
        a.len() > 0,
        a.last() == '\n',
    ensures
        lines(a + c) == lines(a) + lines(c),
{
    lemma_lines_from_concat(a, c, seq![]);
}

/// The views of a vector of character vectors.
pub open spec fn views(v: Seq<Vec<char>>) -> Seq<Seq<char>> {
    v.map_values(|l: Vec<char>| l@)
}

fn strip_cr_vec(l: Vec<char>) -> (r: Vec<char>)
    ensures
        r@ == strip_cr(l@),
{
    let mut l = l;
    let n = l.len();
    if n > 0 && l[n - 1] == '\r' {
        l.pop();
    }
    l
}

/// The lines of `s`.
pub fn lines_of(s: &[char]) -> (r: Vec<Vec<char>>)
    ensures
        views(r@) == lines(s@),
{
    let n = s.len();
    let mut done: Vec<Vec<char>> = Vec::new();
    let mut cur: Vec<char> = Vec::new();
    let mut i: usize = 0;
    assert(s@.skip(0) == s@);
    assert(views(done@) == Seq::<Seq<char>>::empty());
    while i < n
        invariant
            i <= n,
            n == s@.len(),
            views(done@) + lines_from(s@.skip(i as int), cur@) == lines(s@),
        decreases n - i,
    {
        let ghost rest = s@.skip(i as int);
        assert(rest.drop_first() == s@.skip(i + 1));
        let c = s[i];
        if c == '\n' {
            let line = strip_cr_vec(cur);
            let ghost before = done@;
            done.push(line);
            assert(views(done@) == views(before).push(line@));
            assert(views(done@) + lines_from(s@.skip(i + 1), seq![]) == views(before) + (seq![
                strip_cr(cur@)] + lines_from(s@.skip(i + 1), seq![])));
            cur = Vec::new();
            assert(cur@ == Seq::<char>::empty());
        } else {
            cur.push(c);
        }
        i = i + 1;
    }
    assert(s@.skip(n as int).len() == 0);
    if cur.len() > 0 {
        let ghost before = done@;
        done.push(cur);
        assert(views(done@) == views(before).push(cur@));
    } else {
        assert(views(done@) + Seq::<Seq<char>>::empty() == views(done@));
    }
    done
}

// ---------------------------------------------------------------------------
// Decimal numbers
// ---------------------------------------------------------------------------

pub open spec fn is_digit(c: char) -> bool {
    '0' <= c && c <= '9'
}

pub open spec fn digit_value(c: char) -> nat {
    (c as int - '0' as int) as nat
}

pub open spec fn all_digits(s: Seq<char>) -> bool {
    forall|i: int| 0 <= i < s.len() ==> is_digit(#[trigger] s[i])
}

/// The number that the decimal digits `s` spell.
pub open spec fn digits_value(s: Seq<char>) -> nat
    decreases s.len(),
{
    if s.len() == 0 {
        0
    } else {
        digits_value(s.drop_last()) * 10 + digit_value(s.last())
    }
}

/// `s` without one leading `+`.
pub open spec fn unsigned_digits(s: Seq<char>) -> Seq<char> {
    if s.len() > 0 && s[0] == '+' {
        s.drop_first()
    } else {
        s
    }
}

/// What `str::parse::<u32>` gives, as an `Option`: an optional `+` followed
/// by at least one decimal digit, whose value fits in a `u32`.
pub open spec fn parse_u32(s: Seq<char>) -> Option<u32> {
    let d = unsigned_digits(s);
    if d.len() > 0 && all_digits(d) && digits_value(d) <= u32::MAX {
        Some(digits_value(d) as u32)
    } else {
        None
    }
}

/// A longer run of digits never has a smaller value than its prefix.
proof fn lemma_digits_value_prefix(d: Seq<char>, k: int)
    requires
        0 <= k <= d.len(),
    ensures
        digits_value(d.take(k)) <= digits_value(d),
    decreases d.len(),
{
    if k < d.len() {
        lemma_digits_value_prefix(d.drop_last(), k);
        assert(d.drop_last().take(k) == d.take(k));
    } else {
        assert(d.take(k) == d);
    }
}

/// Parses a `u32` as `str::parse::<u32>` does.
pub fn parse_u32_chars(s: &[char]) -> (r: Option<u32>)
    ensures
        r == parse_u32(s@),
{
    let n = s.len();
    let start: usize = if n > 0 && s[0] == '+' {
        1
    } else {
        0
    };
    let ghost d = unsigned_digits(s@);
    assert(d == s@.skip(start as int));
    if start == n {
        return None;
    }
    let mut acc: u64 = 0;
    let mut i: usize = start;
    assert(d.take(0) == Seq::<char>::empty());
    while i < n
        invariant
            start <= i <= n,
            start < n,
            n == s@.len(),
            d == s@.skip(start as int),
            d == unsigned_digits(s@),
            all_digits(d.take(i - start)),
            acc == digits_value(d.take(i - start)),
            acc <= u32::MAX,
        decreases n - i,
    {
        let c = s[i];
        assert(d[i - start] == c);
        if !('0' <= c && c <= '9') {
            assert(!is_digit(d[i - start]));
            assert(!all_digits(d));
            return None;
        }
        let ghost k = i - start;
        assert(d.take(k + 1).drop_last() == d.take(k));
        assert(d.take(k + 1).last() == c);
        let dig = (c as u32) - ('0' as u32);
        assert(dig == digit_value(c));
        acc = acc * 10 + dig as u64;
        assert(acc == digits_value(d.take(k + 1)));
        i = i + 1;
        assert forall|t: int| 0 <= t < d.take(k + 1).len() implies is_digit(
            #[trigger] d.take(k + 1)[t],
        ) by {
            if t < k {
                assert(d.take(k + 1)[t] == d.take(k)[t]);
            }
        }
        if acc > 0xffff_ffff {
            proof {
                lemma_digits_value_prefix(d, k + 1);
            }
            return None;
        }
    }
    assert(d.take(n - start) == d);
    Some(acc as u32)
}

/// The decimal digit of `d < 10`.
pub open spec fn digit_char(d: nat) -> char {
    (d + '0' as int) as char
}

/// The decimal spelling of `n`, without leading zeros.
pub open spec fn decimal(n: nat) -> Seq<char>
    decreases n,
{
    if n < 10 {
        seq![digit_char(n)]
    } else {
        decimal(n / 10) + seq![digit_char(n % 10)]
    }
}

fn digit_char_exec(d: u32) -> (c: char)
    requires
        d < 10,
    ensures
        c == digit_char(d as nat),
{
    match d {
        0 => '0',
        1 => '1',
        2 => '2',
        3 => '3',
        4 => '4',
        5 => '5',
        6 => '6',
        7 => '7',
        8 => '8',
        _ => '9',
    }
}

/// Appends the decimal spelling of `n` to `out`.
pub fn push_decimal(n: u32, out: &mut Vec<char>)
    ensures
        final(out)@ == old(out)@ + decimal(n as nat),
    decreases n,
{
    if n >= 10 {
        push_decimal(n / 10, out);
    }
    let ghost mid = out@;
    out.push(digit_char_exec(n % 10));
    assert(old(out)@ + decimal(n as nat) == mid.push(digit_char((n % 10) as nat)));
}

proof fn lemma_digit_char(d: nat)
    requires
        d < 10,
    ensures
        is_digit(digit_char(d)),
        digit_value(digit_char(d)) == d,
{
    assert((d + '0' as int) as char as int == d + '0' as int);
}

/// Reading back a decimal spelling gives the number.
pub proof fn lemma_decimal_digits(n: nat)
    ensures
        decimal(n).len() > 0,
        all_digits(decimal(n)),
        digits_value(decimal(n)) == n,
    decreases n,
{
    if n < 10 {
        lemma_digit_char(n);
        assert(decimal(n).drop_last() == Seq::<char>::empty());
        assert(digits_value(Seq::<char>::empty()) == 0);
    } else {
        lemma_decimal_digits(n / 10);
        let s = decimal(n);
        assert(s.drop_last() == decimal(n / 10));
        lemma_digit_char((n % 10) as nat);
        assert(s.last() == digit_char((n % 10) as nat));
        assert(digits_value(s) == digits_value(decimal(n / 10)) * 10 + (n % 10) as nat);
        assert((n / 10) * 10 + n % 10 == n);
        assert forall|i: int| 0 <= i < s.len() implies is_digit(#[trigger] s[i]) by {
            if i < s.len() - 1 {
                assert(s[i] == decimal(n / 10)[i]);
            }
        }
    }
}

/// `parse_u32` reads back the decimal spelling of every `u32`.
pub proof fn lemma_parse_decimal(n: u32)
    ensures
        parse_u32(decimal(n as nat)) == Some(n),
{
    lemma_decimal_digits(n as nat);
    assert(is_digit(decimal(n as nat)[0]));
}

// ---------------------------------------------------------------------------
// Lower case
// ---------------------------------------------------------------------------

/// Every character of `s` is ASCII.
pub open spec fn is_ascii_text(s: Seq<char>) -> bool {
    forall|i: int| 0 <= i < s.len() ==> (#[trigger] s[i] as int) < 128
}

/// The ASCII lower case of `c`: `A`..`Z` become `a`..`z`, all else stays.
pub open spec fn ascii_lower_char(c: char) -> char {
    if 'A' <= c && c <= 'Z' {
        (c as int + 32) as char
    } else {
        c
    }
}

/// `s` with each character in ASCII lower case.
pub open spec fn ascii_lower(s: Seq<char>) -> Seq<char> {
    s.map_values(|c: char| ascii_lower_char(c))
}

/// What `str::to_lowercase` returns for a string with the characters `s`.
pub uninterp spec fn lowercase_of(s: Seq<char>) -> Seq<char>;

/// The lower-case form of the text `s`.
///
/// Trusted: wraps `str::to_lowercase`, which maps each character to its
/// Unicode lower-case mapping. The contract only names the result: it is
/// `lowercase_of` of the input and depends on nothing else. Of the Unicode
/// tables it states only the ASCII part: in ASCII text, `A`..`Z` become
/// `a`..`z` (the example `"HELLO"` to `"hello"` of the documentation) and
/// every other ASCII character has no lower-case mapping, so it stays.
#[verifier::external_body]
pub(crate) fn lowercase_chars(s: &[char]) -> (r: Vec<char>)
    ensures
        r@ == lowercase_of(s@),
        is_ascii_text(s@) ==> r@ == ascii_lower(s@),
{
    let t: String = s.iter().collect();
    t.to_lowercase().chars().collect()
}

/// Whether `s` holds exactly the characters of the literal `lit`.
pub fn eq_str(s: &[char], lit: &str) -> (b: bool)
    ensures
        b == (s@ == lit@),
{
    let l = to_chars(lit);
    let n = s.len();
    if n != l.len() {
        return false;
    }
    for i in 0..n
        invariant
            n == s@.len(),
            n == l@.len(),
            l@ == lit@,
            forall|k: int| 0 <= k < i ==> s@[k] == l@[k],
    {
        if s[i] != l[i] {
            return false;
        }
    }
    assert(s@ == l@);
    true
}

// ---------------------------------------------------------------------------
// Facts about text built from pieces
// ---------------------------------------------------------------------------

/// The character `c` does not occur in `s`.
pub open spec fn lacks(s: Seq<char>, c: char) -> bool {
    forall|i: int| 0 <= i < s.len() ==> s[i] != c
}

pub proof fn lemma_lacks_concat(a: Seq<char>, b: Seq<char>, c: char)
    requires
        lacks(a, c),
        lacks(b, c),
    ensures
        lacks(a + b, c),
{
    assert forall|i: int| 0 <= i < (a + b).len() implies (a + b)[i] != c by {
        if i >= a.len() {
            assert((a + b)[i] == b[i - a.len()]);
        }
    }
}

/// A pattern whose first character is absent does not occur.
pub proof fn lemma_lacks_no_occurrence(s: Seq<char>, p: Seq<char>)
    requires
        p.len() > 0,
        lacks(s, p[0]),
    ensures
        !contains(s, p),
{
    assert forall|j: int| !occurs_at(s, p, j) by {
        if occurs_at(s, p, j) {
            assert(s.subrange(j, j + p.len())[0] == s[j]);
        }
    }
}

/// Removing a pattern whose first character is absent changes nothing.
pub proof fn lemma_remove_absent(s: Seq<char>, p: Seq<char>)
    requires
        p.len() > 0,
        lacks(s, p[0]),
    ensures
        remove_all(s, p) == s,
    decreases s.len(),
{
    if s.len() >= p.len() {
        assert(s.take(p.len() as int)[0] == s[0]);
        assert(s.take(p.len() as int) != p);
        assert(lacks(s.drop_first(), p[0])) by {
            assert forall|i: int| 0 <= i < s.drop_first().len() implies s.drop_first()[i] != p[0] by {
                assert(s.drop_first()[i] == s[i + 1]);
            }
        }
        lemma_remove_absent(s.drop_first(), p);
        assert(seq![s[0]] + s.drop_first() == s);
    }
}

/// Removing one character works piece by piece.
pub proof fn lemma_remove_char_concat(a: Seq<char>, b: Seq<char>, c: char)
    ensures
        remove_all(a + b, seq![c]) == remove_all(a, seq![c]) + remove_all(b, seq![c]),
    decreases a.len(),
{
    let p = seq![c];
    let ab = a + b;
    if a.len() == 0 {
        assert(ab == b);
        assert(remove_all(a, p) == a);
        assert(a + remove_all(b, p) == remove_all(b, p));
    } else {
        assert(ab.take(1) == a.take(1));
        assert(ab.skip(1) == a.skip(1) + b);
        assert(ab.drop_first() == a.drop_first() + b);
        assert(a.skip(1) == a.drop_first());
        assert(ab[0] == a[0]);
        lemma_remove_char_concat(a.drop_first(), b, c);
        assert(seq![a[0]] + (remove_all(a.drop_first(), p) + remove_all(b, p)) == (seq![a[0]]
            + remove_all(a.drop_first(), p)) + remove_all(b, p));
    }
}

/// Leading whitespace goes, whatever follows it.
pub proof fn lemma_trim_start_ws_prefix(w: Seq<char>, r: Seq<char>)
    requires
        forall|i: int| 0 <= i < w.len() ==> is_ws(#[trigger] w[i]),
    ensures
        trim_start(w + r) == trim_start(r),
    decreases w.len(),
{
    if w.len() == 0 {
        assert(w + r == r);
    } else {
        assert((w + r)[0] == w[0]);
        assert((w + r).drop_first() == w.drop_first() + r);
        assert forall|i: int| 0 <= i < w.drop_first().len() implies is_ws(#[trigger] w.drop_first()[i]) by {
            assert(w.drop_first()[i] == w[i + 1]);
        }
        lemma_trim_start_ws_prefix(w.drop_first(), r);
    }
}

/// Text that neither starts nor ends with whitespace is its own trim.
pub proof fn lemma_trim_unchanged(s: Seq<char>)
    requires
        s.len() > 0,
        !is_ws(s[0]),
        !is_ws(s.last()),
    ensures
        trim(s) == s,
{
}

/// The last occurrence, when none comes after it, is what `rfind` returns.
pub proof fn lemma_rfind_last(s: Seq<char>, p: Seq<char>, k: int)
    requires
        occurs_at(s, p, k),
        forall|j: int| k < j ==> !occurs_at(s, p, j),
    ensures
        rfind(s, p) == Some(k),
{
    lemma_rfind_before(s, p, s.len() - p.len() + 1);
}

/// Removing the character `c` from text made of whitespace, `c` and `e`
/// leaves text made of whitespace and `e`.
pub proof fn lemma_remove_char_from_marks(s: Seq<char>, c: char, e: char)
    requires
        forall|i: int| 0 <= i < s.len() ==> is_ws(#[trigger] s[i]) || s[i] == c || s[i] == e,
    ensures
        forall|i: int|
            0 <= i < remove_all(s, seq![c]).len() ==> is_ws(#[trigger] remove_all(s, seq![c])[i])
                || remove_all(s, seq![c])[i] == e,
    decreases s.len(),
{
    if s.len() > 0 {
        let p = seq![c];
        let t = s.drop_first();
        assert forall|i: int| 0 <= i < t.len() implies is_ws(#[trigger] t[i]) || t[i] == c || t[i] == e by {
            assert(t[i] == s[i + 1]);
        }
        lemma_remove_char_from_marks(t, c, e);
        assert(s.skip(1) == t);
        if s.take(1) == p {
        } else {
            let r = remove_all(s, p);
            assert(r == seq![s[0]] + remove_all(t, p));
            assert(s.take(1)[0] == s[0]);
            assert(s[0] != c) by {
                if s[0] == c {
                    assert(s.take(1) == p);
                }
            }
            assert forall|i: int| 0 <= i < r.len() implies is_ws(#[trigger] r[i]) || r[i] == e by {
                if i > 0 {
                    assert(r[i] == remove_all(t, p)[i - 1]);
                }
            }
        }
    }
}

/// Removing a single character leaves none of it.
pub proof fn lacks_after_remove(s: Seq<char>, c: char, i: int)
    requires
        0 <= i < remove_all(s, seq![c]).len(),
    ensures
        remove_all(s, seq![c])[i] != c,
    decreases s.len(),
{
    let p = seq![c];
    if s.len() > 0 {
        let t = s.drop_first();
        assert(s.skip(1) == t);
        if s.take(1) == p {
            lacks_after_remove(t, c, i);
        } else {
            assert(s.take(1)[0] == s[0]);
            if i > 0 {
                lacks_after_remove(t, c, i - 1);
            } else {
                assert(s[0] != c) by {
                    if s[0] == c {
                        assert(s.take(1) == p);
                    }
                }
            }
        }
    }
}

} // verus!
