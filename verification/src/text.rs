//! Text as a sequence of characters: searching, cutting and joining it.

use vstd::prelude::*;
use vstd::slice::slice_subrange;

verus! {

/// `String::push` puts one character behind the text.
pub assume_specification[ String::push ](s: &mut String, c: char)
    ensures
        final(s)@ == old(s)@.push(c),
;

/// The characters of a text.
pub fn chars_of(s: &str) -> (r: Vec<char>)
    ensures
        r@ == s@,
{
    let mut out: Vec<char> = Vec::new();
    for c in it: s.chars()
        invariant
            out@ == s@.take(it.index()),
            it.seq() == s@,
    {
        out.push(c);
        assert(s@.take(it.index() + 1) =~= s@.take(it.index()).push(s@[it.index()]));
    }
    assert(s@.take(s@.len() as int) =~= s@);
    out
}

/// The text that `s` spells.
pub fn string_of(s: &[char]) -> (r: String)
    ensures
        r@ == s@,
{
    let mut out: String = String::new();
    let mut i: usize = 0;
    while i < s.len()
        invariant
            i <= s@.len(),
            out@ == s@.take(i as int),
        decreases s@.len() - i,
    {
        out.push(s[i]);
        i = i + 1;
        assert(s@.take(i as int) =~= s@.take(i - 1).push(s@[i - 1]));
    }
    assert(s@.take(s@.len() as int) =~= s@);
    out
}

/// `str`'s equality: two texts are equal when they hold the same characters.
#[verifier::external_body]
fn str_eq(a: &str, b: &str) -> (r: bool)
    ensures
        r == (a@ == b@),
{
    a == b
}

/// Whether two texts are equal.
pub fn same(a: &str, b: &str) -> (r: bool)
    ensures
        r == (a@ == b@),
{
    str_eq(a, b)
}

/// The characters with Unicode's White_Space property.
pub open spec fn is_space(c: char) -> bool {
    ||| '\u{9}' <= c <= '\u{d}'
    ||| c == ' '
    ||| c == '\u{85}'
    ||| c == '\u{a0}'
    ||| c == '\u{1680}'
    ||| '\u{2000}' <= c <= '\u{200a}'
    ||| c == '\u{2028}'
    ||| c == '\u{2029}'
    ||| c == '\u{202f}'
    ||| c == '\u{205f}'
    ||| c == '\u{3000}'
}

/// Whether `c` is white space.
pub fn space_char(c: char) -> (r: bool)
    ensures
        r == is_space(c),
{
    ('\u{9}' <= c && c <= '\u{d}') || c == ' ' || c == '\u{85}' || c == '\u{a0}' || c == '\u{1680}'
        || ('\u{2000}' <= c && c <= '\u{200a}') || c == '\u{2028}' || c == '\u{2029}'
        || c == '\u{202f}' || c == '\u{205f}' || c == '\u{3000}'
}

/// The ASCII digits.
pub open spec fn is_digit(c: char) -> bool {
    '0' <= c <= '9'
}

/// The ASCII capitals.
pub open spec fn is_upper(c: char) -> bool {
    'A' <= c <= 'Z'
}

/// An ASCII capital's small letter; every other character stays.
pub open spec fn lower(c: char) -> char {
    if is_upper(c) {
        (c as u8 + 32) as char
    } else {
        c
    }
}

/// The small letter of `c`.
pub fn lower_char(c: char) -> (r: char)
    ensures
        r == lower(c),
{
    if 'A' <= c && c <= 'Z' {
        (c as u8 + 32) as char
    } else {
        c
    }
}

/// A text with its ASCII capitals made small.
pub open spec fn lowered(s: Seq<char>) -> Seq<char> {
    Seq::new(s.len(), |i: int| lower(s[i]))
}

/// A text with every `from` turned into `to`.
pub open spec fn swapped(s: Seq<char>, from: char, to: char) -> Seq<char> {
    Seq::new(s.len(), |i: int| if s[i] == from { to } else { s[i] })
}

/// How many characters at the front satisfy `p`.
pub open spec fn span(s: Seq<char>, p: spec_fn(char) -> bool) -> nat
    decreases s.len(),
{
    if s.len() > 0 && p(s[0]) {
        1 + span(s.skip(1), p)
    } else {
        0
    }
}

/// What `span` finds: the longest front of which every character satisfies `p`.
pub proof fn lemma_span(s: Seq<char>, p: spec_fn(char) -> bool)
    ensures
        span(s, p) <= s.len(),
        forall|j: int| 0 <= j < span(s, p) ==> p(#[trigger] s[j]),
        span(s, p) < s.len() ==> !p(s[span(s, p) as int]),
    decreases s.len(),
{
    if s.len() > 0 && p(s[0]) {
        let t = s.skip(1);
        lemma_span(t, p);
        assert forall|j: int| 0 <= j < span(s, p) implies p(#[trigger] s[j]) by {
            if j > 0 {
                assert(t[j - 1] == s[j]);
            }
        }
        if span(s, p) < s.len() {
            assert(t[span(t, p) as int] == s[span(s, p) as int]);
        }
    }
}

/// Only the longest such front is the span.
pub proof fn lemma_span_is(s: Seq<char>, p: spec_fn(char) -> bool, n: nat)
    requires
        n <= s.len(),
        forall|j: int| 0 <= j < n ==> p(#[trigger] s[j]),
        n < s.len() ==> !p(s[n as int]),
    ensures
        span(s, p) == n,
{
    lemma_span(s, p);
    if span(s, p) < n {
        assert(p(s[span(s, p) as int]));
    } else if span(s, p) > n {
        assert(p(s[n as int]));
    }
}

/// Every character but `c`.
pub open spec fn other_than(c: char) -> spec_fn(char) -> bool {
    |x: char| x != c
}

/// White space.
pub open spec fn spaces() -> spec_fn(char) -> bool {
    |x: char| is_space(x)
}

/// Everything but white space.
pub open spec fn nonspaces() -> spec_fn(char) -> bool {
    |x: char| !is_space(x)
}

/// Where `c` first occurs; the length where it does not.
pub open spec fn index_of(s: Seq<char>, c: char) -> nat {
    span(s, other_than(c))
}

/// Where `c` first occurs; the length where it does not.
pub fn find_char(s: &[char], c: char) -> (r: usize)
    ensures
        r == index_of(s@, c),
        r <= s@.len(),
        r < s@.len() ==> s@[r as int] == c,
        forall|j: int| 0 <= j < r ==> #[trigger] s@[j] != c,
{
    let mut i: usize = 0;
    while i < s.len() && s[i] != c
        invariant
            i <= s@.len(),
            forall|j: int| 0 <= j < i ==> #[trigger] s@[j] != c,
        decreases s@.len() - i,
    {
        i = i + 1;
    }
    proof {
        lemma_span_is(s@, other_than(c), i as nat);
    }
    i
}

/// Where `c` last occurs, plus one; zero where it does not.
pub open spec fn after_last(s: Seq<char>, c: char) -> nat
    decreases s.len(),
{
    if s.len() == 0 {
        0
    } else if s.last() == c {
        s.len()
    } else {
        after_last(s.drop_last(), c)
    }
}

/// Where `c` last occurs, plus one; zero where it does not.
pub fn find_last(s: &[char], c: char) -> (r: usize)
    ensures
        r == after_last(s@, c),
        r <= s@.len(),
        r > 0 ==> s@[r - 1] == c,
        forall|j: int| r <= j < s@.len() ==> #[trigger] s@[j] != c,
{
    let mut n: usize = s.len();
    assert(s@.take(n as int) =~= s@);
    while n > 0 && s[n - 1] != c
        invariant
            n <= s@.len(),
            after_last(s@, c) == after_last(s@.take(n as int), c),
            forall|j: int| n <= j < s@.len() ==> #[trigger] s@[j] != c,
        decreases n,
    {
        assert(s@.take(n as int).drop_last() =~= s@.take(n - 1));
        n = n - 1;
    }
    n
}

/// Whether `p` stands at the front of `s`.
pub open spec fn starts(s: Seq<char>, p: Seq<char>) -> bool {
    p.len() <= s.len() && s.take(p.len() as int) == p
}

/// Whether `p` stands at the end of `s`.
pub open spec fn ends(s: Seq<char>, p: Seq<char>) -> bool {
    p.len() <= s.len() && s.skip(s.len() - p.len()) == p
}

/// Whether `p` stands in `s` at place `i`.
pub open spec fn occurs_at(s: Seq<char>, p: Seq<char>, i: int) -> bool {
    0 <= i && i + p.len() <= s.len() && s.subrange(i, i + p.len()) == p
}

/// Whether `p` stands in `s` at place `i`.
pub fn at(s: &[char], p: &[char], i: usize) -> (r: bool)
    ensures
        r == occurs_at(s@, p@, i as int),
{
    if i > s.len() || p.len() > s.len() - i {
        return false;
    }
    let mut k: usize = 0;
    while k < p.len()
        invariant
            k <= p@.len(),
            i + p.len() <= s.len(),
            forall|j: int| 0 <= j < k ==> s@[i + j] == #[trigger] p@[j],
        decreases p@.len() - k,
    {
        if s[i + k] != p[k] {
            assert(s@.subrange(i as int, i + p@.len())[k as int] != p@[k as int]);
            return false;
        }
        k = k + 1;
    }
    assert(s@.subrange(i as int, i + p@.len()) =~= p@);
    true
}

/// Whether `p` stands at the front of `s`.
pub fn starts_with(s: &[char], p: &str) -> (r: bool)
    ensures
        r == starts(s@, p@),
{
    let q = chars_of(p);
    let r = at(s, q.as_slice(), 0);
    assert(q@.len() <= s@.len() ==> s@.subrange(0, q@.len() as int) =~= s@.take(q@.len() as int));
    r
}

/// Whether `p` stands at the end of `s`.
pub fn ends_with(s: &[char], p: &str) -> (r: bool)
    ensures
        r == ends(s@, p@),
{
    let q = chars_of(p);
    if q.len() > s.len() {
        return false;
    }
    let r = at(s, q.as_slice(), s.len() - q.len());
    assert(s@.subrange(s@.len() - q@.len(), s@.len() as int) =~= s@.skip(s@.len() - q@.len()));
    r
}

/// Whether the text `s` begins with `p`.
pub fn str_starts(s: &str, p: &str) -> (r: bool)
    ensures
        r == starts(s@, p@),
{
    let c = chars_of(s);
    starts_with(c.as_slice(), p)
}

/// Whether the text `s` ends with `p`.
pub fn str_ends(s: &str, p: &str) -> (r: bool)
    ensures
        r == ends(s@, p@),
{
    let c = chars_of(s);
    ends_with(c.as_slice(), p)
}

/// What is left of `s` behind the front `p`.
pub open spec fn without_prefix(s: Seq<char>, p: Seq<char>) -> Option<Seq<char>> {
    if starts(s, p) {
        Some(s.skip(p.len() as int))
    } else {
        None
    }
}

/// What is left of `s` behind the front `p`.
pub fn strip_prefix<'a>(s: &'a [char], p: &str) -> (r: Option<&'a [char]>)
    ensures
        r is Some <==> starts(s@, p@),
        r is Some ==> r->0@ == s@.skip(p@.len() as int),
        (match r { Some(x) => Some(x@), None => None }) == without_prefix(s@, p@),
{
    let q = chars_of(p);
    if starts_with(s, p) {
        let n = s.len();
        let rest = slice_subrange(s, q.len(), n);
        assert(rest@ =~= s@.skip(p@.len() as int));
        Some(rest)
    } else {
        None
    }
}

/// What is left of `s` before the end `p`.
pub open spec fn without_suffix(s: Seq<char>, p: Seq<char>) -> Option<Seq<char>> {
    if ends(s, p) {
        Some(s.take(s.len() - p.len()))
    } else {
        None
    }
}

/// What is left of `s` before the end `p`.
pub fn strip_suffix<'a>(s: &'a [char], p: &str) -> (r: Option<&'a [char]>)
    ensures
        r is Some <==> ends(s@, p@),
        r is Some ==> r->0@ == s@.take(s@.len() - p@.len()),
        (match r { Some(x) => Some(x@), None => None }) == without_suffix(s@, p@),
{
    let q = chars_of(p);
    if ends_with(s, p) {
        let rest = slice_subrange(s, 0, s.len() - q.len());
        assert(rest@ =~= s@.take(s@.len() - p@.len()));
        Some(rest)
    } else {
        None
    }
}

/// The first place at or behind `from` where `p` stands in `s`.
pub open spec fn find_from(s: Seq<char>, p: Seq<char>, from: int) -> Option<int>
    decreases s.len() - from + 1,
{
    if from < 0 || from + p.len() > s.len() {
        None
    } else if occurs_at(s, p, from) {
        Some(from)
    } else {
        find_from(s, p, from + 1)
    }
}

/// The first place where `p` stands in `s`.
pub open spec fn find_sub(s: Seq<char>, p: Seq<char>) -> Option<int> {
    find_from(s, p, 0)
}

/// The first place at or behind `from` where `p` stands in `s`.
pub fn find_text(s: &[char], p: &str, from: usize) -> (r: Option<usize>)
    ensures
        r is Some <==> find_from(s@, p@, from as int) is Some,
        r is Some ==> r->0 == find_from(s@, p@, from as int)->0 && occurs_at(s@, p@, r->0 as int)
            && r->0 >= from,
{
    let q = chars_of(p);
    let mut i: usize = from;
    while i <= s.len() && q.len() <= s.len() - i
        invariant
            q@ == p@,
            from <= i,
            find_from(s@, p@, from as int) == find_from(s@, p@, i as int),
        decreases s@.len() + 1 - i,
    {
        if at(s, q.as_slice(), i) {
            return Some(i);
        }
        if i == s.len() {
            assert(find_from(s@, p@, i + 1) is None);
            return None;
        }
        i = i + 1;
    }
    None
}

/// The last place at or before `from` where `p` stands in `s`.
pub open spec fn rfind_from(s: Seq<char>, p: Seq<char>, from: int) -> Option<int>
    decreases from + 1,
{
    if from < 0 {
        None
    } else if occurs_at(s, p, from) {
        Some(from)
    } else {
        rfind_from(s, p, from - 1)
    }
}

/// The last place where `p` stands in `s`.
pub open spec fn rfind_sub(s: Seq<char>, p: Seq<char>) -> Option<int> {
    rfind_from(s, p, s.len() as int)
}

/// The last place where `p` stands in `s`.
pub fn rfind_text(s: &[char], p: &str) -> (r: Option<usize>)
    ensures
        r is Some <==> rfind_sub(s@, p@) is Some,
        r is Some ==> r->0 == rfind_sub(s@, p@)->0 && occurs_at(s@, p@, r->0 as int),
{
    let q = chars_of(p);
    let mut i: usize = s.len();
    loop
        invariant
            q@ == p@,
            i <= s@.len(),
            rfind_sub(s@, p@) == rfind_from(s@, p@, i as int),
        decreases i,
    {
        if at(s, q.as_slice(), i) {
            return Some(i);
        }
        if i == 0 {
            assert(rfind_from(s@, p@, -1) is None);
            return None;
        }
        i = i - 1;
    }
}

/// A text without the white space at its front.
pub open spec fn trim_start(s: Seq<char>) -> Seq<char> {
    s.skip(span(s, spaces()) as int)
}

/// A text without the characters at its end that satisfy `p`.
pub open spec fn trim_end_where(s: Seq<char>, p: spec_fn(char) -> bool) -> Seq<char>
    decreases s.len(),
{
    if s.len() > 0 && p(s.last()) {
        trim_end_where(s.drop_last(), p)
    } else {
        s
    }
}

/// A text without the white space at its end.
pub open spec fn trim_end(s: Seq<char>) -> Seq<char> {
    trim_end_where(s, spaces())
}

/// A text without the white space around it.
pub open spec fn trim(s: Seq<char>) -> Seq<char> {
    trim_end(trim_start(s))
}

/// A text without the white space at its front.
pub fn trimmed_start<'a>(s: &'a [char]) -> (r: &'a [char])
    ensures
        r@ == trim_start(s@),
{
    let mut i: usize = 0;
    while i < s.len() && space_char(s[i])
        invariant
            i <= s@.len(),
            forall|j: int| 0 <= j < i ==> is_space(#[trigger] s@[j]),
        decreases s@.len() - i,
    {
        i = i + 1;
    }
    proof {
        lemma_span_is(s@, spaces(), i as nat);
        assert(s@.subrange(i as int, s@.len() as int) =~= s@.skip(i as int));
    }
    slice_subrange(s, i, s.len())
}

/// A text without the white space at its end.
pub fn trimmed_end<'a>(s: &'a [char]) -> (r: &'a [char])
    ensures
        r@ == trim_end(s@),
{
    let mut n: usize = s.len();
    assert(s@.take(n as int) =~= s@);
    while n > 0 && space_char(s[n - 1])
        invariant
            n <= s@.len(),
            trim_end_where(s@, spaces()) == trim_end_where(s@.take(n as int), spaces()),
        decreases n,
    {
        assert(s@.take(n as int).drop_last() =~= s@.take(n - 1));
        n = n - 1;
    }
    assert(s@.subrange(0, n as int) =~= s@.take(n as int));
    slice_subrange(s, 0, n)
}

/// A text without the white space around it.
pub fn trimmed<'a>(s: &'a [char]) -> (r: &'a [char])
    ensures
        r@ == trim(s@),
{
    let t = trimmed_start(s);
    trimmed_end(t)
}

/// Exactly `c`.
pub open spec fn just(c: char) -> spec_fn(char) -> bool {
    |x: char| x == c
}

/// A text without the `c`s at its end.
pub fn trimmed_end_char<'a>(s: &'a [char], c: char) -> (r: &'a [char])
    ensures
        r@ == trim_end_where(s@, just(c)),
{
    let mut n: usize = s.len();
    assert(s@.take(n as int) =~= s@);
    while n > 0 && s[n - 1] == c
        invariant
            n <= s@.len(),
            trim_end_where(s@, just(c)) == trim_end_where(s@.take(n as int), just(c)),
        decreases n,
    {
        assert(s@.take(n as int).drop_last() =~= s@.take(n - 1));
        n = n - 1;
    }
    assert(s@.subrange(0, n as int) =~= s@.take(n as int));
    slice_subrange(s, 0, n)
}

/// The pieces of `s` between the `c`s.
pub open spec fn split(s: Seq<char>, c: char) -> Seq<Seq<char>>
    decreases s.len(),
{
    let k = index_of(s, c);
    if k >= s.len() {
        seq![s]
    } else {
        seq![s.take(k as int)] + split(s.skip(k as int + 1), c)
    }
}

/// The pieces of `s` between the `c`s.
pub fn split_at_char(s: &[char], c: char) -> (r: Vec<String>)
    ensures
        r.deep_view() == split(s@, c),
{
    let mut out: Vec<String> = Vec::new();
    let mut rest = s;
    assert(out.deep_view() =~= Seq::<Seq<char>>::empty());
    assert(out.deep_view() + split(rest@, c) =~= split(s@, c));
    loop
        invariant
            out.deep_view() + split(rest@, c) == split(s@, c),
        decreases rest@.len(),
    {
        let k = find_char(rest, c);
        let ghost was = out.deep_view();
        let ghost rest0 = rest@;
        let head = slice_subrange(rest, 0, k);
        assert(head@ =~= rest0.take(k as int));
        out.push(string_of(head));
        assert(out.deep_view() =~= was.push(head@));
        if k >= rest.len() {
            assert(rest0.take(k as int) =~= rest0);
            assert(out.deep_view() =~= was + split(rest0, c));
            return out;
        }
        rest = slice_subrange(rest, k + 1, rest.len());
        assert(rest@ =~= rest0.skip(k + 1));
        assert(out.deep_view() + split(rest@, c) =~= was + split(rest0, c));
    }
}

/// The lines of `s`: each ends at a line feed, which is dropped with a carriage return before
/// it; nothing behind the last line feed is no line.
pub open spec fn lines(s: Seq<char>) -> Seq<Seq<char>>
    decreases s.len(),
{
    let k = index_of(s, '\n');
    if s.len() == 0 {
        seq![]
    } else if k >= s.len() {
        seq![s]
    } else {
        seq![without_return(s.take(k as int))] + lines(s.skip(k as int + 1))
    }
}

/// A line without the carriage return at its end.
pub open spec fn without_return(s: Seq<char>) -> Seq<char> {
    if s.len() > 0 && s.last() == '\r' {
        s.drop_last()
    } else {
        s
    }
}

/// The lines of a text, one behind the other.
pub struct Lines<'a> {
    /// What no line has been taken from yet.
    pub rest: &'a [char],
}

impl<'a> Lines<'a> {
    /// All lines of `s`.
    pub fn new(s: &'a [char]) -> (r: Lines<'a>)
        ensures
            r.rest@ == s@,
    {
        Lines { rest: s }
    }

    /// Take the next line off.
    pub fn next(&mut self) -> (r: Option<&'a [char]>)
        ensures
            r is None <==> lines(old(self).rest@).len() == 0,
            r is None <==> old(self).rest@.len() == 0,
            r is Some ==> r->0@ == lines(old(self).rest@)[0] && lines(old(self).rest@) == seq![
                r->0@,
            ] + lines(final(self).rest@) && lines(final(self).rest@) == lines(
                old(self).rest@,
            ).skip(1) && final(self).rest@.len() < old(self).rest@.len(),
            r is None ==> final(self).rest@ == old(self).rest@,
    {
        let s = self.rest;
        if s.len() == 0 {
            return None;
        }
        let k = find_char(s, '\n');
        let ghost all = lines(s@);
        if k >= s.len() {
            let line = slice_subrange(s, 0, k);
            self.rest = slice_subrange(s, k, k);
            assert(line@ =~= s@);
            assert(all =~= seq![line@] + lines(self.rest@));
            assert(all.skip(1) =~= lines(self.rest@));
            Some(line)
        } else {
            let mut n = k;
            if k > 0 && s[k - 1] == '\r' {
                n = k - 1;
            }
            let line = slice_subrange(s, 0, n);
            self.rest = slice_subrange(s, k + 1, s.len());
            assert(line@ =~= without_return(s@.take(k as int)));
            assert(self.rest@ =~= s@.skip(k + 1));
            assert(all.skip(1) =~= lines(self.rest@));
            Some(line)
        }
    }
}

/// The words of `s`: what stands between its white space.
pub open spec fn words(s: Seq<char>) -> Seq<Seq<char>>
    decreases s.len(),
{
    proof {
        lemma_span(s, spaces());
        lemma_span(trim_start(s), nonspaces());
    }
    let t = trim_start(s);
    if t.len() == 0 {
        seq![]
    } else {
        let k = span(t, nonspaces());
        seq![t.take(k as int)] + words(t.skip(k as int))
    }
}

/// The first word of `s` and what follows it.
pub fn next_word<'a>(s: &'a [char]) -> (r: Option<(&'a [char], &'a [char])>)
    ensures
        r is None <==> words(s@).len() == 0,
        r is Some ==> words(s@) == seq![(r->0).0@] + words((r->0).1@) && (r->0).0@ == words(s@)[0]
            && words((r->0).1@) == words(s@).skip(1) && (r->0).1@.len() < s@.len() && (r->0).0@.len() > 0,
{
    let t = trimmed_start(s);
    proof {
        lemma_span(s@, spaces());
    }
    if t.len() == 0 {
        return None;
    }
    let mut i: usize = 0;
    while i < t.len() && !space_char(t[i])
        invariant
            i <= t@.len(),
            forall|j: int| 0 <= j < i ==> !is_space(#[trigger] t@[j]),
        decreases t@.len() - i,
    {
        i = i + 1;
    }
    proof {
        lemma_span_is(t@, nonspaces(), i as nat);
        assert(t@.subrange(0, i as int) =~= t@.take(i as int));
        assert(t@.subrange(i as int, t@.len() as int) =~= t@.skip(i as int));
        assert(!is_space(t@[0]));
        assert(words(s@).skip(1) =~= words(t@.skip(i as int)));
    }
    Some((slice_subrange(t, 0, i), slice_subrange(t, i, t.len())))
}

/// A text with its ASCII capitals made small.
pub fn lower_text(s: &[char]) -> (r: Vec<char>)
    ensures
        r@ == lowered(s@),
{
    let mut out: Vec<char> = Vec::new();
    let mut i: usize = 0;
    while i < s.len()
        invariant
            i <= s@.len(),
            out@ =~= lowered(s@).take(i as int),
        decreases s@.len() - i,
    {
        out.push(lower_char(s[i]));
        i = i + 1;
    }
    assert(lowered(s@).take(i as int) =~= lowered(s@));
    out
}

/// A text with every `from` turned into `to`.
pub fn swap_char(s: &[char], from: char, to: char) -> (r: Vec<char>)
    ensures
        r@ == swapped(s@, from, to),
{
    let mut out: Vec<char> = Vec::new();
    let mut i: usize = 0;
    while i < s.len()
        invariant
            i <= s@.len(),
            out@ =~= swapped(s@, from, to).take(i as int),
        decreases s@.len() - i,
    {
        if s[i] == from {
            out.push(to);
        } else {
            out.push(s[i]);
        }
        i = i + 1;
    }
    assert(swapped(s@, from, to).take(i as int) =~= swapped(s@, from, to));
    out
}

/// The number that a row of digits spells.
pub open spec fn digits_value(s: Seq<char>) -> nat
    decreases s.len(),
{
    if s.len() == 0 {
        0
    } else {
        digits_value(s.drop_last()) * 10 + (s.last() as nat - '0' as nat) as nat
    }
}

/// Whether `s` holds digits only.
pub open spec fn all_digits(s: Seq<char>) -> bool {
    forall|i: int| 0 <= i < s.len() ==> is_digit(#[trigger] s[i])
}

/// A text without the plus sign before it.
pub open spec fn without_plus(s: Seq<char>) -> Seq<char> {
    if s.len() > 0 && s[0] == '+' {
        s.skip(1)
    } else {
        s
    }
}

/// The unsigned number that `s` spells: one or more digits, a plus sign before them or not.
pub open spec fn unsigned(s: Seq<char>) -> Option<nat> {
    if without_plus(s).len() > 0 && all_digits(without_plus(s)) {
        Some(digits_value(without_plus(s)))
    } else {
        None
    }
}

/// The number that `s` spells, if it is no greater than `max`.
pub fn parse_unsigned(s: &[char], max: u64) -> (r: Option<u64>)
    ensures
        r == (match unsigned(s@) {
            Some(n) => if n <= max {
                Some(n as u64)
            } else {
                None
            },
            None => None,
        }),
{
    let d: &[char] = if s.len() > 0 && s[0] == '+' {
        slice_subrange(s, 1, s.len())
    } else {
        s
    };
    assert(d@ =~= without_plus(s@));
    if d.len() == 0 {
        return None;
    }
    let mut i: usize = 0;
    let mut n: u64 = 0;
    let mut fits = true;
    while i < d.len()
        invariant
            i <= d@.len(),
            d@ == without_plus(s@),
            d@.len() > 0,
            forall|j: int| 0 <= j < i ==> is_digit(#[trigger] d@[j]),
            fits ==> n <= max && n == digits_value(d@.take(i as int)),
            !fits ==> digits_value(d@.take(i as int)) > max,
        decreases d@.len() - i,
    {
        let c = d[i];
        if c < '0' || c > '9' {
            assert(!is_digit(d@[i as int]));
            return None;
        }
        assert(d@.take(i + 1).drop_last() =~= d@.take(i as int));
        assert(d@.take(i + 1).last() == c);
        let v: u64 = (c as u32 - '0' as u32) as u64;
        if fits {
            if v > max || n > (max - v) / 10 {
                fits = false;
            } else {
                n = n * 10 + v;
            }
        }
        i = i + 1;
    }
    assert(d@.take(i as int) =~= d@);
    if fits {
        Some(n)
    } else {
        None
    }
}

/// Two texts, one behind the other.
pub fn cat2(a: &str, b: &str) -> (r: String)
    ensures
        r@ == a@ + b@,
{
    let mut s = a.to_owned();
    s.append(b);
    s
}

/// Three texts, one behind the other.
pub fn cat3(a: &str, b: &str, c: &str) -> (r: String)
    ensures
        r@ == a@ + b@ + c@,
{
    let mut s = a.to_owned();
    s.append(b);
    s.append(c);
    s
}

/// Four texts, one behind the other.
pub fn cat4(a: &str, b: &str, c: &str, d: &str) -> (r: String)
    ensures
        r@ == a@ + b@ + c@ + d@,
{
    let mut s = cat3(a, b, c);
    s.append(d);
    s
}

/// Whether one of `list` is `s`.
pub fn listed(list: &Vec<String>, s: &str) -> (r: bool)
    ensures
        r == list.deep_view().contains(s@),
{
    let mut i: usize = 0;
    while i < list.len()
        invariant
            i <= list@.len(),
            forall|j: int| 0 <= j < i ==> #[trigger] list.deep_view()[j] != s@,
        decreases list@.len() - i,
    {
        if same(list[i].as_str(), s) {
            assert(list.deep_view()[i as int] == s@);
            return true;
        }
        assert(list.deep_view()[i as int] != s@);
        i = i + 1;
    }
    false
}

/// A text in Unicode's small letters.
pub uninterp spec fn lower_case(s: Seq<char>) -> Seq<char>;

/// `str::to_lowercase`: what it returns depends on the text alone and is named `lower_case`.
#[verifier::external_body]
pub(crate) fn to_lower_case(s: &str) -> (r: String)
    ensures
        r@ == lower_case(s@),
{
    s.to_lowercase()
}

/// Whether `p` stands somewhere in `s`.
pub open spec fn has_text(s: Seq<char>, p: Seq<char>) -> bool {
    find_sub(s, p) is Some
}

/// The length of a text in bytes.
pub open spec fn byte_len(s: Seq<char>) -> usize {
    vstd::utf8::encode_utf8(s).len() as usize
}

/// A text without the characters around it that satisfy `p`.
pub open spec fn trim_where(s: Seq<char>, p: spec_fn(char) -> bool) -> Seq<char> {
    trim_end_where(s.skip(span(s, p) as int), p)
}

/// Single and double quotation marks.
pub open spec fn quotes() -> spec_fn(char) -> bool {
    |x: char| x == '"' || x == '\''
}

/// A text without the quotation marks around it.
pub fn trimmed_quotes<'a>(s: &'a [char]) -> (r: &'a [char])
    ensures
        r@ == trim_where(s@, quotes()),
{
    let mut i: usize = 0;
    while i < s.len() && (s[i] == '"' || s[i] == '\'')
        invariant
            i <= s@.len(),
            forall|j: int| 0 <= j < i ==> quotes()(#[trigger] s@[j]),
        decreases s@.len() - i,
    {
        i = i + 1;
    }
    proof {
        lemma_span_is(s@, quotes(), i as nat);
    }
    let t = slice_subrange(s, i, s.len());
    assert(t@ =~= s@.skip(i as int));
    let mut n: usize = t.len();
    assert(t@.take(n as int) =~= t@);
    while n > 0 && (t[n - 1] == '"' || t[n - 1] == '\'')
        invariant
            n <= t@.len(),
            trim_end_where(t@, quotes()) == trim_end_where(t@.take(n as int), quotes()),
        decreases n,
    {
        assert(t@.take(n as int).drop_last() =~= t@.take(n - 1));
        n = n - 1;
    }
    assert(t@.subrange(0, n as int) =~= t@.take(n as int));
    slice_subrange(t, 0, n)
}

/// A text without the `c`s around it.
pub fn trimmed_char<'a>(s: &'a [char], c: char) -> (r: &'a [char])
    ensures
        r@ == trim_where(s@, just(c)),
{
    let mut i: usize = 0;
    while i < s.len() && s[i] == c
        invariant
            i <= s@.len(),
            forall|j: int| 0 <= j < i ==> just(c)(#[trigger] s@[j]),
        decreases s@.len() - i,
    {
        i = i + 1;
    }
    proof {
        lemma_span_is(s@, just(c), i as nat);
    }
    let t = slice_subrange(s, i, s.len());
    assert(t@ =~= s@.skip(i as int));
    trimmed_end_char(t, c)
}

/// The lines of a text.
pub fn lines_of(s: &str) -> (r: Vec<String>)
    ensures
        r.deep_view() == lines(s@),
{
    let c = chars_of(s);
    let mut it = Lines::new(c.as_slice());
    let mut out: Vec<String> = Vec::new();
    assert(out.deep_view() + lines(it.rest@) =~= lines(s@));
    loop
        invariant
            out.deep_view() + lines(it.rest@) == lines(s@),
        ensures
            out.deep_view() == lines(s@),
        decreases it.rest@.len(),
    {
        let ghost was = out.deep_view();
        let ghost rest = lines(it.rest@);
        match it.next() {
            Some(line) => {
                let l = string_of(line);
                out.push(l);
                proof {
                    assert(out.deep_view() =~= was.push(l@));
                    assert(out.deep_view() + lines(it.rest@) =~= was + rest);
                }
            },
            None => {
                assert(was + rest =~= was);
                break;
            },
        }
    }
    out
}

/// Whether `c` occurs in a text.
pub open spec fn has_char(s: Seq<char>, c: char) -> bool {
    index_of(s, c) < s.len()
}

/// Whether `c` occurs in a text.
pub fn holds_char(s: &[char], c: char) -> (r: bool)
    ensures
        r == has_char(s@, c),
{
    find_char(s, c) < s.len()
}

/// `find_from` finds the first occurrence, and one where there is any.
pub proof fn lemma_find_from(s: Seq<char>, p: Seq<char>, from: int)
    requires
        0 <= from,
    ensures
        match find_from(s, p, from) {
            Some(i) => from <= i && occurs_at(s, p, i) && forall|j: int|
                from <= j < i ==> !occurs_at(s, p, j),
            None => forall|j: int| from <= j ==> !occurs_at(s, p, j),
        },
    decreases s.len() - from + 1,
{
    if from + p.len() <= s.len() && !occurs_at(s, p, from) {
        lemma_find_from(s, p, from + 1);
    }
}

/// A number in decimal digits.
pub open spec fn decimal(n: nat) -> Seq<char>
    decreases n,
{
    if n < 10 {
        seq![(n + 48) as u8 as char]
    } else {
        decimal(n / 10).push((n % 10 + 48) as u8 as char)
    }
}

/// A number in decimal digits.
pub fn decimal_text(n: u64) -> (r: String)
    ensures
        r@ == decimal(n as nat),
    decreases n,
{
    let mut out = if n < 10 {
        String::new()
    } else {
        decimal_text(n / 10)
    };
    let ghost was = out@;
    let d = ((n % 10) as u8 + 48) as char;
    out.push(d);
    assert(out@ =~= decimal(n as nat));
    out
}

} // verus!
