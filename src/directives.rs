//! Reading cache directives and validators from response headers.
use vstd::prelude::*;
use vstd::string::StrSliceExecFns;
use crate::cache::{text_view, Directives};

verus! {

/// `no-store`, `must-revalidate` (or `no-cache`), and `max-age`.
pub type Flags = (bool, bool, Option<u64>);

pub open spec fn is_space(c: char) -> bool {
    c == ' ' || c == '\t'
}

/// `c` is the character `l`, which is lower case, in either case.
pub open spec fn same_letter(c: char, l: char) -> bool {
    c == l || ('A' <= c <= 'Z' && (c as u32) + 32 == (l as u32))
}

/// `s` equals the lower-case `lit`, ignoring ASCII case.
pub open spec fn ieq(s: Seq<char>, lit: Seq<char>) -> bool {
    &&& s.len() == lit.len()
    &&& forall|i: int| 0 <= i < s.len() ==> same_letter(s[i], lit[i])
}

/// The first comma at or after `from`, or the end.
pub open spec fn next_comma(s: Seq<char>, from: int) -> int
    decreases s.len() - from,
{
    if from >= s.len() {
        s.len() as int
    } else if s[from] == ',' {
        from
    } else {
        next_comma(s, from + 1)
    }
}

pub open spec fn trim_start(s: Seq<char>, a: int, b: int) -> int
    decreases b - a,
{
    if a < b && is_space(s[a]) {
        trim_start(s, a + 1, b)
    } else {
        a
    }
}

pub open spec fn trim_end(s: Seq<char>, a: int, b: int) -> int
    decreases b - a,
{
    if a < b && is_space(s[b - 1]) {
        trim_end(s, a, b - 1)
    } else {
        b
    }
}

pub open spec fn is_digit(c: char) -> bool {
    '0' <= c <= '9'
}

pub open spec fn all_digits(t: Seq<char>) -> bool {
    forall|i: int| 0 <= i < t.len() ==> is_digit(t[i])
}

/// The number that the decimal digits `t` write.
pub open spec fn digits_value(t: Seq<char>) -> int
    decreases t.len(),
{
    if t.len() == 0 {
        0
    } else {
        digits_value(t.drop_last()) * 10 + ((t.last() as u32) - 48)
    }
}

/// The value of a `max-age=N` directive, where N fits in 64 bits.
pub open spec fn max_age_of(t: Seq<char>) -> Option<u64> {
    let digits = t.subrange(8, t.len() as int);
    if t.len() > 8 && ieq(t.subrange(0, 8), "max-age="@) && all_digits(digits) && digits_value(
        digits,
    ) <= u64::MAX {
        Some(digits_value(digits) as u64)
    } else {
        None
    }
}

/// What one directive says.
pub open spec fn token_flags(t: Seq<char>) -> Flags {
    (ieq(t, "no-store"@), ieq(t, "must-revalidate"@) || ieq(t, "no-cache"@), max_age_of(t))
}

/// Two sets of directives together; the first `max-age` counts.
pub open spec fn combine(a: Flags, b: Flags) -> Flags {
    (a.0 || b.0, a.1 || b.1, if a.2 is Some {
        a.2
    } else {
        b.2
    })
}

/// The directives of the comma-separated list `s` from position `from`
/// on, each with the spaces around it trimmed.
pub open spec fn scan(s: Seq<char>, from: int) -> Flags
    decreases s.len() + 1 - from,
{
    let e = next_comma(s, from);
    if from > s.len() || e < from || e > s.len() {
        (false, false, None)
    } else {
        let a = trim_start(s, from, e);
        let t = s.subrange(a, trim_end(s, a, e));
        combine(token_flags(t), scan(s, e + 1))
    }
}

pub open spec fn no_flags() -> Flags {
    (false, false, None)
}

/// The directives and validators that a list of headers gives: every
/// `Cache-Control` header counts, the last `ETag` and `Last-Modified` win.
pub open spec fn header_fold(h: Seq<(String, String)>) -> (Flags, Option<Seq<char>>, Option<Seq<char>>)
    decreases h.len(),
{
    if h.len() == 0 {
        (no_flags(), None, None)
    } else {
        let prev = header_fold(h.drop_last());
        let name = h.last().0@;
        let value = h.last().1@;
        if ieq(name, "cache-control"@) {
            (combine(prev.0, scan(value, 0)), prev.1, prev.2)
        } else if ieq(name, "etag"@) {
            (prev.0, Some(value), prev.2)
        } else if ieq(name, "last-modified"@) {
            (prev.0, prev.1, Some(value))
        } else {
            prev
        }
    }
}

/// Some header is `Vary`: the response differs with request headers.
pub open spec fn has_vary(h: Seq<(String, String)>) -> bool {
    exists|i: int| 0 <= i < h.len() && ieq(#[trigger] h[i].0@, "vary"@)
}

proof fn lemma_next_comma_bounds(s: Seq<char>, from: int)
    requires
        0 <= from <= s.len(),
    ensures
        from <= next_comma(s, from) <= s.len(),
    decreases s.len() - from,
{
    if from < s.len() && s[from] != ',' {
        lemma_next_comma_bounds(s, from + 1);
    }
}

proof fn lemma_trim_bounds(s: Seq<char>, a: int, b: int)
    requires
        a <= b,
    ensures
        a <= trim_start(s, a, b) <= b,
        a <= trim_end(s, a, b) <= b,
    decreases b - a,
{
    if a < b {
        lemma_trim_bounds(s, a + 1, b);
        lemma_trim_bounds(s, a, b - 1);
    }
}

proof fn lemma_digits_grow(t: Seq<char>, k: int)
    requires
        all_digits(t),
        0 <= k <= t.len(),
    ensures
        digits_value(t.subrange(0, k)) <= digits_value(t),
        digits_value(t) >= 0,
    decreases t.len(),
{
    if t.len() > 0 {
        assert(all_digits(t.drop_last()));
        if k < t.len() {
            lemma_digits_grow(t.drop_last(), k);
            assert(t.drop_last().subrange(0, k) =~= t.subrange(0, k));
        } else {
            assert(t.subrange(0, k) =~= t);
            lemma_digits_grow(t.drop_last(), 0);
        }
    }
}

/// The characters of `s`.
fn chars_of(s: &str) -> (r: Vec<char>)
    ensures
        r@ == s@,
{
    let n = s.unicode_len();
    let mut r: Vec<char> = Vec::new();
    let mut i: usize = 0;
    while i < n
        invariant
            n == s@.len(),
            i <= n,
            r@ == s@.subrange(0, i as int),
        decreases n - i,
    {
        r.push(s.get_char(i));
        proof {
            assert(r@ =~= s@.subrange(0, i + 1));
        }
        i = i + 1;
    }
    proof {
        assert(s@.subrange(0, n as int) =~= s@);
    }
    r
}

/// Whether `s[a..b]` equals the lower-case `lit`, ignoring ASCII case.
fn ieq_range(s: &Vec<char>, a: usize, b: usize, lit: &Vec<char>) -> (r: bool)
    requires
        a <= b <= s@.len(),
    ensures
        r == ieq(s@.subrange(a as int, b as int), lit@),
{
    if b - a != lit.len() {
        return false;
    }
    let mut i: usize = 0;
    while i < lit.len()
        invariant
            b - a == lit@.len(),
            a <= b <= s@.len(),
            i <= lit@.len(),
            forall|j: int| 0 <= j < i ==> same_letter(s@[a + j], lit@[j]),
        decreases lit@.len() - i,
    {
        let c = s[a + i];
        let l = lit[i];
        if !(c == l || ('A' <= c && c <= 'Z' && (c as u32) + 32 == (l as u32))) {
            proof {
                assert(!same_letter(s@.subrange(a as int, b as int)[i as int], lit@[i as int]));
            }
            return false;
        }
        i = i + 1;
    }
    true
}

/// The value of `max-age=N` in `s[a..b]`, if that is what it holds.
fn max_age_in(s: &Vec<char>, a: usize, b: usize, prefix: &Vec<char>) -> (r: Option<u64>)
    requires
        a <= b <= s@.len(),
        prefix@ == "max-age="@,
    ensures
        r == max_age_of(s@.subrange(a as int, b as int)),
{
    proof {
        reveal_strlit("max-age=");
    }
    let ghost t = s@.subrange(a as int, b as int);
    if b - a <= 8 {
        return None;
    }
    proof {
        assert(t.subrange(0, 8) =~= s@.subrange(a as int, a + 8));
    }
    if !ieq_range(s, a, a + 8, prefix) {
        return None;
    }
    let ghost digits = t.subrange(8, t.len() as int);
    let mut v: u64 = 0;
    let mut i: usize = a + 8;
    while i < b
        invariant
            a + 8 <= i <= b <= s@.len(),
            t == s@.subrange(a as int, b as int),
            digits == t.subrange(8, t.len() as int),
            forall|j: int| 0 <= j < i - (a + 8) ==> is_digit(digits[j]),
            v == digits_value(digits.subrange(0, i - (a + 8))),
        decreases b - i,
    {
        let c = s[i];
        let ghost k = i - (a + 8);
        proof {
            assert(digits[k] == c);
            assert(digits.subrange(0, k + 1).drop_last() =~= digits.subrange(0, k));
        }
        if !('0' <= c && c <= '9') {
            return None;
        }
        let d = (c as u32 - 48) as u64;
        match v.checked_mul(10) {
            None => {
                proof {
                    assert(digits.subrange(0, k + 1).last() == c);
                    let full = digits.subrange(0, k + 1);
                    assert(all_digits(full));
                    lemma_digits_grow(full.drop_last(), 0);
                    assert(digits_value(full) > u64::MAX);
                    if all_digits(digits) {
                        lemma_digits_grow(digits, k + 1);
                    }
                }
                return None;
            },
            Some(m) => match m.checked_add(d) {
                None => {
                    proof {
                        let full = digits.subrange(0, k + 1);
                        assert(full.last() == c);
                        assert(all_digits(full));
                        assert(digits_value(full) > u64::MAX);
                        if all_digits(digits) {
                            lemma_digits_grow(digits, k + 1);
                        }
                    }
                    return None;
                },
                Some(n) => {
                    proof {
                        assert(digits.subrange(0, k + 1).last() == c);
                    }
                    v = n;
                },
            },
        }
        i = i + 1;
    }
    proof {
        assert(digits.subrange(0, digits.len() as int) =~= digits);
    }
    Some(v)
}

fn find_comma(s: &Vec<char>, from: usize) -> (e: usize)
    requires
        from <= s@.len(),
    ensures
        e == next_comma(s@, from as int),
{
    let mut i = from;
    while i < s.len() && s[i] != ','
        invariant
            from <= i <= s@.len(),
            next_comma(s@, from as int) == next_comma(s@, i as int),
        decreases s@.len() - i,
    {
        i = i + 1;
    }
    i
}

fn trim_range(s: &Vec<char>, a: usize, b: usize) -> (r: (usize, usize))
    requires
        a <= b <= s@.len(),
    ensures
        r.0 == trim_start(s@, a as int, b as int),
        r.1 == trim_end(s@, r.0 as int, b as int),
        a <= r.0 <= r.1 <= b,
{
    let mut x = a;
    while x < b && (s[x] == ' ' || s[x] == '\t')
        invariant
            a <= x <= b <= s@.len(),
            trim_start(s@, a as int, b as int) == trim_start(s@, x as int, b as int),
        decreases b - x,
    {
        x = x + 1;
    }
    let mut y = b;
    while y > x && (s[y - 1] == ' ' || s[y - 1] == '\t')
        invariant
            x <= y <= b <= s@.len(),
            trim_end(s@, x as int, b as int) == trim_end(s@, x as int, y as int),
        decreases y - x,
    {
        y = y - 1;
    }
    (x, y)
}

/// The words that directives are matched against.
struct Words {
    no_store: Vec<char>,
    must_revalidate: Vec<char>,
    no_cache: Vec<char>,
    max_age: Vec<char>,
}

impl Words {
    spec fn wf(&self) -> bool {
        &&& self.no_store@ == "no-store"@
        &&& self.must_revalidate@ == "must-revalidate"@
        &&& self.no_cache@ == "no-cache"@
        &&& self.max_age@ == "max-age="@
    }

    fn new() -> (r: Words)
        ensures
            r.wf(),
    {
        Words {
            no_store: chars_of("no-store"),
            must_revalidate: chars_of("must-revalidate"),
            no_cache: chars_of("no-cache"),
            max_age: chars_of("max-age="),
        }
    }
}

/// The directives of the comma-separated list `value`.
fn cache_control_flags(value: &str, words: &Words) -> (r: Flags)
    requires
        words.wf(),
    ensures
        r == scan(value@, 0),
{
    let s = chars_of(value);
    let mut acc: Flags = (false, false, None);
    let mut pos: usize = 0;
    loop
        invariant
            words.wf(),
            s@ == value@,
            pos <= s@.len(),
            combine(acc, scan(s@, pos as int)) == scan(s@, 0),
        ensures
            acc == scan(s@, 0),
        decreases s@.len() - pos,
    {
        let e = find_comma(&s, pos);
        proof {
            lemma_next_comma_bounds(s@, pos as int);
        }
        let (a, b) = trim_range(&s, pos, e);
        let t = (
            ieq_range(&s, a, b, &words.no_store),
            ieq_range(&s, a, b, &words.must_revalidate) || ieq_range(&s, a, b, &words.no_cache),
            max_age_in(&s, a, b, &words.max_age),
        );
        acc = (acc.0 || t.0, acc.1 || t.1, if acc.2.is_some() {
            acc.2
        } else {
            t.2
        });
        if e >= s.len() {
            proof {
                assert(scan(s@, e + 1) == no_flags());
            }
            break;
        }
        pos = e + 1;
    }
    acc
}

fn copy_string(s: &String) -> (r: String)
    ensures
        r@ == s@,
{
    s.clone()
}

fn has_vary_header(headers: &Vec<(String, String)>) -> (r: bool)
    ensures
        r == has_vary(headers@),
{
    let vary = chars_of("vary");
    let mut i: usize = 0;
    while i < headers.len()
        invariant
            vary@ == "vary"@,
            i <= headers@.len(),
            forall|j: int| 0 <= j < i ==> !ieq(#[trigger] headers@[j].0@, "vary"@),
        decreases headers@.len() - i,
    {
        let name = chars_of(headers[i].0.as_str());
        let n = name.len();
        proof {
            assert(name@.subrange(0, n as int) =~= name@);
        }
        if ieq_range(&name, 0, n, &vary) {
            return true;
        }
        i = i + 1;
    }
    false
}

/// Reads the cache directives and validators of a response from its
/// headers, with header names matched regardless of case.
pub fn directives_from_headers(headers: &Vec<(String, String)>) -> (r: Directives)
    ensures
        (r.no_store, r.must_revalidate, r.max_age) == header_fold(headers@).0,
        text_view(r.etag) == header_fold(headers@).1,
        text_view(r.last_modified) == header_fold(headers@).2,
        r.vary == has_vary(headers@),
{
    let words = Words::new();
    let cache_control = chars_of("cache-control");
    let etag_name = chars_of("etag");
    let modified_name = chars_of("last-modified");
    let mut flags: Flags = (false, false, None);
    let mut etag: Option<String> = None;
    let mut last_modified: Option<String> = None;
    let mut i: usize = 0;
    while i < headers.len()
        invariant
            words.wf(),
            cache_control@ == "cache-control"@,
            etag_name@ == "etag"@,
            modified_name@ == "last-modified"@,
            i <= headers@.len(),
            header_fold(headers@.subrange(0, i as int)) == (flags, text_view(etag), text_view(
                last_modified,
            )),
        decreases headers@.len() - i,
    {
        let ghost pre = headers@.subrange(0, i as int + 1);
        proof {
            assert(pre.drop_last() =~= headers@.subrange(0, i as int));
            assert(pre.last() == headers@[i as int]);
        }
        let name = chars_of(headers[i].0.as_str());
        let n = name.len();
        if ieq_range(&name, 0, n, &cache_control) {
            proof {
                assert(name@.subrange(0, n as int) =~= name@);
            }
            let more = cache_control_flags(headers[i].1.as_str(), &words);
            flags = (flags.0 || more.0, flags.1 || more.1, if flags.2.is_some() {
                flags.2
            } else {
                more.2
            });
        } else if ieq_range(&name, 0, n, &etag_name) {
            proof {
                assert(name@.subrange(0, n as int) =~= name@);
            }
            etag = Some(copy_string(&headers[i].1));
        } else if ieq_range(&name, 0, n, &modified_name) {
            proof {
                assert(name@.subrange(0, n as int) =~= name@);
            }
            last_modified = Some(copy_string(&headers[i].1));
        } else {
            proof {
                assert(name@.subrange(0, n as int) =~= name@);
            }
        }
        i = i + 1;
    }
    proof {
        assert(headers@.subrange(0, headers@.len() as int) =~= headers@);
    }
    let vary = has_vary_header(headers);
    Directives {
        vary,
        max_age: flags.2,
        must_revalidate: flags.1,
        no_store: flags.0,
        etag,
        last_modified,
    }
}

} // verus!
