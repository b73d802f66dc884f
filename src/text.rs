//! Character-level text helpers shared by the parsers and renderers.
use vstd::prelude::*;
use vstd::std_specs::iter::IteratorSpec;
use vstd::string::*;

verus! {

broadcast use vstd::string::group_string_axioms;

/// Relies on `String::push`: appends one character at the end.
#[verifier::external_body]
pub(crate) fn push_char(s: &mut String, c: char)
    ensures
        final(s)@ == old(s)@.push(c),
{
    s.push(c);
}

/// The characters of a string slice, in order.
pub fn chars_of(s: &str) -> (r: Vec<char>)
    ensures
        r@ == s@,
{
    let mut out: Vec<char> = Vec::new();
    let mut it = s.chars();
    loop
        invariant
            it.obeys_prophetic_iter_laws(),
            out@ + it.remaining() == s@,
            it.decrease() is Some,
        ensures
            out@ == s@,
        decreases it.decrease()->0,
    {
        match it.next() {
            Some(c) => out.push(c),
            None => {
                assert(it.remaining().len() == 0);
                assert(out@ + it.remaining() =~= out@);
                break;
            },
        }
    }
    out
}

/// A string holding exactly the given characters.
pub fn string_of(v: &Vec<char>) -> (r: String)
    ensures
        r@ == v@,
{
    let mut out = String::new();
    let mut i: usize = 0;
    while i < v.len()
        invariant
            i <= v.len(),
            out@ == v@.subrange(0, i as int),
        decreases v.len() - i,
    {
        push_char(&mut out, v[i]);
        i = i + 1;
        assert(out@ =~= v@.subrange(0, i as int));
    }
    assert(v@.subrange(0, v.len() as int) =~= v@);
    out
}

/// The characters `v[a..b]` as a vector of their own.
pub fn slice_of(v: &Vec<char>, a: usize, b: usize) -> (r: Vec<char>)
    requires
        a <= b <= v.len(),
    ensures
        r@ == v@.subrange(a as int, b as int),
{
    let mut out: Vec<char> = Vec::new();
    let mut i: usize = a;
    while i < b
        invariant
            a <= i <= b <= v.len(),
            out@ == v@.subrange(a as int, i as int),
        decreases b - i,
    {
        out.push(v[i]);
        i = i + 1;
        assert(out@ =~= v@.subrange(a as int, i as int));
    }
    out
}

/// Unicode `White_Space`, the set that `str::trim` strips.
pub open spec fn is_white(c: char) -> bool {
    ('\u{9}' <= c && c <= '\u{d}') || c == ' ' || c == '\u{85}' || c == '\u{a0}'
        || c == '\u{1680}' || ('\u{2000}' <= c && c <= '\u{200a}') || c == '\u{2028}'
        || c == '\u{2029}' || c == '\u{202f}' || c == '\u{205f}' || c == '\u{3000}'
}

pub fn is_white_char(c: char) -> (r: bool)
    ensures
        r == is_white(c),
{
    ('\u{9}' <= c && c <= '\u{d}') || c == ' ' || c == '\u{85}' || c == '\u{a0}'
        || c == '\u{1680}' || ('\u{2000}' <= c && c <= '\u{200a}') || c == '\u{2028}'
        || c == '\u{2029}' || c == '\u{202f}' || c == '\u{205f}' || c == '\u{3000}'
}

/// `s` without leading white space.
pub open spec fn trim_start(s: Seq<char>) -> Seq<char>
    decreases s.len(),
{
    if s.len() > 0 && is_white(s[0]) {
        trim_start(s.drop_first())
    } else {
        s
    }
}

/// `s` without trailing white space.
pub open spec fn trim_end(s: Seq<char>) -> Seq<char>
    decreases s.len(),
{
    if s.len() > 0 && is_white(s.last()) {
        trim_end(s.drop_last())
    } else {
        s
    }
}

/// `s` without white space at either end.
pub open spec fn trim(s: Seq<char>) -> Seq<char> {
    trim_end(trim_start(s))
}

/// The bounds of `trim(v[lo..hi])` within `v`.
pub fn trim_bounds(v: &Vec<char>, lo: usize, hi: usize) -> (r: (usize, usize))
    requires
        lo <= hi <= v.len(),
    ensures
        lo <= r.0 <= r.1 <= hi,
        v@.subrange(r.0 as int, r.1 as int) == trim(v@.subrange(lo as int, hi as int)),
{
    let mut a: usize = lo;
    while a < hi && is_white_char(v[a])
        invariant
            lo <= a <= hi <= v.len(),
            trim_start(v@.subrange(a as int, hi as int)) == trim_start(
                v@.subrange(lo as int, hi as int),
            ),
        decreases hi - a,
    {
        assert(v@.subrange(a as int, hi as int).drop_first() =~= v@.subrange(
            a + 1,
            hi as int,
        ));
        a = a + 1;
    }
    let mut b: usize = hi;
    while b > a && is_white_char(v[b - 1])
        invariant
            lo <= a <= b <= hi <= v.len(),
            trim_end(v@.subrange(a as int, b as int)) == trim(v@.subrange(lo as int, hi as int)),
        decreases b - a,
    {
        assert(v@.subrange(a as int, b as int).drop_last() =~= v@.subrange(
            a as int,
            b - 1,
        ));
        b = b - 1;
    }
    (a, b)
}

/// Whether `pat` occurs in `s` at position `i`.
pub open spec fn occurs_at(s: Seq<char>, pat: Seq<char>, i: int) -> bool {
    0 <= i && i + pat.len() <= s.len() && s.subrange(i, i + pat.len()) == pat
}

/// Whether `pat` occurs anywhere in `s`.
pub open spec fn contains_seq(s: Seq<char>, pat: Seq<char>) -> bool {
    exists|i: int| occurs_at(s, pat, i)
}

/// Whether `s` begins with `pat`.
pub open spec fn starts_with(s: Seq<char>, pat: Seq<char>) -> bool {
    occurs_at(s, pat, 0)
}

pub fn matches_at(v: &Vec<char>, pat: &Vec<char>, i: usize) -> (r: bool)
    ensures
        r == occurs_at(v@, pat@, i as int),
{
    if i > v.len() || pat.len() > v.len() - i {
        return false;
    }
    let mut j: usize = 0;
    while j < pat.len()
        invariant
            i + pat.len() <= v.len(),
            j <= pat.len(),
            forall|k: int| 0 <= k < j ==> v@[i + k] == pat@[k],
        decreases pat.len() - j,
    {
        if v[i + j] != pat[j] {
            assert(v@.subrange(i as int, i + pat.len())[j as int] != pat@[j as int]);
            return false;
        }
        j = j + 1;
    }
    assert(v@.subrange(i as int, i + pat.len()) =~= pat@);
    true
}

/// First position at or after `from` where `pat` occurs.
pub fn find_from(v: &Vec<char>, pat: &Vec<char>, from: usize) -> (r: Option<usize>)
    ensures
        match r {
            Some(k) => from <= k && occurs_at(v@, pat@, k as int) && forall|j: int|
                from <= j < k ==> !occurs_at(v@, pat@, j),
            None => forall|j: int| from <= j ==> !occurs_at(v@, pat@, j),
        },
{
    let mut k: usize = from;
    while k < v.len()
        invariant
            from <= k,
            forall|j: int| from <= j < k ==> !occurs_at(v@, pat@, j),
        decreases v.len() - k,
    {
        if matches_at(v, pat, k) {
            return Some(k);
        }
        k = k + 1;
    }
    if matches_at(v, pat, k) {
        return Some(k);
    }
    None
}

/// Last position where `pat` occurs.
pub fn rfind(v: &Vec<char>, pat: &Vec<char>) -> (r: Option<usize>)
    ensures
        match r {
            Some(k) => occurs_at(v@, pat@, k as int) && forall|j: int|
                k < j ==> !occurs_at(v@, pat@, j),
            None => forall|j: int| !occurs_at(v@, pat@, j),
        },
{
    let mut k: usize = v.len();
    loop
        invariant
            k <= v.len(),
            forall|j: int| k < j ==> !occurs_at(v@, pat@, j),
        decreases k,
    {
        if matches_at(v, pat, k) {
            return Some(k);
        }
        if k == 0 {
            return None;
        }
        k = k - 1;
    }
}

pub fn contains(v: &Vec<char>, pat: &Vec<char>) -> (r: bool)
    ensures
        r == contains_seq(v@, pat@),
{
    match find_from(v, pat, 0) {
        Some(_) => true,
        None => false,
    }
}

pub fn has_prefix(v: &Vec<char>, pat: &Vec<char>) -> (r: bool)
    ensures
        r == starts_with(v@, pat@),
{
    matches_at(v, pat, 0)
}

/// Value of an ASCII decimal digit.
pub open spec fn digit_value(c: char) -> int {
    (c as int) - ('0' as int)
}

pub open spec fn is_digit(c: char) -> bool {
    '0' <= c && c <= '9'
}

/// Whether every character of `s` is a decimal digit.
pub open spec fn all_digits(s: Seq<char>) -> bool {
    forall|i: int| 0 <= i < s.len() ==> is_digit(#[trigger] s[i])
}

/// The number that a run of decimal digits spells.
pub open spec fn digits_value(s: Seq<char>) -> nat
    decreases s.len(),
{
    if s.len() == 0 {
        0
    } else {
        (digits_value(s.drop_last()) * 10 + digit_value(s.last())) as nat
    }
}

/// What `u32::from_str` gives for `s`: an optional `+`, then one or more
/// decimal digits whose value fits in 32 bits.
pub open spec fn u32_text(s: Seq<char>) -> Option<u32> {
    let d = unsigned_part(s);
    if d.len() > 0 && all_digits(d) && digits_value(d) <= u32::MAX {
        Some(digits_value(d) as u32)
    } else {
        None
    }
}

/// `s` without one leading `+`.
pub open spec fn unsigned_part(s: Seq<char>) -> Seq<char> {
    if s.len() > 0 && s[0] == '+' {
        s.drop_first()
    } else {
        s
    }
}

proof fn lemma_digits_value_grows(s: Seq<char>, j: int)
    requires
        0 <= j <= s.len(),
        all_digits(s),
    ensures
        digits_value(s.subrange(0, j)) <= digits_value(s),
    decreases s.len() - j,
{
    if j < s.len() {
        lemma_digits_value_grows(s, j + 1);
        assert(s.subrange(0, j + 1).drop_last() =~= s.subrange(0, j));
        assert(is_digit(s[j]));
    } else {
        assert(s.subrange(0, j) =~= s);
    }
}

/// Parses `v[lo..hi]` as `u32::from_str` does.
pub fn parse_u32(v: &Vec<char>, lo: usize, hi: usize) -> (r: Option<u32>)
    requires
        lo <= hi <= v.len(),
    ensures
        r == u32_text(v@.subrange(lo as int, hi as int)),
{
    let ghost s = v@.subrange(lo as int, hi as int);
    let mut start: usize = lo;
    if lo < hi && v[lo] == '+' {
        start = lo + 1;
    }
    let ghost d = v@.subrange(start as int, hi as int);
    assert(d =~= unsigned_part(s));
    if start == hi {
        return None;
    }
    let mut acc: u32 = 0;
    let mut i: usize = start;
    while i < hi
        invariant
            start <= i <= hi <= v.len(),
            d == v@.subrange(start as int, hi as int),
            d == unsigned_part(s),
            s == v@.subrange(lo as int, hi as int),
            all_digits(v@.subrange(start as int, i as int)),
            acc as nat == digits_value(v@.subrange(start as int, i as int)),
        decreases hi - i,
    {
        let c = v[i];
        if !('0' <= c && c <= '9') {
            assert(d[i - start] == c);
            assert(!all_digits(d));
            assert(u32_text(s) is None);
            return None;
        }
        let dv: u32 = (c as u32) - ('0' as u32);
        assert(v@.subrange(start as int, i + 1).drop_last() =~= v@.subrange(start as int, i as int));
        if acc > 429496729 || (acc == 429496729 && dv > 5) {
            assert(digits_value(v@.subrange(start as int, i + 1)) > u32::MAX);
            assert(all_digits(v@.subrange(start as int, i + 1)));
            proof {
                if all_digits(d) {
                    lemma_digits_value_grows(d, i + 1 - start);
                    assert(d.subrange(0, i + 1 - start) =~= v@.subrange(start as int, i + 1));
                }
            }
            assert(u32_text(s) is None);
            return None;
        }
        acc = acc * 10 + dv;
        i = i + 1;
    }
    assert(v@.subrange(start as int, i as int) =~= d);
    Some(acc)
}

/// The decimal digits of `n`, most significant first, without leading zeros.
pub open spec fn decimal(n: nat) -> Seq<char>
    decreases n,
{
    if n < 10 {
        seq![(n + ('0' as nat)) as char]
    } else {
        decimal(n / 10).push(((n % 10) + ('0' as nat)) as char)
    }
}

/// The decimal text of `n`, as `Display` writes it.
pub fn u64_text(n: u64) -> (r: String)
    ensures
        r@ == decimal(n as nat),
    decreases n,
{
    if n < 10 {
        let mut out = String::new();
        push_char(&mut out, char_of_digit(n));
        assert(out@ =~= decimal(n as nat));
        out
    } else {
        let mut out = u64_text(n / 10);
        push_char(&mut out, char_of_digit(n % 10));
        out
    }
}

fn char_of_digit(d: u64) -> (c: char)
    requires
        d < 10,
    ensures
        c == (d + ('0' as nat)) as char,
{
    let b: u8 = (d as u8) + 48;
    b as char
}

/// The lines of `s` as `str::lines` yields them: split at `\n`, one
/// trailing `\r` removed from each, and no empty line after a final `\n`.
pub open spec fn lines_spec(s: Seq<char>) -> Seq<Seq<char>> {
    lines_from(s, 0, 0)
}

/// Lines of `s` from a line that starts at `a`, the scan being at `i`.
pub open spec fn lines_from(s: Seq<char>, a: int, i: int) -> Seq<Seq<char>>
    decreases s.len() - i,
{
    if i >= s.len() {
        if a < s.len() {
            seq![strip_cr(s.subrange(a, s.len() as int))]
        } else {
            seq![]
        }
    } else if s[i] == '\n' {
        seq![strip_cr(s.subrange(a, i))] + lines_from(s, i + 1, i + 1)
    } else {
        lines_from(s, a, i + 1)
    }
}

/// `s` without one trailing carriage return.
pub open spec fn strip_cr(s: Seq<char>) -> Seq<char> {
    if s.len() > 0 && s.last() == '\r' {
        s.drop_last()
    } else {
        s
    }
}

fn line_of(v: &Vec<char>, a: usize, b: usize) -> (r: Vec<char>)
    requires
        a <= b <= v.len(),
    ensures
        r@ == strip_cr(v@.subrange(a as int, b as int)),
{
    if b > a && v[b - 1] == '\r' {
        assert(v@.subrange(a as int, b as int).drop_last() =~= v@.subrange(a as int, b - 1));
        slice_of(v, a, b - 1)
    } else {
        slice_of(v, a, b)
    }
}

/// The lines of `v`, as `str::lines` yields them.
pub fn lines_of(v: &Vec<char>) -> (r: Vec<Vec<char>>)
    ensures
        r@.len() == lines_spec(v@).len(),
        forall|k: int| 0 <= k < r@.len() ==> #[trigger] r@[k]@ == lines_spec(v@)[k],
{
    let mut out: Vec<Vec<char>> = Vec::new();
    let ghost done: Seq<Seq<char>> = seq![];
    let mut a: usize = 0;
    let mut i: usize = 0;
    while i < v.len()
        invariant
            a <= i <= v.len(),
            out@.len() == done.len(),
            forall|k: int| 0 <= k < out@.len() ==> #[trigger] out@[k]@ == done[k],
            done + lines_from(v@, a as int, i as int) == lines_spec(v@),
        decreases v.len() - i,
    {
        if v[i] == '\n' {
            let line = line_of(v, a, i);
            proof {
                let l = strip_cr(v@.subrange(a as int, i as int));
                assert(lines_from(v@, a as int, i as int) == seq![l] + lines_from(
                    v@,
                    i + 1,
                    i + 1,
                ));
                assert(done + lines_from(v@, a as int, i as int) =~= done.push(l) + lines_from(
                    v@,
                    i + 1,
                    i + 1,
                ));
                done = done.push(l);
            }
            out.push(line);
            i = i + 1;
            a = i;
        } else {
            i = i + 1;
        }
    }
    if a < v.len() {
        let line = line_of(v, a, v.len());
        proof {
            let l = strip_cr(v@.subrange(a as int, v.len() as int));
            assert(done + lines_from(v@, a as int, i as int) =~= done.push(l));
            done = done.push(l);
        }
        out.push(line);
    } else {
        assert(done + lines_from(v@, a as int, i as int) =~= done);
    }
    out
}

pub fn same_chars(a: &Vec<char>, b: &Vec<char>) -> (r: bool)
    ensures
        r == (a@ == b@),
{
    if a.len() != b.len() {
        return false;
    }
    let mut i: usize = 0;
    while i < a.len()
        invariant
            a.len() == b.len(),
            i <= a.len(),
            forall|k: int| 0 <= k < i ==> a@[k] == b@[k],
        decreases a.len() - i,
    {
        if a[i] != b[i] {
            return false;
        }
        i = i + 1;
    }
    assert(a@ =~= b@);
    true
}

/// The first position where `pat` occurs in `s`, if any.
pub open spec fn first_occ(s: Seq<char>, pat: Seq<char>) -> Option<int> {
    if exists|k: int| occurs_at(s, pat, k) {
        Some(
            choose|k: int|
                occurs_at(s, pat, k) && forall|j: int| 0 <= j < k ==> !occurs_at(s, pat, j),
        )
    } else {
        None
    }
}

proof fn lemma_first_occ(s: Seq<char>, pat: Seq<char>, k: int)
    requires
        occurs_at(s, pat, k),
        forall|j: int| 0 <= j < k ==> !occurs_at(s, pat, j),
    ensures
        first_occ(s, pat) == Some(k),
{
    let c = choose|c: int| occurs_at(s, pat, c) && forall|j: int| 0 <= j < c ==> !occurs_at(s, pat, j);
    if c < k {
        assert(!occurs_at(s, pat, c));
    }
    if k < c {
        assert(!occurs_at(s, pat, k));
    }
}

/// Where `pat` first occurs in `v`.
pub fn first_index(v: &Vec<char>, pat: &Vec<char>) -> (r: Option<usize>)
    ensures
        match r {
            Some(k) => first_occ(v@, pat@) == Some(k as int) && k + pat@.len() <= v@.len(),
            None => first_occ(v@, pat@) is None,
        },
{
    match find_from(v, pat, 0) {
        Some(k) => {
            proof { lemma_first_occ(v@, pat@, k as int); }
            Some(k)
        },
        None => None,
    }
}

/// `s` cut at each non-overlapping occurrence of `sep`, left to right, as
/// `str::split` cuts it.
#[verifier::opaque]
pub open spec fn split_all(s: Seq<char>, sep: Seq<char>) -> Seq<Seq<char>>
    decreases s.len(),
{
    if sep.len() == 0 {
        seq![s]
    } else {
        match first_occ(s, sep) {
            Some(k) => if 0 <= k && k + sep.len() <= s.len() {
                seq![s.subrange(0, k)] + split_all(s.subrange(k + sep.len(), s.len() as int), sep)
            } else {
                seq![s]
            },
            None => seq![s],
        }
    }
}

/// `s` without leading copies of `c`.
pub open spec fn strip_start(s: Seq<char>, c: char) -> Seq<char>
    decreases s.len(),
{
    if s.len() > 0 && s[0] == c {
        strip_start(s.drop_first(), c)
    } else {
        s
    }
}

/// `s` without trailing copies of `c`.
pub open spec fn strip_end(s: Seq<char>, c: char) -> Seq<char>
    decreases s.len(),
{
    if s.len() > 0 && s.last() == c {
        strip_end(s.drop_last(), c)
    } else {
        s
    }
}

/// `s` without copies of `c` at either end, as `str::trim_matches` gives it.
pub open spec fn strip_both(s: Seq<char>, c: char) -> Seq<char> {
    strip_end(strip_start(s, c), c)
}

pub fn strip_char(v: &Vec<char>, c: char) -> (r: Vec<char>)
    ensures
        r@ == strip_both(v@, c),
{
    let mut a: usize = 0;
    assert(v@.subrange(0, v.len() as int) =~= v@);
    while a < v.len() && v[a] == c
        invariant
            a <= v.len(),
            strip_start(v@.subrange(a as int, v.len() as int), c) == strip_start(v@, c),
        decreases v.len() - a,
    {
        assert(v@.subrange(a as int, v.len() as int).drop_first() =~= v@.subrange(
            a + 1,
            v.len() as int,
        ));
        a = a + 1;
    }
    let mut b: usize = v.len();
    while b > a && v[b - 1] == c
        invariant
            a <= b <= v.len(),
            strip_end(v@.subrange(a as int, b as int), c) == strip_both(v@, c),
        decreases b - a,
    {
        assert(v@.subrange(a as int, b as int).drop_last() =~= v@.subrange(a as int, b - 1));
        b = b - 1;
    }
    slice_of(v, a, b)
}

pub fn trimmed(v: &Vec<char>) -> (r: Vec<char>)
    ensures
        r@ == trim(v@),
{
    let (a, b) = trim_bounds(v, 0, v.len());
    assert(v@.subrange(0, v.len() as int) =~= v@);
    slice_of(v, a, b)
}

proof fn lemma_split_step(s: Seq<char>, sep: Seq<char>, k: int)
    requires
        sep.len() > 0,
        first_occ(s, sep) == Some(k),
        0 <= k,
        k + sep.len() <= s.len(),
    ensures
        split_all(s, sep) == seq![s.subrange(0, k)] + split_all(
            s.subrange(k + sep.len(), s.len() as int),
            sep,
        ),
{
    reveal(split_all);
}

proof fn lemma_split_none(s: Seq<char>, sep: Seq<char>)
    requires
        first_occ(s, sep) is None || sep.len() == 0,
    ensures
        split_all(s, sep) == seq![s],
{
    reveal(split_all);
}

/// The views of a vector of character vectors.
pub open spec fn views(v: Seq<Vec<char>>) -> Seq<Seq<char>> {
    Seq::new(v.len(), |i: int| v[i]@)
}

/// `v` cut at each occurrence of `sep`, as `str::split` cuts it.
pub fn split_parts(v: &Vec<char>, sep: &Vec<char>) -> (r: Vec<Vec<char>>)
    ensures
        views(r@) == split_all(v@, sep@),
{
    let mut parts: Vec<Vec<char>> = Vec::new();
    if sep.len() == 0 {
        parts.push(slice_of(v, 0, v.len()));
        assert(v@.subrange(0, v.len() as int) =~= v@);
        proof { lemma_split_none(v@, sep@); }
        assert(views(parts@) =~= split_all(v@, sep@));
        return parts;
    }
    let mut rest = slice_of(v, 0, v.len());
    assert(v@.subrange(0, v.len() as int) =~= v@);
    loop
        invariant
            sep@.len() > 0,
            views(parts@) + split_all(rest@, sep@) == split_all(v@, sep@),
        decreases rest@.len(),
    {
        match first_index(&rest, sep) {
            Some(k) => {
                let rl = rest.len();
                let sl = sep.len();
                assert(k + sl <= rl);
                let head = slice_of(&rest, 0, k);
                let tail = slice_of(&rest, k + sl, rl);
                proof {
                    lemma_split_step(rest@, sep@, k as int);
                    assert(views(parts@.push(head)) =~= views(parts@).push(head@));
                    assert(views(parts@) + split_all(rest@, sep@) =~= views(parts@).push(head@)
                        + split_all(tail@, sep@));
                }
                parts.push(head);
                rest = tail;
            },
            None => {
                proof {
                    lemma_split_none(rest@, sep@);
                    assert(views(parts@.push(rest)) =~= views(parts@) + seq![rest@]);
                }
                parts.push(rest);
                return parts;
            },
        }
    }
}

/// What `str::to_lowercase` returns for `s`.
pub uninterp spec fn lower_of(s: Seq<char>) -> Seq<char>;

/// Relies on `str::to_lowercase`: the result depends on the characters alone,
/// and the empty string stays empty.
#[verifier::external_body]
pub fn lowercase(s: &str) -> (r: String)
    ensures
        r@ == lower_of(s@),
        s@.len() == 0 ==> r@.len() == 0,
{
    s.to_lowercase()
}

/// The first position at or after `from` where `pat` occurs in `s`.
#[verifier::opaque]
pub open spec fn first_occ_from(s: Seq<char>, pat: Seq<char>, from: int) -> Option<int> {
    if exists|k: int| from <= k && occurs_at(s, pat, k) {
        Some(
            choose|k: int|
                from <= k && occurs_at(s, pat, k) && forall|j: int|
                    from <= j < k ==> !occurs_at(s, pat, j),
        )
    } else {
        None
    }
}

/// The last position where `pat` occurs in `s`.
#[verifier::opaque]
pub open spec fn last_occ(s: Seq<char>, pat: Seq<char>) -> Option<int> {
    if exists|k: int| occurs_at(s, pat, k) {
        Some(choose|k: int| occurs_at(s, pat, k) && forall|j: int| k < j ==> !occurs_at(s, pat, j))
    } else {
        None
    }
}

/// Where `pat` first occurs in `v` at or after `from`.
pub fn find_first_from(v: &Vec<char>, pat: &Vec<char>, from: usize) -> (r: Option<usize>)
    ensures
        match r {
            Some(k) => first_occ_from(v@, pat@, from as int) == Some(k as int) && from <= k && k
                + pat@.len() <= v@.len(),
            None => first_occ_from(v@, pat@, from as int) is None,
        },
{
    proof {
        reveal(first_occ_from);
    }
    match find_from(v, pat, from) {
        Some(k) => {
            proof {
                let c = choose|c: int|
                    from <= c && occurs_at(v@, pat@, c) && forall|j: int|
                        from <= j < c ==> !occurs_at(v@, pat@, j);
                assert(from <= k && occurs_at(v@, pat@, k as int));
                if c < k {
                    assert(!occurs_at(v@, pat@, c));
                }
                if k < c {
                    assert(!occurs_at(v@, pat@, k as int));
                }
            }
            Some(k)
        },
        None => None,
    }
}

/// Where `pat` last occurs in `v`.
pub fn find_last(v: &Vec<char>, pat: &Vec<char>) -> (r: Option<usize>)
    ensures
        match r {
            Some(k) => last_occ(v@, pat@) == Some(k as int) && k + pat@.len() <= v@.len(),
            None => last_occ(v@, pat@) is None,
        },
{
    proof {
        reveal(last_occ);
    }
    match rfind(v, pat) {
        Some(k) => {
            proof {
                let c = choose|c: int| occurs_at(v@, pat@, c) && forall|j: int| c < j ==> !occurs_at(v@, pat@, j);
                assert(occurs_at(v@, pat@, k as int));
                if c < k {
                    assert(!occurs_at(v@, pat@, k as int));
                }
                if k < c {
                    assert(!occurs_at(v@, pat@, c));
                }
            }
            Some(k)
        },
        None => None,
    }
}

/// `split_all` always yields at least one piece.
pub proof fn lemma_split_nonempty(s: Seq<char>, sep: Seq<char>)
    ensures
        split_all(s, sep).len() >= 1,
{
    reveal(split_all);
}

/// `s` with leading copies of `p` removed, as `str::trim_start_matches` gives it.
pub open spec fn strip_prefixes(s: Seq<char>, p: Seq<char>) -> Seq<char>
    decreases s.len(),
{
    if p.len() > 0 && starts_with(s, p) {
        strip_prefixes(s.subrange(p.len() as int, s.len() as int), p)
    } else {
        s
    }
}

pub fn strip_prefixes_of(v: &Vec<char>, p: &Vec<char>) -> (r: Vec<char>)
    ensures
        r@ == strip_prefixes(v@, p@),
{
    let mut rest = slice_of(v, 0, v.len());
    assert(v@.subrange(0, v.len() as int) =~= v@);
    if p.len() == 0 {
        return rest;
    }
    while has_prefix(&rest, p)
        invariant
            p@.len() > 0,
            strip_prefixes(rest@, p@) == strip_prefixes(v@, p@),
        decreases rest@.len(),
    {
        let n = rest.len();
        rest = slice_of(&rest, p.len(), n);
    }
    rest
}

/// `v` with leading copies of `c` removed.
pub fn strip_start_char(v: &Vec<char>, c: char) -> (r: Vec<char>)
    ensures
        r@ == strip_start(v@, c),
{
    let mut a: usize = 0;
    assert(v@.subrange(0, v.len() as int) =~= v@);
    while a < v.len() && v[a] == c
        invariant
            a <= v.len(),
            strip_start(v@.subrange(a as int, v.len() as int), c) == strip_start(v@, c),
        decreases v.len() - a,
    {
        assert(v@.subrange(a as int, v.len() as int).drop_first() =~= v@.subrange(
            a + 1,
            v.len() as int,
        ));
        a = a + 1;
    }
    slice_of(v, a, v.len())
}

} // verus!
