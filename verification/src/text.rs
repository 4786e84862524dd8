//! Character-level text: search, trimming, splitting and decimal numbers.
//!
//! Text is modelled as the sequence of its characters. Executable functions work
//! on slices of characters, and positions are character positions.

use vstd::prelude::*;
use vstd::slice::slice_subrange;

verus! {

/// Appends one character: `String::push` adds `c` at the end and changes nothing else.
pub assume_specification[ String::push ](s: &mut String, c: char)
    ensures
        final(s)@ == old(s)@.push(c),
;

/// The classes of characters that scanning distinguishes.
#[derive(Clone, Copy, PartialEq, Eq, Structural, Debug)]
pub enum CharClass {
    /// Unicode white space.
    White,
    /// Anything but Unicode white space.
    Solid,
    /// `0` to `9`.
    Digit,
    /// `0` to `9`, `a` to `f`, `A` to `F`.
    HexDigit,
    /// What an interface descriptor is made of: ASCII letters and digits, `_`, `.`.
    Descriptor,
}

/// Whether `c` has the Unicode property `White_Space`.
pub open spec fn is_white(c: char) -> bool {
    ||| '\t' <= c <= '\r'
    ||| c == ' '
    ||| c == '\u{85}'
    ||| c == '\u{a0}'
    ||| c == '\u{1680}'
    ||| '\u{2000}' <= c <= '\u{200a}'
    ||| c == '\u{2028}'
    ||| c == '\u{2029}'
    ||| c == '\u{202f}'
    ||| c == '\u{205f}'
    ||| c == '\u{3000}'
}

/// Whether `c` is an ASCII decimal digit.
pub open spec fn is_digit(c: char) -> bool {
    '0' <= c <= '9'
}

/// Whether `c` is an ASCII hexadecimal digit.
pub open spec fn is_hex_digit(c: char) -> bool {
    is_digit(c) || 'a' <= c <= 'f' || 'A' <= c <= 'F'
}

/// Whether `c` may stand in an interface descriptor.
pub open spec fn is_descriptor_char(c: char) -> bool {
    is_digit(c) || 'a' <= c <= 'z' || 'A' <= c <= 'Z' || c == '_' || c == '.'
}

impl CharClass {
    /// Whether `c` belongs to the class.
    pub open spec fn holds(self, c: char) -> bool {
        match self {
            CharClass::White => is_white(c),
            CharClass::Solid => !is_white(c),
            CharClass::Digit => is_digit(c),
            CharClass::HexDigit => is_hex_digit(c),
            CharClass::Descriptor => is_descriptor_char(c),
        }
    }

    /// Tests whether `c` belongs to the class.
    pub fn contains(self, c: char) -> (r: bool)
        ensures
            r == self.holds(c),
    {
        let digit: bool = '0' <= c && c <= '9';
        let white: bool = ('\t' <= c && c <= '\r') || c == ' ' || c == '\u{85}' || c == '\u{a0}'
            || c == '\u{1680}' || ('\u{2000}' <= c && c <= '\u{200a}') || c == '\u{2028}' || c
            == '\u{2029}' || c == '\u{202f}' || c == '\u{205f}' || c == '\u{3000}';
        match self {
            CharClass::White => white,
            CharClass::Solid => !white,
            CharClass::Digit => digit,
            CharClass::HexDigit => digit || ('a' <= c && c <= 'f') || ('A' <= c && c <= 'F'),
            CharClass::Descriptor => digit || ('a' <= c && c <= 'z') || ('A' <= c && c <= 'Z') || c
                == '_' || c == '.',
        }
    }
}

/// The characters of `s`.
pub fn chars_of(s: &str) -> (r: Vec<char>)
    ensures
        r@ == s@,
{
    let mut out: Vec<char> = Vec::new();
    for c in it: s.chars()
        invariant
            out@ == it.seq().take(it.index() as int),
            it.seq() == s@,
    {
        out.push(c);
        assert(out@ =~= it.seq().take(it.index() as int + 1));
    }
    assert(out@ =~= s@);
    out
}

/// Appends the characters `chars[from..to]` to `out`.
pub fn push_chars(out: &mut String, chars: &[char], from: usize, to: usize)
    requires
        from <= to <= chars@.len(),
    ensures
        final(out)@ == old(out)@ + chars@.subrange(from as int, to as int),
{
    let mut i: usize = from;
    while i < to
        invariant
            from <= i <= to <= chars@.len(),
            out@ == old(out)@ + chars@.subrange(from as int, i as int),
        decreases to - i,
    {
        out.push(chars[i]);
        i += 1;
        assert(out@ =~= old(out)@ + chars@.subrange(from as int, i as int));
    }
}

/// The string made of `chars[from..to]`.
pub fn string_of(chars: &[char], from: usize, to: usize) -> (r: String)
    requires
        from <= to <= chars@.len(),
    ensures
        r@ == chars@.subrange(from as int, to as int),
{
    let mut out: String = String::new();
    push_chars(&mut out, chars, from, to);
    assert(out@ =~= chars@.subrange(from as int, to as int));
    out
}

/// Appends `s` to `out`.
pub fn push_text(out: &mut String, s: &str)
    ensures
        final(out)@ == old(out)@ + s@,
{
    out.append(s);
}

/// A string that holds `s`.
pub fn text_of_str(s: &str) -> (r: String)
    ensures
        r@ == s@,
{
    let mut out: String = String::new();
    out.append(s);
    assert(out@ =~= s@);
    out
}

/// What strings hold.
pub open spec fn texts(v: Seq<String>) -> Seq<Seq<char>> {
    Seq::new(v.len(), |i: int| v[i]@)
}

/// What an optional string holds.
pub open spec fn text_of(s: Option<String>) -> Option<Seq<char>> {
    match s {
        Some(s) => Some(s@),
        None => None,
    }
}

/// What an optional string slice holds.
pub open spec fn str_of(s: Option<&str>) -> Option<Seq<char>> {
    match s {
        Some(s) => Some(s@),
        None => None,
    }
}

/// Whether `pat` stands in `s` at position `i`.
pub open spec fn occurs_at(s: Seq<char>, pat: Seq<char>, i: int) -> bool {
    0 <= i && i + pat.len() <= s.len() && s.subrange(i, i + pat.len()) == pat
}

/// The first position at or after `from` at which `pat` stands in `s`.
pub open spec fn find_from(s: Seq<char>, pat: Seq<char>, from: int) -> Option<int>
    decreases s.len() - from + 1,
{
    if from < 0 || from + pat.len() > s.len() {
        None
    } else if occurs_at(s, pat, from) {
        Some(from)
    } else {
        find_from(s, pat, from + 1)
    }
}

/// The last position at or before `to` at which `pat` stands in `s`.
pub open spec fn rfind_to(s: Seq<char>, pat: Seq<char>, to: int) -> Option<int>
    decreases to + 1,
{
    if to < 0 {
        None
    } else if occurs_at(s, pat, to) {
        Some(to)
    } else {
        rfind_to(s, pat, to - 1)
    }
}

/// The last position at which `pat` stands in `s`.
pub open spec fn rfind(s: Seq<char>, pat: Seq<char>) -> Option<int> {
    rfind_to(s, pat, s.len() - pat.len())
}

/// `find_from` is the first occurrence: it occurs, and nothing before it does.
pub proof fn lemma_find_first(s: Seq<char>, pat: Seq<char>, from: int)
    requires
        0 <= from,
    ensures
        match find_from(s, pat, from) {
            Some(i) => from <= i && occurs_at(s, pat, i) && forall|j: int|
                from <= j < i ==> !occurs_at(s, pat, j),
            None => forall|j: int| from <= j ==> !occurs_at(s, pat, j),
        },
    decreases s.len() - from + 1,
{
    if from + pat.len() <= s.len() && !occurs_at(s, pat, from) {
        lemma_find_first(s, pat, from + 1);
    }
}

/// Whatever occurs with nothing before it is what `find_from` gives.
pub proof fn lemma_find_is(s: Seq<char>, pat: Seq<char>, from: int, i: int)
    requires
        0 <= from <= i,
        occurs_at(s, pat, i),
        forall|j: int| from <= j < i ==> !occurs_at(s, pat, j),
    ensures
        find_from(s, pat, from) == Some(i),
    decreases i - from,
{
    if from < i {
        lemma_find_is(s, pat, from + 1, i);
    }
}

/// Where nothing occurs, `find_from` gives nothing.
pub proof fn lemma_find_none(s: Seq<char>, pat: Seq<char>, from: int)
    requires
        0 <= from,
        forall|j: int| from <= j ==> !occurs_at(s, pat, j),
    ensures
        find_from(s, pat, from) is None,
{
    lemma_find_first(s, pat, from);
}

/// Whether `pat`, written behind `a`, first stands there: neither in `a` nor across the
/// join.
pub open spec fn first_behind(a: Seq<char>, pat: Seq<char>) -> bool {
    forall|j: int| 0 <= j < a.len() ==> !occurs_at(a + pat, pat, j)
}

/// Whether `pat`, written before `b`, last stands there: neither in `b` nor across the
/// join.
pub open spec fn last_before(pat: Seq<char>, b: Seq<char>) -> bool {
    forall|j: int| 0 < j ==> !occurs_at(pat + b, pat, j)
}

/// A mark that first stands behind `a` is found there, and parts what stands before it
/// from what stands behind it.
pub proof fn lemma_find_behind(a: Seq<char>, pat: Seq<char>, b: Seq<char>)
    requires
        first_behind(a, pat),
    ensures
        find_from(a + pat + b, pat, 0) == Some(a.len() as int),
        (a + pat + b).take(a.len() as int) == a,
        (a + pat + b).skip((a.len() + pat.len()) as int) == b,
{
    let s = a + pat + b;
    let n = a.len() as int;
    assert(s.subrange(n, n + pat.len()) =~= pat);
    assert forall|j: int| 0 <= j < n implies !occurs_at(s, pat, j) by {
        if occurs_at(s, pat, j) {
            assert((a + pat).subrange(j, j + pat.len()) =~= s.subrange(j, j + pat.len()));
            assert(occurs_at(a + pat, pat, j));
        }
    }
    lemma_find_is(s, pat, 0, n);
    assert(s.take(n) =~= a);
    assert(s.skip(n + pat.len()) =~= b);
}

proof fn lemma_rfind_is(s: Seq<char>, pat: Seq<char>, to: int, i: int)
    requires
        0 <= i <= to,
        occurs_at(s, pat, i),
        forall|j: int| i < j ==> !occurs_at(s, pat, j),
    ensures
        rfind_to(s, pat, to) == Some(i),
    decreases to - i,
{
    if i < to {
        lemma_rfind_is(s, pat, to - 1, i);
    }
}

/// A mark that last stands before `b` is found there from the end, and parts what
/// stands before it from what stands behind it.
pub proof fn lemma_rfind_before(a: Seq<char>, pat: Seq<char>, b: Seq<char>)
    requires
        last_before(pat, b),
    ensures
        rfind(a + pat + b, pat) == Some(a.len() as int),
        (a + pat + b).take(a.len() as int) == a,
        (a + pat + b).skip((a.len() + pat.len()) as int) == b,
{
    let s = a + pat + b;
    let n = a.len() as int;
    assert(s.subrange(n, n + pat.len()) =~= pat);
    assert forall|j: int| n < j implies !occurs_at(s, pat, j) by {
        if occurs_at(s, pat, j) {
            assert((pat + b).subrange(j - n, j - n + pat.len()) =~= s.subrange(j, j + pat.len()));
            assert(occurs_at(pat + b, pat, j - n));
        }
    }
    lemma_rfind_is(s, pat, s.len() - pat.len(), n);
    assert(s.take(n) =~= a);
    assert(s.skip(n + pat.len()) =~= b);
}

/// A mark whose first character is not in `a` first stands behind it.
pub proof fn lemma_first_char_absent(a: Seq<char>, pat: Seq<char>)
    requires
        pat.len() > 0,
        !a.contains(pat[0]),
    ensures
        first_behind(a, pat),
{
    assert forall|j: int| 0 <= j < a.len() implies !occurs_at(a + pat, pat, j) by {
        if occurs_at(a + pat, pat, j) {
            assert((a + pat).subrange(j, j + pat.len())[0] == a[j]);
        }
    }
}

/// A mark whose first character is neither in `b` nor further on in the mark last
/// stands before `b`.
pub proof fn lemma_last_char_absent(pat: Seq<char>, b: Seq<char>)
    requires
        pat.len() > 0,
        !pat.skip(1).contains(pat[0]),
        !b.contains(pat[0]),
    ensures
        last_before(pat, b),
{
    assert forall|j: int| 0 < j implies !occurs_at(pat + b, pat, j) by {
        if occurs_at(pat + b, pat, j) {
            assert((pat + b).subrange(j, j + pat.len())[0] == (pat + b)[j]);
            if j < pat.len() {
                assert(pat.skip(1)[j - 1] == pat[0]);
            } else {
                assert(b[j - pat.len()] == pat[0]);
            }
        }
    }
}

/// What stands in a text stands in it behind a prefix, moved.
pub proof fn lemma_occurs_shift(p: Seq<char>, s: Seq<char>, pat: Seq<char>, j: int)
    requires
        0 <= j,
    ensures
        occurs_at(p + s, pat, p.len() + j) == occurs_at(s, pat, j),
{
    if j + pat.len() <= s.len() {
        assert((p + s).subrange(p.len() + j, p.len() + j + pat.len()) =~= s.subrange(
            j,
            j + pat.len(),
        ));
    }
}

/// A search behind a prefix finds what it finds without it, moved.
pub proof fn lemma_find_shift(p: Seq<char>, s: Seq<char>, pat: Seq<char>, from: int)
    requires
        0 <= from,
    ensures
        find_from(p + s, pat, p.len() + from) == match find_from(s, pat, from) {
            Some(i) => Some(p.len() + i),
            None => None,
        },
    decreases s.len() - from + 1,
{
    lemma_occurs_shift(p, s, pat, from);
    if from + pat.len() <= s.len() && !occurs_at(s, pat, from) {
        lemma_find_shift(p, s, pat, from + 1);
    }
}

/// A search from the start finds what it finds without the prefix, where nothing starts
/// in the prefix.
pub proof fn lemma_find_past(p: Seq<char>, s: Seq<char>, pat: Seq<char>)
    requires
        forall|j: int| 0 <= j < p.len() ==> !occurs_at(p + s, pat, j),
    ensures
        find_from(p + s, pat, 0) == match find_from(s, pat, 0) {
            Some(i) => Some(p.len() + i),
            None => None,
        },
{
    lemma_find_first(s, pat, 0);
    match find_from(s, pat, 0) {
        Some(i) => {
            lemma_occurs_shift(p, s, pat, i);
            assert forall|j: int| 0 <= j < p.len() + i implies !occurs_at(p + s, pat, j) by {
                if j >= p.len() {
                    lemma_occurs_shift(p, s, pat, j - p.len());
                }
            }
            lemma_find_is(p + s, pat, 0, p.len() + i);
        },
        None => {
            assert forall|j: int| 0 <= j implies !occurs_at(p + s, pat, j) by {
                if j >= p.len() {
                    lemma_occurs_shift(p, s, pat, j - p.len());
                }
            }
            lemma_find_none(p + s, pat, 0);
        },
    }
}

/// Tests whether `pat` stands in `s` at position `i`.
pub fn matches_at(s: &[char], pat: &[char], i: usize) -> (r: bool)
    ensures
        r == occurs_at(s@, pat@, i as int),
{
    let n: usize = s.len();
    if i > n || pat.len() > n - i {
        return false;
    }
    let mut k: usize = 0;
    while k < pat.len()
        invariant
            n == s@.len(),
            k <= pat@.len(),
            i + pat@.len() <= s@.len(),
            forall|j: int| 0 <= j < k ==> s@[i + j] == pat@[j],
        decreases pat@.len() - k,
    {
        if s[i + k] != pat[k] {
            assert(s@.subrange(i as int, i + pat@.len())[k as int] != pat@[k as int]);
            return false;
        }
        k += 1;
    }
    assert(s@.subrange(i as int, i + pat@.len()) =~= pat@);
    true
}

/// The first position at or after `from` at which `pat` stands in `s`.
pub fn find(s: &[char], pat: &str, from: usize) -> (r: Option<usize>)
    ensures
        match r {
            Some(i) => {
                &&& find_from(s@, pat@, from as int) == Some(i as int)
                &&& from <= i
                &&& i + pat@.len() <= s.len()
                &&& occurs_at(s@, pat@, i as int)
            },
            None => find_from(s@, pat@, from as int) is None,
        },
{
    let p: Vec<char> = chars_of(pat);
    let mut i: usize = from;
    while i <= s.len() && p.len() <= s.len() - i
        invariant
            p@ == pat@,
            from <= i,
            i <= s@.len() || i == from,
            find_from(s@, pat@, from as int) == find_from(s@, pat@, i as int),
        decreases s@.len() - i,
    {
        if matches_at(s, &p, i) {
            return Some(i);
        }
        if i == s.len() {
            assert(find_from(s@, pat@, i + 1) is None);
            return None;
        }
        i += 1;
    }
    None
}

/// The last position at which `pat` stands in `s`.
pub fn find_last(s: &[char], pat: &str) -> (r: Option<usize>)
    ensures
        match r {
            Some(i) => {
                &&& rfind(s@, pat@) == Some(i as int)
                &&& i + pat@.len() <= s.len()
                &&& occurs_at(s@, pat@, i as int)
            },
            None => rfind(s@, pat@) is None,
        },
{
    let p: Vec<char> = chars_of(pat);
    if p.len() > s.len() {
        return None;
    }
    let mut i: usize = s.len() - p.len();
    loop
        invariant
            p@ == pat@,
            i <= s@.len() - p@.len(),
            rfind(s@, pat@) == rfind_to(s@, pat@, i as int),
        decreases i,
    {
        if matches_at(s, &p, i) {
            return Some(i);
        }
        if i == 0 {
            assert(rfind_to(s@, pat@, -1) is None);
            return None;
        }
        i -= 1;
    }
}

/// Tests whether `s` is the text `t`.
pub fn same_chars(s: &[char], t: &str) -> (r: bool)
    ensures
        r == (s@ == t@),
{
    let p: Vec<char> = chars_of(t);
    if s.len() != p.len() {
        return false;
    }
    let r: bool = matches_at(s, &p, 0);
    assert(s@.subrange(0, s@.len() as int) =~= s@);
    r
}

/// Tests whether two texts are equal.
pub fn same_text(s: &str, t: &str) -> (r: bool)
    ensures
        r == (s@ == t@),
{
    let p: Vec<char> = chars_of(s);
    same_chars(&p, t)
}

/// Tests whether `s` begins with `t`.
pub fn starts_with(s: &[char], t: &str) -> (r: bool)
    ensures
        r == occurs_at(s@, t@, 0),
{
    let p: Vec<char> = chars_of(t);
    matches_at(s, &p, 0)
}

/// The end of the run of characters of `class` that starts at `i`.
pub open spec fn run_end(s: Seq<char>, class: CharClass, i: int) -> int
    decreases s.len() - i,
{
    if 0 <= i < s.len() && class.holds(s[i]) {
        run_end(s, class, i + 1)
    } else {
        i
    }
}

/// The start of the run of characters of `class` that ends before `i`.
pub open spec fn run_start(s: Seq<char>, class: CharClass, i: int) -> int
    decreases i,
{
    if 0 < i <= s.len() && class.holds(s[i - 1]) {
        run_start(s, class, i - 1)
    } else {
        i
    }
}

/// A run is as long as it can be, and all of it belongs to the class.
pub proof fn lemma_run_end(s: Seq<char>, class: CharClass, i: int)
    requires
        0 <= i <= s.len(),
    ensures
        i <= run_end(s, class, i) <= s.len(),
        forall|j: int| i <= j < run_end(s, class, i) ==> class.holds(s[j]),
        run_end(s, class, i) < s.len() ==> !class.holds(s[run_end(s, class, i)]),
    decreases s.len() - i,
{
    if i < s.len() && class.holds(s[i]) {
        lemma_run_end(s, class, i + 1);
    }
}

/// A stretch of the class with something else behind it is a run.
pub proof fn lemma_run_end_is(s: Seq<char>, class: CharClass, i: int, end: int)
    requires
        0 <= i <= end <= s.len(),
        forall|j: int| i <= j < end ==> class.holds(s[j]),
        end < s.len() ==> !class.holds(s[end]),
    ensures
        run_end(s, class, i) == end,
    decreases end - i,
{
    if i < end {
        lemma_run_end_is(s, class, i + 1, end);
    }
}

/// A run taken backwards is as long as it can be, and all of it belongs to the class.
pub proof fn lemma_run_start(s: Seq<char>, class: CharClass, i: int)
    requires
        0 <= i <= s.len(),
    ensures
        0 <= run_start(s, class, i) <= i,
        forall|j: int| run_start(s, class, i) <= j < i ==> class.holds(s[j]),
        run_start(s, class, i) > 0 ==> !class.holds(s[run_start(s, class, i) - 1]),
    decreases i,
{
    if 0 < i && class.holds(s[i - 1]) {
        lemma_run_start(s, class, i - 1);
    }
}

/// A stretch of the class with something else before it is a run taken backwards.
pub proof fn lemma_run_start_is(s: Seq<char>, class: CharClass, i: int, start: int)
    requires
        0 <= start <= i <= s.len(),
        forall|j: int| start <= j < i ==> class.holds(s[j]),
        start > 0 ==> !class.holds(s[start - 1]),
    ensures
        run_start(s, class, i) == start,
    decreases i - start,
{
    if start < i {
        lemma_run_start_is(s, class, i - 1, start);
    }
}

/// Finds the end of the run of characters of `class` that starts at `from`.
pub fn scan_end(s: &[char], class: CharClass, from: usize) -> (r: usize)
    requires
        from <= s@.len(),
    ensures
        from <= r <= s@.len(),
        r == run_end(s@, class, from as int),
{
    let mut i: usize = from;
    while i < s.len() && class.contains(s[i])
        invariant
            from <= i <= s@.len(),
            run_end(s@, class, from as int) == run_end(s@, class, i as int),
        decreases s@.len() - i,
    {
        i += 1;
    }
    i
}

/// Finds the start of the run of characters of `class` that ends before `to`.
pub fn scan_start(s: &[char], class: CharClass, to: usize) -> (r: usize)
    requires
        to <= s@.len(),
    ensures
        r <= to,
        r == run_start(s@, class, to as int),
{
    let mut i: usize = to;
    while i > 0 && class.contains(s[i - 1])
        invariant
            i <= to <= s@.len(),
            run_start(s@, class, to as int) == run_start(s@, class, i as int),
        decreases i,
    {
        i -= 1;
    }
    i
}

/// `s` without its leading white space.
pub open spec fn trim_start(s: Seq<char>) -> Seq<char> {
    s.skip(run_end(s, CharClass::White, 0))
}

/// `s` without its trailing white space.
pub open spec fn trim_end(s: Seq<char>) -> Seq<char> {
    s.take(run_start(s, CharClass::White, s.len() as int))
}

/// `s` without the white space at both ends.
pub open spec fn trim(s: Seq<char>) -> Seq<char> {
    trim_end(trim_start(s))
}

/// `s` without its leading white space.
pub fn trimmed_start(s: &[char]) -> (r: &[char])
    ensures
        r@ == trim_start(s@),
{
    let from: usize = scan_end(s, CharClass::White, 0);
    slice_subrange(s, from, s.len())
}

/// `s` without its trailing white space.
pub fn trimmed_end(s: &[char]) -> (r: &[char])
    ensures
        r@ == trim_end(s@),
{
    let to: usize = scan_start(s, CharClass::White, s.len());
    slice_subrange(s, 0, to)
}

/// `s` without the white space at both ends.
pub fn trimmed(s: &[char]) -> (r: &[char])
    ensures
        r@ == trim(s@),
{
    trimmed_end(trimmed_start(s))
}

/// Text without white space at its ends is its own trimmed form.
pub proof fn lemma_trim_keeps(s: Seq<char>)
    requires
        s.len() > 0 ==> !is_white(s[0]) && !is_white(s.last()),
    ensures
        trim(s) == s,
{
    assert(run_end(s, CharClass::White, 0) == 0);
    assert(trim_start(s) =~= s);
    assert(run_start(s, CharClass::White, s.len() as int) == s.len());
    assert(trim_end(s) =~= s);
}

/// The value of one decimal digit.
pub open spec fn digit_value(c: char) -> nat {
    (c as u32 - '0' as u32) as nat
}

/// The value of a row of decimal digits.
pub open spec fn digits_value(s: Seq<char>) -> nat
    decreases s.len(),
{
    if s.len() == 0 {
        0
    } else {
        digits_value(s.drop_last()) * 10 + digit_value(s.last())
    }
}

/// Whether `s` is one or more decimal digits and nothing else.
pub open spec fn is_digits(s: Seq<char>) -> bool {
    s.len() > 0 && forall|i: int| 0 <= i < s.len() ==> is_digit(#[trigger] s[i])
}

/// The number that `s` denotes, where it is a row of digits of value at most `max`.
pub open spec fn parse_digits(s: Seq<char>, max: nat) -> Option<nat> {
    if is_digits(s) && digits_value(s) <= max {
        Some(digits_value(s))
    } else {
        None
    }
}

/// The number from 0 to `max` that `s` denotes: decimal digits, after a `+` or not.
pub open spec fn parse_unsigned(s: Seq<char>, max: nat) -> Option<nat> {
    if s.len() > 0 && s[0] == '+' {
        parse_digits(s.skip(1), max)
    } else {
        parse_digits(s, max)
    }
}

/// The `i32` that `s` denotes: decimal digits, after a sign or not.
pub open spec fn parse_i32(s: Seq<char>) -> Option<i32> {
    if s.len() > 0 && s[0] == '-' {
        match parse_digits(s.skip(1), 0x8000_0000) {
            Some(n) => Some((-n) as i32),
            None => None,
        }
    } else {
        match parse_unsigned(s, 0x7fff_ffff) {
            Some(n) => Some(n as i32),
            None => None,
        }
    }
}

proof fn lemma_digits_value_grows(s: Seq<char>, k: int)
    requires
        0 <= k <= s.len(),
    ensures
        digits_value(s.take(k)) <= digits_value(s),
    decreases s.len() - k,
{
    if k < s.len() {
        lemma_digits_value_grows(s, k + 1);
        assert(s.take(k + 1).drop_last() =~= s.take(k));
    } else {
        assert(s.take(k) =~= s);
    }
}

/// Reads a row of decimal digits of value at most `max`.
pub fn read_digits(s: &[char], max: u32) -> (r: Option<u32>)
    ensures
        match r {
            Some(n) => parse_digits(s@, max as nat) == Some(n as nat),
            None => parse_digits(s@, max as nat) is None,
        },
{
    if s.len() == 0 {
        return None;
    }
    let mut value: u64 = 0;
    let mut i: usize = 0;
    while i < s.len()
        invariant
            i <= s@.len(),
            value <= max,
            value == digits_value(s@.take(i as int)),
            forall|j: int| 0 <= j < i ==> is_digit(#[trigger] s@[j]),
        decreases s@.len() - i,
    {
        let c: char = s[i];
        if !CharClass::Digit.contains(c) {
            assert(!is_digit(s@[i as int]));
            return None;
        }
        let d: u64 = (c as u32 - '0' as u32) as u64;
        proof {
            assert(s@.take(i + 1).drop_last() =~= s@.take(i as int));
            lemma_digits_value_grows(s@, i + 1);
        }
        value = value * 10 + d;
        if value > max as u64 {
            return None;
        }
        i += 1;
    }
    assert(s@.take(i as int) =~= s@);
    Some(value as u32)
}

/// Reads a number from 0 to `max`.
pub fn read_unsigned(s: &[char], max: u32) -> (r: Option<u32>)
    ensures
        match r {
            Some(n) => parse_unsigned(s@, max as nat) == Some(n as nat),
            None => parse_unsigned(s@, max as nat) is None,
        },
{
    if s.len() > 0 && s[0] == '+' {
        read_digits(slice_subrange(s, 1, s.len()), max)
    } else {
        read_digits(s, max)
    }
}

/// Reads a signed 32-bit number.
pub fn read_i32(s: &[char]) -> (r: Option<i32>)
    ensures
        r == parse_i32(s@),
{
    if s.len() > 0 && s[0] == '-' {
        match read_digits(slice_subrange(s, 1, s.len()), 0x8000_0000) {
            Some(n) => Some((-(n as i64)) as i32),
            None => None,
        }
    } else {
        match read_unsigned(s, 0x7fff_ffff) {
            Some(n) => Some(n as i32),
            None => None,
        }
    }
}

/// The character for the decimal digit `d`.
pub open spec fn digit_char(d: nat) -> char {
    (48 + d) as u8 as char
}

/// `n` in decimal, without leading zeros.
pub open spec fn decimal(n: nat) -> Seq<char>
    decreases n,
{
    if n < 10 {
        seq![digit_char(n)]
    } else {
        decimal(n / 10).push(digit_char(n % 10))
    }
}

/// `n` in decimal, with a `-` before it where it is negative.
pub open spec fn signed_decimal(n: int) -> Seq<char> {
    if n < 0 {
        seq!['-'] + decimal((-n) as nat)
    } else {
        decimal(n as nat)
    }
}

/// Appends `n` in decimal.
pub fn push_decimal(out: &mut String, n: u64)
    ensures
        final(out)@ == old(out)@ + decimal(n as nat),
    decreases n,
{
    if n >= 10 {
        push_decimal(out, n / 10);
    }
    out.push((48 + (n % 10) as u8) as char);
    assert(out@ =~= old(out)@ + decimal(n as nat));
}

/// Appends `n` in decimal, with its sign where it is negative.
pub fn push_signed(out: &mut String, n: i64)
    ensures
        final(out)@ == old(out)@ + signed_decimal(n as int),
{
    if n < 0 {
        out.push('-');
        let magnitude: u64 = (-(n as i128)) as u64;
        push_decimal(out, magnitude);
        assert(out@ =~= old(out)@ + signed_decimal(n as int));
    } else {
        push_decimal(out, n as u64);
    }
}

/// Decimal digits are digits, and their value is the number written.
pub proof fn lemma_decimal(n: nat)
    ensures
        is_digits(decimal(n)),
        digits_value(decimal(n)) == n,
    decreases n,
{
    reveal_with_fuel(digits_value, 2);
    if n >= 10 {
        lemma_decimal(n / 10);
        assert(decimal(n).drop_last() =~= decimal(n / 10));
    } else {
        assert(decimal(n).drop_last() =~= Seq::<char>::empty());
    }
}

/// A decimal number holds digits alone.
pub proof fn lemma_decimal_lacks(n: nat, c: char)
    requires
        !is_digit(c),
    ensures
        !decimal(n).contains(c),
{
    lemma_decimal(n);
    if decimal(n).contains(c) {
        let i = choose|i: int| 0 <= i < decimal(n).len() && decimal(n)[i] == c;
        assert(is_digit(decimal(n)[i]));
    }
}

/// Two texts together hold a character that one of them holds, and no other.
pub proof fn lemma_contains_concat(a: Seq<char>, b: Seq<char>, c: char)
    ensures
        (a + b).contains(c) == (a.contains(c) || b.contains(c)),
{
    let s = a + b;
    if s.contains(c) {
        let i = choose|i: int| 0 <= i < s.len() && s[i] == c;
        if i < a.len() {
            assert(a[i] == c);
        } else {
            assert(b[i - a.len()] == c);
        }
    }
    if a.contains(c) {
        let i = choose|i: int| 0 <= i < a.len() && a[i] == c;
        assert(s[i] == c);
    }
    if b.contains(c) {
        let i = choose|i: int| 0 <= i < b.len() && b[i] == c;
        assert(s[a.len() + i] == c);
    }
}

/// Reading a number back from its decimal form gives that number.
pub proof fn law_decimal_round_trip(n: nat, max: nat)
    requires
        n <= max,
    ensures
        parse_unsigned(decimal(n), max) == Some(n),
{
    lemma_decimal(n);
    assert(is_digit(decimal(n)[0]));
}

/// Reading a signed number back from its decimal form gives that number.
pub proof fn law_signed_decimal_round_trip(n: i32)
    ensures
        parse_i32(signed_decimal(n as int)) == Some(n),
{
    if n < 0 {
        lemma_decimal((-n) as nat);
        assert(signed_decimal(n as int).skip(1) =~= decimal((-n) as nat));
    } else {
        lemma_decimal(n as nat);
        assert(is_digit(decimal(n as nat)[0]));
    }
}

/// A number is written in decimal, as itself: a `-` where it is negative, then digits whose
/// value it is, without a needless zero at the front.
pub proof fn law_number_is_written(n: int)
    ensures
        n < 0 <==> signed_decimal(n)[0] == '-',
        ({
            let d = if n < 0 {
                signed_decimal(n).skip(1)
            } else {
                signed_decimal(n)
            };
            &&& is_digits(d)
            &&& digits_value(d) == if n < 0 {
                -n
            } else {
                n
            }
            &&& d.len() > 1 ==> d[0] != '0'
        }),
{
    let m = (if n < 0 {
        -n
    } else {
        n
    }) as nat;
    lemma_decimal(m);
    lemma_decimal_front(m);
    if n < 0 {
        assert(signed_decimal(n).skip(1) =~= decimal(m));
    } else {
        assert(is_digit(decimal(m)[0]));
    }
}

proof fn lemma_decimal_front(n: nat)
    ensures
        decimal(n).len() > 0,
        n > 0 ==> decimal(n)[0] != '0',
        n < 10 ==> decimal(n).len() == 1,
    decreases n,
{
    if n >= 10 {
        lemma_decimal_front(n / 10);
        assert(decimal(n)[0] == decimal(n / 10)[0]);
    }
}

/// Two different numbers are never written alike.
pub proof fn law_numbers_are_told_apart(a: int, b: int)
    ensures
        a != b ==> signed_decimal(a) != signed_decimal(b),
{
    law_number_is_written(a);
    law_number_is_written(b);
}

/// A line that ended in a line feed, without the carriage return before it.
pub open spec fn strip_return(s: Seq<char>) -> Seq<char> {
    if s.len() > 0 && s.last() == '\r' {
        s.drop_last()
    } else {
        s
    }
}

/// The lines of `s`: each ends in a line feed, with a carriage return before it or
/// not; the last one may have no line feed.
pub open spec fn lines(s: Seq<char>) -> Seq<Seq<char>>
    decreases s.len(),
{
    if s.len() == 0 {
        seq![]
    } else {
        match find_from(s, seq!['\n'], 0) {
            Some(i) if 0 <= i < s.len() => seq![strip_return(s.take(i))] + lines(s.skip(i + 1)),
            _ => seq![s],
        }
    }
}

/// The lower-case form of an ASCII letter; any other character is kept.
pub open spec fn lower(c: char) -> char {
    if 'A' <= c <= 'Z' {
        (c as u8 + 32) as u8 as char
    } else {
        c
    }
}

/// The upper-case form of an ASCII letter; any other character is kept.
pub open spec fn upper(c: char) -> char {
    if 'a' <= c <= 'z' {
        (c as u8 - 32) as u8 as char
    } else {
        c
    }
}

/// `s` with its ASCII letters in lower case.
pub open spec fn lower_text(s: Seq<char>) -> Seq<char> {
    Seq::new(s.len(), |i: int| lower(s[i]))
}

/// `s` with its ASCII letters in upper case.
pub open spec fn upper_text(s: Seq<char>) -> Seq<char> {
    Seq::new(s.len(), |i: int| upper(s[i]))
}

/// `s` with its ASCII letters in lower case.
pub fn lowered(s: &[char]) -> (r: Vec<char>)
    ensures
        r@ == lower_text(s@),
{
    let mut out: Vec<char> = Vec::new();
    let mut i: usize = 0;
    while i < s.len()
        invariant
            i <= s@.len(),
            out@ =~= lower_text(s@).take(i as int),
        decreases s@.len() - i,
    {
        let c: char = s[i];
        if 'A' <= c && c <= 'Z' {
            out.push((c as u8 + 32) as char);
        } else {
            out.push(c);
        }
        i += 1;
    }
    out
}

/// `s` with its ASCII letters in upper case.
pub fn uppered(s: &[char]) -> (r: Vec<char>)
    ensures
        r@ == upper_text(s@),
{
    let mut out: Vec<char> = Vec::new();
    let mut i: usize = 0;
    while i < s.len()
        invariant
            i <= s@.len(),
            out@ =~= upper_text(s@).take(i as int),
        decreases s@.len() - i,
    {
        let c: char = s[i];
        if 'a' <= c && c <= 'z' {
            out.push((c as u8 - 32) as char);
        } else {
            out.push(c);
        }
        i += 1;
    }
    out
}

} // verus!
