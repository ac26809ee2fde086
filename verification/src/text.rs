//! Text primitives over Unicode scalar values.
//!
//! A string is modelled by the sequence of its characters. The functions here
//! are the handful of string operations the rest of the crate is built from.

use vstd::prelude::*;

verus! {

/// `String::push` of the standard library: appends the character `c` to the
/// end of `s`.
pub assume_specification[ String::push ](s: &mut String, c: char)
    ensures
        final(s)@ == old(s)@.push(c),
;

// ---------------------------------------------------------------------------
// Models
// ---------------------------------------------------------------------------

/// The characters with the Unicode property `White_Space`.
pub open spec fn white_space(c: char) -> bool {
    ||| '\u{9}' <= c <= '\u{d}'
    ||| c == ' '
    ||| c == '\u{85}'
    ||| c == '\u{a0}'
    ||| c == '\u{1680}'
    ||| '\u{2000}' <= c <= '\u{200a}'
    ||| c == '\u{2028}'
    ||| c == '\u{2029}'
    ||| c == '\u{202f}'
    ||| c == '\u{205f}'
    ||| c == '\u{3000}'
}

/// `s` without its leading white space.
pub open spec fn trim_start(s: Seq<char>) -> Seq<char>
    decreases s.len(),
{
    if s.len() > 0 && white_space(s[0]) {
        trim_start(s.drop_first())
    } else {
        s
    }
}

/// `s` without its trailing white space.
pub open spec fn trim_end(s: Seq<char>) -> Seq<char>
    decreases s.len(),
{
    if s.len() > 0 && white_space(s.last()) {
        trim_end(s.drop_last())
    } else {
        s
    }
}

/// `s` without the white space around it.
pub open spec fn trimmed(s: Seq<char>) -> Seq<char> {
    trim_end(trim_start(s))
}

/// `pat` stands in `s` at position `i`.
pub open spec fn occurs_at(s: Seq<char>, pat: Seq<char>, i: int) -> bool {
    &&& 0 <= i
    &&& i + pat.len() <= s.len()
    &&& s.subrange(i, i + pat.len()) == pat
}

/// The first position at or after `from` at which `pat` stands in `s`.
pub open spec fn first_index(s: Seq<char>, pat: Seq<char>, from: int) -> Option<int>
    decreases s.len() - from + 1,
{
    if from < 0 || from + pat.len() > s.len() {
        None
    } else if occurs_at(s, pat, from) {
        Some(from)
    } else {
        first_index(s, pat, from + 1)
    }
}

/// The last position at or before `from` at which `pat` stands in `s`.
pub open spec fn last_index(s: Seq<char>, pat: Seq<char>, from: int) -> Option<int>
    decreases from + 1,
{
    if from < 0 {
        None
    } else if occurs_at(s, pat, from) {
        Some(from)
    } else {
        last_index(s, pat, from - 1)
    }
}

/// `pat` stands somewhere in `s`.
pub open spec fn has_substring(s: Seq<char>, pat: Seq<char>) -> bool {
    first_index(s, pat, 0) is Some
}

/// The parts of `s` before and after the first `pat`.
pub open spec fn split_first(s: Seq<char>, pat: Seq<char>) -> Option<(Seq<char>, Seq<char>)> {
    match first_index(s, pat, 0) {
        Some(i) => Some((s.take(i), s.skip(i + pat.len()))),
        None => None,
    }
}

/// The parts of `s` before and after the last `pat`.
pub open spec fn split_last(s: Seq<char>, pat: Seq<char>) -> Option<(Seq<char>, Seq<char>)> {
    match last_index(s, pat, s.len() - pat.len()) {
        Some(i) => Some((s.take(i), s.skip(i + pat.len()))),
        None => None,
    }
}

/// `s` begins with `pat`.
pub open spec fn begins_with(s: Seq<char>, pat: Seq<char>) -> bool {
    occurs_at(s, pat, 0)
}

/// `s` ends with `pat`.
pub open spec fn finishes_with(s: Seq<char>, pat: Seq<char>) -> bool {
    occurs_at(s, pat, s.len() - pat.len())
}

/// ASCII capitals mapped to small letters, every other character kept.
pub open spec fn ascii_lower_char(c: char) -> char {
    if 'A' <= c <= 'Z' {
        ((c as int) + 32) as char
    } else {
        c
    }
}

/// `s` with its ASCII capitals mapped to small letters.
pub open spec fn ascii_lower(s: Seq<char>) -> Seq<char> {
    Seq::new(s.len(), |i: int| ascii_lower_char(s[i]))
}

/// The view of an optional string.
pub open spec fn opt_view(s: Option<String>) -> Option<Seq<char>> {
    match s {
        Some(t) => Some(t@),
        None => None,
    }
}

/// The view of an optional pair of strings.
pub open spec fn opt_pair_view(p: Option<(String, String)>) -> Option<(Seq<char>, Seq<char>)> {
    match p {
        Some((a, b)) => Some((a@, b@)),
        None => None,
    }
}

/// The views of a sequence of strings.
pub open spec fn views(s: Seq<String>) -> Seq<Seq<char>> {
    Seq::new(s.len(), |i: int| s[i]@)
}

// ---------------------------------------------------------------------------
// Lemmas
// ---------------------------------------------------------------------------

/// What `first_index` finds is an occurrence, and no earlier one is passed over.
pub proof fn lemma_first_index(s: Seq<char>, pat: Seq<char>, from: int)
    requires
        0 <= from,
    ensures
        first_index(s, pat, from) matches Some(i) ==> from <= i && occurs_at(s, pat, i)
            && forall|j: int| from <= j < i ==> !occurs_at(s, pat, j),
        first_index(s, pat, from) is None ==> forall|j: int|
            from <= j ==> !occurs_at(s, pat, j),
    decreases s.len() - from + 1,
{
    if from + pat.len() > s.len() {
    } else if occurs_at(s, pat, from) {
    } else {
        lemma_first_index(s, pat, from + 1);
    }
}

/// What `last_index` finds is an occurrence, and no later one is passed over.
pub proof fn lemma_last_index(s: Seq<char>, pat: Seq<char>, from: int)
    ensures
        last_index(s, pat, from) matches Some(i) ==> i <= from && occurs_at(s, pat, i)
            && forall|j: int| i < j <= from ==> !occurs_at(s, pat, j),
        last_index(s, pat, from) is None ==> forall|j: int|
            j <= from ==> !occurs_at(s, pat, j),
    decreases from + 1,
{
    if from < 0 {
    } else if occurs_at(s, pat, from) {
    } else {
        lemma_last_index(s, pat, from - 1);
    }
}

// ---------------------------------------------------------------------------
// Operations
// ---------------------------------------------------------------------------

/// The characters of `s`, one by one.
pub fn chars_of(s: &str) -> (r: Vec<char>)
    ensures
        r@ == s@,
{
    let mut out: Vec<char> = Vec::new();
    for c in it: s.chars()
        invariant
            out@ == it.seq().take(it.index() as int),
            it.seq() == s@,
    {
        out.push(c);
    }
    out
}

/// The string made of the characters of `cs` from `from` up to `to`.
pub fn string_of(cs: &Vec<char>, from: usize, to: usize) -> (r: String)
    requires
        from <= to <= cs@.len(),
    ensures
        r@ == cs@.subrange(from as int, to as int),
{
    let mut out = String::new();
    let mut i: usize = from;
    while i < to
        invariant
            from <= i <= to <= cs@.len(),
            out@ == cs@.subrange(from as int, i as int),
        decreases to - i,
    {
        out.push(cs[i]);
        i = i + 1;
    }
    out
}

/// `a` and `b` hold the same characters.
pub fn text_eq(a: &str, b: &str) -> (r: bool)
    ensures
        r == (a@ == b@),
{
    let x = chars_of(a);
    let y = chars_of(b);
    if x.len() != y.len() {
        return false;
    }
    let mut i: usize = 0;
    while i < x.len()
        invariant
            i <= x@.len(),
            x@.len() == y@.len(),
            x@ == a@,
            y@ == b@,
            forall|j: int| 0 <= j < i ==> x@[j] == y@[j],
        decreases x@.len() - i,
    {
        if x[i] != y[i] {
            assert(a@[i as int] != b@[i as int]);
            return false;
        }
        i = i + 1;
    }
    assert(a@ =~= b@);
    true
}

/// `c` has the Unicode property `White_Space`.
pub fn is_white_space(c: char) -> (r: bool)
    ensures
        r == white_space(c),
{
    ('\u{9}' <= c && c <= '\u{d}') || c == ' ' || c == '\u{85}' || c == '\u{a0}' || c == '\u{1680}'
        || ('\u{2000}' <= c && c <= '\u{200a}') || c == '\u{2028}' || c == '\u{2029}' || c
        == '\u{202f}' || c == '\u{205f}' || c == '\u{3000}'
}

/// `s` without the white space around it.
pub fn trim(s: &str) -> (r: String)
    ensures
        r@ == trimmed(s@),
{
    let cs = chars_of(s);
    let mut from: usize = 0;
    assert(cs@.skip(0) =~= cs@);
    while from < cs.len() && is_white_space(cs[from])
        invariant
            from <= cs@.len(),
            trim_start(cs@) == trim_start(cs@.skip(from as int)),
        decreases cs@.len() - from,
    {
        assert(cs@.skip(from as int).drop_first() =~= cs@.skip(from + 1));
        from = from + 1;
    }
    let ghost rest = cs@.skip(from as int);
    let mut to: usize = cs.len();
    assert(rest.take(to - from) =~= rest);
    while from < to && is_white_space(cs[to - 1])
        invariant
            from <= to <= cs@.len(),
            rest == cs@.skip(from as int),
            trim_end(rest) == trim_end(rest.take(to - from)),
        decreases to,
    {
        assert(rest.take(to - from).drop_last() =~= rest.take(to - from - 1));
        to = to - 1;
    }
    assert(cs@.subrange(from as int, to as int) =~= rest.take(to - from));
    string_of(&cs, from, to)
}

/// The first position at or after `from` at which `pat` stands in `cs`.
fn find_from(cs: &Vec<char>, pat: &Vec<char>, from: usize) -> (r: Option<usize>)
    requires
        from <= cs@.len(),
    ensures
        r matches Some(i) ==> first_index(cs@, pat@, from as int) == Some(i as int),
        r is None ==> first_index(cs@, pat@, from as int) is None,
{
    if pat.len() > cs.len() - from {
        return None;
    }
    let last: usize = cs.len() - pat.len();
    let mut i: usize = from;
    loop
        invariant
            from <= i <= last,
            last == cs@.len() - pat@.len(),
            first_index(cs@, pat@, from as int) == first_index(cs@, pat@, i as int),
        decreases last - i,
    {
        if stands_at(cs, pat, i) {
            return Some(i);
        }
        if i == last {
            assert(first_index(cs@, pat@, last + 1) is None);
            return None;
        }
        i = i + 1;
    }
}

/// The last position at which `pat` stands in `cs`.
fn find_last(cs: &Vec<char>, pat: &Vec<char>) -> (r: Option<usize>)
    ensures
        r matches Some(i) ==> last_index(cs@, pat@, cs@.len() - pat@.len()) == Some(i as int),
        r is None ==> last_index(cs@, pat@, cs@.len() - pat@.len()) is None,
{
    if pat.len() > cs.len() {
        return None;
    }
    let mut i: usize = cs.len() - pat.len();
    loop
        invariant
            i + pat@.len() <= cs@.len(),
            last_index(cs@, pat@, cs@.len() - pat@.len()) == last_index(cs@, pat@, i as int),
        decreases i,
    {
        if stands_at(cs, pat, i) {
            return Some(i);
        }
        if i == 0 {
            assert(last_index(cs@, pat@, -1) is None);
            return None;
        }
        i = i - 1;
    }
}

/// `pat` stands in `cs` at position `i`.
fn stands_at(cs: &Vec<char>, pat: &Vec<char>, i: usize) -> (r: bool)
    ensures
        r == occurs_at(cs@, pat@, i as int),
{
    if i > cs.len() || pat.len() > cs.len() - i {
        return false;
    }
    let n: usize = cs.len();
    let mut j: usize = 0;
    while j < pat.len()
        invariant
            j <= pat@.len(),
            n == cs@.len(),
            i + pat@.len() <= n,
            forall|k: int| 0 <= k < j ==> cs@[i + k] == pat@[k],
        decreases pat@.len() - j,
    {
        if cs[i + j] != pat[j] {
            assert(cs@.subrange(i as int, i + pat@.len())[j as int] != pat@[j as int]);
            return false;
        }
        j = j + 1;
    }
    assert(cs@.subrange(i as int, i + pat@.len()) =~= pat@);
    true
}

/// The parts of `s` before and after the first `pat`.
pub fn split_once(s: &str, pat: &str) -> (r: Option<(String, String)>)
    ensures
        opt_pair_view(r) == split_first(s@, pat@),
{
    let cs = chars_of(s);
    let ps = chars_of(pat);
    match find_from(&cs, &ps, 0) {
        Some(i) => {
            proof {
                lemma_first_index(s@, pat@, 0);
                assert(cs@.subrange(0, i as int) =~= s@.take(i as int));
                assert(cs@.subrange(i + ps@.len(), cs@.len() as int) =~= s@.skip(i + pat@.len()));
            }
            let n: usize = cs.len();
            Some((string_of(&cs, 0, i), string_of(&cs, i + ps.len(), n)))
        },
        None => None,
    }
}

/// The parts of `s` before and after the last `pat`.
pub fn rsplit_once(s: &str, pat: &str) -> (r: Option<(String, String)>)
    ensures
        opt_pair_view(r) == split_last(s@, pat@),
{
    let cs = chars_of(s);
    let ps = chars_of(pat);
    match find_last(&cs, &ps) {
        Some(i) => {
            proof {
                lemma_last_index(s@, pat@, s@.len() - pat@.len());
                assert(cs@.subrange(0, i as int) =~= s@.take(i as int));
                assert(cs@.subrange(i + ps@.len(), cs@.len() as int) =~= s@.skip(i + pat@.len()));
            }
            let n: usize = cs.len();
            Some((string_of(&cs, 0, i), string_of(&cs, i + ps.len(), n)))
        },
        None => None,
    }
}

/// `pat` stands somewhere in `s`.
pub fn contains(s: &str, pat: &str) -> (r: bool)
    ensures
        r == has_substring(s@, pat@),
{
    let cs = chars_of(s);
    let ps = chars_of(pat);
    find_from(&cs, &ps, 0).is_some()
}

/// `s` begins with `pat`.
pub fn starts_with(s: &str, pat: &str) -> (r: bool)
    ensures
        r == begins_with(s@, pat@),
{
    let cs = chars_of(s);
    let ps = chars_of(pat);
    stands_at(&cs, &ps, 0)
}

/// `s` ends with `pat`.
pub fn ends_with(s: &str, pat: &str) -> (r: bool)
    ensures
        r == finishes_with(s@, pat@),
{
    let cs = chars_of(s);
    let ps = chars_of(pat);
    if ps.len() > cs.len() {
        return false;
    }
    stands_at(&cs, &ps, cs.len() - ps.len())
}

/// `s` with its ASCII capitals mapped to small letters.
pub fn to_ascii_lowercase(s: &str) -> (r: String)
    ensures
        r@ == ascii_lower(s@),
{
    let cs = chars_of(s);
    let mut out = String::new();
    let mut i: usize = 0;
    while i < cs.len()
        invariant
            i <= cs@.len(),
            cs@ == s@,
            out@ == ascii_lower(s@).take(i as int),
        decreases cs@.len() - i,
    {
        out.push(lower_char(cs[i]));
        i = i + 1;
        assert(out@ =~= ascii_lower(s@).take(i as int));
    }
    assert(ascii_lower(s@).take(i as int) =~= ascii_lower(s@));
    out
}

/// `c`, as a small letter where it is an ASCII capital.
pub fn lower_char(c: char) -> (r: char)
    ensures
        r == ascii_lower_char(c),
{
    if 'A' <= c && c <= 'Z' {
        ((c as u8) + 32) as char
    } else {
        c
    }
}

/// The concatenation of `a` and `b`.
pub fn join2(a: &str, b: &str) -> (r: String)
    ensures
        r@ == a@ + b@,
{
    let mut out = String::new();
    out.append(a);
    out.append(b);
    assert(out@ =~= a@ + b@);
    out
}

/// The concatenation of `a`, `b` and `c`.
pub fn join3(a: &str, b: &str, c: &str) -> (r: String)
    ensures
        r@ == a@ + b@ + c@,
{
    let mut out = join2(a, b);
    out.append(c);
    out
}

/// One of `items` holds the characters of `s`.
pub fn contains_text(items: &[String], s: &str) -> (r: bool)
    ensures
        r == views(items@).contains(s@),
{
    let mut i: usize = 0;
    while i < items.len()
        invariant
            i <= items@.len(),
            forall|j: int| 0 <= j < i ==> items@[j]@ != s@,
        decreases items@.len() - i,
    {
        if text_eq(items[i].as_str(), s) {
            assert(views(items@)[i as int] == s@);
            return true;
        }
        i = i + 1;
    }
    false
}

// ---------------------------------------------------------------------------
// Laws
// ---------------------------------------------------------------------------

/// White space is a tab, a line break or a blank, as Unicode has them.
pub proof fn white_space_by_code_point(c: char)
    ensures
        white_space(c) <==> {
            let n = c as int;
            ||| 9 <= n <= 13
            ||| n == 32
            ||| n == 133
            ||| n == 160
            ||| n == 5760
            ||| 8192 <= n <= 8202
            ||| n == 8232
            ||| n == 8233
            ||| n == 8239
            ||| n == 8287
            ||| n == 12288
        },
{
}

/// Trimming cuts white space off both ends, all of it and nothing else.
pub proof fn trimming_cuts_white_space(s: Seq<char>) -> (cut: (int, int))
    ensures
        0 <= cut.0 <= cut.1 <= s.len(),
        trimmed(s) == s.subrange(cut.0, cut.1),
        forall|i: int| 0 <= i < cut.0 ==> white_space(#[trigger] s[i]),
        forall|i: int| cut.1 <= i < s.len() ==> white_space(#[trigger] s[i]),
        trimmed(s).len() > 0 ==> !white_space(trimmed(s)[0]) && !white_space(
            trimmed(s)[trimmed(s).len() - 1],
        ),
{
    let a = lemma_trim_start(s);
    let b = lemma_trim_end(trim_start(s));
    assert(trimmed(s) =~= s.subrange(a, a + b));
    assert forall|i: int| a + b <= i < s.len() implies white_space(#[trigger] s[i]) by {
        assert(trim_start(s)[i - a] == s[i]);
    }
    if trimmed(s).len() > 0 {
        assert(trimmed(s)[0] == trim_start(s)[0]);
    }
    (a, a + b)
}

proof fn lemma_trim_start(s: Seq<char>) -> (k: int)
    ensures
        0 <= k <= s.len(),
        trim_start(s) == s.skip(k),
        forall|i: int| 0 <= i < k ==> white_space(#[trigger] s[i]),
        trim_start(s).len() > 0 ==> !white_space(trim_start(s)[0]),
    decreases s.len(),
{
    if s.len() > 0 && white_space(s[0]) {
        let k = lemma_trim_start(s.drop_first());
        assert(s.drop_first().skip(k) =~= s.skip(k + 1));
        assert forall|i: int| 0 <= i < k + 1 implies white_space(#[trigger] s[i]) by {
            if i > 0 {
                assert(s.drop_first()[i - 1] == s[i]);
            }
        }
        k + 1
    } else {
        assert(s.skip(0) =~= s);
        0
    }
}

proof fn lemma_trim_end(s: Seq<char>) -> (k: int)
    ensures
        0 <= k <= s.len(),
        trim_end(s) == s.take(k),
        forall|i: int| k <= i < s.len() ==> white_space(#[trigger] s[i]),
        trim_end(s).len() > 0 ==> !white_space(trim_end(s).last()),
    decreases s.len(),
{
    if s.len() > 0 && white_space(s.last()) {
        let k = lemma_trim_end(s.drop_last());
        assert(s.drop_last().take(k) =~= s.take(k));
        assert forall|i: int| k <= i < s.len() implies white_space(#[trigger] s[i]) by {
            if i < s.len() - 1 {
                assert(s.drop_last()[i] == s[i]);
            }
        }
        k
    } else {
        assert(s.take(s.len() as int) =~= s);
        s.len() as int
    }
}

/// A text without white space at its ends is left as it is.
pub proof fn trimming_keeps_the_rest(s: Seq<char>)
    requires
        s.len() > 0 ==> !white_space(s[0]) && !white_space(s[s.len() - 1]),
    ensures
        trimmed(s) == s,
{
}

/// Splitting cuts a text at the first occurrence: the two parts with the
/// pattern between them are the text, and the pattern does not stand earlier.
/// It fails only where the pattern stands nowhere.
pub proof fn splitting_takes_the_first(s: Seq<char>, pat: Seq<char>)
    ensures
        match split_first(s, pat) {
            Some((a, b)) => {
                &&& s == a + pat + b
                &&& forall|i: int|
                    0 <= i < a.len() ==> #[trigger] s.subrange(i, i + pat.len()) != pat
            },
            None => forall|i: int|
                0 <= i <= s.len() - pat.len() ==> #[trigger] s.subrange(i, i + pat.len()) != pat,
        },
{
    lemma_first_index(s, pat, 0);
    match first_index(s, pat, 0) {
        Some(i) => {
            assert(s =~= s.take(i) + s.subrange(i, i + pat.len()) + s.skip(i + pat.len()));
            assert forall|j: int| 0 <= j < i implies #[trigger] s.subrange(j, j + pat.len())
                != pat by {
                assert(!occurs_at(s, pat, j));
            }
        },
        None => {
            assert forall|j: int| 0 <= j <= s.len() - pat.len() implies #[trigger] s.subrange(
                j,
                j + pat.len(),
            ) != pat by {
                assert(!occurs_at(s, pat, j));
            }
        },
    }
}

/// Splitting from the end cuts a text at the last occurrence.
pub proof fn splitting_takes_the_last(s: Seq<char>, pat: Seq<char>)
    ensures
        match split_last(s, pat) {
            Some((a, b)) => {
                &&& s == a + pat + b
                &&& forall|i: int|
                    a.len() < i <= s.len() - pat.len() ==> #[trigger] s.subrange(i, i + pat.len())
                        != pat
            },
            None => forall|i: int|
                0 <= i <= s.len() - pat.len() ==> #[trigger] s.subrange(i, i + pat.len()) != pat,
        },
{
    lemma_last_index(s, pat, s.len() - pat.len());
    match last_index(s, pat, s.len() - pat.len()) {
        Some(i) => {
            assert(s =~= s.take(i) + s.subrange(i, i + pat.len()) + s.skip(i + pat.len()));
            assert forall|j: int| i < j <= s.len() - pat.len() implies #[trigger] s.subrange(
                j,
                j + pat.len(),
            ) != pat by {
                assert(!occurs_at(s, pat, j));
            }
        },
        None => {
            assert forall|j: int| 0 <= j <= s.len() - pat.len() implies #[trigger] s.subrange(
                j,
                j + pat.len(),
            ) != pat by {
                assert(!occurs_at(s, pat, j));
            }
        },
    }
}

/// A text has a pattern in it exactly if it can be put together around it.
pub proof fn substrings_are_found(s: Seq<char>, pat: Seq<char>, a: Seq<char>, b: Seq<char>)
    ensures
        has_substring(a + pat + b, pat),
        has_substring(s, pat) ==> exists|i: int|
            0 <= i <= s.len() - pat.len() && #[trigger] s.subrange(i, i + pat.len()) == pat,
{
    let t = a + pat + b;
    lemma_first_index(t, pat, 0);
    assert(t.subrange(a.len() as int, (a.len() + pat.len()) as int) =~= pat);
    assert(occurs_at(t, pat, a.len() as int));
    lemma_first_index(s, pat, 0);
}

/// A text begins or ends with a pattern exactly if the rest can be put behind
/// or before it.
pub proof fn ends_are_found(s: Seq<char>, pat: Seq<char>, rest: Seq<char>)
    ensures
        begins_with(pat + rest, pat),
        finishes_with(rest + pat, pat),
        begins_with(s, pat) ==> s == pat + s.skip(pat.len() as int),
        finishes_with(s, pat) ==> s == s.take(s.len() - pat.len()) + pat,
{
    assert((pat + rest).subrange(0, 0int + pat.len()) =~= pat);
    let t = rest + pat;
    assert(t.subrange(t.len() - pat.len(), t.len() - pat.len() + pat.len()) =~= pat);
    if begins_with(s, pat) {
        assert(s =~= s.subrange(0, 0int + pat.len()) + s.skip(pat.len() as int));
    }
    if finishes_with(s, pat) {
        let n = s.len() - pat.len();
        assert(s =~= s.take(n) + s.subrange(n, n + pat.len()));
    }
}

/// ASCII capitals become the small letters 32 places on; everything else stays.
pub proof fn only_ascii_capitals_are_lowered(s: Seq<char>, i: int)
    requires
        0 <= i < s.len(),
    ensures
        ascii_lower(s).len() == s.len(),
        65 <= s[i] as int <= 90 ==> ascii_lower(s)[i] as int == s[i] as int + 32,
        !(65 <= s[i] as int <= 90) ==> ascii_lower(s)[i] == s[i],
{
}

/// Splitting a text that was put together around a pattern gives the parts
/// back, where the pattern does not already begin in the first.
pub proof fn splitting_gives_the_parts_back(a: Seq<char>, pat: Seq<char>, b: Seq<char>)
    requires
        forall|i: int|
            0 <= i < a.len() ==> #[trigger] (a + pat + b).subrange(i, i + pat.len()) != pat,
    ensures
        split_first(a + pat + b, pat) == Some((a, b)),
{
    let s = a + pat + b;
    splitting_takes_the_first(s, pat);
    lemma_first_index(s, pat, 0);
    assert(s.subrange(a.len() as int, (a.len() + pat.len()) as int) =~= pat);
    assert(occurs_at(s, pat, a.len() as int));
    let i = first_index(s, pat, 0)->0;
    if i < a.len() {
        assert(s.subrange(i, i + pat.len()) == pat);
    }
    assert(s.take(i) =~= a);
    assert(s.skip(i + pat.len()) =~= b);
}

/// Splitting at a slash, which is a single character, gives the parts back
/// where the first has none.
pub proof fn splitting_at_a_slash(a: Seq<char>, b: Seq<char>)
    requires
        !a.contains('/'),
    ensures
        split_first(a + seq!['/'] + b, "/"@) == Some((a, b)),
        split_first(a, "/"@) is None,
        !has_substring(a, "/"@),
        has_substring(a + seq!['/'] + b, "/"@),
{
    reveal_strlit("/");
    assert("/"@ =~= seq!['/']);
    let s = a + seq!['/'] + b;
    assert forall|i: int| 0 <= i < a.len() implies #[trigger] s.subrange(i, i + 1) != "/"@ by {
        assert(s.subrange(i, i + 1)[0] == a[i]);
        assert(a.contains(a[i]));
    }
    splitting_gives_the_parts_back(a, "/"@, b);
    lemma_first_index(a, "/"@, 0);
    if first_index(a, "/"@, 0) is Some {
        let i = first_index(a, "/"@, 0)->0;
        assert(a.subrange(i, i + 1)[0] == a[i]);
        assert(a.contains(a[i]));
    }
    substrings_are_found(s, "/"@, a, b);
}

/// White space around a text that has none at its ends is cut off, whatever it
/// is; of white space alone nothing is left.
pub proof fn what_stands_between_is_kept(lead: Seq<char>, t: Seq<char>, trail: Seq<char>)
    requires
        forall|i: int| 0 <= i < lead.len() ==> white_space(#[trigger] lead[i]),
        forall|i: int| 0 <= i < trail.len() ==> white_space(#[trigger] trail[i]),
        t.len() > 0 ==> !white_space(t[0]) && !white_space(t[t.len() - 1]),
    ensures
        trimmed(lead + t + trail) == t,
{
    let s = lead + t + trail;
    let (a, b) = trimming_cuts_white_space(s);
    let n = lead.len() as int;
    let m = n + t.len();
    if t.len() == 0 {
        if a < b {
            assert(trimmed(s)[0] == s[a]);
            if a < n {
                assert(s[a] == lead[a]);
            } else {
                assert(s[a] == trail[a - n]);
            }
        }
        assert(trimmed(s) =~= t);
    } else {
        assert(s[n] == t[0]);
        assert(s[m - 1] == t[t.len() - 1]);
        assert(a <= n && m <= b);
        assert(trimmed(s)[0] == s[a]);
        assert(trimmed(s)[b - a - 1] == s[b - 1]);
        if a < n {
            assert(s[a] == lead[a]);
        }
        if b > m {
            assert(s[b - 1] == trail[b - 1 - m]);
        }
        assert(trimmed(s) =~= t);
    }
}

/// A text with a slash is split at the first one: the part before it has none.
pub proof fn slashes_are_split_at(s: Seq<char>)
    ensures
        match split_first(s, "/"@) {
            Some((u, v)) => s == u + seq!['/'] + v && !u.contains('/'),
            None => !s.contains('/'),
        },
{
    reveal_strlit("/");
    assert("/"@ =~= seq!['/']);
    splitting_takes_the_first(s, "/"@);
    match split_first(s, "/"@) {
        Some((u, v)) => {
            if u.contains('/') {
                let i = choose|i: int| 0 <= i < u.len() && u[i] == '/';
                assert(s.subrange(i, i + 1) =~= seq!['/']);
            }
        },
        None => {
            if s.contains('/') {
                let i = choose|i: int| 0 <= i < s.len() && s[i] == '/';
                assert(s.subrange(i, i + 1) =~= seq!['/']);
            }
        },
    }
}

} // verus!
