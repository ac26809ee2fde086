//! Saved contexts that are attached to sessions.
//!
//! An attached context is a file named `{session}-context-{slug}.md`.

use vstd::prelude::*;
#[allow(unused_imports)]
use vstd::utf8::{encode_utf8, encode_utf8_decode_utf8};

use crate::order::{stable_sort, Ranked};
#[allow(unused_imports)]
use crate::order::sorted_from;
use crate::text::{
    chars_of, ends_with, join2, join3, lower_char, split_once, starts_with, string_of, trim,
};
#[allow(unused_imports)]
use crate::text::{
    ascii_lower, ascii_lower_char, begins_with, finishes_with, first_index, lemma_first_index,
    occurs_at, opt_view, split_first, splitting_gives_the_parts_back, splitting_takes_the_first,
    trimmed,
};
use crate::uuids::is_uuid;
#[allow(unused_imports)]
use crate::uuids::{hex_char, hyphen_place, hyphenated, uuid_text};

verus! {

/// An attached context.
#[derive(Debug, Clone)]
pub struct AttachedSavedContext {
    pub slug: String,
    pub name: Option<String>,
    pub size: u64,
    pub created_at: u64,
}

// ---------------------------------------------------------------------------
// Nested names
// ---------------------------------------------------------------------------

/// `s` without the `{uuid}-context-` prefixes in front of it.
pub open spec fn unprefixed(s: Seq<char>) -> Seq<char>
    decreases s.len(),
{
    match split_first(s, "-context-"@) {
        Some((prefix, rest)) => {
            proof {
                reveal_strlit("-context-");
                lemma_first_index(s, "-context-"@, 0);
            }
            if uuid_text(prefix) {
                unprefixed(rest)
            } else {
                s
            }
        },
        None => s,
    }
}

/// A slug without the `{uuid}-context-` prefixes in front of it.
pub fn strip_nested_attached_prefixes(slug: &str) -> (r: String)
    ensures
        r@ == unprefixed(trimmed(slug@)),
{
    let mut current = trim(slug);
    loop
        invariant
            unprefixed(trimmed(slug@)) == unprefixed(current@),
        decreases current@.len(),
    {
        match split_once(current.as_str(), "-context-") {
            Some((prefix, rest)) => {
                proof {
                    reveal_strlit("-context-");
                    lemma_first_index(current@, "-context-"@, 0);
                }
                if is_uuid(prefix.as_str()) {
                    current = rest;
                } else {
                    return current;
                }
            },
            None => {
                return current;
            },
        }
    }
}

/// What is left has no such prefix any more.
pub proof fn stripping_is_complete(s: Seq<char>)
    ensures
        unprefixed(unprefixed(s)) == unprefixed(s),
    decreases s.len(),
{
    match split_first(s, "-context-"@) {
        Some((prefix, rest)) => {
            reveal_strlit("-context-");
            lemma_first_index(s, "-context-"@, 0);
            if uuid_text(prefix) {
                stripping_is_complete(rest);
            }
        },
        None => {},
    }
}

// ---------------------------------------------------------------------------
// Slugs
// ---------------------------------------------------------------------------

/// Whether `char::is_alphanumeric` holds of a character.
pub uninterp spec fn unicode_alphanumeric(c: char) -> bool;

/// `char::is_alphanumeric`: the character is a letter or a number to Unicode.
/// It depends on the character alone, and is given a name.
#[verifier::external_body]
fn is_unicode_alphanumeric(c: char) -> (r: bool)
    ensures
        r == unicode_alphanumeric(c),
{
    c.is_alphanumeric()
}

/// A letter or a number.
pub open spec fn alphanumeric(c: char) -> bool {
    if c <= '\u{7f}' {
        '0' <= c <= '9' || 'a' <= c <= 'z' || 'A' <= c <= 'Z'
    } else {
        unicode_alphanumeric(c)
    }
}

/// The character as it stands in a slug: letters and numbers are kept, ASCII
/// letters made small, everything else becomes a hyphen.
pub open spec fn slug_char(c: char) -> char {
    if alphanumeric(c) {
        ascii_lower_char(c)
    } else {
        '-'
    }
}

/// The characters as they stand in a slug.
pub open spec fn slug_chars(s: Seq<char>) -> Seq<char> {
    Seq::new(s.len(), |i: int| slug_char(s[i]))
}

/// The longest runs of characters other than hyphens, in order.
pub open spec fn words(s: Seq<char>) -> Seq<Seq<char>>
    decreases s.len(),
{
    if s.len() == 0 {
        Seq::empty()
    } else {
        let before = words(s.drop_last());
        let c = s.last();
        if c == '-' {
            before
        } else if s.len() == 1 || s[s.len() - 2] == '-' || before.len() == 0 {
            before.push(seq![c])
        } else {
            before.update(before.len() - 1, before.last().push(c))
        }
    }
}

/// The words with a hyphen between each two.
pub open spec fn hyphen_joined(ws: Seq<Seq<char>>) -> Seq<char>
    decreases ws.len(),
{
    if ws.len() == 0 {
        Seq::empty()
    } else if ws.len() == 1 {
        ws[0]
    } else {
        hyphen_joined(ws.drop_last()) + seq!['-'] + ws.last()
    }
}

/// The slug of a text.
pub open spec fn slug_of(s: Seq<char>) -> Seq<char> {
    hyphen_joined(words(slug_chars(s)))
}

/// The character as it stands in a slug.
fn to_slug_char(c: char) -> (r: char)
    ensures
        r == slug_char(c),
{
    let kept = if c <= '\u{7f}' {
        ('0' <= c && c <= '9') || ('a' <= c && c <= 'z') || ('A' <= c && c <= 'Z')
    } else {
        is_unicode_alphanumeric(c)
    };
    if kept {
        lower_char(c)
    } else {
        '-'
    }
}

proof fn lemma_words(s: Seq<char>)
    ensures
        s.len() > 0 && s.last() != '-' ==> words(s).len() > 0,
        forall|i: int| 0 <= i < words(s).len() ==> (#[trigger] words(s)[i]).len() > 0,
        forall|i: int, j: int|
            0 <= i < words(s).len() && 0 <= j < words(s)[i].len() ==> (#[trigger] words(
                s,
            )[i][j]) != '-',
    decreases s.len(),
{
    if s.len() > 0 {
        lemma_words(s.drop_last());
        let before = words(s.drop_last());
        assert forall|i: int, j: int|
            0 <= i < words(s).len() && 0 <= j < words(s)[i].len() implies (#[trigger] words(
            s,
        )[i][j]) != '-' by {
            if s.last() == '-' {
            } else if i < before.len() && words(s)[i] == before[i] {
                assert(before[i][j] != '-');
            } else if i == before.len() - 1 {
                if j < before[i].len() {
                    assert(before[i][j] != '-');
                }
            }
        }
    }
}

/// Making the last word longer.
proof fn lemma_join_grow(ws: Seq<Seq<char>>, c: char)
    requires
        ws.len() > 0,
    ensures
        hyphen_joined(ws.update(ws.len() - 1, ws.last().push(c))) == hyphen_joined(ws).push(c),
{
    let next = ws.update(ws.len() - 1, ws.last().push(c));
    if ws.len() > 1 {
        assert(next.drop_last() =~= ws.drop_last());
        assert(hyphen_joined(next) =~= hyphen_joined(ws).push(c));
    }
}

/// Adding a word.
proof fn lemma_join_push(ws: Seq<Seq<char>>, w: Seq<char>)
    ensures
        hyphen_joined(ws.push(w)) == if ws.len() == 0 {
            w
        } else {
            hyphen_joined(ws) + seq!['-'] + w
        },
{
    assert(ws.push(w).drop_last() =~= ws);
}

/// The slug of a text: its letters and numbers, small, with single hyphens
/// between them.
pub fn sanitize_slug_component(s: &str) -> (r: String)
    ensures
        r@ == slug_of(s@),
{
    let cs = chars_of(s);
    let ghost all = slug_chars(s@);
    let mut out = String::new();
    let mut gap = true;
    let mut i: usize = 0;
    assert(all.take(0) =~= Seq::empty());
    while i < cs.len()
        invariant
            i <= cs@.len(),
            cs@ == s@,
            all == slug_chars(s@),
            out@ == hyphen_joined(words(all.take(i as int))),
            gap == (i == 0 || all[i - 1] == '-'),
        decreases cs@.len() - i,
    {
        let c = to_slug_char(cs[i]);
        let ghost part = all.take(i + 1);
        let ghost before = words(all.take(i as int));
        proof {
            assert(part.drop_last() =~= all.take(i as int));
            assert(part.last() == c);
            lemma_words(all.take(i as int));
            if i > 0 {
                assert(all.take(i as int).last() == all[i - 1]);
                assert(part[part.len() - 2] == all[i - 1]);
            }
        }
        if c == '-' {
            gap = true;
        } else {
            if gap {
                proof {
                    lemma_join_push(before, seq![c]);
                    if before.len() > 0 {
                        lemma_join_nonempty(before);
                    }
                }
                if !out.as_str().is_empty() {
                    out.push('-');
                }
                out.push(c);
                assert(out@ =~= hyphen_joined(before.push(seq![c])));
            } else {
                proof {
                    lemma_join_grow(before, c);
                }
                out.push(c);
            }
            gap = false;
        }
        i = i + 1;
    }
    assert(all.take(i as int) =~= all);
    out
}

proof fn lemma_join_nonempty(ws: Seq<Seq<char>>)
    requires
        ws.len() > 0,
        forall|i: int| 0 <= i < ws.len() ==> (#[trigger] ws[i]).len() > 0,
    ensures
        hyphen_joined(ws).len() > 0,
{
    assert(ws[ws.len() - 1].len() > 0);
}

/// The words can be read back from their join.
proof fn lemma_words_of_join(ws: Seq<Seq<char>>)
    requires
        forall|i: int| 0 <= i < ws.len() ==> (#[trigger] ws[i]).len() > 0,
        forall|i: int, j: int|
            0 <= i < ws.len() && 0 <= j < ws[i].len() ==> (#[trigger] ws[i][j]) != '-',
    ensures
        words(hyphen_joined(ws)) == ws,
    decreases ws.len(),
{
    if ws.len() == 0 {
        assert(words(hyphen_joined(ws)) =~= ws);
    } else {
        let head = ws.drop_last();
        let w = ws.last();
        assert forall|i: int, j: int|
            0 <= i < head.len() && 0 <= j < head[i].len() implies (#[trigger] head[i][j])
            != '-' by {
            assert(ws[i][j] != '-');
        }
        assert forall|i: int| 0 <= i < head.len() implies (#[trigger] head[i]).len() > 0 by {
            assert(ws[i].len() > 0);
        }
        lemma_words_of_join(head);
        assert forall|j: int| 0 <= j < w.len() implies (#[trigger] w[j]) != '-' by {
            assert(ws[ws.len() - 1][j] != '-');
        }
        assert(ws[ws.len() - 1].len() > 0);
        let lead = if ws.len() == 1 {
            Seq::<char>::empty()
        } else {
            hyphen_joined(head) + seq!['-']
        };
        assert(hyphen_joined(ws) =~= lead + w);
        if ws.len() == 1 {
            assert(words(lead) =~= head);
        } else {
            assert(lead.drop_last() =~= hyphen_joined(head));
            assert(words(lead) == head);
        }
        lemma_words_append(lead, w, w.len() as int);
        assert(w.take(w.len() as int) =~= w);
        assert(head.push(w) =~= ws);
    }
}

/// A word written behind a gap is one more word.
proof fn lemma_words_append(lead: Seq<char>, w: Seq<char>, n: int)
    requires
        lead.len() == 0 || lead.last() == '-',
        0 < n <= w.len(),
        forall|j: int| 0 <= j < w.len() ==> (#[trigger] w[j]) != '-',
    ensures
        words(lead + w.take(n)) == words(lead).push(w.take(n)),
    decreases n,
{
    let s = lead + w.take(n);
    assert(s.drop_last() =~= lead + w.take(n - 1));
    assert(s.last() == w[n - 1]);
    if n == 1 {
        assert(lead + w.take(0) =~= lead);
        assert(w.take(1) =~= seq![w[0]]);
        if s.len() > 1 {
            assert(s[s.len() - 2] == lead.last());
        }
    } else {
        lemma_words_append(lead, w, n - 1);
        let before = words(s.drop_last());
        assert(before.last() == w.take(n - 1));
        assert(s[s.len() - 2] == w[n - 2]);
        assert(w.take(n - 1).push(w[n - 1]) =~= w.take(n));
        assert(before.update(before.len() - 1, w.take(n)) =~= words(lead).push(w.take(n)));
    }
}

/// What stands in the words of slug characters is kept by the slug.
proof fn lemma_word_chars(s: Seq<char>)
    requires
        forall|i: int| 0 <= i < s.len() ==> slug_char(#[trigger] s[i]) == s[i],
    ensures
        forall|i: int, j: int|
            0 <= i < words(s).len() && 0 <= j < words(s)[i].len() ==> slug_char(
                #[trigger] words(s)[i][j],
            ) == words(s)[i][j],
    decreases s.len(),
{
    if s.len() > 0 {
        let rest = s.drop_last();
        assert forall|i: int| 0 <= i < rest.len() implies slug_char(#[trigger] rest[i])
            == rest[i] by {
            assert(s[i] == rest[i]);
        }
        lemma_word_chars(rest);
        let before = words(rest);
        assert(slug_char(s[s.len() - 1]) == s[s.len() - 1]);
        assert forall|i: int, j: int|
            0 <= i < words(s).len() && 0 <= j < words(s)[i].len() implies slug_char(
            #[trigger] words(s)[i][j],
        ) == words(s)[i][j] by {
            if s.last() == '-' {
            } else if i < before.len() && words(s)[i] == before[i] {
                assert(slug_char(before[i][j]) == before[i][j]);
            } else if i == before.len() - 1 {
                if j < before[i].len() {
                    assert(slug_char(before[i][j]) == before[i][j]);
                }
            }
        }
    }
}

/// The join of words of slug characters is made of slug characters.
proof fn lemma_join_chars(ws: Seq<Seq<char>>)
    requires
        forall|i: int, j: int|
            0 <= i < ws.len() && 0 <= j < ws[i].len() ==> slug_char(#[trigger] ws[i][j])
                == ws[i][j],
    ensures
        slug_chars(hyphen_joined(ws)) == hyphen_joined(ws),
    decreases ws.len(),
{
    let joined = hyphen_joined(ws);
    if ws.len() > 1 {
        let head = ws.drop_last();
        assert forall|i: int, j: int|
            0 <= i < head.len() && 0 <= j < head[i].len() implies slug_char(
            #[trigger] head[i][j],
        ) == head[i][j] by {
            assert(slug_char(ws[i][j]) == ws[i][j]);
        }
        lemma_join_chars(head);
        let h = hyphen_joined(head);
        assert forall|k: int| 0 <= k < joined.len() implies slug_char(#[trigger] joined[k])
            == joined[k] by {
            if k < h.len() {
                assert(slug_chars(h)[k] == h[k]);
            } else if k > h.len() {
                assert(joined[k] == ws[ws.len() - 1][k - h.len() - 1]);
            }
        }
    } else if ws.len() == 1 {
        assert forall|k: int| 0 <= k < joined.len() implies slug_char(#[trigger] joined[k])
            == joined[k] by {
            assert(slug_char(ws[0][k]) == ws[0][k]);
        }
    }
    assert(slug_chars(joined) =~= joined);
}

/// A slug is its own slug.
pub proof fn slug_is_stable(s: Seq<char>)
    ensures
        slug_of(slug_of(s)) == slug_of(s),
{
    let cs = slug_chars(s);
    assert forall|i: int| 0 <= i < cs.len() implies slug_char(#[trigger] cs[i]) == cs[i] by {
        assert(cs[i] == slug_char(s[i]));
    }
    lemma_word_chars(cs);
    lemma_words(cs);
    lemma_join_chars(words(cs));
    lemma_words_of_join(words(cs));
}

// ---------------------------------------------------------------------------
// File names
// ---------------------------------------------------------------------------

/// What the file names of a session's contexts begin with.
pub open spec fn session_prefix(session: Seq<char>) -> Seq<char> {
    session + "-context-"@
}

/// The file name of a context of a session.
pub open spec fn context_file(session: Seq<char>, slug: Seq<char>) -> Seq<char> {
    session_prefix(session) + slug + ".md"@
}

/// The slug in a file name of a session's contexts.
pub open spec fn session_slug(session: Seq<char>, file: Seq<char>) -> Option<Seq<char>> {
    let prefix = session_prefix(session);
    if begins_with(file, prefix) && finishes_with(file, ".md"@) {
        Some(file.subrange(prefix.len() as int, file.len() - 3))
    } else {
        None
    }
}

/// The slug in a file name of any session's contexts. A session is known by a
/// UUID.
pub open spec fn attached_slug(file: Seq<char>) -> Option<Seq<char>> {
    if finishes_with(file, ".md"@) {
        match split_first(file.take(file.len() - 3), "-context-"@) {
            Some((session, slug)) => if uuid_text(session) {
                Some(slug)
            } else {
                None
            },
            None => None,
        }
    } else {
        None
    }
}

/// The file name of a context of a session.
pub fn context_file_name(session_id: &str, slug: &str) -> (r: String)
    ensures
        r@ == context_file(session_id@, slug@),
        r@ == session_id@ + "-context-"@ + slug@ + ".md"@,
{
    let prefix = join2(session_id, "-context-");
    join3(prefix.as_str(), slug, ".md")
}

/// The slug in `{session}-context-{slug}.md`, if the file name has that form
/// and the session is a UUID.
pub fn extract_attached_slug_from_filename(filename: &str) -> (r: Option<String>)
    ensures
        opt_view(r) == attached_slug(filename@),
{
    if !ends_with(filename, ".md") {
        return None;
    }
    let cs = chars_of(filename);
    proof {
        reveal_strlit(".md");
    }
    let n: usize = cs.len() - 3;
    let name = string_of(&cs, 0, n);
    assert(name@ =~= filename@.take(filename@.len() - 3));
    match split_once(name.as_str(), "-context-") {
        Some((session, slug)) => {
            if is_uuid(session.as_str()) {
                Some(slug)
            } else {
                None
            }
        },
        None => None,
    }
}

/// A file name cannot begin with the prefix and end with `.md` in less than
/// both take together.
proof fn lemma_no_overlap(session: Seq<char>, file: Seq<char>)
    requires
        begins_with(file, session_prefix(session)),
        finishes_with(file, ".md"@),
    ensures
        session_prefix(session).len() + 3 <= file.len(),
{
    reveal_strlit("-context-");
    reveal_strlit(".md");
    let prefix = session_prefix(session);
    let n = prefix.len();
    let head = file.subrange(0, n as int);
    let tail = file.subrange(file.len() - 3, file.len() - 3 + 3);
    assert(head[n - 1] == '-');
    assert(file[n - 1] == '-');
    assert(tail[0] == '.' && tail[1] == 'm' && tail[2] == 'd');
    assert(file[file.len() - 3] == '.');
    assert(file[file.len() - 2] == 'm');
    assert(file[file.len() - 1] == 'd');
}

/// The slug of a file that belongs to the session's contexts.
pub fn listed_slug(session_id: &str, file_name: &str) -> (r: Option<String>)
    ensures
        opt_view(r) == session_slug(session_id@, file_name@),
{
    let prefix = join2(session_id, "-context-");
    if starts_with(file_name, prefix.as_str()) && ends_with(file_name, ".md") {
        proof {
            lemma_no_overlap(session_id@, file_name@);
        }
        let cs = chars_of(file_name);
        let ps = chars_of(prefix.as_str());
        let n: usize = cs.len() - 3;
        Some(string_of(&cs, ps.len(), n))
    } else {
        None
    }
}

/// A context that has been attached to a session is listed under that session,
/// with its slug.
pub proof fn attached_contexts_are_listed(session: Seq<char>, slug: Seq<char>)
    ensures
        session_slug(session, context_file(session, slug)) == Some(slug),
{
    reveal_strlit(".md");
    let prefix = session_prefix(session);
    let file = context_file(session, slug);
    assert(file.subrange(0, prefix.len() as int) =~= prefix);
    assert(file.subrange(file.len() - 3, file.len() - 3 + 3) =~= ".md"@);
    assert(file.subrange(prefix.len() as int, file.len() - 3) =~= slug);
}

/// Two contexts of a session are kept in one file only where they have the same
/// slug.
pub proof fn context_files_are_distinct(session: Seq<char>, a: Seq<char>, b: Seq<char>)
    ensures
        context_file(session, a) == context_file(session, b) ==> a == b,
{
    attached_contexts_are_listed(session, a);
    attached_contexts_are_listed(session, b);
}

/// The characters of a UUID do not spell the word between session and slug.
proof fn lemma_uuid_has_no_o(s: Seq<char>, i: int)
    requires
        uuid_text(s),
        0 <= i < s.len(),
    ensures
        s[i] != 'o',
{
    reveal_strlit("urn:uuid:");
    if s.len() == 38 && !hyphenated(s) {
        if 0 < i < 37 {
            assert(s.subrange(1, 37)[i - 1] == s[i]);
        }
    } else if s.len() == 45 {
        if i < 9 {
            assert(ascii_lower(s.take(9))[i] == "urn:uuid:"@[i]);
            assert(s.take(9)[i] == s[i]);
        } else {
            assert(s.skip(9)[i - 9] == s[i]);
        }
    }
}

/// The slug of a context attached to a session with a UUID can be read back
/// from its file name.
pub proof fn attached_slug_is_read_back(session: Seq<char>, slug: Seq<char>)
    requires
        uuid_text(session),
    ensures
        attached_slug(context_file(session, slug)) == Some(slug),
{
    reveal_strlit(".md");
    let file = context_file(session, slug);
    assert(file.subrange(file.len() - 3, file.len() - 3 + 3) =~= ".md"@);
    assert(file.take(file.len() - 3) =~= session + "-context-"@ + slug);
    lemma_split_behind_uuid(session, slug);
}

/// The first occurrence is the one that none comes before.
proof fn lemma_first_at(s: Seq<char>, pat: Seq<char>, from: int, at: int)
    requires
        0 <= from <= at,
        occurs_at(s, pat, at),
        forall|i: int| from <= i < at ==> !occurs_at(s, pat, i),
    ensures
        first_index(s, pat, from) == Some(at),
    decreases at - from,
{
    if from < at {
        assert(!occurs_at(s, pat, from));
        lemma_first_at(s, pat, from + 1, at);
    }
}

// ---------------------------------------------------------------------------
// Attaching and listing
// ---------------------------------------------------------------------------

/// The slug under which a context is attached: the given one or, where that is
/// blank, the one in the source's file name; without nested prefixes.
pub open spec fn chosen_slug(slug: Seq<char>, source: Option<Seq<char>>) -> Seq<char> {
    let given = if trimmed(slug).len() > 0 {
        slug
    } else {
        match source {
            Some(file) => match attached_slug(file) {
                Some(s) => s,
                None => Seq::empty(),
            },
            None => Seq::empty(),
        }
    };
    slug_of(unprefixed(trimmed(given)))
}

/// The slug under which a context is attached. It fails where nothing is left
/// of the slug.
pub fn attachment_slug(slug: &str, source_name: Option<&str>) -> (r: Result<String, String>)
    ensures
        ({
            let source = match source_name {
                Some(name) => Some(name@),
                None => None,
            };
            let chosen = chosen_slug(slug@, source);
            match r {
                Ok(s) => s@ == chosen && chosen.len() > 0,
                Err(e) => e@ == "Invalid context slug"@ && chosen.len() == 0,
            }
        }),
{
    let given: String = if trim(slug).as_str().is_empty() {
        let found = match source_name {
            Some(name) => extract_attached_slug_from_filename(name),
            None => None,
        };
        match found {
            Some(s) => s,
            None => String::new(),
        }
    } else {
        slug.to_owned()
    };
    let plain = strip_nested_attached_prefixes(given.as_str());
    let chosen = sanitize_slug_component(plain.as_str());
    if chosen.as_str().is_empty() {
        Err("Invalid context slug".to_owned())
    } else {
        Ok(chosen)
    }
}

/// The first line of a text, without its line ending; a carriage return is
/// part of the ending only in front of a line feed.
pub open spec fn first_line(s: Seq<char>) -> Seq<char> {
    match split_first(s, "\n"@) {
        Some((line, _)) => if line.len() > 0 && line.last() == '\r' {
            line.drop_last()
        } else {
            line
        },
        None => s,
    }
}

/// The title of a document: what follows `# ` in its first line.
pub open spec fn title_of(content: Seq<char>) -> Option<Seq<char>> {
    let line = first_line(content);
    if begins_with(line, "# "@) {
        Some(line.skip(2))
    } else {
        None
    }
}

/// The title of a document: what follows `# ` in its first line.
pub fn context_title(content: &str) -> (r: Option<String>)
    ensures
        opt_view(r) == title_of(content@),
{
    let line: String = match split_once(content, "\n") {
        Some((line, _)) => {
            let cs = chars_of(line.as_str());
            let n: usize = cs.len();
            if n > 0 && cs[n - 1] == '\r' {
                let short = string_of(&cs, 0, n - 1);
                assert(short@ =~= line@.drop_last());
                short
            } else {
                line
            }
        },
        None => content.to_owned(),
    };
    if starts_with(line.as_str(), "# ") {
        proof {
            reveal_strlit("# ");
        }
        let cs = chars_of(line.as_str());
        let n: usize = cs.len();
        let title = string_of(&cs, 2, n);
        assert(title@ =~= line@.skip(2));
        Some(title)
    } else {
        None
    }
}

/// What attaching a context comes to: the file to write, and what is known of
/// the context before it is written.
#[derive(Debug)]
pub struct Attachment {
    pub file_name: String,
    pub content: String,
    pub slug: String,
    pub name: Option<String>,
}

/// `plan` is what attaching a content to a session under a slug comes to: all of
/// the content goes to the file of the session and the slug.
pub open spec fn planned(
    plan: Attachment,
    session: Seq<char>,
    slug: Seq<char>,
    content: Seq<char>,
) -> bool {
    &&& plan.file_name@ == context_file(session, slug)
    &&& plan.content@ == content
    &&& plan.slug@ == slug
    &&& opt_view(plan.name) == title_of(content)
}

/// `r` is what is reported of a context whose file has been written: its slug
/// and its title, and the size and the time of the file.
pub open spec fn reported(
    r: AttachedSavedContext,
    plan: Attachment,
    size: u64,
    created_at: u64,
) -> bool {
    &&& r.slug@ == plan.slug@
    &&& opt_view(r.name) == opt_view(plan.name)
    &&& r.size == size
    &&& r.created_at == created_at
}

/// What attaching a content to a session under a slug comes to.
pub fn plan_attachment(session_id: &str, slug: String, content: String) -> (r: Attachment)
    ensures
        planned(r, session_id@, slug@, content@),
{
    Attachment {
        file_name: context_file_name(session_id, slug.as_str()),
        name: context_title(content.as_str()),
        content,
        slug,
    }
}

/// What is reported of a context whose file has been written: its slug and its
/// title, and the size and the time of the file.
pub fn attached(plan: Attachment, size: u64, created_at: u64) -> (r: AttachedSavedContext)
    ensures
        reported(r, plan, size, created_at),
{
    AttachedSavedContext { slug: plan.slug, name: plan.name, size, created_at }
}

/// The content of a context, from what its file holds. It fails where there is
/// no such file.
pub fn content_of_context(slug: &str, found: Option<String>) -> (r: Result<String, String>)
    ensures
        match found {
            Some(content) => r matches Ok(c) && c@ == content@,
            None => r matches Err(e) && e@ == "Saved context file not found for slug '"@ + slug@
                + "'"@,
        },
{
    match found {
        Some(content) => Ok(content),
        None => Err(context_not_found(slug)),
    }
}

/// The directory of the contexts, as the bytes under each file name, after the
/// file of an attachment has been written.
pub open spec fn after_attaching(
    dir: Map<Seq<char>, Seq<u8>>,
    plan: Attachment,
) -> Map<Seq<char>, Seq<u8>> {
    dir.insert(plan.file_name@, encode_utf8(plan.content@))
}

/// What the directory holds for a session under a slug.
pub open spec fn held(
    dir: Map<Seq<char>, Seq<u8>>,
    session: Seq<char>,
    slug: Seq<char>,
) -> Option<Seq<u8>> {
    let file = context_file(session, slug);
    if dir.dom().contains(file) {
        Some(dir[file])
    } else {
        None
    }
}

/// What is attached is what is read back. Where the file of an attachment has
/// been written and `r` reports it with the size of that file, `r` has the slug
/// that was chosen, the title of the content and its size; the content is the
/// one text that the file of that slug holds, and the session lists the file
/// under it; and under every other slug the session has what it had before.
pub proof fn attached_content_is_read_back(
    dir: Map<Seq<char>, Seq<u8>>,
    session: Seq<char>,
    slug: Seq<char>,
    content: Seq<char>,
    plan: Attachment,
    r: AttachedSavedContext,
    size: u64,
    created_at: u64,
)
    requires
        planned(plan, session, slug, content),
        reported(r, plan, size, created_at),
        size == after_attaching(dir, plan)[plan.file_name@].len(),
    ensures
        r.slug@ == slug,
        opt_view(r.name) == title_of(content),
        r.size == encode_utf8(content).len(),
        held(after_attaching(dir, plan), session, r.slug@) == Some(encode_utf8(content)),
        forall|read: Seq<char>|
            held(after_attaching(dir, plan), session, r.slug@) == Some(#[trigger] encode_utf8(read))
                ==> read == content,
        session_slug(session, plan.file_name@) == Some(r.slug@),
        forall|other: Seq<char>|
            other != slug ==> #[trigger] held(after_attaching(dir, plan), session, other) == held(
                dir,
                session,
                other,
            ),
{
    attached_contexts_are_listed(session, slug);
    assert forall|read: Seq<char>| #[trigger]
        encode_utf8(read) == encode_utf8(content) implies read == content by {
        encode_utf8_decode_utf8(read);
        encode_utf8_decode_utf8(content);
    }
    assert forall|other: Seq<char>| other != slug implies #[trigger] held(
        after_attaching(dir, plan),
        session,
        other,
    ) == held(dir, session, other) by {
        context_files_are_distinct(session, slug, other);
    }
}

/// Newer contexts rank first.
impl Ranked for AttachedSavedContext {
    open spec fn ranks_by(&self, other: &Self) -> bool {
        self.created_at >= other.created_at
    }

    proof fn ranks_total(a: &Self, b: &Self) {
    }

    proof fn ranks_transitive(a: &Self, b: &Self, c: &Self) {
    }

    fn at_most(&self, other: &Self) -> (r: bool) {
        self.created_at >= other.created_at
    }
}

/// The contexts, the newest first.
pub fn newest_first(contexts: Vec<AttachedSavedContext>) -> (r: Vec<AttachedSavedContext>)
    ensures
        sorted_from(r@, contexts@),
        forall|i: int, j: int|
            #![trigger r@[i], r@[j]]
            0 <= i < j < r@.len() ==> r@[i].created_at >= r@[j].created_at,
{
    stable_sort(contexts)
}

/// The error of a source that is not there.
pub fn source_not_found(source_path: &str) -> (r: String)
    ensures
        r@ == "Source context file not found: "@ + source_path@,
{
    join2("Source context file not found: ", source_path)
}

/// The error of a context that is not there.
pub fn context_not_found(slug: &str) -> (r: String)
    ensures
        r@ == "Saved context file not found for slug '"@ + slug@ + "'"@,
{
    join3("Saved context file not found for slug '", slug, "'")
}

// ---------------------------------------------------------------------------
// Laws
// ---------------------------------------------------------------------------

/// Splitting at the word between session and slug, behind a UUID.
proof fn lemma_split_behind_uuid(session: Seq<char>, rest: Seq<char>)
    requires
        uuid_text(session),
    ensures
        split_first(session + "-context-"@ + rest, "-context-"@) == Some((session, rest)),
{
    reveal_strlit("-context-");
    let pat = "-context-"@;
    let name = session + pat + rest;
    let n = session.len() as int;
    assert(name.subrange(n, n + pat.len()) =~= pat);
    assert forall|i: int| 0 <= i < n implies !occurs_at(name, pat, i) by {
        if occurs_at(name, pat, i) {
            let here = name.subrange(i, i + pat.len());
            assert(here[1] == 'c' && here[2] == 'o');
            assert(name[i + 1] == 'c' && name[i + 2] == 'o');
            if i + 2 < n {
                lemma_uuid_has_no_o(session, i + 2);
                assert(name[i + 2] == session[i + 2]);
            } else {
                assert(name[n] == pat[0]);
            }
        }
    }
    lemma_first_at(name, pat, 0, n);
    assert(name.take(n) =~= session);
    assert(name.skip(n + pat.len()) =~= rest);
}

/// A UUID and `-context-` in front of a name are taken away, as often as they
/// stand there; a name without them stays as it is.
pub proof fn prefixes_are_taken_away(session: Seq<char>, rest: Seq<char>, s: Seq<char>)
    ensures
        uuid_text(session) ==> unprefixed(session + "-context-"@ + rest) == unprefixed(rest),
        (forall|u: Seq<char>, v: Seq<char>|
            s == #[trigger] (u + "-context-"@ + v) ==> !uuid_text(u)) ==> unprefixed(s) == s,
{
    if uuid_text(session) {
        lemma_split_behind_uuid(session, rest);
    }
    splitting_takes_the_first(s, "-context-"@);
    match split_first(s, "-context-"@) {
        Some((u, v)) => {
            assert(s == u + "-context-"@ + v);
        },
        None => {},
    }
}

/// A name that is read as a context's is the session, `-context-`, the slug and
/// `.md`; a session that is not given has to be a UUID.
pub proof fn context_names_are_made_of_session_and_slug(
    session: Seq<char>,
    file: Seq<char>,
    slug: Seq<char>,
)
    ensures
        session_slug(session, file) == Some(slug) <==> file == session + "-context-"@ + slug
            + ".md"@,
        attached_slug(file) == Some(slug) <==> exists|u: Seq<char>| #[trigger]
            uuid_text(u) && file == u + "-context-"@ + slug + ".md"@,
{
    reveal_strlit(".md");
    reveal_strlit("-context-");
    let prefix = session_prefix(session);
    if file == session + "-context-"@ + slug + ".md"@ {
        attached_contexts_are_listed(session, slug);
    }
    if session_slug(session, file) == Some(slug) {
        lemma_no_overlap(session, file);
        assert(file =~= file.subrange(0, prefix.len() as int) + file.subrange(
            prefix.len() as int,
            file.len() - 3,
        ) + file.subrange(file.len() - 3, file.len() - 3 + 3));
    }
    if exists|u: Seq<char>| #[trigger]
        uuid_text(u) && file == u + "-context-"@ + slug + ".md"@ {
        let u = choose|u: Seq<char>| #[trigger]
            uuid_text(u) && file == u + "-context-"@ + slug + ".md"@;
        attached_slug_is_read_back(u, slug);
    }
    if attached_slug(file) == Some(slug) {
        let name = file.take(file.len() - 3);
        splitting_takes_the_first(name, "-context-"@);
        let (u, v) = split_first(name, "-context-"@)->0;
        assert(uuid_text(u) && v == slug);
        assert(name == u + "-context-"@ + slug);
        assert(file =~= name + file.subrange(file.len() - 3, file.len() - 3 + 3));
    }
}

/// The character is a letter or a number: one of ASCII's, or one that Unicode
/// calls so.
pub open spec fn letter_or_number(c: char) -> bool {
    if (c as int) < 128 {
        48 <= c as int <= 57 || 65 <= c as int <= 90 || 97 <= c as int <= 122
    } else {
        unicode_alphanumeric(c)
    }
}

/// A slug grows with its text. A letter or a number is written behind the slug,
/// an ASCII capital as the small letter; with a hyphen in front of it where
/// something else came before it and the slug has begun. Anything else adds
/// nothing.
pub proof fn slugs_grow_by_letters_and_numbers(s: Seq<char>, c: char, small: char)
    requires
        small as int == if 65 <= c as int <= 90 {
            c as int + 32
        } else {
            c as int
        },
    ensures
        slug_of(Seq::empty()) == Seq::<char>::empty(),
        !letter_or_number(c) ==> slug_of(s.push(c)) == slug_of(s),
        letter_or_number(c) && slug_of(s).len() == 0 ==> slug_of(s.push(c)) == seq![small],
        letter_or_number(c) && s.len() > 0 && letter_or_number(s.last()) ==> slug_of(s.push(c))
            == slug_of(s).push(small),
        letter_or_number(c) && slug_of(s).len() > 0 && !letter_or_number(s.last()) ==> slug_of(
            s.push(c),
        ) == slug_of(s) + seq!['-'] + seq![small],
{
    let cs = slug_chars(s);
    let next = slug_chars(s.push(c));
    let before = words(cs);
    assert(next.drop_last() =~= cs);
    assert(next.last() == slug_char(c));
    assert(letter_or_number(c) ==> slug_char(c) == small && small != '-');
    assert(!letter_or_number(c) ==> slug_char(c) == '-');
    lemma_words(cs);
    assert(slug_chars(Seq::empty()) =~= Seq::empty());
    if before.len() > 0 {
        lemma_join_nonempty(before);
        lemma_join_grow(before, small);
    } else {
        assert(slug_of(s) =~= Seq::empty());
    }
    lemma_join_push(before, seq![small]);
    if s.len() > 0 {
        assert(next[next.len() - 2] == slug_char(s.last()));
        assert(cs.last() == slug_char(s.last()));
        assert(letter_or_number(s.last()) <==> slug_char(s.last()) != '-');
    }
}

/// In a slug a hyphen stands between two other characters, never at an end and
/// never beside another.
pub proof fn hyphens_stand_between_words(s: Seq<char>, i: int)
    requires
        0 <= i < slug_of(s).len(),
        slug_of(s)[i] == '-',
    ensures
        0 < i < slug_of(s).len() - 1,
        slug_of(s)[i - 1] != '-',
        slug_of(s)[i + 1] != '-',
{
    lemma_words(slug_chars(s));
    lemma_join_hyphens(words(slug_chars(s)), i);
}

proof fn lemma_join_hyphens(ws: Seq<Seq<char>>, i: int)
    requires
        forall|i: int| 0 <= i < ws.len() ==> (#[trigger] ws[i]).len() > 0,
        forall|i: int, j: int|
            0 <= i < ws.len() && 0 <= j < ws[i].len() ==> (#[trigger] ws[i][j]) != '-',
    ensures
        ws.len() > 0 ==> hyphen_joined(ws).len() > 0 && hyphen_joined(ws).last() != '-',
        0 <= i < hyphen_joined(ws).len() && hyphen_joined(ws)[i] == '-' ==> 0 < i < hyphen_joined(
            ws,
        ).len() - 1 && hyphen_joined(ws)[i - 1] != '-' && hyphen_joined(ws)[i + 1] != '-',
    decreases ws.len(),
{
    if ws.len() > 0 {
        let w = ws[ws.len() - 1];
        assert(w.len() > 0);
        assert(w[w.len() - 1] != '-');
        assert(w[0] != '-');
        if ws.len() > 1 {
            let head = ws.drop_last();
            assert forall|i: int, j: int|
                0 <= i < head.len() && 0 <= j < head[i].len() implies (#[trigger] head[i][j])
                != '-' by {
                assert(ws[i][j] != '-');
            }
            assert forall|i: int| 0 <= i < head.len() implies (#[trigger] head[i]).len() > 0 by {
                assert(ws[i].len() > 0);
            }
            lemma_join_hyphens(head, i);
            let h = hyphen_joined(head);
            let joined = hyphen_joined(ws);
            assert(joined == h + seq!['-'] + w);
            assert(joined.last() == w[w.len() - 1]);
            if i > h.len() && i < joined.len() {
                assert(joined[i] == w[i - h.len() - 1]);
            } else if i == h.len() {
                assert(joined[i - 1] == h.last());
                assert(joined[i + 1] == w[0]);
            } else if 0 <= i < h.len() {
                assert(joined[i] == h[i]);
                if h[i] == '-' {
                    assert(joined[i - 1] == h[i - 1]);
                    assert(joined[i + 1] == h[i + 1]);
                }
            }
        } else if 0 <= i < w.len() {
            assert(ws[0][i] != '-');
        }
    }
}

/// A document's title is what follows `# ` in its first line, whichever way the
/// line ends; a document that does not begin with `# ` has none.
pub proof fn titles_follow_the_mark(title: Seq<char>, rest: Seq<char>, content: Seq<char>)
    requires
        !title.contains('\n'),
    ensures
        title_of("# "@ + title) == Some(title),
        title_of("# "@ + title + seq!['\r', '\n'] + rest) == Some(title),
        title.len() == 0 || title.last() != '\r' ==> title_of(
            "# "@ + title + seq!['\n'] + rest,
        ) == Some(title),
        content.len() < 2 || content[0] != '#' || content[1] != ' ' ==> title_of(content) is None,
{
    reveal_strlit("# ");
    reveal_strlit("\n");
    assert("\n"@ =~= seq!['\n']);
    let mark = "# "@;
    let line = mark + title;
    assert forall|i: int| 0 <= i < line.len() implies line[i] != '\n' by {
        if i >= 2 {
            assert(title.contains(title[i - 2]));
        }
    }
    lemma_line(line, rest);
    assert(line.subrange(0, 2) =~= mark);
    assert(line.skip(2) =~= title);
    let long = line.push('\r');
    assert forall|i: int| 0 <= i < long.len() implies long[i] != '\n' by {
        if i < line.len() {
            assert(line[i] != '\n');
        }
    }
    lemma_line(long, rest);
    assert(long.drop_last() =~= line);
    assert(line + seq!['\r', '\n'] + rest =~= long + seq!['\n'] + rest);
    let first = first_line(content);
    if begins_with(first, mark) {
        splitting_takes_the_first(content, "\n"@);
        assert(first.subrange(0, 2) == mark);
        assert(first[0] == first.subrange(0, 2)[0] && first[1] == first.subrange(0, 2)[1]);
        assert(content[0] == first[0] && content[1] == first[1]);
    }
}

proof fn lemma_line(line: Seq<char>, rest: Seq<char>)
    requires
        forall|i: int| 0 <= i < line.len() ==> line[i] != '\n',
    ensures
        split_first(line, "\n"@) is None,
        split_first(line + seq!['\n'] + rest, "\n"@) == Some((line, rest)),
{
    reveal_strlit("\n");
    let pat = "\n"@;
    assert(pat =~= seq!['\n']);
    splitting_takes_the_first(line, pat);
    match split_first(line, pat) {
        Some((a, b)) => {
            assert(line == a + pat + b);
            assert(line[a.len() as int] == '\n');
        },
        None => {},
    }
    let all = line + pat + rest;
    assert forall|i: int| 0 <= i < line.len() implies #[trigger] all.subrange(i, i + pat.len())
        != pat by {
        assert(all.subrange(i, i + pat.len())[0] == line[i]);
    }
    splitting_gives_the_parts_back(line, pat, rest);
}

/// A given slug that is not blank is taken, and the source does not matter;
/// otherwise the slug in the source's name is taken, and none where the source
/// is no context's or there is none.
pub proof fn the_given_slug_goes_first(
    given: Seq<char>,
    source: Seq<char>,
    session: Seq<char>,
    slug: Seq<char>,
    other: Option<Seq<char>>,
)
    ensures
        trimmed(given).len() > 0 ==> chosen_slug(given, other) == slug_of(
            unprefixed(trimmed(given)),
        ),
        trimmed(given).len() == 0 && uuid_text(session) ==> chosen_slug(
            given,
            Some(session + "-context-"@ + slug + ".md"@),
        ) == slug_of(unprefixed(trimmed(slug))),
        trimmed(given).len() == 0 ==> chosen_slug(given, None) == Seq::<char>::empty(),
        trimmed(given).len() == 0 && (forall|u: Seq<char>, v: Seq<char>|
            uuid_text(u) ==> source != #[trigger] (u + "-context-"@ + v + ".md"@)) ==> chosen_slug(
            given,
            Some(source),
        ) == Seq::<char>::empty(),
{
    let none = Seq::<char>::empty();
    assert(trimmed(none) =~= none);
    reveal_strlit("-context-");
    splitting_takes_the_first(none, "-context-"@);
    assert(unprefixed(none) == none);
    assert(slug_chars(none) =~= none);
    assert(slug_of(none) =~= none);
    if uuid_text(session) {
        attached_slug_is_read_back(session, slug);
    }
    match attached_slug(source) {
        Some(v) => {
            context_names_are_made_of_session_and_slug(none, source, v);
            let u = choose|u: Seq<char>| #[trigger]
                uuid_text(u) && source == u + "-context-"@ + v + ".md"@;
            assert(source == u + "-context-"@ + v + ".md"@);
        },
        None => {},
    }
}

/// A UUID is 32 hexadecimal digits, or these in groups of 8, 4, 4, 4 and 12
/// with hyphens between them; a text of another length is a UUID only in braces
/// or behind `urn:uuid:`.
pub proof fn sessions_are_known_by_their_form(s: Seq<char>)
    ensures
        s.len() == 36 ==> (uuid_text(s) <==> forall|i: int|
            0 <= i < 36 ==> if i == 8 || i == 13 || i == 18 || i == 23 {
                #[trigger] s[i] == '-'
            } else {
                '0' <= s[i] <= '9' || 'a' <= s[i] <= 'f' || 'A' <= s[i] <= 'F'
            }),
        s.len() == 32 ==> (uuid_text(s) <==> forall|i: int|
            0 <= i < 32 ==> '0' <= #[trigger] s[i] <= '9' || 'a' <= s[i] <= 'f' || 'A' <= s[i]
                <= 'F'),
        s.len() != 32 && s.len() != 36 && s.len() != 38 && s.len() != 45 ==> !uuid_text(s),
{
    if s.len() == 36 {
        if uuid_text(s) {
            assert forall|i: int| 0 <= i < 36 implies if i == 8 || i == 13 || i == 18 || i == 23 {
                #[trigger] s[i] == '-'
            } else {
                '0' <= s[i] <= '9' || 'a' <= s[i] <= 'f' || 'A' <= s[i] <= 'F'
            } by {
                assert(hyphen_place(i) || hex_char(s[i]));
            }
        }
    }
}

} // verus!
