//! Expansion of the wiki-style `[[NAME]]` notation into the compiler's link
//! markup `#link("internal-scheme://NAME")[NAME]`.
//!
//! Matching follows the pattern `\[\[(.+?)\]\]`: scanning left to right, the
//! first `[[` that starts a match wins, and its name is the shortest run of at
//! least one character other than a line feed that is followed by `]]`.
//! Nothing nests and nothing is escaped; text that does not match is kept.

use vstd::prelude::*;
use vstd::std_specs::iter::IteratorSpec;

verus! {

/// The markup that opens a link, up to the name in its URL.
pub open spec fn link_open() -> Seq<char> {
    seq!['#', 'l', 'i', 'n', 'k', '(', '"', 'i', 'n', 't', 'e', 'r', 'n', 'a', 'l', '-', 's', 'c', 'h', 'e', 'm', 'e', ':', '/', '/']
}

/// The markup between the URL and the visible text.
pub open spec fn link_mid() -> Seq<char> {
    seq!['"', ')', '[']
}

/// The link markup that replaces `[[name]]`.
pub open spec fn link_markup(name: Seq<char>) -> Seq<char> {
    link_open() + name + link_mid() + name + seq![']']
}

/// The index of the first `]]` at or after `k` (and not before `min`) such that
/// no line feed stands between `k` and it.
pub open spec fn close_from(s: Seq<char>, k: int, min: int) -> Option<int>
    decreases s.len() - k,
{
    if k < 0 || k + 1 >= s.len() {
        None
    } else if k >= min && s[k] == ']' && s[k + 1] == ']' {
        Some(k)
    } else if s[k] == '\n' {
        None
    } else {
        close_from(s, k + 1, min)
    }
}

/// Where a match that starts at `i` has its closing `]]`, if one starts there.
pub open spec fn match_end(s: Seq<char>, i: int) -> Option<int> {
    if 0 <= i && i + 1 < s.len() && s[i] == '[' && s[i + 1] == '[' {
        close_from(s, i + 2, i + 3)
    } else {
        None
    }
}

proof fn lemma_close_from_bounds(s: Seq<char>, k: int, min: int)
    ensures
        close_from(s, k, min) matches Some(j) ==> k <= j && min <= j && j + 1 < s.len()
            && s[j] == ']' && s[j + 1] == ']',
    decreases s.len() - k,
{
    if !(k < 0 || k + 1 >= s.len()) && !(k >= min && s[k] == ']' && s[k + 1] == ']')
        && s[k] != '\n' {
        lemma_close_from_bounds(s, k + 1, min);
    }
}

proof fn lemma_match_end_bounds(s: Seq<char>, i: int)
    ensures
        match_end(s, i) matches Some(j) ==> i + 3 <= j && j + 2 <= s.len(),
{
    lemma_close_from_bounds(s, i + 2, i + 3);
}

/// The expansion of the text from index `i` on.
pub open spec fn expand_from(s: Seq<char>, i: int) -> Seq<char>
    decreases s.len() - i,
    via expand_from_decreases
{
    if i < 0 || i >= s.len() {
        seq![]
    } else {
        match match_end(s, i) {
            Some(j) => link_markup(s.subrange(i + 2, j)) + expand_from(s, j + 2),
            None => seq![s[i]] + expand_from(s, i + 1),
        }
    }
}

#[via_fn]
proof fn expand_from_decreases(s: Seq<char>, i: int) {
    lemma_match_end_bounds(s, i);
}

/// The whole text with every wiki link expanded.
pub open spec fn expand(s: Seq<char>) -> Seq<char> {
    expand_from(s, 0)
}

proof fn lemma_plain_tail(s: Seq<char>, i: int)
    requires
        0 <= i <= s.len(),
        forall|k: int| 0 <= k < s.len() - 1 ==> !(#[trigger] s[k] == '[' && s[k + 1] == '['),
    ensures
        expand_from(s, i) == s.subrange(i, s.len() as int),
    decreases s.len() - i,
{
    if i < s.len() {
        lemma_plain_tail(s, i + 1);
        assert(seq![s[i]] + s.subrange(i + 1, s.len() as int) =~= s.subrange(i, s.len() as int));
    } else {
        assert(s.subrange(i, s.len() as int) =~= Seq::<char>::empty());
    }
}

/// Text in which no `[[` occurs comes out of the expansion unchanged.
pub proof fn lemma_plain_text_unchanged(s: Seq<char>)
    requires
        forall|k: int| 0 <= k < s.len() - 1 ==> !(#[trigger] s[k] == '[' && s[k + 1] == '['),
    ensures
        expand(s) == s,
{
    lemma_plain_tail(s, 0);
    assert(s.subrange(0, s.len() as int) =~= s);
}

proof fn lemma_close_after_name(s: Seq<char>, name: Seq<char>, k: int)
    requires
        s == seq!['[', '['] + name + seq![']', ']'],
        name.len() >= 1,
        forall|m: int| 0 <= m < name.len() ==> #[trigger] name[m] != ']' && name[m] != '\n',
        2 <= k <= name.len() + 2,
    ensures
        close_from(s, k, 3) == Some(name.len() + 2 as int),
    decreases name.len() + 2 - k,
{
    if k < name.len() + 2 {
        assert(s[k] == name[k - 2]);
        lemma_close_after_name(s, name, k + 1);
    }
}

/// `[[name]]` becomes a link to `internal-scheme://name` whose text is `name`, for a
/// name of at least one character without `]` or a line feed.
pub proof fn lemma_wiki_link_expands(name: Seq<char>)
    requires
        name.len() >= 1,
        forall|m: int| 0 <= m < name.len() ==> #[trigger] name[m] != ']' && name[m] != '\n',
    ensures
        expand(seq!['[', '['] + name + seq![']', ']']) == link_markup(name),
{
    let s = seq!['[', '['] + name + seq![']', ']'];
    lemma_close_after_name(s, name, 2);
    assert(s.subrange(2, name.len() + 2 as int) =~= name);
    assert(expand_from(s, name.len() + 4 as int) == Seq::<char>::empty());
    assert(link_markup(name) + Seq::<char>::empty() =~= link_markup(name));
}

/// The characters of the text, in order.
fn chars_of(s: &str) -> (r: Vec<char>)
    ensures
        r@ == s@,
{
    broadcast use {vstd::string::axiom_spec_iter, vstd::string::next_postcondition};

    let mut it = s.chars();
    let mut out: Vec<char> = Vec::new();
    loop
        invariant
            out.len() <= s@.len(),
            out@ == s@.subrange(0, out.len() as int),
            it.obeys_prophetic_iter_laws(),
            IteratorSpec::remaining(&it) == s@.subrange(out.len() as int, s@.len() as int),
        ensures
            out@ == s@,
        decreases s@.len() - out.len(),
    {
        match it.next() {
            Some(c) => {
                out.push(c);
                assert(out@ =~= s@.subrange(0, out.len() as int));
            },
            None => {
                assert(out@ =~= s@);
                break;
            },
        }
    }
    out
}

/// Relies on `String: FromIterator<char>`: the string of these characters.
#[verifier::external_body]
fn string_of(v: &Vec<char>) -> (r: String)
    ensures
        r@ == v@,
{
    v.iter().collect()
}

fn push_range(out: &mut Vec<char>, s: &Vec<char>, a: usize, b: usize)
    requires
        a <= b <= s.len(),
    ensures
        final(out)@ == old(out)@ + s@.subrange(a as int, b as int),
{
    let mut k: usize = a;
    while k < b
        invariant
            a <= k <= b <= s.len(),
            out@ == old(out)@ + s@.subrange(a as int, k as int),
        decreases b - k,
    {
        out.push(s[k]);
        k += 1;
        assert(out@ =~= old(out)@ + s@.subrange(a as int, k as int));
    }
}

fn find_close(s: &Vec<char>, start: usize, min: usize) -> (r: Option<usize>)
    ensures
        match r {
            Some(j) => close_from(s@, start as int, min as int) == Some(j as int),
            None => close_from(s@, start as int, min as int) is None,
        },
{
    let mut k: usize = start;
    while k < s.len()
        invariant
            start <= k,
            close_from(s@, start as int, min as int) == close_from(s@, k as int, min as int),
        decreases s.len() - k,
    {
        if k + 1 >= s.len() {
            return None;
        }
        if k >= min && s[k] == ']' && s[k + 1] == ']' {
            return Some(k);
        }
        if s[k] == '\n' {
            return None;
        }
        k += 1;
    }
    None
}

fn find_match_end(s: &Vec<char>, i: usize) -> (r: Option<usize>)
    requires
        i < s.len(),
    ensures
        match r {
            Some(j) => match_end(s@, i as int) == Some(j as int),
            None => match_end(s@, i as int) is None,
        },
{
    if i + 1 < s.len() && s[i] == '[' && s[i + 1] == '[' {
        if i + 2 >= s.len() - 1 {
            return None;
        }
        find_close(s, i + 2, i + 3)
    } else {
        None
    }
}

/// Rewrites every `[[NAME]]` of the text into `#link("internal-scheme://NAME")[NAME]`
/// in one left-to-right pass.
pub fn expand_wiki_links(src: &str) -> (r: String)
    ensures
        r@ == expand(src@),
{
    let s = chars_of(src);
    let open: Vec<char> = vec!['#', 'l', 'i', 'n', 'k', '(', '"', 'i', 'n', 't', 'e', 'r', 'n', 'a', 'l', '-', 's', 'c', 'h', 'e', 'm', 'e', ':', '/', '/'];
    let mid: Vec<char> = vec!['"', ')', '['];
    assert(open@ =~= link_open());
    assert(mid@ =~= link_mid());
    let mut out: Vec<char> = Vec::new();
    let mut i: usize = 0;
    while i < s.len()
        invariant
            i <= s.len(),
            open@ == link_open(),
            mid@ == link_mid(),
            out@ + expand_from(s@, i as int) == expand(s@),
        decreases s.len() - i,
    {
        let found = find_match_end(&s, i);
        proof {
            lemma_match_end_bounds(s@, i as int);
        }
        match found {
            Some(j) => {
                let ghost before = out@;
                push_range(&mut out, &open, 0, open.len());
                push_range(&mut out, &s, i + 2, j);
                push_range(&mut out, &mid, 0, mid.len());
                push_range(&mut out, &s, i + 2, j);
                out.push(']');
                assert(open@.subrange(0, open@.len() as int) =~= open@);
                assert(mid@.subrange(0, mid@.len() as int) =~= mid@);
                assert(out@ =~= before + link_markup(s@.subrange(i + 2, j as int)));
                assert(out@ + expand_from(s@, j + 2) =~= before + expand_from(s@, i as int));
                i = j + 2;
            },
            None => {
                let ghost before = out@;
                out.push(s[i]);
                assert(out@ + expand_from(s@, i + 1) =~= before + expand_from(s@, i as int));
                i += 1;
            },
        }
    }
    assert(out@ =~= expand(s@));
    string_of(&out)
}

} // verus!
