//! Username substitution into URL templates.
//!
//! A template marks the place of the username with the two characters `{}`.
//! Substitution replaces every such placeholder, left to right, with the
//! username exactly as given: nothing is escaped or percent-encoded.

use vstd::prelude::*;

verus! {

/// Whether the placeholder `{}` starts at position `i` of `t`.
pub open spec fn placeholder_at(t: Seq<char>, i: int) -> bool {
    0 <= i && i + 1 < t.len() && t[i] == '{' && t[i + 1] == '}'
}

/// The template `t` with every placeholder replaced by `name`, read from the
/// left. The replacement text is copied verbatim and is never scanned again.
pub open spec fn substitute(t: Seq<char>, name: Seq<char>) -> Seq<char>
    decreases t.len(),
{
    if t.len() == 0 {
        t
    } else if placeholder_at(t, 0) {
        name + substitute(t.skip(2), name)
    } else {
        seq![t[0]] + substitute(t.skip(1), name)
    }
}

/// A stretch of the template that holds no placeholder is copied unchanged.
pub proof fn lemma_literal_run(t: Seq<char>, name: Seq<char>, from: int, to: int)
    requires
        0 <= from <= to <= t.len(),
        forall|k: int| from <= k < to ==> !placeholder_at(t, k),
    ensures
        substitute(t.skip(from), name) == t.subrange(from, to) + substitute(t.skip(to), name),
    decreases to - from,
{
    if from == to {
        assert(t.subrange(from, to) + substitute(t.skip(to), name) =~= substitute(
            t.skip(to),
            name,
        ));
    } else {
        let rest = t.skip(from);
        assert(!placeholder_at(t, from));
        assert(!placeholder_at(rest, 0));
        assert(rest.skip(1) =~= t.skip(from + 1));
        lemma_literal_run(t, name, from + 1, to);
        assert(seq![rest[0]] + (t.subrange(from + 1, to) + substitute(t.skip(to), name))
            =~= t.subrange(from, to) + substitute(t.skip(to), name));
    }
}

/// At a placeholder the username is inserted and the scan resumes behind it.
pub proof fn lemma_placeholder_step(t: Seq<char>, name: Seq<char>, at: int)
    requires
        placeholder_at(t, at),
    ensures
        substitute(t.skip(at), name) == name + substitute(t.skip(at + 2), name),
{
    let rest = t.skip(at);
    assert(placeholder_at(rest, 0));
    assert(rest.skip(2) =~= t.skip(at + 2));
}

/// A template without any placeholder resolves to itself.
pub proof fn lemma_no_placeholder(t: Seq<char>, name: Seq<char>)
    requires
        forall|k: int| !placeholder_at(t, k),
    ensures
        substitute(t, name) == t,
{
    lemma_literal_run(t, name, 0, t.len() as int);
    assert(t.skip(0) =~= t);
    assert(t.subrange(0, t.len() as int) + substitute(t.skip(t.len() as int), name) =~= t);
}

/// A template with its one placeholder at position `at` resolves to what
/// stands before the placeholder, the username, and what stands behind it.
pub proof fn lemma_single_placeholder(t: Seq<char>, name: Seq<char>, at: int)
    requires
        placeholder_at(t, at),
        forall|k: int| k != at ==> !placeholder_at(t, k),
    ensures
        substitute(t, name) == t.take(at) + name + t.skip(at + 2),
{
    let n = t.len() as int;
    lemma_literal_run(t, name, 0, at);
    lemma_placeholder_step(t, name, at);
    lemma_literal_run(t, name, at + 2, n);
    assert(t.skip(0) =~= t);
    assert(t.subrange(0, at) =~= t.take(at));
    assert(t.subrange(at + 2, n) + substitute(t.skip(n), name) =~= t.skip(at + 2));
    assert(t.take(at) + (name + t.skip(at + 2)) =~= t.take(at) + name + t.skip(at + 2));
}

/// The characters of `s`, in order.
fn chars_of(s: &str) -> (v: Vec<char>)
    ensures
        v@ == s@,
{
    let mut v: Vec<char> = Vec::new();
    for c in it: s.chars()
        invariant
            it.seq() == s@,
            v@ =~= it.seq().take(it.index() as int),
    {
        v.push(c);
    }
    assert(v@ =~= s@);
    v
}

/// Resolves a URL template for one username: every `{}` in `template` is
/// replaced by `username`, verbatim.
pub fn resolve_url(template: &str, username: &str) -> (url: String)
    ensures
        url@ == substitute(template@, username@),
{
    let chars = chars_of(template);
    let n = chars.len();
    let mut url = String::new();
    let mut start: usize = 0;
    let mut i: usize = 0;
    assert(template@.skip(0) =~= template@);
    assert(url@ + substitute(template@, username@) =~= substitute(template@, username@));
    while i < n
        invariant
            chars@ == template@,
            n == chars.len(),
            start <= i <= n,
            forall|k: int| start <= k < i ==> !placeholder_at(template@, k),
            url@ + substitute(template@.skip(start as int), username@) == substitute(
                template@,
                username@,
            ),
        decreases n - i,
    {
        if chars[i] == '{' && i + 1 < n && chars[i + 1] == '}' {
            proof {
                lemma_literal_run(template@, username@, start as int, i as int);
                lemma_placeholder_step(template@, username@, i as int);
            }
            let ghost before = url@;
            url.append(template.substring_char(start, i));
            url.append(username);
            assert(url@ + substitute(template@.skip(i + 2), username@) =~= before + (
            template@.subrange(start as int, i as int) + (username@ + substitute(
                template@.skip(i + 2),
                username@,
            ))));
            i = i + 2;
            start = i;
        } else {
            i = i + 1;
        }
    }
    proof {
        lemma_literal_run(template@, username@, start as int, n as int);
    }
    let ghost before = url@;
    url.append(template.substring_char(start, n));
    assert(url@ =~= before + (template@.subrange(start as int, n as int) + substitute(
        template@.skip(n as int),
        username@,
    )));
    url
}

} // verus!
