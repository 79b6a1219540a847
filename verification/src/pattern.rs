//! Key patterns in which `*` is the only wildcard.
//!
//! A pattern is cut at every `*` into literal fragments. A key matches when it
//! begins with the first fragment, ends with the last one, and holds the
//! fragments in between one after another, without overlap, somewhere behind
//! the first. The first and the last fragment are each held against the key
//! on their own, so the end of the key may be shared: `ab*bc` matches `abc`.

use vstd::prelude::*;
use crate::text::chars_of;

verus! {

/// The literal fragments of a pattern: what stands between its `*`s, before
/// the first and behind the last. A pattern with `n` stars has `n + 1`
/// fragments, some of them possibly empty.
pub open spec fn fragments(p: Seq<char>) -> Seq<Seq<char>>
    decreases p.len(),
{
    if p.len() == 0 {
        seq![Seq::<char>::empty()]
    } else {
        let before = fragments(p.drop_last());
        if p.last() == '*' {
            before.push(Seq::<char>::empty())
        } else {
            before.drop_last().push(before.last().push(p.last()))
        }
    }
}

/// `f` stands in `k` at index `i`.
pub open spec fn occurs_at(k: Seq<char>, f: Seq<char>, i: int) -> bool {
    0 <= i && i + f.len() <= k.len() && k.subrange(i, i + f.len()) == f
}

/// The fragments `fs` stand in `k` at or behind index `from`, in their order
/// and without overlap.
pub open spec fn in_order(fs: Seq<Seq<char>>, k: Seq<char>, from: int) -> bool
    decreases fs.len(),
{
    fs.len() == 0 || exists|i: int|
        from <= i && #[trigger] occurs_at(k, fs[0], i) && in_order(
            fs.drop_first(),
            k,
            i + fs[0].len(),
        )
}

/// Whether key `k` matches pattern `p`. A pattern without `*` matches the
/// key equal to it and no other.
pub open spec fn glob_matches(p: Seq<char>, k: Seq<char>) -> bool {
    if !p.contains('*') {
        k == p
    } else {
        let fs = fragments(p);
        &&& fs.first().is_prefix_of(k)
        &&& fs.last().is_suffix_of(k)
        &&& in_order(fs.subrange(1, fs.len() - 1), k, fs.first().len() as int)
    }
}

/// Every pattern has at least one fragment.
pub proof fn lemma_fragments_nonempty(p: Seq<char>)
    ensures
        fragments(p).len() >= 1,
    decreases p.len(),
{
    if p.len() > 0 {
        lemma_fragments_nonempty(p.drop_last());
    }
}

/// A pattern without `*` is its own single fragment.
pub proof fn lemma_fragments_of_literal(p: Seq<char>)
    requires
        !p.contains('*'),
    ensures
        fragments(p) == seq![p],
    decreases p.len(),
{
    if p.len() == 0 {
        assert(p =~= Seq::<char>::empty());
    } else {
        let init = p.drop_last();
        assert(!init.contains('*')) by {
            if init.contains('*') {
                let i = choose|i: int| 0 <= i < init.len() && init[i] == '*';
                assert(p[i] == '*');
            }
        }
        lemma_fragments_of_literal(init);
        assert(init.push(p.last()) =~= p);
    }
}

/// Fragments are cut at every `*`: the fragments of `a*b` are those of `a`
/// and then those of `b`.
pub proof fn lemma_fragments_around_star(a: Seq<char>, b: Seq<char>)
    ensures
        fragments(a + seq!['*'] + b) == fragments(a) + fragments(b),
    decreases b.len(),
{
    let whole = a + seq!['*'] + b;
    if b.len() == 0 {
        assert(whole.drop_last() =~= a);
    } else {
        let init = b.drop_last();
        let c = b.last();
        let fa = fragments(a);
        let fi = fragments(init);
        assert(whole.drop_last() =~= a + seq!['*'] + init);
        lemma_fragments_around_star(a, init);
        lemma_fragments_nonempty(init);
        if c != '*' {
            assert((fa + fi.drop_last()).push(fi.last().push(c)) =~= fa + fi.drop_last().push(
                fi.last().push(c),
            ));
        }
    }
}

/// No fragment holds a `*`.
pub proof fn lemma_fragments_hold_no_star(p: Seq<char>)
    ensures
        forall|i: int| 0 <= i < fragments(p).len() ==> !(#[trigger] fragments(p)[i]).contains('*'),
    decreases p.len(),
{
    if p.len() > 0 {
        let before = fragments(p.drop_last());
        lemma_fragments_hold_no_star(p.drop_last());
        lemma_fragments_nonempty(p.drop_last());
        if p.last() != '*' {
            // the last fragment grows by a character that is no star
            let grown = before.last().push(p.last());
            assert(!grown.contains('*')) by {
                if grown.contains('*') {
                    let i = choose|i: int| 0 <= i < grown.len() && grown[i] == '*';
                    assert(before.last()[i] == '*');
                }
            }
        }
    }
}

/// The pattern `*` matches every key, the empty one too.
pub proof fn lemma_star_matches_every_key(k: Seq<char>)
    ensures
        glob_matches(seq!['*'], k),
{
    let p = seq!['*'];
    let none = Seq::<char>::empty();
    assert(fragments(p.drop_last()) == seq![none]);
    assert(fragments(p) == seq![none, none]);
}

/// A pattern without `*` matches the key equal to it and no other.
pub proof fn lemma_literal_matches_only_itself(p: Seq<char>, k: Seq<char>)
    requires
        !p.contains('*'),
    ensures
        glob_matches(p, k) <==> k == p,
{
}

/// A pattern has one fragment exactly if it holds no `*`.
pub proof fn lemma_single_fragment(p: Seq<char>)
    ensures
        fragments(p).len() == 1 <==> !p.contains('*'),
{
    if p.contains('*') {
        let i = choose|i: int| 0 <= i < p.len() && p[i] == '*';
        let a = p.take(i);
        let b = p.skip(i + 1);
        assert(p =~= a + seq!['*'] + b);
        lemma_fragments_around_star(a, b);
        lemma_fragments_nonempty(a);
        lemma_fragments_nonempty(b);
    } else {
        lemma_fragments_of_literal(p);
    }
}

/// A literal followed by one `*` matches exactly the keys that begin with
/// the literal.
pub proof fn lemma_prefix_pattern(prefix: Seq<char>, k: Seq<char>)
    requires
        !prefix.contains('*'),
    ensures
        glob_matches(prefix.push('*'), k) <==> prefix.is_prefix_of(k),
{
    let p = prefix.push('*');
    lemma_fragments_of_literal(prefix);
    assert(p.drop_last() =~= prefix);
    assert(fragments(p) == seq![prefix, Seq::<char>::empty()]);
    assert(p[prefix.len() as int] == '*');
}

/// Searching from further left never hurts: fragments found behind `b` are
/// found behind any `a <= b`.
pub proof fn lemma_in_order_from_earlier(fs: Seq<Seq<char>>, k: Seq<char>, a: int, b: int)
    requires
        a <= b,
        in_order(fs, k, b),
    ensures
        in_order(fs, k, a),
{
    if fs.len() > 0 {
        // the place that serves from `b` serves from `a`
        let i = choose|i: int|
            b <= i && #[trigger] occurs_at(k, fs[0], i) && in_order(
                fs.drop_first(),
                k,
                i + fs[0].len(),
            );
        assert(a <= i && occurs_at(k, fs[0], i));
    }
}

/// Taking the leftmost place of the first fragment loses nothing: the
/// fragments can be placed at all exactly if the rest can be placed behind
/// that leftmost place. So one pass over the key, which takes each fragment
/// where it first finds it and never goes back, decides the matter.
pub proof fn lemma_leftmost_suffices(fs: Seq<Seq<char>>, k: Seq<char>, from: int, i: int)
    requires
        fs.len() > 0,
        from <= i,
        occurs_at(k, fs[0], i),
        forall|j: int| from <= j < i ==> !occurs_at(k, fs[0], j),
    ensures
        in_order(fs, k, from) == in_order(fs.drop_first(), k, i + fs[0].len()),
{
    if in_order(fs, k, from) {
        let w = choose|w: int|
            from <= w && #[trigger] occurs_at(k, fs[0], w) && in_order(
                fs.drop_first(),
                k,
                w + fs[0].len(),
            );
        lemma_in_order_from_earlier(fs.drop_first(), k, i + fs[0].len(), w + fs[0].len());
    }
}

/// The views of the vectors of `parts`.
pub open spec fn views(parts: Seq<Vec<char>>) -> Seq<Seq<char>> {
    Seq::new(parts.len(), |i: int| parts[i]@)
}

/// Cuts a pattern at its `*`s.
pub fn split(p: &Vec<char>) -> (parts: Vec<Vec<char>>)
    ensures
        views(parts@) == fragments(p@),
{
    let mut parts: Vec<Vec<char>> = Vec::new();
    let mut current: Vec<char> = Vec::new();
    let mut i: usize = 0;
    while i < p.len()
        invariant
            i <= p.len(),
            fragments(p@.take(i as int)) == views(parts@).push(current@),
        decreases p.len() - i,
    {
        let ghost done = views(parts@);
        let ghost open = current@;
        let c = p[i];
        assert(p@.take(i + 1).drop_last() =~= p@.take(i as int));
        if c == '*' {
            parts.push(current);
            current = Vec::new();
        } else {
            current.push(c);
            assert(views(parts@).push(current@) =~= done.push(open).drop_last().push(
                done.push(open).last().push(c),
            ));
        }
        i += 1;
    }
    assert(p@.take(i as int) =~= p@);
    parts.push(current);
    parts
}

/// Whether `f` stands in `k` at index `at`.
fn holds_at(k: &Vec<char>, f: &Vec<char>, at: usize) -> (r: bool)
    requires
        at <= k.len(),
    ensures
        r == occurs_at(k@, f@, at as int),
{
    if f.len() > k.len() - at {
        return false;
    }
    let mut j: usize = 0;
    while j < f.len()
        invariant
            j <= f.len(),
            at + f.len() <= k.len(),
            forall|x: int| 0 <= x < j ==> k@[at + x] == f@[x],
        decreases f.len() - j,
    {
        if k[at + j] != f[j] {
            return false;
        }
        j += 1;
    }
    assert(k@.subrange(at as int, at + f.len()) =~= f@);
    true
}

/// The leftmost index at or behind `from` at which `f` stands in `k`.
fn find_from(k: &Vec<char>, f: &Vec<char>, from: usize) -> (r: Option<usize>)
    requires
        from <= k.len(),
    ensures
        match r {
            Some(i) => {
                &&& from <= i
                &&& occurs_at(k@, f@, i as int)
                &&& forall|j: int| from <= j < i ==> !occurs_at(k@, f@, j)
            },
            None => forall|j: int| from <= j ==> !occurs_at(k@, f@, j),
        },
{
    if f.len() > k.len() - from {
        return None;
    }
    let last: usize = k.len() - f.len();
    let mut i: usize = from;
    while i < last
        invariant
            from <= i <= last,
            last + f.len() == k.len(),
            forall|j: int| from <= j < i ==> !occurs_at(k@, f@, j),
        decreases last - i,
    {
        if holds_at(k, f, i) {
            return Some(i);
        }
        i += 1;
    }
    if holds_at(k, f, i) {
        Some(i)
    } else {
        None
    }
}

/// Matches the characters of a key against a pattern that was already cut
/// into `parts`.
pub fn matches_chars(p: &Vec<char>, parts: &Vec<Vec<char>>, k: &Vec<char>) -> (r: bool)
    requires
        views(parts@) == fragments(p@),
    ensures
        r == glob_matches(p@, k@),
{
    let n = parts.len();
    proof {
        lemma_fragments_nonempty(p@);
        lemma_single_fragment(p@);
    }
    let ghost fs = fragments(p@);
    assert(forall|i: int| 0 <= i < n ==> parts@[i]@ == fs[i]);
    if n == 1 {
        if p.len() != k.len() {
            return false;
        }
        let same = holds_at(k, p, 0);
        assert(k@.subrange(0, k@.len() as int) =~= k@);
        return same;
    }
    if !holds_at(k, &parts[0], 0) {
        return false;
    }
    let tail = &parts[n - 1];
    if tail.len() > k.len() || !holds_at(k, tail, k.len() - tail.len()) {
        return false;
    }
    let ghost middle = fs.subrange(1, n - 1);
    let mut pos: usize = parts[0].len();
    let mut j: usize = 1;
    assert(middle.skip(0) =~= middle);
    while j < n - 1
        invariant
            1 <= j <= n - 1,
            n == parts.len(),
            pos <= k.len(),
            p@.contains('*'),
            fs == fragments(p@),
            fs.len() == n,
            fs.first().is_prefix_of(k@),
            fs.last().is_suffix_of(k@),
            middle == fs.subrange(1, n - 1),
            forall|i: int| 0 <= i < n ==> parts@[i]@ == fs[i],
            in_order(middle, k@, fs[0].len() as int) == in_order(middle.skip(j - 1), k@, pos as int),
        decreases n - j,
    {
        let ghost rest = middle.skip(j - 1);
        assert(rest.drop_first() =~= middle.skip(j as int));
        match find_from(k, &parts[j], pos) {
            None => {
                return false;
            },
            Some(i) => {
                proof {
                    lemma_leftmost_suffices(rest, k@, pos as int, i as int);
                }
                pos = i + parts[j].len();
            },
        }
        j += 1;
    }
    true
}

/// Whether `key` matches `pattern`.
pub fn matches(pattern: &str, key: &str) -> (r: bool)
    ensures
        r == glob_matches(pattern@, key@),
{
    let p = chars_of(pattern);
    let parts = split(&p);
    let k = chars_of(key);
    matches_chars(&p, &parts, &k)
}

} // verus!
