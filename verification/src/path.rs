//! Splitting a URI path into its segments and joining segments back.

use vstd::prelude::*;

verus! {

/// The segments of `p` finished so far and the segment being read, after
/// reading `p` from the left.
pub open spec fn split_state(p: Seq<char>) -> (Seq<Seq<char>>, Seq<char>)
    decreases p.len(),
{
    if p.len() == 0 {
        (Seq::empty(), Seq::empty())
    } else {
        let (done, cur) = split_state(p.drop_last());
        if p.last() == '/' {
            if cur.len() > 0 {
                (done.push(cur), Seq::empty())
            } else {
                (done, Seq::empty())
            }
        } else {
            (done, cur.push(p.last()))
        }
    }
}

/// The non-empty runs of characters other than '/' in `p`, in order: what
/// `p.split('/').filter(|s| !s.is_empty())` yields.
pub open spec fn path_segments(p: Seq<char>) -> Seq<Seq<char>> {
    let (done, cur) = split_state(p);
    if cur.len() > 0 {
        done.push(cur)
    } else {
        done
    }
}

/// Calls `String::push`, which std documents to append the character.
#[verifier::external_body]
pub(crate) fn push_char(s: &mut String, c: char)
    ensures
        final(s)@ == old(s)@.push(c),
{
    s.push(c);
}

/// Splits `path` on '/' and drops the empty pieces.
pub fn split_path(path: &str) -> (r: Vec<String>)
    ensures
        r@.map_values(|s: String| s@) == path_segments(path@),
{
    let mut done: Vec<String> = Vec::new();
    let mut cur = String::new();
    for c in it: path.chars()
        invariant
            it.seq() == path@,
            (done@.map_values(|s: String| s@), cur@) == split_state(path@.take(it.index() as int)),
    {
        let ghost k = it.index() as int;
        assert(path@.take(k + 1).drop_last() =~= path@.take(k));
        assert(path@.take(k + 1).last() == c);
        let ghost dv = done@.map_values(|s: String| s@);
        if c == '/' {
            if !cur.as_str().is_empty() {
                let mut seg = String::new();
                std::mem::swap(&mut seg, &mut cur);
                done.push(seg);
                assert(done@.map_values(|s: String| s@) =~= dv.push(seg@));
            }
        } else {
            push_char(&mut cur, c);
        }
    }
    assert(path@.take(path@.len() as int) =~= path@);
    if !cur.as_str().is_empty() {
        let ghost dv = done@.map_values(|s: String| s@);
        done.push(cur);
        assert(done@.map_values(|s: String| s@) =~= dv.push(cur@));
    }
    done
}

} // verus!

verus! {

/// The path `/s1/s2/...` made of the given segments ("" for none).
pub open spec fn joined_path(segs: Seq<Seq<char>>) -> Seq<char>
    decreases segs.len(),
{
    if segs.len() == 0 {
        Seq::empty()
    } else {
        joined_path(segs.drop_last()).push('/') + segs.last()
    }
}

/// Calls `String::push_str`, which std documents to append the string.
#[verifier::external_body]
pub(crate) fn push_str(s: &mut String, t: &str)
    ensures
        final(s)@ == old(s)@ + t@,
{
    s.push_str(t);
}

/// Joins segments into the path `/s1/s2/...`.
pub fn join_path(segs: &Vec<String>) -> (r: String)
    ensures
        r@ == joined_path(segs@.map_values(|s: String| s@)),
{
    let mut r = String::new();
    let mut i: usize = 0;
    while i < segs.len()
        invariant
            i <= segs@.len(),
            r@ == joined_path(segs@.map_values(|s: String| s@).take(i as int)),
        decreases segs@.len() - i,
    {
        let ghost sv = segs@.map_values(|s: String| s@);
        assert(sv.take(i + 1).drop_last() =~= sv.take(i as int));
        push_char(&mut r, '/');
        push_str(&mut r, segs[i].as_str());
        i = i + 1;
    }
    assert(segs@.map_values(|s: String| s@).take(segs@.len() as int) =~= segs@.map_values(|s: String| s@));
    r
}

/// A segment fit for a path: not empty and without '/'.
pub open spec fn is_segment(s: Seq<char>) -> bool {
    s.len() > 0 && !s.contains('/')
}

/// Reading characters other than '/' extends the segment being read.
proof fn lemma_split_state_plain(p: Seq<char>, s: Seq<char>)
    requires
        !s.contains('/'),
    ensures
        split_state(p + s) == (split_state(p).0, split_state(p).1 + s),
    decreases s.len(),
{
    if s.len() == 0 {
        assert(p + s =~= p);
        assert(split_state(p).1 + s =~= split_state(p).1);
    } else {
        let s0 = s.drop_last();
        assert(!s0.contains('/')) by {
            if s0.contains('/') {
                let i = choose|i: int| 0 <= i < s0.len() && s0[i] == '/';
                assert(s[i] == '/');
            }
        }
        lemma_split_state_plain(p, s0);
        assert((p + s).drop_last() =~= p + s0);
        assert((p + s).last() == s.last());
        assert(s.last() != '/') by {
            assert(s[s.len() - 1] == s.last());
        }
        assert(split_state(p).1 + s0.push(s.last()) =~= split_state(p).1 + s);
        assert(s0.push(s.last()) =~= s);
    }
}

/// After reading a joined path, the segments but the last are done and the
/// last is being read.
proof fn lemma_split_joined(segs: Seq<Seq<char>>)
    requires
        segs.len() > 0,
        forall|i: int| 0 <= i < segs.len() ==> is_segment(#[trigger] segs[i]),
    ensures
        split_state(joined_path(segs)) == (segs.drop_last(), segs.last()),
    decreases segs.len(),
{
    let front = segs.drop_last();
    let p = joined_path(front);
    assert(forall|i: int| 0 <= i < front.len() ==> front[i] == segs[i]);
    if front.len() == 0 {
        assert(split_state(p) == (Seq::<Seq<char>>::empty(), Seq::<char>::empty()));
    } else {
        lemma_split_joined(front);
    }
    let q = p.push('/');
    assert(q.drop_last() =~= p);
    assert(q.last() == '/');
    assert(front.len() > 0 ==> is_segment(front.last()));
    if front.len() > 0 {
        assert(split_state(q) == (front.drop_last().push(front.last()), Seq::<char>::empty()));
        assert(front.drop_last().push(front.last()) =~= front);
    } else {
        assert(split_state(q) == (front, Seq::<char>::empty()));
    }
    assert(is_segment(segs.last()));
    lemma_split_state_plain(q, segs.last());
    assert(Seq::<char>::empty() + segs.last() =~= segs.last());
}

/// Splitting a path joined from segments gives the segments back.
pub proof fn lemma_split_join_roundtrip(segs: Seq<Seq<char>>)
    requires
        forall|i: int| 0 <= i < segs.len() ==> is_segment(#[trigger] segs[i]),
    ensures
        path_segments(joined_path(segs)) == segs,
{
    if segs.len() == 0 {
        assert(path_segments(joined_path(segs)) =~= segs);
    } else {
        lemma_split_joined(segs);
        assert(is_segment(segs.last()));
        assert(segs.drop_last().push(segs.last()) =~= segs);
    }
}

/// The path with a leading '/' added if missing and one trailing '/'
/// removed, unless the path is just "/".
pub open spec fn normalized_path(p: Seq<char>) -> Seq<char> {
    let q = if p.len() > 0 && p[0] == '/' { p } else { seq!['/'] + p };
    if q.len() > 1 && q.last() == '/' { q.drop_last() } else { q }
}

/// Calls `String::pop`, which std documents to remove and return the last
/// character, or `None` when the string is empty.
#[verifier::external_body]
fn pop_char(s: &mut String) -> (r: Option<char>)
    ensures
        old(s)@.len() > 0 ==> r == Some(old(s)@.last()) && final(s)@ == old(s)@.drop_last(),
        old(s)@.len() == 0 ==> r is None && final(s)@ == old(s)@,
{
    s.pop()
}

/// Normalizes a route path: a leading '/' is added if missing and a
/// trailing '/' is removed, except from "/" itself.
pub fn normalize_path(path: &str) -> (r: String)
    ensures
        r@ == normalized_path(path@),
{
    let mut first: Option<char> = None;
    let mut last: Option<char> = None;
    let mut several = false;
    for c in it: path.chars()
        invariant
            it.seq() == path@,
            first == (if it.index() > 0 { Some(path@[0]) } else { None::<char> }),
            last == (if it.index() > 0 { Some(path@[it.index() - 1]) } else { None::<char> }),
            several == (it.index() > 1),
    {
        if first.is_some() {
            several = true;
        } else {
            first = Some(c);
        }
        last = Some(c);
    }
    let ghost p = path@;
    let starts = match first {
        Some(c) => c == '/',
        None => false,
    };
    let mut out = String::new();
    if !starts {
        push_char(&mut out, '/');
    }
    push_str(&mut out, path);
    let ghost q = out@;
    proof {
        if starts {
            assert(q =~= p);
        } else {
            assert(q =~= seq!['/'] + p);
        }
    }
    let long = if starts { several } else { first.is_some() };
    let ends = match last {
        Some(c) => c == '/',
        None => !starts,
    };
    proof {
        assert(long == (q.len() > 1));
        if p.len() > 0 {
            assert(q.last() == p.last());
        } else {
            assert(q.last() == '/');
        }
        assert(ends == (q.last() == '/'));
    }
    if long && ends {
        pop_char(&mut out);
    }
    out
}

/// A normalized path starts with '/'; normalizing again changes nothing,
/// unless the path ended in more than one '/' (only one is removed).
pub proof fn law_normalized_path(p: Seq<char>)
    ensures
        normalized_path(p).len() > 0 && normalized_path(p)[0] == '/',
        !(p.len() >= 2 && p.last() == '/' && p[p.len() - 2] == '/')
            ==> normalized_path(normalized_path(p)) == normalized_path(p),
{
    let q = if p.len() > 0 && p[0] == '/' { p } else { seq!['/'] + p };
    assert(q.len() > 0 && q[0] == '/');
    let n = normalized_path(p);
    if q.len() > 1 && q.last() == '/' {
        assert(n == q.drop_last());
        assert(n[0] == '/');
        if !(p.len() >= 2 && p.last() == '/' && p[p.len() - 2] == '/') && n.len() > 1 {
            assert(n.last() == q[q.len() - 2]);
            if p.len() > 0 && p[0] == '/' {
                assert(q == p);
            } else {
                assert(q[q.len() - 2] == p[p.len() - 2]);
            }
        }
    }
}

} // verus!
