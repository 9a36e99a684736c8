//! Path segmentation: splitting a path on `'/'` and joining a tail back.

use vstd::prelude::*;

verus! {

/// The views of a sequence of path segments.
pub open spec fn seq_views(v: Seq<String>) -> Seq<Seq<char>> {
    v.map_values(|x: String| x@)
}

/// The views of a list of string pairs: captured parameters, or headers.
pub open spec fn pair_views(ps: Seq<(String, String)>) -> Seq<(Seq<char>, Seq<char>)> {
    ps.map_values(|p: (String, String)| (p.0@, p.1@))
}

/// The position right after the path segment that starts at `i`: the first
/// index at or after `i` holding `'/'`, or the end of the string.
pub open spec fn seg_end(s: Seq<char>, i: int) -> int
    decreases s.len() - i,
{
    if i < 0 || i >= s.len() {
        s.len() as int
    } else if s[i] == '/' {
        i
    } else {
        seg_end(s, i + 1)
    }
}

pub proof fn lemma_seg_end(s: Seq<char>, i: int)
    requires
        0 <= i <= s.len(),
    ensures
        i <= seg_end(s, i) <= s.len(),
        forall|k: int| i <= k < seg_end(s, i) ==> s[k] != '/',
        seg_end(s, i) < s.len() ==> s[seg_end(s, i)] == '/',
    decreases s.len() - i,
{
    if i < s.len() && s[i] != '/' {
        lemma_seg_end(s, i + 1);
    }
}

/// The non-empty segments of `s` from position `i` on, in order: the maximal
/// runs of characters between `'/'` separators.
pub open spec fn split_from(s: Seq<char>, i: int) -> Seq<Seq<char>>
    decreases s.len() - i,
    via split_from_dec
{
    if i < 0 || i >= s.len() {
        Seq::empty()
    } else if s[i] == '/' {
        split_from(s, i + 1)
    } else {
        seq![s.subrange(i, seg_end(s, i))] + split_from(s, seg_end(s, i))
    }
}

#[via_fn]
proof fn split_from_dec(s: Seq<char>, i: int) {
    if 0 <= i < s.len() && s[i] != '/' {
        lemma_seg_end(s, i);
        assert(seg_end(s, i) >= i + 1);
    }
}

/// The segments of a whole path string.
pub open spec fn spec_segments(s: Seq<char>) -> Seq<Seq<char>> {
    split_from(s, 0)
}

/// Splits a path on `'/'`, dropping empty segments, so that `"/foo/bar"`,
/// `"foo/bar"` and `"//foo//bar/"` all yield `["foo", "bar"]`.
pub fn split_path(path: &str) -> (segs: Vec<String>)
    ensures
        seq_views(segs@) == spec_segments(path@),
{
    let n = path.unicode_len();
    let mut segs: Vec<String> = Vec::new();
    let mut i: usize = 0;
    while i < n
        invariant
            n == path@.len(),
            i <= n,
            seq_views(segs@) + split_from(path@, i as int) == spec_segments(path@),
        decreases n - i,
    {
        if path.get_char(i) == '/' {
            i = i + 1;
        } else {
            let start = i;
            let mut j = i;
            while j < n && path.get_char(j) != '/'
                invariant
                    n == path@.len(),
                    start <= j <= n,
                    seg_end(path@, start as int) == seg_end(path@, j as int),
                decreases n - j,
            {
                j = j + 1;
            }
            proof {
                assert(seg_end(path@, j as int) == j);
            }
            let seg = path.substring_char(start, j).to_owned();
            proof {
                let ghost prev = seq_views(segs@);
                assert(seq_views(segs@.push(seg)) =~= prev.push(seg@));
            }
            segs.push(seg);
            i = j;
        }
    }
    segs
}

/// The segments from `i` on, joined back into one path with `'/'` between
/// them; what a catch-all pattern captures.
pub open spec fn join_from(segs: Seq<Seq<char>>, i: int) -> Seq<char>
    decreases segs.len() - i,
{
    if i < 0 || i >= segs.len() {
        Seq::empty()
    } else if i == segs.len() - 1 {
        segs[i]
    } else {
        segs[i] + seq!['/'] + join_from(segs, i + 1)
    }
}

/// Joins the segments from `from` on with `'/'` separators.
pub fn join_tail(segs: &Vec<String>, from: usize) -> (r: String)
    requires
        from <= segs@.len(),
    ensures
        r@ == join_from(seq_views(segs@), from as int),
{
    let mut out = String::new();
    let n = segs.len();
    if from >= n {
        proof {
            assert(out@ =~= join_from(seq_views(segs@), from as int));
        }
        return out;
    }
    let mut k = from;
    while k < n
        invariant
            from <= k <= n,
            n == segs@.len(),
            from < n,
            out@ + join_from(seq_views(segs@), k as int) == join_from(seq_views(segs@), from as int),
            k == n ==> out@ == join_from(seq_views(segs@), from as int),
        decreases n - k,
    {
        proof {
            reveal_strlit("/");
        }
        out.append(segs[k].as_str());
        if k + 1 < n {
            out.append("/");
            proof {
                assert(("/")@ =~= seq!['/']);
            }
        }
        k = k + 1;
    }
    out
}


pub proof fn lemma_seg_end_concat(a: Seq<char>, b: Seq<char>, i: int)
    requires
        0 <= i <= a.len(),
    ensures
        seg_end(a + seq!['/'] + b, i) == seg_end(a, i),
    decreases a.len() - i,
{
    let s = a + seq!['/'] + b;
    if i < a.len() && a[i] != '/' {
        lemma_seg_end_concat(a, b, i + 1);
    }
}

pub proof fn lemma_seg_end_shift(c: Seq<char>, b: Seq<char>, i: int)
    requires
        0 <= i <= b.len(),
    ensures
        seg_end(c + b, c.len() + i) == c.len() + seg_end(b, i),
    decreases b.len() - i,
{
    if i < b.len() && b[i] != '/' {
        lemma_seg_end_shift(c, b, i + 1);
    }
}

pub proof fn lemma_split_shift(c: Seq<char>, b: Seq<char>, i: int)
    requires
        0 <= i <= b.len(),
    ensures
        split_from(c + b, c.len() + i) == split_from(b, i),
    decreases b.len() - i,
{
    let s = c + b;
    if i >= b.len() {
        assert(split_from(s, c.len() + i) =~= split_from(b, i));
    } else if b[i] == '/' {
        lemma_split_shift(c, b, i + 1);
    } else {
        lemma_seg_end(b, i);
        lemma_seg_end_shift(c, b, i);
        let e = seg_end(b, i);
        assert(s.subrange(c.len() + i, c.len() + e) =~= b.subrange(i, e));
        lemma_split_shift(c, b, e);
        assert(split_from(s, c.len() + i) =~= split_from(b, i));
    }
}

pub proof fn lemma_split_concat(a: Seq<char>, b: Seq<char>, i: int)
    requires
        0 <= i <= a.len(),
    ensures
        split_from(a + seq!['/'] + b, i) == split_from(a, i) + split_from(b, 0),
    decreases a.len() - i,
{
    let s = a + seq!['/'] + b;
    if i >= a.len() {
        assert(s[i] == '/');
        assert((a + seq!['/']) + b =~= s);
        lemma_split_shift(a + seq!['/'], b, 0);
        assert(split_from(s, i + 1) == split_from(b, 0));
        assert(split_from(s, i) =~= split_from(a, i) + split_from(b, 0));
    } else if a[i] == '/' {
        lemma_split_concat(a, b, i + 1);
    } else {
        lemma_seg_end(a, i);
        lemma_seg_end_concat(a, b, i);
        let e = seg_end(a, i);
        assert(s.subrange(i, e) =~= a.subrange(i, e));
        lemma_split_concat(a, b, e);
        assert(split_from(s, i) =~= split_from(a, i) + split_from(b, 0));
    }
}

} // verus!
