//! Byte spans: sorting and merging them, and keeping the bytes outside them.
use vstd::prelude::*;

verus! {

/// Whether byte `i` lies inside one of `spans`.
pub open spec fn covered(i: int, spans: Seq<(usize, usize)>) -> bool {
    exists|k: int| 0 <= k < spans.len() && #[trigger] spans[k].0 <= i && i < spans[k].1
}

/// The bytes of `src[..n]` that no span covers, in order.
pub open spec fn kept_prefix(src: Seq<u8>, spans: Seq<(usize, usize)>, n: int) -> Seq<u8>
    decreases n,
{
    if n <= 0 {
        seq![]
    } else if covered(n - 1, spans) {
        kept_prefix(src, spans, n - 1)
    } else {
        kept_prefix(src, spans, n - 1).push(src[n - 1])
    }
}

/// The bytes of `src` that no span covers, in order.
pub open spec fn kept(src: Seq<u8>, spans: Seq<(usize, usize)>) -> Seq<u8> {
    kept_prefix(src, spans, src.len() as int)
}

/// Sorted by start.
pub open spec fn sorted_by_start(s: Seq<(usize, usize)>) -> bool {
    forall|i: int, j: int| 0 <= i < j < s.len() ==> #[trigger] s[i].0 <= #[trigger] s[j].0
}

/// Non-empty, in order, and separated by at least one byte.
pub open spec fn separated(s: Seq<(usize, usize)>) -> bool {
    &&& forall|i: int| 0 <= i < s.len() ==> #[trigger] s[i].0 < s[i].1
    &&& forall|i: int, j: int| 0 <= i < j < s.len() ==> #[trigger] s[i].1 < #[trigger] s[j].0
}

/// Two span lists cover the same bytes.
pub open spec fn same_cover(a: Seq<(usize, usize)>, b: Seq<(usize, usize)>) -> bool {
    forall|x: int| #[trigger] covered(x, a) == covered(x, b)
}

proof fn lemma_covered_insert(spans: Seq<(usize, usize)>, p: int, s: (usize, usize))
    requires
        0 <= p <= spans.len(),
    ensures
        forall|x: int| #[trigger] covered(x, spans.insert(p, s)) == (covered(x, spans) || (s.0 <= x && x < s.1)),
{
    let t = spans.insert(p, s);
    assert forall|x: int| #[trigger] covered(x, t) == (covered(x, spans) || (s.0 <= x && x < s.1)) by {
        if covered(x, t) {
            let k = choose|k: int| 0 <= k < t.len() && #[trigger] t[k].0 <= x && x < t[k].1;
            if k < p {
                assert(spans[k] == t[k]);
            } else if k > p {
                assert(spans[k - 1] == t[k]);
            }
        }
        if covered(x, spans) {
            let k = choose|k: int| 0 <= k < spans.len() && #[trigger] spans[k].0 <= x && x < spans[k].1;
            if k < p {
                assert(t[k] == spans[k]);
            } else {
                assert(t[k + 1] == spans[k]);
            }
        }
        if s.0 <= x && x < s.1 {
            assert(t[p] == s);
        }
    }
}

/// The non-empty spans, sorted by start.
pub fn sort_spans(spans: &Vec<(usize, usize)>) -> (r: Vec<(usize, usize)>)
    ensures
        sorted_by_start(r@),
        forall|i: int| 0 <= i < r@.len() ==> #[trigger] r@[i].0 < r@[i].1,
        same_cover(r@, spans@),
{
    let mut out: Vec<(usize, usize)> = Vec::new();
    let mut k: usize = 0;
    while k < spans.len()
        invariant
            k <= spans.len(),
            sorted_by_start(out@),
            forall|i: int| 0 <= i < out@.len() ==> #[trigger] out@[i].0 < out@[i].1,
            same_cover(out@, spans@.take(k as int)),
        decreases spans.len() - k,
    {
        let s = spans[k];
        proof {
            lemma_covered_insert(spans@.take(k as int), k as int, s);
            assert(spans@.take(k as int).insert(k as int, s) =~= spans@.take(k + 1));
        }
        if s.0 < s.1 {
            let mut p: usize = 0;
            while p < out.len() && out[p].0 <= s.0
                invariant
                    p <= out@.len(),
                    forall|i: int| 0 <= i < p ==> #[trigger] out@[i].0 <= s.0,
                decreases out@.len() - p,
            {
                p = p + 1;
            }
            let ghost before = out@;
            out.insert(p, s);
            proof {
                lemma_covered_insert(before, p as int, s);
                assert forall|i: int, j: int| 0 <= i < j < out@.len() implies #[trigger] out@[i].0 <= #[trigger] out@[j].0 by {
                    if j < p {
                    } else if i < p && j == p {
                    } else if i < p {
                        assert(out@[j] == before[j - 1]);
                        assert(before[i].0 <= s.0);
                        assert(before[p as int].0 > s.0);
                        assert(before[p as int].0 <= before[j - 1].0);
                    } else if i == p {
                        assert(out@[j] == before[j - 1]);
                        assert(before[p as int].0 > s.0);
                        if j - 1 > p {
                            assert(before[p as int].0 <= before[j - 1].0);
                        }
                    } else {
                        assert(out@[i] == before[i - 1]);
                        assert(out@[j] == before[j - 1]);
                    }
                }
                assert forall|i: int| 0 <= i < out@.len() implies #[trigger] out@[i].0 < out@[i].1 by {
                    if i < p {
                        assert(out@[i] == before[i]);
                    } else if i > p {
                        assert(out@[i] == before[i - 1]);
                    }
                }
            }
        } else {
            proof {
                assert forall|x: int| #[trigger] covered(x, out@) == covered(x, spans@.take(k + 1)) by {
                    assert(covered(x, spans@.take(k as int)) == covered(x, out@));
                }
            }
        }
        k = k + 1;
    }
    proof {
        assert(spans@.take(spans@.len() as int) =~= spans@);
    }
    out
}

proof fn lemma_covered_push(spans: Seq<(usize, usize)>, s: (usize, usize))
    ensures
        forall|x: int| #[trigger] covered(x, spans.push(s)) == (covered(x, spans) || (s.0 <= x && x < s.1)),
{
    lemma_covered_insert(spans, spans.len() as int, s);
    assert(spans.insert(spans.len() as int, s) =~= spans.push(s));
}

/// Merges the spans that overlap or touch: the result covers the same bytes
/// with non-empty spans in order, each ending before the next one starts.
pub fn merge_spans(spans: &Vec<(usize, usize)>) -> (r: Vec<(usize, usize)>)
    ensures
        separated(r@),
        same_cover(r@, spans@),
{
    let sorted = sort_spans(spans);
    let mut out: Vec<(usize, usize)> = Vec::new();
    if sorted.len() == 0 {
        proof {
            assert forall|x: int| #[trigger] covered(x, out@) == covered(x, spans@) by {
                assert(covered(x, sorted@) == covered(x, spans@));
            }
        }
        return out;
    }
    let mut cur = sorted[0];
    proof {
        lemma_covered_push(out@, cur);
        lemma_covered_push(sorted@.take(0), cur);
        assert(sorted@.take(1) =~= sorted@.take(0).push(cur));
        assert(out@ =~= sorted@.take(0));
    }
    let mut k: usize = 1;
    while k < sorted.len()
        invariant
            1 <= k <= sorted@.len(),
            sorted_by_start(sorted@),
            forall|i: int| 0 <= i < sorted@.len() ==> #[trigger] sorted@[i].0 < sorted@[i].1,
            separated(out@),
            cur.0 < cur.1,
            forall|i: int| 0 <= i < out@.len() ==> #[trigger] out@[i].1 < cur.0,
            forall|j: int| k <= j < sorted@.len() ==> cur.0 <= #[trigger] sorted@[j].0,
            same_cover(out@.push(cur), sorted@.take(k as int)),
        decreases sorted@.len() - k,
    {
        let (s, e) = sorted[k];
        proof {
            lemma_covered_push(sorted@.take(k as int), (s, e));
            assert(sorted@.take(k + 1) =~= sorted@.take(k as int).push((s, e)));
            assert(cur.0 <= s);
        }
        if s <= cur.1 {
            let ghost old_cur = cur;
            let end = if e > cur.1 { e } else { cur.1 };
            cur = (cur.0, end);
            proof {
                lemma_covered_push(out@, old_cur);
                lemma_covered_push(out@, cur);
                assert forall|x: int| #[trigger] covered(x, out@.push(cur)) == covered(x, sorted@.take(k + 1)) by {
                    assert(covered(x, out@.push(old_cur)) == covered(x, sorted@.take(k as int)));
                }
            }
        } else {
            let ghost old_out = out@;
            let ghost old_cur = cur;
            out.push(cur);
            cur = (s, e);
            proof {
                lemma_covered_push(out@, cur);
                assert(out@ == old_out.push(old_cur));
                assert forall|i: int| 0 <= i < out@.len() implies #[trigger] out@[i].1 < cur.0 by {
                    if i < old_out.len() {
                        assert(out@[i] == old_out[i]);
                    }
                }
                assert forall|i: int, j: int| 0 <= i < j < out@.len() implies #[trigger] out@[i].1 < #[trigger] out@[j].0 by {
                    if j < old_out.len() {
                        assert(out@[i] == old_out[i]);
                        assert(out@[j] == old_out[j]);
                    } else {
                        assert(out@[i] == old_out[i]);
                    }
                }
                assert forall|i: int| 0 <= i < out@.len() implies #[trigger] out@[i].0 < out@[i].1 by {
                    if i < old_out.len() {
                        assert(out@[i] == old_out[i]);
                    }
                }
                assert forall|j: int| k + 1 <= j < sorted@.len() implies cur.0 <= #[trigger] sorted@[j].0 by {
                    assert(sorted@[k as int].0 <= sorted@[j].0);
                }
            }
        }
        k = k + 1;
    }
    let ghost old_out = out@;
    out.push(cur);
    proof {
        assert(sorted@.take(sorted@.len() as int) =~= sorted@);
        assert forall|i: int, j: int| 0 <= i < j < out@.len() implies #[trigger] out@[i].1 < #[trigger] out@[j].0 by {
            assert(out@[i] == old_out[i]);
            if j < old_out.len() {
                assert(out@[j] == old_out[j]);
            }
        }
        assert forall|i: int| 0 <= i < out@.len() implies #[trigger] out@[i].0 < out@[i].1 by {
            if i < old_out.len() {
                assert(out@[i] == old_out[i]);
            }
        }
        assert forall|x: int| #[trigger] covered(x, out@) == covered(x, spans@) by {
            assert(covered(x, sorted@) == covered(x, spans@));
        }
    }
    out
}

proof fn lemma_kept_skip_covered(src: Seq<u8>, sp: Seq<(usize, usize)>, a: int, b: int, k: int)
    requires
        0 <= k < sp.len(),
        sp[k].0 <= a <= b <= sp[k].1,
        0 <= a,
    ensures
        kept_prefix(src, sp, b) == kept_prefix(src, sp, a),
    decreases b - a,
{
    if b > a {
        lemma_kept_skip_covered(src, sp, a, b - 1, k);
        assert(covered(b - 1, sp));
    }
}

proof fn lemma_kept_same_cover(src: Seq<u8>, a: Seq<(usize, usize)>, b: Seq<(usize, usize)>, n: int)
    requires
        same_cover(a, b),
    ensures
        kept_prefix(src, a, n) == kept_prefix(src, b, n),
    decreases n,
{
    if n > 0 {
        lemma_kept_same_cover(src, a, b, n - 1);
        assert(covered(n - 1, a) == covered(n - 1, b));
    }
}

/// Removes the bytes that the spans cover: the spans are merged, and the
/// bytes between them are copied in order. Spans may overlap, come in any
/// order and reach past the end.
pub fn remove_spans(src: &[u8], spans: &Vec<(usize, usize)>) -> (r: Vec<u8>)
    ensures
        r@ == kept(src@, spans@),
{
    let merged = merge_spans(spans);
    let ghost m = merged@;
    let n = src.len();
    let mut out: Vec<u8> = Vec::new();
    let mut last: usize = 0;
    let mut k: usize = 0;
    while k < merged.len()
        invariant
            k <= m.len(),
            m == merged@,
            n == src@.len(),
            separated(m),
            last <= n,
            out@ == kept_prefix(src@, m, last as int),
            k < m.len() ==> last <= m[k as int].0,
            forall|i: int| 0 <= i < k ==> #[trigger] m[i].1 <= last || last == n,
        decreases m.len() - k,
    {
        let (s, e) = merged[k];
        let stop = if s < n { s } else { n };
        let mut i: usize = last;
        while i < stop
            invariant
                last <= i <= stop,
                stop <= n,
                stop <= s,
                (s, e) == m[k as int],
                k < m.len(),
                m == merged@,
                n == src@.len(),
                separated(m),
                out@ == kept_prefix(src@, m, i as int),
                forall|j: int| 0 <= j < k ==> #[trigger] m[j].1 <= last || last == n,
            decreases stop - i,
        {
            proof {
                if covered(i as int, m) {
                    let j = choose|j: int| 0 <= j < m.len() && #[trigger] m[j].0 <= i && i < m[j].1;
                    if j < k {
                        assert(m[j].1 <= last || last == n);
                    } else if j > k {
                        assert(m[k as int].1 < m[j].0);
                        assert(m[k as int].0 < m[k as int].1);
                    }
                }
                assert(!covered(i as int, m));
                assert(kept_prefix(src@, m, i + 1) == kept_prefix(src@, m, i as int).push(src@[i as int]));
            }
            out.push(src[i]);
            i = i + 1;
        }
        let skip_to = if e < n { e } else { n };
        proof {
            if stop < skip_to {
                lemma_kept_skip_covered(src@, m, stop as int, skip_to as int, k as int);
            }
        }
        if stop < skip_to {
            last = skip_to;
        } else {
            last = stop;
        }
        proof {
            assert forall|j: int| 0 <= j < k + 1 implies #[trigger] m[j].1 <= last || last == n by {
                if j < k {
                    assert(m[j].1 < m[k as int].0);
                }
            }
            if k + 1 < m.len() {
                assert(m[k as int].1 < m[k + 1].0);
            }
        }
        k = k + 1;
    }
    let mut i: usize = last;
    while i < n
        invariant
            last <= i <= n,
            m == merged@,
            n == src@.len(),
            k == m.len(),
            out@ == kept_prefix(src@, m, i as int),
            forall|j: int| 0 <= j < m.len() ==> #[trigger] m[j].1 <= last || last == n,
        decreases n - i,
    {
        proof {
            if covered(i as int, m) {
                let j = choose|j: int| 0 <= j < m.len() && #[trigger] m[j].0 <= i && i < m[j].1;
                assert(m[j].1 <= last || last == n);
            }
            assert(!covered(i as int, m));
        }
        out.push(src[i]);
        i = i + 1;
    }
    proof {
        lemma_kept_same_cover(src@, m, spans@, n as int);
    }
    out
}

} // verus!
