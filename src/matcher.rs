use vstd::prelude::*;
use crate::brief::{Descriptor, DESC_BITS, DESC_WORDS, word_bit};
use vstd::arithmetic::div_mod::lemma_fundamental_div_mod_converse;

verus! {

/// Tunable acceptance rules of the matcher.
#[derive(Clone, Copy, Debug)]
pub struct MatchParams {
    /// A match whose distance exceeds this is rejected.
    pub max_distance: usize,
    /// Ratio test in percent: a match is rejected when
    /// `best * 100 > ratio_percent * second_best`; 100 or more never rejects.
    pub ratio_percent: usize,
}

/// A putative correspondence between a current descriptor and a keyframe one.
#[derive(Clone, Copy, Debug, PartialEq, Eq, Structural)]
pub struct Match {
    pub query: usize,
    pub reference: usize,
    pub distance: usize,
}

/// Number of positions below `n` where `a` and `b` differ.
pub open spec fn hamming(a: Seq<bool>, b: Seq<bool>, n: int) -> int
    decreases n,
{
    if n <= 0 { 0 } else { hamming(a, b, n - 1) + (if a[n - 1] != b[n - 1] { 1int } else { 0int }) }
}

/// Hamming distance between two descriptors.
pub open spec fn dist(a: Descriptor, b: Descriptor) -> int {
    hamming(a.bit_seq(), b.bit_seq(), DESC_BITS as int)
}

/// Index of the nearest valid descriptor among `refs[..n]`; the earliest
/// wins among equals.
pub open spec fn nearest_upto(q: Descriptor, refs: Seq<Descriptor>, n: int) -> Option<int>
    decreases n,
{
    if n <= 0 {
        None
    } else {
        let prev = nearest_upto(q, refs, n - 1);
        if refs[n - 1].valid && (prev is None || dist(q, refs[n - 1]) < dist(q, refs[prev->0])) {
            Some(n - 1)
        } else {
            prev
        }
    }
}

/// Smallest distance from `q` to a valid descriptor of `refs[..n]` other than `refs[skip]`.
pub open spec fn second_upto(q: Descriptor, refs: Seq<Descriptor>, skip: int, n: int) -> Option<int>
    decreases n,
{
    if n <= 0 {
        None
    } else {
        let prev = second_upto(q, refs, skip, n - 1);
        if refs[n - 1].valid && n - 1 != skip && (prev is None || dist(q, refs[n - 1]) < prev->0) {
            Some(dist(q, refs[n - 1]))
        } else {
            prev
        }
    }
}

/// Whether a best distance passes the acceptance rules given the second best.
pub open spec fn accepts(p: MatchParams, best: int, second: Option<int>) -> bool {
    &&& best <= p.max_distance
    &&& match second {
        Some(s) => best * 100 <= p.ratio_percent * s,
        None => true,
    }
}

/// The match of query `i` against `refs`, if it has one and it is accepted.
pub open spec fn match_for(queries: Seq<Descriptor>, refs: Seq<Descriptor>, p: MatchParams, i: int) -> Option<Match> {
    let q = queries[i];
    let best = nearest_upto(q, refs, refs.len() as int);
    if q.valid && best is Some {
        let j = best->0;
        let d = dist(q, refs[j]);
        if accepts(p, d, second_upto(q, refs, j, refs.len() as int)) {
            Some(Match { query: i as usize, reference: j as usize, distance: d as usize })
        } else {
            None
        }
    } else {
        None
    }
}

/// Accepted matches of the first `n` queries, in query order.
pub open spec fn accepted_upto(queries: Seq<Descriptor>, refs: Seq<Descriptor>, p: MatchParams, n: int) -> Seq<Match>
    decreases n,
{
    if n <= 0 {
        Seq::empty()
    } else {
        let prev = accepted_upto(queries, refs, p, n - 1);
        match match_for(queries, refs, p, n - 1) {
            Some(m) => prev.push(m),
            None => prev,
        }
    }
}

/// The entries of `ms` at distance `d`, in their order.
pub open spec fn at_distance(ms: Seq<Match>, d: int) -> Seq<Match>
    decreases ms.len(),
{
    if ms.len() == 0 {
        Seq::empty()
    } else {
        let prev = at_distance(ms.drop_last(), d);
        if ms.last().distance == d { prev.push(ms.last()) } else { prev }
    }
}

/// `ms` reordered by ascending distance below `d`, keeping the order of `ms` among equals.
pub open spec fn by_distance(ms: Seq<Match>, d: int) -> Seq<Match>
    decreases d,
{
    if d <= 0 { Seq::empty() } else { by_distance(ms, d - 1) + at_distance(ms, d - 1) }
}

/// The final match list: accepted matches by ascending distance, ties by
/// query index, cut at `max_matches`.
pub open spec fn match_list(queries: Seq<Descriptor>, refs: Seq<Descriptor>, p: MatchParams, max_matches: int) -> Seq<Match> {
    let all = by_distance(accepted_upto(queries, refs, p, queries.len() as int), DESC_BITS + 1);
    if all.len() <= max_matches { all } else { all.take(max_matches) }
}

pub proof fn lemma_hamming_bounds(a: Seq<bool>, b: Seq<bool>, n: int)
    requires
        n >= 0,
    ensures
        0 <= hamming(a, b, n) <= n,
    decreases n,
{
    if n > 0 {
        lemma_hamming_bounds(a, b, n - 1);
    }
}

pub proof fn lemma_second_bounds(q: Descriptor, refs: Seq<Descriptor>, skip: int, n: int)
    ensures
        second_upto(q, refs, skip, n) matches Some(v) ==> 0 <= v <= DESC_BITS,
    decreases n,
{
    if n > 0 {
        lemma_second_bounds(q, refs, skip, n - 1);
        lemma_hamming_bounds(q.bit_seq(), refs[n - 1].bit_seq(), DESC_BITS as int);
    }
}

proof fn lemma_xor_bit(a: u64, b: u64, j: u64)
    requires
        j < 64,
    ensures
        ((a ^ b) >> j) & 1 == 1 <==> (((a >> j) & 1 == 1) != ((b >> j) & 1 == 1)),
{
    assert(((a ^ b) >> j) & 1 == 1 <==> (((a >> j) & 1 == 1) != ((b >> j) & 1 == 1))) by (bit_vector)
        requires j < 64;
}

/// Hamming distance between two descriptors: the set bits of the XOR of
/// their words.
pub fn distance(a: &Descriptor, b: &Descriptor) -> (r: usize)
    requires
        a.wf(),
        b.wf(),
    ensures
        r as int == dist(*a, *b),
{
    let mut n: usize = 0;
    let mut w: usize = 0;
    while w < DESC_WORDS
        invariant
            a.wf(),
            b.wf(),
            w <= DESC_WORDS,
            n as int == hamming(a.bit_seq(), b.bit_seq(), 64 * w),
        decreases DESC_WORDS - w,
    {
        let x = a.words[w] ^ b.words[w];
        let mut j: usize = 0;
        while j < 64
            invariant
                a.wf(),
                b.wf(),
                w < DESC_WORDS,
                j <= 64,
                x == a.words@[w as int] ^ b.words@[w as int],
                n as int == hamming(a.bit_seq(), b.bit_seq(), 64 * w + j),
            decreases 64 - j,
        {
            proof {
                let i = 64 * w + j;
                lemma_hamming_bounds(a.bit_seq(), b.bit_seq(), i);
                lemma_fundamental_div_mod_converse(i, 64, w as int, j as int);
                lemma_xor_bit(a.words@[w as int], b.words@[w as int], j as u64);
                assert(a.bit_seq()[i] == word_bit(a.words@[w as int], j as int));
                assert(b.bit_seq()[i] == word_bit(b.words@[w as int], j as int));
            }
            if (x >> (j as u64)) & 1 == 1 {
                n = n + 1;
            }
            j = j + 1;
        }
        w = w + 1;
    }
    n
}

/// Nearest valid reference of `q` (earliest among equals) with its distance,
/// and the smallest distance to any other valid reference.
pub fn nearest(q: &Descriptor, refs: &Vec<Descriptor>) -> (r: Option<(usize, usize, Option<usize>)>)
    requires
        q.wf(),
        forall|k: int| 0 <= k < refs@.len() ==> (#[trigger] refs@[k]).wf(),
    ensures
        match r {
            None => nearest_upto(*q, refs@, refs@.len() as int) is None,
            Some((j, d, s)) => {
                &&& nearest_upto(*q, refs@, refs@.len() as int) == Some(j as int)
                &&& d as int == dist(*q, refs@[j as int])
                &&& match s {
                    None => second_upto(*q, refs@, j as int, refs@.len() as int) is None,
                    Some(e) => second_upto(*q, refs@, j as int, refs@.len() as int) == Some(e as int),
                }
            },
        },
{
    let mut best: Option<(usize, usize)> = None;
    let mut k: usize = 0;
    while k < refs.len()
        invariant
            q.wf(),
            forall|k: int| 0 <= k < refs@.len() ==> (#[trigger] refs@[k]).wf(),
            k <= refs@.len(),
            match best {
                None => nearest_upto(*q, refs@, k as int) is None,
                Some((j, d)) => nearest_upto(*q, refs@, k as int) == Some(j as int) && j < k
                    && d as int == dist(*q, refs@[j as int]),
            },
        decreases refs@.len() - k,
    {
        if refs[k].valid {
            let d = distance(q, &refs[k]);
            match best {
                None => { best = Some((k, d)); },
                Some((_, bd)) => {
                    if d < bd {
                        best = Some((k, d));
                    }
                },
            }
        }
        k = k + 1;
    }
    match best {
        None => None,
        Some((j, d)) => {
            let mut second: Option<usize> = None;
            let mut k: usize = 0;
            while k < refs.len()
                invariant
                    q.wf(),
                    forall|k: int| 0 <= k < refs@.len() ==> (#[trigger] refs@[k]).wf(),
                    k <= refs@.len(),
                    match second {
                        None => second_upto(*q, refs@, j as int, k as int) is None,
                        Some(e) => second_upto(*q, refs@, j as int, k as int) == Some(e as int),
                    },
                decreases refs@.len() - k,
            {
                if refs[k].valid && k != j {
                    let e = distance(q, &refs[k]);
                    match second {
                        None => { second = Some(e); },
                        Some(s) => {
                            if e < s {
                                second = Some(e);
                            }
                        },
                    }
                }
                k = k + 1;
            }
            Some((j, d, second))
        },
    }
}

/// The match of query `i` under the acceptance rules, if any.
pub fn match_query(queries: &Vec<Descriptor>, refs: &Vec<Descriptor>, p: MatchParams, i: usize) -> (r: Option<Match>)
    requires
        i < queries@.len(),
        forall|k: int| 0 <= k < queries@.len() ==> (#[trigger] queries@[k]).wf(),
        forall|k: int| 0 <= k < refs@.len() ==> (#[trigger] refs@[k]).wf(),
    ensures
        r == match_for(queries@, refs@, p, i as int),
{
    if !queries[i].valid {
        return None;
    }
    match nearest(&queries[i], refs) {
        None => None,
        Some((j, d, second)) => {
            proof { lemma_hamming_bounds(queries@[i as int].bit_seq(), refs@[j as int].bit_seq(), DESC_BITS as int); }
            let ok = d <= p.max_distance && match second {
                None => true,
                Some(e) => {
                    proof {
                        lemma_second_bounds(queries@[i as int], refs@, j as int, refs@.len() as int);
                        let rp = p.ratio_percent as int;
                        assert(rp * e <= 0xffff_ffff_ffff_ffff * 256) by (nonlinear_arith)
                            requires 0 <= rp <= 0xffff_ffff_ffff_ffff, 0 <= e <= 256;
                    }
                    (d as u128) * 100 <= (p.ratio_percent as u128) * (e as u128)
                },
            };
            if ok {
                Some(Match { query: i, reference: j, distance: d })
            } else {
                None
            }
        },
    }
}

/// Brute-force matching of the current descriptors against the keyframe's:
/// accepted matches by ascending distance, ties by query index, at most
/// `max_matches` of them.
pub fn match_frame(queries: &Vec<Descriptor>, refs: &Vec<Descriptor>, p: MatchParams, max_matches: usize) -> (r: Vec<Match>)
    requires
        forall|k: int| 0 <= k < queries@.len() ==> (#[trigger] queries@[k]).wf(),
        forall|k: int| 0 <= k < refs@.len() ==> (#[trigger] refs@[k]).wf(),
    ensures
        r@ == match_list(queries@, refs@, p, max_matches as int),
{
    let mut acc: Vec<Match> = Vec::new();
    let mut i: usize = 0;
    while i < queries.len()
        invariant
            forall|k: int| 0 <= k < queries@.len() ==> (#[trigger] queries@[k]).wf(),
            forall|k: int| 0 <= k < refs@.len() ==> (#[trigger] refs@[k]).wf(),
            i <= queries@.len(),
            acc@ == accepted_upto(queries@, refs@, p, i as int),
        decreases queries@.len() - i,
    {
        match match_query(queries, refs, p, i) {
            Some(m) => { acc.push(m); },
            None => {},
        }
        i = i + 1;
    }
    let mut out: Vec<Match> = Vec::new();
    let mut d: usize = 0;
    while d <= DESC_BITS
        invariant
            d <= DESC_BITS + 1,
            out@ == by_distance(acc@, d as int),
        decreases DESC_BITS + 1 - d,
    {
        let mut k: usize = 0;
        while k < acc.len()
            invariant
                d <= DESC_BITS,
                k <= acc@.len(),
                out@ == by_distance(acc@, d as int) + at_distance(acc@.take(k as int), d as int),
            decreases acc@.len() - k,
        {
            proof {
                assert(acc@.take(k + 1).drop_last() =~= acc@.take(k as int));
                assert(acc@.take(k + 1).last() == acc@[k as int]);
            }
            if acc[k].distance == d {
                out.push(acc[k]);
                proof {
                    assert(out@ =~= by_distance(acc@, d as int) + at_distance(acc@.take(k + 1), d as int));
                }
            }
            k = k + 1;
        }
        proof {
            assert(acc@.take(acc@.len() as int) =~= acc@);
        }
        d = d + 1;
    }
    out.truncate(max_matches);
    out
}

pub proof fn lemma_hamming_self(a: Seq<bool>, n: int)
    ensures
        hamming(a, a, n) == 0,
    decreases n,
{
    if n > 0 {
        lemma_hamming_self(a, n - 1);
    }
}

pub proof fn lemma_hamming_zero_equal(a: Seq<bool>, b: Seq<bool>, n: int)
    requires
        0 <= n <= a.len(),
        n <= b.len(),
        hamming(a, b, n) == 0,
    ensures
        forall|i: int| 0 <= i < n ==> a[i] == b[i],
    decreases n,
{
    if n > 0 {
        lemma_hamming_bounds(a, b, n - 1);
        lemma_hamming_zero_equal(a, b, n - 1);
    }
}

/// Valid descriptors of `ds` are pairwise different.
pub open spec fn valid_distinct(ds: Seq<Descriptor>) -> bool {
    forall|i: int, j: int| 0 <= i < ds.len() && 0 <= j < ds.len() && i != j && ds[i].valid && ds[j].valid
        ==> (#[trigger] ds[i]).bit_seq() != (#[trigger] ds[j]).bit_seq()
}

proof fn lemma_self_nearest(ds: Seq<Descriptor>, i: int, n: int)
    requires
        forall|k: int| 0 <= k < ds.len() ==> (#[trigger] ds[k]).wf(),
        valid_distinct(ds),
        0 <= i < ds.len(),
        ds[i].valid,
        0 <= n <= ds.len(),
    ensures
        n <= i ==> (nearest_upto(ds[i], ds, n) matches Some(j) ==> j != i && dist(ds[i], ds[j]) > 0),
        n > i ==> nearest_upto(ds[i], ds, n) == Some(i),
    decreases n,
{
    if n > 0 {
        lemma_self_nearest(ds, i, n - 1);
        lemma_hamming_self(ds[i].bit_seq(), DESC_BITS as int);
        let m = n - 1;
        lemma_hamming_bounds(ds[i].bit_seq(), ds[m].bit_seq(), DESC_BITS as int);
        if m != i && ds[m].valid && dist(ds[i], ds[m]) == 0 {
            lemma_hamming_zero_equal(ds[i].bit_seq(), ds[m].bit_seq(), DESC_BITS as int);
            assert(ds[i].bit_seq() =~= ds[m].bit_seq());
        }
    }
}

/// Matching a descriptor set against itself: when its valid descriptors
/// are pairwise different, every valid query's nearest reference is itself,
/// at distance zero, and that match is accepted.
pub proof fn lemma_self_match(ds: Seq<Descriptor>, p: MatchParams, i: int)
    requires
        forall|k: int| 0 <= k < ds.len() ==> (#[trigger] ds[k]).wf(),
        valid_distinct(ds),
        0 <= i < ds.len(),
        ds[i].valid,
    ensures
        nearest_upto(ds[i], ds, ds.len() as int) == Some(i),
        dist(ds[i], ds[i]) == 0,
        match_for(ds, ds, p, i) == Some(Match { query: i as usize, reference: i as usize, distance: 0 }),
{
    lemma_self_nearest(ds, i, ds.len() as int);
    lemma_hamming_self(ds[i].bit_seq(), DESC_BITS as int);
    lemma_second_bounds(ds[i], ds, i, ds.len() as int);
}

} // verus!
