//! Runtime frontiers: the minimal antichain of timestamps with positive
//! occupancy, maintained incrementally under signed-delta updates.
//!
//! A `MutableAntichain` owns a mapping from timestamp to occupancy count and
//! the antichain of minimal occupied timestamps derived from it.  Every
//! update reports the resulting frontier changes (and only those) into a
//! caller-supplied delta ledger, so downstream trackers learn about
//! antichain retreats and advances rather than raw occupancy.

use vstd::prelude::*;
use crate::timestamp::Product;
use crate::change_batch::{ChangeBatch, net_of, lemma_net_concat, lemma_net_push};

verus! {

broadcast use vstd::seq_lib::group_seq_properties;

/// No two entries of an occupancy table share a timestamp.
pub open spec fn distinct_keys(s: Seq<(Product, i64)>) -> bool {
    forall|i: int, j: int| 0 <= i < j < s.len() ==> s[i].0 != s[j].0
}

/// The elements of `s` are pairwise incomparable.
pub open spec fn pairwise_incomparable(s: Seq<Product>) -> bool {
    forall|x: Product, y: Product|
        s.contains(x) && s.contains(y) && x != y ==> !x.le_spec(y)
}

/// 1 when `s` contains `x`, else 0: the occupancy a frontier itself
/// contributes to a downstream tracker.
pub open spec fn frontier_ind(s: Seq<Product>, x: Product) -> int {
    if s.contains(x) {
        1
    } else {
        0
    }
}

/// With distinct keys, the net count at an entry's timestamp is exactly that
/// entry's count.
pub proof fn lemma_net_lookup(s: Seq<(Product, i64)>, i: int)
    requires
        distinct_keys(s),
        0 <= i < s.len(),
    ensures
        net_of(s, s[i].0) == s[i].1 as int,
    decreases s.len(),
{
    if i == s.len() - 1 {
        lemma_net_absent(s.drop_last(), s[i].0);
    } else {
        lemma_net_lookup(s.drop_last(), i);
    }
}

/// A timestamp under no entry's key has net count zero.
pub proof fn lemma_net_absent(s: Seq<(Product, i64)>, t: Product)
    requires
        forall|i: int| 0 <= i < s.len() ==> s[i].0 != t,
    ensures
        net_of(s, t) == 0,
    decreases s.len(),
{
    if s.len() > 0 {
        lemma_net_absent(s.drop_last(), t);
    }
}

/// The elements among the first `n` of `f0` that `t` does not supersede,
/// in order: what the retain pass of `insert_elem` keeps.
spec fn kept_of(f0: Seq<Product>, n: int, t: Product) -> Seq<Product>
    decreases n,
{
    if n <= 0 {
        Seq::empty()
    } else if !t.le_spec(f0[n - 1]) {
        kept_of(f0, n - 1, t).push(f0[n - 1])
    } else {
        kept_of(f0, n - 1, t)
    }
}

/// The retirement entries the retain pass appends to the ledger: one
/// decrement for each of the first `n` elements of `f0` that `t` supersedes.
spec fn retired(f0: Seq<Product>, n: int, t: Product) -> Seq<(Product, i64)>
    decreases n,
{
    if n <= 0 {
        Seq::empty()
    } else if t.le_spec(f0[n - 1]) {
        retired(f0, n - 1, t).push((f0[n - 1], -1i64))
    } else {
        retired(f0, n - 1, t)
    }
}

/// What the retain pass keeps: exactly the prefix elements not superseded by
/// `t`, without duplicates.
proof fn lemma_kept_of_props(f0: Seq<Product>, n: int, t: Product)
    requires
        f0.no_duplicates(),
        0 <= n <= f0.len(),
    ensures
        kept_of(f0, n, t).no_duplicates(),
        forall|x: Product|
            #[trigger] kept_of(f0, n, t).contains(x) <==> (f0.take(n).contains(x)
                && !t.le_spec(x)),
    decreases n,
{
    if n <= 0 {
        assert(f0.take(n) =~= Seq::<Product>::empty());
    } else {
        lemma_kept_of_props(f0, n - 1, t);
        let e = f0[n - 1];
        assert(f0.take(n) =~= f0.take(n - 1).push(e));
        if !t.le_spec(e) {
            assert(!f0.take(n - 1).contains(e)) by {
                if f0.take(n - 1).contains(e) {
                    let k = choose|k: int| 0 <= k < n - 1 && (#[trigger] f0.take(n - 1)[k]) == e;
                    assert(f0[k] == f0[n - 1] && k != n - 1);
                }
            }
            lemma_push_no_dup(kept_of(f0, n - 1, t), e);
            assert forall|x: Product|
                #[trigger] kept_of(f0, n, t).contains(x) <==> (f0.take(n).contains(x)
                    && !t.le_spec(x)) by {
                assert(kept_of(f0, n, t) == kept_of(f0, n - 1, t).push(e));
                assert(kept_of(f0, n - 1, t).push(e).contains(x) <==> kept_of(
                    f0,
                    n - 1,
                    t,
                ).contains(x) || x == e);
                assert(f0.take(n).contains(x) <==> f0.take(n - 1).contains(x) || x == e);
            }
        } else {
            assert forall|x: Product|
                #[trigger] kept_of(f0, n, t).contains(x) <==> (f0.take(n).contains(x)
                    && !t.le_spec(x)) by {
                assert(kept_of(f0, n, t) == kept_of(f0, n - 1, t));
                assert(f0.take(n).contains(x) <==> f0.take(n - 1).contains(x) || x == e);
            }
        }
    }
}

/// Net effect of the retirement entries at any timestamp: minus one exactly
/// on the superseded prefix elements.
proof fn lemma_retired_net(f0: Seq<Product>, n: int, t: Product, x: Product)
    requires
        f0.no_duplicates(),
        0 <= n <= f0.len(),
    ensures
        net_of(retired(f0, n, t), x) == if f0.take(n).contains(x) && t.le_spec(x) {
            -1int
        } else {
            0int
        },
    decreases n,
{
    if n <= 0 {
        assert(f0.take(n) =~= Seq::<Product>::empty());
    } else {
        lemma_retired_net(f0, n - 1, t, x);
        let e = f0[n - 1];
        assert(f0.take(n) =~= f0.take(n - 1).push(e));
        assert(f0.take(n).contains(x) <==> f0.take(n - 1).contains(x) || x == e);
        if t.le_spec(e) {
            assert(retired(f0, n, t) == retired(f0, n - 1, t).push((e, -1i64)));
            lemma_net_push(retired(f0, n - 1, t), (e, -1i64), x);
            if x == e {
                assert(!f0.take(n - 1).contains(e)) by {
                    if f0.take(n - 1).contains(e) {
                        let k = choose|k: int| 0 <= k < n - 1 && (#[trigger] f0.take(n - 1)[k]) == e;
                        assert(f0[k] == f0[n - 1] && k != n - 1);
                    }
                }
            }
        } else {
            assert(retired(f0, n, t) == retired(f0, n - 1, t));
            if x == e {
                assert(!t.le_spec(x));
            }
        }
    }
}

/// Net shift of one timestamp between two entry sequences.
spec fn net_shift(post: Seq<(Product, i64)>, pre: Seq<(Product, i64)>, t: Product, d: int) -> bool {
    forall|x: Product|
        #[trigger] net_of(post, x) == net_of(pre, x) + (if x == t {
            d
        } else {
            0int
        })
}

/// No entry of `s` carries the key `t`.
spec fn no_key(s: Seq<(Product, i64)>, t: Product) -> bool {
    forall|k: int| 0 <= k < s.len() ==> (#[trigger] s[k]).0 != t
}

/// Every entry of `s` carries a nonzero count.
spec fn all_nonzero(s: Seq<(Product, i64)>) -> bool {
    forall|k: int| 0 <= k < s.len() ==> (#[trigger] s[k]).1 != 0i64
}

/// Every element of `nf` is the key of a positively counted entry of `occ`.
spec fn drawn_from(nf: Seq<Product>, occ: Seq<(Product, i64)>) -> bool {
    forall|x: Product|
        #[trigger] nf.contains(x) ==> exists|k: int|
            0 <= k < occ.len() && occ[k].0 == x && occ[k].1 > 0i64
}

/// Every positively counted entry among the first `m` of `occ` has an
/// element of `nf` at or below its key.
spec fn covers(nf: Seq<Product>, occ: Seq<(Product, i64)>, m: int) -> bool {
    forall|k: int|
        0 <= k < m && (#[trigger] occ[k]).1 > 0i64 ==> exists|f: Product|
            #[trigger] nf.contains(f) && f.le_spec(occ[k].0)
}

/// The ledger entries relate two frontiers: each net count moves by the
/// difference of the frontiers' indicators.
spec fn frontier_delta(
    lpost: Seq<(Product, i64)>,
    lpre: Seq<(Product, i64)>,
    fpost: Seq<Product>,
    fpre: Seq<Product>,
) -> bool {
    forall|x: Product|
        #[trigger] net_of(lpost, x) == net_of(lpre, x) + frontier_ind(fpost, x) - frontier_ind(
            fpre,
            x,
        )
}

/// Removing one entry shifts the net only at that entry's key.
proof fn lemma_net_remove(s: Seq<(Product, i64)>, i: int, x: Product)
    requires
        0 <= i < s.len(),
    ensures
        net_of(s.remove(i), x) == net_of(s, x) - (if s[i].0 == x {
            s[i].1 as int
        } else {
            0int
        }),
{
    let a = s.subrange(0, i);
    let mid = seq![s[i]];
    let b = s.subrange(i + 1, s.len() as int);
    assert(s.remove(i) == a + b);
    assert(s =~= a + (mid + b));
    lemma_net_concat(a, b, x);
    lemma_net_concat(a, mid + b, x);
    lemma_net_concat(mid, b, x);
    assert(mid.drop_last() =~= Seq::<(Product, i64)>::empty());
    assert(net_of(Seq::<(Product, i64)>::empty(), x) == 0);
    assert(net_of(mid, x) == if s[i].0 == x {
        s[i].1 as int
    } else {
        0int
    });
}

/// The retirement entries the frontier-difference pass appends: one
/// decrement for each of the first `n` old-frontier elements that the new
/// frontier no longer holds.
spec fn removals(fold: Seq<Product>, fnew: Seq<Product>, n: int) -> Seq<(Product, i64)>
    decreases n,
{
    if n <= 0 {
        Seq::empty()
    } else if !fnew.contains(fold[n - 1]) {
        removals(fold, fnew, n - 1).push((fold[n - 1], -1i64))
    } else {
        removals(fold, fnew, n - 1)
    }
}

/// The arrival entries of the frontier-difference pass: one increment for
/// each of the first `n` new-frontier elements the old frontier lacked.
spec fn additions(fnew: Seq<Product>, fold: Seq<Product>, n: int) -> Seq<(Product, i64)>
    decreases n,
{
    if n <= 0 {
        Seq::empty()
    } else if !fold.contains(fnew[n - 1]) {
        additions(fnew, fold, n - 1).push((fnew[n - 1], 1i64))
    } else {
        additions(fnew, fold, n - 1)
    }
}

/// Net effect of the retirement entries of the frontier-difference pass.
proof fn lemma_removals_net(fold: Seq<Product>, fnew: Seq<Product>, n: int, x: Product)
    requires
        fold.no_duplicates(),
        0 <= n <= fold.len(),
    ensures
        net_of(removals(fold, fnew, n), x) == if fold.take(n).contains(x) && !fnew.contains(x) {
            -1int
        } else {
            0int
        },
    decreases n,
{
    if n <= 0 {
        assert(fold.take(n) =~= Seq::<Product>::empty());
    } else {
        lemma_removals_net(fold, fnew, n - 1, x);
        let e = fold[n - 1];
        assert(fold.take(n) =~= fold.take(n - 1).push(e));
        assert(fold.take(n).contains(x) <==> fold.take(n - 1).contains(x) || x == e);
        if !fnew.contains(e) {
            lemma_net_push(removals(fold, fnew, n - 1), (e, -1i64), x);
            if x == e {
                assert(!fold.take(n - 1).contains(e)) by {
                    if fold.take(n - 1).contains(e) {
                        let k = choose|k: int|
                            0 <= k < n - 1 && (#[trigger] fold.take(n - 1)[k]) == e;
                        assert(fold[k] == fold[n - 1] && k != n - 1);
                    }
                }
            }
        } else {
            if x == e {
                assert(fnew.contains(x));
            }
        }
    }
}

/// Net effect of the arrival entries of the frontier-difference pass.
proof fn lemma_additions_net(fnew: Seq<Product>, fold: Seq<Product>, n: int, x: Product)
    requires
        fnew.no_duplicates(),
        0 <= n <= fnew.len(),
    ensures
        net_of(additions(fnew, fold, n), x) == if fnew.take(n).contains(x) && !fold.contains(x) {
            1int
        } else {
            0int
        },
    decreases n,
{
    if n <= 0 {
        assert(fnew.take(n) =~= Seq::<Product>::empty());
    } else {
        lemma_additions_net(fnew, fold, n - 1, x);
        let e = fnew[n - 1];
        assert(fnew.take(n) =~= fnew.take(n - 1).push(e));
        assert(fnew.take(n).contains(x) <==> fnew.take(n - 1).contains(x) || x == e);
        if !fold.contains(e) {
            lemma_net_push(additions(fnew, fold, n - 1), (e, 1i64), x);
            if x == e {
                assert(!fnew.take(n - 1).contains(e)) by {
                    if fnew.take(n - 1).contains(e) {
                        let k = choose|k: int|
                            0 <= k < n - 1 && (#[trigger] fnew.take(n - 1)[k]) == e;
                        assert(fnew[k] == fnew[n - 1] && k != n - 1);
                    }
                }
            }
        } else {
            if x == e {
                assert(fold.contains(x));
            }
        }
    }
}

/// Pushing a fresh element keeps a sequence duplicate-free.
proof fn lemma_push_no_dup(s: Seq<Product>, e: Product)
    requires
        s.no_duplicates(),
        !s.contains(e),
    ensures
        s.push(e).no_duplicates(),
{
    assert forall|i: int, j: int|
        0 <= i < j < s.push(e).len() implies s.push(e)[i] != s.push(e)[j] by {
        if j == s.len() {
            if s[i] == e {
                assert(s.contains(e));
            }
        }
    }
}

/// Whether `v` holds an element equal to `x`.
fn vec_contains(v: &Vec<Product>, x: &Product) -> (r: bool)
    ensures
        r == v@.contains(*x),
{
    let mut i: usize = 0;
    let mut found: bool = false;
    while i < v.len()
        invariant
            i <= v@.len(),
            found <==> exists|k: int| 0 <= k < i && v@[k] == *x,
        decreases v@.len() - i,
    {
        if v[i].outer == x.outer && v[i].inner == x.inner {
            found = true;
            assert(v@[i as int] == *x);
        }
        i += 1;
    }
    found
}

/// Inserts `t` into an antichain, unless an element at or below `t` already
/// stands there.  Elements that `t` supersedes leave; every frontier change
/// is reported into `ledger` as a signed delta.
#[verifier::loop_isolation(false)]
fn insert_elem(frontier: &mut Vec<Product>, t: Product, ledger: &mut ChangeBatch) -> (ins: bool)
    requires
        old(frontier)@.no_duplicates(),
        pairwise_incomparable(old(frontier)@),
    ensures
        final(frontier)@.no_duplicates(),
        pairwise_incomparable(final(frontier)@),
        ins == !(exists|x: Product| #[trigger] old(frontier)@.contains(x) && x.le_spec(t)),
        !ins ==> final(frontier)@ == old(frontier)@ && final(ledger)@ == old(ledger)@,
        ins ==> (forall|x: Product|
            #![trigger final(frontier)@.contains(x)]
            #![trigger old(frontier)@.contains(x)]
            final(frontier)@.contains(x) <==> (old(frontier)@.contains(x) && !t.le_spec(x)) || x
                == t),
        forall|x: Product|
            #![trigger final(ledger).net(x)]
            #![trigger old(ledger).net(x)]
            final(ledger).net(x) == old(ledger).net(x) + frontier_ind(final(frontier)@, x)
                - frontier_ind(old(frontier)@, x),
{
    let ghost f0 = frontier@;
    let ghost l0 = ledger@;
    let mut i: usize = 0;
    while i < frontier.len()
        invariant
            i <= f0.len(),
            frontier@ == f0,
            ledger@ == l0,
            forall|k: int| 0 <= k < i ==> !(#[trigger] f0[k]).le_spec(t),
        decreases f0.len() - i,
    {
        if frontier[i].less_equal(&t) {
            assert(f0.contains(f0[i as int]));
            return false;
        }
        i += 1;
    }
    assert forall|x: Product| f0.contains(x) implies !x.le_spec(t) by {
        let k = choose|k: int| 0 <= k < f0.len() && f0[k] == x;
        assert(!f0[k].le_spec(t));
    }
    let mut kept: Vec<Product> = Vec::new();
    let mut j: usize = 0;
    while j < frontier.len()
        invariant
            j <= f0.len(),
            frontier@ == f0,
            kept@ == kept_of(f0, j as int, t),
            ledger@ == l0 + retired(f0, j as int, t),
        decreases f0.len() - j,
    {
        let ghost jj = j as int;
        let e = frontier[j];
        let advanced = t.less_equal(&e);
        if advanced {
            ledger.update(e, -1);
        } else {
            kept.push(e);
        }
        j += 1;
        proof {
            assert(j as int == jj + 1);
            assert(f0[j as int - 1] == e);
            if advanced {
                assert(retired(f0, j as int, t) == retired(f0, jj, t).push((e, -1i64)));
                assert(ledger@ == (l0 + retired(f0, jj, t)).push((e, -1i64)));
                assert((l0 + retired(f0, jj, t)).push((e, -1i64)) =~= l0 + retired(
                    f0,
                    jj,
                    t,
                ).push((e, -1i64)));
                assert(kept_of(f0, j as int, t) == kept_of(f0, jj, t));
            } else {
                assert(retired(f0, j as int, t) == retired(f0, jj, t));
                assert(kept_of(f0, j as int, t) == kept_of(f0, jj, t).push(e));
            }
        }
    }
    proof {
        assert(f0.take(f0.len() as int) =~= f0);
        lemma_kept_of_props(f0, f0.len() as int, t);
    }
    let ghost kv = kept@;
    proof {
        assert forall|x: Product| kv.contains(x) <==> (f0.contains(x) && !t.le_spec(x)) by {
            assert(f0.take(f0.len() as int).contains(x) == f0.contains(x));
        }
        assert(!kv.contains(t));
    }
    kept.push(t);
    let ghost lpre2 = ledger@;
    ledger.update(t, 1);
    proof {
        assert(!f0.contains(t)) by {
            if f0.contains(t) {
                assert(!t.le_spec(t));
            }
        }
        assert(kept@ == kv.push(t));
        assert forall|x: Product|
            net_of(ledger@, x) == net_of(l0, x) + frontier_ind(kept@, x) - frontier_ind(f0, x) by {
            lemma_net_push(lpre2, (t, 1i64), x);
            lemma_net_concat(l0, retired(f0, f0.len() as int, t), x);
            lemma_retired_net(f0, f0.len() as int, t, x);
            assert(f0.take(f0.len() as int).contains(x) == f0.contains(x));
            assert(kv.push(t).contains(x) <==> kv.contains(x) || x == t);
            assert(kv.contains(x) <==> (f0.contains(x) && !t.le_spec(x)));
        }
        assert forall|x: Product, y: Product|
            kept@.contains(x) && kept@.contains(y) && x != y implies !x.le_spec(y) by {
            assert(kv.push(t).contains(x) && kv.push(t).contains(y));
            if x != t && y != t {
                assert(kv.contains(x) && kv.contains(y));
                assert(f0.contains(x) && f0.contains(y));
            } else if x == t {
                assert(kv.contains(y) && !t.le_spec(y));
            } else {
                assert(kv.contains(x) && f0.contains(x) && !x.le_spec(t));
            }
        }
        lemma_push_no_dup(kv, t);
    }
    *frontier = kept;
    true
}

/// Maintains the minimal antichain of timestamps with positive occupancy.
pub struct MutableAntichain {
    /// Timestamps with nonzero occupancy and their counts; keys distinct.
    occupancy: Vec<(Product, i64)>,
    /// The minimal elements of the occupied timestamps.
    frontier: Vec<Product>,
}

impl MutableAntichain {
    /// Occupancy count of `t`: the sum of all deltas applied to it so far.
    pub closed spec fn occ(self, t: Product) -> int {
        net_of(self.occupancy@, t)
    }

    /// Whether `t` stands in the maintained frontier.
    pub closed spec fn in_frontier(self, t: Product) -> bool {
        self.frontier@.contains(t)
    }

    /// `t` is occupied and no other occupied timestamp precedes it.
    pub open spec fn is_minimal(self, t: Product) -> bool {
        self.occ(t) > 0 && forall|s: Product| self.occ(s) > 0 && s.le_spec(t) ==> s == t
    }

    /// Internal invariant: the occupancy table has distinct keys and no zero
    /// counts, and the frontier is an antichain that covers exactly the
    /// occupied timestamps from below.
    pub closed spec fn wf(self) -> bool {
        &&& distinct_keys(self.occupancy@)
        &&& (forall|i: int| 0 <= i < self.occupancy@.len() ==> self.occupancy@[i].1 != 0i64)
        &&& self.frontier@.no_duplicates()
        &&& pairwise_incomparable(self.frontier@)
        &&& (forall|x: Product| self.frontier@.contains(x) ==> self.occ(x) > 0)
        &&& (forall|s: Product|
            self.occ(s) > 0 ==> exists|f: Product| #[trigger] self.frontier@.contains(f) && f.le_spec(s))
    }

    /// Constructs a frontier already holding exactly `{t0}` with occupancy
    /// one: the starting condition of every hold-based source of data.
    pub fn new_bottom(t0: Product) -> (r: MutableAntichain)
        ensures
            r.wf(),
            forall|x: Product| r.occ(x) == if x == t0 { 1int } else { 0int },
            forall|x: Product| r.in_frontier(x) <==> x == t0,
    {
        let mut occupancy: Vec<(Product, i64)> = Vec::new();
        occupancy.push((t0, 1));
        let mut frontier: Vec<Product> = Vec::new();
        frontier.push(t0);
        let r = MutableAntichain { occupancy, frontier };
        proof {
            assert forall|x: Product| r.occ(x) == if x == t0 { 1int } else { 0int } by {
                lemma_net_push(Seq::<(Product, i64)>::empty(), (t0, 1i64), x);
            }
            assert(r.frontier@ =~= seq![t0]);
            assert(forall|x: Product| r.frontier@.contains(x) ==> x == t0);
            assert(r.frontier@.contains(t0));
        }
        r
    }

    /// Applies a signed occupancy change of `delta` at `t`, maintains the
    /// minimal antichain incrementally, and appends exactly the resulting
    /// frontier changes (one signed delta per element entering or leaving
    /// the antichain) to `ledger`, so a downstream tracker learns only
    /// about frontier movement, never about raw occupancy.
    #[verifier::rlimit(80)]
    pub fn update_weight(&mut self, t: &Product, delta: i64, ledger: &mut ChangeBatch)
        requires
            old(self).wf(),
            i64::MIN <= old(self).occ(*t) + delta <= i64::MAX,
        ensures
            final(self).wf(),
            forall|x: Product|
                final(self).occ(x) == old(self).occ(x) + (if x == *t {
                    delta as int
                } else {
                    0int
                }),
            forall|x: Product|
                final(ledger).net(x) == old(ledger).net(x) + (if final(self).in_frontier(x) {
                    1int
                } else {
                    0int
                }) - (if old(self).in_frontier(x) {
                    1int
                } else {
                    0int
                }),
    {
        let tv = *t;
        let ghost opre = self.occupancy@;
        let ghost fpre = self.frontier@;
        let ghost lpre = ledger@;
        let mut i: usize = 0;
        let mut idx: usize = 0;
        let mut found = false;
        while i < self.occupancy.len()
            invariant
                i <= opre.len(),
                self.occupancy@ == opre,
                self.frontier@ == fpre,
                ledger@ == lpre,
                found ==> idx < i && opre[idx as int].0 == tv,
                !found ==> (forall|k: int| 0 <= k < i ==> (#[trigger] opre[k]).0 != tv),
            decreases opre.len() - i,
        {
            if !found && self.occupancy[i].0 == tv {
                found = true;
                idx = i;
            }
            i += 1;
        }
        let old_count: i64;
        if found {
            old_count = self.occupancy[idx].1;
            proof {
                lemma_net_lookup(opre, idx as int);
            }
            self.occupancy.remove(idx);
            proof {
                assert(net_of(opre, tv) == old_count as int);
                assert(net_shift(self.occupancy@, opre, tv, -(old_count as int))) by {
                    assert forall|x: Product|
                        net_of(self.occupancy@, x) == net_of(opre, x) + (if x == tv {
                            -(old_count as int)
                        } else {
                            0int
                        }) by {
                        lemma_net_remove(opre, idx as int, x);
                    }
                }
                opre.remove_ensures(idx as int);
                assert(no_key(self.occupancy@, tv)) by {
                    assert forall|k: int|
                        0 <= k < self.occupancy@.len() implies (#[trigger] self.occupancy@[k]).0
                        != tv by {
                        if k < idx {
                            assert(self.occupancy@[k] == opre[k]);
                        } else {
                            assert(self.occupancy@[k] == opre[k + 1]);
                        }
                    }
                }
                assert(distinct_keys(self.occupancy@)) by {
                    assert forall|a: int, b: int|
                        0 <= a < b < self.occupancy@.len() implies (
                        #[trigger] self.occupancy@[a]).0 != (#[trigger] self.occupancy@[b]).0 by {
                        let a2: int = if a < idx {
                            a
                        } else {
                            a + 1
                        };
                        let b2: int = if b < idx {
                            b
                        } else {
                            b + 1
                        };
                        assert(self.occupancy@[a] == opre[a2] && self.occupancy@[b] == opre[b2]);
                    }
                }
                assert(all_nonzero(self.occupancy@)) by {
                    assert forall|k: int|
                        0 <= k < self.occupancy@.len() implies (#[trigger] self.occupancy@[k]).1
                        != 0i64 by {
                        if k < idx {
                            assert(self.occupancy@[k] == opre[k]);
                        } else {
                            assert(self.occupancy@[k] == opre[k + 1]);
                        }
                    }
                }
            }
        } else {
            old_count = 0;
            proof {
                lemma_net_absent(opre, tv);
                assert(net_of(opre, tv) == old_count as int);
                assert(net_shift(self.occupancy@, opre, tv, -(old_count as int)));
                assert(no_key(self.occupancy@, tv));
                assert(distinct_keys(self.occupancy@));
                assert(all_nonzero(self.occupancy@));
            }
        }
        let new_count: i64 = old_count + delta;
        let ghost omid = self.occupancy@;
        if new_count != 0 {
            self.occupancy.push((tv, new_count));
            proof {
                assert(net_shift(self.occupancy@, omid, tv, new_count as int)) by {
                    assert forall|x: Product|
                        net_of(self.occupancy@, x) == net_of(omid, x) + (if x == tv {
                            new_count as int
                        } else {
                            0int
                        }) by {
                        lemma_net_push(omid, (tv, new_count), x);
                    }
                }
                assert(distinct_keys(self.occupancy@)) by {
                    assert forall|a: int, b: int|
                        0 <= a < b < self.occupancy@.len() implies (
                        #[trigger] self.occupancy@[a]).0 != (#[trigger] self.occupancy@[b]).0 by {
                        if b == omid.len() {
                            assert(self.occupancy@[a] == omid[a]);
                            assert(omid[a].0 != tv);
                        } else {
                            assert(self.occupancy@[a] == omid[a] && self.occupancy@[b] == omid[b]);
                        }
                    }
                }
                assert(all_nonzero(self.occupancy@)) by {
                    assert forall|k: int|
                        0 <= k < self.occupancy@.len() implies (#[trigger] self.occupancy@[k]).1
                        != 0i64 by {
                        if k < omid.len() {
                            assert(self.occupancy@[k] == omid[k]);
                        }
                    }
                }
            }
        } else {
            proof {
                assert(net_shift(self.occupancy@, omid, tv, new_count as int));
            }
        }
        proof {
            assert(net_shift(self.occupancy@, omid, tv, new_count as int));
            assert(net_shift(omid, opre, tv, -(old_count as int)));
            assert(distinct_keys(self.occupancy@));
            assert(all_nonzero(self.occupancy@));
            assert(net_shift(self.occupancy@, opre, tv, delta as int)) by {
                assert forall|x: Product|
                    net_of(self.occupancy@, x) == net_of(opre, x) + (if x == tv {
                        delta as int
                    } else {
                        0int
                    }) by {
                    assert(net_of(self.occupancy@, x) == net_of(omid, x) + (if x == tv {
                        new_count as int
                    } else {
                        0int
                    }));
                    assert(net_of(omid, x) == net_of(opre, x) + (if x == tv {
                        -(old_count as int)
                    } else {
                        0int
                    }));
                }
            }
        }
        let ghost ocur = self.occupancy@;
        let entered = old_count <= 0 && new_count > 0;
        let exited = old_count > 0 && new_count <= 0;
        if entered {
            let ins = insert_elem(&mut self.frontier, tv, ledger);
            proof {
                assert(frontier_delta(ledger@, lpre, self.frontier@, fpre)) by {
                    assert forall|x: Product|
                        net_of(ledger@, x) == net_of(lpre, x) + frontier_ind(self.frontier@, x)
                            - frontier_ind(fpre, x) by {
                        assert(ledger.net(x) == net_of(ledger@, x));
                    }
                }
                assert(self.wf()) by {
                    assert forall|x: Product|
                        self.frontier@.contains(x) implies self.occ(x) > 0 by {
                        assert(net_of(self.occupancy@, x) == net_of(opre, x) + (if x == tv {
                            delta as int
                        } else {
                            0int
                        }));
                        if ins {
                            assert(self.frontier@.contains(x) <==> (fpre.contains(x)
                                && !tv.le_spec(x)) || x == tv);
                        }
                        if x == tv {
                            assert(self.occ(x) == old_count + delta);
                        } else {
                            assert(fpre.contains(x));
                            assert(old(self).occ(x) > 0);
                        }
                    }
                    assert forall|s2: Product|
                        self.occ(s2) > 0 implies exists|f: Product|
                            #[trigger] self.frontier@.contains(f) && f.le_spec(s2) by {
                        assert(net_of(self.occupancy@, s2) == net_of(opre, s2) + (if s2 == tv {
                            delta as int
                        } else {
                            0int
                        }));
                        if ins {
                            assert(self.frontier@.contains(tv) <==> (fpre.contains(tv)
                                && !tv.le_spec(tv)) || tv == tv);
                            if s2 == tv {
                                assert(self.frontier@.contains(tv) && tv.le_spec(tv));
                            } else {
                                assert(old(self).occ(s2) > 0);
                                let f = choose|f: Product|
                                    #[trigger] fpre.contains(f) && f.le_spec(s2);
                                if tv.le_spec(f) {
                                    assert(self.frontier@.contains(tv) && tv.le_spec(s2));
                                } else {
                                    assert(self.frontier@.contains(f) <==> (fpre.contains(f)
                                        && !tv.le_spec(f)) || f == tv);
                                    assert(self.frontier@.contains(f) && f.le_spec(s2));
                                }
                            }
                        } else {
                            let x0 = choose|x0: Product|
                                #[trigger] fpre.contains(x0) && x0.le_spec(tv);
                            if s2 == tv {
                                assert(self.frontier@.contains(x0) && x0.le_spec(s2));
                            } else {
                                assert(old(self).occ(s2) > 0);
                                let f = choose|f: Product|
                                    #[trigger] fpre.contains(f) && f.le_spec(s2);
                                assert(self.frontier@.contains(f) && f.le_spec(s2));
                            }
                        }
                    }
                }
            }
        } else if exited {
            let infront = vec_contains(&self.frontier, &tv);
            if infront {
                let mut nf: Vec<Product> = Vec::new();
                let mut scratch = ChangeBatch::new();
                let mut m: usize = 0;
                while m < self.occupancy.len()
                    invariant
                        m <= ocur.len(),
                        self.occupancy@ == ocur,
                        self.frontier@ == fpre,
                        ledger@ == lpre,
                        nf@.no_duplicates(),
                        pairwise_incomparable(nf@),
                        drawn_from(nf@, ocur),
                        covers(nf@, ocur, m as int),
                    decreases ocur.len() - m,
                {
                    let entry = self.occupancy[m];
                    let ghost mm = m as int;
                    let ghost nfpre = nf@;
                    m += 1;
                    if entry.1 > 0 {
                        let ins = insert_elem(&mut nf, entry.0, &mut scratch);
                        proof {
                            assert(drawn_from(nf@, ocur)) by {
                                assert forall|x: Product|
                                    nf@.contains(x) implies exists|k: int|
                                        0 <= k < ocur.len() && (#[trigger] ocur[k]).0 == x
                                            && ocur[k].1 > 0i64 by {
                                    if ins {
                                        assert(nf@.contains(x) <==> (nfpre.contains(x)
                                            && !entry.0.le_spec(x)) || x == entry.0);
                                        if x == entry.0 {
                                            assert(0 <= mm < ocur.len() && ocur[mm].0 == x
                                                && ocur[mm].1 > 0i64);
                                        } else {
                                            assert(nfpre.contains(x));
                                        }
                                    } else {
                                        assert(nfpre.contains(x));
                                    }
                                }
                            }
                            assert(covers(nf@, ocur, m as int)) by {
                                assert forall|k: int|
                                    0 <= k < m as int && (#[trigger] ocur[k]).1 > 0i64 implies
                                    exists|f: Product|
                                        #[trigger] nf@.contains(f) && f.le_spec(ocur[k].0) by {
                                    if k == mm {
                                        if ins {
                                            assert(nf@.contains(entry.0) <==> (nfpre.contains(
                                                entry.0,
                                            ) && !entry.0.le_spec(entry.0)) || entry.0 == entry.0);
                                            assert(nf@.contains(entry.0)
                                                && entry.0.le_spec(entry.0));
                                        } else {
                                            let f = choose|f: Product|
                                                #[trigger] nfpre.contains(f) && f.le_spec(
                                                    entry.0,
                                                );
                                            assert(nf@.contains(f) && f.le_spec(ocur[k].0));
                                        }
                                    } else {
                                        let f0 = choose|f0: Product|
                                            #[trigger] nfpre.contains(f0) && f0.le_spec(
                                                ocur[k].0,
                                            );
                                        if ins {
                                            if entry.0.le_spec(f0) {
                                                assert(nf@.contains(entry.0) <==> (nfpre.contains(
                                                    entry.0,
                                                ) && !entry.0.le_spec(entry.0)) || entry.0
                                                    == entry.0);
                                                assert(nf@.contains(entry.0)
                                                    && entry.0.le_spec(ocur[k].0));
                                            } else {
                                                assert(nf@.contains(f0) <==> (nfpre.contains(f0)
                                                    && !entry.0.le_spec(f0)) || f0 == entry.0);
                                                assert(nf@.contains(f0) && f0.le_spec(
                                                    ocur[k].0,
                                                ));
                                            }
                                        } else {
                                            assert(nf@.contains(f0) && f0.le_spec(ocur[k].0));
                                        }
                                    }
                                }
                            }
                        }
                    } else {
                        proof {
                            assert(drawn_from(nf@, ocur));
                            assert(covers(nf@, ocur, m as int)) by {
                                assert forall|k: int|
                                    0 <= k < m as int && (#[trigger] ocur[k]).1 > 0i64 implies
                                    exists|f: Product|
                                        #[trigger] nf@.contains(f) && f.le_spec(ocur[k].0) by {
                                    assert(k != mm);
                                    let f0 = choose|f0: Product|
                                        #[trigger] nfpre.contains(f0) && f0.le_spec(ocur[k].0);
                                    assert(nf@.contains(f0));
                                }
                            }
                        }
                    }
                }
                let ghost nfv = nf@;
                let mut a: usize = 0;
                while a < self.frontier.len()
                    invariant
                        a <= fpre.len(),
                        self.occupancy@ == ocur,
                        self.frontier@ == fpre,
                        nf@ == nfv,
                        ledger@ == lpre + removals(fpre, nfv, a as int),
                    decreases fpre.len() - a,
                {
                    let f = self.frontier[a];
                    let ghost aa = a as int;
                    let ghost lcur = ledger@;
                    a += 1;
                    if !vec_contains(&nf, &f) {
                        ledger.update(f, -1);
                        proof {
                            assert(removals(fpre, nfv, a as int) == removals(fpre, nfv, aa).push(
                                (f, -1i64)));
                            assert((lpre + removals(fpre, nfv, aa)).push((f, -1i64)) =~= lpre
                                + removals(fpre, nfv, aa).push((f, -1i64)));
                        }
                    } else {
                        proof {
                            assert(removals(fpre, nfv, a as int) == removals(fpre, nfv, aa));
                        }
                    }
                }
                let ghost l6 = lpre + removals(fpre, nfv, fpre.len() as int);
                let mut b: usize = 0;
                while b < nf.len()
                    invariant
                        b <= nfv.len(),
                        self.occupancy@ == ocur,
                        self.frontier@ == fpre,
                        nf@ == nfv,
                        ledger@ == l6 + additions(nfv, fpre, b as int),
                    decreases nfv.len() - b,
                {
                    let f = nf[b];
                    let ghost bb = b as int;
                    b += 1;
                    if !vec_contains(&self.frontier, &f) {
                        ledger.update(f, 1);
                        proof {
                            assert(additions(nfv, fpre, b as int) == additions(nfv, fpre, bb).push(
                                (f, 1i64)));
                            assert((l6 + additions(nfv, fpre, bb)).push((f, 1i64)) =~= l6
                                + additions(nfv, fpre, bb).push((f, 1i64)));
                        }
                    } else {
                        proof {
                            assert(additions(nfv, fpre, b as int) == additions(nfv, fpre, bb));
                        }
                    }
                }
                self.frontier = nf;
                proof {
                    assert(frontier_delta(ledger@, lpre, self.frontier@, fpre)) by {
                        assert forall|x: Product|
                            net_of(ledger@, x) == net_of(lpre, x) + frontier_ind(
                                self.frontier@,
                                x,
                            ) - frontier_ind(fpre, x) by {
                            lemma_net_concat(l6, additions(nfv, fpre, nfv.len() as int), x);
                            lemma_net_concat(lpre, removals(fpre, nfv, fpre.len() as int), x);
                            lemma_removals_net(fpre, nfv, fpre.len() as int, x);
                            lemma_additions_net(nfv, fpre, nfv.len() as int, x);
                            assert(fpre.take(fpre.len() as int) =~= fpre);
                            assert(nfv.take(nfv.len() as int) =~= nfv);
                        }
                    }
                    assert(self.wf()) by {
                        assert forall|x: Product|
                            self.frontier@.contains(x) implies self.occ(x) > 0 by {
                            let k = choose|k: int|
                                0 <= k < ocur.len() && (#[trigger] ocur[k]).0 == x && ocur[k].1
                                    > 0i64;
                            lemma_net_lookup(ocur, k);
                        }
                        assert forall|s2: Product|
                            self.occ(s2) > 0 implies exists|f: Product|
                                #[trigger] self.frontier@.contains(f) && f.le_spec(s2) by {
                            assert(exists|k: int|
                                0 <= k < ocur.len() && (#[trigger] ocur[k]).0 == s2) by {
                                if forall|k: int|
                                    0 <= k < ocur.len() ==> (#[trigger] ocur[k]).0 != s2 {
                                    lemma_net_absent(ocur, s2);
                                }
                            }
                            let k = choose|k: int|
                                0 <= k < ocur.len() && (#[trigger] ocur[k]).0 == s2;
                            lemma_net_lookup(ocur, k);
                            assert(ocur[k].1 > 0i64);
                            let f = choose|f: Product|
                                #[trigger] nfv.contains(f) && f.le_spec(ocur[k].0);
                            assert(self.frontier@.contains(f) && f.le_spec(s2));
                        }
                    }
                }
            } else {
                proof {
                    assert(frontier_delta(ledger@, lpre, self.frontier@, fpre));
                    assert(self.wf()) by {
                        assert forall|x: Product|
                            self.frontier@.contains(x) implies self.occ(x) > 0 by {
                            assert(x != tv);
                            assert(net_of(self.occupancy@, x) == net_of(opre, x));
                            assert(old(self).occ(x) > 0);
                        }
                        assert forall|s2: Product|
                            self.occ(s2) > 0 implies exists|f: Product|
                                #[trigger] self.frontier@.contains(f) && f.le_spec(s2) by {
                            assert(net_of(self.occupancy@, s2) == net_of(opre, s2) + (if s2 == tv {
                                delta as int
                            } else {
                                0int
                            }));
                            assert(s2 != tv);
                            assert(old(self).occ(s2) > 0);
                            let f = choose|f: Product| #[trigger] fpre.contains(f) && f.le_spec(s2);
                            assert(self.frontier@.contains(f) && f.le_spec(s2));
                        }
                    }
                }
            }
        } else {
            proof {
                assert(frontier_delta(ledger@, lpre, self.frontier@, fpre));
                assert(self.wf()) by {
                    assert forall|x: Product|
                        self.frontier@.contains(x) implies self.occ(x) > 0 by {
                        assert(net_of(self.occupancy@, x) == net_of(opre, x) + (if x == tv {
                            delta as int
                        } else {
                            0int
                        }));
                        assert(old(self).occ(x) > 0);
                    }
                    assert forall|s2: Product|
                        self.occ(s2) > 0 implies exists|f: Product|
                            #[trigger] self.frontier@.contains(f) && f.le_spec(s2) by {
                        assert(net_of(self.occupancy@, s2) == net_of(opre, s2) + (if s2 == tv {
                            delta as int
                        } else {
                            0int
                        }));
                        assert(old(self).occ(s2) > 0);
                        let f = choose|f: Product| #[trigger] fpre.contains(f) && f.le_spec(s2);
                        assert(self.frontier@.contains(f) && f.le_spec(s2));
                    }
                }
            }
        }
        proof {
            assert(self.wf());
            assert(net_shift(self.occupancy@, opre, tv, delta as int));
            assert(frontier_delta(ledger@, lpre, self.frontier@, fpre));
            assert forall|x: Product|
                self.occ(x) == old(self).occ(x) + (if x == tv {
                    delta as int
                } else {
                    0int
                }) by {
                assert(net_of(self.occupancy@, x) == net_of(opre, x) + (if x == tv {
                    delta as int
                } else {
                    0int
                }));
            }
            assert forall|x: Product|
                net_of(ledger@, x) == net_of(lpre, x) + (if self.frontier@.contains(x) {
                    1int
                } else {
                    0int
                }) - (if fpre.contains(x) {
                    1int
                } else {
                    0int
                }) by {
                assert(net_of(ledger@, x) == net_of(lpre, x) + frontier_ind(self.frontier@, x)
                    - frontier_ind(fpre, x));
            }
        }
    }

    /// The current frontier: the minimal occupied timestamps, each exactly
    /// once, in unspecified order.
    pub fn elements(&self) -> (r: &Vec<Product>)
        requires
            self.wf(),
        ensures
            r@.no_duplicates(),
            forall|x: Product| r@.contains(x) <==> self.in_frontier(x),
    {
        &self.frontier
    }

    /// The maintained antichain is exactly the set of minimal elements of
    /// the occupied timestamps.
    pub proof fn lemma_frontier_is_minimal(self)
        requires
            self.wf(),
        ensures
            forall|t: Product| self.in_frontier(t) <==> self.is_minimal(t),
    {
        assert forall|t: Product| self.in_frontier(t) implies self.is_minimal(t) by {
            assert(self.occ(t) > 0);
            assert forall|s: Product| self.occ(s) > 0 && s.le_spec(t) implies s == t by {
                let f = choose|f: Product| #[trigger] self.frontier@.contains(f) && f.le_spec(s);
                if f != t {
                    assert(f.le_spec(t));
                    assert(!f.le_spec(t));
                }
            }
        }
        assert forall|t: Product| self.is_minimal(t) implies self.in_frontier(t) by {
            let f = choose|f: Product| #[trigger] self.frontier@.contains(f) && f.le_spec(t);
            assert(self.occ(f) > 0);
            assert(f == t);
        }
    }
}

} // verus!
