//! The price series store: durable ordered storage of hourly price points
//! tagged by source provider. It offers existence checks by calendar day,
//! atomic bulk insert that rejects a second price for any `(provider,
//! moment)`, and the windowed-minimum query built on the optimizer.

use vstd::prelude::*;

use crate::domain::{
    wf_amount, NotFoundError, PersistError, PricePoint, PriceWindow,
};
use crate::moment::{day_of, day_of_moment, wf_moment};
use crate::optimizer::{
    best_upto, cheapest_window, mean_le, optimal_window, sorted_by_moment,
    spec_normalize_duration,
};

verus! {

/// A source of prices: a lookup identity under which batches are stored.
pub struct Provider {
    pub id: i64,
    pub name: String,
}

/// A price point as persisted, tagged with the provider that supplied it.
#[derive(Clone, Copy, Debug, PartialEq, Eq, Structural)]
pub struct StoredPricePoint {
    pub provider_id: i64,
    pub moment: i64,
    pub amount_micros: i64,
}

/// A stored point is well formed under the same bounds as a bare point.
pub open spec fn stored_wf(p: StoredPricePoint) -> bool {
    wf_moment(p.moment as int) && wf_amount(p.amount_micros as int)
}

/// Storage order: by moment, ties by provider. Strict, so no two stored
/// points share both provider and moment.
pub open spec fn lex_lt(a: StoredPricePoint, b: StoredPricePoint) -> bool {
    a.moment < b.moment || (a.moment == b.moment && a.provider_id < b.provider_id)
}

/// The stored sequence is strictly ordered.
pub open spec fn sorted_stored(s: Seq<StoredPricePoint>) -> bool {
    forall|i: int, j: int| 0 <= i < j < s.len() ==> lex_lt(s[i], s[j])
}

/// The store already holds a price for this provider at this moment.
pub open spec fn contains_key(s: Seq<StoredPricePoint>, pid: int, m: int) -> bool {
    exists|i: int| 0 <= i < s.len() && (#[trigger] s[i]).provider_id == pid && s[i].moment == m
}

/// A provider with this id is registered.
pub open spec fn provider_known(ps: Seq<Provider>, pid: int) -> bool {
    exists|k: int| 0 <= k < ps.len() && (#[trigger] ps[k]).id == pid
}

/// Some stored point falls on this calendar day.
pub open spec fn has_day(s: Seq<StoredPricePoint>, day: int) -> bool {
    exists|i: int| 0 <= i < s.len() && day_of((#[trigger] s[i]).moment as int) == day
}

/// A stored point stripped of its provider tag.
pub open spec fn to_price_point(p: StoredPricePoint) -> PricePoint {
    PricePoint { moment: p.moment, amount_micros: p.amount_micros }
}

/// A bare point tagged with the provider that supplied it.
pub open spec fn tagged(p: PricePoint, pid: i64) -> StoredPricePoint {
    StoredPricePoint { provider_id: pid, moment: p.moment, amount_micros: p.amount_micros }
}

/// Whether a stored point's moment lies in the closed range `[lo, hi]`.
pub open spec fn in_range(p: StoredPricePoint, lo: int, hi: int) -> bool {
    lo <= p.moment <= hi
}

/// The points whose moment falls within `[lo, hi]`, in storage order, as the
/// bare series the optimizer consumes.
pub open spec fn select_range(s: Seq<StoredPricePoint>, lo: int, hi: int) -> Seq<PricePoint>
    decreases s.len(),
{
    if s.len() == 0 {
        Seq::empty()
    } else {
        let init = select_range(s.drop_last(), lo, hi);
        if in_range(s.last(), lo, hi) {
            init.push(to_price_point(s.last()))
        } else {
            init
        }
    }
}

/// The points falling on one calendar day, in storage order.
pub open spec fn select_day(s: Seq<StoredPricePoint>, day: int) -> Seq<PricePoint>
    decreases s.len(),
{
    if s.len() == 0 {
        Seq::empty()
    } else {
        let init = select_day(s.drop_last(), day);
        if day_of(s.last().moment as int) == day {
            init.push(to_price_point(s.last()))
        } else {
            init
        }
    }
}

/// Each selected point is the image of an in-range stored point; selection
/// of an ordered store is ordered by moment; selection is empty exactly when
/// no stored point is in range.
pub proof fn lemma_select_range_props(s: Seq<StoredPricePoint>, lo: int, hi: int)
    requires
        sorted_stored(s),
    ensures
        select_range(s, lo, hi).len() <= s.len(),
        forall|k: int|
            0 <= k < select_range(s, lo, hi).len() ==> exists|i: int|
                0 <= i < s.len() && in_range(s[i], lo, hi) && to_price_point(s[i])
                    == #[trigger] select_range(s, lo, hi)[k],
        sorted_by_moment(select_range(s, lo, hi)),
        (select_range(s, lo, hi).len() == 0 <==> (forall|i: int|
            0 <= i < s.len() ==> !in_range(#[trigger] s[i], lo, hi))),
    decreases s.len(),
{
    if s.len() == 0 {
    } else {
        let pre = s.drop_last();
        assert(sorted_stored(pre)) by {
            assert(forall|i: int, j: int|
                0 <= i < j < pre.len() ==> lex_lt(#[trigger] pre[i], #[trigger] pre[j]));
        }
        lemma_select_range_props(pre, lo, hi);
        let init = select_range(pre, lo, hi);
        let sel = select_range(s, lo, hi);
        if in_range(s.last(), lo, hi) {
            assert forall|k: int| 0 <= k < sel.len() implies exists|i: int|
                0 <= i < s.len() && in_range(s[i], lo, hi) && to_price_point(s[i])
                    == #[trigger] sel[k] by {
                if k < init.len() {
                    let i = choose|i: int|
                        0 <= i < pre.len() && in_range(pre[i], lo, hi) && to_price_point(pre[i])
                            == init[k];
                    assert(s[i] == pre[i]);
                    assert(sel[k] == init[k]);
                } else {
                    let i = s.len() - 1;
                    assert(0 <= i < s.len() && in_range(s[i], lo, hi) && to_price_point(s[i])
                        == sel[k]);
                }
            }
            assert forall|k1: int, k2: int| 0 <= k1 < k2 < sel.len() implies (#[trigger] sel[k1]).moment
                <= (#[trigger] sel[k2]).moment by {
                if k2 < init.len() {
                    assert(init[k1].moment <= init[k2].moment);
                } else {
                    let i = choose|i: int|
                        0 <= i < pre.len() && in_range(pre[i], lo, hi) && to_price_point(pre[i])
                            == init[k1];
                    assert(lex_lt(s[i], s.last()));
                }
            }
            assert(sel.len() > 0);
            assert(in_range(s[s.len() - 1], lo, hi));
        } else {
            assert(sel == init);
            assert forall|k: int| 0 <= k < sel.len() implies exists|i: int|
                0 <= i < s.len() && in_range(s[i], lo, hi) && to_price_point(s[i])
                    == #[trigger] sel[k] by {
                let i = choose|i: int|
                    0 <= i < pre.len() && in_range(pre[i], lo, hi) && to_price_point(pre[i])
                        == init[k];
                assert(s[i] == pre[i]);
            }
            if sel.len() == 0 {
                assert forall|i: int| 0 <= i < s.len() implies !in_range(#[trigger] s[i], lo, hi) by {
                    if i < s.len() - 1 {
                        assert(pre[i] == s[i]);
                    }
                }
            } else {
                let i = choose|i: int|
                    0 <= i < pre.len() && in_range(pre[i], lo, hi) && to_price_point(pre[i])
                        == sel[0];
            }
        }
    }
}

/// The provider a name resolves to: the first registered provider carrying
/// that name.
pub open spec fn find_provider(ps: Seq<Provider>, name: Seq<char>) -> Option<i64>
    decreases ps.len(),
{
    if ps.len() == 0 {
        None
    } else if ps[0].name@ == name {
        Some(ps[0].id)
    } else {
        find_provider(ps.subrange(1, ps.len() as int), name)
    }
}

/// A resolved provider id is a registered one.
pub proof fn lemma_find_provider_known(ps: Seq<Provider>, name: Seq<char>)
    ensures
        find_provider(ps, name) matches Some(id) ==> provider_known(ps, id as int),
    decreases ps.len(),
{
    if ps.len() == 0 {
    } else if ps[0].name@ == name {
        assert(ps[0].id == find_provider(ps, name)->0);
    } else {
        let tail = ps.subrange(1, ps.len() as int);
        lemma_find_provider_known(tail, name);
        if find_provider(ps, name) is Some {
            let id = find_provider(ps, name)->0;
            let k = choose|k: int| 0 <= k < tail.len() && (#[trigger] tail[k]).id == id;
            assert(ps[k + 1] == tail[k]);
        }
    }
}

/// Two points of one batch share a moment: the batch would collide with
/// itself, since a whole batch carries one provider.
pub open spec fn batch_has_dup(b: Seq<PricePoint>) -> bool {
    exists|i: int, j: int|
        0 <= i < j < b.len() && (#[trigger] b[i]).moment == (#[trigger] b[j]).moment
}

/// Some point of the batch is already stored for this provider.
pub open spec fn batch_conflicts(s: Seq<StoredPricePoint>, b: Seq<PricePoint>, pid: int) -> bool {
    exists|k: int| 0 <= k < b.len() && contains_key(s, pid, (#[trigger] b[k]).moment as int)
}

/// Insert one point into an ordered sequence, keeping the order. The point's
/// `(provider, moment)` key must be fresh.
fn insert_sorted(points: &mut Vec<StoredPricePoint>, sp: StoredPricePoint)
    requires
        sorted_stored(old(points)@),
        forall|i: int| 0 <= i < old(points)@.len() ==> stored_wf(#[trigger] old(points)@[i]),
        stored_wf(sp),
        !contains_key(old(points)@, sp.provider_id as int, sp.moment as int),
    ensures
        sorted_stored(final(points)@),
        forall|i: int| 0 <= i < final(points)@.len() ==> stored_wf(#[trigger] final(points)@[i]),
        final(points)@.len() == old(points)@.len() + 1,
        forall|q: StoredPricePoint|
            final(points)@.contains(q) <==> (old(points)@.contains(q) || q == sp),
{
    let ghost p0 = points@;
    let n = points.len();
    let mut idx: usize = 0;
    while idx < n && (points[idx].moment < sp.moment || (points[idx].moment == sp.moment
        && points[idx].provider_id < sp.provider_id))
        invariant
            points@ == p0,
            n == p0.len(),
            idx <= n,
            forall|j: int| 0 <= j < idx ==> lex_lt(#[trigger] p0[j], sp),
        decreases n - idx,
    {
        idx = idx + 1;
    }
    proof {
        if idx < n {
            assert(p0[idx as int] != sp) by {
                if p0[idx as int] == sp {
                    assert(p0[idx as int].provider_id == sp.provider_id && p0[idx as int].moment
                        == sp.moment);
                    assert(contains_key(p0, sp.provider_id as int, sp.moment as int));
                }
            }
            assert(lex_lt(sp, p0[idx as int]));
        }
        p0.insert_ensures(idx as int, sp);
    }
    points.insert(idx, sp);
    proof {
        let np = points@;
        assert forall|i: int, j: int| 0 <= i < j < np.len() implies lex_lt(np[i], np[j]) by {
            if j < idx {
            } else if i < idx && j == idx {
                assert(np[j] == sp && np[i] == p0[i]);
            } else if i < idx && j > idx {
                assert(np[i] == p0[i] && np[j] == p0[j - 1]);
                if j - 1 >= idx {
                    assert(lex_lt(sp, p0[idx as int]));
                    if j - 1 > idx {
                        assert(lex_lt(p0[idx as int], p0[j - 1]));
                    }
                }
                if j - 1 < idx {
                    assert(lex_lt(p0[i], sp));
                }
            } else if i == idx {
                assert(np[i] == sp && np[j] == p0[j - 1]);
                assert(lex_lt(sp, p0[idx as int]));
                if j - 1 > idx {
                    assert(lex_lt(p0[idx as int], p0[j - 1]));
                }
            } else {
                assert(np[i] == p0[i - 1] && np[j] == p0[j - 1]);
            }
        }
        assert forall|i: int| 0 <= i < np.len() implies stored_wf(#[trigger] np[i]) by {
            if i < idx {
                assert(np[i] == p0[i]);
            } else if i == idx {
            } else {
                assert(np[i] == p0[i - 1]);
            }
        }
        assert forall|q: StoredPricePoint| np.contains(q) implies (p0.contains(q) || q == sp) by {
            let i = choose|i: int| 0 <= i < np.len() && np[i] == q;
            if i < idx {
                assert(p0[i] == q);
            } else if i > idx {
                assert(p0[i - 1] == q);
            }
        }
        assert forall|q: StoredPricePoint| (p0.contains(q) || q == sp) implies np.contains(q) by {
            if q == sp {
                assert(np[idx as int] == q);
            } else {
                let i = choose|i: int| 0 <= i < p0.len() && p0[i] == q;
                if i < idx {
                    assert(np[i] == q);
                } else {
                    assert(np[i + 1] == q);
                }
            }
        }
    }
}

/// The price series store. Providers are reference data registered up
/// front; points arrive in provider-tagged batches and are kept in strict
/// `(moment, provider)` order, which makes `(provider, moment)` unique.
pub struct PriceStore {
    pub providers: Vec<Provider>,
    pub points: Vec<StoredPricePoint>,
}

impl PriceStore {
    /// Well-formedness: points are strictly ordered and bounded, provider
    /// names and ids are unique, and every point's tag names a registered
    /// provider.
    pub open spec fn wf(&self) -> bool {
        &&& sorted_stored(self.points@)
        &&& forall|i: int| 0 <= i < self.points@.len() ==> stored_wf(#[trigger] self.points@[i])
        &&& forall|i: int, j: int|
            0 <= i < j < self.providers@.len() ==> (#[trigger] self.providers@[i]).name@ != (
            #[trigger] self.providers@[j]).name@ && self.providers@[i].id
                != self.providers@[j].id
        &&& forall|i: int|
            0 <= i < self.points@.len() ==> provider_known(
                self.providers@,
                (#[trigger] self.points@[i]).provider_id as int,
            )
    }

    /// An empty store with no providers registered.
    pub fn new() -> (s: PriceStore)
        ensures
            s.wf(),
            s.providers@.len() == 0,
            s.points@.len() == 0,
    {
        PriceStore { providers: Vec::new(), points: Vec::new() }
    }

    /// Register a provider. Rejected when the id or the name is taken.
    pub fn add_provider(&mut self, id: i64, name: String) -> (r: bool)
        requires
            old(self).wf(),
        ensures
            final(self).wf(),
            final(self).points@ == old(self).points@,
            r <==> (forall|k: int|
                0 <= k < old(self).providers@.len() ==> (#[trigger] old(self).providers@[k]).name@
                    != name@ && old(self).providers@[k].id != id),
            r ==> final(self).providers@.len() == old(self).providers@.len() + 1
                && final(self).providers@.last().id == id
                && final(self).providers@.last().name@ == name@
                && (forall|k: int|
                0 <= k < old(self).providers@.len() ==> final(self).providers@[k] == old(
                self,
            ).providers@[k]),
            !r ==> final(self).providers@ == old(self).providers@,
    {
        let n = self.providers.len();
        let mut k: usize = 0;
        while k < n
            invariant
                old(self).wf(),
                self.providers@ == old(self).providers@,
                self.points@ == old(self).points@,
                n == self.providers@.len(),
                k <= n,
                forall|j: int|
                    0 <= j < k ==> (#[trigger] self.providers@[j]).name@ != name@
                        && self.providers@[j].id != id,
            decreases n - k,
        {
            if self.providers[k].name == name || self.providers[k].id == id {
                return false;
            }
            k = k + 1;
        }
        let ghost oldps = self.providers@;
        self.providers.push(Provider { id, name });
        proof {
            assert forall|i: int, j: int| 0 <= i < j < self.providers@.len() implies (
            #[trigger] self.providers@[i]).name@ != (#[trigger] self.providers@[j]).name@
                && self.providers@[i].id != self.providers@[j].id by {
                assert(self.providers@[i] == oldps[i]);
                if j < oldps.len() {
                    assert(self.providers@[j] == oldps[j]);
                } else {
                    assert(self.providers@[j].name@ == name@);
                    assert(self.providers@[j].id == id);
                }
            }
            assert forall|i: int| 0 <= i < self.points@.len() implies provider_known(
                self.providers@,
                (#[trigger] self.points@[i]).provider_id as int,
            ) by {
                assert(self.points@[i] == old(self).points@[i]);
                assert(provider_known(oldps, self.points@[i].provider_id as int));
                let k2 = choose|k2: int|
                    0 <= k2 < oldps.len() && (#[trigger] oldps[k2]).id
                        == self.points@[i].provider_id;
                assert(self.providers@[k2] == oldps[k2]);
            }
        }
        true
    }

    /// True iff at least one stored point's moment falls on the given
    /// calendar day (UTC day number).
    pub fn exists_for_date(&self, day: i64) -> (r: bool)
        requires
            self.wf(),
        ensures
            r == has_day(self.points@, day as int),
    {
        let n = self.points.len();
        let mut i: usize = 0;
        while i < n
            invariant
                self.wf(),
                n == self.points@.len(),
                i <= n,
                forall|j: int|
                    0 <= j < i ==> day_of((#[trigger] self.points@[j]).moment as int) != day,
            decreases n - i,
        {
            if day_of_moment(self.points[i].moment) == day {
                return true;
            }
            i = i + 1;
        }
        false
    }

    /// All points on one calendar day, in storage order, untagged.
    pub fn fetch_prices_of_date(&self, day: i64) -> (r: Vec<PricePoint>)
        requires
            self.wf(),
        ensures
            r@ == select_day(self.points@, day as int),
    {
        let n = self.points.len();
        let mut out: Vec<PricePoint> = Vec::new();
        let mut i: usize = 0;
        while i < n
            invariant
                self.wf(),
                n == self.points@.len(),
                i <= n,
                out@ == select_day(self.points@.subrange(0, i as int), day as int),
            decreases n - i,
        {
            proof {
                let cur = self.points@.subrange(0, i as int + 1);
                assert(cur.drop_last() =~= self.points@.subrange(0, i as int));
                assert(cur.last() == self.points@[i as int]);
            }
            let p = self.points[i];
            if day_of_moment(p.moment) == day {
                out.push(PricePoint { moment: p.moment, amount_micros: p.amount_micros });
            }
            i = i + 1;
        }
        proof {
            assert(self.points@.subrange(0, n as int) =~= self.points@);
        }
        out
    }

    /// Resolve a provider name to the first registered id carrying it.
    fn find_provider_id(&self, name: &String) -> (r: Option<i64>)
        ensures
            r == find_provider(self.providers@, name@),
    {
        let ghost ps = self.providers@;
        let n = self.providers.len();
        proof {
            assert(ps.subrange(0, n as int) =~= ps);
        }
        let mut k: usize = 0;
        while k < n
            invariant
                self.providers@ == ps,
                n == ps.len(),
                k <= n,
                find_provider(ps, name@) == find_provider(
                    ps.subrange(k as int, n as int),
                    name@,
                ),
            decreases n - k,
        {
            proof {
                assert(ps.subrange(k as int, n as int)[0] == ps[k as int]);
                assert(ps.subrange(k as int, n as int).subrange(
                    1,
                    (n - k) as int,
                ) =~= ps.subrange(k as int + 1, n as int));
            }
            if self.providers[k].name == *name {
                return Some(self.providers[k].id);
            }
            k = k + 1;
        }
        proof {
            assert(ps.subrange(n as int, n as int).len() == 0);
        }
        None
    }

    /// Whether a price is already stored for this provider at this moment.
    fn contains_point(&self, pid: i64, m: i64) -> (r: bool)
        ensures
            r == contains_key(self.points@, pid as int, m as int),
    {
        let n = self.points.len();
        let mut i: usize = 0;
        while i < n
            invariant
                n == self.points@.len(),
                i <= n,
                forall|j: int|
                    0 <= j < i ==> !((#[trigger] self.points@[j]).provider_id == pid
                        && self.points@[j].moment == m),
            decreases n - i,
        {
            if self.points[i].provider_id == pid && self.points[i].moment == m {
                return true;
            }
            i = i + 1;
        }
        false
    }

    /// Persist one provider's batch of price points. The whole batch lands
    /// or none of it does: an unknown provider name or any collision on
    /// `(provider, moment)` — within the batch or against stored points —
    /// rejects the batch and leaves the store as it was.
    pub fn insert_batch(&mut self, prices: &Vec<PricePoint>, provider_name: &String) -> (r:
        Result<(), PersistError>)
        requires
            old(self).wf(),
            forall|k: int| 0 <= k < prices@.len() ==> (#[trigger] prices@[k]).wf(),
        ensures
            final(self).wf(),
            final(self).providers@ == old(self).providers@,
            r is Err ==> final(self).points@ == old(self).points@,
            (r == Err::<(), PersistError>(PersistError::UnknownProvider) <==> find_provider(
                old(self).providers@,
                provider_name@,
            ) is None),
            find_provider(old(self).providers@, provider_name@) matches Some(pid) ==> {
                &&& (r == Err::<(), PersistError>(PersistError::DuplicateError) <==> (
                batch_has_dup(prices@) || batch_conflicts(old(self).points@, prices@, pid as int)))
                &&& (r is Ok <==> (!batch_has_dup(prices@) && !batch_conflicts(
                    old(self).points@,
                    prices@,
                    pid as int,
                )))
                &&& (r is Ok ==> final(self).points@.len() == old(self).points@.len()
                    + prices@.len() && (forall|q: StoredPricePoint|
                    final(self).points@.contains(q) <==> (old(self).points@.contains(q) || exists|
                        k: int,
                    | 0 <= k < prices@.len() && q == tagged(#[trigger] prices@[k], pid))))
            },
    {
        let pid = match self.find_provider_id(provider_name) {
            None => {
                return Err(PersistError::UnknownProvider);
            },
            Some(p) => p,
        };
        let n = prices.len();
        let mut i: usize = 0;
        while i < n
            invariant
                self == old(self),
                old(self).wf(),
                find_provider(old(self).providers@, provider_name@) == Some(pid),
                n == prices@.len(),
                i <= n,
                forall|i1: int, j1: int|
                    0 <= i1 < j1 < n && i1 < i ==> (#[trigger] prices@[i1]).moment != (
                    #[trigger] prices@[j1]).moment,
            decreases n - i,
        {
            let mut j: usize = i + 1;
            while j < n
                invariant
                    self == old(self),
                    old(self).wf(),
                    find_provider(old(self).providers@, provider_name@) == Some(pid),
                    n == prices@.len(),
                    i < j <= n,
                    forall|j1: int|
                        i < j1 < j ==> (#[trigger] prices@[j1]).moment != prices@[i as int].moment,
                decreases n - j,
            {
                if prices[i].moment == prices[j].moment {
                    return Err(PersistError::DuplicateError);
                }
                j = j + 1;
            }
            i = i + 1;
        }
        assert(!batch_has_dup(prices@));
        let mut k: usize = 0;
        while k < n
            invariant
                self == old(self),
                old(self).wf(),
                find_provider(old(self).providers@, provider_name@) == Some(pid),
                n == prices@.len(),
                k <= n,
                forall|l: int|
                    0 <= l < k ==> !contains_key(
                        self.points@,
                        pid as int,
                        (#[trigger] prices@[l]).moment as int,
                    ),
            decreases n - k,
        {
            if self.contains_point(pid, prices[k].moment) {
                return Err(PersistError::DuplicateError);
            }
            k = k + 1;
        }
        assert(!batch_conflicts(self.points@, prices@, pid as int));
        let ghost p0 = self.points@;
        proof {
            lemma_find_provider_known(self.providers@, provider_name@);
        }
        let mut t: usize = 0;
        while t < n
            invariant
                old(self).wf(),
                self.providers@ == old(self).providers@,
                find_provider(old(self).providers@, provider_name@) == Some(pid),
                n == prices@.len(),
                t <= n,
                p0 == old(self).points@,
                forall|k1: int| 0 <= k1 < n ==> (#[trigger] prices@[k1]).wf(),
                forall|i1: int, j1: int|
                    0 <= i1 < j1 < n ==> (#[trigger] prices@[i1]).moment != (
                    #[trigger] prices@[j1]).moment,
                provider_known(self.providers@, pid as int),
                sorted_stored(self.points@),
                forall|i1: int|
                    0 <= i1 < self.points@.len() ==> stored_wf(#[trigger] self.points@[i1]),
                self.points@.len() == p0.len() + t,
                forall|q: StoredPricePoint|
                    self.points@.contains(q) <==> (p0.contains(q) || exists|l: int|
                        0 <= l < t && q == tagged(#[trigger] prices@[l], pid)),
                forall|l: int|
                    t <= l < n ==> !contains_key(
                        self.points@,
                        pid as int,
                        (#[trigger] prices@[l]).moment as int,
                    ),
            decreases n - t,
        {
            let p = prices[t];
            let sp = StoredPricePoint {
                provider_id: pid,
                moment: p.moment,
                amount_micros: p.amount_micros,
            };
            let ghost before = self.points@;
            proof {
                assert(prices@[t as int].wf());
                assert(sp == tagged(prices@[t as int], pid));
                assert(!contains_key(before, pid as int, sp.moment as int));
            }
            insert_sorted(&mut self.points, sp);
            proof {
                assert forall|q: StoredPricePoint| self.points@.contains(q) implies (p0.contains(
                    q,
                ) || exists|l: int| 0 <= l <= t && q == tagged(#[trigger] prices@[l], pid)) by {
                    if q == sp {
                        assert(q == tagged(prices@[t as int], pid));
                    }
                }
                assert forall|q: StoredPricePoint| (p0.contains(q) || exists|l: int|
                    0 <= l <= t && q == tagged(#[trigger] prices@[l], pid)) implies self
                    .points@.contains(q) by {
                    if !p0.contains(q) {
                        let l = choose|l: int| 0 <= l <= t && q == tagged(#[trigger] prices@[l], pid);
                        if l < t {
                            assert(before.contains(q));
                        }
                    }
                }
                assert forall|l: int| t + 1 <= l < n implies !contains_key(
                    self.points@,
                    pid as int,
                    (#[trigger] prices@[l]).moment as int,
                ) by {
                    if contains_key(self.points@, pid as int, prices@[l].moment as int) {
                        let w = choose|w: int|
                            0 <= w < self.points@.len() && (#[trigger] self.points@[w]).provider_id
                                == pid && self.points@[w].moment == prices@[l].moment;
                        let q = self.points@[w];
                        assert(self.points@.contains(q));
                        assert(prices@[t as int].moment != prices@[l].moment);
                        assert(!before.contains(q));
                    }
                }
            }
            t = t + 1;
        }
        proof {
            assert forall|i1: int| 0 <= i1 < self.points@.len() implies provider_known(
                self.providers@,
                (#[trigger] self.points@[i1]).provider_id as int,
            ) by {
                let q = self.points@[i1];
                assert(self.points@.contains(q));
                if p0.contains(q) {
                    let w = choose|w: int| 0 <= w < p0.len() && p0[w] == q;
                    assert(old(self).points@[w] == q);
                }
            }
        }
        Ok(())
    }

    /// The untagged points with moments inside `[lo, hi]`, in storage order.
    fn select_in_range(&self, lo: i64, hi: i64) -> (r: Vec<PricePoint>)
        requires
            self.wf(),
        ensures
            r@ == select_range(self.points@, lo as int, hi as int),
    {
        let n = self.points.len();
        let mut out: Vec<PricePoint> = Vec::new();
        let mut i: usize = 0;
        while i < n
            invariant
                self.wf(),
                n == self.points@.len(),
                i <= n,
                out@ == select_range(self.points@.subrange(0, i as int), lo as int, hi as int),
            decreases n - i,
        {
            proof {
                let cur = self.points@.subrange(0, i as int + 1);
                assert(cur.drop_last() =~= self.points@.subrange(0, i as int));
                assert(cur.last() == self.points@[i as int]);
            }
            let p = self.points[i];
            if lo <= p.moment && p.moment <= hi {
                out.push(PricePoint { moment: p.moment, amount_micros: p.amount_micros });
            }
            i = i + 1;
        }
        proof {
            assert(self.points@.subrange(0, n as int) =~= self.points@);
        }
        out
    }

    /// The cheapest contiguous window of the requested duration among the
    /// stored points with moments in `[range_start, range_end]`. Fails with
    /// `NotFoundError` exactly when no stored point lies in the range.
    pub fn fetch_cheapest_window(
        &self,
        range_start: i64,
        range_end: i64,
        duration_hours: i32,
    ) -> (r: Result<PriceWindow, NotFoundError>)
        requires
            self.wf(),
        ensures
            ({
                let sel = select_range(self.points@, range_start as int, range_end as int);
                let d = spec_normalize_duration(duration_hours as int);
                &&& (r is Err <==> sel.len() == 0)
                &&& (sel.len() == 0 <==> (forall|i: int|
                    0 <= i < self.points@.len() ==> !in_range(
                        #[trigger] self.points@[i],
                        range_start as int,
                        range_end as int,
                    )))
                &&& sel.len() > 0 ==> r == Ok::<PriceWindow, NotFoundError>(
                    optimal_window(sel, d),
                )
                &&& sel.len() > 0 ==> (forall|j: int|
                    0 <= j < sel.len() ==> mean_le(sel, d, best_upto(sel, d, sel.len() as int), j))
            }),
    {
        proof {
            lemma_select_range_props(self.points@, range_start as int, range_end as int);
        }
        let sel = self.select_in_range(range_start, range_end);
        proof {
            assert forall|k: int| 0 <= k < sel@.len() implies (#[trigger] sel@[k]).wf() by {
                let i = choose|i: int|
                    0 <= i < self.points@.len() && in_range(
                        self.points@[i],
                        range_start as int,
                        range_end as int,
                    ) && to_price_point(self.points@[i]) == sel@[k];
                assert(stored_wf(self.points@[i]));
            }
        }
        cheapest_window(&sel, duration_hours)
    }

    /// For each requested duration, the cheapest window between the two
    /// moments. All durations are evaluated against the same selection; when
    /// no stored point lies in the range, the first duration already fails,
    /// so the whole request reports `NotFoundError`.
    pub fn fetch_optimal_price_window_of_window_for_durations(
        &self,
        start_moment: i64,
        end_moment: i64,
        durations: &Vec<i32>,
    ) -> (r: Result<Vec<PriceWindow>, NotFoundError>)
        requires
            self.wf(),
        ensures
            ({
                let sel = select_range(self.points@, start_moment as int, end_moment as int);
                &&& (r is Err <==> (durations@.len() > 0 && sel.len() == 0))
                &&& r matches Ok(ws) ==> ws@.len() == durations@.len() && (forall|k: int|
                    0 <= k < durations@.len() ==> ws@[k] == optimal_window(
                        sel,
                        spec_normalize_duration(#[trigger] durations@[k] as int),
                    ))
            }),
    {
        let ghost sel = select_range(self.points@, start_moment as int, end_moment as int);
        let mut windows: Vec<PriceWindow> = Vec::new();
        let n = durations.len();
        let mut k: usize = 0;
        while k < n
            invariant
                self.wf(),
                n == durations@.len(),
                k <= n,
                sel == select_range(self.points@, start_moment as int, end_moment as int),
                k > 0 ==> sel.len() > 0,
                windows@.len() == k,
                forall|k1: int|
                    0 <= k1 < k ==> windows@[k1] == optimal_window(
                        sel,
                        spec_normalize_duration(#[trigger] durations@[k1] as int),
                    ),
            decreases n - k,
        {
            match self.fetch_cheapest_window(start_moment, end_moment, durations[k]) {
                Ok(w) => {
                    windows.push(w);
                },
                Err(e) => {
                    return Err(e);
                },
            }
            k = k + 1;
        }
        Ok(windows)
    }
}

} // verus!
