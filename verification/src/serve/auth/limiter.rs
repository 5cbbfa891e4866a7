//! Sign-in attempts per client address.

use vstd::prelude::*;

use crate::text::same;

verus! {

/// How many sign-in attempts one address gets, and over what window.
pub const LOGIN_ATTEMPTS: usize = 5;

pub const LOGIN_WINDOW_SECS: u64 = 300;

/// The attempts of one address, oldest first.
#[derive(Debug)]
pub struct Attempts {
    pub key: String,
    pub times: Vec<u64>,
}

/// Sign-in attempts per client address. In memory only: a restart forgiving the
/// count is not worth a file write on every wrong password.
#[derive(Debug)]
pub struct RateLimiter {
    /// Each address stands here once.
    pub attempts: Vec<Attempts>,
}

/// The table as a map from address to attempts.
pub open spec fn table(v: Seq<Attempts>) -> Map<Seq<char>, Seq<u64>>
    decreases v.len(),
{
    if v.len() == 0 {
        Map::empty()
    } else {
        table(v.drop_last()).insert(v.last().key@, v.last().times@)
    }
}

impl View for RateLimiter {
    type V = Map<Seq<char>, Seq<u64>>;

    open spec fn view(&self) -> Map<Seq<char>, Seq<u64>> {
        table(self.attempts@)
    }
}

/// Whether each address stands in the table once.
pub open spec fn once_each(v: Seq<Attempts>) -> bool {
    forall|i: int, j: int|
        0 <= i < j < v.len() ==> (#[trigger] v[i]).key@ != (#[trigger] v[j]).key@
}

/// The attempts after `window`, in order.
pub open spec fn recent(times: Seq<u64>, window: int) -> Seq<u64>
    decreases times.len(),
{
    if times.len() == 0 {
        Seq::empty()
    } else if times.last() > window {
        recent(times.drop_last(), window).push(times.last())
    } else {
        recent(times.drop_last(), window)
    }
}

/// Where the window that counts begins.
pub open spec fn window_at(now: int) -> int {
    if now < LOGIN_WINDOW_SECS {
        0
    } else {
        now - LOGIN_WINDOW_SECS
    }
}

/// The table without what is too old to count. Addresses that have gone quiet
/// are forgotten, so a spray across many sources cannot grow the table without
/// bound.
pub open spec fn quieted(m: Map<Seq<char>, Seq<u64>>, window: int) -> Map<Seq<char>, Seq<u64>> {
    Map::new(
        |k: Seq<char>| m.dom().contains(k) && recent(m[k], window).len() > 0,
        |k: Seq<char>| recent(m[k], window),
    )
}

/// The attempts of one address that still count.
pub open spec fn counted(m: Map<Seq<char>, Seq<u64>>, key: Seq<char>, now: int) -> Seq<u64> {
    if m.dom().contains(key) {
        recent(m[key], window_at(now))
    } else {
        Seq::empty()
    }
}

/// Whether an attempt from `key` is allowed, and the table after it.
pub open spec fn attempted(m: Map<Seq<char>, Seq<u64>>, key: Seq<char>, now: int) -> (
    bool,
    Map<Seq<char>, Seq<u64>>,
) {
    let left = quieted(m, window_at(now));
    let times = counted(m, key, now);
    if times.len() >= LOGIN_ATTEMPTS {
        (false, left)
    } else {
        (true, left.insert(key, times.push(now as u64)))
    }
}

proof fn lemma_table(v: Seq<Attempts>)
    requires
        once_each(v),
    ensures
        forall|i: int|
            0 <= i < v.len() ==> table(v).dom().contains((#[trigger] v[i]).key@)
                && table(v)[v[i].key@] == v[i].times@,
        forall|k: Seq<char>| #[trigger]
            table(v).dom().contains(k) ==> exists|i: int| 0 <= i < v.len() && v[i].key@ == k,
    decreases v.len(),
{
    if v.len() > 0 {
        let t = v.drop_last();
        assert(once_each(t)) by {
            assert forall|i: int, j: int| 0 <= i < j < t.len() implies (#[trigger] t[i]).key@ != (
            #[trigger] t[j]).key@ by {
                assert(v[i].key@ != v[j].key@);
            }
        }
        lemma_table(t);
        assert forall|i: int| 0 <= i < v.len() implies table(v).dom().contains(
            (#[trigger] v[i]).key@,
        ) && table(v)[v[i].key@] == v[i].times@ by {
            if i < t.len() {
                assert(t[i] == v[i]);
                assert(v[i].key@ != v[v.len() - 1].key@);
            }
        }
        assert forall|k: Seq<char>| #[trigger] table(v).dom().contains(k) implies exists|i: int|
            0 <= i < v.len() && v[i].key@ == k by {
            if k == v.last().key@ {
                assert(v[v.len() - 1].key@ == k);
            } else {
                assert(table(t).dom().contains(k));
                let i = choose|i: int| 0 <= i < t.len() && t[i].key@ == k;
                assert(v[i].key@ == k);
            }
        }
    }
}

fn keep_recent(times: &Vec<u64>, window: u64) -> (r: Vec<u64>)
    ensures
        r@ == recent(times@, window as int),
{
    let mut r: Vec<u64> = Vec::new();
    let mut i: usize = 0;
    proof {
        assert(times@.take(0) =~= Seq::empty());
    }
    while i < times.len()
        invariant
            i <= times@.len(),
            r@ == recent(times@.take(i as int), window as int),
        decreases times@.len() - i,
    {
        proof {
            assert(times@.take(i + 1).drop_last() =~= times@.take(i as int));
        }
        if times[i] > window {
            r.push(times[i]);
        }
        i += 1;
    }
    proof {
        assert(times@.take(i as int) =~= times@);
    }
    r
}

impl Default for RateLimiter {
    fn default() -> (r: Self)
        ensures
            r.ok(),
            r@ == Map::<Seq<char>, Seq<u64>>::empty(),
    {
        RateLimiter { attempts: Vec::new() }
    }
}

impl RateLimiter {
    pub open spec fn ok(&self) -> bool {
        once_each(self.attempts@)
    }

    /// Forget what is too old to count.
    fn quiet(&mut self, window: u64)
        requires
            old(self).ok(),
        ensures
            final(self).ok(),
            final(self)@ == quieted(old(self)@, window as int),
    {
        let ghost all = self.attempts@;
        let mut kept: Vec<Attempts> = Vec::new();
        let mut i: usize = 0;
        proof {
            assert(all.take(0) =~= Seq::empty());
            assert(quieted(table(all.take(0)), window as int) =~= Map::empty());
        }
        while i < self.attempts.len()
            invariant
                i <= self.attempts@.len(),
                all == self.attempts@,
                all == old(self).attempts@,
                once_each(all),
                once_each(kept@),
                forall|j: int|
                    0 <= j < kept@.len() ==> exists|k: int|
                        0 <= k < i && all[k].key@ == (#[trigger] kept@[j]).key@,
                table(kept@) == quieted(table(all.take(i as int)), window as int),
            decreases self.attempts@.len() - i,
        {
            let times: Vec<u64> = keep_recent(&self.attempts[i].times, window);
            let ghost before = table(all.take(i as int));
            let ghost key = all[i as int].key@;
            proof {
                let part = all.take(i as int);
                assert(all.take(i + 1).drop_last() =~= part);
                assert(all.take(i + 1).last() == all[i as int]);
                assert(once_each(part));
                lemma_table(part);
                if before.dom().contains(key) {
                    let k = choose|k: int| 0 <= k < part.len() && part[k].key@ == key;
                    assert(all[k].key@ != all[i as int].key@);
                }
                assert(!before.dom().contains(key));
                let after = quieted(before.insert(key, all[i as int].times@), window as int);
                if times@.len() > 0 {
                    assert(after =~= quieted(before, window as int).insert(key, times@));
                } else {
                    assert(after =~= quieted(before, window as int));
                }
            }
            if times.len() > 0 {
                let entry: Attempts = Attempts { key: self.attempts[i].key.clone(), times };
                proof {
                    let next = kept@.push(entry);
                    assert(next.drop_last() =~= kept@);
                    assert forall|a: int, b: int| 0 <= a < b < next.len() implies (
                    #[trigger] next[a]).key@ != (#[trigger] next[b]).key@ by {
                        if b == kept@.len() {
                            assert(next[a] == kept@[a]);
                            let k = choose|k: int|
                                0 <= k < i && all[k].key@ == kept@[a].key@;
                            assert(all[k].key@ != all[i as int].key@);
                        } else {
                            assert(next[a] == kept@[a] && next[b] == kept@[b]);
                        }
                    }
                    assert forall|j: int| 0 <= j < next.len() implies exists|k: int|
                        0 <= k < i + 1 && all[k].key@ == (#[trigger] next[j]).key@ by {
                        if j < kept@.len() {
                            assert(next[j] == kept@[j]);
                        } else {
                            assert(all[i as int].key@ == next[j].key@);
                        }
                    }
                }
                kept.push(entry);
            }
            i += 1;
        }
        proof {
            assert(all.take(i as int) =~= all);
        }
        self.attempts = kept;
    }

    /// Where an address stands in the table.
    fn place(&self, key: &str) -> (r: Option<usize>)
        requires
            self.ok(),
        ensures
            match r {
                Some(i) => i < self.attempts@.len() && self.attempts@[i as int].key@ == key@,
                None => forall|i: int|
                    0 <= i < self.attempts@.len() ==> (#[trigger] self.attempts@[i]).key@ != key@,
            },
    {
        let mut i: usize = 0;
        while i < self.attempts.len()
            invariant
                i <= self.attempts@.len(),
                forall|j: int| 0 <= j < i ==> (#[trigger] self.attempts@[j]).key@ != key@,
            decreases self.attempts@.len() - i,
        {
            if same(self.attempts[i].key.as_str(), key) {
                return Some(i);
            }
            i += 1;
        }
        None
    }

    /// Record an attempt from `key` and say whether it is allowed.
    pub fn allow(&mut self, key: &str, now: u64) -> (r: bool)
        requires
            old(self).ok(),
        ensures
            final(self).ok(),
            r == attempted(old(self)@, key@, now as int).0,
            final(self)@ == attempted(old(self)@, key@, now as int).1,
    {
        let window: u64 = if now < LOGIN_WINDOW_SECS {
            0
        } else {
            now - LOGIN_WINDOW_SECS
        };
        self.quiet(window);
        let ghost left = self@;
        let ghost v = self.attempts@;
        proof {
            lemma_table(v);
        }
        match self.place(key) {
            Some(i) => {
                proof {
                    assert(left.dom().contains(v[i as int].key@));
                    assert(left[key@] == v[i as int].times@);
                    assert(counted(old(self)@, key@, now as int) == v[i as int].times@);
                }
                if self.attempts[i].times.len() >= LOGIN_ATTEMPTS {
                    return false;
                }
                let mut times: Vec<u64> = self.attempts[i].times.clone();
                times.push(now);
                let entry: Attempts = Attempts { key: key.to_owned(), times };
                proof {
                    lemma_replaced(v, i as int, entry);
                }
                self.attempts.set(i, entry);
                true
            },
            None => {
                proof {
                    if left.dom().contains(key@) {
                        let i = choose|i: int| 0 <= i < v.len() && v[i].key@ == key@;
                        assert(v[i].key@ != key@);
                    }
                    assert(counted(old(self)@, key@, now as int) =~= Seq::empty());
                }
                let mut times: Vec<u64> = Vec::new();
                times.push(now);
                let entry: Attempts = Attempts { key: key.to_owned(), times };
                proof {
                    assert(v.push(entry).drop_last() =~= v);
                    assert(times@ =~= Seq::<u64>::empty().push(now));
                }
                self.attempts.push(entry);
                true
            },
        }
    }

    /// Signing in successfully clears the count: the person at the keyboard is
    /// not who the limit is for.
    pub fn forget(&mut self, key: &str)
        requires
            old(self).ok(),
        ensures
            final(self).ok(),
            final(self)@ == old(self)@.remove(key@),
    {
        let ghost v = self.attempts@;
        proof {
            lemma_table(v);
        }
        match self.place(key) {
            Some(i) => {
                proof {
                    lemma_removed(v, i as int);
                }
                let _gone: Attempts = self.attempts.remove(i);
            },
            None => {
                proof {
                    if self@.dom().contains(key@) {
                        let i = choose|i: int| 0 <= i < v.len() && v[i].key@ == key@;
                        assert(v[i].key@ != key@);
                    }
                    assert(self@.remove(key@) =~= self@);
                }
            },
        }
    }
}

proof fn lemma_replaced(v: Seq<Attempts>, i: int, entry: Attempts)
    requires
        once_each(v),
        0 <= i < v.len(),
        entry.key@ == v[i].key@,
    ensures
        once_each(v.update(i, entry)),
        table(v.update(i, entry)) == table(v).insert(entry.key@, entry.times@),
{
    let w = v.update(i, entry);
    assert forall|a: int, b: int| 0 <= a < b < w.len() implies (#[trigger] w[a]).key@ != (
    #[trigger] w[b]).key@ by {
        assert(v[a].key@ != v[b].key@);
    }
    lemma_table(v);
    lemma_table(w);
    let m = table(v).insert(entry.key@, entry.times@);
    assert forall|k: Seq<char>|
        #![trigger table(w).dom().contains(k)]
        #![trigger m.dom().contains(k)]
        #![trigger m[k]]
        table(w).dom().contains(k) == m.dom().contains(k) && (m.dom().contains(k) ==> table(w)[k]
            == m[k]) by {
        if table(w).dom().contains(k) {
            let j = choose|j: int| 0 <= j < w.len() && w[j].key@ == k;
            assert(v[j].key@ == k);
        }
        if m.dom().contains(k) && k != entry.key@ {
            let j = choose|j: int| 0 <= j < v.len() && v[j].key@ == k;
            assert(w[j] == v[j]);
        }
        if k == entry.key@ {
            assert(w[i].key@ == k);
        }
    }
    assert(table(w) =~= m);
}

proof fn lemma_removed(v: Seq<Attempts>, i: int)
    requires
        once_each(v),
        0 <= i < v.len(),
    ensures
        once_each(v.remove(i)),
        table(v.remove(i)) == table(v).remove(v[i].key@),
{
    let w = v.remove(i);
    assert forall|a: int, b: int| 0 <= a < b < w.len() implies (#[trigger] w[a]).key@ != (
    #[trigger] w[b]).key@ by {
        let oa = if a < i { a } else { a + 1 };
        let ob = if b < i { b } else { b + 1 };
        assert(w[a] == v[oa] && w[b] == v[ob]);
        assert(v[oa].key@ != v[ob].key@);
    }
    lemma_table(v);
    lemma_table(w);
    let m = table(v).remove(v[i].key@);
    assert forall|k: Seq<char>|
        #![trigger table(w).dom().contains(k)]
        #![trigger m.dom().contains(k)]
        #![trigger m[k]]
        table(w).dom().contains(k) == m.dom().contains(k) && (m.dom().contains(k) ==> table(w)[k]
            == m[k]) by {
        if table(w).dom().contains(k) {
            let j = choose|j: int| 0 <= j < w.len() && w[j].key@ == k;
            let oj = if j < i { j } else { j + 1 };
            assert(w[j] == v[oj]);
            if oj < i {
                assert(v[oj].key@ != v[i].key@);
            } else {
                assert(v[i].key@ != v[oj].key@);
            }
        }
        if m.dom().contains(k) {
            let j = choose|j: int| 0 <= j < v.len() && v[j].key@ == k;
            let nj = if j < i { j } else { j - 1 };
            assert(w[nj] == v[j]);
        }
    }
    assert(table(w) =~= m);
}

/// Whether no address has more attempts remembered than it may make.
pub open spec fn within_limit(m: Map<Seq<char>, Seq<u64>>) -> bool {
    forall|k: Seq<char>| #[trigger] m.dom().contains(k) ==> m[k].len() <= LOGIN_ATTEMPTS
}

proof fn lemma_recent_shorter(times: Seq<u64>, window: int)
    ensures
        recent(times, window).len() <= times.len(),
    decreases times.len(),
{
    if times.len() > 0 {
        lemma_recent_shorter(times.drop_last(), window);
    }
}

/// No address gets more than five attempts in five minutes: however they come,
/// the attempts that were allowed and still count are never more than that.
pub proof fn law_five_attempts_and_then_a_wait(
    m: Map<Seq<char>, Seq<u64>>,
    key: Seq<char>,
    now: int,
)
    requires
        within_limit(m),
    ensures
        within_limit(attempted(m, key, now).1),
        attempted(m, key, now).0 <==> counted(m, key, now).len() < LOGIN_ATTEMPTS,
{
    let after = attempted(m, key, now).1;
    assert forall|k: Seq<char>| #[trigger] after.dom().contains(k) implies after[k].len()
        <= LOGIN_ATTEMPTS by {
        if m.dom().contains(k) {
            lemma_recent_shorter(m[k], window_at(now));
        }
    }
}

/// The limit is per address: an attempt from one says nothing of another.
pub proof fn law_the_limit_is_per_address(
    m: Map<Seq<char>, Seq<u64>>,
    key: Seq<char>,
    other: Seq<char>,
    now: int,
)
    requires
        key != other,
    ensures
        counted(attempted(m, key, now).1, other, now) == counted(m, other, now),
        attempted(attempted(m, key, now).1, other, now).0 == attempted(m, other, now).0,
{
    if m.dom().contains(other) {
        lemma_recent_twice(m[other], window_at(now));
    }
}

proof fn lemma_recent_twice(times: Seq<u64>, window: int)
    ensures
        recent(recent(times, window), window) == recent(times, window),
    decreases times.len(),
{
    if times.len() > 0 {
        lemma_recent_twice(times.drop_last(), window);
        let r = recent(times.drop_last(), window);
        if times.last() > window {
            assert(r.push(times.last()).drop_last() =~= r);
        }
    }
}

/// Once the window has passed, an address may try again.
pub proof fn law_the_window_passes(m: Map<Seq<char>, Seq<u64>>, key: Seq<char>, now: int)
    requires
        m.dom().contains(key) ==> forall|i: int|
            0 <= i < m[key].len() ==> #[trigger] m[key][i] <= window_at(now),
    ensures
        attempted(m, key, now).0,
{
    if m.dom().contains(key) {
        lemma_all_old(m[key], window_at(now));
    }
}

proof fn lemma_all_old(times: Seq<u64>, window: int)
    requires
        forall|i: int| 0 <= i < times.len() ==> #[trigger] times[i] <= window,
    ensures
        recent(times, window).len() == 0,
    decreases times.len(),
{
    if times.len() > 0 {
        let t = times.drop_last();
        assert forall|i: int| 0 <= i < t.len() implies #[trigger] t[i] <= window by {
            assert(t[i] == times[i]);
        }
        lemma_all_old(t, window);
    }
}

// ---------------------------------------------------------------------------
// Everything that was ever asked of it
// ---------------------------------------------------------------------------

/// One thing asked of a limiter.
pub enum Asked {
    Allow { key: Seq<char>, now: u64 },
    Forget { key: Seq<char> },
}

/// The table after all of `calls`, from a limiter that nobody had asked.
pub open spec fn table_after(calls: Seq<Asked>) -> Map<Seq<char>, Seq<u64>>
    decreases calls.len(),
{
    if calls.len() == 0 {
        Map::empty()
    } else {
        let m = table_after(calls.drop_last());
        match calls.last() {
            Asked::Allow { key, now } => attempted(m, key, now as int).1,
            Asked::Forget { key } => m.remove(key),
        }
    }
}

/// The times of the attempts from `key` that were allowed, since it was last
/// forgotten.
pub open spec fn granted(calls: Seq<Asked>, key: Seq<char>) -> Seq<u64>
    decreases calls.len(),
{
    if calls.len() == 0 {
        Seq::empty()
    } else {
        let before = granted(calls.drop_last(), key);
        match calls.last() {
            Asked::Allow { key: k, now } => if k == key && attempted(
                table_after(calls.drop_last()),
                key,
                now as int,
            ).0 {
                before.push(now)
            } else {
                before
            },
            Asked::Forget { key: k } => if k == key {
                Seq::empty()
            } else {
                before
            },
        }
    }
}

/// The latest time any of `calls` was made at.
pub open spec fn latest(calls: Seq<Asked>) -> int
    decreases calls.len(),
{
    if calls.len() == 0 {
        0
    } else {
        let before = latest(calls.drop_last());
        match calls.last() {
            Asked::Allow { now, .. } => if before > now {
                before
            } else {
                now as int
            },
            Asked::Forget { .. } => before,
        }
    }
}

/// Whether no call was made before an earlier one.
pub open spec fn in_time(calls: Seq<Asked>) -> bool
    decreases calls.len(),
{
    calls.len() > 0 ==> in_time(calls.drop_last()) && (calls.last() matches Asked::Allow {
        now,
        ..
    } ==> latest(calls.drop_last()) <= now)
}

/// The attempts a table holds of an address.
pub open spec fn held(m: Map<Seq<char>, Seq<u64>>, key: Seq<char>) -> Seq<u64> {
    if m.dom().contains(key) {
        m[key]
    } else {
        Seq::empty()
    }
}

proof fn lemma_recent_of_recent(times: Seq<u64>, window: int, later: int)
    requires
        window <= later,
    ensures
        recent(recent(times, window), later) == recent(times, later),
    decreases times.len(),
{
    if times.len() > 0 {
        let t = times.drop_last();
        lemma_recent_of_recent(t, window, later);
        let r = recent(t, window);
        if times.last() > window {
            assert(r.push(times.last()).drop_last() =~= r);
        }
    }
}

proof fn lemma_recent_push(times: Seq<u64>, t: u64, window: int)
    ensures
        recent(times.push(t), window) == if t > window {
            recent(times, window).push(t)
        } else {
            recent(times, window)
        },
{
    assert(times.push(t).drop_last() =~= times);
}

/// What the table holds of an address is what was granted to it, as far as it
/// still counts.
proof fn lemma_held(calls: Seq<Asked>, key: Seq<char>, window: int)
    requires
        in_time(calls),
        window >= window_at(latest(calls)),
    ensures
        recent(held(table_after(calls), key), window) == recent(granted(calls, key), window),
    decreases calls.len(),
{
    if calls.len() > 0 {
        let before = calls.drop_last();
        let m = table_after(before);
        lemma_held(before, key, window);
        if let Asked::Allow { key: k, now } = calls.last() {
            let w = window_at(now as int);
            assert(w <= window);
            lemma_held(before, key, w);
            lemma_recent_of_recent(held(m, key), w, window);
            let left = quieted(m, w);
            assert(held(left, key) =~= recent(held(m, key), w));
            if k == key && attempted(m, key, now as int).0 {
                let times = counted(m, key, now as int);
                assert(times =~= recent(held(m, key), w));
                lemma_recent_push(times, now, window);
                lemma_recent_push(granted(before, key), now, window);
            }
        }
    }
}

/// Whatever was asked before, an attempt is allowed exactly where fewer than
/// five of those granted to its address, since it was last forgotten, still
/// count.
pub proof fn law_five_in_any_window(calls: Seq<Asked>, key: Seq<char>, now: u64)
    requires
        in_time(calls),
        latest(calls) <= now,
    ensures
        attempted(table_after(calls), key, now as int).0 <==> recent(
            granted(calls, key),
            window_at(now as int),
        ).len() < LOGIN_ATTEMPTS,
{
    let w = window_at(now as int);
    lemma_held(calls, key, w);
    assert(counted(table_after(calls), key, now as int) =~= recent(
        held(table_after(calls), key),
        w,
    ));
}

proof fn lemma_in_time_without(before: Seq<Asked>, c: Asked, after: Seq<Asked>)
    requires
        in_time(before.push(c) + after),
    ensures
        in_time(before + after),
        latest(before + after) <= latest(before.push(c) + after),
    decreases after.len(),
{
    let with = before.push(c) + after;
    let without = before + after;
    if after.len() == 0 {
        assert(with =~= before.push(c));
        assert(without =~= before);
        assert(before.push(c).drop_last() =~= before);
    } else {
        assert(with.drop_last() =~= before.push(c) + after.drop_last());
        assert(without.drop_last() =~= before + after.drop_last());
        lemma_in_time_without(before, c, after.drop_last());
    }
}

/// An attempt that is refused counts for nothing afterwards, not even for its
/// own address, and one from another address never counts: what is granted to
/// an address from there on is what would have been granted without it, and so
/// is every answer.
pub proof fn law_what_does_not_count(
    before: Seq<Asked>,
    key: Seq<char>,
    now: u64,
    after: Seq<Asked>,
    whose: Seq<char>,
    later: u64,
)
    requires
        in_time(before.push(Asked::Allow { key, now }) + after),
        latest(before.push(Asked::Allow { key, now }) + after) <= later,
        key != whose || !attempted(table_after(before), key, now as int).0,
    ensures
        granted(before.push(Asked::Allow { key, now }) + after, whose) == granted(
            before + after,
            whose,
        ),
        attempted(
            table_after(before.push(Asked::Allow { key, now }) + after),
            whose,
            later as int,
        ).0 == attempted(table_after(before + after), whose, later as int).0,
    decreases after.len(),
{
    let c = Asked::Allow { key, now };
    let with = before.push(c) + after;
    let without = before + after;
    lemma_in_time_without(before, c, after);
    if after.len() == 0 {
        assert(with =~= before.push(c));
        assert(without =~= before);
        assert(before.push(c).drop_last() =~= before);
    } else {
        let less = after.drop_last();
        assert(with.drop_last() =~= before.push(c) + less);
        assert(without.drop_last() =~= before + less);
        if let Asked::Allow { key: k, now: t } = after.last() {
            law_what_does_not_count(before, key, now, less, whose, t);
        } else {
            law_what_does_not_count(before, key, now, less, whose, later);
        }
    }
    law_five_in_any_window(with, whose, later);
    law_five_in_any_window(without, whose, later);
}

} // verus!
