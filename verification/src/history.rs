use vstd::prelude::*;
use vstd::std_specs::cmp::PartialEqSpec;

verus! {

/// Whether the times of `s` strictly increase from one record to the next.
pub open spec fn increasing<T>(s: Seq<(u64, T)>) -> bool {
    forall|i: int, j: int| 0 <= i < j < s.len() ==> s[i].0 < s[j].0
}

/// Whether `s` holds a record taken at `time`.
pub open spec fn recorded<T>(s: Seq<(u64, T)>, time: u64) -> bool {
    exists|i: int| 0 <= i < s.len() && #[trigger] s[i].0 == time
}

/// The place in `s` of a record taken at `time`.
pub open spec fn place<T>(s: Seq<(u64, T)>, time: u64) -> int {
    choose|i: int| 0 <= i < s.len() && #[trigger] s[i].0 == time
}

/// The records of `s` as a map from the time of each to its value.
pub open spec fn as_map<T>(s: Seq<(u64, T)>) -> Map<u64, T> {
    Map::new(|time: u64| recorded(s, time), |time: u64| s[place(s, time)].1)
}

/// Whether `at` is the time of the last record of `m` taken no later than `time`.
pub open spec fn latest<T>(m: Map<u64, T>, time: u64, at: u64) -> bool {
    &&& m.contains_key(at)
    &&& at <= time
    &&& forall|other: u64| m.contains_key(other) && other <= time ==> other <= at
}

/// The value in force at `time`: that of the last record of `m` taken no
/// later than `time`, if there is one.
pub open spec fn in_force<T>(m: Map<u64, T>, time: u64) -> Option<T> {
    if exists|at: u64| latest(m, time, at) {
        Some(m[choose|at: u64| latest(m, time, at)])
    } else {
        None
    }
}

/// `s` without each record whose value equals that of the record kept before it.
pub open spec fn collapse<T: PartialEq>(s: Seq<(u64, T)>) -> Seq<(u64, T)>
    decreases s.len(),
{
    if s.len() == 0 {
        s
    } else {
        let kept = collapse(s.drop_last());
        if kept.len() > 0 && s.last().1.eq_spec(&kept.last().1) {
            kept
        } else {
            kept.push(s.last())
        }
    }
}

/// Whether no record of `s` has a value equal to that of the record before it.
pub open spec fn settled<T: PartialEq>(s: Seq<(u64, T)>) -> bool {
    forall|i: int| 0 < i < s.len() ==> !(#[trigger] s[i]).1.eq_spec(&s[i - 1].1)
}

/// What `collapse` keeps has no record equal in value to the one before it.
pub proof fn lemma_collapse_settled<T: PartialEq>(s: Seq<(u64, T)>)
    ensures
        settled(collapse(s)),
    decreases s.len(),
{
    if s.len() > 0 {
        lemma_collapse_settled(s.drop_last());
    }
}

/// A timeline in which every value differs from the one before it is left as
/// it is by `collapse`.
pub proof fn lemma_collapse_distinct<T: PartialEq>(s: Seq<(u64, T)>)
    requires
        settled(s),
    ensures
        collapse(s) == s,
    decreases s.len(),
{
    if s.len() > 0 {
        let init = s.drop_last();
        assert forall|i: int| 0 < i < init.len() implies !(#[trigger] init[i]).1.eq_spec(
            &init[i - 1].1,
        ) by {
            assert(init[i] == s[i] && init[i - 1] == s[i - 1]);
        }
        lemma_collapse_distinct(init);
        if init.len() > 0 {
            assert(init.last() == s[s.len() - 2]);
            assert(!s[s.len() - 1].1.eq_spec(&s[s.len() - 2].1));
        }
        assert(init.push(s.last()) == s);
    }
}

/// To collapse a second time changes nothing.
pub proof fn lemma_collapse_idempotent<T: PartialEq>(s: Seq<(u64, T)>)
    ensures
        collapse(collapse(s)) == collapse(s),
{
    lemma_collapse_settled(s);
    lemma_collapse_distinct(collapse(s));
}

/// In an increasing timeline every record is found under its own time.
pub proof fn lemma_as_map_at<T>(s: Seq<(u64, T)>, i: int)
    requires
        increasing(s),
        0 <= i < s.len(),
    ensures
        as_map(s).contains_key(s[i].0),
        as_map(s)[s[i].0] == s[i].1,
{
    let time = s[i].0;
    assert(recorded(s, time));
    let p = place(s, time);
    assert(p == i) by {
        if p < i {
            assert(s[p].0 < s[i].0);
        } else if i < p {
            assert(s[i].0 < s[p].0);
        }
    }
}

/// The records of `m` in the order of their times.
pub open spec fn timeline_of<T>(m: Map<u64, T>) -> Seq<(u64, T)> {
    choose|s: Seq<(u64, T)>| increasing(s) && as_map(s) == m
}

/// Whether `m` is the map of a timeline: it then is that of `timeline_of(m)`
/// and of no other.
pub open spec fn charted<T>(m: Map<u64, T>) -> bool {
    increasing(timeline_of(m)) && as_map(timeline_of(m)) == m
}

/// Without its last record an increasing timeline is the map without its
/// last time.
proof fn lemma_as_map_drop_last<T>(s: Seq<(u64, T)>)
    requires
        increasing(s),
        s.len() > 0,
    ensures
        increasing(s.drop_last()),
        as_map(s.drop_last()) == as_map(s).remove(s.last().0),
{
    let init = s.drop_last();
    let last = s.last().0;
    assert forall|key: u64| as_map(init).contains_key(key) <==> as_map(s).remove(
        last,
    ).contains_key(key) by {
        if recorded(init, key) {
            let p = place(init, key);
            assert(s[p].0 == key);
            assert(s[p].0 < s[s.len() - 1].0);
        }
        if recorded(s, key) && key != last {
            let p = place(s, key);
            assert(init[p].0 == key);
        }
    }
    assert forall|key: u64| as_map(init).contains_key(key) implies as_map(init)[key] == as_map(
        s,
    ).remove(last)[key] by {
        let p = place(init, key);
        assert(init[p].0 == key);
        lemma_as_map_at(init, p);
        assert(s[p].0 == key);
        lemma_as_map_at(s, p);
    }
    assert(as_map(init) =~= as_map(s).remove(last));
}

/// Two increasing timelines with the same map are the same.
pub proof fn lemma_increasing_unique<T>(s: Seq<(u64, T)>, t: Seq<(u64, T)>)
    requires
        increasing(s),
        increasing(t),
        as_map(s) == as_map(t),
    ensures
        s == t,
    decreases s.len(),
{
    if s.len() == 0 {
        if t.len() > 0 {
            lemma_as_map_at(t, 0);
            let p = place(s, t[0].0);
            assert(s[p].0 == t[0].0);
        }
        assert(s =~= t);
    } else {
        lemma_as_map_at(s, s.len() - 1);
        let q = place(t, s.last().0);
        assert(t[q].0 == s.last().0);
        lemma_as_map_at(t, t.len() - 1);
        let p = place(s, t.last().0);
        assert(s[p].0 == t.last().0);
        assert(s.last().0 == t.last().0) by {
            if p < s.len() - 1 {
                assert(s[p].0 < s[s.len() - 1].0);
            }
            if q < t.len() - 1 {
                assert(t[q].0 < t[t.len() - 1].0);
            }
        }
        lemma_as_map_drop_last(s);
        lemma_as_map_drop_last(t);
        lemma_increasing_unique(s.drop_last(), t.drop_last());
        assert(s =~= s.drop_last().push(s.last()));
        assert(t =~= t.drop_last().push(t.last()));
    }
}

/// An increasing timeline is the timeline of its map.
pub proof fn lemma_timeline_of<T>(s: Seq<(u64, T)>)
    requires
        increasing(s),
    ensures
        timeline_of(as_map(s)) == s,
{
    lemma_increasing_unique(timeline_of(as_map(s)), s);
}

/// A record put into an increasing timeline at a time it did not hold is one
/// more key of its map.
proof fn lemma_as_map_insert<T>(s: Seq<(u64, T)>, n: int, time: u64, value: T)
    requires
        increasing(s),
        0 <= n <= s.len(),
        forall|i: int| 0 <= i < n ==> s[i].0 < time,
        forall|i: int| n <= i < s.len() ==> s[i].0 > time,
    ensures
        increasing(s.insert(n, (time, value))),
        !as_map(s).contains_key(time),
        as_map(s.insert(n, (time, value))) == as_map(s).insert(time, value),
{
    let t = s.insert(n, (time, value));
    assert(increasing(t));
    if recorded(s, time) {
        let p = place(s, time);
        assert(s[p].0 == time);
    }
    assert forall|key: u64| as_map(t).contains_key(key) <==> as_map(s).insert(
        time,
        value,
    ).contains_key(key) by {
        if recorded(t, key) {
            let p = place(t, key);
            assert(t[p].0 == key);
            if p < n {
                assert(s[p].0 == key);
            } else if p > n {
                assert(s[p - 1].0 == key);
            }
        }
        if recorded(s, key) {
            let p = place(s, key);
            assert(s[p].0 == key);
            if p < n {
                assert(t[p].0 == key);
            } else {
                assert(t[p + 1].0 == key);
            }
        }
        if key == time {
            assert(t[n].0 == key);
        }
    }
    assert forall|key: u64| as_map(t).contains_key(key) implies as_map(t)[key] == as_map(s).insert(
        time,
        value,
    )[key] by {
        let p = place(t, key);
        assert(t[p].0 == key);
        lemma_as_map_at(t, p);
        if p < n {
            lemma_as_map_at(s, p);
        } else if p > n {
            lemma_as_map_at(s, p - 1);
        }
    }
    assert(as_map(t) =~= as_map(s).insert(time, value));
}

/// A new value for the record at place `n` of an increasing timeline is a new
/// value under the same key of its map.
proof fn lemma_as_map_update<T>(s: Seq<(u64, T)>, n: int, value: T)
    requires
        increasing(s),
        0 <= n < s.len(),
    ensures
        increasing(s.update(n, (s[n].0, value))),
        as_map(s.update(n, (s[n].0, value))) == as_map(s).insert(s[n].0, value),
{
    let time = s[n].0;
    let t = s.update(n, (time, value));
    assert(increasing(t)) by {
        assert forall|i: int, j: int| 0 <= i < j < t.len() implies t[i].0 < t[j].0 by {
            assert(t[i].0 == s[i].0 && t[j].0 == s[j].0);
        }
    }
    assert forall|key: u64| as_map(t).contains_key(key) <==> as_map(s).insert(
        time,
        value,
    ).contains_key(key) by {
        if recorded(t, key) {
            let p = place(t, key);
            assert(s[p].0 == key);
        }
        if recorded(s, key) {
            let p = place(s, key);
            assert(t[p].0 == key);
        }
        if key == time {
            assert(t[n].0 == key);
        }
    }
    assert forall|key: u64| as_map(t).contains_key(key) implies as_map(t)[key] == as_map(s).insert(
        time,
        value,
    )[key] by {
        let p = place(t, key);
        assert(t[p].0 == key);
        lemma_as_map_at(t, p);
        assert(s[p].0 == key);
        lemma_as_map_at(s, p);
    }
    assert(as_map(t) =~= as_map(s).insert(time, value));
}

/// The history of one entity: its records, each under the millisecond at
/// which it was taken, in the order of their times.
#[derive(Debug)]
pub struct History<T: PartialEq> {
    entries: Vec<(u64, T)>,
}

impl<T: PartialEq> View for History<T> {
    type V = Map<u64, T>;

    closed spec fn view(&self) -> Map<u64, T> {
        as_map(self.entries@)
    }
}

impl<T: PartialEq> Default for History<T> {
    /// A history without records.
    fn default() -> (history: History<T>)
        ensures
            history@ == Map::<u64, T>::empty(),
            charted(history@),
    {
        History::new()
    }
}

impl<T: PartialEq> History<T> {
    #[verifier::type_invariant]
    spec fn ordered(&self) -> bool {
        increasing(self.entries@)
    }

    /// A history without records.
    pub fn new() -> (history: History<T>)
        ensures
            history@ == Map::<u64, T>::empty(),
            charted(history@),
    {
        let history = History { entries: Vec::new() };
        assert(history@ =~= Map::<u64, T>::empty());
        proof {
            lemma_timeline_of(history.entries@);
        }
        history
    }

    /// The number of records.
    pub fn len(&self) -> (n: usize)
        ensures
            n == timeline_of(self@).len(),
    {
        proof {
            use_type_invariant(self);
            lemma_timeline_of(self.entries@);
        }
        self.entries.len()
    }

    /// The record at place `i` in the order of the times: its time and its
    /// value.
    pub fn at(&self, i: usize) -> (record: (u64, &T))
        requires
            i < timeline_of(self@).len(),
        ensures
            record.0 == timeline_of(self@)[i as int].0,
            *record.1 == timeline_of(self@)[i as int].1,
    {
        proof {
            use_type_invariant(self);
            lemma_timeline_of(self.entries@);
        }
        (self.entries[i].0, &self.entries[i].1)
    }

    /// The number of records taken no later than `time`.
    fn rank(&self, time: u64) -> (n: usize)
        ensures
            n <= self.entries@.len(),
            forall|i: int| 0 <= i < n ==> self.entries@[i].0 <= time,
            forall|i: int| n <= i < self.entries@.len() ==> self.entries@[i].0 > time,
    {
        proof {
            use_type_invariant(self);
        }
        let mut lo: usize = 0;
        let mut hi: usize = self.entries.len();
        while lo < hi
            invariant
                lo <= hi <= self.entries@.len(),
                increasing(self.entries@),
                forall|i: int| 0 <= i < lo ==> self.entries@[i].0 <= time,
                forall|i: int| hi <= i < self.entries@.len() ==> self.entries@[i].0 > time,
            decreases hi - lo,
        {
            let mid: usize = lo + (hi - lo) / 2;
            if self.entries[mid].0 <= time {
                lo = mid + 1;
            } else {
                hi = mid;
            }
        }
        lo
    }

    /// The record in force at `time`: the last one taken no later than
    /// `time`, if there is one.
    pub fn get(&self, time: u64) -> (found: Option<&T>)
        ensures
            match found {
                Some(value) => exists|at: u64| latest(self@, time, at) && self@[at] == *value,
                None => forall|at: u64| self@.contains_key(at) ==> at > time,
            },
            match found {
                Some(value) => in_force(self@, time) == Some(*value),
                None => in_force(self@, time) is None,
            },
    {
        proof {
            use_type_invariant(self);
        }
        let n = self.rank(time);
        if n == 0 {
            assert forall|at: u64| self@.contains_key(at) implies at > time by {
                let p = place(self.entries@, at);
                assert(self.entries@[p].0 == at);
            }
            None
        } else {
            let value = &self.entries[n - 1].1;
            proof {
                let s = self.entries@;
                let at = s[n - 1].0;
                lemma_as_map_at(s, n - 1);
                assert forall|other: u64| self@.contains_key(other) && other <= time implies other
                    <= at by {
                    let p = place(s, other);
                    assert(s[p].0 == other);
                    if p > n - 1 {
                        assert(s[p].0 > time);
                    } else if p < n - 1 {
                        assert(s[p].0 < s[n - 1].0);
                    }
                }
                assert(latest(self@, time, at));
                let chosen = choose|at: u64| latest(self@, time, at);
                assert(chosen <= at && at <= chosen);
            }
            Some(value)
        }
    }

    /// Takes the records out and leaves none.
    fn take(&mut self) -> (entries: Vec<(u64, T)>)
        ensures
            entries@ == old(self).entries@,
            final(self).entries@ == Seq::<(u64, T)>::empty(),
    {
        let mut taken = History { entries: Vec::new() };
        core::mem::swap(self, &mut taken);
        taken.entries
    }

    /// Puts `value` under `time`, in place of the record taken at that very
    /// time if there is one, and hands that record's value back.
    pub fn insert(&mut self, time: u64, value: T) -> (prior: Option<T>)
        ensures
            final(self)@ == old(self)@.insert(time, value),
            prior == if old(self)@.contains_key(time) {
                Some(old(self)@[time])
            } else {
                None::<T>
            },
            charted(final(self)@),
    {
        proof {
            use_type_invariant(&*self);
        }
        let n = self.rank(time);
        if n > 0 && self.entries[n - 1].0 == time {
            proof {
                lemma_as_map_at(self.entries@, n - 1);
                lemma_as_map_update(self.entries@, n - 1, value);
            }
            let mut entries = self.take();
            let entry = entries.remove(n - 1);
            entries.insert(n - 1, (time, value));
            assert(entries@ =~= old(self).entries@.update(n - 1, (time, value)));
            proof {
                lemma_timeline_of(entries@);
            }
            *self = History { entries };
            Some(entry.1)
        } else {
            proof {
                assert forall|i: int| 0 <= i < n implies self.entries@[i].0 < time by {
                    if i < n - 1 {
                        assert(self.entries@[i].0 < self.entries@[n - 1].0);
                    }
                }
                lemma_as_map_insert(self.entries@, n as int, time, value);
            }
            let mut entries = self.take();
            entries.insert(n, (time, value));
            proof {
                lemma_timeline_of(entries@);
            }
            *self = History { entries };
            None
        }
    }

    /// Drops each record whose value equals that of the record kept before
    /// it, so that of a run of equal values only the first stays.
    pub fn dedup(&mut self)
        ensures
            T::obeys_eq_spec() ==> timeline_of(final(self)@) == collapse(timeline_of(old(self)@)),
            final(self)@.submap_of(old(self)@),
            charted(final(self)@),
            timeline_of(old(self)@).len() > 0 ==> timeline_of(final(self)@).len() > 0,
            timeline_of(old(self)@).len() > 0 ==> timeline_of(final(self)@)[0] == timeline_of(
                old(self)@,
            )[0],
    {
        proof {
            use_type_invariant(&*self);
            lemma_timeline_of(self.entries@);
        }
        let ghost before = self.entries@;
        let entries = self.take();
        let mut kept: Vec<(u64, T)> = Vec::new();
        for entry in it: entries
            invariant
                it.seq() == before,
                increasing(before),
                T::obeys_eq_spec() ==> kept@ == collapse(before.take(it.index() as int)),
                kept@.len() <= it.index(),
                it.index() > 0 ==> kept@.len() > 0 && kept@[0] == before[0],
                increasing(kept@),
                forall|j: int, k: int|
                    0 <= j < kept@.len() && it.index() <= k < before.len() ==> kept@[j].0
                        < before[k].0,
                forall|j: int|
                    0 <= j < kept@.len() ==> as_map(before).contains_key(#[trigger] kept@[j].0)
                        && as_map(before)[kept@[j].0] == kept@[j].1,
        {
            let ghost i = it.index() as int;
            proof {
                assert(before.take(i + 1).drop_last() == before.take(i));
                assert(before.take(i + 1).last() == before[i]);
                lemma_as_map_at(before, i);
            }
            let n = kept.len();
            if n > 0 && entry.1 == kept[n - 1].1 {
            } else {
                kept.push(entry);
            }
        }
        proof {
            assert(before.take(before.len() as int) == before);
            assert forall|time: u64| as_map(kept@).contains_key(time) implies as_map(
                before,
            ).contains_key(time) && as_map(kept@)[time] == as_map(before)[time] by {
                let p = place(kept@, time);
                assert(kept@[p].0 == time);
                lemma_as_map_at(kept@, p);
            }
        }
        proof {
            lemma_timeline_of(kept@);
        }
        *self = History { entries: kept };
    }
}

} // verus!
