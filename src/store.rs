use vstd::prelude::*;

use crate::mission::{Mission, MissionView};

verus! {

broadcast use vstd::seq_lib::group_seq_properties;

/// The views of a sequence of missions.
pub open spec fn views(v: Seq<Mission>) -> Seq<MissionView> {
    v.map_values(|m: Mission| m@)
}

/// The mission, closed at `now` if it was ongoing.
pub open spec fn closed_at(m: MissionView, now: int) -> MissionView {
    if m.is_open() {
        MissionView { end_date: Some(now), ..m }
    } else {
        m
    }
}

/// Every ongoing mission closed at `now`; the others untouched.
pub open spec fn close_all(s: Seq<MissionView>, now: int) -> Seq<MissionView> {
    s.map_values(|m: MissionView| closed_at(m, now))
}

/// How many missions are ongoing.
pub open spec fn open_count(s: Seq<MissionView>) -> nat
    decreases s.len(),
{
    if s.len() == 0 {
        0
    } else {
        open_count(s.drop_last()) + if s.last().is_open() {
            1nat
        } else {
            0nat
        }
    }
}

/// The missions after `start` with `id`, `name` at `now`.
pub open spec fn started(s: Seq<MissionView>, id: int, name: Seq<char>, now: int) -> Seq<
    MissionView,
> {
    close_all(s, now).push(MissionView { id, name, start_date: now, end_date: None })
}

/// `k` is the mission started last; among equal starts, the one stored last.
pub open spec fn is_latest(s: Seq<MissionView>, k: int) -> bool {
    &&& 0 <= k < s.len()
    &&& forall|j: int| 0 <= j < s.len() ==> s[j].start_date <= s[k].start_date
    &&& forall|j: int| k < j < s.len() ==> s[j].start_date < s[k].start_date
}

/// `k` is the ongoing mission started last; among equal starts, the one
/// stored last.
pub open spec fn is_latest_open(s: Seq<MissionView>, k: int) -> bool {
    &&& 0 <= k < s.len()
    &&& s[k].is_open()
    &&& forall|j: int|
        0 <= j < s.len() && s[j].is_open() ==> s[j].start_date <= s[k].start_date
    &&& forall|j: int| k < j < s.len() && s[j].is_open() ==> s[j].start_date < s[k].start_date
}

/// The mission, ongoing again.
pub open spec fn reopened(m: MissionView) -> MissionView {
    MissionView { end_date: None, ..m }
}

/// The last `limit` missions stored, newest id first.
pub open spec fn recent(s: Seq<MissionView>, limit: nat) -> Seq<MissionView> {
    let n = if limit < s.len() {
        limit as int
    } else {
        s.len() as int
    };
    Seq::new(n as nat, |k: int| s[s.len() - 1 - k])
}

/// A mission belongs to a report from `from`: it started then or later, or
/// it is still ongoing.
pub open spec fn in_report(m: MissionView, from: int) -> bool {
    m.start_date >= from || m.is_open()
}

/// The missions of a report from `from`, in store order.
pub open spec fn report_missions(s: Seq<MissionView>, from: int) -> Seq<MissionView>
    decreases s.len(),
{
    if s.len() == 0 {
        s
    } else if in_report(s.last(), from) {
        report_missions(s.drop_last(), from).push(s.last())
    } else {
        report_missions(s.drop_last(), from)
    }
}

/// Latest start first.
pub open spec fn by_start_descending(s: Seq<MissionView>) -> bool {
    forall|i: int, j: int| 0 <= i < j < s.len() ==> s[i].start_date >= s[j].start_date
}

proof fn lemma_close_all_none_open(s: Seq<MissionView>, now: int)
    ensures
        open_count(close_all(s, now)) == 0,
    decreases s.len(),
{
    if s.len() > 0 {
        assert(close_all(s, now).drop_last() =~= close_all(s.drop_last(), now));
        lemma_close_all_none_open(s.drop_last(), now);
    }
}

proof fn lemma_none_open(s: Seq<MissionView>)
    requires
        open_count(s) == 0,
    ensures
        forall|k: int| 0 <= k < s.len() ==> !s[k].is_open(),
    decreases s.len(),
{
    if s.len() > 0 {
        lemma_none_open(s.drop_last());
        assert forall|k: int| 0 <= k < s.len() implies !s[k].is_open() by {
            if k < s.len() - 1 {
                assert(s[k] == s.drop_last()[k]);
            }
        }
    }
}

proof fn lemma_report_contains(s: Seq<MissionView>, from: int, m: MissionView)
    ensures
        report_missions(s, from).contains(m) <==> (s.contains(m) && in_report(m, from)),
    decreases s.len(),
{
    if s.len() > 0 {
        lemma_report_contains(s.drop_last(), from, m);
        assert(s =~= s.drop_last().push(s.last()));
        if s.contains(m) && m != s.last() {
            let k = choose|k: int| 0 <= k < s.len() && s[k] == m;
            assert(s.drop_last()[k] == m);
        }
        if s.drop_last().contains(m) {
            let k = choose|k: int| 0 <= k < s.drop_last().len() && s.drop_last()[k] == m;
            assert(s[k] == m);
        }
        if in_report(s.last(), from) {
            let r = report_missions(s.drop_last(), from);
            assert(r.push(s.last())[r.len() as int] == s.last());
            if r.contains(m) {
                let k = choose|k: int| 0 <= k < r.len() && r[k] == m;
                assert(r.push(s.last())[k] == m);
            }
        }
    }
}

/// Starting a mission at `now` leaves exactly one mission ongoing, the new
/// one, started at `now`; every mission that was ongoing is closed at `now`,
/// which is not before its own start while the clock does not go back. Since
/// this holds from any state, it holds after any sequence of starts.
pub proof fn lemma_start_single_active(s: Seq<MissionView>, id: int, name: Seq<char>, now: int)
    requires
        forall|k: int| 0 <= k < s.len() ==> s[k].start_date <= now,
    ensures
        open_count(started(s, id, name, now)) == 1,
        started(s, id, name, now).len() == s.len() + 1,
        started(s, id, name, now).last().is_open(),
        started(s, id, name, now).last().start_date == now,
        forall|k: int| 0 <= k < s.len() ==> !(#[trigger] started(s, id, name, now)[k]).is_open(),
        forall|k: int|
            0 <= k < s.len() && s[k].is_open() ==> started(s, id, name, now)[k].end_date == Some(
                now,
            ) && s[k].start_date <= now,
        forall|k: int|
            0 <= k < s.len() && !s[k].is_open() ==> started(s, id, name, now)[k] == s[k],
{
    let t = started(s, id, name, now);
    lemma_close_all_none_open(s, now);
    assert(t.drop_last() =~= close_all(s, now));
    lemma_none_open(close_all(s, now));
    assert forall|k: int| 0 <= k < s.len() implies !(#[trigger] t[k]).is_open() by {
        assert(t[k] == close_all(s, now)[k]);
    }
}

/// The missions after starting `names[i]` at `times[i]` in turn, the new
/// missions taking ids from `first_id` on.
pub open spec fn started_all(
    s: Seq<MissionView>,
    names: Seq<Seq<char>>,
    times: Seq<int>,
    first_id: int,
) -> Seq<MissionView>
    decreases names.len(),
{
    if names.len() == 0 || times.len() == 0 {
        s
    } else {
        started(
            started_all(s, names.drop_last(), times.drop_last(), first_id),
            first_id + names.len() - 1,
            names.last(),
            times.last(),
        )
    }
}

proof fn lemma_started_all_starts(
    s: Seq<MissionView>,
    names: Seq<Seq<char>>,
    times: Seq<int>,
    first_id: int,
)
    requires
        names.len() == times.len(),
        times.len() > 0,
        forall|k: int| 0 <= k < s.len() ==> s[k].start_date <= times[0],
        forall|i: int, j: int| 0 <= i < j < times.len() ==> times[i] <= times[j],
    ensures
        forall|k: int|
            0 <= k < started_all(s, names, times, first_id).len() ==> started_all(
                s,
                names,
                times,
                first_id,
            )[k].start_date <= times.last(),
    decreases names.len(),
{
    let p = started_all(s, names.drop_last(), times.drop_last(), first_id);
    if names.len() > 1 {
        lemma_started_all_starts(s, names.drop_last(), times.drop_last(), first_id);
        assert(times.drop_last().last() == times[times.len() - 2]);
    } else {
        assert(p == s);
    }
    assert forall|k: int| 0 <= k < p.len() implies p[k].start_date <= times.last() by {
        if names.len() > 1 {
            assert(p[k].start_date <= times[times.len() - 2]);
        }
    }
}

/// After any non-empty sequence of starts, at non-decreasing times that are
/// not before any stored start, exactly one mission is ongoing: the last one
/// started, which starts at the last time.
pub proof fn lemma_starts_single_active(
    s: Seq<MissionView>,
    names: Seq<Seq<char>>,
    times: Seq<int>,
    first_id: int,
)
    requires
        names.len() == times.len(),
        times.len() > 0,
        forall|k: int| 0 <= k < s.len() ==> s[k].start_date <= times[0],
        forall|i: int, j: int| 0 <= i < j < times.len() ==> times[i] <= times[j],
    ensures
        open_count(started_all(s, names, times, first_id)) == 1,
        started_all(s, names, times, first_id).last().is_open(),
        started_all(s, names, times, first_id).last().start_date == times.last(),
        started_all(s, names, times, first_id).last().name == names.last(),
{
    let p = started_all(s, names.drop_last(), times.drop_last(), first_id);
    if names.len() > 1 {
        lemma_started_all_starts(s, names.drop_last(), times.drop_last(), first_id);
        assert(times.drop_last().last() == times[times.len() - 2]);
    } else {
        assert(p == s);
    }
    assert forall|k: int| 0 <= k < p.len() implies p[k].start_date <= times.last() by {
        if names.len() > 1 {
            assert(p[k].start_date <= times[times.len() - 2]);
        }
    }
    lemma_start_single_active(p, first_id + names.len() - 1, names.last(), times.last());
}

/// Stopping when no mission is ongoing leaves every mission as it was, and
/// reports that none was closed.
pub proof fn lemma_stop_when_idle(s: Seq<MissionView>, now: int)
    requires
        open_count(s) == 0,
    ensures
        close_all(s, now) == s,
{
    lemma_none_open(s);
    assert(close_all(s, now) =~= s);
}

/// A report from `from` includes an ongoing mission that started before
/// `from` and a closed one that started at `from` or later, and excludes a
/// closed one that started before `from`.
pub proof fn lemma_report_union(
    s: Seq<MissionView>,
    from: int,
    a: MissionView,
    b: MissionView,
    c: MissionView,
)
    requires
        s.contains(a),
        s.contains(b),
        s.contains(c),
        !a.is_open() && a.start_date < from,
        b.is_open() && b.start_date < from,
        !c.is_open() && c.start_date >= from,
    ensures
        report_missions(s, from).to_multiset().count(b) > 0,
        report_missions(s, from).to_multiset().count(c) > 0,
        report_missions(s, from).to_multiset().count(a) == 0,
{
    broadcast use vstd::seq_lib::to_multiset_contains;

    lemma_report_contains(s, from, a);
    lemma_report_contains(s, from, b);
    lemma_report_contains(s, from, c);
}

/// Why the store refused an operation.
#[derive(Debug, PartialEq, Eq, Structural, Clone, Copy)]
pub enum StoreError {
    /// The loaded missions are not in strictly increasing id order.
    UnorderedIds,
    /// No further id can be assigned.
    IdsExhausted,
}

/// Counts of the missions in a store.
#[derive(Debug, PartialEq, Eq, Structural, Clone, Copy)]
pub struct StoreInfo {
    pub total: usize,
    pub running: usize,
    pub finished: usize,
}

/// All missions, in increasing id order, and the id that the next one gets.
pub struct MissionStore {
    missions: Vec<Mission>,
    next_id: i64,
}

impl View for MissionStore {
    type V = Seq<MissionView>;

    closed spec fn view(&self) -> Seq<MissionView> {
        views(self.missions@)
    }
}

impl MissionStore {
    /// The id that the next started mission receives.
    pub closed spec fn next_id(&self) -> int {
        self.next_id as int
    }

    /// Ids increase strictly along the store and stay below the next id.
    pub open spec fn wf(&self) -> bool {
        &&& forall|i: int, j: int|
            0 <= i < j < self@.len() ==> #[trigger] self@[i].id < #[trigger] self@[j].id
        &&& forall|i: int| 0 <= i < self@.len() ==> #[trigger] self@[i].id < self.next_id()
    }

    /// An empty store; the first mission gets id 1.
    pub fn new() -> (r: MissionStore)
        ensures
            r.wf(),
            r@.len() == 0,
            r.next_id() == 1,
    {
        MissionStore { missions: Vec::new(), next_id: 1 }
    }

    /// A store holding `missions`, which must come in strictly increasing id
    /// order and leave room for one more id.
    pub fn load(missions: Vec<Mission>) -> (r: Result<MissionStore, StoreError>)
        ensures
            r matches Ok(st) ==> st.wf(),
            r matches Ok(st) ==> st@ == views(missions@),
            r matches Ok(st) ==> missions@.len() == 0 ==> st.next_id() == 1,
            r matches Ok(st) ==> missions@.len() > 0 ==> st.next_id() == missions@.last().id + 1,
            r is Err <==> (exists|i: int, j: int|
                0 <= i < j < missions@.len() && missions@[i].id >= missions@[j].id) || (
            missions@.len() > 0 && missions@.last().id == i64::MAX),
            r is Err ==> (r == Err::<MissionStore, StoreError>(StoreError::UnorderedIds) || r
                == Err::<MissionStore, StoreError>(StoreError::IdsExhausted)),
    {
        let n = missions.len();
        let mut i: usize = 1;
        while i < n
            invariant
                n == missions@.len(),
                1 <= i,
                forall|a: int, b: int|
                    0 <= a < b < n && b < i ==> missions@[a].id < missions@[b].id,
            decreases n - i,
        {
            if missions[i - 1].id >= missions[i].id {
                return Err(StoreError::UnorderedIds);
            }
            i = i + 1;
        }
        if n == 0 {
            return Ok(MissionStore { missions, next_id: 1 });
        }
        let last = missions[n - 1].id;
        if last == i64::MAX {
            return Err(StoreError::IdsExhausted);
        }
        assert(forall|a: int| 0 <= a < n ==> missions@[a].id <= last) by {
            assert forall|a: int| 0 <= a < n implies missions@[a].id <= last by {
                if a < n - 1 {
                    assert(missions@[a].id < missions@[n - 1].id);
                }
            }
        }
        let st = MissionStore { missions, next_id: last + 1 };
        assert forall|a: int, b: int| 0 <= a < b < st@.len() implies #[trigger] st@[a].id
            < #[trigger] st@[b].id by {
            assert(st@[a] == st.missions@[a]@);
            assert(st@[b] == st.missions@[b]@);
        }
        assert forall|a: int| 0 <= a < st@.len() implies #[trigger] st@[a].id < st.next_id() by {
            assert(st@[a] == st.missions@[a]@);
        }
        Ok(st)
    }

    /// The id that the next started mission receives.
    pub fn next_mission_id(&self) -> (r: i64)
        ensures
            r == self.next_id(),
    {
        self.next_id
    }

    /// Closes every ongoing mission at `now`; returns how many were closed.
    pub fn stop_active_missions(&mut self, now: i64) -> (r: usize)
        requires
            old(self).wf(),
        ensures
            final(self).wf(),
            final(self).next_id() == old(self).next_id(),
            final(self)@ == close_all(old(self)@, now as int),
            r == open_count(old(self)@),
    {
        let n = self.missions.len();
        let mut i: usize = 0;
        let mut count: usize = 0;
        while i < n
            invariant
                n == old(self)@.len(),
                n == self.missions@.len(),
                i <= n,
                self.next_id == old(self).next_id,
                forall|j: int| 0 <= j < i ==> self@[j] == closed_at(old(self)@[j], now as int),
                forall|j: int| i <= j < n ==> self@[j] == old(self)@[j],
                count == open_count(old(self)@.take(i as int)),
                count <= i,
            decreases n - i,
        {
            assert(old(self)@.take(i + 1).drop_last() == old(self)@.take(i as int));
            let ghost before = self@;
            let m = &self.missions[i];
            if m.end_date.is_none() {
                let closed = Mission {
                    id: m.id,
                    name: m.name.clone(),
                    start_date: m.start_date,
                    end_date: Some(now),
                };
                self.missions.set(i, closed);
                assert(self@ =~= before.update(i as int, closed_at(before[i as int], now as int)));
                count = count + 1;
            }
            i = i + 1;
        }
        assert(old(self)@.take(n as int) == old(self)@);
        assert(self@ == close_all(old(self)@, now as int));
        count
    }

    /// Closes every ongoing mission at `now`, then opens a new one named
    /// `name` that starts at `now`. Fails, changing nothing, when no id is left.
    pub fn start_mission(&mut self, name: String, now: i64) -> (r: Result<Mission, StoreError>)
        requires
            old(self).wf(),
        ensures
            final(self).wf(),
            r is Err <==> old(self).next_id() == i64::MAX,
            r is Err ==> {
                &&& r == Err::<Mission, StoreError>(StoreError::IdsExhausted)
                &&& final(self)@ == old(self)@
                &&& final(self).next_id() == old(self).next_id()
            },
            r matches Ok(m) ==> {
                &&& m@ == (MissionView {
                    id: old(self).next_id(),
                    name: name@,
                    start_date: now as int,
                    end_date: None,
                })
                &&& final(self)@ == started(old(self)@, old(self).next_id(), name@, now as int)
                &&& final(self).next_id() == old(self).next_id() + 1
            },
    {
        if self.next_id == i64::MAX {
            return Err(StoreError::IdsExhausted);
        }
        self.stop_active_missions(now);
        let id = self.next_id;
        let mission = Mission::new(id, name, now);
        let ghost before = self@;
        self.missions.push(mission.clone_mission());
        self.next_id = id + 1;
        assert(self@ =~= before.push(mission@));
        Ok(mission)
    }

    /// Reopens the mission started last (among equal starts, the one stored
    /// last), whatever its state; other ongoing missions stay open. Returns
    /// its position, or `None` on an empty store.
    pub fn resume_latest_mission(&mut self) -> (r: Option<usize>)
        requires
            old(self).wf(),
        ensures
            final(self).wf(),
            final(self).next_id() == old(self).next_id(),
            r is None <==> old(self)@.len() == 0,
            r is None ==> final(self)@ == old(self)@,
            r matches Some(k) ==> is_latest(old(self)@, k as int) && final(self)@ == old(
                self,
            )@.update(k as int, reopened(old(self)@[k as int])),
    {
        let n = self.missions.len();
        if n == 0 {
            return None;
        }
        let mut best: usize = 0;
        let mut i: usize = 1;
        while i < n
            invariant
                n == self@.len(),
                self@ == old(self)@,
                0 <= best < i <= n,
                forall|j: int| 0 <= j < i ==> self@[j].start_date <= self@[best as int].start_date,
                forall|j: int|
                    best < j < i ==> self@[j].start_date < self@[best as int].start_date,
            decreases n - i,
        {
            if self.missions[i].start_date >= self.missions[best].start_date {
                best = i;
            }
            i = i + 1;
        }
        let ghost before = self@;
        let m = &self.missions[best];
        let open = Mission {
            id: m.id,
            name: m.name.clone(),
            start_date: m.start_date,
            end_date: None,
        };
        self.missions.set(best, open);
        assert(self@ =~= before.update(best as int, reopened(before[best as int])));
        Some(best)
    }

    /// The ongoing mission started last (among equal starts, the one stored
    /// last), if any mission is ongoing.
    pub fn active_mission(&self) -> (r: Option<Mission>)
        ensures
            r is None <==> forall|k: int| 0 <= k < self@.len() ==> !self@[k].is_open(),
            r matches Some(m) ==> exists|k: int| is_latest_open(self@, k) && self@[k] == m@,
    {
        let n = self.missions.len();
        let mut best: Option<usize> = None;
        let mut i: usize = 0;
        while i < n
            invariant
                n == self@.len(),
                i <= n,
                best is None ==> forall|j: int| 0 <= j < i ==> !self@[j].is_open(),
                best matches Some(b) ==> {
                    &&& b < i
                    &&& self@[b as int].is_open()
                    &&& forall|j: int|
                        0 <= j < i && self@[j].is_open() ==> self@[j].start_date
                            <= self@[b as int].start_date
                    &&& forall|j: int|
                        b < j < i && self@[j].is_open() ==> self@[j].start_date
                            < self@[b as int].start_date
                },
            decreases n - i,
        {
            if self.missions[i].end_date.is_none() {
                match best {
                    Some(b) => {
                        if self.missions[i].start_date >= self.missions[b].start_date {
                            best = Some(i);
                        }
                    },
                    None => {
                        best = Some(i);
                    },
                }
            }
            i = i + 1;
        }
        match best {
            Some(b) => {
                let m = self.missions[b].clone_mission();
                assert(is_latest_open(self@, b as int));
                Some(m)
            },
            None => None,
        }
    }

    /// The last `limit` missions stored, newest id first.
    pub fn list_missions(&self, limit: usize) -> (r: Vec<Mission>)
        ensures
            views(r@) == recent(self@, limit as nat),
    {
        let n = self.missions.len();
        let count: usize = if limit < n {
            limit
        } else {
            n
        };
        let mut out: Vec<Mission> = Vec::new();
        let mut k: usize = 0;
        while k < count
            invariant
                n == self@.len(),
                count <= n,
                count == recent(self@, limit as nat).len(),
                k <= count,
                views(out@) == recent(self@, limit as nat).take(k as int),
            decreases count - k,
        {
            let m = self.missions[n - 1 - k].clone_mission();
            let ghost before = views(out@);
            out.push(m);
            assert(views(out@) =~= before.push(m@));
            assert(recent(self@, limit as nat).take(k + 1) =~= recent(self@, limit as nat).take(
                k as int,
            ).push(m@));
            k = k + 1;
        }
        assert(recent(self@, limit as nat).take(count as int) =~= recent(self@, limit as nat));
        out
    }

    /// The missions started at `from` or later, together with every ongoing
    /// mission however old, latest start first.
    pub fn missions_since(&self, from: i64) -> (r: Vec<Mission>)
        ensures
            by_start_descending(views(r@)),
            views(r@).to_multiset() == report_missions(self@, from as int).to_multiset(),
    {
        broadcast use vstd::seq_lib::to_multiset_build, vstd::seq_lib::to_multiset_insert;

        let n = self.missions.len();
        let mut out: Vec<Mission> = Vec::new();
        let mut i: usize = 0;
        while i < n
            invariant
                n == self@.len(),
                i <= n,
                by_start_descending(views(out@)),
                views(out@).to_multiset() == report_missions(
                    self@.take(i as int),
                    from as int,
                ).to_multiset(),
            decreases n - i,
        {
            assert(self@.take(i + 1).drop_last() == self@.take(i as int));
            let m = &self.missions[i];
            if m.start_date >= from || m.end_date.is_none() {
                let mut p: usize = 0;
                while p < out.len() && out[p].start_date >= m.start_date
                    invariant
                        p <= out@.len(),
                        forall|q: int| 0 <= q < p ==> views(out@)[q].start_date >= m.start_date,
                    decreases out@.len() - p,
                {
                    p = p + 1;
                }
                let ghost before = views(out@);
                let item = m.clone_mission();
                out.insert(p, item);
                assert(views(out@) =~= before.insert(p as int, item@));
                assert(by_start_descending(views(out@))) by {
                    assert forall|a: int, b: int|
                        0 <= a < b < views(out@).len() implies views(out@)[a].start_date
                        >= views(out@)[b].start_date by {
                        if p < before.len() {
                            assert(before[p as int].start_date < item@.start_date);
                        }
                    }
                }
            }
            i = i + 1;
        }
        assert(self@.take(n as int) == self@);
        out
    }

    /// The counts of all, ongoing and closed missions.
    pub fn info(&self) -> (r: StoreInfo)
        ensures
            r.total == self@.len(),
            r.running == open_count(self@),
            r.finished == self@.len() - open_count(self@),
    {
        let n = self.missions.len();
        let mut running: usize = 0;
        let mut i: usize = 0;
        while i < n
            invariant
                n == self@.len(),
                i <= n,
                running == open_count(self@.take(i as int)),
                running <= i,
            decreases n - i,
        {
            assert(self@.take(i + 1).drop_last() == self@.take(i as int));
            if self.missions[i].end_date.is_none() {
                running = running + 1;
            }
            i = i + 1;
        }
        assert(self@.take(n as int) == self@);
        StoreInfo { total: n, running, finished: n - running }
    }

    /// The missions in increasing id order.
    pub fn missions(&self) -> (r: &Vec<Mission>)
        ensures
            views(r@) == self@,
    {
        &self.missions
    }
}

} // verus!
