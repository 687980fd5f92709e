//! Decisions of the control task: which requests go out to the measure,
//! compute, comms and monitor tasks, and how each response moves the sector
//! list, the clock reference and the latest readings.
//!
//! The task itself (waiting on channels and timers, calling the scheduler and
//! the flash) runs the loop around these functions; every function here maps
//! the control state and one event to the next state and the requests to send.
use vstd::prelude::*;
use crate::hvec::{sector_items, sectors_new, sectors_push};
use crate::messages::{IntReqMsg, IntResMsg};
use crate::monitor::MonResMsg;
use crate::realtime::{pico_secs, spec_diff_wrapping, Deviation, RealTime};
use crate::types::config::Config;
use crate::types::sector::{first_in_state, first_with_uid, lemma_first_in_state, models, same_but_state, Sector, SectorList, SectorModel, SectorState};
use crate::types::{MAX_SECTORS, SECONDS_PER_DAY};

verus! {

/// Whether the real time is known.
#[derive(PartialEq, Eq, Clone, Copy, Debug, Structural)]
pub enum RealtimeStatus {
    NotAvailable,
    Requested,
    Available,
}

/// State of the control task.
pub struct Control {
    pub config: Config,
    pub realtime: RealTime,
    pub realtime_status: RealtimeStatus,
    pub sectors: SectorList,
    pub sleep_until_time: Option<u32>,
    pub sleep_until_date: Option<u32>,
    /// Latest battery voltage in mV.
    pub battery_mv: Option<u32>,
    /// Latest chip temperature, as the bit pattern of its `f32` value in °C.
    pub chip_c_bits: Option<u32>,
    pub charge_state_fraction: u8,
    pub reset_charge_state_monitor: bool,
}

/// Requests that one round of the control loop sends out.
pub struct Requests {
    /// Ask the measure task for the reference time.
    pub ref_time: bool,
    /// Ask the measure task to measure this sector; the flag tells it to put the
    /// receiver to sleep afterwards.
    pub measure: Option<(Sector, bool)>,
    /// Ask the compute task to compute each of these sectors, in order.
    pub compute: heapless::Vec<Sector, MAX_SECTORS>,
    /// Ask the comms task to send these sectors (no request when empty).
    pub communicate: heapless::Vec<Sector, MAX_SECTORS>,
    /// Ask the monitor task to reset its charge-state statistics.
    pub reset_monitor: bool,
}

/// The sectors of `s` in state `st`, in order.
pub open spec fn in_state(s: Seq<SectorModel>, st: SectorState) -> Seq<SectorModel>
    decreases s.len(),
{
    if s.len() == 0 {
        Seq::empty()
    } else {
        let p = in_state(s.drop_last(), st);
        if s.last().state == st {
            p.push(s.last())
        } else {
            p
        }
    }
}

/// Every sector in state `from` moved to state `to`.
pub open spec fn moved(s: Seq<SectorModel>, from: SectorState, to: SectorState) -> Seq<SectorModel> {
    s.map_values(|x: SectorModel| if x.state == from { x.with_state(to) } else { x })
}

/// The sectors of `s` in state `from`, in order, as they are once moved to `to`.
pub open spec fn picked(s: Seq<SectorModel>, from: SectorState, to: SectorState) -> Seq<SectorModel> {
    in_state(s, from).map_values(|x: SectorModel| x.with_state(to))
}

/// The distance between the two times of day is defined (no underflow).
pub open spec fn diff_defined(t1: u32, t2: u32) -> bool {
    t1 - t2 <= SECONDS_PER_DAY && t2 - t1 <= SECONDS_PER_DAY
}

/// The window of `s` ends without overflow.
pub open spec fn end_defined(s: SectorModel) -> bool {
    s.start_time + s.n_bins * s.seconds_per_bin <= u32::MAX
}

/// Scanning the measuring sectors `ms` in order for one that starts within 30 s
/// of `end` runs without underflow up to the first such sector.
pub open spec fn scan_ok(ms: Seq<SectorModel>, end: u32) -> bool
    decreases ms.len(),
{
    if ms.len() == 0 {
        true
    } else {
        diff_defined(ms[0].start_time, end)
            && (spec_diff_wrapping(ms[0].start_time, end) < 30 || scan_ok(ms.drop_first(), end))
    }
}

/// Some sector of `ms` starts within 30 s of `end`, round the clock.
pub open spec fn succeeded(ms: Seq<SectorModel>, end: u32) -> bool {
    exists|j: int| 0 <= j < ms.len() && spec_diff_wrapping(#[trigger] ms[j].start_time, end) < 30
}

/// A measurement request would go out in this round: the time is known and a
/// sector waits to be measured.
pub open spec fn measure_due(status: RealtimeStatus, s: Seq<SectorModel>) -> bool {
    status == RealtimeStatus::Available && first_in_state(s, SectorState::TO_MEASURE) is Some
}

/// The sectors after the measurement dispatch of a round.
pub open spec fn after_measure_dispatch(status: RealtimeStatus, s: Seq<SectorModel>) -> Seq<SectorModel> {
    if measure_due(status, s) {
        let i = first_in_state(s, SectorState::TO_MEASURE).unwrap();
        s.update(i, s[i].with_state(SectorState::MEASURING))
    } else {
        s
    }
}

/// The sectors after a whole round of dispatch.
pub open spec fn after_dispatch(status: RealtimeStatus, s: Seq<SectorModel>) -> Seq<SectorModel> {
    moved(
        moved(after_measure_dispatch(status, s), SectorState::TO_COMPUTE, SectorState::COMPUTING),
        SectorState::TO_COMMUNICATE,
        SectorState::COMMUNICATING,
    )
}

/// The round of dispatch runs without a panic.
pub open spec fn dispatch_ok(status: RealtimeStatus, s: Seq<SectorModel>) -> bool {
    measure_due(status, s) ==> {
        let t = s[first_in_state(s, SectorState::TO_MEASURE).unwrap()];
        end_defined(t) && scan_ok(in_state(s, SectorState::MEASURING), t.end_time() as u32)
    }
}

/// A round of dispatch keeps every sector in its place and only moves it on:
/// afterwards no sector waits to be computed or sent, at most one sector left
/// "to measure" (the first, and only once the time is known), and every other
/// sector keeps its state.
pub proof fn lemma_dispatch_moves_on(status: RealtimeStatus, s: Seq<SectorModel>)
    ensures
        after_dispatch(status, s).len() == s.len(),
        forall|i: int| 0 <= i < s.len() ==> (#[trigger] after_dispatch(status, s)[i]).uid == s[i].uid,
        forall|i: int| 0 <= i < s.len() ==> (#[trigger] after_dispatch(status, s)[i]).state != SectorState::TO_COMPUTE
            && after_dispatch(status, s)[i].state != SectorState::TO_COMMUNICATE,
        forall|i: int| 0 <= i < s.len() && s[i].state == SectorState::TO_COMPUTE
            ==> (#[trigger] after_dispatch(status, s)[i]).state == SectorState::COMPUTING,
        forall|i: int| 0 <= i < s.len() && s[i].state == SectorState::TO_COMMUNICATE
            ==> (#[trigger] after_dispatch(status, s)[i]).state == SectorState::COMMUNICATING,
        forall|i: int| 0 <= i < s.len() && s[i].state == SectorState::TO_MEASURE
            ==> (#[trigger] after_dispatch(status, s)[i]).state == (if measure_due(status, s)
                && first_in_state(s, SectorState::TO_MEASURE) == Some(i) {
                SectorState::MEASURING
            } else {
                SectorState::TO_MEASURE
            }),
        forall|i: int| 0 <= i < s.len() && s[i].state != SectorState::TO_MEASURE && s[i].state != SectorState::TO_COMPUTE
            && s[i].state != SectorState::TO_COMMUNICATE ==> (#[trigger] after_dispatch(status, s)[i]) == s[i],
{
    let a = after_measure_dispatch(status, s);
    if measure_due(status, s) {
        lemma_first_in_state(s, SectorState::TO_MEASURE);
    }
    assert(a.len() == s.len());
}

proof fn lemma_in_state_concat(a: Seq<SectorModel>, b: Seq<SectorModel>, st: SectorState)
    ensures
        in_state(a + b, st) == in_state(a, st) + in_state(b, st),
    decreases b.len(),
{
    if b.len() == 0 {
        assert(a + b =~= a);
        assert(in_state(a, st) + in_state(b, st) =~= in_state(a, st));
    } else {
        lemma_in_state_concat(a, b.drop_last(), st);
        assert((a + b).drop_last() =~= a + b.drop_last());
        assert((a + b).last() == b.last());
        if b.last().state == st {
            assert(in_state(a, st) + in_state(b, st) =~= (in_state(a, st) + in_state(b.drop_last(), st)).push(b.last()));
        }
    }
}

proof fn lemma_in_state_skip(s: Seq<SectorModel>, i: int, st: SectorState)
    requires
        0 <= i < s.len(),
    ensures
        in_state(s.skip(i), st) == (if s[i].state == st {
            seq![s[i]] + in_state(s.skip(i + 1), st)
        } else {
            in_state(s.skip(i + 1), st)
        }),
{
    let x = seq![s[i]];
    assert(s.skip(i) =~= x + s.skip(i + 1));
    lemma_in_state_concat(x, s.skip(i + 1), st);
    assert(x.drop_last() =~= Seq::<SectorModel>::empty());
    reveal_with_fuel(in_state, 2);
    if s[i].state == st {
        assert(in_state(x, st) =~= x);
    } else {
        assert(in_state(x, st) =~= Seq::<SectorModel>::empty());
        assert(in_state(x, st) + in_state(s.skip(i + 1), st) =~= in_state(s.skip(i + 1), st));
    }
}

/// A configuration taken from the terminal restarts the cycle: the next round
/// of dispatch can run, asks for the reference time again, and sends no
/// measurement, computation or transmission.
pub proof fn lemma_config_restarts(old: Control, new: Control, cfg: Config)
    requires
        config_set(old, new, cfg),
        all_awaiting(old.sectors@),
    ensures
        dispatch_ok(new.realtime_status, new.sectors@),
        new.realtime_status == RealtimeStatus::NotAvailable,
        !measure_due(new.realtime_status, new.sectors@),
        in_state(new.sectors@, SectorState::TO_COMPUTE).len() == 0,
        in_state(new.sectors@, SectorState::TO_COMMUNICATE).len() == 0,
        after_dispatch(new.realtime_status, new.sectors@).len() == 0,
{
}

proof fn lemma_in_state_len(s: Seq<SectorModel>, st: SectorState)
    ensures
        in_state(s, st).len() <= s.len(),
    decreases s.len(),
{
    if s.len() > 0 {
        lemma_in_state_len(s.drop_last(), st);
    }
}

proof fn lemma_scan(ms: Seq<SectorModel>, end: u32)
    requires
        scan_ok(ms, end),
    ensures
        forall|k: int| 0 <= k <= ms.len() && !succeeded(ms.take(k), end) ==> scan_ok(ms.skip(k), end),
    decreases ms.len(),
{
    assert forall|k: int| 0 <= k <= ms.len() && !succeeded(ms.take(k), end) implies scan_ok(ms.skip(k), end) by {
        if k == 0 {
            assert(ms.skip(0) =~= ms);
        } else {
            assert(ms.take(k)[0] == ms[0]);
            assert(spec_diff_wrapping(ms[0].start_time, end) >= 30);
            lemma_scan(ms.drop_first(), end);
            assert(ms.drop_first().take(k - 1) =~= ms.take(k).drop_first());
            if succeeded(ms.drop_first().take(k - 1), end) {
                let j = choose|j: int| 0 <= j < ms.drop_first().take(k - 1).len()
                    && spec_diff_wrapping(#[trigger] ms.drop_first().take(k - 1)[j].start_time, end) < 30;
                assert(ms.take(k)[j + 1] == ms.drop_first().take(k - 1)[j]);
            }
            assert(ms.drop_first().skip(k - 1) =~= ms.skip(k));
        }
    }
}

impl SectorList {
    /// Moves every sector in state `from` to state `to` and returns copies of
    /// the moved sectors, in order.
    pub fn advance_all(&mut self, from: SectorState, to: SectorState) -> (r: heapless::Vec<Sector, MAX_SECTORS>)
        ensures
            final(self)@ == moved(old(self)@, from, to),
            models(sector_items(r)) == picked(old(self)@, from, to),
            final(self).changed_flag() == old(self).changed_flag(),
    {
        let ghost s0 = self@;
        let n = self.len();
        let mut out = sectors_new();
        let mut i: usize = 0;
        while i < n
            invariant
                n == s0.len(),
                n <= MAX_SECTORS,
                i <= n,
                self@.len() == n,
                self.changed_flag() == old(self).changed_flag(),
                forall|k: int| 0 <= k < i ==> #[trigger] self@[k] == (if s0[k].state == from { s0[k].with_state(to) } else { s0[k] }),
                forall|k: int| i <= k < n ==> #[trigger] self@[k] == s0[k],
                models(sector_items(out)) == picked(s0.take(i as int), from, to),
                sector_items(out).len() <= i,
            decreases n - i,
        {
            proof {
                assert(s0.take(i + 1).drop_last() =~= s0.take(i as int));
                lemma_in_state_len(s0.take(i as int), from);
            }
            let st = self.get(i).get_state();
            if st == from {
                let s = self.get_mut(i);
                s.set_state(to);
                let c = *s;
                let ghost before = models(sector_items(out));
                let r = sectors_push(&mut out, c);
                proof {
                    assert(r is Ok);
                    assert(models(sector_items(out)) =~= before.push(c@));
                    assert(picked(s0.take(i + 1), from, to) =~= picked(s0.take(i as int), from, to).push(s0[i as int].with_state(to)));
                }
            } else {
                proof {
                    assert(picked(s0.take(i + 1), from, to) =~= picked(s0.take(i as int), from, to));
                }
            }
            i = i + 1;
        }
        proof {
            assert(s0.take(n as int) =~= s0);
            assert(self@ =~= moved(s0, from, to));
        }
        out
    }

    /// Whether some sector in state `MEASURING` starts within 30 s of where
    /// `target` ends.
    pub fn has_succeeding(&self, target: &Sector) -> (r: bool)
        requires
            end_defined(target@),
            scan_ok(in_state(self@, SectorState::MEASURING), target@.end_time() as u32),
        ensures
            r == succeeded(in_state(self@, SectorState::MEASURING), target@.end_time() as u32),
    {
        let ghost ms = in_state(self@, SectorState::MEASURING);
        let ghost end = target@.end_time() as u32;
        let n = self.len();
        let mut i: usize = 0;
        let ghost seen: Seq<SectorModel> = Seq::empty();
        proof {
            lemma_scan(ms, end);
            lemma_in_state_prefix(self@, SectorState::MEASURING);
        }
        while i < n
            invariant
                n == self@.len(),
                i <= n,
                ms == in_state(self@, SectorState::MEASURING),
                end == target@.end_time() as u32,
                end_defined(target@),
                seen == in_state(self@.take(i as int), SectorState::MEASURING),
                seen.len() <= ms.len(),
                seen == ms.take(seen.len() as int),
                !succeeded(seen, end),
                scan_ok(ms, end),
                forall|k: int| 0 <= k <= ms.len() && !succeeded(ms.take(k), end) ==> scan_ok(ms.skip(k), end),
                forall|m: int| 0 <= m <= n ==> {
                    let p = #[trigger] in_state(self@.take(m), SectorState::MEASURING);
                    p.len() <= ms.len() && p == ms.take(p.len() as int)
                },
            decreases n - i,
        {
            let s = self.get(i);
            let ghost next = in_state(self@.take(i + 1), SectorState::MEASURING);
            proof {
                assert(self@.take(i + 1).drop_last() =~= self@.take(i as int));
            }
            if s.get_state() == SectorState::MEASURING {
                proof {
                    assert(next == seen.push(self@[i as int]));
                    assert(scan_ok(ms.skip(seen.len() as int), end));
                    assert(ms.skip(seen.len() as int)[0] == ms[seen.len() as int]);
                    assert(ms[seen.len() as int] == next[seen.len() as int]);
                }
                if s.is_succeeding(target) {
                    proof {
                        assert(next[seen.len() as int] == self@[i as int]);
                        assert(ms[seen.len() as int] == self@[i as int]);
                        assert(spec_diff_wrapping(ms[seen.len() as int].start_time, end) < 30);
                    }
                    return true;
                }
                proof {
                    if succeeded(next, end) {
                        let j = choose|j: int| 0 <= j < next.len() && spec_diff_wrapping(#[trigger] next[j].start_time, end) < 30;
                        if j < seen.len() {
                            assert(seen[j] == next[j]);
                        }
                    }
                }
            } else {
                proof {
                    assert(next == seen);
                }
            }
            proof {
                seen = next;
            }
            i = i + 1;
        }
        proof {
            assert(self@.take(n as int) =~= self@);
        }
        false
    }
}

/// The sectors after marking the first sector with each uid of `uids`, in
/// turn, with state `st`.
pub open spec fn mark_all(s: Seq<SectorModel>, uids: Seq<u32>, st: SectorState) -> Seq<SectorModel>
    decreases uids.len(),
{
    if uids.len() == 0 {
        s
    } else {
        let prev = mark_all(s, uids.drop_last(), st);
        match first_with_uid(prev, uids.last()) {
            Some(i) => prev.update(i, prev[i].with_state(st)),
            None => prev,
        }
    }
}

/// The sectors after deleting the first sector with each uid of `uids`, in turn.
pub open spec fn delete_all(s: Seq<SectorModel>, uids: Seq<u32>) -> Seq<SectorModel>
    decreases uids.len(),
{
    if uids.len() == 0 {
        s
    } else {
        let prev = delete_all(s, uids.drop_last());
        match first_with_uid(prev, uids.last()) {
            Some(i) => prev.remove(i),
            None => prev,
        }
    }
}

/// Every uid of `uids` names a sector of `s`.
pub open spec fn all_present(s: Seq<SectorModel>, uids: Seq<u32>) -> bool {
    forall|k: int| 0 <= k < uids.len() ==> (#[trigger] first_with_uid(s, uids[k])) is Some
}

proof fn lemma_first_with_uid(s: Seq<SectorModel>, uid: u32)
    ensures
        first_with_uid(s, uid) matches Some(i) ==> 0 <= i < s.len() && s[i].uid == uid
            && forall|j: int| 0 <= j < i ==> s[j].uid != uid,
        first_with_uid(s, uid) is None ==> forall|j: int| 0 <= j < s.len() ==> s[j].uid != uid,
{
    if exists|i: int| 0 <= i < s.len() && s[i].uid == uid {
        lemma_least_uid(s, uid, 0);
    }
}

proof fn lemma_least_uid(s: Seq<SectorModel>, uid: u32, k: int)
    requires
        0 <= k <= s.len(),
        forall|j: int| 0 <= j < k ==> s[j].uid != uid,
        exists|i: int| k <= i < s.len() && s[i].uid == uid,
    ensures
        exists|i: int| 0 <= i < s.len() && s[i].uid == uid && forall|j: int| 0 <= j < i ==> s[j].uid != uid,
    decreases s.len() - k,
{
    if s[k].uid == uid {
        assert(0 <= k < s.len() && s[k].uid == uid && forall|j: int| 0 <= j < k ==> s[j].uid != uid);
    } else {
        lemma_least_uid(s, uid, k + 1);
    }
}

/// Lists with the same uids in the same places find the same first sector for
/// every uid.
proof fn lemma_first_with_uid_same_uids(a: Seq<SectorModel>, b: Seq<SectorModel>, u: u32)
    requires
        a.len() == b.len(),
        forall|i: int| 0 <= i < a.len() ==> (#[trigger] a[i]).uid == b[i].uid,
    ensures
        first_with_uid(a, u) == first_with_uid(b, u),
{
    lemma_first_with_uid(a, u);
    lemma_first_with_uid(b, u);
    if first_with_uid(a, u) is Some {
        let i = first_with_uid(a, u).unwrap();
        assert(b[i].uid == u);
        let j = first_with_uid(b, u).unwrap();
        if i < j {
            assert(b[i].uid != u);
        } else if j < i {
            assert(a[j].uid == b[j].uid);
        }
    } else {
        if first_with_uid(b, u) is Some {
            let j = first_with_uid(b, u).unwrap();
            assert(a[j].uid == u);
        }
    }
}

/// No sector before place `i` has the uid of the sector at `i`.
pub open spec fn first_of_its_uid(s: Seq<SectorModel>, i: int) -> bool {
    forall|j: int| 0 <= j < i ==> s[j].uid != s[i].uid
}

/// Marking the sectors of a failed transmission: the first sector with each
/// reported uid is put in state `st`, every sector keeps its place and all its
/// other values, and a sector whose uid was not reported is left as it was.
#[verifier::spinoff_prover]
pub proof fn lemma_mark_all(s: Seq<SectorModel>, uids: Seq<u32>, st: SectorState)
    requires
        all_present(s, uids),
    ensures
        mark_all(s, uids, st).len() == s.len(),
        forall|i: int| 0 <= i < s.len() ==> same_but_state(#[trigger] mark_all(s, uids, st)[i], s[i]),
        forall|i: int| 0 <= i < s.len() && uids.contains(s[i].uid) && first_of_its_uid(s, i)
            ==> (#[trigger] mark_all(s, uids, st)[i]).state == st,
        forall|i: int| 0 <= i < s.len() && !uids.contains(s[i].uid) ==> #[trigger] mark_all(s, uids, st)[i] == s[i],
    decreases uids.len(),
{
    if uids.len() > 0 {
        let p = uids.drop_last();
        let u = uids.last();
        assert forall|k: int| 0 <= k < p.len() implies (#[trigger] first_with_uid(s, p[k])) is Some by {
            assert(p[k] == uids[k]);
        }
        lemma_mark_all(s, p, st);
        let prev = mark_all(s, p, st);
        assert(first_with_uid(s, uids[uids.len() - 1]) is Some);
        lemma_first_with_uid(s, u);
        let i0 = first_with_uid(s, u).unwrap();
        assert(first_with_uid(prev, u) == Some(i0)) by {
            assert forall|i: int| 0 <= i < prev.len() implies (#[trigger] prev[i]).uid == s[i].uid by {
                assert(same_but_state(prev[i], s[i]));
            }
            lemma_first_with_uid_same_uids(prev, s, u);
        }
        let r = mark_all(s, uids, st);
        assert(r == prev.update(i0, prev[i0].with_state(st)));
        assert forall|i: int| 0 <= i < s.len() implies same_but_state(#[trigger] r[i], s[i]) by {
            assert(same_but_state(prev[i], s[i]));
        }
        assert forall|i: int| 0 <= i < s.len() && uids.contains(s[i].uid) && first_of_its_uid(s, i)
            implies (#[trigger] r[i]).state == st by {
            if i != i0 {
                let m = choose|m: int| 0 <= m < uids.len() && uids[m] == s[i].uid;
                if m == uids.len() - 1 {
                    if i < i0 {
                        assert(s[i].uid != u);
                    } else {
                        assert(s[i0].uid != s[i].uid);
                    }
                }
                assert(p[m] == uids[m]);
                assert(p.contains(s[i].uid));
                assert(prev[i].state == st);
            }
        }
        assert forall|i: int| 0 <= i < s.len() && !uids.contains(s[i].uid) implies #[trigger] r[i] == s[i] by {
            if p.contains(s[i].uid) {
                let m = choose|m: int| 0 <= m < p.len() && p[m] == s[i].uid;
                assert(uids[m] == p[m]);
            }
            assert(uids[uids.len() - 1] == u);
        }
    }
}

/// No two sectors of `s` share a uid.
pub open spec fn unique_uids(s: Seq<SectorModel>) -> bool {
    forall|i: int, j: int| 0 <= i < j < s.len() ==> s[i].uid != s[j].uid
}

proof fn lemma_push_contains(p: Seq<u32>, u: u32, x: u32)
    ensures
        p.push(u).contains(x) == (p.contains(x) || x == u),
{
    let q = p.push(u);
    if p.contains(x) {
        let m = choose|m: int| 0 <= m < p.len() && p[m] == x;
        assert(q[m] == x);
    }
    if x == u {
        assert(q[p.len() as int] == x);
    }
    if q.contains(x) {
        let m = choose|m: int| 0 <= m < q.len() && q[m] == x;
        if m < p.len() {
            assert(p[m] == x);
        }
    }
}

/// Deleting the first sector with uid `u` from a list of distinct uids: no
/// sector with `u` is left, every other sector stays, and nothing new appears.
proof fn lemma_delete_one(d: Seq<SectorModel>, u: u32)
    requires
        unique_uids(d),
    ensures
        ({
            let r = match first_with_uid(d, u) {
                Some(k) => d.remove(k),
                None => d,
            };
            &&& unique_uids(r)
            &&& forall|i: int| 0 <= i < r.len() ==> (#[trigger] r[i]).uid != u
            &&& forall|m: int| 0 <= m < d.len() && (#[trigger] d[m]).uid != u ==> r.contains(d[m])
            &&& forall|i: int| 0 <= i < r.len() ==> d.contains(#[trigger] r[i])
        }),
{
    lemma_first_with_uid(d, u);
    match first_with_uid(d, u) {
        None => {
            assert forall|m: int| 0 <= m < d.len() && (#[trigger] d[m]).uid != u implies d.contains(d[m]) by {}
            assert forall|i: int| 0 <= i < d.len() implies d.contains(#[trigger] d[i]) by {}
        },
        Some(k) => {
            let r = d.remove(k);
            assert forall|a: int, b: int| 0 <= a < b < r.len() implies r[a].uid != r[b].uid by {
                let a2 = if a < k { a } else { a + 1 };
                let b2 = if b < k { b } else { b + 1 };
                assert(r[a] == d[a2] && r[b] == d[b2]);
            }
            assert forall|i: int| 0 <= i < r.len() implies (#[trigger] r[i]).uid != u by {
                let i2 = if i < k { i } else { i + 1 };
                assert(r[i] == d[i2]);
            }
            assert forall|m: int| 0 <= m < d.len() && (#[trigger] d[m]).uid != u implies r.contains(d[m]) by {
                let m2 = if m < k { m } else { m - 1 };
                assert(r[m2] == d[m]);
            }
            assert forall|i: int| 0 <= i < r.len() implies d.contains(#[trigger] r[i]) by {
                let i2 = if i < k { i } else { i + 1 };
                assert(r[i] == d[i2]);
            }
        },
    }
}

/// When every sector has its own uid, deleting the sectors of a successful
/// transmission leaves exactly the others: no sector with a sent uid remains,
/// every sector with another uid is kept, nothing else appears, and the uids
/// stay distinct.
#[verifier::spinoff_prover]
#[verifier::rlimit(60)]
pub proof fn lemma_sent_sectors_deleted(s: Seq<SectorModel>, uids: Seq<u32>)
    requires
        unique_uids(s),
    ensures
        unique_uids(delete_all(s, uids)),
        forall|i: int| 0 <= i < delete_all(s, uids).len() ==> !uids.contains(#[trigger] delete_all(s, uids)[i].uid),
        forall|j: int| 0 <= j < s.len() && !uids.contains(#[trigger] s[j].uid) ==> delete_all(s, uids).contains(s[j]),
        forall|i: int| 0 <= i < delete_all(s, uids).len() ==> s.contains(#[trigger] delete_all(s, uids)[i]),
    decreases uids.len(),
{
    let r = delete_all(s, uids);
    if uids.len() == 0 {
        assert(r == s);
        assert forall|j: int| 0 <= j < s.len() implies s.contains(#[trigger] s[j]) by {}
    } else {
        let p = uids.drop_last();
        let u = uids.last();
        assert(uids =~= p.push(u));
        lemma_sent_sectors_deleted(s, p);
        let d = delete_all(s, p);
        lemma_delete_one(d, u);
        assert(r == match first_with_uid(d, u) {
            Some(k) => d.remove(k),
            None => d,
        });
        assert forall|i: int| 0 <= i < r.len() implies !uids.contains(#[trigger] r[i].uid) by {
            assert(d.contains(r[i]));
            let m = choose|m: int| 0 <= m < d.len() && d[m] == r[i];
            assert(!p.contains(d[m].uid));
            lemma_push_contains(p, u, r[i].uid);
        }
        assert forall|j: int| 0 <= j < s.len() && !uids.contains(#[trigger] s[j].uid) implies r.contains(s[j]) by {
            lemma_push_contains(p, u, s[j].uid);
            assert(d.contains(s[j]));
            let m = choose|m: int| 0 <= m < d.len() && d[m] == s[j];
            assert(d[m].uid != u);
        }
        assert forall|i: int| 0 <= i < r.len() implies s.contains(#[trigger] r[i]) by {
            assert(d.contains(r[i]));
            let m = choose|m: int| 0 <= m < d.len() && d[m] == r[i];
            assert(s.contains(d[m]));
        }
    }
}

/// Changing the state of a sector changes no uid, so every uid still names a sector.
proof fn lemma_marking_keeps_uids(s: Seq<SectorModel>, i: int, st: SectorState, uid: u32)
    requires
        0 <= i < s.len(),
    ensures
        (first_with_uid(s.update(i, s[i].with_state(st)), uid) is Some) == (first_with_uid(s, uid) is Some),
{
    let t = s.update(i, s[i].with_state(st));
    lemma_first_with_uid(s, uid);
    lemma_first_with_uid(t, uid);
    if first_with_uid(s, uid) is Some {
        let j = first_with_uid(s, uid).unwrap();
        assert(t[j].uid == uid);
    }
    if first_with_uid(t, uid) is Some {
        let j = first_with_uid(t, uid).unwrap();
        assert(s[j].uid == uid);
    }
}

proof fn lemma_in_state_prefix(s: Seq<SectorModel>, st: SectorState)
    ensures
        forall|m: int| 0 <= m <= s.len() ==> {
            let p = #[trigger] in_state(s.take(m), st);
            p.len() <= in_state(s, st).len() && p == in_state(s, st).take(p.len() as int)
        },
    decreases s.len(),
{
    if s.len() > 0 {
        lemma_in_state_prefix(s.drop_last(), st);
        assert forall|m: int| 0 <= m <= s.len() implies {
            let p = #[trigger] in_state(s.take(m), st);
            p.len() <= in_state(s, st).len() && p == in_state(s, st).take(p.len() as int)
        } by {
            if m == s.len() {
                assert(s.take(m) =~= s);
                assert(in_state(s, st).take(in_state(s, st).len() as int) =~= in_state(s, st));
            } else {
                assert(s.drop_last().take(m) =~= s.take(m));
                let q = in_state(s.drop_last(), st);
                let p = in_state(s.take(m), st);
                assert(p == q.take(p.len() as int));
                if s.last().state == st {
                    assert(in_state(s, st).take(p.len() as int) =~= q.take(p.len() as int));
                }
            }
        }
    }
}

/// Every sector still waits for its turn.
pub open spec fn all_awaiting(s: Seq<SectorModel>) -> bool {
    forall|i: int| 0 <= i < s.len() ==> #[trigger] s[i].state == SectorState::AWAITING
}

/// `new` is `old` after the terminal offered configuration `cfg`: taken while
/// every sector waits (the sectors dropped, the time and the wake-up forgotten),
/// else refused with nothing changed.
pub open spec fn config_set(old: Control, new: Control, cfg: Config) -> bool {
    if all_awaiting(old.sectors@) {
        &&& new.config == cfg
        &&& new.sectors@ == Seq::<SectorModel>::empty()
        &&& new.sectors.changed_flag()
        &&& new.realtime_status == RealtimeStatus::NotAvailable
        &&& new.sleep_until_time is None
        &&& new.sleep_until_date is None
        &&& new.realtime == old.realtime
        &&& new.battery_mv == old.battery_mv
        &&& new.chip_c_bits == old.chip_c_bits
        &&& new.charge_state_fraction == old.charge_state_fraction
        &&& new.reset_charge_state_monitor == old.reset_charge_state_monitor
    } else {
        new == old
    }
}

impl Control {
    /// Control state at start-up, with the sectors found in flash (already
    /// resumed) and the device clock at `now_ms`.
    pub fn new(sectors: SectorList, now_ms: u64) -> (r: Self)
        ensures
            r.config@ == crate::types::config::default_config_view(),
            r.realtime_status == RealtimeStatus::NotAvailable,
            r.sectors@ == sectors@,
            r.sectors.changed_flag() == sectors.changed_flag(),
            r.realtime.ref_date() == 0 && r.realtime.ref_time() == 0 && r.realtime.ref_pico() == pico_secs(now_ms),
            r.sleep_until_time is None && r.sleep_until_date is None,
            r.battery_mv is None && r.chip_c_bits is None,
            r.charge_state_fraction == 0,
            !r.reset_charge_state_monitor,
    {
        Control {
            config: Config::default(),
            realtime: RealTime::new(now_ms),
            realtime_status: RealtimeStatus::NotAvailable,
            sectors,
            sleep_until_time: None,
            sleep_until_date: None,
            battery_mv: None,
            chip_c_bits: None,
            charge_state_fraction: 0,
            reset_charge_state_monitor: false,
        }
    }

    /// Whether a round of dispatch can run now (see `dispatch_ok`): the window
    /// of the sector to measure ends without overflow, and the distances to the
    /// measuring sectors scanned for a successor are defined.
    #[verifier::spinoff_prover]
    #[verifier::rlimit(50)]
    pub fn dispatch_safe(&self) -> (r: bool)
        ensures
            r == dispatch_ok(self.realtime_status, self.sectors@),
    {
        if self.realtime_status != RealtimeStatus::Available {
            return true;
        }
        let idx = match self.sectors.get_idx_for_state(SectorState::TO_MEASURE) {
            Some(i) => i,
            None => return true,
        };
        let target = self.sectors.get(idx);
        if !target.end_time_defined() {
            return false;
        }
        let end = target.get_end_time();
        let ghost s = self.sectors@;
        let ghost ms = in_state(s, SectorState::MEASURING);
        let ghost ok = dispatch_ok(self.realtime_status, s);
        proof {
            assert(ok == scan_ok(ms, end));
        }
        let n = self.sectors.len();
        let mut i: usize = 0;
        proof {
            assert(s.skip(0) =~= s);
        }
        while i < n
            invariant
                n == s.len(),
                s == self.sectors@,
                i <= n,
                ok == scan_ok(ms, end),
                ok == dispatch_ok(self.realtime_status, self.sectors@),
                scan_ok(ms, end) == scan_ok(in_state(s.skip(i as int), SectorState::MEASURING), end),
            decreases n - i,
        {
            let x = self.sectors.get(i);
            proof {
                lemma_in_state_skip(s, i as int, SectorState::MEASURING);
            }
            if x.get_state() == SectorState::MEASURING {
                proof {
                    let cur = in_state(s.skip(i as int), SectorState::MEASURING);
                    assert(cur[0] == s[i as int]);
                    assert(cur.drop_first() =~= in_state(s.skip(i + 1), SectorState::MEASURING));
                    assert(scan_ok(cur, end) == (diff_defined(s[i as int].start_time, end)
                        && (spec_diff_wrapping(s[i as int].start_time, end) < 30
                            || scan_ok(in_state(s.skip(i + 1), SectorState::MEASURING), end))));
                }
                let st = x.get_start_time();
                if st > end && st - end > SECONDS_PER_DAY {
                    return false;
                }
                if end > st && end - st > SECONDS_PER_DAY {
                    return false;
                }
                if RealTime::diff_wrapping(st, end) < 30 {
                    return true;
                }
            }
            i = i + 1;
        }
        proof {
            assert(s.skip(n as int) =~= Seq::<SectorModel>::empty());
        }
        true
    }

    /// One round of dispatch: ask for the reference time while it is unknown;
    /// once it is known, start measuring the first sector waiting for it; send
    /// every sector waiting to be computed to the compute task and every sector
    /// waiting to be sent to the comms task; pass on a pending monitor reset.
    pub fn next_requests(&mut self) -> (r: Requests)
        requires
            dispatch_ok(old(self).realtime_status, old(self).sectors@),
        ensures
            r.ref_time == (old(self).realtime_status == RealtimeStatus::NotAvailable),
            final(self).realtime_status == (if old(self).realtime_status == RealtimeStatus::NotAvailable {
                RealtimeStatus::Requested
            } else {
                old(self).realtime_status
            }),
            measure_due(old(self).realtime_status, old(self).sectors@) ==> ({
                let s = old(self).sectors@;
                let i = first_in_state(s, SectorState::TO_MEASURE).unwrap();
                r.measure matches Some((m, sleep_gnss)) && m@ == s[i].with_state(SectorState::MEASURING)
                    && sleep_gnss == !succeeded(in_state(s, SectorState::MEASURING), s[i].end_time() as u32)
            }),
            !measure_due(old(self).realtime_status, old(self).sectors@) ==> r.measure is None,
            final(self).sectors@ == after_dispatch(old(self).realtime_status, old(self).sectors@),
            models(sector_items(r.compute)) == picked(
                after_measure_dispatch(old(self).realtime_status, old(self).sectors@),
                SectorState::TO_COMPUTE,
                SectorState::COMPUTING,
            ),
            models(sector_items(r.communicate)) == picked(
                moved(
                    after_measure_dispatch(old(self).realtime_status, old(self).sectors@),
                    SectorState::TO_COMPUTE,
                    SectorState::COMPUTING,
                ),
                SectorState::TO_COMMUNICATE,
                SectorState::COMMUNICATING,
            ),
            final(self).sectors.changed_flag() == (old(self).sectors.changed_flag()
                || measure_due(old(self).realtime_status, old(self).sectors@)
                || sector_items(r.compute).len() > 0 || sector_items(r.communicate).len() > 0),
            r.reset_monitor == old(self).reset_charge_state_monitor,
            !final(self).reset_charge_state_monitor,
            final(self).config == old(self).config,
            final(self).realtime == old(self).realtime,
            final(self).sleep_until_time == old(self).sleep_until_time,
            final(self).sleep_until_date == old(self).sleep_until_date,
            final(self).battery_mv == old(self).battery_mv,
            final(self).chip_c_bits == old(self).chip_c_bits,
            final(self).charge_state_fraction == old(self).charge_state_fraction,
    {
        let mut ref_time = false;
        let mut measure: Option<(Sector, bool)> = None;
        if self.realtime_status == RealtimeStatus::NotAvailable {
            self.realtime_status = RealtimeStatus::Requested;
            ref_time = true;
        } else if self.realtime_status == RealtimeStatus::Requested {
        } else if let Some(index) = self.sectors.get_idx_for_state(SectorState::TO_MEASURE) {
            let sector = *self.sectors.get(index);
            let sleep_gnss = !self.sectors.has_succeeding(&sector);
            let s = self.sectors.get_mut(index);
            s.set_state(SectorState::MEASURING);
            let c = *s;
            measure = Some((c, sleep_gnss));
            self.sectors.set_changed(true);
        }
        let compute = self.sectors.advance_all(SectorState::TO_COMPUTE, SectorState::COMPUTING);
        if crate::hvec::sectors_len(&compute) > 0 {
            self.sectors.set_changed(true);
        }
        let communicate = self.sectors.advance_all(SectorState::TO_COMMUNICATE, SectorState::COMMUNICATING);
        if crate::hvec::sectors_len(&communicate) > 0 {
            self.sectors.set_changed(true);
        }
        let reset_monitor = self.reset_charge_state_monitor;
        self.reset_charge_state_monitor = false;
        Requests { ref_time, measure, compute, communicate, reset_monitor }
    }

    /// Whether the sector list has to be saved now; the changed flag is cleared
    /// when it has.
    pub fn sectors_to_save(&mut self) -> (r: bool)
        ensures
            r == old(self).sectors.changed_flag(),
            !final(self).sectors.changed_flag(),
            final(self).sectors@ == old(self).sectors@,
    {
        if !self.sectors.has_changed() {
            return false;
        }
        self.sectors.set_changed(false);
        true
    }

    /// The real time and date until which the task sleeps, when both are set.
    pub fn sleep_target(&self) -> (r: Option<(u32, u32)>)
        ensures
            r == (match (self.sleep_until_time, self.sleep_until_date) {
                (Some(t), Some(d)) => Some((t, d)),
                _ => None,
            }),
    {
        match (self.sleep_until_time, self.sleep_until_date) {
            (Some(t), Some(d)) => Some((t, d)),
            _ => None,
        }
    }

    /// The sleep timer expired: the first sector waiting for its turn becomes
    /// due for measurement. Returns its index, which the scheduler then
    /// follows with the next sector; `None` when no sector was waiting.
    pub fn begin_next_sector(&mut self) -> (r: Option<usize>)
        ensures
            r matches Some(i) ==> first_in_state(old(self).sectors@, SectorState::AWAITING) == Some(i as int)
                && final(self).sectors@ == old(self).sectors@.update(
                    i as int,
                    old(self).sectors@[i as int].with_state(SectorState::TO_MEASURE),
                ) && i < old(self).sectors@.len(),
            r is None ==> first_in_state(old(self).sectors@, SectorState::AWAITING) is None
                && final(self).sectors@ == old(self).sectors@,
            final(self).sectors.changed_flag() == old(self).sectors.changed_flag(),
            final(self).realtime_status == old(self).realtime_status,
            final(self).sleep_until_time == old(self).sleep_until_time,
            final(self).sleep_until_date == old(self).sleep_until_date,
    {
        match self.sectors.get_idx_for_state(SectorState::AWAITING) {
            Some(idx) => {
                self.sectors.get_mut(idx).set_state(SectorState::TO_MEASURE);
                Some(idx)
            },
            None => None,
        }
    }

    /// Adds the sector that the scheduler planned next and sleeps until it starts.
    pub fn schedule_sector(&mut self, next_sector: Sector, start_time: u32, start_date: u32)
        requires
            old(self).sectors@.len() < MAX_SECTORS,
        ensures
            final(self).sectors@ == old(self).sectors@.push(next_sector@),
            final(self).sectors.changed_flag(),
            final(self).sleep_until_time == Some(start_time),
            final(self).sleep_until_date == Some(start_date),
            final(self).realtime_status == old(self).realtime_status,
    {
        self.sleep_until_time = Some(start_time);
        self.sleep_until_date = Some(start_date);
        self.sectors.push(next_sector);
        self.sectors.set_changed(true);
    }

    /// The measure task found the reference time: the clock is set from it and
    /// the time counts as known (the scheduler then plans the first sector).
    pub fn on_ref_time(&mut self, deviation: Deviation, date: u32, now_ms: u64)
        requires
            now_ms >= deviation.measured_at_ms,
            deviation.time + (now_ms - deviation.measured_at_ms) / 1000 <= u32::MAX,
        ensures
            final(self).realtime.ref_time() == deviation.time + (now_ms - deviation.measured_at_ms) / 1000,
            final(self).realtime.ref_pico() == pico_secs(now_ms),
            final(self).realtime.ref_date() == date,
            final(self).realtime_status == RealtimeStatus::Available,
            final(self).sectors@ == old(self).sectors@,
            final(self).sectors.changed_flag() == old(self).sectors.changed_flag(),
    {
        self.realtime.update_time(deviation, now_ms);
        self.realtime.update_date(date);
        self.realtime_status = RealtimeStatus::Available;
    }

    /// A sector was measured: it waits for computation, the clock is set from
    /// the fix, and the sector keeps its position (bit patterns of the `f32`
    /// latitude and longitude).
    pub fn on_measure_success(
        &mut self,
        sector_uid: u32,
        deviation: Deviation,
        date: u32,
        lat: u32,
        lon: u32,
        now_ms: u64,
    )
        requires
            first_with_uid(old(self).sectors@, sector_uid) is Some,
            now_ms >= deviation.measured_at_ms,
            deviation.time + (now_ms - deviation.measured_at_ms) / 1000 <= u32::MAX,
        ensures
            ({
                let s = old(self).sectors@;
                let i = first_with_uid(s, sector_uid).unwrap();
                final(self).sectors@ == s.update(
                    i,
                    SectorModel { lat, lon, ..s[i].with_state(SectorState::TO_COMPUTE) },
                )
            }),
            final(self).sectors.changed_flag(),
            final(self).realtime.ref_time() == deviation.time + (now_ms - deviation.measured_at_ms) / 1000,
            final(self).realtime.ref_pico() == pico_secs(now_ms),
            final(self).realtime.ref_date() == date,
            final(self).realtime_status == old(self).realtime_status,
    {
        match self.sectors.get_mut_uid(sector_uid) {
            Some(sector) => {
                sector.set_state(SectorState::TO_COMPUTE);
                sector.update_coords(lat, lon);
            },
            None => {},
        }
        self.realtime.update_time(deviation, now_ms);
        self.realtime.update_date(date);
        self.sectors.set_changed(true);
    }

    /// Measuring a sector failed: the sector is dropped.
    pub fn on_measure_fail(&mut self, sector_uid: u32)
        requires
            first_with_uid(old(self).sectors@, sector_uid) is Some,
        ensures
            final(self).sectors@ == old(self).sectors@.remove(first_with_uid(old(self).sectors@, sector_uid).unwrap()),
            final(self).sectors.changed_flag(),
            final(self).realtime_status == old(self).realtime_status,
    {
        self.sectors.delete_uid(sector_uid);
        self.sectors.set_changed(true);
    }

    /// Sets the state of the first sector with `uid`.
    fn mark_uid(&mut self, sector_uid: u32, state: SectorState)
        requires
            first_with_uid(old(self).sectors@, sector_uid) is Some,
        ensures
            ({
                let s = old(self).sectors@;
                let i = first_with_uid(s, sector_uid).unwrap();
                final(self).sectors@ == s.update(i, s[i].with_state(state))
            }),
            final(self).sectors.changed_flag() == old(self).sectors.changed_flag(),
            final(self).realtime_status == old(self).realtime_status,
            final(self).reset_charge_state_monitor == old(self).reset_charge_state_monitor,
    {
        match self.sectors.get_mut_uid(sector_uid) {
            Some(sector) => sector.set_state(state),
            None => {},
        }
    }

    /// A sector was computed: it waits to be sent.
    pub fn on_compute_success(&mut self, sector_uid: u32)
        requires
            first_with_uid(old(self).sectors@, sector_uid) is Some,
        ensures
            ({
                let s = old(self).sectors@;
                let i = first_with_uid(s, sector_uid).unwrap();
                final(self).sectors@ == s.update(i, s[i].with_state(SectorState::TO_COMMUNICATE))
            }),
            final(self).sectors.changed_flag(),
    {
        self.mark_uid(sector_uid, SectorState::TO_COMMUNICATE);
        self.sectors.set_changed(true);
    }

    /// Computing a sector failed: it waits to be computed again.
    pub fn on_compute_fail(&mut self, sector_uid: u32)
        requires
            first_with_uid(old(self).sectors@, sector_uid) is Some,
        ensures
            ({
                let s = old(self).sectors@;
                let i = first_with_uid(s, sector_uid).unwrap();
                final(self).sectors@ == s.update(i, s[i].with_state(SectorState::TO_COMPUTE))
            }),
            final(self).sectors.changed_flag(),
    {
        self.mark_uid(sector_uid, SectorState::TO_COMPUTE);
        self.sectors.set_changed(true);
    }

    /// The sectors were sent: they are dropped and the monitor's charge-state
    /// statistics are to be reset.
    pub fn on_comm_success(&mut self, sector_uids: &[u32])
        ensures
            final(self).sectors@ == delete_all(old(self).sectors@, sector_uids@),
            final(self).sectors.changed_flag(),
            final(self).reset_charge_state_monitor,
            final(self).realtime_status == old(self).realtime_status,
    {
        let n = sector_uids.len();
        let mut k: usize = 0;
        while k < n
            invariant
                n == sector_uids@.len(),
                k <= n,
                self.sectors@ == delete_all(old(self).sectors@, sector_uids@.take(k as int)),
                self.realtime_status == old(self).realtime_status,
            decreases n - k,
        {
            proof {
                assert(sector_uids@.take(k + 1).drop_last() =~= sector_uids@.take(k as int));
            }
            self.sectors.delete_uid(sector_uids[k]);
            k = k + 1;
        }
        proof {
            assert(sector_uids@.take(n as int) =~= sector_uids@);
        }
        self.reset_charge_state_monitor = true;
        self.sectors.set_changed(true);
    }

    /// Sending failed: the sectors wait to be sent again.
    pub fn on_comm_fail(&mut self, sector_uids: &[u32])
        requires
            all_present(old(self).sectors@, sector_uids@),
        ensures
            final(self).sectors@ == mark_all(old(self).sectors@, sector_uids@, SectorState::TO_COMMUNICATE),
            final(self).sectors@.len() == old(self).sectors@.len(),
            forall|i: int| 0 <= i < old(self).sectors@.len() && sector_uids@.contains(old(self).sectors@[i].uid)
                && first_of_its_uid(old(self).sectors@, i)
                ==> (#[trigger] final(self).sectors@[i]).state == SectorState::TO_COMMUNICATE,
            forall|i: int| 0 <= i < old(self).sectors@.len()
                ==> same_but_state(#[trigger] final(self).sectors@[i], old(self).sectors@[i]),
            forall|i: int| 0 <= i < old(self).sectors@.len() && !sector_uids@.contains(old(self).sectors@[i].uid)
                ==> #[trigger] final(self).sectors@[i] == old(self).sectors@[i],
            final(self).sectors.changed_flag(),
            final(self).realtime_status == old(self).realtime_status,
    {
        proof {
            lemma_mark_all(old(self).sectors@, sector_uids@, SectorState::TO_COMMUNICATE);
        }
        let n = sector_uids.len();
        let mut k: usize = 0;
        while k < n
            invariant
                n == sector_uids@.len(),
                k <= n,
                all_present(self.sectors@, sector_uids@),
                self.sectors@ == mark_all(old(self).sectors@, sector_uids@.take(k as int), SectorState::TO_COMMUNICATE),
                self.realtime_status == old(self).realtime_status,
            decreases n - k,
        {
            let ghost pre = self.sectors@;
            let ghost uid = sector_uids@[k as int];
            proof {
                assert(sector_uids@.take(k + 1).drop_last() =~= sector_uids@.take(k as int));
                assert(sector_uids@.take(k + 1).last() == uid);
                assert(first_with_uid(pre, uid) is Some);
            }
            self.mark_uid(sector_uids[k], SectorState::TO_COMMUNICATE);
            proof {
                let i = first_with_uid(pre, uid).unwrap();
                lemma_first_with_uid(pre, uid);
                assert forall|j: int| 0 <= j < sector_uids@.len() implies (#[trigger] first_with_uid(self.sectors@, sector_uids@[j])) is Some by {
                    lemma_marking_keeps_uids(pre, i, SectorState::TO_COMMUNICATE, sector_uids@[j]);
                    assert(first_with_uid(pre, sector_uids@[j]) is Some);
                }
            }
            k = k + 1;
        }
        proof {
            assert(sector_uids@.take(n as int) =~= sector_uids@);
        }
        self.sectors.set_changed(true);
    }

    /// A reading from the monitor task replaces the latest one of its kind.
    pub fn on_monitor_response(&mut self, msg: MonResMsg)
        ensures
            final(self).battery_mv == (match msg {
                MonResMsg::BatVoltSuccess { voltage } => Some(voltage),
                MonResMsg::BatVoltFail => None,
                _ => old(self).battery_mv,
            }),
            final(self).chip_c_bits == (match msg {
                MonResMsg::TempSuccess { temp_c_bits } => Some(temp_c_bits),
                MonResMsg::TempFail => None,
                _ => old(self).chip_c_bits,
            }),
            final(self).charge_state_fraction == (match msg {
                MonResMsg::ChargeStateFraction { fraction } => fraction,
                _ => old(self).charge_state_fraction,
            }),
            final(self).sectors@ == old(self).sectors@,
            final(self).sectors.changed_flag() == old(self).sectors.changed_flag(),
            final(self).realtime_status == old(self).realtime_status,
    {
        match msg {
            MonResMsg::BatVoltSuccess { voltage } => self.battery_mv = Some(voltage),
            MonResMsg::BatVoltFail => self.battery_mv = None,
            MonResMsg::TempSuccess { temp_c_bits } => self.chip_c_bits = Some(temp_c_bits),
            MonResMsg::TempFail => self.chip_c_bits = None,
            MonResMsg::ChargeStateFraction { fraction } => self.charge_state_fraction = fraction,
        }
    }

    /// A new configuration from the terminal is taken only while every sector is
    /// still waiting for its turn: then the sectors are dropped and the time is
    /// asked for again. Returns whether it was taken.
    pub fn set_config(&mut self, new_config: Config) -> (r: bool)
        ensures
            r == all_awaiting(old(self).sectors@),
            config_set(*old(self), *final(self), new_config),
    {
        let n = self.sectors.len();
        let mut safe = true;
        let mut i: usize = 0;
        while i < n
            invariant
                n == self.sectors@.len(),
                self.sectors@ == old(self).sectors@,
                i <= n,
                safe == (forall|k: int| 0 <= k < i ==> #[trigger] self.sectors@[k].state == SectorState::AWAITING),
            decreases n - i,
        {
            if self.sectors.get(i).get_state() != SectorState::AWAITING {
                safe = false;
            }
            i = i + 1;
        }
        if safe {
            self.config = new_config;
            self.sectors.clear();
            self.sectors.set_changed(true);
            self.realtime_status = RealtimeStatus::NotAvailable;
            self.sleep_until_time = None;
            self.sleep_until_date = None;
        }
        safe
    }

    /// A request from the terminal: readings and the configuration are
    /// answered from the control state, the constellation state is asked of the
    /// comms task, a new configuration is taken as `set_config` takes it, and a
    /// state report is written from the sectors.
    pub fn on_interface_message(&mut self, msg: IntResMsg) -> (r: InterfaceAnswer)
        ensures
            match msg {
                IntResMsg::GetBatVolt => *final(self) == *old(self) && r == InterfaceAnswer::Reply(match old(self).battery_mv {
                    Some(voltage) => IntReqMsg::BatVoltSuccess { voltage },
                    None => IntReqMsg::BatVoltFail,
                }),
                IntResMsg::GetTemp => *final(self) == *old(self) && r == InterfaceAnswer::Reply(match old(self).chip_c_bits {
                    Some(temp_bits) => IntReqMsg::TempSuccess { temp_bits },
                    None => IntReqMsg::TempFail,
                }),
                IntResMsg::GetConstellationState => *final(self) == *old(self) && r is AskConstellation,
                IntResMsg::GetConfig => *final(self) == *old(self)
                    && (r matches InterfaceAnswer::Reply(IntReqMsg::GiveConfig { config }) && config@ == old(self).config@),
                IntResMsg::SetConfig { config } => r is Nothing && config_set(*old(self), *final(self), config),
                IntResMsg::GetState => *final(self) == *old(self) && r is ReportState,
            },
    {
        match msg {
            IntResMsg::GetBatVolt => match self.battery_mv {
                Some(voltage) => InterfaceAnswer::Reply(IntReqMsg::BatVoltSuccess { voltage }),
                None => InterfaceAnswer::Reply(IntReqMsg::BatVoltFail),
            },
            IntResMsg::GetTemp => match self.chip_c_bits {
                Some(temp_bits) => InterfaceAnswer::Reply(IntReqMsg::TempSuccess { temp_bits }),
                None => InterfaceAnswer::Reply(IntReqMsg::TempFail),
            },
            IntResMsg::GetConstellationState => InterfaceAnswer::AskConstellation,
            IntResMsg::GetConfig => InterfaceAnswer::Reply(IntReqMsg::GiveConfig { config: self.config.clone() }),
            IntResMsg::SetConfig { config } => {
                self.set_config(config);
                InterfaceAnswer::Nothing
            },
            IntResMsg::GetState => InterfaceAnswer::ReportState,
        }
    }
}

/// What the control task does for a request from the terminal.
pub enum InterfaceAnswer {
    Nothing,
    /// Send this answer to the terminal.
    Reply(IntReqMsg),
    /// Ask the comms task for the constellation state.
    AskConstellation,
    /// Write a report of the sectors, one line each, and send it to the terminal.
    ReportState,
}

} // verus!
