//! Who is told when a file changes, and until when.
//!
//! A client asks to be told of the changes to a file for some time. The
//! registry keeps, for each path, the clients that asked together with the
//! moment at which their interest ends. When a file has changed, the registry
//! says who is to be told, and on that occasion forgets those whose time is
//! over: nothing else ever removes them.

use crate::address::ClientAddress;
use vstd::prelude::*;

verus! {

/// One client's interest in a file: whom to tell, and until when.
#[derive(Clone, Copy, Debug, PartialEq, Eq, Hash, Structural)]
pub struct MonitorInterval {
    /// The client that is told.
    pub addr: ClientAddress,
    /// The last millisecond, counted from the epoch, at which it is told.
    pub end_time: u128,
}

/// Whether an interest that ends at `end_time` is over at `now_ms`.
pub open spec fn expired(end_time: u128, now_ms: u128) -> bool {
    now_ms > end_time
}

/// The interests that are left of `watch` once the clients were told, at
/// `now_ms`, that `path` has changed: all but those in `path` that are over.
pub open spec fn still_watching(
    watch: Set<(Seq<char>, MonitorInterval)>,
    path: Seq<char>,
    now_ms: u128,
) -> Set<(Seq<char>, MonitorInterval)> {
    Set::new(
        |s: (Seq<char>, MonitorInterval)|
            watch.contains(s) && !(s.0 == path && expired(s.1.end_time, now_ms)),
    )
}

/// The interests of `watch` whose clients are told, at `now_ms`, that `path`
/// has changed: those in `path` that are not over.
pub open spec fn to_be_told(
    watch: Set<(Seq<char>, MonitorInterval)>,
    path: Seq<char>,
    now_ms: u128,
) -> Set<MonitorInterval> {
    Set::new(
        |monitor: MonitorInterval|
            watch.contains((path, monitor)) && !expired(monitor.end_time, now_ms),
    )
}

/// An interest that is not over when its file changes is among those told, and
/// it stays on record.
pub proof fn lemma_live_interest_is_told(
    watch: Set<(Seq<char>, MonitorInterval)>,
    path: Seq<char>,
    monitor: MonitorInterval,
    now_ms: u128,
)
    requires
        watch.contains((path, monitor)),
        !expired(monitor.end_time, now_ms),
    ensures
        to_be_told(watch, path, now_ms).contains(monitor),
        still_watching(watch, path, now_ms).contains((path, monitor)),
{
}

/// An interest that is over when its file changes is not among those told, and
/// it is on record no longer, so that it is never told again.
pub proof fn lemma_expired_interest_is_dropped(
    watch: Set<(Seq<char>, MonitorInterval)>,
    path: Seq<char>,
    monitor: MonitorInterval,
    now_ms: u128,
    later_ms: u128,
)
    requires
        expired(monitor.end_time, now_ms),
    ensures
        !to_be_told(watch, path, now_ms).contains(monitor),
        !still_watching(watch, path, now_ms).contains((path, monitor)),
        !to_be_told(still_watching(watch, path, now_ms), path, later_ms).contains(monitor),
{
}

/// A change to one file leaves the interests in every other file as they were.
pub proof fn lemma_other_paths_keep_their_interests(
    watch: Set<(Seq<char>, MonitorInterval)>,
    path: Seq<char>,
    other: Seq<char>,
    monitor: MonitorInterval,
    now_ms: u128,
)
    requires
        other != path,
    ensures
        still_watching(watch, path, now_ms).contains((other, monitor)) == watch.contains(
            (other, monitor),
        ),
{
}

/// The interests in one file.
struct Watched {
    path: String,
    intervals: Vec<MonitorInterval>,
}

/// The registry of interests.
pub struct MonitorManager {
    files: Vec<Watched>,
}

/// Whether `files` records the interest `monitor` in `path`.
spec fn records(files: Seq<Watched>, path: Seq<char>, monitor: MonitorInterval) -> bool {
    exists|i: int|
        0 <= i < files.len() && (#[trigger] files[i]).path@ == path && files[i].intervals@.contains(
            monitor,
        )
}

/// No path has two records, and no record holds an interest twice.
spec fn tidy(files: Seq<Watched>) -> bool {
    &&& forall|i: int, j: int|
        0 <= i < j < files.len() ==> (#[trigger] files[i]).path@ != (#[trigger] files[j]).path@
    &&& forall|i: int| 0 <= i < files.len() ==> (#[trigger] files[i]).intervals@.no_duplicates()
}

/// In tidy records, the record of a path holds all the interests in it.
proof fn lemma_record_of(files: Seq<Watched>, k: int, monitor: MonitorInterval)
    requires
        tidy(files),
        0 <= k < files.len(),
    ensures
        records(files, files[k].path@, monitor) <==> files[k].intervals@.contains(monitor),
{
    if records(files, files[k].path@, monitor) {
        let i = choose|i: int|
            0 <= i < files.len() && (#[trigger] files[i]).path@ == files[k].path@
                && files[i].intervals@.contains(monitor);
        assert(i == k);
    }
}

impl MonitorManager {
    /// The interests on record: pairs of a path and one client's interest in it.
    pub closed spec fn view(&self) -> Set<(Seq<char>, MonitorInterval)> {
        Set::new(|s: (Seq<char>, MonitorInterval)| records(self.files@, s.0, s.1))
    }

    /// The invariant of the registry.
    pub closed spec fn wf(&self) -> bool {
        tidy(self.files@)
    }

    /// The interests in `path`.
    pub open spec fn watchers(&self, path: Seq<char>) -> Set<MonitorInterval> {
        Set::new(|monitor: MonitorInterval| self@.contains((path, monitor)))
    }

    /// A registry without interests.
    pub fn new() -> (manager: Self)
        ensures
            manager.wf(),
            manager@ == Set::<(Seq<char>, MonitorInterval)>::empty(),
    {
        let manager = MonitorManager { files: Vec::new() };
        assert(manager@ =~= Set::<(Seq<char>, MonitorInterval)>::empty());
        manager
    }

    /// Where the record of `file` is.
    fn find(&self, file: &String) -> (r: Option<usize>)
        ensures
            match r {
                Some(k) => k < self.files@.len() && self.files@[k as int].path@ == file@,
                None => forall|i: int|
                    0 <= i < self.files@.len() ==> (#[trigger] self.files@[i]).path@ != file@,
            },
    {
        let mut i: usize = 0;
        while i < self.files.len()
            invariant
                i <= self.files@.len(),
                forall|m: int| 0 <= m < i ==> (#[trigger] self.files@[m]).path@ != file@,
            decreases self.files@.len() - i,
        {
            if self.files[i].path == *file {
                return Some(i);
            }
            i = i + 1;
        }
        None
    }

    /// Records that `addr` is to be told of the changes to `file` from `now_ms`
    /// on for `interval` milliseconds. An interest that is on record already,
    /// with the same client and the same end, is not recorded twice.
    pub fn add_interval(&mut self, file: &String, addr: ClientAddress, now_ms: u128, interval: u32)
        requires
            old(self).wf(),
            now_ms + interval <= u128::MAX,
        ensures
            final(self).wf(),
            final(self)@ == old(self)@.insert(
                (file@, MonitorInterval { addr, end_time: (now_ms + interval) as u128 }),
            ),
    {
        let end_time: u128 = now_ms + interval as u128;
        let monitor = MonitorInterval { addr, end_time };
        let ghost before = self.files@;
        match self.find(file) {
            Some(k) => {
                if !holds(&self.files[k].intervals, monitor) {
                    self.files[k].intervals.push(monitor);
                }
                let ghost after = self.files@;
                assert(after.len() == before.len());
                assert(forall|i: int|
                    0 <= i < after.len() ==> (#[trigger] after[i]).path@ == before[i].path@);
                assert(forall|i: int|
                    0 <= i < after.len() && i != k ==> (#[trigger] after[i]).intervals@
                        == before[i].intervals@);
                let ghost known = before[k as int].intervals@;
                assert(forall|e: MonitorInterval| #[trigger]
                    after[k as int].intervals@.contains(e) <==> (e == monitor || known.contains(
                        e,
                    ))) by {
                    if known.contains(monitor) {
                    } else {
                        let grown = known.push(monitor);
                        assert(grown[grown.len() - 1] == monitor);
                        assert forall|e: MonitorInterval| grown.contains(e) implies e == monitor
                            || known.contains(e) by {
                            let m = choose|m: int| 0 <= m < grown.len() && grown[m] == e;
                            if m < grown.len() - 1 {
                                assert(known[m] == e);
                            }
                        }
                        assert forall|e: MonitorInterval| known.contains(e) implies grown.contains(
                            e,
                        ) by {
                            let m = choose|m: int| 0 <= m < known.len() && known[m] == e;
                            assert(grown[m] == e);
                        }
                    }
                }
                assert(tidy(after));
                assert forall|s: (Seq<char>, MonitorInterval)|
                    records(after, s.0, s.1) <==> (s == (file@, monitor) || records(
                        before,
                        s.0,
                        s.1,
                    )) by {
                    lemma_record_of(after, k as int, s.1);
                    lemma_record_of(before, k as int, s.1);
                    if s.0 != file@ {
                        if records(after, s.0, s.1) {
                            let i = choose|i: int|
                                0 <= i < after.len() && (#[trigger] after[i]).path@ == s.0
                                    && after[i].intervals@.contains(s.1);
                            assert(before[i].path@ == s.0);
                        }
                        if records(before, s.0, s.1) {
                            let i = choose|i: int|
                                0 <= i < before.len() && (#[trigger] before[i]).path@ == s.0
                                    && before[i].intervals@.contains(s.1);
                            assert(after[i].path@ == s.0);
                        }
                    }
                }
                assert(self@ =~= old(self)@.insert((file@, monitor)));
            },
            None => {
                let mut intervals: Vec<MonitorInterval> = Vec::new();
                intervals.push(monitor);
                assert(intervals@[0] == monitor);
                self.files.push(Watched { path: file.clone(), intervals });
                let ghost after = self.files@;
                let ghost last = before.len() as int;
                assert(after[last].path@ == file@);
                assert(forall|i: int| 0 <= i < last ==> (#[trigger] after[i]) == before[i]);
                assert(tidy(after));
                assert forall|s: (Seq<char>, MonitorInterval)|
                    records(after, s.0, s.1) <==> (s == (file@, monitor) || records(
                        before,
                        s.0,
                        s.1,
                    )) by {
                    if records(after, s.0, s.1) {
                        let i = choose|i: int|
                            0 <= i < after.len() && (#[trigger] after[i]).path@ == s.0
                                && after[i].intervals@.contains(s.1);
                        if i < last {
                            assert(before[i].path@ == s.0);
                        } else {
                            let m = choose|m: int|
                                0 <= m < after[last].intervals@.len() && after[last].intervals@[m]
                                    == s.1;
                            assert(s.1 == monitor);
                        }
                    }
                    if records(before, s.0, s.1) {
                        let i = choose|i: int|
                            0 <= i < before.len() && (#[trigger] before[i]).path@ == s.0
                                && before[i].intervals@.contains(s.1);
                        assert(after[i].path@ == s.0);
                    }
                    if s == (file@, monitor) {
                        assert(after[last].intervals@.contains(monitor));
                    }
                }
                assert(self@ =~= old(self)@.insert((file@, monitor)));
            },
        }
    }

    /// Says who is to be told that `file` has changed, at `now_ms`: one entry
    /// for each interest in the file that is not over, in no particular order.
    /// The interests in the file that are over are forgotten; all others stay.
    pub fn inform_monitors(&mut self, file: &String, now_ms: u128) -> (told: Vec<MonitorInterval>)
        requires
            old(self).wf(),
        ensures
            final(self).wf(),
            final(self)@ == still_watching(old(self)@, file@, now_ms),
            told@.no_duplicates(),
            told@.to_set() == final(self).watchers(file@),
            told@.to_set() == to_be_told(old(self)@, file@, now_ms),
    {
        let ghost before = self.files@;
        let ghost keep = |s: (Seq<char>, MonitorInterval)|
            !(s.0 == file@ && expired(s.1.end_time, now_ms));
        match self.find(file) {
            None => {
                assert forall|s: (Seq<char>, MonitorInterval)| self@.contains(s) implies keep(
                    s,
                ) by {
                    let i = choose|i: int|
                        0 <= i < before.len() && (#[trigger] before[i]).path@ == s.0
                            && before[i].intervals@.contains(s.1);
                }
                assert(self@ =~= still_watching(old(self)@, file@, now_ms));
                let told: Vec<MonitorInterval> = Vec::new();
                assert forall|e: MonitorInterval| !self.watchers(file@).contains(e) by {
                    if records(before, file@, e) {
                        let i = choose|i: int|
                            0 <= i < before.len() && (#[trigger] before[i]).path@ == file@
                                && before[i].intervals@.contains(e);
                    }
                }
                assert(told@.to_set() =~= self.watchers(file@));
                assert(told@.to_set() =~= to_be_told(old(self)@, file@, now_ms));
                told
            },
            Some(k) => {
                let told = live(&self.files[k].intervals, now_ms);
                self.files[k].intervals = told.clone();
                let ghost after = self.files@;
                assert(after.len() == before.len());
                assert(after[k as int].intervals@ == told@);
                assert(forall|i: int|
                    0 <= i < after.len() ==> (#[trigger] after[i]).path@ == before[i].path@);
                assert(forall|i: int|
                    0 <= i < after.len() && i != k ==> (#[trigger] after[i]).intervals@
                        == before[i].intervals@);
                assert(tidy(after));
                assert forall|s: (Seq<char>, MonitorInterval)|
                    records(after, s.0, s.1) <==> (records(before, s.0, s.1) && keep(s)) by {
                    lemma_record_of(after, k as int, s.1);
                    lemma_record_of(before, k as int, s.1);
                    if s.0 != file@ {
                        if records(after, s.0, s.1) {
                            let i = choose|i: int|
                                0 <= i < after.len() && (#[trigger] after[i]).path@ == s.0
                                    && after[i].intervals@.contains(s.1);
                            assert(before[i].path@ == s.0);
                        }
                        if records(before, s.0, s.1) {
                            let i = choose|i: int|
                                0 <= i < before.len() && (#[trigger] before[i]).path@ == s.0
                                    && before[i].intervals@.contains(s.1);
                            assert(after[i].path@ == s.0);
                        }
                    }
                }
                assert(self@ =~= still_watching(old(self)@, file@, now_ms));
                assert forall|e: MonitorInterval|
                    told@.to_set().contains(e) <==> self.watchers(file@).contains(e) by {
                    lemma_record_of(after, k as int, e);
                }
                assert(told@.to_set() =~= self.watchers(file@));
                assert(told@.to_set() =~= to_be_told(old(self)@, file@, now_ms));
                told
            },
        }
    }
}

/// Whether `intervals` holds `monitor`.
fn holds(intervals: &Vec<MonitorInterval>, monitor: MonitorInterval) -> (r: bool)
    ensures
        r == intervals@.contains(monitor),
{
    let mut i: usize = 0;
    while i < intervals.len()
        invariant
            i <= intervals@.len(),
            forall|m: int| 0 <= m < i ==> intervals@[m] != monitor,
        decreases intervals@.len() - i,
    {
        if intervals[i] == monitor {
            return true;
        }
        i = i + 1;
    }
    false
}

/// The interests among `intervals` that are not over at `now_ms`.
fn live(intervals: &Vec<MonitorInterval>, now_ms: u128) -> (kept: Vec<MonitorInterval>)
    requires
        intervals@.no_duplicates(),
    ensures
        kept@.no_duplicates(),
        forall|e: MonitorInterval| #[trigger]
            kept@.contains(e) <==> (intervals@.contains(e) && !expired(e.end_time, now_ms)),
{
    let mut kept: Vec<MonitorInterval> = Vec::new();
    let mut i: usize = 0;
    while i < intervals.len()
        invariant
            i <= intervals@.len(),
            intervals@.no_duplicates(),
            kept@.no_duplicates(),
            forall|a: int|
                0 <= a < kept@.len() ==> exists|m: int|
                    0 <= m < i && intervals@[m] == #[trigger] kept@[a],
            forall|a: int| 0 <= a < kept@.len() ==> !expired((#[trigger] kept@[a]).end_time, now_ms),
            forall|m: int|
                0 <= m < i && !expired((#[trigger] intervals@[m]).end_time, now_ms)
                    ==> kept@.contains(intervals@[m]),
        decreases intervals@.len() - i,
    {
        let monitor = intervals[i];
        if !(now_ms > monitor.end_time) {
            let ghost shorter = kept@;
            assert forall|a: int| 0 <= a < shorter.len() implies shorter[a] != monitor by {
                let m = choose|m: int| 0 <= m < i && intervals@[m] == shorter[a];
            }
            kept.push(monitor);
            assert(kept@[shorter.len() as int] == monitor);
            assert forall|a: int| 0 <= a < kept@.len() implies exists|m: int|
                0 <= m < i + 1 && intervals@[m] == #[trigger] kept@[a] by {
                if a < shorter.len() {
                    let m = choose|m: int| 0 <= m < i && intervals@[m] == shorter[a];
                    assert(intervals@[m] == kept@[a]);
                } else {
                    assert(intervals@[i as int] == kept@[a]);
                }
            }
            assert forall|m: int|
                0 <= m < i + 1 && !expired(
                    (#[trigger] intervals@[m]).end_time,
                    now_ms,
                ) implies kept@.contains(intervals@[m]) by {
                if m < i {
                    let a = choose|a: int| 0 <= a < shorter.len() && shorter[a] == intervals@[m];
                    assert(kept@[a] == intervals@[m]);
                }
            }
        }
        i = i + 1;
    }
    assert forall|e: MonitorInterval| #[trigger]
        kept@.contains(e) <==> (intervals@.contains(e) && !expired(e.end_time, now_ms)) by {
        if kept@.contains(e) {
            let a = choose|a: int| 0 <= a < kept@.len() && kept@[a] == e;
            let m = choose|m: int| 0 <= m < i && intervals@[m] == kept@[a];
        }
        if intervals@.contains(e) && !expired(e.end_time, now_ms) {
            let m = choose|m: int| 0 <= m < intervals@.len() && intervals@[m] == e;
        }
    }
    kept
}

} // verus!
