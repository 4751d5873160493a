//! The tracking engine: projects, today's key and the active session.
use vstd::prelude::*;
use crate::clock::{day_text, now_stamp, stamp_key, stamp_sort_key, today_key};
use crate::order::{is_permutation, sort_indices};
use crate::duration::{add_durations, add_spec, format_fields, format_seconds, seconds_text};
use crate::project::{day_pos, ensure_day, fold_day, lemma_day_pos, zero_text, Project, Session};

verus! {

/// What an operation reports to the user.
#[derive(PartialEq, Eq, Structural, Debug, Clone, Copy)]
pub enum Notice {
    Started,
    Paused,
    AlreadyPaused,
    Resumed,
    AlreadyRunning,
    NotTracking,
}

/// The active project and its timer.
pub struct ActiveSession {
    pub project: String,
    pub session: Session,
}

pub struct TimeTracking {
    pub today: String,
    pub projects: Vec<Project>,
    pub current: Option<ActiveSession>,
}

/// Position of the project named `n` (the last match), or -1.
pub open spec fn name_pos(ps: Seq<Project>, n: Seq<char>) -> int
    decreases ps.len(),
{
    if ps.len() == 0 {
        -1
    } else if ps.last().name@ == n {
        ps.len() - 1
    } else {
        name_pos(ps.drop_last(), n)
    }
}

pub proof fn lemma_name_pos(ps: Seq<Project>, n: Seq<char>)
    ensures
        -1 <= name_pos(ps, n) < ps.len(),
        name_pos(ps, n) >= 0 ==> ps[name_pos(ps, n)].name@ == n,
        name_pos(ps, n) == -1 ==> forall|i: int| 0 <= i < ps.len() ==> (#[trigger] ps[i]).name@ != n,
    decreases ps.len(),
{
    if ps.len() > 0 {
        lemma_name_pos(ps.drop_last(), n);
        assert forall|i: int| 0 <= i < ps.len() - 1 implies ps.drop_last()[i] == #[trigger] ps[i] by {}
    }
}

/// Project names are distinct and each ledger names each day once.
pub open spec fn store_wf(ps: Seq<Project>) -> bool {
    &&& forall|i: int, j: int| 0 <= i < j < ps.len() ==> (#[trigger] ps[i]).name@ != (#[trigger] ps[j]).name@
    &&& forall|i: int| 0 <= i < ps.len() ==> (#[trigger] ps[i]).wf()
}

/// `q` is `p` with day `d` present in its ledger.
pub open spec fn opened(p: Project, q: Project, d: Seq<char>) -> bool {
    &&& q.name == p.name
    &&& q.start_date == p.start_date
    &&& q.total_time == p.total_time
    &&& q.days() == ensure_day(p.days(), d)
}

/// `q` is `p` with the duration `e` folded into its total and into day `d`.
pub open spec fn folded(p: Project, q: Project, d: Seq<char>, e: Seq<char>) -> bool {
    &&& q.name == p.name
    &&& q.start_date == p.start_date
    &&& q.total_time@ == add_spec(p.total_time@, e)
    &&& q.days() == fold_day(p.days(), d, e)
}

/// `ps2` agrees with `ps` everywhere but at index `k`.
pub open spec fn replaced_at(ps: Seq<Project>, ps2: Seq<Project>, k: int) -> bool {
    &&& ps2.len() == ps.len()
    &&& forall|j: int| 0 <= j < ps.len() && j != k ==> ps2[j] == ps[j]
}

/// The (project, duration) entries of day `d`, in store order.
pub open spec fn day_entries(ps: Seq<Project>, d: Seq<char>) -> Seq<(Seq<char>, Seq<char>)>
    decreases ps.len(),
{
    if ps.len() == 0 {
        Seq::empty()
    } else {
        let rest = day_entries(ps.drop_last(), d);
        let p = ps.last();
        let k = day_pos(p.days(), d);
        if k >= 0 {
            rest.push((p.name@, p.days()[k].1))
        } else {
            rest
        }
    }
}

/// Sum of the durations of `es` by repeated carrying addition from `00:00:00`.
pub open spec fn sum_durations(es: Seq<(Seq<char>, Seq<char>)>) -> Seq<char>
    decreases es.len(),
{
    if es.len() == 0 {
        zero_text()
    } else {
        add_spec(sum_durations(es.drop_last()), es.last().1)
    }
}

/// Pairs of texts as sequences of characters.
pub open spec fn pairs_view(v: Seq<(String, String)>) -> Seq<(Seq<char>, Seq<char>)> {
    v.map_values(|p: (String, String)| (p.0@, p.1@))
}

impl TimeTracking {
    pub open spec fn wf(&self) -> bool {
        &&& store_wf(self.projects@)
        &&& self.current matches Some(a) ==> name_pos(self.projects@, a.project@) >= 0
    }

    pub open spec fn is_idle(&self) -> bool {
        self.current is None
    }

    /// The state after `start(name)` from `o`, with a new project started at `sd`.
    pub open spec fn started(o: TimeTracking, n: TimeTracking, name: Seq<char>, sd: Seq<char>) -> bool {
        let k = name_pos(o.projects@, name);
        &&& n.today == o.today
        &&& n.current matches Some(a) && a.project@ == name && a.session.elapsed == 0 && !a.session.paused
        &&& k >= 0 ==> replaced_at(o.projects@, n.projects@, k)
            && opened(o.projects@[k], n.projects@[k], o.today@)
        &&& k < 0 ==> {
            &&& n.projects@.len() == o.projects@.len() + 1
            &&& n.projects@.drop_last() == o.projects@
            &&& n.projects@.last().name@ == name
            &&& n.projects@.last().start_date@ == sd
            &&& n.projects@.last().days() == seq![(o.today@, zero_text())]
            &&& n.projects@.last().total_time@ == zero_text()
        }
    }

    /// The state after `pause()` from `o`: a running session becomes paused
    /// with its elapsed time kept; otherwise nothing changes.
    pub open spec fn pause_step(o: TimeTracking, n: TimeTracking) -> bool {
        &&& n.today == o.today
        &&& n.projects == o.projects
        &&& match o.current {
            Some(a) if !a.session.paused => {
                &&& n.current matches Some(b)
                &&& b.project == a.project
                &&& b.session.elapsed == a.session.elapsed
                &&& b.session.paused
            },
            _ => n.current == o.current,
        }
    }

    /// The state after one tick from `o`: a running session gains a second;
    /// otherwise nothing changes.
    pub open spec fn tick_step(o: TimeTracking, n: TimeTracking) -> bool {
        &&& n.today == o.today
        &&& n.projects == o.projects
        &&& match o.current {
            Some(a) if !a.session.paused => {
                &&& n.current matches Some(b)
                &&& b.project == a.project
                &&& b.session.elapsed == a.session.elapsed + 1
                &&& !b.session.paused
            },
            _ => n.current == o.current,
        }
    }

    /// The state after `stop()` from `o`.
    pub open spec fn stopped(o: TimeTracking, n: TimeTracking) -> bool {
        match o.current {
            None => n == o,
            Some(a) => {
                let k = name_pos(o.projects@, a.project@);
                &&& n.today == o.today
                &&& n.current is None
                &&& replaced_at(o.projects@, n.projects@, k)
                &&& folded(o.projects@[k], n.projects@[k], o.today@, seconds_text(a.session.elapsed as nat))
            },
        }
    }

    /// An engine for day `today` over a loaded store, with no active session.
    pub fn with_today(today: String, projects: Vec<Project>) -> (r: TimeTracking)
        requires
            store_wf(projects@),
        ensures
            r.wf(),
            r.today == today,
            r.projects == projects,
            r.is_idle(),
    {
        TimeTracking { today, projects, current: None }
    }

    /// An engine for the current local day over a loaded store.
    pub fn new(projects: Vec<Project>) -> (r: TimeTracking)
        requires
            store_wf(projects@),
        ensures
            r.wf(),
            r.projects == projects,
            r.is_idle(),
            exists|y: i32, mo: u32, d: u32| 1 <= mo <= 12 && 1 <= d <= 31
                && r.today@ == day_text(y as int, mo as nat, d as nat),
    {
        TimeTracking::with_today(today_key(), projects)
    }

    /// Index of the project named `name`.
    pub fn find_project(&self, name: &String) -> (r: Option<usize>)
        ensures
            match r {
                Some(i) => i as int == name_pos(self.projects@, name@),
                None => name_pos(self.projects@, name@) == -1,
            },
    {
        let mut i: usize = self.projects.len();
        assert(self.projects@.take(i as int) =~= self.projects@);
        while i > 0
            invariant
                i <= self.projects@.len(),
                name_pos(self.projects@, name@) == name_pos(self.projects@.take(i as int), name@),
            decreases i,
        {
            assert(self.projects@.take(i as int).drop_last() =~= self.projects@.take(i - 1));
            if self.projects[i - 1].name == *name {
                return Some(i - 1);
            }
            i = i - 1;
        }
        None
    }

    /// Starts a session on `name`; a new project gets `start_date`.
    pub fn start_project_at(&mut self, name: &str, start_date: &str) -> (r: Notice)
        requires
            old(self).wf(),
        ensures
            final(self).wf(),
            TimeTracking::started(*old(self), *final(self), name@, start_date@),
            r == Notice::Started,
    {
        let key = name.to_owned();
        proof { lemma_name_pos(self.projects@, name@); }
        match self.find_project(&key) {
            Some(k) => {
                let mut p = self.projects.remove(k);
                proof { assert(p == old(self).projects@[k as int]); }
                p.ensure_day(&self.today);
                self.projects.insert(k, p);
                proof {
                    assert forall|j: int| 0 <= j < self.projects@.len() && j != k
                        implies self.projects@[j] == old(self).projects@[j] by {
                        if j > k {} else {}
                    }
                    assert forall|i: int, j: int| 0 <= i < j < self.projects@.len()
                        implies (#[trigger] self.projects@[i]).name@ != (#[trigger] self.projects@[j]).name@ by {
                        assert(self.projects@[i].name == old(self).projects@[i].name);
                        assert(self.projects@[j].name == old(self).projects@[j].name);
                    }
                    assert forall|i: int| 0 <= i < self.projects@.len() implies (#[trigger] self.projects@[i]).wf() by {
                        if i != k {
                            assert(self.projects@[i] == old(self).projects@[i]);
                        }
                    }
                    lemma_name_pos(self.projects@, name@);
                    assert(self.projects@[k as int].name@ == name@);
                    assert(store_wf(self.projects@));
                }
            },
            None => {
                let mut p = Project::new(name, start_date);
                p.ensure_day(&self.today);
                proof { lemma_day_pos(Seq::<(Seq<char>, Seq<char>)>::empty(), self.today@); }
                self.projects.push(p);
                proof {
                    assert(self.projects@.drop_last() =~= old(self).projects@);
                    assert(p.days() =~= seq![(self.today@, zero_text())]);
                    assert(self.projects@[self.projects@.len() - 1] == p);
                    assert forall|i: int| 0 <= i < self.projects@.len() implies (#[trigger] self.projects@[i]).wf() by {
                        if i < old(self).projects@.len() {
                            assert(self.projects@[i] == old(self).projects@[i]);
                        }
                    }
                    assert forall|i: int, j: int| 0 <= i < j < self.projects@.len()
                        implies (#[trigger] self.projects@[i]).name@ != (#[trigger] self.projects@[j]).name@ by {
                        assert(self.projects@[i] == old(self).projects@[i]);
                        if j < old(self).projects@.len() {
                            assert(self.projects@[j] == old(self).projects@[j]);
                        }
                    }
                    lemma_name_pos(self.projects@, name@);
                    assert(self.projects@[self.projects@.len() - 1].name@ == name@);
                    assert(store_wf(self.projects@));
                }
            },
        }
        self.current = Some(ActiveSession { project: key, session: Session::new() });
        Notice::Started
    }

    /// Starts a session on `name`; a new project is dated now.
    pub fn start_project(&mut self, name: &str) -> (r: Notice)
        requires
            old(self).wf(),
        ensures
            final(self).wf(),
            exists|sd: Seq<char>| TimeTracking::started(*old(self), *final(self), name@, sd),
            r == Notice::Started,
    {
        let stamp = now_stamp();
        self.start_project_at(name, &stamp)
    }

    /// Pauses a running session.
    pub fn pause(&mut self) -> (r: Notice)
        requires
            old(self).wf(),
        ensures
            final(self).wf(),
            TimeTracking::pause_step(*old(self), *final(self)),
            r == match old(self).current {
                None => Notice::NotTracking,
                Some(a) => if a.session.paused { Notice::AlreadyPaused } else { Notice::Paused },
            },
    {
        match self.current {
            Some(ref mut a) => {
                if a.session.paused {
                    Notice::AlreadyPaused
                } else {
                    a.session.paused = true;
                    Notice::Paused
                }
            },
            None => Notice::NotTracking,
        }
    }

    /// Resumes a paused session.
    pub fn resume(&mut self) -> (r: Notice)
        requires
            old(self).wf(),
        ensures
            final(self).wf(),
            final(self).today == old(self).today,
            final(self).projects == old(self).projects,
            match old(self).current {
                None => r == Notice::NotTracking && final(self).current == old(self).current,
                Some(a) => if !a.session.paused {
                    r == Notice::AlreadyRunning && final(self).current == old(self).current
                } else {
                    &&& r == Notice::Resumed
                    &&& final(self).current matches Some(b)
                    &&& b.project == a.project
                    &&& b.session.elapsed == a.session.elapsed
                    &&& !b.session.paused
                },
            },
    {
        match self.current {
            Some(ref mut a) => {
                if a.session.paused {
                    a.session.paused = false;
                    Notice::Resumed
                } else {
                    Notice::AlreadyRunning
                }
            },
            None => Notice::NotTracking,
        }
    }

    /// One second passes: a running session gains a second.
    pub fn tick(&mut self)
        requires
            old(self).wf(),
            old(self).current matches Some(a) ==> a.session.elapsed < u64::MAX,
        ensures
            final(self).wf(),
            TimeTracking::tick_step(*old(self), *final(self)),
    {
        match self.current {
            Some(ref mut a) => {
                if !a.session.paused {
                    a.session.elapsed = a.session.elapsed + 1;
                }
            },
            None => {},
        }
    }

    /// Ends the session: its time is folded into the project's total and
    /// today's entry. Returns whether a session was active (and the store
    /// changed).
    pub fn stop_project(&mut self) -> (r: bool)
        requires
            old(self).wf(),
        ensures
            final(self).wf(),
            TimeTracking::stopped(*old(self), *final(self)),
            r == (old(self).current is Some),
    {
        let cur = match &self.current {
            Some(a) => Some((a.project.clone(), a.session.elapsed)),
            None => None,
        };
        match cur {
            None => false,
            Some((name, e)) => {
                let text = format_seconds(e);
                proof { lemma_name_pos(self.projects@, name@); }
                match self.find_project(&name) {
                    Some(k) => {
                        let mut p = self.projects.remove(k);
                        proof { assert(p == old(self).projects@[k as int]); }
                        p.fold(&self.today, &text);
                        self.projects.insert(k, p);
                        proof {
                            assert forall|j: int| 0 <= j < self.projects@.len() && j != k
                                implies self.projects@[j] == old(self).projects@[j] by {
                                if j > k {} else {}
                            }
                            assert forall|i: int, j: int| 0 <= i < j < self.projects@.len()
                                implies (#[trigger] self.projects@[i]).name@ != (#[trigger] self.projects@[j]).name@ by {
                                assert(self.projects@[i].name == old(self).projects@[i].name);
                                assert(self.projects@[j].name == old(self).projects@[j].name);
                            }
                            assert forall|i: int| 0 <= i < self.projects@.len() implies (#[trigger] self.projects@[i]).wf() by {
                                if i != k {
                                    assert(self.projects@[i] == old(self).projects@[i]);
                                }
                            }
                        }
                    },
                    None => {},
                }
                self.current = None;
                true
            },
        }
    }

    /// Stops the active session, then starts one on `name`.
    pub fn switch_project(&mut self, name: &str) -> (r: bool)
        requires
            old(self).wf(),
        ensures
            final(self).wf(),
            exists|mid: TimeTracking, sd: Seq<char>|
                TimeTracking::stopped(*old(self), mid) && #[trigger] TimeTracking::started(mid, *final(self), name@, sd),
            r == (old(self).current is Some),
    {
        let r = self.stop_project();
        let ghost mid = *self;
        self.start_project(name);
        r
    }

    /// Project indices in order of start date (dates that do not parse last;
    /// equal dates keep store order).
    pub fn sort_projects(&self) -> (r: Vec<usize>)
        ensures
            is_permutation(r@, self.projects@.len()),
            forall|i: int, j: int| 0 <= i < j < r@.len() ==>
                stamp_key(self.projects@[#[trigger] r@[i] as int].start_date@)
                    <= stamp_key(self.projects@[#[trigger] r@[j] as int].start_date@),
    {
        let mut keys: Vec<i128> = Vec::new();
        let mut i: usize = 0;
        while i < self.projects.len()
            invariant
                i <= self.projects@.len(),
                keys@.len() == i,
                forall|j: int| 0 <= j < i ==> keys@[j] as int == stamp_key(#[trigger] self.projects@[j].start_date@),
            decreases self.projects@.len() - i,
        {
            keys.push(stamp_sort_key(self.projects[i].start_date.as_str()));
            i = i + 1;
        }
        let r = sort_indices(&keys);
        assert forall|a: int, b: int| 0 <= a < b < r@.len() implies
            stamp_key(self.projects@[#[trigger] r@[a] as int].start_date@)
                <= stamp_key(self.projects@[#[trigger] r@[b] as int].start_date@) by {
            assert(keys@[r@[a] as int] <= keys@[r@[b] as int]);
        }
        r
    }

    /// The project named `name`.
    pub fn get_project(&self, name: &String) -> (r: Option<&Project>)
        ensures
            match r {
                Some(p) => name_pos(self.projects@, name@) >= 0
                    && *p == self.projects@[name_pos(self.projects@, name@)],
                None => name_pos(self.projects@, name@) == -1,
            },
    {
        proof { lemma_name_pos(self.projects@, name@); }
        match self.find_project(name) {
            Some(k) => Some(&self.projects[k]),
            None => None,
        }
    }

    /// The entries of `day` with their sum, or `None` when no project has that day.
    pub fn day_info(&self, day: &String) -> (r: Option<(Vec<(String, String)>, String)>)
        ensures
            match r {
                None => day_entries(self.projects@, day@).len() == 0,
                Some((es, total)) => {
                    &&& pairs_view(es@) == day_entries(self.projects@, day@)
                    &&& es@.len() > 0
                    &&& total@ == sum_durations(day_entries(self.projects@, day@))
                },
            },
    {
        let mut es: Vec<(String, String)> = Vec::new();
        let mut total = format_fields(0, 0, 0);
        let mut i: usize = 0;
        while i < self.projects.len()
            invariant
                i <= self.projects@.len(),
                pairs_view(es@) == day_entries(self.projects@.take(i as int), day@),
                total@ == sum_durations(day_entries(self.projects@.take(i as int), day@)),
            decreases self.projects@.len() - i,
        {
            let ghost before = es@;
            assert(self.projects@.take(i + 1).drop_last() =~= self.projects@.take(i as int));
            let p = &self.projects[i];
            proof { lemma_day_pos(p.days(), day@); }
            match p.find_day(day) {
                Some(k) => {
                    let d = p.hours_per_day[k].1.clone();
                    total = add_durations(&total, &d);
                    es.push((p.name.clone(), d));
                    proof {
                        assert(pairs_view(es@) =~= pairs_view(before).push((p.name@, p.days()[k as int].1)));
                        let des = day_entries(self.projects@.take(i + 1), day@);
                        assert(des.drop_last() == day_entries(self.projects@.take(i as int), day@));
                    }
                },
                None => {},
            }
            i = i + 1;
        }
        assert(self.projects@.take(i as int) =~= self.projects@);
        if es.len() == 0 {
            None
        } else {
            Some((es, total))
        }
    }

}

proof fn lemma_running_ticks(run: Seq<TimeTracking>, name: Seq<char>, i: int)
    requires
        0 <= i < run.len(),
        run[0].current matches Some(a) && a.project@ == name && a.session.elapsed == 0 && !a.session.paused,
        forall|t: int| 0 <= t < run.len() - 1 ==> TimeTracking::tick_step(#[trigger] run[t], run[t + 1]),
    ensures
        run[i].projects == run[0].projects,
        run[i].today == run[0].today,
        run[i].current matches Some(a) && a.project@ == name && a.session.elapsed == i && !a.session.paused,
    decreases i,
{
    if i > 0 {
        lemma_running_ticks(run, name, i - 1);
        assert(TimeTracking::tick_step(run[i - 1], run[i]));
    }
}

/// A session started on `name`, ticked `n` times while running and then
/// stopped, adds exactly `n` seconds to the project's previous total (zero
/// for a new project).
pub proof fn lemma_session_total(
    o: TimeTracking,
    run: Seq<TimeTracking>,
    fin: TimeTracking,
    name: Seq<char>,
    sd: Seq<char>,
)
    requires
        run.len() >= 1,
        TimeTracking::started(o, run[0], name, sd),
        run[0].wf(),
        forall|t: int| 0 <= t < run.len() - 1 ==> TimeTracking::tick_step(#[trigger] run[t], run[t + 1]),
        TimeTracking::stopped(run.last(), fin),
    ensures
        exists|j: int| 0 <= j < fin.projects@.len() && (#[trigger] fin.projects@[j]).name@ == name,
        forall|j: int| 0 <= j < fin.projects@.len() && (#[trigger] fin.projects@[j]).name@ == name
            ==> fin.projects@[j].total_time@ == add_spec(
                if name_pos(o.projects@, name) >= 0 { o.projects@[name_pos(o.projects@, name)].total_time@ } else { zero_text() },
                seconds_text((run.len() - 1) as nat),
            ),
{
    let n = run.len() - 1;
    let last = run[n];
    lemma_running_ticks(run, name, n);
    let k = name_pos(o.projects@, name);
    lemma_name_pos(o.projects@, name);
    let ps = run[0].projects@;
    lemma_name_pos(ps, name);
    let kk = name_pos(ps, name);
    assert(kk >= 0);
    let prior = if k >= 0 { o.projects@[k].total_time@ } else { zero_text() };
    if k >= 0 {
        assert(ps[k].name@ == name);
        if kk < k {
            assert(ps[kk].name@ != ps[k].name@);
        } else if kk > k {
            assert(ps[k].name@ != ps[kk].name@);
        }
        assert(kk == k);
    } else {
        assert(ps[ps.len() - 1].name@ == name);
        if kk < ps.len() - 1 {
            assert(ps[kk].name@ != ps[ps.len() - 1].name@);
        }
        assert(kk == ps.len() - 1);
    }
    assert(ps[kk].total_time@ == prior);
    let fps = fin.projects@;
    assert(fps[kk].name@ == name);
    assert forall|j: int| 0 <= j < fps.len() && (#[trigger] fps[j]).name@ == name
        implies fps[j].total_time@ == add_spec(prior, seconds_text(n as nat)) by {
        if j != kk {
            assert(fps[j] == ps[j]);
            if j < kk {
                assert(ps[j].name@ != ps[kk].name@);
            } else {
                assert(ps[kk].name@ != ps[j].name@);
            }
        }
    }
}

/// Pausing twice in a row: the second pause changes nothing.
pub proof fn lemma_pause_twice(s0: TimeTracking, s1: TimeTracking, s2: TimeTracking)
    requires
        TimeTracking::pause_step(s0, s1),
        TimeTracking::pause_step(s1, s2),
    ensures
        s2.current == s1.current,
        s2.projects == s1.projects,
{
}

/// A tick while paused changes nothing.
pub proof fn lemma_tick_paused(s0: TimeTracking, s1: TimeTracking)
    requires
        s0.current matches Some(a) && a.session.paused,
        TimeTracking::tick_step(s0, s1),
    ensures
        s1.current == s0.current,
{
}

} // verus!
