//! Projects, sessions and the per-day ledger of a project.
use vstd::prelude::*;
use crate::clock::{day_key, day_sort_key};
use crate::duration::{add_durations, add_spec, fmt_hms, format_fields, format_seconds, seconds_text};
use crate::order::{is_permutation, sort_indices, sorted_by};

verus! {

/// The duration `00:00:00`.
pub open spec fn zero_text() -> Seq<char> {
    fmt_hms(0, 0, 0)
}

/// Position of day `d` in a ledger (the last match), or -1.
pub open spec fn day_pos(days: Seq<(Seq<char>, Seq<char>)>, d: Seq<char>) -> int
    decreases days.len(),
{
    if days.len() == 0 {
        -1
    } else if days.last().0 == d {
        days.len() - 1
    } else {
        day_pos(days.drop_last(), d)
    }
}

pub proof fn lemma_day_pos(days: Seq<(Seq<char>, Seq<char>)>, d: Seq<char>)
    ensures
        -1 <= day_pos(days, d) < days.len(),
        day_pos(days, d) >= 0 ==> days[day_pos(days, d)].0 == d,
        day_pos(days, d) == -1 ==> forall|i: int| 0 <= i < days.len() ==> (#[trigger] days[i]).0 != d,
    decreases days.len(),
{
    if days.len() > 0 {
        lemma_day_pos(days.drop_last(), d);
        assert forall|i: int| 0 <= i < days.len() - 1 implies days.drop_last()[i] == #[trigger] days[i] by {}
    }
}

/// Each day occurs at most once in a ledger.
pub open spec fn days_unique(days: Seq<(Seq<char>, Seq<char>)>) -> bool {
    forall|i: int, j: int| 0 <= i < j < days.len() ==> (#[trigger] days[i]).0 != (#[trigger] days[j]).0
}

/// The ledger with day `d` present, added at `00:00:00` if it was missing.
pub open spec fn ensure_day(days: Seq<(Seq<char>, Seq<char>)>, d: Seq<char>) -> Seq<(Seq<char>, Seq<char>)> {
    if day_pos(days, d) >= 0 {
        days
    } else {
        days.push((d, zero_text()))
    }
}

/// The ledger with `e` added to day `d` (a missing day counts from `00:00:00`).
pub open spec fn fold_day(days: Seq<(Seq<char>, Seq<char>)>, d: Seq<char>, e: Seq<char>) -> Seq<(Seq<char>, Seq<char>)> {
    let k = day_pos(days, d);
    if k >= 0 {
        days.update(k, (d, add_spec(days[k].1, e)))
    } else {
        days.push((d, add_spec(zero_text(), e)))
    }
}

/// The running timer of the active project.
pub struct Session {
    pub elapsed: u64,
    pub paused: bool,
}

impl Session {
    pub fn new() -> (r: Session)
        ensures
            r.elapsed == 0,
            !r.paused,
    {
        Session { elapsed: 0, paused: false }
    }

    /// The elapsed seconds as `HH:MM:SS`.
    pub fn format_elapsed(&self) -> (r: String)
        ensures
            r@ == seconds_text(self.elapsed as nat),
    {
        format_seconds(self.elapsed)
    }
}

impl Default for Session {
    fn default() -> (r: Session)
        ensures
            r.elapsed == 0,
            !r.paused,
    {
        Session::new()
    }
}

/// A named work item with its total and its per-day durations.
pub struct Project {
    pub name: String,
    pub start_date: String,
    pub hours_per_day: Vec<(String, String)>,
    pub total_time: String,
}

impl Project {
    /// The ledger as (day, duration) texts.
    pub open spec fn days(&self) -> Seq<(Seq<char>, Seq<char>)> {
        self.hours_per_day@.map_values(|p: (String, String)| (p.0@, p.1@))
    }

    pub open spec fn wf(&self) -> bool {
        days_unique(self.days())
    }

    pub fn new(name: &str, start_date: &str) -> (r: Project)
        ensures
            r.name@ == name@,
            r.start_date@ == start_date@,
            r.days() == Seq::<(Seq<char>, Seq<char>)>::empty(),
            r.total_time@ == zero_text(),
            r.wf(),
    {
        let r = Project {
            name: name.to_owned(),
            start_date: start_date.to_owned(),
            hours_per_day: Vec::new(),
            total_time: format_fields(0, 0, 0),
        };
        assert(r.days() =~= Seq::<(Seq<char>, Seq<char>)>::empty());
        r
    }

    /// Index of `day` in the ledger.
    pub fn find_day(&self, day: &String) -> (r: Option<usize>)
        ensures
            match r {
                Some(i) => i as int == day_pos(self.days(), day@),
                None => day_pos(self.days(), day@) == -1,
            },
    {
        let mut i: usize = self.hours_per_day.len();
        assert(self.days().take(i as int) =~= self.days());
        while i > 0
            invariant
                i <= self.hours_per_day@.len(),
                day_pos(self.days(), day@) == day_pos(self.days().take(i as int), day@),
            decreases i,
        {
            let ghost t = self.days().take(i as int);
            assert(t.drop_last() =~= self.days().take(i - 1));
            if self.hours_per_day[i - 1].0 == *day {
                return Some(i - 1);
            }
            i = i - 1;
        }
        None
    }

    /// Adds `day` at `00:00:00` unless the ledger has it.
    pub fn ensure_day(&mut self, day: &String)
        requires
            old(self).wf(),
        ensures
            final(self).wf(),
            final(self).days() == ensure_day(old(self).days(), day@),
            final(self).name == old(self).name,
            final(self).start_date == old(self).start_date,
            final(self).total_time == old(self).total_time,
    {
        proof { lemma_day_pos(self.days(), day@); }
        match self.find_day(day) {
            Some(_) => {},
            None => {
                self.hours_per_day.push((day.clone(), format_fields(0, 0, 0)));
                assert(self.days() =~= ensure_day(old(self).days(), day@));
            },
        }
    }

    /// Adds the duration `e` to the total and to `day`.
    pub fn fold(&mut self, day: &String, e: &String)
        requires
            old(self).wf(),
        ensures
            final(self).wf(),
            final(self).days() == fold_day(old(self).days(), day@, e@),
            final(self).total_time@ == add_spec(old(self).total_time@, e@),
            final(self).name == old(self).name,
            final(self).start_date == old(self).start_date,
    {
        proof { lemma_day_pos(self.days(), day@); }
        self.total_time = add_durations(&self.total_time, e);
        match self.find_day(day) {
            Some(k) => {
                let sum = add_durations(&self.hours_per_day[k].1, e);
                self.hours_per_day.set(k, (day.clone(), sum));
                assert(self.days() =~= fold_day(old(self).days(), day@, e@));
            },
            None => {
                let zero = format_fields(0, 0, 0);
                let sum = add_durations(&zero, e);
                self.hours_per_day.push((day.clone(), sum));
                assert(self.days() =~= fold_day(old(self).days(), day@, e@));
            },
        }
    }
    /// Ledger indices in calendar order of their days (days that do not
    /// parse last; equal days keep ledger order).
    pub fn order_hours_per_day(&self) -> (r: Vec<usize>)
        ensures
            is_permutation(r@, self.days().len()),
            forall|i: int, j: int| 0 <= i < j < r@.len() ==>
                day_key(self.days()[#[trigger] r@[i] as int].0) <= day_key(self.days()[#[trigger] r@[j] as int].0),
    {
        let mut keys: Vec<i128> = Vec::new();
        let mut i: usize = 0;
        while i < self.hours_per_day.len()
            invariant
                i <= self.hours_per_day@.len(),
                keys@.len() == i,
                forall|j: int| 0 <= j < i ==> keys@[j] as int == day_key(#[trigger] self.days()[j].0),
            decreases self.hours_per_day@.len() - i,
        {
            keys.push(day_sort_key(self.hours_per_day[i].0.as_str()));
            i = i + 1;
        }
        let r = sort_indices(&keys);
        assert forall|a: int, b: int| 0 <= a < b < r@.len() implies
            day_key(self.days()[#[trigger] r@[a] as int].0) <= day_key(self.days()[#[trigger] r@[b] as int].0) by {
            assert(keys@[r@[a] as int] <= keys@[r@[b] as int]);
        }
        r
    }
}

} // verus!
