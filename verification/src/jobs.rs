//! The table of model conversion jobs: their live state, bounded logs and
//! lifecycle (running → done | error | cancelled), as the admin UI sees it.
//! The fraction-done figure `P` is carried through unchanged.

use vstd::prelude::*;
use crate::model::opt_view;
use crate::text::{clone_strings, owned, str_eq, views};

verus! {

/// Live state of one conversion job.
pub struct Job<P> {
    pub id: String,
    pub repo: String,
    pub quant: String,
    pub output: String,
    /// running | done | error | cancelled
    pub state: String,
    pub log: Vec<String>,
    pub started: u64,
    pub finished: Option<u64>,
    pub size_bytes: Option<u64>,
    /// Fraction done, from the converter's progress markers.
    pub progress: Option<P>,
    /// Current phase label.
    pub phase: Option<String>,
}

pub struct JobView<P> {
    pub id: Seq<char>,
    pub repo: Seq<char>,
    pub quant: Seq<char>,
    pub output: Seq<char>,
    pub state: Seq<char>,
    pub log: Seq<Seq<char>>,
    pub started: u64,
    pub finished: Option<u64>,
    pub size_bytes: Option<u64>,
    pub progress: Option<P>,
    pub phase: Option<Seq<char>>,
}

impl<P> View for Job<P> {
    type V = JobView<P>;

    open spec fn view(&self) -> JobView<P> {
        JobView {
            id: self.id@,
            repo: self.repo@,
            quant: self.quant@,
            output: self.output@,
            state: self.state@,
            log: views(self.log@),
            started: self.started,
            finished: self.finished,
            size_bytes: self.size_bytes,
            progress: self.progress,
            phase: opt_view(self.phase),
        }
    }
}

/// Longest job log kept.
pub const JOB_LOG_KEEP: usize = 200;

/// Most jobs `list` returns.
pub const JOB_LIST_MAX: usize = 20;

/// The last `cap` lines of `l`.
pub open spec fn tail(l: Seq<Seq<char>>, cap: nat) -> Seq<Seq<char>> {
    if l.len() > cap {
        l.skip(l.len() - cap)
    } else {
        l
    }
}

pub open spec fn ids<P>(s: Seq<JobView<P>>) -> Seq<Seq<char>> {
    s.map_values(|j: JobView<P>| j.id)
}

pub open spec fn distinct(k: Seq<Seq<char>>) -> bool {
    forall|a: int, b: int| 0 <= a < b < k.len() ==> k[a] != k[b]
}

/// Position of `id` in a key list (the first one).
pub open spec fn key_pos(k: Seq<Seq<char>>, id: Seq<char>) -> Option<int> {
    if exists|i: int| 0 <= i < k.len() && k[i] == id {
        Some(choose|i: int| 0 <= i < k.len() && k[i] == id && forall|j: int| 0 <= j < i ==> k[j] != id)
    } else {
        None
    }
}

pub open spec fn job_pos<P>(s: Seq<JobView<P>>, id: Seq<char>) -> Option<int> {
    key_pos(ids(s), id)
}

pub proof fn lemma_key_pos_at(k: Seq<Seq<char>>, i: int)
    requires
        0 <= i < k.len(),
        forall|j: int| 0 <= j < i ==> k[j] != k[i],
    ensures
        key_pos(k, k[i]) == Some(i),
{
    let c = choose|c: int| 0 <= c < k.len() && k[c] == k[i] && forall|j: int| 0 <= j < c ==> k[j] != k[i];
    if c < i {
    } else if c > i {
        assert(k[i] == k[i]);
    }
}

proof fn lemma_first_witness(k: Seq<Seq<char>>, id: Seq<char>, w: int)
    requires
        0 <= w < k.len(),
        k[w] == id,
    ensures
        exists|m: int| 0 <= m < k.len() && k[m] == id && forall|j: int| 0 <= j < m ==> k[j] != id,
    decreases w,
{
    if exists|j: int| 0 <= j < w && k[j] == id {
        let j = choose|j: int| 0 <= j < w && k[j] == id;
        lemma_first_witness(k, id, j);
    } else {
        assert(forall|j: int| 0 <= j < w ==> k[j] != id);
    }
}

/// A position that `key_pos` gives holds the key.
pub proof fn lemma_key_pos_some(k: Seq<Seq<char>>, id: Seq<char>)
    requires
        key_pos(k, id) is Some,
    ensures
        0 <= key_pos(k, id)->0 < k.len(),
        k[key_pos(k, id)->0] == id,
{
    let w = choose|i: int| 0 <= i < k.len() && k[i] == id;
    lemma_first_witness(k, id, w);
}

pub proof fn lemma_push_new_key(k: Seq<Seq<char>>, id: Seq<char>)
    requires
        distinct(k),
        key_pos(k, id) is None,
    ensures
        distinct(k.push(id)),
        key_pos(k.push(id), id) == Some(k.len() as int),
{
    let after = k.push(id);
    assert forall|a: int, b: int| 0 <= a < b < after.len() implies after[a] != after[b] by {
        assert(after[a] == k[a]);
        if b < k.len() {
            assert(after[b] == k[b]);
        }
    }
    assert forall|j: int| 0 <= j < k.len() implies after[j] != id by {
        assert(after[j] == k[j]);
    }
    lemma_key_pos_at(after, k.len() as int);
}

pub proof fn lemma_remove_keeps_distinct(k: Seq<Seq<char>>, i: int)
    requires
        distinct(k),
        0 <= i < k.len(),
    ensures
        distinct(k.remove(i)),
{
    let after = k.remove(i);
    assert forall|a: int, b: int| 0 <= a < b < after.len() implies after[a] != after[b] by {
        let a0 = if a < i { a } else { a + 1 };
        let b0 = if b < i { b } else { b + 1 };
        assert(after[a] == k[a0]);
        assert(after[b] == k[b0]);
    }
}

/// With distinct keys, removing the entry of a key leaves no entry for it.
pub proof fn lemma_removed_key_gone(k: Seq<Seq<char>>, i: int)
    requires
        distinct(k),
        0 <= i < k.len(),
    ensures
        key_pos(k.remove(i), k[i]) is None,
{
    let after = k.remove(i);
    assert forall|c: int| 0 <= c < after.len() implies after[c] != k[i] by {
        let c0 = if c < i { c } else { c + 1 };
        assert(after[c] == k[c0]);
    }
}

/// A job after one more log line (keeping the last `JOB_LOG_KEEP`).
pub open spec fn with_line<P>(j: JobView<P>, line: Seq<char>) -> JobView<P> {
    JobView { log: tail(j.log.push(line), JOB_LOG_KEEP as nat), ..j }
}

/// A job after a progress report; an empty phase keeps the previous one.
pub open spec fn with_progress<P>(j: JobView<P>, frac: P, phase: Seq<char>) -> JobView<P> {
    JobView {
        progress: Some(frac),
        phase: if phase.len() == 0 {
            j.phase
        } else {
            Some(phase)
        },
        ..j
    }
}

/// A job settled by its task: a cancelled job stays as it is; otherwise it
/// is done when the converter succeeded and left a non-empty output (then
/// fully progressed), else in error.
pub open spec fn finished_job<P>(
    j: JobView<P>,
    ok: bool,
    now: u64,
    size: Option<u64>,
    full: P,
) -> JobView<P> {
    if j.state == "cancelled"@ {
        j
    } else {
        let done = ok && match size {
            Some(n) => n > 0,
            None => false,
        };
        JobView {
            finished: Some(now),
            size_bytes: size,
            state: if done {
                "done"@
            } else {
                "error"@
            },
            progress: if done {
                Some(full)
            } else {
                j.progress
            },
            ..j
        }
    }
}

/// Row `r` of a listing is entry `j` of the table.
pub open spec fn is_entry<P>(s: Seq<JobView<P>>, r: JobView<P>) -> bool {
    exists|i: int| 0 <= i < s.len() && #[trigger] s[i] == r
}

pub open spec fn starts<P>(s: Seq<JobView<P>>) -> Seq<u64> {
    s.map_values(|j: JobView<P>| j.started)
}

/// Index `i` occurs in `order`.
pub open spec fn placed(order: Seq<usize>, i: int) -> bool {
    exists|x: int| 0 <= x < order.len() && order[x] == i
}

/// `order` lists the indices `0..k`, each once, by descending start time.
pub open spec fn order_ok(st: Seq<u64>, order: Seq<usize>, k: int) -> bool {
    &&& order.len() == k
    &&& k <= st.len()
    &&& forall|x: int| 0 <= x < order.len() ==> #[trigger] order[x] < k
    &&& forall|x: int, y: int| 0 <= x < y < order.len() ==> order[x] != order[y]
    &&& forall|x: int, y: int|
        0 <= x < y < order.len() ==> st[order[x] as int] >= st[order[y] as int]
    &&& forall|i: int| 0 <= i < k ==> #[trigger] placed(order, i)
}

pub proof fn lemma_insert_order(st: Seq<u64>, order: Seq<usize>, k: int, pos: int)
    requires
        order_ok(st, order, k),
        k < st.len(),
        k < usize::MAX,
        0 <= pos <= order.len(),
        forall|a: int| 0 <= a < pos ==> st[order[a] as int] >= st[k],
        pos < order.len() ==> st[order[pos] as int] < st[k],
    ensures
        order_ok(st, order.insert(pos, k as usize), k + 1),
{
    let after = order.insert(pos, k as usize);
    assert forall|x: int| 0 <= x < after.len() implies #[trigger] after[x] < k + 1 by {
        if x < pos {
            assert(after[x] == order[x]);
        } else if x > pos {
            assert(after[x] == order[x - 1]);
        }
    }
    assert forall|x: int, y: int| 0 <= x < y < after.len() implies after[x] != after[y] by {
        if y < pos {
            assert(after[x] == order[x] && after[y] == order[y]);
        } else if y == pos {
            assert(after[x] == order[x]);
        } else if x < pos {
            assert(after[x] == order[x] && after[y] == order[y - 1]);
        } else if x == pos {
            assert(after[y] == order[y - 1]);
        } else {
            assert(after[x] == order[x - 1] && after[y] == order[y - 1]);
        }
    }
    lemma_insert_sorted_idx(st, order, k, pos);
    assert forall|i: int| 0 <= i < k + 1 implies #[trigger] placed(after, i) by {
        if i == k {
            assert(after[pos] == k);
        } else {
            assert(placed(order, i));
            let x = choose|x: int| 0 <= x < order.len() && order[x] == i;
            if x < pos {
                assert(after[x] == order[x]);
            } else {
                assert(after[x + 1] == order[x]);
            }
        }
    }
}

proof fn lemma_insert_sorted_idx(st: Seq<u64>, order: Seq<usize>, k: int, pos: int)
    requires
        order_ok(st, order, k),
        k < st.len(),
        k < usize::MAX,
        0 <= pos <= order.len(),
        forall|a: int| 0 <= a < pos ==> st[order[a] as int] >= st[k],
        pos < order.len() ==> st[order[pos] as int] < st[k],
    ensures
        forall|x: int, y: int|
            #![trigger order.insert(pos, k as usize)[x], order.insert(pos, k as usize)[y]]
            0 <= x < y < order.insert(pos, k as usize).len() ==> st[order.insert(
                pos,
                k as usize,
            )[x] as int] >= st[order.insert(pos, k as usize)[y] as int],
{
    let after = order.insert(pos, k as usize);
    assert forall|x: int, y: int| 0 <= x < y < after.len() implies st[after[x] as int]
        >= st[after[y] as int] by {
        if y < pos {
            assert(after[x] == order[x] && after[y] == order[y]);
        } else if y == pos {
            assert(after[x] == order[x]);
        } else if x < pos {
            assert(after[x] == order[x] && after[y] == order[y - 1]);
            assert(st[order[pos] as int] >= st[order[y - 1] as int] || y - 1 == pos);
        } else if x == pos {
            assert(after[y] == order[y - 1]);
            assert(st[order[pos] as int] >= st[order[y - 1] as int] || y - 1 == pos);
        } else {
            assert(after[x] == order[x - 1] && after[y] == order[y - 1]);
        }
    }
}

impl<P: Copy> Job<P> {
    /// An independent copy with the same contents.
    pub fn copy(&self) -> (r: Self)
        ensures
            r@ == self@,
    {
        Job {
            id: self.id.clone(),
            repo: self.repo.clone(),
            quant: self.quant.clone(),
            output: self.output.clone(),
            state: self.state.clone(),
            log: clone_strings(&self.log),
            started: self.started,
            finished: self.finished,
            size_bytes: self.size_bytes,
            progress: self.progress,
            phase: match &self.phase {
                Some(p) => Some(p.clone()),
                None => None,
            },
        }
    }
}

/// Conversion jobs by id.
pub struct JobStore<P> {
    jobs: Vec<Job<P>>,
}

impl<P> View for JobStore<P> {
    type V = Seq<JobView<P>>;

    closed spec fn view(&self) -> Seq<JobView<P>> {
        self.jobs@.map_values(|j: Job<P>| j@)
    }
}

impl<P: Copy> JobStore<P> {
    /// No two jobs share an id.
    pub open spec fn well_formed(&self) -> bool {
        distinct(ids(self@))
    }

    pub fn new() -> (s: Self)
        ensures
            s@.len() == 0,
            s.well_formed(),
    {
        JobStore { jobs: Vec::new() }
    }

    fn position(&self, id: &str) -> (r: Option<usize>)
        requires
            self.well_formed(),
        ensures
            match r {
                Some(i) => i < self@.len() && self@[i as int].id == id@ && job_pos(self@, id@)
                    == Some(i as int),
                None => job_pos(self@, id@) is None,
            },
    {
        let mut i: usize = 0;
        while i < self.jobs.len()
            invariant
                i <= self@.len(),
                self@.len() == self.jobs@.len(),
                forall|j: int| 0 <= j < i ==> ids(self@)[j] != id@,
            decreases self.jobs.len() - i,
        {
            if str_eq(self.jobs[i].id.as_str(), id) {
                proof {
                    assert(ids(self@)[i as int] == id@);
                    lemma_key_pos_at(ids(self@), i as int);
                }
                return Some(i);
            }
            i += 1;
        }
        None
    }

    /// Adds a job, replacing the one with the same id if there is one.
    pub fn insert(&mut self, job: Job<P>)
        requires
            old(self).well_formed(),
        ensures
            final(self).well_formed(),
            final(self)@ == match job_pos(old(self)@, job.id@) {
                Some(i) => old(self)@.update(i, job@),
                None => old(self)@.push(job@),
            },
    {
        let ghost jv = job@;
        match self.position(job.id.as_str()) {
            Some(i) => {
                let ghost before = self@;
                self.jobs.set(i, job);
                assert(self@ =~= before.update(i as int, jv));
                assert(ids(self@) =~= ids(before));
            },
            None => {
                let ghost before = self@;
                self.jobs.push(job);
                assert(self@ =~= before.push(jv));
                assert(ids(self@) =~= ids(before).push(jv.id));
                proof {
                    lemma_push_new_key(ids(before), jv.id);
                }
            },
        }
    }

    /// Applies `f` to job `id`'s entry: shared bookkeeping of the setters.
    fn replace_at(&mut self, i: usize, job: Job<P>)
        requires
            old(self).well_formed(),
            i < old(self)@.len(),
            job@.id == old(self)@[i as int].id,
        ensures
            final(self).well_formed(),
            final(self)@ == old(self)@.update(i as int, job@),
    {
        let ghost before = self@;
        let ghost jv = job@;
        self.jobs.set(i, job);
        assert(self@ =~= before.update(i as int, jv));
        assert(ids(self@) =~= ids(before));
    }

    fn take_at(&mut self, i: usize) -> (j: Job<P>)
        requires
            old(self).well_formed(),
            i < old(self)@.len(),
        ensures
            final(self).well_formed(),
            j@ == old(self)@[i as int],
            final(self).jobs@.len() == old(self).jobs@.len(),
            final(self)@ == old(self)@.update(i as int, final(self)@[i as int]),
            final(self)@[i as int].id == old(self)@[i as int].id,
    {
        let ghost before = self@;
        let placeholder = Job {
            id: self.jobs[i].id.clone(),
            repo: String::new(),
            quant: String::new(),
            output: String::new(),
            state: String::new(),
            log: Vec::new(),
            started: 0,
            finished: None,
            size_bytes: None,
            progress: None,
            phase: None,
        };
        let j = self.jobs.remove(i);
        self.jobs.insert(i, placeholder);
        assert(self@ =~= before.update(i as int, self@[i as int]));
        assert(ids(self@) =~= ids(before));
        j
    }

    /// Appends a line to job `id`'s log, keeping the last `JOB_LOG_KEEP`
    /// lines; unknown ids are ignored.
    pub fn push_line(&mut self, id: &str, line: String)
        requires
            old(self).well_formed(),
        ensures
            final(self).well_formed(),
            final(self)@ == match job_pos(old(self)@, id@) {
                Some(i) => old(self)@.update(i, with_line(old(self)@[i], line@)),
                None => old(self)@,
            },
    {
        match self.position(id) {
            Some(i) => {
                let ghost start = self@;
                let mut j = self.take_at(i);
                let ghost full = views(j.log@).push(line@);
                j.log.push(line);
                assert(views(j.log@) =~= full);
                let n = j.log.len();
                if n > JOB_LOG_KEEP {
                    let mut kept: Vec<String> = Vec::new();
                    let mut k: usize = n - JOB_LOG_KEEP;
                    while k < n
                        invariant
                            n - JOB_LOG_KEEP <= k <= n,
                            n == j.log@.len(),
                            n > JOB_LOG_KEEP,
                            views(j.log@) == full,
                            views(kept@) =~= full.subrange(n - JOB_LOG_KEEP, k as int),
                        decreases n - k,
                    {
                        let ghost before = kept@;
                        kept.push(j.log[k].clone());
                        assert(views(kept@) =~= views(before).push(j.log@[k as int]@));
                        assert(full[k as int] == j.log@[k as int]@);
                        k += 1;
                    }
                    j.log = kept;
                    assert(full.subrange(n - JOB_LOG_KEEP, n as int) =~= full.skip(
                        n - JOB_LOG_KEEP,
                    ));
                }
                assert(j@ == with_line(start[i as int], line@));
                self.replace_at(i, j);
                assert(self@ =~= start.update(i as int, with_line(start[i as int], line@)));
            },
            None => {},
        }
    }

    /// Records a progress report for job `id` (an empty phase keeps the
    /// previous phase); unknown ids are ignored.
    pub fn set_progress(&mut self, id: &str, frac: P, phase: String)
        requires
            old(self).well_formed(),
        ensures
            final(self).well_formed(),
            final(self)@ == match job_pos(old(self)@, id@) {
                Some(i) => old(self)@.update(i, with_progress(old(self)@[i], frac, phase@)),
                None => old(self)@,
            },
    {
        match self.position(id) {
            Some(i) => {
                let ghost start = self@;
                let mut j = self.take_at(i);
                j.progress = Some(frac);
                if !phase.as_str().is_empty() {
                    j.phase = Some(phase);
                }
                assert(j@ == with_progress(start[i as int], frac, phase@));
                self.replace_at(i, j);
                assert(self@ =~= start.update(i as int, with_progress(start[i as int], frac, phase@)));
            },
            None => {},
        }
    }

    /// Sets job `id`'s state and finish time; unknown ids are ignored.
    pub fn set_state(&mut self, id: &str, state: &str, now: u64)
        requires
            old(self).well_formed(),
        ensures
            final(self).well_formed(),
            final(self)@ == match job_pos(old(self)@, id@) {
                Some(i) => old(self)@.update(
                    i,
                    JobView { state: state@, finished: Some(now), ..old(self)@[i] },
                ),
                None => old(self)@,
            },
    {
        match self.position(id) {
            Some(i) => {
                let ghost start = self@;
                let mut j = self.take_at(i);
                j.state = owned(state);
                j.finished = Some(now);
                self.replace_at(i, j);
                assert(self@ =~= start.update(
                    i as int,
                    JobView { state: state@, finished: Some(now), ..start[i as int] },
                ));
            },
            None => {},
        }
    }

    /// Settles job `id` when its task ends: `ok` is whether the converter
    /// succeeded, `size` the size of the output it left, `full` the progress
    /// of a finished job. A job cancelled meanwhile stays cancelled.
    pub fn finish(&mut self, id: &str, ok: bool, now: u64, size: Option<u64>, full: P)
        requires
            old(self).well_formed(),
        ensures
            final(self).well_formed(),
            final(self)@ == match job_pos(old(self)@, id@) {
                Some(i) => old(self)@.update(i, finished_job(old(self)@[i], ok, now, size, full)),
                None => old(self)@,
            },
    {
        match self.position(id) {
            Some(i) => {
                if str_eq(self.jobs[i].state.as_str(), "cancelled") {
                    assert(self@ =~= self@.update(
                        i as int,
                        finished_job(self@[i as int], ok, now, size, full),
                    ));
                    return;
                }
                let ghost start = self@;
                let mut j = self.take_at(i);
                j.finished = Some(now);
                j.size_bytes = size;
                let done = ok && match size {
                    Some(n) => n > 0,
                    None => false,
                };
                j.state = if done {
                    owned("done")
                } else {
                    owned("error")
                };
                if done {
                    j.progress = Some(full);
                }
                self.replace_at(i, j);
                assert(self@ =~= start.update(
                    i as int,
                    finished_job(start[i as int], ok, now, size, full),
                ));
            },
            None => {},
        }
    }

    /// Whether job `id` exists and is still running (only then can it be
    /// cancelled).
    pub fn cancellable(&self, id: &str) -> (b: bool)
        requires
            self.well_formed(),
        ensures
            b == (job_pos(self@, id@) matches Some(i) && self@[i].state == "running"@),
    {
        match self.position(id) {
            Some(i) => str_eq(self.jobs[i].state.as_str(), "running"),
            None => false,
        }
    }

    /// A copy of job `id`, if there is one.
    pub fn get(&self, id: &str) -> (r: Option<Job<P>>)
        requires
            self.well_formed(),
        ensures
            match job_pos(self@, id@) {
                Some(i) => r matches Some(j) && j@ == self@[i],
                None => r is None,
            },
    {
        match self.position(id) {
            Some(i) => Some(self.jobs[i].copy()),
            None => None,
        }
    }

    /// Removes a finished job and hands it back (the caller deletes its output
    /// files). A running job is refused; an unknown id gives `Ok(None)`.
    pub fn delete(&mut self, id: &str) -> (r: Result<Option<Job<P>>, String>)
        requires
            old(self).well_formed(),
        ensures
            final(self).well_formed(),
            match job_pos(old(self)@, id@) {
                None => r matches Ok(None) && final(self)@ == old(self)@,
                Some(i) => if old(self)@[i].state == "running"@ {
                    r matches Err(e) && e@ == "cancel the running job before deleting"@
                        && final(self)@ == old(self)@
                } else {
                    r matches Ok(Some(j)) && j@ == old(self)@[i] && final(self)@ == old(
                        self,
                    )@.remove(i)
                },
            },
            r is Ok ==> job_pos(final(self)@, id@) is None,
    {
        match self.position(id) {
            None => Ok(None),
            Some(i) => {
                if str_eq(self.jobs[i].state.as_str(), "running") {
                    return Err(owned("cancel the running job before deleting"));
                }
                let ghost before = self@;
                let j = self.jobs.remove(i);
                assert(self@ =~= before.remove(i as int));
                assert(ids(self@) =~= ids(before).remove(i as int));
                proof {
                    lemma_remove_keeps_distinct(ids(before), i as int);
                    lemma_removed_key_gone(ids(before), i as int);
                }
                Ok(Some(j))
            },
        }
    }

    /// The most recently started jobs, newest first (at most `JOB_LIST_MAX`;
    /// jobs started at the same second keep their insertion order).
    pub fn list(&self) -> (rows: Vec<Job<P>>)
        requires
            self.well_formed(),
        ensures
            rows@.len() == if self@.len() < JOB_LIST_MAX {
                self@.len()
            } else {
                JOB_LIST_MAX as nat
            },
            forall|a: int, b: int|
                0 <= a < b < rows@.len() ==> rows@[a]@.started >= rows@[b]@.started,
            forall|a: int| 0 <= a < rows@.len() ==> is_entry(self@, #[trigger] rows@[a]@),
            forall|a: int, b: int| 0 <= a < b < rows@.len() ==> rows@[a]@.id != rows@[b]@.id,
            forall|i: int|
                0 <= i < self@.len() ==> (exists|a: int| 0 <= a < rows@.len() && #[trigger] rows@[a]@ == self@[i]) || (
                rows@.len() == JOB_LIST_MAX && self@[i].started <= rows@[JOB_LIST_MAX - 1]@.started),
    {
        let ghost st = starts(self@);
        let mut order: Vec<usize> = Vec::new();
        let mut k: usize = 0;
        while k < self.jobs.len()
            invariant
                k <= self.jobs@.len(),
                self.jobs@.len() == self@.len(),
                st == starts(self@),
                order_ok(st, order@, k as int),
            decreases self.jobs.len() - k,
        {
            let sk = self.jobs[k].started;
            let mut pos: usize = 0;
            while pos < order.len() && self.jobs[order[pos]].started >= sk
                invariant
                    pos <= order@.len(),
                    order_ok(st, order@, k as int),
                    k < self.jobs@.len(),
                    self.jobs@.len() == self@.len(),
                    st == starts(self@),
                    sk == st[k as int],
                    forall|a: int| 0 <= a < pos ==> st[order@[a] as int] >= sk,
                decreases order.len() - pos,
            {
                pos += 1;
            }
            let ghost before = order@;
            order.insert(pos, k);
            proof {
                lemma_insert_order(st, before, k as int, pos as int);
            }
            k += 1;
        }
        let m: usize = if self.jobs.len() < JOB_LIST_MAX {
            self.jobs.len()
        } else {
            JOB_LIST_MAX
        };
        let mut rows: Vec<Job<P>> = Vec::new();
        let mut a: usize = 0;
        while a < m
            invariant
                a <= m <= order@.len(),
                m == order@.len() || m == JOB_LIST_MAX,
                order@.len() == self@.len(),
                self.jobs@.len() == self@.len(),
                st == starts(self@),
                order_ok(st, order@, self@.len() as int),
                rows@.len() == a,
                forall|c: int| 0 <= c < a ==> #[trigger] rows@[c]@ == self@[order@[c] as int],
            decreases m - a,
        {
            let r = self.jobs[order[a]].copy();
            rows.push(r);
            a += 1;
        }
        proof {
            let s = self@;
            assert forall|x: int, y: int| 0 <= x < y < rows@.len() implies rows@[x]@.started
                >= rows@[y]@.started by {
                assert(rows@[x]@ == s[order@[x] as int]);
                assert(rows@[y]@ == s[order@[y] as int]);
                assert(st[order@[x] as int] >= st[order@[y] as int]);
            }
            assert forall|x: int| 0 <= x < rows@.len() implies is_entry(s, #[trigger] rows@[x]@) by {
                assert(rows@[x]@ == s[order@[x] as int]);
            }
            assert forall|x: int, y: int| 0 <= x < y < rows@.len() implies rows@[x]@.id
                != rows@[y]@.id by {
                assert(rows@[x]@ == s[order@[x] as int]);
                assert(rows@[y]@ == s[order@[y] as int]);
                assert(order@[x] != order@[y]);
                if order@[x] < order@[y] {
                    assert(ids(s)[order@[x] as int] != ids(s)[order@[y] as int]);
                } else {
                    assert(ids(s)[order@[y] as int] != ids(s)[order@[x] as int]);
                }
            }
            assert forall|i: int| 0 <= i < s.len() implies (exists|x: int|
                0 <= x < rows@.len() && #[trigger] rows@[x]@ == s[i]) || (rows@.len()
                == JOB_LIST_MAX && s[i].started <= rows@[JOB_LIST_MAX - 1]@.started) by {
                assert(placed(order@, i));
                let x = choose|x: int| 0 <= x < order@.len() && order@[x] == i;
                if x < m {
                    assert(rows@[x]@ == s[i]);
                } else {
                    assert(rows@[JOB_LIST_MAX - 1]@ == s[order@[JOB_LIST_MAX - 1] as int]);
                    assert(st[order@[JOB_LIST_MAX - 1] as int] >= st[order@[x] as int]);
                }
            }
        }
        rows
    }
}

} // verus!
