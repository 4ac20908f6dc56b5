//! The worker's mutable state: the job table, the process-group table and
//! the process table, with the coherence invariants that tie them together.
//!
//! - every tracked process belongs to exactly one tracked group, and its
//!   recorded group id matches the group that holds it;
//! - every job points at a tracked group that points back at it;
//! - the foreground group, when set, is a tracked group, distinct from the
//!   shell's own group;
//! - at every steady state, no tracked group is empty.

use vstd::prelude::*;
use std::collections::HashMap;

verus! {

/// What the shell knows of one child process: running or stopped.
#[derive(Debug, Clone, Copy, PartialEq, Eq, Structural)]
pub enum ProcState {
    Run,
    Stop,
}

/// Per-process record: its state and its process-group id.
#[derive(Debug, Clone, Copy, PartialEq, Eq, Structural)]
pub struct ProcInfo {
    pub state: ProcState,
    pub pgid: i32,
}

/// One job: its id, the group its processes live in, and the command line
/// it was started from.
pub struct JobEntry {
    pub id: usize,
    pub pgid: i32,
    pub line: String,
}

/// Per-group record: the owning job and the live processes of the group.
pub struct GroupEntry {
    pub job_id: usize,
    pub pids: Vec<i32>,
}

pub open spec fn distinct_seq(s: Seq<i32>) -> bool {
    forall|a: int, b: int| 0 <= a < b < s.len() ==> s[a] != s[b]
}

/// Job ids strictly increase along the table.
pub open spec fn sorted_jobs(jobs: Seq<JobEntry>) -> bool {
    forall|i: int, j: int| 0 <= i < j < jobs.len() ==> jobs[i].id < jobs[j].id
}

/// A job with this id is present.
pub open spec fn has_job_in(jobs: Seq<JobEntry>, id: usize) -> bool {
    exists|i: int| 0 <= i < jobs.len() && jobs[i].id == id
}

pub open spec fn job_index_in(jobs: Seq<JobEntry>, id: usize) -> int {
    choose|i: int| 0 <= i < jobs.len() && jobs[i].id == id
}

pub open spec fn job_pgid_in(jobs: Seq<JobEntry>, id: usize) -> i32 {
    jobs[job_index_in(jobs, id)].pgid
}

pub open spec fn job_line_in(jobs: Seq<JobEntry>, id: usize) -> Seq<char> {
    jobs[job_index_in(jobs, id)].line@
}

/// With distinct ids, the chosen index is the unique witness.
pub proof fn lemma_job_index(jobs: Seq<JobEntry>, id: usize)
    requires
        sorted_jobs(jobs),
        has_job_in(jobs, id),
    ensures
        0 <= job_index_in(jobs, id) < jobs.len(),
        jobs[job_index_in(jobs, id)].id == id,
        forall|k: int| 0 <= k < jobs.len() && jobs[k].id == id ==> k == job_index_in(jobs, id),
{
    let w = job_index_in(jobs, id);
    assert(0 <= w < jobs.len() && jobs[w].id == id);
    assert forall|k: int| 0 <= k < jobs.len() && jobs[k].id == id implies k == w by {
        if k < w {
            assert(jobs[k].id < jobs[w].id);
        }
        if k > w {
            assert(jobs[w].id < jobs[k].id);
        }
    }
}

/// Every job points at a tracked group that points back at it.
pub open spec fn jobs_ok_in(jobs: Seq<JobEntry>, groups: Map<i32, GroupEntry>) -> bool {
    &&& sorted_jobs(jobs)
    &&& forall|i: int|
        0 <= i < jobs.len() ==> {
            &&& groups.contains_key(#[trigger] jobs[i].pgid)
            &&& groups[jobs[i].pgid].job_id == jobs[i].id
        }
}

/// The per-group part of coherence for group `g`.
pub open spec fn group_ok_in(
    jobs: Seq<JobEntry>,
    groups: Map<i32, GroupEntry>,
    procs: Map<i32, ProcInfo>,
    shell_pgid: i32,
    g: i32,
) -> bool {
    &&& distinct_seq(groups[g].pids@)
    &&& forall|k: int|
        0 <= k < groups[g].pids@.len() ==> {
            &&& procs.contains_key(#[trigger] groups[g].pids@[k])
            &&& procs[groups[g].pids@[k]].pgid == g
        }
    &&& has_job_in(jobs, groups[g].job_id)
    &&& job_pgid_in(jobs, groups[g].job_id) == g
    &&& g != shell_pgid
}

pub open spec fn groups_ok_in(
    jobs: Seq<JobEntry>,
    groups: Map<i32, GroupEntry>,
    procs: Map<i32, ProcInfo>,
    shell_pgid: i32,
) -> bool {
    forall|g: i32| #[trigger]
        groups.contains_key(g) ==> group_ok_in(jobs, groups, procs, shell_pgid, g)
}

/// Every tracked process is held by the group its record names.
pub open spec fn procs_ok_in(groups: Map<i32, GroupEntry>, procs: Map<i32, ProcInfo>) -> bool {
    forall|pid: i32| #[trigger]
        procs.contains_key(pid) ==> {
            &&& groups.contains_key(procs[pid].pgid)
            &&& groups[procs[pid].pgid].pids@.contains(pid)
        }
}

/// All groups are non-empty, except possibly `g`.
pub open spec fn nonempty_except_in(groups: Map<i32, GroupEntry>, g: i32) -> bool {
    forall|h: i32| #[trigger] groups.contains_key(h) && h != g ==> groups[h].pids@.len() > 0
}

/// No tracked group is empty.
pub open spec fn nonempty_in(groups: Map<i32, GroupEntry>) -> bool {
    forall|h: i32| #[trigger] groups.contains_key(h) ==> groups[h].pids@.len() > 0
}

/// Every process of group `g` is stopped.
pub open spec fn all_stopped_in(
    groups: Map<i32, GroupEntry>,
    procs: Map<i32, ProcInfo>,
    g: i32,
) -> bool {
    forall|x: i32| #[trigger] groups[g].pids@.contains(x) ==> procs[x].state == ProcState::Stop
}

/// Every process of group `g` other than `pid` is stopped.
pub open spec fn all_stopped_except_in(
    groups: Map<i32, GroupEntry>,
    procs: Map<i32, ProcInfo>,
    g: i32,
    pid: i32,
) -> bool {
    forall|x: i32|
        #[trigger] groups[g].pids@.contains(x) && x != pid ==> procs[x].state == ProcState::Stop
}

/// Removing one position from a duplicate-free sequence removes exactly
/// that element.
pub proof fn lemma_distinct_remove(s: Seq<i32>, k: int)
    requires
        distinct_seq(s),
        0 <= k < s.len(),
    ensures
        distinct_seq(s.remove(k)),
        forall|x: i32| s.remove(k).contains(x) <==> (s.contains(x) && x != s[k]),
{
    let t = s.remove(k);
    assert forall|x: i32| t.contains(x) implies (s.contains(x) && x != s[k]) by {
        let w = choose|i: int| 0 <= i < t.len() && t[i] == x;
        if w < k {
            assert(s[w] == x);
            assert(x != s[k]);
        } else {
            assert(s[w + 1] == x);
            assert(x != s[k]);
        }
    }
    assert forall|x: i32| s.contains(x) && x != s[k] implies t.contains(x) by {
        let w = choose|i: int| 0 <= i < s.len() && s[i] == x;
        if w < k {
            assert(t[w] == x);
        } else {
            assert(w != k);
            assert(t[w - 1] == x);
        }
    }
}

/// Inserting an entry whose id splits the sorted table at `pos` keeps the
/// table sorted and leaves every other job's record unchanged.
pub proof fn lemma_jobs_insert(jobs: Seq<JobEntry>, pos: int, e: JobEntry)
    requires
        sorted_jobs(jobs),
        0 <= pos <= jobs.len(),
        forall|k: int| 0 <= k < pos ==> jobs[k].id < e.id,
        forall|k: int| pos <= k < jobs.len() ==> jobs[k].id > e.id,
    ensures
        sorted_jobs(jobs.insert(pos, e)),
        has_job_in(jobs.insert(pos, e), e.id),
        job_pgid_in(jobs.insert(pos, e), e.id) == e.pgid,
        job_line_in(jobs.insert(pos, e), e.id) == e.line@,
        forall|x: usize|
            x != e.id ==> has_job_in(jobs.insert(pos, e), x) == has_job_in(jobs, x),
        forall|x: usize|
            x != e.id && has_job_in(jobs, x) ==> job_pgid_in(jobs.insert(pos, e), x)
                == job_pgid_in(jobs, x) && job_line_in(jobs.insert(pos, e), x) == job_line_in(
                jobs,
                x,
            ),
{
    let t = jobs.insert(pos, e);
    assert forall|i: int, j: int| 0 <= i < j < t.len() implies t[i].id < t[j].id by {
        if i < pos {
            assert(t[i] == jobs[i]);
        } else if i == pos {
            assert(t[i] == e);
        } else {
            assert(t[i] == jobs[i - 1]);
        }
        if j < pos {
            assert(t[j] == jobs[j]);
        } else if j == pos {
            assert(t[j] == e);
        } else {
            assert(t[j] == jobs[j - 1]);
        }
    }
    assert(t[pos] == e);
    lemma_job_index(t, e.id);
    assert forall|x: usize| x != e.id implies has_job_in(t, x) == has_job_in(jobs, x) by {
        if has_job_in(jobs, x) {
            let w = job_index_in(jobs, x);
            lemma_job_index(jobs, x);
            if w < pos {
                assert(t[w].id == x);
            } else {
                assert(t[w + 1].id == x);
            }
            assert(has_job_in(t, x));
        }
        if has_job_in(t, x) {
            let w = choose|i: int| 0 <= i < t.len() && t[i].id == x;
            if w < pos {
                assert(jobs[w].id == x);
            } else {
                assert(w != pos);
                assert(jobs[w - 1].id == x);
            }
            assert(has_job_in(jobs, x));
        }
    }
    assert forall|x: usize| x != e.id && has_job_in(jobs, x) implies job_pgid_in(t, x)
        == job_pgid_in(jobs, x) && job_line_in(t, x) == job_line_in(jobs, x) by {
        lemma_job_index(jobs, x);
        let w = job_index_in(jobs, x);
        if w < pos {
            assert(t[w].id == x);
        } else {
            assert(t[w + 1].id == x);
        }
        lemma_job_index(t, x);
        let v = job_index_in(t, x);
        if v < pos {
            assert(jobs[v].id == x);
            lemma_job_index(jobs, x);
            assert(v == w);
            assert(t[v] == jobs[w]);
        } else {
            assert(v != pos);
            assert(jobs[v - 1].id == x);
            assert(v - 1 == w);
            assert(t[v] == jobs[w]);
        }
    }
}

/// Removing the entry at `pos` removes exactly that job id and leaves every
/// other job's record unchanged.
pub proof fn lemma_jobs_remove(jobs: Seq<JobEntry>, pos: int)
    requires
        sorted_jobs(jobs),
        0 <= pos < jobs.len(),
    ensures
        sorted_jobs(jobs.remove(pos)),
        !has_job_in(jobs.remove(pos), jobs[pos].id),
        forall|x: usize|
            x != jobs[pos].id ==> has_job_in(jobs.remove(pos), x) == has_job_in(jobs, x),
        forall|x: usize|
            x != jobs[pos].id && has_job_in(jobs, x) ==> job_pgid_in(jobs.remove(pos), x)
                == job_pgid_in(jobs, x) && job_line_in(jobs.remove(pos), x) == job_line_in(
                jobs,
                x,
            ),
{
    let t = jobs.remove(pos);
    let id = jobs[pos].id;
    assert forall|i: int, j: int| 0 <= i < j < t.len() implies t[i].id < t[j].id by {
        if i < pos {
            assert(t[i] == jobs[i]);
        } else {
            assert(t[i] == jobs[i + 1]);
        }
        if j < pos {
            assert(t[j] == jobs[j]);
        } else {
            assert(t[j] == jobs[j + 1]);
        }
    }
    assert forall|k: int| 0 <= k < t.len() implies t[k].id != id by {
        if k < pos {
            assert(t[k] == jobs[k]);
            lemma_job_index(jobs, id);
        } else {
            assert(t[k] == jobs[k + 1]);
            lemma_job_index(jobs, id);
        }
    }
    assert forall|x: usize| x != id implies has_job_in(t, x) == has_job_in(jobs, x) by {
        if has_job_in(jobs, x) {
            lemma_job_index(jobs, x);
            let w = job_index_in(jobs, x);
            assert(w != pos);
            if w < pos {
                assert(t[w].id == x);
            } else {
                assert(t[w - 1].id == x);
            }
            assert(has_job_in(t, x));
        }
        if has_job_in(t, x) {
            let w = choose|i: int| 0 <= i < t.len() && t[i].id == x;
            if w < pos {
                assert(jobs[w].id == x);
            } else {
                assert(jobs[w + 1].id == x);
            }
            assert(has_job_in(jobs, x));
        }
    }
    assert forall|x: usize| x != id && has_job_in(jobs, x) implies job_pgid_in(t, x)
        == job_pgid_in(jobs, x) && job_line_in(t, x) == job_line_in(jobs, x) by {
        lemma_job_index(jobs, x);
        let w = job_index_in(jobs, x);
        assert(w != pos);
        if w < pos {
            assert(t[w].id == x);
        } else {
            assert(t[w - 1].id == x);
        }
        lemma_job_index(t, x);
        let v = job_index_in(t, x);
        if v < pos {
            assert(jobs[v].id == x);
            assert(v == w);
            assert(t[v] == jobs[w]);
        } else {
            assert(jobs[v + 1].id == x);
            assert(v + 1 == w);
            assert(t[v] == jobs[w]);
        }
    }
}

/// Find a value in a vector of pids.
pub fn find_pid(v: &Vec<i32>, x: i32) -> (r: Option<usize>)
    ensures
        match r {
            Some(i) => 0 <= i < v@.len() && v@[i as int] == x,
            None => !v@.contains(x),
        },
{
    let mut i: usize = 0;
    let n = v.len();
    while i < n
        invariant
            n == v@.len(),
            0 <= i <= n,
            forall|k: int| 0 <= k < i ==> v@[k] != x,
        decreases n - i,
    {
        if v[i] == x {
            return Some(i);
        }
        i += 1;
    }
    None
}

/// The worker: sole owner of the shell's mutable state.
pub struct Worker {
    /// Last observed child exit status.
    pub exit_val: i32,
    /// `Some(pgid)` while a job other than the shell holds the terminal.
    pub fg: Option<i32>,
    /// Jobs in ascending id order.
    pub jobs: Vec<JobEntry>,
    /// Group id to (owning job, live processes).
    pub pgid_to_pids: HashMap<i32, GroupEntry>,
    /// Process id to its record.
    pub pid_to_info: HashMap<i32, ProcInfo>,
    /// The shell's own process group, fixed at construction.
    pub shell_pgid: i32,
}

impl Worker {
    pub open spec fn groups(self) -> Map<i32, GroupEntry> {
        self.pgid_to_pids@
    }

    pub open spec fn procs(self) -> Map<i32, ProcInfo> {
        self.pid_to_info@
    }

    pub open spec fn has_job(self, id: usize) -> bool {
        has_job_in(self.jobs@, id)
    }

    pub open spec fn job_pgid(self, id: usize) -> i32 {
        job_pgid_in(self.jobs@, id)
    }

    pub open spec fn job_line(self, id: usize) -> Seq<char> {
        job_line_in(self.jobs@, id)
    }

    pub open spec fn tables_ok(self) -> bool {
        &&& jobs_ok_in(self.jobs@, self.groups())
        &&& groups_ok_in(self.jobs@, self.groups(), self.procs(), self.shell_pgid)
        &&& procs_ok_in(self.groups(), self.procs())
    }

    /// The foreground group, when set, is tracked.
    pub open spec fn fg_ok(self) -> bool {
        self.fg matches Some(p) ==> self.groups().contains_key(p)
    }

    pub open spec fn groups_nonempty(self) -> bool {
        nonempty_in(self.groups())
    }

    /// Full well-formedness: holds after every message is fully processed.
    pub open spec fn wf(self) -> bool {
        self.tables_ok() && self.fg_ok() && self.groups_nonempty()
    }

    /// The pgid that ought to own the terminal in this state.
    pub open spec fn term_owner(self) -> i32 {
        match self.fg {
            Some(p) => p,
            None => self.shell_pgid,
        }
    }

    /// A fresh worker that believes the shell's group is `shell_pgid`.
    pub fn new(shell_pgid: i32) -> (w: Worker)
        ensures
            w.wf(),
            w.exit_val == 0,
            w.fg is None,
            w.jobs@.len() == 0,
            w.groups() == Map::<i32, GroupEntry>::empty(),
            w.procs() == Map::<i32, ProcInfo>::empty(),
            w.shell_pgid == shell_pgid,
    {
        Worker {
            exit_val: 0,
            fg: None,
            jobs: Vec::new(),
            pgid_to_pids: HashMap::new(),
            pid_to_info: HashMap::new(),
            shell_pgid,
        }
    }

    /// Index of the job with this id, if any.
    pub fn find_job(&self, id: usize) -> (r: Option<usize>)
        ensures
            match r {
                Some(i) => 0 <= i < self.jobs@.len() && self.jobs@[i as int].id == id,
                None => !self.has_job(id),
            },
    {
        let mut i: usize = 0;
        let n = self.jobs.len();
        while i < n
            invariant
                n == self.jobs@.len(),
                0 <= i <= n,
                forall|k: int| 0 <= k < i ==> self.jobs@[k].id != id,
            decreases n - i,
        {
            if self.jobs[i].id == id {
                return Some(i);
            }
            i += 1;
        }
        None
    }

    /// The smallest id not yet used by any job.
    pub fn get_new_job_id(&self) -> (id: usize)
        requires
            sorted_jobs(self.jobs@),
        ensures
            !has_job_in(self.jobs@, id),
            forall|k: usize| k < id ==> has_job_in(self.jobs@, k),
    {
        let n = self.jobs.len();
        let mut i: usize = 0;
        while i < n
            invariant
                n == self.jobs@.len(),
                0 <= i <= n,
                sorted_jobs(self.jobs@),
                forall|k: int| 0 <= k < i ==> #[trigger] self.jobs@[k].id == k,
            decreases n - i,
        {
            if self.jobs[i].id != i {
                proof {
                    if i > 0 {
                        assert(self.jobs@[i as int - 1].id < self.jobs@[i as int].id);
                    }
                    assert(self.jobs@[i as int].id > i);
                    assert forall|k: int| 0 <= k < n implies self.jobs@[k].id != i by {
                        if k > i {
                            assert(self.jobs@[i as int].id < self.jobs@[k].id);
                        }
                    }
                    assert forall|k: usize| k < i implies has_job_in(self.jobs@, k) by {
                        assert((k as int) < self.jobs@.len() && self.jobs@[k as int].id == k);
                    }
                }
                return i;
            }
            i += 1;
        }
        proof {
            if has_job_in(self.jobs@, n) {
                let w = choose|i: int| 0 <= i < self.jobs@.len() && self.jobs@[i].id == n;
                assert(self.jobs@[w].id == w);
            }
            assert forall|k: usize| k < n implies has_job_in(self.jobs@, k) by {
                assert((k as int) < self.jobs@.len() && self.jobs@[k as int].id == k);
            }
        }
        n
    }

    /// Whether group `g` has no live process left.
    pub fn is_group_empty(&self, g: i32) -> (r: bool)
        requires
            self.groups().contains_key(g),
        ensures
            r == (self.groups()[g].pids@.len() == 0),
    {
        self.pgid_to_pids.get(&g).unwrap().pids.len() == 0
    }

    /// Whether every process of group `g` is stopped.
    pub fn is_group_stop(&self, g: i32) -> (r: bool)
        requires
            self.tables_ok(),
            self.groups().contains_key(g),
        ensures
            r == all_stopped_in(self.groups(), self.procs(), g),
    {
        let ge = self.pgid_to_pids.get(&g).unwrap();
        let n = ge.pids.len();
        let mut k: usize = 0;
        while k < n
            invariant
                self.tables_ok(),
                self.groups().contains_key(g),
                ge == self.groups()[g],
                n == ge.pids@.len(),
                0 <= k <= n,
                forall|j: int|
                    0 <= j < k ==> self.procs()[#[trigger] ge.pids@[j]].state == ProcState::Stop,
            decreases n - k,
        {
            let pid = ge.pids[k];
            let info = self.pid_to_info.get(&pid).unwrap();
            if info.state == ProcState::Run {
                proof {
                    assert(self.groups()[g].pids@.contains(pid)) by {
                        assert(self.groups()[g].pids@[k as int] == pid);
                    }
                }
                return false;
            }
            k += 1;
        }
        proof {
            assert forall|x: i32| #[trigger]
                self.groups()[g].pids@.contains(x) implies self.procs()[x].state
                == ProcState::Stop by {
                let w = choose|j: int|
                    0 <= j < self.groups()[g].pids@.len() && self.groups()[g].pids@[j] == x;
                assert(self.procs()[ge.pids@[w]].state == ProcState::Stop);
            }
        }
        true
    }

    /// Set the state of a tracked process, returning the previous state.
    /// Unknown processes are left alone.
    pub fn set_pid_state(&mut self, pid: i32, st: ProcState) -> (r: Option<ProcState>)
        requires
            old(self).tables_ok(),
        ensures
            final(self).tables_ok(),
            final(self).jobs@ == old(self).jobs@,
            final(self).groups() == old(self).groups(),
            final(self).fg == old(self).fg,
            final(self).exit_val == old(self).exit_val,
            final(self).shell_pgid == old(self).shell_pgid,
            match r {
                Some(prev) => {
                    &&& old(self).procs().contains_key(pid)
                    &&& prev == old(self).procs()[pid].state
                    &&& final(self).procs() == old(self).procs().insert(
                        pid,
                        ProcInfo { state: st, pgid: old(self).procs()[pid].pgid },
                    )
                },
                None => !old(self).procs().contains_key(pid) && final(self).procs() == old(
                    self,
                ).procs(),
            },
    {
        let ghost jobs0 = self.jobs@;
        let ghost groups0 = self.groups();
        let ghost procs0 = self.procs();
        let ghost shell = self.shell_pgid;
        match self.pid_to_info.remove(&pid) {
            Some(info) => {
                self.pid_to_info.insert(pid, ProcInfo { state: st, pgid: info.pgid });
                proof {
                    let procs1 = self.procs();
                    assert(procs1 =~= procs0.insert(
                        pid,
                        ProcInfo { state: st, pgid: procs0[pid].pgid },
                    ));
                    assert forall|g: i32| groups0.contains_key(g) implies group_ok_in(
                        jobs0,
                        groups0,
                        procs1,
                        shell,
                        g,
                    ) by {
                        assert(group_ok_in(jobs0, groups0, procs0, shell, g));
                        assert forall|k: int| 0 <= k < groups0[g].pids@.len() implies {
                            &&& procs1.contains_key(#[trigger] groups0[g].pids@[k])
                            &&& procs1[groups0[g].pids@[k]].pgid == g
                        } by {
                            assert(procs0.contains_key(groups0[g].pids@[k]));
                            assert(procs0[groups0[g].pids@[k]].pgid == g);
                        }
                    }
                    assert forall|q: i32| procs1.contains_key(q) implies {
                        &&& groups0.contains_key(procs1[q].pgid)
                        &&& groups0[procs1[q].pgid].pids@.contains(q)
                    } by {
                        assert(procs0.contains_key(q) && procs0[q].pgid == procs1[q].pgid);
                    }
                }
                Some(info.state)
            },
            None => {
                proof {
                    assert(self.procs() =~= procs0);
                }
                None
            },
        }
    }

    /// Record a new job: its entry, its group, and one record per process,
    /// all in one transition.
    pub fn insert_job(&mut self, id: usize, pgid: i32, line: String, pids: Vec<i32>)
        requires
            old(self).tables_ok(),
            old(self).groups_nonempty(),
            !has_job_in(old(self).jobs@, id),
            !old(self).groups().contains_key(pgid),
            pgid != old(self).shell_pgid,
            pids@.len() > 0,
            distinct_seq(pids@),
            forall|k: int|
                0 <= k < pids@.len() ==> !old(self).procs().contains_key(#[trigger] pids@[k]),
        ensures
            final(self).tables_ok(),
            final(self).groups_nonempty(),
            final(self).fg == old(self).fg,
            final(self).exit_val == old(self).exit_val,
            final(self).shell_pgid == old(self).shell_pgid,
            final(self).jobs@.len() == old(self).jobs@.len() + 1,
            has_job_in(final(self).jobs@, id),
            job_pgid_in(final(self).jobs@, id) == pgid,
            job_line_in(final(self).jobs@, id) == line@,
            forall|x: usize|
                x != id ==> has_job_in(final(self).jobs@, x) == has_job_in(old(self).jobs@, x),
            forall|x: usize|
                x != id && has_job_in(old(self).jobs@, x) ==> job_pgid_in(final(self).jobs@, x)
                    == job_pgid_in(old(self).jobs@, x) && job_line_in(final(self).jobs@, x)
                    == job_line_in(old(self).jobs@, x),
            final(self).groups().dom() == old(self).groups().dom().insert(pgid),
            final(self).groups()[pgid].job_id == id,
            final(self).groups()[pgid].pids@ == pids@,
            forall|h: i32|
                h != pgid && #[trigger] old(self).groups().contains_key(h) ==> final(self).groups()[h] == old(self).groups()[h],
            forall|k: int|
                0 <= k < pids@.len() ==> final(self).procs().contains_key(#[trigger] pids@[k])
                    && final(self).procs()[pids@[k]] == (ProcInfo {
                    state: ProcState::Run,
                    pgid,
                }),
            forall|q: i32|
                !pids@.contains(q) ==> final(self).procs().contains_key(q) == old(
                    self,
                ).procs().contains_key(q) && (old(self).procs().contains_key(q) ==> final(self).procs()[q] == old(self).procs()[q]),
    {
        let ghost jobs0 = self.jobs@;
        let ghost groups0 = self.groups();
        let ghost procs0 = self.procs();
        let ghost shell = self.shell_pgid;
        // one record per process
        let mut k: usize = 0;
        let npids = pids.len();
        while k < npids
            invariant
                npids == pids@.len(),
                0 <= k <= npids,
                distinct_seq(pids@),
                forall|j: int| 0 <= j < npids ==> !procs0.contains_key(#[trigger] pids@[j]),
                self.jobs@ == jobs0,
                self.groups() == groups0,
                self.shell_pgid == shell,
                self.fg == old(self).fg,
                self.exit_val == old(self).exit_val,
                forall|j: int|
                    0 <= j < k ==> self.procs().contains_key(#[trigger] pids@[j])
                        && self.procs()[pids@[j]] == (ProcInfo {
                        state: ProcState::Run,
                        pgid,
                    }),
                forall|q: i32|
                    #![trigger pids@.contains(q)]
                    !pids@.contains(q) ==> self.procs().contains_key(q) == procs0.contains_key(
                        q,
                    ) && (procs0.contains_key(q) ==> self.procs()[q] == procs0[q]),
            decreases npids - k,
        {
            let ghost procs_pre = self.procs();
            let pid = pids[k];
            self.pid_to_info.insert(pid, ProcInfo { state: ProcState::Run, pgid });
            proof {
                assert(self.procs() == procs_pre.insert(
                    pid,
                    ProcInfo { state: ProcState::Run, pgid },
                ));
                assert(pids@.contains(pid)) by {
                    assert(pids@[k as int] == pid);
                }
                assert forall|q: i32| !pids@.contains(q) implies #[trigger] self.procs(
                ).contains_key(q) == procs0.contains_key(q) && (procs0.contains_key(q)
                    ==> self.procs()[q] == procs0[q]) by {
                    assert(q != pid);
                    assert(!pids@.contains(q) ==> procs_pre.contains_key(q)
                        == procs0.contains_key(q) && (procs0.contains_key(q) ==> procs_pre[q]
                        == procs0[q]));
                }
                assert forall|j: int|
                    0 <= j < k + 1 implies self.procs().contains_key(#[trigger] pids@[j])
                    && self.procs()[pids@[j]] == (ProcInfo {
                    state: ProcState::Run,
                    pgid,
                }) by {
                    if j < k {
                        assert(procs_pre.contains_key(pids@[j]));
                        assert(pids@[j] != pid);
                    }
                }
            }
            k += 1;
        }
        proof {
            assert(pids@.take(npids as int) =~= pids@);
        }
        let ghost procs1 = self.procs();
        // the group record
        let ghost pids_v = pids@;
        let ge = GroupEntry { job_id: id, pids };
        self.pgid_to_pids.insert(pgid, ge);
        let ghost groups1 = self.groups();
        // the job entry, at its place in the order
        let n = self.jobs.len();
        let mut pos: usize = 0;
        while pos < n && self.jobs[pos].id < id
            invariant
                n == self.jobs@.len(),
                self.jobs@ == jobs0,
                0 <= pos <= n,
                sorted_jobs(jobs0),
                !has_job_in(jobs0, id),
                forall|j: int| 0 <= j < pos ==> #[trigger] jobs0[j].id < id,
            decreases n - pos,
        {
            pos += 1;
        }
        proof {
            if pos < n {
                assert(jobs0[pos as int].id != id) by {
                    if jobs0[pos as int].id == id {
                        assert(has_job_in(jobs0, id));
                    }
                }
            }
            assert forall|j: int| pos <= j < n implies #[trigger] jobs0[j].id > id by {
                if j > pos {
                    assert(jobs0[pos as int].id < jobs0[j].id);
                }
            }
        }
        let entry = JobEntry { id, pgid, line };
        proof {
            lemma_jobs_insert(jobs0, pos as int, entry);
        }
        self.jobs.insert(pos, entry);
        let ghost jobs1 = self.jobs@;
        proof {
            assert(jobs1 == jobs0.insert(pos as int, entry));
            assert(groups1 == groups0.insert(pgid, GroupEntry { job_id: id, pids: ge.pids }));
            // jobs_ok
            assert forall|i: int| 0 <= i < jobs1.len() implies {
                &&& groups1.contains_key(#[trigger] jobs1[i].pgid)
                &&& groups1[jobs1[i].pgid].job_id == jobs1[i].id
            } by {
                if i < pos {
                    assert(jobs1[i] == jobs0[i]);
                    assert(groups0.contains_key(jobs0[i].pgid));
                    assert(jobs0[i].pgid != pgid);
                } else if i == pos {
                    assert(jobs1[i] == entry);
                } else {
                    assert(jobs1[i] == jobs0[i - 1]);
                    assert(groups0.contains_key(jobs0[i - 1].pgid));
                    assert(jobs0[i - 1].pgid != pgid);
                }
            }
            // groups_ok
            assert forall|g: i32| groups1.contains_key(g) implies group_ok_in(
                jobs1,
                groups1,
                procs1,
                shell,
                g,
            ) by {
                if g == pgid {
                    assert(groups1[g].pids@ == pids_v);
                    assert forall|kk: int| 0 <= kk < pids_v.len() implies {
                        &&& procs1.contains_key(#[trigger] pids_v[kk])
                        &&& procs1[pids_v[kk]].pgid == g
                    } by {}
                } else {
                    assert(groups0.contains_key(g));
                    assert(group_ok_in(jobs0, groups0, procs0, shell, g));
                    assert(groups1[g] == groups0[g]);
                    assert forall|kk: int| 0 <= kk < groups1[g].pids@.len() implies {
                        &&& procs1.contains_key(#[trigger] groups1[g].pids@[kk])
                        &&& procs1[groups1[g].pids@[kk]].pgid == g
                    } by {
                        let q = groups1[g].pids@[kk];
                        assert(procs0.contains_key(q) && procs0[q].pgid == g);
                        assert(!pids_v.contains(q)) by {
                            if pids_v.contains(q) {
                                let w = choose|z: int|
                                    0 <= z < pids_v.len() && pids_v[z] == q;
                                assert(!procs0.contains_key(pids_v[w]));
                            }
                        }
                    }
                    let jid = groups0[g].job_id;
                    assert(jid != id) by {
                        if jid == id {
                            assert(has_job_in(jobs0, id));
                        }
                    }
                }
            }
            // procs_ok
            assert forall|q: i32| procs1.contains_key(q) implies {
                &&& groups1.contains_key(procs1[q].pgid)
                &&& groups1[procs1[q].pgid].pids@.contains(q)
            } by {
                if pids_v.contains(q) {
                    let w = choose|z: int| 0 <= z < pids_v.len() && pids_v[z] == q;
                    assert(procs1.contains_key(pids_v[w]) && procs1[pids_v[w]] == (ProcInfo {
                        state: ProcState::Run,
                        pgid,
                    }));
                    assert(groups1[pgid].pids@.contains(q));
                } else {
                    assert(procs0.contains_key(q) && procs1[q] == procs0[q]);
                    assert(groups0.contains_key(procs0[q].pgid));
                    assert(procs0[q].pgid != pgid);
                    assert(groups1[procs1[q].pgid] == groups0[procs0[q].pgid]);
                }
            }
            assert(final(self).groups().dom() =~= groups0.dom().insert(pgid));
        }
    }

    /// Drop a process from the tables.  Returns the owning job and group
    /// when the process was tracked.  The process's group may be left empty;
    /// the caller settles the job's fate.
    pub fn remove_pid(&mut self, pid: i32) -> (r: Option<(usize, i32)>)
        requires
            old(self).tables_ok(),
            old(self).groups_nonempty(),
        ensures
            final(self).tables_ok(),
            final(self).jobs@ == old(self).jobs@,
            final(self).fg == old(self).fg,
            final(self).exit_val == old(self).exit_val,
            final(self).shell_pgid == old(self).shell_pgid,
            match r {
                None => {
                    &&& !old(self).procs().contains_key(pid)
                    &&& final(self).groups() == old(self).groups()
                    &&& final(self).procs() == old(self).procs()
                    &&& final(self).groups_nonempty()
                },
                Some((job_id, g)) => {
                    &&& old(self).procs().contains_key(pid)
                    &&& g == old(self).procs()[pid].pgid
                    &&& old(self).groups().contains_key(g)
                    &&& job_id == old(self).groups()[g].job_id
                    &&& final(self).procs() == old(self).procs().remove(pid)
                    &&& final(self).groups().dom() == old(self).groups().dom()
                    &&& forall|h: i32|
                        h != g && #[trigger] final(self).groups().contains_key(h) ==> final(self).groups()[h] == old(self).groups()[h]
                    &&& final(self).groups()[g].job_id == old(self).groups()[g].job_id
                    &&& final(self).groups()[g].pids@.len() == old(self).groups()[g].pids@.len()
                        - 1
                    &&& forall|x: i32|
                        final(self).groups()[g].pids@.contains(x) <==> (old(
                            self,
                        ).groups()[g].pids@.contains(x) && x != pid)
                    &&& nonempty_except_in(final(self).groups(), g)
                },
            },
    {
        let ghost jobs0 = self.jobs@;
        let ghost groups0 = self.groups();
        let ghost procs0 = self.procs();
        let ghost shell = self.shell_pgid;
        match self.pid_to_info.remove(&pid) {
            None => {
                proof {
                    assert(self.procs() =~= procs0);
                }
                None
            },
            Some(info) => {
                let g = info.pgid;
                let ghost procs1 = self.procs();
                proof {
                    assert(procs1 =~= procs0.remove(pid));
                    assert(groups0.contains_key(g));
                    assert(groups0[g].pids@.contains(pid));
                }
                let mut ge = match self.pgid_to_pids.remove(&g) {
                    Some(ge) => ge,
                    None => {
                        proof {
                            assert(false);
                        }
                        return None;
                    },
                };
                let job_id = ge.job_id;
                let idx = match find_pid(&ge.pids, pid) {
                    Some(idx) => idx,
                    None => {
                        proof {
                            assert(false);
                        }
                        return None;
                    },
                };
                proof {
                    assert(ge.pids@[idx as int] == pid);
                    assert(group_ok_in(jobs0, groups0, procs0, shell, g));
                    lemma_distinct_remove(ge.pids@, idx as int);
                }
                let ghost pids_old = ge.pids@;
                ge.pids.remove(idx);
                self.pgid_to_pids.insert(g, ge);
                let ghost groups1 = self.groups();
                proof {
                    let pids_new = groups1[g].pids@;
                    assert(pids_new == pids_old.remove(idx as int));
                    assert(groups1 =~= groups0.insert(
                        g,
                        GroupEntry { job_id: groups0[g].job_id, pids: groups1[g].pids },
                    ));
                    assert(groups1.dom() =~= groups0.dom());
                    // jobs_ok
                    assert forall|i: int| 0 <= i < jobs0.len() implies {
                        &&& groups1.contains_key(#[trigger] jobs0[i].pgid)
                        &&& groups1[jobs0[i].pgid].job_id == jobs0[i].id
                    } by {
                        assert(groups0.contains_key(jobs0[i].pgid));
                        if jobs0[i].pgid != g {
                            assert(groups1[jobs0[i].pgid] == groups0[jobs0[i].pgid]);
                        }
                    }
                    // groups_ok
                    assert forall|h: i32| groups1.contains_key(h) implies group_ok_in(
                        jobs0,
                        groups1,
                        procs1,
                        shell,
                        h,
                    ) by {
                        assert(groups0.contains_key(h));
                        assert(group_ok_in(jobs0, groups0, procs0, shell, h));
                        if h == g {
                            assert forall|kk: int| 0 <= kk < pids_new.len() implies {
                                &&& procs1.contains_key(#[trigger] pids_new[kk])
                                &&& procs1[pids_new[kk]].pgid == g
                            } by {
                                assert(pids_new.contains(pids_new[kk]));
                                assert(pids_old.contains(pids_new[kk]) && pids_new[kk] != pid);
                                let w = choose|z: int|
                                    0 <= z < pids_old.len() && pids_old[z] == pids_new[kk];
                                assert(procs0.contains_key(pids_old[w]));
                            }
                        } else {
                            assert(groups1[h] == groups0[h]);
                            assert forall|kk: int| 0 <= kk < groups1[h].pids@.len() implies {
                                &&& procs1.contains_key(#[trigger] groups1[h].pids@[kk])
                                &&& procs1[groups1[h].pids@[kk]].pgid == h
                            } by {
                                let q = groups1[h].pids@[kk];
                                assert(procs0.contains_key(q) && procs0[q].pgid == h);
                                assert(q != pid) by {
                                    if q == pid {
                                        assert(procs0[pid].pgid == g);
                                    }
                                }
                            }
                        }
                    }
                    // procs_ok
                    assert forall|q: i32| procs1.contains_key(q) implies {
                        &&& groups1.contains_key(procs1[q].pgid)
                        &&& groups1[procs1[q].pgid].pids@.contains(q)
                    } by {
                        assert(procs0.contains_key(q) && procs1[q] == procs0[q]);
                        assert(q != pid);
                        let h = procs0[q].pgid;
                        assert(groups0[h].pids@.contains(q));
                        if h == g {
                            assert(pids_old.contains(q) && q != pid);
                            assert(groups1[g].pids@.contains(q));
                        } else {
                            assert(groups1[h] == groups0[h]);
                        }
                    }
                    // non-emptiness of the other groups
                    assert forall|h: i32|
                        groups1.contains_key(h) && h != g implies groups1[h].pids@.len() > 0 by {
                        assert(groups1[h] == groups0[h]);
                    }
                }
                Some((job_id, g))
            },
        }
    }

    /// Drop a job and its (already emptied) group.
    pub fn remove_job(&mut self, id: usize)
        requires
            old(self).tables_ok(),
            has_job_in(old(self).jobs@, id),
            old(self).groups()[job_pgid_in(old(self).jobs@, id)].pids@.len() == 0,
            nonempty_except_in(old(self).groups(), job_pgid_in(old(self).jobs@, id)),
        ensures
            final(self).tables_ok(),
            final(self).groups_nonempty(),
            final(self).fg == old(self).fg,
            final(self).exit_val == old(self).exit_val,
            final(self).shell_pgid == old(self).shell_pgid,
            final(self).procs() == old(self).procs(),
            final(self).jobs@.len() == old(self).jobs@.len() - 1,
            !has_job_in(final(self).jobs@, id),
            forall|x: usize|
                x != id ==> has_job_in(final(self).jobs@, x) == has_job_in(old(self).jobs@, x),
            forall|x: usize|
                x != id && has_job_in(old(self).jobs@, x) ==> job_pgid_in(final(self).jobs@, x)
                    == job_pgid_in(old(self).jobs@, x) && job_line_in(final(self).jobs@, x)
                    == job_line_in(old(self).jobs@, x),
            final(self).groups() == old(self).groups().remove(
                job_pgid_in(old(self).jobs@, id),
            ),
    {
        let ghost jobs0 = self.jobs@;
        let ghost groups0 = self.groups();
        let ghost procs0 = self.procs();
        let ghost shell = self.shell_pgid;
        proof {
            lemma_job_index(jobs0, id);
        }
        let idx = match self.find_job(id) {
            Some(idx) => idx,
            None => {
                proof {
                    assert(false);
                }
                return ;
            },
        };
        proof {
            assert(idx as int == job_index_in(jobs0, id));
            lemma_jobs_remove(jobs0, idx as int);
        }
        let g = self.jobs[idx].pgid;
        let ghost gv = job_pgid_in(jobs0, id);
        let _ = self.jobs.remove(idx);
        self.pgid_to_pids.remove(&g);
        let ghost jobs1 = self.jobs@;
        let ghost groups1 = self.groups();
        proof {
            assert(groups1 =~= groups0.remove(gv));
            assert(group_ok_in(jobs0, groups0, procs0, shell, gv)) by {
                assert(groups0.contains_key(gv));
            }
            assert(groups0[gv].job_id == id) by {
                assert(jobs0[idx as int].pgid == gv);
            }
            // jobs_ok: no surviving job points at the removed group
            assert forall|i: int| 0 <= i < jobs1.len() implies {
                &&& groups1.contains_key(#[trigger] jobs1[i].pgid)
                &&& groups1[jobs1[i].pgid].job_id == jobs1[i].id
            } by {
                let e = if i < idx {
                    jobs0[i]
                } else {
                    jobs0[i + 1]
                };
                assert(jobs1[i] == e);
                assert(groups0.contains_key(e.pgid) && groups0[e.pgid].job_id == e.id);
                assert(e.pgid != gv) by {
                    if e.pgid == gv {
                        assert(e.id == id);
                        lemma_job_index(jobs0, id);
                    }
                }
            }
            // groups_ok for the survivors
            assert forall|h: i32| groups1.contains_key(h) implies group_ok_in(
                jobs1,
                groups1,
                procs0,
                shell,
                h,
            ) by {
                assert(groups0.contains_key(h) && h != gv);
                assert(group_ok_in(jobs0, groups0, procs0, shell, h));
                assert(groups1[h] == groups0[h]);
                let jid = groups0[h].job_id;
                assert(jid != id) by {
                    if jid == id {
                        assert(job_pgid_in(jobs0, id) == h);
                    }
                }
            }
            // procs_ok: no process lived in the removed (empty) group
            assert forall|q: i32| procs0.contains_key(q) implies {
                &&& groups1.contains_key(procs0[q].pgid)
                &&& groups1[procs0[q].pgid].pids@.contains(q)
            } by {
                let h = procs0[q].pgid;
                assert(groups0.contains_key(h) && groups0[h].pids@.contains(q));
                assert(h != gv) by {
                    if h == gv {
                        assert(groups0[gv].pids@.len() == 0);
                    }
                }
            }
        }
    }
}

} // verus!
