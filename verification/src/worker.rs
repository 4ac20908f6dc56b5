//! The worker's message handlers: parsing and dispatch of command lines,
//! the built-in commands, job registration after a spawn, and the reactions
//! to child state changes.
//!
//! Handlers mutate the tables and return a [`Step`]: the reply owed to the
//! reader (if any) and the terminal work the front end must perform.  The
//! reply discipline is part of the contracts: a command gets exactly one
//! reply, either at once or - for a spawned or resumed job - when its
//! foreground group later stops or empties, which is also exactly when the
//! terminal returns to the shell.

use vstd::prelude::*;
use vstd::string::*;
use crate::parse::parse_cmd;
use crate::parse::split_pipes_spec;
use crate::parse::tokens_of;
use crate::parse::Stage;
use crate::state::all_stopped_except_in;
use crate::state::distinct_seq;
use crate::state::all_stopped_in;
use crate::state::has_job_in;
use crate::state::nonempty_except_in;
use crate::state::GroupEntry;
use crate::state::ProcInfo;
use crate::state::ProcState;
use crate::state::job_line_in;
use crate::state::job_pgid_in;
use crate::state::lemma_job_index;
use crate::state::Worker;
use crate::sys::change_dir;
use crate::sys::wait_next_event;
use crate::sys::ChildEvent;
use crate::sys::eprint_line;
use crate::sys::print_line;
use crate::sys::send_cont;
use crate::sys::set_stdin_fg;
use crate::sys::stdin_fg_pgid;
use crate::text::digits_val;
use crate::text::i32_to_string;
use crate::text::i32_literal_val;
use crate::text::is_i32_literal;
use crate::text::is_usize_literal;
use crate::text::parse_i32;
use crate::text::parse_usize;
use crate::text::str_eq;
use crate::text::usize_to_string;

verus! {

/// What the worker sends back to the line reader.
#[derive(Debug, Clone, Copy, PartialEq, Eq)]
pub enum Reply {
    /// Resume reading; the value is the last exit status.
    Continue(i32),
    /// Terminate the shell with the given status.
    Quit(i32),
}

/// Terminal work the front end must perform on the worker's behalf.
#[derive(Debug, Clone, Copy, PartialEq, Eq)]
pub enum Action {
    /// Make this group the owner of the terminal.
    Transfer(i32),
    /// Make this group the owner of the terminal, then send it `SIGCONT`.
    Resume(i32),
}

/// The visible outcome of one handled message.
#[derive(Debug, Clone, Copy, PartialEq, Eq)]
pub struct Step {
    pub reply: Option<Reply>,
    pub action: Option<Action>,
}

/// An external command the front end must fork and exec: the chosen job id
/// and the (one or two) pipeline stages.
pub struct SpawnPlan {
    pub job_id: usize,
    pub stages: Vec<Stage>,
}

/// Outcome of a command-line message.
pub enum CmdOutcome {
    /// Settled immediately: a built-in ran or the command was rejected.
    Step(Step),
    /// An external command: the front end must spawn it, then call
    /// [`Worker::register_job`] or [`Worker::spawn_failed`].
    Spawn(SpawnPlan),
}

pub open spec fn no_step() -> Step {
    Step { reply: None, action: None }
}

pub open spec fn reply_step(r: Reply) -> Step {
    Step { reply: Some(r), action: None }
}

/// Tables and the shell's group agree between two worker states.
pub open spec fn same_tables(pre: Worker, post: Worker) -> bool {
    &&& post.jobs@ == pre.jobs@
    &&& post.groups() == pre.groups()
    &&& post.procs() == pre.procs()
    &&& post.shell_pgid == pre.shell_pgid
}

/// Nothing observable changed between two worker states.
pub open spec fn same_state(pre: Worker, post: Worker) -> bool {
    same_tables(pre, post) && post.fg == pre.fg && post.exit_val == pre.exit_val
}

/// Every stage of the line has at least one token.
pub open spec fn parse_ok(line: Seq<char>) -> bool {
    forall|i: int|
        0 <= i < split_pipes_spec(line).len() ==> tokens_of(
            #[trigger] split_pipes_spec(line)[i],
        ).len() > 0
}

pub open spec fn nstages(line: Seq<char>) -> int {
    split_pipes_spec(line).len() as int
}

pub open spec fn stage_toks(line: Seq<char>, i: int) -> Seq<Seq<char>> {
    tokens_of(split_pipes_spec(line)[i])
}

/// The `exit` built-in: refused while jobs run; an explicit status must be
/// a decimal `i32`; without one the last status is carried out.
pub open spec fn exit_post(pre: Worker, post: Worker, args: Seq<Seq<char>>, r: Step) -> bool {
    if pre.jobs@.len() > 0 {
        post.exit_val == 1 && r == reply_step(Reply::Continue(1))
    } else if args.len() == 0 {
        post.exit_val == pre.exit_val && r == reply_step(Reply::Quit(pre.exit_val))
    } else if is_i32_literal(args[0]) {
        &&& post.exit_val == pre.exit_val
        &&& r.action is None
        &&& r.reply matches Some(Reply::Quit(c)) && c as int == i32_literal_val(args[0])
    } else {
        post.exit_val == 1 && r == reply_step(Reply::Continue(1))
    }
}

/// The `fg` built-in succeeds exactly on a decimal id of a tracked job.
pub open spec fn fg_arg_ok(pre: Worker, args: Seq<Seq<char>>) -> bool {
    &&& args.len() > 0
    &&& is_usize_literal(args[0])
    &&& has_job_in(pre.jobs@, digits_val(args[0]) as usize)
}

/// The `fg` built-in: on success the job's group becomes the foreground
/// and is resumed, and no reply is owed until it stops or empties.
pub open spec fn fg_post(pre: Worker, post: Worker, args: Seq<Seq<char>>, r: Step) -> bool {
    if fg_arg_ok(pre, args) {
        let g = job_pgid_in(pre.jobs@, digits_val(args[0]) as usize);
        &&& post.exit_val == pre.exit_val
        &&& post.fg == Some(g)
        &&& r == (Step { reply: None, action: Some(Action::Resume(g)) })
    } else {
        post.exit_val == 1 && post.fg == pre.fg && r == reply_step(Reply::Continue(1))
    }
}

/// The `cd` built-in: a missing path is an error; otherwise the outside
/// call decides, and the status reports it.
pub open spec fn cd_post(pre: Worker, post: Worker, args: Seq<Seq<char>>, r: Step) -> bool {
    &&& post.exit_val == 0 || post.exit_val == 1
    &&& (args.len() == 0 ==> post.exit_val == 1)
    &&& post.fg == pre.fg
    &&& r == reply_step(Reply::Continue(post.exit_val))
}

/// A spawn plan carries the smallest free job id and the parsed stages.
pub open spec fn spawn_plan_ok(pre: Worker, line: Seq<char>, plan: SpawnPlan) -> bool {
    &&& !has_job_in(pre.jobs@, plan.job_id)
    &&& forall|k: usize| k < plan.job_id ==> has_job_in(pre.jobs@, k)
    &&& plan.stages@.len() == nstages(line)
    &&& 1 <= plan.stages@.len() <= 2
    &&& forall|i: int|
        0 <= i < plan.stages@.len() ==> #[trigger] plan.stages@[i].tokens() == stage_toks(line, i)
}

/// What `on_cmd` does, by case: parse errors and built-ins settle at once;
/// an external command of at most two stages leaves the state untouched
/// and hands a spawn plan out.
pub open spec fn cmd_post(pre: Worker, post: Worker, line: Seq<char>, r: CmdOutcome) -> bool {
    if !parse_ok(line) {
        &&& same_tables(pre, post)
        &&& post.fg == pre.fg
        &&& post.exit_val == 1
        &&& r matches CmdOutcome::Step(st) && st == reply_step(Reply::Continue(1))
    } else {
        let toks = stage_toks(line, 0);
        let args = toks.skip(1);
        if nstages(line) == 1 && toks[0] == "exit"@ {
            &&& same_tables(pre, post)
            &&& post.fg == pre.fg
            &&& r matches CmdOutcome::Step(st) && exit_post(pre, post, args, st)
        } else if nstages(line) == 1 && toks[0] == "jobs"@ {
            &&& same_tables(pre, post)
            &&& post.fg == pre.fg
            &&& post.exit_val == 0
            &&& r matches CmdOutcome::Step(st) && st == reply_step(Reply::Continue(0))
        } else if nstages(line) == 1 && toks[0] == "fg"@ {
            &&& same_tables(pre, post)
            &&& r matches CmdOutcome::Step(st) && fg_post(pre, post, args, st)
        } else if nstages(line) == 1 && toks[0] == "cd"@ {
            &&& same_tables(pre, post)
            &&& r matches CmdOutcome::Step(st) && cd_post(pre, post, args, st)
        } else if nstages(line) > 2 {
            &&& same_state(pre, post)
            &&& r matches CmdOutcome::Step(st) && st == reply_step(Reply::Continue(pre.exit_val))
        } else {
            &&& same_state(pre, post)
            &&& r matches CmdOutcome::Spawn(plan) && spawn_plan_ok(pre, line, plan)
        }
    }
}

impl Worker {
    /// A worker whose shell group is sampled from the controlling terminal,
    /// or `None` when standard input has no terminal.
    pub fn from_terminal() -> (r: Option<Worker>)
        ensures
            r matches Some(w) ==> {
                &&& w.wf()
                &&& w.exit_val == 0
                &&& w.fg is None
                &&& w.jobs@.len() == 0
            },
    {
        match stdin_fg_pgid() {
            Some(pg) => Some(Worker::new(pg)),
            None => None,
        }
    }

    /// Handle one command line from the reader.
    pub fn on_cmd(&mut self, line: &String) -> (r: CmdOutcome)
        requires
            old(self).wf(),
            old(self).fg is None,
        ensures
            final(self).wf(),
            cmd_post(*old(self), *final(self), line@, r),
    {
        let stages = match parse_cmd(line.as_str()) {
            Err(_) => {
                eprint_line("zerosh: empty command");
                self.exit_val = 1;
                return CmdOutcome::Step(Step { reply: Some(Reply::Continue(1)), action: None });
            },
            Ok(stages) => stages,
        };
        if stages.len() == 1 {
            proof {
                assert(stages@[0].tokens() == stage_toks(line@, 0));
                assert(stages@[0].tokens()[0] == stages@[0].cmd@);
                assert(stages@[0].tokens().skip(1) =~= stages@[0].args.deep_view());
            }
            let st = &stages[0];
            if str_eq(st.cmd.as_str(), "exit") {
                return CmdOutcome::Step(self.run_exit(st));
            }
            if str_eq(st.cmd.as_str(), "jobs") {
                return CmdOutcome::Step(self.run_jobs());
            }
            if str_eq(st.cmd.as_str(), "fg") {
                return CmdOutcome::Step(self.run_fg(st));
            }
            if str_eq(st.cmd.as_str(), "cd") {
                return CmdOutcome::Step(self.run_cd(st));
            }
        }
        let job_id = self.get_new_job_id();
        if stages.len() > 2 {
            eprint_line("zerosh: pipelines of more than two stages are not supported");
            return CmdOutcome::Step(Step { reply: Some(Reply::Continue(self.exit_val)), action: None });
        }
        proof {
            crate::parse::lemma_split_nonempty(line@);
        }
        CmdOutcome::Spawn(SpawnPlan { job_id, stages })
    }

    /// The `exit` built-in.
    fn run_exit(&mut self, st: &Stage) -> (r: Step)
        requires
            old(self).wf(),
        ensures
            final(self).wf(),
            same_tables(*old(self), *final(self)),
            final(self).fg == old(self).fg,
            exit_post(*old(self), *final(self), st.args.deep_view(), r),
    {
        if self.jobs.len() > 0 {
            eprint_line("zerosh: jobs running, cannot exit");
            self.exit_val = 1;
            return Step { reply: Some(Reply::Continue(1)), action: None };
        }
        if st.args.len() == 0 {
            return Step { reply: Some(Reply::Quit(self.exit_val)), action: None };
        }
        proof {
            assert(st.args.deep_view()[0] == st.args@[0]@);
        }
        match parse_i32(st.args[0].as_str()) {
            Some(code) => Step { reply: Some(Reply::Quit(code)), action: None },
            None => {
                let mut m = String::from_str("zerosh: invalid exit status: ");
                m.append(st.args[0].as_str());
                eprint_line(m.as_str());
                self.exit_val = 1;
                Step { reply: Some(Reply::Continue(1)), action: None }
            },
        }
    }

    /// The `jobs` built-in: list jobs in ascending id order.
    fn run_jobs(&mut self) -> (r: Step)
        requires
            old(self).wf(),
        ensures
            final(self).wf(),
            same_tables(*old(self), *final(self)),
            final(self).fg == old(self).fg,
            final(self).exit_val == 0,
            r == reply_step(Reply::Continue(0)),
    {
        let n = self.jobs.len();
        let mut i: usize = 0;
        while i < n
            invariant
                n == self.jobs@.len(),
            decreases n - i,
        {
            let mut m = String::from_str("[");
            m.append(usize_to_string(self.jobs[i].id).as_str());
            m.append("] ");
            m.append(self.jobs[i].line.as_str());
            print_line(m.as_str());
            i += 1;
        }
        self.exit_val = 0;
        Step { reply: Some(Reply::Continue(0)), action: None }
    }

    /// The `fg` built-in.
    fn run_fg(&mut self, st: &Stage) -> (r: Step)
        requires
            old(self).wf(),
        ensures
            final(self).wf(),
            same_tables(*old(self), *final(self)),
            fg_post(*old(self), *final(self), st.args.deep_view(), r),
    {
        proof {
            if st.args.deep_view().len() > 0 {
                assert(st.args.deep_view()[0] == st.args@[0]@);
            }
        }
        if st.args.len() == 0 {
            eprint_line("usage: fg <job id>");
            self.exit_val = 1;
            return Step { reply: Some(Reply::Continue(1)), action: None };
        }
        let id = match parse_usize(st.args[0].as_str()) {
            Some(id) => id,
            None => {
                let mut m = String::from_str("zerosh: no such job: ");
                m.append(st.args[0].as_str());
                eprint_line(m.as_str());
                self.exit_val = 1;
                return Step { reply: Some(Reply::Continue(1)), action: None };
            },
        };
        let idx = match self.find_job(id) {
            Some(idx) => idx,
            None => {
                let mut m = String::from_str("zerosh: no such job: ");
                m.append(st.args[0].as_str());
                eprint_line(m.as_str());
                self.exit_val = 1;
                return Step { reply: Some(Reply::Continue(1)), action: None };
            },
        };
        let g = self.jobs[idx].pgid;
        let mut m = String::from_str("[");
        m.append(usize_to_string(id).as_str());
        m.append("] resumed\t");
        m.append(self.jobs[idx].line.as_str());
        eprint_line(m.as_str());
        proof {
            lemma_job_index(self.jobs@, id);
            assert(job_pgid_in(self.jobs@, id) == g);
            assert(self.groups().contains_key(g)) by {
                assert(self.jobs@[idx as int].pgid == g);
            }
        }
        self.fg = Some(g);
        Step { reply: None, action: Some(Action::Resume(g)) }
    }

    /// The `cd` built-in.
    fn run_cd(&mut self, st: &Stage) -> (r: Step)
        requires
            old(self).wf(),
        ensures
            final(self).wf(),
            same_tables(*old(self), *final(self)),
            cd_post(*old(self), *final(self), st.args.deep_view(), r),
    {
        if st.args.len() == 0 {
            eprint_line("zerosh: cd: missing path");
            self.exit_val = 1;
            return Step { reply: Some(Reply::Continue(1)), action: None };
        }
        if change_dir(st.args[0].as_str()) {
            self.exit_val = 0;
        } else {
            let mut m = String::from_str("zerosh: cd: cannot change to ");
            m.append(st.args[0].as_str());
            eprint_line(m.as_str());
            self.exit_val = 1;
        }
        let code = self.exit_val;
        Step { reply: Some(Reply::Continue(code)), action: None }
    }

    /// Record a successfully spawned pipeline: the leader's pid (the first
    /// of `pids`) is the group id, the job takes the foreground and the
    /// terminal, and no reply is owed until the group stops or empties.
    pub fn register_job(&mut self, job_id: usize, line: &String, pids: Vec<i32>) -> (st: Step)
        requires
            old(self).wf(),
            old(self).fg is None,
            !has_job_in(old(self).jobs@, job_id),
            pids@.len() > 0,
            distinct_seq(pids@),
            forall|k: int|
                0 <= k < pids@.len() ==> !old(self).procs().contains_key(#[trigger] pids@[k]),
            !old(self).groups().contains_key(pids@[0]),
            pids@[0] != old(self).shell_pgid,
        ensures
            final(self).wf(),
            final(self).exit_val == old(self).exit_val,
            final(self).shell_pgid == old(self).shell_pgid,
            final(self).fg == Some(pids@[0]),
            st == (Step { reply: None, action: Some(Action::Transfer(pids@[0])) }),
            has_job_in(final(self).jobs@, job_id),
            job_pgid_in(final(self).jobs@, job_id) == pids@[0],
            job_line_in(final(self).jobs@, job_id) == line@,
            forall|x: usize|
                x != job_id ==> has_job_in(final(self).jobs@, x) == has_job_in(
                    old(self).jobs@,
                    x,
                ),
            final(self).groups().dom() == old(self).groups().dom().insert(pids@[0]),
            final(self).groups()[pids@[0]].job_id == job_id,
            final(self).groups()[pids@[0]].pids@ == pids@,
            forall|k: int|
                0 <= k < pids@.len() ==> final(self).procs().contains_key(#[trigger] pids@[k])
                    && final(self).procs()[pids@[k]] == (ProcInfo {
                    state: ProcState::Run,
                    pgid: pids@[0],
                }),
            forall|q: i32|
                !pids@.contains(q) ==> final(self).procs().contains_key(q) == old(
                    self,
                ).procs().contains_key(q),
    {
        let pgid = pids[0];
        self.insert_job(job_id, pgid, line.clone(), pids);
        self.fg = Some(pgid);
        Step { reply: None, action: Some(Action::Transfer(pgid)) }
    }

    /// Whether a spawned pipeline may be recorded: a fresh job id, at least
    /// one process, no duplicate or already-tracked pid, and a leader group
    /// that is new and distinct from the shell's own.
    pub fn can_register(&self, job_id: usize, pids: &Vec<i32>) -> (r: bool)
        requires
            self.wf(),
        ensures
            r == {
                &&& !has_job_in(self.jobs@, job_id)
                &&& pids@.len() > 0
                &&& distinct_seq(pids@)
                &&& (forall|k: int|
                    0 <= k < pids@.len() ==> !self.procs().contains_key(#[trigger] pids@[k]))
                &&& !self.groups().contains_key(pids@[0])
                &&& pids@[0] != self.shell_pgid
            },
    {
        if pids.len() == 0 {
            return false;
        }
        match self.find_job(job_id) {
            Some(i) => {
                proof {
                    assert(has_job_in(self.jobs@, job_id)) by {
                        assert(self.jobs@[i as int].id == job_id);
                    }
                }
                return false;
            },
            None => {},
        }
        if self.pgid_to_pids.contains_key(&pids[0]) {
            return false;
        }
        if pids[0] == self.shell_pgid {
            return false;
        }
        let n = pids.len();
        let mut i: usize = 0;
        while i < n
            invariant
                n == pids@.len(),
                0 <= i <= n,
                self.wf(),
                forall|k: int| 0 <= k < i ==> !self.procs().contains_key(#[trigger] pids@[k]),
                forall|a: int, b: int| 0 <= a < b < n && a < i ==> pids@[a] != pids@[b],
            decreases n - i,
        {
            if self.pid_to_info.contains_key(&pids[i]) {
                return false;
            }
            let mut j: usize = i + 1;
            while j < n
                invariant
                    n == pids@.len(),
                    0 <= i < j <= n,
                    forall|b: int| i < b < j ==> pids@[i as int] != pids@[b],
                decreases n - j,
            {
                if pids[i] == pids[j] {
                    return false;
                }
                j += 1;
            }
            i += 1;
        }
        true
    }

    /// The reply owed when a spawn attempt failed: the reader resumes with
    /// the unchanged status.
    pub fn spawn_failed(&self) -> (r: Step)
        ensures
            r == reply_step(Reply::Continue(self.exit_val)),
    {
        Step { reply: Some(Reply::Continue(self.exit_val)), action: None }
    }
}

/// Group `g` loses exactly the process `pid`; everything else is kept.
pub open spec fn groups_drop_pid(
    pre: Map<i32, GroupEntry>,
    post: Map<i32, GroupEntry>,
    g: i32,
    pid: i32,
) -> bool {
    &&& post.dom() == pre.dom()
    &&& forall|h: i32| #[trigger] post.contains_key(h) && h != g ==> post[h] == pre[h]
    &&& post[g].job_id == pre[g].job_id
    &&& post[g].pids@.len() == pre[g].pids@.len() - 1
    &&& forall|x: i32|
        #[trigger] post[g].pids@.contains(x) <==> (pre[g].pids@.contains(x) && x != pid)
}

/// The process table after a tracked process changes state; an unknown
/// process changes nothing.
pub open spec fn set_state_map(procs: Map<i32, ProcInfo>, pid: i32, s: ProcState) -> Map<
    i32,
    ProcInfo,
> {
    if procs.contains_key(pid) {
        procs.insert(pid, ProcInfo { state: s, pgid: procs[pid].pgid })
    } else {
        procs
    }
}

/// The step that returns the terminal to the shell and resumes the reader.
pub open spec fn shell_return_step(pre: Worker, code: i32) -> Step {
    Step { reply: Some(Reply::Continue(code)), action: Some(Action::Transfer(pre.shell_pgid)) }
}

/// What reaping a terminated process does, once the exit status is already
/// recorded in `pre.exit_val`: the process leaves the tables; a job whose
/// group empties is dropped; if the foreground group empties or is left
/// all-stopped, the terminal returns to the shell and the reader is
/// answered.
pub open spec fn term_core(pre: Worker, post: Worker, pid: i32, st: Step) -> bool {
    &&& post.shell_pgid == pre.shell_pgid
    &&& post.exit_val == pre.exit_val
    &&& if !pre.procs().contains_key(pid) {
        &&& post.jobs@ == pre.jobs@
        &&& post.groups() == pre.groups()
        &&& post.procs() == pre.procs()
        &&& post.fg == pre.fg
        &&& st == no_step()
    } else {
        let g = pre.procs()[pid].pgid;
        let jid = pre.groups()[g].job_id;
        let emptied = pre.groups()[g].pids@.len() == 1;
        let fg_hit = pre.fg == Some(g);
        &&& post.procs() == pre.procs().remove(pid)
        &&& if emptied {
            &&& !has_job_in(post.jobs@, jid)
            &&& forall|x: usize|
                x != jid ==> has_job_in(post.jobs@, x) == has_job_in(pre.jobs@, x)
            &&& forall|x: usize|
                x != jid && has_job_in(pre.jobs@, x) ==> job_pgid_in(post.jobs@, x)
                    == job_pgid_in(pre.jobs@, x) && job_line_in(post.jobs@, x) == job_line_in(
                    pre.jobs@,
                    x,
                )
            &&& post.groups() == pre.groups().remove(g)
            &&& if fg_hit {
                post.fg is None && st == shell_return_step(pre, pre.exit_val)
            } else {
                post.fg == pre.fg && st == no_step()
            }
        } else {
            &&& post.jobs@ == pre.jobs@
            &&& groups_drop_pid(pre.groups(), post.groups(), g, pid)
            &&& if fg_hit && all_stopped_except_in(pre.groups(), pre.procs(), g, pid) {
                post.fg is None && st == shell_return_step(pre, pre.exit_val)
            } else {
                post.fg == pre.fg && st == no_step()
            }
        }
    }
}

/// What a stop notice does: the process is marked stopped; if its group is
/// the foreground and is now entirely stopped, the terminal returns to the
/// shell and the reader is answered.
pub open spec fn stop_core(pre: Worker, post: Worker, pid: i32, st: Step) -> bool {
    &&& post.shell_pgid == pre.shell_pgid
    &&& post.exit_val == pre.exit_val
    &&& post.jobs@ == pre.jobs@
    &&& post.groups() == pre.groups()
    &&& post.procs() == set_state_map(pre.procs(), pid, ProcState::Stop)
    &&& if pre.procs().contains_key(pid) && pre.fg == Some(pre.procs()[pid].pgid)
        && all_stopped_except_in(pre.groups(), pre.procs(), pre.procs()[pid].pgid, pid) {
        post.fg is None && st == shell_return_step(pre, pre.exit_val)
    } else {
        post.fg == pre.fg && st == no_step()
    }
}

/// What `on_child_event` does, by event.  A resumption notice only marks
/// the process running: in particular, resuming an already-running process
/// changes nothing and answers nothing.
pub open spec fn child_post(pre: Worker, post: Worker, ev: ChildEvent, st: Step) -> bool {
    match ev {
        ChildEvent::Exited(pid, status) => term_core(
            Worker { exit_val: status, ..pre },
            post,
            pid,
            st,
        ),
        ChildEvent::Signaled(pid, sig, _) => term_core(
            Worker { exit_val: (sig + 128) as i32, ..pre },
            post,
            pid,
            st,
        ),
        ChildEvent::Stopped(pid) => stop_core(pre, post, pid, st),
        ChildEvent::Continued(pid) => {
            &&& post.shell_pgid == pre.shell_pgid
            &&& post.procs() == set_state_map(pre.procs(), pid, ProcState::Run)
            &&& post.jobs@ == pre.jobs@
            &&& post.groups() == pre.groups()
            &&& post.fg == pre.fg
            &&& post.exit_val == pre.exit_val
            &&& st == no_step()
        },
        ChildEvent::Drained | ChildEvent::Broken => same_state(pre, post) && st == no_step(),
    }
}

/// Signals as the forwarder hands them to the worker.
#[derive(Debug, Clone, Copy, PartialEq, Eq)]
pub enum Sig {
    Int,
    Tstp,
    Child,
}

/// Outcome of a signal message.
#[derive(Debug, Clone, Copy, PartialEq, Eq)]
pub enum SigOutcome {
    /// The signal was handled; perform the step.
    Step(Step),
    /// Waiting for children failed in an unrecoverable way: the shell must
    /// abort.
    Broken,
}

impl Worker {
    /// Handle one state change of one child process.
    pub fn on_child_event(&mut self, ev: ChildEvent) -> (st: Step)
        requires
            old(self).wf(),
            ev matches ChildEvent::Signaled(_, sig, _) ==> 0 <= sig <= 64,
        ensures
            final(self).wf(),
            child_post(*old(self), *final(self), ev, st),
    {
        match ev {
            ChildEvent::Drained | ChildEvent::Broken => Step { reply: None, action: None },
            ChildEvent::Continued(pid) => {
                let _ = self.set_pid_state(pid, ProcState::Run);
                Step { reply: None, action: None }
            },
            ChildEvent::Stopped(pid) => self.handle_stop(pid),
            ChildEvent::Exited(pid, status) => {
                self.exit_val = status;
                self.handle_term(pid)
            },
            ChildEvent::Signaled(pid, sig, core) => {
                let mut m = String::from_str("zerosh: child killed by signal ");
                m.append(i32_to_string(sig).as_str());
                if core {
                    m.append(" (core dumped)");
                }
                eprint_line(m.as_str());
                self.exit_val = sig + 128;
                self.handle_term(pid)
            },
        }
    }

    /// A stop notice: mark the process stopped, then settle the foreground.
    fn handle_stop(&mut self, pid: i32) -> (st: Step)
        requires
            old(self).wf(),
        ensures
            final(self).wf(),
            stop_core(*old(self), *final(self), pid, st),
    {
        let g = match self.pid_to_info.get(&pid) {
            Some(info) => info.pgid,
            None => {
                return Step { reply: None, action: None };
            },
        };
        let _ = self.set_pid_state(pid, ProcState::Stop);
        let is_fg = match self.fg {
            Some(p) => p == g,
            None => false,
        };
        if !is_fg {
            return Step { reply: None, action: None };
        }
        if !self.is_group_stop(g) {
            proof {
                assert(!all_stopped_except_in(
                    old(self).groups(),
                    old(self).procs(),
                    g,
                    pid,
                )) by {
                    let gr = self.groups()[g].pids@;
                    let w = choose|x: i32| gr.contains(x) && self.procs()[x].state != ProcState::Stop;
                    assert(gr.contains(w));
                    assert(w != pid);
                }
            }
            return Step { reply: None, action: None };
        }
        proof {
            assert(all_stopped_except_in(old(self).groups(), old(self).procs(), g, pid))
                by {
                assert forall|x: i32|
                    #[trigger] old(self).groups()[g].pids@.contains(x) && x != pid implies old(
                    self,
                ).procs()[x].state == ProcState::Stop by {
                    assert(self.groups()[g].pids@.contains(x));
                    assert(self.procs()[x].state == ProcState::Stop);
                    assert(old(self).procs().contains_key(x));
                }
            }
        }
        let jid = match self.pgid_to_pids.get(&g) {
            Some(ge) => ge.job_id,
            None => {
                proof {
                    assert(false);
                }
                return Step { reply: None, action: None };
            },
        };
        self.print_job_state(jid, "] stopped\t");
        self.fg = None;
        let code = self.exit_val;
        let shell = self.shell_pgid;
        Step { reply: Some(Reply::Continue(code)), action: Some(Action::Transfer(shell)) }
    }

    /// A termination notice (exit status already recorded): drop the
    /// process, then settle its job and the foreground.
    fn handle_term(&mut self, pid: i32) -> (st: Step)
        requires
            old(self).wf(),
        ensures
            final(self).wf(),
            term_core(*old(self), *final(self), pid, st),
    {
        let (jid, g) = match self.remove_pid(pid) {
            None => {
                return Step { reply: None, action: None };
            },
            Some(p) => p,
        };
        proof {
            assert(old(self).groups().contains_key(g));
            // bridge: emptiness and stoppedness of the group, before and after
            assert(self.groups()[g].pids@.len() == old(self).groups()[g].pids@.len() - 1);
        }
        self.manage_job(jid, g, Ghost(*old(self)), Ghost(pid))
    }

    /// Settle a job whose group just changed: drop it when its group is
    /// empty; return the terminal when the foreground stopped or ended.
    fn manage_job(&mut self, job_id: usize, g: i32, ghost_pre: Ghost<Worker>, ghost_pid: Ghost<i32>) -> (st: Step)
        requires
            old(self).tables_ok(),
            old(self).fg_ok(),
            nonempty_except_in(old(self).groups(), g),
            old(self).groups().contains_key(g),
            old(self).groups()[g].job_id == job_id,
            // how the state relates to the one before the process left
            ghost_pre@.wf(),
            ghost_pre@.procs().contains_key(ghost_pid@),
            ghost_pre@.procs()[ghost_pid@].pgid == g,
            ghost_pre@.groups().contains_key(g),
            ghost_pre@.groups()[g].job_id == job_id,
            old(self).procs() == ghost_pre@.procs().remove(ghost_pid@),
            old(self).jobs@ == ghost_pre@.jobs@,
            old(self).fg == ghost_pre@.fg,
            old(self).exit_val == ghost_pre@.exit_val,
            old(self).shell_pgid == ghost_pre@.shell_pgid,
            groups_drop_pid(ghost_pre@.groups(), old(self).groups(), g, ghost_pid@),
        ensures
            final(self).wf(),
            term_core(ghost_pre@, *final(self), ghost_pid@, st),
    {
        let is_fg = match self.fg {
            Some(p) => p == g,
            None => false,
        };
        proof {
            assert(ghost_pre@.groups()[g].pids@.contains(ghost_pid@));
            assert(ghost_pre@.groups()[g].pids@.len() >= 1);
            if self.groups()[g].pids@.len() == 0 {
                assert(ghost_pre@.groups()[g].pids@.len() == 1);
            }
            // stoppedness before and after the removal agree
            assert(all_stopped_in(self.groups(), self.procs(), g) == all_stopped_except_in(
                ghost_pre@.groups(),
                ghost_pre@.procs(),
                g,
                ghost_pid@,
            )) by {
                if all_stopped_in(self.groups(), self.procs(), g) {
                    assert forall|x: i32|
                        #[trigger] ghost_pre@.groups()[g].pids@.contains(x) && x != ghost_pid@
                        implies ghost_pre@.procs()[x].state == ProcState::Stop by {
                        assert(self.groups()[g].pids@.contains(x));
                        assert(self.procs()[x].state == ProcState::Stop);
                    }
                }
                if all_stopped_except_in(ghost_pre@.groups(), ghost_pre@.procs(), g, ghost_pid@) {
                    assert forall|x: i32| #[trigger] self.groups()[g].pids@.contains(x) implies
                        self.procs()[x].state == ProcState::Stop by {
                        assert(ghost_pre@.groups()[g].pids@.contains(x) && x != ghost_pid@);
                        assert(ghost_pre@.procs()[x].state == ProcState::Stop);
                        assert(ghost_pre@.procs().contains_key(x));
                    }
                }
            }
        }
        if is_fg {
            if self.is_group_empty(g) {
                self.print_job_state(job_id, "] done\t");
                proof {
                    assert(job_pgid_in(self.jobs@, job_id) == g) by {
                        assert(self.groups().contains_key(g));
                    }
                }
                self.remove_job(job_id);
                proof {
                    assert(self.groups() =~= ghost_pre@.groups().remove(g));
                }
                self.fg = None;
                let code = self.exit_val;
                let shell = self.shell_pgid;
                return Step {
                    reply: Some(Reply::Continue(code)),
                    action: Some(Action::Transfer(shell)),
                };
            }
            if self.is_group_stop(g) {
                self.print_job_state(job_id, "] stopped\t");
                self.fg = None;
                let code = self.exit_val;
                let shell = self.shell_pgid;
                return Step {
                    reply: Some(Reply::Continue(code)),
                    action: Some(Action::Transfer(shell)),
                };
            }
            return Step { reply: None, action: None };
        }
        if self.is_group_empty(g) {
            self.print_job_state(job_id, "] done\t");
            proof {
                assert(job_pgid_in(self.jobs@, job_id) == g) by {
                    assert(self.groups().contains_key(g));
                }
            }
            self.remove_job(job_id);
            proof {
                assert(self.groups() =~= ghost_pre@.groups().remove(g));
            }
            return Step { reply: None, action: None };
        }
        Step { reply: None, action: None }
    }

    /// Report a job's state change: `[id] <state>\t<line>`.
    fn print_job_state(&self, job_id: usize, mid: &str)
        requires
            self.tables_ok(),
    {
        let idx = match self.find_job(job_id) {
            Some(idx) => idx,
            None => {
                return ;
            },
        };
        let mut m = String::from_str("[");
        m.append(usize_to_string(job_id).as_str());
        m.append(mid);
        m.append(self.jobs[idx].line.as_str());
        eprint_line(m.as_str());
    }

    /// Handle one signal message: child-state changes are reaped to
    /// exhaustion; other signals are ignored, since the kernel already
    /// delivers them to the foreground group.
    pub fn on_signal(&mut self, sig: Sig) -> (r: SigOutcome)
        requires
            old(self).wf(),
        ensures
            final(self).wf(),
            final(self).shell_pgid == old(self).shell_pgid,
            !(sig is Child) ==> same_state(*old(self), *final(self)) && r == SigOutcome::Step(
                no_step(),
            ),
            r matches SigOutcome::Step(st) ==> {
                &&& (st.reply is Some <==> (old(self).fg is Some && final(self).fg is None))
                &&& (st.reply matches Some(rep) ==> (rep matches Reply::Continue(_)
                    && st.action == Some(Action::Transfer(old(self).shell_pgid))))
                &&& (st.reply is None ==> st == no_step() && final(self).fg == old(self).fg)
            },
    {
        match sig {
            Sig::Int | Sig::Tstp => SigOutcome::Step(Step { reply: None, action: None }),
            Sig::Child => self.reap_children(),
        }
    }

    /// Reap pending child-state changes until the kernel has none left.
    /// The fuel bound is far beyond any reachable number of transitions.
    fn reap_children(&mut self) -> (r: SigOutcome)
        requires
            old(self).wf(),
        ensures
            final(self).wf(),
            final(self).shell_pgid == old(self).shell_pgid,
            r matches SigOutcome::Step(st) ==> {
                &&& (st.reply is Some <==> (old(self).fg is Some && final(self).fg is None))
                &&& (st.reply matches Some(rep) ==> (rep matches Reply::Continue(_)
                    && st.action == Some(Action::Transfer(old(self).shell_pgid))))
                &&& (st.reply is None ==> st == no_step() && final(self).fg == old(self).fg)
            },
    {
        let mut step = Step { reply: None, action: None };
        let mut fuel: u64 = 0xffff_ffff_ffff_ffff;
        while fuel > 0
            invariant
                self.wf(),
                self.shell_pgid == old(self).shell_pgid,
                step.reply is None ==> step == no_step() && self.fg == old(self).fg,
                step.reply is Some ==> {
                    &&& old(self).fg is Some
                    &&& self.fg is None
                    &&& step.reply matches Some(Reply::Continue(_))
                    &&& step.action == Some(Action::Transfer(old(self).shell_pgid))
                },
            decreases fuel,
        {
            let ev = wait_next_event();
            match ev {
                ChildEvent::Drained => {
                    return SigOutcome::Step(step);
                },
                ChildEvent::Broken => {
                    return SigOutcome::Broken;
                },
                _ => {
                    let ghost pre = *self;
                    let st = self.on_child_event(ev);
                    proof {
                        lemma_child_step(pre, *self, ev, st);
                    }
                    if st.reply.is_some() {
                        step = st;
                    }
                },
            }
            fuel -= 1;
        }
        SigOutcome::Step(step)
    }
}

/// A handled child event answers the reader exactly when it takes the
/// foreground away, and then it also returns the terminal to the shell.
pub proof fn lemma_child_step(pre: Worker, post: Worker, ev: ChildEvent, st: Step)
    requires
        child_post(pre, post, ev, st),
    ensures
        post.shell_pgid == pre.shell_pgid,
        st.reply is Some ==> pre.fg is Some && post.fg is None && (st.reply matches Some(
            Reply::Continue(_),
        )) && st.action == Some(Action::Transfer(pre.shell_pgid)),
        st.reply is None ==> st == no_step() && post.fg == pre.fg,
{
}

/// Reply discipline: a handled command either answers the reader at once -
/// and then no job holds the foreground - or it hands the foreground over
/// (a resumed job, or a spawn plan that leads to [`Worker::register_job`]),
/// and the answer is owed later.  Together with [`Worker::on_signal`]'s
/// contract - a child-event reply comes exactly when the foreground returns
/// to the shell - every command is answered exactly once.
pub proof fn lemma_reply_discipline(pre: Worker, post: Worker, line: Seq<char>, r: CmdOutcome)
    requires
        pre.fg is None,
        cmd_post(pre, post, line, r),
    ensures
        match r {
            CmdOutcome::Step(st) => {
                &&& (st.reply is Some <==> post.fg is None)
                &&& (st.reply is None ==> post.fg is Some && st.action is Some)
            },
            CmdOutcome::Spawn(_) => post.fg is None,
        },
{
}

/// Terminal uniqueness: in a well-formed state the terminal's owner is the
/// shell's own group exactly when no job holds the foreground, since no
/// tracked group is the shell's.
pub proof fn lemma_terminal_uniqueness(w: Worker)
    requires
        w.wf(),
    ensures
        (w.term_owner() == w.shell_pgid) <==> (w.fg is None),
{
    match w.fg {
        Some(p) => {
            assert(w.groups().contains_key(p));
            assert(crate::state::group_ok_in(w.jobs@, w.groups(), w.procs(), w.shell_pgid, p));
        },
        None => {},
    }
}

/// Resuming an already-running group is a no-op at the worker's level: a
/// resumption notice for a process that runs leaves every table unchanged
/// and answers nothing.
pub proof fn lemma_sigcont_running_noop(pre: Worker, post: Worker, pid: i32, st: Step)
    requires
        child_post(pre, post, ChildEvent::Continued(pid), st),
        pre.procs().contains_key(pid) ==> pre.procs()[pid].state == ProcState::Run,
    ensures
        post.procs() == pre.procs(),
        post.jobs@ == pre.jobs@,
        post.groups() == pre.groups(),
        post.fg == pre.fg,
        post.exit_val == pre.exit_val,
        st == no_step(),
{
    if pre.procs().contains_key(pid) {
        assert(set_state_map(pre.procs(), pid, ProcState::Run) =~= pre.procs()) by {
            assert((ProcInfo { state: ProcState::Run, pgid: pre.procs()[pid].pgid })
                == pre.procs()[pid]);
        }
    }
}

/// Perform terminal work on the worker's behalf; reports success.
pub fn perform(action: &Action) -> (ok: bool) {
    match action {
        Action::Transfer(p) => set_stdin_fg(*p),
        Action::Resume(p) => {
            if !set_stdin_fg(*p) {
                return false;
            }
            send_cont(*p)
        },
    }
}

} // verus!
