//! The task definition model: a task is a named, ordered list of jobs, and a
//! job is a named shell command line.  A command line is split into a program
//! name and its arguments on whitespace; a command with no token at all cannot
//! be executed.
use crate::text::{is_space, is_space_char, push_char};
use vstd::prelude::*;

verus! {

/// The mathematical content of a `Job`: its label and its command line.
pub ghost struct JobView {
    pub name: Seq<char>,
    pub command: Seq<char>,
}

/// The mathematical content of a `Task`: its name and its jobs, in execution
/// order.
pub ghost struct TaskView {
    pub name: Seq<char>,
    pub jobs: Seq<JobView>,
}

/// A single named shell command within a task.
pub struct Job {
    pub name: String,
    pub command: String,
}

impl View for Job {
    type V = JobView;

    open spec fn view(&self) -> JobView {
        JobView { name: self.name@, command: self.command@ }
    }
}

impl Job {
    /// Builds a job from its two fields.
    pub fn new(name: String, command: String) -> (j: Job)
        ensures
            j@.name == name@,
            j@.command == command@,
    {
        Job { name, command }
    }

    /// An independent copy with the same fields.
    pub fn duplicate(&self) -> (j: Job)
        ensures
            j@ == self@,
    {
        Job { name: self.name.clone(), command: self.command.clone() }
    }

    /// Whether the command line holds at least one token, so that the job can
    /// be executed at all.
    pub fn is_runnable(&self) -> (r: bool)
        ensures
            r == (command_tokens(self@.command).len() > 0),
    {
        let tokens = tokenize(&self.command);
        assert(tokens@.len() == tokens@.map_values(|t: String| t@).len());
        tokens.len() > 0
    }
}

/// A named, ordered list of jobs, persisted as one record under its name.
pub struct Task {
    pub name: String,
    pub jobs: Vec<Job>,
}

impl View for Task {
    type V = TaskView;

    open spec fn view(&self) -> TaskView {
        TaskView { name: self.name@, jobs: self.jobs@.map_values(|j: Job| j@) }
    }
}

impl Task {
    /// Builds a task from a name and a job list; the order of `jobs` is the
    /// execution order.
    pub fn new(name: String, jobs: Vec<Job>) -> (t: Task)
        ensures
            t@.name == name@,
            t@.jobs == jobs@.map_values(|j: Job| j@),
    {
        Task { name, jobs }
    }

    /// An independent copy with the same name and jobs.
    pub fn duplicate(&self) -> (t: Task)
        ensures
            t@ == self@,
    {
        let mut jobs: Vec<Job> = Vec::new();
        let mut i: usize = 0;
        while i < self.jobs.len()
            invariant
                i <= self.jobs@.len(),
                jobs@.map_values(|j: Job| j@) =~= self.jobs@.map_values(|j: Job| j@).subrange(
                    0,
                    i as int,
                ),
            decreases self.jobs@.len() - i,
        {
            let ghost prev = jobs@.map_values(|j: Job| j@);
            jobs.push(self.jobs[i].duplicate());
            assert(jobs@.map_values(|j: Job| j@) =~= prev.push(jobs@.last()@));
            i = i + 1;
        }
        assert(self.jobs@.map_values(|j: Job| j@).subrange(0, self.jobs@.len() as int)
            =~= self.jobs@.map_values(|j: Job| j@));
        Task { name: self.name.clone(), jobs }
    }
}

/// Splits the remainder `s` into whitespace-separated tokens, where `cur` is
/// the partial token read so far and `acc` the tokens already complete.
pub open spec fn split_ws(s: Seq<char>, cur: Seq<char>, acc: Seq<Seq<char>>) -> Seq<Seq<char>>
    decreases s.len(),
{
    if s.len() == 0 {
        if cur.len() == 0 {
            acc
        } else {
            acc.push(cur)
        }
    } else if is_space(s[0]) {
        if cur.len() == 0 {
            split_ws(s.drop_first(), cur, acc)
        } else {
            split_ws(s.drop_first(), Seq::empty(), acc.push(cur))
        }
    } else {
        split_ws(s.drop_first(), cur.push(s[0]), acc)
    }
}

/// The whitespace-separated tokens of a command line.  The first token is the
/// program to invoke, the rest are its arguments.  A command whose tokens are
/// empty cannot be executed.  There is no quoting: an argument with an
/// embedded space cannot be written, which is a documented limitation of the
/// command syntax, not of this function.
pub open spec fn command_tokens(s: Seq<char>) -> Seq<Seq<char>> {
    split_ws(s, Seq::empty(), Seq::empty())
}

/// Splits a command line into its whitespace-separated tokens.
pub fn tokenize(command: &str) -> (tokens: Vec<String>)
    ensures
        tokens@.map_values(|t: String| t@) == command_tokens(command@),
{
    let n = command.unicode_len();
    let mut tokens: Vec<String> = Vec::new();
    let mut cur = String::new();
    let mut i: usize = 0;
    assert(command@.skip(0) =~= command@);
    assert(tokens@.map_values(|t: String| t@) =~= Seq::<Seq<char>>::empty());
    while i < n
        invariant
            i <= n,
            n == command@.len(),
            split_ws(command@.skip(i as int), cur@, tokens@.map_values(|t: String| t@))
                == command_tokens(command@),
        decreases n - i,
    {
        let c = command.get_char(i);
        let ghost rest = command@.skip(i as int);
        assert(rest[0] == command@[i as int]);
        assert(rest.drop_first() =~= command@.skip(i + 1));
        if is_space_char(c) {
            if cur.unicode_len() > 0 {
                let ghost prev = tokens@.map_values(|t: String| t@);
                tokens.push(cur);
                assert(tokens@.map_values(|t: String| t@) =~= prev.push(tokens@.last()@));
                cur = String::new();
            }
        } else {
            push_char(&mut cur, c);
        }
        i = i + 1;
    }
    assert(command@.skip(n as int) =~= Seq::<char>::empty());
    if cur.unicode_len() > 0 {
        let ghost prev = tokens@.map_values(|t: String| t@);
        tokens.push(cur);
        assert(tokens@.map_values(|t: String| t@) =~= prev.push(tokens@.last()@));
    }
    tokens
}

} // verus!
