//! System commands as values: what to run, and how to undo it.

use vstd::prelude::*;
use vstd::string::*;

use crate::error::{Error, Failure};
use crate::text::{lemma_texts_push, texts, trim, trimmed};

verus! {

/// A program and its arguments.
#[derive(Debug)]
pub struct Cmd {
    pub program: String,
    pub args: Vec<String>,
}

pub struct CmdView {
    pub program: Seq<char>,
    pub args: Seq<Seq<char>>,
}

impl View for Cmd {
    type V = CmdView;

    open spec fn view(&self) -> CmdView {
        CmdView { program: self.program@, args: texts(self.args@) }
    }
}

/// A program without arguments.
pub open spec fn program(p: Seq<char>) -> CmdView {
    CmdView { program: p, args: Seq::empty() }
}

impl CmdView {
    /// The command with one more argument.
    pub open spec fn arg(self, a: Seq<char>) -> CmdView {
        CmdView { program: self.program, args: self.args.push(a) }
    }
}

impl Cmd {
    /// A program without arguments.
    pub fn new(p: &str) -> (r: Cmd)
        ensures
            r@ == program(p@),
    {
        let r = Cmd { program: p.to_owned(), args: Vec::new() };
        assert(texts(r.args@) =~= Seq::<Seq<char>>::empty());
        r
    }

    /// The command with one more argument.
    pub fn arg(self, a: &str) -> (r: Cmd)
        ensures
            r@ == self@.arg(a@),
    {
        let mut args = self.args;
        let s = a.to_owned();
        proof {
            lemma_texts_push(args@, s);
        }
        args.push(s);
        Cmd { program: self.program, args }
    }
}

impl Clone for Cmd {
    fn clone(&self) -> (r: Cmd)
        ensures
            r@ == self@,
    {
        let mut r = Cmd::new(self.program.as_str());
        let n: usize = self.args.len();
        assert(texts(self.args@).take(0) =~= Seq::<Seq<char>>::empty());
        for i in 0..n
            invariant
                n == self.args@.len(),
                r@.program == self.program@,
                r@.args == texts(self.args@).take(i as int),
        {
            r = r.arg(self.args[i].as_str());
            assert(texts(self.args@).take(i as int).push(self.args@[i as int]@) =~= texts(
                self.args@,
            ).take(i + 1));
        }
        assert(texts(self.args@).take(n as int) =~= texts(self.args@));
        r
    }
}

/// The commands of a list.
pub open spec fn cmds(v: Seq<Cmd>) -> Seq<CmdView> {
    v.map_values(|c: Cmd| c@)
}

/// Appending a command to a list appends it to what the list says.
pub proof fn lemma_cmds_push(v: Seq<Cmd>, c: Cmd)
    ensures
        cmds(v.push(c)) == cmds(v).push(c@),
{
    assert(cmds(v.push(c)) =~= cmds(v).push(c@));
}

/// Appends a command to a list.
pub fn push_cmd(v: &mut Vec<Cmd>, c: Cmd)
    ensures
        cmds(final(v)@) == cmds(old(v)@).push(c@),
{
    proof {
        lemma_cmds_push(v@, c);
    }
    v.push(c);
}

/// Texts with a space between each two.
pub open spec fn joined(s: Seq<Seq<char>>) -> Seq<char>
    decreases s.len(),
{
    if s.len() == 0 {
        Seq::empty()
    } else if s.len() == 1 {
        s[0]
    } else {
        joined(s.drop_last()) + " "@ + s.last()
    }
}

/// Texts with a space between each two.
pub fn join(v: &Vec<String>) -> (r: String)
    ensures
        r@ == joined(texts(v@)),
{
    let n: usize = v.len();
    if n == 0 {
        return String::new();
    }
    let mut r = v[0].clone();
    assert(texts(v@).take(1).len() == 1);
    for i in 1..n
        invariant
            n == v@.len(),
            1 <= i <= n,
            r@ == joined(texts(v@).take(i as int)),
    {
        r = r.concat(" ").concat(v[i].as_str());
        assert(texts(v@).take(i + 1).drop_last() =~= texts(v@).take(i as int));
    }
    assert(texts(v@).take(n as int) =~= texts(v@));
    r
}

/// The error of a command that could not be started.
pub open spec fn spawn_failure(c: CmdView, why: Seq<char>) -> Failure {
    Failure::Transport("spawn `"@ + c.program + "`: "@ + why)
}

/// The error of a command that failed, with what it wrote.
pub open spec fn run_failure(c: CmdView, stderr: Seq<char>) -> Failure {
    Failure::Transport(
        "`"@ + c.program + " "@ + joined(c.args) + "` failed: "@ + trimmed(stderr),
    )
}

/// How running a command ended.
pub enum Ran {
    /// It could not be started.
    NotStarted(String),
    /// It ran; whether it succeeded, and what it wrote to standard error.
    Ended { success: bool, stderr: String },
}

/// What it means that a command ended like this.
pub open spec fn run_outcome(c: CmdView, r: Ran) -> Result<(), Failure> {
    match r {
        Ran::NotStarted(e) => Err(spawn_failure(c, e@)),
        Ran::Ended { success, stderr } => if success {
            Ok(())
        } else {
            Err(run_failure(c, stderr@))
        },
    }
}

/// What it means that a command ended like this.
pub fn run(c: &Cmd, ran: Ran) -> (r: Result<(), Error>)
    ensures
        match run_outcome(c@, ran) {
            Ok(_) => r is Ok,
            Err(f) => r is Err && r->Err_0@ == f,
        },
{
    match ran {
        Ran::NotStarted(e) => Err(
            Error::Transport(
                "spawn `".to_owned().concat(c.program.as_str()).concat("`: ").concat(e.as_str()),
            ),
        ),
        Ran::Ended { success, stderr } => if success {
            Ok(())
        } else {
            let args = join(&c.args);
            let why = trim(stderr.as_str());
            Err(
                Error::Transport(
                    "`".to_owned().concat(c.program.as_str()).concat(" ").concat(
                        args.as_str(),
                    ).concat("` failed: ").concat(why.as_str()),
                ),
            )
        },
    }
}

/// A command of a plan.
pub struct Step {
    pub cmd: Cmd,
    /// Whether the plan stops with the command's error when it fails. Otherwise a
    /// failure is ignored.
    pub must: bool,
}

pub struct StepView {
    pub cmd: CmdView,
    pub must: bool,
}

impl View for Step {
    type V = StepView;

    open spec fn view(&self) -> StepView {
        StepView { cmd: self.cmd@, must: self.must }
    }
}

/// The steps of a plan.
pub open spec fn steps(v: Seq<Step>) -> Seq<StepView> {
    v.map_values(|s: Step| s@)
}

/// A step whose failure stops the plan.
pub open spec fn must(c: CmdView) -> StepView {
    StepView { cmd: c, must: true }
}

/// A step whose failure is ignored.
pub open spec fn may(c: CmdView) -> StepView {
    StepView { cmd: c, must: false }
}

/// Appends a step whose failure stops the plan.
pub fn push_must(v: &mut Vec<Step>, cmd: Cmd)
    ensures
        steps(final(v)@) == steps(old(v)@).push(must(cmd@)),
{
    v.push(Step { cmd, must: true });
    assert(steps(v@) =~= steps(old(v)@).push(must(cmd@)));
}

/// Appends a step whose failure is ignored.
pub fn push_may(v: &mut Vec<Step>, cmd: Cmd)
    ensures
        steps(final(v)@) == steps(old(v)@).push(may(cmd@)),
{
    v.push(Step { cmd, must: false });
    assert(steps(v@) =~= steps(old(v)@).push(may(cmd@)));
}


/// What it means that an `ip` command ended like this: as [`run_outcome`], but a
/// command that could not be started is told with its arguments.
pub open spec fn ip_outcome(c: CmdView, r: Ran) -> Result<(), Failure> {
    match r {
        Ran::NotStarted(e) => Err(
            Failure::Transport(
                "spawn `"@ + c.program + " "@ + joined(c.args) + "`: "@ + e@,
            ),
        ),
        _ => run_outcome(c, r),
    }
}

/// What it means that an `ip` command ended like this.
pub fn run_ip(c: &Cmd, ran: Ran) -> (r: Result<(), Error>)
    ensures
        match ip_outcome(c@, ran) {
            Ok(_) => r is Ok,
            Err(f) => r is Err && r->Err_0@ == f,
        },
{
    match ran {
        Ran::NotStarted(e) => {
            let args = join(&c.args);
            Err(
                Error::Transport(
                    "spawn `".to_owned().concat(c.program.as_str()).concat(" ").concat(
                        args.as_str(),
                    ).concat("`: ").concat(e.as_str()),
                ),
            )
        },
        other => run(c, other),
    }
}

/// A command is its program and its arguments in the order in which they were given.
pub proof fn law_command(p: Seq<char>, c: CmdView, a: Seq<char>)
    ensures
        program(p).program == p,
        program(p).args.len() == 0,
        c.arg(a).program == c.program,
        c.arg(a).args == c.args + seq![a],
{
    assert(c.args.push(a) =~= c.args + seq![a]);
}

/// Words are joined with single spaces.
pub proof fn law_joined(s: Seq<Seq<char>>, w: Seq<char>)
    ensures
        joined(Seq::empty()).len() == 0,
        joined(seq![w]) == w,
        s.len() > 0 ==> joined(s.push(w)) == joined(s) + seq![' '] + w,
{
    reveal_strlit(" ");
    assert(" "@ =~= seq![' ']);
    assert(s.push(w).drop_last() =~= s);
}

/// A command succeeds just if it ran and said so. One that failed is named whole, with what
/// it wrote; one that could not be started by its program, and an `ip` command whole.
pub proof fn law_command_outcomes(c: CmdView, r: Ran)
    ensures
        r is Ended && r->success ==> run_outcome(c, r) is Ok && ip_outcome(c, r) is Ok,
        r is Ended && !r->success ==> run_outcome(c, r) == Err::<(), Failure>(
            Failure::Transport(
                "`"@ + c.program + " "@ + joined(c.args) + "` failed: "@ + trimmed(r->stderr@),
            ),
        ) && ip_outcome(c, r) == run_outcome(c, r),
        r is NotStarted ==> run_outcome(c, r) == Err::<(), Failure>(
            Failure::Transport("spawn `"@ + c.program + "`: "@ + r->NotStarted_0@),
        ),
        r is NotStarted ==> ip_outcome(c, r) == Err::<(), Failure>(
            Failure::Transport(
                "spawn `"@ + c.program + " "@ + joined(c.args) + "`: "@ + r->NotStarted_0@,
            ),
        ),
{
}

}
