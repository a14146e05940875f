use vstd::prelude::*;

verus! {

broadcast use vstd::seq::group_seq_axioms, vstd::std_specs::vec::group_vec_axioms;

/// A single-character name. The same character may independently name a
/// variable, a macro and a mark: the three namespaces never collide.
#[derive(Debug, Clone, Copy, PartialEq, Eq, PartialOrd, Ord, Hash)]
pub struct Var(pub char);

/// A byte offset into the source text, carried by the commands that can fail
/// at evaluation time, purely for diagnostics.
#[derive(Debug, Clone, Copy, PartialEq, Eq, PartialOrd, Ord, Hash)]
pub struct Loc(pub usize);

/// One parsed command. `Group` and `Macro` own their child sequence.
#[derive(Debug)]
pub enum Cmd {
    /// `$v`: resize `v` as a stack by the effective count.
    Stack(Var),
    /// `=v`: assign the effective count to `v`.
    Assign(Var),
    /// `+v`: add the effective count to `v`.
    Add(Var),
    /// `-v`: subtract the effective count from `v`.
    Sub(Var),
    /// A decimal literal: multiplies into the pending count register.
    Num(i64),
    /// `%v`: multiplies the reading of `v` into the pending count register.
    Var(Var),
    /// `[..]`: run the body the effective count of times.
    Group(Vec<Cmd>),
    /// `{v..}`: define (or overwrite) the macro named `v`.
    Macro(Var, Vec<Cmd>),
    /// `@v`: run the macro named `v` the effective count of times.
    Call(Var, Loc),
    /// `*v`: save, under `v`, the position just past this command.
    Mark(Var),
    /// `^v`: replay from the mark named `v` the effective count of times.
    Goto(Var, Loc),
}

/// The mathematical shape of a command: as `Cmd`, with `Seq` for `Vec`.
#[verifier::ext_equal]
pub ghost enum CmdV {
    Stack(Var),
    Assign(Var),
    Add(Var),
    Sub(Var),
    Num(i64),
    Var(Var),
    Group(Seq<CmdV>),
    Macro(Var, Seq<CmdV>),
    Call(Var, Loc),
    Mark(Var),
    Goto(Var, Loc),
}

pub open spec fn cmds_view(s: Seq<Cmd>) -> Seq<CmdV>
    decreases s,
{
    if s.len() == 0 {
        Seq::empty()
    } else {
        cmds_view(s.subrange(0, s.len() - 1)).push(cmd_view(s[s.len() - 1]))
    }
}

pub open spec fn cmd_view(c: Cmd) -> CmdV
    decreases c,
{
    match c {
        Cmd::Stack(v) => CmdV::Stack(v),
        Cmd::Assign(v) => CmdV::Assign(v),
        Cmd::Add(v) => CmdV::Add(v),
        Cmd::Sub(v) => CmdV::Sub(v),
        Cmd::Num(n) => CmdV::Num(n),
        Cmd::Var(v) => CmdV::Var(v),
        Cmd::Group(b) => CmdV::Group(cmds_view(b@)),
        Cmd::Macro(v, b) => CmdV::Macro(v, cmds_view(b@)),
        Cmd::Call(v, l) => CmdV::Call(v, l),
        Cmd::Mark(v) => CmdV::Mark(v),
        Cmd::Goto(v, l) => CmdV::Goto(v, l),
    }
}

pub proof fn lemma_cmds_view(s: Seq<Cmd>)
    ensures
        cmds_view(s).len() == s.len(),
        forall|i: int| 0 <= i < s.len() ==> cmds_view(s)[i] == cmd_view(s[i]),
    decreases s.len(),
{
    if s.len() > 0 {
        lemma_cmds_view(s.subrange(0, s.len() - 1));
    }
}

/// Deep copy of a command sequence; the copy has the same view.
pub fn clone_cmds(v: &Vec<Cmd>) -> (r: Vec<Cmd>)
    ensures
        cmds_view(r@) == cmds_view(v@),
        r@.len() == v@.len(),
    decreases v@,
{
    let mut out: Vec<Cmd> = Vec::new();
    let mut i: usize = 0;
    while i < v.len()
        invariant
            i <= v.len(),
            out@.len() == i as int,
            forall|j: int| 0 <= j < i ==> cmd_view(out@[j]) == cmd_view(v@[j]),
        decreases v@.len() - i,
    {
        let c2 = clone_cmd(&v[i]);
        out.push(c2);
        i = i + 1;
    }
    proof {
        lemma_cmds_view(out@);
        lemma_cmds_view(v@);
        assert(cmds_view(out@) =~= cmds_view(v@));
    }
    out
}

/// Deep copy of one command; the copy has the same view.
pub fn clone_cmd(c: &Cmd) -> (r: Cmd)
    ensures
        cmd_view(r) == cmd_view(*c),
    decreases *c,
{
    match c {
        Cmd::Stack(v) => Cmd::Stack(*v),
        Cmd::Assign(v) => Cmd::Assign(*v),
        Cmd::Add(v) => Cmd::Add(*v),
        Cmd::Sub(v) => Cmd::Sub(*v),
        Cmd::Num(n) => Cmd::Num(*n),
        Cmd::Var(v) => Cmd::Var(*v),
        Cmd::Group(b) => Cmd::Group(clone_cmds(b)),
        Cmd::Macro(v, b) => Cmd::Macro(*v, clone_cmds(b)),
        Cmd::Call(v, l) => Cmd::Call(*v, *l),
        Cmd::Mark(v) => Cmd::Mark(*v),
        Cmd::Goto(v, l) => Cmd::Goto(*v, *l),
    }
}

impl Cmd {
    /// The count a command runs with when no pending count is waiting:
    /// 0 for `Set` and `Stack`, 1 for everything else.
    pub open spec fn default_count(self) -> i64 {
        match self {
            Cmd::Stack(..) => 0,
            Cmd::Assign(..) => 0,
            _ => 1,
        }
    }

    /// Resolve the effective count: a pending count is used verbatim,
    /// otherwise the command kind's default applies.
    pub fn preset_count(&self, count: Option<i64>) -> (r: i64)
        ensures
            r == if count is Some {
                count->0
            } else {
                self.default_count()
            },
    {
        let default: i64 = match self {
            Cmd::Stack(..) => 0,
            Cmd::Assign(..) => 0,
            Cmd::Add(..) => 1,
            Cmd::Sub(..) => 1,
            Cmd::Num(..) => 1,
            Cmd::Var(..) => 1,
            Cmd::Group(..) => 1,
            Cmd::Macro(..) => 1,
            Cmd::Call(..) => 1,
            Cmd::Mark(..) => 1,
            Cmd::Goto(..) => 1,
        };
        match count {
            Some(n) => n,
            None => default,
        }
    }
}

/// The reference-resolution failures that abort a run, and the exhaustion of
/// the evaluator's step budget.
#[derive(Debug, Clone, Copy, PartialEq, Eq)]
pub enum Error {
    /// `@v` named a macro that was never defined.
    UndefinedMacro(Var, Loc),
    /// `^v` named a mark that was never recorded.
    UndefinedMark(Var, Loc),
    /// The run took more evaluation steps than the evaluator's budget allows;
    /// only a diverging script can reach this.
    StepLimit,
}

/// Why parsing failed.
#[derive(Debug, Clone, Copy, PartialEq, Eq)]
pub enum SyntaxKind {
    /// A character that starts no command where one was required, an
    /// unmatched bracket or brace, or a missing name after a prefix.
    Unexpected,
    /// A numeric literal that exceeds the 64-bit signed range.
    NumberTooLarge,
}

/// A syntax error: where it was found, and why.
#[derive(Debug, Clone, Copy, PartialEq, Eq)]
pub struct SyntaxError {
    pub loc: Loc,
    pub kind: SyntaxKind,
}

} // verus!
