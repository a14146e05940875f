use vstd::prelude::*;

use crate::ast::{Cmd, CmdV, Error, Loc, Var, cmd_view, cmds_view, clone_cmd, clone_cmds,
    lemma_cmds_view};
use crate::maps::{assoc, cmd_entries, cmd_map_get, cmd_map_put, find_key, keys_unique,
    lemma_find_key, lemma_put_entry_unique, new_cmd_map, new_var_map, put_entry, var_entries,
    var_map_get, var_map_keys, var_map_put};
use crate::value::{Value, ValueV, dup_value, inc_of, read_of, resize_of, set_of, wrap64};
use linked_hash_map::LinkedHashMap;

verus! {

broadcast use vstd::seq::group_seq_axioms, vstd::std_specs::vec::group_vec_axioms;

/// One saved piece of control flow. The evaluator's control state is a stack
/// of these: a sequence being walked, or a repetition still owing some runs.
pub enum Frame {
    /// A sequence being run, with the cursor into it.
    Run { body: Vec<Cmd>, pos: usize },
    /// A group body still owed `left` runs.
    RepGroup { body: Vec<Cmd>, left: u64 },
    /// A macro call still owed `left` runs; the macro is looked up again
    /// at every step, so an undefined name fails even when no run is owed.
    RepCall { name: Var, loc: Loc, left: u64 },
    /// A mark replay still owed `left` runs; the mark is looked up again
    /// at every step, so an undefined name fails even when no run is owed.
    RepGoto { name: Var, loc: Loc, left: u64 },
}

/// The mathematical shape of a `Frame`.
#[verifier::ext_equal]
pub ghost enum FrameV {
    Run { body: Seq<CmdV>, pos: nat },
    RepGroup { body: Seq<CmdV>, left: nat },
    RepCall { name: Var, loc: Loc, left: nat },
    RepGoto { name: Var, loc: Loc, left: nat },
}

pub open spec fn frame_view(f: Frame) -> FrameV {
    match f {
        Frame::Run { body, pos } => FrameV::Run { body: cmds_view(body@), pos: pos as nat },
        Frame::RepGroup { body, left } => FrameV::RepGroup {
            body: cmds_view(body@),
            left: left as nat,
        },
        Frame::RepCall { name, loc, left } => FrameV::RepCall { name, loc, left: left as nat },
        Frame::RepGoto { name, loc, left } => FrameV::RepGoto { name, loc, left: left as nat },
    }
}

pub open spec fn frames_view(s: Seq<Frame>) -> Seq<FrameV>
    decreases s,
{
    if s.len() == 0 {
        Seq::empty()
    } else {
        frames_view(s.subrange(0, s.len() - 1)).push(frame_view(s[s.len() - 1]))
    }
}

pub proof fn lemma_frames_view(s: Seq<Frame>)
    ensures
        frames_view(s).len() == s.len(),
        forall|i: int| 0 <= i < s.len() ==> frames_view(s)[i] == frame_view(s[i]),
    decreases s.len(),
{
    if s.len() > 0 {
        lemma_frames_view(s.subrange(0, s.len() - 1));
    }
}

pub proof fn lemma_frames_view_push(s: Seq<Frame>, f: Frame)
    ensures
        frames_view(s.push(f)) == frames_view(s).push(frame_view(f)),
{
    assert(s.push(f).subrange(0, s.push(f).len() - 1) =~= s);
}

pub proof fn lemma_frames_view_pop(s: Seq<Frame>)
    requires
        s.len() > 0,
    ensures
        frames_view(s) == frames_view(s.drop_last()).push(frame_view(s.last())),
{
    assert(s.subrange(0, s.len() - 1) =~= s.drop_last());
}

/// The whole machine state: the pending count register, the three
/// namespaces in insertion order, and the control stack (its last element is
/// the innermost, currently running piece).
#[verifier::ext_equal]
pub ghost struct MState {
    pub pending: Option<ValueV>,
    pub vars: Seq<(Var, ValueV)>,
    pub macros: Seq<(Var, Seq<CmdV>)>,
    pub marks: Seq<(Var, Seq<CmdV>)>,
    pub frames: Seq<FrameV>,
}

/// The outcome of one machine step.
#[verifier::ext_equal]
pub ghost enum StepV {
    /// The machine moved to this state.
    Next(MState),
    /// The control stack was empty: the run has finished.
    Done(MState),
    /// A reference-resolution failure, in this state.
    Fail(MState, Error),
}

pub open spec fn pending_view(c: Option<Value>) -> Option<ValueV> {
    match c {
        Option::Some(v) => Option::Some(v@),
        Option::None => Option::None,
    }
}

/// The reading of a variable namespace: the stored value, or the scalar 0
/// for a variable never touched before.
pub open spec fn cur_var(vars: Seq<(Var, ValueV)>, v: Var) -> ValueV {
    match assoc(vars, v) {
        Option::Some(x) => x,
        Option::None => ValueV::Num(0),
    }
}

/// Touch a variable: a variable read for the first time is materialised as
/// the scalar 0, at the back of the namespace.
pub open spec fn ensure_var(vars: Seq<(Var, ValueV)>, v: Var) -> Seq<(Var, ValueV)> {
    if find_key(vars, v) == -1 {
        vars.push((v, ValueV::Num(0)))
    } else {
        vars
    }
}

/// How many runs a repetition owes: a non-positive count owes none.
pub open spec fn clamp_reps(cnt: i64) -> nat {
    if cnt <= 0 {
        0
    } else {
        cnt as nat
    }
}

pub open spec fn default_count_of(c: CmdV) -> i64 {
    match c {
        CmdV::Stack(..) => 0,
        CmdV::Assign(..) => 0,
        _ => 1,
    }
}

/// The effective count of a step: the pending count's reading if one is
/// waiting, the command kind's default otherwise.
pub open spec fn take_count(pending: Option<ValueV>, c: CmdV) -> i64 {
    match pending {
        Option::Some(v) => read_of(v),
        Option::None => default_count_of(c),
    }
}

/// The effect of dispatching one command. `s` is the state with the pending
/// count already taken and the current frame already removed; `body` and
/// `pos` locate the command inside that frame, which resumes just past it.
pub open spec fn run_cmd_spec(s: MState, body: Seq<CmdV>, pos: nat, cnt: i64) -> MState {
    let s1 = MState { frames: s.frames.push(FrameV::Run { body: body, pos: (pos + 1) as nat }), ..s };
    match body[pos as int] {
        CmdV::Stack(v) => MState { vars: put_entry(s.vars, v, resize_of(cur_var(s.vars, v), cnt)), ..s1 },
        CmdV::Assign(v) => MState { vars: put_entry(s.vars, v, set_of(cur_var(s.vars, v), cnt)), ..s1 },
        CmdV::Add(v) => MState { vars: put_entry(s.vars, v, inc_of(cur_var(s.vars, v), cnt)), ..s1 },
        CmdV::Sub(v) => MState {
            vars: put_entry(s.vars, v, inc_of(cur_var(s.vars, v), wrap64(0 - cnt))),
            ..s1
        },
        CmdV::Num(n) => MState { pending: Option::Some(ValueV::Num(wrap64(cnt * n))), ..s1 },
        CmdV::Var(v) => MState {
            pending: Option::Some(ValueV::Num(wrap64(cnt * read_of(cur_var(s.vars, v))))),
            vars: ensure_var(s.vars, v),
            ..s1
        },
        CmdV::Group(b) => MState {
            frames: s1.frames.push(FrameV::RepGroup { body: b, left: clamp_reps(cnt) }),
            ..s1
        },
        CmdV::Macro(v, b) => MState { macros: put_entry(s.macros, v, b), ..s1 },
        CmdV::Call(v, l) => MState {
            frames: s1.frames.push(FrameV::RepCall { name: v, loc: l, left: clamp_reps(cnt) }),
            ..s1
        },
        CmdV::Mark(v) => MState {
            marks: put_entry(s.marks, v, body.subrange(pos as int + 1, body.len() as int)),
            ..s1
        },
        CmdV::Goto(v, l) => MState {
            frames: s1.frames.push(FrameV::RepGoto { name: v, loc: l, left: clamp_reps(cnt) }),
            ..s1
        },
    }
}

/// One machine step. The machine is deterministic: every state has exactly
/// one successor, termination, or failure. A repetition looks its name up
/// before it counts the runs still owed, and every run it starts begins with
/// no pending count.
pub open spec fn step_spec(s: MState) -> StepV {
    if s.frames.len() == 0 {
        StepV::Done(s)
    } else {
        let popped = MState { frames: s.frames.drop_last(), ..s };
        match s.frames.last() {
            FrameV::Run { body, pos } => {
                if pos >= body.len() {
                    StepV::Next(popped)
                } else {
                    let cnt = take_count(s.pending, body[pos as int]);
                    StepV::Next(
                        run_cmd_spec(
                            MState { pending: Option::None, ..popped },
                            body,
                            pos,
                            cnt,
                        ),
                    )
                }
            },
            FrameV::RepGroup { body, left } => {
                if left == 0 {
                    StepV::Next(popped)
                } else {
                    StepV::Next(
                        MState {
                            pending: Option::None,
                            frames: popped.frames.push(
                                FrameV::RepGroup { body, left: (left - 1) as nat },
                            ).push(FrameV::Run { body, pos: 0 }),
                            ..popped
                        },
                    )
                }
            },
            FrameV::RepCall { name, loc, left } => {
                match assoc(s.macros, name) {
                    Option::None => StepV::Fail(s, Error::UndefinedMacro(name, loc)),
                    Option::Some(b) => if left == 0 {
                        StepV::Next(popped)
                    } else {
                        StepV::Next(
                            MState {
                                pending: Option::None,
                                frames: popped.frames.push(
                                    FrameV::RepCall { name, loc, left: (left - 1) as nat },
                                ).push(FrameV::Run { body: b, pos: 0 }),
                                ..popped
                            },
                        )
                    },
                }
            },
            FrameV::RepGoto { name, loc, left } => {
                match assoc(s.marks, name) {
                    Option::None => StepV::Fail(s, Error::UndefinedMark(name, loc)),
                    Option::Some(b) => if left == 0 {
                        StepV::Next(popped)
                    } else {
                        StepV::Next(
                            MState {
                                pending: Option::None,
                                frames: popped.frames.push(
                                    FrameV::RepGoto { name, loc, left: (left - 1) as nat },
                                ).push(FrameV::Run { body: b, pos: 0 }),
                                ..popped
                            },
                        )
                    },
                }
            },
        }
    }
}

/// Step once more, unless the machine already finished or failed.
pub open spec fn advance(r: StepV) -> StepV {
    match r {
        StepV::Next(s) => step_spec(s),
        _ => r,
    }
}

/// Step `n` more times; `Done` and `Fail` are absorbing, so any `n` that
/// reaches them names the unique outcome of the run.
pub open spec fn advance_n(r: StepV, n: nat) -> StepV
    decreases n,
{
    if n == 0 {
        r
    } else {
        advance_n(advance(r), (n - 1) as nat)
    }
}

pub proof fn lemma_advance_n_snoc(r: StepV, n: nat)
    ensures
        advance_n(r, n + 1) == advance(advance_n(r, n)),
    decreases n,
{
    if n == 0 {
        assert(advance_n(r, 1) == advance_n(advance(r), 0));
    } else {
        lemma_advance_n_snoc(advance(r), (n - 1) as nat);
        assert(advance_n(r, n + 1) == advance_n(advance(r), n));
        assert(advance_n(r, n) == advance_n(advance(r), (n - 1) as nat));
    }
}

/// The evaluator: the pending count register and the three namespaces.
/// One instance lives for exactly one top-level run.
pub struct Vm {
    pub count: Option<Value>,
    pub vars: LinkedHashMap<Var, Value>,
    pub macros: LinkedHashMap<Var, Vec<Cmd>>,
    pub marks: LinkedHashMap<Var, Vec<Cmd>>,
}

impl Vm {
    /// The machine state this evaluator is in, for a given control stack.
    pub open spec fn vm_state(self, frames: Seq<FrameV>) -> MState {
        MState {
            pending: pending_view(self.count),
            vars: var_entries(self.vars),
            macros: cmd_entries(self.macros),
            marks: cmd_entries(self.marks),
            frames: frames,
        }
    }

    /// The variable namespace never holds a key twice.
    pub open spec fn wf(self) -> bool {
        keys_unique(var_entries(self.vars))
    }

    /// Where a whole run of `cmds` starts from this evaluator.
    pub open spec fn start_of(self, cmds: Seq<CmdV>) -> StepV {
        StepV::Next(self.vm_state(seq![FrameV::Run { body: cmds, pos: 0 }]))
    }

    /// Read a variable, materialising it as the scalar 0 on first access.
    pub fn get_var(&mut self, var: &Var) -> (r: Value)
        requires
            old(self).wf(),
        ensures
            final(self).wf(),
            r@ == cur_var(var_entries(old(self).vars), *var),
            var_entries(final(self).vars) == ensure_var(var_entries(old(self).vars), *var),
            cmd_entries(final(self).macros) == cmd_entries(old(self).macros),
            cmd_entries(final(self).marks) == cmd_entries(old(self).marks),
            final(self).count == old(self).count,
    {
        proof {
            lemma_find_key(var_entries(self.vars), *var);
        }
        match var_map_get(&self.vars, var) {
            Option::Some(v) => dup_value(v),
            Option::None => {
                let zero = Value::Num(0);
                proof {
                    lemma_put_entry_unique(var_entries(self.vars), *var, zero@);
                }
                var_map_put(&mut self.vars, *var, zero);
                Value::Num(0)
            },
        }
    }

    /// Read a variable's value without touching the namespace.
    fn peek_var(&self, var: &Var) -> (r: Value)
        ensures
            r@ == cur_var(var_entries(self.vars), *var),
    {
        match var_map_get(&self.vars, var) {
            Option::Some(v) => dup_value(v),
            Option::None => Value::Num(0),
        }
    }

    /// Store a variable's value.
    fn put_var(&mut self, var: Var, val: Value)
        requires
            old(self).wf(),
        ensures
            final(self).wf(),
            var_entries(final(self).vars) == put_entry(var_entries(old(self).vars), var, val@),
            cmd_entries(final(self).macros) == cmd_entries(old(self).macros),
            cmd_entries(final(self).marks) == cmd_entries(old(self).marks),
            final(self).count == old(self).count,
    {
        proof {
            lemma_put_entry_unique(var_entries(self.vars), var, val@);
        }
        var_map_put(&mut self.vars, var, val);
    }

    /// Dispatch one command with its effective count. `body` is the sequence
    /// it came from: the walk resumes at `pos + 1`.
    fn run_cmd(&mut self, frames: &mut Vec<Frame>, body: Vec<Cmd>, pos: usize, count: i64)
        requires
            pos < body@.len(),
            old(self).wf(),
        ensures
            final(self).wf(),
            final(self).vm_state(frames_view(final(frames)@)) == run_cmd_spec(
                old(self).vm_state(frames_view(old(frames)@)),
                cmds_view(body@),
                pos as nat,
                count,
            ),
    {
        proof {
            lemma_cmds_view(body@);
            assert(body@.len() == body.len());
        }
        let ghost s0 = old(self).vm_state(frames_view(old(frames)@));
        let ghost bv = cmds_view(body@);
        let mut extra: Option<Frame> = None;
        match &body[pos] {
            Cmd::Stack(v) => {
                let mut cur = self.peek_var(v);
                cur.set_stack(count);
                self.put_var(*v, cur);
            },
            Cmd::Assign(v) => {
                let mut cur = self.peek_var(v);
                cur.set(count);
                self.put_var(*v, cur);
            },
            Cmd::Add(v) => {
                let mut cur = self.peek_var(v);
                cur.inc(count);
                self.put_var(*v, cur);
            },
            Cmd::Sub(v) => {
                let mut cur = self.peek_var(v);
                cur.inc(0i64.wrapping_sub(count));
                self.put_var(*v, cur);
            },
            Cmd::Num(n) => {
                self.count = Some(Value::Num(count.wrapping_mul(*n)));
            },
            Cmd::Var(v) => {
                let cur = self.get_var(v);
                let m = cur.num();
                self.count = Some(Value::Num(count.wrapping_mul(m)));
            },
            Cmd::Group(b) => {
                let cl = clone_cmds(b);
                let left: u64 = if count <= 0 {
                    0
                } else {
                    count as u64
                };
                extra = Some(Frame::RepGroup { body: cl, left });
            },
            Cmd::Macro(v, b) => {
                let cl = clone_cmds(b);
                cmd_map_put(&mut self.macros, *v, cl);
            },
            Cmd::Call(v, l) => {
                let left: u64 = if count <= 0 {
                    0
                } else {
                    count as u64
                };
                extra = Some(Frame::RepCall { name: *v, loc: *l, left });
            },
            Cmd::Mark(v) => {
                let mut suffix: Vec<Cmd> = Vec::new();
                let mut j: usize = pos + 1;
                while j < body.len()
                    invariant
                        pos + 1 <= j <= body@.len(),
                        suffix@.len() == j - (pos + 1),
                        forall|i: int|
                            0 <= i < suffix@.len() ==> cmd_view(suffix@[i]) == cmd_view(
                                body@[pos + 1 + i],
                            ),
                    decreases body@.len() - j,
                {
                    suffix.push(clone_cmd(&body[j]));
                    j = j + 1;
                }
                proof {
                    lemma_cmds_view(suffix@);
                    assert(cmds_view(suffix@) =~= bv.subrange(pos + 1, bv.len() as int));
                }
                cmd_map_put(&mut self.marks, *v, suffix);
            },
            Cmd::Goto(v, l) => {
                let left: u64 = if count <= 0 {
                    0
                } else {
                    count as u64
                };
                extra = Some(Frame::RepGoto { name: *v, loc: *l, left });
            },
        }
        frames.push(Frame::Run { body, pos: pos + 1 });
        proof {
            lemma_frames_view_push(old(frames)@, Frame::Run { body, pos: (pos + 1) as usize });
        }
        match extra {
            Some(f) => {
                let ghost before = frames@;
                frames.push(f);
                proof {
                    lemma_frames_view_push(before, f);
                }
            },
            None => {},
        }
        proof {
            assert(self.vm_state(frames_view(frames@)) =~= run_cmd_spec(
                s0,
                bv,
                pos as nat,
                count,
            ));
        }
    }

    /// Advance the machine by one step. `Err(None)` reports benign
    /// exhaustion: the control stack was empty. `Err(Some(_))` reports a
    /// reference-resolution failure, with the evaluator left exactly as it
    /// stood when the failure was found.
    pub fn run(&mut self, frames: &mut Vec<Frame>) -> (r: Result<(), Option<Error>>)
        requires
            old(self).wf(),
        ensures
            final(self).wf(),
            (match r {
                Result::Ok(()) => step_spec(old(self).vm_state(frames_view(old(frames)@)))
                    == StepV::Next(final(self).vm_state(frames_view(final(frames)@))),
                Result::Err(e) => match e {
                    Option::None => step_spec(old(self).vm_state(frames_view(old(frames)@)))
                        == StepV::Done(old(self).vm_state(frames_view(old(frames)@)))
                        && *final(self) == *old(self)
                        && final(frames)@ == old(frames)@,
                    Option::Some(err) => step_spec(old(self).vm_state(frames_view(old(frames)@)))
                        == StepV::Fail(old(self).vm_state(frames_view(old(frames)@)), err)
                        && *final(self) == *old(self)
                        && frames_view(final(frames)@) == frames_view(old(frames)@),
                },
            }),
    {
        let ghost s0 = old(self).vm_state(frames_view(old(frames)@));
        if frames.len() == 0 {
            proof {
                lemma_frames_view(frames@);
            }
            return Err(None);
        }
        proof {
            lemma_frames_view(frames@);
            lemma_frames_view_pop(frames@);
        }
        let f = frames.pop().unwrap();
        match f {
            Frame::Run { body, pos } => {
                if pos >= body.len() {
                    proof {
                        lemma_cmds_view(body@);
                        assert(frames_view(frames@) =~= frames_view(old(frames)@).drop_last());
                        assert(step_spec(s0) == StepV::Next(
                            self.vm_state(frames_view(frames@)),
                        ));
                    }
                    return Ok(());
                }
                let mut pend: Option<Value> = None;
                core::mem::swap(&mut pend, &mut self.count);
                let num: Option<i64> = match &pend {
                    Some(v) => Some(v.num()),
                    None => None,
                };
                let count: i64 = body[pos].preset_count(num);
                proof {
                    lemma_cmds_view(body@);
                    assert(default_count_of(cmd_view(body@[pos as int]))
                        == body@[pos as int].default_count());
                    assert(count == take_count(s0.pending, cmds_view(body@)[pos as int]));
                    assert(frames_view(frames@) =~= frames_view(old(frames)@).drop_last());
                    assert(self.vm_state(frames_view(frames@)) =~= MState {
                        pending: Option::None,
                        frames: s0.frames.drop_last(),
                        ..s0
                    });
                }
                self.run_cmd(frames, body, pos, count);
                proof {
                    assert(step_spec(s0) == StepV::Next(
                        self.vm_state(frames_view(frames@)),
                    ));
                }
                Ok(())
            },
            Frame::RepGroup { body, left } => {
                if left == 0 {
                    proof {
                        assert(frames_view(frames@) =~= frames_view(old(frames)@).drop_last());
                        assert(step_spec(s0) == StepV::Next(
                            self.vm_state(frames_view(frames@)),
                        ));
                    }
                    return Ok(());
                }
                let body2 = clone_cmds(&body);
                self.count = None;
                let ghost fs1 = frames@;
                frames.push(Frame::RepGroup { body, left: left - 1 });
                let ghost fs2 = frames@;
                frames.push(Frame::Run { body: body2, pos: 0 });
                proof {
                    lemma_frames_view_push(fs1, Frame::RepGroup { body, left: (left - 1) as u64 });
                    lemma_frames_view_push(fs2, Frame::Run { body: body2, pos: 0 });
                    assert(frames_view(fs1) =~= frames_view(old(frames)@).drop_last());
                    assert(self.vm_state(frames_view(frames@)) =~= MState {
                        pending: Option::None,
                        frames: s0.frames.drop_last().push(
                            FrameV::RepGroup {
                                body: cmds_view(body@),
                                left: (left - 1) as nat,
                            },
                        ).push(FrameV::Run { body: cmds_view(body@), pos: 0 }),
                        ..s0
                    });
                    assert(step_spec(s0) == StepV::Next(
                        self.vm_state(frames_view(frames@)),
                    ));
                }
                Ok(())
            },
            Frame::RepCall { name, loc, left } => {
                match cmd_map_get(&self.macros, &name) {
                    Option::None => {
                        let ghost fs1 = frames@;
                        frames.push(Frame::RepCall { name, loc, left });
                        proof {
                            lemma_frames_view_push(fs1, Frame::RepCall { name, loc, left });
                            assert(frames_view(frames@) =~= frames_view(old(frames)@));
                        }
                        Err(Some(Error::UndefinedMacro(name, loc)))
                    },
                    Option::Some(b) => {
                        if left == 0 {
                            proof {
                                assert(frames_view(frames@) =~= frames_view(
                                    old(frames)@,
                                ).drop_last());
                                assert(step_spec(s0) == StepV::Next(
                                    self.vm_state(frames_view(frames@)),
                                ));
                            }
                            return Ok(());
                        }
                        let bc = clone_cmds(b);
                        self.count = None;
                        let ghost fs1 = frames@;
                        frames.push(Frame::RepCall { name, loc, left: left - 1 });
                        let ghost fs2 = frames@;
                        frames.push(Frame::Run { body: bc, pos: 0 });
                        proof {
                            lemma_frames_view_push(fs1, Frame::RepCall { name, loc, left: (left - 1) as u64 });
                            lemma_frames_view_push(fs2, Frame::Run { body: bc, pos: 0 });
                            assert(frames_view(fs1) =~= frames_view(old(frames)@).drop_last());
                            assert(step_spec(s0) == StepV::Next(
                                self.vm_state(frames_view(frames@)),
                            ));
                        }
                        Ok(())
                    },
                }
            },
            Frame::RepGoto { name, loc, left } => {
                match cmd_map_get(&self.marks, &name) {
                    Option::None => {
                        let ghost fs1 = frames@;
                        frames.push(Frame::RepGoto { name, loc, left });
                        proof {
                            lemma_frames_view_push(fs1, Frame::RepGoto { name, loc, left });
                            assert(frames_view(frames@) =~= frames_view(old(frames)@));
                        }
                        Err(Some(Error::UndefinedMark(name, loc)))
                    },
                    Option::Some(b) => {
                        if left == 0 {
                            proof {
                                assert(frames_view(frames@) =~= frames_view(
                                    old(frames)@,
                                ).drop_last());
                                assert(step_spec(s0) == StepV::Next(
                                    self.vm_state(frames_view(frames@)),
                                ));
                            }
                            return Ok(());
                        }
                        let bc = clone_cmds(b);
                        self.count = None;
                        let ghost fs1 = frames@;
                        frames.push(Frame::RepGoto { name, loc, left: left - 1 });
                        let ghost fs2 = frames@;
                        frames.push(Frame::Run { body: bc, pos: 0 });
                        proof {
                            lemma_frames_view_push(fs1, Frame::RepGoto { name, loc, left: (left - 1) as u64 });
                            lemma_frames_view_push(fs2, Frame::Run { body: bc, pos: 0 });
                            assert(frames_view(fs1) =~= frames_view(old(frames)@).drop_last());
                            assert(step_spec(s0) == StepV::Next(
                                self.vm_state(frames_view(frames@)),
                            ));
                        }
                        Ok(())
                    },
                }
            },
        }
    }

    /// Run `cmds` to completion. The machine either finishes (`Ok`), stops
    /// at the first reference-resolution failure, or gives up after its step
    /// budget; in every case the outcome is the one the step relation
    /// `advance_n` names from the starting state.
    pub fn run_to_finish(&mut self, cmds: &Vec<Cmd>) -> (r: Result<(), Error>)
        requires
            old(self).wf(),
        ensures
            final(self).wf(),
            (match r {
                Result::Ok(()) => exists|n: nat|
                    n <= u64::MAX && advance_n(old(self).start_of(cmds_view(cmds@)), n)
                        == StepV::Done(final(self).vm_state(Seq::empty())),
                Result::Err(e) => match e {
                    Error::StepLimit => exists|fs: Seq<FrameV>|
                        advance_n(old(self).start_of(cmds_view(cmds@)), u64::MAX as nat)
                            == StepV::Next(final(self).vm_state(fs)),
                    _ => exists|n: nat, fs: Seq<FrameV>|
                        n <= u64::MAX && advance_n(old(self).start_of(cmds_view(cmds@)), n)
                            == StepV::Fail(final(self).vm_state(fs), e),
                },
            }),
    {
        let ghost init = old(self).start_of(cmds_view(cmds@));
        let mut frames: Vec<Frame> = Vec::new();
        let first = Frame::Run { body: clone_cmds(cmds), pos: 0 };
        frames.push(first);
        proof {
            lemma_frames_view(frames@);
            assert(frames@.len() == 1);
            assert(frames@[0] == first);
            assert(frames_view(frames@) =~= seq![FrameV::Run { body: cmds_view(cmds@), pos: 0nat }]);
        }
        let mut steps: u64 = 0;
        loop
            invariant
                self.wf(),
                advance_n(init, steps as nat) == StepV::Next(
                    self.vm_state(frames_view(frames@)),
                ),
                init == old(self).start_of(cmds_view(cmds@)),
            decreases u64::MAX - steps,
        {
            if steps == u64::MAX {
                return Err(Error::StepLimit);
            }
            match self.run(&mut frames) {
                Result::Ok(()) => {
                    proof {
                        lemma_advance_n_snoc(init, steps as nat);
                    }
                    steps = steps + 1;
                },
                Result::Err(None) => {
                    proof {
                        lemma_advance_n_snoc(init, steps as nat);
                        lemma_frames_view(frames@);
                        assert(frames_view(frames@) =~= Seq::<FrameV>::empty());
                        assert(advance_n(init, steps as nat + 1) == StepV::Done(
                            self.vm_state(Seq::empty()),
                        ));
                    }
                    return Ok(());
                },
                Result::Err(Some(e)) => {
                    proof {
                        lemma_advance_n_snoc(init, steps as nat);
                        assert(advance_n(init, steps as nat + 1) == StepV::Fail(
                            self.vm_state(frames_view(frames@)),
                            e,
                        ));
                    }
                    return Err(e);
                },
            }
        }
    }

    /// The final variable namespace, in insertion order, for reporting.
    pub fn vars_list(&self) -> (r: Vec<(Var, Value)>)
        requires
            self.wf(),
        ensures
            r@.len() == var_entries(self.vars).len(),
            forall|i: int|
                0 <= i < r@.len() ==> r@[i].0 == var_entries(self.vars)[i].0 && r@[i].1@
                    == var_entries(self.vars)[i].1,
    {
        let ghost es = var_entries(self.vars);
        let ks = var_map_keys(&self.vars);
        let mut out: Vec<(Var, Value)> = Vec::new();
        let mut i: usize = 0;
        while i < ks.len()
            invariant
                i <= ks@.len(),
                ks@.len() == es.len(),
                forall|j: int| 0 <= j < ks@.len() ==> ks@[j] == es[j].0,
                es == var_entries(self.vars),
                keys_unique(es),
                out@.len() == i as int,
                forall|j: int|
                    0 <= j < i ==> out@[j].0 == es[j].0 && out@[j].1@ == es[j].1,
            decreases ks@.len() - i,
        {
            proof {
                lemma_assoc_at(es, i as int);
            }
            let k = ks[i];
            match var_map_get(&self.vars, &k) {
                Option::Some(v) => {
                    let d = dup_value(v);
                    out.push((k, d));
                },
                Option::None => {
                    out.push((k, Value::Num(0)));
                },
            }
            i = i + 1;
        }
        out
    }
}

pub proof fn lemma_assoc_at<T>(s: Seq<(Var, T)>, i: int)
    requires
        keys_unique(s),
        0 <= i < s.len(),
    ensures
        assoc(s, s[i].0) == Option::Some(s[i].1),
{
    lemma_find_key(s, s[i].0);
    let j = find_key(s, s[i].0);
    if j == -1 {
        assert(s[i].0 != s[i].0);
    } else {
        if i < j {
            assert(s[i].0 != s[j].0);
        }
        if j < i {
            assert(s[j].0 != s[i].0);
        }
    }
}

pub proof fn lemma_advance_n_add(r: StepV, a: nat, b: nat)
    ensures
        advance_n(r, a + b) == advance_n(advance_n(r, a), b),
    decreases a,
{
    if a > 0 {
        lemma_advance_n_add(advance(r), (a - 1) as nat, b);
    }
}

/// `Done` and `Fail` are absorbing: once the machine has finished or failed,
/// further steps change nothing.
pub proof fn lemma_terminal_absorbs(r: StepV, n: nat)
    requires
        r is Done || r is Fail,
    ensures
        advance_n(r, n) == r,
    decreases n,
{
    if n > 0 {
        lemma_terminal_absorbs(r, (n - 1) as nat);
    }
}

/// Whole runs are deterministic: from one starting point the step relation
/// names at most one finished or failed outcome, whatever step counts reach
/// it. With the parser's determinism, parsing one text twice and running
/// each result from equal evaluators must end alike.
pub proof fn lemma_run_outcome_unique(r: StepV, n1: nat, n2: nat)
    requires
        advance_n(r, n1) is Done || advance_n(r, n1) is Fail,
        advance_n(r, n2) is Done || advance_n(r, n2) is Fail,
    ensures
        advance_n(r, n1) == advance_n(r, n2),
{
    if n1 <= n2 {
        lemma_advance_n_add(r, n1, (n2 - n1) as nat);
        lemma_terminal_absorbs(advance_n(r, n1), (n2 - n1) as nat);
    } else {
        lemma_advance_n_add(r, n2, (n1 - n2) as nat);
        lemma_terminal_absorbs(advance_n(r, n2), (n1 - n2) as nat);
    }
}

/// A numeric literal only multiplies into the pending count register: with
/// effective count `cnt`, dispatching `Num(n)` pends `cnt * n` (wrapped) and
/// touches no namespace.
pub proof fn lemma_literal_multiplies(s: MState, body: Seq<CmdV>, pos: nat, n: i64, cnt: i64)
    requires
        pos < body.len(),
        body[pos as int] == CmdV::Num(n),
    ensures
        run_cmd_spec(s, body, pos, cnt).pending == Option::Some(ValueV::Num(wrap64(cnt * n))),
        run_cmd_spec(s, body, pos, cnt).vars == s.vars,
        run_cmd_spec(s, body, pos, cnt).macros == s.macros,
        run_cmd_spec(s, body, pos, cnt).marks == s.marks,
{
}

/// A failing step commits nothing: the state a failure carries is exactly
/// the state the machine stood in when the lookup failed.
pub proof fn lemma_failure_preserves_state(s: MState)
    ensures
        step_spec(s) is Fail ==> step_spec(s)->Fail_0 == s,
{
}

/// A variable that was never stored reads as the scalar 0.
pub proof fn lemma_fresh_var_reads_zero(vars: Seq<(Var, ValueV)>, v: Var)
    requires
        assoc(vars, v) is None,
    ensures
        cur_var(vars, v) == ValueV::Num(0),
        read_of(cur_var(vars, v)) == 0,
{
}

impl Default for Vm {
    /// A fresh evaluator: no pending count, all three namespaces empty.
    fn default() -> (r: Self)
        ensures
            r.wf(),
            pending_view(r.count) is None,
            var_entries(r.vars) == Seq::<(Var, ValueV)>::empty(),
            cmd_entries(r.macros) == Seq::<(Var, Seq<CmdV>)>::empty(),
            cmd_entries(r.marks) == Seq::<(Var, Seq<CmdV>)>::empty(),
    {
        Vm { count: None, vars: new_var_map(), macros: new_cmd_map(), marks: new_cmd_map() }
    }
}

} // verus!
