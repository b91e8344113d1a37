//! The script interpreter, written as a stepped state machine.
//!
//! Walking the tree needs outside work at almost every statement:
//! spawning processes, injecting input, sleeping, reading the held
//! set.  The machine therefore never performs an effect itself: each
//! step hands the surrounding program an `Action` to perform, and the
//! two statement forms whose outcome feeds back into control flow
//! (`TryRun`/`TryExecute` and `If`) suspend until the corresponding
//! `Event` is delivered.  The whole transition function is specified
//! mathematically by `spec_step` and `spec_deliver`, and the stepping
//! code returns exactly what they describe.

use vstd::prelude::*;

use crate::ast::{
    clone_statement, clone_statements, elifs_dv, stmt_dv, stmts_dv, Condition, GlobalSetting,
    Macro, Script, SpecCondition, SpecMacro, SpecSendExpression, SpecStatement, SendExpression,
    Statement,
};

verus! {

/// Outside work the machine asks the surrounding program to perform.
#[derive(Debug)]
pub enum Action {
    /// Spawn through the default shell; do not await.
    RunCmd(String),
    /// Spawn through the scripting shell; do not await.
    ExecuteCmd(String),
    /// Spawn through the default shell, await, and deliver the result.
    TryRunCmd(String),
    /// Spawn through the scripting shell, await, and deliver the result.
    TryExecuteCmd(String),
    /// Hand the expressions to the input simulator.
    SendKeys(Vec<SendExpression>),
    /// Sleep for the given milliseconds.
    WaitMs(u64),
    /// Evaluate the condition and deliver the result.
    EvalCond(Condition),
}

/// The outcome of an awaited action, fed back to the machine.
#[derive(Debug, Clone, Copy, PartialEq, Eq, Structural)]
pub enum Event {
    /// Whether an awaited process started and exited successfully.
    TryResult(bool),
    /// What an evaluated condition returned.
    CondResult(bool),
}

/// What one step of the machine produced.
#[derive(Debug)]
pub enum StepResult {
    /// Perform this action, then step again (or deliver the event it
    /// asks for).
    Do(Action),
    /// Internal progress only; step again.
    Again,
    /// The machine waits for an event; deliver it first.
    AwaitingEvent,
    /// The block has run to completion.
    Done,
}

/// One unit of pending work.
pub enum WorkItem {
    /// Execute one statement.
    Single(Statement),
    /// Execute `body` another `remaining` times.
    Rounds { remaining: usize, body: Vec<Statement> },
}

/// What the machine is suspended on, if anything.
pub enum PendingWork {
    /// Nothing; the next step pops work.
    Idle,
    /// A spawned process is being awaited; on failure the fallback
    /// statement runs.
    AwaitTry { failure: Option<Box<Statement>> },
    /// A condition of an `if` is being evaluated: `next_arm` is zero
    /// while the primary condition is out, or one past the index of
    /// the else-if arm whose condition is out.
    AwaitCond {
        then_branch: Vec<Statement>,
        arms: Vec<(Condition, Vec<Statement>)>,
        next_arm: usize,
        else_branch: Option<Vec<Statement>>,
    },
}

/// Mirror of `Action`.
pub ghost enum SpecAction {
    RunCmd(Seq<char>),
    ExecuteCmd(Seq<char>),
    TryRunCmd(Seq<char>),
    TryExecuteCmd(Seq<char>),
    SendKeys(Seq<SpecSendExpression>),
    WaitMs(u64),
    EvalCond(SpecCondition),
}

/// Mirror of `StepResult`.
pub ghost enum SpecStepResult {
    Do(SpecAction),
    Again,
    AwaitingEvent,
    Done,
}

/// Mirror of `WorkItem`.
pub ghost enum SpecWorkItem {
    Single(SpecStatement),
    Rounds { remaining: usize, body: Seq<SpecStatement> },
}

/// Mirror of `PendingWork`.
pub ghost enum SpecPending {
    Idle,
    AwaitTry { failure: Seq<SpecStatement> },
    AwaitCond {
        then_branch: Seq<SpecStatement>,
        arms: Seq<(SpecCondition, Seq<SpecStatement>)>,
        next_arm: usize,
        else_branch: Option<Seq<SpecStatement>>,
    },
}

/// Mirror of one work item.
pub open spec fn wi_dv(w: WorkItem) -> SpecWorkItem {
    match w {
        WorkItem::Single(st) => SpecWorkItem::Single(stmt_dv(st)),
        WorkItem::Rounds { remaining, body } => SpecWorkItem::Rounds {
            remaining: remaining,
            body: stmts_dv(body@),
        },
    }
}

/// Mirror of a work stack, element for element.
pub open spec fn work_dv(v: Seq<WorkItem>) -> Seq<SpecWorkItem> {
    Seq::new(
        v.len(),
        |i: int|
            if 0 <= i < v.len() {
                wi_dv(v[i])
            } else {
                arbitrary()
            },
    )
}

/// Mirror of the pending state.
pub open spec fn pending_dv(p: PendingWork) -> SpecPending {
    match p {
        PendingWork::Idle => SpecPending::Idle,
        PendingWork::AwaitTry { failure } => SpecPending::AwaitTry {
            failure: match failure {
                Some(f) => seq![stmt_dv(*f)],
                None => seq![],
            },
        },
        PendingWork::AwaitCond { then_branch, arms, next_arm, else_branch } => {
            SpecPending::AwaitCond {
                then_branch: stmts_dv(then_branch@),
                arms: elifs_dv(arms@),
                next_arm: next_arm,
                else_branch: match else_branch {
                    Some(b) => Some(stmts_dv(b@)),
                    None => None,
                },
            }
        },
    }
}

/// Mirror of a step result.
pub open spec fn result_dv(r: StepResult) -> SpecStepResult {
    match r {
        StepResult::Do(a) => SpecStepResult::Do(action_dv(a)),
        StepResult::Again => SpecStepResult::Again,
        StepResult::AwaitingEvent => SpecStepResult::AwaitingEvent,
        StepResult::Done => SpecStepResult::Done,
    }
}

/// Mirror of an action.
pub open spec fn action_dv(a: Action) -> SpecAction {
    match a {
        Action::RunCmd(c) => SpecAction::RunCmd(c@),
        Action::ExecuteCmd(c) => SpecAction::ExecuteCmd(c@),
        Action::TryRunCmd(c) => SpecAction::TryRunCmd(c@),
        Action::TryExecuteCmd(c) => SpecAction::TryExecuteCmd(c@),
        Action::SendKeys(xs) => SpecAction::SendKeys(xs.deep_view()),
        Action::WaitMs(ms) => SpecAction::WaitMs(ms),
        Action::EvalCond(c) => SpecAction::EvalCond(c.deep_view()),
    }
}

/// The machine state of one dispatched block.
pub ghost struct SpecRun {
    pub macros: Seq<SpecMacro>,
    pub work: Seq<SpecWorkItem>,
    pub pending: SpecPending,
}

/// The macro bound to `name`, where the definition seeded last wins.
pub open spec fn macro_lookup(ms: Seq<SpecMacro>, name: Seq<char>) -> Option<Seq<SpecStatement>>
    decreases ms.len(),
{
    if ms.len() == 0 {
        None
    } else if ms.last().name == name {
        Some(ms.last().body)
    } else {
        macro_lookup(ms.drop_last(), name)
    }
}

/// Statements as single work items, reversed so the first statement
/// lies on top of the stack.
pub open spec fn rev_singles(body: Seq<SpecStatement>) -> Seq<SpecWorkItem> {
    Seq::new(
        body.len(),
        |i: int|
            if 0 <= i < body.len() {
                SpecWorkItem::Single(body[body.len() - 1 - i])
            } else {
                arbitrary()
            },
    )
}

/// The machine's whole step transition: what the next step does with
/// any state.  An idle machine pops the top work item; the item either
/// yields an action, or restructures the stack and reports `Again`.
pub open spec fn spec_step(m: SpecRun) -> (SpecRun, SpecStepResult) {
    if !(m.pending is Idle) {
        (m, SpecStepResult::AwaitingEvent)
    } else if m.work.len() == 0 {
        (m, SpecStepResult::Done)
    } else {
        let rest = m.work.drop_last();
        match m.work.last() {
            SpecWorkItem::Single(st) => match st {
                SpecStatement::Run(c) => (
                    SpecRun { work: rest, ..m },
                    SpecStepResult::Do(SpecAction::RunCmd(c)),
                ),
                SpecStatement::Execute(c) => (
                    SpecRun { work: rest, ..m },
                    SpecStepResult::Do(SpecAction::ExecuteCmd(c)),
                ),
                SpecStatement::TryRun { command, failure } => (
                    SpecRun { work: rest, pending: SpecPending::AwaitTry { failure }, ..m },
                    SpecStepResult::Do(SpecAction::TryRunCmd(command)),
                ),
                SpecStatement::TryExecute { command, failure } => (
                    SpecRun { work: rest, pending: SpecPending::AwaitTry { failure }, ..m },
                    SpecStepResult::Do(SpecAction::TryExecuteCmd(command)),
                ),
                SpecStatement::Send(xs) => (
                    SpecRun { work: rest, ..m },
                    SpecStepResult::Do(SpecAction::SendKeys(xs)),
                ),
                SpecStatement::Wait(ms) => (
                    SpecRun { work: rest, ..m },
                    SpecStepResult::Do(SpecAction::WaitMs(ms)),
                ),
                SpecStatement::If { condition, then_branch, else_if_branches, else_branch } => (
                    SpecRun {
                        work: rest,
                        pending: SpecPending::AwaitCond {
                            then_branch: then_branch,
                            arms: else_if_branches,
                            next_arm: 0,
                            else_branch: else_branch,
                        },
                        ..m
                    },
                    SpecStepResult::Do(SpecAction::EvalCond(condition)),
                ),
                SpecStatement::Loop { count, body } => (
                    SpecRun {
                        work: rest.push(SpecWorkItem::Rounds { remaining: count, body: body }),
                        ..m
                    },
                    SpecStepResult::Again,
                ),
                SpecStatement::MacroCall(name) => match macro_lookup(m.macros, name) {
                    Some(body) => (
                        SpecRun { work: rest + rev_singles(body), ..m },
                        SpecStepResult::Again,
                    ),
                    None => (SpecRun { work: rest, ..m }, SpecStepResult::Again),
                },
            },
            SpecWorkItem::Rounds { remaining, body } => {
                if remaining == 0 {
                    (SpecRun { work: rest, ..m }, SpecStepResult::Again)
                } else {
                    (
                        SpecRun {
                            work: rest.push(
                                SpecWorkItem::Rounds {
                                    remaining: (remaining - 1) as usize,
                                    body: body,
                                },
                            ) + rev_singles(body),
                            ..m
                        },
                        SpecStepResult::Again,
                    )
                }
            },
        }
    }
}

/// Whether the machine is suspended on the kind of event offered.
pub open spec fn awaits(p: SpecPending, ev: Event) -> bool {
    match (p, ev) {
        (SpecPending::AwaitTry { .. }, Event::TryResult(_)) => true,
        (SpecPending::AwaitCond { .. }, Event::CondResult(_)) => true,
        _ => false,
    }
}

/// The machine's whole delivery transition: how a suspended machine
/// takes the outcome of an awaited action.
pub open spec fn spec_deliver(m: SpecRun, ev: Event) -> (SpecRun, SpecStepResult) {
    match (m.pending, ev) {
        (SpecPending::AwaitTry { failure }, Event::TryResult(ok)) => {
            if ok {
                (SpecRun { pending: SpecPending::Idle, ..m }, SpecStepResult::Again)
            } else {
                (
                    SpecRun {
                        pending: SpecPending::Idle,
                        work: m.work + rev_singles(failure),
                        ..m
                    },
                    SpecStepResult::Again,
                )
            }
        },
        (
            SpecPending::AwaitCond { then_branch, arms, next_arm, else_branch },
            Event::CondResult(truth),
        ) => {
            if truth {
                let branch = if next_arm == 0 {
                    then_branch
                } else {
                    arms[next_arm - 1].1
                };
                (
                    SpecRun { pending: SpecPending::Idle, work: m.work + rev_singles(branch), ..m },
                    SpecStepResult::Again,
                )
            } else if next_arm < arms.len() {
                (
                    SpecRun {
                        pending: SpecPending::AwaitCond {
                            then_branch: then_branch,
                            arms: arms,
                            next_arm: (next_arm + 1) as usize,
                            else_branch: else_branch,
                        },
                        ..m
                    },
                    SpecStepResult::Do(SpecAction::EvalCond(arms[next_arm as int].0)),
                )
            } else {
                match else_branch {
                    Some(eb) => (
                        SpecRun {
                            pending: SpecPending::Idle,
                            work: m.work + rev_singles(eb),
                            ..m
                        },
                        SpecStepResult::Again,
                    ),
                    None => (
                        SpecRun { pending: SpecPending::Idle, ..m },
                        SpecStepResult::Again,
                    ),
                }
            }
        },
        _ => (m, SpecStepResult::AwaitingEvent),
    }
}


/// Clones a macro table, preserving its mirror.
pub fn clone_macros(v: &Vec<Macro>) -> (r: Vec<Macro>)
    ensures
        r.deep_view() == v.deep_view(),
{
    let r = v.clone();
    proof {
        assert forall|i: int| 0 <= i < v@.len() implies #[trigger] r.deep_view()[i]
            == v.deep_view()[i] by {
            assert(cloned::<Macro>(v@[i], r@[i]));
        }
        assert(r.deep_view() =~= v.deep_view());
    }
    r
}

/// Pushes the statements of `body` as single work items, first
/// statement on top.
fn push_reversed(work: &mut Vec<WorkItem>, body: &Vec<Statement>)
    ensures
        work_dv(final(work)@) == work_dv(old(work)@) + rev_singles(stmts_dv(body@)),
{
    let ghost base = work@;
    let ghost bdv = stmts_dv(body@);
    let mut k = body.len();
    proof {
        assert(work_dv(work@) =~= work_dv(base) + rev_singles(bdv).take(0));
    }
    while k > 0
        invariant
            0 <= k <= body@.len(),
            bdv == stmts_dv(body@),
            bdv.len() == body@.len(),
            work_dv(work@) == work_dv(base) + rev_singles(bdv).take(body@.len() - k),
        decreases k,
    {
        k = k - 1;
        let st = clone_statement(&body[k]);
        let ghost prev_work = work@;
        work.push(WorkItem::Single(st));
        proof {
            let t = body@.len() - k - 1;
            assert(stmts_dv(body@)[k as int] == stmt_dv(body@[k as int]));
            assert(work_dv(work@) =~= work_dv(prev_work).push(
                SpecWorkItem::Single(bdv[k as int]),
            ));
            assert(rev_singles(bdv)[t] == SpecWorkItem::Single(bdv[k as int]));
            assert(rev_singles(bdv).take(t + 1) =~= rev_singles(bdv).take(t).push(
                rev_singles(bdv)[t],
            ));
            assert(work_dv(work@) =~= work_dv(base) + rev_singles(bdv).take(t + 1));
        }
    }
    proof {
        assert(rev_singles(bdv).take(body@.len() as int) =~= rev_singles(bdv));
    }
}

/// Looks a macro up by name; the definition seeded last wins.  The
/// returned body is an independent clone.
fn lookup_macro_in(macros: &Vec<Macro>, name: &String) -> (r: Option<Vec<Statement>>)
    ensures
        match r {
            Some(b) => macro_lookup(macros.deep_view(), name@) == Some(stmts_dv(b@)),
            None => macro_lookup(macros.deep_view(), name@) is None,
        },
{
    let ghost mdv = macros.deep_view();
    let mut k: usize = macros.len();
    proof {
        assert(mdv.take(macros@.len() as int) =~= mdv);
    }
    while k > 0
        invariant
            0 <= k <= macros@.len(),
            mdv == macros.deep_view(),
            macro_lookup(mdv, name@) == macro_lookup(mdv.take(k as int), name@),
        decreases k,
    {
        proof {
            assert(mdv[k - 1] == macros@[k - 1].deep_view());
            assert(mdv.take(k as int).last() == mdv[k - 1]);
            assert(mdv.take(k as int).drop_last() =~= mdv.take(k as int - 1));
        }
        if macros[k - 1].name == *name {
            return Some(clone_statements(&macros[k - 1].body));
        }
        k = k - 1;
    }
    None
}

/// The compiled executor: the merged global settings and macro table
/// of the loaded scripts.  Dispatched blocks run as machines created
/// by `execute_block`.
pub struct Executor {
    pub global_settings: Vec<GlobalSetting>,
    pub macros: Vec<Macro>,
}

impl Executor {
    /// Builds an executor from a consolidated script.
    pub fn new(script: Script) -> (r: Executor)
        ensures
            r.global_settings == script.global_settings,
            r.macros == script.macros,
    {
        let Script { global_settings, macros, blocks: _ } = script;
        Executor { global_settings, macros }
    }

    /// Starts one dispatched block: a fresh machine whose work is the
    /// block's body, first statement on top, with this executor's
    /// macro table.
    pub fn execute_block(&self, body: &Vec<Statement>) -> (r: BlockRun)
        ensures
            r@.macros == self.macros.deep_view(),
            r@.work == rev_singles(stmts_dv(body@)),
            r@.pending is Idle,
            r.wf(),
    {
        let mut work: Vec<WorkItem> = Vec::new();
        proof {
            assert(work_dv(work@) =~= Seq::<SpecWorkItem>::empty());
        }
        push_reversed(&mut work, body);
        let r = BlockRun { macros: clone_macros(&self.macros), work, pending: PendingWork::Idle };
        proof {
            assert(r@.work =~= rev_singles(stmts_dv(body@)));
        }
        r
    }
}

/// The running machine of one dispatched block.
pub struct BlockRun {
    pub macros: Vec<Macro>,
    pub work: Vec<WorkItem>,
    pub pending: PendingWork,
}

impl View for BlockRun {
    type V = SpecRun;

    open spec fn view(&self) -> SpecRun {
        SpecRun {
            macros: self.macros.deep_view(),
            work: work_dv(self.work@),
            pending: pending_dv(self.pending),
        }
    }
}

impl BlockRun {
    /// While a condition of an `if` is out, the arm counter stays
    /// within the arm list.
    pub open spec fn wf(self) -> bool {
        match self.pending {
            PendingWork::AwaitCond { arms, next_arm, .. } => next_arm <= arms@.len(),
            _ => true,
        }
    }

    /// Performs one step: exactly the transition `spec_step` describes.
    pub fn step(&mut self) -> (r: StepResult)
        requires
            old(self).wf(),
        ensures
            final(self).wf(),
            final(self)@ == spec_step(old(self)@).0,
            result_dv(r) == spec_step(old(self)@).1,
    {
        match &self.pending {
            PendingWork::Idle => {},
            _ => {
                return StepResult::AwaitingEvent;
            },
        }
        let popped = self.work.pop();
        match popped {
            None => {
                proof {
                    assert(work_dv(self.work@) =~= work_dv(old(self).work@));
                }
                StepResult::Done
            },
            Some(item) => {
                proof {
                    assert(wi_dv(item) == old(self)@.work.last());
                    assert(work_dv(self.work@) =~= old(self)@.work.drop_last());
                }
                match item {
                    WorkItem::Single(st) => match st {
                        Statement::Run(c) => StepResult::Do(Action::RunCmd(c)),
                        Statement::Execute(c) => StepResult::Do(Action::ExecuteCmd(c)),
                        Statement::TryRun { command, failure } => {
                            self.pending = PendingWork::AwaitTry { failure };
                            StepResult::Do(Action::TryRunCmd(command))
                        },
                        Statement::TryExecute { command, failure } => {
                            self.pending = PendingWork::AwaitTry { failure };
                            StepResult::Do(Action::TryExecuteCmd(command))
                        },
                        Statement::Send(xs) => StepResult::Do(Action::SendKeys(xs)),
                        Statement::Wait(ms) => StepResult::Do(Action::WaitMs(ms)),
                        Statement::If { condition, then_branch, else_if_branches, else_branch } => {
                            self.pending = PendingWork::AwaitCond {
                                then_branch,
                                arms: else_if_branches,
                                next_arm: 0,
                                else_branch,
                            };
                            StepResult::Do(Action::EvalCond(condition))
                        },
                        Statement::Loop { count, body } => {
                            self.work.push(WorkItem::Rounds { remaining: count, body });
                            proof {
                                assert(self@.work =~= spec_step(old(self)@).0.work);
                            }
                            StepResult::Again
                        },
                        Statement::MacroCall(name) => {
                            match lookup_macro_in(&self.macros, &name) {
                                Some(body) => {
                                    push_reversed(&mut self.work, &body);
                                    proof {
                                        assert(self@.work =~= spec_step(old(self)@).0.work);
                                    }
                                    StepResult::Again
                                },
                                None => StepResult::Again,
                            }
                        },
                    },
                    WorkItem::Rounds { remaining, body } => {
                        if remaining == 0 {
                            StepResult::Again
                        } else {
                            let again = clone_statements(&body);
                            self.work.push(
                                WorkItem::Rounds { remaining: remaining - 1, body },
                            );
                            push_reversed(&mut self.work, &again);
                            proof {
                                assert(self@.work =~= spec_step(old(self)@).0.work);
                            }
                            StepResult::Again
                        }
                    },
                }
            },
        }
    }

    /// Feeds the outcome of an awaited action back in: exactly the
    /// transition `spec_deliver` describes.
    pub fn deliver(&mut self, ev: Event) -> (r: StepResult)
        requires
            old(self).wf(),
        ensures
            final(self).wf(),
            final(self)@ == spec_deliver(old(self)@, ev).0,
            result_dv(r) == spec_deliver(old(self)@, ev).1,
    {
        match ev {
            Event::TryResult(ok) => {
                let fail_clone = match &self.pending {
                    PendingWork::AwaitTry { failure } => match failure {
                        Some(f) => Some(clone_statement(f)),
                        None => None,
                    },
                    _ => {
                        return StepResult::AwaitingEvent;
                    },
                };
                self.pending = PendingWork::Idle;
                if !ok {
                    match fail_clone {
                        Some(f) => {
                            let ghost pre = work_dv(self.work@);
                            let ghost fdv = stmt_dv(f);
                            self.work.push(WorkItem::Single(f));
                            proof {
                                assert(rev_singles(seq![fdv]) =~= seq![
                                    SpecWorkItem::Single(fdv),
                                ]);
                                assert(work_dv(self.work@) =~= pre + rev_singles(seq![fdv]));
                            }
                        },
                        None => {
                            proof {
                                assert(rev_singles(Seq::<SpecStatement>::empty()) =~= Seq::<
                                    SpecWorkItem,
                                >::empty());
                                assert(work_dv(self.work@) =~= work_dv(self.work@) + rev_singles(
                                    Seq::<SpecStatement>::empty(),
                                ));
                            }
                        },
                    }
                }
                StepResult::Again
            },
            Event::CondResult(truth) => {
                let parts = match &self.pending {
                    PendingWork::AwaitCond { then_branch, arms, next_arm, else_branch } => {
                        let eb = match else_branch {
                            Some(b) => Some(clone_statements(b)),
                            None => None,
                        };
                        (clone_statements(then_branch), crate::ast::clone_elifs(arms), *next_arm,
                        eb)
                    },
                    _ => {
                        return StepResult::AwaitingEvent;
                    },
                };
                let (then_c, arms_c, k, else_c) = parts;
                if truth {
                    self.pending = PendingWork::Idle;
                    let ghost pre = work_dv(self.work@);
                    if k == 0 {
                        push_reversed(&mut self.work, &then_c);
                    } else {
                        push_reversed(&mut self.work, &arms_c[k - 1].1);
                        proof {
                            assert(elifs_dv(arms_c@)[k - 1].1 == stmts_dv(arms_c@[k - 1].1@));
                        }
                    }
                    StepResult::Again
                } else if k < arms_c.len() {
                    let cond = arms_c[k].0.clone();
                    proof {
                        assert(elifs_dv(arms_c@)[k as int].0 == arms_c@[k as int].0.deep_view());
                    }
                    self.pending = PendingWork::AwaitCond {
                        then_branch: then_c,
                        arms: arms_c,
                        next_arm: k + 1,
                        else_branch: else_c,
                    };
                    StepResult::Do(Action::EvalCond(cond))
                } else {
                    self.pending = PendingWork::Idle;
                    match else_c {
                        Some(eb) => {
                            push_reversed(&mut self.work, &eb);
                        },
                        None => {},
                    }
                    StepResult::Again
                }
            },
        }
    }
}

// ------------------------------------------------------------------
// Laws of the machine
// ------------------------------------------------------------------

/// A loop of zero rounds is a no-op: stepping through it emits no
/// action and leaves the rest of the work exactly as it was.
pub proof fn lemma_loop_zero_noop(m: SpecRun, body: Seq<SpecStatement>)
    requires
        m.pending is Idle,
        m.work.len() > 0,
        m.work.last() == (SpecWorkItem::Single(SpecStatement::Loop { count: 0, body: body })),
    ensures
        spec_step(m).1 == SpecStepResult::Again,
        spec_step(spec_step(m).0).1 == SpecStepResult::Again,
        spec_step(spec_step(m).0).0 == (SpecRun { work: m.work.drop_last(), ..m }),
{
    let m1 = spec_step(m).0;
    assert(m1.work.last() == SpecWorkItem::Rounds { remaining: 0, body: body });
    assert(m1.work.drop_last() =~= m.work.drop_last());
}

/// A true primary condition runs the then-branch and nothing else:
/// delivering truth pushes exactly the then-branch, and no else-if
/// condition is ever asked for.
pub proof fn lemma_if_true_runs_then_exclusively(
    m: SpecRun,
    then_branch: Seq<SpecStatement>,
    arms: Seq<(SpecCondition, Seq<SpecStatement>)>,
    else_branch: Option<Seq<SpecStatement>>,
)
    requires
        m.pending == (SpecPending::AwaitCond {
            then_branch: then_branch,
            arms: arms,
            next_arm: 0,
            else_branch: else_branch,
        }),
    ensures
        spec_deliver(m, Event::CondResult(true)).0 == (SpecRun {
            pending: SpecPending::Idle,
            work: m.work + rev_singles(then_branch),
            ..m
        }),
        spec_deliver(m, Event::CondResult(true)).1 == SpecStepResult::Again,
{
}

/// Invoking a macro that is not bound is a no-op: the call is dropped,
/// no action is emitted and no work is added.
pub proof fn lemma_unbound_macro_noop(m: SpecRun, name: Seq<char>)
    requires
        m.pending is Idle,
        m.work.len() > 0,
        m.work.last() == SpecWorkItem::Single(SpecStatement::MacroCall(name)),
        macro_lookup(m.macros, name) is None,
    ensures
        spec_step(m).0 == (SpecRun { work: m.work.drop_last(), ..m }),
        spec_step(m).1 == SpecStepResult::Again,
{
}


/// The capability the executor's driver uses to emit synthetic input.
/// The library computes each statement's emission plan; an
/// implementation performs it through the platform injection
/// interface.
pub trait InputSimulator {
    fn send_keys(&mut self, expressions: &Vec<SendExpression>);
}

/// The capability the executor's driver uses to evaluate a condition
/// against the live input state.
pub trait ConditionEvaluator {
    fn evaluate(&mut self, condition: &Condition) -> bool;
}

} // verus!
