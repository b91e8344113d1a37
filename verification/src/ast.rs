//! The abstract syntax tree of the scripting language, together with
//! its mathematical mirror: each executable node has a ghost
//! counterpart over `Seq` values, reached through `deep_view`, and the
//! parser's and interpreter's contracts speak of the mirror.

use vstd::prelude::*;

verus! {

/// A parsed script: global settings, macro definitions and trigger
/// blocks, in source order.
#[derive(Debug)]
pub struct Script {
    pub global_settings: Vec<GlobalSetting>,
    pub macros: Vec<Macro>,
    pub blocks: Vec<Block>,
}

/// A global setting of a script (`CLI = "...";`).
#[derive(Debug, PartialEq, Eq)]
pub enum GlobalSetting {
    Cli(String),
}

/// A named body of statements invocable from any block or macro.
#[derive(Debug)]
pub struct Macro {
    pub name: String,
    pub body: Vec<Statement>,
}

/// A body of statements attached to one or more trigger combinations.
#[derive(Debug)]
pub struct Block {
    pub triggers: Vec<TriggerCombinations>,
    pub body: Vec<Statement>,
}

/// Keys that must all be held simultaneously; the last entry is the
/// key whose down-event completes the combination.
#[derive(Debug, PartialEq, Eq)]
pub struct TriggerCombinations(pub Vec<TriggerKey>);

/// One key of a trigger combination.
#[derive(Debug, PartialEq, Eq)]
pub enum TriggerKey {
    /// A literal set-1 scan code (`#0x...`).
    Physical(u16),
    /// A set-1 scan code with the extended bit forced on (`#E0/0x...`).
    ExtendedPhysical(u16),
    /// A symbolic name resolved through the key identity table.
    Virtual(String),
}

/// One statement of a script body.
#[derive(Debug)]
pub enum Statement {
    /// Spawn a command through the default shell, fire and forget.
    Run(String),
    /// Spawn a command through the scripting shell, fire and forget.
    Execute(String),
    /// Spawn through the default shell and await; on failure run the
    /// fallback statement.
    TryRun { command: String, failure: Option<Box<Statement>> },
    /// Spawn through the scripting shell and await; on failure run the
    /// fallback statement.
    TryExecute { command: String, failure: Option<Box<Statement>> },
    /// Emit synthetic input.
    Send(Vec<SendExpression>),
    /// Suspend for the given number of milliseconds.
    Wait(u64),
    /// Conditional execution with optional else-if and else branches.
    If {
        condition: Condition,
        then_branch: Vec<Statement>,
        else_if_branches: Vec<(Condition, Vec<Statement>)>,
        else_branch: Option<Vec<Statement>>,
    },
    /// Execute the body exactly `count` times.
    Loop { count: usize, body: Vec<Statement> },
    /// Invoke a macro by name; unbound names are a no-op.
    MacroCall(String),
}

/// A condition of an `if` or `elif`; each carries alternative trigger
/// combinations joined by OR.
#[derive(Debug, PartialEq, Eq)]
pub enum Condition {
    WaitInput(Vec<TriggerCombinations>),
    WaitInputTime(Vec<TriggerCombinations>, u64),
    NowInput(Vec<TriggerCombinations>),
    WaitReleased(Vec<TriggerCombinations>),
    WaitReleasedTime(Vec<TriggerCombinations>, u64),
}

/// One expression of a `Send` statement.
#[derive(Debug, PartialEq, Eq)]
pub enum SendExpression {
    /// Tap a key: down, brief pause, up.
    Key(TriggerKey),
    /// Type a literal string as unicode character events.
    String(String),
    /// Press the keys in order, then release them in reverse order.
    Combo(Vec<TriggerKey>),
    /// Press a key and leave it down until the statement ends.
    Hold(TriggerKey),
    /// Release a key held by an earlier hold.
    Release(TriggerKey),
}

/// Mathematical mirror of `Script`.
pub ghost struct SpecScript {
    pub global_settings: Seq<SpecGlobalSetting>,
    pub macros: Seq<SpecMacro>,
    pub blocks: Seq<SpecBlock>,
}

/// Mathematical mirror of `GlobalSetting`.
pub ghost enum SpecGlobalSetting {
    Cli(Seq<char>),
}

/// Mathematical mirror of `Macro`.
pub ghost struct SpecMacro {
    pub name: Seq<char>,
    pub body: Seq<SpecStatement>,
}

/// Mathematical mirror of `Block`.
pub ghost struct SpecBlock {
    pub triggers: Seq<SpecTriggerCombinations>,
    pub body: Seq<SpecStatement>,
}

/// Mathematical mirror of `TriggerCombinations`.
pub ghost struct SpecTriggerCombinations(pub Seq<SpecTriggerKey>);

/// Mathematical mirror of `TriggerKey`.
pub ghost enum SpecTriggerKey {
    Physical(u16),
    ExtendedPhysical(u16),
    Virtual(Seq<char>),
}

/// Mathematical mirror of `Statement`.  The fallback of `TryRun` and
/// `TryExecute` is mirrored as a sequence of at most one statement.
pub ghost enum SpecStatement {
    Run(Seq<char>),
    Execute(Seq<char>),
    TryRun { command: Seq<char>, failure: Seq<SpecStatement> },
    TryExecute { command: Seq<char>, failure: Seq<SpecStatement> },
    Send(Seq<SpecSendExpression>),
    Wait(u64),
    If {
        condition: SpecCondition,
        then_branch: Seq<SpecStatement>,
        else_if_branches: Seq<(SpecCondition, Seq<SpecStatement>)>,
        else_branch: Option<Seq<SpecStatement>>,
    },
    Loop { count: usize, body: Seq<SpecStatement> },
    MacroCall(Seq<char>),
}

/// Mathematical mirror of `Condition`.
pub ghost enum SpecCondition {
    WaitInput(Seq<SpecTriggerCombinations>),
    WaitInputTime(Seq<SpecTriggerCombinations>, u64),
    NowInput(Seq<SpecTriggerCombinations>),
    WaitReleased(Seq<SpecTriggerCombinations>),
    WaitReleasedTime(Seq<SpecTriggerCombinations>, u64),
}

/// Mathematical mirror of `SendExpression`.
pub ghost enum SpecSendExpression {
    Key(SpecTriggerKey),
    String(Seq<char>),
    Combo(Seq<SpecTriggerKey>),
    Hold(SpecTriggerKey),
    Release(SpecTriggerKey),
}

impl DeepView for TriggerKey {
    type V = SpecTriggerKey;

    open spec fn deep_view(&self) -> SpecTriggerKey {
        match self {
            TriggerKey::Physical(sc) => SpecTriggerKey::Physical(*sc),
            TriggerKey::ExtendedPhysical(sc) => SpecTriggerKey::ExtendedPhysical(*sc),
            TriggerKey::Virtual(name) => SpecTriggerKey::Virtual(name@),
        }
    }
}

impl DeepView for TriggerCombinations {
    type V = SpecTriggerCombinations;

    open spec fn deep_view(&self) -> SpecTriggerCombinations {
        SpecTriggerCombinations(self.0.deep_view())
    }
}

impl DeepView for GlobalSetting {
    type V = SpecGlobalSetting;

    open spec fn deep_view(&self) -> SpecGlobalSetting {
        match self {
            GlobalSetting::Cli(s) => SpecGlobalSetting::Cli(s@),
        }
    }
}

impl DeepView for Condition {
    type V = SpecCondition;

    open spec fn deep_view(&self) -> SpecCondition {
        match self {
            Condition::WaitInput(c) => SpecCondition::WaitInput(c.deep_view()),
            Condition::WaitInputTime(c, t) => SpecCondition::WaitInputTime(c.deep_view(), *t),
            Condition::NowInput(c) => SpecCondition::NowInput(c.deep_view()),
            Condition::WaitReleased(c) => SpecCondition::WaitReleased(c.deep_view()),
            Condition::WaitReleasedTime(c, t) => SpecCondition::WaitReleasedTime(c.deep_view(), *t),
        }
    }
}

impl DeepView for SendExpression {
    type V = SpecSendExpression;

    open spec fn deep_view(&self) -> SpecSendExpression {
        match self {
            SendExpression::Key(k) => SpecSendExpression::Key(k.deep_view()),
            SendExpression::String(s) => SpecSendExpression::String(s@),
            SendExpression::Combo(ks) => SpecSendExpression::Combo(ks.deep_view()),
            SendExpression::Hold(k) => SpecSendExpression::Hold(k.deep_view()),
            SendExpression::Release(k) => SpecSendExpression::Release(k.deep_view()),
        }
    }
}

/// Mirror of one statement; recursion bottoms out at the leaves.
pub open spec fn stmt_dv(s: Statement) -> SpecStatement
    decreases s,
{
    match s {
        Statement::Run(cmd) => SpecStatement::Run(cmd@),
        Statement::Execute(cmd) => SpecStatement::Execute(cmd@),
        Statement::TryRun { command, failure } => SpecStatement::TryRun {
            command: command@,
            failure: match failure {
                Some(f) => seq![stmt_dv(*f)],
                None => seq![],
            },
        },
        Statement::TryExecute { command, failure } => SpecStatement::TryExecute {
            command: command@,
            failure: match failure {
                Some(f) => seq![stmt_dv(*f)],
                None => seq![],
            },
        },
        Statement::Send(exprs) => SpecStatement::Send(exprs.deep_view()),
        Statement::Wait(ms) => SpecStatement::Wait(ms),
        Statement::If { condition, then_branch, else_if_branches, else_branch } => {
            SpecStatement::If {
                condition: condition.deep_view(),
                then_branch: stmts_dv(then_branch@),
                else_if_branches: elifs_dv(else_if_branches@),
                else_branch: match else_branch {
                    Some(b) => Some(stmts_dv(b@)),
                    None => None,
                },
            }
        },
        Statement::Loop { count, body } => SpecStatement::Loop {
            count: count,
            body: stmts_dv(body@),
        },
        Statement::MacroCall(name) => SpecStatement::MacroCall(name@),
    }
}

/// Mirror of a sequence of statements, element for element.
pub open spec fn stmts_dv(v: Seq<Statement>) -> Seq<SpecStatement>
    decreases v,
{
    Seq::new(
        v.len(),
        |i: int|
            if 0 <= i < v.len() {
                stmt_dv(v[i])
            } else {
                arbitrary()
            },
    )
}

/// Mirror of a sequence of else-if arms, element for element.
pub open spec fn elifs_dv(v: Seq<(Condition, Vec<Statement>)>) -> Seq<
    (SpecCondition, Seq<SpecStatement>),
>
    decreases v,
{
    Seq::new(
        v.len(),
        |i: int|
            if 0 <= i < v.len() {
                (v[i].0.deep_view(), stmts_dv(v[i].1@))
            } else {
                arbitrary()
            },
    )
}

impl DeepView for Statement {
    type V = SpecStatement;

    open spec fn deep_view(&self) -> SpecStatement {
        stmt_dv(*self)
    }
}

impl DeepView for Macro {
    type V = SpecMacro;

    open spec fn deep_view(&self) -> SpecMacro {
        SpecMacro { name: self.name@, body: stmts_dv(self.body@) }
    }
}

impl DeepView for Block {
    type V = SpecBlock;

    open spec fn deep_view(&self) -> SpecBlock {
        SpecBlock { triggers: self.triggers.deep_view(), body: stmts_dv(self.body@) }
    }
}

impl DeepView for Script {
    type V = SpecScript;

    open spec fn deep_view(&self) -> SpecScript {
        SpecScript {
            global_settings: self.global_settings.deep_view(),
            macros: self.macros.deep_view(),
            blocks: self.blocks.deep_view(),
        }
    }
}


impl Clone for TriggerKey {
    /// Cloning a trigger key preserves its mirror exactly.
    fn clone(&self) -> (r: TriggerKey)
        ensures
            r.deep_view() == self.deep_view(),
    {
        match self {
            TriggerKey::Physical(sc) => TriggerKey::Physical(*sc),
            TriggerKey::ExtendedPhysical(sc) => TriggerKey::ExtendedPhysical(*sc),
            TriggerKey::Virtual(name) => TriggerKey::Virtual(name.clone()),
        }
    }
}

/// Clones a list of trigger keys, preserving its mirror.
pub fn clone_keys(v: &Vec<TriggerKey>) -> (r: Vec<TriggerKey>)
    ensures
        r.deep_view() == v.deep_view(),
{
    let r = v.clone();
    proof {
        assert forall|i: int| 0 <= i < v@.len() implies #[trigger] r.deep_view()[i]
            == v.deep_view()[i] by {
            assert(cloned::<TriggerKey>(v@[i], r@[i]));
        }
        assert(r.deep_view() =~= v.deep_view());
    }
    r
}

impl Clone for TriggerCombinations {
    /// Cloning a combination preserves its mirror exactly.
    fn clone(&self) -> (r: TriggerCombinations)
        ensures
            r.deep_view() == self.deep_view(),
    {
        TriggerCombinations(clone_keys(&self.0))
    }
}

/// Clones a list of trigger combinations, preserving its mirror.
pub fn clone_combos(v: &Vec<TriggerCombinations>) -> (r: Vec<TriggerCombinations>)
    ensures
        r.deep_view() == v.deep_view(),
{
    let r = v.clone();
    proof {
        assert forall|i: int| 0 <= i < v@.len() implies #[trigger] r.deep_view()[i]
            == v.deep_view()[i] by {
            assert(cloned::<TriggerCombinations>(v@[i], r@[i]));
        }
        assert(r.deep_view() =~= v.deep_view());
    }
    r
}

impl Clone for GlobalSetting {
    /// Cloning a setting preserves its mirror exactly.
    fn clone(&self) -> (r: GlobalSetting)
        ensures
            r.deep_view() == self.deep_view(),
    {
        match self {
            GlobalSetting::Cli(s) => GlobalSetting::Cli(s.clone()),
        }
    }
}

impl Clone for Condition {
    /// Cloning a condition preserves its mirror exactly.
    fn clone(&self) -> (r: Condition)
        ensures
            r.deep_view() == self.deep_view(),
    {
        match self {
            Condition::WaitInput(c) => Condition::WaitInput(clone_combos(c)),
            Condition::WaitInputTime(c, t) => Condition::WaitInputTime(clone_combos(c), *t),
            Condition::NowInput(c) => Condition::NowInput(clone_combos(c)),
            Condition::WaitReleased(c) => Condition::WaitReleased(clone_combos(c)),
            Condition::WaitReleasedTime(c, t) => Condition::WaitReleasedTime(clone_combos(c), *t),
        }
    }
}

impl Clone for SendExpression {
    /// Cloning a send expression preserves its mirror exactly.
    fn clone(&self) -> (r: SendExpression)
        ensures
            r.deep_view() == self.deep_view(),
    {
        match self {
            SendExpression::Key(k) => SendExpression::Key(k.clone()),
            SendExpression::String(s) => SendExpression::String(s.clone()),
            SendExpression::Combo(ks) => SendExpression::Combo(clone_keys(ks)),
            SendExpression::Hold(k) => SendExpression::Hold(k.clone()),
            SendExpression::Release(k) => SendExpression::Release(k.clone()),
        }
    }
}

/// Clones a list of send expressions, preserving its mirror.
pub fn clone_exprs(v: &Vec<SendExpression>) -> (r: Vec<SendExpression>)
    ensures
        r.deep_view() == v.deep_view(),
{
    let r = v.clone();
    proof {
        assert forall|i: int| 0 <= i < v@.len() implies #[trigger] r.deep_view()[i]
            == v.deep_view()[i] by {
            assert(cloned::<SendExpression>(v@[i], r@[i]));
        }
        assert(r.deep_view() =~= v.deep_view());
    }
    r
}

/// Clones one statement, preserving its mirror exactly.
pub fn clone_statement(s: &Statement) -> (r: Statement)
    ensures
        r.deep_view() == s.deep_view(),
    decreases s,
{
    match s {
        Statement::Run(cmd) => Statement::Run(cmd.clone()),
        Statement::Execute(cmd) => Statement::Execute(cmd.clone()),
        Statement::TryRun { command, failure } => Statement::TryRun {
            command: command.clone(),
            failure: match failure {
                Some(f) => Some(Box::new(clone_statement(&**f))),
                None => None,
            },
        },
        Statement::TryExecute { command, failure } => Statement::TryExecute {
            command: command.clone(),
            failure: match failure {
                Some(f) => Some(Box::new(clone_statement(&**f))),
                None => None,
            },
        },
        Statement::Send(exprs) => Statement::Send(clone_exprs(exprs)),
        Statement::Wait(ms) => Statement::Wait(*ms),
        Statement::If { condition, then_branch, else_if_branches, else_branch } => Statement::If {
            condition: condition.clone(),
            then_branch: clone_statements(then_branch),
            else_if_branches: clone_elifs(else_if_branches),
            else_branch: match else_branch {
                Some(b) => Some(clone_statements(b)),
                None => None,
            },
        },
        Statement::Loop { count, body } => Statement::Loop {
            count: *count,
            body: clone_statements(body),
        },
        Statement::MacroCall(name) => Statement::MacroCall(name.clone()),
    }
}

/// Clones a list of statements, preserving its mirror exactly.
pub fn clone_statements(v: &Vec<Statement>) -> (r: Vec<Statement>)
    ensures
        stmts_dv(r@) == stmts_dv(v@),
        r@.len() == v@.len(),
    decreases v,
{
    let mut r: Vec<Statement> = Vec::new();
    let mut i: usize = 0;
    while i < v.len()
        invariant
            0 <= i <= v@.len(),
            r@.len() == i,
            forall|j: int| 0 <= j < i ==> stmt_dv(#[trigger] r@[j]) == stmt_dv(v@[j]),
        decreases v@.len() - i,
    {
        r.push(clone_statement(&v[i]));
        i = i + 1;
    }
    proof {
        assert(stmts_dv(r@) =~= stmts_dv(v@));
    }
    r
}

/// Clones a list of else-if arms, preserving its mirror exactly.
pub fn clone_elifs(v: &Vec<(Condition, Vec<Statement>)>) -> (r: Vec<(Condition, Vec<Statement>)>)
    ensures
        elifs_dv(r@) == elifs_dv(v@),
        r@.len() == v@.len(),
    decreases v,
{
    let mut r: Vec<(Condition, Vec<Statement>)> = Vec::new();
    let mut i: usize = 0;
    while i < v.len()
        invariant
            0 <= i <= v@.len(),
            r@.len() == i,
            forall|j: int| 0 <= j < i ==> (#[trigger] r@[j]).0.deep_view() == v@[j].0.deep_view()
                && stmts_dv(r@[j].1@) == stmts_dv(v@[j].1@),
        decreases v@.len() - i,
    {
        let pair = &v[i];
        r.push((pair.0.clone(), clone_statements(&pair.1)));
        i = i + 1;
    }
    proof {
        assert(elifs_dv(r@) =~= elifs_dv(v@));
    }
    r
}

impl Clone for Statement {
    /// Cloning a statement preserves its mirror exactly.
    fn clone(&self) -> (r: Statement)
        ensures
            r.deep_view() == self.deep_view(),
    {
        clone_statement(self)
    }
}

impl Clone for Macro {
    /// Cloning a macro preserves its mirror exactly.
    fn clone(&self) -> (r: Macro)
        ensures
            r.deep_view() == self.deep_view(),
    {
        Macro { name: self.name.clone(), body: clone_statements(&self.body) }
    }
}

impl Clone for Block {
    /// Cloning a block preserves its mirror exactly.
    fn clone(&self) -> (r: Block)
        ensures
            r.deep_view() == self.deep_view(),
    {
        Block { triggers: clone_combos(&self.triggers), body: clone_statements(&self.body) }
    }
}

} // verus!
