use phybkc::ast::{Condition, Macro, Script, SendExpression, Statement, TriggerCombinations,
    TriggerKey};
use phybkc::executor::{Action, Event, Executor, StepResult};
use phybkc::simulator::{send_plan, SimEvent};

fn executor_with_macros(macros: Vec<Macro>) -> Executor {
    Executor::new(Script { global_settings: Vec::new(), macros, blocks: Vec::new() })
}

fn any_condition() -> Condition {
    Condition::NowInput(vec![TriggerCombinations(vec![TriggerKey::Physical(0x1E)])])
}

#[test]
fn loop_zero_is_a_no_op() {
    let executor = executor_with_macros(Vec::new());
    let body = vec![
        Statement::Loop { count: 0, body: vec![Statement::Run("never".to_string())] },
        Statement::Run("after".to_string()),
    ];
    let mut machine = executor.execute_block(&body);
    // the loop statement restructures, the exhausted rounds item drops
    assert!(matches!(machine.step(), StepResult::Again));
    assert!(matches!(machine.step(), StepResult::Again));
    match machine.step() {
        StepResult::Do(Action::RunCmd(c)) => assert_eq!(c, "after"),
        _ => panic!("expected the statement after the loop"),
    }
    assert!(matches!(machine.step(), StepResult::Done));
}

#[test]
fn loop_runs_body_count_times() {
    let executor = executor_with_macros(Vec::new());
    let body = vec![Statement::Loop { count: 3, body: vec![Statement::Run("x".to_string())] }];
    let mut machine = executor.execute_block(&body);
    let mut runs = 0;
    loop {
        match machine.step() {
            StepResult::Do(Action::RunCmd(_)) => runs += 1,
            StepResult::Do(_) => panic!("unexpected action"),
            StepResult::Again => {}
            StepResult::AwaitingEvent => panic!("nothing should be awaited"),
            StepResult::Done => break,
        }
    }
    assert_eq!(runs, 3);
}

#[test]
fn if_true_runs_then_branch_exclusively() {
    let executor = executor_with_macros(Vec::new());
    let body = vec![Statement::If {
        condition: any_condition(),
        then_branch: vec![Statement::Run("then".to_string())],
        else_if_branches: vec![(any_condition(), vec![Statement::Run("elif".to_string())])],
        else_branch: Some(vec![Statement::Run("else".to_string())]),
    }];
    let mut machine = executor.execute_block(&body);
    assert!(matches!(machine.step(), StepResult::Do(Action::EvalCond(_))));
    // a true primary condition asks for no further condition
    assert!(matches!(machine.deliver(Event::CondResult(true)), StepResult::Again));
    match machine.step() {
        StepResult::Do(Action::RunCmd(c)) => assert_eq!(c, "then"),
        _ => panic!("expected the then-branch"),
    }
    assert!(matches!(machine.step(), StepResult::Done));
}

#[test]
fn if_false_walks_elifs_then_else() {
    let executor = executor_with_macros(Vec::new());
    let body = vec![Statement::If {
        condition: any_condition(),
        then_branch: vec![Statement::Run("then".to_string())],
        else_if_branches: vec![(any_condition(), vec![Statement::Run("elif".to_string())])],
        else_branch: Some(vec![Statement::Run("else".to_string())]),
    }];
    let mut machine = executor.execute_block(&body);
    assert!(matches!(machine.step(), StepResult::Do(Action::EvalCond(_))));
    // the primary condition is false: the first else-if condition is asked
    assert!(matches!(machine.deliver(Event::CondResult(false)), StepResult::Do(Action::EvalCond(_))));
    // that one is false too: the else-branch runs
    assert!(matches!(machine.deliver(Event::CondResult(false)), StepResult::Again));
    match machine.step() {
        StepResult::Do(Action::RunCmd(c)) => assert_eq!(c, "else"),
        _ => panic!("expected the else-branch"),
    }
    assert!(matches!(machine.step(), StepResult::Done));
}

#[test]
fn unbound_macro_call_is_a_no_op() {
    let executor = executor_with_macros(Vec::new());
    let body = vec![
        Statement::MacroCall("nope".to_string()),
        Statement::Run("after".to_string()),
    ];
    let mut machine = executor.execute_block(&body);
    assert!(matches!(machine.step(), StepResult::Again));
    match machine.step() {
        StepResult::Do(Action::RunCmd(c)) => assert_eq!(c, "after"),
        _ => panic!("expected the next statement"),
    }
    assert!(matches!(machine.step(), StepResult::Done));
}

#[test]
fn bound_macro_runs_and_last_definition_wins() {
    let executor = executor_with_macros(vec![
        Macro { name: "M".to_string(), body: vec![Statement::Run("first".to_string())] },
        Macro { name: "M".to_string(), body: vec![Statement::Run("second".to_string())] },
    ]);
    let body = vec![Statement::MacroCall("M".to_string())];
    let mut machine = executor.execute_block(&body);
    assert!(matches!(machine.step(), StepResult::Again));
    match machine.step() {
        StepResult::Do(Action::RunCmd(c)) => assert_eq!(c, "second"),
        _ => panic!("expected the macro body"),
    }
    assert!(matches!(machine.step(), StepResult::Done));
}

#[test]
fn wait_statement_requests_the_full_sleep() {
    let executor = executor_with_macros(Vec::new());
    let body = vec![Statement::Wait(10000)];
    let mut machine = executor.execute_block(&body);
    match machine.step() {
        StepResult::Do(Action::WaitMs(ms)) => assert_eq!(ms, 10000),
        _ => panic!("expected a wait action"),
    }
    assert!(matches!(machine.step(), StepResult::Done));
}

#[test]
fn failed_try_run_executes_fallback() {
    let executor = executor_with_macros(Vec::new());
    let body = vec![Statement::TryRun {
        command: "calc".to_string(),
        failure: Some(Box::new(Statement::Run("fallback".to_string()))),
    }];
    let mut machine = executor.execute_block(&body);
    match machine.step() {
        StepResult::Do(Action::TryRunCmd(c)) => assert_eq!(c, "calc"),
        _ => panic!("expected an awaited spawn"),
    }
    assert!(matches!(machine.deliver(Event::TryResult(false)), StepResult::Again));
    match machine.step() {
        StepResult::Do(Action::RunCmd(c)) => assert_eq!(c, "fallback"),
        _ => panic!("expected the fallback"),
    }
    assert!(matches!(machine.step(), StepResult::Done));
}

#[test]
fn successful_try_run_skips_fallback() {
    let executor = executor_with_macros(Vec::new());
    let body = vec![Statement::TryRun {
        command: "calc".to_string(),
        failure: Some(Box::new(Statement::Run("fallback".to_string()))),
    }];
    let mut machine = executor.execute_block(&body);
    assert!(matches!(machine.step(), StepResult::Do(Action::TryRunCmd(_))));
    assert!(matches!(machine.deliver(Event::TryResult(true)), StepResult::Again));
    assert!(matches!(machine.step(), StepResult::Done));
}

#[test]
fn combo_emits_downs_in_order_then_ups_reversed() {
    let exprs = vec![SendExpression::Combo(vec![
        TriggerKey::Physical(0x1D),
        TriggerKey::Physical(0x2A),
        TriggerKey::Physical(0x2D),
    ])];
    let plan = send_plan(&exprs);
    assert_eq!(
        plan,
        vec![
            SimEvent::KeyDown(0x1D),
            SimEvent::PauseMs(10),
            SimEvent::KeyDown(0x2A),
            SimEvent::PauseMs(10),
            SimEvent::KeyDown(0x2D),
            SimEvent::PauseMs(10),
            SimEvent::PauseMs(10),
            SimEvent::KeyUp(0x2D),
            SimEvent::PauseMs(10),
            SimEvent::KeyUp(0x2A),
            SimEvent::PauseMs(10),
            SimEvent::KeyUp(0x1D),
            SimEvent::PauseMs(10),
        ]
    );
}

#[test]
fn send_plan_covers_each_expression_form() {
    // a tapped key
    let plan = send_plan(&vec![SendExpression::Key(TriggerKey::Physical(0x1E))]);
    assert_eq!(
        plan,
        vec![SimEvent::KeyDown(0x1E), SimEvent::PauseMs(10), SimEvent::KeyUp(0x1E)]
    );
    // a typed string: one unicode emission per character
    let plan = send_plan(&vec![SendExpression::String("hi".to_string())]);
    assert_eq!(plan, vec![SimEvent::Unicode('h'), SimEvent::Unicode('i')]);
    // a hold without release is released when the statement ends
    let plan = send_plan(&vec![SendExpression::Hold(TriggerKey::Physical(0x1D))]);
    assert_eq!(plan, vec![SimEvent::KeyDown(0x1D), SimEvent::KeyUp(0x1D)]);
    // a released hold is not released twice
    let plan = send_plan(&vec![
        SendExpression::Hold(TriggerKey::Physical(0x1D)),
        SendExpression::Release(TriggerKey::Physical(0x1D)),
    ]);
    assert_eq!(plan, vec![SimEvent::KeyDown(0x1D), SimEvent::KeyUp(0x1D)]);
    // leftover holds are released in ascending code order
    let plan = send_plan(&vec![
        SendExpression::Hold(TriggerKey::Physical(0x2A)),
        SendExpression::Hold(TriggerKey::Physical(0x1D)),
    ]);
    assert_eq!(
        plan,
        vec![
            SimEvent::KeyDown(0x2A),
            SimEvent::KeyDown(0x1D),
            SimEvent::KeyUp(0x1D),
            SimEvent::KeyUp(0x2A),
        ]
    );
    // a symbolic key resolves through the identity table
    let plan = send_plan(&vec![SendExpression::Key(TriggerKey::Virtual("A".to_string()))]);
    assert_eq!(
        plan,
        vec![SimEvent::KeyDown(0x1E), SimEvent::PauseMs(10), SimEvent::KeyUp(0x1E)]
    );
    // an unresolvable key emits nothing
    let plan = send_plan(&vec![SendExpression::Key(TriggerKey::Virtual("Nope".to_string()))]);
    assert_eq!(plan, Vec::<SimEvent>::new());
}
