use phybkc::ast::Statement;
use phybkc::config::Profile;
use phybkc::engine::{process_event, HeldSet, HookDecision, KeyEvent};
use phybkc::executor::{Action, BlockRun, Event, Executor, StepResult};
use phybkc::parser::parse_script;
use phybkc::trigger::compile_triggers;

fn empty_profile() -> Profile {
    Profile {
        name: "test".to_string(),
        keyboard: "JIS".to_string(),
        scripts: Vec::new(),
        keys: Vec::new(),
    }
}

fn down(code: u16) -> KeyEvent {
    KeyEvent { scan_code: code, extended: false, injected: false, down: true }
}

fn up(code: u16) -> KeyEvent {
    KeyEvent { scan_code: code, extended: false, injected: false, down: false }
}

fn index_for(source: &str) -> Vec<(Vec<u16>, Vec<Statement>)> {
    let script = parse_script(source).unwrap();
    compile_triggers(&vec![script])
}

/// Steps a fresh machine for the body and collects the commands of
/// fire-and-forget run actions, answering every condition with false.
fn run_commands(executor: &Executor, body: &Vec<Statement>) -> Vec<String> {
    let mut machine: BlockRun = executor.execute_block(body);
    let mut commands = Vec::new();
    let mut fuel = 1000;
    loop {
        fuel -= 1;
        assert!(fuel > 0, "machine did not finish");
        match machine.step() {
            StepResult::Do(Action::RunCmd(c)) => commands.push(c),
            StepResult::Do(Action::EvalCond(_)) => {
                machine.deliver(Event::CondResult(false));
            }
            StepResult::Do(_) => {}
            StepResult::Again => {}
            StepResult::AwaitingEvent => panic!("machine stuck awaiting an event"),
            StepResult::Done => break,
        }
    }
    commands
}

#[test]
fn single_matching_combination_dispatches() {
    let index = index_for(r#"#0x1D + Code_A { Run: "echo hi"; }"#);
    let profile = empty_profile();
    let mut held = HeldSet::new();
    // LeftCtrl goes down: no combination completes on it, nothing is remapped
    match process_event(&mut held, &index, &profile, down(0x1D)) {
        HookDecision::Forward => {}
        _ => panic!("expected Forward for the modifier"),
    }
    assert!(held.contains(0x1D));
    // A goes down: the combination completes and its block dispatches
    match process_event(&mut held, &index, &profile, down(0x1E)) {
        HookDecision::Dispatch(body) => {
            let executor = Executor::new(parse_script("").unwrap());
            assert_eq!(run_commands(&executor, &body), vec!["echo hi".to_string()]);
        }
        _ => panic!("expected Dispatch on the completing key"),
    }
}

#[test]
fn longest_match_wins() {
    let index = index_for(
        r#"#0x1D + Code_A { Run: "short"; } #0x1D + #0x2A + Code_A { Run: "long"; }"#,
    );
    let profile = empty_profile();
    let mut held = HeldSet::new();
    process_event(&mut held, &index, &profile, down(0x1D));
    process_event(&mut held, &index, &profile, down(0x2A));
    match process_event(&mut held, &index, &profile, down(0x1E)) {
        HookDecision::Dispatch(body) => {
            let executor = Executor::new(parse_script("").unwrap());
            assert_eq!(run_commands(&executor, &body), vec!["long".to_string()]);
        }
        _ => panic!("expected Dispatch"),
    }
}

#[test]
fn status_keys_do_not_block_matching() {
    let index = index_for(r#"#0x1D + Code_A { Run: "echo hi"; }"#);
    let profile = empty_profile();
    let mut held = HeldSet::new();
    // CapsLock is held (toggled on) but is a status key
    process_event(&mut held, &index, &profile, down(0x3A));
    process_event(&mut held, &index, &profile, down(0x1D));
    match process_event(&mut held, &index, &profile, down(0x1E)) {
        HookDecision::Dispatch(_) => {}
        _ => panic!("status key in the held set must not block the match"),
    }
}

#[test]
fn non_status_extra_key_blocks_matching() {
    let index = index_for(r#"#0x1D + Code_A { Run: "echo hi"; }"#);
    let profile = empty_profile();
    let mut held = HeldSet::new();
    // B is held and is neither in the combination nor a status key
    process_event(&mut held, &index, &profile, down(0x30));
    process_event(&mut held, &index, &profile, down(0x1D));
    match process_event(&mut held, &index, &profile, down(0x1E)) {
        HookDecision::Forward => {}
        _ => panic!("a non-status extra key must prevent the match"),
    }
}

#[test]
fn injected_events_are_forwarded_untouched() {
    let index = index_for(r#"#0x1D + Code_A { Run: "echo hi"; }"#);
    let profile = empty_profile();
    let mut held = HeldSet::new();
    process_event(&mut held, &index, &profile, down(0x1D));
    let injected = KeyEvent { scan_code: 0x1E, extended: false, injected: true, down: true };
    match process_event(&mut held, &index, &profile, injected) {
        HookDecision::Forward => {}
        _ => panic!("injected events must be forwarded"),
    }
    // the injected event did not enter the held set
    assert!(held.contains(0x1D));
    assert!(!held.contains(0x1E));
}

#[test]
fn static_remap_emits_target_and_suppresses() {
    // CapsLock remapped to LeftCtrl
    let profile = Profile {
        name: "test".to_string(),
        keyboard: "JIS".to_string(),
        scripts: Vec::new(),
        keys: vec![("0x3A".to_string(), "LeftCtrl".to_string())],
    };
    let index: Vec<(Vec<u16>, Vec<Statement>)> = Vec::new();
    let mut held = HeldSet::new();
    match process_event(&mut held, &index, &profile, down(0x3A)) {
        HookDecision::Remap(target) => assert_eq!(target, 0x1D),
        _ => panic!("expected Remap for the remapped key"),
    }
    // the key-up is remapped too
    match process_event(&mut held, &index, &profile, up(0x3A)) {
        HookDecision::Remap(target) => assert_eq!(target, 0x1D),
        _ => panic!("expected Remap for the key-up"),
    }
}

#[test]
fn held_set_tracks_downs_and_ups() {
    let index: Vec<(Vec<u16>, Vec<Statement>)> = Vec::new();
    let profile = empty_profile();
    let mut held = HeldSet::new();
    process_event(&mut held, &index, &profile, down(0x1D));
    assert!(held.contains(0x1D));
    process_event(&mut held, &index, &profile, down(0x1D));
    assert!(held.contains(0x1D));
    process_event(&mut held, &index, &profile, up(0x1D));
    assert!(!held.contains(0x1D));
    // extended keys are canonicalized
    let ext = KeyEvent { scan_code: 0x1D, extended: true, injected: false, down: true };
    process_event(&mut held, &index, &profile, ext);
    assert!(held.contains(0xE01D));
    assert!(!held.contains(0x1D));
}
