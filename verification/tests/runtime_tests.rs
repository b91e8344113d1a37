use phybkc::ast::Statement;
use phybkc::config::{Config, DefaultProfile, Profile};
use phybkc::dashboard::{DashboardView, PhybkcApp};
use phybkc::engine::{process_event, HeldSet, HookDecision, KeyEvent};
use phybkc::executor::{Action, Executor, StepResult};
use phybkc::parser::parse_script;
use phybkc::ast::{Condition, TriggerCombinations, TriggerKey};
use phybkc::engine::evaluate_now_input;
use phybkc::runtime::{build_runtime_parts, tray_action_for_menu_id, RuntimeState, TrayAction};
use phybkc::trigger::{compile_triggers, resolve_trigger_key};

fn sample_config() -> Config {
    Config {
        profiles: vec![
            ("profileA".to_string(), "C:/User/phybkc/profiles/profileA.json".to_string()),
        ],
        default_profile: DefaultProfile { default: "profileA".to_string() },
        global_scripts: vec![
            ("scriptA".to_string(), "C:/User/phybkc/scripts/scriptA.phybkc".to_string()),
        ],
    }
}

fn sample_profile() -> Profile {
    Profile {
        name: "profileA".to_string(),
        keyboard: "JIS".to_string(),
        scripts: vec!["C:/User/phybkc/scripts/scriptA.phybkc".to_string()],
        keys: vec![("0x1E".to_string(), "A".to_string()), ("0x30".to_string(), "B".to_string())],
    }
}

#[test]
fn config_lookups() {
    let config = sample_config();
    assert_eq!(
        config.default_profile_path().as_deref(),
        Some("C:/User/phybkc/profiles/profileA.json")
    );
    assert_eq!(
        config.profile_path("profileA").as_deref(),
        Some("C:/User/phybkc/profiles/profileA.json")
    );
    assert_eq!(config.profile_path("other"), None);
    assert_eq!(config.default_profile.default, "profileA");
}

#[test]
fn profile_remap_lookup() {
    let profile = sample_profile();
    assert_eq!(profile.remap_target(0x1E), Some(0x1E));
    assert_eq!(profile.keys[0].0, "0x1E");
    assert_eq!(profile.name, "profileA");
    assert_eq!(profile.keyboard, "JIS");
    assert_eq!(profile.remap_target(0x3A), None);
}

#[test]
fn trigger_key_resolution() {
    assert_eq!(resolve_trigger_key(&TriggerKey::Physical(0x2E)), Some(0x2E));
    assert_eq!(resolve_trigger_key(&TriggerKey::ExtendedPhysical(0x2E)), Some(0xE02E));
    assert_eq!(resolve_trigger_key(&TriggerKey::Virtual("A".to_string())), Some(0x1E));
    assert_eq!(resolve_trigger_key(&TriggerKey::Virtual("0x79".to_string())), Some(0x79));
    assert_eq!(resolve_trigger_key(&TriggerKey::Virtual("Nope".to_string())), None);
}

#[test]
fn unresolvable_combination_is_dropped() {
    let script = parse_script(r#"Nope + Code_A { Run: "a"; } #0x1D { Run: "b"; }"#).unwrap();
    let index = compile_triggers(&vec![script]);
    assert_eq!(index.len(), 1);
    assert_eq!(index[0].0, vec![0x1D]);
}

#[test]
fn tray_menu_identifiers_decode() {
    assert!(matches!(tray_action_for_menu_id("quit"), TrayAction::Quit));
    assert!(matches!(tray_action_for_menu_id("reload"), TrayAction::Reload));
    match tray_action_for_menu_id("profile:work") {
        TrayAction::SwitchProfile(name) => assert_eq!(name, "work"),
        _ => panic!("expected a profile switch"),
    }
    assert!(matches!(tray_action_for_menu_id("unknown"), TrayAction::Nothing));
    assert!(matches!(tray_action_for_menu_id(""), TrayAction::Nothing));
}

#[test]
fn reload_preserves_held_set() {
    // the user presses and holds LeftCtrl under a profile with no triggers
    let mut rt = RuntimeState {
        held: HeldSet::new(),
        profile: sample_profile(),
        triggers: Vec::new(),
        executor: Executor::new(parse_script("").unwrap()),
    };
    let ctrl = KeyEvent { scan_code: 0x1D, extended: false, injected: false, down: true };
    process_event(&mut rt.held, &rt.triggers, &rt.profile, ctrl);
    assert!(rt.held.contains(0x1D));

    // the profile is reloaded with a trigger for Ctrl+A
    let script = parse_script(r#"#0x1D + Code_A { Run: "echo hi"; }"#).unwrap();
    let fresh = build_runtime_parts(sample_profile(), &vec![script]);
    rt.apply_reload(fresh);
    assert!(rt.held.contains(0x1D));

    // pressing A now completes the combination: LeftCtrl stayed held
    let a = KeyEvent { scan_code: 0x1E, extended: false, injected: false, down: true };
    match process_event(&mut rt.held, &rt.triggers, &rt.profile, a) {
        HookDecision::Dispatch(body) => {
            let mut machine = rt.executor.execute_block(&body);
            loop {
                match machine.step() {
                    StepResult::Do(Action::RunCmd(c)) => {
                        assert_eq!(c, "echo hi");
                        break;
                    }
                    StepResult::Again => {}
                    _ => panic!("expected the block's command"),
                }
            }
        }
        _ => panic!("the new trigger must fire against the preserved held set"),
    }
}

#[test]
fn merged_macros_let_later_scripts_win() {
    let s1 = parse_script(r#"macro M { Run: "one"; }"#).unwrap();
    let s2 = parse_script(r#"macro M { Run: "two"; }"#).unwrap();
    let parts = build_runtime_parts(sample_profile(), &vec![s1, s2]);
    let body = vec![Statement::MacroCall("M".to_string())];
    let mut machine = parts.executor.execute_block(&body);
    assert!(matches!(machine.step(), StepResult::Again));
    match machine.step() {
        StepResult::Do(Action::RunCmd(c)) => assert_eq!(c, "two"),
        _ => panic!("expected the later definition"),
    }
}

#[test]
fn dashboard_edits_profile_and_index() {
    let mut app = PhybkcApp::new(Some(sample_config()));
    assert!(matches!(app.selected_view, DashboardView::Profiles));
    assert_eq!(
        app.load_default_profile().as_deref(),
        Some("C:/User/phybkc/profiles/profileA.json")
    );
    app.set_current_profile(Some(sample_profile()));

    // adding a script appends it and hands back the save path
    app.new_script_path = "scripts/extra.phybkc".to_string();
    let save = app.add_script_to_profile("scripts/extra.phybkc");
    assert_eq!(save.as_deref(), Some("C:/User/phybkc/profiles/profileA.json"));
    let profile = app.current_profile.as_ref().unwrap();
    assert_eq!(profile.scripts.len(), 2);
    assert_eq!(profile.scripts[1], "scripts/extra.phybkc");
    assert_eq!(app.new_script_path, "");

    // an empty path changes nothing
    assert!(app.add_script_to_profile("").is_none());
    assert_eq!(app.current_profile.as_ref().unwrap().scripts.len(), 2);

    // removing by index undoes the addition
    let save = app.remove_script_from_profile(1);
    assert_eq!(save.as_deref(), Some("C:/User/phybkc/profiles/profileA.json"));
    assert_eq!(app.current_profile.as_ref().unwrap().scripts.len(), 1);
    assert!(app.remove_script_from_profile(7).is_none());

    // switching the default profile touches only the index
    assert!(app.set_default_profile("other"));
    assert_eq!(app.config.as_ref().unwrap().default_profile.default, "other");
}

#[test]
fn now_input_condition_reads_held_set() {
    let mut held = HeldSet::new();
    held.insert(0x1E);
    let cond = Condition::NowInput(vec![TriggerCombinations(vec![TriggerKey::Virtual(
        "A".to_string(),
    )])]);
    assert!(evaluate_now_input(&cond, &held));
    let other = Condition::NowInput(vec![TriggerCombinations(vec![TriggerKey::Physical(0x30)])]);
    assert!(!evaluate_now_input(&other, &held));
    // the waiting condition forms read as false until given a meaning
    let waiting = Condition::WaitInput(vec![TriggerCombinations(vec![TriggerKey::Physical(
        0x1E,
    )])]);
    assert!(!evaluate_now_input(&waiting, &held));
}
