use phybkc::ast::{Condition, SendExpression, Statement, TriggerKey};
use phybkc::parser::{parse_block, parse_macro, parse_script, parse_statement, strip_comments};

#[test]
fn test_parse_macro() {
    let input = r#"macro MY_MACRO { Run: "echo"; }"#;
    let (m, _) = parse_macro(input, 0).unwrap();
    assert_eq!(m.name, "MY_MACRO");
}

#[test]
fn test_parse_try_run() {
    let input = r#"TryRun: "calc":FailExecute: "error";"#;
    let (s, _) = parse_statement(input, 0).unwrap();
    match s {
        Statement::TryRun { command, failure } => {
            assert_eq!(command, "calc");
            assert!(failure.is_some());
        }
        _ => panic!("Wrong type"),
    }
}

#[test]
fn test_parse_simple_block() {
    let input = r#"#0x02 { Run: "cmd"; }"#;
    let (b, _) = parse_block(input, 0).unwrap();
    assert_eq!(b.triggers.len(), 1); // 1 combination
    assert_eq!(b.triggers[0].0.len(), 1); // containing 1 key
}

#[test]
fn test_parse_complex_script() {
    let input = r#"
            CLI = "PowerShell";

            macro MY_MACRO {
                Run: "echo macro";
            }

            #0x02 + Code_A {
                TryRun: "calc.exe" :FailExecute: "error.exe";
                wait(100);
                if now_input(#E0/0x10) {
                   Send: String("Pressed") + Code_Enter;
                   MY_MACRO!;
                }
            }
        "#;
    let script = parse_script(input).unwrap();
    assert_eq!(script.macros.len(), 1);
    assert_eq!(script.blocks.len(), 1);

    // Extended key check
    if let Statement::If { condition, .. } = &script.blocks[0].body[2] {
        match condition {
            Condition::NowInput(combos) => match &combos[0].0[0] {
                TriggerKey::ExtendedPhysical(code) => assert_eq!(*code, 0x10),
                _ => panic!("Expected ExtendedPhysical"),
            },
            _ => panic!("Expected NowInput"),
        }
    } else {
        panic!("Expected If statement");
    }
}

#[test]
fn grammar_accepts_each_production() {
    // global setting
    assert!(parse_script(r#"CLI = "sh";"#).is_ok());
    // macro definition
    assert!(parse_script(r#"macro M { Execute: "x"; }"#).is_ok());
    // block with each trigger-key form
    assert!(parse_script(r#"#0x02 { Run: "a"; }"#).is_ok());
    assert!(parse_script(r#"#E0/0x2E { Run: "a"; }"#).is_ok());
    assert!(parse_script(r#"Code_A { Run: "a"; }"#).is_ok());
    assert!(parse_script(r#"Enter { Run: "a"; }"#).is_ok());
    // combination of several keys
    assert!(parse_script(r#"#0x1D + #0x2A + Code_A { Run: "a"; }"#).is_ok());
    // each statement form
    assert!(parse_script(r#"#0x02 { Run: "a"; }"#).is_ok());
    assert!(parse_script(r#"#0x02 { Execute: "a"; }"#).is_ok());
    assert!(parse_script(r#"#0x02 { TryRun: "a" : FailRun: "b"; }"#).is_ok());
    assert!(parse_script(r#"#0x02 { TryExecute: "a" : FailExecute: "b"; }"#).is_ok());
    assert!(parse_script(r#"#0x02 { Send: String("hi") + Code_B; }"#).is_ok());
    assert!(parse_script(r#"#0x02 { wait(100); }"#).is_ok());
    assert!(parse_script(r#"#0x02 { if now_input(Code_A) { Run: "a"; } }"#).is_ok());
    assert!(
        parse_script(
            r#"#0x02 { if now_input(Code_A) { Run: "a"; } elif now_input(Code_B) { Run: "b"; } else { Run: "c"; } }"#
        )
        .is_ok()
    );
    assert!(parse_script(r#"#0x02 { loop 3 { Run: "a"; } }"#).is_ok());
    assert!(parse_script(r#"macro M { Run: "a"; } #0x02 { M!; }"#).is_ok());
    // each condition form
    assert!(parse_script(r#"#0x02 { if wait_input(Code_A) { } }"#).is_ok());
    assert!(parse_script(r#"#0x02 { if wait_input_time(Code_A, 50) { } }"#).is_ok());
    assert!(parse_script(r#"#0x02 { if wait_released(Code_A) { } }"#).is_ok());
    assert!(parse_script(r#"#0x02 { if wait_released_time(Code_A, 50) { } }"#).is_ok());
}

#[test]
fn grammar_rejects_malformed_inputs() {
    // missing semicolon
    assert!(parse_script(r#"CLI = "sh""#).is_err());
    assert!(parse_script(r#"#0x02 { Run: "a" }"#).is_err());
    assert!(parse_script(r#"#0x02 { wait(100) }"#).is_err());
    // missing brace
    assert!(parse_script(r#"#0x02 { Run: "a"; "#).is_err());
    assert!(parse_script(r#"macro M  Run: "a"; }"#).is_err());
    // missing keyword or malformed key
    assert!(parse_script(r#"= "sh";"#).is_err());
    assert!(parse_script(r#"#0xZZ { Run: "a"; }"#).is_err());
    assert!(parse_script(r#"#0x02 { TryRun: "a"; }"#).is_err());
    assert!(parse_script(r#"#0x02 { if { Run: "a"; } }"#).is_err());
    assert!(parse_script(r#"#0x02 { loop { Run: "a"; } }"#).is_err());
    assert!(parse_script(r#"#0x02 { now_input(Code_A); }"#).is_err());
    // a backslash inside a string literal fails the literal
    assert!(parse_script(r#"#0x02 { Run: "a\b"; }"#).is_err());
    // trailing garbage
    assert!(parse_script(r#"#0x02 { Run: "a"; } %"#).is_err());
}

#[test]
fn block_count_equals_top_level_combination_count() {
    let corpus = [
        r#"#0x02 { Run: "a"; }"#,
        r#"#0x1D + Code_A { Run: "a"; } #0x2A + Code_B { Run: "b"; }"#,
        r#"CLI = "sh"; macro M { Run: "m"; } Code_A { M!; } Code_B { M!; } Code_C { M!; }"#,
    ];
    let expected = [1, 2, 3];
    for (text, want) in corpus.iter().zip(expected.iter()) {
        let script = parse_script(text).unwrap();
        assert_eq!(script.blocks.len(), *want);
        let combos: usize = script.blocks.iter().map(|b| b.triggers.len()).sum();
        assert_eq!(combos, *want);
    }
}

#[test]
fn comments_are_invisible() {
    let with_comments = "// greet on Ctrl+G\n#0x1D + Code_G { Send: String(\"hi\") + Enter; } // done\n";
    let stripped = strip_comments(with_comments);
    let a = parse_script(with_comments).unwrap();
    let b = parse_script(stripped.as_str()).unwrap();
    assert_eq!(a.blocks.len(), b.blocks.len());
    assert_eq!(a.blocks[0].triggers[0].0.len(), b.blocks[0].triggers[0].0.len());
    assert_eq!(a.blocks[0].body.len(), b.blocks[0].body.len());
    match (&a.blocks[0].body[0], &b.blocks[0].body[0]) {
        (Statement::Send(xa), Statement::Send(xb)) => {
            assert_eq!(xa.len(), xb.len());
        }
        _ => panic!("expected Send statements"),
    }
    // a comment marker inside a string literal is kept
    let quoted = r#"#0x02 { Run: "http://x"; }"#;
    let script = parse_script(quoted).unwrap();
    match &script.blocks[0].body[0] {
        Statement::Run(cmd) => assert_eq!(cmd, "http://x"),
        _ => panic!("expected Run"),
    }
}

#[test]
fn parse_with_comments_scenario() {
    let input = "// greet on Ctrl+G\n#0x1D + Code_G { Send: String(\"hi\") + Enter; }";
    let script = parse_script(input).unwrap();
    assert_eq!(script.blocks.len(), 1);
    let block = &script.blocks[0];
    assert_eq!(block.triggers.len(), 1);
    assert_eq!(block.triggers[0].0.len(), 2);
    assert_eq!(block.body.len(), 1);
    match &block.body[0] {
        Statement::Send(exprs) => {
            assert_eq!(exprs.len(), 2);
            match &exprs[0] {
                SendExpression::String(text) => assert_eq!(text, "hi"),
                _ => panic!("expected a typed string"),
            }
            match &exprs[1] {
                SendExpression::Key(TriggerKey::Virtual(name)) => assert_eq!(name, "Enter"),
                _ => panic!("expected a key"),
            }
        }
        _ => panic!("expected Send"),
    }
}

#[test]
fn numeric_overflow_reads_as_documented() {
    // a hex code beyond 16 bits reads as zero
    let (b, _) = parse_block("#0x10000 { Run: \"x\"; }", 0).unwrap();
    match &b.triggers[0].0[0] {
        TriggerKey::Physical(code) => assert_eq!(*code, 0),
        _ => panic!("expected Physical"),
    }
    // a wait count beyond u64 reads as zero; a loop count beyond usize as one
    let script = parse_script("#0x02 { wait(99999999999999999999999); }").unwrap();
    match &script.blocks[0].body[0] {
        Statement::Wait(ms) => assert_eq!(*ms, 0),
        _ => panic!("expected Wait"),
    }
    let script = parse_script("#0x02 { loop 99999999999999999999999 { } }").unwrap();
    match &script.blocks[0].body[0] {
        Statement::Loop { count, .. } => assert_eq!(*count, 1),
        _ => panic!("expected Loop"),
    }
}

#[test]
fn parse_error_reports_offset() {
    let err = parse_script(r#"#0x02 { Run: "a"; } %"#).unwrap_err();
    assert!(err.offset <= r#"#0x02 { Run: "a"; } %"#.chars().count());
    assert!(!err.message.is_empty());
}
