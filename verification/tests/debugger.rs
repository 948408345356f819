use anvomidav::debug::{parse_usize, DebugAction, Debugger};

#[test]
fn breakpoints_stay_sorted_and_unique() {
    let mut d = Debugger::new();
    let (out, action) = d.handle_command("break 10");
    assert_eq!(out, vec!["Breakpoint 1 set at line 10".to_string()]);
    assert_eq!(action, DebugAction::Continue);
    d.handle_command("b 3");
    let (out, _) = d.handle_command("break 10");
    assert_eq!(out, vec!["Breakpoint already exists at line 10".to_string()]);
    let (out, _) = d.handle_command("bp");
    assert_eq!(out, vec!["Breakpoints:".to_string(), "  1 - line 3".to_string(), "  2 - line 10".to_string()]);
    let (out, _) = d.handle_command("delete 1");
    assert_eq!(out, vec!["Breakpoint 1 at line 3 deleted".to_string()]);
    let (out, _) = d.handle_command("delete 7");
    assert_eq!(out, vec!["Invalid breakpoint number: 7".to_string()]);
    let (out, _) = d.handle_command("break x");
    assert_eq!(out, vec!["Invalid line number".to_string()]);
}

#[test]
fn load_list_and_quit() {
    let mut d = Debugger::new();
    let (out, _) = d.handle_command("run");
    assert_eq!(out, vec!["No file loaded. Use 'load <file>' first".to_string()]);
    let (_, action) = d.handle_command("load prog.anv");
    assert_eq!(action, DebugAction::Load("prog.anv".to_string()));
    assert_eq!(d.loaded("prog.anv".to_string(), "a\nb".to_string()), "Loaded: prog.anv");
    d.handle_command("break 2");
    let (out, _) = d.handle_command("list");
    assert_eq!(out, vec![
        "Source: prog.anv".to_string(),
        "---".to_string(),
        "    1 | a".to_string(),
        "*   2 | b".to_string(),
        "---".to_string(),
    ]);
    let (out, _) = d.handle_command("info");
    assert_eq!(out[1], "  Loaded file: prog.anv");
    assert_eq!(out[3], "  Breakpoints: 1");
    let (out, _) = d.handle_command("frobnicate now");
    assert_eq!(out, vec!["Unknown command: frobnicate. Type 'help' for available commands.".to_string()]);
    let (out, action) = d.handle_command("quit");
    assert_eq!(out, vec!["Exiting debugger".to_string()]);
    assert_eq!(action, DebugAction::Exit);
    let (out, action) = d.handle_command("   ");
    assert!(out.is_empty());
    assert_eq!(action, DebugAction::Continue);
}

#[test]
fn usize_parsing_follows_std() {
    for s in ["0", "+7", "42", "18446744073709551615", "", "+", "-1", "1a", "18446744073709551616"] {
        assert_eq!(parse_usize(s), s.parse::<usize>().ok(), "{}", s);
    }
}

#[test]
fn deleting_a_new_breakpoint_restores_the_list() {
    let mut d = Debugger::new();
    d.handle_command("break 10");
    d.handle_command("break 3");
    let (before, _) = d.handle_command("bp");
    let (out, _) = d.handle_command("break 7");
    assert_eq!(out, vec!["Breakpoint 3 set at line 7".to_string()]);
    let (listed, _) = d.handle_command("bp");
    assert_eq!(listed[2], "  2 - line 7");
    let (out, _) = d.handle_command("delete 2");
    assert_eq!(out, vec!["Breakpoint 2 at line 7 deleted".to_string()]);
    let (after, _) = d.handle_command("bp");
    assert_eq!(after, before);
}
