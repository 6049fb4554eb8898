use rust_runtime::debugger::{DebugReply, Debugger};
use rust_runtime::parser::parse;
use rust_runtime::runtime::{Action, Runtime};
use rust_runtime::table::Table;

fn variables() -> Table<String> {
    let mut t = Table::new();
    t.insert("x".to_string(), "1".to_string());
    t.insert("name".to_string(), "a b".to_string());
    t
}

#[test]
fn new_debugger_is_off() {
    let d = Debugger::new();
    assert!(!d.enable);
    assert!(d.breakpoints.is_empty());
    assert_eq!(d.current_line, 0);
}

#[test]
fn command_next() {
    let mut d = Debugger::new();
    d.enable = true;
    assert_eq!(d.command(&variables(), "n"), DebugReply::Next);
    assert_eq!(d.command(&variables(), "  n  \n"), DebugReply::Next);
    assert_eq!(d.command(&variables(), "n more"), DebugReply::Next);
    assert!(d.enable);
}

#[test]
fn command_continue_switches_stepping_off() {
    let mut d = Debugger::new();
    d.enable = true;
    d.breakpoints.push(3);
    d.current_line = 2;
    assert_eq!(d.command(&variables(), "c\n"), DebugReply::Continue);
    assert!(!d.enable);
    assert_eq!(d.breakpoints, vec![3]);
    assert_eq!(d.current_line, 2);
}

#[test]
fn command_print() {
    let mut d = Debugger::new();
    d.enable = true;
    assert_eq!(
        d.command(&variables(), "p x"),
        DebugReply::Show("x".to_string(), "1".to_string())
    );
    assert_eq!(
        d.command(&variables(), " p   name extra\n"),
        DebugReply::Show("name".to_string(), "a b".to_string())
    );
    assert_eq!(d.command(&variables(), "p y"), DebugReply::Unbound("y".to_string()));
    assert_eq!(d.command(&variables(), "p"), DebugReply::Usage);
    assert_eq!(d.command(&variables(), "p \n"), DebugReply::Usage);
    assert!(d.enable);
}

#[test]
fn command_unknown() {
    let mut d = Debugger::new();
    d.enable = true;
    assert_eq!(d.command(&variables(), ""), DebugReply::Unknown);
    assert_eq!(d.command(&variables(), "   "), DebugReply::Unknown);
    assert_eq!(d.command(&variables(), "next"), DebugReply::Unknown);
    assert_eq!(d.command(&variables(), "px"), DebugReply::Unknown);
    assert_eq!(d.command(&variables(), "N"), DebugReply::Unknown);
    assert!(d.enable);
}

#[test]
fn runtime_debug_command_reads_the_active_mapping() {
    let mut runtime = Runtime::new();
    runtime.set_debugging(true);
    let mut action = runtime.run(parse("let x = 5\nlet y = 6", "t").unwrap());
    let mut announced = 0;
    loop {
        match action {
            Action::Step => {
                announced += 1;
                if announced == 2 {
                    break;
                }
            }
            Action::Done => break,
            _ => {}
        }
        action = runtime.step();
    }
    assert_eq!(announced, 2);
    assert_eq!(
        runtime.debug_command("p x"),
        DebugReply::Show("x".to_string(), "5".to_string())
    );
    assert_eq!(runtime.debug_command("p y"), DebugReply::Unbound("y".to_string()));
    assert!(runtime.debugging());
    assert_eq!(runtime.debug_command("c"), DebugReply::Continue);
    assert!(!runtime.debugging());
    assert_eq!(runtime.variable("x"), Some("5".to_string()));
}
