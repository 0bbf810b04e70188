use tmux_startup::record::Command;
use tmux_startup::dispatch::{dispatch, create_window_action, Commands, CreateAction, Step};
use tmux_startup::panes::{is_session_listed, pids_for_window};
use tmux_startup::parse::load_config;
use tmux_startup::codec::save_config;

fn tx(s: &str) -> Vec<char> {
    s.chars().collect()
}

fn rec(session: &str, name: &str, command: &str, startup: bool) -> Command {
    Command { session: tx(session), name: tx(name), command: tx(command), startup }
}

#[test]
fn pids_line_contributes_pid() {
    let out = tx("1234 build");
    assert_eq!(pids_for_window(&out, &tx("build")), vec![1234]);
    assert_eq!(pids_for_window(&out, &tx("other")), Vec::<i32>::new());
}

#[test]
fn pids_line_without_space_skipped() {
    let out = tx("nospace\n1234 build\n");
    assert_eq!(pids_for_window(&out, &tx("build")), vec![1234]);
    assert_eq!(pids_for_window(&out, &tx("nospace")), Vec::<i32>::new());
}

#[test]
fn pids_empty_output_empty_set() {
    assert_eq!(pids_for_window(&Vec::new(), &tx("build")), Vec::<i32>::new());
}

#[test]
fn pids_several_lines_in_order() {
    let out = tx("10 build\n20 other\n30 build\n");
    assert_eq!(pids_for_window(&out, &tx("build")), vec![10, 30]);
}

#[test]
fn pids_window_name_may_hold_spaces() {
    let out = tx("7 my win\n");
    assert_eq!(pids_for_window(&out, &tx("my win")), vec![7]);
    assert_eq!(pids_for_window(&out, &tx("my")), Vec::<i32>::new());
}

#[test]
fn pids_bad_number_skipped() {
    let out = tx("12x4 build\n99999999999999999999 build\n-5 build\n");
    assert_eq!(pids_for_window(&out, &tx("build")), vec![-5]);
}

#[test]
fn session_listed_exact_line_match() {
    let out = tx("dev\nwork\n");
    assert!(is_session_listed(&out, &tx("dev")));
    assert!(is_session_listed(&out, &tx("work")));
    assert!(!is_session_listed(&out, &tx("de")));
    assert!(!is_session_listed(&out, &tx("ops")));
}

#[test]
fn session_empty_listing_lists_nothing() {
    assert!(!is_session_listed(&Vec::new(), &Vec::new()));
    assert!(!is_session_listed(&Vec::new(), &tx("dev")));
    // empty segments (after a trailing newline, or between newlines) name no
    // session, so an empty name is never listed
    assert!(!is_session_listed(&tx("dev\n"), &Vec::new()));
    assert!(!is_session_listed(&tx("\n\n"), &Vec::new()));
    assert!(is_session_listed(&tx("dev\n"), &tx("dev")));
}

#[test]
fn create_window_skipped_when_alive() {
    let r = rec("dev", "server", "npm start", true);
    assert_eq!(create_window_action(&r, &vec![42], false), None);
    assert_eq!(create_window_action(&r, &vec![42], true), None);
    // repeating the call with the window still alive is still a no-op
    assert_eq!(create_window_action(&r, &vec![42], true), None);
}

#[test]
fn create_window_new_session_when_absent() {
    let r = rec("dev", "server", "npm start", true);
    let a = create_window_action(&r, &Vec::new(), false);
    assert_eq!(
        a,
        Some(CreateAction::NewSession {
            session: tx("dev"),
            command: tx("npm start"),
            name: tx("server"),
        })
    );
}

#[test]
fn create_window_new_window_when_session_runs() {
    let r = rec("dev", "server", "npm start", true);
    let a = create_window_action(&r, &Vec::new(), true);
    assert_eq!(
        a,
        Some(CreateAction::NewWindow {
            session: tx("dev"),
            name: tx("server"),
            command: tx("npm start"),
        })
    );
}

#[test]
fn scenario_add_to_fresh_config() {
    // missing file: empty text loads as the empty list
    let cfg = load_config(&Vec::new());
    assert!(cfg.is_empty());
    let cmd = Commands::Add { command: rec("dev", "server", "npm start", true), overwrite: false };
    let out = dispatch(&cmd, cfg);
    assert!(out.modified);
    assert!(out.conflict.is_none());
    assert_eq!(out.config.len(), 1);
    assert_eq!(out.config[0], rec("dev", "server", "npm start", true));
    // a mutated config is written back
    let text = save_config(&out.config);
    assert_eq!(load_config(&text), out.config);
}

#[test]
fn scenario_add_duplicate_reports_conflict() {
    let cfg = vec![rec("dev", "server", "npm start", true)];
    let before = cfg.clone();
    let cmd = Commands::Add { command: rec("x", "server", "y", false), overwrite: false };
    let out = dispatch(&cmd, cfg);
    assert!(!out.modified);
    assert_eq!(out.conflict, Some(tx("server")));
    assert_eq!(out.config, before);
}

#[test]
fn scenario_startup_runs_flagged_in_order() {
    let cfg = vec![
        rec("dev", "one", "c1", true),
        rec("dev", "two", "c2", false),
        rec("dev", "three", "c3", true),
    ];
    let out = dispatch(&Commands::Startup, cfg);
    assert!(!out.modified);
    assert_eq!(
        out.steps,
        vec![
            Step::Create(rec("dev", "one", "c1", true)),
            Step::Create(rec("dev", "three", "c3", true)),
        ]
    );
}

#[test]
fn scenario_start_matches_by_name() {
    let cfg = vec![rec("dev", "one", "c1", false), rec("dev", "two", "c2", false)];
    let out = dispatch(&Commands::Start { command: tx("two") }, cfg);
    assert_eq!(out.steps, vec![Step::Create(rec("dev", "two", "c2", false))]);
}

#[test]
fn scenario_overwrite_then_start_creates_once() {
    let cfg = vec![rec("a", "srv", "old", false), rec("b", "other", "c2", true)];
    let cmd = Commands::Add { command: rec("z", "srv", "new", true), overwrite: true };
    let out = dispatch(&cmd, cfg);
    assert!(out.modified);
    let out2 = dispatch(&Commands::Start { command: tx("srv") }, out.config);
    assert_eq!(out2.steps, vec![Step::Create(rec("z", "srv", "new", true))]);
}

#[test]
fn scenario_stop_all_force_closes_each() {
    let cfg = vec![
        rec("dev", "one", "c1", true),
        rec("dev", "two", "c2", false),
        rec("dev", "three", "c3", true),
    ];
    let out = dispatch(&Commands::Stop { all: true, force: true, name: None }, cfg);
    assert!(!out.modified);
    assert_eq!(
        out.steps,
        vec![
            Step::Close(tx("one")),
            Step::Close(tx("two")),
            Step::Close(tx("three")),
        ]
    );
}

#[test]
fn stop_all_graceful_signals_each() {
    let cfg = vec![rec("dev", "one", "c1", true), rec("dev", "two", "c2", false)];
    let out = dispatch(&Commands::Stop { all: false, force: false, name: Some(tx("one")) }, cfg);
    assert_eq!(out.steps, vec![Step::Signal(tx("one"))]);
    let cfg2 = vec![rec("dev", "one", "c1", true), rec("dev", "two", "c2", false)];
    let out2 = dispatch(&Commands::Stop { all: true, force: false, name: None }, cfg2);
    assert_eq!(out2.steps, vec![Step::Signal(tx("one")), Step::Signal(tx("two"))]);
}

#[test]
fn stop_without_target_does_nothing() {
    let cfg = vec![rec("dev", "one", "c1", true)];
    let out = dispatch(&Commands::Stop { all: false, force: false, name: None }, cfg);
    assert!(out.steps.is_empty());
}

#[test]
fn scenario_check_running_prints_only_live() {
    let cfg = vec![
        rec("dev", "server", "npm start", true),
        rec("dev", "worker", "c2", false),
        rec("dev", "db", "c3", false),
    ];
    let out = dispatch(&Commands::CheckRunning { all: true, name: None }, cfg);
    assert_eq!(
        out.steps,
        vec![Step::Check(tx("server")), Step::Check(tx("worker")), Step::Check(tx("db"))]
    );
    // live pids exist only under the window named "server"
    let panes = tx("100 server\n101 server\n");
    let mut printed: Vec<String> = Vec::new();
    for step in &out.steps {
        if let Step::Check(name) = step {
            if !pids_for_window(&panes, name).is_empty() {
                printed.push(name.iter().collect());
            }
        }
    }
    assert_eq!(printed, vec!["server".to_string()]);
}

#[test]
fn scenario_remove_absent_still_marks_modified() {
    let cfg = vec![rec("dev", "one", "c1", true)];
    let before = cfg.clone();
    let out = dispatch(&Commands::Remove { name: tx("missing") }, cfg);
    assert!(out.modified);
    assert_eq!(out.config, before);
}

#[test]
fn list_shows_every_record() {
    let cfg = vec![rec("a", "one", "c1", false), rec("b", "two", "c2", true)];
    let out = dispatch(&Commands::List, cfg);
    assert!(!out.modified);
    assert_eq!(
        out.steps,
        vec![
            Step::Show(rec("a", "one", "c1", false)),
            Step::Show(rec("b", "two", "c2", true)),
        ]
    );
}
