use tmux_startup::record::Command;
use tmux_startup::codec::save_config;
use tmux_startup::parse::{load_config, parse_config};
use tmux_startup::store::{add, find_by_name, remove};
use tmux_startup::paths::{config_file_path, resolve_config_dir};

fn tx(s: &str) -> Vec<char> {
    s.chars().collect()
}

fn txt(v: &[char]) -> String {
    v.iter().collect()
}

fn rec(session: &str, name: &str, command: &str, startup: bool) -> Command {
    Command { session: tx(session), name: tx(name), command: tx(command), startup }
}

#[test]
fn roundtrip_empty_list() {
    let cfg: Vec<Command> = Vec::new();
    let text = save_config(&cfg);
    assert_eq!(txt(&text), "[]");
    let back = load_config(&text);
    assert_eq!(back, cfg);
}

#[test]
fn roundtrip_two_records() {
    let cfg = vec![
        rec("dev", "server", "npm start", true),
        rec("dev", "worker", "cargo run -- --job x", false),
    ];
    let text = save_config(&cfg);
    let back = load_config(&text);
    assert_eq!(back, cfg);
}

#[test]
fn roundtrip_special_characters() {
    let cfg = vec![rec(
        "s\"x",
        "a\\b\nc\td\re",
        "echo \"hi\" \u{1}\u{1f}",
        true,
    )];
    let text = save_config(&cfg);
    let back = load_config(&text);
    assert_eq!(back, cfg);
}

#[test]
fn save_exact_format() {
    let cfg = vec![rec("dev", "server", "npm start", true)];
    let text = save_config(&cfg);
    let expected = "[\n  {\n    \"session\": \"dev\",\n    \"name\": \"server\",\n    \"command\": \"npm start\",\n    \"startup\": true\n  }\n]";
    assert_eq!(txt(&text), expected);
}

#[test]
fn save_escapes_specials() {
    let cfg = vec![rec("s", "a\"b\\c\nd", "x", false)];
    let text = txt(&save_config(&cfg));
    assert!(text.contains("a\\\"b\\\\c\\nd"));
    assert!(text.contains("\"startup\": false"));
}

#[test]
fn parse_accepts_extra_whitespace() {
    let text = tx(
        "  [ \n {\n\"session\" : \"dev\" , \"name\"\t: \"srv\", \"command\": \"run\", \"startup\": false } ]  \n",
    );
    let parsed = parse_config(&text).expect("should parse");
    assert_eq!(parsed, vec![rec("dev", "srv", "run", false)]);
}

#[test]
fn parse_unicode_escape() {
    let text = tx("[{\"session\": \"s\", \"name\": \"n\\u0007x\", \"command\": \"c\", \"startup\": true}]");
    let parsed = parse_config(&text).expect("should parse");
    assert_eq!(parsed[0].name, tx("n\u{7}x"));
}

#[test]
fn load_empty_text_gives_empty_list() {
    assert_eq!(load_config(&Vec::new()), Vec::new());
}

#[test]
fn load_garbage_gives_empty_list() {
    assert_eq!(load_config(&tx("not json at all")), Vec::new());
    assert_eq!(load_config(&tx("[{\"session\": \"x\"}]")), Vec::new());
    assert_eq!(load_config(&tx("[")), Vec::new());
}

#[test]
fn load_out_of_order_fields_gives_empty_list() {
    // fields must come in the order the writer uses; anything else counts as
    // a corrupt file and loads as empty
    let text = tx(
        "[{\"name\": \"srv\", \"session\": \"dev\", \"command\": \"run\", \"startup\": false}]",
    );
    assert_eq!(load_config(&text), Vec::new());
}

#[test]
fn load_rejects_trailing_content() {
    assert_eq!(load_config(&tx("[] trailing")), Vec::new());
}

#[test]
fn add_appends_new_record() {
    let mut cfg: Vec<Command> = Vec::new();
    let ok = add(&mut cfg, rec("dev", "server", "npm start", true), false);
    assert!(ok);
    assert_eq!(cfg.len(), 1);
    assert_eq!(cfg[0], rec("dev", "server", "npm start", true));
}

#[test]
fn add_duplicate_without_overwrite_rejected() {
    let mut cfg: Vec<Command> = Vec::new();
    assert!(add(&mut cfg, rec("dev", "server", "npm start", true), false));
    let before = cfg.clone();
    let ok = add(&mut cfg, rec("other", "server", "something", false), false);
    assert!(!ok);
    assert_eq!(cfg, before);
}

#[test]
fn add_overwrite_replaces_in_place() {
    let mut cfg = vec![
        rec("a", "one", "c1", false),
        rec("b", "two", "c2", true),
        rec("c", "three", "c3", false),
    ];
    let ok = add(&mut cfg, rec("z", "two", "c9", false), true);
    assert!(ok);
    assert_eq!(cfg.len(), 3);
    assert_eq!(cfg[0], rec("a", "one", "c1", false));
    assert_eq!(cfg[1], rec("z", "two", "c9", false));
    assert_eq!(cfg[2], rec("c", "three", "c3", false));
}

#[test]
fn remove_deletes_all_matching() {
    let mut cfg = vec![
        rec("a", "one", "c1", false),
        rec("b", "two", "c2", true),
        rec("c", "one", "c3", false),
    ];
    remove(&mut cfg, &tx("one"));
    assert_eq!(cfg, vec![rec("b", "two", "c2", true)]);
}

#[test]
fn remove_absent_name_keeps_content() {
    let mut cfg = vec![rec("a", "one", "c1", false)];
    let before = cfg.clone();
    remove(&mut cfg, &tx("missing"));
    assert_eq!(cfg, before);
}

#[test]
fn find_by_name_first_match() {
    let cfg = vec![
        rec("a", "one", "c1", false),
        rec("b", "two", "c2", true),
        rec("c", "two", "c3", false),
    ];
    assert_eq!(find_by_name(&cfg, &tx("two")), Some(1));
    assert_eq!(find_by_name(&cfg, &tx("missing")), None);
}

#[test]
fn resolve_dir_priority_order() {
    let o = Some(tx("/override"));
    let x = Some(tx("/xdg"));
    let h = Some(tx("/home/u"));
    assert_eq!(resolve_config_dir(&o, &x, &h), Some(tx("/override")));
    assert_eq!(resolve_config_dir(&None, &x, &h), Some(tx("/xdg/tmux_startup")));
    assert_eq!(
        resolve_config_dir(&None, &None, &h),
        Some(tx("/home/u/.config/tmux_startup"))
    );
    assert_eq!(resolve_config_dir(&None, &None, &None), None);
}

#[test]
fn config_file_path_appends_file_name() {
    assert_eq!(txt(&config_file_path(&tx("/d"))), "/d/tmux_startup.json");
}
