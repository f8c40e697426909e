use keepc::error::KeepError;
use keepc::search::search_logic;
use keepc::select::{command_to_execute, delete_command, select, Selection};
use keepc::store::{new_command, CommandStore};

fn sample() -> CommandStore {
    let mut s = CommandStore::new();
    s.insert("ls -la".to_string(), "list files".to_string());
    s.insert("git status".to_string(), "repo state".to_string());
    s
}

fn strings(v: &[&str]) -> Vec<String> {
    v.iter().map(|x| x.to_string()).collect()
}

#[test]
fn search_git_finds_git_status() {
    let s = sample();
    assert_eq!(search_logic("git".to_string(), &s), strings(&["git status"]));
    assert_eq!(search_logic("status".to_string(), &s), strings(&["git status"]));
}

#[test]
fn search_ignores_case() {
    let s = sample();
    assert_eq!(search_logic("GIT".to_string(), &s), strings(&["git status"]));
    assert_eq!(search_logic("Files".to_string(), &s), strings(&["ls -la"]));
    let mut t = CommandStore::new();
    t.insert("Docker PS".to_string(), "Running Containers".to_string());
    assert_eq!(search_logic("docker containers".to_string(), &t), strings(&["Docker PS"]));
}

#[test]
fn search_matches_description() {
    let s = sample();
    assert_eq!(search_logic("repo".to_string(), &s), strings(&["git status"]));
}

#[test]
fn search_needs_every_keyword() {
    let s = sample();
    assert_eq!(search_logic("git repo".to_string(), &s), strings(&["git status"]));
    assert_eq!(search_logic("  git \t state ".to_string(), &s), strings(&["git status"]));
    assert!(search_logic("git files".to_string(), &s).is_empty());
    assert!(search_logic("nothing".to_string(), &s).is_empty());
}

#[test]
fn search_keyword_in_either_field() {
    let s = sample();
    // "git" hits the command text, "state" hits the description.
    assert_eq!(search_logic("state git".to_string(), &s), strings(&["git status"]));
    // "s" hits both command texts.
    assert_eq!(search_logic("s".to_string(), &s), strings(&["ls -la", "git status"]));
}

#[test]
fn blank_pattern_matches_nothing() {
    let s = sample();
    assert!(search_logic("".to_string(), &s).is_empty());
    assert!(search_logic("   \t\n".to_string(), &s).is_empty());
}

#[test]
fn select_empty_is_nothing_to_select() {
    let m: Vec<String> = Vec::new();
    assert_eq!(select(&m, "1"), Selection::NothingToSelect);
    assert_eq!(select(&m, ""), Selection::NothingToSelect);
}

#[test]
fn select_valid_numbers() {
    let m = strings(&["a", "b", "c"]);
    assert_eq!(select(&m, "1"), Selection::Selected("a".to_string()));
    assert_eq!(select(&m, "3"), Selection::Selected("c".to_string()));
    assert_eq!(select(&m, " 2 \n"), Selection::Selected("b".to_string()));
    assert_eq!(select(&m, "+2"), Selection::Selected("b".to_string()));
}

#[test]
fn select_invalid_answers() {
    let m = strings(&["a", "b"]);
    assert_eq!(select(&m, "0"), Selection::NoSelection);
    assert_eq!(select(&m, "abc"), Selection::NoSelection);
    assert_eq!(select(&m, "3"), Selection::NoSelection);
    assert_eq!(select(&m, "-1"), Selection::NoSelection);
    assert_eq!(select(&m, ""), Selection::NoSelection);
    assert_eq!(select(&m, "99999999999999999999999"), Selection::NoSelection);
}

#[test]
fn delete_second_of_two_matches() {
    let mut s = sample();
    let r = delete_command(&mut s, "s".to_string(), "2\n");
    assert_eq!(r, Selection::Selected("git status".to_string()));
    assert_eq!(s.len(), 1);
    assert_eq!(s.get(&"ls -la".to_string()), Some(&"list files".to_string()));
    assert_eq!(s.get(&"git status".to_string()), None);
}

#[test]
fn delete_with_invalid_answer_keeps_store() {
    for answer in ["0", "abc", "3"] {
        let mut s = sample();
        assert_eq!(delete_command(&mut s, "s".to_string(), answer), Selection::NoSelection);
        assert_eq!(s.len(), 2);
    }
    let mut s = sample();
    assert_eq!(delete_command(&mut s, "zzz".to_string(), "1"), Selection::NothingToSelect);
    assert_eq!(s.len(), 2);
}

#[test]
fn execute_picks_chosen_match() {
    let s = sample();
    assert_eq!(
        command_to_execute(&s, "git".to_string(), "1"),
        Selection::Selected("git status".to_string())
    );
    assert_eq!(command_to_execute(&s, "git".to_string(), "2"), Selection::NoSelection);
    assert_eq!(command_to_execute(&s, "nope".to_string(), "1"), Selection::NothingToSelect);
}

#[test]
fn new_command_refuses_empty_text() {
    let mut s = sample();
    assert_eq!(new_command(&mut s, String::new(), "x".to_string()), Err(KeepError::EmptyCommandText));
    assert_eq!(s.len(), 2);
    assert_eq!(new_command(&mut s, "echo hi".to_string(), String::new()), Ok(()));
    assert_eq!(s.get(&"echo hi".to_string()), Some(&String::new()));
}

#[test]
fn insert_twice_keeps_latest_description() {
    let mut s = sample();
    s.insert("make".to_string(), "first".to_string());
    s.insert("make".to_string(), "second".to_string());
    assert_eq!(s.len(), 3);
    assert_eq!(s.get(&"make".to_string()), Some(&"second".to_string()));
    let n = s.entries().iter().filter(|e| e.0 == "make").count();
    assert_eq!(n, 1);
}

#[test]
fn remove_reports_presence() {
    let mut s = sample();
    assert!(s.remove(&"ls -la".to_string()));
    assert!(!s.remove(&"ls -la".to_string()));
    assert_eq!(s.len(), 1);
}

#[test]
fn load_absent_file_is_empty() {
    match CommandStore::load(None) {
        Ok(s) => assert!(s.is_empty()),
        Err(_) => panic!("an absent file is the empty store"),
    }
}

#[test]
fn load_invalid_json_is_corrupt() {
    assert!(matches!(CommandStore::load(Some("not json {")), Err(KeepError::StoreCorrupt)));
    assert!(matches!(CommandStore::load(Some("{}")), Err(KeepError::StoreCorrupt)));
    assert!(matches!(CommandStore::load(Some("{\"commands\": [1]}")), Err(KeepError::StoreCorrupt)));
    assert!(matches!(CommandStore::load(Some("")), Err(KeepError::StoreCorrupt)));
}

#[test]
fn load_reads_commands_object() {
    let s = CommandStore::load(Some("{\"commands\": {\"ls\": \"list\", \"pwd\": \"\"}}")).ok().unwrap();
    assert_eq!(s.len(), 2);
    assert_eq!(s.get(&"ls".to_string()), Some(&"list".to_string()));
    assert_eq!(s.get(&"pwd".to_string()), Some(&String::new()));
}

#[test]
fn save_empty_store_text() {
    assert_eq!(CommandStore::new().save(), "{\n  \"commands\": {}\n}");
}

#[test]
fn save_text_is_pretty_json() {
    let mut s = CommandStore::new();
    s.insert("a".to_string(), "b".to_string());
    s.insert("say \"hi\"".to_string(), "back\\slash".to_string());
    assert_eq!(
        s.save(),
        "{\n  \"commands\": {\n    \"a\": \"b\",\n    \"say \\\"hi\\\"\": \"back\\\\slash\"\n  }\n}"
    );
}

#[test]
fn save_then_load_round_trips() {
    let pairs = [
        ("ls -la", "list files"),
        ("echo \"a:b\" | tr ':' ' '", ""),
        ("grep -r 'héllo' ./ünïcode", "find «greetings» — 日本語"),
        ("printf 'x\\ty\\n'", "tab\tand\nnewline"),
        ("cmd:::odd", "{ \"json\": [1, 2] }"),
    ];
    let mut s = CommandStore::new();
    for (c, d) in pairs.iter() {
        s.insert(c.to_string(), d.to_string());
    }
    let text = s.save();
    let back = CommandStore::load(Some(&text)).ok().unwrap();
    assert_eq!(back.len(), pairs.len());
    for (c, d) in pairs.iter() {
        assert_eq!(back.get(&c.to_string()), Some(&d.to_string()));
    }
}

#[test]
fn save_twice_loads_equal() {
    let s = sample();
    let a = s.save();
    let b = s.save();
    assert_eq!(a, b);
    let la = CommandStore::load(Some(&a)).ok().unwrap();
    let lb = CommandStore::load(Some(&b)).ok().unwrap();
    assert_eq!(la.entries(), lb.entries());
}

#[test]
fn edit_text_lists_entries() {
    let s = sample();
    assert_eq!(s.edit_text(), "ls -la:::list files\ngit status:::repo state\n");
}

#[test]
fn from_edited_parses_lines() {
    let text = "  ls -la ::: list files \r\nbroken line\ngit status:::repo:::state\n\nls -la:::again";
    let s = CommandStore::from_edited(text);
    assert_eq!(s.len(), 2);
    assert_eq!(s.get(&"ls -la".to_string()), Some(&"again".to_string()));
    assert_eq!(s.get(&"git status".to_string()), Some(&"repo:::state".to_string()));
    assert_eq!(s.entries()[0].0, "ls -la");
}

#[test]
fn edit_round_trip() {
    let s = sample();
    let t = CommandStore::from_edited(&s.edit_text());
    assert_eq!(t.entries(), s.entries());
}

#[test]
fn search_splits_on_unicode_whitespace() {
    let s = sample();
    assert_eq!(search_logic("git\u{3000}repo".to_string(), &s), strings(&["git status"]));
    assert!(search_logic("gitrepo".to_string(), &s).is_empty());
}

#[test]
fn search_folds_non_ascii_case() {
    let mut s = CommandStore::new();
    s.insert("echo ÉTÉ".to_string(), "Saison".to_string());
    assert_eq!(search_logic("été saison".to_string(), &s), strings(&["echo ÉTÉ"]));
}
