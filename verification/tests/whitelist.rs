use busy_term::text::{program_name, trim};
use busy_term::whitelist::{Edit, Whitelist};

fn empty_list() -> Whitelist {
    Whitelist::load("/tmp/busy-term-test/whitelist.json".to_string(), None)
}

#[test]
fn program_name_strips_args_and_path() {
    assert_eq!(program_name("npm run build"), "npm");
    assert_eq!(program_name("/opt/homebrew/bin/uv run main.py"), "uv");
    assert_eq!(program_name("ls"), "ls");
    assert_eq!(program_name(""), "");
    // A known limit of matching on the first word: an environment prefix
    // counts as the program name.
    assert_eq!(program_name("FOO=1 npm test"), "FOO=1");
}

#[test]
fn hides_matches_on_program_only() {
    let mut list = empty_list();
    list.add("npm".into()).unwrap();

    assert!(list.hides("npm run build"));
    assert!(list.hides("npm"));
    // Only the program name counts: npm among the arguments hides nothing.
    assert!(!list.hides("echo npm"));
    assert!(!list.hides("npmx run"));

    list.remove("npm").unwrap();
    assert!(!list.hides("npm run build"));
}

#[test]
fn add_normalizes_path_prefixed_input() {
    let mut list = empty_list();

    // A path typed by hand in the settings must hide the program too.
    list.add("./dev.sh".into()).unwrap();
    assert_eq!(list.list(), vec!["dev.sh".to_string()]);
    assert!(list.hides("./dev.sh"));
    assert!(list.hides("dev.sh --port 3000"));
    assert!(list.hides("/Users/me/proj/dev.sh"));
}

#[test]
fn program_name_skips_unicode_whitespace_and_trailing_slash() {
    assert_eq!(program_name("  \t cargo build"), "cargo");
    assert_eq!(program_name("\u{3000}vim\u{a0}file"), "vim");
    assert_eq!(program_name("   "), "");
    assert_eq!(program_name("dir/"), "");
    assert_eq!(program_name("a/b/c"), "c");
}

#[test]
fn program_name_is_idempotent() {
    for s in ["npm run build", "/usr/bin/env python3 x.py", "  ./dev.sh --port 1", ""] {
        let once = program_name(s);
        assert_eq!(program_name(once), once);
    }
}

#[test]
fn trim_strips_both_ends() {
    assert_eq!(trim("  npm \n"), "npm");
    assert_eq!(trim("\u{2003}a b\u{3000}"), "a b");
    assert_eq!(trim(" \t "), "");
}

#[test]
fn add_refuses_empty_entries() {
    let mut list = empty_list();
    match list.add("   ".into()) {
        Err(m) => assert_eq!(m, "白名单项不能为空"),
        Ok(_) => panic!("an empty entry must be refused"),
    }
    assert!(list.add("/usr/bin/".into()).is_err());
    assert!(list.list().is_empty());
}

#[test]
fn add_keeps_entries_sorted_and_asks_to_save() {
    let mut list = empty_list();
    list.add("zsh".into()).unwrap();
    list.add("vim".into()).unwrap();
    let edit = list.add(" /usr/bin/cargo build ".into()).unwrap();
    match edit {
        Edit::Changed(request) => {
            assert_eq!(request.path, "/tmp/busy-term-test/whitelist.json");
            assert_eq!(request.entries, vec!["cargo", "vim", "zsh"]);
            let parsed: Vec<String> = serde_json::from_str(&request.contents).unwrap();
            assert_eq!(parsed, vec!["cargo", "vim", "zsh"]);
            assert_eq!(
                request.contents,
                serde_json::to_string_pretty(&vec!["cargo", "vim", "zsh"]).unwrap()
            );
        }
        Edit::Unchanged(_) => panic!("a new entry changes the list"),
    }
    assert_eq!(list.list(), vec!["cargo", "vim", "zsh"]);
}

#[test]
fn adding_twice_changes_nothing_the_second_time() {
    let mut list = empty_list();
    assert!(matches!(list.add("htop".into()), Ok(Edit::Changed(_))));
    match list.add("/usr/local/bin/htop -d 5".into()) {
        Ok(Edit::Unchanged(entries)) => assert_eq!(entries, vec!["htop"]),
        _ => panic!("an entry already present changes nothing"),
    }
    assert_eq!(list.list(), vec!["htop"]);
}

#[test]
fn load_reads_a_json_array_and_falls_back_to_empty() {
    let list = Whitelist::load("w.json".into(), Some("[\"ssh\", \"./dev.sh\"]".into()));
    assert_eq!(list.list(), vec!["ssh", "./dev.sh"]);
    // An entry stored before normalization still hides its program.
    assert!(list.hides("dev.sh --port 3000"));
    assert!(list.hides("/usr/bin/ssh host"));

    assert!(Whitelist::load("w.json".into(), Some("not json".into())).list().is_empty());
    assert!(Whitelist::load("w.json".into(), Some("{\"a\": 1}".into())).list().is_empty());
    assert!(Whitelist::load("w.json".into(), None).list().is_empty());
}

#[test]
fn remove_drops_every_equal_entry_and_asks_to_save() {
    let mut list = Whitelist::load("w.json".into(), Some("[\"b\", \"a\", \"b\", \"c\"]".into()));
    let request = list.remove("b").unwrap();
    assert_eq!(request.entries, vec!["a", "c"]);
    assert_eq!(request.path, "w.json");
    let parsed: Vec<String> = serde_json::from_str(&request.contents).unwrap();
    assert_eq!(parsed, vec!["a", "c"]);
    assert_eq!(list.list(), vec!["a", "c"]);
    // Removing what is not there still saves the list unchanged.
    assert_eq!(list.remove("zzz").unwrap().entries, vec!["a", "c"]);
}

#[test]
fn remove_of_a_program_name_unhides_its_commands() {
    let mut list = empty_list();
    list.add("npm".into()).unwrap();
    list.add("ssh".into()).unwrap();
    list.remove(program_name("npm run dev")).unwrap();
    assert!(!list.hides("npm run dev"));
    assert!(list.hides("ssh host"));
}

#[test]
fn save_request_reports_serialization_errors() {
    let list = Whitelist::from_parsed("w.json".into(), Some(vec!["a".into()]));
    match list.save_request(Err("boom".into())) {
        Err(m) => assert_eq!(m, "序列化白名单失败：boom"),
        Ok(_) => panic!("a failed serialization is an error"),
    }
    let request = list.save_request(Ok("[\"a\"]".into())).unwrap();
    assert_eq!((request.path.as_str(), request.contents.as_str()), ("w.json", "[\"a\"]"));
    assert_eq!(request.entries, vec!["a"]);
    assert!(Whitelist::from_parsed("w.json".into(), None).list().is_empty());
}

#[test]
fn saved_file_loads_back_as_the_returned_list() {
    let mut list = empty_list();
    list.add("zsh".into()).unwrap();
    let edit = list.add("q\"uo\\te\u{1}é".into()).unwrap();
    let request = match edit {
        Edit::Changed(request) => request,
        Edit::Unchanged(_) => panic!("a new entry changes the list"),
    };
    let reloaded = Whitelist::load(request.path.clone(), Some(request.contents.clone()));
    assert_eq!(reloaded.list(), request.entries);
    assert_eq!(request.entries, vec!["q\"uo\\te\u{1}é", "zsh"]);

    let request = list.remove("zsh").unwrap();
    let reloaded = Whitelist::load(request.path.clone(), Some(request.contents));
    assert_eq!(reloaded.list(), vec!["q\"uo\\te\u{1}é"]);
}

#[test]
fn remove_undoes_add() {
    let mut list = Whitelist::load("w.json".into(), Some("[\"cargo\", \"vim\"]".into()));
    let before = list.list();
    list.add("/usr/bin/make -j4".into()).unwrap();
    assert_eq!(list.list(), vec!["cargo", "make", "vim"]);
    let request = list.remove("make").unwrap();
    assert_eq!(request.entries, before);
    assert_eq!(list.list(), before);
}

#[test]
fn an_add_that_changes_nothing_keeps_the_file_in_step() {
    let text = "[\"ssh\"]".to_string();
    let mut list = Whitelist::load("w.json".into(), Some(text.clone()));
    match list.add("ssh".into()).unwrap() {
        Edit::Unchanged(entries) => {
            assert_eq!(Whitelist::load("w.json".into(), Some(text)).list(), entries)
        }
        Edit::Changed(_) => panic!("an entry already present writes nothing"),
    }
}
