use wh::app::App;
use wh::non_win::{candidates, new_glob, NonWindowsArgs};
use wh::path_entry::{is_executable, File, FileKind, Listed, PathEntry};
use wh::pattern::PatternError;
use wh::search::{Candidate, Hit, Scope};
use wh::shell::{parse, Alias, Function, Item};

fn listed(dir: &str, name: &str, kind: FileKind, executable: bool) -> Listed {
    Listed {
        path: format!("{dir}/{name}"),
        name: Some(name.to_string()),
        kind,
        executable,
    }
}

fn directory(path: &str, files: &[(&str, bool)]) -> PathEntry {
    let listing: Vec<Listed> =
        files.iter().map(|(name, x)| listed(path, name, FileKind::File, *x)).collect();
    let mut entry = PathEntry::new(path.to_string());
    entry.fill(Some(&listing), false);
    entry
}

fn app(commands: &[&str], all: bool, read_alias: bool, read_functions: bool) -> App<NonWindowsArgs> {
    App {
        skip_dot: false,
        skip_tilde: false,
        show_dot: false,
        show_tilde: false,
        all,
        commands: commands.iter().map(|s| s.to_string()).collect(),
        x: NonWindowsArgs {
            tty_only: false,
            read_alias,
            skip_alias: false,
            read_functions,
            skip_functions: false,
        },
    }
}

fn hit(item: usize, file: usize) -> Hit {
    Hit { item, file }
}

#[test]
fn executable_wants_a_file_and_a_bit() {
    assert!(is_executable(true, 0o755));
    assert!(is_executable(true, 0o100));
    assert!(is_executable(true, 0o010));
    assert!(is_executable(true, 0o001));
    assert!(is_executable(true, 0o100644 | 0o001));
    assert!(!is_executable(true, 0o644));
    assert!(!is_executable(true, 0o100644));
    assert!(!is_executable(false, 0o755));
    assert!(!is_executable(true, 0));
}

#[test]
fn new_directory_is_not_listed() {
    let entry = PathEntry::new("/bin".to_string());
    assert!(!entry.is_listed());
    assert!(entry.get().is_empty());
    assert_eq!(entry.path(), "/bin");
}

#[test]
fn directory_that_cannot_be_read_holds_nothing() {
    let mut entry = PathEntry::new("/nowhere".to_string());
    entry.fill(None, false);
    assert!(entry.is_listed());
    assert!(entry.get().is_empty());
}

#[test]
fn first_listing_stays() {
    let mut entry = PathEntry::new("/bin".to_string());
    entry.fill(Some(&vec![listed("/bin", "ls", FileKind::File, true)]), false);
    entry.fill(Some(&vec![listed("/bin", "ps", FileKind::File, true)]), false);
    entry.fill(None, false);
    let names: Vec<&str> = entry.get().iter().map(|f| f.name.as_str()).collect();
    assert_eq!(names, vec!["ls"]);
}

#[test]
fn entries_without_a_name_are_dropped() {
    let listing = vec![
        Listed { path: "/".to_string(), name: None, kind: FileKind::File, executable: true },
        Listed { path: "/bin/".to_string(), name: Some(String::new()), kind: FileKind::File, executable: true },
        listed("/bin", "ls", FileKind::File, true),
    ];
    let mut entry = PathEntry::new("/bin".to_string());
    entry.fill(Some(&listing), false);
    let files: Vec<(&str, &str, bool)> =
        entry.get().iter().map(|f| (f.path.as_str(), f.name.as_str(), f.executable)).collect();
    assert_eq!(files, vec![("/bin/ls", "ls", true)]);
}

#[test]
fn kinds_are_sifted_where_the_file_system_is_typed() {
    let listing = vec![
        listed("/bin", "file", FileKind::File, false),
        listed("/bin", "dir", FileKind::Directory, false),
        listed("/bin", "link", FileKind::SymlinkFile, false),
        listed("/bin", "pipe", FileKind::Other, false),
    ];
    let mut typed = PathEntry::new("/bin".to_string());
    typed.fill(Some(&listing), true);
    let names: Vec<&str> = typed.get().iter().map(|f| f.name.as_str()).collect();
    assert_eq!(names, vec!["file", "link"]);
    let mut plain = PathEntry::new("/bin".to_string());
    plain.fill(Some(&listing), false);
    let names: Vec<&str> = plain.get().iter().map(|f| f.name.as_str()).collect();
    assert_eq!(names, vec!["file", "dir", "link", "pipe"]);
}

#[test]
fn candidates_put_aliases_before_functions_before_directories() {
    let session = parse("f() {\n  a\n}\nalias x=y\ng() {\n  b\n}\nalias z=w\n");
    let dirs = vec![directory("/a", &[]), directory("/b", &[])];
    let items = candidates(&session, dirs);
    let kinds: Vec<String> = items
        .iter()
        .map(|c| match c {
            Candidate::Alias(a) => format!("alias {}", a.lhs),
            Candidate::Function(f) => format!("function {}", f.name),
            Candidate::Path(p) => format!("path {}", p.path()),
        })
        .collect();
    assert_eq!(kinds, vec!["alias x", "alias z", "function f", "function g", "path /a", "path /b"]);
}

#[test]
fn literal_token_stops_at_the_first_match() {
    let items = vec![
        Candidate::Path(directory("/a", &[("ps", true), ("ls", true)])),
        Candidate::Path(directory("/b", &[("ls", true)])),
    ];
    let run = app(&["ls"], false, false, false);
    assert_eq!(run.look_up("ls", &items).unwrap(), vec![hit(0, 1)]);
}

#[test]
fn all_matches_are_reported_where_all_are_wanted() {
    let items = vec![
        Candidate::Path(directory("/a", &[("ps", true), ("ls", true)])),
        Candidate::Path(directory("/b", &[("ls", true)])),
    ];
    let run = app(&["ls"], true, false, false);
    assert_eq!(run.look_up("ls", &items).unwrap(), vec![hit(0, 1), hit(1, 0)]);
}

#[test]
fn wildcard_reports_every_match_though_one_is_wanted() {
    let items = vec![Candidate::Path(directory(
        "/a",
        &[("a.sh", true), ("b.txt", true), ("b.sh", true), ("c.sh", true)],
    ))];
    let run = app(&["*.sh"], false, false, false);
    assert_eq!(run.look_up("*.sh", &items).unwrap(), vec![hit(0, 0), hit(0, 2), hit(0, 3)]);
}

#[test]
fn wildcard_goes_on_through_the_directories() {
    let items = vec![
        Candidate::Path(directory("/a", &[("a.sh", true)])),
        Candidate::Path(directory("/b", &[("b.sh", true), ("b.txt", true)])),
    ];
    let run = app(&["*.sh"], false, false, false);
    assert_eq!(run.look_up("*.sh", &items).unwrap(), vec![hit(0, 0), hit(1, 0)]);
}

#[test]
fn rejected_token_is_no_wildcard_and_stops_at_the_first_match() {
    let items = vec![
        Candidate::Path(directory("/a", &[("a[", true)])),
        Candidate::Path(directory("/b", &[("a[", true)])),
    ];
    let run = app(&["a["], false, false, false);
    assert_eq!(run.look_up("a[", &items).unwrap(), vec![hit(0, 0)]);
}

#[test]
fn files_that_cannot_be_executed_are_passed_over() {
    let items = vec![
        Candidate::Path(directory("/a", &[("ls", false)])),
        Candidate::Path(directory("/b", &[("ls", true)])),
    ];
    let run = app(&["ls"], false, false, false);
    assert_eq!(run.look_up("ls", &items).unwrap(), vec![hit(1, 0)]);
}

#[test]
fn alias_comes_before_a_file_of_the_same_name() {
    let session = parse("alias ls=ls --color\nls() {\n  echo\n}\n");
    let items = candidates(&session, vec![directory("/bin", &[("ls", true)])]);
    let run = app(&["ls"], false, true, true);
    assert_eq!(run.look_up("ls", &items).unwrap(), vec![hit(0, 0)]);
    let run = app(&["ls"], true, true, true);
    assert_eq!(run.look_up("ls", &items).unwrap(), vec![hit(0, 0), hit(1, 0), hit(2, 0)]);
}

#[test]
fn kinds_that_are_not_read_are_no_candidates() {
    let session = parse("alias ls=ls --color\nls() {\n  echo\n}\n");
    let items = candidates(&session, vec![directory("/bin", &[("ls", true)])]);
    let run = app(&["ls"], true, false, true);
    assert_eq!(run.look_up("ls", &items).unwrap(), vec![hit(1, 0), hit(2, 0)]);
    let run = app(&["ls"], true, true, false);
    assert_eq!(run.look_up("ls", &items).unwrap(), vec![hit(0, 0), hit(2, 0)]);
    let run = app(&["ls"], false, false, false);
    assert_eq!(run.look_up("ls", &items).unwrap(), vec![hit(2, 0)]);
}

#[test]
fn skipping_undoes_reading() {
    let mut x = NonWindowsArgs {
        tty_only: false,
        read_alias: true,
        skip_alias: true,
        read_functions: true,
        skip_functions: false,
    };
    assert!(!x.reads_aliases());
    assert!(x.reads_functions());
    assert!(x.reads_session());
    assert_eq!(x.terminal_warning(), Some("--read-functions"));
    x.skip_alias = false;
    assert_eq!(x.terminal_warning(), Some("--read-functions, --read-alias, -i"));
    x.skip_functions = true;
    assert_eq!(x.terminal_warning(), Some("--read-alias, -i"));
    x.read_alias = false;
    assert!(!x.reads_session());
    assert_eq!(x.terminal_warning(), None);
}

#[test]
fn run_looks_every_token_up_on_its_own() {
    let session = parse("alias ll=ls -la\n");
    let items = candidates(
        &session,
        vec![directory("/bin", &[("ls", true), ("a.sh", true), ("b.sh", true)])],
    );
    let run = app(&["ls", "nope", "*.sh", "ll", "zip*"], false, true, false);
    let outcome = run.run(&items).unwrap();
    assert_eq!(
        outcome.found,
        vec![vec![hit(1, 0)], vec![], vec![hit(1, 1), hit(1, 2)], vec![hit(0, 0)], vec![]]
    );
    assert_eq!(outcome.not_found, 2);
}

#[test]
fn run_twice_gives_the_same() {
    let session = parse("alias ll=ls -la\nf() {\n  x\n}\n");
    let items = candidates(
        &session,
        vec![directory("/bin", &[("ls", true), ("f", true)]), directory("/usr/bin", &[("ls", true)])],
    );
    let run = app(&["ls", "f", "ll", "x", "?"], true, true, true);
    let first = run.run(&items).unwrap();
    let second = run.run(&items).unwrap();
    assert_eq!(first.found, second.found);
    assert_eq!(first.not_found, second.not_found);
    assert_eq!(first.not_found, 1);
}

#[test]
fn run_without_tokens_finds_nothing() {
    let run = app(&[], false, false, false);
    let outcome = run.run(&vec![]).unwrap();
    assert!(outcome.found.is_empty());
    assert_eq!(outcome.not_found, 0);
}

#[test]
fn run_fails_at_the_first_token_that_is_too_large() {
    let long = "a".repeat(wh::pattern::MAX_PATTERN_LEN + 1);
    let run = app(&["ls", &long, "ps"], false, false, false);
    let failure = run.run(&vec![]).unwrap_err();
    assert_eq!(failure.token, 1);
    assert!(matches!(failure.error, PatternError::TooLarge));
}

#[test]
fn new_glob_reads_a_backslash_as_an_escape() {
    let p = new_glob("a\\?").unwrap();
    assert!(p.is_match("a?"));
    assert!(!p.is_match("ab"));
    let p = new_glob("Ls").unwrap();
    assert!(!p.is_match("ls"));
}

#[test]
fn scan_reports_in_the_order_of_the_candidates() {
    let list = vec!["exe".to_string()];
    let scope = Scope { aliases: true, functions: true, all: true, extensions: Some(&list) };
    let items = vec![
        Candidate::Function(Function { name: "run.exe", body: "" }),
        Candidate::Path(directory("/a", &[("run.exe", false), ("run.bat", true), ("RUN.EXE", false)])),
        Candidate::Alias(Alias { lhs: "run.exe", rhs: "" }),
    ];
    let pattern = wh::win::new_glob("run", ".{exe,bat}").unwrap();
    assert_eq!(scope.scan(&pattern, &items), vec![hit(0, 0), hit(1, 0), hit(1, 2), hit(2, 0)]);
    let one = Scope { aliases: false, functions: false, all: false, extensions: Some(&list) };
    assert_eq!(one.scan(&pattern, &items), vec![hit(1, 0)]);
}

#[test]
fn admits_file_looks_at_the_bit_or_at_the_extension() {
    let list = vec!["exe".to_string()];
    let by_bit = Scope { aliases: false, functions: false, all: false, extensions: None };
    let by_ext = Scope { aliases: false, functions: false, all: false, extensions: Some(&list) };
    let file = |name: &str, executable: bool| File {
        path: name.to_string(),
        name: name.to_string(),
        executable,
    };
    assert!(by_bit.admits_file(&file("a", true)));
    assert!(!by_bit.admits_file(&file("a.exe", false)));
    assert!(by_ext.admits_file(&file("a.EXE", false)));
    assert!(!by_ext.admits_file(&file("a", true)));
    assert!(!by_ext.admits_file(&file("a.sh", true)));
    assert!(!by_ext.admits_file(&file(".exe", true)));
}

#[test]
fn items_of_a_session_keep_their_texts() {
    let session = parse("alias ll=ls -la\n");
    match session[0] {
        Item::Alias(a) => assert_eq!((a.lhs, a.rhs), ("ll", "ls -la")),
        Item::Function(_) => panic!("an alias was expected"),
    }
}
