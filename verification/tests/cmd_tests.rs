use wh::cmd::{is_glob, Cmd, Entry, FileType};
use wh::matcher::{MatchState, Matcher};
use wh::path_entry::FileKind;
use wh::pattern::PatternError;

fn cmd(args: &[&str], pathext: &[&str]) -> Cmd {
    Cmd {
        args: args.iter().map(|s| s.to_string()).collect(),
        exact: false,
        respect_case: true,
        no_auto_ext: false,
        file_type: FileType::Any,
        pathext: pathext.iter().map(|s| s.to_string()).collect(),
        n: 0,
        backslash_escape: true,
        hidden: false,
        depth: None,
        quiet: false,
    }
}

fn file(name: &str) -> Entry {
    Entry { path: format!("/bin/{name}"), name: name.to_string(), kind: FileKind::File }
}

fn dir(name: &str) -> Entry {
    Entry { path: format!("/bin/{name}"), name: name.to_string(), kind: FileKind::Directory }
}

#[test]
fn is_glob_looks_for_a_wildcard_character() {
    assert!(is_glob("*.sh"));
    assert!(is_glob("l?"));
    assert!(is_glob("{a,b}"));
    assert!(is_glob("}{"));
    assert!(is_glob("{a"));
    assert!(is_glob("[ab]c"));
    assert!(is_glob("a["));
    assert!(!is_glob("a}"));
    assert!(!is_glob("a]"));
    assert!(!is_glob("a\\b"));
    assert!(!is_glob("plain"));
    assert!(!is_glob(""));
}

#[test]
fn file_type_looks_at_the_kind() {
    assert!(FileType::Any.is_match(&file("a")));
    assert!(FileType::Any.is_match(&dir("a")));
    assert!(FileType::File.is_match(&file("a")));
    assert!(!FileType::File.is_match(&dir("a")));
    assert!(FileType::Directory.is_match(&dir("a")));
    assert!(!FileType::Directory.is_match(&file("a")));
    let other = Entry { path: "p".to_string(), name: "p".to_string(), kind: FileKind::Other };
    assert!(FileType::Any.is_match(&other));
    assert!(!FileType::File.is_match(&other));
    assert!(!FileType::Directory.is_match(&other));
}

#[test]
fn run_matches_itself_and_the_listed_extension_only() {
    let c = cmd(&["run"], &["sh"]);
    assert!(c.matches_str("run", &file("run")));
    assert!(c.matches_str("run", &file("run.sh")));
    assert!(c.matches_str("run", &file("run.SH")));
    assert!(!c.matches_str("run", &file("run.txt")));
    assert!(!c.matches_str("run", &file("runs")));
    assert!(!c.matches_str("run", &file("run.sh.txt")));
    assert!(!c.matches_str("run", &file("Run.sh")));
}

#[test]
fn extension_is_supplied_if_and_only_if_it_is_listed() {
    let c = cmd(&[], &["exe", "Bat", "tar.gz"]);
    for (ext, listed) in [("exe", true), ("EXE", true), ("bat", true), ("cmd", false), ("gz", false)] {
        assert_eq!(c.matches_str("foo", &file(&format!("foo.{ext}"))), listed, "{ext}");
    }
}

#[test]
fn name_with_extension_matches_whole() {
    let c = cmd(&[], &["sh"]);
    assert!(c.matches_str("run.txt", &file("run.txt")));
    assert!(c.matches_str("a.tar", &file("a.tar.sh")));
    assert!(!c.matches_str("a", &file("a.tar.sh")));
}

#[test]
fn case_is_respected_or_not() {
    let mut c = cmd(&[], &["sh"]);
    assert!(!c.matches_str("RUN", &file("run")));
    assert!(!c.matches_str("RUN", &file("run.sh")));
    c.respect_case = false;
    assert!(c.matches_str("RUN", &file("run")));
    assert!(c.matches_str("RUN", &file("run.sh")));
    assert!(c.matches_str("run", &file("Run.SH")));
    assert!(!c.matches_str("run", &file("Run.txt")));
}

#[test]
fn names_are_compared_whole_where_no_extension_is_supplied() {
    let mut c = cmd(&[], &["sh"]);
    c.no_auto_ext = true;
    assert!(c.matches_str("run", &file("run")));
    assert!(!c.matches_str("run", &file("run.sh")));
    let mut c = cmd(&[], &["sh"]);
    c.file_type = FileType::Directory;
    assert!(!c.matches_str("run", &file("run.sh")));
    let c = cmd(&[], &["sh"]);
    assert!(!c.matches_str("run", &dir("run.sh")));
    assert!(c.matches_str("run.sh", &dir("run.sh")));
}

#[test]
fn name_without_extension_needs_no_listed_extension() {
    let c = cmd(&[], &[]);
    assert!(c.matches_str("run", &file("run")));
    assert!(c.matches_str(".profile", &file(".profile")));
    assert!(!c.matches_str("", &file(".profile")));
    assert!(!c.matches_str("run", &file("run.")));
    let c = cmd(&[], &[""]);
    assert!(c.matches_str("run", &file("run.")));
}

#[test]
fn plain_argument_gets_no_engine() {
    let c = cmd(&[], &[]);
    assert!(matches!(c.matcher("ls"), Ok(Matcher::Str("ls"))));
    assert!(matches!(c.matcher("a]b"), Ok(Matcher::Str("a]b"))));
    assert!(matches!(c.matcher("a[b"), Ok(Matcher::Glob(_))));
    assert!(matches!(c.matcher("*.sh"), Ok(Matcher::Glob(_))));
    let mut c = cmd(&[], &[]);
    c.exact = true;
    assert!(matches!(c.matcher("*.sh"), Ok(Matcher::Str("*.sh"))));
}

#[test]
fn pattern_that_the_engine_rejects_matches_as_plain_text() {
    let c = cmd(&["a", "{b*", "*["], &[]);
    let m = c.matcher("{b*").unwrap();
    assert!(c.matches(&m, &file("{b*")));
    assert!(!c.matches(&m, &file("{bc")));
    assert!(!c.matches(&m, &file("b")));
    assert_eq!(m.to_text(), "{b*");
    let states = c.compile().unwrap();
    assert_eq!(states.len(), 3);
    let walk = c.run(&vec![file("*["), file("x["), file("{b*"), file("a")]).unwrap();
    assert_eq!(walk.reported, vec![0, 2, 3]);
    assert!(walk.missing.is_empty());
}

#[test]
fn pattern_that_is_too_large_is_an_error() {
    let long = "*".repeat(wh::pattern::MAX_PATTERN_LEN + 1);
    let c = cmd(&["a", &long, "c"], &[]);
    assert!(matches!(c.matcher(&long), Err(PatternError::TooLarge)));
    assert!(matches!(c.compile(), Err(PatternError::TooLarge)));
    assert!(matches!(c.run(&vec![file("a")]), Err(PatternError::TooLarge)));
}

#[test]
fn matcher_shows_its_argument() {
    let c = cmd(&[], &[]);
    assert_eq!(c.matcher("ls").unwrap().to_text(), "ls");
    assert_eq!(c.matcher("*.sh").unwrap().to_text(), "*.sh");
}

#[test]
fn pattern_follows_the_case_rule_of_the_walk() {
    let mut c = cmd(&[], &[]);
    let m = c.matcher("*.SH").unwrap();
    assert!(!c.matches(&m, &file("a.sh")));
    assert!(c.matches(&m, &file("a.SH")));
    c.respect_case = false;
    let m = c.matcher("*.SH").unwrap();
    assert!(c.matches(&m, &file("a.sh")));
}

#[test]
fn compile_gives_a_matcher_for_each_argument() {
    let c = cmd(&["ls", "*.sh"], &[]);
    let states = c.compile().unwrap();
    assert_eq!(states.len(), 2);
    assert!(matches!(states[0].matcher, Matcher::Str("ls")));
    assert!(matches!(states[1].matcher, Matcher::Glob(_)));
    assert_eq!(states[0].count, 0);
    assert_eq!(states[1].count, 0);
}

#[test]
fn visit_counts_for_every_matcher_that_matches() {
    let c = cmd(&["a.sh", "*.sh", "b"], &[]);
    let mut states = c.compile().unwrap();
    let v = c.visit(&mut states, &file("a.sh"));
    assert!(v.matched);
    assert!(!v.done);
    assert_eq!(states.iter().map(|s| s.count).collect::<Vec<_>>(), vec![1, 1, 0]);
    let v = c.visit(&mut states, &file("c.txt"));
    assert!(!v.matched);
    assert!(!v.done);
    assert_eq!(states.iter().map(|s| s.count).collect::<Vec<_>>(), vec![1, 1, 0]);
    let v = c.visit(&mut states, &file("b.sh"));
    assert!(v.matched);
    assert_eq!(states.iter().map(|s| s.count).collect::<Vec<_>>(), vec![1, 2, 0]);
}

#[test]
fn visit_ends_the_walk_when_every_argument_has_enough() {
    let mut c = cmd(&["a", "*"], &[]);
    c.n = 2;
    let mut states = c.compile().unwrap();
    assert!(!c.visit(&mut states, &file("a")).done);
    assert_eq!(states.iter().map(|s| s.count).collect::<Vec<_>>(), vec![1, 1]);
    assert!(!c.visit(&mut states, &file("b")).done);
    assert_eq!(states.iter().map(|s| s.count).collect::<Vec<_>>(), vec![1, 2]);
    let v = c.visit(&mut states, &file("c"));
    assert!(!v.matched);
    assert!(!v.done);
    let v = c.visit(&mut states, &file("a"));
    assert!(v.matched);
    assert!(v.done);
    assert_eq!(states.iter().map(|s| s.count).collect::<Vec<_>>(), vec![2, 2]);
}

#[test]
fn visit_counts_no_further_than_the_largest_number() {
    let c = cmd(&["a"], &[]);
    let mut states = vec![MatchState { matcher: Matcher::Str("a"), count: usize::MAX }];
    let v = c.visit(&mut states, &file("a"));
    assert!(v.matched);
    assert!(!v.done);
    assert_eq!(states[0].count, usize::MAX);
}

#[test]
fn run_reports_every_entry_that_an_argument_matches() {
    let c = cmd(&["ls", "*.sh", "nope"], &["exe"]);
    let entries = vec![file("a.sh"), file("ls.exe"), file("cat"), dir("ls"), file("b.sh")];
    let walk = c.run(&entries).unwrap();
    assert_eq!(walk.reported, vec![0, 1, 3, 4]);
    assert_eq!(walk.missing, vec![2]);
}

#[test]
fn run_looks_at_the_kinds_that_are_wanted() {
    let mut c = cmd(&["ls"], &[]);
    c.file_type = FileType::Directory;
    let entries = vec![file("ls"), dir("ls"), dir("ps")];
    let walk = c.run(&entries).unwrap();
    assert_eq!(walk.reported, vec![1]);
    assert!(walk.missing.is_empty());
    c.file_type = FileType::File;
    let walk = c.run(&entries).unwrap();
    assert_eq!(walk.reported, vec![0]);
}

#[test]
fn run_ends_when_every_argument_has_enough() {
    let mut c = cmd(&["a", "*"], &[]);
    c.n = 1;
    let entries = vec![file("b"), file("a"), file("a"), file("c")];
    let walk = c.run(&entries).unwrap();
    assert_eq!(walk.reported, vec![0, 1]);
    assert!(walk.missing.is_empty());
    c.n = 2;
    let walk = c.run(&entries).unwrap();
    assert_eq!(walk.reported, vec![0, 1, 2]);
    c.n = 0;
    let walk = c.run(&entries).unwrap();
    assert_eq!(walk.reported, vec![0, 1, 2, 3]);
}

#[test]
fn run_goes_on_while_an_argument_lacks_matches() {
    let mut c = cmd(&["a", "zz"], &[]);
    c.n = 1;
    let entries = vec![file("a"), file("a"), file("b")];
    let walk = c.run(&entries).unwrap();
    assert_eq!(walk.reported, vec![0]);
    assert_eq!(walk.missing, vec![1]);
}

#[test]
fn class_is_a_pattern() {
    let c = cmd(&["[ab]c"], &[]);
    let walk = c.run(&vec![file("ac"), file("bc"), file("[ab]c"), file("cc")]).unwrap();
    assert_eq!(walk.reported, vec![0, 1]);
}

#[test]
fn run_without_arguments_reports_nothing() {
    let c = cmd(&[], &[]);
    let walk = c.run(&vec![file("a")]).unwrap();
    assert!(walk.reported.is_empty());
    assert!(walk.missing.is_empty());
}
