use wh::app::App;
use wh::path_entry::{FileKind, Listed, PathEntry};
use wh::pattern::PatternError;
use wh::search::{Candidate, Hit, Step};
use wh::win::{ending, extensions, new_glob, pathext_glob, Ending, RunError, TokenError, WindowsArgs};

fn directory(path: &str, files: &[&str]) -> Candidate<'static> {
    let listing: Vec<Listed> = files
        .iter()
        .map(|name| Listed {
            path: format!("{path}\\{name}"),
            name: Some(name.to_string()),
            kind: FileKind::File,
            executable: false,
        })
        .collect();
    let mut entry = PathEntry::new(path.to_string());
    entry.fill(Some(&listing), true);
    Candidate::Path(entry)
}

fn app(commands: &[&str], all: bool) -> App<WindowsArgs> {
    App {
        skip_dot: false,
        skip_tilde: false,
        show_dot: false,
        show_tilde: false,
        all,
        commands: commands.iter().map(|s| s.to_string()).collect(),
        x: WindowsArgs { no_pathext: false },
    }
}

fn hit(item: usize, file: usize) -> Hit {
    Hit { item, file }
}

fn list(exts: &[&str]) -> Vec<String> {
    exts.iter().map(|s| s.to_string()).collect()
}

#[test]
fn extensions_come_from_the_list() {
    assert_eq!(extensions(false, Some(".COM;.EXE;.BAT")), list(&["COM", "EXE", "BAT"]));
    assert_eq!(extensions(false, Some(".com;.bat")), list(&["exe", "com", "bat"]));
    assert_eq!(extensions(false, Some("com;;.;..x;bat;")), list(&["exe", "com", ".x", "bat"]));
    assert_eq!(extensions(false, Some("")), list(&["exe"]));
    assert_eq!(extensions(false, Some(";")), list(&["exe"]));
    assert_eq!(extensions(false, None), list(&["exe"]));
    assert_eq!(extensions(false, Some(".eXe")), list(&["eXe"]));
}

#[test]
fn exe_is_the_only_extension_without_the_list() {
    assert_eq!(extensions(true, Some(".COM;.BAT")), list(&["exe"]));
    assert_eq!(extensions(true, None), list(&["exe"]));
}

#[test]
fn exe_is_always_an_extension() {
    for var in [None, Some(""), Some(".bat"), Some(".EXE;.bat"), Some("x;y;z"), Some(";;;")] {
        for no_pathext in [false, true] {
            let l = extensions(no_pathext, var);
            assert!(l.iter().any(|e| e.eq_ignore_ascii_case("exe")), "{:?}", var);
        }
    }
}

#[test]
fn suffix_stands_for_any_of_the_extensions() {
    assert_eq!(pathext_glob(&list(&["exe"])), Ok(".{exe}".to_string()));
    assert_eq!(pathext_glob(&list(&["exe", "COM", "bat"])), Ok(".{exe,COM,bat}".to_string()));
    assert_eq!(pathext_glob(&list(&["", "exe", "", "bat", ""])), Ok(".{exe,bat}".to_string()));
    assert_eq!(pathext_glob(&list(&[])), Ok(".{}".to_string()));
    assert_eq!(pathext_glob(&list(&["tar.gz", "ä1"])), Ok(".{tar.gz,ä1}".to_string()));
}

#[test]
fn extension_with_another_character_is_invalid() {
    assert_eq!(pathext_glob(&list(&["exe", "b*t", "c?d"])), Err(1));
    assert_eq!(pathext_glob(&list(&["e,e"])), Err(0));
    assert_eq!(pathext_glob(&list(&["exe", "bat", "a b"])), Err(2));
    assert_eq!(pathext_glob(&list(&["{"])), Err(0));
}

#[test]
fn ending_is_chosen_by_what_follows_the_last_dot() {
    let l = list(&["exe", "bat"]);
    assert_eq!(ending(".", &l), Ending::Invalid);
    assert_eq!(ending("run", &l), Ending::Suffix);
    assert_eq!(ending("run.", &l), Ending::Suffix);
    assert_eq!(ending(".run", &l), Ending::Suffix);
    assert_eq!(ending("..", &l), Ending::Suffix);
    assert_eq!(ending("", &l), Ending::Suffix);
    assert_eq!(ending("run.exe", &l), Ending::Bare);
    assert_eq!(ending("run.EXE", &l), Ending::Bare);
    assert_eq!(ending("run.txt", &l), Ending::Suffix);
    assert_eq!(ending("run.*", &l), Ending::Bare);
    assert_eq!(ending("run.e?e", &l), Ending::Bare);
    assert_eq!(ending("run.[eb]", &l), Ending::Bare);
    assert_eq!(ending("run.{exe}", &l), Ending::Bare);
    assert_eq!(ending("a.b.bat", &l), Ending::Bare);
    assert_eq!(ending("a.bat.b", &l), Ending::Suffix);
}

#[test]
fn token_without_extension_finds_the_listed_extensions() {
    let l = list(&["exe", "bat"]);
    let glob = pathext_glob(&l).unwrap();
    let items = vec![
        directory("C:\\a", &["run", "run.txt", "Run.BAT", "run.exe"]),
        directory("C:\\b", &["RUN.EXE"]),
    ];
    let run = app(&["run"], false);
    assert_eq!(run.look_up("run", &l, &glob, &items).unwrap(), vec![hit(0, 0)]);
    let run = app(&["run"], true);
    assert_eq!(
        run.look_up("run", &l, &glob, &items).unwrap(),
        vec![hit(0, 0), hit(0, 2), hit(0, 3), hit(1, 0)]
    );
}

#[test]
fn token_with_extension_finds_that_extension() {
    let l = list(&["exe", "bat"]);
    let glob = pathext_glob(&l).unwrap();
    let items = vec![directory("C:\\a", &["run.bat", "run.exe", "run.exe.bat", "run.txt.exe"])];
    let run = app(&[], true);
    assert_eq!(run.look_up("run.exe", &l, &glob, &items).unwrap(), vec![hit(0, 1), hit(0, 2)]);
    assert_eq!(run.look_up("run.txt", &l, &glob, &items).unwrap(), vec![hit(0, 3)]);
    assert_eq!(run.look_up("run.*", &l, &glob, &items).unwrap(), vec![hit(0, 0), hit(0, 1), hit(0, 2), hit(0, 3)]);
}

#[test]
fn pattern_finds_no_file_without_a_listed_extension() {
    let l = list(&["exe"]);
    let glob = pathext_glob(&l).unwrap();
    let items = vec![directory("C:\\a", &["run", "run.sh", "readme.txt"])];
    let run = app(&[], true);
    assert!(run.look_up("*", &l, &glob, &items).unwrap().is_empty());
    assert!(run.look_up("r*", &l, &glob, &items).unwrap().is_empty());
    assert!(run.look_up("readme", &l, &glob, &items).unwrap().is_empty());
}

#[test]
fn file_is_found_by_its_full_name() {
    let l = list(&["exe"]);
    let glob = pathext_glob(&l).unwrap();
    let items = vec![directory("C:\\a", &["run", "run.sh", "readme.txt"])];
    let run = app(&[], true);
    assert_eq!(run.look_up("run.sh", &l, &glob, &items).unwrap(), vec![hit(0, 1)]);
    assert_eq!(run.look_up("RUN", &l, &glob, &items).unwrap(), vec![hit(0, 0)]);
    assert_eq!(run.look_up("ReadMe.TXT", &l, &glob, &items).unwrap(), vec![hit(0, 2)]);
}

#[test]
fn run_is_found_and_run_txt_is_not() {
    let l = extensions(false, Some("sh"));
    assert_eq!(l, list(&["exe", "sh"]));
    let items = vec![directory("C:\\a", &["run", "run.txt"])];
    let outcome = app(&["run"], true).run(&l, &items).unwrap();
    assert_eq!(outcome.found, vec![vec![hit(0, 0)]]);
    assert_eq!(outcome.not_found, 0);
    let items = vec![directory("C:\\a", &["run.txt", "run.sh"])];
    let outcome = app(&["run"], true).run(&l, &items).unwrap();
    assert_eq!(outcome.found, vec![vec![hit(0, 1)]]);
    let items = vec![directory("C:\\a", &["run.txt"])];
    let outcome = app(&["run"], true).run(&l, &items).unwrap();
    assert_eq!(outcome.found, vec![Vec::<Hit>::new()]);
    assert_eq!(outcome.not_found, 1);
}

#[test]
fn native_extension_is_found_though_the_list_omits_it() {
    let l = extensions(false, Some(".BAT;.CMD"));
    assert_eq!(l, list(&["exe", "BAT", "CMD"]));
    let items = vec![directory("C:\\a", &["foo.exe"])];
    let outcome = app(&["foo"], false).run(&l, &items).unwrap();
    assert_eq!(outcome.found, vec![vec![hit(0, 0)]]);
    assert_eq!(outcome.not_found, 0);
    let items = vec![directory("C:\\a", &["foo.XYZ"])];
    let outcome = app(&["foo"], false).run(&l, &items).unwrap();
    assert_eq!(outcome.not_found, 1);
}

#[test]
fn look_up_listed_asks_for_listings() {
    let l = list(&["exe"]);
    let mut entry = PathEntry::new("C:\\a".to_string());
    let items = vec![Candidate::Path(PathEntry::new("C:\\a".to_string()))];
    let run = app(&[], false);
    assert!(matches!(run.look_up_listed("run", &l, &items), Ok(Step::List(0))));
    entry.fill(None, true);
    let items = vec![Candidate::Path(entry)];
    assert!(matches!(run.look_up_listed("run", &l, &items), Ok(Step::Done(_))));
    assert!(matches!(run.look_up_listed(".", &l, &items), Err(TokenError::Invalid)));
    let bad = list(&["exe", "b*t"]);
    assert!(matches!(run.look_up_listed("run", &bad, &items), Err(TokenError::Extension(1))));
}

#[test]
fn dot_alone_is_no_command() {
    let l = list(&["exe"]);
    let glob = pathext_glob(&l).unwrap();
    let run = app(&[], true);
    assert!(matches!(run.look_up(".", &l, &glob, &vec![]), Err(TokenError::Invalid)));
}

#[test]
fn run_counts_the_dot_as_not_found() {
    let l = list(&["exe", "bat"]);
    let items = vec![directory("C:\\a", &["a.exe", "b.bat", "c.exe"])];
    let run = app(&["a", ".", "?", "nope", "B"], false);
    let outcome = run.run(&l, &items).unwrap();
    assert_eq!(
        outcome.found,
        vec![vec![hit(0, 0)], vec![], vec![hit(0, 0), hit(0, 1), hit(0, 2)], vec![], vec![hit(0, 1)]]
    );
    assert_eq!(outcome.not_found, 2);
}

#[test]
fn run_fails_before_any_search_on_an_invalid_extension() {
    let l = list(&["exe", "b*t"]);
    let run = app(&["a"], false);
    assert!(matches!(run.run(&l, &vec![]), Err(RunError::Extension(1))));
}

#[test]
fn run_fails_at_a_token_that_is_too_large() {
    let l = list(&["exe"]);
    let long = "a".repeat(wh::pattern::MAX_PATTERN_LEN + 1);
    let run = app(&["a", ".", &long], false);
    match run.run(&l, &vec![]) {
        Err(RunError::Pattern(f)) => {
            assert_eq!(f.token, 2);
            assert!(matches!(f.error, PatternError::TooLarge));
        }
        _ => panic!("the run was to fail"),
    }
}

#[test]
fn new_glob_takes_capitals_for_small_letters() {
    let p = new_glob("Run", ".{exe}").unwrap();
    assert!(p.is_match("rUN.EXE"));
    assert!(!p.is_wildcard());
    let p = new_glob("r[n", "").unwrap();
    assert!(p.is_match("R[N"));
    assert!(!p.is_wildcard());
}

#[test]
fn token_that_is_too_large_is_not_looked_up() {
    let l = list(&["exe"]);
    let glob = pathext_glob(&l).unwrap();
    let long = "a".repeat(wh::pattern::MAX_PATTERN_LEN + 1);
    let run = app(&[], true);
    assert!(matches!(
        run.look_up(&long, &l, &glob, &vec![]),
        Err(TokenError::Pattern(PatternError::TooLarge))
    ));
}
