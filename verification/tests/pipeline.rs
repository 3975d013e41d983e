use fd::config::{default_file_types, resolve_case_sensitivity, SearchConfig};
use fd::exclude::build_overrides;
use fd::filter::entry_passes_filters;
use fd::pattern::PatternMatcher;
use fd::walk::{process_directory, ChildEntry, FileType};

fn base_config() -> SearchConfig {
    SearchConfig {
        case_sensitive: false,
        search_full_path: false,
        ignore_hidden: true,
        read_ignore: true,
        read_gitignore: true,
        follow_links: false,
        null_separator: false,
        max_depth: None,
        threads: 1,
        max_buffer_time_ms: None,
        file_types: default_file_types(),
        extensions: None,
        command: None,
        exclude_patterns: Vec::new(),
    }
}

fn child(name: &str, ft: FileType) -> ChildEntry {
    ChildEntry { name: String::from(name), file_type: ft, ignored_by_rules: false }
}

fn matcher(pattern: &str, config: &SearchConfig) -> PatternMatcher {
    PatternMatcher::new(pattern, config.case_sensitive, config.search_full_path).unwrap()
}

fn no_excludes() -> ignore::overrides::Override {
    build_overrides(".", &Vec::new()).unwrap()
}

#[test]
fn smart_case_lowercase_pattern_matches_both() {
    let mut config = base_config();
    config.case_sensitive = resolve_case_sensitivity(false, false, "foo");
    let m = matcher("foo", &config);
    assert!(m.matches_entry("./Foo.txt", "Foo.txt"));
    assert!(m.matches_entry("./foo.txt", "foo.txt"));
}

#[test]
fn smart_case_uppercase_pattern_is_sensitive() {
    let mut config = base_config();
    config.case_sensitive = resolve_case_sensitivity(false, false, "Foo");
    let m = matcher("Foo", &config);
    assert!(m.matches_entry("./Foo.txt", "Foo.txt"));
    assert!(!m.matches_entry("./foo.txt", "foo.txt"));
}

#[test]
fn invalid_pattern_is_a_startup_error() {
    assert!(PatternMatcher::new("(unclosed", false, false).is_err());
}

fn match_paths(outcome: &fd::walk::DirOutcome) -> Vec<String> {
    let mut out = Vec::new();
    for e in &outcome.matches {
        out.push(e.path.clone());
    }
    out
}

fn subdir_paths(outcome: &fd::walk::DirOutcome) -> Vec<String> {
    let mut out = Vec::new();
    for p in &outcome.subdirs {
        out.push(p.path.clone());
    }
    out
}

#[test]
fn completeness_of_one_listing() {
    let config = base_config();
    let m = matcher("foo", &config);
    let ov = no_excludes();
    let children = vec![
        child("foo.txt", FileType::RegularFile),
        child("bar.txt", FileType::RegularFile),
        child("food", FileType::Directory),
        child(".foohidden", FileType::RegularFile),
    ];
    let outcome = process_directory(&config, &m, &ov, ".", 0, &children);
    assert_eq!(match_paths(&outcome), vec!["./foo.txt".to_string(), "./food".to_string()]);
    assert_eq!(subdir_paths(&outcome), vec!["./food".to_string()]);
    // the decision is a pure function of the listing: a second worker making
    // the same call reports the same set
    let again = process_directory(&config, &m, &ov, ".", 0, &children);
    assert_eq!(match_paths(&again), match_paths(&outcome));
}

#[test]
fn hidden_entries_reported_when_configured() {
    let mut config = base_config();
    config.ignore_hidden = false;
    let m = matcher("foo", &config);
    let ov = no_excludes();
    let children = vec![child(".foohidden", FileType::RegularFile)];
    let outcome = process_directory(&config, &m, &ov, ".", 0, &children);
    assert_eq!(match_paths(&outcome), vec!["./.foohidden".to_string()]);
}

#[test]
fn ignore_rules_prune_when_read() {
    let mut config = base_config();
    let m = matcher("foo", &config);
    let ov = no_excludes();
    let mut c = child("foo.txt", FileType::RegularFile);
    c.ignored_by_rules = true;
    let outcome = process_directory(&config, &m, &ov, ".", 0, &vec![c]);
    assert_eq!(match_paths(&outcome), Vec::<String>::new());

    config.read_ignore = false;
    let mut c = child("foo.txt", FileType::RegularFile);
    c.ignored_by_rules = true;
    let outcome = process_directory(&config, &m, &ov, ".", 0, &vec![c]);
    assert_eq!(match_paths(&outcome), vec!["./foo.txt".to_string()]);
}

#[test]
fn exclude_precedence_prunes_the_subtree() {
    let config = base_config();
    let m = matcher("c", &config);
    let rules = vec![String::from("!a/b")];
    let ov = build_overrides(".", &rules).unwrap();

    // level zero: the root's listing holds only the directory `a`
    let level0 = process_directory(&config, &m, &ov, ".", 0, &vec![child("a", FileType::Directory)]);
    assert_eq!(subdir_paths(&level0), vec!["./a".to_string()]);

    // level one: `a` holds only `b`, which the exclude rule prunes, so
    // `a/b/c.txt` is never listed and nothing ever matches
    let level1 =
        process_directory(&config, &m, &ov, "./a", 1, &vec![child("b", FileType::Directory)]);
    assert_eq!(match_paths(&level1), Vec::<String>::new());
    assert_eq!(subdir_paths(&level1), Vec::<String>::new());

    // without the rule the walk would have entered `b` and reported `c.txt`
    let open = no_excludes();
    let level1 =
        process_directory(&config, &m, &open, "./a", 1, &vec![child("b", FileType::Directory)]);
    assert_eq!(subdir_paths(&level1), vec!["./a/b".to_string()]);
    let level2 =
        process_directory(&config, &m, &open, "./a/b", 2, &vec![child("c.txt", FileType::RegularFile)]);
    assert_eq!(match_paths(&level2), vec!["./a/b/c.txt".to_string()]);
}

#[test]
fn depth_bound_stops_reporting_and_descent() {
    let mut config = base_config();
    config.max_depth = Some(1);
    let m = matcher(".", &config);
    let ov = no_excludes();
    let children = vec![child("f.txt", FileType::RegularFile), child("d", FileType::Directory)];
    // children of the root have depth 1 == the bound: reported, not entered
    let outcome = process_directory(&config, &m, &ov, ".", 0, &children);
    assert_eq!(match_paths(&outcome), vec!["./f.txt".to_string(), "./d".to_string()]);
    assert_eq!(subdir_paths(&outcome), Vec::<String>::new());

    // a bound of 2 lets the walk enter `d`
    config.max_depth = Some(2);
    let outcome = process_directory(&config, &m, &ov, ".", 0, &children);
    assert_eq!(subdir_paths(&outcome), vec!["./d".to_string()]);
}

#[test]
fn type_filter_limits_reports() {
    let mut config = base_config();
    config.file_types = vec![FileType::Directory];
    let m = matcher(".", &config);
    let ov = no_excludes();
    let children = vec![child("f.txt", FileType::RegularFile), child("d", FileType::Directory)];
    let outcome = process_directory(&config, &m, &ov, ".", 0, &children);
    assert_eq!(match_paths(&outcome), vec!["./d".to_string()]);
}

#[test]
fn extension_filter_is_case_insensitive() {
    let mut config = base_config();
    config.extensions = Some(vec![String::from("txt")]);
    assert!(entry_passes_filters(&config, FileType::RegularFile, "FOO.TXT"));
    assert!(entry_passes_filters(&config, FileType::RegularFile, "a.txt"));
    assert!(!entry_passes_filters(&config, FileType::RegularFile, "a.md"));
    assert!(!entry_passes_filters(&config, FileType::RegularFile, "noext"));
    assert!(!entry_passes_filters(&config, FileType::RegularFile, ".txt"));
}

#[test]
fn full_path_matching() {
    let mut config = base_config();
    config.search_full_path = true;
    let m = matcher("sub/.*txt", &config);
    assert!(m.matches_entry("./sub/x.txt", "x.txt"));
    assert!(!m.matches_entry("./other/x.md", "x.md"));

    let by_name = matcher("sub", &base_config());
    assert!(!by_name.matches_entry("./sub/x.txt", "x.txt"));
}

#[test]
fn invalid_exclude_glob_is_a_startup_error() {
    let rules = vec![String::from("!a/[")];
    assert!(build_overrides(".", &rules).is_err());
}
