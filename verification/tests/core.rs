use fd::args::transform_args_with_exec;
use fd::buffer::{run_buffer, sort_entries, BufferState};
use fd::cmd::{any_failure, CommandTemplate, ExecutionResult};
use fd::config::{clamp_threads, normalize_extension, resolve_case_sensitivity};
use fd::strutil::{basename, extension, parent_dir, str_lex_le};
use fd::walk::{FileId, FileType, VisitedSet, WalkEntry};

fn oss(v: &str) -> String {
    String::from(v)
}

/// Ensure that -exec gets transformed into --exec
#[test]
fn normal_exec_substitution() {
    let original = vec![oss("fd"), oss("foo"), oss("-exec"), oss("cmd")];
    let expected = vec![oss("fd"), oss("foo"), oss("--exec"), oss("cmd")];

    let actual = transform_args_with_exec(original);
    assert_eq!(expected, actual);
}

/// Ensure that --exec is not touched
#[test]
fn passthru_of_original_exec() {
    let original = vec![oss("fd"), oss("foo"), oss("--exec"), oss("cmd")];
    let expected = vec![oss("fd"), oss("foo"), oss("--exec"), oss("cmd")];

    let actual = transform_args_with_exec(original);
    assert_eq!(expected, actual);
}

#[test]
fn temp_check_that_exec_context_observed() {
    let original = vec![
        oss("fd"),
        oss("foo"),
        oss("-exec"),
        oss("cmd"),
        oss("-exec"),
        oss("ls"),
        oss(";"),
        oss("-exec"),
        oss("rm"),
        oss(";"),
        oss("--exec"),
        oss("find"),
        oss("-exec"),
        oss("rm"),
        oss(";"),
        oss("-x"),
        oss("foo"),
        oss("-exec"),
        oss("something"),
        oss(";"),
        oss("-exec"),
    ];
    let expected = vec![
        oss("fd"),
        oss("foo"),
        oss("--exec"),
        oss("cmd"),
        oss("-exec"),
        oss("ls"),
        oss(";"),
        oss("--exec"),
        oss("rm"),
        oss(";"),
        oss("--exec"),
        oss("find"),
        oss("-exec"),
        oss("rm"),
        oss(";"),
        oss("-x"),
        oss("foo"),
        oss("-exec"),
        oss("something"),
        oss(";"),
        oss("--exec"),
    ];

    let actual = transform_args_with_exec(original);
    assert_eq!(expected, actual);
}

fn entry(path: &str) -> WalkEntry {
    WalkEntry { path: String::from(path), file_type: FileType::RegularFile, depth: 1 }
}

fn paths(v: &[WalkEntry]) -> Vec<String> {
    let mut out = Vec::new();
    for e in v {
        out.push(e.path.clone());
    }
    out
}

#[test]
fn quick_walk_is_sorted_at_close() {
    let events = vec![(entry("b"), false), (entry("a"), false), (entry("c"), false)];
    let (streamed, closing) = run_buffer(events, true);
    assert_eq!(paths(&streamed), Vec::<String>::new());
    assert_eq!(paths(&closing), vec![oss("a"), oss("b"), oss("c")]);
}

#[test]
fn late_walk_streams_in_arrival_order() {
    let events = vec![
        (entry("b"), false),
        (entry("a"), false),
        (entry("c"), true),
        (entry("x"), false),
    ];
    let (streamed, closing) = run_buffer(events, true);
    assert_eq!(paths(&streamed), vec![oss("b"), oss("a"), oss("c"), oss("x")]);
    assert_eq!(paths(&closing), Vec::<String>::new());
}

#[test]
fn no_buffer_window_streams_everything() {
    let events = vec![(entry("b"), false), (entry("a"), false)];
    let (streamed, closing) = run_buffer(events, false);
    assert_eq!(paths(&streamed), vec![oss("b"), oss("a")]);
    assert_eq!(paths(&closing), Vec::<String>::new());
}

#[test]
fn exactly_once_delivery_in_both_modes() {
    for late_at in [None, Some(0usize), Some(2), Some(4)] {
        let names = ["e", "d", "a", "c", "b"];
        let mut events = Vec::new();
        for (i, n) in names.iter().enumerate() {
            let late = match late_at {
                Some(k) => i >= k,
                None => false,
            };
            events.push((entry(n), late));
        }
        let (streamed, closing) = run_buffer(events, true);
        let mut all = paths(&streamed);
        all.extend(paths(&closing));
        let mut expected: Vec<String> = names.iter().map(|n| oss(n)).collect();
        all.sort();
        expected.sort();
        assert_eq!(all, expected);
    }
}

#[test]
fn buffer_state_transitions_are_irreversible() {
    let st = BufferState::start_buffering();
    let (st, out) = st.on_entry(entry("b"), false);
    assert!(out.is_empty());
    let (st, out) = st.on_entry(entry("a"), true);
    assert_eq!(paths(&out), vec![oss("b"), oss("a")]);
    let (st, out) = st.on_entry(entry("z"), false);
    assert_eq!(paths(&out), vec![oss("z")]);
    let closing = st.on_close();
    assert!(closing.is_empty());
}

#[test]
fn sort_entries_orders_by_path() {
    let v = vec![entry("z"), entry("aa"), entry("a"), entry("m")];
    let sorted = sort_entries(v);
    assert_eq!(paths(&sorted), vec![oss("a"), oss("aa"), oss("m"), oss("z")]);
}

#[test]
fn lexicographic_compare_on_paths() {
    assert!(str_lex_le("a", "b"));
    assert!(str_lex_le("a", "a"));
    assert!(str_lex_le("a", "aa"));
    assert!(!str_lex_le("b", "aa"));
    assert!(str_lex_le("", "x"));
}

#[test]
fn template_substitution_with_end_token() {
    let args = vec![oss("echo"), oss("{}"), oss("!")];
    let t = CommandTemplate::new(&args, "!").unwrap();
    let cmdline = t.generate("/tmp/x.txt");
    assert_eq!(cmdline, vec![oss("echo"), oss("/tmp/x.txt")]);
}

#[test]
fn template_without_placeholder_appends_path() {
    let args = vec![oss("echo"), oss("hi")];
    let t = CommandTemplate::new(&args, ";").unwrap();
    let cmdline = t.generate("/tmp/x.txt");
    assert_eq!(cmdline, vec![oss("echo"), oss("hi"), oss("/tmp/x.txt")]);
}

#[test]
fn template_fragment_placeholders() {
    let args = vec![oss("p"), oss("{/}"), oss("{//}")];
    let t = CommandTemplate::new(&args, ";").unwrap();
    let cmdline = t.generate("/tmp/sub/x.txt");
    assert_eq!(cmdline, vec![oss("p"), oss("x.txt"), oss("/tmp/sub")]);
}

#[test]
fn empty_template_is_an_error() {
    let args = vec![oss(";"), oss("echo")];
    assert!(CommandTemplate::new(&args, ";").is_err());
}

#[test]
fn aggregate_status_fails_iff_any_invocation_failed() {
    let ok = vec![ExecutionResult::Success, ExecutionResult::Success];
    assert!(!any_failure(&ok));
    let one_bad = vec![
        ExecutionResult::Success,
        ExecutionResult::ExitFailure,
        ExecutionResult::Success,
    ];
    assert!(any_failure(&one_bad));
    let spawn_bad = vec![ExecutionResult::SpawnFailed];
    assert!(any_failure(&spawn_bad));
    let signalled = vec![ExecutionResult::Signalled];
    assert!(any_failure(&signalled));
    assert!(!any_failure(&Vec::new()));
}

#[test]
fn smart_case_policy() {
    assert!(!resolve_case_sensitivity(false, false, "foo"));
    assert!(resolve_case_sensitivity(false, false, "Foo"));
    assert!(resolve_case_sensitivity(false, true, "foo"));
    assert!(!resolve_case_sensitivity(true, true, "Foo"));
}

#[test]
fn extension_normalization() {
    assert_eq!(normalize_extension(".TXT"), oss("txt"));
    assert_eq!(normalize_extension("..tar"), oss("tar"));
    assert_eq!(normalize_extension("Md"), oss("md"));
}

#[test]
fn path_fragments() {
    assert_eq!(basename("/tmp/sub/x.txt"), oss("x.txt"));
    assert_eq!(basename("plain"), oss("plain"));
    assert_eq!(parent_dir("/tmp/sub/x.txt"), oss("/tmp/sub"));
    assert_eq!(parent_dir("plain"), oss(""));
    assert_eq!(extension("x.tar.gz"), Some(oss("gz")));
    assert_eq!(extension(".gitignore"), None);
    assert_eq!(extension("noext"), None);
}

#[test]
fn visited_set_rejects_second_visit() {
    let mut vs = VisitedSet::new();
    let id = FileId { device: 3, inode: 77 };
    assert!(vs.record_visit(id));
    assert!(!vs.record_visit(id));
    assert!(vs.record_visit(FileId { device: 3, inode: 78 }));
}

#[test]
fn thread_count_is_at_least_one() {
    assert_eq!(clamp_threads(0), 1);
    assert_eq!(clamp_threads(1), 1);
    assert_eq!(clamp_threads(8), 8);
}

#[test]
fn run_status_reflects_any_error() {
    let mut status = fd::RunStatus::new();
    assert!(status.is_success());
    status.traversal_error = true;
    assert!(!status.is_success());
    let mut status = fd::RunStatus::new();
    status.command_failure = true;
    assert!(!status.is_success());
    let mut status = fd::RunStatus::new();
    status.startup_error = true;
    assert!(!status.is_success());
}

#[test]
fn batch_substitution_expands_placeholder_to_all_matches() {
    let args = vec![oss("echo"), oss("{}")];
    let t = CommandTemplate::new(&args, ";").unwrap();
    let paths = vec![oss("/tmp/a.txt"), oss("/tmp/b.txt")];
    let cmdline = t.generate_batch(&paths);
    assert_eq!(cmdline, vec![oss("echo"), oss("/tmp/a.txt"), oss("/tmp/b.txt")]);
}

#[test]
fn batch_substitution_with_fragments() {
    let args = vec![oss("p"), oss("{/}"), oss("end")];
    let t = CommandTemplate::new(&args, ";").unwrap();
    let paths = vec![oss("/x/a.txt"), oss("/y/b.txt")];
    let cmdline = t.generate_batch(&paths);
    assert_eq!(cmdline, vec![oss("p"), oss("a.txt"), oss("b.txt"), oss("end")]);
}

#[test]
fn exclude_rule_is_negated() {
    assert_eq!(fd::config::make_exclude_rule("a/b"), oss("!a/b"));
}
