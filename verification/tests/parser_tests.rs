use pty_sandbox::filesystem::make_file_entry;
use pty_sandbox::filesystem::not_directory_message;
use pty_sandbox::filesystem::not_file_message;
use pty_sandbox::strutil::concat_str;
use pty_sandbox::strutil::remove_occurrences;
use pty_sandbox::strutil::split_into_lines;
use pty_sandbox::strutil::split_on_char;
use pty_sandbox::strutil::str_ends_with;
use pty_sandbox::strutil::str_eq;
use pty_sandbox::strutil::str_starts_with;
use pty_sandbox::strutil::tail_from;
use pty_sandbox::strutil::trim_ws;
use pty_sandbox::worktree::base_ref_error_message;
use pty_sandbox::worktree::choose_base_ref;
use pty_sandbox::worktree::created_worktree;
use pty_sandbox::worktree::indicates_changes;
use pty_sandbox::worktree::main_repo_path_from;
use pty_sandbox::worktree::merge_checkout_failure;
use pty_sandbox::worktree::merge_conflict_result;
use pty_sandbox::worktree::merge_success_result;
use pty_sandbox::worktree::parse_ahead_behind;
use pty_sandbox::worktree::parse_conflicts;
use pty_sandbox::worktree::parse_i32;
use pty_sandbox::worktree::parse_worktree_list;
use pty_sandbox::worktree::worktree_remove_args;

#[test]
fn string_helpers_behave() {
    assert!(str_starts_with("worktree /repo", "worktree "));
    assert!(!str_starts_with("work", "worktree "));
    assert!(str_ends_with("/repo/.git", ".git"));
    assert!(!str_ends_with("it", ".git"));
    assert!(str_eq("bare", "bare"));
    assert!(!str_eq("bare", "bar"));
    assert_eq!(concat_str("ab", "cd"), "abcd");
    assert_eq!(tail_from("HEAD abc", 5), "abc");
}

#[test]
fn lines_split_as_the_standard_splitter_does() {
    assert_eq!(split_into_lines("a\nb"), vec!["a", "b"]);
    assert_eq!(split_into_lines("a\nb\n"), vec!["a", "b"]);
    assert_eq!(split_into_lines("a\r\nb\r\n"), vec!["a", "b"]);
    assert_eq!(split_into_lines("a\n\nb"), vec!["a", "", "b"]);
    assert_eq!(split_into_lines(""), Vec::<String>::new());
    assert_eq!(split_into_lines("\n"), vec![""]);
}

#[test]
fn split_on_char_keeps_empty_segments() {
    assert_eq!(split_on_char("a\tb", '\t'), vec!["a", "b"]);
    assert_eq!(split_on_char("a\t\tb", '\t'), vec!["a", "", "b"]);
    assert_eq!(split_on_char("", '\t'), vec![""]);
    assert_eq!(split_on_char("a\t", '\t'), vec!["a", ""]);
}

#[test]
fn trim_removes_surrounding_whitespace() {
    assert_eq!(trim_ws("  2\t3\n"), "2\t3");
    assert_eq!(trim_ws("abc"), "abc");
    assert_eq!(trim_ws(" \t\r\n "), "");
    assert_eq!(trim_ws(" a b "), "a b");
}

#[test]
fn remove_occurrences_removes_every_occurrence() {
    assert_eq!(remove_occurrences("refs/heads/main", "refs/heads/"), "main");
    assert_eq!(remove_occurrences("abcabc", "b"), "acac");
    assert_eq!(remove_occurrences("aaa", "aa"), "a");
    assert_eq!(remove_occurrences("plain", "refs/heads/"), "plain");
}

#[test]
fn worktree_listing_parses() {
    let output = "worktree /repo\nHEAD abc123\nbranch refs/heads/main\n\nworktree /repo-wt\nHEAD def456\ndetached\n";
    let wts = parse_worktree_list(output);
    assert_eq!(wts.len(), 2);
    assert_eq!(wts[0].path, "/repo");
    assert_eq!(wts[0].head, "abc123");
    assert_eq!(wts[0].branch.as_deref(), Some("main"));
    assert!(!wts[0].is_bare);
    assert!(!wts[0].is_detached);
    assert!(wts[0].is_main);
    assert_eq!(wts[1].path, "/repo-wt");
    assert_eq!(wts[1].head, "def456");
    assert_eq!(wts[1].branch, None);
    assert!(wts[1].is_detached);
    assert!(!wts[1].is_main);
}

#[test]
fn worktree_listing_without_trailing_blank_line() {
    let output = "worktree /solo\nHEAD 0a0b\nbranch refs/heads/dev";
    let wts = parse_worktree_list(output);
    assert_eq!(wts.len(), 1);
    assert_eq!(wts[0].path, "/solo");
    assert_eq!(wts[0].branch.as_deref(), Some("dev"));
    assert!(wts[0].is_main);
}

#[test]
fn worktree_listing_bare_and_empty() {
    let output = "worktree /bare-repo\nbare\n\n";
    let wts = parse_worktree_list(output);
    assert_eq!(wts.len(), 1);
    assert!(wts[0].is_bare);
    assert_eq!(wts[0].head, "");
    assert_eq!(parse_worktree_list("").len(), 0);
    assert_eq!(parse_worktree_list("\n\n").len(), 0);
}

#[test]
fn numbers_parse_as_the_standard_parser_does() {
    assert_eq!(parse_i32("42"), Some(42));
    assert_eq!(parse_i32("+42"), Some(42));
    assert_eq!(parse_i32("-42"), Some(-42));
    assert_eq!(parse_i32("0"), Some(0));
    assert_eq!(parse_i32("2147483647"), Some(2147483647));
    assert_eq!(parse_i32("2147483648"), None);
    assert_eq!(parse_i32("-2147483648"), Some(-2147483648));
    assert_eq!(parse_i32("-2147483649"), None);
    assert_eq!(parse_i32("99999999999999999999"), None);
    assert_eq!(parse_i32(""), None);
    assert_eq!(parse_i32("-"), None);
    assert_eq!(parse_i32("+"), None);
    assert_eq!(parse_i32("12a"), None);
    assert_eq!(parse_i32(" 12"), None);
}

#[test]
fn ahead_behind_counts_parse() {
    assert_eq!(parse_ahead_behind("2\t3\n"), (2, 3));
    assert_eq!(parse_ahead_behind("  7\t0  "), (7, 0));
    assert_eq!(parse_ahead_behind("x\t5"), (0, 5));
    assert_eq!(parse_ahead_behind("garbage"), (0, 0));
    assert_eq!(parse_ahead_behind("1\t2\t3"), (0, 0));
    assert_eq!(parse_ahead_behind(""), (0, 0));
}

#[test]
fn conflict_paths_parse() {
    let status = "UU src/main.rs\nM  other.rs\nAA both-added.txt\nDD both-deleted.txt\n?? new.txt\n";
    let conflicts = parse_conflicts(status);
    assert_eq!(
        conflicts,
        vec!["src/main.rs", "both-added.txt", "both-deleted.txt"]
    );
    assert_eq!(parse_conflicts("").len(), 0);
    assert_eq!(parse_conflicts("UU").len(), 0);
}

#[test]
fn merge_results_take_their_shape() {
    let ok = merge_success_result();
    assert!(ok.success);
    assert_eq!(ok.message, "Merge successful");
    assert!(ok.conflicts.is_empty());

    let co = merge_checkout_failure("error: pathspec".to_string());
    assert!(!co.success);
    assert_eq!(co.message, "error: pathspec");
    assert!(co.conflicts.is_empty());

    let mc = merge_conflict_result(
        "CONFLICT (content)".to_string(),
        "UU a.txt\nUU b.txt\n",
    );
    assert!(!mc.success);
    assert_eq!(mc.message, "CONFLICT (content)");
    assert_eq!(mc.conflicts, vec!["a.txt", "b.txt"]);
}

#[test]
fn main_repo_path_strips_git_directory() {
    assert_eq!(main_repo_path_from("/srv/repo/.git"), "/srv/repo");
    assert_eq!(main_repo_path_from("/srv/repo"), "/srv/repo");
    assert_eq!(main_repo_path_from("/.git"), "/");
}

#[test]
fn base_ref_choice_and_error() {
    assert_eq!(
        choose_base_ref(Some("abc".to_string()), Some("head".to_string())).as_deref(),
        Some("abc")
    );
    assert_eq!(
        choose_base_ref(None, Some("head".to_string())).as_deref(),
        Some("head")
    );
    assert_eq!(choose_base_ref(None, None), None);
    assert_eq!(
        base_ref_error_message("dev", "/repo", "fatal: bad revision"),
        "Failed to resolve 'dev' and HEAD in /repo: fatal: bad revision"
    );
}

#[test]
fn created_worktree_record() {
    let w = created_worktree(
        "/repo-wt".to_string(),
        "abc".to_string(),
        "feature".to_string(),
    );
    assert_eq!(w.path, "/repo-wt");
    assert_eq!(w.head, "abc");
    assert_eq!(w.branch.as_deref(), Some("feature"));
    assert!(!w.is_bare && !w.is_detached && !w.is_main);
}

#[test]
fn remove_args_honor_force() {
    assert_eq!(
        worktree_remove_args("/wt", false),
        vec!["worktree", "remove", "/wt"]
    );
    assert_eq!(
        worktree_remove_args("/wt", true),
        vec!["worktree", "remove", "--force", "/wt"]
    );
}

#[test]
fn uncommitted_changes_follow_status_output() {
    assert!(!indicates_changes(b""));
    assert!(indicates_changes(b" M file\n"));
}

#[test]
fn file_entries_take_their_shape() {
    let e = make_file_entry("/home/u/d".to_string(), Some("d".to_string()), true);
    assert_eq!(e.path, "/home/u/d");
    assert_eq!(e.name, "d");
    assert_eq!(e.entry_type, "directory");
    let f = make_file_entry("/home/u/f".to_string(), None, false);
    assert_eq!(f.name, "unknown");
    assert_eq!(f.entry_type, "file");
    assert_eq!(not_directory_message("/x"), "Path is not a directory: /x");
    assert_eq!(not_file_message("/x"), "Path is not a file: /x");
}
