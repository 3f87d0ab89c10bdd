//! Parsing of git porcelain output and the small decisions of the
//! worktree commands. The git subprocesses themselves run outside; the
//! functions here turn their textual output into typed values.

use vstd::prelude::*;
use vstd::string::StrSliceExecFns;
use vstd::string::StringExecFns;

use crate::sandbox::is_absolute;
use crate::sandbox::parent_of;
use crate::sandbox::parent_path;
use crate::strutil::concat_str;
use crate::strutil::ends_with;
use crate::strutil::remove_all;
use crate::strutil::remove_occurrences;
use crate::strutil::split_char;
use crate::strutil::split_into_lines;
use crate::strutil::split_lines;
use crate::strutil::split_on_char;
use crate::strutil::starts_with;
use crate::strutil::str_ends_with;
use crate::strutil::str_eq;
use crate::strutil::str_starts_with;
use crate::strutil::tail_from;
use crate::strutil::trim_spec;
use crate::strutil::trim_ws;

verus! {

/// One worktree of a repository, as git lists it.
pub struct Worktree {
    pub path: String,
    pub head: String,
    pub branch: Option<String>,
    pub is_bare: bool,
    pub is_detached: bool,
    pub is_main: bool,
}

/// The mathematical value of a [`Worktree`].
pub struct WorktreeView {
    pub path: Seq<char>,
    pub head: Seq<char>,
    pub branch: Option<Seq<char>>,
    pub is_bare: bool,
    pub is_detached: bool,
    pub is_main: bool,
}

impl View for Worktree {
    type V = WorktreeView;

    open spec fn view(&self) -> WorktreeView {
        WorktreeView {
            path: self.path@,
            head: self.head@,
            branch: match self.branch {
                Some(b) => Some(b@),
                None => None,
            },
            is_bare: self.is_bare,
            is_detached: self.is_detached,
            is_main: self.is_main,
        }
    }
}

/// The outcome of a merge attempt.
pub struct MergeResult {
    pub success: bool,
    pub message: String,
    pub conflicts: Vec<String>,
}

/// A branch together with its upstream relationship.
pub struct BranchInfo {
    pub name: String,
    pub upstream: Option<String>,
    pub ahead: i32,
    pub behind: i32,
}

/// The fields gathered for the worktree record under construction.
pub struct ParseState {
    pub path: Seq<char>,
    pub head: Seq<char>,
    pub branch: Option<Seq<char>>,
    pub is_bare: bool,
    pub is_detached: bool,
    pub first: bool,
}

/// A state with no fields gathered yet.
pub open spec fn fresh_state(first: bool) -> ParseState {
    ParseState {
        path: Seq::<char>::empty(),
        head: Seq::<char>::empty(),
        branch: None,
        is_bare: false,
        is_detached: false,
        first,
    }
}

/// The record a completed state yields.
pub open spec fn state_record(st: ParseState) -> WorktreeView {
    WorktreeView {
        path: st.path,
        head: st.head,
        branch: st.branch,
        is_bare: st.is_bare,
        is_detached: st.is_detached,
        is_main: st.first,
    }
}

/// The porcelain worktree listing, line by line: attribute lines fill
/// the current record, an empty line completes it, and only the first
/// completed record is the main worktree.
pub open spec fn parse_rec(lines: Seq<Seq<char>>, st: ParseState) -> Seq<WorktreeView>
    decreases lines.len(),
{
    if lines.len() == 0 {
        if st.path.len() > 0 {
            seq![state_record(st)]
        } else {
            Seq::<WorktreeView>::empty()
        }
    } else {
        let l = lines[0];
        let rest = lines.skip(1);
        if l.len() == 0 {
            if st.path.len() > 0 {
                seq![state_record(st)] + parse_rec(rest, fresh_state(false))
            } else {
                parse_rec(rest, fresh_state(st.first))
            }
        } else if starts_with(l, "worktree "@) {
            parse_rec(
                rest,
                ParseState { path: l.skip("worktree "@.len() as int), ..st },
            )
        } else if starts_with(l, "HEAD "@) {
            parse_rec(rest, ParseState { head: l.skip("HEAD "@.len() as int), ..st })
        } else if starts_with(l, "branch "@) {
            parse_rec(
                rest,
                ParseState {
                    branch: Some(
                        remove_all(l.skip("branch "@.len() as int), "refs/heads/"@),
                    ),
                    ..st
                },
            )
        } else if l == "bare"@ {
            parse_rec(rest, ParseState { is_bare: true, ..st })
        } else if l == "detached"@ {
            parse_rec(rest, ParseState { is_detached: true, ..st })
        } else {
            parse_rec(rest, st)
        }
    }
}

/// The worktrees that the porcelain listing `s` describes.
pub open spec fn parse_worktrees(s: Seq<char>) -> Seq<WorktreeView> {
    parse_rec(split_lines(s), fresh_state(true))
}

spec fn exec_state(
    path: String,
    head: String,
    branch: Option<String>,
    is_bare: bool,
    is_detached: bool,
    first: bool,
) -> ParseState {
    ParseState {
        path: path@,
        head: head@,
        branch: match branch {
            Some(b) => Some(b@),
            None => None,
        },
        is_bare,
        is_detached,
        first,
    }
}

/// Parses the porcelain output of a worktree listing.
pub fn parse_worktree_list(output: &str) -> (result: Vec<Worktree>)
    ensures
        result@.map_values(|w: Worktree| w@) == parse_worktrees(output@),
{
    let lines = split_into_lines(output);
    let ghost all = split_lines(output@);
    let mut worktrees: Vec<Worktree> = Vec::new();
    let mut current_path = String::new();
    let mut current_head = String::new();
    let mut current_branch: Option<String> = None;
    let mut is_bare = false;
    let mut is_detached = false;
    let mut is_first = true;
    let n = lines.len();
    let mut i: usize = 0;
    proof {
        assert(all.skip(0) =~= all);
        assert(worktrees@.map_values(|w: Worktree| w@) =~= Seq::<WorktreeView>::empty());
        assert(Seq::<WorktreeView>::empty() + parse_rec(all, fresh_state(true)) =~= parse_rec(
            all,
            fresh_state(true),
        ));
    }
    while i < n
        invariant
            i <= n,
            n == lines@.len(),
            lines@.map_values(|l: String| l@) == all,
            parse_worktrees(output@) == worktrees@.map_values(|w: Worktree| w@) + parse_rec(
                all.skip(i as int),
                exec_state(current_path, current_head, current_branch, is_bare, is_detached, is_first),
            ),
        decreases n - i,
    {
        let ghost st = exec_state(
            current_path,
            current_head,
            current_branch,
            is_bare,
            is_detached,
            is_first,
        );
        let line = &lines[i];
        proof {
            assert(lines@.map_values(|l: String| l@)[i as int] == line@);
            assert(all.skip(i as int)[0] == all[i as int]);
            assert(all.skip(i as int).skip(1) =~= all.skip(i as int + 1));
        }
        if line.as_str().is_empty() {
            if !current_path.as_str().is_empty() {
                let record = Worktree {
                    path: current_path.clone(),
                    head: current_head.clone(),
                    branch: match &current_branch {
                        Some(b) => Some(b.clone()),
                        None => None,
                    },
                    is_bare,
                    is_detached,
                    is_main: is_first,
                };
                proof {
                    assert(record@ == state_record(st));
                    assert((worktrees@.push(record)).map_values(|w: Worktree| w@)
                        =~= worktrees@.map_values(|w: Worktree| w@).push(record@));
                    assert(worktrees@.map_values(|w: Worktree| w@) + (seq![state_record(st)]
                        + parse_rec(all.skip(i as int + 1), fresh_state(false)))
                        =~= (worktrees@.push(record)).map_values(|w: Worktree| w@) + parse_rec(
                        all.skip(i as int + 1),
                        fresh_state(false),
                    ));
                }
                worktrees.push(record);
                is_first = false;
            }
            current_path = String::new();
            current_head = String::new();
            current_branch = None;
            is_bare = false;
            is_detached = false;
        } else if str_starts_with(line.as_str(), "worktree ") {
            let plen = "worktree ".unicode_len();
            current_path = tail_from(line.as_str(), plen);
        } else if str_starts_with(line.as_str(), "HEAD ") {
            let plen = "HEAD ".unicode_len();
            current_head = tail_from(line.as_str(), plen);
        } else if str_starts_with(line.as_str(), "branch ") {
            let plen = "branch ".unicode_len();
            let raw = tail_from(line.as_str(), plen);
            proof {
                reveal_strlit("refs/heads/");
            }
            current_branch = Some(remove_occurrences(raw.as_str(), "refs/heads/"));
        } else if str_eq(line.as_str(), "bare") {
            is_bare = true;
        } else if str_eq(line.as_str(), "detached") {
            is_detached = true;
        }
        i += 1;
    }
    proof {
        assert(all.skip(n as int) =~= Seq::<Seq<char>>::empty());
    }
    let ghost st = exec_state(
        current_path,
        current_head,
        current_branch,
        is_bare,
        is_detached,
        is_first,
    );
    if !current_path.as_str().is_empty() {
        let record = Worktree {
            path: current_path,
            head: current_head,
            branch: current_branch,
            is_bare,
            is_detached,
            is_main: is_first,
        };
        proof {
            assert(record@ == state_record(st));
            assert((worktrees@.push(record)).map_values(|w: Worktree| w@) =~= worktrees@.map_values(
                |w: Worktree| w@,
            ).push(record@));
            assert(worktrees@.map_values(|w: Worktree| w@) + seq![state_record(st)]
                =~= (worktrees@.push(record)).map_values(|w: Worktree| w@));
        }
        worktrees.push(record);
    } else {
        proof {
            assert(worktrees@.map_values(|w: Worktree| w@) + Seq::<WorktreeView>::empty()
                =~= worktrees@.map_values(|w: Worktree| w@));
        }
    }
    worktrees
}

/// Whether a porcelain status line marks a merge conflict.
pub open spec fn is_conflict_line(l: Seq<char>) -> bool {
    starts_with(l, "UU"@) || starts_with(l, "AA"@) || starts_with(l, "DD"@)
}

/// The paths of the conflicted files in a porcelain status listing:
/// what follows the three status columns of each conflict line. A
/// marker line too short to carry a path contributes nothing.
pub open spec fn conflict_paths(lines: Seq<Seq<char>>) -> Seq<Seq<char>>
    decreases lines.len(),
{
    if lines.len() == 0 {
        Seq::<Seq<char>>::empty()
    } else if is_conflict_line(lines[0]) && lines[0].len() >= 3 {
        seq![lines[0].skip(3)] + conflict_paths(lines.skip(1))
    } else {
        conflict_paths(lines.skip(1))
    }
}

/// Collects the conflicted paths from porcelain status output.
pub fn parse_conflicts(status: &str) -> (r: Vec<String>)
    ensures
        r@.map_values(|c: String| c@) == conflict_paths(split_lines(status@)),
{
    let lines = split_into_lines(status);
    let ghost all = split_lines(status@);
    let mut out: Vec<String> = Vec::new();
    let n = lines.len();
    let mut i: usize = 0;
    proof {
        assert(all.skip(0) =~= all);
        assert(out@.map_values(|c: String| c@) =~= Seq::<Seq<char>>::empty());
        assert(Seq::<Seq<char>>::empty() + conflict_paths(all) =~= conflict_paths(all));
    }
    while i < n
        invariant
            i <= n,
            n == lines@.len(),
            lines@.map_values(|l: String| l@) == all,
            conflict_paths(all) == out@.map_values(|c: String| c@) + conflict_paths(
                all.skip(i as int),
            ),
        decreases n - i,
    {
        let line = &lines[i];
        proof {
            assert(lines@.map_values(|l: String| l@)[i as int] == line@);
            assert(all.skip(i as int)[0] == all[i as int]);
            assert(all.skip(i as int).skip(1) =~= all.skip(i as int + 1));
        }
        let marked = str_starts_with(line.as_str(), "UU") || str_starts_with(line.as_str(), "AA")
            || str_starts_with(line.as_str(), "DD");
        if marked && line.as_str().unicode_len() >= 3 {
            let path = tail_from(line.as_str(), 3);
            proof {
                assert((out@.push(path)).map_values(|c: String| c@) =~= out@.map_values(
                    |c: String| c@,
                ).push(path@));
            }
            out.push(path);
        }
        i += 1;
    }
    proof {
        assert(all.skip(n as int) =~= Seq::<Seq<char>>::empty());
        assert(out@.map_values(|c: String| c@) + Seq::<Seq<char>>::empty() =~= out@.map_values(
            |c: String| c@,
        ));
    }
    out
}

/// The merge result when the target branch cannot be checked out.
pub fn merge_checkout_failure(stderr: String) -> (r: MergeResult)
    ensures
        !r.success,
        r.message@ == stderr@,
        r.conflicts@.len() == 0,
{
    MergeResult { success: false, message: stderr, conflicts: Vec::new() }
}

/// The merge result for a merge that went through.
pub fn merge_success_result() -> (r: MergeResult)
    ensures
        r.success,
        r.message@ == "Merge successful"@,
        r.conflicts@.len() == 0,
{
    MergeResult { success: true, message: "Merge successful".to_owned(), conflicts: Vec::new() }
}

/// The merge result for a failed merge: the merge's error text together
/// with the conflicted paths read from the status listing.
pub fn merge_conflict_result(stderr: String, status: &str) -> (r: MergeResult)
    ensures
        !r.success,
        r.message@ == stderr@,
        r.conflicts@.map_values(|c: String| c@) == conflict_paths(split_lines(status@)),
{
    let conflicts = parse_conflicts(status);
    MergeResult { success: false, message: stderr, conflicts }
}

/// Is `c` a decimal digit?
pub open spec fn is_digit(c: char) -> bool {
    '0' <= c && c <= '9'
}

/// The number the digit string `s` denotes.
pub open spec fn digits_val(s: Seq<char>) -> int
    decreases s.len(),
{
    if s.len() == 0 {
        0
    } else {
        digits_val(s.drop_last()) * 10 + (s.last() as int - '0' as int)
    }
}

/// Every character of `s` is a decimal digit.
pub open spec fn all_digits(s: Seq<char>) -> bool {
    forall|i: int| 0 <= i < s.len() ==> is_digit(s[i])
}

/// The signed 32-bit integer `s` denotes: an optional sign, then at
/// least one digit and nothing else, with the value in range.
pub open spec fn parse_i32_spec(s: Seq<char>) -> Option<int> {
    let neg = s.len() > 0 && s[0] == '-';
    let signed = s.len() > 0 && (s[0] == '-' || s[0] == '+');
    let body = if signed {
        s.skip(1)
    } else {
        s
    };
    if body.len() == 0 || !all_digits(body) {
        None
    } else {
        let v = if neg {
            -digits_val(body)
        } else {
            digits_val(body)
        };
        if i32::MIN <= v <= i32::MAX {
            Some(v)
        } else {
            None
        }
    }
}

proof fn lemma_digits_val_nonneg(s: Seq<char>)
    requires
        all_digits(s),
    ensures
        digits_val(s) >= 0,
    decreases s.len(),
{
    if s.len() > 0 {
        assert(all_digits(s.drop_last())) by {
            assert(forall|i: int| 0 <= i < s.len() - 1 ==> s.drop_last()[i] == s[i]);
        }
        lemma_digits_val_nonneg(s.drop_last());
    }
}

/// Parses a signed 32-bit integer as the standard numeric parser does.
pub fn parse_i32(s: &str) -> (r: Option<i32>)
    ensures
        r is Some <==> parse_i32_spec(s@) is Some,
        r matches Some(v) ==> parse_i32_spec(s@) == Some(v as int),
{
    let n = s.unicode_len();
    let mut start: usize = 0;
    let mut neg = false;
    if n > 0 {
        let c0 = s.get_char(0);
        if c0 == '-' {
            neg = true;
            start = 1;
        } else if c0 == '+' {
            start = 1;
        }
    }
    let ghost body = if start == 1 {
        s@.skip(1)
    } else {
        s@
    };
    proof {
        assert(s@.skip(0) =~= s@);
        assert(body =~= s@.skip(start as int));
    }
    if start == n {
        return None;
    }
    let bound: i64 = 2147483648;
    let mut acc: i64 = 0;
    let mut too_big = false;
    let mut i = start;
    proof {
        assert(s@.subrange(start as int, start as int) =~= Seq::<char>::empty());
    }
    while i < n
        invariant
            start <= i <= n,
            n == s@.len(),
            body == s@.skip(start as int),
            neg <==> (s@.len() > 0 && s@[0] == '-'),
            (s@.len() > 0 && (s@[0] == '-' || s@[0] == '+')) <==> start == 1,
            start <= 1,
            bound == 2147483648,
            all_digits(s@.subrange(start as int, i as int)),
            !too_big ==> 0 <= acc <= bound && acc == digits_val(s@.subrange(start as int, i as int)),
            too_big ==> digits_val(s@.subrange(start as int, i as int)) > bound,
        decreases n - i,
    {
        let c = s.get_char(i);
        if !(c >= '0' && c <= '9') {
            proof {
                let k = i - start;
                assert(body[k as int] == s@[i as int]);
                assert(!is_digit(body[k as int]));
                assert(!all_digits(body));
                assert(s@.skip(0) =~= s@);
                assert(parse_i32_spec(s@) is None);
            }
            return None;
        }
        proof {
            let t = s@.subrange(start as int, i as int);
            assert(t.push(s@[i as int]) =~= s@.subrange(start as int, i as int + 1));
            assert(s@.subrange(start as int, i as int + 1).drop_last() =~= t);
            lemma_digits_val_nonneg(t);
        }
        let d: i64 = (c as u32 as i64) - ('0' as u32 as i64);
        if too_big {
            proof {
                let t = s@.subrange(start as int, i as int);
                let t2 = s@.subrange(start as int, i as int + 1);
                assert(digits_val(t2) == digits_val(t) * 10 + (s@[i as int] as int - '0' as int));
                assert(digits_val(t) * 10 >= digits_val(t));
            }
        } else {
            acc = acc * 10 + d;
            if acc > bound {
                too_big = true;
            }
        }
        i += 1;
    }
    proof {
        assert(s@.subrange(start as int, n as int) =~= body);
    }
    if too_big {
        proof {
            lemma_digits_val_nonneg(body);
        }
        return None;
    }
    if neg {
        let v: i64 = -acc;
        proof {
            assert(i32::MIN as i64 <= v <= i32::MAX as i64);
        }
        Some(v as i32)
    } else {
        if acc > 2147483647 {
            return None;
        }
        Some(acc as i32)
    }
}

/// The integer a porcelain count denotes, or zero when it does not
/// parse.
pub open spec fn i32_or_zero(s: Seq<char>) -> int {
    match parse_i32_spec(s) {
        Some(v) => v,
        None => 0,
    }
}

/// The ahead and behind counts in a left-right rev-list count: two
/// tab-separated numbers after trimming, and zero for anything that
/// does not fit that shape.
pub open spec fn ahead_behind_spec(s: Seq<char>) -> (int, int) {
    let parts = split_char(trim_spec(s), '\t');
    if parts.len() == 2 {
        (i32_or_zero(parts[0]), i32_or_zero(parts[1]))
    } else {
        (0, 0)
    }
}

/// Reads the ahead and behind counts from rev-list output.
pub fn parse_ahead_behind(s: &str) -> (r: (i32, i32))
    ensures
        r.0 as int == ahead_behind_spec(s@).0,
        r.1 as int == ahead_behind_spec(s@).1,
{
    let trimmed = trim_ws(s);
    let parts = split_on_char(trimmed.as_str(), '\t');
    if parts.len() == 2 {
        proof {
            assert(parts@.map_values(|p: String| p@)[0] == parts@[0]@);
            assert(parts@.map_values(|p: String| p@)[1] == parts@[1]@);
        }
        let a = match parse_i32(parts[0].as_str()) {
            Some(v) => v,
            None => 0,
        };
        let b = match parse_i32(parts[1].as_str()) {
            Some(v) => v,
            None => 0,
        };
        (a, b)
    } else {
        (0, 0)
    }
}

/// The repository root a common git directory names: the directory
/// itself, or its parent when it ends in the git directory name.
pub open spec fn main_repo_spec(p: Seq<char>) -> Seq<char> {
    if ends_with(p, ".git"@) {
        match parent_of(p) {
            Some(par) => par,
            None => p,
        }
    } else {
        p
    }
}

/// Resolves the main repository path from an absolute common git
/// directory path.
pub fn main_repo_path_from(p: &str) -> (r: String)
    requires
        is_absolute(p@),
    ensures
        r@ == main_repo_spec(p@),
{
    if str_ends_with(p, ".git") {
        match parent_path(p) {
            Some(par) => par,
            None => p.to_owned(),
        }
    } else {
        p.to_owned()
    }
}

/// The base commit for a new worktree: the verified reference when git
/// resolved it, else the repository head if that resolved.
pub fn choose_base_ref(resolved: Option<String>, head: Option<String>) -> (r: Option<String>)
    ensures
        resolved matches Some(s) ==> (r matches Some(t) && t@ == s@),
        resolved is None ==> r == head,
{
    match resolved {
        Some(s) => Some(s),
        None => head,
    }
}

/// The error text when neither the requested base nor the head of the
/// repository resolves.
pub fn base_ref_error_message(base_branch: &str, repo_path: &str, stderr: &str) -> (r: String)
    ensures
        r@ == "Failed to resolve '"@ + base_branch@ + "' and HEAD in "@ + repo_path@ + ": "@
            + stderr@,
{
    let mut m = concat_str("Failed to resolve '", base_branch);
    m.append("' and HEAD in ");
    m.append(repo_path);
    m.append(": ");
    m.append(stderr);
    m
}

/// The record a freshly created worktree gets: on the new branch, not
/// bare, not detached, never the main worktree.
pub fn created_worktree(path: String, head: String, branch_name: String) -> (r: Worktree)
    ensures
        r@.path == path@,
        r@.head == head@,
        r@.branch == Some(branch_name@),
        !r@.is_bare,
        !r@.is_detached,
        !r@.is_main,
{
    Worktree {
        path,
        head,
        branch: Some(branch_name),
        is_bare: false,
        is_detached: false,
        is_main: false,
    }
}

/// The argument list of a worktree removal, with the force flag before
/// the path when asked for.
pub fn worktree_remove_args(worktree_path: &str, force: bool) -> (r: Vec<String>)
    ensures
        force ==> r@.map_values(|a: String| a@) == seq![
            "worktree"@,
            "remove"@,
            "--force"@,
            worktree_path@,
        ],
        !force ==> r@.map_values(|a: String| a@) == seq!["worktree"@, "remove"@, worktree_path@],
{
    let mut args: Vec<String> = Vec::new();
    args.push("worktree".to_owned());
    args.push("remove".to_owned());
    if force {
        args.push("--force".to_owned());
    }
    args.push(worktree_path.to_owned());
    proof {
        if force {
            assert(args@.map_values(|a: String| a@) =~= seq![
                "worktree"@,
                "remove"@,
                "--force"@,
                worktree_path@,
            ]);
        } else {
            assert(args@.map_values(|a: String| a@) =~= seq![
                "worktree"@,
                "remove"@,
                worktree_path@,
            ]);
        }
    }
    args
}

/// A worktree has uncommitted changes exactly when the porcelain status
/// output is nonempty.
pub fn indicates_changes(status_stdout: &[u8]) -> (r: bool)
    ensures
        r == (status_stdout@.len() > 0),
{
    status_stdout.len() > 0
}

} // verus!
