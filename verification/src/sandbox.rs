//! Path sandbox validator.
//!
//! Admits a filesystem path into privileged read/write operations only
//! when it is absolute, resolves under the home or temp directory, and
//! stays clear of a fixed denylist of sensitive subdirectories of the
//! home directory.
//!
//! Resolving symlinks and probing for existing ancestors need the
//! filesystem, so validation is a short dialogue: the caller checks the
//! shape with [`check_absolute`], walks upward with [`ancestor_step`]
//! answering each existence probe, canonicalizes the checkpoint the walk
//! settles on, and hands the outcome to [`validate_resolved`], which
//! rebuilds the intended target and applies the sandbox rules. Every
//! decision along the way is made here; the caller only answers what the
//! filesystem says.
//!
//! The allowed-roots test is a plain textual prefix check, as a sibling
//! directory whose name extends the home path would also pass it; the
//! stricter component-wise ancestor test is used only for the denylist.

use vstd::prelude::*;
use vstd::string::StrSliceExecFns;
use vstd::string::StringExecFns;

use crate::strutil::concat_str;
use crate::strutil::starts_with;
use crate::strutil::str_eq;
use crate::strutil::str_starts_with;
use crate::strutil::tail_from;

verus! {

/// A path is treated as absolute when it starts with the root separator.
pub open spec fn is_absolute(s: Seq<char>) -> bool {
    s.len() > 0 && s[0] == '/'
}

/// Absolute-path test on the textual form of a path.
pub fn path_is_absolute(s: &str) -> (r: bool)
    ensures
        r == is_absolute(s@),
{
    if s.unicode_len() == 0 {
        false
    } else {
        s.get_char(0) == '/'
    }
}

/// Why a path was rejected.
#[derive(Debug)]
pub enum SandboxError {
    NotAbsolute,
    NoAncestor,
    CanonicalizeFailed { detail: String },
    OutsideSandbox { home: String, tmp: String },
    SensitivePath { name: String },
}

impl SandboxError {
    /// The human-readable message surfaced to the caller, one distinct
    /// text per failure step.
    pub fn message(&self) -> (r: String)
        ensures
            self matches SandboxError::NotAbsolute ==> r@ == "Path must be absolute"@,
            self matches SandboxError::NoAncestor ==> r@ == "No valid ancestor path exists"@,
            self matches SandboxError::CanonicalizeFailed { detail } ==> r@
                == "Failed to canonicalize path: "@ + detail@,
            self matches SandboxError::OutsideSandbox { home, tmp } ==> r@
                == "Path must be within home directory ("@ + home@ + ") or temp directory ("@
                + tmp@ + ")"@,
            self matches SandboxError::SensitivePath { name } ==> r@
                == "Access to sensitive directory is not allowed: "@ + name@,
    {
        match self {
            SandboxError::NotAbsolute => "Path must be absolute".to_owned(),
            SandboxError::NoAncestor => "No valid ancestor path exists".to_owned(),
            SandboxError::CanonicalizeFailed { detail } => concat_str(
                "Failed to canonicalize path: ",
                detail.as_str(),
            ),
            SandboxError::OutsideSandbox { home, tmp } => {
                let mut m = concat_str("Path must be within home directory (", home.as_str());
                m.append(") or temp directory (");
                m.append(tmp.as_str());
                m.append(")");
                m
            },
            SandboxError::SensitivePath { name } => concat_str(
                "Access to sensitive directory is not allowed: ",
                name.as_str(),
            ),
        }
    }
}

/// The sensitive subdirectories of the home directory, in the order
/// they are checked.
pub open spec fn deny_names() -> Seq<Seq<char>> {
    seq![".ssh"@, ".gnupg"@, ".aws"@, ".config/gcloud"@, ".kube"@, ".docker"@]
}

/// The denylisted subtree root for one name.
pub open spec fn deny_root(home: Seq<char>, name: Seq<char>) -> Seq<char> {
    home + seq!['/'] + name
}

/// Component-wise ancestry: `p` is `root` itself or lies below it.
pub open spec fn path_within(p: Seq<char>, root: Seq<char>) -> bool {
    p == root || starts_with(p, root + seq!['/'])
}

/// `p` falls under some denylisted subdirectory of `home`.
pub open spec fn in_denylist(p: Seq<char>, home: Seq<char>) -> bool {
    exists|k: int|
        0 <= k < deny_names().len() && path_within(p, deny_root(home, deny_names()[k]))
}

/// The textual prefix test that admits a path into the sandbox.
pub open spec fn inside_allowed(p: Seq<char>, home: Seq<char>, tmp: Seq<char>) -> bool {
    starts_with(p, home) || starts_with(p, tmp)
}

/// The full acceptance condition on a resolved path.
pub open spec fn sandbox_ok(p: Seq<char>, home: Seq<char>, tmp: Seq<char>) -> bool {
    inside_allowed(p, home, tmp) && !in_denylist(p, home)
}

/// `k` is the first denylist entry that covers `p`.
pub open spec fn first_deny_match(p: Seq<char>, home: Seq<char>, k: int) -> bool {
    &&& 0 <= k < deny_names().len()
    &&& path_within(p, deny_root(home, deny_names()[k]))
    &&& forall|j: int| 0 <= j < k ==> !path_within(p, deny_root(home, deny_names()[j]))
}

/// The error that a failed [`sandbox_check`] carries.
pub open spec fn check_error_ok(e: SandboxError, p: Seq<char>, home: Seq<char>, tmp: Seq<char>) -> bool {
    if !inside_allowed(p, home, tmp) {
        e matches SandboxError::OutsideSandbox { home: h, tmp: t } && h@ == home && t@ == tmp
    } else {
        e matches SandboxError::SensitivePath { name } && exists|k: int|
            first_deny_match(p, home, k) && name@ == deny_names()[k]
    }
}

/// Component-wise ancestry test on string slices.
pub fn path_within_exec(p: &str, root: &str) -> (r: bool)
    ensures
        r == path_within(p@, root@),
{
    proof {
        reveal_strlit("/");
        assert("/"@ =~= seq!['/']);
    }
    if str_eq(p, root) {
        true
    } else {
        let below = concat_str(root, "/");
        str_starts_with(p, below.as_str())
    }
}

/// Does `p` lie under `home/<name>`?
fn within_deny(p: &str, home: &str, name: &str) -> (r: bool)
    ensures
        r == path_within(p@, deny_root(home@, name@)),
{
    proof {
        reveal_strlit("/");
        assert("/"@ =~= seq!['/']);
    }
    let mut root = concat_str(home, "/");
    root.append(name);
    path_within_exec(p, root.as_str())
}

/// The first denylist entry covering `p`, if any.
fn deny_match(p: &str, home: &str) -> (r: Option<String>)
    ensures
        r is Some <==> in_denylist(p@, home@),
        r matches Some(name) ==> exists|k: int|
            first_deny_match(p@, home@, k) && name@ == deny_names()[k],
{
    if within_deny(p, home, ".ssh") {
        proof {
            assert(first_deny_match(p@, home@, 0));
        }
        return Some(".ssh".to_owned());
    }
    if within_deny(p, home, ".gnupg") {
        proof {
            assert(first_deny_match(p@, home@, 1));
        }
        return Some(".gnupg".to_owned());
    }
    if within_deny(p, home, ".aws") {
        proof {
            assert(first_deny_match(p@, home@, 2));
        }
        return Some(".aws".to_owned());
    }
    if within_deny(p, home, ".config/gcloud") {
        proof {
            assert(first_deny_match(p@, home@, 3));
        }
        return Some(".config/gcloud".to_owned());
    }
    if within_deny(p, home, ".kube") {
        proof {
            assert(first_deny_match(p@, home@, 4));
        }
        return Some(".kube".to_owned());
    }
    if within_deny(p, home, ".docker") {
        proof {
            assert(first_deny_match(p@, home@, 5));
        }
        return Some(".docker".to_owned());
    }
    proof {
        assert forall|k: int| 0 <= k < deny_names().len() implies !path_within(
            p@,
            deny_root(home@, deny_names()[k]),
        ) by {
            if k == 0 {
                assert(deny_names()[0] == ".ssh"@);
            } else if k == 1 {
                assert(deny_names()[1] == ".gnupg"@);
            } else if k == 2 {
                assert(deny_names()[2] == ".aws"@);
            } else if k == 3 {
                assert(deny_names()[3] == ".config/gcloud"@);
            } else if k == 4 {
                assert(deny_names()[4] == ".kube"@);
            } else {
                assert(deny_names()[5] == ".docker"@);
            }
        }
    }
    None
}

/// Applies the sandbox rules to an already-resolved path: it must start
/// with the home or temp directory text and fall under no denylisted
/// subdirectory.
pub fn sandbox_check(p: &str, home: &str, tmp: &str) -> (r: Result<(), SandboxError>)
    ensures
        r is Ok <==> sandbox_ok(p@, home@, tmp@),
        r matches Err(e) ==> check_error_ok(e, p@, home@, tmp@),
{
    let in_home = str_starts_with(p, home);
    let in_tmp = str_starts_with(p, tmp);
    if !in_home && !in_tmp {
        return Err(
            SandboxError::OutsideSandbox { home: home.to_owned(), tmp: tmp.to_owned() },
        );
    }
    match deny_match(p, home) {
        Some(name) => Err(SandboxError::SensitivePath { name }),
        None => Ok(()),
    }
}

/// Rejects a path that is not absolute; the first validation step.
pub fn check_absolute(p: &str) -> (r: Result<(), SandboxError>)
    ensures
        r is Ok <==> is_absolute(p@),
        r is Err ==> r == Err::<(), SandboxError>(SandboxError::NotAbsolute),
{
    if path_is_absolute(p) {
        Ok(())
    } else {
        Err(SandboxError::NotAbsolute)
    }
}

/// `s` with every trailing separator beyond the first character removed.
pub open spec fn strip_trailing_slashes(s: Seq<char>) -> Seq<char>
    decreases s.len(),
{
    if s.len() > 1 && s.last() == '/' {
        strip_trailing_slashes(s.drop_last())
    } else {
        s
    }
}

/// The largest index holding a separator, or -1 if there is none.
pub open spec fn last_slash_index(s: Seq<char>) -> int
    decreases s.len(),
{
    if s.len() == 0 {
        -1
    } else if s.last() == '/' {
        s.len() - 1
    } else {
        last_slash_index(s.drop_last())
    }
}

/// The parent of an absolute path: the path with its last component
/// removed, or nothing for the root.
pub open spec fn parent_of(s: Seq<char>) -> Option<Seq<char>> {
    let t = strip_trailing_slashes(s);
    if t.len() <= 1 {
        None
    } else {
        let i = last_slash_index(t);
        if i <= 0 {
            Some(seq!['/'])
        } else {
            Some(t.subrange(0, i))
        }
    }
}

/// The parent directory of an absolute path.
pub fn parent_path(p: &str) -> (r: Option<String>)
    requires
        is_absolute(p@),
    ensures
        r is Some <==> parent_of(p@) is Some,
        r matches Some(x) ==> Some(x@) == parent_of(p@) && is_absolute(x@),
{
    let n = p.unicode_len();
    let mut end = n;
    proof {
        assert(p@.subrange(0, n as int) =~= p@);
    }
    while end > 1 && p.get_char(end - 1) == '/'
        invariant
            1 <= end <= n,
            n == p@.len(),
            is_absolute(p@),
            strip_trailing_slashes(p@) == strip_trailing_slashes(p@.subrange(0, end as int)),
        decreases end,
    {
        proof {
            let t = p@.subrange(0, end as int);
            assert(t.last() == p@[end - 1]);
            assert(t.drop_last() =~= p@.subrange(0, end as int - 1));
        }
        end = end - 1;
    }
    proof {
        let t = p@.subrange(0, end as int);
        if t.len() > 1 {
            assert(t.last() == p@[end - 1]);
        }
        assert(strip_trailing_slashes(t) == t);
    }
    if end == 1 {
        return None;
    }
    let ghost t = p@.subrange(0, end as int);
    let mut j = end - 1;
    proof {
        assert(t =~= t.subrange(0, end as int));
    }
    while p.get_char(j) != '/'
        invariant
            0 <= j < end <= n,
            n == p@.len(),
            is_absolute(p@),
            end > 1,
            t == p@.subrange(0, end as int),
            last_slash_index(t) == last_slash_index(t.subrange(0, j as int + 1)),
        decreases j,
    {
        proof {
            let u = t.subrange(0, j as int + 1);
            assert(u.last() == p@[j as int]);
            assert(u.drop_last() =~= t.subrange(0, j as int));
            if j == 0 {
                assert(p@[0] == '/');
                assert(false);
            }
        }
        j = j - 1;
    }
    proof {
        let u = t.subrange(0, j as int + 1);
        assert(u.last() == p@[j as int]);
        assert(last_slash_index(u) == j);
    }
    if j == 0 {
        proof {
            reveal_strlit("/");
            assert("/"@ =~= seq!['/']);
        }
        Some("/".to_owned())
    } else {
        let parent = p.substring_char(0, j);
        proof {
            assert(t.subrange(0, j as int) =~= p@.subrange(0, j as int));
        }
        Some(parent.to_owned())
    }
}

/// One step of the upward walk that finds an existing ancestor.
pub enum ProbeStep {
    /// The candidate exists: canonicalize it.
    Canonicalize { checkpoint: String },
    /// The candidate is missing: probe its parent next.
    Ascend { candidate: String },
    /// No ancestor exists at all.
    Fail { error: SandboxError },
}

/// Decides what to do after the filesystem answered one existence probe.
pub fn ancestor_step(candidate: &str, candidate_exists: bool) -> (r: ProbeStep)
    requires
        is_absolute(candidate@),
    ensures
        candidate_exists ==> (r matches ProbeStep::Canonicalize { checkpoint } && checkpoint@
            == candidate@),
        !candidate_exists && parent_of(candidate@) is Some ==> (r matches ProbeStep::Ascend {
            candidate: c,
        } && Some(c@) == parent_of(candidate@) && is_absolute(c@)),
        !candidate_exists && parent_of(candidate@) is None ==> (r matches ProbeStep::Fail { error }
            && error == SandboxError::NoAncestor),
{
    if candidate_exists {
        ProbeStep::Canonicalize { checkpoint: candidate.to_owned() }
    } else {
        match parent_path(candidate) {
            Some(par) => ProbeStep::Ascend { candidate: par },
            None => ProbeStep::Fail { error: SandboxError::NoAncestor },
        }
    }
}

/// `s` with every leading separator removed.
pub open spec fn drop_leading_slashes(s: Seq<char>) -> Seq<char>
    decreases s.len(),
{
    if s.len() > 0 && s[0] == '/' {
        drop_leading_slashes(s.skip(1))
    } else {
        s
    }
}

/// The part of `p` below its ancestor `anc`, empty when `p` is `anc`
/// itself or does not lie below it.
pub open spec fn suffix_after(p: Seq<char>, anc: Seq<char>) -> Seq<char> {
    if p == anc {
        Seq::<char>::empty()
    } else if starts_with(p, anc + seq!['/']) {
        drop_leading_slashes(p.skip(anc.len() as int + 1))
    } else {
        Seq::<char>::empty()
    }
}

/// The components of `p` beyond the checkpoint `anc`, as text.
pub fn strip_ancestor_prefix(p: &str, anc: &str) -> (r: String)
    ensures
        r@ == suffix_after(p@, anc@),
{
    proof {
        reveal_strlit("/");
        assert("/"@ =~= seq!['/']);
    }
    if str_eq(p, anc) {
        return String::new();
    }
    let below = concat_str(anc, "/");
    if !str_starts_with(p, below.as_str()) {
        return String::new();
    }
    let n = p.unicode_len();
    let start = anc.unicode_len() + 1;
    let mut k = start;
    while k < n && p.get_char(k) == '/'
        invariant
            start <= k <= n,
            n == p@.len(),
            start == anc@.len() + 1,
            drop_leading_slashes(p@.skip(start as int)) == drop_leading_slashes(
                p@.skip(k as int),
            ),
        decreases n - k,
    {
        proof {
            let rest = p@.skip(k as int);
            assert(rest[0] == p@[k as int]);
            assert(rest.skip(1) =~= p@.skip(k as int + 1));
        }
        k = k + 1;
    }
    proof {
        let rest = p@.skip(k as int);
        if rest.len() > 0 {
            assert(rest[0] == p@[k as int]);
        }
        assert(drop_leading_slashes(rest) == rest);
    }
    tail_from(p, k)
}

/// Joining a relative suffix under a base path.
pub open spec fn join_spec(base: Seq<char>, suffix: Seq<char>) -> Seq<char> {
    if suffix.len() == 0 {
        base
    } else if base.len() > 0 && base.last() == '/' {
        base + suffix
    } else {
        base + seq!['/'] + suffix
    }
}

/// Appends a relative suffix below a base path.
pub fn join_under(base: &str, suffix: &str) -> (r: String)
    ensures
        r@ == join_spec(base@, suffix@),
{
    proof {
        reveal_strlit("/");
        assert("/"@ =~= seq!['/']);
    }
    let sn = suffix.unicode_len();
    if sn == 0 {
        return base.to_owned();
    }
    let bn = base.unicode_len();
    if bn > 0 && base.get_char(bn - 1) == '/' {
        proof {
            assert(base@.last() == base@[bn - 1]);
        }
        concat_str(base, suffix)
    } else {
        proof {
            if bn > 0 {
                assert(base@.last() == base@[bn - 1]);
            }
        }
        let mut r = concat_str(base, "/");
        r.append(suffix);
        r
    }
}

/// The path a validated operation will actually touch: the canonical
/// checkpoint itself when the original path exists, else the canonical
/// checkpoint with the not-yet-existing components appended.
pub open spec fn resolved_target(
    original: Seq<char>,
    checkpoint: Seq<char>,
    canonical: Seq<char>,
    original_exists: bool,
) -> Seq<char> {
    if original_exists {
        canonical
    } else {
        join_spec(canonical, suffix_after(original, checkpoint))
    }
}

/// Final validation step: rebuilds the intended target from the
/// canonicalized checkpoint and applies the sandbox rules to it.
pub fn validate_resolved(
    original: &str,
    checkpoint: &str,
    canonical: &str,
    original_exists: bool,
    home: &str,
    tmp: &str,
) -> (r: Result<String, SandboxError>)
    ensures
        r is Ok <==> sandbox_ok(
            resolved_target(original@, checkpoint@, canonical@, original_exists),
            home@,
            tmp@,
        ),
        r matches Ok(p) ==> p@ == resolved_target(
            original@,
            checkpoint@,
            canonical@,
            original_exists,
        ),
        r matches Err(e) ==> check_error_ok(
            e,
            resolved_target(original@, checkpoint@, canonical@, original_exists),
            home@,
            tmp@,
        ),
{
    let target: String = if original_exists {
        canonical.to_owned()
    } else {
        let suffix = strip_ancestor_prefix(original, checkpoint);
        join_under(canonical, suffix.as_str())
    };
    match sandbox_check(target.as_str(), home, tmp) {
        Ok(()) => Ok(target),
        Err(e) => Err(e),
    }
}

/// A `..` component sits at index `i` of `s`.
pub open spec fn dotdot_at(s: Seq<char>, i: int) -> bool {
    &&& 0 <= i
    &&& i + 2 <= s.len()
    &&& s[i] == '.'
    &&& s[i + 1] == '.'
    &&& (i == 0 || s[i - 1] == '/')
    &&& (i + 2 == s.len() || s[i + 2] == '/')
}

/// `s` holds a `..` component somewhere.
pub open spec fn has_dotdot(s: Seq<char>) -> bool {
    exists|i: int| dotdot_at(s, i)
}

/// Appending a separator to a clean path keeps it clean.
pub proof fn lemma_append_slash_clean(base: Seq<char>)
    requires
        !has_dotdot(base),
    ensures
        !has_dotdot(base + seq!['/']),
{
    let j = base + seq!['/'];
    assert forall|i: int| !dotdot_at(j, i) by {
        if dotdot_at(j, i) {
            assert(j[base.len() as int] == '/');
            if i + 1 == base.len() {
                assert(j[i + 1] == '/');
            } else {
                assert(i + 2 <= base.len());
                assert(j[i] == base[i]);
                assert(j[i + 1] == base[i + 1]);
                if i + 2 < base.len() {
                    assert(j[i + 2] == base[i + 2]);
                }
                assert(dotdot_at(base, i));
            }
        }
    }
}

/// Concatenating a clean suffix after a path that ends in a separator
/// introduces no `..` component.
pub proof fn lemma_slash_concat_clean(a: Seq<char>, b: Seq<char>)
    requires
        a.len() > 0,
        a.last() == '/',
        !has_dotdot(a),
        !has_dotdot(b),
    ensures
        !has_dotdot(a + b),
{
    let j = a + b;
    assert forall|i: int| !dotdot_at(j, i) by {
        if dotdot_at(j, i) {
            if i + 2 <= a.len() {
                assert(j[i] == a[i]);
                assert(j[i + 1] == a[i + 1]);
                if i + 2 == a.len() {
                    assert(a[i + 1] == a.last());
                } else {
                    assert(j[i + 2] == a[i + 2]);
                    assert(dotdot_at(a, i));
                }
            } else if i < a.len() {
                assert(i == a.len() - 1);
                assert(j[i] == a[i]);
                assert(a[i] == a.last());
            } else {
                let k = i - a.len();
                assert(j[i] == b[k]);
                assert(j[i + 1] == b[k + 1]);
                if k > 0 {
                    assert(j[i - 1] == b[k - 1]);
                }
                if i + 2 < j.len() {
                    assert(j[i + 2] == b[k + 2]);
                }
                assert(dotdot_at(b, k));
            }
        }
    }
}

/// Law: joining a clean relative suffix under a clean absolute base
/// yields a clean absolute path.
pub proof fn lemma_join_keeps_clean(base: Seq<char>, suffix: Seq<char>)
    requires
        is_absolute(base),
        !has_dotdot(base),
        !has_dotdot(suffix),
    ensures
        is_absolute(join_spec(base, suffix)),
        !has_dotdot(join_spec(base, suffix)),
{
    if suffix.len() == 0 {
    } else if base.last() == '/' {
        lemma_slash_concat_clean(base, suffix);
        assert((base + suffix)[0] == base[0]);
    } else {
        lemma_append_slash_clean(base);
        let b2 = base + seq!['/'];
        assert(b2.last() == '/');
        lemma_slash_concat_clean(b2, suffix);
        assert(base + seq!['/'] + suffix =~= b2 + suffix);
        assert((b2 + suffix)[0] == base[0]);
    }
}

/// Law: an absolute path whose resolved target lies inside the home or
/// temp directory and outside the denylist is accepted, and when the
/// canonical checkpoint and the reappended suffix are free of `..`
/// components the accepted target is a clean absolute path.
pub proof fn lemma_validation_accepts(
    original: Seq<char>,
    checkpoint: Seq<char>,
    canonical: Seq<char>,
    original_exists: bool,
    home: Seq<char>,
    tmp: Seq<char>,
)
    requires
        inside_allowed(
            resolved_target(original, checkpoint, canonical, original_exists),
            home,
            tmp,
        ),
        !in_denylist(resolved_target(original, checkpoint, canonical, original_exists), home),
        is_absolute(canonical),
        !has_dotdot(canonical),
        !has_dotdot(suffix_after(original, checkpoint)),
    ensures
        sandbox_ok(resolved_target(original, checkpoint, canonical, original_exists), home, tmp),
        is_absolute(resolved_target(original, checkpoint, canonical, original_exists)),
        !has_dotdot(resolved_target(original, checkpoint, canonical, original_exists)),
{
    if !original_exists {
        lemma_join_keeps_clean(canonical, suffix_after(original, checkpoint));
    }
}

/// A path passes validation end to end: it is absolute and its resolved
/// target passes the sandbox rules.
pub open spec fn admits(
    original: Seq<char>,
    checkpoint: Seq<char>,
    canonical: Seq<char>,
    original_exists: bool,
    home: Seq<char>,
    tmp: Seq<char>,
) -> bool {
    &&& is_absolute(original)
    &&& sandbox_ok(resolved_target(original, checkpoint, canonical, original_exists), home, tmp)
}

/// Law: a relative path is rejected by the shape check alone, whatever
/// the filesystem would have answered about any checkpoint or target.
pub proof fn lemma_relative_rejected(
    original: Seq<char>,
    checkpoint: Seq<char>,
    canonical: Seq<char>,
    original_exists: bool,
    home: Seq<char>,
    tmp: Seq<char>,
)
    requires
        !is_absolute(original),
    ensures
        !admits(original, checkpoint, canonical, original_exists, home, tmp),
{
}

/// A prefix of a prefix is a prefix.
pub proof fn lemma_starts_with_prefix(s: Seq<char>, a: Seq<char>, b: Seq<char>)
    requires
        starts_with(s, a + b),
    ensures
        starts_with(s, a),
{
    assert(s.subrange(0, a.len() as int) =~= (a + b).subrange(0, a.len() as int));
    assert((a + b).subrange(0, a.len() as int) =~= a);
}

/// Law: a path under a denylisted subdirectory is rejected even though
/// it also lies under the home directory.
pub proof fn lemma_sensitive_rejected(p: Seq<char>, home: Seq<char>, tmp: Seq<char>, k: int)
    requires
        0 <= k < deny_names().len(),
        path_within(p, deny_root(home, deny_names()[k])),
    ensures
        starts_with(p, home),
        !sandbox_ok(p, home, tmp),
{
    let name = deny_names()[k];
    let root = deny_root(home, name);
    assert(root =~= home + (seq!['/'] + name));
    if p == root {
        assert(p.subrange(0, p.len() as int) =~= p);
        assert(starts_with(p, home + (seq!['/'] + name)));
        lemma_starts_with_prefix(p, home, seq!['/'] + name);
    } else {
        assert(starts_with(p, root + seq!['/']));
        assert(root + seq!['/'] =~= home + (seq!['/'] + name + seq!['/']));
        lemma_starts_with_prefix(p, home, seq!['/'] + name + seq!['/']);
    }
    assert(in_denylist(p, home));
}

} // verus!
