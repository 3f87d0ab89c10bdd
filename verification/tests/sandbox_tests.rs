use pty_sandbox::sandbox::ancestor_step;
use pty_sandbox::sandbox::check_absolute;
use pty_sandbox::sandbox::join_under;
use pty_sandbox::sandbox::parent_path;
use pty_sandbox::sandbox::path_is_absolute;
use pty_sandbox::sandbox::sandbox_check;
use pty_sandbox::sandbox::strip_ancestor_prefix;
use pty_sandbox::sandbox::validate_resolved;
use pty_sandbox::sandbox::ProbeStep;
use pty_sandbox::sandbox::SandboxError;

const HOME: &str = "/home/user";
const TMP: &str = "/tmp";

#[test]
fn absolute_paths_recognized() {
    assert!(path_is_absolute("/etc"));
    assert!(path_is_absolute("/"));
    assert!(!path_is_absolute("etc/passwd"));
    assert!(!path_is_absolute(""));
    assert!(!path_is_absolute("./x"));
}

#[test]
fn relative_path_rejected_at_shape_check() {
    let r = check_absolute("projects/notes.txt");
    assert!(matches!(r, Err(SandboxError::NotAbsolute)));
    assert_eq!(r.unwrap_err().message(), "Path must be absolute");
    assert!(check_absolute("/home/user/notes.txt").is_ok());
}

#[test]
fn path_outside_sandbox_rejected() {
    // A directory such as the system configuration root is outside both roots.
    let r = sandbox_check("/etc", HOME, TMP);
    match r {
        Err(e @ SandboxError::OutsideSandbox { .. }) => {
            assert_eq!(
                e.message(),
                "Path must be within home directory (/home/user) or temp directory (/tmp)"
            );
        }
        _ => panic!("expected the outside-sandbox error"),
    }
}

#[test]
fn paths_inside_home_and_tmp_accepted() {
    assert!(sandbox_check("/home/user/project/file.txt", HOME, TMP).is_ok());
    assert!(sandbox_check("/home/user", HOME, TMP).is_ok());
    assert!(sandbox_check("/tmp/scratch", HOME, TMP).is_ok());
}

#[test]
fn sensitive_directories_rejected() {
    for (path, name) in [
        ("/home/user/.ssh/id_rsa", ".ssh"),
        ("/home/user/.ssh", ".ssh"),
        ("/home/user/.gnupg/ring", ".gnupg"),
        ("/home/user/.aws/credentials", ".aws"),
        ("/home/user/.config/gcloud/token", ".config/gcloud"),
        ("/home/user/.kube/config", ".kube"),
        ("/home/user/.docker/config.json", ".docker"),
    ] {
        match sandbox_check(path, HOME, TMP) {
            Err(SandboxError::SensitivePath { name: n }) => {
                assert_eq!(n, name, "for {}", path);
            }
            _ => panic!("expected the sensitive-path error for {}", path),
        }
    }
    let msg = sandbox_check("/home/user/.ssh/id_rsa", HOME, TMP)
        .unwrap_err()
        .message();
    assert_eq!(msg, "Access to sensitive directory is not allowed: .ssh");
}

#[test]
fn sensitive_check_is_component_wise() {
    // A sibling whose name merely extends a denylisted name is allowed.
    assert!(sandbox_check("/home/user/.sshfoo", HOME, TMP).is_ok());
    assert!(sandbox_check("/home/user/ssh/.ssh-notes", HOME, TMP).is_ok());
}

#[test]
fn allowed_roots_check_is_textual_prefix() {
    // The home check is a plain textual prefix, so a sibling directory
    // whose name extends the home path is admitted as well.
    assert!(sandbox_check("/home/user2/file", HOME, TMP).is_ok());
}

#[test]
fn parent_path_walks_upward() {
    assert_eq!(parent_path("/a/b/c").as_deref(), Some("/a/b"));
    assert_eq!(parent_path("/a").as_deref(), Some("/"));
    assert_eq!(parent_path("/a/b/").as_deref(), Some("/a"));
    assert_eq!(parent_path("/"), None);
}

#[test]
fn ancestor_step_decides_the_walk() {
    match ancestor_step("/home/user/missing", true) {
        ProbeStep::Canonicalize { checkpoint } => assert_eq!(checkpoint, "/home/user/missing"),
        _ => panic!("an existing candidate is the checkpoint"),
    }
    match ancestor_step("/home/user/missing", false) {
        ProbeStep::Ascend { candidate } => assert_eq!(candidate, "/home/user"),
        _ => panic!("a missing candidate yields its parent"),
    }
    match ancestor_step("/", false) {
        ProbeStep::Fail { error } => {
            assert_eq!(error.message(), "No valid ancestor path exists");
        }
        _ => panic!("a missing root has no ancestor"),
    }
}

#[test]
fn suffix_and_join_rebuild_the_target() {
    assert_eq!(strip_ancestor_prefix("/home/user/a/b", "/home/user"), "a/b");
    assert_eq!(strip_ancestor_prefix("/home/user", "/home/user"), "");
    assert_eq!(strip_ancestor_prefix("/elsewhere", "/home/user"), "");
    assert_eq!(join_under("/home/user", "a/b"), "/home/user/a/b");
    assert_eq!(join_under("/", "a"), "/a");
    assert_eq!(join_under("/home/user", ""), "/home/user");
}

#[test]
fn validate_resolved_accepts_existing_path() {
    let r = validate_resolved(
        "/home/user/notes.txt",
        "/home/user/notes.txt",
        "/home/user/notes.txt",
        true,
        HOME,
        TMP,
    );
    assert_eq!(r.unwrap(), "/home/user/notes.txt");
}

#[test]
fn validate_resolved_rebuilds_missing_suffix() {
    let r = validate_resolved(
        "/home/user/new/dir/file.txt",
        "/home/user",
        "/home/user",
        false,
        HOME,
        TMP,
    );
    assert_eq!(r.unwrap(), "/home/user/new/dir/file.txt");
}

#[test]
fn validate_resolved_follows_symlink_target() {
    // The checkpoint canonicalized to somewhere outside the sandbox.
    let r = validate_resolved(
        "/home/user/link/file",
        "/home/user/link",
        "/etc",
        false,
        HOME,
        TMP,
    );
    assert!(matches!(r, Err(SandboxError::OutsideSandbox { .. })));
}

#[test]
fn canonicalize_failure_message_carries_detail() {
    let e = SandboxError::CanonicalizeFailed {
        detail: "permission denied".to_string(),
    };
    assert_eq!(
        e.message(),
        "Failed to canonicalize path: permission denied"
    );
}
