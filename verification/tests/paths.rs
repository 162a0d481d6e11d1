//! Which requested names are served, and from where.
use aitftp::error::Error;
use aitftp::path_safe::resolve;

fn root() -> &'static str {
    "/srv/tftp"
}

#[test]
fn allows_simple() {
    assert_eq!(resolve(root(), "boot.img").unwrap(), "/srv/tftp/boot.img");
}

#[test]
fn allows_subdirs() {
    assert_eq!(resolve(root(), "sub/boot.img").unwrap(), "/srv/tftp/sub/boot.img");
}

#[test]
fn rejects_parent_dir() {
    assert!(matches!(resolve(root(), "../etc/passwd"), Err(Error::InvalidPath(_))));
    assert!(matches!(resolve(root(), "sub/../../etc/passwd"), Err(Error::InvalidPath(_))));
}

#[test]
fn rejects_absolute() {
    assert!(matches!(resolve(root(), "/etc/passwd"), Err(Error::InvalidPath(_))));
}

#[test]
fn rejects_nul_and_empty() {
    assert!(matches!(resolve(root(), ""), Err(Error::InvalidPath(_))));
    assert!(matches!(resolve(root(), "foo\0bar"), Err(Error::InvalidPath(_))));
}

#[test]
fn rejects_any_step_up() {
    for name in ["..", "a/..", "a/../b", "./..", "a//../b"] {
        match resolve(root(), name) {
            Err(Error::InvalidPath(text)) => assert_eq!(text, name),
            other => panic!("expected an invalid path, got {other:?}"),
        }
    }
}

#[test]
fn dots_in_names_are_fine() {
    assert_eq!(resolve("/", "..a").unwrap(), "/..a");
    assert_eq!(resolve("/srv/", "a..b/.../c").unwrap(), "/srv/a..b/.../c");
    assert_eq!(resolve("", "./x").unwrap(), "./x");
}
