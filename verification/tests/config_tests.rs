use confer::config::{declared_hub_id, hub_key, hub_root_strict, signal_dir, HubRoot, RootError};

const SHA: &str = "0123456789abcdef0123456789abcdef01234567";

#[test]
fn declared_id_must_be_an_object_id() {
    assert_eq!(declared_hub_id(&Some(format!("{SHA}\n"))).as_deref(), Some(SHA));
    assert_eq!(declared_hub_id(&Some("not-a-sha".into())), None);
    assert_eq!(declared_hub_id(&None), None);
}

#[test]
fn hub_key_prefers_declared_then_root_then_sanitized_fallback() {
    assert_eq!(hub_key(&Some(SHA.into()), &Some("other\n".into()), "x"), SHA);
    assert_eq!(hub_key(&None, &Some("rootsha\n".into()), "x"), "rootsha");
    assert_eq!(hub_key(&None, &Some("\n".into()), "git@github.com:o/r.git"), "git_github_com_o_r_git");
    assert_eq!(hub_key(&None, &None, "/home/me/hub"), "_home_me_hub");
}

#[test]
fn strict_root_refuses_to_guess() {
    assert!(matches!(hub_root_strict(true, "abc\n", ""), Ok(HubRoot::Commit(ref s)) if s == "abc"));
    assert!(matches!(hub_root_strict(true, "", ""), Ok(HubRoot::NoCommits)));
    assert!(matches!(hub_root_strict(true, "a\nb\n", ""), Err(RootError::MultiRoot(2))));
    assert!(matches!(
        hub_root_strict(false, "", "fatal: your current branch 'main' does not have any commits yet"),
        Ok(HubRoot::NoCommits)
    ));
    assert!(matches!(hub_root_strict(false, "", "fatal: disk full"), Err(RootError::GitFailed)));
}

#[test]
fn signal_dir_joins_paths() {
    assert_eq!(signal_dir("/home/me"), "/home/me/.confer/tips");
    assert_eq!(signal_dir("/home/me/"), "/home/me/.confer/tips");
}
