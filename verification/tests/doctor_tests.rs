use confer::doctor::{
    anon_https, audit, fix, is_interactive_signer, probe_verdict, remote_visibility, render, scoped, Finding, Level,
    Scope, ScopedConfig, Visibility, AGENT_CLONE, LOCAL_ONLY,
};

#[test]
fn scope_from_origin_classifies_paths() {
    assert_eq!(Scope::from_origin("/Users/x/proj/.git/config"), Scope::Local);
    assert_eq!(Scope::from_origin(".git/config"), Scope::Local);
    assert_eq!(Scope::from_origin("/Users/x/.gitconfig"), Scope::Global);
    assert_eq!(Scope::from_origin("/Users/x/.config/git/config"), Scope::Global);
    assert_eq!(Scope::from_origin("/etc/gitconfig"), Scope::System);
}

#[test]
fn anon_https_derivation() {
    assert_eq!(anon_https("git@github.com:codeshrew/x.git").unwrap(), "https://github.com/codeshrew/x.git");
    assert_eq!(anon_https("https://github.com/codeshrew/x.git").unwrap(), "https://github.com/codeshrew/x.git");
    assert_eq!(anon_https("ssh://git@gitlab.com/o/x.git").unwrap(), "https://gitlab.com/o/x.git");
    assert!(anon_https("file:///tmp/hub.git").is_none());
    assert!(anon_https("/tmp/hub.git").is_none());
}

#[test]
fn interactive_signer_detection() {
    assert!(is_interactive_signer("/Applications/1Password.app/Contents/MacOS/op-ssh-sign"));
    assert!(!is_interactive_signer("/usr/bin/ssh-keygen"));
}

#[test]
fn severity_strings_are_the_json_contract_for_doctor_json() {
    assert_eq!(Level::Okay.severity(), "ok");
    assert_eq!(Level::Warn.severity(), "warn");
    assert_eq!(Level::Info.severity(), "info");
}

fn cfg(gpgsign: Option<(Scope, &str)>, program: Option<(Scope, &str)>, key: Option<(Scope, &str)>, email: Option<(Scope, &str)>) -> ScopedConfig {
    let f = |o: Option<(Scope, &str)>| o.map(|(s, v)| (s, v.to_string()));
    ScopedConfig { gpgsign: f(gpgsign), program: f(program), signingkey: f(key), email: f(email) }
}

#[test]
fn audit_of_a_well_configured_agent_clone_has_no_warnings() {
    let c = cfg(Some((Scope::Local, "true")), None, Some((Scope::Local, "/k")), Some((Scope::Local, "a@confer.local")));
    let f = audit(true, &c, &Some("git@github.com:o/h.git".into()), Visibility::Private);
    assert_eq!(f[0].title, AGENT_CLONE);
    assert!(f.iter().all(|x| x.level != Level::Warn));
    assert_eq!(f.last().unwrap().title, LOCAL_ONLY);
    assert!(render(&f).ends_with("\nNo scope conflicts found.\n"));
}

#[test]
fn audit_warns_on_a_blocking_signer_and_inherited_key_and_public_hub() {
    let c = cfg(
        Some((Scope::Global, "true")),
        Some((Scope::Global, "/Applications/1Password.app/op-ssh-sign")),
        Some((Scope::Global, "ssh-ed25519 HUMAN")),
        Some((Scope::Global, "me@example.com")),
    );
    let f = audit(true, &c, &Some("https://github.com/o/h.git".into()), Visibility::Public);
    let warns: Vec<&Finding> = f.iter().filter(|x| x.level == Level::Warn).collect();
    assert_eq!(warns.len(), 4);
    assert!(warns[0].title.starts_with("gpg.ssh.program (global) is an interactive signer"));
    assert!(warns[1].title.starts_with("user.signingkey is inherited from global config"));
    assert!(warns[2].title.starts_with("user.email (me@example.com) comes from global config"));
    assert!(warns[3].title.contains("https://github.com/o/h.git"));
    assert!(render(&f).ends_with("\n4 thing(s) to address above.\n"));
}

#[test]
fn audit_of_a_human_clone_flags_local_overrides() {
    let c = cfg(Some((Scope::Local, "true")), None, None, Some((Scope::Global, "me@example.com")));
    let f = audit(false, &c, &None, Visibility::NotApplicable);
    let warns: Vec<&Finding> = f.iter().filter(|x| x.level == Level::Warn).collect();
    assert_eq!(warns.len(), 1);
    assert_eq!(
        warns[0].title,
        "LOCAL override `commit.gpgsign = true` in a human-used clone — this changes how the HUMAN's commits here behave."
    );
}

#[test]
fn fix_turns_signing_on_only_for_a_keyed_agent_clone() {
    let off = cfg(None, None, Some((Scope::Local, "/k")), None);
    let p = fix(true, &off, "/usr/bin/ssh-keygen");
    assert_eq!(
        p.writes,
        vec![
            ("gpg.format".to_string(), "ssh".to_string()),
            ("gpg.ssh.program".to_string(), "/usr/bin/ssh-keygen".to_string()),
            ("commit.gpgsign".to_string(), "true".to_string())
        ]
    );
    assert_eq!(p.applied.len(), 1);
    assert!(fix(false, &off, "/usr/bin/ssh-keygen").writes.is_empty());
    let keyless = cfg(None, None, None, None);
    assert!(fix(true, &keyless, "/usr/bin/ssh-keygen").writes.is_empty());
    let fine = cfg(Some((Scope::Local, "true")), None, Some((Scope::Local, "/k")), None);
    assert!(fix(true, &fine, "/usr/bin/ssh-keygen").writes.is_empty());
}

#[test]
fn scoped_reads_show_origin_output() {
    assert_eq!(scoped("file:.git/config\ttrue\n"), Some((Scope::Local, "true".to_string())));
    assert_eq!(scoped("file:/Users/x/.gitconfig\t me@x \r\n"), Some((Scope::Global, "me@x".to_string())));
    assert_eq!(scoped(""), None);
    assert_eq!(scoped("no tab here"), None);
}

#[test]
fn visibility_follows_the_probe_only_for_network_remotes() {
    assert_eq!(probe_verdict(&Some("200".into())), Visibility::Public);
    assert_eq!(probe_verdict(&Some("000".into())), Visibility::Unknown);
    assert_eq!(probe_verdict(&Some("404\n".into())), Visibility::Private);
    assert_eq!(probe_verdict(&None), Visibility::Unknown);
    assert_eq!(remote_visibility(None, &Some("200".into())).1, Visibility::NotApplicable);
    assert_eq!(remote_visibility(Some("/tmp/hub.git".into()), &Some("200".into())).1, Visibility::NotApplicable);
    assert_eq!(remote_visibility(Some("git@github.com:o/r.git".into()), &Some("200".into())).1, Visibility::Public);
}
