use confer::join::{
    ever_keyed, CardRevision,
    card_key, check_join_names, check_rerole, join_config, pubkey_material_eq, pubkey_path,
    safe_clone_dir, scheme_of, CardKey, IdentityFile, JoinError,
};

const KEY: &str = "ssh-ed25519 AAAAC3NzaC1lZDI1NTE5AAAAIGx agent@box";

#[test]
fn material_ignores_the_comment_but_not_the_key() {
    assert!(pubkey_material_eq(KEY, "ssh-ed25519  AAAAC3NzaC1lZDI1NTE5AAAAIGx other-comment"));
    assert!(pubkey_material_eq(KEY, "  ssh-ed25519 AAAAC3NzaC1lZDI1NTE5AAAAIGx\n"));
    assert!(!pubkey_material_eq(KEY, "ssh-ed25519 AAAAC3NzaC1lZDI1NTE5AAAAIGy agent@box"));
    assert!(!pubkey_material_eq(KEY, "ssh-rsa AAAAC3NzaC1lZDI1NTE5AAAAIGx agent@box"));
    assert!(pubkey_material_eq("  single ", "single"));
    assert!(!pubkey_material_eq("single", "single word"));
}

#[test]
fn a_role_is_keyed_once() {
    let other = Some("ssh-ed25519 AAAAdifferent me".to_string());
    let same = Some("ssh-ed25519 AAAAC3NzaC1lZDI1NTE5AAAAIGx renamed".to_string());
    assert_eq!(card_key(&same, true, KEY), CardKey::Unchanged);
    assert_eq!(card_key(&other, true, KEY), CardKey::DifferentKey);
    assert_eq!(card_key(&None, true, KEY), CardKey::KeyedBefore);
    assert_eq!(card_key(&None, false, KEY), CardKey::Publish);
}

#[test]
fn pubkey_path_appends_pub_once() {
    assert_eq!(pubkey_path("/home/a/.ssh/id_ed25519"), "/home/a/.ssh/id_ed25519.pub");
    assert_eq!(pubkey_path("/home/a/.ssh/id_ed25519.pub"), "/home/a/.ssh/id_ed25519.pub");
    assert_eq!(pubkey_path("key.public"), "key.public.pub");
}

#[test]
fn join_names_refuse_bad_reserved_and_homoglyph() {
    assert_eq!(check_join_names("backend", &Some("Alice".into())), Ok(()));
    assert_eq!(check_join_names("backend", &None), Ok(()));
    assert_eq!(check_join_names("Backend", &None), Err(JoinError::BadRole));
    assert_eq!(check_join_names("-x", &None), Err(JoinError::BadRole));
    assert_eq!(check_join_names("", &None), Err(JoinError::BadRole));
    assert_eq!(check_join_names("all", &None), Err(JoinError::ReservedRole));
    assert_eq!(
        check_join_names("backend", &Some("ali\u{0441}e".into())),
        Err(JoinError::HomoglyphDisplay)
    );
    assert_eq!(check_join_names("backend", &Some("Алиса".into())), Ok(()));
}

#[test]
fn one_clone_is_one_role() {
    let mine = IdentityFile::Read(Some("backend".into()));
    let other = IdentityFile::Read(Some("frontend".into()));
    let blank = IdentityFile::Read(None);
    assert_eq!(check_rerole(&IdentityFile::Absent, "backend", false), Ok(false));
    assert_eq!(check_rerole(&mine, "backend", false), Ok(false));
    assert_eq!(check_rerole(&other, "backend", false), Err(JoinError::OtherRole));
    assert_eq!(check_rerole(&other, "backend", true), Ok(true));
    assert_eq!(check_rerole(&blank, "backend", false), Err(JoinError::IdentityWithoutRole));
    assert_eq!(check_rerole(&blank, "backend", true), Ok(false));
    assert_eq!(check_rerole(&IdentityFile::Unreadable, "backend", true), Err(JoinError::IdentityUnreadable));
}

#[test]
fn join_config_signs_as_the_role_or_not_at_all() {
    let w = join_config("backend", &Some("/k/id".into()), "/usr/bin/ssh-keygen");
    let names: Vec<&str> = w.iter().map(|(k, _)| k.as_str()).collect();
    assert_eq!(
        names,
        vec!["gpg.format", "gpg.ssh.program", "user.signingkey", "commit.gpgsign", "rebase.gpgSign", "user.name", "user.email"]
    );
    assert_eq!(w[1].1, "/usr/bin/ssh-keygen");
    assert_eq!(w[2].1, "/k/id");
    assert_eq!(w[3].1, "true");
    assert_eq!(w[5].1, "backend");
    assert_eq!(w[6].1, "backend@confer.local");

    let w = join_config("backend", &None, "ssh-keygen");
    assert_eq!(w.len(), 4);
    assert_eq!(w[0], ("commit.gpgsign".to_string(), "false".to_string()));
    assert_eq!(w[3], ("user.email".to_string(), "backend@confer.local".to_string()));
}

#[test]
fn clone_dir_avoids_nesting_when_a_home_is_known() {
    assert_eq!(safe_clone_dir(Some("x".into()), "hub", true, &Some("/h".into())), "x");
    assert_eq!(safe_clone_dir(None, "hub", true, &Some("/h".into())), "/h/hub");
    assert_eq!(safe_clone_dir(None, "hub", true, &None), "hub");
    assert_eq!(safe_clone_dir(None, "hub", false, &Some("/h".into())), "hub");
}

#[test]
fn scheme_follows_the_url() {
    assert_eq!(scheme_of("https://github.com/o/r.git"), "https");
    assert_eq!(scheme_of("http://host/r"), "https");
    assert_eq!(scheme_of("git@github.com:o/r.git"), "ssh");
}

#[test]
fn a_card_history_that_ever_held_a_key_or_cannot_be_read_counts_as_keyed() {
    assert!(!ever_keyed("backend", &vec![]));
    assert!(!ever_keyed("backend", &vec![CardRevision::Absent, CardRevision::NoKey]));
    assert!(ever_keyed("backend", &vec![CardRevision::NoKey, CardRevision::Keyed, CardRevision::NoKey]));
    assert!(ever_keyed("backend", &vec![CardRevision::Unreadable]));
    assert!(!ever_keyed("../etc", &vec![CardRevision::Keyed]));
}
