use confer::alias::{Role, Roster};
use confer::init::{
    clone_basename, hub_heads, hub_slug, local_hub_path, local_hub_verdict, move_safety, reason, roles_line, HubHeads, LocalHub,
    Unsafe,
};

#[test]
fn basename_is_the_last_segment_without_git() {
    assert_eq!(clone_basename("owner/hub"), "hub");
    assert_eq!(clone_basename("https://github.com/o/hub.git"), "hub");
    assert_eq!(clone_basename("/srv/hubs/team.git.git"), "team");
    assert_eq!(clone_basename("plain"), "plain");
    assert_eq!(clone_basename("trailing/"), "");
}

#[test]
fn heads_decide_fresh_main_or_not() {
    assert_eq!(hub_heads(""), HubHeads::Fresh);
    assert_eq!(hub_heads("  \n"), HubHeads::Fresh);
    assert_eq!(hub_heads("abc\trefs/heads/main\n"), HubHeads::HasMain);
    assert_eq!(hub_heads("abc\trefs/heads/master\n"), HubHeads::NoMain);
}

#[test]
fn roles_line_lists_ids_in_order() {
    let mut r = Roster::new();
    assert_eq!(roles_line(&r), "(none — add to roles.toml)");
    let role = || Role { display: None, host: None, desc: None, aliases: vec![], status: None, pubkey: None };
    r.insert("zed".into(), role());
    r.insert("amy".into(), role());
    assert_eq!(roles_line(&r), "amy, zed");
}

#[test]
fn a_move_must_not_lose_work() {
    assert_eq!(move_safety(true, false, true), Err(Unsafe::Dirty));
    assert_eq!(move_safety(false, false, false), Err(Unsafe::NoUpstream));
    assert_eq!(move_safety(false, true, true), Err(Unsafe::Unpushed));
    assert_eq!(move_safety(false, true, false), Ok(()));
    assert_eq!(reason(Unsafe::NoUpstream), "no upstream branch (this clone may be the only copy)");
}

#[test]
fn hub_slug_falls_back_in_order() {
    assert_eq!(hub_slug(&Some("o/hub".into()), &Some("x".into()), &None), "o/hub");
    assert_eq!(hub_slug(&None, &Some("git@github.com:o/hub.git".into()), &None), "hub");
    assert_eq!(hub_slug(&None, &None, &Some("dir".into())), "dir");
    assert_eq!(hub_slug(&None, &None, &None), "hub");
}

#[test]
fn local_hub_urls_expand_home_and_never_clobber_a_directory() {
    assert_eq!(local_hub_path("git@github.com:o/h.git", "/home/me"), None);
    assert_eq!(local_hub_path("owner/repo", "/home/me"), None);
    assert_eq!(local_hub_path("~", "/home/me").as_deref(), Some("/home/me"));
    assert_eq!(local_hub_path("~/hubs/team", "/home/me").as_deref(), Some("/home/me/hubs/team"));
    assert_eq!(local_hub_path("./hub", "/home/me").as_deref(), Some("./hub"));
    assert_eq!(local_hub_path("/srv/hub", "/home/me").as_deref(), Some("/srv/hub"));
    assert_eq!(local_hub_verdict(true, true, Some(true)), LocalHub::Existing);
    assert_eq!(local_hub_verdict(false, true, Some(true)), LocalHub::Refuse);
    assert_eq!(local_hub_verdict(false, true, None), LocalHub::Refuse);
    assert_eq!(local_hub_verdict(false, true, Some(false)), LocalHub::Create);
    assert_eq!(local_hub_verdict(false, false, None), LocalHub::Create);
}
