use confer::alias::{Role, Roster};
use confer::append::{embed_fence, lonely_warning_text, recipient_advisory, unjoined_warning_text};
use confer::groups::Groups;

fn role() -> Role {
    Role { display: None, host: None, desc: None, aliases: vec![], status: None, pubkey: None }
}

fn roster(ids: &[&str]) -> Roster {
    let mut r = Roster::new();
    for id in ids {
        r.insert(id.to_string(), role());
    }
    r
}

fn v(xs: &[&str]) -> Vec<String> {
    xs.iter().map(|x| x.to_string()).collect()
}

#[test]
fn advisory_names_unjoined_roles_sorted_once() {
    let r = roster(&["me", "amy"]);
    let mut g = Groups::new();
    g.insert("team".into(), v(&["me", "bob"]));
    let a = recipient_advisory(&r, &g, "me", &v(&["zed", "amy", "me"]), &v(&["bob", "zed"]));
    assert_eq!(a.unknown, v(&["bob", "zed"]));
    assert!(!a.broadcast_empty);
    let a = recipient_advisory(&r, &g, "me", &v(&["team"]), &v(&[]));
    assert!(a.unknown.is_empty());
    assert!(a.broadcast_empty);
    let alone = roster(&["me"]);
    let a = recipient_advisory(&alone, &g, "me", &v(&["all"]), &v(&[]));
    assert!(a.broadcast_empty);
    let a = recipient_advisory(&r, &g, "me", &v(&["all"]), &v(&[]));
    assert!(!a.broadcast_empty);
    let a = recipient_advisory(&r, &g, "me", &v(&[]), &v(&[]));
    assert!(a.unknown.is_empty() && !a.broadcast_empty);
}

#[test]
fn advisory_warnings_read_naturally() {
    let r = roster(&["me", "amy"]);
    assert_eq!(
        unjoined_warning_text("hub", &v(&["zed"]), &r),
        "confer: warning — role 'zed' has not joined hub 'hub'; they won't see this until they join. Joined roles: amy, me. If you expected them here, you may be in the wrong hub."
    );
    let none = Roster::new();
    let w = unjoined_warning_text("hub", &v(&["a", "b"]), &none);
    assert!(w.starts_with("confer: warning — roles 'a', 'b' have not joined hub 'hub';"));
    assert!(w.contains("Joined roles: (none yet)."));
    assert_eq!(
        lonely_warning_text("hub", "ship it"),
        "confer: warning — you are the only role in hub 'hub'; no other agent will receive \"ship it\" until they join."
    );
}

#[test]
fn embed_fence_quotes_the_range() {
    let text = "one\ntwo\nthree\nfour\n";
    assert_eq!(
        embed_fence(text, "r", "src/a.rs", "unresolved", Some([2, 3])).unwrap(),
        "```confer-ref repo=r path=src/a.rs sha=unresolved range=L2-3\ntwo\nthree\n```\n"
    );
    assert_eq!(
        embed_fence(text, "r", "p", "abc", None).unwrap(),
        "```confer-ref repo=r path=p sha=abc\none\ntwo\nthree\nfour\n```\n"
    );
    assert_eq!(embed_fence(text, "r", "p", "s", Some([0, 9])).unwrap(), "```confer-ref repo=r path=p sha=s range=L0-9\none\ntwo\nthree\nfour\n```\n");
    assert_eq!(embed_fence(text, "r", "p", "s", Some([4, 2])).unwrap(), "```confer-ref repo=r path=p sha=s range=L4-2\n```\n");
    let big: String = (0..250).map(|i| format!("l{i}\n")).collect();
    assert_eq!(embed_fence(&big, "r", "p", "s", None), Err(250));
    assert_eq!(embed_fence(&big, "r", "p", "s", Some([1, 200])).map(|f| f.lines().count()), Ok(202));
}
