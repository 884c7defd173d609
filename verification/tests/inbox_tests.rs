use confer::groups::{addressed, directly_addressed, Groups, Message};
use confer::inbox::{compact_and_save, direct_ids_for_me, is_ulid, latest_id, mark_all_read, mark_read, unread_for_me, ReadState};

fn msg(id: &str, from: &str, to: &[&str]) -> Message {
    Message { id: id.into(), from: from.into(), to: to.iter().map(|s| s.to_string()).collect(), cc: vec![] }
}

const A: &str = "01AAAAAAAAAAAAAAAAAAAAAAAA";
const B: &str = "01BBBBBBBBBBBBBBBBBBBBBBBB";
const C: &str = "01CCCCCCCCCCCCCCCCCCCCCCCC";

#[test]
fn opening_one_does_not_read_the_others_holes_are_preserved() {
    let g = Groups::new();
    let msgs = vec![msg(A, "bob", &["alice"]), msg(B, "bob", &["alice"]), msg(C, "carol", &["alice"])];
    let st = ReadState::new();
    assert_eq!(unread_for_me(&msgs, "alice", &g, &st).len(), 3);
    let mut st = ReadState::new();
    st.opened.push(C.into());
    let u: Vec<_> = unread_for_me(&msgs, "alice", &g, &st).iter().map(|m| m.id.as_str()).collect();
    assert_eq!(u, vec![A, B], "opening the newest must NOT read the older deferred mail");
}

#[test]
fn a_non_ulid_id_cannot_poison_the_read_state() {
    let g = Groups::new();
    let msgs = vec![msg("not-a-ulid", "bob", &["alice"]), msg(A, "bob", &["alice"])];
    let mut st = ReadState::new();
    st.floor = Some("zzzzzzzzzzzzzzzzzzzzzzzzzz".into());
    assert!(!st.is_read(A) || st.floor.as_deref() == Some("zzzzzzzzzzzzzzzzzzzzzzzzzz"));
    let real = unread_for_me(&msgs, "alice", &g, &ReadState::new());
    assert_eq!(real.len(), 2, "both messages are candidates regardless of id shape");
}

#[test]
fn a_read_message_between_two_others_does_not_sweep_the_unread_one() {
    let mut st = ReadState::new();
    st.opened.push(A.into());
    st.opened.push(C.into());
    assert!(st.is_read(A) && st.is_read(C));
    assert!(!st.is_read(B), "a not-yet-read message between two read ones must stay unread — no floor sweep");
    assert_eq!(st.floor, None);
}

#[test]
fn mark_read_records_only_real_ids_once() {
    let mut st = ReadState::new();
    assert!(!mark_read(&mut st, "alice", "not-a-ulid"));
    assert!(mark_read(&mut st, "alice", B));
    assert!(!mark_read(&mut st, "alice", B));
    assert!(st.is_read(B) && !st.is_read(A));
}

#[test]
fn mark_all_read_raises_the_floor() {
    let mut st = ReadState::new();
    st.opened.push(A.into());
    st.opened.push(C.into());
    assert!(mark_all_read(&mut st, "alice", B));
    assert!(st.is_read(A) && st.is_read(B) && st.is_read(C));
    assert_eq!(st.floor.as_deref(), Some(B));
}

#[test]
fn compact_keeps_only_live_opened_ids_above_the_floor() {
    let mut st = ReadState::new();
    st.floor = Some(A.into());
    st.opened.push(A.into());
    st.opened.push(B.into());
    st.opened.push(C.into());
    let (next, changed) = compact_and_save(&st, &[B.to_string()]);
    assert!(changed);
    assert_eq!(next.opened, vec![B.to_string()]);
    assert_eq!(next.floor.as_deref(), Some(A));
    assert!(next.is_read(B));
}

#[test]
fn direct_ids_and_latest() {
    let g = Groups::new();
    let msgs = vec![msg(C, "bob", &["alice"]), msg(A, "bob", &["carol"]), msg(B, "carol", &["alice"])];
    assert_eq!(direct_ids_for_me(&msgs, "alice", &g), vec![B.to_string(), C.to_string()]);
    assert_eq!(latest_id(&msgs).as_deref(), Some(C));
    assert!(is_ulid(A) && !is_ulid("nope"));
}

#[test]
fn addressing_counts_groups_and_all() {
    let mut g = Groups::new();
    g.insert("design".into(), vec!["alice".into()]);
    let to_group = msg(A, "bob", &["design"]);
    assert!(directly_addressed(&to_group, "alice", &g));
    assert!(addressed(&to_group, "alice", &g));
    let cc_all = Message { id: B.into(), from: "bob".into(), to: vec![], cc: vec!["all".into()] };
    assert!(addressed(&cc_all, "alice", &g));
    assert!(!directly_addressed(&cc_all, "alice", &g));
}
