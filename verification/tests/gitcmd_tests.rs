use confer::gitcmd::{
    added_files, after_push, after_reconcile, backoff_ms, check, commit_and_sync, commit_args, cursor_anchor, env_secs,
    head, is_lock_contention, jitter_ms, merge_base, read_range, reconcile, rev_count, Committed, GitError, Next,
    ReadRange, Reconcile, SyncResult,
};

#[test]
fn lock_contention_is_recognised() {
    assert!(is_lock_contention(false, "fatal: Unable to create '/r/.git/index.lock': File exists."));
    assert!(is_lock_contention(false, "error: could not lock config file .git/config"));
    assert!(!is_lock_contention(true, "index.lock"));
    assert!(!is_lock_contention(false, "fatal: not a git repository"));
}

#[test]
fn check_names_the_command_and_error() {
    let args = vec!["config".to_string(), "k".to_string(), "v".to_string()];
    assert_eq!(check(&args, true, ""), Ok(()));
    assert_eq!(check(&args, false, " boom \n"), Err("git config k v: boom".to_string()));
}

#[test]
fn cursor_anchor_no_upstream_falls_back_to_head() {
    assert_eq!(cursor_anchor(None, Some("h".into())).as_deref(), Some("h"));
    assert_eq!(cursor_anchor(Some("b".into()), Some("h".into())).as_deref(), Some("b"));
    assert_eq!(merge_base(true, "abc\n").as_deref(), Some("abc"));
    assert_eq!(merge_base(false, "abc\n"), None);
    assert_eq!(head(true, " h1 \n"), Ok("h1".to_string()));
    assert_eq!(head(false, ""), Err(GitError::NoHead));
}

#[test]
fn added_files_keep_new_messages_once() {
    let listing = "\nthreads/a.md\nREADME.md\n  threads/b.md \nthreads/a.md\nthreads/c.txt\n";
    assert_eq!(added_files(listing), vec!["threads/a.md".to_string(), "threads/b.md".to_string()]);
}

#[test]
fn read_range_follows_the_cursor() {
    assert!(matches!(read_range(&None, false, &None), ReadRange::Full));
    assert!(matches!(read_range(&Some("c".into()), true, &None), ReadRange::Incremental(ref c) if c == "c"));
    assert!(matches!(read_range(&Some("c".into()), false, &Some("b".into())), ReadRange::Diverged(ref b) if b == "b"));
    assert!(matches!(read_range(&Some("c".into()), false, &None), ReadRange::Full));
}

#[test]
fn sync_steps() {
    assert_eq!(reconcile(0, 3), Reconcile::Nothing);
    assert_eq!(reconcile(2, 0), Reconcile::FastForward);
    assert_eq!(reconcile(2, 1), Reconcile::Rebase);
    assert!(matches!(after_reconcile(true, 0), Next::Done(SyncResult { fetched: true, pushed: 0 })));
    assert!(matches!(after_reconcile(true, 2), Next::Push));
    assert!(matches!(after_push(false, 2, true, 0, 25, 0), Next::Done(SyncResult { fetched: false, pushed: 2 })));
    assert!(matches!(after_push(true, 2, false, 30, 25, 3), Next::Defer));
    assert!(matches!(after_push(true, 2, false, 3, 25, 2), Next::RetryAfter(400)));
    assert_eq!(backoff_ms(0), 100);
    assert_eq!(backoff_ms(4), 1500);
    assert_eq!(backoff_ms(40), 1500);
    assert_eq!(commit_and_sync(&Ok(SyncResult { fetched: true, pushed: 1 })), Committed::Synced);
    assert_eq!(commit_and_sync(&Err("hub busy".into())), Committed::DeferredLocal);
}

#[test]
fn commit_args_and_small_parsers() {
    assert_eq!(
        commit_args("alice", "m", false),
        vec!["-c", "user.name=alice", "-c", "user.email=alice@confer.local", "-c", "commit.gpgsign=false", "commit", "-q", "-m", "m"]
    );
    assert_eq!(commit_args("alice", "m", true).len(), 8);
    assert_eq!(rev_count(" 12\n"), 12);
    assert_eq!(rev_count("x"), 0);
    assert_eq!(env_secs(&Some("15".into()), 60), 15);
    assert_eq!(env_secs(&Some("0".into()), 60), 60);
    assert_eq!(env_secs(&None, 30), 30);
    assert_eq!(jitter_ms(1234, 100), 34);
    assert_eq!(jitter_ms(7, 0), 0);
}
