//! The hub sync loop's decisions: reading what git answered, which commit anchors the read
//! cursor, which new message files a range added, and how to reconcile with upstream, push,
//! retry or defer. Running git, the clone lock and the clock are outside: they perform each
//! step and hand back what happened.
use vstd::prelude::*;
use crate::text::opt_str;
use crate::text::strs;
use crate::text::{chars_of, string_of, trim, trimmed, contains, contains_seq, lines, split_lines, vv, is_prefix, is_suffix, starts_with, ends_with, parse_u64, parse_u64_spec};

verus! {

// ---------------------------------------------------------------- reading git's answers

/// A failed git call that another process's lock blocked (the index lock or the config
/// lock): worth a bounded retry.
pub open spec fn lock_contention(success: bool, stderr: Seq<char>) -> bool {
    !success && (contains_seq(stderr, "index.lock"@) || contains_seq(stderr, "config.lock"@) || contains_seq(
        stderr,
        "could not lock config"@,
    ))
}

fn says(s: &[char], p: &str) -> (b: bool)
    ensures
        b == contains_seq(s@, p@),
{
    let pv = chars_of(p);
    contains(s, pv.as_slice())
}

pub fn is_lock_contention(success: bool, stderr: &str) -> (b: bool)
    ensures
        b == lock_contention(success, stderr@),
{
    if success {
        return false;
    }
    let e = chars_of(stderr);
    says(e.as_slice(), "index.lock") || says(e.as_slice(), "config.lock") || says(e.as_slice(), "could not lock config")
}

/// The arguments joined by single spaces.
pub open spec fn joined(args: Seq<Seq<char>>) -> Seq<char>
    decreases args.len(),
{
    if args.len() == 0 {
        Seq::empty()
    } else if args.len() == 1 {
        args[0]
    } else {
        joined(args.drop_last()) + seq![' '] + args.last()
    }
}

/// A git call that must succeed: on failure, the message `git <args>: <stderr trimmed>`.
pub open spec fn check_spec(args: Seq<Seq<char>>, success: bool, stderr: Seq<char>) -> Result<(), Seq<char>> {
    if success {
        Ok(())
    } else {
        Err("git "@ + joined(args) + ": "@ + trim(stderr))
    }
}

pub fn check(args: &Vec<String>, success: bool, stderr: &str) -> (r: Result<(), String>)
    ensures
        match check_spec(strs(args@), success, stderr@) {
            Ok(()) => r is Ok,
            Err(m) => r matches Err(s) && s@ == m,
        },
{
    if success {
        return Ok(());
    }
    let mut j: Vec<char> = Vec::new();
    let mut i: usize = 0;
    while i < args.len()
        invariant
            0 <= i <= args@.len(),
            j@ == joined(strs(args@).take(i as int)),
        decreases args@.len() - i,
    {
        let ghost t = strs(args@).take(i + 1);
        assert(t.drop_last() =~= strs(args@).take(i as int));
        assert(t.last() == args@[i as int]@);
        if i > 0 {
            j.push(' ');
        }
        crate::text::push_str(&mut j, args[i].as_str());
        assert(j@ =~= joined(t));
        i += 1;
    }
    assert(strs(args@).take(args@.len() as int) =~= strs(args@));
    let mut m = String::new();
    m.append("git ");
    m.append(string_of(j.as_slice()).as_str());
    m.append(": ");
    m.append(string_of(trimmed(chars_of(stderr).as_slice()).as_slice()).as_str());
    Err(m)
}

/// Why there is no `HEAD` commit.
#[derive(Clone, Copy, PartialEq, Eq, Structural, Debug)]
pub enum GitError {
    NoHead,
}

/// The current `HEAD` commit from `git rev-parse HEAD`: its trimmed output, or no commit yet.
pub fn head(success: bool, stdout: &str) -> (r: Result<String, GitError>)
    ensures
        success ==> (r matches Ok(s) && s@ == trim(stdout@)),
        !success ==> r == Err::<String, GitError>(GitError::NoHead),
{
    if success {
        Ok(string_of(trimmed(chars_of(stdout).as_slice()).as_slice()))
    } else {
        Err(GitError::NoHead)
    }
}

/// The merge base `git merge-base` printed: the trimmed output, none when it failed or printed
/// nothing.
pub fn merge_base(success: bool, stdout: &str) -> (r: Option<String>)
    ensures
        opt_str(r) == if success && trim(stdout@).len() > 0 {
            Some(trim(stdout@))
        } else {
            None
        },
{
    if !success {
        return None;
    }
    let t = trimmed(chars_of(stdout).as_slice());
    if t.len() == 0 {
        None
    } else {
        Some(string_of(t.as_slice()))
    }
}

/// The read cursor's anchor: the merge base of the upstream and `HEAD` (pushed, so never
/// orphaned by a rebase, and never ahead of `HEAD`), else `HEAD` itself when there is no
/// upstream.
pub fn cursor_anchor(merge_base: Option<String>, head: Option<String>) -> (r: Option<String>)
    ensures
        opt_str(r) == if merge_base is Some { opt_str(merge_base) } else { opt_str(head) },
{
    match merge_base {
        Some(b) => Some(b),
        None => head,
    }
}

/// A commit count `git rev-list --count` printed (0 when unreadable).
pub fn rev_count(stdout: &str) -> (n: u64)
    ensures
        n == match parse_u64_spec(trim(stdout@)) {
            Some(v) => v,
            None => 0,
        },
{
    match parse_u64(trimmed(chars_of(stdout).as_slice()).as_slice()) {
        Some(v) => v,
        None => 0,
    }
}

/// A duration from the environment: a positive number of seconds, else the default.
pub fn env_secs(value: &Option<String>, default: u64) -> (n: u64)
    ensures
        n == match opt_str(*value) {
            Some(v) => match parse_u64_spec(v) {
                Some(k) => if k > 0 { k } else { default },
                None => default,
            },
            None => default,
        },
{
    match value {
        Some(v) => match parse_u64(chars_of(v.as_str()).as_slice()) {
            Some(k) => if k > 0 { k } else { default },
            None => default,
        },
        None => default,
    }
}

// ---------------------------------------------------------------- new message files

/// The message files a `git log --diff-filter=A --name-only` listing names: each line
/// trimmed, kept when it is `threads/….md`, each path once, in first-seen order.
pub open spec fn message_files(ls: Seq<Seq<char>>, n: nat) -> Seq<Seq<char>>
    decreases n,
{
    if n == 0 {
        Seq::empty()
    } else {
        let r = message_files(ls, (n - 1) as nat);
        let l = trim(ls[n - 1]);
        if is_prefix("threads/"@, l) && is_suffix(".md"@, l) && !r.contains(l) {
            r.push(l)
        } else {
            r
        }
    }
}

pub open spec fn added_files_spec(listing: Seq<char>) -> Seq<Seq<char>> {
    message_files(lines(listing), lines(listing).len())
}

/// The message files a log listing added, as paths relative to the clone.
pub fn added_files(listing: &str) -> (files: Vec<String>)
    ensures
        strs(files@) == added_files_spec(listing@),
{
    let c = chars_of(listing);
    let ls = split_lines(c.as_slice());
    let pre = chars_of("threads/");
    let suf = chars_of(".md");
    let mut files: Vec<String> = Vec::new();
    let mut i: usize = 0;
    while i < ls.len()
        invariant
            0 <= i <= ls@.len(),
            pre@ == "threads/"@,
            suf@ == ".md"@,
            vv(ls@) == lines(listing@),
            strs(files@) == message_files(lines(listing@), i as nat),
        decreases ls@.len() - i,
    {
        assert(vv(ls@)[i as int] == ls@[i as int]@);
        let l = trimmed(ls[i].as_slice());
        if starts_with(l.as_slice(), pre.as_slice()) && ends_with(l.as_slice(), suf.as_slice()) {
            let ls_s = string_of(l.as_slice());
            let mut seen = false;
            let mut k: usize = 0;
            while k < files.len()
                invariant
                    0 <= k <= files@.len(),
                    ls_s@ == l@,
                    seen == strs(files@).take(k as int).contains(l@),
                decreases files@.len() - k,
            {
                let ghost t = strs(files@).take(k as int);
                let ghost t2 = strs(files@).take(k + 1);
                assert(t2 =~= t.push(files@[k as int]@));
                let hit = files[k] == ls_s;
                if hit {
                    seen = true;
                }
                proof {
                    if hit {
                        assert(t2[k as int] == l@);
                    } else {
                        if t2.contains(l@) {
                            let j = choose|j: int| 0 <= j < t2.len() && t2[j] == l@;
                            assert(j < k);
                            assert(t[j] == l@);
                        }
                        if t.contains(l@) {
                            let j = choose|j: int| 0 <= j < t.len() && t[j] == l@;
                            assert(t2[j] == l@);
                        }
                    }
                }
                k += 1;
            }
            assert(strs(files@).take(files@.len() as int) =~= strs(files@));
            if !seen {
                let ghost before = strs(files@);
                files.push(ls_s);
                assert(strs(files@) =~= before.push(l@));
            }
        }
        i += 1;
    }
    files
}

/// The range to read message files from, given the stored cursor.
pub enum ReadRange {
    /// `cursor..HEAD`: the cursor is an ancestor of `HEAD`.
    Incremental(String),
    /// `base..HEAD`: the cursor diverged (history rewritten); read from the merge base.
    Diverged(String),
    /// All of `HEAD`: no cursor, or one git does not know.
    Full,
}

/// Which range to read: no cursor reads everything; a cursor that is an ancestor of `HEAD`
/// reads incrementally; a diverged one reads from its merge base with `HEAD`; an unknown one
/// reads everything.
pub fn read_range(cursor: &Option<String>, is_ancestor: bool, merge_base: &Option<String>) -> (r: ReadRange)
    ensures
        cursor is None ==> r is Full,
        cursor is Some && is_ancestor ==> (r matches ReadRange::Incremental(c) && c@ == (cursor->0)@),
        cursor is Some && !is_ancestor && merge_base is Some ==> (r matches ReadRange::Diverged(b) && b@
            == (merge_base->0)@),
        cursor is Some && !is_ancestor && merge_base is None ==> r is Full,
{
    match cursor {
        None => ReadRange::Full,
        Some(c) => {
            if is_ancestor {
                ReadRange::Incremental(c.clone())
            } else {
                match merge_base {
                    Some(b) => ReadRange::Diverged(b.clone()),
                    None => ReadRange::Full,
                }
            }
        },
    }
}

// ---------------------------------------------------------------- committing and syncing

/// Whether a message landed. Both mean it is committed locally.
#[derive(Clone, Copy, PartialEq, Eq, Structural, Debug)]
pub enum Committed {
    /// Committed and pushed to the hub.
    Synced,
    /// Committed locally; the push is deferred to the next sync.
    DeferredLocal,
}

/// What a sync did: whether the fetch worked, and how many commits it pushed.
#[derive(Clone, Copy, PartialEq, Eq, Structural, Debug)]
pub struct SyncResult {
    pub fetched: bool,
    pub pushed: u64,
}

/// The arguments of the commit: authored as the role, signing forced off unless `sign`.
pub open spec fn commit_args_spec(role: Seq<char>, msg: Seq<char>, sign: bool) -> Seq<Seq<char>> {
    let id = seq!["-c"@, "user.name="@ + role, "-c"@, "user.email="@ + role + "@confer.local"@];
    let no_sign = if sign { Seq::<Seq<char>>::empty() } else { seq!["-c"@, "commit.gpgsign=false"@] };
    id + no_sign + seq!["commit"@, "-q"@, "-m"@, msg]
}

fn lit(s: &str) -> (r: String)
    ensures
        r@ == s@,
{
    s.to_owned()
}

pub fn commit_args(role: &str, msg: &str, sign: bool) -> (args: Vec<String>)
    ensures
        strs(args@) == commit_args_spec(role@, msg@, sign),
{
    let mut args: Vec<String> = Vec::new();
    args.push(lit("-c"));
    let mut name = String::new();
    name.append("user.name=");
    name.append(role);
    args.push(name);
    args.push(lit("-c"));
    let mut email = String::new();
    email.append("user.email=");
    email.append(role);
    email.append("@confer.local");
    args.push(email);
    if !sign {
        args.push(lit("-c"));
        args.push(lit("commit.gpgsign=false"));
    }
    args.push(lit("commit"));
    args.push(lit("-q"));
    args.push(lit("-m"));
    args.push(lit(msg));
    assert(strs(args@) =~= commit_args_spec(role@, msg@, sign));
    args
}

/// Once the commit is made the message is durable: a sync that pushed makes it `Synced`, one
/// that failed only defers the push.
pub fn commit_and_sync(sync: &Result<SyncResult, String>) -> (c: Committed)
    ensures
        sync is Ok ==> c == Committed::Synced,
        sync is Err ==> c == Committed::DeferredLocal,
{
    match sync {
        Ok(_) => Committed::Synced,
        Err(_) => Committed::DeferredLocal,
    }
}

/// How to reconcile with upstream: nothing when not behind; a fast-forward when behind with
/// nothing of our own; a rebase of our commits otherwise.
#[derive(Clone, Copy, PartialEq, Eq, Structural, Debug)]
pub enum Reconcile {
    Nothing,
    FastForward,
    Rebase,
}

pub fn reconcile(behind: u64, ahead: u64) -> (r: Reconcile)
    ensures
        behind == 0 ==> r == Reconcile::Nothing,
        behind > 0 && ahead == 0 ==> r == Reconcile::FastForward,
        behind > 0 && ahead > 0 ==> r == Reconcile::Rebase,
{
    if behind == 0 {
        Reconcile::Nothing
    } else if ahead == 0 {
        Reconcile::FastForward
    } else {
        Reconcile::Rebase
    }
}

/// The step after reconciling: done when nothing is left to push; done after a push that
/// worked; after a rejected push, defer once the budget is spent, else wait and retry.
pub enum Next {
    Done(SyncResult),
    Push,
    RetryAfter(u64),
    Defer,
}

/// How long to back off before push retry `attempt`: 100 ms doubled per attempt up to four
/// times, capped at 1.5 s (jitter is added outside).
pub open spec fn backoff_spec(attempt: u32) -> u64 {
    let k: u32 = if attempt < 4 { attempt } else { 4 };
    let b: u64 = if k == 0 { 100 } else if k == 1 { 200 } else if k == 2 { 400 } else if k == 3 { 800 } else { 1600 };
    if b < 1500 { b } else { 1500 }
}

pub fn backoff_ms(attempt: u32) -> (ms: u64)
    ensures
        ms == backoff_spec(attempt),
{
    let k: u32 = if attempt < 4 { attempt } else { 4 };
    let b: u64 = 100u64 << k;
    assert(b == (if k == 0 { 100u64 } else if k == 1 { 200u64 } else if k == 2 { 400u64 } else if k == 3 { 800u64 } else { 1600u64 })) by (bit_vector)
        requires
            k <= 4,
            b == 100u64 << k;
    if b < 1500 {
        b
    } else {
        1500
    }
}

/// After reconciling, `ahead_now` commits remain: none means done without a push.
pub fn after_reconcile(fetched: bool, ahead_now: u64) -> (n: Next)
    ensures
        ahead_now == 0 ==> (n matches Next::Done(r) && r == (SyncResult { fetched, pushed: 0 })),
        ahead_now > 0 ==> n is Push,
{
    if ahead_now == 0 {
        Next::Done(SyncResult { fetched, pushed: 0 })
    } else {
        Next::Push
    }
}

/// After a push of `ahead_now` commits: done when it worked; when it was rejected, defer once
/// `elapsed_secs` reaches the budget, else retry after the backoff for `attempt`.
pub fn after_push(fetched: bool, ahead_now: u64, pushed_ok: bool, elapsed_secs: u64, budget_secs: u64, attempt: u32) -> (n: Next)
    ensures
        pushed_ok ==> (n matches Next::Done(r) && r == (SyncResult { fetched, pushed: ahead_now })),
        !pushed_ok && elapsed_secs >= budget_secs ==> n is Defer,
        !pushed_ok && elapsed_secs < budget_secs ==> (n matches Next::RetryAfter(ms) && ms == backoff_spec(attempt)),
{
    if pushed_ok {
        Next::Done(SyncResult { fetched, pushed: ahead_now })
    } else if elapsed_secs >= budget_secs {
        Next::Defer
    } else {
        Next::RetryAfter(backoff_ms(attempt))
    }
}

/// A retry never waits longer than 1.5 s, and waits longer (up to that cap) the more it has
/// retried.
pub proof fn backoff_is_bounded_and_grows(a: u32, b: u32)
    ensures
        100 <= backoff_spec(a) <= 1500,
        a <= b ==> backoff_spec(a) <= backoff_spec(b),
{
}

/// A jitter of at most `cap - 1` ms from the clock's sub-second nanoseconds.
pub fn jitter_ms(nanos: u32, cap: u64) -> (ms: u64)
    ensures
        ms == (nanos as u64) % (if cap > 0 { cap } else { 1 }),
        ms < (if cap > 0 { cap } else { 1 }),
{
    let c = if cap > 0 { cap } else { 1 };
    (nanos as u64) % c
}

} // verus!
