//! Cross-hub recognition: the hubs this machine's agent belongs to, and where the same signing
//! key appears across them. The same public key on role cards in two hubs means the same agent.
//! Reading the registry, the clones and git happens outside; this module decides what is kept,
//! how hubs are named, and how appearances are indexed.
use vstd::prelude::*;
use crate::text::opt_str;
use crate::text::strs;
use crate::text::{chars_of, contains, contains_seq, is_suffix, ends_with, slice, string_of, push_all};
use crate::clonehome::{ws_tokens, vv, split_ws};

verus! {

/// This agent belongs to `role` in the hub cloned at `dir`.
pub struct Membership {
    pub dir: String,
    pub role: String,
}

pub open spec fn member_view(m: Membership) -> (Seq<char>, Seq<char>) {
    (m.dir@, m.role@)
}

pub open spec fn members_view(ms: Seq<Membership>) -> Seq<(Seq<char>, Seq<char>)> {
    ms.map_values(|m: Membership| member_view(m))
}

// ---------------------------------------------------------------- ephemeral clones

/// A scratchpad test clone under a temporary directory: it must not stay registered.
pub open spec fn ephemeral(dir: Seq<char>) -> bool {
    (contains_seq(dir, "/tmp/"@) || contains_seq(dir, "/T/"@) || contains_seq(dir, "/var/folders/"@))
        && contains_seq(dir, "/scratchpad/"@)
}

fn has(s: &[char], p: &str) -> (r: bool)
    ensures
        r == contains_seq(s@, p@),
{
    let pv = chars_of(p);
    contains(s, pv.as_slice())
}

/// Is `dir` a throwaway scratchpad clone?
pub fn is_ephemeral(dir: &str) -> (b: bool)
    ensures
        b == ephemeral(dir@),
{
    let d = chars_of(dir);
    let temp = has(d.as_slice(), "/tmp/") || has(d.as_slice(), "/T/") || has(d.as_slice(), "/var/folders/");
    temp && has(d.as_slice(), "/scratchpad/")
}

fn copy_member(m: &Membership) -> (r: Membership)
    ensures
        member_view(r) == member_view(*m),
{
    Membership { dir: m.dir.clone(), role: m.role.clone() }
}

// ---------------------------------------------------------------- pruning

/// The first `n` memberships worth keeping: the directory exists and is not ephemeral.
pub open spec fn kept(ms: Seq<Membership>, is_dir: Seq<bool>, n: nat) -> Seq<(Seq<char>, Seq<char>)>
    decreases n,
{
    if n == 0 {
        Seq::empty()
    } else {
        let r = kept(ms, is_dir, (n - 1) as nat);
        if is_dir[n - 1] && !ephemeral(ms[n - 1].dir@) {
            r.push(member_view(ms[n - 1]))
        } else {
            r
        }
    }
}

/// Drop the memberships whose directory is gone (`is_dir[i]` says whether membership `i`'s
/// directory exists) or that are ephemeral. Returns what is kept, in order, and whether
/// anything was dropped (the registry then needs rewriting).
pub fn prune(hubs: &Vec<Membership>, is_dir: &Vec<bool>) -> (r: (Vec<Membership>, bool))
    requires
        is_dir@.len() == hubs@.len(),
    ensures
        members_view(r.0@) == kept(hubs@, is_dir@, hubs@.len()),
        r.1 == (r.0@.len() != hubs@.len()),
{
    let mut out: Vec<Membership> = Vec::new();
    let mut i: usize = 0;
    while i < hubs.len()
        invariant
            0 <= i <= hubs@.len(),
            is_dir@.len() == hubs@.len(),
            members_view(out@) == kept(hubs@, is_dir@, i as nat),
            out@.len() <= i,
        decreases hubs@.len() - i,
    {
        if is_dir[i] && !is_ephemeral(hubs[i].dir.as_str()) {
            out.push(copy_member(&hubs[i]));
        }
        assert(members_view(out@) =~= kept(hubs@, is_dir@, (i + 1) as nat));
        i += 1;
    }
    let changed = out.len() != hubs.len();
    (out, changed)
}

proof fn lemma_kept_sound(ms: Seq<Membership>, is_dir: Seq<bool>, n: nat)
    requires
        n <= ms.len(),
        n <= is_dir.len(),
    ensures
        kept(ms, is_dir, n).len() <= n,
        forall|j: int| 0 <= j < kept(ms, is_dir, n).len() ==> exists|i: int|
            0 <= i < n && is_dir[i] && !ephemeral(ms[i].dir@) && #[trigger] kept(ms, is_dir, n)[j] == member_view(ms[i]),
        forall|i: int| 0 <= i < n && is_dir[i] && !ephemeral(#[trigger] ms[i].dir@) ==> kept(ms, is_dir, n).contains(member_view(ms[i])),
    decreases n,
{
    if n > 0 {
        let m = (n - 1) as nat;
        lemma_kept_sound(ms, is_dir, m);
        let r = kept(ms, is_dir, m);
        if is_dir[m as int] && !ephemeral(ms[m as int].dir@) {
            assert forall|j: int| 0 <= j < kept(ms, is_dir, n).len() implies exists|i: int|
                0 <= i < n && is_dir[i] && !ephemeral(ms[i].dir@) && #[trigger] kept(ms, is_dir, n)[j] == member_view(ms[i]) by {
                if j < r.len() {
                    let i = choose|i: int| 0 <= i < m && is_dir[i] && !ephemeral(ms[i].dir@) && r[j] == member_view(ms[i]);
                    assert(kept(ms, is_dir, n)[j] == member_view(ms[i]));
                } else {
                    assert(kept(ms, is_dir, n)[j] == member_view(ms[m as int]));
                }
            }
            assert forall|i: int| 0 <= i < n && is_dir[i] && !ephemeral(#[trigger] ms[i].dir@) implies kept(ms, is_dir, n).contains(member_view(ms[i])) by {
                if i < m {
                    let j = choose|j: int| 0 <= j < r.len() && r[j] == member_view(ms[i]);
                    assert(kept(ms, is_dir, n)[j] == member_view(ms[i]));
                } else {
                    assert(kept(ms, is_dir, n)[r.len() as int] == member_view(ms[i]));
                }
            }
        }
    }
}

/// Pruning keeps exactly the live, non-ephemeral memberships: everything kept was in the
/// registry with an existing, non-ephemeral directory, and every such membership is kept.
pub proof fn prune_keeps_exactly_the_live_hubs(ms: Seq<Membership>, is_dir: Seq<bool>)
    requires
        is_dir.len() == ms.len(),
    ensures
        kept(ms, is_dir, ms.len()).len() <= ms.len(),
        forall|j: int| 0 <= j < kept(ms, is_dir, ms.len()).len() ==> exists|i: int|
            0 <= i < ms.len() && is_dir[i] && !ephemeral(ms[i].dir@) && #[trigger] kept(ms, is_dir, ms.len())[j]
                == member_view(ms[i]),
        forall|i: int| 0 <= i < ms.len() && is_dir[i] && !ephemeral(#[trigger] ms[i].dir@) ==> kept(
            ms,
            is_dir,
            ms.len(),
        ).contains(member_view(ms[i])),
{
    lemma_kept_sound(ms, is_dir, ms.len());
    let k = kept(ms, is_dir, ms.len());
    assert forall|j: int| 0 <= j < k.len() implies exists|i: int|
        0 <= i < ms.len() && is_dir[i] && !ephemeral(ms[i].dir@) && #[trigger] k[j] == member_view(ms[i]) by {
        assert(k[j] == kept(ms, is_dir, ms.len())[j]);
    }
}

// ---------------------------------------------------------------- recording

/// Record that this agent belongs to `role` at the (canonical) `dir`, in the pruned `hubs`.
/// Nothing happens for an empty role or a membership already recorded. Returns whether the
/// registry changed.
pub fn record(hubs: &mut Vec<Membership>, dir: String, role: &str) -> (changed: bool)
    ensures
        role@.len() == 0 ==> members_view(final(hubs)@) == members_view(old(hubs)@) && !changed,
        role@.len() > 0 && members_view(old(hubs)@).contains((dir@, role@)) ==> members_view(final(hubs)@)
            == members_view(old(hubs)@) && !changed,
        role@.len() > 0 && !members_view(old(hubs)@).contains((dir@, role@)) ==> members_view(final(hubs)@)
            == members_view(old(hubs)@).push((dir@, role@)) && changed,
{
    if role.is_empty() {
        return false;
    }
    let role_s = role.to_owned();
    let mut i: usize = 0;
    while i < hubs.len()
        invariant
            0 <= i <= hubs@.len(),
            hubs@ == old(hubs)@,
            role_s@ == role@,
            forall|k: int| 0 <= k < i ==> member_view(#[trigger] hubs@[k]) != (dir@, role@),
        decreases hubs@.len() - i,
    {
        if hubs[i].dir == dir && hubs[i].role == role_s {
            assert(members_view(hubs@)[i as int] == (dir@, role@));
            return false;
        }
        i += 1;
    }
    assert(!members_view(hubs@).contains((dir@, role@))) by {
        if members_view(hubs@).contains((dir@, role@)) {
            let k = choose|k: int| 0 <= k < members_view(hubs@).len() && members_view(hubs@)[k] == (dir@, role@);
            assert(member_view(hubs@[k]) == (dir@, role@));
        }
    }
    let ghost before = members_view(hubs@);
    hubs.push(Membership { dir, role: role_s });
    assert(members_view(hubs@) =~= before.push((dir@, role@)));
    true
}

/// Recording is idempotent: recording the same membership again changes nothing.
pub proof fn record_is_idempotent(hubs: Seq<(Seq<char>, Seq<char>)>, dir: Seq<char>, role: Seq<char>)
    requires
        role.len() > 0,
        !hubs.contains((dir, role)),
    ensures
        hubs.push((dir, role)).contains((dir, role)),
{
    assert(hubs.push((dir, role))[hubs.len() as int] == (dir, role));
}

// ---------------------------------------------------------------- root SHA and labels

/// The first whitespace-separated token of `git rev-list --max-parents=0 HEAD`.
pub open spec fn root_sha_spec(out: Seq<char>) -> Option<Seq<char>> {
    if ws_tokens(out).len() > 0 {
        Some(ws_tokens(out)[0])
    } else {
        None
    }
}

/// The root-commit SHA named in the output of `git rev-list --max-parents=0 HEAD`.
pub fn root_sha(out: &str) -> (r: Option<String>)
    ensures
        opt_str(r) == root_sha_spec(out@),
{
    let s = chars_of(out);
    let toks = split_ws(s.as_slice());
    if toks.len() > 0 {
        assert(vv(toks@)[0] == toks@[0]@);
        Some(string_of(toks[0].as_slice()))
    } else {
        None
    }
}

/// Strip every trailing repetition of `p` (`str::trim_end_matches` with a string pattern).
pub open spec fn strip_all_suffix(s: Seq<char>, p: Seq<char>) -> Seq<char>
    decreases s.len(),
{
    if p.len() > 0 && is_suffix(p, s) {
        strip_all_suffix(s.take(s.len() - p.len()), p)
    } else {
        s
    }
}

pub open spec fn is_sep(c: char) -> bool {
    c == '/' || c == ':'
}

/// The non-empty pieces of `s` between `/` and `:` separators, in order.
pub open spec fn segments(s: Seq<char>) -> Seq<Seq<char>>
    decreases s.len(),
{
    if s.len() == 0 {
        seq![]
    } else {
        let w = segments(s.drop_last());
        let c = s.last();
        if is_sep(c) {
            w
        } else if s.len() >= 2 && !is_sep(s[s.len() - 2]) {
            w.update(w.len() - 1, w.last().push(c))
        } else {
            w.push(seq![c])
        }
    }
}

/// The label of a hub clone: `owner/repo` from its origin URL (the last two path segments,
/// after trimming and dropping `.git`); without such a URL, the directory name marked
/// `(local …)` with the first eight characters of the root SHA.
pub open spec fn hub_label_spec(url: Option<Seq<char>>, name: Option<Seq<char>>, root: Option<Seq<char>>) -> Seq<char> {
    let segs = match url {
        Some(u) => segments(strip_all_suffix(crate::text::trim(u), ".git"@)),
        None => seq![],
    };
    if url is Some && segs.len() >= 2 {
        segs[segs.len() - 2] + "/"@ + segs[segs.len() - 1]
    } else {
        let anchor = match root {
            Some(r) => " "@ + r.take(if r.len() < 8 { r.len() as int } else { 8 }),
            None => Seq::<char>::empty(),
        };
        (match name {
            Some(n) => n,
            None => "hub"@,
        }) + " (local"@ + anchor + ")"@
    }
}

fn strip_git(s: &[char]) -> (r: Vec<char>)
    ensures
        r@ == strip_all_suffix(s@, ".git"@),
{
    let g = chars_of(".git");
    proof {
        reveal_strlit(".git");
    }
    let mut cur = slice(s, 0, s.len());
    assert(s@.subrange(0, s@.len() as int) =~= s@);
    while ends_with(cur.as_slice(), g.as_slice())
        invariant
            g@ == ".git"@,
            g@.len() == 4,
            strip_all_suffix(cur@, ".git"@) == strip_all_suffix(s@, ".git"@),
        decreases cur@.len(),
    {
        let n = cur.len();
        cur = slice(cur.as_slice(), 0, n - 4);
    }
    cur
}

proof fn lemma_segments_nonempty(s: Seq<char>)
    requires
        s.len() > 0,
        !is_sep(s.last()),
    ensures
        segments(s).len() > 0,
    decreases s.len(),
{
    if s.len() >= 2 && !is_sep(s[s.len() - 2]) {
        assert(s.drop_last().last() == s[s.len() - 2]);
        lemma_segments_nonempty(s.drop_last());
    }
}

fn split_segments(s: &[char]) -> (ws: Vec<Vec<char>>)
    ensures
        vv(ws@) == segments(s@),
{
    let mut ws: Vec<Vec<char>> = Vec::new();
    let mut i: usize = 0;
    while i < s.len()
        invariant
            0 <= i <= s@.len(),
            vv(ws@) == segments(s@.take(i as int)),
        decreases s@.len() - i,
    {
        let c = s[i];
        let ghost t = s@.take(i + 1);
        assert(t.drop_last() =~= s@.take(i as int));
        assert(t.last() == c);
        if c == '/' || c == ':' {
        } else if i > 0 && s[i - 1] != '/' && s[i - 1] != ':' {
            assert(t[t.len() - 2] == s@[i - 1]);
            assert(s@.take(i as int).last() == s@[i - 1]);
            proof {
                lemma_segments_nonempty(s@.take(i as int));
            }
            let k = ws.len() - 1;
            let mut last = slice(ws[k].as_slice(), 0, ws[k].len());
            assert(ws@[k as int]@.subrange(0, ws@[k as int]@.len() as int) =~= ws@[k as int]@);
            last.push(c);
            ws.set(k, last);
        } else {
            let mut one: Vec<char> = Vec::new();
            one.push(c);
            ws.push(one);
        }
        assert(vv(ws@) =~= segments(t));
        i += 1;
    }
    assert(s@.take(s@.len() as int) =~= s@);
    ws
}

/// The label of a hub clone, from its origin URL (none for a purely local hub), the clone
/// directory's name and the hub's root SHA (each none when unknown). A root SHA is hex, so
/// ASCII.
pub fn hub_label(url: &Option<String>, name: &Option<String>, root: &Option<String>) -> (label: String)
    requires
        root matches Some(r) ==> forall|i: int| 0 <= i < r@.len() ==> (r@[i] as u32) < 128,
    ensures
        label@ == hub_label_spec(opt_str(*url), opt_str(*name), opt_str(*root)),
{
    if let Some(u) = url {
        let t = crate::text::trimmed(chars_of(u.as_str()).as_slice());
        let stripped = strip_git(t.as_slice());
        let segs = split_segments(stripped.as_slice());
        if segs.len() >= 2 {
            let n = segs.len();
            let mut out: Vec<char> = Vec::new();
            push_all(&mut out, segs[n - 2].as_slice());
            out.push('/');
            push_all(&mut out, segs[n - 1].as_slice());
            assert(vv(segs@)[n - 2] == segs@[n - 2]@);
            assert(vv(segs@)[n - 1] == segs@[n - 1]@);
            proof {
                reveal_strlit("/");
            }
            assert(out@ =~= segs@[n - 2]@ + "/"@ + segs@[n - 1]@);
            return string_of(out.as_slice());
        }
    }
    let mut out = String::new();
    match name {
        Some(n) => out.append(n.as_str()),
        None => out.append("hub"),
    }
    out.append(" (local");
    if let Some(r) = root {
        let rc = chars_of(r.as_str());
        let k = if rc.len() < 8 { rc.len() } else { 8 };
        let head = slice(rc.as_slice(), 0, k);
        out.append(" ");
        let hs = string_of(head.as_slice());
        out.append(hs.as_str());
    }
    out.append(")");
    out
}

// ---------------------------------------------------------------- followed hub directories

/// Walking the (pruned) memberships in order: the directories seen, the hub keys seen, and
/// the directories listed. A directory is listed once, only if it is a hub (`is_hub`), and
/// only for the first clone of its hub — the key is the hub's root SHA (`roots`), or the
/// directory itself when the SHA is unknown.
pub open spec fn hub_walk(ms: Seq<Membership>, is_hub: Seq<bool>, roots: Seq<Option<String>>, n: nat) -> (Set<Seq<char>>, Set<Seq<char>>, Seq<Seq<char>>)
    decreases n,
{
    if n == 0 {
        (Set::empty(), Set::empty(), Seq::empty())
    } else {
        let (sd, sk, out) = hub_walk(ms, is_hub, roots, (n - 1) as nat);
        let d = ms[n - 1].dir@;
        if sd.contains(d) {
            (sd, sk, out)
        } else if !is_hub[n - 1] {
            (sd.insert(d), sk, out)
        } else {
            let key = match roots[n - 1] {
                Some(r) => r@,
                None => d,
            };
            if sk.contains(key) {
                (sd.insert(d), sk, out)
            } else {
                (sd.insert(d), sk.insert(key), out.push(d))
            }
        }
    }
}

fn vec_has(v: &Vec<String>, s: &String) -> (b: bool)
    ensures
        b == strs(v@).to_set().contains(s@),
{
    let mut i: usize = 0;
    while i < v.len()
        invariant
            0 <= i <= v@.len(),
            forall|k: int| 0 <= k < i ==> v@[k]@ != s@,
        decreases v@.len() - i,
    {
        if v[i] == *s {
            assert(strs(v@)[i as int] == s@);
            return true;
        }
        i += 1;
    }
    assert(!strs(v@).to_set().contains(s@)) by {
        if strs(v@).contains(s@) {
            let k = choose|k: int| 0 <= k < strs(v@).len() && strs(v@)[k] == s@;
            assert(v@[k]@ == s@);
        }
    }
    false
}

proof fn lemma_push_to_set(v: Seq<Seq<char>>, x: Seq<char>)
    ensures
        v.push(x).to_set() == v.to_set().insert(x),
{
    assert(v.push(x).to_set() =~= v.to_set().insert(x)) by {
        assert forall|y: Seq<char>| v.push(x).to_set().contains(y) implies v.to_set().insert(x).contains(y) by {
            let k = choose|k: int| 0 <= k < v.push(x).len() && v.push(x)[k] == y;
            if k < v.len() {
                assert(v[k] == y);
            }
        }
        assert forall|y: Seq<char>| v.to_set().insert(x).contains(y) implies v.push(x).to_set().contains(y) by {
            if y == x {
                assert(v.push(x)[v.len() as int] == y);
            } else {
                let k = choose|k: int| 0 <= k < v.len() && v[k] == y;
                assert(v.push(x)[k] == y);
            }
        }
    }
}

/// The distinct hub directories this agent follows, one per hub, in first-seen order.
/// `is_hub[i]` says whether membership `i`'s directory is a confer hub; `roots[i]` is its root
/// SHA when known.
pub fn hub_dirs(hubs: &Vec<Membership>, is_hub: &Vec<bool>, roots: &Vec<Option<String>>) -> (out: Vec<String>)
    requires
        is_hub@.len() == hubs@.len(),
        roots@.len() == hubs@.len(),
    ensures
        strs(out@) == hub_walk(hubs@, is_hub@, roots@, hubs@.len()).2,
{
    let mut seen_dir: Vec<String> = Vec::new();
    let mut seen_hub: Vec<String> = Vec::new();
    let mut out: Vec<String> = Vec::new();
    let mut i: usize = 0;
    while i < hubs.len()
        invariant
            0 <= i <= hubs@.len(),
            is_hub@.len() == hubs@.len(),
            roots@.len() == hubs@.len(),
            strs(seen_dir@).to_set() == hub_walk(hubs@, is_hub@, roots@, i as nat).0,
            strs(seen_hub@).to_set() == hub_walk(hubs@, is_hub@, roots@, i as nat).1,
            strs(out@) == hub_walk(hubs@, is_hub@, roots@, i as nat).2,
        decreases hubs@.len() - i,
    {
        let dir = hubs[i].dir.clone();
        let ghost sd0 = strs(seen_dir@);
        let ghost sk0 = strs(seen_hub@);
        let ghost out0 = strs(out@);
        if !vec_has(&seen_dir, &dir) {
            seen_dir.push(dir.clone());
            proof {
                assert(strs(seen_dir@) =~= sd0.push(dir@));
                lemma_push_to_set(sd0, dir@);
            }
            if is_hub[i] {
                let key = match &roots[i] {
                    Some(r) => r.clone(),
                    None => dir.clone(),
                };
                if !vec_has(&seen_hub, &key) {
                    seen_hub.push(key);
                    out.push(dir);
                    proof {
                        assert(strs(seen_hub@) =~= sk0.push(key@));
                        lemma_push_to_set(sk0, key@);
                        assert(strs(out@) =~= out0.push(hubs@[i as int].dir@));
                    }
                }
            }
        }
        i += 1;
    }
    out
}

proof fn lemma_hub_walk(ms: Seq<Membership>, is_hub: Seq<bool>, roots: Seq<Option<String>>, n: nat)
    requires
        n <= ms.len(),
        n <= is_hub.len(),
        n <= roots.len(),
    ensures
        ({
            let (sd, sk, out) = hub_walk(ms, is_hub, roots, n);
            &&& forall|a: int, b: int| 0 <= a < b < out.len() ==> out[a] != out[b]
            &&& forall|a: int| 0 <= a < out.len() ==> sd.contains(#[trigger] out[a])
            &&& forall|a: int| 0 <= a < out.len() ==> exists|i: int|
                0 <= i < n && is_hub[i] && #[trigger] out[a] == ms[i].dir@
        }),
    decreases n,
{
    if n > 0 {
        lemma_hub_walk(ms, is_hub, roots, (n - 1) as nat);
        let (sd, sk, out) = hub_walk(ms, is_hub, roots, (n - 1) as nat);
        let (sd2, sk2, out2) = hub_walk(ms, is_hub, roots, n);
        let d = ms[n - 1].dir@;
        if !sd.contains(d) && is_hub[n - 1] && out2.len() > out.len() {
            assert(out2 == out.push(d));
            assert forall|a: int| 0 <= a < out2.len() implies exists|i: int|
                0 <= i < n && is_hub[i] && #[trigger] out2[a] == ms[i].dir@ by {
                if a < out.len() {
                    let i = choose|i: int| 0 <= i < n - 1 && is_hub[i] && out[a] == ms[i].dir@;
                    assert(out2[a] == ms[i].dir@);
                } else {
                    assert(out2[a] == ms[n - 1].dir@);
                }
            }
            assert forall|a: int, b: int| 0 <= a < b < out2.len() implies out2[a] != out2[b] by {
                if b == out.len() {
                    assert(sd.contains(out[a]));
                }
            }
        }
    }
}

/// The followed hub directories are distinct hubs: no directory is listed twice, and only
/// directories that are hubs are listed.
pub proof fn hub_dirs_are_distinct_hubs(ms: Seq<Membership>, is_hub: Seq<bool>, roots: Seq<Option<String>>)
    requires
        is_hub.len() == ms.len(),
        roots.len() == ms.len(),
    ensures
        ({
            let out = hub_walk(ms, is_hub, roots, ms.len()).2;
            &&& forall|a: int, b: int| 0 <= a < b < out.len() ==> out[a] != out[b]
            &&& forall|a: int| 0 <= a < out.len() ==> exists|i: int|
                0 <= i < ms.len() && is_hub[i] && #[trigger] out[a] == ms[i].dir@
        }),
{
    lemma_hub_walk(ms, is_hub, roots, ms.len());
}

// ---------------------------------------------------------------- appearances

/// An appearance of a key: (public key, (hub label, role id)).
pub type Sighting = (Seq<char>, (Seq<char>, Seq<char>));

/// A hub's role cards as `(role id, published public key)`.
pub open spec fn role_sightings(label: Seq<char>, roles: Seq<(String, Option<String>)>, n: nat) -> Seq<Sighting>
    decreases n,
{
    if n == 0 {
        Seq::empty()
    } else {
        let r = role_sightings(label, roles, (n - 1) as nat);
        match roles[n - 1].1 {
            Some(pk) => r.push((pk@, (label, roles[n - 1].0@))),
            None => r,
        }
    }
}

/// Every published key across the hubs, in hub order and then roster order.
pub open spec fn sightings(hubs: Seq<(String, Vec<(String, Option<String>)>)>, n: nat) -> Seq<Sighting>
    decreases n,
{
    if n == 0 {
        Seq::empty()
    } else {
        sightings(hubs, (n - 1) as nat) + role_sightings(hubs[n - 1].0@, hubs[n - 1].1@, hubs[n - 1].1@.len())
    }
}

/// The distinct elements of `s`, in first-seen order.
pub open spec fn dedup<A>(s: Seq<A>) -> Seq<A>
    decreases s.len(),
{
    if s.len() == 0 {
        s
    } else {
        let d = dedup(s.drop_last());
        if d.contains(s.last()) {
            d
        } else {
            d.push(s.last())
        }
    }
}

pub open spec fn key_seq(f: Seq<Sighting>) -> Seq<Seq<char>>
    decreases f.len(),
{
    if f.len() == 0 {
        Seq::empty()
    } else {
        key_seq(f.drop_last()).push(f.last().0)
    }
}

/// Where key `k` was seen, in order.
pub open spec fn places_of(f: Seq<Sighting>, k: Seq<char>) -> Seq<(Seq<char>, Seq<char>)>
    decreases f.len(),
{
    if f.len() == 0 {
        Seq::empty()
    } else {
        let r = places_of(f.drop_last(), k);
        if f.last().0 == k {
            r.push(f.last().1)
        } else {
            r
        }
    }
}

pub open spec fn index_keys(idx: Seq<(String, Vec<(String, String)>)>) -> Seq<Seq<char>> {
    idx.map_values(|e: (String, Vec<(String, String)>)| e.0@)
}

pub open spec fn places_view(v: Seq<(String, String)>) -> Seq<(Seq<char>, Seq<char>)> {
    v.map_values(|p: (String, String)| (p.0@, p.1@))
}

/// The index of `f`: each distinct key once, in first-seen order, with its distinct places.
pub open spec fn is_index_of(idx: Seq<(String, Vec<(String, String)>)>, f: Seq<Sighting>) -> bool {
    &&& index_keys(idx) == dedup(key_seq(f))
    &&& forall|j: int| 0 <= j < idx.len() ==> places_view((#[trigger] idx[j]).1@) == dedup(places_of(f, idx[j].0@))
}

proof fn lemma_dedup_contains<A>(s: Seq<A>, x: A)
    ensures
        dedup(s).contains(x) == s.contains(x),
    decreases s.len(),
{
    if s.len() > 0 {
        lemma_dedup_contains(s.drop_last(), x);
        let d = dedup(s.drop_last());
        if s.drop_last().contains(x) {
            let k = choose|k: int| 0 <= k < s.drop_last().len() && s.drop_last()[k] == x;
            assert(s[k] == x);
        }
        if s.contains(x) && !s.drop_last().contains(x) {
            let k = choose|k: int| 0 <= k < s.len() && s[k] == x;
            if k < s.len() - 1 {
                assert(s.drop_last()[k] == x);
            }
            assert(x == s.last());
            if !d.contains(s.last()) {
                assert(d.push(s.last())[d.len() as int] == x);
            }
        }
        if dedup(s).contains(x) && !d.contains(x) {
            assert(x == s.last());
            assert(s[s.len() - 1] == x);
        }
        if d.contains(x) && !d.contains(s.last()) {
            let k = choose|k: int| 0 <= k < d.len() && d[k] == x;
            assert(d.push(s.last())[k] == x);
        }
    }
}

proof fn lemma_dedup_distinct<A>(s: Seq<A>)
    ensures
        forall|a: int, b: int| 0 <= a < b < dedup(s).len() ==> dedup(s)[a] != dedup(s)[b],
    decreases s.len(),
{
    if s.len() > 0 {
        lemma_dedup_distinct(s.drop_last());
        let d = dedup(s.drop_last());
        if !d.contains(s.last()) {
            assert forall|a: int, b: int| 0 <= a < b < dedup(s).len() implies dedup(s)[a] != dedup(s)[b] by {
                if b == d.len() {
                    assert(dedup(s)[a] == d[a]);
                }
            }
        }
    }
}

proof fn lemma_places_absent(f: Seq<Sighting>, k: Seq<char>)
    requires
        !key_seq(f).contains(k),
    ensures
        places_of(f, k) == Seq::<(Seq<char>, Seq<char>)>::empty(),
    decreases f.len(),
{
    if f.len() > 0 {
        assert(key_seq(f) == key_seq(f.drop_last()).push(f.last().0));
        assert(key_seq(f)[key_seq(f).len() - 1] == f.last().0);
        assert(!key_seq(f.drop_last()).contains(k)) by {
            if key_seq(f.drop_last()).contains(k) {
                let j = choose|j: int| 0 <= j < key_seq(f.drop_last()).len() && key_seq(f.drop_last())[j] == k;
                assert(key_seq(f)[j] == k);
            }
        }
        lemma_places_absent(f.drop_last(), k);
    }
}

proof fn lemma_dedup_step<A>(s: Seq<A>, x: A)
    ensures
        dedup(s.push(x)) == if dedup(s).contains(x) {
            dedup(s)
        } else {
            dedup(s).push(x)
        },
{
    assert(s.push(x).drop_last() =~= s);
}

proof fn lemma_sighting_step(pre: Seq<Sighting>, e: Sighting, k: Seq<char>)
    ensures
        key_seq(pre.push(e)) == key_seq(pre).push(e.0),
        places_of(pre.push(e), k) == if e.0 == k {
            places_of(pre, k).push(e.1)
        } else {
            places_of(pre, k)
        },
{
    assert(pre.push(e).drop_last() =~= pre);
}

fn copy_places(v: &Vec<(String, String)>) -> (r: Vec<(String, String)>)
    ensures
        places_view(r@) == places_view(v@),
{
    let mut r: Vec<(String, String)> = Vec::new();
    let mut i: usize = 0;
    while i < v.len()
        invariant
            0 <= i <= v@.len(),
            places_view(r@) == places_view(v@).take(i as int),
            r@.len() == i,
        decreases v@.len() - i,
    {
        let a = v[i].0.clone();
        let b = v[i].1.clone();
        let ghost before = r@;
        r.push((a, b));
        assert(r@ == before.push((a, b)));
        assert(a@ == v@[i as int].0@);
        assert(places_view(v@)[i as int] == (a@, b@));
        assert(places_view(r@)[i as int] == (a@, b@));
        assert(places_view(r@) =~= places_view(v@).take(i + 1));
        i += 1;
    }
    assert(places_view(v@).take(v@.len() as int) =~= places_view(v@));
    r
}

fn has_place(v: &Vec<(String, String)>, p: &(String, String)) -> (b: bool)
    ensures
        b == places_view(v@).contains((p.0@, p.1@)),
{
    let mut i: usize = 0;
    while i < v.len()
        invariant
            0 <= i <= v@.len(),
            forall|k: int| 0 <= k < i ==> places_view(v@)[k] != (p.0@, p.1@),
        decreases v@.len() - i,
    {
        if v[i].0 == p.0 && v[i].1 == p.1 {
            assert(places_view(v@)[i as int] == (p.0@, p.1@));
            return true;
        }
        i += 1;
    }
    false
}

/// Flatten the hubs' role cards into the published keys' sightings.
fn collect_sightings(hubs: &Vec<(String, Vec<(String, Option<String>)>)>) -> (f: Vec<(String, (String, String))>)
    ensures
        f@.map_values(|e: (String, (String, String))| (e.0@, (e.1.0@, e.1.1@))) == sightings(hubs@, hubs@.len()),
{
    let mut f: Vec<(String, (String, String))> = Vec::new();
    let mut h: usize = 0;
    while h < hubs.len()
        invariant
            0 <= h <= hubs@.len(),
            f@.map_values(|e: (String, (String, String))| (e.0@, (e.1.0@, e.1.1@))) == sightings(hubs@, h as nat),
        decreases hubs@.len() - h,
    {
        let label = &hubs[h].0;
        let roles = &hubs[h].1;
        let ghost base = sightings(hubs@, h as nat);
        let mut r: usize = 0;
        while r < roles.len()
            invariant
                0 <= r <= roles@.len(),
                h < hubs@.len(),
                *label == hubs@[h as int].0,
                *roles == hubs@[h as int].1,
                base == sightings(hubs@, h as nat),
                f@.map_values(|e: (String, (String, String))| (e.0@, (e.1.0@, e.1.1@))) == base + role_sightings(label@, roles@, r as nat),
            decreases roles@.len() - r,
        {
            let ghost before = f@;
            match &roles[r].1 {
                Some(pk) => {
                    f.push((pk.clone(), (label.clone(), roles[r].0.clone())));
                    assert(f@.map_values(|e: (String, (String, String))| (e.0@, (e.1.0@, e.1.1@))) =~= before.map_values(
                        |e: (String, (String, String))| (e.0@, (e.1.0@, e.1.1@)),
                    ).push((pk@, (label@, roles@[r as int].0@))));
                },
                None => {},
            }
            r += 1;
        }
        h += 1;
    }
    f
}

/// Where each published signing key appears across the other hubs this agent belongs to.
/// `hubs` holds, for each such hub (the current one already left out), its label and its
/// roster as `(role id, published public key)`. The result lists each key once, in first-seen
/// order, with its distinct `(hub label, role id)` places in first-seen order.
pub fn appearances(hubs: &Vec<(String, Vec<(String, Option<String>)>)>) -> (idx: Vec<(String, Vec<(String, String)>)>)
    ensures
        is_index_of(idx@, sightings(hubs@, hubs@.len())),
{
    let f = collect_sightings(hubs);
    let ghost fv = f@.map_values(|e: (String, (String, String))| (e.0@, (e.1.0@, e.1.1@)));
    let mut idx: Vec<(String, Vec<(String, String)>)> = Vec::new();
    let mut i: usize = 0;
    assert(index_keys(idx@) =~= dedup(key_seq(fv.take(0))));
    while i < f.len()
        invariant
            0 <= i <= f@.len(),
            fv == f@.map_values(|e: (String, (String, String))| (e.0@, (e.1.0@, e.1.1@))),
            is_index_of(idx@, fv.take(i as int)),
        decreases f@.len() - i,
    {
        let ghost pre = fv.take(i as int);
        let ghost e = fv[i as int];
        let ghost cur = fv.take(i + 1);
        assert(cur =~= pre.push(e));
        let pk = &f[i].0;
        let place = (f[i].1.0.clone(), f[i].1.1.clone());
        assert(e == (pk@, (place.0@, place.1@)));
        let mut j: usize = 0;
        while j < idx.len() && idx[j].0 != *pk
            invariant
                0 <= j <= idx@.len(),
                forall|k: int| 0 <= k < j ==> index_keys(idx@)[k] != pk@,
            decreases idx@.len() - j,
        {
            assert(index_keys(idx@)[j as int] == idx@[j as int].0@);
            j += 1;
        }
        let ghost old_idx = idx@;
        proof {
            lemma_sighting_step(pre, e, pk@);
            lemma_dedup_step(key_seq(pre), pk@);
            lemma_dedup_distinct(key_seq(pre));
        }
        if j < idx.len() {
            assert(index_keys(idx@)[j as int] == pk@);
            assert(dedup(key_seq(pre)).contains(pk@));
            let mut list = copy_places(&idx[j].1);
            let ghost old_list = places_view(list@);
            assert(old_list == dedup(places_of(pre, pk@)));
            if !has_place(&list, &place) {
                list.push(place);
                assert(places_view(list@) =~= old_list.push((place.0@, place.1@)));
            }
            proof {
                lemma_dedup_step(places_of(pre, pk@), (place.0@, place.1@));
            }
            let key = idx[j].0.clone();
            idx.set(j, (key, list));
            assert(index_keys(idx@) =~= index_keys(old_idx));
            assert forall|m: int| 0 <= m < idx@.len() implies places_view((#[trigger] idx@[m]).1@) == dedup(
                places_of(cur, idx@[m].0@),
            ) by {
                if m != j {
                    assert(idx@[m] == old_idx[m]);
                    assert(index_keys(old_idx)[m] == old_idx[m].0@);
                    assert(index_keys(old_idx)[m] != index_keys(old_idx)[j as int]);
                    lemma_sighting_step(pre, e, idx@[m].0@);
                }
            }
        } else {
            let mut list: Vec<(String, String)> = Vec::new();
            list.push(place);
            idx.push((pk.clone(), list));
            proof {
                assert(!index_keys(old_idx).contains(pk@)) by {
                    if index_keys(old_idx).contains(pk@) {
                        let k = choose|k: int| 0 <= k < index_keys(old_idx).len() && index_keys(old_idx)[k] == pk@;
                    }
                }
                lemma_dedup_contains(key_seq(pre), pk@);
                lemma_places_absent(pre, pk@);
                lemma_dedup_step(Seq::<(Seq<char>, Seq<char>)>::empty(), (place.0@, place.1@));
                assert(index_keys(idx@) =~= index_keys(old_idx).push(pk@));
                assert forall|m: int| 0 <= m < idx@.len() implies places_view((#[trigger] idx@[m]).1@) == dedup(
                    places_of(cur, idx@[m].0@),
                ) by {
                    if m == old_idx.len() {
                        assert(places_view(idx@[m].1@) =~= seq![(place.0@, place.1@)]);
                        assert(Seq::<(Seq<char>, Seq<char>)>::empty().push((place.0@, place.1@)) =~= seq![(place.0@, place.1@)]);
                    } else {
                        assert(idx@[m] == old_idx[m]);
                        assert(index_keys(old_idx)[m] == old_idx[m].0@);
                        lemma_sighting_step(pre, e, idx@[m].0@);
                    }
                }
            }
        }
        i += 1;
    }
    assert(fv.take(f@.len() as int) =~= fv);
    idx
}

/// Every key is indexed once and no place is listed twice for a key.
pub proof fn appearances_are_deduplicated(idx: Seq<(String, Vec<(String, String)>)>, f: Seq<Sighting>)
    requires
        is_index_of(idx, f),
    ensures
        forall|a: int, b: int| 0 <= a < b < idx.len() ==> idx[a].0@ != idx[b].0@,
        forall|j: int, a: int, b: int|
            #![trigger places_view(idx[j].1@)[a], places_view(idx[j].1@)[b]]
            0 <= j < idx.len() && 0 <= a < b < idx[j].1@.len() ==> places_view(idx[j].1@)[a] != places_view(idx[j].1@)[b],
        forall|k: Seq<char>| key_seq(f).contains(k) <==> index_keys(idx).contains(k),
{
    lemma_dedup_distinct(key_seq(f));
    assert forall|a: int, b: int| 0 <= a < b < idx.len() implies idx[a].0@ != idx[b].0@ by {
        assert(index_keys(idx)[a] == idx[a].0@);
        assert(index_keys(idx)[b] == idx[b].0@);
    }
    assert forall|j: int, a: int, b: int|
        #![trigger places_view(idx[j].1@)[a], places_view(idx[j].1@)[b]]
        0 <= j < idx.len() && 0 <= a < b < idx[j].1@.len() implies places_view(idx[j].1@)[a] != places_view(idx[j].1@)[b] by {
        lemma_dedup_distinct(places_of(f, idx[j].0@));
    }
    assert forall|k: Seq<char>| key_seq(f).contains(k) <==> index_keys(idx).contains(k) by {
        lemma_dedup_contains(key_seq(f), k);
    }
}


// ---------------------------------------------------------------- fingerprints

/// The stand-in fingerprint when `ssh-keygen` cannot give one: `key:…` and the last eight
/// characters of the key material (the second word), or of the whole text without one.
pub open spec fn fallback_fingerprint_spec(pubkey: Seq<char>) -> Seq<char> {
    let w = ws_tokens(pubkey);
    let body = if w.len() >= 2 { w[1] } else { pubkey };
    let n = if body.len() < 8 { 0int } else { body.len() - 8 };
    "key:…"@ + body.subrange(n, body.len() as int)
}

pub fn fallback_fingerprint(pubkey: &str) -> (r: String)
    ensures
        r@ == fallback_fingerprint_spec(pubkey@),
{
    let c = chars_of(pubkey);
    let w = split_ws(c.as_slice());
    let body: Vec<char> = if w.len() >= 2 {
        assert(vv(w@)[1] == w@[1]@);
        slice(w[1].as_slice(), 0, w[1].len())
    } else {
        c
    };
    assert(body@.subrange(0, body@.len() as int) =~= body@);
    let n = body.len();
    let from = if n < 8 { 0 } else { n - 8 };
    let tail = slice(body.as_slice(), from, n);
    let mut r = "key:…".to_owned();
    r.append(string_of(tail.as_slice()).as_str());
    r
}


/// The first word of `ssh-keygen -lf`'s output that starts with `SHA256:`.
pub open spec fn sha256_word(out: Seq<char>) -> Option<Seq<char>> {
    let w = ws_tokens(out);
    if exists|i: int| 0 <= i < w.len() && crate::text::is_prefix("SHA256:"@, #[trigger] w[i]) {
        Some(w[choose|i: int| 0 <= i < w.len() && crate::text::is_prefix("SHA256:"@, #[trigger] w[i])
            && forall|j: int| 0 <= j < i ==> !crate::text::is_prefix("SHA256:"@, #[trigger] w[j])])
    } else {
        None
    }
}

/// A public key's fingerprint: the `SHA256:` word of `ssh-keygen -lf` (its output `keygen`,
/// when it ran and succeeded), else the stand-in.
pub open spec fn fingerprint_spec(pubkey: Seq<char>, keygen: Option<Seq<char>>) -> Seq<char> {
    match keygen {
        Some(out) => match sha256_word(out) {
            Some(fp) => fp,
            None => fallback_fingerprint_spec(pubkey),
        },
        None => fallback_fingerprint_spec(pubkey),
    }
}

pub fn fingerprint(pubkey: &str, keygen: &Option<String>) -> (r: String)
    ensures
        r@ == fingerprint_spec(pubkey@, opt_str(*keygen)),
{
    match keygen {
        Some(out) => {
            let w = split_ws(chars_of(out.as_str()).as_slice());
            let ghost wv = vv(w@);
            let p = chars_of("SHA256:");
            let mut i: usize = 0;
            while i < w.len()
                invariant
                    0 <= i <= w@.len(),
                    wv == vv(w@),
                    wv == ws_tokens(out@),
                    opt_str(*keygen) == Some(out@),
                    p@ == "SHA256:"@,
                    forall|j: int| 0 <= j < i ==> !crate::text::is_prefix("SHA256:"@, #[trigger] wv[j]),
                decreases w@.len() - i,
            {
                assert(wv[i as int] == w@[i as int]@);
                if crate::text::starts_with(w[i].as_slice(), p.as_slice()) {
                    proof {
                        assert(crate::text::is_prefix("SHA256:"@, wv[i as int]));
                        let k = choose|k: int| 0 <= k < wv.len() && crate::text::is_prefix("SHA256:"@, #[trigger] wv[k])
                            && forall|j: int| 0 <= j < k ==> !crate::text::is_prefix("SHA256:"@, #[trigger] wv[j]);
                        if k < i {
                        } else if k > i {
                            assert(!crate::text::is_prefix("SHA256:"@, wv[i as int]));
                        }
                    }
                    return string_of(w[i].as_slice());
                }
                i += 1;
            }
            fallback_fingerprint(pubkey)
        },
        None => fallback_fingerprint(pubkey),
    }
}

} // verus!
