//! Arming a watcher: which clone to arm when the current directory is not one, and whether an
//! existing watcher may be replaced.
use vstd::prelude::*;
use crate::text::opt_str;
use crate::autoheal::{Target, ownership_spec};
use crate::text::{chars_of, less, lex_lt, lemma_lex_lt_total, lemma_lex_lt_transitive};

verus! {

/// How the watcher currently holding a `(hub, role)` lock looks.
#[derive(Clone, Copy, PartialEq, Eq, Structural, Debug)]
pub enum WatchState {
    Healthy,
    NotWatching,
    Stale,
    Outdated,
    OtherHost,
}

/// `arm` replaces the current watcher unless it is healthy and this session can neither confirm
/// it owns it nor was told `--force`.
pub fn may_replace(state: WatchState, session_confirmed: bool, force: bool) -> (b: bool)
    ensures
        b == (force || session_confirmed || state != WatchState::Healthy),
{
    force || session_confirmed || !matches!(state, WatchState::Healthy)
}

/// The clone `arm` falls back to: none owned, exactly one, or several (listed, sorted by hub
/// then role) that the caller must choose between.
pub enum ArmPick {
    Nothing,
    One(String),
    Several(Vec<(String, String)>),
}

pub open spec fn pair_view(p: (String, String)) -> (Seq<char>, Seq<char>) {
    (p.0@, p.1@)
}

pub open spec fn pairs_view(v: Seq<(String, String)>) -> Seq<(Seq<char>, Seq<char>)> {
    v.map_values(|p: (String, String)| pair_view(p))
}

/// Order by hub, then by role.
pub open spec fn pair_lt(a: (Seq<char>, Seq<char>), b: (Seq<char>, Seq<char>)) -> bool {
    lex_lt(a.0, b.0) || (a.0 == b.0 && lex_lt(a.1, b.1))
}

pub open spec fn strictly_sorted(v: Seq<(Seq<char>, Seq<char>)>) -> bool {
    forall|a: int, b: int| 0 <= a < b < v.len() ==> pair_lt(#[trigger] v[a], #[trigger] v[b])
}

/// A target `arm` may fall back to: owned by this session, and for `role` when one is named.
pub open spec fn armable(t: crate::autoheal::TargetView, me_session: Option<Seq<char>>, role: Option<Seq<char>>) -> bool {
    &&& ownership_spec(t, me_session, role) is Some
    &&& (role is None || t.role == role->0)
}

/// The `(hub, role)` pairs of the armable targets among the first `n`.
pub open spec fn armable_pairs(ts: Seq<Target>, me_session: Option<Seq<char>>, role: Option<Seq<char>>, n: int) -> Set<(Seq<char>, Seq<char>)> {
    Set::new(
        |p: (Seq<char>, Seq<char>)|
            exists|i: int|
                0 <= i < n && armable((#[trigger] ts[i])@, me_session, role) && p == (ts[i].hub@, ts[i].role@),
    )
}

/// What `resolve_clone` answers for the sorted, de-duplicated candidate pairs `v`.
pub open spec fn pick_of(v: Seq<(Seq<char>, Seq<char>)>, r: ArmPick) -> bool {
    match r {
        ArmPick::Nothing => v.len() == 0,
        ArmPick::One(h) => v.len() == 1 && h@ == v[0].0,
        ArmPick::Several(list) => v.len() >= 2 && pairs_view(list@) == v,
    }
}

fn pair_before(a: &(String, String), b: &(String, String)) -> (r: bool)
    ensures
        r == pair_lt(pair_view(*a), pair_view(*b)),
{
    let ah = chars_of(a.0.as_str());
    let bh = chars_of(b.0.as_str());
    if less(ah.as_slice(), bh.as_slice()) {
        return true;
    }
    if a.0 != b.0 {
        return false;
    }
    let ar = chars_of(a.1.as_str());
    let br = chars_of(b.1.as_str());
    less(ar.as_slice(), br.as_slice())
}

proof fn lemma_pair_lt_total(a: (Seq<char>, Seq<char>), b: (Seq<char>, Seq<char>))
    ensures
        a == b || pair_lt(a, b) || pair_lt(b, a),
{
    lemma_lex_lt_total(a.0, b.0);
    lemma_lex_lt_total(a.1, b.1);
}

proof fn lemma_pair_lt_transitive(a: (Seq<char>, Seq<char>), b: (Seq<char>, Seq<char>), c: (Seq<char>, Seq<char>))
    ensures
        pair_lt(a, b) && pair_lt(b, c) ==> pair_lt(a, c),
{
    lemma_lex_lt_transitive(a.0, b.0, c.0);
    lemma_lex_lt_transitive(a.1, b.1, c.1);
}
/// Insert `p` into the strictly sorted `out`, unless it is already there.
fn insert_pair(out: &mut Vec<(String, String)>, p: (String, String))
    requires
        strictly_sorted(pairs_view(old(out)@)),
    ensures
        strictly_sorted(pairs_view(final(out)@)),
        pairs_view(final(out)@).to_set() == pairs_view(old(out)@).to_set().insert(pair_view(p)),
{
    let ghost pv = pair_view(p);
    let mut i: usize = 0;
    while i < out.len() && pair_before(&out[i], &p)
        invariant
            0 <= i <= out@.len(),
            pv == pair_view(p),
            forall|a: int| 0 <= a < i ==> pair_lt(#[trigger] pairs_view(out@)[a], pv),
        decreases out@.len() - i,
    {
        assert(pairs_view(out@)[i as int] == pair_view(out@[i as int]));
        i += 1;
    }
    let ghost ov = pairs_view(out@);
    if i < out.len() && out[i].0 == p.0 && out[i].1 == p.1 {
        assert(ov[i as int] == pv);
        assert(ov.to_set().insert(pv) =~= ov.to_set());
        return;
    }
    proof {
        if i < ov.len() {
            lemma_pair_lt_total(ov[i as int], pv);
        }
    }
    out.insert(i, p);
    let ghost nv = pairs_view(out@);
    assert(nv =~= ov.insert(i as int, pv));
    assert forall|a: int, b: int| 0 <= a < b < nv.len() implies pair_lt(#[trigger] nv[a], #[trigger] nv[b]) by {
        if b < i {
            assert(pair_lt(ov[a], ov[b]));
        } else if b == i {
        } else if a == i {
            if b - 1 > i {
                assert(pair_lt(ov[i as int], ov[b - 1]));
                lemma_pair_lt_transitive(pv, ov[i as int], ov[b - 1]);
            }
        } else if a < i {
            assert(pair_lt(ov[a], ov[b - 1]));
        } else {
            assert(pair_lt(ov[a - 1], ov[b - 1]));
        }
    }
    assert(nv.to_set() =~= ov.to_set().insert(pv)) by {
        assert forall|x: (Seq<char>, Seq<char>)| nv.to_set().contains(x) implies ov.to_set().insert(pv).contains(x) by {
            let j = choose|j: int| 0 <= j < nv.len() && nv[j] == x;
            if j < i {
                assert(ov[j] == x);
            } else if j > i {
                assert(ov[j - 1] == x);
            }
        }
        assert forall|x: (Seq<char>, Seq<char>)| ov.to_set().insert(pv).contains(x) implies nv.to_set().contains(x) by {
            if x == pv {
                assert(nv[i as int] == x);
            } else {
                let j = choose|j: int| 0 <= j < ov.len() && ov[j] == x;
                if j < i {
                    assert(nv[j] == x);
                } else {
                    assert(nv[j + 1] == x);
                }
            }
        }
    }
}

/// The clone to arm when the current directory is not a clone: among the registry `targets`,
/// those this session owns (see `owned_by_session`) and, when `role` is named, of that role,
/// de-duplicated by `(hub, role)`. Several are refused rather than guessed between.
pub fn resolve_clone(targets: &Vec<Target>, me_session: &Option<String>, role: &Option<String>) -> (r: ArmPick)
    ensures
        exists|v: Seq<(Seq<char>, Seq<char>)>|
            strictly_sorted(v) && v.to_set() == armable_pairs(targets@, opt_str(*me_session), opt_str(*role), targets@.len() as int)
                && pick_of(v, r),
{
    let mut out: Vec<(String, String)> = Vec::new();
    let mut k: usize = 0;
    while k < targets.len()
        invariant
            0 <= k <= targets@.len(),
            strictly_sorted(pairs_view(out@)),
            pairs_view(out@).to_set() == armable_pairs(targets@, opt_str(*me_session), opt_str(*role), k as int),
        decreases targets@.len() - k,
    {
        let t = &targets[k];
        let owned = crate::autoheal::owned_by_session(t, me_session, role);
        let role_ok = match role {
            Some(r) => t.role == *r,
            None => true,
        };
        let ghost before = pairs_view(out@).to_set();
        if owned && role_ok {
            insert_pair(&mut out, (t.hub.clone(), t.role.clone()));
            assert(pairs_view(out@).to_set() =~= armable_pairs(targets@, opt_str(*me_session), opt_str(*role), k + 1)) by {
                assert(armable(targets@[k as int]@, opt_str(*me_session), opt_str(*role)));
            }
        } else {
            assert(pairs_view(out@).to_set() =~= armable_pairs(targets@, opt_str(*me_session), opt_str(*role), k + 1)) by {
                assert(!armable(targets@[k as int]@, opt_str(*me_session), opt_str(*role)));
            }
        }
        k += 1;
    }
    let ghost v = pairs_view(out@);
    if out.len() == 0 {
        ArmPick::Nothing
    } else if out.len() == 1 {
        ArmPick::One(out[0].0.clone())
    } else {
        ArmPick::Several(out)
    }
}

} // verus!
