//! The auto-heal registry: whether auto-heal is on, and which `(hub, role)` watch targets to
//! keep alive, each stamped with the session that last armed it. Loading and saving the
//! registry, and asking the file system which hubs still exist, happen outside; everything
//! the registry decides happens here.
use vstd::prelude::*;
use crate::text::opt_str;

verus! {

/// One watch target: a hub working directory and a role, with the arming session's id.
pub struct Target {
    pub hub: String,
    pub role: String,
    pub session: Option<String>,
}

pub struct Registry {
    pub enabled: bool,
    pub targets: Vec<Target>,
}

/// Why a target counts as this session's own: its session stamp matched, or only its role.
#[derive(Clone, Copy, PartialEq, Eq, Structural, Debug)]
pub enum Ownership {
    Session,
    Role,
}

/// A target as plain values.
pub struct TargetView {
    pub hub: Seq<char>,
    pub role: Seq<char>,
    pub session: Option<Seq<char>>,
}

impl View for Target {
    type V = TargetView;

    open spec fn view(&self) -> TargetView {
        TargetView { hub: self.hub@, role: self.role@, session: opt_str(self.session) }
    }
}

pub open spec fn targets_view(ts: Seq<Target>) -> Seq<TargetView> {
    ts.map_values(|t: Target| t@)
}

impl Registry {
    pub open spec fn targets_spec(&self) -> Seq<TargetView> {
        targets_view(self.targets@)
    }
}

// ---------------------------------------------------------------- ownership

/// Owned by session when the target carries my session id; otherwise owned by role when it
/// is for my role; otherwise not mine.
pub open spec fn ownership_spec(t: TargetView, me_session: Option<Seq<char>>, me_role: Option<Seq<char>>) -> Option<Ownership> {
    if me_session is Some && t.session == me_session {
        Some(Ownership::Session)
    } else if me_role is Some && t.role == me_role->0 {
        Some(Ownership::Role)
    } else {
        None
    }
}

fn same_opt(a: &Option<String>, b: &Option<String>) -> (r: bool)
    ensures
        r == (opt_str(*a) == opt_str(*b)),
{
    match (a, b) {
        (Some(x), Some(y)) => *x == *y,
        (None, None) => true,
        _ => false,
    }
}

/// Whether, and on what basis, target `t` belongs to the session `me_session` of role `me_role`.
pub fn ownership(t: &Target, me_session: &Option<String>, me_role: &Option<String>) -> (r: Option<Ownership>)
    ensures
        r == ownership_spec(t@, opt_str(*me_session), opt_str(*me_role)),
{
    if me_session.is_some() && same_opt(&t.session, me_session) {
        return Some(Ownership::Session);
    }
    match me_role {
        Some(r) => {
            if t.role == *r {
                Some(Ownership::Role)
            } else {
                None
            }
        },
        None => None,
    }
}

/// Should this session heal target `t`?
pub fn owned_by_session(t: &Target, me_session: &Option<String>, me_role: &Option<String>) -> (b: bool)
    ensures
        b == ownership_spec(t@, opt_str(*me_session), opt_str(*me_role)) is Some,
{
    ownership(t, me_session, me_role).is_some()
}

/// A peer's target — another role, and not stamped with my session — is never mine, and a
/// session that knows neither its id nor its role owns nothing.
pub proof fn ownership_never_reaches_a_peer(t: TargetView, me_session: Option<Seq<char>>, me_role: Option<Seq<char>>)
    ensures
        (me_session is None || t.session != me_session) && (me_role is None || t.role != me_role->0)
            ==> ownership_spec(t, me_session, me_role) is None,
        me_session is None && me_role is None ==> ownership_spec(t, me_session, me_role) is None,
        ownership_spec(t, me_session, me_role) == Some(Ownership::Session) ==> t.session == me_session
            && me_session is Some,
        ownership_spec(t, me_session, me_role) == Some(Ownership::Role) ==> t.role == me_role->0
            && me_role is Some,
{
}

// ---------------------------------------------------------------- session

/// The first non-empty value among the looked-up session values, in key order.
pub open spec fn first_session(found: Seq<Option<Seq<char>>>) -> Option<Seq<char>>
    decreases found.len(),
{
    if found.len() == 0 {
        None
    } else {
        match found[0] {
            Some(v) => if v.len() > 0 {
                Some(v)
            } else {
                first_session(found.drop_first())
            },
            None => first_session(found.drop_first()),
        }
    }
}

pub open spec fn opts_view(v: Seq<Option<String>>) -> Seq<Option<Seq<char>>> {
    v.map_values(|s: Option<String>| opt_str(s))
}

/// The agent session among the values that each known session key gave (in priority order):
/// the first one that is present and not empty.
pub fn session_from(found: &Vec<Option<String>>) -> (r: Option<String>)
    ensures
        opt_str(r) == first_session(opts_view(found@)),
{
    let mut i: usize = 0;
    assert(opts_view(found@).subrange(0, found@.len() as int) =~= opts_view(found@));
    while i < found.len()
        invariant
            0 <= i <= found@.len(),
            first_session(opts_view(found@)) == first_session(opts_view(found@).subrange(i as int, found@.len() as int)),
        decreases found@.len() - i,
    {
        let ghost rest = opts_view(found@).subrange(i as int, found@.len() as int);
        assert(rest.drop_first() =~= opts_view(found@).subrange(i + 1, found@.len() as int));
        assert(rest[0] == opt_str(found@[i as int]));
        match &found[i] {
            Some(v) => {
                if !v.as_str().is_empty() {
                    return Some(v.clone());
                }
            },
            None => {},
        }
        i += 1;
    }
    assert(opts_view(found@).subrange(i as int, found@.len() as int).len() == 0);
    None
}

// ---------------------------------------------------------------- toggling and recording

/// Turn auto-heal on or off; the targets stay as they are.
pub fn set_enabled(reg: &mut Registry, on: bool)
    ensures
        final(reg).enabled == on,
        final(reg).targets_spec() == old(reg).targets_spec(),
{
    reg.enabled = on;
}

pub open spec fn is_key(t: TargetView, hub: Seq<char>, role: Seq<char>) -> bool {
    t.hub == hub && t.role == role
}

/// `i` is the first target recorded for `(hub, role)`.
pub open spec fn first_key(ts: Seq<TargetView>, hub: Seq<char>, role: Seq<char>, i: int) -> bool {
    &&& 0 <= i < ts.len()
    &&& is_key(ts[i], hub, role)
    &&& forall|k: int| 0 <= k < i ==> !is_key(#[trigger] ts[k], hub, role)
}

pub open spec fn has_key(ts: Seq<TargetView>, hub: Seq<char>, role: Seq<char>) -> bool {
    exists|i: int| 0 <= i < ts.len() && is_key(#[trigger] ts[i], hub, role)
}

pub open spec fn key_index(ts: Seq<TargetView>, hub: Seq<char>, role: Seq<char>) -> int {
    choose|i: int| first_key(ts, hub, role, i)
}

proof fn lemma_first_key_unique(ts: Seq<TargetView>, hub: Seq<char>, role: Seq<char>, i: int, j: int)
    requires
        first_key(ts, hub, role, i),
        first_key(ts, hub, role, j),
    ensures
        i == j,
{
    if i < j {
        assert(!is_key(ts[i], hub, role));
    } else if j < i {
        assert(!is_key(ts[j], hub, role));
    }
}

proof fn lemma_first_key_exists(ts: Seq<TargetView>, hub: Seq<char>, role: Seq<char>, n: int)
    requires
        0 <= n <= ts.len(),
        exists|i: int| 0 <= i < n && is_key(#[trigger] ts[i], hub, role),
    ensures
        exists|i: int| first_key(ts, hub, role, i),
    decreases n,
{
    if exists|i: int| 0 <= i < n - 1 && is_key(#[trigger] ts[i], hub, role) {
        lemma_first_key_exists(ts, hub, role, n - 1);
    } else {
        assert(first_key(ts, hub, role, n - 1));
    }
}

/// `key_index` is the first index recorded for the key.
proof fn lemma_key_index(ts: Seq<TargetView>, hub: Seq<char>, role: Seq<char>, i: int)
    requires
        first_key(ts, hub, role, i),
    ensures
        key_index(ts, hub, role) == i,
{
    let j = key_index(ts, hub, role);
    lemma_first_key_unique(ts, hub, role, i, j);
}

/// Recording `(hub, role)` for `session`: nothing for an empty role; a new target when the
/// key is new; otherwise the first such target takes the session's ownership. Returns the new
/// targets and whether anything changed.
pub open spec fn add_target_spec(ts: Seq<TargetView>, hub: Seq<char>, role: Seq<char>, session: Option<Seq<char>>) -> (Seq<TargetView>, bool) {
    if role.len() == 0 {
        (ts, false)
    } else if has_key(ts, hub, role) {
        let i = key_index(ts, hub, role);
        if ts[i].session == session {
            (ts, false)
        } else {
            (ts.update(i, TargetView { hub: ts[i].hub, role: ts[i].role, session: session }), true)
        }
    } else {
        (ts.push(TargetView { hub: hub, role: role, session: session }), true)
    }
}

/// Record `(hub, role)` as a target to keep watched, owned by `session`. Returns whether the
/// registry changed (and so needs saving).
pub fn add_target(reg: &mut Registry, hub: &str, role: &str, session: Option<String>) -> (changed: bool)
    ensures
        final(reg).targets_spec() == add_target_spec(old(reg).targets_spec(), hub@, role@, opt_str(session)).0,
        changed == add_target_spec(old(reg).targets_spec(), hub@, role@, opt_str(session)).1,
        final(reg).enabled == old(reg).enabled,
{
    let ghost ts = old(reg).targets_spec();
    if role.is_empty() {
        return false;
    }
    let hub_s = hub.to_owned();
    let role_s = role.to_owned();
    let mut i: usize = 0;
    while i < reg.targets.len()
        invariant
            0 <= i <= reg.targets@.len(),
            reg.targets_spec() == ts,
            ts == old(reg).targets_spec(),
            ts.len() == reg.targets@.len(),
            reg.enabled == old(reg).enabled,
            hub_s@ == hub@,
            role_s@ == role@,
            role@.len() > 0,
            forall|k: int| 0 <= k < i ==> !is_key(#[trigger] ts[k], hub@, role@),
        decreases reg.targets@.len() - i,
    {
        assert(ts[i as int] == reg.targets@[i as int]@);
        if reg.targets[i].hub == hub_s && reg.targets[i].role == role_s {
            proof {
                assert(first_key(ts, hub@, role@, i as int));
                assert(has_key(ts, hub@, role@));
                lemma_key_index(ts, hub@, role@, i as int);
            }
            if same_opt(&reg.targets[i].session, &session) {
                assert(ts[i as int].session == opt_str(session));
                return false;
            }
            let t = Target { hub: reg.targets[i].hub.clone(), role: reg.targets[i].role.clone(), session };
            reg.targets.set(i, t);
            assert(reg.targets_spec() =~= ts.update(
                i as int,
                TargetView { hub: ts[i as int].hub, role: ts[i as int].role, session: opt_str(session) },
            ));
            return true;
        }
        i += 1;
    }
    reg.targets.push(Target { hub: hub_s, role: role_s, session });
    assert(reg.targets_spec() =~= ts.push(TargetView { hub: hub@, role: role@, session: opt_str(session) }));
    true
}

/// Recording the same target twice changes nothing the second time, and afterwards the key is
/// recorded with that session.
pub proof fn add_target_is_idempotent(ts: Seq<TargetView>, hub: Seq<char>, role: Seq<char>, session: Option<Seq<char>>)
    requires
        role.len() > 0,
    ensures
        ({
            let once = add_target_spec(ts, hub, role, session).0;
            &&& add_target_spec(once, hub, role, session) == (once, false)
            &&& has_key(once, hub, role)
            &&& once[key_index(once, hub, role)].session == session
        }),
{
    let once = add_target_spec(ts, hub, role, session).0;
    if has_key(ts, hub, role) {
        let i = key_index(ts, hub, role);
        lemma_first_key_exists(ts, hub, role, ts.len() as int);
        assert(first_key(ts, hub, role, i));
        assert(first_key(once, hub, role, i)) by {
            assert forall|k: int| 0 <= k < i implies !is_key(#[trigger] once[k], hub, role) by {
                assert(once[k] == ts[k]);
            }
        }
        lemma_key_index(once, hub, role, i);
        assert(is_key(once[i], hub, role));
    } else {
        let n = ts.len() as int;
        assert(first_key(once, hub, role, n)) by {
            assert forall|k: int| 0 <= k < n implies !is_key(#[trigger] once[k], hub, role) by {
                assert(once[k] == ts[k]);
                if is_key(ts[k], hub, role) {
                    assert(has_key(ts, hub, role));
                }
            }
        }
        lemma_key_index(once, hub, role, n);
        assert(is_key(once[n], hub, role));
    }
}

/// Re-point every target at hub `old_hub` to `new_hub`.
pub open spec fn retarget_spec(ts: Seq<TargetView>, old_hub: Seq<char>, new_hub: Seq<char>) -> Seq<TargetView> {
    ts.map_values(
        |t: TargetView|
            if t.hub == old_hub {
                TargetView { hub: new_hub, role: t.role, session: t.session }
            } else {
                t
            },
    )
}

/// Re-point any target at the hub path `old_hub` to `new_hub` (a clone moved). Returns whether
/// any target changed.
pub fn retarget(reg: &mut Registry, old_hub: &str, new_hub: &str) -> (changed: bool)
    ensures
        final(reg).targets_spec() == retarget_spec(old(reg).targets_spec(), old_hub@, new_hub@),
        changed == exists|i: int| 0 <= i < old(reg).targets@.len() && (#[trigger] old(reg).targets@[i]).hub@ == old_hub@,
        final(reg).enabled == old(reg).enabled,
{
    let ghost ts = old(reg).targets_spec();
    let old_s = old_hub.to_owned();
    let mut changed = false;
    let mut i: usize = 0;
    while i < reg.targets.len()
        invariant
            0 <= i <= reg.targets@.len(),
            ts.len() == reg.targets@.len(),
            old_s@ == old_hub@,
            ts == targets_view(old(reg).targets@),
            reg.enabled == old(reg).enabled,
            forall|k: int| 0 <= k < i ==> (#[trigger] reg.targets@[k])@ == retarget_spec(ts, old_hub@, new_hub@)[k],
            forall|k: int| i <= k < reg.targets@.len() ==> (#[trigger] reg.targets@[k])@ == ts[k],
            changed == exists|k: int| 0 <= k < i && (#[trigger] ts[k]).hub == old_hub@,
        decreases reg.targets@.len() - i,
    {
        assert(reg.targets@[i as int]@ == ts[i as int]);
        if reg.targets[i].hub == old_s {
            let t = Target {
                hub: new_hub.to_owned(),
                role: reg.targets[i].role.clone(),
                session: reg.targets[i].session.clone(),
            };
            reg.targets.set(i, t);
            changed = true;
        }
        i += 1;
    }
    assert(reg.targets_spec() =~= retarget_spec(ts, old_hub@, new_hub@));
    proof {
        if changed {
            let k = choose|k: int| 0 <= k < ts.len() && (#[trigger] ts[k]).hub == old_hub@;
            assert(old(reg).targets@[k].hub@ == old_hub@);
        }
        if exists|k: int| 0 <= k < old(reg).targets@.len() && (#[trigger] old(reg).targets@[k]).hub@ == old_hub@ {
            let k = choose|k: int| 0 <= k < old(reg).targets@.len() && (#[trigger] old(reg).targets@[k]).hub@ == old_hub@;
            assert(ts[k].hub == old_hub@);
        }
    }
    changed
}

/// After re-pointing, no target is left at the old hub path, each keeps its role and session,
/// and the number of targets is the same.
pub proof fn retarget_leaves_nothing_behind(ts: Seq<TargetView>, old_hub: Seq<char>, new_hub: Seq<char>)
    requires
        old_hub != new_hub,
    ensures
        retarget_spec(ts, old_hub, new_hub).len() == ts.len(),
        forall|i: int| 0 <= i < ts.len() ==> (#[trigger] retarget_spec(ts, old_hub, new_hub)[i]).hub != old_hub,
        forall|i: int| 0 <= i < ts.len() ==> (#[trigger] retarget_spec(ts, old_hub, new_hub)[i]).role == ts[i].role
            && retarget_spec(ts, old_hub, new_hub)[i].session == ts[i].session,
{
}

// ---------------------------------------------------------------- stale targets

/// The first `n` targets whose hub presence equals `keep`, in order.
pub open spec fn select(ts: Seq<TargetView>, present: Seq<bool>, keep: bool, n: nat) -> Seq<TargetView>
    decreases n,
{
    if n == 0 {
        Seq::empty()
    } else {
        let r = select(ts, present, keep, (n - 1) as nat);
        if present[n - 1] == keep {
            r.push(ts[n - 1])
        } else {
            r
        }
    }
}

/// The targets whose hub is present.
pub open spec fn live_of(ts: Seq<TargetView>, present: Seq<bool>) -> Seq<TargetView> {
    select(ts, present, true, ts.len())
}

/// The targets whose hub is missing.
pub open spec fn dead_of(ts: Seq<TargetView>, present: Seq<bool>) -> Seq<TargetView> {
    select(ts, present, false, ts.len())
}

fn copy_target(t: &Target) -> (r: Target)
    ensures
        r@ == t@,
{
    let session = match &t.session {
        Some(s) => Some(s.clone()),
        None => None,
    };
    Target { hub: t.hub.clone(), role: t.role.clone(), session }
}

/// Split the targets by whether their hub is present (`present[i]` for target `i`): the
/// present ones and the missing ones, each in registry order.
fn split_by_presence(ts: &Vec<Target>, present: &Vec<bool>) -> (r: (Vec<Target>, Vec<Target>))
    requires
        present@.len() == ts@.len(),
    ensures
        targets_view(r.0@) == live_of(targets_view(ts@), present@),
        targets_view(r.1@) == dead_of(targets_view(ts@), present@),
{
    let ghost tv = targets_view(ts@);
    let mut live: Vec<Target> = Vec::new();
    let mut dead: Vec<Target> = Vec::new();
    let mut i: usize = 0;
    while i < ts.len()
        invariant
            0 <= i <= ts@.len(),
            present@.len() == ts@.len(),
            tv == targets_view(ts@),
            targets_view(live@) == select(tv, present@, true, i as nat),
            targets_view(dead@) == select(tv, present@, false, i as nat),
        decreases ts@.len() - i,
    {
        let t = copy_target(&ts[i]);
        assert(tv[i as int] == t@);
        if present[i] {
            live.push(t);
        } else {
            dead.push(t);
        }
        assert(targets_view(live@) =~= select(tv, present@, true, (i + 1) as nat));
        assert(targets_view(dead@) =~= select(tv, present@, false, (i + 1) as nat));
        i += 1;
    }
    (live, dead)
}

/// The targets whose hub directory is missing — what a human reviews before pruning.
/// `present[i]` says whether target `i`'s hub directory exists. Nothing is removed.
pub fn stale_targets(reg: &Registry, present: &Vec<bool>) -> (r: Vec<Target>)
    requires
        present@.len() == reg.targets@.len(),
    ensures
        targets_view(r@) == dead_of(reg.targets_spec(), present@),
{
    let (_live, dead) = split_by_presence(&reg.targets, present);
    dead
}

/// Remove the targets whose hub directory is missing (`present[i]` for target `i`) and return
/// them; the rest stay in order.
pub fn prune(reg: &mut Registry, present: &Vec<bool>) -> (removed: Vec<Target>)
    requires
        present@.len() == old(reg).targets@.len(),
    ensures
        targets_view(removed@) == dead_of(old(reg).targets_spec(), present@),
        final(reg).targets_spec() == live_of(old(reg).targets_spec(), present@),
        final(reg).enabled == old(reg).enabled,
{
    let (live, dead) = split_by_presence(&reg.targets, present);
    reg.targets = live;
    dead
}

proof fn lemma_select_multiset(ts: Seq<TargetView>, present: Seq<bool>, n: nat)
    requires
        n <= ts.len(),
        n <= present.len(),
    ensures
        select(ts, present, true, n).to_multiset().add(select(ts, present, false, n).to_multiset())
            =~= ts.take(n as int).to_multiset(),
        select(ts, present, true, n).len() + select(ts, present, false, n).len() == n,
        forall|i: int| 0 <= i < n && present[i] ==> select(ts, present, true, n).contains(#[trigger] ts[i]),
        forall|i: int| 0 <= i < n && !present[i] ==> select(ts, present, false, n).contains(#[trigger] ts[i]),
    decreases n,
{
    broadcast use vstd::seq_lib::group_to_multiset_ensures;
    if n > 0 {
        let m = (n - 1) as nat;
        lemma_select_multiset(ts, present, m);
        assert(ts.take(n as int) =~= ts.take(m as int).push(ts[m as int]));
        let l = select(ts, present, true, m);
        let d = select(ts, present, false, m);
        if present[m as int] {
            assert(select(ts, present, true, n) == l.push(ts[m as int]));
            assert forall|i: int| 0 <= i < n && present[i] implies select(ts, present, true, n).contains(#[trigger] ts[i]) by {
                if i < m {
                    let j = choose|j: int| 0 <= j < l.len() && l[j] == ts[i];
                    assert(l.push(ts[m as int])[j] == ts[i]);
                } else {
                    assert(l.push(ts[m as int])[l.len() as int] == ts[i]);
                }
            }
        } else {
            assert(select(ts, present, false, n) == d.push(ts[m as int]));
            assert forall|i: int| 0 <= i < n && !present[i] implies select(ts, present, false, n).contains(#[trigger] ts[i]) by {
                if i < m {
                    let j = choose|j: int| 0 <= j < d.len() && d[j] == ts[i];
                    assert(d.push(ts[m as int])[j] == ts[i]);
                } else {
                    assert(d.push(ts[m as int])[d.len() as int] == ts[i]);
                }
            }
        }
    }
}

/// Pruning splits the registry exactly: every target either stays (its hub is present) or is
/// returned (its hub is missing), none is lost or duplicated; and what `prune` returns is what
/// `stale_targets` reports for the same presence.
pub proof fn prune_partitions_the_targets(ts: Seq<TargetView>, present: Seq<bool>)
    requires
        present.len() == ts.len(),
    ensures
        live_of(ts, present).to_multiset().add(dead_of(ts, present).to_multiset()) == ts.to_multiset(),
        live_of(ts, present).len() + dead_of(ts, present).len() == ts.len(),
        forall|i: int| 0 <= i < ts.len() && present[i] ==> live_of(ts, present).contains(#[trigger] ts[i]),
        forall|i: int| 0 <= i < ts.len() && !present[i] ==> dead_of(ts, present).contains(#[trigger] ts[i]),
{
    lemma_select_multiset(ts, present, ts.len());
    assert(ts.take(ts.len() as int) =~= ts);
}

proof fn lemma_select_all_present(ts: Seq<TargetView>, present: Seq<bool>, n: nat)
    requires
        n <= ts.len(),
        n <= present.len(),
        forall|i: int| 0 <= i < present.len() ==> present[i],
    ensures
        select(ts, present, true, n) == ts.take(n as int),
        select(ts, present, false, n) == Seq::<TargetView>::empty(),
    decreases n,
{
    if n > 0 {
        lemma_select_all_present(ts, present, (n - 1) as nat);
        assert(ts.take(n as int) =~= ts.take(n - 1).push(ts[n - 1]));
    }
}

/// With every hub present nothing is stale and pruning keeps the registry as it is — so
/// pruning a second time, right after a prune, removes nothing.
pub proof fn prune_spares_present_hubs(ts: Seq<TargetView>, present: Seq<bool>)
    requires
        present.len() == ts.len(),
        forall|i: int| 0 <= i < present.len() ==> present[i],
    ensures
        dead_of(ts, present) == Seq::<TargetView>::empty(),
        live_of(ts, present) == ts,
{
    lemma_select_all_present(ts, present, ts.len());
    assert(ts.take(ts.len() as int) =~= ts);
}


// ---------------------------------------------------------------- Grok's sessions on disk

/// One entry of Grok's active-sessions file.
pub struct GrokSession {
    pub session_id: Option<String>,
    pub pid: Option<u64>,
    pub cwd: Option<String>,
}

/// The entry's process is one of this process's ancestors.
pub open spec fn by_ancestor(e: GrokSession, ancestors: Seq<u32>) -> bool {
    e.pid matches Some(p) && ancestors.contains(#[verifier::truncate] (p as u32))
}

/// The entry shares this process's working directory.
pub open spec fn by_cwd(e: GrokSession, cwd: Seq<char>) -> bool {
    e.cwd matches Some(c) && c@ == cwd
}

/// Entry `i` is the only one that `pred` picks.
pub open spec fn only_one(es: Seq<GrokSession>, pred: spec_fn(GrokSession) -> bool, i: int) -> bool {
    0 <= i < es.len() && pred(es[i]) && forall|j: int| 0 <= j < es.len() && j != i ==> !pred(#[trigger] es[j])
}

pub open spec fn sole(es: Seq<GrokSession>, pred: spec_fn(GrokSession) -> bool) -> bool {
    exists|i: int| only_one(es, pred, i)
}

pub open spec fn sole_session(es: Seq<GrokSession>, pred: spec_fn(GrokSession) -> bool) -> Option<Seq<char>> {
    opt_str(es[choose|i: int| only_one(es, pred, i)].session_id)
}

/// The session this process runs in, matched narrowly so co-resident sessions never collide:
/// the only entry whose process is an ancestor of this one; else the only entry sharing this
/// working directory; else the only entry there is; else none — never a guess.
pub open spec fn pick_spec(es: Seq<GrokSession>, ancestors: Seq<u32>, cwd: Option<Seq<char>>) -> Option<Seq<char>> {
    let anc = |e: GrokSession| by_ancestor(e, ancestors);
    if es.len() == 0 {
        None
    } else if ancestors.len() > 0 && sole(es, anc) {
        sole_session(es, anc)
    } else if cwd is Some && sole(es, |e: GrokSession| by_cwd(e, cwd->0)) {
        sole_session(es, |e: GrokSession| by_cwd(e, cwd->0))
    } else if es.len() == 1 {
        opt_str(es[0].session_id)
    } else {
        None
    }
}

fn ancestor_of(e: &GrokSession, ancestors: &Vec<u32>) -> (r: bool)
    ensures
        r == by_ancestor(*e, ancestors@),
{
    match e.pid {
        Some(p) => {
            let q = #[verifier::truncate] (p as u32);
            let mut i: usize = 0;
            while i < ancestors.len()
                invariant
                    0 <= i <= ancestors@.len(),
                    q == #[verifier::truncate] (p as u32),
                    e.pid == Some(p),
                    forall|k: int| 0 <= k < i ==> ancestors@[k] != q,
                decreases ancestors@.len() - i,
            {
                if ancestors[i] == q {
                    assert(ancestors@[i as int] == q);
                    assert(ancestors@.contains(q));
                    return true;
                }
                i += 1;
            }
            false
        },
        None => false,
    }
}

fn in_cwd(e: &GrokSession, cwd: &String) -> (r: bool)
    ensures
        r == by_cwd(*e, cwd@),
{
    match &e.cwd {
        Some(c) => *c == *cwd,
        None => false,
    }
}

/// The index of the only entry `pick` selects (by ancestor when `by_anc`, else by `cwd`).
fn only_match(es: &Vec<GrokSession>, ancestors: &Vec<u32>, cwd: &String, by_anc: bool) -> (r: Option<usize>)
    ensures
        ({
            let pred = if by_anc {
                |e: GrokSession| by_ancestor(e, ancestors@)
            } else {
                |e: GrokSession| by_cwd(e, cwd@)
            };
            match r {
                Some(i) => only_one(es@, pred, i as int),
                None => !sole(es@, pred),
            }
        }),
{
    let ghost pred = if by_anc {
        |e: GrokSession| by_ancestor(e, ancestors@)
    } else {
        |e: GrokSession| by_cwd(e, cwd@)
    };
    let mut found: Option<usize> = None;
    let mut count: usize = 0;
    let mut i: usize = 0;
    while i < es.len()
        invariant
            0 <= i <= es@.len(),
            count <= i,
            pred == (if by_anc {
                |e: GrokSession| by_ancestor(e, ancestors@)
            } else {
                |e: GrokSession| by_cwd(e, cwd@)
            }),
            count == 0 ==> found is None && forall|k: int| 0 <= k < i ==> !pred(#[trigger] es@[k]),
            count == 1 ==> (found matches Some(f) && f < i && pred(es@[f as int]) && forall|k: int|
                0 <= k < i && k != f ==> !pred(#[trigger] es@[k])),
            count >= 2 ==> exists|a: int, b: int| 0 <= a < b < i && pred(#[trigger] es@[a]) && pred(#[trigger] es@[b]),
        decreases es@.len() - i,
    {
        let hit = if by_anc { ancestor_of(&es[i], ancestors) } else { in_cwd(&es[i], cwd) };
        if hit {
            if count == 1 {
                let f = found.unwrap();
                assert(pred(es@[f as int]) && pred(es@[i as int]));
            }
            if count == 0 {
                found = Some(i);
            }
            if count < 2 {
                count += 1;
            }
        }
        i += 1;
    }
    if count == 1 {
        found
    } else {
        proof {
            if count >= 2 {
                let (a, b) = choose|a: int, b: int| 0 <= a < b < es@.len() && pred(#[trigger] es@[a]) && pred(#[trigger] es@[b]);
                assert forall|x: int| !only_one(es@, pred, x) by {
                    if only_one(es@, pred, x) {
                        if x != a {
                            assert(!pred(es@[a]));
                        } else {
                            assert(!pred(es@[b]));
                        }
                    }
                }
            }
        }
        None
    }
}

/// Which Grok session this process belongs to, from the entries of Grok's active-sessions
/// file, the pids of this process's ancestors, and its working directory.
pub fn pick_grok_session(es: &Vec<GrokSession>, ancestors: &Vec<u32>, cwd: &Option<String>) -> (r: Option<String>)
    ensures
        opt_str(r) == pick_spec(es@, ancestors@, opt_str(*cwd)),
{
    if es.len() == 0 {
        return None;
    }
    let ghost anc = |e: GrokSession| by_ancestor(e, ancestors@);
    let none = String::new();
    if ancestors.len() > 0 {
        match only_match(es, ancestors, &none, true) {
            Some(i) => {
                proof {
                    let c = choose|x: int| only_one(es@, anc, x);
                    assert(c == i as int);
                }
                return es[i].session_id.clone();
            },
            None => {},
        }
    }
    match cwd {
        Some(c) => {
            match only_match(es, ancestors, c, false) {
                Some(i) => {
                    proof {
                        let p = |e: GrokSession| by_cwd(e, c@);
                        let x = choose|x: int| only_one(es@, p, x);
                        assert(x == i as int);
                    }
                    return es[i].session_id.clone();
                },
                None => {},
            }
        },
        None => {},
    }
    if es.len() == 1 {
        return es[0].session_id.clone();
    }
    None
}

} // verus!
