//! `attach`, the one process a Monitor hosts for every hub a session is on: which hubs it
//! covers, in what order, and which spool lines reach the agent. Finding clones, starting
//! watchers and tailing spools happen outside.
use vstd::prelude::*;
use crate::text::opt_str;
use crate::text::{chars_of, lex_lt, less, is_prefix, starts_with, lemma_lex_lt_transitive, lemma_lex_lt_total};

verus! {

// ---------------------------------------------------------------- which spool lines wake

/// A watcher's own start-up notices: kept in the spool for debugging, never a wake.
pub open spec fn lifecycle_prefixes() -> Seq<Seq<char>> {
    seq![
        "confer watch: --replace killed the existing watcher"@,
        "confer watch: upgraded from"@,
        "confer watch: (that lock was recorded under host"@,
        "confer watch: reclaimed a stale watch lock"@,
        "confer watch: owned by role"@,
        "confer watch: streaming new items"@,
        "confer watch: detached watcher for"@,
    ]
}

pub open spec fn is_lifecycle(line: Seq<char>) -> bool {
    exists|i: int| 0 <= i < lifecycle_prefixes().len() && is_prefix(#[trigger] lifecycle_prefixes()[i], line)
}

/// What a spool line prints as: nothing for a watcher's lifecycle notice; confer's own notices
/// and continuation lines as they are; every other line prefixed with the hub's label.
pub open spec fn emit_spec(label: Seq<char>, line: Seq<char>) -> Option<Seq<char>> {
    if is_lifecycle(line) {
        None
    } else if is_prefix("confer"@, line) || is_prefix("──"@, line) || is_prefix("   "@, line) {
        Some(line)
    } else {
        Some("["@ + label + "] "@ + line)
    }
}

fn begins(line: &[char], p: &str) -> (r: bool)
    ensures
        r == is_prefix(p@, line@),
{
    starts_with(line, chars_of(p).as_slice())
}

pub fn emit_line(label: &str, line: &str) -> (r: Option<String>)
    ensures
        opt_str(r) == emit_spec(label@, line@),
{
    let l = chars_of(line);
    let ls = l.as_slice();
    let lifecycle = begins(ls, "confer watch: --replace killed the existing watcher")
        || begins(ls, "confer watch: upgraded from")
        || begins(ls, "confer watch: (that lock was recorded under host")
        || begins(ls, "confer watch: reclaimed a stale watch lock")
        || begins(ls, "confer watch: owned by role")
        || begins(ls, "confer watch: streaming new items")
        || begins(ls, "confer watch: detached watcher for");
    proof {
        let ps = lifecycle_prefixes();
        if lifecycle {
            if is_prefix(ps[0], line@) {
            } else if is_prefix(ps[1], line@) {
            } else if is_prefix(ps[2], line@) {
            } else if is_prefix(ps[3], line@) {
            } else if is_prefix(ps[4], line@) {
            } else if is_prefix(ps[5], line@) {
            } else {
                assert(is_prefix(ps[6], line@));
            }
        } else {
            assert forall|i: int| 0 <= i < ps.len() implies !is_prefix(#[trigger] ps[i], line@) by {
                if i == 0 {
                } else if i == 1 {
                } else if i == 2 {
                } else if i == 3 {
                } else if i == 4 {
                } else if i == 5 {
                } else {
                }
            }
        }
    }
    if lifecycle {
        return None;
    }
    if begins(ls, "confer") || begins(ls, "──") || begins(ls, "   ") {
        return Some(line.to_owned());
    }
    let mut r = "[".to_owned();
    r.append(label);
    r.append("] ");
    r.append(line);
    Some(r)
}

// ---------------------------------------------------------------- the hubs covered

/// A hub this attach may cover: its canonical path, the role, and its label.
pub struct Candidate {
    pub root: String,
    pub role: String,
    pub label: String,
}

pub open spec fn same_target(a: Candidate, b: Candidate) -> bool {
    a.root@ == b.root@ && a.role@ == b.role@
}

/// Candidate `i` is the first with its (hub, role).
pub open spec fn first_of_its_kind(cs: Seq<Candidate>, i: int) -> bool {
    forall|j: int| 0 <= j < i ==> !same_target(#[trigger] cs[j], cs[i])
}

/// Candidate `i` goes before candidate `j`: by label, ties in the order found.
pub open spec fn label_before(cs: Seq<Candidate>, i: int, j: int) -> bool {
    lex_lt(cs[i].label@, cs[j].label@) || (cs[i].label@ == cs[j].label@ && i < j)
}

/// `idx` lists each (hub, role) once — the first candidate found for it — sorted by label,
/// ties in the order found.
pub open spec fn covers(cs: Seq<Candidate>, idx: Seq<usize>) -> bool {
    &&& forall|a: int| 0 <= a < idx.len() ==> (#[trigger] idx[a]) < cs.len() && first_of_its_kind(cs, idx[a] as int)
    &&& forall|i: int| 0 <= i < cs.len() && first_of_its_kind(cs, i) ==> exists|a: int| 0 <= a < idx.len() && idx[a] == i
    &&& forall|a: int, b: int| 0 <= a < b < idx.len() ==> label_before(cs, idx[a] as int, idx[b] as int)
}

fn same_candidate(a: &Candidate, b: &Candidate) -> (r: bool)
    ensures
        r == same_target(*a, *b),
{
    a.root == b.root && a.role == b.role
}

proof fn lemma_label_total(cs: Seq<Candidate>, i: int, j: int)
    requires
        i != j,
    ensures
        label_before(cs, i, j) || label_before(cs, j, i),
{
    lemma_lex_lt_total(cs[i].label@, cs[j].label@);
}

proof fn lemma_label_transitive(cs: Seq<Candidate>, i: int, j: int, k: int)
    requires
        label_before(cs, i, j),
        label_before(cs, j, k),
    ensures
        label_before(cs, i, k),
{
    lemma_lex_lt_transitive(cs[i].label@, cs[j].label@, cs[k].label@);
}

/// The hubs to attach to, from the candidates in the order they were found (the current
/// clone first, then the registry's): each (hub, role) once, sorted by label.
pub fn finalize(cs: &Vec<Candidate>) -> (idx: Vec<usize>)
    ensures
        covers(cs@, idx@),
{
    let ghost v = cs@;
    let mut idx: Vec<usize> = Vec::new();
    let mut i: usize = 0;
    while i < cs.len()
        invariant
            0 <= i <= v.len(),
            v == cs@,
            forall|a: int| 0 <= a < idx@.len() ==> (#[trigger] idx@[a]) < i && first_of_its_kind(v, idx@[a] as int),
            forall|k: int| 0 <= k < i && first_of_its_kind(v, k) ==> exists|a: int| 0 <= a < idx@.len() && idx@[a] == k,
            forall|a: int, b: int| 0 <= a < b < idx@.len() ==> label_before(v, idx@[a] as int, idx@[b] as int),
        decreases v.len() - i,
    {
        let mut j: usize = 0;
        while j < i && !same_candidate(&cs[j], &cs[i])
            invariant
                0 <= j <= i < v.len(),
                v == cs@,
                forall|k: int| 0 <= k < j ==> !same_target(#[trigger] v[k], v[i as int]),
            decreases i - j,
        {
            j += 1;
        }
        let dup = j < i;
        if !dup {
            assert(first_of_its_kind(v, i as int));
            let mut p: usize = 0;
            while p < idx.len() && !less(chars_of(cs[i].label.as_str()).as_slice(), chars_of(cs[idx[p]].label.as_str()).as_slice())
                invariant
                    0 <= p <= idx@.len(),
                    i < v.len(),
                    v == cs@,
                    forall|a: int| 0 <= a < idx@.len() ==> (#[trigger] idx@[a]) < i,
                    forall|a: int| 0 <= a < p ==> !lex_lt(v[i as int].label@, #[trigger] v[idx@[a] as int].label@),
                decreases idx@.len() - p,
            {
                p += 1;
            }
            let ghost old_idx = idx@;
            proof {
                assert forall|a: int| 0 <= a < p implies label_before(v, #[trigger] old_idx[a] as int, i as int) by {
                    lemma_label_total(v, old_idx[a] as int, i as int);
                }
            }
            idx.insert(p, i);
            proof {
                let nv = idx@;
                assert(nv =~= old_idx.insert(p as int, i));
                assert forall|a: int, b: int| 0 <= a < b < nv.len() implies label_before(v, nv[a] as int, nv[b] as int) by {
                    if b < p {
                        assert(nv[a] == old_idx[a] && nv[b] == old_idx[b]);
                    } else if b == p {
                        assert(nv[a] == old_idx[a]);
                    } else if a == p {
                        assert(nv[b] == old_idx[b - 1]);
                        assert(lex_lt(v[i as int].label@, v[old_idx[p as int] as int].label@) || p == old_idx.len());
                        if b - 1 > p {
                            assert(label_before(v, old_idx[p as int] as int, old_idx[b - 1] as int));
                            lemma_label_transitive(v, i as int, old_idx[p as int] as int, old_idx[b - 1] as int);
                        }
                    } else if a < p {
                        assert(nv[a] == old_idx[a] && nv[b] == old_idx[b - 1]);
                    } else {
                        assert(nv[a] == old_idx[a - 1] && nv[b] == old_idx[b - 1]);
                    }
                }
                assert forall|a: int| 0 <= a < nv.len() implies (#[trigger] nv[a]) < i + 1 && first_of_its_kind(v, nv[a] as int) by {
                    if a < p {
                        assert(nv[a] == old_idx[a]);
                    } else if a > p {
                        assert(nv[a] == old_idx[a - 1]);
                    }
                }
                assert forall|k: int| 0 <= k < i + 1 && first_of_its_kind(v, k) implies exists|a: int| 0 <= a < nv.len() && nv[a] == k by {
                    if k == i {
                        assert(nv[p as int] == k);
                    } else {
                        let a = choose|a: int| 0 <= a < old_idx.len() && old_idx[a] == k;
                        if a < p {
                            assert(nv[a] == k);
                        } else {
                            assert(nv[a + 1] == k);
                        }
                    }
                }
            }
        } else {
            assert(!first_of_its_kind(v, i as int)) by {
                assert(same_target(v[j as int], v[i as int]));
            }
        }
        i += 1;
    }
    idx
}

} // verus!
