//! The topic view of the hub overview: for each topic its messages, its requests and how many
//! are still open, whether any went stale, and its latest activity. Loading messages and the
//! request board happens outside.
use vstd::prelude::*;
use crate::text::opt_str;
use crate::text::{chars_of, less, lex_lt};
use crate::sorted::{ascending, keys, locate, lemma_insert_ascending, lemma_update_keys};

verus! {

/// A message as the overview sees it.
pub struct TopicMsg {
    pub id: String,
    pub topic: Option<String>,
    pub ts: String,
}

/// A request on the board, by the id of the message that opened it.
pub struct BoardRow {
    pub id: String,
    pub open: bool,
    pub stale: bool,
}

/// One topic's aggregate.
pub struct TopicStats {
    pub messages: usize,
    pub open: usize,
    pub requests: usize,
    pub stale: bool,
    /// The latest timestamp among its messages (`""` for none).
    pub last_ts: String,
}

pub open spec fn has_topic(m: TopicMsg, t: Seq<char>) -> bool {
    m.topic matches Some(x) && x@ == t
}

/// How many of the first `n` messages are in topic `t`.
pub open spec fn msg_count(ms: Seq<TopicMsg>, t: Seq<char>, n: int) -> nat
    decreases n,
{
    if n <= 0 {
        0
    } else {
        msg_count(ms, t, n - 1) + if has_topic(ms[n - 1], t) { 1nat } else { 0nat }
    }
}

/// The latest (greatest in `str` order) timestamp of the first `n` messages in topic `t`.
pub open spec fn latest_ts(ms: Seq<TopicMsg>, t: Seq<char>, n: int) -> Seq<char>
    decreases n,
{
    if n <= 0 {
        seq![]
    } else {
        let cur = latest_ts(ms, t, n - 1);
        if has_topic(ms[n - 1], t) && lex_lt(cur, ms[n - 1].ts@) {
            ms[n - 1].ts@
        } else {
            cur
        }
    }
}

/// The topic the id's message files under — the last message with that id wins — or `None`
/// when no message has the id.
pub open spec fn topic_of(ms: Seq<TopicMsg>, id: Seq<char>, n: int) -> Option<Option<Seq<char>>>
    decreases n,
{
    if n <= 0 {
        None
    } else if ms[n - 1].id@ == id {
        Some(opt_str(ms[n - 1].topic))
    } else {
        topic_of(ms, id, n - 1)
    }
}

pub open spec fn in_topic(ms: Seq<TopicMsg>, r: BoardRow, t: Seq<char>) -> bool {
    topic_of(ms, r.id@, ms.len() as int) == Some(Some(t))
}

/// How many of the first `n` board rows are requests in topic `t`, how many of those are
/// open, and whether any is stale.
pub open spec fn req_count(ms: Seq<TopicMsg>, rs: Seq<BoardRow>, t: Seq<char>, n: int) -> nat
    decreases n,
{
    if n <= 0 {
        0
    } else {
        req_count(ms, rs, t, n - 1) + if in_topic(ms, rs[n - 1], t) { 1nat } else { 0nat }
    }
}

pub open spec fn open_count(ms: Seq<TopicMsg>, rs: Seq<BoardRow>, t: Seq<char>, n: int) -> nat
    decreases n,
{
    if n <= 0 {
        0
    } else {
        open_count(ms, rs, t, n - 1) + if in_topic(ms, rs[n - 1], t) && rs[n - 1].open { 1nat } else { 0nat }
    }
}

pub open spec fn any_stale(ms: Seq<TopicMsg>, rs: Seq<BoardRow>, t: Seq<char>, n: int) -> bool
    decreases n,
{
    if n <= 0 {
        false
    } else {
        any_stale(ms, rs, t, n - 1) || (in_topic(ms, rs[n - 1], t) && rs[n - 1].stale)
    }
}

/// The topics of the first `n` messages.
pub open spec fn topic_set(ms: Seq<TopicMsg>, n: int) -> Set<Seq<char>> {
    Set::new(|t: Seq<char>| exists|i: int| 0 <= i < n && has_topic(#[trigger] ms[i], t))
}

/// The aggregate of topic `t` after `n` messages and `k` board rows.
pub open spec fn stats_ok(e: (String, TopicStats), ms: Seq<TopicMsg>, rs: Seq<BoardRow>, n: int, k: int) -> bool {
    let t = e.0@;
    &&& e.1.messages == msg_count(ms, t, n)
    &&& e.1.last_ts@ == latest_ts(ms, t, n)
    &&& e.1.requests == req_count(ms, rs, t, k)
    &&& e.1.open == open_count(ms, rs, t, k)
    &&& e.1.stale == any_stale(ms, rs, t, k)
}

proof fn lemma_absent_topic(ms: Seq<TopicMsg>, t: Seq<char>, n: int)
    requires
        0 <= n,
        !topic_set(ms, n).contains(t),
    ensures
        msg_count(ms, t, n) == 0,
        latest_ts(ms, t, n) == Seq::<char>::empty(),
    decreases n,
{
    if n > 0 {
        assert(!has_topic(ms[n - 1], t));
        assert(!topic_set(ms, n - 1).contains(t)) by {
            if topic_set(ms, n - 1).contains(t) {
                let i = choose|i: int| 0 <= i < n - 1 && has_topic(#[trigger] ms[i], t);
                assert(has_topic(ms[i], t));
            }
        }
        lemma_absent_topic(ms, t, n - 1);
    }
}

proof fn lemma_counts_bounded(ms: Seq<TopicMsg>, rs: Seq<BoardRow>, t: Seq<char>, n: int, k: int)
    requires
        0 <= n,
        0 <= k,
    ensures
        msg_count(ms, t, n) <= n,
        open_count(ms, rs, t, k) <= req_count(ms, rs, t, k) <= k,
    decreases n + k,
{
    if n > 0 {
        lemma_counts_bounded(ms, rs, t, n - 1, k);
    }
    if k > 0 {
        lemma_counts_bounded(ms, rs, t, 0, k - 1);
    }
}

/// Whether message `i`'s id is `id`, searched from the last message back.
fn topic_of_id(ms: &Vec<TopicMsg>, id: &String) -> (r: Option<Option<String>>)
    ensures
        match r {
            Some(t) => topic_of(ms@, id@, ms@.len() as int) == Some(opt_str(t)),
            None => topic_of(ms@, id@, ms@.len() as int) is None,
        },
{
    let mut i: usize = ms.len();
    while i > 0
        invariant
            0 <= i <= ms@.len(),
            topic_of(ms@, id@, ms@.len() as int) == topic_of(ms@, id@, i as int),
        decreases i,
    {
        if ms[i - 1].id == *id {
            return Some(ms[i - 1].topic.clone());
        }
        i -= 1;
    }
    None
}

/// The per-topic aggregates, one per topic that any message names, in topic order.
pub fn topic_stats(ms: &Vec<TopicMsg>, rs: &Vec<BoardRow>) -> (out: Vec<(String, TopicStats)>)
    ensures
        ascending(keys(out@)),
        keys(out@).to_set() == topic_set(ms@, ms@.len() as int),
        forall|a: int| 0 <= a < out@.len() ==> stats_ok(#[trigger] out@[a], ms@, rs@, ms@.len() as int, rs@.len() as int),
{
    let ghost mv = ms@;
    let ghost rv = rs@;
    let mut out: Vec<(String, TopicStats)> = Vec::new();
    let mut i: usize = 0;
    while i < ms.len()
        invariant
            0 <= i <= mv.len(),
            mv == ms@,
            ascending(keys(out@)),
            keys(out@).to_set() == topic_set(mv, i as int),
            forall|a: int| 0 <= a < out@.len() ==> stats_ok(#[trigger] out@[a], mv, rv, i as int, 0),
        decreases mv.len() - i,
    {
        let m = &ms[i];
        let ghost old_out = out@;
        assert forall|t: Seq<char>| topic_set(mv, i as int).contains(t) implies #[trigger] topic_set(mv, i + 1).contains(t) by {
            let j = choose|j: int| 0 <= j < i && has_topic(#[trigger] mv[j], t);
            assert(has_topic(mv[j], t));
        }
        match &m.topic {
            None => {
                assert(topic_set(mv, i + 1) =~= topic_set(mv, i as int)) by {
                    assert forall|t: Seq<char>| topic_set(mv, i + 1).contains(t) implies topic_set(mv, i as int).contains(t) by {
                        let j = choose|j: int| 0 <= j < i + 1 && has_topic(#[trigger] mv[j], t);
                        assert(j != i);
                        assert(has_topic(mv[j], t));
                    }
                }
                assert forall|a: int| 0 <= a < out@.len() implies stats_ok(#[trigger] out@[a], mv, rv, i + 1, 0) by {
                    assert(stats_ok(old_out[a], mv, rv, i as int, 0));
                }
            },
            Some(t) => {
                let ghost tv = t@;
                assert(has_topic(mv[i as int], tv));
                let (found, p) = locate(&out, t.as_str());
                if found {
                    proof {
                        lemma_counts_bounded(mv, rv, tv, i as int, 0);
                    }
                    let cur = &out[p].1;
                    let newer = less(chars_of(cur.last_ts.as_str()).as_slice(), chars_of(m.ts.as_str()).as_slice());
                    let stats = TopicStats {
                        messages: cur.messages + 1,
                        open: cur.open,
                        requests: cur.requests,
                        stale: cur.stale,
                        last_ts: if newer { m.ts.clone() } else { cur.last_ts.clone() },
                    };
                    let key = out[p].0.clone();
                    let ghost e = (key, stats);
                    proof {
                        lemma_update_keys(out@, p as int, e);
                    }
                    out.set(p, (key, stats));
                    assert(keys(out@).to_set() =~= topic_set(mv, i + 1)) by {
                        assert forall|x: Seq<char>| topic_set(mv, i + 1).contains(x) implies keys(out@).to_set().contains(x) by {
                            if x == tv {
                                assert(keys(out@)[p as int] == tv);
                            } else {
                                let j = choose|j: int| 0 <= j < i + 1 && has_topic(#[trigger] mv[j], x);
                                assert(j != i);
                                assert(topic_set(mv, i as int).contains(x));
                            }
                        }
                    }
                    assert forall|a: int| 0 <= a < out@.len() implies stats_ok(#[trigger] out@[a], mv, rv, i + 1, 0) by {
                        assert(stats_ok(old_out[a], mv, rv, i as int, 0));
                        if a != p {
                            assert(out@[a] == old_out[a]);
                            assert(old_out[a].0@ != tv) by {
                                assert(lex_lt(keys(old_out)[a], keys(old_out)[p as int]) || lex_lt(keys(old_out)[p as int], keys(old_out)[a]));
                                crate::text::lemma_lex_lt_irreflexive(tv);
                            }
                        }
                    }
                } else {
                    let stats = TopicStats { messages: 1, open: 0, requests: 0, stale: false, last_ts: m.ts.clone() };
                    proof {
                        lemma_absent_topic(mv, tv, i as int);
                        assert(!keys(old_out).to_set().contains(tv)) by {
                            if keys(old_out).to_set().contains(tv) {
                                let j = choose|j: int| 0 <= j < keys(old_out).len() && keys(old_out)[j] == tv;
                                assert(old_out[j].0@ == tv);
                            }
                        }
                        crate::text::lemma_lex_lt_total(Seq::<char>::empty(), m.ts@);
                        if m.ts@.len() > 0 {
                            assert(lex_lt(Seq::<char>::empty(), m.ts@));
                        } else {
                            assert(m.ts@ =~= Seq::<char>::empty());
                        }
                    }
                    let key = t.clone();
                    let ghost e = (key, stats);
                    proof {
                        lemma_insert_ascending(old_out, p as int, e);
                    }
                    out.insert(p, (key, stats));
                    assert(keys(out@).to_set() =~= topic_set(mv, i + 1)) by {
                        assert(keys(out@) == keys(old_out).insert(p as int, tv));
                        assert forall|x: Seq<char>| topic_set(mv, i + 1).contains(x) implies keys(out@).to_set().contains(x) by {
                            if x == tv {
                                assert(keys(out@)[p as int] == tv);
                            } else {
                                let j = choose|j: int| 0 <= j < i + 1 && has_topic(#[trigger] mv[j], x);
                                assert(j != i);
                                assert(topic_set(mv, i as int).contains(x));
                                let q = choose|q: int| 0 <= q < keys(old_out).len() && keys(old_out)[q] == x;
                                if q < p {
                                    assert(keys(out@)[q] == x);
                                } else {
                                    assert(keys(out@)[q + 1] == x);
                                }
                            }
                        }
                        assert forall|x: Seq<char>| keys(out@).to_set().contains(x) implies topic_set(mv, i + 1).contains(x) by {
                            let q = choose|q: int| 0 <= q < keys(out@).len() && keys(out@)[q] == x;
                            if q == p {
                                assert(has_topic(mv[i as int], x));
                            } else if q < p {
                                assert(keys(old_out)[q] == x);
                                assert(keys(old_out).to_set().contains(x));
                            } else {
                                assert(keys(old_out)[q - 1] == x);
                                assert(keys(old_out).to_set().contains(x));
                            }
                        }
                    }
                    assert forall|a: int| 0 <= a < out@.len() implies stats_ok(#[trigger] out@[a], mv, rv, i + 1, 0) by {
                        if a < p {
                            assert(out@[a] == old_out[a]);
                            assert(stats_ok(old_out[a], mv, rv, i as int, 0));
                            assert(old_out[a].0@ != tv);
                        } else if a > p {
                            assert(out@[a] == old_out[a - 1]);
                            assert(stats_ok(old_out[a - 1], mv, rv, i as int, 0));
                            assert(old_out[a - 1].0@ != tv);
                        }
                    }
                }
            },
        }
        i += 1;
    }
    let mut k: usize = 0;
    while k < rs.len()
        invariant
            0 <= k <= rv.len(),
            mv == ms@,
            rv == rs@,
            ascending(keys(out@)),
            keys(out@).to_set() == topic_set(mv, mv.len() as int),
            forall|a: int| 0 <= a < out@.len() ==> stats_ok(#[trigger] out@[a], mv, rv, mv.len() as int, k as int),
        decreases rv.len() - k,
    {
        let r = &rs[k];
        let ghost old_out = out@;
        match topic_of_id(ms, &r.id) {
            Some(Some(t)) => {
                let ghost tv = t@;
                let (found, p) = locate(&out, t.as_str());
                proof {
                    topic_of_has_topic(mv, r.id@, mv.len() as int);
                    assert(topic_set(mv, mv.len() as int).contains(tv));
                    if !found {
                        assert(keys(out@).to_set().contains(tv));
                        let q = choose|q: int| 0 <= q < keys(out@).len() && keys(out@)[q] == tv;
                        assert(out@[q].0@ == tv);
                    }
                    lemma_counts_bounded(mv, rv, tv, 0, k as int);
                }
                let cur = &out[p].1;
                let stats = TopicStats {
                    messages: cur.messages,
                    open: if r.open { cur.open + 1 } else { cur.open },
                    requests: cur.requests + 1,
                    stale: cur.stale || r.stale,
                    last_ts: cur.last_ts.clone(),
                };
                let key = out[p].0.clone();
                let ghost e = (key, stats);
                proof {
                    lemma_update_keys(out@, p as int, e);
                }
                out.set(p, (key, stats));
                assert forall|a: int| 0 <= a < out@.len() implies stats_ok(#[trigger] out@[a], mv, rv, mv.len() as int, k + 1) by {
                    assert(stats_ok(old_out[a], mv, rv, mv.len() as int, k as int));
                    if a != p {
                        assert(out@[a] == old_out[a]);
                        assert(old_out[a].0@ != tv) by {
                            assert(lex_lt(keys(old_out)[a], keys(old_out)[p as int]) || lex_lt(keys(old_out)[p as int], keys(old_out)[a]));
                            crate::text::lemma_lex_lt_irreflexive(tv);
                        }
                    }
                }
            },
            _ => {
                assert forall|a: int| 0 <= a < out@.len() implies stats_ok(#[trigger] out@[a], mv, rv, mv.len() as int, k + 1) by {
                    assert(stats_ok(old_out[a], mv, rv, mv.len() as int, k as int));
                }
            },
        }
        k += 1;
    }
    out
}

/// A topic the id's message files under is a topic of some message.
proof fn topic_of_has_topic(ms: Seq<TopicMsg>, id: Seq<char>, n: int)
    requires
        0 <= n <= ms.len(),
    ensures
        topic_of(ms, id, n) matches Some(Some(t)) ==> topic_set(ms, n).contains(t),
    decreases n,
{
    if n > 0 {
        topic_of_has_topic(ms, id, n - 1);
        if ms[n - 1].id@ != id {
            match topic_of(ms, id, n - 1) {
                Some(Some(t)) => {
                    let j = choose|j: int| 0 <= j < n - 1 && has_topic(#[trigger] ms[j], t);
                    assert(has_topic(ms[j], t));
                },
                _ => {},
            }
        } else {
            match topic_of(ms, id, n) {
                Some(Some(t)) => {
                    assert(has_topic(ms[n - 1], t));
                },
                _ => {},
            }
        }
    }
}

/// A topic's status on the board: plain discussion when it holds no request, `closed` when
/// none is open, else `open`.
pub open spec fn topic_status_spec(s: TopicStats) -> Seq<char> {
    if s.requests == 0 {
        "discussion"@
    } else if s.open == 0 {
        "closed"@
    } else {
        "open"@
    }
}

pub fn topic_status(s: &TopicStats) -> (r: &'static str)
    ensures
        r@ == topic_status_spec(*s),
{
    if s.requests == 0 {
        "discussion"
    } else if s.open == 0 {
        "closed"
    } else {
        "open"
    }
}

} // verus!
