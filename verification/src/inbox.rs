//! Per-message READ state for directly-addressed mail: which specific messages this
//! (hub, role) has opened. Represented as a FLOOR (everything with `id <= floor` is read) plus
//! a sparse set of individually-opened ids above it — the "holes" opened out of order while
//! older mail is deferred. Emit is not read: only an explicit open or dismiss marks mail read.
use vstd::prelude::*;
use crate::text::strs;
use crate::groups::{directly_addressed, directly_addressed_spec, Groups, Message};
use crate::text::{ascii_digit, chars_of, decimal_i64, dec_int, is_ascii_digit, is_ascii_upper, less, lex_le, lex_lt, lemma_lex_lt_total, lemma_lex_lt_transitive, same, string_of, tdiv, trunc_div};

verus! {

// ====================================================================== ids

/// A Crockford-base32 character as ULIDs use it (digits and upper-case letters other than
/// `I`, `L`, `O`, `U`).
pub open spec fn ulid_char(c: char) -> bool {
    is_ascii_digit(c) || (is_ascii_upper(c) && c != 'I' && c != 'L' && c != 'O' && c != 'U')
}

/// A message id is a 26-char Crockford-base32 ULID.
pub open spec fn ulid_shape(s: Seq<char>) -> bool {
    s.len() == 26 && forall|i: int| 0 <= i < s.len() ==> ulid_char(#[trigger] s[i])
}

fn ulid_chars(s: &[char]) -> (r: bool)
    ensures
        r == ulid_shape(s@),
{
    if s.len() != 26 {
        return false;
    }
    let mut i: usize = 0;
    while i < s.len()
        invariant
            0 <= i <= s@.len(),
            forall|k: int| 0 <= k < i ==> ulid_char(#[trigger] s@[k]),
        decreases s@.len() - i,
    {
        let c = s[i];
        let ok = ascii_digit(c) || ('A' <= c && c <= 'Z' && c != 'I' && c != 'L' && c != 'O' && c != 'U');
        if !ok {
            assert(!ulid_char(s@[i as int]));
            return false;
        }
        i += 1;
    }
    true
}

/// Is `id` shaped like a ULID (26 Crockford-base32 characters)?
pub fn is_ulid(id: &str) -> (r: bool)
    ensures
        r == ulid_shape(id@),
{
    let c = chars_of(id);
    ulid_chars(c.as_slice())
}

// ====================================================================== read state

/// The read state for one (hub, role).
pub struct ReadState {
    pub floor: Option<String>,
    pub opened: Vec<String>,
}

pub open spec fn opt_str(o: Option<String>) -> Option<Seq<char>> {
    match o {
        Some(s) => Some(s@),
        None => None,
    }
}

/// Read: folded under the floor, or explicitly opened.
pub open spec fn read_in(floor: Option<Seq<char>>, opened: Seq<Seq<char>>, id: Seq<char>) -> bool {
    (floor matches Some(f) && lex_le(id, f)) || opened.contains(id)
}

impl ReadState {
    pub open spec fn floor_view(&self) -> Option<Seq<char>> {
        opt_str(self.floor)
    }

    pub open spec fn opened_view(&self) -> Seq<Seq<char>> {
        strs(self.opened@)
    }

    pub open spec fn reads(&self, id: Seq<char>) -> bool {
        read_in(self.floor_view(), self.opened_view(), id)
    }

    /// Nothing read yet.
    pub fn new() -> (st: ReadState)
        ensures
            st.floor is None,
            st.opened@.len() == 0,
    {
        ReadState { floor: None, opened: Vec::new() }
    }

    /// Is this message id already read — folded under the floor, or explicitly opened?
    pub fn is_read(&self, id: &str) -> (r: bool)
        ensures
            r == self.reads(id@),
    {
        let ic = chars_of(id);
        let under = match &self.floor {
            Some(f) => {
                let fc = chars_of(f.as_str());
                same(ic.as_slice(), fc.as_slice()) || less(ic.as_slice(), fc.as_slice())
            },
            None => false,
        };
        under || opened_holds(&self.opened, ic.as_slice())
    }
}

fn opened_holds(v: &Vec<String>, w: &[char]) -> (r: bool)
    ensures
        r == strs(v@).contains(w@),
{
    let mut i: usize = 0;
    while i < v.len()
        invariant
            0 <= i <= v@.len(),
            forall|k: int| 0 <= k < i ==> strs(v@)[k] != w@,
        decreases v@.len() - i,
    {
        let c = chars_of(v[i].as_str());
        if same(c.as_slice(), w) {
            assert(strs(v@)[i as int] == w@);
            return true;
        }
        i += 1;
    }
    false
}

/// Mark ONE message read — an explicit open (`show`) or dismiss (`ack <id>`). Only a real
/// ULID that is not already read is added to `opened`. Returns whether the state changed
/// (and so needs saving).
pub fn mark_read(st: &mut ReadState, role: &str, id: &str) -> (changed: bool)
    ensures
        changed == (role@.len() > 0 && ulid_shape(id@) && !old(st).reads(id@)),
        final(st).floor == old(st).floor,
        final(st).opened_view() == (if changed {
            old(st).opened_view().push(id@)
        } else {
            old(st).opened_view()
        }),
        // Opening one message reads that message and no other.
        changed ==> final(st).reads(id@),
        forall|x: Seq<char>| x != id@ ==> (#[trigger] final(st).reads(x) == old(st).reads(x)),
{
    if role.is_empty() || !is_ulid(id) {
        return false;
    }
    if st.is_read(id) {
        return false;
    }
    let ghost pre = st.opened_view();
    st.opened.push(id.to_owned());
    assert(st.opened_view() =~= pre.push(id@));
    assert(st.opened_view()[pre.len() as int] == id@);
    assert forall|x: Seq<char>| x != id@ implies #[trigger] st.reads(x) == old(st).reads(x) by {
        if pre.contains(x) {
            let k = choose|k: int| 0 <= k < pre.len() && pre[k] == x;
            assert(st.opened_view()[k] == x);
        }
        if st.opened_view().contains(x) {
            let k = choose|k: int| 0 <= k < st.opened_view().len() && st.opened_view()[k] == x;
            assert(pre[k] == x);
        }
    }
    true
}

/// Mark EVERYTHING up to `latest` read — a bulk catch-up (`ack` with no id). Advances the
/// floor (forward-only) and drops the now-subsumed opened ids. Returns whether the state
/// was touched (and so needs saving).
pub fn mark_all_read(st: &mut ReadState, role: &str, latest: &str) -> (changed: bool)
    ensures
        changed == (role@.len() > 0 && ulid_shape(latest@)),
        !changed ==> final(st).floor == old(st).floor && final(st).opened@ == old(st).opened@,
        changed ==> final(st).floor_view() == (match old(st).floor_view() {
            Some(f) => if lex_lt(f, latest@) { Some(latest@) } else { Some(f) },
            None => Some(latest@),
        }),
        changed ==> final(st).opened_view() == old(st).opened_view().filter(
            |x: Seq<char>| lex_lt(latest@, x),
        ),
        // Everything up to `latest` is read afterwards, and nothing read becomes unread.
        changed ==> forall|x: Seq<char>| lex_le(x, latest@) ==> #[trigger] final(st).reads(x),
        forall|x: Seq<char>| old(st).reads(x) ==> #[trigger] final(st).reads(x),
{
    if role.is_empty() || !is_ulid(latest) {
        return false;
    }
    let lc = chars_of(latest);
    let raise = match &st.floor {
        Some(f) => {
            let fc = chars_of(f.as_str());
            less(fc.as_slice(), lc.as_slice())
        },
        None => true,
    };
    let ghost old_floor = st.floor_view();
    let ghost old_open = st.opened_view();
    if raise {
        st.floor = Some(latest.to_owned());
    }
    let ghost keep = |x: Seq<char>| lex_lt(latest@, x);
    let mut kept: Vec<String> = Vec::new();
    let mut i: usize = 0;
    while i < st.opened.len()
        invariant
            0 <= i <= st.opened@.len(),
            lc@ == latest@,
            strs(st.opened@) == old_open,
            keep == (|x: Seq<char>| lex_lt(latest@, x)),
            strs(kept@) == old_open.take(i as int).filter(keep),
        decreases st.opened@.len() - i,
    {
        let ghost t = old_open.take(i as int);
        assert(old_open.take(i + 1) =~= t.push(st.opened@[i as int]@));
        proof {
            t.lemma_filter_push(st.opened@[i as int]@, keep);
        }
        let oc = chars_of(st.opened[i].as_str());
        if less(lc.as_slice(), oc.as_slice()) {
            kept.push(st.opened[i].clone());
            assert(strs(kept@) =~= old_open.take(i + 1).filter(keep));
        }
        i += 1;
    }
    assert(old_open.take(old_open.len() as int) =~= old_open);
    st.opened = kept;
    proof {
        let nf = st.floor_view();
        assert(nf matches Some(f) && lex_le(latest@, f)) by {
            if !raise {
                let f = old_floor.unwrap();
                lemma_lex_lt_total(f, latest@);
            }
        }
        assert forall|x: Seq<char>| lex_le(x, latest@) implies #[trigger] st.reads(x) by {
            let f = nf.unwrap();
            if x != latest@ && f != latest@ {
                lemma_lex_lt_transitive(x, latest@, f);
            }
        }
        assert forall|x: Seq<char>| read_in(old_floor, old_open, x) implies #[trigger] st.reads(x) by {
            let f = nf.unwrap();
            if old_floor is Some && lex_le(x, old_floor.unwrap()) {
                let of = old_floor.unwrap();
                if raise {
                    if x != of {
                        lemma_lex_lt_transitive(x, of, latest@);
                    }
                }
            } else {
                let k = choose|k: int| 0 <= k < old_open.len() && old_open[k] == x;
                if lex_lt(latest@, x) {
                    old_open.lemma_filter_contains(keep, k);
                } else {
                    lemma_lex_lt_total(latest@, x);
                    if x != latest@ && f != latest@ {
                        lemma_lex_lt_transitive(x, latest@, f);
                    }
                }
            }
        }
    }
    true
}

/// Garbage-collect the read state: drop `opened` ids already subsumed by the floor, or
/// whose message is no longer a candidate (`candidates` = every direct-to-me message id in
/// the log). The floor is never moved. Returns the compacted state and whether it differs
/// (and so needs saving).
pub fn compact_and_save(st: &ReadState, candidates: &[String]) -> (r: (ReadState, bool))
    ensures
        r.0.floor == st.floor,
        r.0.opened_view() == st.opened_view().filter(
            |x: Seq<char>|
                (st.floor_view() is None || lex_lt(st.floor_view().unwrap(), x)) && strs(
                    candidates@,
                ).contains(x),
        ),
        r.1 == (r.0.opened@.len() != st.opened@.len()),
        // Compaction never changes whether a live candidate counts as read.
        forall|i: int| 0 <= i < candidates@.len() ==> #[trigger] r.0.reads(candidates@[i]@) == st.reads(candidates@[i]@),
{
    let ghost live = strs(candidates@);
    let ghost fl = st.floor_view();
    let ghost keep = |x: Seq<char>| (fl is None || lex_lt(fl.unwrap(), x)) && live.contains(x);
    let fc: Option<Vec<char>> = match &st.floor {
        Some(f) => Some(chars_of(f.as_str())),
        None => None,
    };
    let mut kept: Vec<String> = Vec::new();
    let mut i: usize = 0;
    while i < st.opened.len()
        invariant
            0 <= i <= st.opened@.len(),
            live == strs(candidates@),
            fl == st.floor_view(),
            fc matches Some(v) ==> fl == Some(v@),
            fc is None ==> fl is None,
            keep == (|x: Seq<char>| (fl is None || lex_lt(fl.unwrap(), x)) && live.contains(x)),
            strs(kept@) == st.opened_view().take(i as int).filter(keep),
        decreases st.opened@.len() - i,
    {
        let ghost t = st.opened_view().take(i as int);
        assert(st.opened_view().take(i + 1) =~= t.push(st.opened@[i as int]@));
        proof {
            t.lemma_filter_push(st.opened@[i as int]@, keep);
        }
        let oc = chars_of(st.opened[i].as_str());
        let above = match &fc {
            Some(f) => less(f.as_slice(), oc.as_slice()),
            None => true,
        };
        if above && candidates_hold(candidates, oc.as_slice()) {
            kept.push(st.opened[i].clone());
            assert(strs(kept@) =~= st.opened_view().take(i + 1).filter(keep));
        }
        i += 1;
    }
    assert(st.opened_view().take(st.opened@.len() as int) =~= st.opened_view());
    let changed = kept.len() != st.opened.len();
    let out = ReadState { floor: st.floor.clone(), opened: kept };
    proof {
        assert forall|i: int| 0 <= i < candidates@.len() implies #[trigger] out.reads(candidates@[i]@) == st.reads(
            candidates@[i]@,
        ) by {
            let x = candidates@[i]@;
            assert(live[i] == x);
            if st.opened_view().contains(x) {
                let k = choose|k: int| 0 <= k < st.opened_view().len() && st.opened_view()[k] == x;
                if fl is None || lex_lt(fl.unwrap(), x) {
                    st.opened_view().lemma_filter_contains(keep, k);
                } else {
                    lemma_lex_lt_total(fl.unwrap(), x);
                }
            }
            if out.opened_view().contains(x) {
                st.opened_view().lemma_filter_contains_rev(keep, x);
            }
        }
    }
    (out, changed)
}

fn candidates_hold(v: &[String], w: &[char]) -> (r: bool)
    ensures
        r == strs(v@).contains(w@),
{
    let mut i: usize = 0;
    while i < v.len()
        invariant
            0 <= i <= v@.len(),
            forall|k: int| 0 <= k < i ==> strs(v@)[k] != w@,
        decreases v@.len() - i,
    {
        let c = chars_of(v[i].as_str());
        if same(c.as_slice(), w) {
            assert(strs(v@)[i as int] == w@);
            return true;
        }
        i += 1;
    }
    false
}

// ====================================================================== listing

/// Where a stable sort by id puts a new element with key `key`: before the first element
/// whose id is strictly greater.
pub open spec fn ins_pos(ids: Seq<Seq<char>>, key: Seq<char>, from: int) -> int
    decreases ids.len() - from,
{
    if from < 0 || from >= ids.len() {
        ids.len() as int
    } else if lex_lt(key, ids[from]) {
        from
    } else {
        ins_pos(ids, key, from + 1)
    }
}

pub open spec fn msg_ids(s: Seq<Message>) -> Seq<Seq<char>> {
    s.map_values(|m: Message| m.id@)
}

/// `s` stably sorted by id (insertion sort, left to right).
pub open spec fn sort_by_id(s: Seq<Message>) -> Seq<Message>
    decreases s.len(),
{
    if s.len() == 0 {
        s
    } else {
        let t = sort_by_id(s.drop_last());
        t.insert(ins_pos(msg_ids(t), s.last().id@, 0), s.last())
    }
}

/// `s` sorted ascending (equal strings are identical, so order among them does not matter).
pub open spec fn sort_ids(s: Seq<Seq<char>>) -> Seq<Seq<char>>
    decreases s.len(),
{
    if s.len() == 0 {
        s
    } else {
        let t = sort_ids(s.drop_last());
        t.insert(ins_pos(t, s.last(), 0), s.last())
    }
}

/// A message the inbox lists for `me`: direct to me, not from me, not yet read.
pub open spec fn unread_pred(me: Seq<char>, g: Groups, st: ReadState) -> spec_fn(Message) -> bool {
    |m: Message| m.from@ != me && directly_addressed_spec(m, me, g) && !st.reads(m.id@)
}

pub open spec fn direct_pred(me: Seq<char>, g: Groups) -> spec_fn(Message) -> bool {
    |m: Message| m.from@ != me && directly_addressed_spec(m, me, g)
}

pub open spec fn derefs(s: Seq<&Message>) -> Seq<Message> {
    s.map_values(|m: &Message| *m)
}

proof fn lemma_ins_pos_bound(ids: Seq<Seq<char>>, key: Seq<char>, from: int)
    requires
        0 <= from,
    ensures
        ins_pos(ids, key, from) <= ids.len(),
    decreases ids.len() - from,
{
    if from < ids.len() && !lex_lt(key, ids[from]) {
        lemma_ins_pos_bound(ids, key, from + 1);
    }
}

fn find_ins_pos(out: &Vec<&Message>, key: &[char]) -> (p: usize)
    ensures
        p == ins_pos(msg_ids(derefs(out@)), key@, 0),
        p <= out@.len(),
{
    let ghost ids = msg_ids(derefs(out@));
    let mut p: usize = 0;
    while p < out.len()
        invariant
            0 <= p <= out@.len(),
            ids == msg_ids(derefs(out@)),
            ins_pos(ids, key@, 0) == ins_pos(ids, key@, p as int),
        decreases out@.len() - p,
    {
        let c = chars_of(out[p].id.as_str());
        assert(ids[p as int] == c@);
        if less(key, c.as_slice()) {
            return p;
        }
        p += 1;
    }
    proof {
        lemma_ins_pos_bound(ids, key@, 0);
    }
    p
}

/// Directly-addressed mail I haven't read yet — messages where I'm a literal `to` recipient
/// (or a member of a group in `to`), not from me, not in my read state — sorted by id.
pub fn unread_for_me<'a>(msgs: &'a [Message], me: &str, groups: &Groups, st: &ReadState) -> (out: Vec<&'a Message>)
    ensures
        derefs(out@) == sort_by_id(msgs@.filter(unread_pred(me@, *groups, *st))),
{
    let ghost pred = unread_pred(me@, *groups, *st);
    let mc = chars_of(me);
    let mut out: Vec<&Message> = Vec::new();
    let mut i: usize = 0;
    while i < msgs.len()
        invariant
            0 <= i <= msgs@.len(),
            mc@ == me@,
            pred == unread_pred(me@, *groups, *st),
            derefs(out@) == sort_by_id(msgs@.take(i as int).filter(pred)),
        decreases msgs@.len() - i,
    {
        let m = &msgs[i];
        let ghost t = msgs@.take(i as int);
        assert(msgs@.take(i + 1) =~= t.push(*m));
        proof {
            t.lemma_filter_push(*m, pred);
        }
        let fc = chars_of(m.from.as_str());
        if !same(fc.as_slice(), mc.as_slice()) && directly_addressed(m, me, groups) && !st.is_read(
            m.id.as_str(),
        ) {
            let ghost f = t.filter(pred);
            let ghost f2 = f.push(*m);
            assert(f2.drop_last() =~= f);
            let key = chars_of(m.id.as_str());
            let p = find_ins_pos(&out, key.as_slice());
            let ghost prev = derefs(out@);
            out.insert(p, m);
            assert(derefs(out@) =~= prev.insert(p as int, *m));
            assert(f2.last() == *m);
            assert(derefs(out@) =~= sort_by_id(f2));
        }
        i += 1;
    }
    assert(msgs@.take(msgs@.len() as int) =~= msgs@);
    out
}

fn find_id_pos(out: &Vec<String>, key: &[char]) -> (p: usize)
    ensures
        p == ins_pos(strs(out@), key@, 0),
        p <= out@.len(),
{
    let ghost ids = strs(out@);
    let mut p: usize = 0;
    while p < out.len()
        invariant
            0 <= p <= out@.len(),
            ids == strs(out@),
            ins_pos(ids, key@, 0) == ins_pos(ids, key@, p as int),
        decreases out@.len() - p,
    {
        let c = chars_of(out[p].as_str());
        assert(ids[p as int] == c@);
        if less(key, c.as_slice()) {
            return p;
        }
        p += 1;
    }
    proof {
        lemma_ins_pos_bound(ids, key@, 0);
    }
    p
}

/// Every direct-to-me message id (ULIDs only), ascending — the candidate universe for
/// [`compact_and_save`].
pub fn direct_ids_for_me(msgs: &[Message], me: &str, groups: &Groups) -> (ids: Vec<String>)
    ensures
        strs(ids@) == sort_ids(
            msg_ids(msgs@.filter(direct_pred(me@, *groups))).filter(|s: Seq<char>| ulid_shape(s)),
        ),
{
    let ghost pred = direct_pred(me@, *groups);
    let ghost isu = |s: Seq<char>| ulid_shape(s);
    let mc = chars_of(me);
    let mut out: Vec<String> = Vec::new();
    let mut i: usize = 0;
    while i < msgs.len()
        invariant
            0 <= i <= msgs@.len(),
            mc@ == me@,
            pred == direct_pred(me@, *groups),
            isu == (|s: Seq<char>| ulid_shape(s)),
            strs(out@) == sort_ids(msg_ids(msgs@.take(i as int).filter(pred)).filter(isu)),
        decreases msgs@.len() - i,
    {
        let m = &msgs[i];
        let ghost t = msgs@.take(i as int);
        assert(msgs@.take(i + 1) =~= t.push(*m));
        proof {
            t.lemma_filter_push(*m, pred);
        }
        let fc = chars_of(m.from.as_str());
        if !same(fc.as_slice(), mc.as_slice()) && directly_addressed(m, me, groups) {
            let ghost ids0 = msg_ids(t.filter(pred));
            assert(msg_ids(t.filter(pred).push(*m)) =~= ids0.push(m.id@));
            proof {
                ids0.lemma_filter_push(m.id@, isu);
            }
            if is_ulid(m.id.as_str()) {
                let ghost f = ids0.filter(isu);
                let ghost f2 = f.push(m.id@);
                assert(f2.drop_last() =~= f);
                let key = chars_of(m.id.as_str());
                let p = find_id_pos(&out, key.as_slice());
                let ghost prev = strs(out@);
                let idc = m.id.clone();
                out.insert(p, idc);
                assert(strs(out@) =~= prev.insert(p as int, m.id@));
                assert(f2.last() == m.id@);
                assert(strs(out@) =~= sort_ids(f2));
            }
        }
        i += 1;
    }
    assert(msgs@.take(msgs@.len() as int) =~= msgs@);
    out
}

/// Is `x` the greatest ULID-shaped id in `msgs`?
pub open spec fn is_latest(msgs: Seq<Message>, x: Seq<char>) -> bool {
    &&& ulid_shape(x)
    &&& exists|i: int| 0 <= i < msgs.len() && (#[trigger] msgs[i]).id@ == x
    &&& forall|i: int| 0 <= i < msgs.len() && ulid_shape((#[trigger] msgs[i]).id@) ==> lex_le(msgs[i].id@, x)
}

/// The newest message id in the log (the "caught up to here" mark for a bulk read).
pub fn latest_id(msgs: &[Message]) -> (r: Option<String>)
    ensures
        r matches Some(x) ==> is_latest(msgs@, x@),
        r is None ==> forall|i: int| 0 <= i < msgs@.len() ==> !ulid_shape((#[trigger] msgs@[i]).id@),
{
    let mut best: Option<String> = None;
    let mut bc: Vec<char> = Vec::new();
    let mut i: usize = 0;
    while i < msgs.len()
        invariant
            0 <= i <= msgs@.len(),
            best matches Some(x) ==> is_latest(msgs@.take(i as int), x@) && bc@ == x@,
            best is None ==> forall|k: int| 0 <= k < i ==> !ulid_shape((#[trigger] msgs@[k]).id@),
        decreases msgs@.len() - i,
    {
        let ghost t = msgs@.take(i as int);
        let ghost t2 = msgs@.take(i + 1);
        assert(forall|k: int| 0 <= k < i ==> t2[k] == t[k]);
        assert(t2[i as int] == msgs@[i as int]);
        let c = chars_of(msgs[i].id.as_str());
        if ulid_chars(c.as_slice()) {
            let take = match &best {
                Some(_) => less(bc.as_slice(), c.as_slice()),
                None => true,
            };
            if take {
                proof {
                    if best is Some {
                        let x = best.unwrap()@;
                        assert forall|k: int| 0 <= k < t2.len() && ulid_shape((#[trigger] t2[k]).id@) implies lex_le(
                            t2[k].id@,
                            c@,
                        ) by {
                            if k < i {
                                assert(lex_le(t[k].id@, x));
                                if t[k].id@ != x {
                                    lemma_lex_lt_transitive(t[k].id@, x, c@);
                                }
                            }
                        }
                    } else {
                        assert forall|k: int| 0 <= k < t2.len() && ulid_shape((#[trigger] t2[k]).id@) implies lex_le(
                            t2[k].id@,
                            c@,
                        ) by {
                            if k < i {
                                assert(!ulid_shape(msgs@[k].id@));
                            }
                        }
                    }
                    assert(t2[i as int].id@ == c@);
                }
                best = Some(msgs[i].id.clone());
                bc = c;
            } else {
                proof {
                    let x = best.unwrap()@;
                    lemma_lex_lt_total(x, c@);
                    let j = choose|j: int| 0 <= j < t.len() && (#[trigger] t[j]).id@ == x;
                    assert(t2[j].id@ == x);
                }
            }
        } else {
            proof {
                if best is Some {
                    let x = best.unwrap()@;
                    let j = choose|j: int| 0 <= j < t.len() && (#[trigger] t[j]).id@ == x;
                    assert(t2[j].id@ == x);
                }
            }
        }
        i += 1;
    }
    assert(msgs@.take(msgs@.len() as int) =~= msgs@);
    best
}

/// `Display` of a compact relative age: `12m` / `3h` / `5d`.
pub open spec fn age_text(secs: int) -> Seq<char> {
    if secs < 3600 {
        dec_int(tdiv(secs, 60)).push('m')
    } else if secs < 86400 {
        dec_int(tdiv(secs, 3600)).push('h')
    } else {
        dec_int(tdiv(secs, 86400)).push('d')
    }
}

/// Compact relative age: `12m` / `3h` / `5d`.
pub fn fmt_age(secs: i64) -> (r: String)
    ensures
        r@ == age_text(secs as int),
{
    let mut v = if secs < 3600 {
        decimal_i64(trunc_div(secs, 60))
    } else if secs < 86400 {
        decimal_i64(trunc_div(secs, 3600))
    } else {
        decimal_i64(trunc_div(secs, 86400))
    };
    let unit = if secs < 3600 { 'm' } else if secs < 86400 { 'h' } else { 'd' };
    v.push(unit);
    string_of(v.as_slice())
}

} // verus!
