//! Agent groups: a named set of role ids. A message target (`to`/`cc`) may be a role id, a
//! group name, or the reserved `all`.
use vstd::prelude::*;
use crate::text::strs;
use crate::text::{chars_of, same, string_of, opt_str};

verus! {

/// The addressing part of a hub message.
pub struct Message {
    pub id: String,
    pub from: String,
    pub to: Vec<String>,
    pub cc: Vec<String>,
}

/// group name → member role ids, in definition order.
pub struct Groups {
    pub entries: Vec<(String, Vec<String>)>,
}

/// The members of the first group named `name`.
pub open spec fn members_from(e: Seq<(String, Vec<String>)>, name: Seq<char>, from: int) -> Option<Seq<Seq<char>>>
    decreases e.len() - from,
{
    if from < 0 || from >= e.len() {
        None
    } else if e[from].0@ == name {
        Some(strs(e[from].1@))
    } else {
        members_from(e, name, from + 1)
    }
}

pub open spec fn members(g: Groups, name: Seq<char>) -> Option<Seq<Seq<char>>> {
    members_from(g.entries@, name, 0)
}

/// `target` names a group that has `me` as a member.
pub open spec fn via_group(g: Groups, target: Seq<char>, me: Seq<char>) -> bool {
    match members(g, target) {
        Some(ms) => ms.contains(me),
        None => false,
    }
}

pub open spec fn all_word() -> Seq<char> {
    seq!['a', 'l', 'l']
}

/// Is `me` addressed by `m` — as a literal recipient (`to` or `cc`), via `all`, or as a
/// member of a group named in `to`/`cc`?
pub open spec fn addressed_spec(m: Message, me: Seq<char>, g: Groups) -> bool {
    let targets = strs(m.to@) + strs(m.cc@);
    targets.contains(me) || targets.contains(all_word()) || exists|i: int|
        0 <= i < targets.len() && via_group(g, #[trigger] targets[i], me)
}

/// Is `me` a direct addressee — named in `to` or a member of a group named in `to`?
pub open spec fn directly_addressed_spec(m: Message, me: Seq<char>, g: Groups) -> bool {
    exists|i: int|
        0 <= i < m.to@.len() && (m.to@[i]@ == me || via_group(g, #[trigger] m.to@[i]@, me))
}

impl Groups {
    /// No two entries share a group name, as in a map from names to members.
    pub open spec fn wf(self) -> bool {
        forall|i: int, j: int| 0 <= i < j < self.entries@.len() ==> (#[trigger] self.entries@[i]).0@ != (#[trigger] self.entries@[j]).0@
    }

    pub fn new() -> (g: Groups)
        ensures
            g.entries@.len() == 0,
            g.wf(),
    {
        Groups { entries: Vec::new() }
    }

    /// Define (or redefine) a group.
    pub fn insert(&mut self, name: String, members_of: Vec<String>)
        requires
            old(self).wf(),
        ensures
            final(self).wf(),
            members(*final(self), name@) == Some(strs(members_of@)),
    {
        let key = chars_of(name.as_str());
        let mut i: usize = 0;
        while i < self.entries.len()
            invariant
                0 <= i <= self.entries@.len(),
                key@ == name@,
                self.wf(),
                forall|k: int| 0 <= k < i ==> self.entries@[k].0@ != name@,
            decreases self.entries@.len() - i,
        {
            let e = chars_of(self.entries[i].0.as_str());
            if same(e.as_slice(), key.as_slice()) {
                let ghost pre = self.entries@;
                self.entries.set(i, (name, members_of));
                proof {
                    assert forall|a: int, b: int| 0 <= a < b < self.entries@.len() implies (#[trigger] self.entries@[a]).0@
                        != (#[trigger] self.entries@[b]).0@ by {
                        assert(pre[a].0@ != pre[b].0@);
                        assert(pre[i as int].0@ == name@);
                    }
                    lemma_members_prefix(self.entries@, name@, i as int);
                }
                return;
            }
            i += 1;
        }
        let ghost pre = self.entries@;
        self.entries.push((name, members_of));
        proof {
            assert forall|a: int, b: int| 0 <= a < b < self.entries@.len() implies (#[trigger] self.entries@[a]).0@
                != (#[trigger] self.entries@[b]).0@ by {
                if b < pre.len() {
                    assert(pre[a].0@ != pre[b].0@);
                } else {
                    assert(self.entries@[a] == pre[a]);
                }
            }
            lemma_members_prefix(self.entries@, name@, i as int);
        }
    }
}

proof fn lemma_members_prefix(e: Seq<(String, Vec<String>)>, name: Seq<char>, i: int)
    requires
        0 <= i < e.len(),
        e[i].0@ == name,
        forall|k: int| 0 <= k < i ==> e[k].0@ != name,
    ensures
        members_from(e, name, 0) == Some(strs(e[i].1@)),
{
    lemma_members_skip(e, name, 0, i);
}

proof fn lemma_members_skip(e: Seq<(String, Vec<String>)>, name: Seq<char>, from: int, i: int)
    requires
        0 <= from <= i < e.len(),
        e[i].0@ == name,
        forall|k: int| 0 <= k < i ==> e[k].0@ != name,
    ensures
        members_from(e, name, from) == Some(strs(e[i].1@)),
    decreases i - from,
{
    if from < i {
        lemma_members_skip(e, name, from + 1, i);
    }
}

/// The members of group `name`, if it is defined.
pub fn group_members<'a>(g: &'a Groups, name: &[char]) -> (r: Option<&'a Vec<String>>)
    ensures
        r matches Some(v) ==> members(*g, name@) == Some(strs(v@)),
        r is None ==> members(*g, name@) is None,
{
    let mut i: usize = 0;
    while i < g.entries.len()
        invariant
            0 <= i <= g.entries@.len(),
            members(*g, name@) == members_from(g.entries@, name@, i as int),
        decreases g.entries@.len() - i,
    {
        let e = chars_of(g.entries[i].0.as_str());
        if same(e.as_slice(), name) {
            return Some(&g.entries[i].1);
        }
        i += 1;
    }
    None
}

/// Does `v` hold a string equal to `w`?
pub fn holds(v: &Vec<String>, w: &[char]) -> (r: bool)
    ensures
        r == strs(v@).contains(w@),
{
    let mut i: usize = 0;
    while i < v.len()
        invariant
            0 <= i <= v@.len(),
            forall|k: int| 0 <= k < i ==> strs(v@)[k] != w@,
        decreases v@.len() - i,
    {
        let c = chars_of(v[i].as_str());
        if same(c.as_slice(), w) {
            assert(strs(v@)[i as int] == w@);
            return true;
        }
        i += 1;
    }
    false
}

fn in_group(g: &Groups, target: &[char], me: &[char]) -> (r: bool)
    ensures
        r == via_group(*g, target@, me@),
{
    match group_members(g, target) {
        Some(ms) => holds(ms, me),
        None => false,
    }
}

/// Some entry of `v` names `me` or a group holding `me`.
fn any_target_reaches(v: &Vec<String>, me: &[char], g: &Groups, literal: bool) -> (r: bool)
    ensures
        r == exists|i: int|
            0 <= i < v@.len() && ((literal && v@[i]@ == me@) || via_group(*g, #[trigger] v@[i]@, me@)),
{
    let mut i: usize = 0;
    while i < v.len()
        invariant
            0 <= i <= v@.len(),
            forall|k: int|
                0 <= k < i ==> !((literal && v@[k]@ == me@) || via_group(*g, #[trigger] v@[k]@, me@)),
        decreases v@.len() - i,
    {
        let t = chars_of(v[i].as_str());
        if (literal && same(t.as_slice(), me)) || in_group(g, t.as_slice(), me) {
            return true;
        }
        i += 1;
    }
    false
}

/// Is `me` addressed by this message — as a literal recipient, via `all`, or as a member of
/// a group named in `to`/`cc`?
pub fn addressed(m: &Message, me: &str, groups: &Groups) -> (r: bool)
    ensures
        r == addressed_spec(*m, me@, *groups),
{
    let mc = chars_of(me);
    let all = ['a', 'l', 'l'];
    let ghost targets = strs(m.to@) + strs(m.cc@);
    let lit = holds(&m.to, mc.as_slice()) || holds(&m.cc, mc.as_slice());
    let everyone = holds(&m.to, &all) || holds(&m.cc, &all);
    let grp = any_target_reaches(&m.to, mc.as_slice(), groups, false) || any_target_reaches(
        &m.cc,
        mc.as_slice(),
        groups,
        false,
    );
    proof {
        assert(all@ =~= all_word());
        assert forall|x: Seq<char>| targets.contains(x) <==> (strs(m.to@).contains(x) || strs(m.cc@).contains(x)) by {
            if targets.contains(x) {
                let i = choose|i: int| 0 <= i < targets.len() && targets[i] == x;
                if i < strs(m.to@).len() {
                    assert(strs(m.to@)[i] == x);
                } else {
                    assert(strs(m.cc@)[i - strs(m.to@).len()] == x);
                }
            }
            if strs(m.to@).contains(x) {
                let i = choose|i: int| 0 <= i < strs(m.to@).len() && strs(m.to@)[i] == x;
                assert(targets[i] == x);
            }
            if strs(m.cc@).contains(x) {
                let i = choose|i: int| 0 <= i < strs(m.cc@).len() && strs(m.cc@)[i] == x;
                assert(targets[i + strs(m.to@).len()] == x);
            }
        }
        let g_spec = exists|i: int| 0 <= i < targets.len() && via_group(*groups, #[trigger] targets[i], me@);
        if grp {
            if exists|i: int| 0 <= i < m.to@.len() && via_group(*groups, #[trigger] m.to@[i]@, me@) {
                let i = choose|i: int| 0 <= i < m.to@.len() && via_group(*groups, #[trigger] m.to@[i]@, me@);
                assert(targets[i] == m.to@[i]@);
            } else {
                let i = choose|i: int| 0 <= i < m.cc@.len() && via_group(*groups, #[trigger] m.cc@[i]@, me@);
                assert(targets[i + m.to@.len()] == m.cc@[i]@);
            }
            assert(g_spec);
        }
        if g_spec {
            let i = choose|i: int| 0 <= i < targets.len() && via_group(*groups, #[trigger] targets[i], me@);
            if i < m.to@.len() {
                assert(targets[i] == m.to@[i]@);
            } else {
                assert(targets[i] == m.cc@[i - m.to@.len()]@);
            }
        }
    }
    lit || everyone || grp
}

/// Is `me` a DIRECT addressee — named in `to` (or a member of a group in `to`) — excluding
/// `cc` (FYI) and pure `all` broadcasts?
pub fn directly_addressed(m: &Message, me: &str, groups: &Groups) -> (r: bool)
    ensures
        r == directly_addressed_spec(*m, me@, *groups),
{
    let mc = chars_of(me);
    any_target_reaches(&m.to, mc.as_slice(), groups, true)
}


// ---------------------------------------------------------------- group cards

/// The frontmatter lines `1..n` gather: up to the first closing `---` fence (trailing
/// whitespace allowed), each with a newline; and whether that fence was reached.
pub open spec fn fenced_upto(ls: Seq<Seq<char>>, n: int) -> (Seq<char>, bool)
    decreases n,
{
    if n <= 1 {
        (seq![], false)
    } else {
        let (y, closed) = fenced_upto(ls, n - 1);
        if closed {
            (y, true)
        } else if crate::text::trim_end(ls[n - 1]) == "---"@ {
            (y, true)
        } else {
            (y + ls[n - 1] + seq!['\n'], false)
        }
    }
}

/// The frontmatter of a group card (`groups/<name>.md`): the lines after an opening `---`
/// line, up to the closing one or the end; `None` when the card does not open with a fence.
pub open spec fn group_frontmatter_spec(text: Seq<char>) -> Option<Seq<char>> {
    let ls = crate::text::lines(text);
    if ls.len() == 0 || crate::text::trim_end(ls[0]) != "---"@ {
        None
    } else {
        Some(fenced_upto(ls, ls.len() as int).0)
    }
}

fn is_fence_line(l: &[char]) -> (r: bool)
    ensures
        r == (crate::text::trim_end(l@) == "---"@),
{
    let t = crate::text::trimmed_end(l);
    same(t.as_slice(), chars_of("---").as_slice())
}

pub fn group_frontmatter(text: &str) -> (r: Option<String>)
    ensures
        opt_str(r) == group_frontmatter_spec(text@),
{
    let ls = crate::text::split_lines(chars_of(text).as_slice());
    let ghost lv = crate::text::vv(ls@);
    if ls.len() == 0 || !is_fence_line(ls[0].as_slice()) {
        assert(ls@.len() > 0 ==> lv[0] == ls@[0]@);
        return None;
    }
    assert(lv[0] == ls@[0]@);
    let mut y: Vec<char> = Vec::new();
    let mut closed = false;
    let mut i: usize = 1;
    while i < ls.len()
        invariant
            1 <= i <= ls@.len(),
            lv == crate::text::vv(ls@),
            (y@, closed) == fenced_upto(lv, i as int),
        decreases ls@.len() - i,
    {
        assert(lv[i as int] == ls@[i as int]@);
        if !closed {
            if is_fence_line(ls[i].as_slice()) {
                closed = true;
            } else {
                crate::text::push_all(&mut y, ls[i].as_slice());
                y.push('\n');
            }
        }
        i += 1;
    }
    Some(string_of(y.as_slice()))
}

} // verus!
