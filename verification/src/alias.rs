//! Fuzzy identity: resolve a human's loose phrase ("my iOS agent", "the book one") to a
//! role, and guard alias additions against collisions. All the matching is normalized +
//! token-based so casual phrasing still lands.
use vstd::prelude::*;
use crate::text::strs;
use crate::text::{all_ascii, alphanumeric, char_lowercase, is_ascii_alnum, lower_char, ascii_alpha, ascii_lower, byte_len, chars_of, contains, contains_seq, is_ascii_alpha, lemma_lex_lt_irreflexive, lemma_lex_lt_total, lemma_lex_lt_transitive, less, lex_lt, push_all, same, slice, string_of, to_ascii_lower, unicode_alnum, utf8_len};

verus! {

// ====================================================================== roster

/// One role card, as the matcher sees it.
pub struct Role {
    pub display: Option<String>,
    pub host: Option<String>,
    pub desc: Option<String>,
    pub aliases: Vec<String>,
    pub status: Option<String>,
    pub pubkey: Option<String>,
}

/// The joined roles of a hub, keyed by role id and kept in ascending id order (the order a
/// sorted map iterates in).
pub struct Roster {
    pub entries: Vec<(String, Role)>,
}

/// Ids strictly ascending — so every id occurs once.
pub open spec fn ids_sorted(e: Seq<(String, Role)>) -> bool {
    forall|i: int, j: int| 0 <= i < j < e.len() ==> lex_lt(#[trigger] e[i].0@, #[trigger] e[j].0@)
}

fn entry_lt(entries: &Vec<(String, Role)>, i: usize, key: &[char]) -> (r: bool)
    requires
        i < entries@.len(),
    ensures
        r == lex_lt(entries@[i as int].0@, key@),
{
    let e = chars_of(entries[i].0.as_str());
    less(e.as_slice(), key)
}

impl Roster {
    pub open spec fn wf(&self) -> bool {
        ids_sorted(self.entries@)
    }

    /// The ids, in iteration order.
    pub open spec fn ids(&self) -> Seq<Seq<char>> {
        self.entries@.map_values(|e: (String, Role)| e.0@)
    }

    /// The ids, in order.
    pub fn id_list(&self) -> (v: Vec<String>)
        ensures
            crate::text::strs(v@) == self.ids(),
    {
        let mut v: Vec<String> = Vec::new();
        let mut i: usize = 0;
        while i < self.entries.len()
            invariant
                0 <= i <= self.entries@.len(),
                v@.len() == i,
                crate::text::strs(v@) == self.ids().take(i as int),
            decreases self.entries@.len() - i,
        {
            let ghost before = v@;
            v.push(self.entries[i].0.clone());
            assert(self.ids()[i as int] == self.entries@[i as int].0@);
            assert(crate::text::strs(v@) =~= self.ids().take(i + 1));
            i += 1;
        }
        assert(self.ids().take(self.entries@.len() as int) =~= self.ids());
        v
    }

    /// An empty roster.
    pub fn new() -> (r: Roster)
        ensures
            r.wf(),
            r.entries@.len() == 0,
    {
        Roster { entries: Vec::new() }
    }

    /// The position of `id`, if present.
    pub fn position(&self, id: &[char]) -> (r: Option<usize>)
        requires
            self.wf(),
        ensures
            r matches Some(i) ==> i < self.entries@.len() && self.entries@[i as int].0@ == id@,
            r is None ==> forall|k: int| 0 <= k < self.entries@.len() ==> self.entries@[k].0@ != id@,
    {
        let mut i: usize = 0;
        while i < self.entries.len()
            invariant
                0 <= i <= self.entries@.len(),
                forall|k: int| 0 <= k < i ==> self.entries@[k].0@ != id@,
            decreases self.entries@.len() - i,
        {
            let e = chars_of(self.entries[i].0.as_str());
            if same(e.as_slice(), id) {
                return Some(i);
            }
            i += 1;
        }
        None
    }

    /// Insert (or replace) the card for `id`, keeping ids ascending.
    pub fn insert(&mut self, id: String, role: Role)
        requires
            old(self).wf(),
        ensures
            final(self).wf(),
            exists|k: int| 0 <= k < final(self).entries@.len() && final(self).entries@[k].0@ == id@,
            forall|k: int| 0 <= k < old(self).entries@.len() && old(self).entries@[k].0@ != id@
                ==> #[trigger] final(self).ids().contains(old(self).entries@[k].0@),
    {
        let key = chars_of(id.as_str());
        let mut i: usize = 0;
        while i < self.entries.len() && entry_lt(&self.entries, i, key.as_slice())
            invariant
                0 <= i <= self.entries@.len(),
                key@ == id@,
                ids_sorted(self.entries@),
                forall|k: int| 0 <= k < i ==> lex_lt(#[trigger] self.entries@[k].0@, key@),
            decreases self.entries@.len() - i,
        {
            i += 1;
        }
        let ghost old_entries = self.entries@;
        let replace = i < self.entries.len() && {
            let e = chars_of(self.entries[i].0.as_str());
            same(e.as_slice(), key.as_slice())
        };
        if replace {
            self.entries.set(i, (id, role));
            assert forall|a: int, b: int| 0 <= a < b < self.entries@.len() implies lex_lt(
                #[trigger] self.entries@[a].0@,
                #[trigger] self.entries@[b].0@,
            ) by {
                assert(lex_lt(old_entries[a].0@, old_entries[b].0@));
            }
            assert(self.entries@[i as int].0@ == id@);
            assert forall|k: int| 0 <= k < old_entries.len() && old_entries[k].0@ != id@ implies #[trigger] self.ids().contains(
                old_entries[k].0@,
            ) by {
                assert(self.ids()[k] == old_entries[k].0@);
            }
        } else {
            proof {
                if i < old_entries.len() {
                    lemma_lex_lt_total(old_entries[i as int].0@, key@);
                }
            }
            self.entries.insert(i, (id, role));
            assert forall|a: int, b: int| 0 <= a < b < self.entries@.len() implies lex_lt(
                #[trigger] self.entries@[a].0@,
                #[trigger] self.entries@[b].0@,
            ) by {
                if b < i {
                    assert(lex_lt(old_entries[a].0@, old_entries[b].0@));
                } else if b == i {
                    assert(lex_lt(old_entries[a].0@, key@));
                } else if a == i {
                    if b == i + 1 {
                        assert(lex_lt(key@, old_entries[i as int].0@));
                    } else {
                        assert(lex_lt(key@, old_entries[i as int].0@));
                        assert(lex_lt(old_entries[i as int].0@, old_entries[b - 1].0@));
                        lemma_lex_lt_transitive(key@, old_entries[i as int].0@, old_entries[b - 1].0@);
                    }
                } else if a < i {
                    assert(lex_lt(old_entries[a].0@, old_entries[b - 1].0@));
                } else {
                    assert(lex_lt(old_entries[a - 1].0@, old_entries[b - 1].0@));
                }
            }
            assert(self.entries@[i as int].0@ == id@);
            assert forall|k: int| 0 <= k < old_entries.len() && old_entries[k].0@ != id@ implies #[trigger] self.ids().contains(
                old_entries[k].0@,
            ) by {
                if k < i {
                    assert(self.ids()[k] == old_entries[k].0@);
                } else {
                    assert(self.ids()[k + 1] == old_entries[k].0@);
                }
            }
        }
    }
}

// ====================================================================== normalizing

/// The words of `s`: maximal runs of alphanumeric characters, each character replaced by its
/// lowercase mapping, in order.
pub open spec fn words(s: Seq<char>) -> Seq<Seq<char>>
    decreases s.len(),
{
    if s.len() == 0 {
        seq![]
    } else {
        let w = words(s.drop_last());
        let c = s.last();
        if !unicode_alnum(c) {
            w
        } else if s.len() >= 2 && unicode_alnum(s[s.len() - 2]) {
            w.update(w.len() - 1, w.last() + char_lowercase(c))
        } else {
            w.push(char_lowercase(c))
        }
    }
}

/// [`words`] in plain characters for ASCII text: maximal runs of ASCII letters and digits,
/// upper-case letters lowered.
pub open spec fn ascii_words(s: Seq<char>) -> Seq<Seq<char>>
    decreases s.len(),
{
    if s.len() == 0 {
        seq![]
    } else {
        let w = ascii_words(s.drop_last());
        let c = s.last();
        if !is_ascii_alnum(c) {
            w
        } else if s.len() >= 2 && is_ascii_alnum(s[s.len() - 2]) {
            w.update(w.len() - 1, w.last().push(ascii_lower(c)))
        } else {
            w.push(seq![ascii_lower(c)])
        }
    }
}

/// `ws` joined with one `sep` between neighbours.
pub open spec fn join(ws: Seq<Seq<char>>, sep: char) -> Seq<char>
    decreases ws.len(),
{
    if ws.len() == 0 {
        seq![]
    } else if ws.len() == 1 {
        ws[0]
    } else {
        join(ws.drop_last(), sep).push(sep) + ws.last()
    }
}

/// `normalize`: lowercase, punctuation to spaces, whitespace collapsed — the words joined
/// by single spaces.
pub open spec fn normalized(s: Seq<char>) -> Seq<char> {
    join(words(s), ' ')
}

/// Filler words a human sprinkles into a phrase.
pub open spec fn is_stop(w: Seq<char>) -> bool {
    ||| w == seq!['t', 'h', 'e']
    ||| w == seq!['a']
    ||| w == seq!['a', 'n']
    ||| w == seq!['m', 'y']
    ||| w == seq!['o', 'u', 'r']
    ||| w == seq!['y', 'o', 'u', 'r']
    ||| w == seq!['t', 'h', 'a', 't']
    ||| w == seq!['o', 'n', 'e']
    ||| w == seq!['a', 'g', 'e', 'n', 't']
    ||| w == seq!['i', 's']
}

pub open spec fn not_stop() -> spec_fn(Seq<char>) -> bool {
    |w: Seq<char>| !is_stop(w)
}

/// Significant tokens: the words without the filler words.
pub open spec fn tokens_of(s: Seq<char>) -> Seq<Seq<char>> {
    words(s).filter(not_stop())
}

pub open spec fn vv(ws: Seq<Vec<char>>) -> Seq<Seq<char>> {
    ws.map_values(|w: Vec<char>| w@)
}

proof fn lemma_words_nonempty(s: Seq<char>)
    requires
        s.len() > 0,
        unicode_alnum(s.last()),
    ensures
        words(s).len() > 0,
    decreases s.len(),
{
    if s.len() >= 2 && unicode_alnum(s[s.len() - 2]) {
        assert(s.drop_last().last() == s[s.len() - 2]);
        lemma_words_nonempty(s.drop_last());
    }
}

proof fn lemma_words_len(s: Seq<char>)
    ensures
        words(s).len() <= s.len(),
    decreases s.len(),
{
    if s.len() > 0 {
        lemma_words_len(s.drop_last());
        if s.len() >= 2 && unicode_alnum(s[s.len() - 2]) {
            assert(s.drop_last().last() == s[s.len() - 2]);
            lemma_words_nonempty(s.drop_last());
        }
    }
}

/// The words of `s` (see [`words`]); for ASCII text, [`ascii_words`].
fn words_in(s: &[char]) -> (ws: Vec<Vec<char>>)
    ensures
        vv(ws@) == words(s@),
        all_ascii(s@) ==> vv(ws@) == ascii_words(s@),
{
    let mut ws: Vec<Vec<char>> = Vec::new();
    let mut in_word = false;
    let mut i: usize = 0;
    while i < s.len()
        invariant
            0 <= i <= s@.len(),
            vv(ws@) == words(s@.take(i as int)),
            all_ascii(s@.take(i as int)) ==> vv(ws@) == ascii_words(s@.take(i as int)),
            forall|k: int| 0 <= k < i && (#[trigger] s@[k] as u32) < 128 ==> unicode_alnum(s@[k]) == is_ascii_alnum(s@[k]),
            in_word == (i > 0 && unicode_alnum(s@[i - 1])),
        decreases s@.len() - i,
    {
        let c = s[i];
        let ghost t = s@.take(i + 1);
        let ghost pre = s@.take(i as int);
        assert(t.drop_last() =~= pre);
        assert(t.last() == c);
        assert(all_ascii(t) ==> all_ascii(pre)) by {
            if all_ascii(t) {
                assert forall|k: int| 0 <= k < pre.len() implies (#[trigger] pre[k] as u32) < 128 by {
                    assert(pre[k] == t[k]);
                }
            }
        }
        assert(all_ascii(t) ==> (c as u32) < 128) by {
            if all_ascii(t) {
                assert(t[i as int] == c);
            }
        }
        let a = alphanumeric(c);
        if i > 0 {
            assert(t[t.len() - 2] == s@[i - 1]);
            assert(pre[pre.len() - 1] == s@[i - 1]);
        }
        if !a {
            in_word = false;
            assert(vv(ws@) =~= words(t));
            proof {
                if all_ascii(t) {
                    assert(vv(ws@) =~= ascii_words(t));
                }
            }
        } else if in_word {
            proof {
                lemma_words_nonempty(pre);
            }
            let lc = lower_char(c);
            let ghost before = vv(ws@);
            let mut last = ws.pop().unwrap();
            push_all(&mut last, lc.as_slice());
            ws.push(last);
            assert(vv(ws@) =~= words(t));
            proof {
                if all_ascii(t) {
                    assert(t[i - 1] == s@[i - 1]);
                    assert((t[i - 1] as u32) < 128);
                    assert(is_ascii_alnum(s@[i - 1]));
                    assert(ascii_words(pre) == words(pre));
                    assert(lc@ == seq![ascii_lower(c)]);
                    assert(before.last() + lc@ =~= before.last().push(ascii_lower(c)));
                    assert(vv(ws@) =~= ascii_words(t));
                }
            }
        } else {
            let lc = lower_char(c);
            ws.push(lc);
            assert(vv(ws@) =~= words(t));
            proof {
                if all_ascii(t) {
                    assert(vv(ws@) =~= ascii_words(t));
                }
            }
            in_word = true;
        }
        i += 1;
    }
    assert(s@.take(s@.len() as int) =~= s@);
    ws
}

/// `ws` joined with `sep`.
fn join_words(ws: &Vec<Vec<char>>, sep: char) -> (r: Vec<char>)
    ensures
        r@ == join(vv(ws@), sep),
{
    let mut out: Vec<char> = Vec::new();
    let mut i: usize = 0;
    while i < ws.len()
        invariant
            0 <= i <= ws@.len(),
            out@ == join(vv(ws@).take(i as int), sep),
        decreases ws@.len() - i,
    {
        let ghost t = vv(ws@).take(i + 1);
        if i == 0 {
            push_all(&mut out, ws[i].as_slice());
            assert(t.len() == 1);
            assert(out@ =~= join(t, sep));
        } else {
            assert(t.drop_last() =~= vv(ws@).take(i as int));
            out.push(sep);
            push_all(&mut out, ws[i].as_slice());
            assert(out@ =~= join(t, sep));
        }
        i += 1;
    }
    assert(vv(ws@).take(ws@.len() as int) =~= vv(ws@));
    out
}

/// Lowercase, strip punctuation to spaces, collapse whitespace.
pub fn normalize(s: &str) -> (r: String)
    ensures
        r@ == normalized(s@),
        all_ascii(s@) ==> r@ == join(ascii_words(s@), ' '),
{
    let cs = chars_of(s);
    let ws = words_in(cs.as_slice());
    let j = join_words(&ws, ' ');
    string_of(j.as_slice())
}

fn normalized_chars(s: &[char]) -> (r: Vec<char>)
    ensures
        r@ == normalized(s@),
{
    let ws = words_in(s);
    join_words(&ws, ' ')
}
fn is_stop_word(w: &[char]) -> (r: bool)
    ensures
        r == is_stop(w@),
{
    let n = w.len();
    let r = if n == 1 {
        w[0] == 'a'
    } else if n == 2 {
        (w[0] == 'a' && w[1] == 'n') || (w[0] == 'm' && w[1] == 'y') || (w[0] == 'i' && w[1] == 's')
    } else if n == 3 {
        (w[0] == 't' && w[1] == 'h' && w[2] == 'e') || (w[0] == 'o' && w[1] == 'u' && w[2] == 'r') || (
        w[0] == 'o' && w[1] == 'n' && w[2] == 'e')
    } else if n == 4 {
        (w[0] == 'y' && w[1] == 'o' && w[2] == 'u' && w[3] == 'r') || (w[0] == 't' && w[1] == 'h' && w[2]
            == 'a' && w[3] == 't')
    } else if n == 5 {
        w[0] == 'a' && w[1] == 'g' && w[2] == 'e' && w[3] == 'n' && w[4] == 't'
    } else {
        false
    };
    proof {
        if n == 1 {
            assert(w@ =~= seq![w@[0]]);
        } else if n == 2 {
            assert(w@ =~= seq![w@[0], w@[1]]);
        } else if n == 3 {
            assert(w@ =~= seq![w@[0], w@[1], w@[2]]);
        } else if n == 4 {
            assert(w@ =~= seq![w@[0], w@[1], w@[2], w@[3]]);
        } else if n == 5 {
            assert(w@ =~= seq![w@[0], w@[1], w@[2], w@[3], w@[4]]);
        }
    }
    r
}

/// Significant tokens (drop filler the human sprinkles in).
fn tokens(s: &[char]) -> (r: Vec<Vec<char>>)
    ensures
        vv(r@) == tokens_of(s@),
{
    let ws = words_in(s);
    let mut out: Vec<Vec<char>> = Vec::new();
    let mut i: usize = 0;
    while i < ws.len()
        invariant
            0 <= i <= ws@.len(),
            vv(out@) == vv(ws@).take(i as int).filter(not_stop()),
        decreases ws@.len() - i,
    {
        let ghost t = vv(ws@).take(i as int);
        assert(vv(ws@).take(i + 1) =~= t.push(ws@[i as int]@));
        proof {
            t.lemma_filter_push(ws@[i as int]@, not_stop());
        }
        if !is_stop_word(ws[i].as_slice()) {
            let w = slice(ws[i].as_slice(), 0, ws[i].len());
            assert(w@ =~= ws@[i as int]@);
            out.push(w);
            assert(vv(out@) =~= vv(ws@).take(i + 1).filter(not_stop()));
        }
        i += 1;
    }
    assert(vv(ws@).take(ws@.len() as int) =~= vv(ws@));
    out
}

// ====================================================================== homoglyphs

/// Greek or Cyrillic block — the classic Latin-lookalike sources.
pub open spec fn confusable(c: char) -> bool {
    (0x0370 <= (c as u32) && (c as u32) <= 0x03FF) || (0x0400 <= (c as u32) && (c as u32) <= 0x04FF)
}

/// Homoglyph / mixed-script red flag for a display name: ASCII Latin letters mixed with
/// letters from the Greek or Cyrillic blocks.
pub open spec fn mixed_script(s: Seq<char>) -> bool {
    (exists|i: int| 0 <= i < s.len() && is_ascii_alpha(#[trigger] s[i])) && (exists|i: int|
        0 <= i < s.len() && confusable(#[trigger] s[i]))
}

pub fn homoglyph_risk(s: &str) -> (r: bool)
    ensures
        r == mixed_script(s@),
{
    let cs = chars_of(s);
    let mut has_ascii = false;
    let mut has_conf = false;
    let mut i: usize = 0;
    while i < cs.len()
        invariant
            0 <= i <= cs@.len(),
            cs@ == s@,
            has_ascii == (exists|k: int| 0 <= k < i && is_ascii_alpha(#[trigger] s@[k])),
            has_conf == (exists|k: int| 0 <= k < i && confusable(#[trigger] s@[k])),
        decreases cs@.len() - i,
    {
        let c = cs[i];
        if ascii_alpha(c) {
            has_ascii = true;
        }
        let cp = c as u32;
        if (0x0370 <= cp && cp <= 0x03FF) || (0x0400 <= cp && cp <= 0x04FF) {
            has_conf = true;
        }
        assert(s@[i as int] == c);
        i += 1;
    }
    has_ascii && has_conf
}

// ====================================================================== edit distance

pub open spec fn min2(a: nat, b: nat) -> nat {
    if a <= b { a } else { b }
}

/// Levenshtein edit distance.
pub open spec fn lev_spec(a: Seq<char>, b: Seq<char>) -> nat
    decreases a.len() + b.len(),
{
    if a.len() == 0 {
        b.len()
    } else if b.len() == 0 {
        a.len()
    } else {
        min2(
            min2(lev_spec(a.drop_last(), b) + 1, lev_spec(a, b.drop_last()) + 1),
            lev_spec(a.drop_last(), b.drop_last()) + (if a.last() == b.last() { 0nat } else { 1nat }),
        )
    }
}

proof fn lemma_lev_bound(a: Seq<char>, b: Seq<char>)
    ensures
        lev_spec(a, b) <= (if a.len() >= b.len() { a.len() } else { b.len() }),
    decreases a.len() + b.len(),
{
    if a.len() > 0 && b.len() > 0 {
        lemma_lev_bound(a.drop_last(), b.drop_last());
    }
}

/// Levenshtein edit distance (for typo-closeness on short handles).
fn lev(a: &[char], b: &[char]) -> (d: usize)
    ensures
        d == lev_spec(a@, b@),
{
    let mut prev: Vec<usize> = Vec::new();
    prev.push(0);
    let mut j: usize = 0;
    while j < b.len()
        invariant
            0 <= j <= b@.len(),
            b@.len() == b.len(),
            prev@.len() == j + 1,
            forall|k: int| 0 <= k <= j ==> prev@[k] == lev_spec(a@.take(0), b@.take(k)),
        decreases b@.len() - j,
    {
        prev.push(j + 1);
        j += 1;
    }
    let mut i: usize = 0;
    while i < a.len()
        invariant
            0 <= i <= a@.len(),
            a@.len() == a.len(),
            b@.len() == b.len(),
            prev@.len() == b@.len() + 1,
            forall|k: int| 0 <= k <= b@.len() ==> prev@[k] == lev_spec(a@.take(i as int), b@.take(k)),
        decreases a@.len() - i,
    {
        let ai = a[i];
        let mut cur: Vec<usize> = Vec::new();
        cur.push(i + 1);
        assert(lev_spec(a@.take(i + 1), b@.take(0)) == i + 1) by {
            assert(b@.take(0).len() == 0);
        }
        let mut j: usize = 0;
        while j < b.len()
            invariant
                0 <= i < a@.len(),
                a@.len() == a.len(),
                b@.len() == b.len(),
                ai == a@[i as int],
                0 <= j <= b@.len(),
                prev@.len() == b@.len() + 1,
                cur@.len() == j + 1,
                forall|k: int| 0 <= k <= b@.len() ==> prev@[k] == lev_spec(a@.take(i as int), b@.take(k)),
                forall|k: int| 0 <= k <= j ==> cur@[k] == lev_spec(a@.take(i + 1), b@.take(k)),
            decreases b@.len() - j,
        {
            let ghost x = a@.take(i + 1);
            let ghost y = b@.take(j + 1);
            assert(x.drop_last() =~= a@.take(i as int));
            assert(y.drop_last() =~= b@.take(j as int));
            assert(x.last() == ai);
            assert(y.last() == b@[j as int]);
            proof {
                lemma_lev_bound(a@.take(i as int), b@.take(j as int));
            }
            let cost: usize = if ai == b[j] { 0 } else { 1 };
            let diag = prev[j] + cost;
            let up = prev[j + 1];
            let left = cur[j];
            let e = if up <= left { up } else { left };
            let v = if e < diag { e + 1 } else { diag };
            assert(v == lev_spec(x, y));
            cur.push(v);
            j += 1;
        }
        prev = cur;
        i += 1;
    }
    assert(a@.take(a@.len() as int) =~= a@);
    assert(b@.take(b@.len() as int) =~= b@);
    prev[b.len()]
}

// ====================================================================== collision guard

/// Are all of `a`'s significant words in `b` (a ⊆ b)? Directional on purpose.
pub open spec fn token_subset_spec(a: Seq<char>, b: Seq<char>) -> bool {
    let ta = tokens_of(a);
    let tb = tokens_of(b);
    ta.len() > 0 && tb.len() > 0 && forall|i: int| 0 <= i < ta.len() ==> tb.contains(#[trigger] ta[i])
}

fn contains_word(ws: &Vec<Vec<char>>, w: &[char]) -> (r: bool)
    ensures
        r == vv(ws@).contains(w@),
{
    let mut i: usize = 0;
    while i < ws.len()
        invariant
            0 <= i <= ws@.len(),
            forall|k: int| 0 <= k < i ==> vv(ws@)[k] != w@,
        decreases ws@.len() - i,
    {
        if same(ws[i].as_slice(), w) {
            assert(vv(ws@)[i as int] == w@);
            return true;
        }
        i += 1;
    }
    false
}

/// Do ALL of `a`'s significant words already appear in `b`?
fn token_subset(a: &[char], b: &[char]) -> (r: bool)
    ensures
        r == token_subset_spec(a@, b@),
{
    let ta = tokens(a);
    let tb = tokens(b);
    if ta.len() == 0 || tb.len() == 0 {
        return false;
    }
    let mut i: usize = 0;
    while i < ta.len()
        invariant
            0 <= i <= ta@.len(),
            vv(ta@) == tokens_of(a@),
            vv(tb@) == tokens_of(b@),
            forall|k: int| 0 <= k < i ==> vv(tb@).contains(#[trigger] vv(ta@)[k]),
        decreases ta@.len() - i,
    {
        assert(vv(ta@)[i as int] == ta@[i as int]@);
        if !contains_word(&tb, ta[i].as_slice()) {
            return false;
        }
        i += 1;
    }
    true
}

pub open spec fn opt_idents(o: Option<String>) -> Seq<Seq<char>> {
    match o {
        Some(s) => seq![s@],
        None => seq![],
    }
}

/// Every identifier string for a role: its id, display, aliases and host.
pub open spec fn role_idents(id: Seq<char>, r: Role) -> Seq<Seq<char>> {
    seq![id] + opt_idents(r.display) + strs(r.aliases@) + opt_idents(r.host)
}

pub open spec fn has_card(roster: Roster, id: Seq<char>, k: int) -> bool {
    0 <= k < roster.entries@.len() && roster.entries@[k].0@ == id
}

/// The card filed under `id`, if any.
pub open spec fn card_of(roster: Roster, id: Seq<char>) -> Option<Role> {
    if exists|k: int| has_card(roster, id, k) {
        Some(roster.entries@[choose|k: int| has_card(roster, id, k)].1)
    } else {
        None
    }
}

pub open spec fn idents_spec(roster: Roster, id: Seq<char>) -> Seq<Seq<char>> {
    match card_of(roster, id) {
        Some(r) => role_idents(id, r),
        None => seq![id],
    }
}

pub proof fn lemma_card_at(roster: Roster, k: int)
    requires
        roster.wf(),
        0 <= k < roster.entries@.len(),
    ensures
        card_of(roster, roster.entries@[k].0@) == Some(roster.entries@[k].1),
{
    let id = roster.entries@[k].0@;
    assert(has_card(roster, id, k));
    let j = choose|j: int| has_card(roster, id, j);
    assert(has_card(roster, id, j));
    if j < k {
        assert(lex_lt(roster.entries@[j].0@, roster.entries@[k].0@));
        lemma_lex_lt_irreflexive(id);
    } else if j > k {
        assert(lex_lt(roster.entries@[k].0@, roster.entries@[j].0@));
        lemma_lex_lt_irreflexive(id);
    }
}

fn clone_str(s: &String) -> (r: String)
    ensures
        r@ == s@,
{
    s.clone()
}

fn push_opt(v: &mut Vec<String>, o: &Option<String>)
    ensures
        strs(final(v)@) == strs(old(v)@) + opt_idents(*o),
{
    if let Some(s) = o {
        v.push(clone_str(s));
        assert(strs(v@) =~= strs(old(v)@) + opt_idents(*o));
    } else {
        assert(strs(v@) =~= strs(old(v)@) + opt_idents(*o));
    }
}

/// Every identifier string for a role: its id, display, aliases, and host.
fn identifiers(roster: &Roster, id: &str) -> (v: Vec<String>)
    requires
        roster.wf(),
    ensures
        strs(v@) == idents_spec(*roster, id@),
{
    let mut v: Vec<String> = Vec::new();
    v.push(id.to_owned());
    assert(strs(v@) =~= seq![id@]);
    let key = chars_of(id);
    match roster.position(key.as_slice()) {
        Some(k) => {
            proof {
                lemma_card_at(*roster, k as int);
            }
            let r = &roster.entries[k].1;
            push_opt(&mut v, &r.display);
            let mut i: usize = 0;
            let ghost base = strs(v@);
            while i < r.aliases.len()
                invariant
                    0 <= i <= r.aliases@.len(),
                    strs(v@) == base + strs(r.aliases@).take(i as int),
                decreases r.aliases@.len() - i,
            {
                assert(strs(r.aliases@)[i as int] == r.aliases@[i as int]@);
                let ghost pre = v@;
                let a = clone_str(&r.aliases[i]);
                v.push(a);
                assert(v@ == pre.push(a));
                assert(strs(v@) =~= strs(pre).push(a@));
                assert(strs(r.aliases@).take(i + 1) =~= strs(r.aliases@).take(i as int).push(a@));
                assert(strs(v@) =~= base + strs(r.aliases@).take(i + 1));
                i += 1;
            }
            assert(strs(r.aliases@).take(r.aliases@.len() as int) =~= strs(r.aliases@));
            push_opt(&mut v, &r.host);
            assert(strs(v@) =~= role_idents(id@, *r));
        },
        None => {
            assert(card_of(*roster, id@) is None);
        },
    }
    v
}

/// Why `ni` (a normalized identifier) is too close to `np` (the normalized proposal).
pub open spec fn clash_reason(ni: Seq<char>, np: Seq<char>) -> Option<Seq<char>> {
    if ni.len() == 0 {
        None
    } else if ni == np {
        Some("already identifies"@)
    } else if token_subset_spec(np, ni) {
        Some("shares all significant words with"@)
    } else if utf8_len(np) >= 4 && utf8_len(ni) >= 4 && lev_spec(np, ni) <= 1 {
        Some("is one keystroke from"@)
    } else {
        None
    }
}

/// The first of `idents` (in order) that clashes with `np`.
pub open spec fn first_clash(id: Seq<char>, idents: Seq<Seq<char>>, np: Seq<char>) -> Option<
    (Seq<char>, Seq<char>, Seq<char>),
>
    decreases idents.len(),
{
    if idents.len() == 0 {
        None
    } else {
        match clash_reason(normalized(idents[0]), np) {
            Some(r) => Some((id, idents[0], r)),
            None => first_clash(id, idents.drop_first(), np),
        }
    }
}

/// Scan the roster (from entry `from`) for the first role other than `me` whose identifiers
/// clash with `np`.
pub open spec fn roster_clash(roster: Roster, from: int, me: Seq<char>, np: Seq<char>) -> Option<
    (Seq<char>, Seq<char>, Seq<char>),
>
    decreases roster.entries@.len() - from,
{
    if from < 0 || from >= roster.entries@.len() {
        None
    } else {
        let id = roster.entries@[from].0@;
        if id == me {
            roster_clash(roster, from + 1, me, np)
        } else {
            match first_clash(id, idents_spec(roster, id), np) {
                Some(x) => Some(x),
                None => roster_clash(roster, from + 1, me, np),
            }
        }
    }
}

/// What `conflict` answers: `None` when clear to add, else (role, identifier, reason).
pub open spec fn conflict_spec(roster: Roster, me: Seq<char>, proposed: Seq<char>) -> Option<
    (Seq<char>, Seq<char>, Seq<char>),
> {
    let np = normalized(proposed);
    if np.len() == 0 {
        Some((seq![], proposed, "empty after normalizing"@))
    } else {
        roster_clash(roster, 0, me, np)
    }
}

pub open spec fn triple_view(t: (String, String, String)) -> (Seq<char>, Seq<char>, Seq<char>) {
    (t.0@, t.1@, t.2@)
}

fn reason_for(ni: &[char], np: &[char]) -> (r: Option<&'static str>)
    ensures
        r matches Some(s) ==> clash_reason(ni@, np@) == Some(s@),
        r is None ==> clash_reason(ni@, np@) is None,
{
    if ni.len() == 0 {
        return None;
    }
    if same(ni, np) {
        return Some("already identifies");
    }
    if token_subset(np, ni) {
        return Some("shares all significant words with");
    }
    if byte_len(np) >= 4 && byte_len(ni) >= 4 && lev(np, ni) <= 1 {
        return Some("is one keystroke from");
    }
    None
}

/// Is `proposed` too close to some OTHER role's identifier to be a safe alias for `me`?
/// Returns the conflicting role + string + reason. `None` = clear to add.
pub fn conflict(roster: &Roster, me: &str, proposed: &str) -> (r: Option<(String, String, String)>)
    requires
        roster.wf(),
    ensures
        r matches Some(t) ==> conflict_spec(*roster, me@, proposed@) == Some(triple_view(t)),
        r is None ==> conflict_spec(*roster, me@, proposed@) is None,
{
    let pc = chars_of(proposed);
    let np = normalized_chars(pc.as_slice());
    if np.len() == 0 {
        return Some((String::new(), proposed.to_owned(), "empty after normalizing".to_owned()));
    }
    let mec = chars_of(me);
    let mut k: usize = 0;
    while k < roster.entries.len()
        invariant
            roster.wf(),
            0 <= k <= roster.entries@.len(),
            np@ == normalized(proposed@),
            np@.len() > 0,
            mec@ == me@,
            roster_clash(*roster, 0, me@, np@) == roster_clash(*roster, k as int, me@, np@),
        decreases roster.entries@.len() - k,
    {
        let id = &roster.entries[k].0;
        let idc = chars_of(id.as_str());
        if !same(idc.as_slice(), mec.as_slice()) {
            let idents = identifiers(roster, id.as_str());
            assert(strs(idents@).skip(0) =~= strs(idents@));
            let mut j: usize = 0;
            while j < idents.len()
                invariant
                    roster.wf(),
                    0 <= k < roster.entries@.len(),
                    id@ == roster.entries@[k as int].0@,
                    id@ != me@,
                    np@ == normalized(proposed@),
                    np@.len() > 0,
                    mec@ == me@,
                    roster_clash(*roster, 0, me@, np@) == roster_clash(*roster, k as int, me@, np@),
                    0 <= j <= idents@.len(),
                    strs(idents@) == idents_spec(*roster, id@),
                    first_clash(id@, strs(idents@), np@) == first_clash(id@, strs(idents@).skip(j as int), np@),
                decreases idents@.len() - j,
            {
                let ic = chars_of(idents[j].as_str());
                let ni = normalized_chars(ic.as_slice());
                let ghost rest = strs(idents@).skip(j as int);
                assert(rest[0] == idents@[j as int]@);
                match reason_for(ni.as_slice(), np.as_slice()) {
                    Some(why) => {
                        let t = (clone_str(id), clone_str(&idents[j]), why.to_owned());
                        assert(first_clash(id@, rest, np@) == Some(triple_view(t)));
                        assert(roster_clash(*roster, k as int, me@, np@) == Some(triple_view(t)));
                        return Some(t);
                    },
                    None => {
                        assert(rest.drop_first() =~= strs(idents@).skip(j + 1));
                    },
                }
                j += 1;
            }
            assert(strs(idents@).skip(j as int) =~= seq![]);
            assert(first_clash(id@, strs(idents@), np@) is None);
            assert(roster_clash(*roster, k as int, me@, np@) == roster_clash(*roster, k + 1, me@, np@));
        } else {
            assert(roster_clash(*roster, k as int, me@, np@) == roster_clash(*roster, k + 1, me@, np@));
        }
        k += 1;
    }
    None
}

// ====================================================================== ranking

/// A scored `whois` match.
pub struct Match {
    pub id: String,
    pub score: i32,
}

/// How well one identifier answers the phrase (normalized `np`, tokens `pt`).
pub open spec fn ident_score(ident: Seq<char>, np: Seq<char>, pt: Seq<Seq<char>>) -> int {
    let ni = normalized(ident);
    let it = tokens_of(ident);
    if ni.len() == 0 {
        0
    } else if ni == np {
        100
    } else if pt.len() > 0 && forall|i: int| 0 <= i < pt.len() ==> it.contains(#[trigger] pt[i]) {
        75
    } else if it.len() > 0 && forall|i: int| 0 <= i < it.len() ==> pt.contains(#[trigger] it[i]) {
        65
    } else if contains_seq(ni, np) || contains_seq(np, ni) {
        45
    } else {
        let shared = pt.filter(|t: Seq<char>| it.contains(t)).len();
        if shared > 0 {
            (25 + 10 * shared) as int
        } else {
            0
        }
    }
}

/// The best score over `targets` (0 when none answers).
pub open spec fn best_score(targets: Seq<Seq<char>>, np: Seq<char>, pt: Seq<Seq<char>>) -> int
    decreases targets.len(),
{
    if targets.len() == 0 {
        0
    } else {
        let b = best_score(targets.drop_last(), np, pt);
        let s = ident_score(targets.last(), np, pt);
        if s > b { s } else { b }
    }
}

/// A role's match targets: its identifiers, then its free-form description.
pub open spec fn targets_spec(roster: Roster, id: Seq<char>) -> Seq<Seq<char>> {
    idents_spec(roster, id) + match card_of(roster, id) {
        Some(r) => opt_idents(r.desc),
        None => seq![],
    }
}

pub open spec fn role_score(roster: Roster, k: int, phrase: Seq<char>) -> int {
    best_score(targets_spec(roster, roster.entries@[k].0@), normalized(phrase), tokens_of(phrase))
}

/// Ranking order: higher score first, then ascending id.
pub open spec fn ranks_before(a: (Seq<char>, int), b: (Seq<char>, int)) -> bool {
    a.1 > b.1 || (a.1 == b.1 && lex_lt(a.0, b.0))
}

pub open spec fn match_view(m: Match) -> (Seq<char>, int) {
    (m.id@, m.score as int)
}

/// The roles that answer the phrase at all (score > 0), with their scores.
pub open spec fn answering(roster: Roster, phrase: Seq<char>) -> Set<(Seq<char>, int)> {
    Set::new(
        |p: (Seq<char>, int)|
            exists|k: int|
                0 <= k < roster.entries@.len() && p.0 == roster.entries@[k].0@ && p.1 == role_score(
                    roster,
                    k,
                    phrase,
                ) && role_score(roster, k, phrase) > 0,
    )
}

fn count_shared(pt: &Vec<Vec<char>>, it: &Vec<Vec<char>>) -> (n: usize)
    ensures
        n == vv(pt@).filter(|t: Seq<char>| vv(it@).contains(t)).len(),
{
    let ghost f = |t: Seq<char>| vv(it@).contains(t);
    let mut n: usize = 0;
    let mut i: usize = 0;
    while i < pt.len()
        invariant
            0 <= i <= pt@.len(),
            f == (|t: Seq<char>| vv(it@).contains(t)),
            n == vv(pt@).take(i as int).filter(f).len(),
            n <= i,
        decreases pt@.len() - i,
    {
        let ghost t = vv(pt@).take(i as int);
        assert(vv(pt@).take(i + 1) =~= t.push(pt@[i as int]@));
        proof {
            t.lemma_filter_push(pt@[i as int]@, f);
        }
        if contains_word(it, pt[i].as_slice()) {
            n += 1;
        }
        i += 1;
    }
    assert(vv(pt@).take(pt@.len() as int) =~= vv(pt@));
    n
}

fn all_in(a: &Vec<Vec<char>>, b: &Vec<Vec<char>>) -> (r: bool)
    ensures
        r == (forall|i: int| 0 <= i < vv(a@).len() ==> vv(b@).contains(#[trigger] vv(a@)[i])),
{
    let mut i: usize = 0;
    while i < a.len()
        invariant
            0 <= i <= a@.len(),
            forall|k: int| 0 <= k < i ==> vv(b@).contains(#[trigger] vv(a@)[k]),
        decreases a@.len() - i,
    {
        assert(vv(a@)[i as int] == a@[i as int]@);
        if !contains_word(b, a[i].as_slice()) {
            return false;
        }
        i += 1;
    }
    true
}

fn score_ident(ident: &[char], np: &Vec<char>, pt: &Vec<Vec<char>>) -> (s: i32)
    requires
        pt@.len() <= 200_000_000,
    ensures
        s == ident_score(ident@, np@, vv(pt@)),
{
    let ni = normalized_chars(ident);
    if ni.len() == 0 {
        return 0;
    }
    let it = tokens(ident);
    if same(ni.as_slice(), np.as_slice()) {
        100
    } else if pt.len() > 0 && all_in(pt, &it) {
        75
    } else if it.len() > 0 && all_in(&it, pt) {
        65
    } else if contains(ni.as_slice(), np.as_slice()) || contains(np.as_slice(), ni.as_slice()) {
        45
    } else {
        let shared = count_shared(pt, &it);
        if shared > 0 {
            25 + 10 * (shared as i32)
        } else {
            0
        }
    }
}

fn ranked_before(a: &Match, b: &Match) -> (r: bool)
    ensures
        r == ranks_before(match_view(*a), match_view(*b)),
{
    if a.score != b.score {
        return a.score > b.score;
    }
    let ac = chars_of(a.id.as_str());
    let bc = chars_of(b.id.as_str());
    less(ac.as_slice(), bc.as_slice())
}

/// Insert `m` into the ranked `out`, keeping it sorted.
fn insert_ranked(out: &mut Vec<Match>, m: Match)
    requires
        forall|a: int, b: int|
            0 <= a < b < old(out)@.len() ==> ranks_before(
                #[trigger] match_view(old(out)@[a]),
                #[trigger] match_view(old(out)@[b]),
            ),
        forall|a: int| 0 <= a < old(out)@.len() ==> #[trigger] old(out)@[a].id@ != m.id@,
    ensures
        forall|a: int, b: int|
            0 <= a < b < final(out)@.len() ==> ranks_before(
                #[trigger] match_view(final(out)@[a]),
                #[trigger] match_view(final(out)@[b]),
            ),
        final(out)@.map_values(|x: Match| match_view(x)).to_set() == old(out)@.map_values(
            |x: Match| match_view(x),
        ).to_set().insert(match_view(m)),
        final(out)@.len() == old(out)@.len() + 1,
{
    let mut p: usize = 0;
    while p < out.len() && ranked_before(&out[p], &m)
        invariant
            0 <= p <= out@.len(),
            forall|a: int| 0 <= a < p ==> ranks_before(#[trigger] match_view(out@[a]), match_view(m)),
        decreases out@.len() - p,
    {
        p += 1;
    }
    let ghost old_out = out@;
    proof {
        if p < old_out.len() {
            lemma_lex_lt_total(old_out[p as int].id@, m.id@);
            assert(ranks_before(match_view(m), match_view(old_out[p as int])));
        }
    }
    out.insert(p, m);
    assert forall|a: int, b: int| 0 <= a < b < out@.len() implies ranks_before(
        #[trigger] match_view(out@[a]),
        #[trigger] match_view(out@[b]),
    ) by {
        if b < p {
            assert(ranks_before(match_view(old_out[a]), match_view(old_out[b])));
        } else if b == p {
        } else if a == p {
            let x = match_view(out@[a]);
            let y = match_view(old_out[p as int]);
            let z = match_view(old_out[b - 1]);
            if b - 1 > p {
                assert(ranks_before(y, z));
                lemma_lex_lt_transitive(x.0, y.0, z.0);
            }
        } else if a < p {
            assert(ranks_before(match_view(old_out[a]), match_view(old_out[b - 1])));
        } else {
            assert(ranks_before(match_view(old_out[a - 1]), match_view(old_out[b - 1])));
        }
    }
    let ghost nv = out@.map_values(|x: Match| match_view(x));
    let ghost ov = old_out.map_values(|x: Match| match_view(x));
    assert(nv.to_set() =~= ov.to_set().insert(match_view(m))) by {
        assert forall|x: (Seq<char>, int)| nv.to_set().contains(x) implies ov.to_set().insert(
            match_view(m),
        ).contains(x) by {
            let i = choose|i: int| 0 <= i < nv.len() && nv[i] == x;
            if i < p {
                assert(ov[i] == x);
            } else if i > p {
                assert(ov[i - 1] == x);
            }
        }
        assert forall|x: (Seq<char>, int)| ov.to_set().insert(match_view(m)).contains(x) implies nv.to_set().contains(
            x,
        ) by {
            if x == match_view(m) {
                assert(nv[p as int] == x);
            } else {
                let i = choose|i: int| 0 <= i < ov.len() && ov[i] == x;
                if i < p {
                    assert(nv[i] == x);
                } else {
                    assert(nv[i + 1] == x);
                }
            }
        }
    }
}

fn score_role(roster: &Roster, k: usize, np: &Vec<char>, pt: &Vec<Vec<char>>) -> (score: i32)
    requires
        roster.wf(),
        k < roster.entries@.len(),
        pt@.len() <= 200_000_000,
    ensures
        score == best_score(targets_spec(*roster, roster.entries@[k as int].0@), np@, vv(pt@)),
{
    let id = &roster.entries[k].0;
    let mut targets = identifiers(roster, id.as_str());
    proof {
        lemma_card_at(*roster, k as int);
    }
    push_opt(&mut targets, &roster.entries[k].1.desc);
    assert(strs(targets@) == targets_spec(*roster, id@));
    let mut score: i32 = 0;
    let mut t: usize = 0;
    while t < targets.len()
        invariant
            0 <= t <= targets@.len(),
            pt@.len() <= 200_000_000,
            score == best_score(strs(targets@).take(t as int), np@, vv(pt@)),
        decreases targets@.len() - t,
    {
        let ic = chars_of(targets[t].as_str());
        let s = score_ident(ic.as_slice(), np, pt);
        assert(strs(targets@).take(t + 1).drop_last() =~= strs(targets@).take(t as int));
        if s > score {
            score = s;
        }
        t += 1;
    }
    assert(strs(targets@).take(targets@.len() as int) =~= strs(targets@));
    score
}

/// Rank every role by how well it answers the loose phrase. Empty = no signal.
pub fn resolve(roster: &Roster, phrase: &str) -> (out: Vec<Match>)
    requires
        roster.wf(),
        phrase@.len() <= 200_000_000,
    ensures
        forall|a: int, b: int|
            0 <= a < b < out@.len() ==> ranks_before(
                #[trigger] match_view(out@[a]),
                #[trigger] match_view(out@[b]),
            ),
        out@.map_values(|x: Match| match_view(x)).to_set() == answering(*roster, phrase@),
{
    let pc = chars_of(phrase);
    let np = normalized_chars(pc.as_slice());
    let pt = tokens(pc.as_slice());
    proof {
        lemma_words_len(phrase@);
        words(phrase@).lemma_filter_len(not_stop());
    }
    let mut out: Vec<Match> = Vec::new();
    let mut k: usize = 0;
    while k < roster.entries.len()
        invariant
            roster.wf(),
            0 <= k <= roster.entries@.len(),
            np@ == normalized(phrase@),
            vv(pt@) == tokens_of(phrase@),
            pt@.len() <= 200_000_000,
            forall|a: int, b: int|
                0 <= a < b < out@.len() ==> ranks_before(
                    #[trigger] match_view(out@[a]),
                    #[trigger] match_view(out@[b]),
                ),
            forall|a: int|
                0 <= a < out@.len() ==> exists|j: int|
                    0 <= j < k && (#[trigger] out@[a]).id@ == roster.entries@[j].0@,
            out@.map_values(|x: Match| match_view(x)).to_set() == Set::new(
                |p: (Seq<char>, int)|
                    exists|j: int|
                        0 <= j < k && p.0 == roster.entries@[j].0@ && p.1 == role_score(
                            *roster,
                            j,
                            phrase@,
                        ) && role_score(*roster, j, phrase@) > 0,
            ),
        decreases roster.entries@.len() - k,
    {
        let id = &roster.entries[k].0;
        let score = score_role(roster, k, &np, &pt);
        assert(score == role_score(*roster, k as int, phrase@));
        let ghost before = out@.map_values(|x: Match| match_view(x)).to_set();
        if score > 0 {
            assert forall|a: int| 0 <= a < out@.len() implies #[trigger] out@[a].id@ != id@ by {
                let j = choose|j: int| 0 <= j < k && out@[a].id@ == roster.entries@[j].0@;
                assert(lex_lt(roster.entries@[j].0@, roster.entries@[k as int].0@));
                lemma_lex_lt_irreflexive(id@);
            }
            let m = Match { id: clone_str(id), score };
            insert_ranked(&mut out, m);
            assert forall|a: int| 0 <= a < out@.len() implies exists|j: int|
                0 <= j < k + 1 && (#[trigger] out@[a]).id@ == roster.entries@[j].0@ by {
                let x = match_view(out@[a]);
                assert(out@.map_values(|x: Match| match_view(x))[a] == x);
                assert(out@.map_values(|x: Match| match_view(x)).to_set().contains(x));
            }
        }
        assert(out@.map_values(|x: Match| match_view(x)).to_set() =~= Set::new(
            |p: (Seq<char>, int)|
                exists|j: int|
                    0 <= j < k + 1 && p.0 == roster.entries@[j].0@ && p.1 == role_score(
                        *roster,
                        j,
                        phrase@,
                    ) && role_score(*roster, j, phrase@) > 0,
        ));
        k += 1;
    }
    out
}

// ====================================================================== laws

proof fn lemma_first_clash_none(id: Seq<char>, idents: Seq<Seq<char>>, np: Seq<char>, j: int)
    requires
        first_clash(id, idents, np) is None,
        0 <= j < idents.len(),
    ensures
        clash_reason(normalized(idents[j]), np) is None,
    decreases idents.len(),
{
    if j > 0 {
        assert(idents.drop_first()[j - 1] == idents[j]);
        lemma_first_clash_none(id, idents.drop_first(), np, j - 1);
    }
}

proof fn lemma_roster_clash_none(roster: Roster, from: int, me: Seq<char>, np: Seq<char>, k: int)
    requires
        0 <= from <= k < roster.entries@.len(),
        roster_clash(roster, from, me, np) is None,
        roster.entries@[k].0@ != me,
    ensures
        first_clash(roster.entries@[k].0@, idents_spec(roster, roster.entries@[k].0@), np) is None,
    decreases k - from,
{
    if from < k {
        lemma_roster_clash_none(roster, from + 1, me, np, k);
    }
}

/// When `conflict` clears a proposed name, no other role has an identifier that it would be
/// confused with: none normalizes to the same text, none has all its significant words
/// among the proposal's or the other way round, and when both are at least 4 bytes long
/// none is one edit (insert, delete or substitute a character) away.
pub proof fn a_cleared_name_is_far_from_every_other_role(roster: Roster, me: Seq<char>, proposed: Seq<char>, k: int, j: int)
    requires
        conflict_spec(roster, me, proposed) is None,
        0 <= k < roster.entries@.len(),
        roster.entries@[k].0@ != me,
        0 <= j < idents_spec(roster, roster.entries@[k].0@).len(),
    ensures
        ({
            let np = normalized(proposed);
            let ni = normalized(idents_spec(roster, roster.entries@[k].0@)[j]);
            ni.len() > 0 ==> {
                &&& ni != np
                &&& !token_subset_spec(np, ni)
                &&& utf8_len(np) >= 4 && utf8_len(ni) >= 4 ==> lev_spec(np, ni) > 1
            }
        }),
{
    let np = normalized(proposed);
    let id = roster.entries@[k].0@;
    lemma_roster_clash_none(roster, 0, me, np, k);
    lemma_first_clash_none(id, idents_spec(roster, id), np, j);
}

proof fn lemma_best_score_at_least(targets: Seq<Seq<char>>, np: Seq<char>, pt: Seq<Seq<char>>, i: int)
    requires
        0 <= i < targets.len(),
    ensures
        best_score(targets, np, pt) >= ident_score(targets[i], np, pt),
    decreases targets.len(),
{
    if i < targets.len() - 1 {
        assert(targets.drop_last()[i] == targets[i]);
        lemma_best_score_at_least(targets.drop_last(), np, pt, i);
    }
}

/// A phrase that is part of one of a role's identifiers or of its description (or that
/// contains one of them whole) finds that role: it is among the answers, scored at least 45.
pub proof fn a_partial_name_finds_its_role(roster: Roster, phrase: Seq<char>, k: int, j: int)
    requires
        0 <= k < roster.entries@.len(),
        0 <= j < targets_spec(roster, roster.entries@[k].0@).len(),
        normalized(phrase).len() > 0,
        normalized(targets_spec(roster, roster.entries@[k].0@)[j]).len() > 0,
        contains_seq(normalized(targets_spec(roster, roster.entries@[k].0@)[j]), normalized(phrase)) || contains_seq(
            normalized(phrase),
            normalized(targets_spec(roster, roster.entries@[k].0@)[j]),
        ),
    ensures
        role_score(roster, k, phrase) >= 45,
        answering(roster, phrase).contains((roster.entries@[k].0@, role_score(roster, k, phrase))),
{
    let ts = targets_spec(roster, roster.entries@[k].0@);
    lemma_best_score_at_least(ts, normalized(phrase), tokens_of(phrase), j);
}

} // verus!
