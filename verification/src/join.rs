//! Joining a hub as a role: the checks that keep one clone bound to one role and one role
//! bound to one signing key, and the local git configuration a join writes. Reading cards,
//! identity files and keys, and running git, happen outside.
use vstd::prelude::*;
use crate::text::opt_str;
use crate::text::{chars_of, trim, trimmed, push_all, is_prefix, starts_with, same};
use crate::clonehome::{ws_tokens, split_ws};
use crate::append::{slug_ok, reserved, valid_slug, is_reserved_name};

verus! {

// ---------------------------------------------------------------- key identity

/// A public key's identity: its algorithm and key material (the first two words, joined by a
/// space), ignoring the comment; a text with fewer words is compared trimmed.
pub open spec fn material(s: Seq<char>) -> Seq<char> {
    let w = ws_tokens(s);
    if w.len() >= 2 {
        w[0] + seq![' '] + w[1]
    } else {
        trim(s)
    }
}

fn material_of(s: &str) -> (m: Vec<char>)
    ensures
        m@ == material(s@),
{
    let c = chars_of(s);
    let w = split_ws(c.as_slice());
    if w.len() >= 2 {
        assert(crate::clonehome::vv(w@)[0] == w@[0]@ && crate::clonehome::vv(w@)[1] == w@[1]@);
        let mut m: Vec<char> = Vec::new();
        push_all(&mut m, w[0].as_slice());
        m.push(' ');
        push_all(&mut m, w[1].as_slice());
        assert(m@ =~= w@[0]@ + seq![' '] + w@[1]@);
        m
    } else {
        trimmed(c.as_slice())
    }
}

/// Do two public keys have the same algorithm and key material?
pub fn pubkey_material_eq(a: &str, b: &str) -> (r: bool)
    ensures
        r == (material(a@) == material(b@)),
{
    let ma = material_of(a);
    let mb = material_of(b);
    same(ma.as_slice(), mb.as_slice())
}

/// What publishing this clone's key in the role's card does.
#[derive(Clone, Copy, PartialEq, Eq, Structural, Debug)]
pub enum CardKey {
    /// The card already publishes this key: nothing to write.
    Unchanged,
    /// The card publishes no key and the role never did: publish it.
    Publish,
    /// The card publishes a different key: a role cannot be re-keyed.
    DifferentKey,
    /// The card shows no key now but the role published one before (its card may have been
    /// tampered): refuse to re-key through the gap.
    KeyedBefore,
}

/// The identity is the key: a role keeps the first key it publishes. `published` is the key
/// the card publishes now; `ever_published` whether any revision of the card ever did.
pub open spec fn card_key_spec(published: Option<Seq<char>>, ever_published: bool, mine: Seq<char>) -> CardKey {
    match published {
        Some(k) => if material(k) == material(mine) {
            CardKey::Unchanged
        } else {
            CardKey::DifferentKey
        },
        None => if ever_published {
            CardKey::KeyedBefore
        } else {
            CardKey::Publish
        },
    }
}

pub fn card_key(published: &Option<String>, ever_published: bool, mine: &str) -> (r: CardKey)
    ensures
        r == card_key_spec(opt_str(*published), ever_published, mine@),
{
    match published {
        Some(k) => {
            if pubkey_material_eq(k.as_str(), mine) {
                CardKey::Unchanged
            } else {
                CardKey::DifferentKey
            }
        },
        None => {
            if ever_published {
                CardKey::KeyedBefore
            } else {
                CardKey::Publish
            }
        },
    }
}

/// Once keyed, never re-keyed: a key is only ever written to a card that never published one,
/// and a card that publishes a different key is never touched.
pub proof fn a_role_keeps_its_first_key(published: Option<Seq<char>>, ever_published: bool, mine: Seq<char>)
    ensures
        card_key_spec(published, ever_published, mine) == CardKey::Publish ==> published is None && !ever_published,
        published is Some && material(published->0) != material(mine) ==> card_key_spec(published, ever_published, mine)
            == CardKey::DifferentKey,
        published is None && ever_published ==> card_key_spec(published, ever_published, mine) == CardKey::KeyedBefore,
{
}

/// The public key file of a signing key: the path itself when its extension is `pub`, else the
/// path with `.pub` appended.
pub open spec fn pubkey_path_spec(key: Seq<char>) -> Seq<char> {
    if crate::api::path_extension(key) == Some("pub"@) {
        key
    } else {
        key + ".pub"@
    }
}

pub fn pubkey_path(key: &str) -> (p: String)
    ensures
        p@ == pubkey_path_spec(key@),
        crate::api::plain_path(key@) ==> p@ == if crate::api::name_extension(crate::api::last_segment_of(key@)) == Some("pub"@) {
            key@
        } else {
            key@ + ".pub"@
        },
{
    let ext = crate::api::extension(key);
    let is_pub = match &ext {
        Some(e) => crate::text::same(chars_of(e.as_str()).as_slice(), chars_of("pub").as_slice()),
        None => false,
    };
    if is_pub {
        key.to_owned()
    } else {
        let mut p = key.to_owned();
        p.append(".pub");
        p
    }
}

// ---------------------------------------------------------------- who may join

/// Why a join was refused before anything was written.
#[derive(Clone, Copy, PartialEq, Eq, Structural, Debug)]
pub enum JoinError {
    /// The role id is not a slug.
    BadRole,
    /// The role id is the broadcast target `all`.
    ReservedRole,
    /// The display name mixes Latin with Cyrillic or Greek look-alikes.
    HomoglyphDisplay,
    /// The clone's identity file could not be read.
    IdentityUnreadable,
    /// The clone's identity file names no role.
    IdentityWithoutRole,
    /// The clone already belongs to another role.
    OtherRole,
}

/// A role id must be a slug and not `all`; a display name must not risk homoglyph
/// impersonation.
pub open spec fn join_names_spec(role: Seq<char>, display: Option<Seq<char>>) -> Result<(), JoinError> {
    if !slug_ok(role) {
        Err(JoinError::BadRole)
    } else if reserved(role) {
        Err(JoinError::ReservedRole)
    } else if display is Some && crate::alias::mixed_script(display->0) {
        Err(JoinError::HomoglyphDisplay)
    } else {
        Ok(())
    }
}

pub fn check_join_names(role: &str, display: &Option<String>) -> (r: Result<(), JoinError>)
    ensures
        r == join_names_spec(role@, opt_str(*display)),
{
    if !valid_slug(role) {
        return Err(JoinError::BadRole);
    }
    if is_reserved_name(role) {
        return Err(JoinError::ReservedRole);
    }
    if let Some(d) = display {
        if crate::alias::homoglyph_risk(d.as_str()) {
            return Err(JoinError::HomoglyphDisplay);
        }
    }
    Ok(())
}

/// What the clone's `.confer/identity.json` said.
pub enum IdentityFile {
    /// There is none: a fresh clone.
    Absent,
    /// It exists but could not be read.
    Unreadable,
    /// It was read; the role it names, if any.
    Read(Option<String>),
}

/// One clone is one role: a fresh clone, or one already joined as this role, may join; one
/// bound to another role, or whose binding cannot be read, is refused unless `force` (an
/// unreadable file always is). Returns whether the join re-roles the clone by force.
pub open spec fn rerole_spec(file: IdentityFile, role: Seq<char>, force: bool) -> Result<bool, JoinError> {
    match file {
        IdentityFile::Absent => Ok(false),
        IdentityFile::Unreadable => Err(JoinError::IdentityUnreadable),
        IdentityFile::Read(prev) => match prev {
            None => if force {
                Ok(false)
            } else {
                Err(JoinError::IdentityWithoutRole)
            },
            Some(p) => if p@ == role {
                Ok(false)
            } else if force {
                Ok(true)
            } else {
                Err(JoinError::OtherRole)
            },
        },
    }
}

pub fn check_rerole(file: &IdentityFile, role: &str, force: bool) -> (r: Result<bool, JoinError>)
    ensures
        r == rerole_spec(*file, role@, force),
{
    match file {
        IdentityFile::Absent => Ok(false),
        IdentityFile::Unreadable => Err(JoinError::IdentityUnreadable),
        IdentityFile::Read(prev) => match prev {
            None => if force {
                Ok(false)
            } else {
                Err(JoinError::IdentityWithoutRole)
            },
            Some(p) => {
                if crate::text::same(chars_of(p.as_str()).as_slice(), chars_of(role).as_slice()) {
                    Ok(false)
                } else if force {
                    Ok(true)
                } else {
                    Err(JoinError::OtherRole)
                }
            },
        },
    }
}

/// Without `--force` a clone is never re-bound to another role, and an identity file that
/// cannot be read never lets a join through.
pub proof fn a_clone_keeps_its_role(file: IdentityFile, role: Seq<char>)
    ensures
        (file matches IdentityFile::Read(Some(p)) && p@ != role) ==> rerole_spec(file, role, false) == Err::<bool, JoinError>(JoinError::OtherRole),
        file is Unreadable ==> rerole_spec(file, role, true) is Err,
        rerole_spec(file, role, false) matches Ok(b) ==> !b,
{
}

// ---------------------------------------------------------------- git configuration

pub open spec fn pairs_view(v: Seq<(String, String)>) -> Seq<(Seq<char>, Seq<char>)> {
    v.map_values(|p: (String, String)| (p.0@, p.1@))
}

/// The clone-local git configuration a join writes: with a signing key, ssh signing through
/// `ssh-keygen` with that key (also when rebasing), and the role as committer; without one,
/// signing off and the role as committer — never the human's own signer.
pub open spec fn join_config_spec(role: Seq<char>, key: Option<Seq<char>>, keygen: Seq<char>) -> Seq<(Seq<char>, Seq<char>)> {
    let id = seq![("user.name"@, role), ("user.email"@, role + "@confer.local"@)];
    match key {
        Some(k) => seq![
            ("gpg.format"@, "ssh"@),
            ("gpg.ssh.program"@, keygen),
            ("user.signingkey"@, k),
            ("commit.gpgsign"@, "true"@),
            ("rebase.gpgSign"@, "true"@),
        ] + id,
        None => seq![("commit.gpgsign"@, "false"@), ("gpg.format"@, "ssh"@)] + id,
    }
}

fn pair(k: &str, v: &str) -> (p: (String, String))
    ensures
        p.0@ == k@ && p.1@ == v@,
{
    (k.to_owned(), v.to_owned())
}

pub fn join_config(role: &str, key: &Option<String>, keygen: &str) -> (w: Vec<(String, String)>)
    ensures
        pairs_view(w@) == join_config_spec(role@, opt_str(*key), keygen@),
{
    let mut w: Vec<(String, String)> = Vec::new();
    match key {
        Some(k) => {
            w.push(pair("gpg.format", "ssh"));
            w.push(pair("gpg.ssh.program", keygen));
            w.push(pair("user.signingkey", k.as_str()));
            w.push(pair("commit.gpgsign", "true"));
            w.push(pair("rebase.gpgSign", "true"));
        },
        None => {
            w.push(pair("commit.gpgsign", "false"));
            w.push(pair("gpg.format", "ssh"));
        },
    }
    w.push(pair("user.name", role));
    let mut email = role.to_owned();
    email.append("@confer.local");
    w.push(("user.email".to_owned(), email));
    assert(pairs_view(w@) =~= join_config_spec(role@, opt_str(*key), keygen@));
    w
}

/// Where a new clone goes: the directory named, else `<basename>` here — or under `home` when
/// that would nest inside another git work tree (`nested`) and the home is known.
pub fn safe_clone_dir(dir: Option<String>, basename: &str, nested: bool, home: &Option<String>) -> (d: String)
    ensures
        dir is Some ==> d@ == (dir->0)@,
        dir is None && nested && home is Some ==> d@ == crate::config::join((home->0)@, basename@),
        dir is None && !(nested && home is Some) ==> d@ == basename@,
{
    if let Some(d) = dir {
        return d;
    }
    if nested {
        if let Some(h) = home {
            return crate::config::join_exec(h.as_str(), basename);
        }
    }
    basename.to_owned()
}

/// The scheme a hub's routing records for its origin URL.
pub fn scheme_of(url: &str) -> (s: &'static str)
    ensures
        s@ == if is_prefix("http"@, url@) { "https"@ } else { "ssh"@ },
{
    if starts_with(chars_of(url).as_slice(), chars_of("http").as_slice()) {
        "https"
    } else {
        "ssh"
    }
}


// ---------------------------------------------------------------- a card's history

/// What one historical revision of a role card says about its key.
#[derive(Clone, Copy, PartialEq, Eq, Structural, Debug)]
pub enum CardRevision {
    /// The card did not exist at this revision.
    Absent,
    /// The card's frontmatter could not be read, or its key was not a usable value.
    Unreadable,
    /// The card published no key.
    NoKey,
    /// The card published a key.
    Keyed,
}

/// Whether role `role` ever published a key, from its card's revisions. A revision that cannot
/// be read counts as keyed: doubt never lets a role be re-keyed. An id that is not a slug names
/// no card.
pub open spec fn ever_keyed_spec(role: Seq<char>, revs: Seq<CardRevision>) -> bool {
    slug_ok(role) && exists|i: int| 0 <= i < revs.len() && (revs[i] == CardRevision::Keyed || revs[i] == CardRevision::Unreadable)
}

pub fn ever_keyed(role: &str, revs: &Vec<CardRevision>) -> (r: bool)
    ensures
        r == ever_keyed_spec(role@, revs@),
{
    if !valid_slug(role) {
        return false;
    }
    let mut i: usize = 0;
    while i < revs.len()
        invariant
            0 <= i <= revs@.len(),
            slug_ok(role@),
            forall|k: int| 0 <= k < i ==> revs@[k] != CardRevision::Keyed && revs@[k] != CardRevision::Unreadable,
        decreases revs@.len() - i,
    {
        if revs[i] == CardRevision::Keyed || revs[i] == CardRevision::Unreadable {
            return true;
        }
        i += 1;
    }
    false
}

} // verus!
