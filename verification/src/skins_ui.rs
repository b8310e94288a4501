//! The Skins tab's bookkeeping: the texture keys under which skins and
//! capes are uploaded, and when the tab asks the servers for the
//! account's looks.

use vstd::prelude::*;
use vstd::string::*;
use crate::text::{chars_of, slice_chars, starts_with, starts_with_seq, str_eq, string_of};

verus! {

/// Which list the right side of the tab shows.
#[derive(Debug, Clone, Copy, PartialEq, Eq, Structural)]
pub enum SkinsView {
    Library,
    Gallery,
}

impl SkinsView {
    /// The tab opens on the library.
    pub fn first() -> (r: SkinsView)
        ensures
            r == SkinsView::Library,
    {
        SkinsView::Library
    }
}

/// What a texture key names.
#[derive(Debug, Clone, Copy, PartialEq, Eq, Structural)]
pub enum KeyKind {
    /// `lib:<id>`: a skin of the library.
    Library,
    /// `gal:<hash>`: a skin listed in the gallery.
    Gallery,
    /// `askin:<hash>`: the Arctic skin.
    ArcticSkin,
    /// `acape:<hash>`: an Arctic cape.
    ArcticCape,
    /// `mccape:<id>`: a Minecraft cape of the account.
    MinecraftCape,
    /// `mc`: the account's Minecraft skin.
    Minecraft,
    Unknown,
}

/// The prefix of the keys of each kind.
pub open spec fn key_prefix(kind: KeyKind) -> Seq<char> {
    match kind {
        KeyKind::Library => "lib:"@,
        KeyKind::Gallery => "gal:"@,
        KeyKind::ArcticSkin => "askin:"@,
        KeyKind::ArcticCape => "acape:"@,
        KeyKind::MinecraftCape => "mccape:"@,
        KeyKind::Minecraft => "mc"@,
        KeyKind::Unknown => Seq::empty(),
    }
}

/// What a key names, prefixes tried in the order the tab reads them.
pub open spec fn key_kind(key: Seq<char>) -> KeyKind {
    if starts_with_seq(key, "lib:"@) {
        KeyKind::Library
    } else if starts_with_seq(key, "gal:"@) {
        KeyKind::Gallery
    } else if starts_with_seq(key, "askin:"@) {
        KeyKind::ArcticSkin
    } else if starts_with_seq(key, "acape:"@) {
        KeyKind::ArcticCape
    } else if starts_with_seq(key, "mccape:"@) {
        KeyKind::MinecraftCape
    } else if key == "mc"@ {
        KeyKind::Minecraft
    } else {
        KeyKind::Unknown
    }
}

/// The id or hash after the key's prefix.
pub open spec fn key_rest(key: Seq<char>) -> Seq<char> {
    key.skip(key_prefix(key_kind(key)).len() as int)
}

/// Whether the kind's keys carry an id or hash.
pub open spec fn has_rest(kind: KeyKind) -> bool {
    !(kind is Minecraft || kind is Unknown)
}

/// Split a texture key into what it names and the id or hash it carries.
pub fn parse_texture_key(key: &str) -> (r: (KeyKind, String))
    ensures
        r.0 == key_kind(key@),
        r.1@ == key_rest(key@),
{
    let v = chars_of(key);
    let kind = if starts_with(&v, &chars_of("lib:")) {
        KeyKind::Library
    } else if starts_with(&v, &chars_of("gal:")) {
        KeyKind::Gallery
    } else if starts_with(&v, &chars_of("askin:")) {
        KeyKind::ArcticSkin
    } else if starts_with(&v, &chars_of("acape:")) {
        KeyKind::ArcticCape
    } else if starts_with(&v, &chars_of("mccape:")) {
        KeyKind::MinecraftCape
    } else if str_eq(key, "mc") {
        KeyKind::Minecraft
    } else {
        KeyKind::Unknown
    };
    let skip: usize = match kind {
        KeyKind::Library => 4,
        KeyKind::Gallery => 4,
        KeyKind::ArcticSkin => 6,
        KeyKind::ArcticCape => 6,
        KeyKind::MinecraftCape => 7,
        KeyKind::Minecraft => 2,
        KeyKind::Unknown => 0,
    };
    proof {
        reveal_strlit("lib:");
        reveal_strlit("gal:");
        reveal_strlit("askin:");
        reveal_strlit("acape:");
        reveal_strlit("mccape:");
        reveal_strlit("mc");
    }
    assert(skip == key_prefix(kind).len());
    let rest = string_of(&slice_chars(&v, skip, v.len()));
    (kind, rest)
}

/// The key of a texture of the given kind.
pub open spec fn key_of(kind: KeyKind, id: Seq<char>) -> Seq<char> {
    key_prefix(kind) + if has_rest(kind) {
        id
    } else {
        Seq::empty()
    }
}

/// The key of a library skin, as uploaded and as dropped on delete.
pub fn library_key(id: &str) -> (r: String)
    ensures
        r@ == key_of(KeyKind::Library, id@),
{
    let mut s = String::from_str("lib:");
    s.append(id);
    s
}

/// The key of a gallery skin.
pub fn gallery_key(hash: &str) -> (r: String)
    ensures
        r@ == key_of(KeyKind::Gallery, hash@),
{
    let mut s = String::from_str("gal:");
    s.append(hash);
    s
}

/// Capes are uploaded frame by frame; skins go through the skin decoder.
pub fn is_cape_key(key: &str) -> (r: bool)
    ensures
        r == (starts_with_seq(key@, "mccape:"@) || starts_with_seq(key@, "acape:"@)),
{
    let v = chars_of(key);
    starts_with(&v, &chars_of("mccape:")) || starts_with(&v, &chars_of("acape:"))
}

/// After the Minecraft skin changed, the textures of the account (keys
/// starting with `mc`) are dropped and the others kept.
pub fn kept_after_skin_change(key: &str) -> (r: bool)
    ensures
        r == !starts_with_seq(key@, "mc"@),
{
    !starts_with(&chars_of(key), &chars_of("mc"))
}

/// A key built for a kind is read back as that kind with the same id.
pub proof fn law_texture_key_round_trip(kind: KeyKind, id: Seq<char>)
    requires
        has_rest(kind),
    ensures
        key_kind(key_of(kind, id)) == kind,
        key_rest(key_of(kind, id)) == id,
{
    reveal_strlit("lib:");
    reveal_strlit("gal:");
    reveal_strlit("askin:");
    reveal_strlit("acape:");
    reveal_strlit("mccape:");
    let k = key_of(kind, id);
    let p = key_prefix(kind);
    assert(k.take(p.len() as int) =~= p);
    assert(k.skip(p.len() as int) =~= id);
    // Each prefix differs from the ones tried before it in some position.
    if kind != KeyKind::Library {
        assert(k[0] != 'l' || k[1] != 'i');
        assert(!starts_with_seq(k, "lib:"@)) by {
            if starts_with_seq(k, "lib:"@) {
                assert(k.take(4)[0] == 'l');
                assert(k.take(4)[1] == 'i');
            }
        }
    }
    if kind != KeyKind::Library && kind != KeyKind::Gallery {
        assert(!starts_with_seq(k, "gal:"@)) by {
            if starts_with_seq(k, "gal:"@) {
                assert(k.take(4)[0] == 'g');
            }
        }
    }
    if kind == KeyKind::ArcticCape || kind == KeyKind::MinecraftCape {
        assert(!starts_with_seq(k, "askin:"@)) by {
            if starts_with_seq(k, "askin:"@) {
                assert(k.take(6)[0] == 'a');
                assert(k.take(6)[1] == 's');
            }
        }
    }
    if kind == KeyKind::MinecraftCape {
        assert(!starts_with_seq(k, "acape:"@)) by {
            if starts_with_seq(k, "acape:"@) {
                assert(k.take(6)[0] == 'a');
            }
        }
    }
}

/// What the tab asks for: the Arctic look and the Minecraft skin of the
/// active account.
#[derive(Debug, Clone, Copy, PartialEq, Eq, Structural)]
pub struct SkinRequests {
    pub arctic_look: bool,
    pub minecraft_skin: bool,
}

/// The active account, as the Skins tab sees it.
#[derive(Debug, Clone, Copy, PartialEq, Eq, Structural)]
pub struct SkinAccount {
    pub microsoft: bool,
    /// Its Arctic look was fetched (or failed).
    pub look_known: bool,
    /// Its Minecraft skin was fetched (or failed).
    pub skin_known: bool,
}

/// Each of the account's looks is fetched once (again when `force`), never
/// while a request for it runs; the Minecraft skin only for Microsoft
/// accounts; nothing without an account.
pub fn skin_requests(account: Option<SkinAccount>, force: bool, look_busy: bool, skin_busy: bool) -> (r:
    SkinRequests)
    ensures
        r.arctic_look == (account matches Some(a) && (force || !a.look_known) && !look_busy),
        r.minecraft_skin == (account matches Some(a) && a.microsoft && (force || !a.skin_known)
            && !skin_busy),
{
    match account {
        None => SkinRequests { arctic_look: false, minecraft_skin: false },
        Some(a) => SkinRequests {
            arctic_look: (force || !a.look_known) && !look_busy,
            minecraft_skin: a.microsoft && (force || !a.skin_known) && !skin_busy,
        },
    }
}

/// The Minecraft skin can be changed for a Microsoft account whose skin
/// state was read, while no change runs.
pub fn can_change_minecraft_skin(busy: bool, microsoft: Option<bool>, skin_read: bool) -> (r: bool)
    ensures
        r == (!busy && microsoft == Some(true) && skin_read),
{
    !busy && match microsoft {
        Some(m) => m && skin_read,
        None => false,
    }
}

/// "Look updated" is shown when a new look came back over one that was
/// already there.
pub fn look_updated(result_ok: bool, had_look: bool) -> (r: bool)
    ensures
        r == (result_ok && had_look),
{
    result_ok && had_look
}

} // verus!
