//! The lines the list commands print for people: columns padded to a
//! width (`{:<n}`), numbers right-aligned (`{:>n}`), and the one-line
//! confirmations of the commands that change something.

use vstd::prelude::*;
use vstd::string::*;
use crate::commands::push_padded;
use crate::humanize::{megabytes, megabytes_text};
use crate::text::{decimal, decimal_string, pad_right, push_char};

verus! {

/// `s` padded on the left with spaces to `width` characters (`{:>width}`).
pub open spec fn pad_left(s: Seq<char>, width: nat) -> Seq<char> {
    if s.len() >= width {
        s
    } else {
        Seq::new((width - s.len()) as nat, |i: int| ' ') + s
    }
}

/// Appends `text` padded on the left with spaces to `width` characters.
pub fn push_right_aligned(s: &mut String, text: &str, width: usize)
    ensures
        final(s)@ == old(s)@ + pad_left(text@, width as nat),
{
    let n = text.unicode_len();
    let ghost base = old(s)@;
    let mut k: usize = n;
    while k < width
        invariant
            n == text@.len(),
            base == old(s)@,
            n <= k,
            k <= width || k == n,
            s@ == base + Seq::new((k - n) as nat, |i: int| ' '),
        decreases width - k,
    {
        push_char(s, ' ');
        k += 1;
        assert(s@ =~= base + Seq::new((k - n) as nat, |i: int| ' '));
    }
    s.append(text);
    assert(s@ =~= old(s)@ + pad_left(text@, width as nat));
}

/// `*` for the active entry, a space for the others.
pub open spec fn marker(active: bool) -> Seq<char> {
    if active {
        "*"@
    } else {
        " "@
    }
}

/// A row of `arctic accounts list`: marker, name, kind and UUID.
pub open spec fn account_row_text(active: bool, username: Seq<char>, kind: Seq<char>, uuid: Seq<char>) -> Seq<char> {
    marker(active) + " "@ + pad_right(username, 18) + " "@ + pad_right(kind, 10) + " "@ + uuid
}

pub fn account_row(active: bool, username: &str, kind: &str, uuid: &str) -> (r: String)
    ensures
        r@ == account_row_text(active, username@, kind@, uuid@),
{
    let mut s = String::from_str(
        if active {
            "*"
        } else {
            " "
        },
    );
    s.append(" ");
    push_padded(&mut s, username, 18);
    s.append(" ");
    push_padded(&mut s, kind, 10);
    s.append(" ");
    s.append(uuid);
    s
}

/// A row of `arctic profiles list`: marker, name and id.
pub open spec fn profile_row_text(active: bool, name: Seq<char>, id: Seq<char>) -> Seq<char> {
    marker(active) + " "@ + pad_right(name, 24) + " "@ + id
}

pub fn profile_row(active: bool, name: &str, id: &str) -> (r: String)
    ensures
        r@ == profile_row_text(active, name@, id@),
{
    let mut s = String::from_str(
        if active {
            "*"
        } else {
            " "
        },
    );
    s.append(" ");
    push_padded(&mut s, name, 24);
    s.append(" ");
    s.append(id);
    s
}

/// A row of `arctic instances list`: id, name, Minecraft version (`any`
/// when it plays any release) and loader.
pub open spec fn instance_row_text(id: Seq<char>, name: Seq<char>, version: Option<Seq<char>>, loader: Seq<char>) -> Seq<char> {
    pad_right(id, 24) + " "@ + pad_right(name, 20) + " "@ + pad_right(
        match version {
            Some(v) => v,
            None => "any"@,
        },
        10,
    ) + " "@ + loader
}

pub fn instance_row(id: &str, name: &str, version: Option<&str>, loader: &str) -> (r: String)
    ensures
        r@ == instance_row_text(
            id@,
            name@,
            match version {
                Some(v) => Some(v@),
                None => None,
            },
            loader@,
        ),
{
    let mut s = String::new();
    push_padded(&mut s, id, 24);
    s.append(" ");
    push_padded(&mut s, name, 20);
    s.append(" ");
    push_padded(
        &mut s,
        match version {
            Some(v) => v,
            None => "any",
        },
        10,
    );
    s.append(" ");
    s.append(loader);
    s
}

/// A search hit of `arctic mods search` and `arctic packs search`: slug,
/// downloads right-aligned, title.
pub open spec fn hit_row_text(slug: Seq<char>, downloads: u64, title: Seq<char>) -> Seq<char> {
    pad_right(slug, 28) + " "@ + pad_left(decimal(downloads as nat), 10) + "  "@ + title
}

pub fn hit_row(slug: &str, downloads: u64, title: &str) -> (r: String)
    ensures
        r@ == hit_row_text(slug@, downloads, title@),
{
    let mut s = String::new();
    push_padded(&mut s, slug, 28);
    s.append(" ");
    let d = decimal_string(downloads);
    push_right_aligned(&mut s, d.as_str(), 10);
    s.append("  ");
    s.append(title);
    s
}

/// A row of `arctic worlds list`: name, size right-aligned, folder.
pub open spec fn world_row_text(name: Seq<char>, size: u64, folder: Seq<char>) -> Seq<char> {
    pad_right(name, 32) + " "@ + pad_left(megabytes_text(size as nat), 9) + "  "@ + folder
}

pub fn world_row(name: &str, size: u64, folder: &str) -> (r: String)
    ensures
        r@ == world_row_text(name@, size, folder@),
{
    let mut s = String::new();
    push_padded(&mut s, name, 32);
    s.append(" ");
    let mb = megabytes(size);
    push_right_aligned(&mut s, mb.as_str(), 9);
    s.append("  ");
    s.append(folder);
    s
}

/// A row of `arctic packs list`: `on ` or `off`, then the file.
pub fn pack_row(active: bool, file: &str) -> (r: String)
    ensures
        r@ == (if active {
            "on "@
        } else {
            "off"@
        }) + " "@ + file@,
{
    let mut s = String::from_str(
        if active {
            "on "
        } else {
            "off"
        },
    );
    s.append(" ");
    s.append(file);
    s
}

/// A row of `arctic paths`: the name padded to 10, then the path.
pub fn path_row(name: &str, path: &str) -> (r: String)
    ensures
        r@ == pad_right(name@, 10) + " "@ + path@,
{
    let mut s = String::new();
    push_padded(&mut s, name, 10);
    s.append(" ");
    s.append(path);
    s
}

/// "{file} is now on" / "off", after switching a mod or a pack.
pub fn switched_text(file: &str, on: bool) -> (r: String)
    ensures
        r@ == file@ + " is now "@ + (if on {
            "on"@
        } else {
            "off"@
        }),
{
    let mut s = String::from_str(file);
    s.append(" is now ");
    s.append(
        if on {
            "on"
        } else {
            "off"
        },
    );
    s
}

/// After `arctic profiles create`.
pub fn profile_created_text(name: &str, switched: bool) -> (r: String)
    ensures
        r@ == "Created profile "@ + name@ + (if switched {
            " (now active)"@
        } else {
            ""@
        }),
{
    let mut s = String::from_str("Created profile ");
    s.append(name);
    s.append(
        if switched {
            " (now active)"
        } else {
            ""
        },
    );
    s
}

/// After `arctic instances create`.
pub fn instance_created_text(name: &str, loader: &str, game: &str, id: &str) -> (r: String)
    ensures
        r@ == "Created "@ + name@ + " ("@ + loader@ + ", Minecraft "@ + game@
            + "). Start it with: arctic launch --instance "@ + id@,
{
    let mut s = String::from_str("Created ");
    s.append(name);
    s.append(" (");
    s.append(loader);
    s.append(", Minecraft ");
    s.append(game);
    s.append("). Start it with: arctic launch --instance ");
    s.append(id);
    s
}

/// A choice listed under `arctic look show`: id padded to 16, then the
/// name (and the slot of a cosmetic).
pub fn choice_line(id: &str, name: &str, slot: Option<&str>) -> (r: String)
    ensures
        r@ == "\n    "@ + pad_right(id@, 16) + " "@ + name@ + match slot {
            Some(s) => " ("@ + s@ + ")"@,
            None => Seq::empty(),
        },
{
    let mut s = String::from_str("\n    ");
    push_padded(&mut s, id, 16);
    s.append(" ");
    s.append(name);
    let ghost head = s@;
    if let Some(sl) = slot {
        s.append(" (");
        s.append(sl);
        s.append(")");
    }
    assert(s@ =~= head + match slot {
        Some(t) => " ("@ + t@ + ")"@,
        None => Seq::empty(),
    });
    s
}

} // verus!
