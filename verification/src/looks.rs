//! Skins, capes and cosmetics: what `arctic skin` and `arctic look` pick
//! from what the user typed.

use vstd::prelude::*;
use vstd::string::*;
use crate::cli::{opt_str, SkinModel};
use crate::errors::Error;
use crate::migrate::first_index;
use crate::select::{contains_text, has_text};
use crate::text::{chars_of, eq_ignore_ascii_case, eq_ignore_case, str_eq};

verus! {

/// Arm width of a skin.
#[derive(Debug, Clone, Copy, PartialEq, Eq, Structural)]
pub enum Variant {
    Classic,
    Slim,
}

/// `--model`, or the guess from the image.
pub fn skin_variant(model: Option<SkinModel>, guessed: Variant) -> (r: Variant)
    ensures
        r == match model {
            Some(SkinModel::Slim) => Variant::Slim,
            Some(SkinModel::Classic) => Variant::Classic,
            None => guessed,
        },
{
    match model {
        Some(SkinModel::Slim) => Variant::Slim,
        Some(SkinModel::Classic) => Variant::Classic,
        None => guessed,
    }
}

/// A Minecraft cape the account owns.
#[derive(Debug)]
pub struct OwnedCape {
    pub id: String,
    pub alias: String,
}

/// The capes that `wanted` names: by id, or by alias ignoring ASCII case.
pub open spec fn names_cape(capes: Seq<OwnedCape>, wanted: Seq<char>) -> spec_fn(int) -> bool {
    |i: int| capes[i].id@ == wanted || eq_ignore_case(capes[i].alias@, wanted)
}

pub open spec fn no_cape_message(wanted: Seq<char>) -> Seq<char> {
    "you don't own a cape called '"@ + wanted + "'"@
}

proof fn lemma_found_stays(n: nat, m: nat, p: spec_fn(int) -> bool)
    requires
        m <= n,
        first_index(m, p) is Some,
    ensures
        first_index(n, p) == first_index(m, p),
    decreases n,
{
    if n > m {
        lemma_found_stays((n - 1) as nat, m, p);
    }
}

/// The cape to equip for `arctic skin cape`: `none`, or an owned cape by
/// id or name.
pub fn owned_cape_choice(capes: &Vec<OwnedCape>, cape: &str) -> (r: Result<Option<usize>, Error>)
    ensures
        cape@ == "none"@ ==> r matches Ok(None),
        cape@ != "none"@ ==> match first_index(capes@.len(), names_cape(capes@, cape@)) {
            Some(i) => r matches Ok(Some(j)) && j == i,
            None => r matches Err(e) && e matches Error::Other(m) && m@ == no_cape_message(cape@),
        },
{
    if str_eq(cape, "none") {
        return Ok(None);
    }
    let ghost p = names_cape(capes@, cape@);
    let w = chars_of(cape);
    let mut i: usize = 0;
    while i < capes.len()
        invariant
            0 <= i <= capes.len(),
            w@ == cape@,
            cape@ != "none"@,
            p == names_cape(capes@, cape@),
            first_index(i as nat, p) is None,
        decreases capes.len() - i,
    {
        let c = &capes[i];
        if str_eq(c.id.as_str(), cape) || eq_ignore_ascii_case(&chars_of(c.alias.as_str()), &w) {
            proof {
                assert(first_index((i + 1) as nat, p) == Some(i as int));
                lemma_found_stays(capes@.len(), (i + 1) as nat, p);
            }
            return Ok(Some(i));
        }
        i += 1;
    }
    let mut m = String::from_str("you don't own a cape called '");
    m.append(cape);
    m.append("'");
    Err(Error::Other(m))
}

/// A cape preset of the Arctic looks service.
#[derive(Debug)]
pub struct Preset {
    pub id: String,
    pub name: String,
    /// Hash of the preset's texture.
    pub texture: String,
}

/// What `arctic look cape` was given.
#[derive(Debug, PartialEq, Eq, Structural)]
pub enum CapePick {
    /// `none`: take the cape off.
    Nothing,
    /// The preset at this position.
    Preset(usize),
    /// Not a preset: the text should name a cape PNG file.
    File,
}

/// The presets that `cape` names: by id, or by name ignoring ASCII case.
pub open spec fn names_preset(presets: Seq<Preset>, cape: Seq<char>) -> spec_fn(int) -> bool {
    |i: int| presets[i].id@ == cape || eq_ignore_case(presets[i].name@, cape)
}

/// A preset id or name, a PNG file, or `none`.
pub fn look_cape(presets: &Vec<Preset>, cape: &str) -> (r: CapePick)
    ensures
        cape@ == "none"@ ==> r == CapePick::Nothing,
        cape@ != "none"@ ==> r == match first_index(
            presets@.len(),
            names_preset(presets@, cape@),
        ) {
            Some(i) => CapePick::Preset(i as usize),
            None => CapePick::File,
        },
{
    if str_eq(cape, "none") {
        return CapePick::Nothing;
    }
    let ghost p = names_preset(presets@, cape@);
    let w = chars_of(cape);
    let mut i: usize = 0;
    while i < presets.len()
        invariant
            0 <= i <= presets.len(),
            w@ == cape@,
            cape@ != "none"@,
            p == names_preset(presets@, cape@),
            first_index(i as nat, p) is None,
        decreases presets.len() - i,
    {
        let c = &presets[i];
        if str_eq(c.id.as_str(), cape) || eq_ignore_ascii_case(&chars_of(c.name.as_str()), &w) {
            proof {
                assert(first_index((i + 1) as nat, p) == Some(i as int));
                lemma_found_stays(presets@.len(), (i + 1) as nat, p);
            }
            return CapePick::Preset(i);
        }
        i += 1;
    }
    CapePick::File
}

/// The presets with texture `hash`.
pub open spec fn with_texture(presets: Seq<Preset>, hash: Seq<char>) -> spec_fn(int) -> bool {
    |i: int| presets[i].texture@ == hash
}

/// The name shown for the cape being worn: its preset's name, `custom` for
/// any other texture, nothing when no cape is worn.
pub open spec fn cape_label(presets: Seq<Preset>, worn: Option<Seq<char>>) -> Option<Seq<char>> {
    match worn {
        None => None,
        Some(hash) => match first_index(presets.len(), with_texture(presets, hash)) {
            Some(i) => Some(presets[i].name@),
            None => Some("custom"@),
        },
    }
}

/// The name of the cape being worn.
pub fn cape_name(presets: &Vec<Preset>, worn: Option<&str>) -> (r: Option<String>)
    ensures
        (r is None) == (worn is None),
        r matches Some(s) ==> cape_label(presets@, opt_str(worn)) == Some(s@),
{
    match worn {
        None => None,
        Some(hash) => {
            let ghost p = with_texture(presets@, hash@);
            let mut i: usize = 0;
            while i < presets.len()
                invariant
                    0 <= i <= presets.len(),
                    p == with_texture(presets@, hash@),
                    worn == Some(hash),
                    first_index(i as nat, p) is None,
                decreases presets.len() - i,
            {
                if str_eq(presets[i].texture.as_str(), hash) {
                    proof {
                        assert(first_index((i + 1) as nat, p) == Some(i as int));
                        lemma_found_stays(presets@.len(), (i + 1) as nat, p);
                        assert(cape_label(presets@, Some(hash@)) == Some(presets@[i as int].name@));
                    }
                    let name = String::from_str(presets[i].name.as_str());
                    assert(name@ == presets@[i as int].name@);
                    return Some(name);
                }
                i += 1;
            }
            Some(String::from_str("custom"))
        },
    }
}

pub open spec fn no_cosmetic_message(id: Seq<char>) -> Seq<char> {
    "no cosmetic called '"@ + id + "' (see `arctic look show`)"@
}

/// `arctic look wear`: every id must be a cosmetic of the catalog; the
/// first that isn't is reported.
pub fn check_cosmetics(catalog: &Vec<String>, ids: &Vec<String>) -> (r: Result<(), Error>)
    ensures
        match first_index(ids@.len(), |i: int| !has_text(catalog@, ids@[i]@)) {
            None => r is Ok,
            Some(i) => r matches Err(e) && e matches Error::Other(m) && m@ == no_cosmetic_message(
                ids@[i]@,
            ),
        },
{
    let ghost p = |i: int| !has_text(catalog@, ids@[i]@);
    let mut i: usize = 0;
    while i < ids.len()
        invariant
            0 <= i <= ids.len(),
            p == (|i: int| !has_text(catalog@, ids@[i]@)),
            first_index(i as nat, p) is None,
        decreases ids.len() - i,
    {
        if !contains_text(catalog, ids[i].as_str()) {
            proof {
                assert(first_index((i + 1) as nat, p) == Some(i as int));
                lemma_found_stays(ids@.len(), (i + 1) as nat, p);
            }
            let mut m = String::from_str("no cosmetic called '");
            m.append(ids[i].as_str());
            m.append("' (see `arctic look show`)");
            return Err(Error::Other(m));
        }
        i += 1;
    }
    Ok(())
}

} // verus!
