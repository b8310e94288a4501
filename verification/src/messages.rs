//! What the commands tell people once they have done something: the
//! summaries of a migration, a look, a skin, the settings table, and the
//! decisions about what to mention.

use vstd::prelude::*;
use vstd::string::*;
use crate::commands::push_padded;
use crate::text::{
    decimal, decimal_string, join_first, joined, pad_right, starts_with, starts_with_seq,
    chars_of, str_eq, views,
};

verus! {

/// The mods to warn about as listed by Modrinth for other versions: those
/// not already switched off (a switched-off file's name starts with the
/// name of the mod).
pub open spec fn still_mismatched_view(mismatched: Seq<Seq<char>>, turned_off: Seq<Seq<char>>) -> Seq<Seq<char>> {
    mismatched.filter(
        |m: Seq<char>| !(exists|k: int| 0 <= k < turned_off.len() && starts_with_seq(m, #[trigger] turned_off[k])),
    )
}

/// Whether one of `prefixes` starts `s`.
fn starts_with_any(s: &str, prefixes: &Vec<String>) -> (r: bool)
    ensures
        r == (exists|k: int| 0 <= k < prefixes@.len() && starts_with_seq(s@, #[trigger] views(prefixes@)[k])),
{
    let v = chars_of(s);
    let mut k: usize = 0;
    while k < prefixes.len()
        invariant
            k <= prefixes@.len(),
            v@ == s@,
            forall|j: int| 0 <= j < k ==> !starts_with_seq(s@, #[trigger] views(prefixes@)[j]),
        decreases prefixes@.len() - k,
    {
        if starts_with(&v, &chars_of(prefixes[k].as_str())) {
            assert(views(prefixes@)[k as int] == prefixes@[k as int]@);
            return true;
        }
        assert(views(prefixes@)[k as int] == prefixes@[k as int]@);
        k += 1;
    }
    false
}

/// The mismatched mods worth a warning, in order.
pub fn still_mismatched(mismatched: &Vec<String>, turned_off: &Vec<String>) -> (r: Vec<String>)
    ensures
        views(r@) == still_mismatched_view(views(mismatched@), views(turned_off@)),
{
    let mut r: Vec<String> = Vec::new();
    let mut i: usize = 0;
    while i < mismatched.len()
        invariant
            i <= mismatched@.len(),
            views(r@) == still_mismatched_view(views(mismatched@).take(i as int), views(turned_off@)),
        decreases mismatched@.len() - i,
    {
        let ghost before = r@;
        proof {
            assert(views(mismatched@).take(i + 1).drop_last() =~= views(mismatched@).take(i as int));
            reveal(Seq::filter);
        }
        if !starts_with_any(mismatched[i].as_str(), turned_off) {
            r.push(mismatched[i].clone());
            assert(views(r@) =~= views(before).push(mismatched@[i as int]@));
        }
        i += 1;
    }
    assert(views(mismatched@).take(mismatched@.len() as int) =~= views(mismatched@));
    r
}

/// The line after one instance came over.
pub open spec fn migrated_view(key: Seq<char>, created: bool, name: Seq<char>, files: u64, kept: u64, mods: u64, recognized: u64) -> Seq<char> {
    key + " → "@ + (if created {
        "new instance"@
    } else {
        "instance"@
    }) + " \""@ + name + "\": "@ + decimal(files as nat) + " files copied"@ + (if kept > 0 {
        ", "@ + decimal(kept as nat) + " already there (kept yours)"@
    } else {
        Seq::empty()
    }) + (if mods > 0 {
        ", "@ + decimal(mods as nat) + " mods ("@ + decimal(recognized as nat)
            + " recognized on Modrinth)"@
    } else {
        Seq::empty()
    })
}

pub fn migrated_text(key: &str, created: bool, name: &str, files: u64, kept: u64, mods: u64, recognized: u64) -> (r: String)
    ensures
        r@ == migrated_view(key@, created, name@, files, kept, mods, recognized),
{
    let mut s = String::from_str(key);
    s.append(" → ");
    s.append(
        if created {
            "new instance"
        } else {
            "instance"
        },
    );
    s.append(" \"");
    s.append(name);
    s.append("\": ");
    s.append(decimal_string(files).as_str());
    s.append(" files copied");
    if kept > 0 {
        s.append(", ");
        s.append(decimal_string(kept).as_str());
        s.append(" already there (kept yours)");
    }
    if mods > 0 {
        s.append(", ");
        s.append(decimal_string(mods).as_str());
        s.append(" mods (");
        s.append(decimal_string(recognized).as_str());
        s.append(" recognized on Modrinth)");
    }
    assert(s@ =~= migrated_view(key@, created, name@, files, kept, mods, recognized));
    s
}

/// A HUD widget the client did not save as on or off.
#[derive(Debug)]
pub struct Unsure {
    pub widget: String,
    /// Guessed on (it was moved).
    pub guess: bool,
}

pub open spec fn unsure_names(list: Seq<Unsure>) -> Seq<Seq<char>> {
    list.map_values(|u: Unsure| u.widget@ + if u.guess { "?"@ } else { ""@ })
}

/// The widgets not saved as on or off, guessed ones marked with `?`.
pub fn unsure_line(list: &Vec<Unsure>) -> (r: String)
    ensures
        r@ == "\n    not saved as on or off: "@ + joined(unsure_names(list@), ", "@)
            + " (? = guessed on; choose with --on)"@,
{
    let mut names: Vec<String> = Vec::new();
    let mut i: usize = 0;
    while i < list.len()
        invariant
            i <= list@.len(),
            views(names@) == unsure_names(list@.take(i as int)),
        decreases list@.len() - i,
    {
        let ghost before = names@;
        let mut n = list[i].widget.clone();
        n.append(
            if list[i].guess {
                "?"
            } else {
                ""
            },
        );
        let ghost made = n@;
        names.push(n);
        proof {
            assert(list@.take(i + 1) =~= list@.take(i as int).push(list@[i as int]));
            assert(unsure_names(list@.take(i + 1)) =~= unsure_names(list@.take(i as int)).push(made));
            assert(views(names@) =~= views(before).push(made));
        }
        i += 1;
    }
    assert(list@.take(list@.len() as int) =~= list@);
    let all = join_first(&names, names.len(), ", ");
    assert(views(names@).take(names@.len() as int) =~= views(names@));
    let mut s = String::from_str("\n    not saved as on or off: ");
    s.append(all.as_str());
    s.append(" (? = guessed on; choose with --on)");
    s
}

/// `arctic look`'s first line: whose look, which skin, which cape, and
/// what is worn.
pub open spec fn look_line_view(user: Seq<char>, skin: Option<Seq<char>>, cape: Option<Seq<char>>, wearing: Seq<Seq<char>>) -> Seq<char> {
    user + ": "@ + match skin {
        Some(variant) => variant,
        None => "Minecraft"@,
    } + " skin, cape: "@ + match cape {
        Some(c) => c,
        None => "none"@,
    } + ", wearing: "@ + if wearing.len() == 0 {
        "nothing"@
    } else {
        joined(wearing, ", "@)
    }
}

pub open spec fn opt_view(o: Option<&str>) -> Option<Seq<char>> {
    match o {
        Some(s) => Some(s@),
        None => None,
    }
}

/// The first line of `arctic look`; `skin` is the variant's label when an
/// Arctic skin is set.
pub fn look_line(user: &str, skin: Option<&str>, cape: Option<&str>, wearing: &Vec<String>) -> (r: String)
    ensures
        r@ == look_line_view(user@, opt_view(skin), opt_view(cape), views(wearing@)),
{
    let mut s = String::from_str(user);
    s.append(": ");
    s.append(
        match skin {
            Some(v) => v,
            None => "Minecraft",
        },
    );
    s.append(" skin, cape: ");
    s.append(
        match cape {
            Some(c) => c,
            None => "none",
        },
    );
    s.append(", wearing: ");
    if wearing.len() == 0 {
        s.append("nothing");
    } else {
        let list = join_first(wearing, wearing.len(), ", ");
        assert(views(wearing@).take(wearing@.len() as int) =~= views(wearing@));
        s.append(list.as_str());
    }
    s
}

/// A Minecraft cape of the account: its name and id.
#[derive(Debug)]
pub struct CapeEntry {
    pub alias: String,
    pub id: String,
}

pub open spec fn cape_lines(capes: Seq<CapeEntry>) -> Seq<char>
    decreases capes.len(),
{
    if capes.len() == 0 {
        Seq::empty()
    } else {
        cape_lines(capes.drop_last()) + "\n    cape "@ + capes.last().alias@ + " ("@
            + capes.last().id@ + ")"@
    }
}

/// `arctic skin`: name, skin variant (`default` without a skin), the cape
/// worn, then one line per owned cape.
pub fn skin_text(name: &str, skin: Option<&str>, cape: Option<&str>, capes: &Vec<CapeEntry>) -> (r: String)
    ensures
        r@ == name@ + ": "@ + match opt_view(skin) {
            Some(v) => v,
            None => "default"@,
        } + " skin, cape: "@ + match opt_view(cape) {
            Some(c) => c,
            None => "none"@,
        } + cape_lines(capes@),
{
    let mut s = String::from_str(name);
    s.append(": ");
    s.append(
        match skin {
            Some(v) => v,
            None => "default",
        },
    );
    s.append(" skin, cape: ");
    s.append(
        match cape {
            Some(c) => c,
            None => "none",
        },
    );
    let ghost head = s@;
    let mut i: usize = 0;
    while i < capes.len()
        invariant
            i <= capes@.len(),
            s@ == head + cape_lines(capes@.take(i as int)),
        decreases capes@.len() - i,
    {
        s.append("\n    cape ");
        s.append(capes[i].alias.as_str());
        s.append(" (");
        s.append(capes[i].id.as_str());
        s.append(")");
        proof {
            assert(capes@.take(i + 1).drop_last() =~= capes@.take(i as int));
        }
        i += 1;
    }
    assert(capes@.take(capes@.len() as int) =~= capes@);
    s
}

/// The widest of some keys, in characters (0 for none).
pub open spec fn widest(keys: Seq<Seq<char>>) -> nat
    decreases keys.len(),
{
    if keys.len() == 0 {
        0
    } else {
        let w = widest(keys.drop_last());
        if keys.last().len() > w {
            keys.last().len()
        } else {
            w
        }
    }
}

/// The widest is the length of the longest key: no key is longer, and
/// (when there is a key) some key is that long.
pub proof fn law_widest(keys: Seq<Seq<char>>)
    ensures
        forall|i: int| 0 <= i < keys.len() ==> (#[trigger] keys[i]).len() <= widest(keys),
        keys.len() > 0 ==> exists|i: int| 0 <= i < keys.len() && (#[trigger] keys[i]).len() == widest(keys),
        keys.len() == 0 ==> widest(keys) == 0,
    decreases keys.len(),
{
    if keys.len() > 0 {
        let d = keys.drop_last();
        law_widest(d);
        assert forall|i: int| 0 <= i < keys.len() implies (#[trigger] keys[i]).len() <= widest(keys) by {
            if i < d.len() {
                assert(keys[i] == d[i]);
            }
        }
        if keys.last().len() > widest(d) {
            assert(keys[keys.len() - 1].len() == widest(keys));
        } else if d.len() > 0 {
            let j = choose|j: int| 0 <= j < d.len() && (#[trigger] d[j]).len() == widest(d);
            assert(keys[j] == d[j]);
        } else {
            assert(keys[0].len() == widest(keys));
        }
    }
}

/// In the settings table every value starts at the same column: each row
/// is its key, spaces up to the longest key's length, two spaces, and its
/// value.
pub proof fn law_settings_columns(keys: Seq<Seq<char>>, values: Seq<Seq<char>>)
    requires
        keys.len() == values.len(),
    ensures
        forall|i: int| 0 <= i < keys.len() ==> {
            let row = #[trigger] settings_rows(keys, values, widest(keys))[i];
            &&& row.len() == widest(keys) + 2 + values[i].len()
            &&& row.subrange(0, keys[i].len() as int) == keys[i]
            &&& forall|c: int| keys[i].len() <= c < widest(keys) + 2 ==> row[c] == ' '
            &&& row.subrange(widest(keys) + 2int, row.len() as int) == values[i]
        },
{
    law_widest(keys);
    let w = widest(keys);
    assert forall|i: int| 0 <= i < keys.len() implies {
        let row = #[trigger] settings_rows(keys, values, widest(keys))[i];
        &&& row.len() == widest(keys) + 2 + values[i].len()
        &&& row.subrange(0, keys[i].len() as int) == keys[i]
        &&& forall|c: int| keys[i].len() <= c < widest(keys) + 2 ==> row[c] == ' '
        &&& row.subrange(widest(keys) + 2int, row.len() as int) == values[i]
    } by {
        let k = keys[i];
        let p = pad_right(k, w);
        assert(k.len() <= w);
        assert(p.len() == w);
        let row = settings_rows(keys, values, w)[i];
        assert(row == p + "  "@ + values[i]);
        reveal_strlit("  ");
        assert(row.subrange(0, k.len() as int) =~= k);
        assert forall|c: int| k.len() <= c < w + 2 implies row[c] == ' ' by {
            if c < w {
                assert(row[c] == p[c]);
            }
        }
        assert(row.subrange(w + 2int, row.len() as int) =~= values[i]);
    }
}

pub open spec fn settings_rows(keys: Seq<Seq<char>>, values: Seq<Seq<char>>, width: nat) -> Seq<Seq<char>> {
    Seq::new(keys.len(), |i: int| pad_right(keys[i], width) + "  "@ + values[i])
}

/// `arctic settings show`: one `key  value` row per setting, keys padded
/// to the widest.
pub fn settings_text(keys: &Vec<String>, values: &Vec<String>) -> (r: String)
    requires
        keys.len() == values.len(),
    ensures
        r@ == joined(settings_rows(views(keys@), views(values@), widest(views(keys@))), "\n"@),
{
    let mut width: usize = 0;
    let mut i: usize = 0;
    while i < keys.len()
        invariant
            i <= keys@.len(),
            width == widest(views(keys@).take(i as int)),
        decreases keys@.len() - i,
    {
        proof {
            assert(views(keys@).take(i + 1).drop_last() =~= views(keys@).take(i as int));
        }
        let n = keys[i].unicode_len();
        if n > width {
            width = n;
        }
        i += 1;
    }
    assert(views(keys@).take(keys@.len() as int) =~= views(keys@));
    let ghost all = settings_rows(views(keys@), views(values@), width as nat);
    let mut rows: Vec<String> = Vec::new();
    let mut j: usize = 0;
    while j < keys.len()
        invariant
            j <= keys@.len(),
            keys@.len() == values@.len(),
            all == settings_rows(views(keys@), views(values@), width as nat),
            views(rows@) == all.take(j as int),
        decreases keys@.len() - j,
    {
        let mut row = String::new();
        push_padded(&mut row, keys[j].as_str(), width);
        row.append("  ");
        row.append(values[j].as_str());
        let ghost made = row@;
        let ghost before = rows@;
        rows.push(row);
        proof {
            assert(made == all[j as int]);
            assert(views(rows@) =~= views(before).push(made));
            assert(all.take(j + 1) =~= all.take(j as int).push(all[j as int]));
        }
        j += 1;
    }
    assert(all.take(keys@.len() as int) =~= all);
    let text = join_first(&rows, rows.len(), "\n");
    assert(views(rows@).take(rows@.len() as int) =~= views(rows@));
    text
}

/// How `settings set` reads a value before storing it.
#[derive(Debug, PartialEq, Eq)]
pub enum SettingInput {
    /// Clear the setting.
    Null,
    /// Store the text as it is.
    Text,
    /// Read it as JSON (a number, true or false), falling back to the text.
    Json,
}

/// `none` or nothing clears the Java override; text settings take the text;
/// other settings are read as JSON.
pub open spec fn setting_input_view(key: Seq<char>, value: Seq<char>, current_is_text: bool) -> SettingInput {
    if key == "java_override"@ && (value.len() == 0 || value == "none"@) {
        SettingInput::Null
    } else if current_is_text {
        SettingInput::Text
    } else {
        SettingInput::Json
    }
}

/// How `settings set` reads a value (see `setting_input_view`).
pub fn setting_input(key: &str, value: &str, current_is_text: bool) -> (r: SettingInput)
    ensures
        r == setting_input_view(key@, value@, current_is_text),
{
    if str_eq(key, "java_override") && (value.unicode_len() == 0 || str_eq(value, "none")) {
        SettingInput::Null
    } else if current_is_text {
        SettingInput::Text
    } else {
        SettingInput::Json
    }
}

/// A JSON value, as serde_json holds it.
#[verifier::external_type_specification]
#[verifier::external_body]
pub struct ExJsonValue(serde_json::Value);

/// Whether `serde_json` reads `text` as one JSON value.
pub uninterp spec fn json_reads(text: Seq<char>) -> bool;

/// Calls `serde_json::from_str::<serde_json::Value>`: the value when the
/// text is JSON, nothing otherwise (the error is dropped). Claims only that
/// a value comes back exactly when `json_reads` holds of the text; which
/// value it is, serde_json's opaque `Value`, is left unsaid.
#[verifier::external_body]
fn read_json(text: &str) -> (r: Option<serde_json::Value>)
    ensures
        (r is Some) == json_reads(text@),
{
    serde_json::from_str(text).ok()
}

/// The value `settings set` stores.
#[derive(Debug)]
pub enum StoredValue {
    /// The setting is cleared (JSON `null`).
    Null,
    /// A JSON string with this text.
    Text(String),
    /// The text read as JSON (a number, `true` or `false`, ...).
    Json(serde_json::Value),
}

/// The value stored for `value`: cleared, the text itself, or, for other
/// settings, the text read as JSON, falling back to the text when it is
/// not JSON.
pub fn setting_value(key: &str, value: &str, current_is_text: bool) -> (r: StoredValue)
    ensures
        match setting_input_view(key@, value@, current_is_text) {
            SettingInput::Null => r is Null,
            SettingInput::Text => r matches StoredValue::Text(t) && t@ == value@,
            SettingInput::Json => if json_reads(value@) {
                r is Json
            } else {
                r matches StoredValue::Text(t) && t@ == value@
            },
        },
{
    match setting_input(key, value, current_is_text) {
        SettingInput::Null => StoredValue::Null,
        SettingInput::Text => StoredValue::Text(String::from_str(value)),
        SettingInput::Json => match read_json(value) {
            Some(v) => StoredValue::Json(v),
            None => StoredValue::Text(String::from_str(value)),
        },
    }
}

/// After `packs remove`: "Removed <file>".
pub fn removed_text(file: &str) -> (r: String)
    ensures
        r@ == "Removed "@ + file@,
{
    let mut s = String::from_str("Removed ");
    s.append(file);
    s
}

/// What shaders need before a shader pack goes in.
#[derive(Debug, PartialEq, Eq)]
pub enum ShaderStep {
    Nothing,
    /// Vanilla: switch shaders on for the instance (Iris comes with the
    /// next start).
    SwitchOn,
    /// A modded instance without Iris: install it.
    InstallIris,
}

pub fn shader_step(has_loader: bool, shaders_on: bool, has_iris: bool) -> (r: ShaderStep)
    ensures
        r == (if !has_loader {
            if shaders_on {
                ShaderStep::Nothing
            } else {
                ShaderStep::SwitchOn
            }
        } else if has_iris {
            ShaderStep::Nothing
        } else {
            ShaderStep::InstallIris
        }),
{
    if !has_loader {
        if shaders_on {
            ShaderStep::Nothing
        } else {
            ShaderStep::SwitchOn
        }
    } else if has_iris {
        ShaderStep::Nothing
    } else {
        ShaderStep::InstallIris
    }
}

/// After `mods install`, one line per installed mod.
pub fn installed_mod_text(title: &str, version: &str, dependency: bool) -> (r: String)
    ensures
        r@ == "Installed "@ + title@ + " "@ + version@ + (if dependency {
            " (dependency)"@
        } else {
            ""@
        }),
{
    let mut s = String::from_str("Installed ");
    s.append(title);
    s.append(" ");
    s.append(version);
    s.append(
        if dependency {
            " (dependency)"
        } else {
            ""
        },
    );
    s
}

/// After `packs install`.
pub fn installed_pack_text(file: &str, switched_on: bool) -> (r: String)
    ensures
        r@ == "Installed "@ + file@ + (if switched_on {
            " and switched it on"@
        } else {
            ""@
        }),
{
    let mut s = String::from_str("Installed ");
    s.append(file);
    s.append(
        if switched_on {
            " and switched it on"
        } else {
            ""
        },
    );
    s
}

/// After `arctic share --as code`.
pub fn share_code_text(summary: &str, code: &str) -> (r: String)
    ensures
        r@ == summary@ + "\nCode: "@ + code@ + "\nThey can use it with `arctic import "@ + code@
            + "` or in the launcher."@,
{
    let mut s = String::from_str(summary);
    s.append("\nCode: ");
    s.append(code);
    s.append("\nThey can use it with `arctic import ");
    s.append(code);
    s.append("` or in the launcher.");
    s
}

/// After importing a shared instance.
pub fn imported_instance_text(name: &str, mods: usize, id: &str) -> (r: String)
    ensures
        r@ == "Created instance \""@ + name@ + "\" with "@ + decimal(mods as nat)
            + " mods. Launch it with `arctic launch --instance "@ + id@ + "`."@,
{
    let mut s = String::from_str("Created instance \"");
    s.append(name);
    s.append("\" with ");
    s.append(decimal_string(mods as u64).as_str());
    s.append(" mods. Launch it with `arctic launch --instance ");
    s.append(id);
    s.append("`.");
    s
}

/// After importing a shared profile.
pub fn imported_profile_text(created: usize) -> (r: String)
    ensures
        r@ == "Profile imported: settings applied, "@ + decimal(created as nat)
            + " instance(s) created."@,
{
    let mut s = String::from_str("Profile imported: settings applied, ");
    s.append(decimal_string(created as u64).as_str());
    s.append(" instance(s) created.");
    s
}

/// A launch that left the game running on its own.
pub fn launched_text(version: &str, user: &str, pid: u32, log: &str) -> (r: String)
    ensures
        r@ == "Launched Minecraft "@ + version@ + " as "@ + user@ + " (pid "@ + decimal(pid as nat)
            + "). Log: "@ + log@,
{
    let mut s = String::from_str("Launched Minecraft ");
    s.append(version);
    s.append(" as ");
    s.append(user);
    s.append(" (pid ");
    s.append(decimal_string(pid as u64).as_str());
    s.append("). Log: ");
    s.append(log);
    s
}

} // verus!
