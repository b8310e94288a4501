//! What the `arctic` commands decide between their inputs and their
//! output: loaders, launch overrides, mods, packs, proxies, crashes,
//! sharing, settings keys and updates.

use vstd::prelude::*;
use vstd::string::*;
use crate::cli::{opt_str, opt_string, LaunchArgs, LoaderArg, OpenArgs, PackKindArg, ShareWhat};
use crate::errors::Error;
use crate::memory::{memory_mib, parse_memory};
use crate::migrate::first_index;
use crate::select::has_text;
use crate::text::{chars_of, decimal, decimal_string, ends_with_seq, pad_right, push_char, str_eq};

verus! {

/// A mod loader.
#[derive(Debug, Clone, Copy, PartialEq, Eq, Structural)]
pub enum LoaderKind {
    Fabric,
    Quilt,
    NeoForge,
    Forge,
}

impl LoaderKind {
    pub open spec fn label_text(self) -> Seq<char> {
        match self {
            LoaderKind::Fabric => "Fabric"@,
            LoaderKind::Quilt => "Quilt"@,
            LoaderKind::NeoForge => "NeoForge"@,
            LoaderKind::Forge => "Forge"@,
        }
    }

    /// The loader's name as shown.
    pub fn label(&self) -> (r: &'static str)
        ensures
            r@ == self.label_text(),
    {
        match self {
            LoaderKind::Fabric => "Fabric",
            LoaderKind::Quilt => "Quilt",
            LoaderKind::NeoForge => "NeoForge",
            LoaderKind::Forge => "Forge",
        }
    }
}

/// The loader `instances create --loader` asks for (none for Vanilla).
pub fn loader_kind(arg: LoaderArg) -> (r: Option<LoaderKind>)
    ensures
        r == match arg {
            LoaderArg::Vanilla => None,
            LoaderArg::Fabric => Some(LoaderKind::Fabric),
            LoaderArg::Quilt => Some(LoaderKind::Quilt),
            LoaderArg::Neoforge => Some(LoaderKind::NeoForge),
            LoaderArg::Forge => Some(LoaderKind::Forge),
        },
{
    match arg {
        LoaderArg::Vanilla => None,
        LoaderArg::Fabric => Some(LoaderKind::Fabric),
        LoaderArg::Quilt => Some(LoaderKind::Quilt),
        LoaderArg::Neoforge => Some(LoaderKind::NeoForge),
        LoaderArg::Forge => Some(LoaderKind::Forge),
    }
}

/// A build of a mod loader, newest first in the lists it comes in.
#[derive(Debug)]
pub struct LoaderVersion {
    pub id: String,
    pub stable: bool,
}

pub open spec fn is_stable(versions: Seq<LoaderVersion>) -> spec_fn(int) -> bool {
    |i: int| versions[i].stable
}

pub open spec fn no_build_message(kind: LoaderKind, game: Seq<char>) -> Seq<char> {
    kind.label_text() + " has no build for Minecraft "@ + game
}

proof fn lemma_found_stays(n: nat, m: nat, p: spec_fn(int) -> bool)
    requires
        m <= n,
        first_index(m, p) is Some,
    ensures
        first_index(n, p) == first_index(m, p),
    decreases n,
{
    if n > m {
        lemma_found_stays((n - 1) as nat, m, p);
    }
}

/// Newest stable loader build for a Minecraft version (the newest build
/// when none is stable).
pub fn default_loader_version(versions: &Vec<LoaderVersion>, kind: LoaderKind, game: &str) -> (r:
    Result<String, Error>)
    ensures
        match first_index(versions@.len(), is_stable(versions@)) {
            Some(i) => r matches Ok(s) && s@ == versions@[i].id@,
            None => if versions@.len() > 0 {
                r matches Ok(s) && s@ == versions@[0].id@
            } else {
                r matches Err(e) && e matches Error::Other(m) && m@ == no_build_message(kind, game@)
            },
        },
{
    let ghost p = is_stable(versions@);
    let mut i: usize = 0;
    while i < versions.len()
        invariant
            0 <= i <= versions.len(),
            p == is_stable(versions@),
            first_index(i as nat, p) is None,
        decreases versions.len() - i,
    {
        if versions[i].stable {
            proof {
                assert(first_index((i + 1) as nat, p) == Some(i as int));
                lemma_found_stays(versions@.len(), (i + 1) as nat, p);
            }
            return Ok(String::from_str(versions[i].id.as_str()));
        }
        i += 1;
    }
    if versions.len() > 0 {
        Ok(String::from_str(versions[0].id.as_str()))
    } else {
        let mut m = String::from_str(kind.label());
        m.append(" has no build for Minecraft ");
        m.append(game);
        Err(Error::Other(m))
    }
}

/// "Fabric 0.16.9", or just the loader's name when it has no version.
pub fn loader_text(label: &str, version: Option<&str>) -> (r: String)
    ensures
        r@ == match version {
            Some(v) => label@ + " "@ + v@,
            None => label@,
        },
{
    let mut s = String::from_str(label);
    if let Some(v) = version {
        s.append(" ");
        s.append(v);
    }
    s
}

/// The `Vanilla` instance cannot be removed.
pub fn check_removable(is_default: bool) -> (r: Result<(), Error>)
    ensures
        is_default ==> (r matches Err(e) && e matches Error::Other(m) && m@
            == "the Vanilla instance can't be removed"@),
        !is_default ==> r is Ok,
{
    if is_default {
        Err(Error::Other(String::from_str("the Vanilla instance can't be removed")))
    } else {
        Ok(())
    }
}

/// A kind of pack.
#[derive(Debug, Clone, Copy, PartialEq, Eq, Structural)]
pub enum PackKind {
    Resource,
    Shader,
}

/// The pack kind `--kind` asks for.
pub fn pack_kind(arg: PackKindArg) -> (r: PackKind)
    ensures
        r == match arg {
            PackKindArg::Resource => PackKind::Resource,
            PackKindArg::Shader => PackKind::Shader,
        },
{
    match arg {
        PackKindArg::Resource => PackKind::Resource,
        PackKindArg::Shader => PackKind::Shader,
    }
}

/// `on` switches a mod or pack on; anything else (`off`) switches it off.
pub fn switch_on(state: &str) -> (r: bool)
    ensures
        r == (state@ == "on"@),
{
    str_eq(state, "on")
}

/// Mods need an instance with a mod loader and a Minecraft version.
pub fn require_mod_loader(name: &str, has_loader: bool, has_version: bool) -> (r: Result<(), Error>)
    ensures
        has_loader && has_version ==> r is Ok,
        !(has_loader && has_version) ==> (r matches Err(e) && e matches Error::Other(m) && m@
            == name@ + " has no mod loader"@),
{
    if !has_loader || !has_version {
        let mut m = String::from_str(name);
        m.append(" has no mod loader");
        return Err(Error::Other(m));
    }
    Ok(())
}

/// `{state} {title:<32} {file}`, the state being `on ` or `off`.
pub open spec fn mod_row_text(enabled: bool, title: Seq<char>, file: Seq<char>) -> Seq<char> {
    (if enabled {
        "on "@
    } else {
        "off"@
    }) + " "@ + pad_right(title, 32) + " "@ + file
}

/// Appends `text` padded with spaces to `width` characters.
pub fn push_padded(s: &mut String, text: &str, width: usize)
    ensures
        final(s)@ == old(s)@ + pad_right(text@, width as nat),
{
    let n = text.unicode_len();
    s.append(text);
    let ghost base = old(s)@ + text@;
    let mut k: usize = n;
    while k < width
        invariant
            n == text@.len(),
            n <= k <= width || (k == n && n >= width),
            s@ == base + Seq::new((k - n) as nat, |i: int| ' '),
        decreases width - k,
    {
        push_char(s, ' ');
        k += 1;
        assert(s@ =~= base + Seq::new((k - n) as nat, |i: int| ' '));
    }
    assert(s@ =~= old(s)@ + pad_right(text@, width as nat));
}

/// One row of `arctic mods list`.
pub fn mod_row(enabled: bool, title: &str, file: &str) -> (r: String)
    ensures
        r@ == mod_row_text(enabled, title@, file@),
{
    let mut s = String::from_str(if enabled {
        "on "
    } else {
        "off"
    });
    s.append(" ");
    push_padded(&mut s, title, 32);
    s.append(" ");
    s.append(file);
    s
}

/// What `arctic proxy` says about the proxy.
pub open spec fn proxy_summary_text(
    active: bool,
    enabled: bool,
    host: Seq<char>,
    port: u16,
    username: Seq<char>,
) -> Seq<char> {
    if active {
        "Proxy on: socks5 "@ + host + ":"@ + decimal(port as nat) + (if username.len() == 0 {
            Seq::empty()
        } else {
            " (with login)"@
        }) + ". Some servers block proxies."@
    } else if enabled {
        "Proxy on but incomplete: launches are blocked until it's fixed."@
    } else {
        "Proxy off."@
    }
}

/// The proxy line: on (and where), on but incomplete, or off.
pub fn proxy_summary(active: bool, enabled: bool, host: &str, port: u16, username: &str) -> (r:
    String)
    ensures
        r@ == proxy_summary_text(active, enabled, host@, port, username@),
{
    if active {
        let mut s = String::from_str("Proxy on: socks5 ");
        s.append(host);
        s.append(":");
        s.append(decimal_string(port as u64).as_str());
        if username.unicode_len() != 0 {
            s.append(" (with login)");
        }
        s.append(". Some servers block proxies.");
        assert(s@ =~= proxy_summary_text(active, enabled, host@, port, username@));
        s
    } else if enabled {
        String::from_str("Proxy on but incomplete: launches are blocked until it's fixed.")
    } else {
        String::from_str("Proxy off.")
    }
}

/// The game log `arctic crash` reads by default for an instance.
pub fn crash_log_name(instance_id: &str) -> (r: String)
    ensures
        r@ == "game-"@ + instance_id@ + ".log"@,
{
    let mut s = String::from_str("game-");
    s.append(instance_id);
    s.append(".log");
    s
}

/// `arctic crash` exits with 0 when it found a known cause, else 1.
pub fn crash_exit_code(found: bool) -> (r: i32)
    ensures
        r == if found {
            0i32
        } else {
            1
        },
{
    if found {
        0
    } else {
        1
    }
}

/// The launcher flags for `arctic open`, in order.
pub open spec fn open_flags_view(launch: Option<Seq<char>>, account: Option<Seq<char>>, tab: Option<
    Seq<char>,
>, no_intro: bool) -> Seq<Seq<char>> {
    (match launch {
        Some(v) => seq!["--launch"@, v],
        None => Seq::empty(),
    }) + (match account {
        Some(a) => seq!["--account"@, a],
        None => Seq::empty(),
    }) + (match tab {
        Some(t) => seq!["--tab"@, t],
        None => Seq::empty(),
    }) + (if no_intro {
        seq!["--no-intro"@]
    } else {
        Seq::empty()
    })
}

/// Start the GUI launcher with the options as flags.
pub fn open_flags(args: &OpenArgs) -> (r: Vec<String>)
    ensures
        r@.map_values(|s: String| s@) == open_flags_view(
            opt_string(args.launch),
            opt_string(args.account),
            opt_string(args.tab),
            args.no_intro,
        ),
{
    let mut r: Vec<String> = Vec::new();
    if let Some(v) = &args.launch {
        r.push(String::from_str("--launch"));
        r.push(String::from_str(v.as_str()));
    }
    let ghost a = r@.map_values(|s: String| s@);
    if let Some(v) = &args.account {
        r.push(String::from_str("--account"));
        r.push(String::from_str(v.as_str()));
    }
    let ghost b = r@.map_values(|s: String| s@);
    if let Some(v) = &args.tab {
        r.push(String::from_str("--tab"));
        r.push(String::from_str(v.as_str()));
    }
    if args.no_intro {
        r.push(String::from_str("--no-intro"));
    }
    assert(r@.map_values(|s: String| s@) =~= open_flags_view(
        opt_string(args.launch),
        opt_string(args.account),
        opt_string(args.tab),
        args.no_intro,
    ));
    r
}

/// A newer launcher release.
#[derive(Debug)]
pub struct UpdateInfo {
    pub version: String,
    pub required: bool,
    pub page_url: String,
}

pub open spec fn update_text_view(current: Seq<char>, update: Option<UpdateInfo>) -> Seq<char> {
    match update {
        Some(info) => (if info.required {
            "required update"@
        } else {
            "update"@
        }) + " available: "@ + current + " → "@ + info.version@ + " ("@ + info.page_url@ + ")"@,
        None => "Arctic Launcher "@ + current + " is up to date"@,
    }
}

/// What `arctic update` says.
pub fn update_text(current: &str, update: &Option<UpdateInfo>) -> (r: String)
    ensures
        r@ == update_text_view(current@, *update),
{
    match update {
        Some(info) => {
            let mut s = String::from_str(if info.required {
                "required update"
            } else {
                "update"
            });
            s.append(" available: ");
            s.append(current);
            s.append(" → ");
            s.append(info.version.as_str());
            s.append(" (");
            s.append(info.page_url.as_str());
            s.append(")");
            s
        },
        None => {
            let mut s = String::from_str("Arctic Launcher ");
            s.append(current);
            s.append(" is up to date");
            s
        },
    }
}

/// Part of the Arctic Client settings.
#[derive(Debug, Clone, Copy, PartialEq, Eq, Structural)]
pub enum Part {
    Hud,
    Crosshair,
    All,
}

/// The `kind` field of an imported client part.
pub fn part_kind(part: Part) -> (r: &'static str)
    ensures
        r@ == match part {
            Part::Hud => "hud"@,
            Part::Crosshair => "crosshair"@,
            Part::All => "client"@,
        },
{
    match part {
        Part::Hud => "hud",
        Part::Crosshair => "crosshair",
        Part::All => "client",
    }
}

/// The client part `arctic share` reads (none for instances and profiles).
pub fn share_part(what: ShareWhat) -> (r: Option<Part>)
    ensures
        r == match what {
            ShareWhat::Hud => Some(Part::Hud),
            ShareWhat::Crosshair => Some(Part::Crosshair),
            ShareWhat::Client => Some(Part::All),
            _ => None,
        },
{
    match what {
        ShareWhat::Hud => Some(Part::Hud),
        ShareWhat::Crosshair => Some(Part::Crosshair),
        ShareWhat::Client => Some(Part::All),
        _ => None,
    }
}

/// The file `arctic share --as file` writes when no `--out` is given.
pub fn share_file_name(kind: &str) -> (r: String)
    ensures
        r@ == "arctic-"@ + kind@ + ".json"@,
{
    let mut s = String::from_str("arctic-");
    s.append(kind);
    s.append(".json");
    s
}

/// `arctic import` reads a file when the source ends in `.json`, or is
/// shorter than 1024 bytes and names an existing file.
pub fn is_share_file(source: &str, is_file: bool) -> (r: bool)
    ensures
        r == (ends_with_seq(source@, ".json"@) || (source.len() < 1024 && is_file)),
{
    let v = chars_of(source);
    let suffix = chars_of(".json");
    crate::text::ends_with(&v, &suffix) || (source.len() < 1024 && is_file)
}

/// The keys of settings.json that the launcher keeps for itself.
pub open spec fn internal_key(key: Seq<char>) -> bool {
    key == "last_version"@ || key == "last_instance"@ || key == "client_style_set"@ || key
        == "favorite_versions"@
}

/// Whether `settings show/get/set` hides a key.
pub fn is_internal_setting(key: &str) -> (r: bool)
    ensures
        r == internal_key(key@),
{
    str_eq(key, "last_version") || str_eq(key, "last_instance") || str_eq(key, "client_style_set")
        || str_eq(key, "favorite_versions")
}

/// Settings that make the game adopt the launcher's client look.
pub fn is_client_look(key: &str) -> (r: bool)
    ensures
        r == (key@ == "client_style"@ || key@ == "client_fancy"@),
{
    str_eq(key, "client_style") || str_eq(key, "client_fancy")
}

pub open spec fn unknown_setting_message(key: Seq<char>) -> Seq<char> {
    "unknown setting '"@ + key + "' (see `arctic settings show`)"@
}

/// A key users may read and change: one of the settings, not internal.
pub fn public_setting(keys: &Vec<String>, key: &str) -> (r: Result<(), Error>)
    ensures
        has_text(keys@, key@) && !internal_key(key@) ==> r is Ok,
        !(has_text(keys@, key@) && !internal_key(key@)) ==> (r matches Err(e) && e matches Error::Other(m)
            && m@ == unknown_setting_message(key@)),
{
    if crate::select::contains_text(keys, key) && !is_internal_setting(key) {
        Ok(())
    } else {
        let mut m = String::from_str("unknown setting '");
        m.append(key);
        m.append("' (see `arctic settings show`)");
        Err(Error::Other(m))
    }
}

/// One row of `arctic settings show`: the key padded to `width`, two
/// spaces, the value.
pub fn setting_row(key: &str, width: usize, value: &str) -> (r: String)
    ensures
        r@ == pad_right(key@, width as nat) + "  "@ + value@,
{
    let mut s = String::new();
    push_padded(&mut s, key, width);
    s.append("  ");
    s.append(value);
    s
}

/// The launch settings `arctic launch` can override.
#[derive(Debug)]
pub struct LaunchSettings {
    pub max_memory_mb: u32,
    pub window_width: u32,
    pub window_height: u32,
    pub fullscreen: bool,
    pub java_override: Option<String>,
}

pub open spec fn bad_memory_message(text: Seq<char>) -> Seq<char> {
    "invalid --memory '"@ + text + "' (try 4G or 4096M)"@
}

/// The settings with `--memory`, `--width`, `--height`, `--fullscreen`
/// and `--java` applied over them.
pub fn apply_overrides(settings: LaunchSettings, args: &LaunchArgs) -> (r: Result<
    LaunchSettings,
    Error,
>)
    ensures
        match args.memory {
            Some(text) => match memory_mib(text@) {
                Some(mb) => r matches Ok(s) && s.max_memory_mb == mb,
                None => r matches Err(e) && e matches Error::Other(m) && m@ == bad_memory_message(
                    text@,
                ),
            },
            None => r matches Ok(s) && s.max_memory_mb == settings.max_memory_mb,
        },
        r matches Ok(s) ==> {
            &&& s.window_width == match args.width {
                Some(w) => w,
                None => settings.window_width,
            }
            &&& s.window_height == match args.height {
                Some(h) => h,
                None => settings.window_height,
            }
            &&& s.fullscreen == (args.fullscreen || settings.fullscreen)
            &&& opt_string(s.java_override) == match args.java {
                Some(j) => Some(j@),
                None => opt_string(settings.java_override),
            }
        },
{
    let max_memory_mb = match &args.memory {
        Some(text) => match parse_memory(text.as_str()) {
            Some(mb) => mb,
            None => {
                let mut m = String::from_str("invalid --memory '");
                m.append(text.as_str());
                m.append("' (try 4G or 4096M)");
                return Err(Error::Other(m));
            },
        },
        None => settings.max_memory_mb,
    };
    let java_override = match &args.java {
        Some(j) => Some(String::from_str(j.as_str())),
        None => settings.java_override,
    };
    Ok(LaunchSettings {
        max_memory_mb,
        window_width: match args.width {
            Some(w) => w,
            None => settings.window_width,
        },
        window_height: match args.height {
            Some(h) => h,
            None => settings.window_height,
        },
        fullscreen: args.fullscreen || settings.fullscreen,
        java_override,
    })
}

} // verus!
