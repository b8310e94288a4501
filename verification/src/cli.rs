//! The `arctic` command line: what each command and its options hold.
//! Paths are kept as the text the user gave.

use vstd::prelude::*;

verus! {

/// The view of an optional owned string.
pub open spec fn opt_string(o: Option<String>) -> Option<Seq<char>> {
    match o {
        Some(s) => Some(s@),
        None => None,
    }
}

/// The view of an optional borrowed string.
pub open spec fn opt_str(o: Option<&str>) -> Option<Seq<char>> {
    match o {
        Some(s) => Some(s@),
        None => None,
    }
}

/// Borrow the text of an optional string (`Option::as_deref`).
pub fn as_deref(o: &Option<String>) -> (r: Option<&str>)
    ensures
        opt_str(r) == opt_string(*o),
{
    match o {
        Some(s) => Some(s.as_str()),
        None => None,
    }
}

/// Arctic Launcher from the command line: list, install and launch vanilla
/// Minecraft, manage accounts, and open the launcher.
#[derive(Debug)]
pub struct Cli {
    /// Use this data directory instead of the default
    /// (%LOCALAPPDATA%\ArcticLauncher).
    pub data_dir: Option<String>,
    /// Profile to use (name or id). Defaults to the active profile.
    pub profile: Option<String>,
    /// Machine-readable output: one JSON object per line.
    pub json: bool,
    /// Print launcher log messages to stderr.
    pub verbose: bool,
    pub command: Command,
}

#[derive(Debug)]
pub enum Command {
    /// List Minecraft versions.
    Versions(VersionsArgs),
    /// Download a version (and its Java runtime) without launching it.
    Install(InstallArgs),
    /// Launch a version (downloads what's missing first).
    Launch(LaunchArgs),
    /// Manage accounts.
    Accounts(AccountsCommand),
    /// Manage profiles (separate accounts, settings, instances and worlds).
    Profiles(ProfilesCommand),
    /// Print the Java executable a version would use (installing it if needed).
    Java {
        /// Version id, `latest` or `latest-snapshot`.
        version: String,
    },
    /// Show where Arctic keeps its files.
    Paths,
    /// Check GitHub for a newer launcher release.
    Update {
        /// Include beta (pre-release) builds.
        beta: bool,
    },
    /// Open the launcher window (optionally straight into a launch).
    Open(OpenArgs),
    /// Manage instances (separate game folders with their own version and mods).
    Instances(InstancesCommand),
    /// Find and manage mods from Modrinth in an instance.
    Mods(ModsCommand),
    /// Play together without a server (peer to peer).
    Together(TogetherCommand),
    /// Send the launcher and games through a SOCKS5 proxy.
    Proxy(ProxyCommand),
    /// Resource packs and shaders from Modrinth.
    Packs(PacksCommand),
    /// An instance's singleplayer worlds: list, import, back up, remove.
    Worlds(WorldsCommand),
    /// Your Minecraft skin and capes (what every server shows).
    Skin(SkinCommand),
    /// Your Arctic look: skin, cape and cosmetics other Arctic players see.
    Look(LookCommand),
    /// Bring instances and HUD setups over from other launchers and clients.
    Migrate(MigrateCommand),
    /// Share an instance, HUD layout, crosshair, client settings or profile.
    Share(ShareArgs),
    /// Use something shared: a code, share text or an exported .json file.
    Import {
        /// `abcd-efgh`, `arctic1.…` text, or a file path.
        source: String,
        /// For HUD, crosshair and client settings: the instance to apply to
        /// (default: Vanilla).
        instance: Option<String>,
    },
    /// Launcher settings (memory, window, theme, client style...).
    Settings(SettingsCommand),
    /// Explain why Minecraft crashed (from a log or crash report).
    Crash {
        /// A log or crash report file (default: the instance's last game log).
        file: Option<String>,
        /// Instance whose last game log to read (default: Vanilla).
        instance: Option<String>,
    },
}

#[derive(Debug, Clone, Copy, PartialEq, Eq, Structural)]
pub enum PackKindArg {
    Resource,
    Shader,
}

#[derive(Debug)]
pub enum PacksCommand {
    /// Search Modrinth for packs that fit the instance's Minecraft version.
    Search { query: String, kind: PackKindArg, instance: Option<String>, limit: usize },
    /// Install a pack (by slug or id) and switch it on. Shaders bring Iris.
    Install {
        project: String,
        kind: PackKindArg,
        instance: Option<String>,
        /// Install without switching it on.
        keep_off: bool,
    },
    /// List the instance's packs (on/off).
    List { kind: PackKindArg, instance: Option<String> },
    /// Switch a pack on or off.
    Use { file: String, state: String, kind: PackKindArg, instance: Option<String> },
    /// Delete a pack.
    Remove { file: String, kind: PackKindArg, instance: Option<String> },
}

#[derive(Debug)]
pub enum WorldsCommand {
    /// List worlds, most recently played first.
    List { instance: Option<String> },
    /// Other launchers and instances on this PC that have worlds to import.
    Sources { instance: Option<String> },
    /// Copy in a world folder or a .zip holding one.
    Import { path: String, instance: Option<String> },
    /// Zip a world into the instance's backups folder.
    Backup {
        /// Folder name or the name shown in game.
        world: String,
        instance: Option<String>,
    },
    /// Move a world to saves/.trash (kept, not deleted).
    Remove { world: String, instance: Option<String> },
}

impl WorldsCommand {
    /// The `--instance` option, whichever the subcommand.
    pub open spec fn instance_option(self) -> Option<String> {
        match self {
            WorldsCommand::List { instance } => instance,
            WorldsCommand::Sources { instance } => instance,
            WorldsCommand::Import { instance, .. } => instance,
            WorldsCommand::Backup { instance, .. } => instance,
            WorldsCommand::Remove { instance, .. } => instance,
        }
    }

    pub fn instance(&self) -> (r: Option<&str>)
        ensures
            opt_str(r) == opt_string(self.instance_option()),
    {
        match self {
            WorldsCommand::List { instance } => as_deref(instance),
            WorldsCommand::Sources { instance } => as_deref(instance),
            WorldsCommand::Import { instance, .. } => as_deref(instance),
            WorldsCommand::Backup { instance, .. } => as_deref(instance),
            WorldsCommand::Remove { instance, .. } => as_deref(instance),
        }
    }
}

/// Arm width for a skin (guessed from the image when left out).
#[derive(Debug, Clone, Copy, PartialEq, Eq, Structural)]
pub enum SkinModel {
    Classic,
    Slim,
}

#[derive(Debug)]
pub enum SkinCommand {
    /// Show the skin, the equipped cape and the capes you own.
    Show { account: Option<String> },
    /// Upload a skin PNG (`arctic skin set`).
    Upload { file: String, model: Option<SkinModel>, account: Option<String> },
    /// Go back to the default skin.
    Reset { account: Option<String> },
    /// Equip a cape you own (by name or id), or `none`.
    Cape { cape: String, account: Option<String> },
}

impl SkinCommand {
    /// The `--account` option, whichever the subcommand.
    pub open spec fn account_option(self) -> Option<String> {
        match self {
            SkinCommand::Show { account } => account,
            SkinCommand::Upload { account, .. } => account,
            SkinCommand::Reset { account } => account,
            SkinCommand::Cape { account, .. } => account,
        }
    }

    pub fn account(&self) -> (r: Option<&str>)
        ensures
            opt_str(r) == opt_string(self.account_option()),
    {
        match self {
            SkinCommand::Show { account } => as_deref(account),
            SkinCommand::Upload { account, .. } => as_deref(account),
            SkinCommand::Reset { account } => as_deref(account),
            SkinCommand::Cape { account, .. } => as_deref(account),
        }
    }
}

#[derive(Debug)]
pub enum LookCommand {
    /// Show your look plus the capes and cosmetics you can pick.
    Show { account: Option<String> },
    /// Use a skin PNG for Arctic players, or `none` for your Minecraft skin.
    Skin { file: String, model: Option<SkinModel>, account: Option<String> },
    /// Wear a cape: a preset id or name, a cape PNG, or `none`.
    Cape { cape: String, account: Option<String> },
    /// Wear exactly these cosmetics (one per slot); no ids takes them all off.
    Wear { ids: Vec<String>, account: Option<String> },
}

impl LookCommand {
    /// The `--account` option, whichever the subcommand.
    pub open spec fn account_option(self) -> Option<String> {
        match self {
            LookCommand::Show { account } => account,
            LookCommand::Skin { account, .. } => account,
            LookCommand::Cape { account, .. } => account,
            LookCommand::Wear { account, .. } => account,
        }
    }

    pub fn account(&self) -> (r: Option<&str>)
        ensures
            opt_str(r) == opt_string(self.account_option()),
    {
        match self {
            LookCommand::Show { account } => as_deref(account),
            LookCommand::Skin { account, .. } => as_deref(account),
            LookCommand::Cape { account, .. } => as_deref(account),
            LookCommand::Wear { account, .. } => as_deref(account),
        }
    }
}

#[derive(Debug)]
pub enum MigrateCommand {
    /// Show what can be brought over (with sizes).
    List {
        /// Look in this folder instead (portable MultiMC, moved instances…).
        folder: Option<String>,
    },
    /// Bring one instance over (by key, name or part of the key).
    Instance {
        which: String,
        folder: Option<String>,
        /// Leave out: mods, worlds, resourcepacks, shaderpacks, settings, screenshots.
        skip: Vec<String>,
        /// Name for the new instance.
        name: Option<String>,
    },
    /// Bring every instance over.
    All { folder: Option<String>, skip: Vec<String> },
    /// Use a client's HUD layout and keys (LabyMod, Lunar).
    Hud {
        which: String,
        /// Instance to apply to (default: Vanilla).
        instance: Option<String>,
        /// Widgets to turn on where the client didn't save it (Lunar),
        /// like `fps,coords`; default: the ones that were moved.
        on: Option<Vec<String>>,
    },
}

#[derive(Debug)]
pub struct ShareArgs {
    /// What to share.
    pub what: ShareWhat,
    /// Instance to share (or read the HUD/crosshair/settings from).
    pub instance: Option<String>,
    /// A short code (needs a signed-in account), one line of text, or a file
    /// (`--as`).
    pub share_as: ShareAs,
    /// File to write with `--as file`.
    pub out: Option<String>,
    /// Account that creates the code.
    pub account: Option<String>,
}

#[derive(Debug, Clone, Copy, PartialEq, Eq, Structural)]
pub enum ShareWhat {
    /// Version, loader and mods (exact Modrinth versions; no files).
    Instance,
    /// HUD layout: which widgets are on, where, and how big.
    Hud,
    Crosshair,
    /// All Arctic Client settings: HUD, crosshair, style, features, keys.
    Client,
    /// Launcher settings, every instance and its client settings.
    Profile,
}

#[derive(Debug, Clone, Copy, PartialEq, Eq, Structural)]
pub enum ShareAs {
    Code,
    Text,
    File,
}

#[derive(Debug)]
pub enum SettingsCommand {
    /// Show every setting.
    Show,
    /// Print one setting.
    Get { key: String },
    /// Change one setting (restart an open launcher to see it there;
    /// `arctic settings set`).
    Change { key: String, value: String },
}

#[derive(Debug)]
pub enum ProxyCommand {
    /// Show the current proxy.
    Show,
    /// Use a SOCKS5 proxy (the proxy resolves server names too;
    /// `arctic proxy set`).
    Configure {
        host: String,
        port: u16,
        username: Option<String>,
        /// Kept in this profile's proxy.json on this PC only.
        password: Option<String>,
    },
    /// Stop using the proxy.
    Off,
    /// Check that the proxy works (reaches Mojang's services through it).
    Test,
}

#[derive(Debug)]
pub enum TogetherCommand {
    /// Share the world you open to LAN; prints an invite code.
    Host {
        /// Share this LAN port instead of finding the open world.
        port: Option<u16>,
    },
    /// Join a friend's world by invite code (it appears in the LAN list).
    Join {
        /// The code your friend shared (arctic-...).
        code: String,
    },
}

/// Mod loader for `instances create`.
#[derive(Debug, Clone, Copy, PartialEq, Eq, Structural)]
pub enum LoaderArg {
    Vanilla,
    Fabric,
    Quilt,
    Neoforge,
    Forge,
}

#[derive(Debug)]
pub enum InstancesCommand {
    /// List instances.
    List,
    /// Create an instance.
    Create {
        name: String,
        /// Minecraft version, `latest` or `latest-snapshot`.
        version: String,
        loader: LoaderArg,
        /// Loader version (default: newest stable).
        loader_version: Option<String>,
    },
    /// Move an instance to the trash (instances/.trash).
    Remove {
        /// Instance id or name.
        instance: String,
    },
}

#[derive(Debug)]
pub enum ModsCommand {
    /// Search Modrinth for mods that fit an instance.
    Search { query: String, instance: String, limit: usize },
    /// Install a mod (and its required dependencies) by slug or project id.
    Install { project: String, instance: String },
    /// List the mods in an instance.
    List { instance: String },
    /// Remove a mod by file name.
    Remove { file: String, instance: String },
    /// Match the instance's mod files to Modrinth by hash (mods copied in
    /// from elsewhere), so they show names and can be updated and shared.
    Recognize { instance: String },
    /// Turn a mod on or off without removing it.
    Toggle {
        file: String,
        instance: String,
        /// `on` or `off`.
        state: String,
    },
}

#[derive(Debug)]
pub struct VersionsArgs {
    /// Include snapshots and old alpha/beta versions.
    pub all: bool,
    /// Only versions that are already downloaded.
    pub installed: bool,
    /// Show at most this many versions.
    pub limit: Option<usize>,
}

#[derive(Debug)]
pub struct InstallArgs {
    /// Version id, `latest` or `latest-snapshot`.
    pub version: String,
}

#[derive(Debug)]
pub struct LaunchArgs {
    /// Version id, `latest` or `latest-snapshot`. Custom instances use
    /// their own version instead.
    pub version: String,
    /// Launch this instance (id or name) with its version and mods.
    pub instance: Option<String>,
    /// Play as a saved account (username, UUID or id). Defaults to the
    /// active account.
    pub account: Option<String>,
    /// Maximum memory, e.g. `4G`, `6144M` or `6144`.
    pub memory: Option<String>,
    /// Window width.
    pub width: Option<u32>,
    /// Window height.
    pub height: Option<u32>,
    /// Start in fullscreen.
    pub fullscreen: bool,
    /// Use this java executable instead of the managed runtime.
    pub java: Option<String>,
    /// Stay attached: print the game's output and exit with its exit code.
    pub wait: bool,
    /// Prepare everything and print the command line, but don't start.
    pub dry_run: bool,
}

#[derive(Debug)]
pub enum AccountsCommand {
    /// List saved accounts (the active one is marked).
    List,
    /// Sign in with Microsoft (device code by default; works over SSH).
    Login {
        /// Open the system browser instead of showing a code.
        browser: bool,
    },
    /// Make an account the active one.
    Use {
        /// Username, UUID or id.
        account: String,
    },
    /// Remove an account.
    Remove {
        /// Username, UUID or id.
        account: String,
    },
}

#[derive(Debug)]
pub enum ProfilesCommand {
    /// List profiles (the active one is marked).
    List,
    /// Create a profile.
    Create {
        name: String,
        /// Also make it the active profile.
        switch: bool,
    },
    /// Make a profile the active one (used by the launcher too).
    Use { profile: String },
    /// Rename a profile.
    Rename { profile: String, new_name: String },
    /// Remove a profile (its folder is moved to profiles/.trash).
    Remove { profile: String },
}

#[derive(Debug)]
pub struct OpenArgs {
    /// Start launching this version as soon as the window opens.
    pub launch: Option<String>,
    /// Account to select (username, UUID or id).
    pub account: Option<String>,
    /// Tab to show: play, accounts, instances, logs, settings, about.
    pub tab: Option<String>,
    /// Skip the intro animation.
    pub no_intro: bool,
}

} // verus!
