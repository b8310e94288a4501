use arctic::cli::{LaunchArgs, LoaderArg, PackKindArg, ShareWhat};
use arctic::commands::{
    apply_overrides, check_removable, crash_exit_code, crash_log_name, default_loader_version,
    is_client_look, is_internal_setting, is_share_file, loader_kind, loader_text, mod_row,
    pack_kind, part_kind, proxy_summary, public_setting, push_padded, require_mod_loader,
    setting_row, share_file_name, share_part, switch_on, update_text, LaunchSettings, LoaderKind,
    LoaderVersion, PackKind, Part, UpdateInfo,
};
use arctic::errors::Error;

fn message(e: Error) -> String {
    e.message().to_string()
}

#[test]
fn loaders() {
    assert_eq!(loader_kind(LoaderArg::Vanilla), None);
    assert_eq!(loader_kind(LoaderArg::Neoforge), Some(LoaderKind::NeoForge));
    assert_eq!(LoaderKind::NeoForge.label(), "NeoForge");
    assert_eq!(loader_text("Fabric", Some("0.16.9")), "Fabric 0.16.9");
    assert_eq!(loader_text("Forge", None), "Forge");
}

fn version(id: &str, stable: bool) -> LoaderVersion {
    LoaderVersion { id: id.to_string(), stable }
}

#[test]
fn loader_build_choice() {
    let list = vec![version("0.17.0-beta", false), version("0.16.9", true), version("0.16.8", true)];
    assert_eq!(default_loader_version(&list, LoaderKind::Fabric, "1.21.4").unwrap(), "0.16.9");
    let unstable = vec![version("b2", false), version("b1", false)];
    assert_eq!(default_loader_version(&unstable, LoaderKind::Quilt, "1.21").unwrap(), "b2");
    let err = default_loader_version(&Vec::new(), LoaderKind::Forge, "1.8.9").unwrap_err();
    assert_eq!(message(err), "Forge has no build for Minecraft 1.8.9");
}

#[test]
fn instance_rules() {
    assert_eq!(message(check_removable(true).unwrap_err()), "the Vanilla instance can't be removed");
    assert!(check_removable(false).is_ok());
    assert!(require_mod_loader("Vanilla", true, true).is_ok());
    assert_eq!(
        message(require_mod_loader("Vanilla", false, true).unwrap_err()),
        "Vanilla has no mod loader"
    );
    assert_eq!(pack_kind(PackKindArg::Shader), PackKind::Shader);
    assert!(switch_on("on"));
    assert!(!switch_on("off"));
    assert!(!switch_on("ON"));
}

#[test]
fn padded_rows() {
    let mut s = String::from("> ");
    push_padded(&mut s, "ab", 5);
    assert_eq!(s, "> ab   ");
    let mut t = String::new();
    push_padded(&mut t, "longer", 3);
    assert_eq!(t, "longer");
    let row = mod_row(false, "Sodium", "sodium.jar");
    assert_eq!(row, format!("off {:<32} sodium.jar", "Sodium"));
    assert_eq!(mod_row(true, "X", "x.jar"), format!("on  {:<32} x.jar", "X"));
    assert_eq!(setting_row("theme", 8, "dark"), "theme     dark");
}

#[test]
fn proxy_lines() {
    assert_eq!(
        proxy_summary(true, true, "127.0.0.1", 1080, ""),
        "Proxy on: socks5 127.0.0.1:1080. Some servers block proxies."
    );
    assert_eq!(
        proxy_summary(true, true, "p.example", 9050, "me"),
        "Proxy on: socks5 p.example:9050 (with login). Some servers block proxies."
    );
    assert_eq!(
        proxy_summary(false, true, "", 0, ""),
        "Proxy on but incomplete: launches are blocked until it's fixed."
    );
    assert_eq!(proxy_summary(false, false, "", 0, ""), "Proxy off.");
}

#[test]
fn crash_and_updates() {
    assert_eq!(crash_log_name("fabric-1"), "game-fabric-1.log");
    assert_eq!(crash_exit_code(true), 0);
    assert_eq!(crash_exit_code(false), 1);
    assert_eq!(update_text("1.2.0", &None), "Arctic Launcher 1.2.0 is up to date");
    let info = UpdateInfo {
        version: "1.3.0".to_string(),
        required: true,
        page_url: "https://example.com/r".to_string(),
    };
    assert_eq!(
        update_text("1.2.0", &Some(info)),
        "required update available: 1.2.0 → 1.3.0 (https://example.com/r)"
    );
}

#[test]
fn sharing_parts() {
    assert_eq!(part_kind(Part::All), "client");
    assert_eq!(part_kind(Part::Hud), "hud");
    assert_eq!(share_part(ShareWhat::Crosshair), Some(Part::Crosshair));
    assert_eq!(share_part(ShareWhat::Client), Some(Part::All));
    assert_eq!(share_file_name("hud"), "arctic-hud.json");
    assert!(is_share_file("my.json", false));
    assert!(is_share_file("notes", true));
    assert!(!is_share_file("abcd-efgh", false));
}

#[test]
fn settings_keys() {
    assert!(is_internal_setting("last_version"));
    assert!(is_internal_setting("favorite_versions"));
    assert!(!is_internal_setting("theme"));
    assert!(is_client_look("client_style"));
    assert!(!is_client_look("theme"));
    let keys = vec!["theme".to_string(), "last_version".to_string()];
    assert!(public_setting(&keys, "theme").is_ok());
    assert!(public_setting(&keys, "last_version").is_err());
    assert!(public_setting(&keys, "nope").is_err());
}

fn launch_args(memory: Option<&str>) -> LaunchArgs {
    LaunchArgs {
        version: "latest".to_string(),
        instance: None,
        account: None,
        memory: memory.map(str::to_string),
        width: Some(1280),
        height: None,
        fullscreen: false,
        java: Some("/usr/bin/java".to_string()),
        wait: false,
        dry_run: false,
    }
}

fn settings() -> LaunchSettings {
    LaunchSettings {
        max_memory_mb: 2048,
        window_width: 854,
        window_height: 480,
        fullscreen: true,
        java_override: None,
    }
}

#[test]
fn launch_overrides() {
    let s = apply_overrides(settings(), &launch_args(Some("4G"))).unwrap();
    assert_eq!(s.max_memory_mb, 4096);
    assert_eq!(s.window_width, 1280);
    assert_eq!(s.window_height, 480);
    assert!(s.fullscreen);
    assert_eq!(s.java_override.as_deref(), Some("/usr/bin/java"));
    let kept = apply_overrides(settings(), &launch_args(None)).unwrap();
    assert_eq!(kept.max_memory_mb, 2048);
    let err = apply_overrides(settings(), &launch_args(Some("lots"))).unwrap_err();
    assert_eq!(message(err), "invalid --memory 'lots' (try 4G or 4096M)");
}
