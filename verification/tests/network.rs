use arctic::network::{
    can_save, saved_message, settings_to_save, status_text, NetworkUi, ProxyCheck, ProxySettings,
};
use arctic::skins_ui::{
    can_change_minecraft_skin, gallery_key, is_cape_key, kept_after_skin_change, library_key,
    look_updated, parse_texture_key, skin_requests, KeyKind, SkinAccount, SkinsView,
};

fn settings(host: &str) -> ProxySettings {
    ProxySettings {
        enabled: true,
        host: host.to_string(),
        port: 1080,
        username: String::new(),
        password: String::new(),
        set: 5,
    }
}

fn ui(host: &str) -> NetworkUi {
    NetworkUi { draft: settings(host), check: ProxyCheck::Idle, checking: None }
}

#[test]
fn proxy_test_latest_wins() {
    let mut n = ui("127.0.0.1");
    assert!(n.can_test(true));
    let tested = n.start_test();
    assert_eq!(tested.host, "127.0.0.1");
    assert_eq!(n.check, ProxyCheck::Running);
    assert!(!n.can_test(true));
    // An answer for other settings (an older test) is dropped.
    n.on_tested(settings("10.0.0.1"), Err("timeout".to_string()));
    assert_eq!(n.check, ProxyCheck::Running);
    n.on_tested(tested, Err("refused".to_string()));
    assert_eq!(n.check, ProxyCheck::Failed("refused".to_string()));
    assert!(n.checking.is_none());
    let again = n.start_test();
    n.on_tested(again, Ok(()));
    assert_eq!(n.check, ProxyCheck::Works);
}

#[test]
fn proxy_editing() {
    let mut n = ui("proxy.example");
    let saved = settings("other");
    assert!(n.changed(&saved));
    assert!(!n.changed(&settings("proxy.example")));
    n.check = ProxyCheck::Works;
    n.undo(&saved);
    assert_eq!(n.draft.host, "other");
    assert_eq!(n.check, ProxyCheck::Idle);
    assert!(can_save(true, true));
    assert!(!can_save(true, false));
    let mut draft = settings("  host  ");
    draft.port = 0;
    let s = settings_to_save(&draft, 1080, 99);
    assert_eq!(s.host, "host");
    assert_eq!(s.port, 1080);
    assert_eq!(s.set, 99);
    assert_eq!(saved_message(true), "Proxy on. Games started from now on use it.");
    assert_eq!(saved_message(false), "Proxy off.");
}

#[test]
fn proxy_status_line() {
    assert_eq!(status_text(Some("Enter an address"), &ProxyCheck::Works).as_deref(), Some("Enter an address"));
    assert_eq!(status_text(None, &ProxyCheck::Idle), None);
    assert_eq!(status_text(None, &ProxyCheck::Running).as_deref(), Some("Testing…"));
    assert_eq!(status_text(None, &ProxyCheck::Works).as_deref(), Some("The proxy works."));
    assert_eq!(
        status_text(None, &ProxyCheck::Failed("refused".to_string())).as_deref(),
        Some("The proxy didn't work: refused")
    );
}

#[test]
fn texture_keys() {
    assert_eq!(SkinsView::first(), SkinsView::Library);
    assert_eq!(parse_texture_key("lib:abc"), (KeyKind::Library, "abc".to_string()));
    assert_eq!(parse_texture_key("gal:f00"), (KeyKind::Gallery, "f00".to_string()));
    assert_eq!(parse_texture_key("askin:1"), (KeyKind::ArcticSkin, "1".to_string()));
    assert_eq!(parse_texture_key("acape:2"), (KeyKind::ArcticCape, "2".to_string()));
    assert_eq!(parse_texture_key("mccape:3"), (KeyKind::MinecraftCape, "3".to_string()));
    assert_eq!(parse_texture_key("mc"), (KeyKind::Minecraft, String::new()));
    assert_eq!(parse_texture_key("mcx").0, KeyKind::Unknown);
    assert_eq!(parse_texture_key(&library_key("id-9")), (KeyKind::Library, "id-9".to_string()));
    assert_eq!(parse_texture_key(&gallery_key("h")), (KeyKind::Gallery, "h".to_string()));
    assert!(is_cape_key("acape:1"));
    assert!(is_cape_key("mccape:1"));
    assert!(!is_cape_key("askin:1"));
    assert!(!kept_after_skin_change("mc"));
    assert!(!kept_after_skin_change("mccape:1"));
    assert!(kept_after_skin_change("lib:1"));
}

#[test]
fn skin_fetches() {
    let ms = SkinAccount { microsoft: true, look_known: false, skin_known: true };
    let r = skin_requests(Some(ms), false, false, false);
    assert!(r.arctic_look);
    assert!(!r.minecraft_skin);
    let forced = skin_requests(Some(ms), true, false, true);
    assert!(forced.arctic_look);
    assert!(!forced.minecraft_skin);
    let offline = SkinAccount { microsoft: false, look_known: true, skin_known: false };
    let r = skin_requests(Some(offline), true, true, false);
    assert!(!r.arctic_look);
    assert!(!r.minecraft_skin);
    let none = skin_requests(None, true, false, false);
    assert!(!none.arctic_look && !none.minecraft_skin);
    assert!(can_change_minecraft_skin(false, Some(true), true));
    assert!(!can_change_minecraft_skin(true, Some(true), true));
    assert!(!can_change_minecraft_skin(false, Some(false), true));
    assert!(!can_change_minecraft_skin(false, None, true));
    assert!(look_updated(true, true));
    assert!(!look_updated(true, false));
}
