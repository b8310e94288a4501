use arctic::versions::{view_label, VersionView};
use arctic::instances_ui::switcher_subtitle;
use arctic::messages::removed_text;
use arctic::messages::{setting_value, StoredValue};
use arctic::instances_ui::{IconCache, IconState};
use arctic::migration::{chosen_bytes, default_categories, HudChoice};
use arctic::instances_ui::{
    instance_memory, instance_removed, open_instance, remove_step, rename_offer, switched_instance, InstancePage,
    InstanceView, RemoveClick,
};
use arctic::play_ui::{play_face, PlayButton, PlayLabel};
use arctic::profiles_ui::{manage_step, ManageAction, ManageEvent, ProfileDialog};
use arctic::settings_ui::{
    java_override_toggled, java_path_typed, java_path_warning, memory_slider_ranges, restored_settings,
    GameStartAction, LauncherSettings, ThemeMode, UpdateChannel,
};
use arctic::share_dialogs::{preview_step, ImportStage, PreviewAction, PreviewClick};
use arctic::versions::{version_row_click, RowClick};
use arctic::worlds::{find_world, WorldPicker, World};

fn manage() -> ProfileDialog {
    ProfileDialog::manage()
}

#[test]
fn manage_removal_needs_confirmation() {
    let (d, a) = manage_step(manage(), "main", ManageEvent::Remove { id: "kids".to_string() });
    assert!(matches!(a, ManageAction::Nothing));
    assert_eq!(d, ProfileDialog::Manage { renaming: None, confirm_remove: Some("kids".to_string()) });
    let (d, a) = manage_step(d, "main", ManageEvent::ConfirmRemove);
    assert!(matches!(a, ManageAction::Remove { id } if id == "kids"));
    assert_eq!(d, manage());
    let (d, a) = manage_step(d, "main", ManageEvent::Removed { ok: true });
    assert!(matches!(a, ManageAction::Save));
    let (_, a) = manage_step(d, "main", ManageEvent::Removed { ok: false });
    assert!(matches!(a, ManageAction::RemoveFailed));
    // "Keep" drops the question
    let (d, _) = manage_step(manage(), "main", ManageEvent::Remove { id: "kids".to_string() });
    let (d, a) = manage_step(d, "main", ManageEvent::Keep);
    assert!(matches!(a, ManageAction::Nothing));
    let (_, a) = manage_step(d, "main", ManageEvent::ConfirmRemove);
    assert!(matches!(a, ManageAction::Nothing));
}

#[test]
fn manage_leaves_the_active_profile_alone() {
    let (d, a) = manage_step(manage(), "main", ManageEvent::Remove { id: "main".to_string() });
    assert!(matches!(a, ManageAction::Nothing));
    assert_eq!(d, manage());
    let (_, a) = manage_step(manage(), "main", ManageEvent::Switch { id: "main".to_string() });
    assert!(matches!(a, ManageAction::Nothing));
    let (_, a) = manage_step(manage(), "main", ManageEvent::Switch { id: "kids".to_string() });
    assert!(matches!(a, ManageAction::Switch { id } if id == "kids"));
}

#[test]
fn manage_rename_and_colour() {
    let (d, _) = manage_step(
        manage(),
        "main",
        ManageEvent::Rename { id: "kids".to_string(), name: "Kids".to_string() },
    );
    let (d, _) = manage_step(d, "main", ManageEvent::Typed("Kids 2".to_string()));
    let (d, a) = manage_step(d, "main", ManageEvent::SaveName);
    assert!(matches!(a, ManageAction::Rename { id, name } if id == "kids" && name == "Kids 2"));
    assert_eq!(d, manage());
    let (_, a) = manage_step(d, "main", ManageEvent::Renamed { ok: false });
    assert!(matches!(a, ManageAction::RenameFailed));
    let (_, a) = manage_step(manage(), "main", ManageEvent::Color { id: "kids".to_string(), color: 7 });
    assert!(matches!(a, ManageAction::SetColor { id, color: 7 } if id == "kids"));
    let (d, _) = manage_step(manage(), "main", ManageEvent::NewProfile);
    assert_eq!(d, ProfileDialog::Create { name: String::new() });
    let (d, _) = manage_step(manage(), "main", ManageEvent::Done);
    assert_eq!(d, ProfileDialog::Closed);
    let (d, a) = manage_step(ProfileDialog::Closed, "main", ManageEvent::Color { id: "x".to_string(), color: 1 });
    assert_eq!(d, ProfileDialog::Closed);
    assert!(matches!(a, ManageAction::Nothing));
}

#[test]
fn version_row_star_and_pick() {
    let mut favs = vec!["1.21.4".to_string(), "1.20.1".to_string()];
    let mut last = Some("1.20.1".to_string());
    assert!(!version_row_click(&mut favs, &mut last, "1.21.4", RowClick::Star));
    assert_eq!(favs, vec!["1.20.1".to_string()]);
    assert_eq!(last, Some("1.20.1".to_string()));
    assert!(!version_row_click(&mut favs, &mut last, "1.8.9", RowClick::Star));
    assert_eq!(favs, vec!["1.20.1".to_string(), "1.8.9".to_string()]);
    assert!(version_row_click(&mut favs, &mut last, "1.21.4", RowClick::Row));
    assert_eq!(last, Some("1.21.4".to_string()));
    assert_eq!(favs, vec!["1.20.1".to_string(), "1.8.9".to_string()]);
}

#[test]
fn import_preview_clicks() {
    let (s, a) = preview_step(ImportStage::Preview(5u8), false, PreviewClick::Import);
    assert!(matches!(s, ImportStage::Working));
    assert!(matches!(a, PreviewAction::StartImport(5)));
    let (s, a) = preview_step(ImportStage::Preview(5u8), true, PreviewClick::Import);
    assert!(matches!(s, ImportStage::Preview(5)));
    assert!(matches!(a, PreviewAction::Nothing));
    let (s, a) = preview_step(ImportStage::Preview(5u8), true, PreviewClick::Back);
    assert!(matches!(s, ImportStage::Edit(None)));
    assert!(matches!(a, PreviewAction::Nothing));
    let (s, _) = preview_step(ImportStage::<u8>::Loading, false, PreviewClick::Import);
    assert!(matches!(s, ImportStage::Loading));
}

fn view() -> InstanceView {
    InstanceView {
        open: None,
        page: InstancePage::Browse,
        confirm_delete: true,
        rename: Some("typed".to_string()),
    }
}

#[test]
fn opening_an_instance() {
    let mut v = view();
    assert!(open_instance(&mut v, "fabric-1", Some(true)));
    assert_eq!(v.open, Some("fabric-1".to_string()));
    assert_eq!(v.page, InstancePage::Mods);
    assert!(!v.confirm_delete);
    assert_eq!(v.rename, None);
    let mut v = view();
    assert!(open_instance(&mut v, "plain", Some(false)));
    assert_eq!(v.page, InstancePage::Settings);
    let mut v = view();
    assert!(!open_instance(&mut v, "gone", None));
    assert_eq!(v.page, InstancePage::Settings);
}

#[test]
fn instance_settings_decisions() {
    assert_eq!(rename_offer("  Cool pack ", "Old"), Some("Cool pack".to_string()));
    assert_eq!(rename_offer(" Old ", "Old"), None);
    assert_eq!(rename_offer("   ", "Old"), None);
    assert_eq!(instance_memory(true, 6144), Some(6144));
    assert_eq!(instance_memory(false, 6144), None);
    assert_eq!(remove_step(false, false, RemoveClick::Remove), (true, false));
    assert_eq!(remove_step(false, true, RemoveClick::Keep), (false, false));
    assert_eq!(remove_step(false, true, RemoveClick::Yes), (true, true));
    assert_eq!(remove_step(false, false, RemoveClick::Yes), (false, false));
    assert_eq!(remove_step(true, true, RemoveClick::Yes), (true, false));
    let mut v = view();
    v.open = Some("x".to_string());
    let mut last = Some("x".to_string());
    instance_removed(&mut v, &mut last, "x");
    assert_eq!(v.open, None);
    assert!(!v.confirm_delete);
    assert_eq!(last, None);
    let mut last = Some("y".to_string());
    instance_removed(&mut v, &mut last, "x");
    assert_eq!(last, Some("y".to_string()));
    assert_eq!(switched_instance("default", "default"), None);
    assert_eq!(switched_instance("fabric", "default"), Some("fabric".to_string()));
}

#[test]
fn play_button_face() {
    assert!(matches!(play_face(&PlayButton::Ready), (true, PlayLabel::Play)));
    assert!(matches!(play_face(&PlayButton::Blocked), (false, PlayLabel::Play)));
    assert!(matches!(play_face(&PlayButton::Running), (false, PlayLabel::Playing)));
    assert!(matches!(play_face(&PlayButton::Percent), (false, PlayLabel::Percent)));
    match play_face(&PlayButton::Busy("Starting…".to_string())) {
        (false, PlayLabel::Text(t)) => assert_eq!(t, "Starting…"),
        _ => panic!("busy label"),
    }
}

fn settings(last: Option<&str>, max: u32) -> LauncherSettings {
    LauncherSettings {
        theme: ThemeMode::Dark,
        animations: false,
        intro: false,
        max_memory_mb: max,
        min_memory_mb: 512,
        window_width: 1280,
        window_height: 720,
        fullscreen: true,
        on_game_start: GameStartAction::Minimize,
        extra_jvm_args: "-Xss4M".to_string(),
        java_override: Some("/opt/java".to_string()),
        update_channel: UpdateChannel::Beta,
        check_updates_on_start: false,
        last_version: last.map(|s| s.to_string()),
        favorite_versions: vec!["1.8.9".to_string()],
    }
}

#[test]
fn settings_restore_and_ranges() {
    let current = settings(Some("1.21.4"), 8192);
    let mut defaults = settings(None, 4096);
    defaults.theme = ThemeMode::Default;
    defaults.favorite_versions = Vec::new();
    let r = restored_settings(&current, defaults);
    assert_eq!(r.last_version, Some("1.21.4".to_string()));
    assert_eq!(r.max_memory_mb, 4096);
    assert_eq!(r.theme, ThemeMode::Default);
    assert!(r.favorite_versions.is_empty());
    assert_eq!(memory_slider_ranges(512, 8192), ((512, 32768), (512, 8192)));
    assert_eq!(java_override_toggled(true), Some(String::new()));
    assert_eq!(java_override_toggled(false), None);
    assert_eq!(java_path_typed("  C:\\java\\bin\\javaw.exe \n"), "C:\\java\\bin\\javaw.exe");
    assert_eq!(java_path_warning("/nope", false), Some("File not found; the managed runtime will be used."));
    assert_eq!(java_path_warning("", false), None);
    assert_eq!(java_path_warning("/usr/bin/java", true), None);
}

#[test]
fn world_picker_steps() {
    let mut p = WorldPicker::open(2);
    p.set_world("/saves/a", true);
    p.set_world("/saves/b", true);
    p.set_world("/saves/a", true);
    assert_eq!(p.picked.len(), 2);
    assert_eq!(p.button_text(), "Import 2 worlds");
    assert!(p.submits(true));
    p.set_world("/saves/b", false);
    assert_eq!(p.button_text(), "Import 1 world");
    p.choose_source(1);
    assert_eq!(p.source, 1);
    assert!(p.picked.is_empty());
    assert_eq!(p.button_text(), "Import");
    assert!(!p.submits(true));
}

#[test]
fn find_world_prefers_exact_folders() {
    let worlds = vec![
        World { folder: "NEW WORLD".to_string(), name: "x".to_string() },
        World { folder: "other".to_string(), name: "New World".to_string() },
        World { folder: "New World".to_string(), name: "y".to_string() },
    ];
    assert_eq!(find_world(&worlds, "New World").ok(), Some(2));
    assert_eq!(find_world(&worlds, "new world").ok(), Some(0));
    assert_eq!(find_world(&worlds, "x").ok(), Some(0));
    assert!(find_world(&worlds, "none").is_err());
}

#[test]
fn migrate_categories_and_huds() {
    let counts = vec![
        ("Worlds".to_string(), 3u64),
        ("Screenshots".to_string(), 40),
        ("Resource packs".to_string(), 0),
        ("Settings".to_string(), 1),
    ];
    assert_eq!(default_categories(&counts, "Screenshots"), vec!["Worlds".to_string(), "Settings".to_string()]);
    let bytes = vec![("Worlds".to_string(), 5_000u64), ("Settings".to_string(), 12), ("Screenshots".to_string(), 900)];
    assert_eq!(chosen_bytes(&vec!["Worlds".to_string(), "Settings".to_string()], &bytes), 5_012);
    assert_eq!(chosen_bytes(&vec!["Resource packs".to_string()], &bytes), 0);
    let mut h = HudChoice::new(&vec!["fps".to_string(), "coords".to_string(), "fps".to_string()], "default");
    assert_eq!(h.on.len(), 2);
    assert_eq!(h.target, "default");
    h.set_widget("armor", true);
    h.set_widget("fps", false);
    assert_eq!(h.on, vec!["coords".to_string(), "armor".to_string()]);
}

#[test]
fn setting_values_as_stored() {
    assert!(matches!(setting_value("java_override", "none", true), StoredValue::Null));
    assert!(matches!(setting_value("extra_jvm_args", "-Xss4M", true), StoredValue::Text(t) if t == "-Xss4M"));
    match setting_value("max_memory_mb", "4096", false) {
        StoredValue::Json(v) => assert_eq!(v, serde_json::Value::from(4096)),
        other => panic!("{other:?}"),
    }
    match setting_value("fullscreen", "true", false) {
        StoredValue::Json(v) => assert_eq!(v, serde_json::Value::Bool(true)),
        other => panic!("{other:?}"),
    }
    assert!(matches!(setting_value("theme", "dark", false), StoredValue::Text(t) if t == "dark"));
}

#[test]
fn icons_are_fetched_once() {
    let mut icons = IconCache::new();
    assert_eq!(icons.icon_uri("https://cdn/a.png"), (None, true));
    assert_eq!(icons.icon_uri("https://cdn/a.png"), (None, false));
    icons.loaded("https://cdn/a.png", IconState::Ready("bytes://a".to_string()));
    assert_eq!(icons.icon_uri("https://cdn/a.png"), (Some("bytes://a".to_string()), false));
    assert_eq!(icons.icon_uri("https://cdn/b.png"), (None, true));
    icons.loaded("https://cdn/b.png", IconState::Failed);
    assert_eq!(icons.icon_uri("https://cdn/b.png"), (None, false));
    assert_eq!(icons.entries.len(), 2);
}

#[test]
fn short_labels() {
    assert_eq!(view_label(VersionView::All, 3, 2), "All");
    assert_eq!(view_label(VersionView::Installed, 3, 2), "Installed (3)");
    assert_eq!(view_label(VersionView::Favorites, 3, 2), "Favorites (2)");
    assert_eq!(switcher_subtitle(true, "Fabric"), "Default instance");
    assert_eq!(switcher_subtitle(false, "Fabric"), "Fabric instance");
    assert_eq!(removed_text("faithful.zip"), "Removed faithful.zip");
}
