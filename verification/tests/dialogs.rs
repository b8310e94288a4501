use arctic::commands::Part;
use arctic::share_dialogs::{
    can_continue, can_get_code, code_state, export_title, import_blocked, import_busy, keep_dialog_open,
    left_out_notes, left_out_toast, mods_line, stage_after_load, stage_for_input, warning_lines,
    BundleKind, CodeState, ImportStage, Input, PackMod, ShareKind,
};
use arctic::profiles_ui::{valid_profile_name, ProfileDialog};

fn strings(v: &[&str]) -> Vec<String> {
    v.iter().map(|s| s.to_string()).collect()
}

#[test]
fn share_kinds() {
    assert_eq!(ShareKind::Hud.part(), Some(Part::Hud));
    assert_eq!(ShareKind::Client.part(), Some(Part::All));
    assert_eq!(ShareKind::Instance.part(), None);
    assert_eq!(ShareKind::Profile.part(), None);
    assert_eq!(
        ShareKind::for_instance(),
        vec![ShareKind::Instance, ShareKind::Hud, ShareKind::Crosshair, ShareKind::Client]
    );
    assert_eq!(ShareKind::Instance.label(), Some("Mods & version"));
    assert_eq!(ShareKind::Client.label(), Some("All client settings"));
    assert_eq!(ShareKind::Profile.label(), None);
    assert_eq!(ShareKind::first(true), ShareKind::Instance);
    assert_eq!(ShareKind::first(false), ShareKind::Profile);
    assert_eq!(export_title(true), "Share");
    assert_eq!(export_title(false), "Share your profile");
}

#[test]
fn invite_codes() {
    assert!(matches!(code_state(Ok("abcd-efgh".to_string())), CodeState::Ready(c) if c == "abcd-efgh"));
    assert!(matches!(code_state(Err("offline".to_string())), CodeState::Failed(e) if e == "offline"));
    assert!(can_get_code(true, &None));
    assert!(!can_get_code(false, &None));
    assert!(!can_get_code(true, &Some(CodeState::Making)));
    assert!(can_get_code(true, &Some(CodeState::Failed("x".to_string()))));
}

#[test]
fn left_out_files() {
    assert_eq!(
        left_out_notes(&strings(&["own.jar"])),
        vec!["own.jar isn't from Modrinth, so it's left out; send it separately."]
    );
    assert!(left_out_notes(&Vec::new()).is_empty());
}

#[test]
fn warnings_are_capped() {
    let few = strings(&["a", "b"]);
    assert_eq!(warning_lines(&few), few);
    let many = strings(&["1", "2", "3", "4", "5", "6", "7"]);
    assert_eq!(warning_lines(&many), strings(&["1", "2", "3", "4", "5", "…and 2 more"]));
    assert_eq!(left_out_toast(&Vec::new()), None);
    assert_eq!(left_out_toast(&few).as_deref(), Some("a\nb"));
    assert_eq!(left_out_toast(&many).as_deref(), Some("1\n2\n3\n4\n5\n…and 2 more"));
    let five = strings(&["1", "2", "3", "4", "5"]);
    assert_eq!(left_out_toast(&five).as_deref(), Some("1\n2\n3\n4\n5"));
}

fn pack_mod(title: &str, dependency: bool) -> PackMod {
    PackMod { title: title.to_string(), dependency }
}

#[test]
fn preview_mod_line() {
    assert_eq!(mods_line(&Vec::new()), None);
    assert_eq!(mods_line(&vec![pack_mod("Fabric API", true)]), None);
    let mods = vec![pack_mod("Sodium", false), pack_mod("Fabric API", true), pack_mod("Iris", false)];
    assert_eq!(mods_line(&mods).as_deref(), Some("Sodium, Iris"));
    let many: Vec<PackMod> = (1..=10).map(|i| pack_mod(&format!("m{i}"), false)).collect();
    assert_eq!(mods_line(&many).as_deref(), Some("m1, m2, m3, m4, m5, m6, m7, m8 and 2 more"));
}

#[test]
fn import_stages() {
    let (stage, fetch) = stage_for_input(Ok(Input::Bundle("bundle".to_string())));
    assert!(matches!(stage, ImportStage::Preview(b) if b == "bundle"));
    assert_eq!(fetch, None);
    let (stage, fetch) = stage_for_input::<String>(Ok(Input::Code("abcd-efgh".to_string())));
    assert!(matches!(stage, ImportStage::Loading));
    assert_eq!(fetch.as_deref(), Some("abcd-efgh"));
    let (stage, _) = stage_for_input::<String>(Err("not a share".to_string()));
    assert!(matches!(stage, ImportStage::Edit(Some(e)) if e == "not a share"));
    assert!(matches!(stage_after_load::<String>(Ok(None)), ImportStage::Edit(None)));
    assert!(matches!(stage_after_load(Ok(Some(1u8))), ImportStage::Preview(1)));
    assert!(matches!(stage_after_load::<u8>(Err("e".to_string())), ImportStage::Edit(Some(_))));
    assert!(import_busy::<u8>(&ImportStage::Working));
    assert!(import_busy::<u8>(&ImportStage::Loading));
    assert!(!import_busy::<u8>(&ImportStage::Edit(None)));
    assert!(can_continue("  abcd  "));
    assert!(!can_continue(" \n "));
}

#[test]
fn dialogs_stay_open_while_busy() {
    assert!(keep_dialog_open(false, true, true));
    assert!(!keep_dialog_open(false, true, false));
    assert!(!keep_dialog_open(true, false, true));
    assert!(keep_dialog_open(false, false, false));
}

#[test]
fn profile_dialogs() {
    assert_eq!(ProfileDialog::create(), ProfileDialog::Create { name: String::new() });
    assert_eq!(ProfileDialog::manage(), ProfileDialog::Manage { renaming: None, confirm_remove: None });
    assert!(ProfileDialog::manage().is_open());
    assert!(!ProfileDialog::Closed.is_open());
    assert!(valid_profile_name(" Speedruns "));
    assert!(!valid_profile_name("   "));
}

#[test]
fn import_waits_for_games() {

    assert_eq!(import_blocked(BundleKind::Instance, true, true), None);
    assert_eq!(
        import_blocked(BundleKind::Client, true, false),
        Some("Close that game first; it saves its own settings when it quits.")
    );
    assert_eq!(import_blocked(BundleKind::Client, false, true), None);
    assert_eq!(import_blocked(BundleKind::Profile, false, true), Some("Close your games first."));
    assert_eq!(import_blocked(BundleKind::Profile, true, false), None);
}
