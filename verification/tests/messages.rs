use arctic::messages::{
    imported_instance_text, imported_profile_text, installed_mod_text, installed_pack_text,
    launched_text, look_line, migrated_text, setting_input, settings_text, shader_step,
    share_code_text, skin_text, still_mismatched, unsure_line, CapeEntry, SettingInput,
    ShaderStep, Unsure,
};

fn strings(v: &[&str]) -> Vec<String> {
    v.iter().map(|s| s.to_string()).collect()
}

#[test]
fn mismatched_warnings() {
    let mismatched = strings(&["sodium-0.5.jar", "lithium-0.11.jar", "iris.jar"]);
    let off = strings(&["sodium"]);
    assert_eq!(still_mismatched(&mismatched, &off), strings(&["lithium-0.11.jar", "iris.jar"]));
    assert_eq!(still_mismatched(&mismatched, &Vec::new()), mismatched);
}

#[test]
fn migration_lines() {
    assert_eq!(
        migrated_text("prism:Fabric", true, "Fabric", 120, 0, 0, 0),
        "prism:Fabric → new instance \"Fabric\": 120 files copied"
    );
    assert_eq!(
        migrated_text("prism:Fabric", false, "Vanilla", 3, 2, 5, 4),
        "prism:Fabric → instance \"Vanilla\": 3 files copied, 2 already there (kept yours), 5 mods (4 recognized on Modrinth)"
    );
    let unsure = vec![
        Unsure { widget: "fps".to_string(), guess: true },
        Unsure { widget: "coords".to_string(), guess: false },
    ];
    assert_eq!(
        unsure_line(&unsure),
        "\n    not saved as on or off: fps?, coords (? = guessed on; choose with --on)"
    );
}

#[test]
fn look_and_skin_lines() {
    assert_eq!(look_line("Steve", None, None, &Vec::new()), "Steve: Minecraft skin, cape: none, wearing: nothing");
    assert_eq!(
        look_line("Alex", Some("slim"), Some("Frost"), &strings(&["hat", "wings"])),
        "Alex: slim skin, cape: Frost, wearing: hat, wings"
    );
    let capes = vec![
        CapeEntry { alias: "Migrator".to_string(), id: "c1".to_string() },
        CapeEntry { alias: "Vanilla".to_string(), id: "c2".to_string() },
    ];
    assert_eq!(
        skin_text("Steve", Some("classic"), Some("Migrator"), &capes),
        "Steve: classic skin, cape: Migrator\n    cape Migrator (c1)\n    cape Vanilla (c2)"
    );
    assert_eq!(skin_text("Steve", None, None, &Vec::new()), "Steve: default skin, cape: none");
}

#[test]
fn settings_table() {
    let keys = strings(&["theme", "max_memory_mb"]);
    let values = strings(&["dark", "4096"]);
    assert_eq!(
        settings_text(&keys, &values),
        format!("{:<13}  dark\n{:<13}  4096", "theme", "max_memory_mb")
    );
    assert_eq!(settings_text(&Vec::new(), &Vec::new()), "");
    assert_eq!(setting_input("java_override", "none", true), SettingInput::Null);
    assert_eq!(setting_input("java_override", "", true), SettingInput::Null);
    assert_eq!(setting_input("java_override", "/j", true), SettingInput::Text);
    assert_eq!(setting_input("theme", "none", true), SettingInput::Text);
    assert_eq!(setting_input("max_memory_mb", "4096", false), SettingInput::Json);
}

#[test]
fn command_confirmations() {
    assert_eq!(shader_step(false, false, false), ShaderStep::SwitchOn);
    assert_eq!(shader_step(false, true, false), ShaderStep::Nothing);
    assert_eq!(shader_step(true, false, true), ShaderStep::Nothing);
    assert_eq!(shader_step(true, true, false), ShaderStep::InstallIris);
    assert_eq!(installed_mod_text("Fabric API", "0.100", true), "Installed Fabric API 0.100 (dependency)");
    assert_eq!(installed_mod_text("Sodium", "0.6", false), "Installed Sodium 0.6");
    assert_eq!(installed_pack_text("f.zip", true), "Installed f.zip and switched it on");
    assert_eq!(installed_pack_text("f.zip", false), "Installed f.zip");
    assert_eq!(
        share_code_text("HUD layout", "abcd-efgh"),
        "HUD layout\nCode: abcd-efgh\nThey can use it with `arctic import abcd-efgh` or in the launcher."
    );
    assert_eq!(
        imported_instance_text("Pack", 12, "pack"),
        "Created instance \"Pack\" with 12 mods. Launch it with `arctic launch --instance pack`."
    );
    assert_eq!(imported_profile_text(2), "Profile imported: settings applied, 2 instance(s) created.");
    assert_eq!(
        launched_text("1.21.4", "Steve", 4242, "/logs/game.log"),
        "Launched Minecraft 1.21.4 as Steve (pid 4242). Log: /logs/game.log"
    );
}
