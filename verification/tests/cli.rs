use arctic::cli::{LookCommand, OpenArgs, SkinCommand, SkinModel, WorldsCommand};
use arctic::commands::open_flags;

#[test]
fn worlds_instance_option() {
    let list = WorldsCommand::List { instance: Some("fabric-1".to_string()) };
    assert_eq!(list.instance(), Some("fabric-1"));
    let backup = WorldsCommand::Backup { world: "New World".to_string(), instance: None };
    assert_eq!(backup.instance(), None);
    let import = WorldsCommand::Import { path: "w.zip".to_string(), instance: Some("x".to_string()) };
    assert_eq!(import.instance(), Some("x"));
}

#[test]
fn skin_and_look_account_option() {
    let up = SkinCommand::Upload {
        file: "skin.png".to_string(),
        model: Some(SkinModel::Slim),
        account: Some("Steve".to_string()),
    };
    assert_eq!(up.account(), Some("Steve"));
    assert_eq!(SkinCommand::Reset { account: None }.account(), None);
    let wear = LookCommand::Wear { ids: vec!["hat".to_string()], account: Some("Alex".to_string()) };
    assert_eq!(wear.account(), Some("Alex"));
    assert_eq!(LookCommand::Show { account: None }.account(), None);
}

#[test]
fn open_flags_in_order() {
    let args = OpenArgs {
        launch: Some("1.21.4".to_string()),
        account: None,
        tab: Some("logs".to_string()),
        no_intro: true,
    };
    assert_eq!(open_flags(&args), vec!["--launch", "1.21.4", "--tab", "logs", "--no-intro"]);
    let none = OpenArgs { launch: None, account: None, tab: None, no_intro: false };
    assert!(open_flags(&none).is_empty());
}

use arctic::rows::{
    account_row, choice_line, hit_row, instance_created_text, instance_row, pack_row, path_row,
    profile_created_text, profile_row, push_right_aligned, switched_text, world_row,
};

#[test]
fn list_rows() {
    assert_eq!(
        account_row(true, "Steve", "Microsoft", "u-1"),
        format!("* {:<18} {:<10} {}", "Steve", "Microsoft", "u-1")
    );
    assert_eq!(profile_row(false, "Default", "default"), format!("  {:<24} default", "Default"));
    assert_eq!(
        instance_row("vanilla", "Vanilla", None, "Vanilla"),
        format!("{:<24} {:<20} {:<10} Vanilla", "vanilla", "Vanilla", "any")
    );
    assert_eq!(
        instance_row("f1", "Fabric", Some("1.21.4"), "Fabric 0.16.9"),
        format!("{:<24} {:<20} {:<10} Fabric 0.16.9", "f1", "Fabric", "1.21.4")
    );
    assert_eq!(hit_row("sodium", 12345, "Sodium"), format!("{:<28} {:>10}  Sodium", "sodium", 12345));
    assert_eq!(world_row("Base", 1_572_864, "base"), format!("{:<32} {:>9}  base", "Base", "1.5 MB"));
    assert_eq!(pack_row(true, "x.zip"), "on  x.zip");
    assert_eq!(pack_row(false, "x.zip"), "off x.zip");
    assert_eq!(path_row("logs", "/d/logs"), "logs       /d/logs");
    assert_eq!(switched_text("a.jar", false), "a.jar is now off");
    assert_eq!(profile_created_text("Speedruns", true), "Created profile Speedruns (now active)");
    assert_eq!(profile_created_text("Family", false), "Created profile Family");
    assert_eq!(
        instance_created_text("Fabric", "Fabric 0.16.9", "1.21.4", "fabric"),
        "Created Fabric (Fabric 0.16.9, Minecraft 1.21.4). Start it with: arctic launch --instance fabric"
    );
    assert_eq!(choice_line("wings", "Wings", Some("back")), format!("\n    {:<16} Wings (back)", "wings"));
    assert_eq!(choice_line("frost", "Frost", None), format!("\n    {:<16} Frost", "frost"));
    let mut s = String::from("[");
    push_right_aligned(&mut s, "ab", 5);
    assert_eq!(s, "[   ab");
    let mut t = String::new();
    push_right_aligned(&mut t, "toolong", 3);
    assert_eq!(t, "toolong");
}
