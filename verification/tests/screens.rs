use arctic::commands::UpdateInfo;
use arctic::instances_ui::{
    default_instance_name, first_page, icon_loaded, icon_lookup, installed_title,
    instance_subtitle, load_from, pick_game, selected_instance, supported_games, IconState,
    InstancePage, Load,
};
use arctic::migration::{bring_over_label, target_name, MigrateRun, MigrateStage, Outcome};
use arctic::onboarding::{memory_slider_max, over_half_memory, setup_start, SetupStart, Step};
use arctic::output::ProgressInfo;
use arctic::play_ui::{
    blocked_reason, launch_status, play_button, selected_installed, PlayButton, RunPhase,
    StatusLine,
};
use arctic::search::Search;
use arctic::updates::UpdateState;

fn strings(v: &[&str]) -> Vec<String> {
    v.iter().map(|s| s.to_string()).collect()
}

fn outcome(ok: bool) -> Outcome {
    Outcome { ok, title: "x".to_string(), lines: Vec::new() }
}

#[test]
fn migration_run() {
    let mut run = MigrateRun::open();
    assert_eq!(run.stage, MigrateStage::Scanning);
    assert!(run.busy());
    run.scanned();
    assert_eq!(run.stage, MigrateStage::Choose);
    run.set_picked("prism:A", true);
    run.set_picked("prism:B", true);
    run.set_picked("prism:A", true);
    assert_eq!(run.picked_count(), 2);
    run.set_picked("prism:A", false);
    assert_eq!(run.picked, strings(&["prism:B"]));
    run.set_picked("prism:C", false);
    assert_eq!(run.picked_count(), 1);
    run.start(2);
    assert!(run.busy());
    run.progress(
        "Copying B".to_string(),
        ProgressInfo { stage: "mods".to_string(), done: 1, total: 2, bytes_done: 0, bytes_total: 0 },
    );
    run.item(outcome(true));
    assert_eq!(run.progress_text(), "1 of 2 done");
    run.item(outcome(false));
    let toast = run.finished();
    assert!(!toast.success);
    assert_eq!(toast.title, "1 couldn't come over");
    assert_eq!(run.stage, MigrateStage::Done);
    assert!(run.current.is_none());
    assert!(!run.busy());
}

#[test]
fn migration_all_ok() {
    let mut run = MigrateRun::open();
    run.start(1);
    run.item(outcome(true));
    let toast = run.finished();
    assert!(toast.success);
    assert_eq!(toast.title, "Everything came over");
    assert_eq!(bring_over_label(3), "Bring over 3");
}

#[test]
fn target_names() {
    let targets = vec![
        ("vanilla".to_string(), "Vanilla".to_string()),
        ("f1".to_string(), "Fabric".to_string()),
        ("f1".to_string(), "Shadowed".to_string()),
    ];
    assert_eq!(target_name(&targets, "f1"), "Fabric");
    assert_eq!(target_name(&targets, "gone"), "Vanilla");
}

#[test]
fn searches_keep_the_newest_answer() {
    let mut s: Search<Vec<u32>> = Search::new();
    assert!(s.needs_first_search());
    let first = s.run();
    let second = s.run();
    assert_eq!((first, second), (1, 2));
    assert!(!s.needs_first_search());
    s.on_results(first, Ok(vec![1]));
    assert!(s.loading);
    assert!(s.results.is_none());
    s.on_results(second, Ok(vec![2]));
    assert!(!s.loading);
    assert_eq!(s.results, Some(Ok(vec![2])));
    s.clear();
    assert!(s.needs_first_search());
    s.on_results(second, Ok(vec![3]));
    let third = s.restart();
    assert_eq!(third, 3);
    assert!(s.loading);
    assert!(s.results.is_none());
}

#[test]
fn instance_pages_and_icons() {
    assert_eq!(first_page(true), InstancePage::Mods);
    assert_eq!(first_page(false), InstancePage::Settings);
    assert_eq!(icon_lookup(None), (None, true));
    assert_eq!(icon_lookup(Some(&IconState::Loading)), (None, false));
    assert_eq!(icon_lookup(Some(&IconState::Failed)), (None, false));
    let ready = IconState::Ready("bytes://modicon/00".to_string());
    assert_eq!(icon_lookup(Some(&ready)), (Some("bytes://modicon/00".to_string()), false));
    assert_eq!(icon_loaded("https://x/y.png", false), IconState::Failed);
    match icon_loaded("https://x/y.png", true) {
        IconState::Ready(uri) => {
            assert!(uri.starts_with("bytes://modicon/"));
            assert_eq!(uri.len(), "bytes://modicon/".len() + 16);
            assert_ne!(uri, "https://x/y.png");
        }
        other => panic!("{other:?}"),
    }
    assert!(matches!(load_from::<u8>(Ok(3)), Load::Ready(3)));
    assert!(matches!(load_from::<u8>(Err("e".to_string())), Load::Failed(e) if e == "e"));
}

#[test]
fn instance_lines() {
    assert_eq!(installed_title(&Vec::new()), "Already installed");
    assert_eq!(installed_title(&strings(&["Sodium"])), "Installed Sodium");
    assert_eq!(installed_title(&strings(&["Iris", "Sodium", "API"])), "Installed Iris + 2 dependencies");
    assert_eq!(
        instance_subtitle(Some("1.21.4"), "Fabric", Some("0.16.9")),
        "Fabric 0.16.9 · Minecraft 1.21.4"
    );
    assert_eq!(instance_subtitle(Some("1.21.4"), "Vanilla", None), "Minecraft 1.21.4");
    assert_eq!(instance_subtitle(None, "Fabric", Some("1")), "Plays any release");
}

#[test]
fn create_form_defaults() {
    let visible = strings(&["1.21.4", "1.21.3", "1.20.1"]);
    let supported = strings(&["1.20.1", "1.21.4"]);
    assert_eq!(supported_games(&visible, &supported), strings(&["1.21.4", "1.20.1"]));
    let offered = Some(strings(&["1.21.4", "1.20.1"]));
    assert_eq!(pick_game(Some("1.20.1".to_string()), &offered), (Some("1.20.1".to_string()), false));
    assert_eq!(pick_game(Some("1.8.9".to_string()), &offered), (Some("1.21.4".to_string()), true));
    assert_eq!(pick_game(None, &offered), (Some("1.21.4".to_string()), true));
    assert_eq!(pick_game(Some("x".to_string()), &None), (Some("x".to_string()), false));
    assert_eq!(pick_game(Some("x".to_string()), &Some(Vec::new())), (None, true));
    assert_eq!(default_instance_name(Some("Fabric"), Some("1.21.4")), "Fabric 1.21.4");
    assert_eq!(default_instance_name(None, None), "Vanilla");
    assert_eq!(selected_instance(Some("b"), &strings(&["a", "b"])), Some(1));
    assert_eq!(selected_instance(Some("c"), &strings(&["a", "b"])), None);
    assert_eq!(selected_instance(None, &strings(&["a"])), None);
}

fn info(required: bool) -> UpdateInfo {
    UpdateInfo { version: "2.0".to_string(), required, page_url: "u".to_string() }
}

#[test]
fn update_banner() {
    let mut optional = UpdateState::Available { info: info(false), dismissed: false };
    assert!(optional.banner_visible());
    assert_eq!(optional.banner_text().as_deref(), Some("Arctic Launcher 2.0 is available."));
    optional.dismiss();
    assert!(!optional.banner_visible());
    let mut required = UpdateState::Available { info: info(true), dismissed: false };
    assert_eq!(
        required.banner_text().as_deref(),
        Some("Required update 2.0 — install to keep playing.")
    );
    required.dismiss();
    assert!(required.banner_visible());
    assert!(UpdateState::Installing { done: 1, total: 2 }.banner_visible());
    assert!(UpdateState::Installing { done: 1, total: 2 }.busy());
    assert!(UpdateState::Checking.busy());
    assert!(!UpdateState::Idle.banner_visible());
    let failed = UpdateState::Failed { error: "net".to_string(), retry: Some(info(false)) };
    assert!(failed.banner_visible());
    assert_eq!(failed.banner_text().as_deref(), Some("Update failed: net"));
    assert_eq!(failed.status_text().as_deref(), Some("Update failed: net"));
    let check_failed = UpdateState::Failed { error: "net".to_string(), retry: None };
    assert!(!check_failed.banner_visible());
    assert_eq!(check_failed.status_text().as_deref(), Some("Couldn't check for updates: net"));
    assert_eq!(UpdateState::UpToDate.status_text().as_deref(), Some("You're on the latest version."));
    assert_eq!(UpdateState::Idle.status_text(), None);
}

#[test]
fn play_tab() {
    assert_eq!(
        blocked_reason(true, false, false),
        Some("A required launcher update must be installed first.")
    );
    assert_eq!(blocked_reason(false, false, false), Some("Add an account to play."));
    assert_eq!(blocked_reason(false, true, false), Some("Loading versions…"));
    assert_eq!(blocked_reason(false, true, true), None);
    assert!(selected_installed(Some("1.21.4"), &strings(&["1.21.4"])));
    assert!(!selected_installed(Some("1.21.3"), &strings(&["1.21.4"])));
    assert!(!selected_installed(None, &strings(&["1.21.4"])));
    let text = |s: StatusLine| match s {
        StatusLine::Text(t) => t,
        StatusLine::Download => "<download>".to_string(),
    };
    let assets = RunPhase::Preparing { stage: "Assets".to_string(), bytes_total: 0 };
    assert_eq!(text(launch_status(Some(&assets), None, false)), "Assets…");
    let sized = RunPhase::Preparing { stage: "Assets".to_string(), bytes_total: 9 };
    assert_eq!(text(launch_status(Some(&sized), None, false)), "<download>");
    assert_eq!(text(launch_status(Some(&RunPhase::Running), None, false)), "Minecraft is running. Have fun!");
    assert_eq!(text(launch_status(None, Some("Add an account to play."), true)), "Add an account to play.");
    assert_eq!(text(launch_status(None, None, true)), "Ready to play.");
    assert_eq!(
        text(launch_status(None, None, false)),
        "This version will be downloaded when you press Play."
    );
    assert!(matches!(play_button(Some(&sized), false), PlayButton::Percent));
    assert!(matches!(play_button(Some(&assets), false), PlayButton::Busy(l) if l == "Assets…"));
    assert!(matches!(play_button(Some(&RunPhase::Starting), true), PlayButton::Busy(l) if l == "Starting…"));
    assert!(matches!(play_button(None, true), PlayButton::Blocked));
    assert!(matches!(play_button(None, false), PlayButton::Ready));
}

#[test]
fn setup_steps() {
    assert_eq!(Step::Welcome.index(), 0);
    assert_eq!(Step::Start.index(), 5);
    assert_eq!(Step::all()[Step::Memory.index()], Step::Memory);
    assert_eq!(Step::Look.moved(true), Step::Account);
    assert_eq!(Step::Look.moved(false), Step::Welcome);
    assert_eq!(Step::Welcome.moved(false), Step::Welcome);
    assert_eq!(Step::Start.moved(true), Step::Start);
    assert_eq!(Step::Account.moved(true).moved(false), Step::Account);
    assert_eq!(Step::Welcome.primary_label(false), "Get started");
    assert_eq!(Step::Account.primary_label(false), "Skip for now");
    assert_eq!(Step::Account.primary_label(true), "Next");
    assert_eq!(Step::Start.primary_label(true), "Start playing");
    assert_eq!(setup_start(true, false, false), SetupStart::Nothing);
    assert_eq!(setup_start(false, true, false), SetupStart::MarkDone);
    assert_eq!(setup_start(false, false, true), SetupStart::MarkDone);
    assert_eq!(setup_start(false, false, false), SetupStart::Begin);
}

#[test]
fn memory_step() {
    assert_eq!(memory_slider_max(None), 16384);
    assert_eq!(memory_slider_max(Some(16384)), 15360);
    assert_eq!(memory_slider_max(Some(2048)), 2048);
    assert_eq!(memory_slider_max(Some(512)), 2048);
    assert!(over_half_memory(Some(8192), 4097));
    assert!(!over_half_memory(Some(8192), 4096));
    assert!(!over_half_memory(None, 60000));
}
