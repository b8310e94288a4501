use arctic::migrate::{all_exit_code, kept_categories, pick};

fn strings(v: &[&str]) -> Vec<String> {
    v.iter().map(|s| s.to_string()).collect()
}

#[test]
fn pick_by_key_name_or_part() {
    let keys = strings(&["prism:Fabric 1.21", "prism:Vanilla", "curseforge:All the Mods"]);
    let names = strings(&["Fabric 1.21", "Vanilla", "All the Mods"]);
    assert_eq!(pick(&keys, &names, "prism:Vanilla").unwrap(), 1);
    assert_eq!(pick(&keys, &names, "all the mods").unwrap(), 2);
    assert_eq!(pick(&keys, &names, "fabric").unwrap(), 0);
    let none = pick(&keys, &names, "lunar").unwrap_err();
    assert_eq!(none.message(), "nothing matches 'lunar' (see `arctic migrate list`)");
    let many = pick(&keys, &names, "prism").unwrap_err();
    assert_eq!(many.message(), "'prism' matches 2 things; use the full key from `arctic migrate list`");
}

#[test]
fn skipped_categories() {
    let ids = strings(&["mods", "worlds", "screenshots", "settings"]);
    assert_eq!(kept_categories(&ids, &strings(&["Screenshots", "WORLDS"])), vec![0, 3]);
    assert_eq!(kept_categories(&ids, &Vec::new()), vec![0, 1, 2, 3]);
}

#[test]
fn exit_codes() {
    assert_eq!(all_exit_code(0), 0);
    assert_eq!(all_exit_code(2), 1);
}
