use arctic::errors::Error;
use arctic::worlds::{find_world, import_button_text, imported_message, World};

fn world(folder: &str, name: &str) -> World {
    World { folder: folder.to_string(), name: name.to_string() }
}

fn message(e: Error) -> String {
    e.message().to_string()
}

#[test]
fn world_lookup_order() {
    let worlds = vec![
        world("Survival", "My Base"),
        world("survival", "Other"),
        world("creative-2", "SURVIVAL"),
    ];
    // The exact folder name wins over a folder differing in case.
    assert_eq!(find_world(&worlds, "survival").unwrap(), 1);
    assert_eq!(find_world(&worlds, "Survival").unwrap(), 0);
    // Folder ignoring case before the name shown in game.
    assert_eq!(find_world(&worlds, "SURVIVAL").unwrap(), 0);
    assert_eq!(find_world(&worlds, "my base").unwrap(), 0);
    assert_eq!(
        message(find_world(&worlds, "nether").unwrap_err()),
        "no world matches 'nether' (see `arctic worlds list`)"
    );
}

#[test]
fn import_messages() {
    assert_eq!(imported_message(1, None).unwrap(), "Imported 1 world");
    assert_eq!(imported_message(3, Some("late".to_string())).unwrap(), "Imported 3 worlds");
    assert_eq!(imported_message(0, None).unwrap(), "Imported 0 worlds");
    assert_eq!(imported_message(0, Some("no level.dat".to_string())).unwrap_err(), "no level.dat");
}

#[test]
fn import_button() {
    assert_eq!(import_button_text(0), "Import");
    assert_eq!(import_button_text(1), "Import 1 world");
    assert_eq!(import_button_text(5), "Import 5 worlds");
}
