use arctic::cli::SkinModel;
use arctic::looks::{
    cape_name, check_cosmetics, look_cape, owned_cape_choice, skin_variant, CapePick, OwnedCape,
    Preset, Variant,
};

#[test]
fn skin_variants() {
    assert_eq!(skin_variant(Some(SkinModel::Slim), Variant::Classic), Variant::Slim);
    assert_eq!(skin_variant(Some(SkinModel::Classic), Variant::Slim), Variant::Classic);
    assert_eq!(skin_variant(None, Variant::Slim), Variant::Slim);
}

#[test]
fn owned_capes() {
    let capes = vec![
        OwnedCape { id: "abc-1".to_string(), alias: "Migrator".to_string() },
        OwnedCape { id: "def-2".to_string(), alias: "Vanilla".to_string() },
    ];
    assert_eq!(owned_cape_choice(&capes, "none").unwrap(), None);
    assert_eq!(owned_cape_choice(&capes, "def-2").unwrap(), Some(1));
    assert_eq!(owned_cape_choice(&capes, "migrator").unwrap(), Some(0));
    let err = owned_cape_choice(&capes, "Founder").unwrap_err();
    assert_eq!(err.message(), "you don't own a cape called 'Founder'");
}

fn preset(id: &str, name: &str, texture: &str) -> Preset {
    Preset { id: id.to_string(), name: name.to_string(), texture: texture.to_string() }
}

#[test]
fn arctic_capes() {
    let presets = vec![preset("p1", "Frost", "h1"), preset("p2", "Aurora", "h2")];
    assert_eq!(look_cape(&presets, "none"), CapePick::Nothing);
    assert_eq!(look_cape(&presets, "p2"), CapePick::Preset(1));
    assert_eq!(look_cape(&presets, "FROST"), CapePick::Preset(0));
    assert_eq!(look_cape(&presets, "cape.png"), CapePick::File);
    assert_eq!(cape_name(&presets, Some("h2")).as_deref(), Some("Aurora"));
    assert_eq!(cape_name(&presets, Some("zz")).as_deref(), Some("custom"));
    assert_eq!(cape_name(&presets, None), None);
}

#[test]
fn cosmetics_must_exist() {
    let catalog = vec!["hat".to_string(), "wings".to_string()];
    assert!(check_cosmetics(&catalog, &vec!["wings".to_string()]).is_ok());
    assert!(check_cosmetics(&catalog, &Vec::new()).is_ok());
    let err = check_cosmetics(&catalog, &vec!["hat".to_string(), "halo".to_string(), "x".to_string()])
        .unwrap_err();
    assert_eq!(err.message(), "no cosmetic called 'halo' (see `arctic look show`)");
}
