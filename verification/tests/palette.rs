use mc_world::palette::Palette;

#[test]
fn ids_are_handed_out_in_order() {
    let mut palette = Palette::new();
    assert_eq!(palette.len(), 0);
    assert_eq!(palette.get_or_create("minecraft:air"), 0);
    assert_eq!(palette.get_or_create("minecraft:stone"), 1);
    assert_eq!(palette.get_or_create("minecraft:dirt"), 2);
    assert_eq!(palette.len(), 3);
}

#[test]
fn a_name_keeps_its_id() {
    let mut palette = Palette::new();
    let stone = palette.get_or_create("minecraft:stone");
    assert_eq!(palette.get_or_create("minecraft:stone"), stone);
    palette.get_or_create("minecraft:dirt");
    palette.get_or_create("minecraft:sand");
    assert_eq!(palette.get_or_create("minecraft:stone"), stone);
    assert_eq!(palette.len(), 3);
}

#[test]
fn ids_are_dense() {
    let seen = ["a:x", "a:y", "a:x", "b:x", "a:y", "a:z", "b:x", "a:x"];
    let mut palette = Palette::new();
    let ids: Vec<usize> = seen.iter().map(|name| palette.get_or_create(name)).collect();
    assert_eq!(ids, vec![0, 1, 0, 2, 1, 3, 2, 0]);
    assert_eq!(palette.len(), 4);
    for id in 0..palette.len() {
        let name = palette.name(id).unwrap().clone();
        assert_eq!(palette.lookup(&name), Some(id));
    }
    assert!(palette.name(4).is_none());
}

#[test]
fn names_are_told_apart_exactly() {
    let mut palette = Palette::new();
    assert_eq!(palette.get_or_create("minecraft:stone"), 0);
    assert_eq!(palette.get_or_create("minecraft:Stone"), 1);
    assert_eq!(palette.get_or_create("minecraft:stone "), 2);
    assert_eq!(palette.get_or_create(""), 3);
    assert_eq!(palette.get_or_create(""), 3);
    assert_eq!(palette.name(1).unwrap(), "minecraft:Stone");
}

#[test]
fn lookup_adds_nothing() {
    let mut palette = Palette::new();
    assert_eq!(palette.lookup("minecraft:stone"), None);
    assert_eq!(palette.len(), 0);
    palette.get_or_create("minecraft:stone");
    assert_eq!(palette.lookup("minecraft:stone"), Some(0));
    assert_eq!(palette.lookup("minecraft:dirt"), None);
    assert_eq!(palette.len(), 1);
}
