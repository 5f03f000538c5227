use fastnbt::{LongArray, Value};
use mc_world::convert::Placement;
use mc_world::coords::{Vec2, Vec3};
use mc_world::ingest::{Failure, IngestError};
use mc_world::rules::Rule;
use mc_world::world::McWorld;
use std::collections::HashMap;
use std::io::Cursor;

fn block(name: &str) -> Value {
    let mut fields = HashMap::new();
    fields.insert("Name".to_string(), Value::String(name.to_string()));
    Value::Compound(fields)
}

/// One 16 x 16 x 16 section at section height `y`. Every cell holds the first
/// name of `palette`, but for the cells listed as `(x, y, z, index)`, local to
/// the section.
fn section(y: i8, palette: &[&str], cells: &[(usize, usize, usize, usize)]) -> Value {
    let mut states = HashMap::new();
    states.insert(
        "palette".to_string(),
        Value::List(palette.iter().map(|name| block(name)).collect()),
    );
    if palette.len() > 1 {
        let mut data = vec![0i64; 256];
        for &(x, sy, z, index) in cells {
            let i = sy * 256 + z * 16 + x;
            data[i / 16] |= (index as i64) << (4 * (i % 16));
        }
        states.insert("data".to_string(), Value::LongArray(LongArray::new(data)));
    }
    section_of(y, states)
}

fn plains() -> Value {
    let mut biomes = HashMap::new();
    biomes.insert(
        "palette".to_string(),
        Value::List(vec![Value::String("minecraft:plains".to_string())]),
    );
    Value::Compound(biomes)
}

fn section_of(y: i8, states: HashMap<String, Value>) -> Value {
    let mut fields = HashMap::new();
    fields.insert("Y".to_string(), Value::Byte(y));
    fields.insert("block_states".to_string(), Value::Compound(states));
    fields.insert("biomes".to_string(), plains());
    Value::Compound(fields)
}

fn root(sections: Option<Vec<Value>>) -> HashMap<String, Value> {
    let mut root = HashMap::new();
    root.insert("DataVersion".to_string(), Value::Int(3465));
    root.insert(
        "Status".to_string(),
        Value::String("minecraft:full".to_string()),
    );
    if let Some(sections) = sections {
        root.insert("sections".to_string(), Value::List(sections));
    }
    root
}

fn with_heightmap(mut root: HashMap<String, Value>, longs: usize) -> HashMap<String, Value> {
    let mut maps = HashMap::new();
    maps.insert(
        "MOTION_BLOCKING".to_string(),
        Value::LongArray(LongArray::new(vec![0i64; longs])),
    );
    root.insert("Heightmaps".to_string(), Value::Compound(maps));
    root
}

fn bytes_of(root: HashMap<String, Value>) -> Vec<u8> {
    fastnbt::to_bytes(&Value::Compound(root)).unwrap()
}

fn payload(sections: Vec<Value>) -> Vec<u8> {
    bytes_of(root(Some(sections)))
}

/// The sections of a chunk of air, 384 cells tall from height 0, with the
/// section at height 0 replaced by `bottom`.
fn tower(bottom: Value) -> Vec<Value> {
    let mut sections = vec![bottom];
    for y in 1..24 {
        sections.push(section(y, &["minecraft:air"], &[]));
    }
    sections
}

fn column(bottom: Value) -> Vec<u8> {
    payload(tower(bottom))
}

fn unsound_at(result: Result<(), IngestError>, x: usize, z: usize) {
    match result {
        Err(e) => {
            assert_eq!(e.kind(), Failure::Chunk);
            match e {
                IngestError::UnsoundChunk { x: ex, z: ez } => assert_eq!((ex, ez), (x, z)),
                other => panic!("not refused as unsound: {:?}", other),
            }
        }
        Ok(()) => panic!("an unsound chunk was read"),
    }
}

fn stone_at(x: usize, y: usize, z: usize) -> Vec<u8> {
    column(section(
        0,
        &["minecraft:air", "minecraft:stone"],
        &[(x, y, z, 1)],
    ))
}

fn region_of(chunks: &[(usize, usize, Vec<u8>)]) -> Vec<u8> {
    let mut region = fastanvil::Region::create(Cursor::new(Vec::new())).unwrap();
    for (x, z, data) in chunks {
        region.write_chunk(*x, *z, data).unwrap();
    }
    region.into_inner().unwrap().into_inner()
}

fn rule(pattern: &str, target: u16) -> Rule {
    Rule::new(pattern.to_string(), target)
}

fn names(world: &McWorld) -> Vec<String> {
    let palette = world.palette();
    (0..palette.len())
        .map(|id| palette.name(id).unwrap().clone())
        .collect()
}

#[test]
fn single_stone_converts_to_one_entry() {
    let bytes = region_of(&[(0, 0, stone_at(0, 0, 0))]);
    let mut world = McWorld::new();
    world
        .read_region(Vec2::new(0, 0), None, None, &bytes)
        .unwrap();
    assert!(world.has_chunk(Vec2::new(0, 0)));
    let mut found = names(&world);
    found.sort();
    assert_eq!(found, vec!["minecraft:air", "minecraft:stone"]);
    let out = world.convert(None, None, &vec![rule("minecraft:stone", 5)]);
    assert_eq!(
        out,
        vec![Placement {
            dx: 0,
            dy: 0,
            dz: 0,
            target: 5
        }]
    );
    assert_eq!(out[0].key(), "0,0,0");
}

#[test]
fn palette_is_in_order_of_discovery() {
    let bytes = region_of(&[(0, 0, stone_at(0, 0, 0))]);
    let mut world = McWorld::new();
    world
        .read_region(Vec2::new(0, 0), None, None, &bytes)
        .unwrap();
    assert_eq!(names(&world), vec!["minecraft:stone", "minecraft:air"]);

    let bytes = region_of(&[(0, 0, stone_at(1, 0, 0))]);
    let mut world = McWorld::new();
    world
        .read_region(Vec2::new(0, 0), None, None, &bytes)
        .unwrap();
    assert_eq!(names(&world), vec!["minecraft:air", "minecraft:stone"]);
    let out = world.convert(None, None, &vec![rule("minecraft:stone", 5)]);
    assert_eq!(out.len(), 1);
    assert_eq!(out[0].key(), "1,0,0");
    assert_eq!(out[0].target, 5);
}

#[test]
fn cells_index_by_z_then_y_then_x() {
    let bytes = region_of(&[(0, 0, stone_at(3, 7, 11))]);
    let mut world = McWorld::new();
    world
        .read_region(Vec2::new(0, 0), None, None, &bytes)
        .unwrap();
    let cells = world.chunk(0, 0).unwrap();
    assert_eq!(cells.len(), 16 * 384 * 16);
    let stone = world.palette().lookup("minecraft:stone").unwrap();
    let air = world.palette().lookup("minecraft:air").unwrap();
    assert_eq!((air, stone), (0, 1));
    for (i, id) in cells.iter().enumerate() {
        let expected = if i == 11 * 16 * 384 + 7 * 16 + 3 {
            stone
        } else {
            air
        };
        assert_eq!(*id, expected);
    }
    assert_eq!(
        world.name_at(Vec3::new(3, 7, 11)).unwrap(),
        "minecraft:stone"
    );
    assert_eq!(world.name_at(Vec3::new(3, 8, 11)).unwrap(), "minecraft:air");
    assert!(world.name_at(Vec3::new(3, 384, 11)).is_none());
    assert!(world.name_at(Vec3::new(16, 7, 11)).is_none());
}

#[test]
fn cells_without_a_block_stay_zero() {
    // Only the lowest section is there: cells from height 16 up have no block.
    let bytes = region_of(&[(
        2,
        3,
        payload(vec![section(
            0,
            &["minecraft:dirt", "minecraft:stone"],
            &[(0, 15, 0, 1)],
        )]),
    )]);
    let mut world = McWorld::new();
    world
        .read_region(Vec2::new(-1, 1), None, None, &bytes)
        .unwrap();
    assert!(world.has_chunk(Vec2::new(-30, 35)));
    assert_eq!(names(&world), vec!["minecraft:dirt", "minecraft:stone"]);
    let cells = world.chunk(-30, 35).unwrap();
    assert_eq!(cells[15 * 16], 1);
    assert_eq!(cells[16 * 16], 0);
    assert_eq!(cells[383 * 16 + 15], 0);
}

#[test]
fn region_without_chunks_changes_nothing() {
    let bytes = region_of(&[]);
    let mut world = McWorld::new();
    world
        .read_region(Vec2::new(0, 0), None, None, &bytes)
        .unwrap();
    assert!(world.is_empty());
    assert_eq!(world.palette().len(), 0);
    assert!(world.extent().is_none());
}

#[test]
fn min_bound_leaves_lower_chunks_absent() {
    let mut chunks = Vec::new();
    for x in 0..8 {
        chunks.push((x, 0, stone_at(0, 0, 0)));
    }
    let bytes = region_of(&chunks);
    let mut world = McWorld::new();
    world
        .read_region(Vec2::new(0, 0), Some(Vec2::new(5, 0)), None, &bytes)
        .unwrap();
    for x in 0..5 {
        assert!(!world.has_chunk(Vec2::new(x, 0)));
    }
    for x in 5..8 {
        assert!(world.has_chunk(Vec2::new(x, 0)));
    }
    let extent = world.extent().unwrap();
    assert_eq!((extent.min_x, extent.max_x), (5, 7));
    assert_eq!((extent.min_z, extent.max_z), (0, 0));
}

#[test]
fn bounds_are_inclusive_and_per_axis() {
    let bytes = region_of(&[
        (1, 1, stone_at(0, 0, 0)),
        (1, 2, stone_at(0, 0, 0)),
        (2, 1, stone_at(0, 0, 0)),
        (2, 2, stone_at(0, 0, 0)),
        (3, 2, stone_at(0, 0, 0)),
        (2, 3, stone_at(0, 0, 0)),
    ]);
    let mut world = McWorld::new();
    world
        .read_region(
            Vec2::new(1, -1),
            Some(Vec2::new(34, -30)),
            Some(Vec2::new(34, -30)),
            &bytes,
        )
        .unwrap();
    assert!(world.has_chunk(Vec2::new(34, -30)));
    assert!(!world.has_chunk(Vec2::new(33, -31)));
    assert!(!world.has_chunk(Vec2::new(33, -30)));
    assert!(!world.has_chunk(Vec2::new(34, -31)));
    assert!(!world.has_chunk(Vec2::new(35, -30)));
    assert!(!world.has_chunk(Vec2::new(34, -29)));
}

#[test]
fn bounds_leave_stored_chunks_alone() {
    let first = region_of(&[(0, 0, stone_at(1, 0, 0)), (9, 9, stone_at(2, 0, 0))]);
    let second = region_of(&[(0, 0, stone_at(5, 5, 5)), (9, 9, stone_at(6, 6, 6))]);
    let mut world = McWorld::new();
    world
        .read_region(Vec2::new(0, 0), None, None, &first)
        .unwrap();
    let kept = world.chunk(0, 0).unwrap().clone();
    world
        .read_region(Vec2::new(0, 0), Some(Vec2::new(1, 1)), None, &second)
        .unwrap();
    assert_eq!(world.chunk(0, 0).unwrap(), &kept);
    assert_eq!(world.chunk(9, 9).unwrap()[6 * 6144 + 6 * 16 + 6], 1);
    assert_eq!(world.chunk(9, 9).unwrap()[2], 0);
}

#[test]
fn reading_a_chunk_again_replaces_it() {
    let first = region_of(&[(4, 4, stone_at(1, 2, 3))]);
    let second = region_of(&[(
        4,
        4,
        column(section(
            0,
            &["minecraft:air", "minecraft:dirt"],
            &[(9, 9, 9, 1)],
        )),
    )]);
    let mut world = McWorld::new();
    world
        .read_region(Vec2::new(0, 0), None, None, &first)
        .unwrap();
    world
        .read_region(Vec2::new(0, 0), None, None, &second)
        .unwrap();
    assert_eq!(
        names(&world),
        vec!["minecraft:air", "minecraft:stone", "minecraft:dirt"]
    );
    let cells = world.chunk(4, 4).unwrap();
    assert_eq!(cells[3 * 6144 + 2 * 16 + 1], 0);
    assert_eq!(cells[9 * 6144 + 9 * 16 + 9], 2);
    assert_eq!(cells.iter().filter(|id| **id != 0).count(), 1);
}

#[test]
fn region_position_places_chunks() {
    let bytes = region_of(&[(31, 0, stone_at(0, 0, 0))]);
    let mut world = McWorld::new();
    world
        .read_region(Vec2::new(-2, 3), None, None, &bytes)
        .unwrap();
    assert!(world.has_chunk(Vec2::new(-33, 96)));
    let largest = region_of(&[(31, 31, stone_at(0, 0, 0))]);
    world
        .read_region(Vec2::new(i32::MAX, i32::MIN), None, None, &largest)
        .unwrap();
    assert!(world
        .chunk(i32::MAX as i64 * 32 + 31, i32::MIN as i64 * 32 + 31)
        .is_some());
    let extent = world.extent().unwrap();
    assert_eq!(extent.min_x, -33);
    assert_eq!(extent.max_x, 68719476735);
    assert_eq!(extent.min_z, -68719476736 + 31);
    assert_eq!(extent.max_z, 96);
}

#[test]
fn short_container_is_an_error() {
    let mut world = McWorld::new();
    let result = world.read_region(Vec2::new(0, 0), None, None, &[0u8; 4095]);
    match result {
        Err(e) => {
            assert!(matches!(e, IngestError::Region(_)));
            assert_eq!(e.kind(), Failure::Container);
        }
        Ok(()) => panic!("a region cut short was read"),
    }
    assert!(world.is_empty());
    assert!(world
        .read_region(Vec2::new(0, 0), None, None, &[0u8; 4096])
        .is_ok());
    assert!(world.read_region(Vec2::new(0, 0), None, None, &[]).is_err());
}

#[test]
fn slot_of_length_zero_is_an_error() {
    let mut bytes = vec![0u8; 3 * 4096];
    // Slot (1, 0): data at sector 2, one sector long.
    bytes[4..8].copy_from_slice(&[0, 0, 2, 1]);
    // Length 0, compression 2.
    bytes[8192..8197].copy_from_slice(&[0, 0, 0, 0, 2]);
    let mut world = McWorld::new();
    let result = world.read_region(Vec2::new(0, 0), None, None, &bytes);
    match result {
        Err(e) => {
            assert_eq!(e.kind(), Failure::Container);
            assert!(matches!(e, IngestError::HollowSlot { x: 1, z: 0 }));
        }
        Ok(()) => panic!("a slot without data was read"),
    }
    // The bounds can shut the slot out.
    assert!(world
        .read_region(Vec2::new(0, 0), None, Some(Vec2::new(0, 31)), &bytes)
        .is_ok());
}

#[test]
fn unreadable_slot_is_an_error() {
    let mut bytes = vec![0u8; 3 * 4096];
    bytes[0..4].copy_from_slice(&[0, 0, 2, 1]);
    // Length 4, compression 9, which does not exist.
    bytes[8192..8197].copy_from_slice(&[0, 0, 0, 4, 9]);
    let mut world = McWorld::new();
    let result = world.read_region(Vec2::new(0, 0), None, None, &bytes);
    match result {
        Err(e) => {
            assert_eq!(e.kind(), Failure::Container);
            assert!(matches!(e, IngestError::Slot { x: 0, z: 0, .. }));
        }
        Ok(()) => panic!("a slot with unknown compression was read"),
    }
    // A slot that points past the end of the file cannot be read either.
    let mut bytes = vec![0u8; 2 * 4096];
    bytes[4 * (3 + 32 * 2)..4 * (3 + 32 * 2) + 4].copy_from_slice(&[0, 0, 9, 1]);
    assert!(matches!(
        world.read_region(Vec2::new(0, 0), None, None, &bytes),
        Err(IngestError::Slot { x: 3, z: 2, .. })
    ));
}

#[test]
fn malformed_chunk_is_an_error() {
    let bytes = region_of(&[(0, 0, vec![1, 2, 3, 4])]);
    let mut world = McWorld::new();
    let result = world.read_region(Vec2::new(0, 0), None, None, &bytes);
    match result {
        Err(e) => {
            assert_eq!(e.kind(), Failure::Chunk);
            assert!(matches!(e, IngestError::Chunk { x: 0, z: 0, .. }));
        }
        Ok(()) => panic!("a payload that is no chunk was read"),
    }
    assert!(world.is_empty());
}

#[test]
fn chunks_before_a_failure_stay() {
    // Slots are taken with x as the outer index: (0, 5) comes before (1, 0).
    let bytes = region_of(&[
        (0, 5, stone_at(0, 0, 0)),
        (1, 0, vec![1, 2, 3, 4]),
        (1, 1, stone_at(0, 0, 0)),
    ]);
    let mut world = McWorld::new();
    assert!(world
        .read_region(Vec2::new(0, 0), None, None, &bytes)
        .is_err());
    assert!(world.has_chunk(Vec2::new(0, 5)));
    assert!(!world.has_chunk(Vec2::new(1, 1)));
    assert_eq!(world.palette().len(), 2);
}

#[test]
fn convert_two_regions_measures_from_extent_centre() {
    let west = region_of(&[(31, 0, stone_at(15, 10, 0))]);
    let east = region_of(&[(2, 4, stone_at(0, 12, 1))]);
    let mut world = McWorld::new();
    world
        .read_region(Vec2::new(-1, 0), None, None, &west)
        .unwrap();
    world
        .read_region(Vec2::new(0, 0), None, None, &east)
        .unwrap();
    // Chunks at (-1, 0) and (2, 4): the origin is (-1 + 3 / 2, 0 + 4 / 2) in
    // chunks, and the height is kept.
    let out = world.convert(None, None, &vec![rule("minecraft:st*", 9)]);
    assert_eq!(
        out,
        vec![
            Placement {
                dx: -1,
                dy: 10,
                dz: -2,
                target: 9
            },
            Placement {
                dx: 32,
                dy: 12,
                dz: 63,
                target: 9
            },
        ]
    );
    assert_eq!(out[0].key(), "-1,10,-2");
    assert_eq!(out[1].key(), "32,12,63");
}

#[test]
fn chunk_with_height_map_is_read() {
    let sections = tower(section(
        0,
        &["minecraft:air", "minecraft:stone"],
        &[(2, 3, 4, 1)],
    ));
    let bytes = region_of(&[(0, 0, bytes_of(with_heightmap(root(Some(sections)), 37)))]);
    let mut world = McWorld::new();
    world
        .read_region(Vec2::new(0, 0), None, None, &bytes)
        .unwrap();
    assert_eq!(
        world.name_at(Vec3::new(2, 3, 4)).unwrap(),
        "minecraft:stone"
    );
}

#[test]
fn chunk_below_zero_is_read_from_height_zero_up() {
    // Sections from height -4 to 19, as the game saves them: cells are asked
    // for heights 0 to 383, and those from 320 up have no block.
    let mut sections = Vec::new();
    for y in -4..20 {
        if y == 0 {
            sections.push(section(
                0,
                &["minecraft:air", "minecraft:stone"],
                &[(1, 1, 1, 1)],
            ));
        } else {
            sections.push(section(y, &["minecraft:air"], &[]));
        }
    }
    let bytes = region_of(&[(0, 0, payload(sections))]);
    let mut world = McWorld::new();
    world
        .read_region(Vec2::new(0, 0), None, None, &bytes)
        .unwrap();
    let cells = world.chunk(0, 0).unwrap();
    assert_eq!(names(&world), vec!["minecraft:air", "minecraft:stone"]);
    assert_eq!(cells[6144 + 16 + 1], 1);
    assert_eq!(cells[319 * 16], 0);
    assert_eq!(cells[320 * 16], 0);
}

#[test]
fn chunk_without_sections_is_refused() {
    let bytes = region_of(&[(4, 9, bytes_of(root(None)))]);
    let mut world = McWorld::new();
    unsound_at(world.read_region(Vec2::new(0, 0), None, None, &bytes), 4, 9);
    assert!(world.is_empty());
    let bytes = region_of(&[(4, 9, bytes_of(with_heightmap(root(None), 37)))]);
    unsound_at(world.read_region(Vec2::new(0, 0), None, None, &bytes), 4, 9);
}

#[test]
fn chunk_with_odd_height_map_is_refused() {
    let sections = tower(section(0, &["minecraft:air"], &[]));
    let bytes = region_of(&[(0, 0, bytes_of(with_heightmap(root(Some(sections)), 36)))]);
    let mut world = McWorld::new();
    unsound_at(world.read_region(Vec2::new(0, 0), None, None, &bytes), 0, 0);
    assert!(world.is_empty());
}

#[test]
fn chunk_with_a_gap_between_sections_is_refused() {
    let sections = vec![
        section(0, &["minecraft:air"], &[]),
        section(5, &["minecraft:air"], &[]),
    ];
    let bytes = region_of(&[(1, 2, payload(sections))]);
    let mut world = McWorld::new();
    unsound_at(world.read_region(Vec2::new(0, 0), None, None, &bytes), 1, 2);
    assert!(world.is_empty());
}

#[test]
fn chunk_with_a_section_above_the_top_is_read() {
    let mut sections = tower(section(
        0,
        &["minecraft:air", "minecraft:stone"],
        &[(5, 6, 7, 1)],
    ));
    sections.push(section(30, &["minecraft:stone"], &[]));
    let bytes = region_of(&[(0, 0, payload(sections))]);
    let mut world = McWorld::new();
    world
        .read_region(Vec2::new(0, 0), None, None, &bytes)
        .unwrap();
    assert_eq!(
        world.name_at(Vec3::new(5, 6, 7)).unwrap(),
        "minecraft:stone"
    );
    assert_eq!(world.name_at(Vec3::new(5, 383, 7)).unwrap(), "minecraft:air");
}

#[test]
fn chunk_with_short_block_data_is_refused() {
    let mut states = HashMap::new();
    states.insert(
        "palette".to_string(),
        Value::List(vec![block("minecraft:air"), block("minecraft:stone")]),
    );
    states.insert(
        "data".to_string(),
        Value::LongArray(LongArray::new(vec![0i64; 10])),
    );
    let bytes = region_of(&[(0, 0, payload(vec![section_of(0, states)]))]);
    let mut world = McWorld::new();
    unsound_at(world.read_region(Vec2::new(0, 0), None, None, &bytes), 0, 0);
}

fn bare_section(y: i8) -> Value {
    let mut fields = HashMap::new();
    fields.insert("Y".to_string(), Value::Byte(y));
    Value::Compound(fields)
}

fn empty_palette(data: Option<usize>) -> HashMap<String, Value> {
    let mut states = HashMap::new();
    states.insert("palette".to_string(), Value::List(Vec::new()));
    if let Some(longs) = data {
        states.insert(
            "data".to_string(),
            Value::LongArray(LongArray::new(vec![0i64; longs])),
        );
    }
    states
}

#[test]
fn section_with_an_empty_palette_is_air_under_a_height_map() {
    let sections = vec![
        section(0, &["minecraft:air", "minecraft:stone"], &[(1, 2, 3, 1)]),
        section_of(1, empty_palette(None)),
    ];
    let bytes = region_of(&[(0, 0, bytes_of(with_heightmap(root(Some(sections)), 37)))]);
    let mut world = McWorld::new();
    world
        .read_region(Vec2::new(0, 0), None, None, &bytes)
        .unwrap();
    assert_eq!(
        world.name_at(Vec3::new(1, 2, 3)).unwrap(),
        "minecraft:stone"
    );
    assert_eq!(world.name_at(Vec3::new(1, 18, 3)).unwrap(), "minecraft:air");
    assert_eq!(world.chunk(0, 0).unwrap()[3 * 16 * 384 + 32 * 16 + 1], 0);
}

#[test]
fn section_without_block_states_is_air_under_a_height_map() {
    let sections = vec![
        bare_section(0),
        section(1, &["minecraft:air", "minecraft:stone"], &[(4, 5, 6, 1)]),
    ];
    let bytes = region_of(&[(0, 0, bytes_of(with_heightmap(root(Some(sections)), 37)))]);
    let mut world = McWorld::new();
    world
        .read_region(Vec2::new(0, 0), None, None, &bytes)
        .unwrap();
    assert_eq!(world.name_at(Vec3::new(4, 5, 6)).unwrap(), "minecraft:air");
    assert_eq!(
        world.name_at(Vec3::new(4, 21, 6)).unwrap(),
        "minecraft:stone"
    );
}

#[test]
fn section_with_an_empty_palette_is_refused_without_a_height_map() {
    let bytes = region_of(&[(0, 0, payload(vec![section_of(0, empty_palette(None))]))]);
    let mut world = McWorld::new();
    unsound_at(world.read_region(Vec2::new(0, 0), None, None, &bytes), 0, 0);
    let bytes = region_of(&[(0, 0, payload(vec![bare_section(0)]))]);
    unsound_at(world.read_region(Vec2::new(0, 0), None, None, &bytes), 0, 0);
    assert!(world.is_empty());
}

#[test]
fn section_with_block_data_but_no_palette_is_refused() {
    let sections = vec![section_of(0, empty_palette(Some(256)))];
    let bytes = region_of(&[(0, 0, bytes_of(with_heightmap(root(Some(sections)), 37)))]);
    let mut world = McWorld::new();
    unsound_at(world.read_region(Vec2::new(0, 0), None, None, &bytes), 0, 0);
}

#[test]
fn section_with_biome_data_but_no_palette_is_refused() {
    let mut biomes = HashMap::new();
    biomes.insert("palette".to_string(), Value::List(Vec::new()));
    biomes.insert(
        "data".to_string(),
        Value::LongArray(LongArray::new(vec![0i64; 1])),
    );
    let mut fields = HashMap::new();
    fields.insert("Y".to_string(), Value::Byte(0));
    fields.insert("biomes".to_string(), Value::Compound(biomes));
    let sections = vec![Value::Compound(fields)];
    let bytes = region_of(&[(0, 0, bytes_of(with_heightmap(root(Some(sections)), 37)))]);
    let mut world = McWorld::new();
    unsound_at(world.read_region(Vec2::new(0, 0), None, None, &bytes), 0, 0);
}

/// A section of a chunk in the paletted format, with air everywhere but for
/// stone at the cells listed, packed into `longs` numbers of 16 cells each.
fn paletted_section(y: i8, longs: usize, stone: &[(usize, usize, usize)]) -> Value {
    let mut data = vec![0i64; longs];
    for &(x, sy, z) in stone {
        let i = sy * 256 + z * 16 + x;
        data[i / 16] |= 1i64 << (4 * (i % 16));
    }
    let mut fields = HashMap::new();
    fields.insert("Y".to_string(), Value::Byte(y));
    fields.insert(
        "Palette".to_string(),
        Value::List(vec![block("minecraft:air"), block("minecraft:stone")]),
    );
    fields.insert(
        "BlockStates".to_string(),
        Value::LongArray(LongArray::new(data)),
    );
    Value::Compound(fields)
}

/// A chunk in the paletted format, with one biome number for each 4 x 4 x 4
/// cells of `heights` sections.
fn paletted(sections: Option<Vec<Value>>, biomes: Option<Vec<i32>>) -> Vec<u8> {
    let mut level = HashMap::new();
    level.insert("xPos".to_string(), Value::Int(0));
    level.insert("zPos".to_string(), Value::Int(0));
    level.insert("Status".to_string(), Value::String("full".to_string()));
    if let Some(sections) = sections {
        level.insert("Sections".to_string(), Value::List(sections));
    }
    if let Some(biomes) = biomes {
        level.insert(
            "Biomes".to_string(),
            Value::IntArray(fastnbt::IntArray::new(biomes)),
        );
    }
    let mut root = HashMap::new();
    root.insert("DataVersion".to_string(), Value::Int(2586));
    root.insert("Level".to_string(), Value::Compound(level));
    bytes_of(root)
}

#[test]
fn chunk_in_the_paletted_format_is_read() {
    let sections = vec![
        bare_section(-1),
        paletted_section(0, 256, &[(1, 2, 3)]),
        paletted_section(1, 256, &[(0, 0, 0)]),
    ];
    let bytes = region_of(&[(4, 5, paletted(Some(sections), Some(vec![1; 128])))]);
    let mut world = McWorld::new();
    world
        .read_region(Vec2::new(0, 0), None, None, &bytes)
        .unwrap();
    assert!(world.has_chunk(Vec2::new(4, 5)));
    assert_eq!(
        world.name_at(Vec3::new(65, 2, 83)).unwrap(),
        "minecraft:stone"
    );
    assert_eq!(
        world.name_at(Vec3::new(64, 16, 80)).unwrap(),
        "minecraft:stone"
    );
    assert_eq!(world.name_at(Vec3::new(64, 0, 80)).unwrap(), "minecraft:air");
    assert_eq!(world.chunk(4, 5).unwrap()[32 * 16], 0);
    let out = world.convert(None, None, &vec![rule("minecraft:stone", 9)]);
    assert_eq!(out.len(), 2);
}

#[test]
fn paletted_chunk_without_sections_is_refused() {
    let bytes = region_of(&[(0, 0, paletted(None, None))]);
    let mut world = McWorld::new();
    unsound_at(world.read_region(Vec2::new(0, 0), None, None, &bytes), 0, 0);
}

#[test]
fn paletted_chunk_without_biomes_is_refused() {
    let sections = vec![bare_section(-1), paletted_section(0, 256, &[])];
    let bytes = region_of(&[(0, 0, paletted(Some(sections.clone()), None))]);
    let mut world = McWorld::new();
    unsound_at(world.read_region(Vec2::new(0, 0), None, None, &bytes), 0, 0);
    let bytes = region_of(&[(0, 0, paletted(Some(sections), Some(vec![-7; 64])))]);
    unsound_at(world.read_region(Vec2::new(0, 0), None, None, &bytes), 0, 0);
}

#[test]
fn paletted_chunk_with_short_block_states_is_refused() {
    let sections = vec![bare_section(-1), paletted_section(0, 255, &[])];
    let bytes = region_of(&[(0, 0, paletted(Some(sections), Some(vec![1; 64])))]);
    let mut world = McWorld::new();
    unsound_at(world.read_region(Vec2::new(0, 0), None, None, &bytes), 0, 0);
}

#[test]
fn paletted_chunk_without_a_section_below_is_refused() {
    let sections = vec![paletted_section(0, 256, &[])];
    let bytes = region_of(&[(0, 0, paletted(Some(sections), Some(vec![1; 64])))]);
    let mut world = McWorld::new();
    unsound_at(world.read_region(Vec2::new(0, 0), None, None, &bytes), 0, 0);
}

/// A chunk in the numbered format, with a biome for each column where
/// `biomes` says so.
fn numbered_with(sections: Vec<Value>, biomes: bool) -> Vec<u8> {
    let mut level = HashMap::new();
    level.insert("xPos".to_string(), Value::Int(0));
    level.insert("zPos".to_string(), Value::Int(0));
    level.insert("Sections".to_string(), Value::List(sections));
    if biomes {
        level.insert(
            "Biomes".to_string(),
            Value::ByteArray(fastnbt::ByteArray::new(vec![1; 256])),
        );
    }
    let mut root = HashMap::new();
    root.insert("Level".to_string(), Value::Compound(level));
    bytes_of(root)
}

fn numbered(sections: Vec<Value>) -> Vec<u8> {
    numbered_with(sections, true)
}

/// A section of a chunk in the numbered format whose cell number `k` holds the
/// block number `cells[k].0` with the data value `cells[k].1`, and air behind
/// the last cell listed.
fn numbered_section(y: i8, cells: &[(u8, u8)], add: Option<Vec<i8>>) -> Value {
    let mut blocks = vec![0i8; 4096];
    let mut data = vec![0i8; 2048];
    for (k, &(id, value)) in cells.iter().enumerate() {
        blocks[k] = id as i8;
        let shifted = if k % 2 == 1 { value << 4 } else { value };
        data[k / 2] = (data[k / 2] as u8 | shifted) as i8;
    }
    let mut fields = HashMap::new();
    fields.insert("Y".to_string(), Value::Byte(y));
    fields.insert(
        "Blocks".to_string(),
        Value::ByteArray(fastnbt::ByteArray::new(blocks)),
    );
    fields.insert(
        "Data".to_string(),
        Value::ByteArray(fastnbt::ByteArray::new(data)),
    );
    if let Some(add) = add {
        fields.insert(
            "Add".to_string(),
            Value::ByteArray(fastnbt::ByteArray::new(add)),
        );
    }
    Value::Compound(fields)
}

/// Whether the decoder's table of block numbers covers the pair.
fn has_a_name(id: u8, data: u8) -> bool {
    match id {
        1 => data % 8 != 7,
        3 => data % 4 != 3,
        6 => data % 8 < 6,
        17 | 162 => data < 4,
        44 | 126 => data < 8,
        _ => true,
    }
}

#[test]
fn chunk_in_the_numbered_format_is_read() {
    let mut cells = vec![(0u8, 0u8); 2 * 256 + 3 * 16 + 2];
    cells[2 * 256 + 3 * 16 + 1] = (1, 0);
    cells.push((1, 1));
    let sections = vec![
        numbered_section(0, &cells, Some(vec![0; 2048])),
        numbered_section(1, &[(4, 0)], None),
    ];
    let bytes = region_of(&[(1, 0, numbered(sections))]);
    let mut world = McWorld::new();
    world
        .read_region(Vec2::new(0, 0), None, None, &bytes)
        .unwrap();
    assert!(world.has_chunk(Vec2::new(1, 0)));
    assert_eq!(
        world.name_at(Vec3::new(17, 2, 3)).unwrap(),
        "minecraft:stone"
    );
    assert_eq!(
        world.name_at(Vec3::new(18, 2, 3)).unwrap(),
        "minecraft:granite"
    );
    assert_eq!(
        world.name_at(Vec3::new(16, 16, 0)).unwrap(),
        "minecraft:cobblestone"
    );
    assert_eq!(world.name_at(Vec3::new(16, 0, 0)).unwrap(), "minecraft:air");
    assert_eq!(world.chunk(1, 0).unwrap()[32 * 16], 0);
}

#[test]
fn every_block_number_with_a_name_is_read() {
    let cells: Vec<(u8, u8)> = (0..4096usize)
        .map(|k| ((k >> 4) as u8, (k & 15) as u8))
        .map(|(id, data)| if has_a_name(id, data) { (id, data) } else { (0, 0) })
        .collect();
    let bytes = region_of(&[(0, 0, numbered(vec![numbered_section(0, &cells, None)]))]);
    let mut world = McWorld::new();
    world
        .read_region(Vec2::new(0, 0), None, None, &bytes)
        .unwrap();
    assert!(world.palette().len() > 256);
}

#[test]
fn block_number_without_a_name_is_refused() {
    let mut world = McWorld::new();
    let mut refused = 0;
    for id in [1u8, 3, 6, 17, 44, 126, 162] {
        for data in 0..16u8 {
            if has_a_name(id, data) {
                continue;
            }
            refused += 1;
            for cells in [vec![(id, data)], vec![(0, 0), (id, data)]] {
                let section = numbered_section(0, &cells, None);
                let bytes = region_of(&[(0, 0, numbered(vec![section]))]);
                unsound_at(world.read_region(Vec2::new(0, 0), None, None, &bytes), 0, 0);
            }
        }
    }
    assert_eq!(refused, 2 + 4 + 4 + 12 + 8 + 8 + 12);
    assert!(world.is_empty());
}

#[test]
fn numbered_chunk_with_a_high_block_number_is_refused() {
    let mut add = vec![0i8; 2048];
    add[2047] = 0x10;
    let section = numbered_section(0, &[(1, 0)], Some(add));
    let bytes = region_of(&[(0, 0, numbered(vec![section]))]);
    let mut world = McWorld::new();
    unsound_at(world.read_region(Vec2::new(0, 0), None, None, &bytes), 0, 0);
    let section = numbered_section(0, &[(1, 0)], Some(vec![0; 2047]));
    let bytes = region_of(&[(0, 0, numbered(vec![section]))]);
    unsound_at(world.read_region(Vec2::new(0, 0), None, None, &bytes), 0, 0);
}

#[test]
fn numbered_chunk_without_biomes_is_refused() {
    let section = numbered_section(0, &[(1, 0)], None);
    let bytes = region_of(&[(0, 0, numbered_with(vec![section], false))]);
    let mut world = McWorld::new();
    unsound_at(world.read_region(Vec2::new(0, 0), None, None, &bytes), 0, 0);
}

#[test]
fn numbered_chunk_with_two_sections_at_one_height_is_refused() {
    let sections = vec![
        numbered_section(0, &[(1, 0)], None),
        numbered_section(0, &[(1, 0)], None),
    ];
    let bytes = region_of(&[(0, 0, numbered(sections))]);
    let mut world = McWorld::new();
    unsound_at(world.read_region(Vec2::new(0, 0), None, None, &bytes), 0, 0);
    let sections = vec![
        numbered_section(0, &[(1, 0)], None),
        numbered_section(2, &[(1, 0)], None),
    ];
    let bytes = region_of(&[(0, 0, numbered(sections))]);
    unsound_at(world.read_region(Vec2::new(0, 0), None, None, &bytes), 0, 0);
}

#[test]
fn numbered_chunk_with_short_blocks_is_refused() {
    let mut fields = HashMap::new();
    fields.insert("Y".to_string(), Value::Byte(0));
    fields.insert(
        "Blocks".to_string(),
        Value::ByteArray(fastnbt::ByteArray::new(vec![1; 4095])),
    );
    fields.insert(
        "Data".to_string(),
        Value::ByteArray(fastnbt::ByteArray::new(vec![0; 2048])),
    );
    let bytes = region_of(&[(0, 0, numbered(vec![Value::Compound(fields)]))]);
    let mut world = McWorld::new();
    unsound_at(world.read_region(Vec2::new(0, 0), None, None, &bytes), 0, 0);
}

#[test]
fn numbered_chunk_without_a_section_is_blank() {
    let bytes = region_of(&[(0, 0, numbered(Vec::new()))]);
    let mut world = McWorld::new();
    world
        .read_region(Vec2::new(0, 0), None, None, &bytes)
        .unwrap();
    assert!(world.has_chunk(Vec2::new(0, 0)));
    assert!(world.chunk(0, 0).unwrap().iter().all(|id| *id == 0));
}

/// A payload whose only field holds `depth` lists, one inside the other.
fn nested(depth: usize) -> Vec<u8> {
    let mut bytes = vec![10, 0, 0, 9, 0, 1, b'a'];
    for _ in 1..depth {
        bytes.extend_from_slice(&[9, 0, 0, 0, 1]);
    }
    bytes.extend_from_slice(&[0, 0, 0, 0, 0]);
    bytes.push(0);
    bytes
}

fn not_tried_at(result: Result<(), IngestError>, x: usize, z: usize) {
    match result {
        Err(e) => {
            assert_eq!(e.kind(), Failure::Chunk);
            match e {
                IngestError::Chunk {
                    x: ex,
                    z: ez,
                    error: None,
                } => assert_eq!((ex, ez), (x, z)),
                other => panic!("put to the parser: {:?}", other),
            }
        }
        Ok(()) => panic!("a payload that is no chunk was read"),
    }
}

#[test]
fn chunk_with_a_list_of_end_tags_is_an_error() {
    let payload = vec![10, 0, 0, 9, 0, 1, b'a', 0, 0, 0, 0, 1, 0];
    let bytes = region_of(&[(6, 2, payload)]);
    let mut world = McWorld::new();
    not_tried_at(world.read_region(Vec2::new(0, 0), None, None, &bytes), 6, 2);
    assert!(world.is_empty());
}

#[test]
fn chunk_nested_too_deep_is_an_error() {
    let bytes = region_of(&[(0, 1, nested(513))]);
    let mut world = McWorld::new();
    not_tried_at(world.read_region(Vec2::new(0, 0), None, None, &bytes), 0, 1);
    let bytes = region_of(&[(0, 1, nested(512))]);
    let result = world.read_region(Vec2::new(0, 0), None, None, &bytes);
    assert!(matches!(
        result,
        Err(IngestError::Chunk {
            x: 0,
            z: 1,
            error: Some(_)
        })
    ));
}

#[test]
fn failure_names_the_first_slot_that_failed() {
    let bytes = region_of(&[
        (2, 0, stone_at(0, 0, 0)),
        (2, 7, bytes_of(root(None))),
        (3, 0, vec![1, 2, 3, 4]),
    ]);
    let mut world = McWorld::new();
    unsound_at(world.read_region(Vec2::new(0, 0), None, None, &bytes), 2, 7);
    assert!(world.has_chunk(Vec2::new(2, 0)));
    let mut world = McWorld::new();
    let result = world.read_region(Vec2::new(0, 0), Some(Vec2::new(3, 0)), None, &bytes);
    assert!(matches!(result, Err(IngestError::Chunk { x: 3, z: 0, .. })));
}
