use rio_tiles::world::{TileScene, TileShaderKind, TileWorldState};

fn tile(id: u64, persistent: bool, x: f32) -> TileScene {
    TileScene {
        id,
        shader: TileShaderKind::Plasma,
        x: x.to_bits(),
        y: 0.0f32.to_bits(),
        width: 256.0f32.to_bits(),
        height: 256.0f32.to_bits(),
        custom: [1.0f32.to_bits(); 4],
        persistent,
    }
}

fn ids(world: &TileWorldState) -> Vec<u64> {
    world.tiles.iter().map(|t| t.id).collect()
}

#[test]
fn new_world_is_empty() {
    assert!(TileWorldState::new().tiles.is_empty());
}

#[test]
fn insert_replaces_same_id() {
    let mut world = TileWorldState::new();
    world.insert_tile(tile(1, true, 1.0));
    world.insert_tile(tile(2, true, 2.0));
    world.insert_tile(tile(1, true, 3.0));
    assert_eq!(ids(&world), vec![2, 1]);
    assert_eq!(f32::from_bits(world.tiles[1].x), 3.0);
}

#[test]
fn id_zero_is_never_replaced() {
    let mut world = TileWorldState::new();
    world.insert_tile(tile(0, true, 1.0));
    world.insert_tile(tile(0, true, 2.0));
    assert_eq!(ids(&world), vec![0, 0]);
}

#[test]
fn remove_drops_every_tile_with_the_id() {
    let mut world = TileWorldState::new();
    world.insert_tile(tile(0, true, 1.0));
    world.insert_tile(tile(5, true, 1.0));
    world.insert_tile(tile(0, false, 1.0));
    world.insert_tile(tile(6, true, 1.0));
    world.remove_tile(0);
    assert_eq!(ids(&world), vec![5, 6]);
    world.remove_tile(42);
    assert_eq!(ids(&world), vec![5, 6]);
}

#[test]
fn remove_undoes_insert() {
    let mut a = TileWorldState::new();
    a.insert_tile(tile(1, true, 1.0));
    a.insert_tile(tile(2, false, 1.0));
    let mut b = TileWorldState::new();
    b.insert_tile(tile(1, true, 1.0));
    b.insert_tile(tile(2, false, 1.0));
    a.insert_tile(tile(2, true, 9.0));
    a.remove_tile(2);
    b.remove_tile(2);
    assert_eq!(ids(&a), ids(&b));
}

#[test]
fn begin_frame_drops_transient_tiles_in_order() {
    let mut world = TileWorldState::new();
    world.insert_tile(tile(1, true, 1.0));
    world.insert_tile(tile(2, false, 1.0));
    world.insert_tile(tile(3, true, 1.0));
    world.insert_tile(tile(4, false, 1.0));
    world.begin_frame();
    assert_eq!(ids(&world), vec![1, 3]);
    world.begin_frame();
    assert_eq!(ids(&world), vec![1, 3]);
}

#[test]
fn clear_empties_the_world() {
    let mut world = TileWorldState::new();
    world.insert_tile(tile(1, true, 1.0));
    world.insert_tile(tile(2, false, 1.0));
    world.clear();
    assert!(world.tiles.is_empty());
}

#[test]
fn nonzero_ids_stay_unique() {
    let mut world = TileWorldState::new();
    for (id, p) in [(3, true), (1, false), (3, false), (0, true), (1, true), (0, true)] {
        world.insert_tile(tile(id, p, 0.0));
    }
    let ids = ids(&world);
    for (i, a) in ids.iter().enumerate() {
        for b in ids.iter().skip(i + 1) {
            assert!(*a == 0 || a != b);
        }
    }
    assert_eq!(ids, vec![3, 0, 1, 0]);
}
