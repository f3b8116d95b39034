use station::map::{load_map_tmp, tmp_map_tiles, Layer, MapIterator, TileMap, WorldMap, TMP_MAP_TILES};

fn sample() -> WorldMap {
    let mut m = WorldMap::new();
    m.floor.insert((0, 0), 1);
    m.floor.insert((0, 1), 2);
    m.stationary_objects.insert((5, 5), 3);
    m.entities.push(4);
    m
}

#[test]
fn tile_map_insert_and_get() {
    let mut t = TileMap::new();
    assert_eq!(t.insert((1, 2), 7), None);
    assert_eq!(t.insert((3, 4), 8), None);
    assert_eq!(t.get((1, 2)), Some(7));
    assert_eq!(t.insert((1, 2), 9), Some(7));
    assert_eq!(t.get((1, 2)), Some(9));
    assert_eq!(t.get((0, 0)), None);
}

#[test]
fn walk_by_value_goes_layer_by_layer() {
    let mut it = sample().into_iter();
    let mut got = Vec::new();
    while let Some(e) = it.next() {
        got.push(e);
    }
    assert_eq!(got, vec![1, 2, 3, 4]);
    assert_eq!(it.current_layer(), Layer::Entity);
    assert_eq!(it.next(), None);
}

#[test]
fn walk_by_reference() {
    let m = sample();
    let mut it = m.iter();
    let mut got = Vec::new();
    while let Some(e) = it.next() {
        got.push(*e);
    }
    assert_eq!(got, vec![1, 2, 3, 4]);
}

#[test]
fn layer_labels_lag_when_a_layer_is_skipped() {
    let m = sample();
    let mut it = m.iter_with_layer();
    let mut got = Vec::new();
    while let Some((l, e)) = it.next() {
        got.push((l, *e));
    }
    // the first entity of a later layer is labelled with the layer the walk stood on
    assert_eq!(got, vec![(Layer::Floor, 1), (Layer::Floor, 2), (Layer::Floor, 3), (Layer::Stationary, 4)]);

    let mut by_value = MapIterator::new(sample()).with_layer();
    assert_eq!(by_value.next(), Some((Layer::Floor, 1)));
}

#[test]
fn empty_map_walk() {
    let m = WorldMap::default();
    let mut it = m.iter();
    assert_eq!(it.next(), None);
    assert_eq!(it.current_layer(), Layer::Entity);
}

#[test]
fn temporary_map_layout() {
    let tiles = tmp_map_tiles();
    assert_eq!(tiles.len(), TMP_MAP_TILES);
    assert_eq!(tiles[0].coords, (0, 0));
    assert_eq!(tiles[7].coords, (64, 128));
    let walls = tiles.iter().filter(|t| t.layer == Layer::Wall).count();
    assert_eq!(walls, 9);
    assert_eq!(tiles[6].layer, Layer::Floor);
    assert_eq!(tiles[5].layer, Layer::Wall);

    let mut map = WorldMap::new();
    let spawned: Vec<u64> = (100..125).collect();
    load_map_tmp(&mut map, &spawned);
    assert_eq!(map.wall.get((0, 0)), Some(100));
    assert_eq!(map.wall.get((64, 0)), Some(105));
    assert_eq!(map.floor.get((64, 64)), Some(106));
    assert_eq!(map.floor.get((256, 256)), Some(124));
    assert_eq!(map.floor.get((0, 64)), None);
    let mut all = Vec::new();
    let mut it = map.iter();
    while let Some(e) = it.next() {
        all.push(*e);
    }
    assert_eq!(all.len(), 25);
}

#[test]
fn empty_layer_is_skipped_not_the_end() {
    let mut m = WorldMap::new();
    m.floor.insert((0, 0), 1);
    m.stationary_objects.insert((1, 1), 3);
    m.entities.push(4);
    m.entities.push(5);
    let mut it = m.clone().into_iter();
    assert_eq!(it.next(), Some(1));
    assert_eq!(it.current_layer(), Layer::Floor);
    assert_eq!(it.next(), Some(3));
    assert_eq!(it.current_layer(), Layer::Stationary);
    assert_eq!(it.next(), Some(4));
    assert_eq!(it.current_layer(), Layer::Entity);
    assert_eq!(it.next(), Some(5));
    assert_eq!(it.next(), None);
    assert_eq!(it.next(), None);
    assert_eq!(it.current_layer(), Layer::Entity);

    let mut by_ref = m.iter();
    let mut got = Vec::new();
    while let Some(e) = by_ref.next() {
        got.push(*e);
    }
    assert_eq!(got, vec![1, 3, 4, 5]);
}

#[test]
fn replaced_tile_keeps_its_place_in_the_walk() {
    let mut m = WorldMap::new();
    m.floor.insert((0, 0), 1);
    m.floor.insert((0, 1), 2);
    assert_eq!(m.floor.insert((0, 0), 9), Some(1));
    let mut it = m.into_iter();
    assert_eq!(it.next(), Some(9));
    assert_eq!(it.next(), Some(2));
    assert_eq!(it.next(), None);
}

#[test]
fn temporary_map_walk_order() {
    let mut map = WorldMap::new();
    let spawned: Vec<u64> = (100..125).collect();
    load_map_tmp(&mut map, &spawned);
    let mut it = map.into_iter();
    let mut got = Vec::new();
    while let Some(e) = it.next() {
        got.push(e);
    }
    // floor tiles in placing order, then wall tiles in placing order
    let floor: Vec<u64> = (0..25u64).filter(|k| k / 5 != 0 && k % 5 != 0).map(|k| 100 + k).collect();
    let wall: Vec<u64> = (0..25u64).filter(|k| k / 5 == 0 || k % 5 == 0).map(|k| 100 + k).collect();
    let expected: Vec<u64> = floor.into_iter().chain(wall).collect();
    assert_eq!(got, expected);
}
