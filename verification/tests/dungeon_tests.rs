use rozdungenlib::corridor::Corridor;
use rozdungenlib::door::Door;
use rozdungenlib::dungeon::{Dungeon, DungeonType, GenerationError};
use rozdungenlib::item::ItemType;
use rozdungenlib::rng::DungeonRng;

#[test]
fn create_dungeon_test() {
    const MAX_ROOMS: u16 = 10;
    const MAX_DUNGEON_WIDTH: u16 = 100;
    const MAX_DUNGEON_HEIGHT: u16 = 100;
    const MAX_ROOM_WIDTH: u16 = 10;
    const MAX_ROOM_HEIGHT: u16 = 10;

    let mut rng = DungeonRng::new(42);
    let mut d = Dungeon::new();
    d.generate(
        MAX_ROOMS,
        DungeonType::Basement,
        MAX_DUNGEON_WIDTH,
        MAX_DUNGEON_HEIGHT,
        MAX_ROOM_WIDTH,
        MAX_ROOM_HEIGHT,
        &mut rng,
    )
    .unwrap();

    let count = d.get_rooms_number();
    assert!(count > 0);

    let room = &d.rooms[2];
    let corrs = d.get_room_corridors(room);
    assert!(corrs.len() != 0);

    d.add_doors(&mut rng).unwrap();
}

#[test]
fn create_dungeon_fail_test() {
    let mut rng = DungeonRng::new(42);
    let mut dungeon = Dungeon::new();
    let res = dungeon.generate(10, DungeonType::Basement, 100, 10, 10, 10, &mut rng);
    match res {
        Ok(_) => {
            panic!("Bad test!")
        }
        Err(_) => {}
    };
}

#[test]
fn basement_scenario_succeeds_and_connects_every_room() {
    let mut rng = DungeonRng::new(7);
    let mut d = Dungeon::new();
    d.generate(10, DungeonType::Basement, 100, 100, 10, 10, &mut rng)
        .unwrap();
    assert!(d.get_rooms_number() > 0);
    for i in 0..d.get_rooms_number() {
        let room = d.get_room(i).unwrap().clone();
        let corrs = d.get_room_corridors(&room);
        assert!(!corrs.is_empty());
    }
}

#[test]
fn too_large_room_scenario_fails() {
    let mut rng = DungeonRng::new(7);
    let mut d = Dungeon::new();
    let res = d.generate(10, DungeonType::Basement, 100, 10, 10, 10, &mut rng);
    assert_eq!(res, Err(GenerationError::RoomTooLargeForDungeon));
}

#[test]
fn single_room_layout_refuses_doors() {
    let mut rng = DungeonRng::new(3);
    let mut d = Dungeon::new();
    d.generate(1, DungeonType::Basement, 100, 100, 10, 10, &mut rng)
        .unwrap();
    assert_eq!(d.get_rooms_number(), 1);
    assert_eq!(d.add_doors(&mut rng), Err(GenerationError::SingleRoomLayout));
}

#[test]
fn zero_rooms_is_invalid() {
    let mut rng = DungeonRng::new(1);
    let mut d = Dungeon::new();
    let res = d.generate(0, DungeonType::Basement, 100, 100, 10, 10, &mut rng);
    assert_eq!(res, Err(GenerationError::InvalidRoomCount));
}

#[test]
fn tiny_room_bound_is_invalid() {
    let mut rng = DungeonRng::new(1);
    let mut d = Dungeon::new();
    let res = d.generate(5, DungeonType::Basement, 100, 100, 2, 10, &mut rng);
    assert_eq!(res, Err(GenerationError::RoomTooSmall));
    let res = d.generate(5, DungeonType::Basement, 100, 100, 10, 2, &mut rng);
    assert_eq!(res, Err(GenerationError::RoomTooSmall));
}

#[test]
fn doors_and_items_tolerate_an_empty_layout() {
    let mut rng = DungeonRng::new(2);
    let mut d = Dungeon {
        rooms: vec![],
        corridors: vec![],
    };
    // Only a layout of exactly one room refuses doors.
    assert_eq!(d.add_doors(&mut rng), Ok(()));
    d.add_items(true, &mut rng);
    assert_eq!(d.get_rooms_number(), 0);
    assert_eq!(d.get_doors_number(), 0);
}

#[test]
fn error_messages_match_their_variants() {
    assert_eq!(
        GenerationError::InvalidRoomCount.message(),
        "Rooms number must not be a zero!"
    );
    assert_eq!(
        GenerationError::RoomTooLargeForDungeon.message(),
        "Room size mismatch dungeon size!"
    );
    assert_eq!(
        GenerationError::RoomTooSmall.message(),
        "Room size too small (less than three)!"
    );
    assert_eq!(
        GenerationError::SingleRoomLayout.message(),
        "There's only one room in the dungeon. No door is needed."
    );
}

fn boxes_overlap_inclusive(
    (x1, y1, w1, h1): (u16, u16, u16, u16),
    (x2, y2, w2, h2): (u16, u16, u16, u16),
) -> bool {
    x1 <= x2 + w2 && x1 + w1 >= x2 && y1 <= y2 + h2 && y1 + h1 >= y2
}

#[test]
fn generated_rooms_never_overlap_and_stay_in_bounds() {
    for (seed, mode) in [
        (11u64, DungeonType::Basement),
        (12, DungeonType::SeparateRooms),
        (13, DungeonType::Grid),
    ] {
        let mut rng = DungeonRng::new(seed);
        let mut d = Dungeon::new();
        d.generate(12, mode, 90, 80, 8, 7, &mut rng).unwrap();
        let n = d.get_rooms_number();
        for i in 0..n {
            let r = d.get_room(i).unwrap();
            assert!(r.width >= 2 && r.height >= 2);
            assert!(r.x + r.width <= 90 && r.y + r.height <= 80);
            for j in 0..n {
                if i != j {
                    let s = d.get_room(j).unwrap();
                    assert!(!boxes_overlap_inclusive(
                        (r.x, r.y, r.width, r.height),
                        (s.x, s.y, s.width, s.height)
                    ));
                }
            }
        }
    }
}

#[test]
fn corridors_join_distinct_existing_rooms() {
    for (seed, mode) in [
        (21u64, DungeonType::Basement),
        (22, DungeonType::SeparateRooms),
        (23, DungeonType::Grid),
    ] {
        let mut rng = DungeonRng::new(seed);
        let mut d = Dungeon::new();
        d.generate(8, mode, 100, 100, 10, 10, &mut rng).unwrap();
        for i in 0..d.get_corridors_number() {
            let c = *d.get_corridor(i).unwrap();
            assert_ne!(c.from_room_id, c.to_room_id);
            assert_eq!(d.get_room_by_id(c.from_room_id).unwrap().id, c.from_room_id);
            assert_eq!(d.get_room_by_id(c.to_room_id).unwrap().id, c.to_room_id);
        }
    }
}

#[test]
fn doors_number_counts_filled_slots_exactly() {
    let door = |id: usize| Door {
        id,
        locked: false,
        open: false,
    };
    let d = Dungeon {
        rooms: vec![],
        corridors: vec![
            Corridor::new(0, 0, 1, Some(door(0)), Some(door(1))),
            Corridor::new(1, 1, 2, None, Some(door(2))),
            Corridor::new(2, 2, 0, None, None),
            Corridor::new(3, 0, 2, Some(door(3)), None),
        ],
    };
    assert_eq!(d.get_doors_number(), 4);
}

#[test]
fn doors_number_matches_scan_after_add_doors() {
    let mut rng = DungeonRng::new(99);
    let mut d = Dungeon::new();
    d.generate(10, DungeonType::SeparateRooms, 100, 100, 10, 10, &mut rng)
        .unwrap();
    d.add_doors(&mut rng).unwrap();
    let mut scan = 0;
    for i in 0..d.get_corridors_number() {
        let c = d.get_corridor(i).unwrap();
        if c.from_room_door.is_some() {
            scan += 1;
        }
        if c.to_room_door.is_some() {
            scan += 1;
        }
        if let Some(door) = c.from_room_door {
            assert!(!door.locked);
            assert!(c.to_room_door.is_some());
        }
        if let Some(door) = c.to_room_door {
            assert!(!door.locked);
        }
    }
    assert_eq!(d.get_doors_number(), scan);
}

#[test]
fn door_ids_run_sequentially_over_the_corridor_scan() {
    let mut rng = DungeonRng::new(77);
    let mut d = Dungeon::new();
    d.generate(10, DungeonType::Basement, 100, 100, 10, 10, &mut rng)
        .unwrap();
    d.add_doors(&mut rng).unwrap();
    let mut next_id = 0;
    for i in 0..d.get_corridors_number() {
        let c = d.get_corridor(i).unwrap();
        if let Some(to_door) = c.to_room_door {
            assert_eq!(to_door.id, next_id);
            if let Some(from_door) = c.from_room_door {
                assert_eq!(from_door.id, next_id + 1);
                next_id += 2;
            } else {
                next_id += 1;
            }
        } else {
            assert!(c.from_room_door.is_none());
        }
    }
    assert_eq!(next_id, d.get_doors_number());
}

#[test]
fn item_ids_are_sequential_keys_first() {
    let mut rng = DungeonRng::new(91);
    let mut d = Dungeon::new();
    d.generate(10, DungeonType::Basement, 100, 100, 10, 10, &mut rng)
        .unwrap();
    d.add_doors(&mut rng).unwrap();
    let keys_count = d.get_doors_number();
    assert!(keys_count > 0);
    d.add_items(true, &mut rng);

    let mut ids: Vec<usize> = Vec::new();
    for room in &d.rooms {
        for item in &room.items {
            ids.push(item.id);
            assert_eq!(item.id < keys_count, item.item_type == ItemType::Key(0));
        }
    }
    ids.sort();
    let expected: Vec<usize> = (0..ids.len()).collect();
    assert_eq!(ids, expected);
}

#[test]
fn add_items_drops_keys_per_door_and_random_extras() {
    let mut rng = DungeonRng::new(5);
    let mut d = Dungeon::new();
    d.generate(10, DungeonType::Basement, 100, 100, 10, 10, &mut rng)
        .unwrap();
    d.add_doors(&mut rng).unwrap();
    let doors = d.get_doors_number();
    let rooms = d.get_rooms_number();
    assert!(doors > 0);

    d.add_items(true, &mut rng);
    let total: usize = d.rooms.iter().map(|r| r.items.len()).sum();
    assert!(total == doors + rooms || total == doors + rooms + 1);

    let keys = d
        .rooms
        .iter()
        .flat_map(|r| r.items.iter())
        .filter(|i| i.item_type == ItemType::Key(0))
        .count();
    assert_eq!(keys, doors);
}

#[test]
fn add_items_without_keys_adds_only_random_items() {
    let mut rng = DungeonRng::new(6);
    let mut d = Dungeon::new();
    d.generate(6, DungeonType::SeparateRooms, 100, 100, 10, 10, &mut rng)
        .unwrap();
    d.add_doors(&mut rng).unwrap();
    let rooms = d.get_rooms_number();

    d.add_items(false, &mut rng);
    let total: usize = d.rooms.iter().map(|r| r.items.len()).sum();
    assert!(total == rooms || total == rooms + 1);
    for room in &d.rooms {
        for item in &room.items {
            assert!(matches!(
                item.item_type,
                ItemType::Weapon | ItemType::Armor | ItemType::Potion
            ));
            assert_eq!(item.desc, format!("Item: {}", item.id));
        }
    }
}

#[test]
fn key_items_carry_universal_description() {
    let mut rng = DungeonRng::new(8);
    let mut d = Dungeon::new();
    d.generate(10, DungeonType::Basement, 100, 100, 10, 10, &mut rng)
        .unwrap();
    d.add_doors(&mut rng).unwrap();
    d.add_items(true, &mut rng);
    for room in &d.rooms {
        for item in &room.items {
            match item.item_type {
                ItemType::Key(bound_door) => {
                    assert_eq!(bound_door, 0);
                    assert_eq!(item.desc, "Universal Key");
                }
                _ => assert_eq!(item.desc, format!("Item: {}", item.id)),
            }
        }
    }
}

#[test]
fn lookup_accessors_answer_by_index_and_id() {
    let mut rng = DungeonRng::new(15);
    let mut d = Dungeon::new();
    d.generate(5, DungeonType::SeparateRooms, 100, 100, 10, 10, &mut rng)
        .unwrap();
    let n = d.get_rooms_number();
    assert!(n >= 1);
    assert!(d.get_room(n).is_none());
    assert!(d.get_corridor(d.get_corridors_number()).is_none());
    for i in 0..n {
        assert_eq!(d.get_room(i).unwrap().id, i);
        assert_eq!(d.get_room_by_id(i).unwrap().id, i);
    }
    assert!(d.get_room_by_id(9999).is_none());
}

#[test]
fn sampler_honors_both_range_forms() {
    let mut rng = DungeonRng::new(1234);
    for _ in 0..200 {
        let v = rng.sample(5, 10);
        assert!((5..10).contains(&v));
        let w = rng.sample_inclusive(1, 100);
        assert!((1..=100).contains(&w));
    }
    let mut hit_low = false;
    let mut hit_high = false;
    for _ in 0..500 {
        let v = rng.sample(0, 2);
        if v == 0 {
            hit_low = true;
        }
        if v == 1 {
            hit_high = true;
        }
    }
    assert!(hit_low && hit_high);
}
