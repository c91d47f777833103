use initvec::dungeon::{
    corridor_statement, dungeon_query, may_remove, needs_pruning, placement_statement,
    placements, room_pairs, room_statement, rooms, treasure_count, treasure_statement, treasures,
    DungeonParams, ParamError, Room, Treasure,
};

#[test]
fn default_params() {
    assert_eq!(DungeonParams { size: 10, maxgp: 10, max_treasures: 2 }, DungeonParams::default());
}

#[test]
fn params_are_checked() {
    let params = DungeonParams { size: 0, maxgp: 0, max_treasures: 0 };
    assert_eq!(Err(ParamError::Size), params.check());
    let params = DungeonParams { size: 0, maxgp: 5, max_treasures: 3 };
    assert_eq!(Err(ParamError::Size), params.check());
    let params = DungeonParams { size: 1, maxgp: 0, max_treasures: 3 };
    assert_eq!(Err(ParamError::Maxgp), params.check());
    let params = DungeonParams { size: 1, maxgp: 1, max_treasures: 0 };
    assert_eq!(Ok(()), params.check());
    assert_eq!(Ok(()), DungeonParams::default().check());
}

#[test]
fn refusals_in_words() {
    assert_eq!("'size' must be positive", ParamError::Size.message());
    assert_eq!("'maxgp' must be positive", ParamError::Maxgp.message());
}

#[test]
fn rooms_are_numbered_from_zero() {
    assert!(rooms(0).is_empty());
    assert_eq!(vec![Room { id: 0 }, Room { id: 1 }, Room { id: 2 }], rooms(3));
    let all = rooms(u16::MAX);
    assert_eq!(u16::MAX as usize, all.len());
    assert_eq!(Room { id: u16::MAX - 1 }, all[all.len() - 1]);
}

#[test]
fn every_pair_of_rooms_once() {
    assert!(room_pairs(0).is_empty());
    assert!(room_pairs(1).is_empty());
    assert_eq!(vec![(0, 1)], room_pairs(2));
    assert_eq!(vec![(0, 1), (0, 2), (0, 3), (1, 2), (1, 3), (2, 3)], room_pairs(4));
    assert_eq!(100 * 99 / 2, room_pairs(100).len());
}

#[test]
fn pruning_rules() {
    assert!(!needs_pruning(0, 0));
    assert!(!needs_pruning(20, 10));
    assert!(needs_pruning(21, 10));
    assert!(needs_pruning(usize::MAX, u16::MAX));
    assert!(may_remove(2, 2));
    assert!(!may_remove(1, 2));
    assert!(!may_remove(2, 1));
    assert!(!may_remove(0, 0));
}

#[test]
fn treasure_count_is_in_range() {
    for _ in 0..200 {
        assert_eq!(2, treasure_count(3));
        let count = treasure_count(6);
        assert!(2 <= count && count < 6);
    }
}

#[test]
fn treasures_are_numbered_and_worth_something() {
    assert!(treasures(0, 0).is_empty());
    for _ in 0..50 {
        let made = treasures(5, 4);
        assert_eq!(5, made.len());
        for (i, treasure) in made.iter().enumerate() {
            assert_eq!(i, treasure.id as usize);
            assert!(1 <= treasure.gp && treasure.gp < 4);
        }
    }
    assert_eq!(vec![Treasure { id: 0, gp: 1 }, Treasure { id: 1, gp: 1 }], treasures(2, 2));
}

#[test]
fn treasures_are_placed_in_rooms() {
    let all = rooms(3);
    let hoard = vec![Treasure { id: 0, gp: 1 }, Treasure { id: 1, gp: 2 }];
    for _ in 0..50 {
        let placed = placements(&all, &hoard);
        assert_eq!(2, placed.len());
        for (i, place) in placed.iter().enumerate() {
            assert_eq!(hoard[i].id, place.1);
            assert!(place.0 < 3);
        }
    }
    assert!(placements(&Vec::new(), &Vec::new()).is_empty());
    assert_eq!(vec![(7, 0)], placements(&vec![Room { id: 7 }], &hoard[..1].to_vec()));
}

#[test]
fn statements() {
    let room = Room { id: 12 };
    assert_eq!(format!("CREATE (r{}:{:?})", room.id, room), room_statement(room));
    assert_eq!("CREATE (r12:Room { id: 12 })", room_statement(room));
    let treasure = Treasure { id: 3, gp: 250 };
    assert_eq!(format!("CREATE (t{}:{:?})", treasure.id, treasure), treasure_statement(treasure));
    assert_eq!("CREATE (t3:Treasure { id: 3, gp: 250 })", treasure_statement(treasure));
    assert_eq!("CREATE (r0)-[:LEADS_TO]->(r65535)", corridor_statement(0, u16::MAX));
    assert_eq!("CREATE (r9)-[:CONTAINS]->(t255)", placement_statement(9, u8::MAX));
}

#[test]
fn query_of_a_small_dungeon() {
    let all = rooms(2);
    let corridors = vec![(0, 1)];
    let hoard = vec![Treasure { id: 0, gp: 7 }];
    let placed = vec![(1, 0)];
    let expected = [
        "CREATE (r0:Room { id: 0 })",
        "CREATE (r1:Room { id: 1 })",
        "CREATE (r0)-[:LEADS_TO]->(r1)",
        "CREATE (r1)-[:LEADS_TO]->(r0)",
        "CREATE (t0:Treasure { id: 0, gp: 7 })",
        "CREATE (r1)-[:CONTAINS]->(t0)",
    ]
    .join("\n");
    assert_eq!(expected, dungeon_query(&all, &corridors, &hoard, &placed));
}

#[test]
fn query_of_parts() {
    let none: Vec<Room> = Vec::new();
    assert_eq!("", dungeon_query(&none, &Vec::new(), &Vec::new(), &Vec::new()));
    assert_eq!(
        "CREATE (r5:Room { id: 5 })",
        dungeon_query(&vec![Room { id: 5 }], &Vec::new(), &Vec::new(), &Vec::new())
    );
    assert_eq!(
        "CREATE (r1)-[:LEADS_TO]->(r2)\nCREATE (r2)-[:LEADS_TO]->(r1)",
        dungeon_query(&none, &vec![(1, 2)], &Vec::new(), &Vec::new())
    );
    assert_eq!(
        "CREATE (r1)-[:CONTAINS]->(t2)\nCREATE (r3)-[:CONTAINS]->(t4)",
        dungeon_query(&none, &Vec::new(), &Vec::new(), &vec![(1, 2), (3, 4)])
    );
}
