use initvec::dungeon::{needs_pruning, room_pairs};
use initvec::warren::Warren;

#[test]
fn complete_warren_joins_every_pair() {
    let warren = Warren::complete(4);
    assert_eq!(6, warren.corridor_count());
    assert_eq!(vec![(0, 1), (0, 2), (0, 3), (1, 2), (1, 3), (2, 3)], warren.corridors());
    assert_eq!(room_pairs(30), Warren::complete(30).corridors());
}

#[test]
fn small_warrens() {
    assert_eq!(0, Warren::complete(0).corridor_count());
    assert_eq!(0, Warren::complete(1).corridor_count());
    assert!(Warren::complete(1).corridors().is_empty());
    assert_eq!(vec![(0, 1)], Warren::complete(2).corridors());
}

#[test]
fn corridor_goes_where_both_ends_have_another_way() {
    // corridors 0: 0->1, 1: 0->2, 2: 0->3, 3: 1->2, 4: 1->3, 5: 2->3
    let mut warren = Warren::complete(4);
    // two more ways lead on from room 0, one more from room 1
    warren.prune_corridor(0);
    // the last corridor has taken the place of the one that went
    assert_eq!(vec![(2, 3), (0, 2), (0, 3), (1, 2), (1, 3)], warren.corridors());
}

#[test]
fn corridor_stays_where_an_end_has_no_other_way() {
    let mut warren = Warren::complete(4);
    // no way leads on from room 3
    warren.prune_corridor(2);
    assert_eq!(6, warren.corridor_count());
    // room 2 has one way on only
    warren.prune_corridor(1);
    assert_eq!(6, warren.corridor_count());
    assert_eq!(room_pairs(4), warren.corridors());
}

#[test]
fn number_without_a_corridor_changes_nothing() {
    let mut warren = Warren::complete(4);
    warren.prune_corridor(0);
    assert_eq!(5, warren.corridor_count());
    // the corridor numbered 5 has become number 0
    warren.prune_corridor(5);
    assert_eq!(vec![(2, 3), (0, 2), (0, 3), (1, 2), (1, 3)], warren.corridors());
}

#[test]
fn random_pruning_keeps_a_way_on() {
    for _ in 0..20 {
        let size = 8u16;
        let mut warren = Warren::complete(size);
        let mut attempts = 0;
        while needs_pruning(warren.corridor_count(), size) && attempts < 10_000 {
            let before = warren.corridor_count();
            warren.prune();
            let after = warren.corridor_count();
            assert!(after == before || after + 1 == before);
            attempts += 1;
        }
        let ways = warren.corridors();
        assert!(ways.len() >= 16);
        for (from, to) in ways {
            assert!(from < to && to < size);
        }
    }
}
