//! A dungeon of rooms, corridors and treasures, and the graph query that
//! creates it in the database.

use crate::decimal::{decimal, push_decimal};
use crate::dice::{random_index, random_u32, random_u8};
use vstd::prelude::*;
use vstd::string::StringExecFns;

verus! {

pub const DEFAULT_SIZE: u16 = 10;

pub const DEFAULT_MAXGP: u32 = 10;

pub const DEFAULT_MAX_TREASURES: u8 = 2;

/// What a request for a new dungeon asks for.
#[derive(Debug, Clone, Copy, PartialEq, Eq, Structural)]
pub struct DungeonParams {
    /// The number of rooms.
    pub size: u16,
    /// The limit of the worth of a treasure.
    pub maxgp: u32,
    /// The limit of the number of treasures.
    pub max_treasures: u8,
}

/// Why a request for a new dungeon is refused.
#[derive(Debug, Clone, Copy, PartialEq, Eq, Structural)]
pub enum ParamError {
    /// The dungeon would have no room.
    Size,
    /// No treasure could be worth anything.
    Maxgp,
}

impl Default for DungeonParams {
    fn default() -> (params: Self)
        ensures
            params == (DungeonParams {
                size: DEFAULT_SIZE,
                maxgp: DEFAULT_MAXGP,
                max_treasures: DEFAULT_MAX_TREASURES,
            }),
    {
        DungeonParams {
            size: DEFAULT_SIZE,
            maxgp: DEFAULT_MAXGP,
            max_treasures: DEFAULT_MAX_TREASURES,
        }
    }
}

impl DungeonParams {
    /// Whether a dungeon can be made of these: the size is looked at first,
    /// then the limit of worth.
    pub fn check(&self) -> (checked: Result<(), ParamError>)
        ensures
            checked == if self.size == 0 {
                Err::<(), ParamError>(ParamError::Size)
            } else if self.maxgp == 0 {
                Err::<(), ParamError>(ParamError::Maxgp)
            } else {
                Ok::<(), ParamError>(())
            },
    {
        if self.size == 0 {
            Err(ParamError::Size)
        } else if self.maxgp == 0 {
            Err(ParamError::Maxgp)
        } else {
            Ok(())
        }
    }
}

impl ParamError {
    /// The words in which the refusal is told to the client.
    pub fn message(&self) -> (text: &'static str)
        ensures
            text@ == match self {
                ParamError::Size => "'size' must be positive"@,
                ParamError::Maxgp => "'maxgp' must be positive"@,
            },
    {
        match self {
            ParamError::Size => "'size' must be positive",
            ParamError::Maxgp => "'maxgp' must be positive",
        }
    }
}

/// A room of the dungeon.
#[derive(Debug, Clone, Copy, PartialEq, Eq, Structural)]
pub struct Room {
    pub id: u16,
}

/// A treasure and what it is worth.
#[derive(Debug, Clone, Copy, PartialEq, Eq, Structural)]
pub struct Treasure {
    pub id: u8,
    pub gp: u32,
}

/// The rooms of a dungeon of `size` rooms: they are numbered from zero.
pub fn rooms(size: u16) -> (made: Vec<Room>)
    ensures
        made@ == Seq::new(size as nat, |i: int| Room { id: i as u16 }),
{
    let mut made: Vec<Room> = Vec::with_capacity(size as usize);
    let mut id: u16 = 0;
    while id < size
        invariant
            id <= size,
            made@ == Seq::new(id as nat, |i: int| Room { id: i as u16 }),
        decreases size - id,
    {
        made.push(Room { id });
        id += 1;
    }
    made
}

/// The pairs `(first, b)` for all `b` above `first` and below `size`, in
/// ascending order of `b`.
pub open spec fn pairs_from(first: int, size: int) -> Seq<(int, int)> {
    Seq::new((size - first - 1) as nat, |k: int| (first, first + 1 + k))
}

/// All pairs `(a, b)` with `a < b < size` and `a < bound`, ordered by `a`
/// and then by `b`.
pub open spec fn pairs_below(bound: int, size: int) -> Seq<(int, int)>
    decreases bound,
{
    if bound <= 0 {
        Seq::empty()
    } else {
        pairs_below(bound - 1, size) + pairs_from(bound - 1, size)
    }
}

/// All pairs of distinct indices below `size`, the lower index first,
/// ordered by the first index and then by the second.
pub open spec fn all_pairs(size: int) -> Seq<(int, int)> {
    pairs_below(size, size)
}

/// The number of pairs with a first index below `bound`.
pub proof fn lemma_pairs_below_len(bound: int, size: int)
    requires
        0 <= bound <= size,
    ensures
        2 * pairs_below(bound, size).len() == bound * (2 * size - bound - 1),
    decreases bound,
{
    if bound > 0 {
        lemma_pairs_below_len(bound - 1, size);
        assert(2 * pairs_below(bound, size).len() == (bound - 1) * (2 * size - bound) + 2 * (size
            - bound)) by (nonlinear_arith)
            requires
                2 * pairs_below(bound - 1, size).len() == (bound - 1) * (2 * size - (bound - 1)
                    - 1),
                pairs_below(bound, size).len() == pairs_below(bound - 1, size).len() + (size
                    - bound),
        ;
        assert((bound - 1) * (2 * size - bound) + 2 * (size - bound) == bound * (2 * size - bound
            - 1)) by (nonlinear_arith);
    } else {
        assert(bound * (2 * size - bound - 1) == 0) by (nonlinear_arith)
            requires
                bound == 0,
        ;
    }
}

/// Every pair names two indices below `size`, the lower one first.
pub proof fn lemma_pairs_in_range(bound: int, size: int)
    requires
        0 <= bound <= size,
    ensures
        forall|e: int|
            0 <= e < pairs_below(bound, size).len() ==> 0 <= (#[trigger] pairs_below(
                bound,
                size,
            )[e]).0 < pairs_below(bound, size)[e].1 < size,
    decreases bound,
{
    if bound > 0 {
        let before = pairs_below(bound - 1, size);
        lemma_pairs_in_range(bound - 1, size);
        assert forall|e: int| 0 <= e < pairs_below(bound, size).len() implies 0 <= (
        #[trigger] pairs_below(bound, size)[e]).0 < pairs_below(bound, size)[e].1 < size by {
            if e < before.len() {
                assert(pairs_below(bound, size)[e] == before[e]);
            } else {
                assert(pairs_below(bound, size)[e] == pairs_from(bound - 1, size)[e
                    - before.len()]);
            }
        }
    }
}

/// The corridors of a dungeon in which every room leads to every other:
/// one for each pair of rooms, the pairs in the order of `all_pairs`.
pub fn room_pairs(size: u16) -> (pairs: Vec<(u16, u16)>)
    ensures
        pairs@.map_values(|p: (u16, u16)| (p.0 as int, p.1 as int)) == all_pairs(size as int),
{
    let mut pairs: Vec<(u16, u16)> = Vec::new();
    let mut a: u16 = 0;
    while a < size
        invariant
            a <= size,
            pairs@.map_values(|p: (u16, u16)| (p.0 as int, p.1 as int)) == pairs_below(
                a as int,
                size as int,
            ),
        decreases size - a,
    {
        let ghost done = pairs@.map_values(|p: (u16, u16)| (p.0 as int, p.1 as int));
        let mut b: u16 = a + 1;
        while b < size
            invariant
                a < b <= size,
                pairs@.map_values(|p: (u16, u16)| (p.0 as int, p.1 as int)) == done + Seq::new(
                    (b - a - 1) as nat,
                    |k: int| (a as int, a + 1 + k),
                ),
            decreases size - b,
        {
            let ghost before = pairs@.map_values(|p: (u16, u16)| (p.0 as int, p.1 as int));
            pairs.push((a, b));
            assert(pairs@.map_values(|p: (u16, u16)| (p.0 as int, p.1 as int)) == before.push(
                (a as int, b as int),
            ));
            b += 1;
        }
        a += 1;
    }
    pairs
}

/// Picks the number of treasures at random: two at least, and fewer than
/// `max_treasures`.
pub fn treasure_count(max_treasures: u8) -> (count: u8)
    requires
        max_treasures > 2,
    ensures
        2 <= count < max_treasures,
{
    random_u8(2, max_treasures)
}

/// Makes `count` treasures, numbered from zero, each worth a random amount
/// of one gp at least and less than `maxgp`.
pub fn treasures(count: u8, maxgp: u32) -> (made: Vec<Treasure>)
    requires
        count > 0 ==> maxgp > 1,
    ensures
        made@.len() == count,
        forall|i: int|
            0 <= i < count ==> (#[trigger] made@[i]).id == i && 1 <= made@[i].gp < maxgp,
{
    let mut made: Vec<Treasure> = Vec::with_capacity(count as usize);
    let mut id: u8 = 0;
    while id < count
        invariant
            id <= count,
            count > 0 ==> maxgp > 1,
            made@.len() == id,
            forall|i: int| 0 <= i < id ==> (#[trigger] made@[i]).id == i && 1 <= made@[i].gp < maxgp,
        decreases count - id,
    {
        made.push(Treasure { id, gp: random_u32(1, maxgp) });
        id += 1;
    }
    made
}

/// Whether one of `rooms` is numbered `id`.
pub open spec fn has_room(rooms: Seq<Room>, id: u16) -> bool {
    exists|j: int| 0 <= j < rooms.len() && (#[trigger] rooms[j]).id == id
}

/// Puts each treasure into a room picked at random: the result names, for
/// each treasure in turn, the room and the treasure.
pub fn placements(rooms: &Vec<Room>, treasures: &Vec<Treasure>) -> (placed: Vec<(u16, u8)>)
    requires
        treasures@.len() > 0 ==> rooms@.len() > 0,
    ensures
        placed@.len() == treasures@.len(),
        forall|i: int|
            0 <= i < placed@.len() ==> (#[trigger] placed@[i]).1 == treasures@[i].id && has_room(
                rooms@,
                placed@[i].0,
            ),
{
    let mut placed: Vec<(u16, u8)> = Vec::with_capacity(treasures.len());
    let mut i: usize = 0;
    while i < treasures.len()
        invariant
            i <= treasures@.len(),
            treasures@.len() > 0 ==> rooms@.len() > 0,
            placed@.len() == i,
            forall|k: int|
                0 <= k < i ==> (#[trigger] placed@[k]).1 == treasures@[k].id && has_room(
                    rooms@,
                    placed@[k].0,
                ),
        decreases treasures.len() - i,
    {
        let j = random_index(rooms.len());
        assert(has_room(rooms@, rooms@[j as int].id));
        placed.push((rooms[j].id, treasures[i].id));
        i += 1;
    }
    placed
}

/// Whether corridors are still to be taken out: a dungeon keeps no more
/// than two for each room.
pub fn needs_pruning(corridor_count: usize, size: u16) -> (needed: bool)
    ensures
        needed == (corridor_count > 2 * size),
{
    corridor_count > 2 * (size as usize)
}

/// Whether a corridor may be taken out: only where the room it leaves and
/// the room it reaches both have another way on.
pub fn may_remove(ways_from_source: usize, ways_from_target: usize) -> (allowed: bool)
    ensures
        allowed == (ways_from_source > 1 && ways_from_target > 1),
{
    ways_from_source > 1 && ways_from_target > 1
}

/// The statement that creates the room numbered `id`.
pub open spec fn room_text(id: nat) -> Seq<char> {
    "CREATE (r"@ + decimal(id) + ":Room { id: "@ + decimal(id) + " })"@
}

/// The statement that lets the room `from` lead to the room `to`.
pub open spec fn corridor_text(from: nat, to: nat) -> Seq<char> {
    "CREATE (r"@ + decimal(from) + ")-[:LEADS_TO]->(r"@ + decimal(to) + ")"@
}

/// The statement that creates the treasure numbered `id`, worth `gp`.
pub open spec fn treasure_text(id: nat, gp: nat) -> Seq<char> {
    "CREATE (t"@ + decimal(id) + ":Treasure { id: "@ + decimal(id) + ", gp: "@ + decimal(gp)
        + " })"@
}

/// The statement that puts the treasure `treasure` into the room `room`.
pub open spec fn placement_text(room: nat, treasure: nat) -> Seq<char> {
    "CREATE (r"@ + decimal(room) + ")-[:CONTAINS]->(t"@ + decimal(treasure) + ")"@
}

/// The statements for the corridors: each corridor gives two, one for
/// each direction.
pub open spec fn corridor_lines(corridors: Seq<(u16, u16)>) -> Seq<Seq<char>>
    decreases corridors.len(),
{
    if corridors.len() == 0 {
        Seq::empty()
    } else {
        corridor_lines(corridors.drop_last()).push(
            corridor_text(corridors.last().0 as nat, corridors.last().1 as nat),
        ).push(corridor_text(corridors.last().1 as nat, corridors.last().0 as nat))
    }
}

/// The statements that create a dungeon: its rooms, its corridors, its
/// treasures, and the place of each treasure, in this order.
pub open spec fn dungeon_lines(
    rooms: Seq<Room>,
    corridors: Seq<(u16, u16)>,
    treasures: Seq<Treasure>,
    placements: Seq<(u16, u8)>,
) -> Seq<Seq<char>> {
    rooms.map_values(|room: Room| room_text(room.id as nat)) + corridor_lines(corridors)
        + treasures.map_values(
        |treasure: Treasure| treasure_text(treasure.id as nat, treasure.gp as nat),
    ) + placements.map_values(|place: (u16, u8)| placement_text(place.0 as nat, place.1 as nat))
}

/// The lines, with a line feed between each two of them.
pub open spec fn joined(lines: Seq<Seq<char>>) -> Seq<char>
    decreases lines.len(),
{
    if lines.len() == 0 {
        Seq::empty()
    } else if lines.len() == 1 {
        lines[0]
    } else {
        joined(lines.drop_last()) + "\n"@ + lines.last()
    }
}

/// Appends `line` to `query`, after a line feed unless it is the first.
fn push_line(query: &mut String, first: bool, line: &str, Ghost(lines): Ghost<Seq<Seq<char>>>)
    requires
        first <==> lines.len() == 0,
        old(query)@ == joined(lines),
    ensures
        final(query)@ == joined(lines.push(line@)),
{
    assert(lines.push(line@).drop_last() == lines);
    if !first {
        query.append("\n");
    }
    query.append(line);
}

/// The statement that creates `room`.
pub fn room_statement(room: Room) -> (text: String)
    ensures
        text@ == room_text(room.id as nat),
{
    let mut text = String::from_str("CREATE (r");
    push_decimal(&mut text, room.id as u64);
    text.append(":Room { id: ");
    push_decimal(&mut text, room.id as u64);
    text.append(" })");
    text
}

/// The statement that lets the room `from` lead to the room `to`.
pub fn corridor_statement(from: u16, to: u16) -> (text: String)
    ensures
        text@ == corridor_text(from as nat, to as nat),
{
    let mut text = String::from_str("CREATE (r");
    push_decimal(&mut text, from as u64);
    text.append(")-[:LEADS_TO]->(r");
    push_decimal(&mut text, to as u64);
    text.append(")");
    text
}

/// The statement that creates `treasure`.
pub fn treasure_statement(treasure: Treasure) -> (text: String)
    ensures
        text@ == treasure_text(treasure.id as nat, treasure.gp as nat),
{
    let mut text = String::from_str("CREATE (t");
    push_decimal(&mut text, treasure.id as u64);
    text.append(":Treasure { id: ");
    push_decimal(&mut text, treasure.id as u64);
    text.append(", gp: ");
    push_decimal(&mut text, treasure.gp as u64);
    text.append(" })");
    text
}

/// The statement that puts the treasure `treasure` into the room `room`.
pub fn placement_statement(room: u16, treasure: u8) -> (text: String)
    ensures
        text@ == placement_text(room as nat, treasure as nat),
{
    let mut text = String::from_str("CREATE (r");
    push_decimal(&mut text, room as u64);
    text.append(")-[:CONTAINS]->(t");
    push_decimal(&mut text, treasure as u64);
    text.append(")");
    text
}

/// The query that creates a dungeon: the statements of `dungeon_lines`,
/// one to a line.
pub fn dungeon_query(
    rooms: &Vec<Room>,
    corridors: &Vec<(u16, u16)>,
    treasures: &Vec<Treasure>,
    placements: &Vec<(u16, u8)>,
) -> (query: String)
    ensures
        query@ == joined(dungeon_lines(rooms@, corridors@, treasures@, placements@)),
{
    let mut query = String::new();
    let mut first = true;
    let ghost mut lines: Seq<Seq<char>> = Seq::empty();
    let mut i: usize = 0;
    while i < rooms.len()
        invariant
            i <= rooms@.len(),
            first <==> lines.len() == 0,
            query@ == joined(lines),
            lines == rooms@.take(i as int).map_values(|room: Room| room_text(room.id as nat)),
        decreases rooms.len() - i,
    {
        let line = room_statement(rooms[i]);
        push_line(&mut query, first, line.as_str(), Ghost(lines));
        proof {
            lines = lines.push(line@);
            assert(rooms@.take(i + 1).drop_last() == rooms@.take(i as int));
        }
        first = false;
        i += 1;
    }
    assert(rooms@.take(i as int) == rooms@);
    let ghost room_lines = lines;
    let mut i: usize = 0;
    while i < corridors.len()
        invariant
            i <= corridors@.len(),
            first <==> lines.len() == 0,
            query@ == joined(lines),
            lines == room_lines + corridor_lines(corridors@.take(i as int)),
        decreases corridors.len() - i,
    {
        let (from, to) = corridors[i];
        let there = corridor_statement(from, to);
        push_line(&mut query, first, there.as_str(), Ghost(lines));
        let back = corridor_statement(to, from);
        push_line(&mut query, false, back.as_str(), Ghost(lines.push(there@)));
        proof {
            lines = lines.push(there@).push(back@);
            assert(corridors@.take(i + 1).drop_last() == corridors@.take(i as int));
        }
        first = false;
        i += 1;
    }
    assert(corridors@.take(i as int) == corridors@);
    let ghost way_lines = lines;
    let mut i: usize = 0;
    while i < treasures.len()
        invariant
            i <= treasures@.len(),
            first <==> lines.len() == 0,
            query@ == joined(lines),
            lines == way_lines + treasures@.take(i as int).map_values(
                |treasure: Treasure| treasure_text(treasure.id as nat, treasure.gp as nat),
            ),
        decreases treasures.len() - i,
    {
        let line = treasure_statement(treasures[i]);
        push_line(&mut query, first, line.as_str(), Ghost(lines));
        proof {
            lines = lines.push(line@);
            assert(treasures@.take(i + 1).drop_last() == treasures@.take(i as int));
        }
        first = false;
        i += 1;
    }
    assert(treasures@.take(i as int) == treasures@);
    let ghost hoard_lines = lines;
    let mut i: usize = 0;
    while i < placements.len()
        invariant
            i <= placements@.len(),
            first <==> lines.len() == 0,
            query@ == joined(lines),
            lines == hoard_lines + placements@.take(i as int).map_values(
                |place: (u16, u8)| placement_text(place.0 as nat, place.1 as nat),
            ),
        decreases placements.len() - i,
    {
        let (room, treasure) = placements[i];
        let line = placement_statement(room, treasure);
        push_line(&mut query, first, line.as_str(), Ghost(lines));
        proof {
            lines = lines.push(line@);
            assert(placements@.take(i + 1).drop_last() == placements@.take(i as int));
        }
        first = false;
        i += 1;
    }
    assert(placements@.take(i as int) == placements@);
    query
}

} // verus!
