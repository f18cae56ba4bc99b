use vstd::prelude::*;

verus! {

/// The four directions an entity can face or move in.
#[derive(Clone, Copy, PartialEq, Eq, Debug, Structural)]
pub enum Direction {
    North,
    East,
    South,
    West,
}

/// A cell coordinate on the level grid.
#[derive(Clone, Copy, PartialEq, Eq, Debug, Structural)]
pub struct GridPos {
    pub x: u32,
    pub y: u32,
}

impl GridPos {
    pub fn new(x: u32, y: u32) -> (r: GridPos)
        ensures
            r.x == x,
            r.y == y,
    {
        GridPos { x, y }
    }
}

/// The cell one step from `pos` in direction `dir`; moving north or west
/// from row or column 0 stays on that row or column.
pub open spec fn advanced(pos: GridPos, dir: Direction) -> GridPos {
    match dir {
        Direction::North => GridPos { x: pos.x, y: if pos.y == 0 { 0 } else { (pos.y - 1) as u32 } },
        Direction::East => GridPos { x: (pos.x + 1) as u32, y: pos.y },
        Direction::South => GridPos { x: pos.x, y: (pos.y + 1) as u32 },
        Direction::West => GridPos { x: if pos.x == 0 { 0 } else { (pos.x - 1) as u32 }, y: pos.y },
    }
}

/// Whether stepping from `pos` in `dir` stays within `u32` coordinates.
pub open spec fn can_advance(pos: GridPos, dir: Direction) -> bool {
    match dir {
        Direction::East => pos.x < u32::MAX,
        Direction::South => pos.y < u32::MAX,
        _ => true,
    }
}

/// The direction pointing the other way.
pub open spec fn opposite(dir: Direction) -> Direction {
    match dir {
        Direction::North => Direction::South,
        Direction::East => Direction::West,
        Direction::South => Direction::North,
        Direction::West => Direction::East,
    }
}

/// Returns the cell next to `pos` in direction `dir`.
pub fn advance_pos_in_direction(pos: GridPos, dir: Direction) -> (r: GridPos)
    requires
        can_advance(pos, dir),
    ensures
        r == advanced(pos, dir),
{
    let (dest_x, dest_y): (Option<u32>, Option<u32>) = match dir {
        Direction::North => (None, Some(pos.y.saturating_sub(1))),
        Direction::East => (Some(pos.x + 1), None),
        Direction::South => (None, Some(pos.y + 1)),
        Direction::West => (Some(pos.x.saturating_sub(1)), None),
    };
    let new_pos_x: u32 = match dest_x {
        Some(x) => x,
        None => pos.x,
    };
    let new_pos_y: u32 = match dest_y {
        Some(y) => y,
        None => pos.y,
    };
    GridPos { x: new_pos_x, y: new_pos_y }
}

/// A step followed by a step back returns to the start, unless the first
/// step was clamped at row or column 0.
pub proof fn law_step_then_back(pos: GridPos, dir: Direction)
    requires
        can_advance(pos, dir),
        advanced(pos, dir) != pos,
    ensures
        can_advance(advanced(pos, dir), opposite(dir)),
        advanced(advanced(pos, dir), opposite(dir)) == pos,
{
}

/// A step changes exactly one coordinate by at most one.
pub proof fn law_step_is_one_cell(pos: GridPos, dir: Direction)
    requires
        can_advance(pos, dir),
    ensures
        ({
            let r = advanced(pos, dir);
            (r.x == pos.x && (r.y == pos.y + 1 || r.y + 1 == pos.y || r.y == pos.y))
                || (r.y == pos.y && (r.x == pos.x + 1 || r.x + 1 == pos.x))
        }),
        advanced(pos, dir) == pos <==> ((dir == Direction::North && pos.y == 0) || (dir
            == Direction::West && pos.x == 0)),
{
}

/// North lowers the row by one and West the column by one, neither below
/// 0; South raises the row by one and East the column by one; the other
/// coordinate stays.
pub proof fn law_directions(pos: GridPos)
    ensures
        advanced(pos, Direction::North).x == pos.x,
        advanced(pos, Direction::North).y == (if pos.y > 0 { pos.y - 1 } else { 0 }),
        advanced(pos, Direction::West).y == pos.y,
        advanced(pos, Direction::West).x == (if pos.x > 0 { pos.x - 1 } else { 0 }),
        pos.y < u32::MAX ==> (advanced(pos, Direction::South).x == pos.x && advanced(pos, Direction::South).y == pos.y + 1),
        pos.x < u32::MAX ==> (advanced(pos, Direction::East).y == pos.y && advanced(pos, Direction::East).x == pos.x + 1),
        can_advance(pos, Direction::North) && can_advance(pos, Direction::West),
        can_advance(pos, Direction::South) == (pos.y < u32::MAX),
        can_advance(pos, Direction::East) == (pos.x < u32::MAX),
{
}

} // verus!
