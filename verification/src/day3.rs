//! Day 3: two wires on a grid, and where they cross.
use crate::text::{fields, i32_of, line_ranges, lines_of, parse_i32, ranges_of_fields, split_ranges};
use vstd::prelude::*;
use vstd::string::StrSliceExecFns;

verus! {

/// The four ways a wire can go.
#[derive(Clone, Copy, Debug, PartialEq, Eq, Structural)]
pub enum Direction {
    Up,
    Down,
    Left,
    Right,
}

/// The direction that a letter stands for, if any.
pub open spec fn direction_of(letter: char) -> Option<Direction> {
    if letter == 'U' {
        Some(Direction::Up)
    } else if letter == 'D' {
        Some(Direction::Down)
    } else if letter == 'L' {
        Some(Direction::Left)
    } else if letter == 'R' {
        Some(Direction::Right)
    } else {
        None
    }
}

impl Direction {
    /// The direction of one of the letters `U`, `D`, `L` and `R`.
    pub fn from(string: char) -> (direction: Direction)
        requires
            direction_of(string) is Some,
        ensures
            Some(direction) == direction_of(string),
    {
        Direction::from_letter(string).unwrap()
    }

    /// Reads `U`, `D`, `L` or `R`.
    pub fn from_letter(letter: char) -> (direction: Option<Direction>)
        ensures
            direction == direction_of(letter),
    {
        match letter {
            'U' => Some(Direction::Up),
            'D' => Some(Direction::Down),
            'L' => Some(Direction::Left),
            'R' => Some(Direction::Right),
            _ => None,
        }
    }
}

/// A place on the grid.
#[derive(Debug, Clone, Copy, PartialEq, Eq, Structural)]
pub struct Position {
    pub x: i32,
    pub y: i32,
}

/// The absolute value of `value`.
pub open spec fn magnitude_spec(value: int) -> int {
    if value < 0 {
        -value
    } else {
        value
    }
}

/// The absolute value of `value`, which always fits in a `u32`.
pub fn magnitude(value: i32) -> (result: u32)
    ensures
        result == magnitude_spec(value as int),
{
    if value < 0 {
        (0 - (value as i64)) as u32
    } else {
        value as u32
    }
}

/// Whether both coordinates fit in an `i32`.
pub open spec fn on_grid(point: (int, int)) -> bool {
    i32::MIN <= point.0 <= i32::MAX && i32::MIN <= point.1 <= i32::MAX
}

/// The point `steps` steps from `start` in `direction`.
pub open spec fn offset(start: (int, int), direction: Direction, steps: int) -> (int, int) {
    match direction {
        Direction::Up => (start.0, start.1 + steps),
        Direction::Down => (start.0, start.1 - steps),
        Direction::Right => (start.0 + steps, start.1),
        Direction::Left => (start.0 - steps, start.1),
    }
}

impl Position {
    /// The position as a point of the plane.
    pub open spec fn point(self) -> (int, int) {
        (self.x as int, self.y as int)
    }

    /// The sum of the absolute coordinates of both positions: the
    /// Manhattan distance between them where one of them is the origin.
    pub open spec fn distance_spec(self, position: Position) -> int {
        (magnitude_spec(position.x as int) + magnitude_spec(self.x as int)) + (magnitude_spec(
            position.y as int,
        ) + magnitude_spec(self.y as int))
    }

    /// Whether the distance to `position` fits in a `u32`.
    pub fn distance_fits(&self, position: Position) -> (fits: bool)
        ensures
            fits == (self.distance_spec(position) <= u32::MAX),
    {
        let x1: u64 = magnitude(position.x) as u64;
        let x2: u64 = magnitude(self.x) as u64;
        let y1: u64 = magnitude(position.y) as u64;
        let y2: u64 = magnitude(self.y) as u64;
        (x1 + x2) + (y1 + y2) <= 4294967295
    }

    /// The sum of the absolute coordinates of both positions.
    pub fn manhattan_distance(&self, position: Position) -> (distance: u32)
        requires
            self.distance_spec(position) <= u32::MAX,
        ensures
            distance == self.distance_spec(position),
    {
        let x1: u32 = magnitude(position.x);
        let x2: u32 = magnitude(self.x);
        let y1: u32 = magnitude(position.y);
        let y2: u32 = magnitude(self.y);
        (x1 + x2) + (y1 + y2)
    }
}

/// The points that the positions stand for.
pub open spec fn points_of(path: Seq<Position>) -> Seq<(int, int)> {
    path.map_values(|position: Position| position.point())
}

/// So many steps in one direction.
#[derive(Clone, Copy, Debug, PartialEq, Eq, Structural)]
pub struct Move {
    pub direction: Direction,
    pub length: i32,
}

/// The move that `s` writes: the letter of a direction, then its length
/// as an `i32`.
pub open spec fn move_of(s: Seq<char>) -> Option<Move> {
    if s.len() == 0 {
        None
    } else {
        match (direction_of(s[0]), i32_of(s.skip(1))) {
            (Some(direction), Some(length)) => Some(Move { direction, length }),
            _ => None,
        }
    }
}

/// The moves that `line` writes, with a comma between each two, if each
/// field writes one.
pub open spec fn moves_of(line: Seq<char>) -> Option<Seq<Move>> {
    let found = fields(line, ',');
    if forall|k: int| 0 <= k < found.len() ==> move_of(#[trigger] found[k]) is Some {
        Some(Seq::new(found.len(), |k: int| move_of(found[k]).unwrap()))
    } else {
        None
    }
}

impl Move {
    /// Reads a move; `None` where the text writes none.
    pub fn parse(string: &str) -> (result: Option<Move>)
        ensures
            result == move_of(string@),
    {
        let count: usize = string.unicode_len();
        if count == 0 {
            return None;
        }
        let direction = match Direction::from_letter(string.get_char(0)) {
            Some(direction) => direction,
            None => {
                return None;
            },
        };
        assert(string@.subrange(1, count as int) =~= string@.skip(1));
        match parse_i32(string, 1, count) {
            Some(length) => Some(Move { direction: direction, length: length }),
            None => None,
        }
    }

    /// Reads a move from text that writes one.
    pub fn from(string: String) -> (result: Move)
        requires
            move_of(string@) is Some,
        ensures
            Some(result) == move_of(string@),
    {
        Move::parse(string.as_str()).unwrap()
    }

    /// Whether the move is of length 0 or more and can be made from
    /// `position`.
    pub fn can_start_at(&self, position: Position) -> (result: bool)
        ensures
            result == (self.length >= 0 && self.fits(position.point())),
    {
        if self.length < 0 || self.length == i32::MAX {
            return false;
        }
        match self.direction {
            Direction::Up => position.y.checked_add(self.length).is_some(),
            Direction::Down => position.y.checked_sub(self.length).is_some(),
            Direction::Right => position.x.checked_add(self.length).is_some(),
            Direction::Left => position.x.checked_sub(self.length).is_some(),
        }
    }

    /// The points that the move passes from `start`: the start itself,
    /// then one for each step. A move of negative length passes none.
    pub open spec fn points_from(self, start: (int, int)) -> Seq<(int, int)> {
        Seq::new(
            if self.length < 0 {
                0nat
            } else {
                (self.length + 1) as nat
            },
            |steps: int| offset(start, self.direction, steps),
        )
    }

    /// Whether the move can be made from `start`: its length is below the
    /// largest `i32`, and it ends on the grid.
    pub open spec fn fits(self, start: (int, int)) -> bool {
        &&& self.length < i32::MAX
        &&& on_grid(start)
        &&& self.length >= 0 ==> on_grid(offset(start, self.direction, self.length as int))
    }

    /// The positions that the move passes from `position`, this one
    /// first.
    pub fn execute_from(&self, position: Position) -> (res: Vec<Position>)
        requires
            self.fits(position.point()),
        ensures
            points_of(res@) == self.points_from(position.point()),
    {
        let mut res: Vec<Position> = Vec::new();
        let mut i: i32 = 0;
        while i <= self.length
            invariant
                self.fits(position.point()),
                0 <= i,
                i <= self.length + 1 || (self.length < 0 && i == 0),
                res@.len() == i,
                forall|steps: int|
                    0 <= steps < i ==> (#[trigger] res@[steps]).point() == offset(
                        position.point(),
                        self.direction,
                        steps,
                    ),
            decreases self.length + 1 - i,
        {
            let new_position = match self.direction {
                Direction::Up => Position { x: position.x, y: position.y + i },
                Direction::Down => Position { x: position.x, y: position.y - i },
                Direction::Right => Position { x: position.x + i, y: position.y },
                Direction::Left => Position { x: position.x - i, y: position.y },
            };
            res.push(new_position);
            i += 1;
        }
        assert(points_of(res@) =~= self.points_from(position.point()));
        return res;
    }
}

/// The points of the wire that starts at the origin and makes the moves
/// one after the other; the point where one move ends and the next begins
/// is there once.
pub open spec fn trace(moves: Seq<Move>) -> Seq<(int, int)>
    decreases moves.len(),
{
    if moves.len() == 0 {
        seq![(0int, 0int)]
    } else {
        let before = trace(moves.drop_last());
        before.drop_last() + moves.last().points_from(before.last())
    }
}

/// Whether every move is at least of length 0 and can be made from where
/// the moves before it end.
pub open spec fn traceable(moves: Seq<Move>) -> bool {
    forall|count: int|
        0 <= count < moves.len() ==> (#[trigger] moves[count]).length >= 0 && moves[count].fits(
            trace(moves.take(count)).last(),
        )
}

/// A wire always has a point, and after moves of length 0 or more it ends
/// where the last move ends.
pub proof fn lemma_trace_is_not_empty(moves: Seq<Move>)
    requires
        forall|count: int| 0 <= count < moves.len() ==> (#[trigger] moves[count]).length >= 0,
    ensures
        trace(moves).len() >= 1,
    decreases moves.len(),
{
    if moves.len() > 0 {
        assert forall|count: int| 0 <= count < moves.drop_last().len() implies (
        #[trigger] moves.drop_last()[count]).length >= 0 by {
            assert(moves.drop_last()[count] == moves[count]);
        }
        lemma_trace_is_not_empty(moves.drop_last());
    }
}

/// A wire: the positions it passes, in order.
#[derive(Debug, PartialEq, Eq)]
pub struct Wire {
    pub path: Vec<Position>,
}

impl Wire {
    /// Lays the wire from the origin along the moves; `None` where a move
    /// is of negative length or leaves the grid.
    pub fn lay(moves: &Vec<Move>) -> (result: Option<Wire>)
        ensures
            result is Some <==> traceable(moves@),
            match result {
                Some(wire) => points_of(wire.path@) == trace(moves@),
                None => true,
            },
    {
        let mut path: Vec<Position> = Vec::new();
        let start: Position = Position { x: 0, y: 0 };
        path.push(start);
        let mut i: usize = 0;
        assert(moves@.take(0) =~= Seq::<Move>::empty());
        assert(points_of(path@) =~= trace(moves@.take(0)));
        while i < moves.len()
            invariant
                i <= moves@.len(),
                forall|count: int|
                    0 <= count < i ==> (#[trigger] moves@[count]).length >= 0
                        && moves@[count].fits(trace(moves@.take(count)).last()),
                points_of(path@) == trace(moves@.take(i as int)),
            decreases moves@.len() - i,
        {
            proof {
                assert forall|count: int| 0 <= count < moves@.take(i as int).len() implies (
                #[trigger] moves@.take(i as int)[count]).length >= 0 by {
                    assert(moves@.take(i as int)[count] == moves@[count]);
                }
                lemma_trace_is_not_empty(moves@.take(i as int));
                assert(points_of(path@).len() == path@.len());
                assert(moves@.take(i + 1).drop_last() =~= moves@.take(i as int));
                assert(moves@.take(i + 1).last() == moves@[i as int]);
            }
            let ghost before = path@;
            let last_position = path.pop().unwrap();
            assert(last_position.point() == points_of(before).last());
            if !moves[i].can_start_at(last_position) {
                return None;
            }
            let mut new_positions: Vec<Position> = moves[i].execute_from(last_position);
            path.append(&mut new_positions);
            assert(points_of(path@) =~= points_of(before).drop_last()
                + moves@[i as int].points_from(last_position.point()));
            i += 1;
        }
        assert(moves@.take(i as int) =~= moves@);
        return Some(Wire { path: path });
    }

    /// Lays the wire from the origin along moves that stay on the grid.
    pub fn from(moves: Vec<Move>) -> (wire: Wire)
        requires
            traceable(moves@),
        ensures
            points_of(wire.path@) == trace(moves@),
    {
        Wire::lay(&moves).unwrap()
    }
}

/// The first index at which `path` holds `position`.
#[verifier::opaque]
pub open spec fn first_index(path: Seq<Position>, position: Position) -> int {
    choose|at: int|
        0 <= at < path.len() && path[at] == position && forall|earlier: int|
            0 <= earlier < at ==> path[earlier] != position
}

/// Where `path` holds `position`, its first index is an index that holds
/// it, and none before does.
pub proof fn lemma_first_index(path: Seq<Position>, position: Position)
    requires
        path.contains(position),
    ensures
        0 <= first_index(path, position) < path.len(),
        path[first_index(path, position)] == position,
        forall|earlier: int|
            0 <= earlier < first_index(path, position) ==> path[earlier] != position,
    decreases path.len(),
{
    reveal(first_index);
    let some = choose|at: int| 0 <= at < path.len() && path[at] == position;
    lemma_least_index(path, position, some);
}

/// Below any index that holds `position` there is a least one.
pub proof fn lemma_least_index(path: Seq<Position>, position: Position, at: int)
    requires
        0 <= at < path.len(),
        path[at] == position,
    ensures
        exists|least: int|
            0 <= least <= at && path[least] == position && forall|earlier: int|
                0 <= earlier < least ==> path[earlier] != position,
    decreases at,
{
    if exists|before: int| 0 <= before < at && path[before] == position {
        let before = choose|before: int| 0 <= before < at && path[before] == position;
        lemma_least_index(path, position, before);
    }
}

/// Looks for `position` along `path`: the first index that holds it.
pub fn position_in(path: &Vec<Position>, position: Position) -> (found: Option<usize>)
    ensures
        match found {
            Some(at) => path@.contains(position) && at == first_index(path@, position) && at
                < path@.len() && path@[at as int] == position,
            None => !path@.contains(position),
        },
{
    let mut at: usize = 0;
    while at < path.len()
        invariant
            at <= path@.len(),
            forall|earlier: int| 0 <= earlier < at ==> path@[earlier] != position,
        decreases path@.len() - at,
    {
        if path[at] == position {
            proof {
                reveal(first_index);
                let chosen = first_index(path@, position);
                assert(0 <= chosen < path@.len() && path@[chosen] == position && forall|
                    earlier: int,
                | 0 <= earlier < chosen ==> path@[earlier] != position);
            }
            return Some(at);
        }
        at += 1;
    }
    None
}

/// The panel: its central port and the wires laid on it, of which the
/// first two are looked at.
#[derive(Debug, PartialEq, Eq)]
pub struct Panel {
    pub central_port_position: Position,
    pub wires: Vec<Wire>,
}

impl Panel {
    /// The positions of the first wire, in its order and as often as it
    /// passes them, that the second wire passes too and that are not the
    /// central port.
    pub open spec fn intersections(self) -> Seq<Position> {
        self.wires@[0].path@.filter(
            |position: Position|
                self.wires@[1].path@.contains(position) && position != self.central_port_position,
        )
    }

    /// The length of both wires together up to `position`, each to where
    /// it first passes it.
    pub open spec fn combined_steps(self, position: Position) -> int {
        first_index(self.wires@[0].path@, position) + first_index(self.wires@[1].path@, position)
    }

    /// Whether the panel has two wires that cross, and the distance from
    /// the central port to each crossing fits in a `u32`.
    pub open spec fn measurable(self) -> bool {
        &&& self.wires@.len() >= 2
        &&& self.intersections().len() >= 1
        &&& forall|at: int|
            0 <= at < self.intersections().len() ==> self.central_port_position.distance_spec(
                #[trigger] self.intersections()[at],
            ) <= u32::MAX
    }

    /// Whether the panel has two wires whose lengths together fit in a
    /// `u32`.
    pub open spec fn walkable(self) -> bool {
        &&& self.wires@.len() >= 2
        &&& self.wires@[0].path@.len() + self.wires@[1].path@.len() <= u32::MAX
    }

    /// Whether both of the first two wires pass `position`.
    pub open spec fn passes_twice(self, position: Position) -> bool {
        self.wires@[0].path@.contains(position) && self.wires@[1].path@.contains(position)
    }

    /// The length of both wires together up to a position that both pass.
    pub fn steps_to(&self, position: Position) -> (steps: u32)
        requires
            self.wires@.len() >= 2,
            self.wires@[0].path@.len() + self.wires@[1].path@.len() <= u32::MAX,
            self.passes_twice(position),
        ensures
            steps == self.combined_steps(position),
    {
        let wire1_length: usize = position_in(&self.wires[0].path, position).unwrap();
        let wire2_length: usize = position_in(&self.wires[1].path, position).unwrap();
        (wire1_length + wire2_length) as u32
    }

    /// Whether `part1` can be asked of this panel.
    pub fn is_measurable(&self) -> (result: bool)
        ensures
            result == self.measurable(),
    {
        if self.wires.len() < 2 {
            return false;
        }
        let points = self.get_intersection_points();
        if points.len() == 0 {
            return false;
        }
        let mut i: usize = 0;
        while i < points.len()
            invariant
                i <= points@.len(),
                points@ == self.intersections(),
                self.wires@.len() >= 2,
                forall|at: int|
                    0 <= at < i ==> self.central_port_position.distance_spec(#[trigger] points@[at])
                        <= u32::MAX,
            decreases points@.len() - i,
        {
            if !self.central_port_position.distance_fits(points[i]) {
                assert(self.central_port_position.distance_spec(self.intersections()[i as int])
                    > u32::MAX);
                return false;
            }
            i += 1;
        }
        true
    }

    /// Whether `part2` can be asked of this panel.
    pub fn is_walkable(&self) -> (result: bool)
        ensures
            result == self.walkable(),
    {
        if self.wires.len() < 2 {
            return false;
        }
        let first: usize = self.wires[0].path.len();
        let second: usize = self.wires[1].path.len();
        first <= 4294967295 && second <= 4294967295 - first
    }

    /// Where the first wire crosses the second, the central port left
    /// out.
    pub fn get_intersection_points(&self) -> (res: Vec<Position>)
        requires
            self.wires@.len() >= 2,
        ensures
            res@ == self.intersections(),
    {
        let mut res: Vec<Position> = Vec::new();
        let path1 = &self.wires[0].path;
        let path2 = &self.wires[1].path;
        let ghost kept = |position: Position|
            self.wires@[1].path@.contains(position) && position != self.central_port_position;
        let mut i: usize = 0;
        proof {
            reveal(Seq::filter);
        }
        while i < path1.len()
            invariant
                self.wires@.len() >= 2,
                path1@ == self.wires@[0].path@,
                path2@ == self.wires@[1].path@,
                i <= path1@.len(),
                kept == |position: Position|
                    self.wires@[1].path@.contains(position) && position
                        != self.central_port_position,
                res@ == path1@.take(i as int).filter(kept),
            decreases path1@.len() - i,
        {
            let position: Position = path1[i];
            proof {
                reveal(Seq::filter);
                assert(path1@.take(i + 1).drop_last() =~= path1@.take(i as int));
                assert(path1@.take(i + 1).last() == position);
            }
            if position_in(path2, position).is_some() && position != self.central_port_position {
                res.push(position);
            }
            i += 1;
        }
        assert(path1@.take(i as int) =~= path1@);
        return res;
    }
}

/// The least distance from the central port to a crossing of the wires.
pub fn part1(panel: &Panel) -> (shortest: u32)
    requires
        panel.measurable(),
    ensures
        exists|at: int|
            0 <= at < panel.intersections().len() && shortest
                == panel.central_port_position.distance_spec(#[trigger] panel.intersections()[at]),
        forall|at: int|
            0 <= at < panel.intersections().len() ==> shortest
                <= panel.central_port_position.distance_spec(#[trigger] panel.intersections()[at]),
{
    let intersection_points = panel.get_intersection_points();
    let mut shortest_manhattan_distance: u32 = panel.central_port_position.manhattan_distance(
        intersection_points[0],
    );
    let ghost mut best: int = 0;
    let mut i: usize = 0;
    while i < intersection_points.len()
        invariant
            i <= intersection_points@.len(),
            intersection_points@ == panel.intersections(),
            forall|at: int|
                0 <= at < panel.intersections().len()
                    ==> panel.central_port_position.distance_spec(
                    #[trigger] panel.intersections()[at],
                ) <= u32::MAX,
            0 <= best < intersection_points@.len(),
            shortest_manhattan_distance == panel.central_port_position.distance_spec(
                intersection_points@[best],
            ),
            forall|at: int|
                0 <= at < i ==> shortest_manhattan_distance
                    <= panel.central_port_position.distance_spec(
                    #[trigger] intersection_points@[at],
                ),
        decreases intersection_points@.len() - i,
    {
        let position: Position = intersection_points[i];
        let manhattan_distance: u32 = panel.central_port_position.manhattan_distance(position);
        if shortest_manhattan_distance > manhattan_distance {
            shortest_manhattan_distance = manhattan_distance;
            proof {
                best = i as int;
            }
        }
        i += 1;
    }
    assert(shortest_manhattan_distance == panel.central_port_position.distance_spec(
        panel.intersections()[best],
    ));
    return shortest_manhattan_distance;
}

/// The least length of both wires together up to a crossing; the largest
/// `u32` where they never cross.
pub fn part2(panel: &Panel) -> (shortest: u32)
    requires
        panel.walkable(),
    ensures
        panel.intersections().len() == 0 ==> shortest == u32::MAX,
        panel.intersections().len() > 0 ==> exists|at: int|
            0 <= at < panel.intersections().len() && shortest == panel.combined_steps(
                #[trigger] panel.intersections()[at],
            ),
        forall|at: int|
            0 <= at < panel.intersections().len() ==> shortest <= panel.combined_steps(
                #[trigger] panel.intersections()[at],
            ),
{
    let intersection_points = panel.get_intersection_points();
    let mut shortest_length: u32 = u32::MAX;
    let ghost mut best: Option<int> = None;
    let mut i: usize = 0;
    assert forall|at: int| 0 <= at < intersection_points@.len() implies panel.passes_twice(
        #[trigger] intersection_points@[at],
    ) by {
        lemma_crossing_is_on_both(*panel, at);
    }
    while i < intersection_points.len()
        invariant
            panel.wires@.len() >= 2,
            panel.wires@[0].path@.len() + panel.wires@[1].path@.len() <= u32::MAX,
            i <= intersection_points@.len(),
            forall|at: int|
                0 <= at < intersection_points@.len() ==> panel.passes_twice(
                    #[trigger] intersection_points@[at],
                ),
            match best {
                Some(at) => 0 <= at < i && shortest_length == panel.combined_steps(
                    intersection_points@[at],
                ),
                None => shortest_length == u32::MAX,
            },
            forall|at: int|
                0 <= at < i ==> shortest_length <= #[trigger] panel.combined_steps(
                    intersection_points@[at],
                ) <= u32::MAX,
        decreases intersection_points@.len() - i,
    {
        let intersection: Position = intersection_points[i];
        let wires_length: u32 = panel.steps_to(intersection);
        if shortest_length > wires_length {
            shortest_length = wires_length;
            proof {
                best = Some(i as int);
            }
        }
        i += 1;
    }
    proof {
        if best is None && intersection_points@.len() > 0 {
            assert(shortest_length == panel.combined_steps(intersection_points@[0]));
        }
    }
    return shortest_length;
}

/// Every crossing lies on both wires.
pub proof fn lemma_crossing_is_on_both(panel: Panel, at: int)
    requires
        panel.wires@.len() >= 2,
        0 <= at < panel.intersections().len(),
    ensures
        panel.wires@[0].path@.contains(panel.intersections()[at]),
        panel.wires@[1].path@.contains(panel.intersections()[at]),
        panel.intersections()[at] != panel.central_port_position,
{
    let kept = |position: Position|
        panel.wires@[1].path@.contains(position) && position != panel.central_port_position;
    let path = panel.wires@[0].path@;
    path.lemma_filter_pred(kept, at);
    path.lemma_filter_contains_rev(kept, panel.intersections()[at]);
}

/// Reads the moves of one line; `None` where a field writes none.
pub fn parse_moves(line: &str) -> (result: Option<Vec<Move>>)
    ensures
        match (result, moves_of(line@)) {
            (Some(moves), Some(expected)) => moves@ == expected,
            (None, None) => true,
            _ => false,
        },
{
    let ranges = split_ranges(line, ',');
    let ghost found = fields(line@, ',');
    let mut moves: Vec<Move> = Vec::new();
    let mut k: usize = 0;
    while k < ranges.len()
        invariant
            k <= ranges@.len(),
            found == fields(line@, ','),
            ranges_of_fields(line@, ranges@, found),
            moves@.len() == k,
            forall|j: int| 0 <= j < k ==> move_of(#[trigger] found[j]) == Some(moves@[j]),
        decreases ranges@.len() - k,
    {
        let range: (usize, usize) = ranges[k];
        match Move::parse(line.substring_char(range.0, range.1)) {
            Some(one) => {
                moves.push(one);
            },
            None => {
                assert(move_of(found[k as int]) is None);
                return None;
            },
        }
        k += 1;
    }
    assert(moves@ =~= Seq::new(found.len(), |j: int| move_of(found[j]).unwrap()));
    Some(moves)
}

/// The moves of the first two wires that `s` writes: a wire on each line,
/// at least two lines, every line made of moves, and the first two wires
/// on the grid.
pub open spec fn wiring_of(s: Seq<char>) -> Option<(Seq<Move>, Seq<Move>)> {
    let lines = lines_of(s);
    if lines.len() >= 2 && (forall|k: int|
        0 <= k < lines.len() ==> moves_of(#[trigger] lines[k]) is Some) && traceable(
        moves_of(lines[0]).unwrap(),
    ) && traceable(moves_of(lines[1]).unwrap()) {
        Some((moves_of(lines[0]).unwrap(), moves_of(lines[1]).unwrap()))
    } else {
        None
    }
}

/// Reads the panel: the central port at the origin and the first two
/// wires of the text. `None` where the text writes no such wiring.
pub fn parse_input_day3(input: &str) -> (result: Option<Panel>)
    ensures
        result is Some <==> wiring_of(input@) is Some,
        match (result, wiring_of(input@)) {
            (Some(panel), Some((first, second))) => {
                &&& panel.central_port_position == (Position { x: 0, y: 0 })
                &&& panel.wires@.len() == 2
                &&& points_of(panel.wires@[0].path@) == trace(first)
                &&& points_of(panel.wires@[1].path@) == trace(second)
            },
            _ => true,
        },
{
    let ranges = line_ranges(input);
    let ghost lines = lines_of(input@);
    let mut moves: Vec<Vec<Move>> = Vec::new();
    let mut k: usize = 0;
    while k < ranges.len()
        invariant
            k <= ranges@.len(),
            lines == lines_of(input@),
            ranges_of_fields(input@, ranges@, lines),
            moves@.len() == k,
            forall|j: int| 0 <= j < k ==> moves_of(#[trigger] lines[j]) == Some(moves@[j]@),
        decreases ranges@.len() - k,
    {
        let range: (usize, usize) = ranges[k];
        match parse_moves(input.substring_char(range.0, range.1)) {
            Some(line_moves) => {
                moves.push(line_moves);
            },
            None => {
                assert(moves_of(lines[k as int]) is None);
                return None;
            },
        }
        k += 1;
    }
    if moves.len() < 2 {
        return None;
    }
    assert(moves_of(lines[0]) == Some(moves@[0]@));
    assert(moves_of(lines[1]) == Some(moves@[1]@));
    let mut wires: Vec<Wire> = Vec::new();
    match Wire::lay(&moves[0]) {
        Some(wire) => {
            wires.push(wire);
        },
        None => {
            return None;
        },
    }
    match Wire::lay(&moves[1]) {
        Some(wire) => {
            wires.push(wire);
        },
        None => {
            return None;
        },
    }
    let panel = Panel { central_port_position: Position { x: 0, y: 0 }, wires: wires };
    return Some(panel);
}

} // verus!
