use crate::grid::{
    generate_random_position, in_universe, lemma_pos_key_injective, pos_key, position_key,
    GridConfig, Position,
};
use crate::rng::random_below;
use std::collections::HashSet;
use vstd::prelude::*;

verus! {

broadcast use vstd::std_specs::hash::group_hash_axioms;

/// A heading on the grid. The origin is the board's top-left corner, so
/// `Up` decreases y and `Down` increases it.
#[derive(Clone, Copy, PartialEq, Eq, Structural, Debug)]
pub enum Direction {
    Up,
    Down,
    Left,
    Right,
}

/// Whether `b` is the exact 180-degree reversal of `a`.
pub open spec fn opposite(a: Direction, b: Direction) -> bool {
    ||| (a is Up && b is Down)
    ||| (a is Down && b is Up)
    ||| (a is Left && b is Right)
    ||| (a is Right && b is Left)
}

/// The 180-degree turn filter: a new heading conflicts with the previous
/// one exactly when it reverses it; the three other headings — the current
/// one included — do not conflict.
pub fn is_direction_conflict(prev_direction: &Direction, new_direction: Direction) -> (r: bool)
    ensures
        r == opposite(*prev_direction, new_direction),
{
    match (prev_direction, new_direction) {
        (Direction::Up, Direction::Down) => true,
        (Direction::Down, Direction::Up) => true,
        (Direction::Left, Direction::Right) => true,
        (Direction::Right, Direction::Left) => true,
        _ => false,
    }
}

/// Law: a heading never conflicts with itself, and a conflict is mutual.
pub proof fn lemma_conflict_is_reversal(a: Direction, b: Direction)
    ensures
        !opposite(a, a),
        opposite(a, b) == opposite(b, a),
{
}

/// The four headings by index, for sampling a random heading from a
/// draw in 0 to 3; any larger index also maps to `Right`.
pub fn direction_from_index(k: usize) -> (d: Direction)
    ensures
        k == 0 ==> d is Up,
        k == 1 ==> d is Down,
        k == 2 ==> d is Left,
        3 <= k ==> d is Right,
{
    match k {
        0 => Direction::Up,
        1 => Direction::Down,
        2 => Direction::Left,
        _ => Direction::Right,
    }
}

/// The cell one step from `p` in direction `d`, for cell size `s`.
pub open spec fn step_from(p: Position, d: Direction, s: i16) -> Position {
    match d {
        Direction::Up => Position { x: p.x, y: (p.y - s) as i16 },
        Direction::Down => Position { x: p.x, y: (p.y + s) as i16 },
        Direction::Left => Position { x: (p.x - s) as i16, y: p.y },
        Direction::Right => Position { x: (p.x + s) as i16, y: p.y },
    }
}

/// Coordinates from which one more step stays within `i16`: anywhere on
/// the board or up to one cell off it. Every head the game can reach while
/// running lies strictly inside the board, hence in this region.
pub open spec fn in_step_range(c: GridConfig, p: Position) -> bool {
    &&& -c.cell_size <= p.x
    &&& p.x <= c.width
    &&& -c.cell_size <= p.y
    &&& p.y <= c.height
}

/// The set of membership keys of the cells of a body sequence.
pub open spec fn seq_keys(s: Seq<Position>) -> Set<u32> {
    Set::new(|k: u32| exists|i: int| 0 <= i < s.len() && pos_key(s[i]) == k)
}

/// Law: through key injectivity, the key set of a body speaks for its
/// cells exactly.
pub proof fn lemma_seq_keys_contains(s: Seq<Position>, p: Position)
    ensures
        seq_keys(s).contains(pos_key(p)) <==> s.contains(p),
{
    if seq_keys(s).contains(pos_key(p)) {
        let i = choose|i: int| 0 <= i < s.len() && pos_key(s[i]) == pos_key(p);
        lemma_pos_key_injective(s[i], p);
        assert(s.contains(p));
    }
    if s.contains(p) {
        let i = choose|i: int| 0 <= i < s.len() && s[i] == p;
        assert(pos_key(s[i]) == pos_key(p));
        assert(seq_keys(s).contains(pos_key(p)));
    }
}

/// The body sequence after one move into cell `h`: the new head in front;
/// a non-growing move drops the tail cell.
pub open spec fn moved_body(b: Seq<Position>, h: Position, grow: bool) -> Seq<Position> {
    seq![h] + (if grow {
        b
    } else {
        b.drop_last()
    })
}

/// The membership set after one move into cell `h`: on a non-growing move
/// the old tail's key leaves first, then the new head's key enters.
pub open spec fn moved_key_set(ks: Set<u32>, b: Seq<Position>, h: Position, grow: bool) -> Set<
    u32,
> {
    if grow {
        ks.insert(pos_key(h))
    } else {
        ks.remove(pos_key(b.last())).insert(pos_key(h))
    }
}

/// The player-controlled segmented body: the cell sequence (head first), a
/// mirrored key set for constant-time membership tests, and the current
/// heading.
pub struct Snake {
    pub body: Vec<Position>,
    pub body_set: HashSet<u32>,
    pub direction: Direction,
}

impl Snake {
    /// The cell the head will occupy after the next move.
    pub open spec fn next_head(self, c: GridConfig) -> Position {
        step_from(self.body@[0], self.direction, c.cell_size)
    }

    /// Well-formed snake: a non-empty body, no cell occupied twice, and
    /// the membership set holding exactly the body's cells.
    pub open spec fn wf(self) -> bool {
        &&& 1 <= self.body@.len()
        &&& (forall|i: int, j: int|
            0 <= i < j < self.body@.len() ==> self.body@[i] != self.body@[j])
        &&& self.body_set@ == seq_keys(self.body@)
    }

    /// A one-segment snake on an explicitly chosen cell with an explicit
    /// heading. The random spawn builds on this, and so can a caller that
    /// decides its own spawn-placement policy.
    pub fn with_initial(init_position: Position, init_direction: Direction) -> (s: Snake)
        ensures
            s.wf(),
            s.body@ == seq![init_position],
            s.direction == init_direction,
    {
        let mut body_vec: Vec<Position> = Vec::new();
        let mut body_hashset: HashSet<u32> = HashSet::new();
        body_vec.push(init_position);
        body_hashset.insert(position_key(&init_position));
        let s = Snake { body: body_vec, body_set: body_hashset, direction: init_direction };
        proof {
            assert(s.body@[0] == init_position);
            assert(seq_keys(s.body@).contains(pos_key(init_position)));
            assert(s.body_set@ =~= seq_keys(s.body@));
        }
        s
    }

    /// A new one-segment snake on a random universe cell, headed in a
    /// random direction.
    pub fn new(config: &GridConfig) -> (s: Snake)
        requires
            config.wf(),
        ensures
            s.wf(),
            s.body@.len() == 1,
            in_universe(*config, s.body@[0]),
    {
        let init_direction = direction_from_index(random_below(4));
        let init_position = generate_random_position(config);
        Snake::with_initial(init_position, init_direction)
    }

    /// The head cell: the foremost body segment.
    pub fn head(&self) -> (r: &Position)
        requires
            1 <= self.body@.len(),
        ensures
            *r == self.body@[0],
    {
        &self.body[0]
    }

    /// Advances the snake one cell along its current heading. The new head
    /// goes in front; a non-growing move drops the tail from the sequence
    /// and from the membership set, so the length is preserved, while a
    /// growing move keeps the tail and lengthens the body by exactly one.
    pub fn move_forward(&mut self, config: &GridConfig, grow: bool)
        requires
            config.wf(),
            1 <= old(self).body@.len(),
            in_step_range(*config, old(self).body@[0]),
        ensures
            final(self).direction == old(self).direction,
            final(self).body@ == moved_body(
                old(self).body@,
                old(self).next_head(*config),
                grow,
            ),
            final(self).body_set@ == moved_key_set(
                old(self).body_set@,
                old(self).body@,
                old(self).next_head(*config),
                grow,
            ),
            grow ==> final(self).body@.len() == old(self).body@.len() + 1,
            !grow ==> final(self).body@.len() == old(self).body@.len(),
    {
        proof {
            assert(2 * config.cell_size <= i16::MAX);
        }
        let s = config.cell_size;
        let head = self.body[0];
        let new_head = match self.direction {
            Direction::Up => Position { x: head.x, y: head.y - s },
            Direction::Down => Position { x: head.x, y: head.y + s },
            Direction::Left => Position { x: head.x - s, y: head.y },
            Direction::Right => Position { x: head.x + s, y: head.y },
        };
        if !grow {
            if let Some(tail) = self.body.pop() {
                let tk = position_key(&tail);
                self.body_set.remove(&tk);
            }
        }
        self.body.insert(0, new_head);
        let hk = position_key(&new_head);
        self.body_set.insert(hk);
    }
}

/// Law: a tick's move keeps the body sequence and the membership set in
/// exact sync — the same cells, none of them twice — whenever the move is
/// not a self-collision (a self-collision ends the game on that tick, so
/// every snake of a running game is well-formed). `h` is the cell the head
/// moves into.
pub proof fn lemma_move_preserves_sync(pre: Snake, post: Snake, h: Position, grow: bool)
    requires
        pre.wf(),
        post.body@ == moved_body(pre.body@, h, grow),
        post.body_set@ == moved_key_set(pre.body_set@, pre.body@, h, grow),
        !post.body@.drop_first().contains(h),
    ensures
        post.wf(),
{
    let b = pre.body@;
    let rest = if grow {
        b
    } else {
        b.drop_last()
    };
    assert(post.body@.drop_first() =~= rest);
    assert forall|i: int, j: int|
        0 <= i < j < post.body@.len() implies post.body@[i] != post.body@[j] by {
        if i == 0 {
            assert(rest[j - 1] == post.body@[j]);
            assert(rest.contains(rest[j - 1]));
        }
    }
    assert forall|k: u32| post.body_set@.contains(k) implies seq_keys(post.body@).contains(
        k,
    ) by {
        if k == pos_key(h) {
            assert(pos_key(post.body@[0]) == k);
        } else {
            let i = choose|i: int| 0 <= i < b.len() && pos_key(b[i]) == k;
            if grow {
                assert(pos_key(post.body@[i + 1]) == k);
            } else {
                if i == b.len() - 1 {
                    assert(k == pos_key(b.last()));
                    assert(!post.body_set@.contains(k));
                } else {
                    assert(pos_key(post.body@[i + 1]) == k);
                }
            }
        }
    }
    assert forall|k: u32| seq_keys(post.body@).contains(k) implies post.body_set@.contains(
        k,
    ) by {
        let i = choose|i: int| 0 <= i < post.body@.len() && pos_key(post.body@[i]) == k;
        if i == 0 {
            assert(k == pos_key(h));
        } else {
            let p = post.body@[i];
            assert(p == rest[i - 1]);
            assert(pos_key(b[if grow {
                i - 1
            } else {
                i - 1
            }]) == k);
            assert(pre.body_set@.contains(k));
            if !grow {
                // p is not the dropped tail: it sits strictly before the
                // last index, and the body has no duplicate cells.
                if k == pos_key(b.last()) {
                    lemma_pos_key_injective(p, b.last());
                    assert(b[i - 1] == b[b.len() - 1]);
                    assert(false);
                }
            }
        }
    }
    assert(post.body_set@ =~= seq_keys(post.body@));
}

} // verus!
