use crate::grid::{
    generate_random_position, in_universe, pos_key, position_key, GridConfig, Position,
};
use crate::rng::random_below;
use std::collections::HashSet;
use vstd::prelude::*;

verus! {

broadcast use vstd::std_specs::hash::group_hash_axioms;

/// The single food item: the cell it currently occupies.
pub struct Food {
    pub position: Position,
}

impl Food {
    /// A food item on a uniformly random cell of the grid universe. The
    /// initial placement does not avoid the snake's spawn cell: the first
    /// tick treats an immediate overlap as an ordinary meal.
    pub fn new(config: &GridConfig) -> (f: Food)
        requires
            config.wf(),
        ensures
            in_universe(*config, f.position),
    {
        let init_position = generate_random_position(config);
        Food { position: init_position }
    }

    /// Picks a new food cell: a uniformly random element of the set
    /// difference between the full cell universe and the currently
    /// occupied cells (given by their membership keys). Returns nothing
    /// exactly when no free cell is left, which signals the win condition
    /// upstream. The universe itself is only read.
    pub fn refresh_position(
        &self,
        all_positions: &Vec<Position>,
        invalid_positions: &HashSet<u32>,
    ) -> (r: Option<Position>)
        ensures
            r is None <==> (forall|i: int|
                0 <= i < all_positions@.len() ==> invalid_positions@.contains(
                    pos_key(#[trigger] all_positions@[i]),
                )),
            (r matches Some(p) ==> all_positions@.contains(p) && !invalid_positions@.contains(
                pos_key(p),
            )),
    {
        let mut available: Vec<Position> = Vec::new();
        let mut idx: usize = 0;
        while idx < all_positions.len()
            invariant
                idx <= all_positions@.len(),
                forall|k: int|
                    0 <= k < available@.len() ==> all_positions@.contains(
                        #[trigger] available@[k],
                    ) && !invalid_positions@.contains(pos_key(available@[k])),
                forall|i: int|
                    0 <= i < idx ==> invalid_positions@.contains(
                        pos_key(#[trigger] all_positions@[i]),
                    ) || available@.contains(all_positions@[i]),
            decreases all_positions@.len() - idx,
        {
            let p = all_positions[idx];
            let k = position_key(&p);
            let ghost pre_av = available@;
            let occupied = invalid_positions.contains(&k);
            if !occupied {
                available.push(p);
            }
            proof {
                assert forall|i: int|
                    0 <= i <= idx implies invalid_positions@.contains(
                        pos_key(#[trigger] all_positions@[i]),
                    ) || available@.contains(all_positions@[i]) by {
                    if i == idx {
                        if !occupied {
                            assert(available@.last() == p);
                            assert(available@.contains(p));
                        }
                    } else if !invalid_positions@.contains(pos_key(all_positions@[i])) {
                        let kk = choose|kk: int|
                            0 <= kk < pre_av.len() && pre_av[kk] == all_positions@[i];
                        assert(available@[kk] == all_positions@[i]);
                        assert(available@.contains(all_positions@[i]));
                    }
                }
            }
            idx += 1;
        }
        if available.len() == 0 {
            None
        } else {
            proof {
                let p0 = available@[0];
                assert(all_positions@.contains(p0));
                let i = choose|i: int|
                    0 <= i < all_positions@.len() && all_positions@[i] == p0;
                assert(!invalid_positions@.contains(pos_key(all_positions@[i])));
            }
            let pick = random_below(available.len());
            Some(available[pick])
        }
    }
}

} // verus!
