//! A falling-sand cellular automaton: chunked pixel storage, per-cell
//! update rules, dirty-rectangle tracking and the grid helpers they share.
use vstd::prelude::*;

pub mod constants;
pub mod vector;
pub mod helpers;
mod random;
pub mod rolls;
pub mod elements;
pub mod cell;
pub mod world;
pub mod materials;
pub mod pixel;
pub mod dirty_rect;
pub mod channel;
pub mod chunk;
pub mod painter;

use crate::world::{World, element_counts, is_pass};

verus! {

/// Prepares a world for a benchmark run. The cells it placed are no longer placed,
/// so the world is left as it is.
pub fn bench_fill(world: &mut World)
    ensures
        *final(world) == *old(world),
{
}

/// Runs `n` passes of the simulation, one after the other.
pub fn bench_number_of_updated(world: &mut World, n: usize)
    requires
        old(world).wf(),
    ensures
        final(world).wf(),
        final(world).spec_width() == old(world).spec_width(),
        final(world).spec_height() == old(world).spec_height(),
        final(world).spec_iter_bit() == (old(world).spec_iter_bit() != (n % 2 == 1)),
        exists|passes: Seq<World>|
            passes.len() == n + 1 && passes[0] == *old(world) && passes.last() == *final(world)
                && forall|i: int| 0 <= i < n ==> is_pass(#[trigger] passes[i], passes[i + 1]),
        element_counts(final(world).spec_cells()) == element_counts(old(world).spec_cells()),
{
    let ghost mut passes: Seq<World> = seq![*world];
    let mut i: usize = 0;
    while i < n
        invariant
            i <= n,
            world.wf(),
            world.spec_width() == old(world).spec_width(),
            world.spec_height() == old(world).spec_height(),
            world.spec_iter_bit() == (old(world).spec_iter_bit() != (i % 2 == 1)),
            passes.len() == i + 1,
            passes[0] == *old(world),
            passes.last() == *world,
            forall|j: int| 0 <= j < i ==> is_pass(#[trigger] passes[j], passes[j + 1]),
            element_counts(world.spec_cells()) == element_counts(old(world).spec_cells()),
        decreases n - i,
    {
        world.forced_update();
        proof {
            let prev = passes;
            passes = passes.push(*world);
            assert forall|j: int| 0 <= j < i + 1 implies is_pass(#[trigger] passes[j], passes[j + 1]) by {
                if j < i {
                    assert(passes[j] == prev[j]);
                    assert(passes[j + 1] == prev[j + 1]);
                }
            }
        }
        i = i + 1;
    }
}

} // verus!
