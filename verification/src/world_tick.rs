//! One tick of the world's fluids: every expando spills, then every fountain
//! waters its pool.

use vstd::prelude::*;
use crate::options::Options;
use crate::expando::{expando_tickable, expando_ticked, tick_expando, expando_fires};
use crate::fountain::{fountain_tickable, fountain_ticked, tick_fountain};
use crate::world::World;

verus! {

/// `ws` runs through `k` expando ticks of a world with `n` expandos, the last
/// expando first.
pub open spec fn expando_chain(o: &Options, ws: Seq<World>, n: int, k: int) -> bool {
    &&& ws.len() == k + 1
    &&& forall|j: int| 0 <= j < k ==> #[trigger] expando_ticked(o, &ws[j], &ws[j + 1], n - 1 - j)
}

/// `ws` runs through `k` fountain ticks of a world with `n` fountains, the last
/// fountain first.
pub open spec fn fountain_chain(o: &Options, ws: Seq<World>, n: int, k: int) -> bool {
    &&& ws.len() == k + 1
    &&& forall|j: int| 0 <= j < k ==> #[trigger] fountain_ticked(o, &ws[j], &ws[j + 1], n - 1 - j)
}

/// A whole world tick from `w` to `w2`: every expando ticked (through `a`), then
/// every fountain (through `b`).
pub open spec fn world_ticked(o: &Options, w: World, w2: World, a: Seq<World>, b: Seq<World>) -> bool {
    &&& a[0] == w
    &&& expando_chain(o, a, w.expandos@.len() as int, w.expandos@.len() as int)
    &&& b[0] == a.last()
    &&& fountain_chain(o, b, w.fountains@.len() as int, w.fountains@.len() as int)
    &&& b.last() == w2
}

/// A world tick from `w` that stopped at `w2` because the next expando or
/// fountain could not tick (see `expando_tickable`, `fountain_tickable`).
pub open spec fn world_tick_stuck(o: &Options, w: World, w2: World, a: Seq<World>, b: Seq<World>) -> bool {
    let ne = w.expandos@.len() as int;
    let nf = w.fountains@.len() as int;
    &&& a[0] == w
    &&& {
        ||| (a.len() <= ne && expando_chain(o, a, ne, a.len() - 1) && a.last() == w2
            && !expando_tickable(&w2, ne - a.len()))
        ||| (expando_chain(o, a, ne, ne) && b[0] == a.last() && b.len() <= nf
            && fountain_chain(o, b, nf, b.len() - 1) && b.last() == w2
            && !fountain_tickable(o, &w2, nf - b.len()))
    }
}

/// Tick every expando, the last first, then every fountain, the last first.
/// Returns whether all could tick; it stops at the first that cannot (see
/// `world_tick_stuck`).
pub fn tick_world(options: &Options, world: &mut World) -> (done: bool)
    requires
        old(world).wf(),
    ensures
        final(world).wf(),
        done ==> exists|a: Seq<World>, b: Seq<World>| #[trigger] world_ticked(options, *old(world), *final(world), a, b),
        !done ==> exists|a: Seq<World>, b: Seq<World>| #[trigger] world_tick_stuck(options, *old(world), *final(world), a, b),
{
    let ghost w0 = *world;
    let ne = world.expandos.len();
    let nf = world.fountains.len();
    let ghost mut a: Seq<World> = seq![w0];
    let mut n = ne;
    while n > 0
        invariant
            n <= ne,
            ne == w0.expandos@.len(),
            nf == w0.fountains@.len(),
            w0 == *old(world),
            world.wf(),
            world.expandos@.len() == ne,
            world.fountains@.len() == nf,
            a[0] == w0,
            expando_chain(options, a, ne as int, (ne - n) as int),
            a.last() == *world,
        decreases n,
    {
        let i = n - 1;
        let e = world.expandos[i];
        if e.ticks_since_last_update == u32::MAX {
            proof {
                assert(!expando_tickable(world, i as int));
                assert(world_tick_stuck(options, w0, *world, a, seq![*world]));
            }
            return false;
        }
        let fires = !(e.ticks_since_last_update + 1 < e.speed || e.volume == 0);
        proof {
            assert(fires == expando_fires(world.expandos@[i as int]));
        }
        if fires && !(world.min_x <= e.x && e.x <= world.max_x && world.min_y <= e.y && e.y <= world.max_y
            && crate::expando::spill_room_exec(world, e.volume)) {
            proof {
                assert(!expando_tickable(world, i as int));
                assert(world_tick_stuck(options, w0, *world, a, seq![*world]));
            }
            return false;
        }
        let ghost before = *world;
        tick_expando(i, world, options);
        proof {
            let a2 = a.push(*world);
            assert forall|j: int| 0 <= j < (ne - n + 1) implies #[trigger] expando_ticked(options, &a2[j], &a2[j + 1], ne - 1 - j) by {
                if j < ne - n {
                    assert(a2[j] == a[j] && a2[j + 1] == a[j + 1]);
                }
            }
            a = a2;
        }
        n = i;
    }
    let ghost mut b: Seq<World> = seq![*world];
    let mut m = nf;
    while m > 0
        invariant
            m <= nf,
            ne == w0.expandos@.len(),
            nf == w0.fountains@.len(),
            w0 == *old(world),
            world.wf(),
            world.fountains@.len() == nf,
            a[0] == w0,
            expando_chain(options, a, ne as int, ne as int),
            b[0] == a.last(),
            fountain_chain(options, b, nf as int, (nf - m) as int),
            b.last() == *world,
        decreases m,
    {
        let i = m - 1;
        if !crate::fountain::fountain_tickable_exec(options, world, i) {
            proof {
                assert(!fountain_tickable(options, world, i as int));
                assert(b.len() == nf - m + 1);
                assert(world_tick_stuck(options, w0, *world, a, b));
            }
            return false;
        }
        tick_fountain(i, world, options);
        proof {
            let b2 = b.push(*world);
            assert forall|j: int| 0 <= j < (nf - m + 1) implies #[trigger] fountain_ticked(options, &b2[j], &b2[j + 1], nf - 1 - j) by {
                if j < nf - m {
                    assert(b2[j] == b[j] && b2[j + 1] == b[j + 1]);
                }
            }
            b = b2;
        }
        m = i;
    }
    proof {
        assert(world_ticked(options, w0, *world, a, b));
    }
    true
}

} // verus!
