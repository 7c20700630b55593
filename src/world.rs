//! The population of entities in its arena.
use vstd::prelude::*;

use crate::entity::{
    bounds_in_range, has_fresh_look, hits_x, hits_y, is_tick_of, lemma_tick_without_wall_is_determined, step, with_force, Bounds, Entity,
};
use crate::fixed::{
    abs, div_trunc, in_range, UNIT, lemma_div_trunc_exact, lemma_div_trunc_remainder, lemma_scale_neg,
    scale,
};
use crate::random::random_in;
use crate::vec2::{is_direction, lemma_unit_toward, unit_toward, Vec2};

verus! {

/// One tick of every entity, entity `i` taking `draws[i]` as its intent should
/// it touch a wall.
pub open spec fn tick_all(es: Seq<Entity>, b: Bounds, draws: Seq<Vec2>) -> Seq<Entity> {
    Seq::new(es.len(), |i: int| step(es[i], b, draws[i]))
}

/// `e` after one pass of the focal field: a force of `strength` toward
/// `origin`, or away from it when `inverse`; unchanged when it sits on `origin`.
pub open spec fn focused(e: Entity, origin: Vec2, inverse: bool, strength: int) -> Entity {
    if e.pos == origin {
        e
    } else {
        let toward = unit_toward(e.pos, origin);
        with_force(e, if inverse { toward.neg() } else { toward }, strength)
    }
}

pub open spec fn focus_all(es: Seq<Entity>, origin: Vec2, inverse: bool, strength: int) -> Seq<
    Entity,
> {
    Seq::new(es.len(), |i: int| focused(es[i], origin, inverse, strength))
}

/// `n` carried linearly from the range `start1 .. stop1` onto `start2 .. stop2`,
/// rounded toward `start2`.
pub open spec fn remap(n: int, start1: int, stop1: int, start2: int, stop2: int) -> int {
    start2 + div_trunc((n - start1) * (stop2 - start2), stop1 - start1)
}

/// What a freshly made entity of a world holds: a random place inside the
/// arena, speeds from the given ranges, a random intent pointing into the
/// quarter of positive x and y, and a fresh look.
pub open spec fn is_spawned(e: Entity, accel: (i64, i64), max_speed: (i64, i64), b: Bounds) -> bool {
    &&& b.0 <= e.pos.x < b.2
    &&& b.1 <= e.pos.y < b.3
    &&& e.vel == Vec2 { x: 0, y: 0 }
    &&& accel.0 <= e.speed < accel.1
    &&& max_speed.0 <= e.max_speed < max_speed.1
    &&& UNIT / 2 <= e.target_dir.x < UNIT
    &&& UNIT / 2 <= e.target_dir.y < UNIT
    &&& has_fresh_look(e)
}

/// The owner of all entities and of the arena they live in.
pub struct World {
    entities: Vec<Entity>,
    bounds: Bounds,
}

impl World {
    pub closed spec fn spec_entities(&self) -> Seq<Entity> {
        self.entities@
    }

    pub closed spec fn spec_bounds(&self) -> Bounds {
        self.bounds
    }

    pub open spec fn wf(&self) -> bool {
        &&& bounds_in_range(self.spec_bounds())
        &&& forall|i: int| 0 <= i < self.spec_entities().len() ==> #[trigger] self.spec_entities()[i].wf()
    }

    /// `num_entities` entities at random places in `bounds`, their
    /// acceleration and speed cap drawn from the given half-open ranges.
    pub fn new(
        num_entities: u32,
        base_accel_range: (i64, i64),
        max_speed_range: (i64, i64),
        bounds: Bounds,
    ) -> (r: World)
        requires
            num_entities > 0 ==> base_accel_range.0 < base_accel_range.1,
            in_range(base_accel_range.0 as int),
            in_range(base_accel_range.1 as int),
            num_entities > 0 ==> max_speed_range.0 < max_speed_range.1,
            in_range(max_speed_range.0 as int),
            in_range(max_speed_range.1 as int),
            num_entities > 0 ==> bounds.0 < bounds.2 && bounds.1 < bounds.3,
            bounds_in_range(bounds),
        ensures
            r.wf(),
            r.spec_bounds() == bounds,
            r.spec_entities().len() == num_entities,
            forall|i: int|
                0 <= i < num_entities ==> is_spawned(
                    #[trigger] r.spec_entities()[i],
                    base_accel_range,
                    max_speed_range,
                    bounds,
                ),
    {
        let mut entities: Vec<Entity> = Vec::new();
        let mut k: u32 = 0;
        while k < num_entities
            invariant
                k <= num_entities,
                entities@.len() == k,
                num_entities > 0 ==> base_accel_range.0 < base_accel_range.1,
                in_range(base_accel_range.0 as int),
                in_range(base_accel_range.1 as int),
                num_entities > 0 ==> max_speed_range.0 < max_speed_range.1,
                in_range(max_speed_range.0 as int),
                in_range(max_speed_range.1 as int),
                num_entities > 0 ==> bounds.0 < bounds.2 && bounds.1 < bounds.3,
                bounds_in_range(bounds),
                forall|i: int| 0 <= i < k ==> #[trigger] entities@[i].wf(),
                forall|i: int|
                    0 <= i < k ==> is_spawned(
                        #[trigger] entities@[i],
                        base_accel_range,
                        max_speed_range,
                        bounds,
                    ),
            decreases num_entities - k,
        {
            let pos = Vec2 { x: random_in(bounds.0, bounds.2), y: random_in(bounds.1, bounds.3) };
            let target_dir = Vec2 { x: random_in(UNIT / 2, UNIT), y: random_in(UNIT / 2, UNIT) };
            let accel = random_in(base_accel_range.0, base_accel_range.1);
            let max_speed = random_in(max_speed_range.0, max_speed_range.1);
            entities.push(Entity::new(pos, accel, max_speed, target_dir));
            k = k + 1;
        }
        World { entities, bounds }
    }

    /// A world of the given entities in the arena `bounds`.
    pub fn from_entities(entities: Vec<Entity>, bounds: Bounds) -> (r: World)
        requires
            bounds_in_range(bounds),
            forall|i: int| 0 <= i < entities@.len() ==> #[trigger] entities@[i].wf(),
        ensures
            r.wf(),
            r.spec_entities() == entities@,
            r.spec_bounds() == bounds,
    {
        World { entities, bounds }
    }

    /// Advances every entity by one tick; each wall contact draws a random
    /// intent.
    pub fn update(&mut self)
        requires
            old(self).wf(),
        ensures
            final(self).wf(),
            final(self).spec_bounds() == old(self).spec_bounds(),
            final(self).spec_entities().len() == old(self).spec_entities().len(),
            forall|i: int|
                0 <= i < old(self).spec_entities().len() ==> is_tick_of(
                    #[trigger] final(self).spec_entities()[i],
                    old(self).spec_entities()[i],
                    old(self).spec_bounds(),
                ),
    {
        let n = self.entities.len();
        let mut i: usize = 0;
        assert forall|j: int| 0 <= j < n implies #[trigger] self.entities@[j].wf() by {
            assert(self.spec_entities()[j].wf());
        }
        while i < n
            invariant
                i <= n,
                self.entities@.len() == n,
                n == old(self).entities@.len(),
                self.bounds == old(self).bounds,
                bounds_in_range(self.bounds),
                forall|j: int| 0 <= j < n ==> #[trigger] self.entities@[j].wf(),
                forall|j: int| i <= j < n ==> #[trigger] self.entities@[j] == old(self).entities@[j],
                forall|j: int|
                    0 <= j < i ==> is_tick_of(
                        #[trigger] self.entities@[j],
                        old(self).entities@[j],
                        self.bounds,
                    ),
            decreases n - i,
        {
            let bounds = self.bounds;
            self.entities[i].update(bounds);
            i = i + 1;
        }
        assert forall|j: int| 0 <= j < n implies #[trigger] self.spec_entities()[j].wf() by {
            assert(self.entities@[j].wf());
        }
        assert(old(self).spec_entities().len() == n);
        assert forall|j: int| 0 <= j < old(self).spec_entities().len() implies is_tick_of(
            #[trigger] self.spec_entities()[j],
            old(self).spec_entities()[j],
            old(self).spec_bounds(),
        ) by {
            assert(self.spec_entities()[j] == self.entities@[j]);
        }
    }

    /// Advances every entity by one tick, entity `i` taking `draws[i]` as its
    /// intent should it touch a wall: a reproducible tick.
    pub fn update_with(&mut self, draws: &Vec<Vec2>)
        requires
            old(self).wf(),
            draws@.len() == old(self).spec_entities().len(),
            forall|i: int| 0 <= i < draws@.len() ==> #[trigger] draws@[i].in_range(),
        ensures
            final(self).wf(),
            final(self).spec_bounds() == old(self).spec_bounds(),
            final(self).spec_entities() == tick_all(
                old(self).spec_entities(),
                old(self).spec_bounds(),
                draws@,
            ),
    {
        let n = self.entities.len();
        let mut i: usize = 0;
        assert forall|j: int| 0 <= j < n implies #[trigger] self.entities@[j].wf() by {
            assert(self.spec_entities()[j].wf());
        }
        while i < n
            invariant
                i <= n,
                self.entities@.len() == n,
                n == old(self).entities@.len(),
                draws@.len() == n,
                forall|j: int| 0 <= j < n ==> #[trigger] draws@[j].in_range(),
                self.bounds == old(self).bounds,
                bounds_in_range(self.bounds),
                forall|j: int| 0 <= j < n ==> #[trigger] self.entities@[j].wf(),
                forall|j: int| i <= j < n ==> #[trigger] self.entities@[j] == old(self).entities@[j],
                forall|j: int|
                    0 <= j < i ==> #[trigger] self.entities@[j] == step(
                        old(self).entities@[j],
                        self.bounds,
                        draws@[j],
                    ),
            decreases n - i,
        {
            let bounds = self.bounds;
            self.entities[i].advance(bounds, draws[i]);
            i = i + 1;
        }
        assert forall|j: int| 0 <= j < n implies #[trigger] self.spec_entities()[j].wf() by {
            assert(self.entities@[j].wf());
        }
        assert(self.entities@ =~= tick_all(old(self).entities@, self.bounds, draws@));
    }

    /// Applies the focal field once to every entity: a force of
    /// `focus_strength` toward `origin`, or away from it when `inverse`.
    /// An entity that sits on `origin` is left as it is.
    pub fn set_entity_focus_point(&mut self, origin: Vec2, inverse: bool, focus_strength: i64)
        requires
            old(self).wf(),
            origin.in_range(),
        ensures
            final(self).wf(),
            final(self).spec_bounds() == old(self).spec_bounds(),
            final(self).spec_entities() == focus_all(
                old(self).spec_entities(),
                origin,
                inverse,
                focus_strength as int,
            ),
            forall|i: int|
                0 <= i < old(self).spec_entities().len() && old(self).spec_entities()[i].pos
                    != origin ==> is_direction(#[trigger] final(self).spec_entities()[i].target_dir),
    {
        let n = self.entities.len();
        let mut i: usize = 0;
        assert forall|j: int| 0 <= j < n implies #[trigger] self.entities@[j].wf() by {
            assert(self.spec_entities()[j].wf());
        }
        while i < n
            invariant
                i <= n,
                self.entities@.len() == n,
                n == old(self).entities@.len(),
                self.bounds == old(self).bounds,
                bounds_in_range(self.bounds),
                origin.in_range(),
                forall|j: int| 0 <= j < n ==> #[trigger] self.entities@[j].wf(),
                forall|j: int| i <= j < n ==> #[trigger] self.entities@[j] == old(self).entities@[j],
                forall|j: int|
                    0 <= j < i ==> #[trigger] self.entities@[j] == focused(
                        old(self).entities@[j],
                        origin,
                        inverse,
                        focus_strength as int,
                    ),
                forall|j: int|
                    0 <= j < i && old(self).entities@[j].pos != origin ==> is_direction(
                        #[trigger] self.entities@[j].target_dir,
                    ),
            decreases n - i,
        {
            assert(self.entities@[i as int].wf());
            let pos = self.entities[i].get_pos();
            if pos != origin {
                let toward = pos.direction_to(origin);
                assert(is_direction(toward.neg())) by (nonlinear_arith)
                    requires
                        is_direction(toward),
                ;
                let dir = if inverse {
                    toward.negated()
                } else {
                    toward
                };
                self.entities[i].apply_force(dir, focus_strength);
            }
            i = i + 1;
        }
        assert forall|j: int| 0 <= j < n implies #[trigger] self.spec_entities()[j].wf() by {
            assert(self.entities@[j].wf());
        }
        assert forall|j: int|
            0 <= j < old(self).spec_entities().len() && old(self).spec_entities()[j].pos
                != origin implies is_direction(#[trigger] self.spec_entities()[j].target_dir) by {
            assert(old(self).spec_entities()[j] == old(self).entities@[j]);
            assert(self.spec_entities()[j] == self.entities@[j]);
        }
        assert(self.entities@ =~= focus_all(
            old(self).entities@,
            origin,
            inverse,
            focus_strength as int,
        ));
    }

    /// Carries `n` linearly from the range `start1 .. stop1` onto
    /// `start2 .. stop2`, without clamping; the result is rounded toward
    /// `start2`.
    pub fn map(n: i64, start1: i64, stop1: i64, start2: i64, stop2: i64) -> (r: i64)
        requires
            start1 != stop1,
            i64::MIN <= remap(n as int, start1 as int, stop1 as int, start2 as int, stop2 as int)
                <= i64::MAX,
        ensures
            r == remap(n as int, start1 as int, stop1 as int, start2 as int, stop2 as int),
    {
        let dn: i128 = n as i128 - start1 as i128;
        let dout: i128 = stop2 as i128 - start2 as i128;
        let din: i128 = stop1 as i128 - start1 as i128;
        let an: u128 = if dn >= 0 { dn as u128 } else { (-dn) as u128 };
        let aout: u128 = if dout >= 0 { dout as u128 } else { (-dout) as u128 };
        let ain: u128 = if din >= 0 { din as u128 } else { (-din) as u128 };
        assert(an * aout < 0x1_0000_0000_0000_0000_0000_0000_0000_0000) by (nonlinear_arith)
            requires
                an < 0x1_0000_0000_0000_0000u128,
                aout < 0x1_0000_0000_0000_0000u128,
        ;
        let q: u128 = (an * aout) / ain;
        let nonneg = (dn >= 0 && dout >= 0) || (dn <= 0 && dout <= 0);
        proof {
            let p = dn * dout;
            assert(abs(p) == an * aout && (p >= 0 <==> nonneg)) by (nonlinear_arith)
                requires
                    p == dn * dout,
                    an == abs(dn as int),
                    aout == abs(dout as int),
                    nonneg == ((dn >= 0 && dout >= 0) || (dn <= 0 && dout <= 0)),
            ;
        }
        if nonneg == (din > 0) {
            (start2 as i128 + q as i128) as i64
        } else {
            (start2 as i128 - q as i128) as i64
        }
    }

    /// The entities, in no meaningful order.
    pub fn entities(&self) -> (r: &Vec<Entity>)
        ensures
            r@ == self.spec_entities(),
    {
        &self.entities
    }

    /// The arena `(min_x, min_y, max_x, max_y)`.
    pub fn bounds(&self) -> (r: Bounds)
        ensures
            r == self.spec_bounds(),
    {
        self.bounds
    }
}

/// `map` sends the ends of the input range onto the ends of the output range.
pub proof fn lemma_map_endpoints(start1: int, stop1: int, start2: int, stop2: int)
    requires
        start1 != stop1,
    ensures
        remap(start1, start1, stop1, start2, stop2) == start2,
        remap(stop1, start1, stop1, start2, stop2) == stop2,
{
    assert(0 * (stop2 - start2) == 0) by (nonlinear_arith);
    lemma_div_trunc_exact(stop2 - start2, stop1 - start1);
}

/// `map` is affine in its first argument up to the rounding of a single
/// division: `(map(n) - start2) * (stop1 - start1)` lies within
/// `|stop1 - start1|` of `(n - start1) * (stop2 - start2)`.
pub proof fn lemma_map_affine(n: int, start1: int, stop1: int, start2: int, stop2: int)
    requires
        start1 != stop1,
    ensures
        abs(
            (remap(n, start1, stop1, start2, stop2) - start2) * (stop1 - start1) - (n - start1) * (
            stop2 - start2),
        ) < abs(stop1 - start1),
{
    lemma_div_trunc_remainder((n - start1) * (stop2 - start2), stop1 - start1);
}

/// The focal force on `e` meets neither end of `[-LIMIT, LIMIT]`, in either
/// direction.
pub open spec fn focus_unclipped(e: Entity, origin: Vec2, strength: int) -> bool {
    let u = unit_toward(e.pos, origin);
    &&& in_range(e.vel.x + scale(u.x as int, strength))
    &&& in_range(e.vel.x - scale(u.x as int, strength))
    &&& in_range(e.vel.y + scale(u.y as int, strength))
    &&& in_range(e.vel.y - scale(u.y as int, strength))
}

/// From one pre-state, the repelling focal pass changes every velocity by
/// exactly the negation of what the attracting pass changes it by, as long
/// as no velocity meets the `LIMIT` bound.
pub proof fn lemma_focus_inverse_negates(es: Seq<Entity>, origin: Vec2, strength: int)
    requires
        forall|i: int| 0 <= i < es.len() ==> #[trigger] es[i].wf(),
        forall|i: int| 0 <= i < es.len() ==> #[trigger] focus_unclipped(es[i], origin, strength),
    ensures
        forall|i: int|
            0 <= i < es.len() ==> {
                let pull = #[trigger] focus_all(es, origin, false, strength)[i].vel;
                let push = focus_all(es, origin, true, strength)[i].vel;
                &&& push.x - es[i].vel.x == -(pull.x - es[i].vel.x)
                &&& push.y - es[i].vel.y == -(pull.y - es[i].vel.y)
            },
{
    assert forall|i: int| 0 <= i < es.len() implies {
        let pull = #[trigger] focus_all(es, origin, false, strength)[i].vel;
        let push = focus_all(es, origin, true, strength)[i].vel;
        &&& push.x - es[i].vel.x == -(pull.x - es[i].vel.x)
        &&& push.y - es[i].vel.y == -(pull.y - es[i].vel.y)
    } by {
        let e = es[i];
        let u = unit_toward(e.pos, origin);
        assert(e.wf() && focus_unclipped(e, origin, strength));
        lemma_unit_toward(e.pos, origin);
        lemma_scale_neg(u.x as int, strength);
        lemma_scale_neg(u.y as int, strength);
    }
}

/// The focal pass leaves an entity that sits exactly on the focal point as
/// it is: no direction is made up for it.
pub proof fn lemma_focus_on_origin(e: Entity, inverse: bool, strength: int)
    ensures
        focused(e, e.pos, inverse, strength) == e,
{
}

/// `p` lists each index below `n` exactly once.
pub open spec fn is_permutation(p: Seq<int>, n: int) -> bool {
    &&& p.len() == n
    &&& forall|i: int| 0 <= i < n ==> 0 <= #[trigger] p[i] < n
    &&& forall|i: int, j: int| 0 <= i < j < n ==> p[i] != p[j]
}

/// `s` listed in the order `p`.
pub open spec fn permute<A>(s: Seq<A>, p: Seq<int>) -> Seq<A> {
    Seq::new(p.len(), |i: int| s[p[i]])
}

/// `n` ticks, the `k`-th taking `draws[k]` as the entities' random intents.
pub open spec fn run(es: Seq<Entity>, b: Bounds, draws: Seq<Seq<Vec2>>, n: nat) -> Seq<Entity>
    decreases n,
{
    if n == 0 {
        es
    } else {
        tick_all(run(es, b, draws, (n - 1) as nat), b, draws[n - 1])
    }
}

/// Entities do not interact: running `n` ticks over the entities listed in
/// another order, each entity keeping its own random draws, leaves every
/// entity in the same final state.
pub proof fn lemma_ticks_order_independent(
    es: Seq<Entity>,
    b: Bounds,
    draws: Seq<Seq<Vec2>>,
    p: Seq<int>,
    n: nat,
)
    requires
        is_permutation(p, es.len() as int),
        n <= draws.len(),
        forall|k: int| 0 <= k < n ==> (#[trigger] draws[k]).len() == es.len(),
    ensures
        run(es, b, draws, n).len() == es.len(),
        run(permute(es, p), b, Seq::new(draws.len(), |k: int| permute(draws[k], p)), n) == permute(
            run(es, b, draws, n),
            p,
        ),
    decreases n,
{
    let moved = Seq::new(draws.len(), |k: int| permute(draws[k], p));
    if n > 0 {
        lemma_ticks_order_independent(es, b, draws, p, (n - 1) as nat);
    }
    assert(run(permute(es, p), b, moved, n) =~= permute(run(es, b, draws, n), p));
}

/// When no entity touches a wall, what `update` produces is the reproducible
/// tick `tick_all` for any choice of draws; so the order-independence of
/// `run` holds of repeated `update` calls as well.
pub proof fn lemma_update_without_walls(before: Seq<Entity>, after: Seq<Entity>, b: Bounds)
    requires
        after.len() == before.len(),
        forall|i: int|
            0 <= i < before.len() ==> !hits_x(#[trigger] before[i], b) && !hits_y(before[i], b),
        forall|i: int| 0 <= i < before.len() ==> is_tick_of(#[trigger] after[i], before[i], b),
    ensures
        forall|draws: Seq<Vec2>|
            draws.len() == before.len() ==> after == #[trigger] tick_all(before, b, draws),
{
    assert forall|draws: Seq<Vec2>| draws.len() == before.len() implies after == #[trigger] tick_all(
        before,
        b,
        draws,
    ) by {
        assert forall|i: int| 0 <= i < before.len() implies after[i] == tick_all(
            before,
            b,
            draws,
        )[i] by {
            assert(is_tick_of(after[i], before[i], b));
            lemma_tick_without_wall_is_determined(after[i], before[i], b);
            assert(after[i] == step(before[i], b, draws[i]));
        }
        assert(after =~= tick_all(before, b, draws));
    }
}

} // verus!
