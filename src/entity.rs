//! One simulated particle and its per-tick kinematic rule.
use vstd::prelude::*;

use crate::fixed::{
    div_trunc, div_trunc_wide, in_range, lemma_midpoint_in_range, lemma_scale_by_unit, saturate, saturate_wide, scale, scale_wide, UNIT,
};
use crate::random::random_in;
use crate::vec2::{is_direction, lemma_unit_toward, unit_toward, Vec2};

verus! {

/// An 8-bit colour with alpha.
#[derive(Clone, Copy, Debug, PartialEq, Eq, Structural)]
pub struct Rgba {
    pub r: u8,
    pub g: u8,
    pub b: u8,
    pub a: u8,
}

/// The arena rectangle `(min_x, min_y, max_x, max_y)`.
pub type Bounds = (i64, i64, i64, i64);

pub open spec fn bounds_in_range(b: Bounds) -> bool {
    in_range(b.0 as int) && in_range(b.1 as int) && in_range(b.2 as int) && in_range(b.3 as int)
}

/// The middle of the arena, each axis rounded toward zero.
pub open spec fn center(b: Bounds) -> Vec2 {
    Vec2 { x: div_trunc(b.0 + b.2, 2) as i64, y: div_trunc(b.1 + b.3, 2) as i64 }
}

/// The middle of the arena, each axis rounded toward zero.
pub fn arena_center(b: Bounds) -> (r: Vec2)
    requires
        bounds_in_range(b),
    ensures
        r == center(b),
        r.in_range(),
{
    let x = div_trunc_wide(b.0 as i128 + b.2 as i128, 2);
    let y = div_trunc_wide(b.1 as i128 + b.3 as i128, 2);
    proof {
        lemma_midpoint_in_range(b.0 as int, b.2 as int);
        lemma_midpoint_in_range(b.1 as int, b.3 as int);
    }
    Vec2 { x: x as i64, y: y as i64 }
}

/// A direction as a random re-targeting draws it: each axis in `[-UNIT, UNIT)`.
pub open spec fn is_draw(d: Vec2) -> bool {
    -UNIT <= d.x < UNIT && -UNIT <= d.y < UNIT
}

/// A random direction, each axis uniform in `[-UNIT, UNIT)`.
pub fn random_direction() -> (r: Vec2)
    ensures
        is_draw(r),
{
    let x = random_in(-UNIT, UNIT);
    let y = random_in(-UNIT, UNIT);
    Vec2 { x, y }
}

/// A particle: its kinematic state and its fixed look.
#[derive(Clone, Copy, Debug, PartialEq, Eq, Structural)]
pub struct Entity {
    pub pos: Vec2,
    pub vel: Vec2,
    /// Acceleration scalar: how much of `target_dir` is added to `vel` each tick.
    pub speed: i64,
    /// Upper cap on each velocity axis.
    pub max_speed: i64,
    /// The steering intent; replaced on a bounce and by every applied force.
    pub target_dir: Vec2,
    pub color: Rgba,
    /// Side length, also the far-side offset in the wall test.
    pub size: i64,
}

/// `v` capped from above by `m`.
pub open spec fn cap(v: int, m: int) -> int {
    if v >= m {
        m
    } else {
        v
    }
}

/// The velocity after the intent is integrated and each axis capped at
/// `max_speed`; large negative values are kept.
pub open spec fn accelerated(e: Entity) -> Vec2 {
    Vec2 {
        x: cap(saturate(e.vel.x + scale(e.target_dir.x as int, e.speed as int)), e.max_speed as int)
            as i64,
        y: cap(saturate(e.vel.y + scale(e.target_dir.y as int, e.speed as int)), e.max_speed as int)
            as i64,
    }
}

/// `e` after a force of `strength` along `dir`; `dir` becomes its intent.
pub open spec fn with_force(e: Entity, dir: Vec2, strength: int) -> Entity {
    Entity {
        vel: Vec2 {
            x: saturate(e.vel.x + scale(dir.x as int, strength)) as i64,
            y: saturate(e.vel.y + scale(dir.y as int, strength)) as i64,
        },
        target_dir: dir,
        ..e
    }
}

/// `e` after a force of `strength` toward `point`; unchanged when it sits on
/// `point`, where no direction exists.
pub open spec fn pushed_toward(e: Entity, point: Vec2, strength: int) -> Entity {
    if e.pos == point {
        e
    } else {
        with_force(e, unit_toward(e.pos, point), strength)
    }
}

pub open spec fn hits_x(e: Entity, b: Bounds) -> bool {
    e.pos.x <= b.0 || e.pos.x + e.size >= b.2
}

pub open spec fn hits_y(e: Entity, b: Bounds) -> bool {
    e.pos.y <= b.1 || e.pos.y + e.size >= b.3
}

/// On an x-wall contact: the x velocity is reflected, the intent becomes
/// `draw`, and a unit push toward the arena's middle follows.
pub open spec fn bounce_x(e: Entity, b: Bounds, draw: Vec2) -> Entity {
    if hits_x(e, b) {
        pushed_toward(
            Entity { vel: Vec2 { x: (-e.vel.x) as i64, ..e.vel }, target_dir: draw, ..e },
            center(b),
            UNIT as int,
        )
    } else {
        e
    }
}

/// The same as `bounce_x`, for the y walls.
pub open spec fn bounce_y(e: Entity, b: Bounds, draw: Vec2) -> Entity {
    if hits_y(e, b) {
        pushed_toward(
            Entity { vel: Vec2 { y: (-e.vel.y) as i64, ..e.vel }, target_dir: draw, ..e },
            center(b),
            UNIT as int,
        )
    } else {
        e
    }
}

/// One tick of `e` in the arena `b`, with `draw` as the new intent should a
/// wall be touched: integrate and cap, bounce on each axis, then move.
pub open spec fn step(e: Entity, b: Bounds, draw: Vec2) -> Entity {
    let e1 = Entity { vel: accelerated(e), ..e };
    let e3 = bounce_y(bounce_x(e1, b, draw), b, draw);
    Entity {
        pos: Vec2 {
            x: saturate(e3.pos.x + e3.vel.x) as i64,
            y: saturate(e3.pos.y + e3.vel.y) as i64,
        },
        ..e3
    }
}

/// `after` is `before` advanced by one tick in `b` with some random intent.
pub open spec fn is_tick_of(after: Entity, before: Entity, b: Bounds) -> bool {
    exists|d: Vec2| is_draw(d) && after == step(before, b, d)
}

/// The look a new entity is given: colour channels in
/// `[15, 255) x [0, 25) x [0, 185) x [10, 100)` and a size in `[UNIT, 6 UNIT)`.
pub open spec fn has_fresh_look(e: Entity) -> bool {
    &&& 15 <= e.color.r < 255
    &&& e.color.g < 25
    &&& e.color.b < 185
    &&& 10 <= e.color.a < 100
    &&& UNIT <= e.size < 6 * UNIT
}

impl Entity {
    pub open spec fn wf(self) -> bool {
        &&& self.pos.in_range()
        &&& self.vel.in_range()
        &&& self.target_dir.in_range()
        &&& in_range(self.speed as int)
        &&& in_range(self.max_speed as int)
        &&& 0 <= self.size <= crate::fixed::LIMIT
    }

    /// A resting entity at `pos` with a random colour and size.
    pub fn new(pos: Vec2, speed: i64, max_speed: i64, target_dir: Vec2) -> (r: Entity)
        requires
            pos.in_range(),
            target_dir.in_range(),
            in_range(speed as int),
            in_range(max_speed as int),
        ensures
            r.pos == pos,
            r.vel == (Vec2 { x: 0, y: 0 }),
            r.speed == speed,
            r.max_speed == max_speed,
            r.target_dir == target_dir,
            has_fresh_look(r),
            r.wf(),
    {
        let color = Rgba {
            r: random_in(15, 255) as u8,
            g: random_in(0, 25) as u8,
            b: random_in(0, 185) as u8,
            a: random_in(10, 100) as u8,
        };
        let size = random_in(UNIT, 6 * UNIT);
        Entity { pos, vel: Vec2 { x: 0, y: 0 }, speed, max_speed, target_dir, color, size }
    }

    /// One tick in the arena `bounds`; a wall contact draws a random intent.
    pub fn update(&mut self, bounds: Bounds)
        requires
            old(self).wf(),
            bounds_in_range(bounds),
        ensures
            final(self).wf(),
            is_tick_of(*final(self), *old(self), bounds),
    {
        let touches = self.pos.x <= bounds.0 || self.pos.x as i128 + self.size as i128
            >= bounds.2 as i128 || self.pos.y <= bounds.1 || self.pos.y as i128
            + self.size as i128 >= bounds.3 as i128;
        let draw = if touches {
            random_direction()
        } else {
            Vec2 { x: 0, y: 0 }
        };
        let ghost start = *self;
        self.advance(bounds, draw);
        assert(is_draw(draw) && *self == step(start, bounds, draw));
    }

    /// One tick in the arena `bounds`, with `draw` as the intent taken on a
    /// wall contact.
    pub fn advance(&mut self, bounds: Bounds, draw: Vec2)
        requires
            old(self).wf(),
            bounds_in_range(bounds),
            draw.in_range(),
        ensures
            final(self).wf(),
            *final(self) == step(*old(self), bounds, draw),
    {
        let vx = saturate_wide(self.vel.x as i128 + scale_wide(self.target_dir.x, self.speed));
        let vy = saturate_wide(self.vel.y as i128 + scale_wide(self.target_dir.y, self.speed));
        self.vel = Vec2 {
            x: if vx >= self.max_speed { self.max_speed } else { vx },
            y: if vy >= self.max_speed { self.max_speed } else { vy },
        };
        let middle = arena_center(bounds);
        if self.pos.x <= bounds.0 || self.pos.x as i128 + self.size as i128 >= bounds.2 as i128 {
            self.vel.x = -self.vel.x;
            self.target_dir = draw;
            self.push_towards_pos(middle, UNIT);
        }
        if self.pos.y <= bounds.1 || self.pos.y as i128 + self.size as i128 >= bounds.3 as i128 {
            self.vel.y = -self.vel.y;
            self.target_dir = draw;
            self.push_towards_pos(middle, UNIT);
        }
        self.pos = Vec2 {
            x: saturate_wide(self.pos.x as i128 + self.vel.x as i128),
            y: saturate_wide(self.pos.y as i128 + self.vel.y as i128),
        };
    }

    pub fn get_pos(&self) -> (r: Vec2)
        ensures
            r == self.pos,
    {
        self.pos
    }

    pub fn get_color(&self) -> (r: Rgba)
        ensures
            r == self.color,
    {
        self.color
    }

    pub fn get_size(&self) -> (r: i64)
        ensures
            r == self.size,
    {
        self.size
    }

    /// The intent as a unit direction (see `unit_toward`), for orienting the entity.
    pub fn get_target_dir_norm(&self) -> (r: Vec2)
        requires
            self.wf(),
        ensures
            r == unit_toward(Vec2 { x: 0, y: 0 }, self.target_dir),
            self.target_dir != (Vec2 { x: 0, y: 0 }) ==> is_direction(r),
    {
        Vec2 { x: 0, y: 0 }.direction_to(self.target_dir)
    }

    /// Replaces the intent by a random direction.
    pub fn set_random_target(&mut self)
        requires
            old(self).wf(),
        ensures
            final(self).wf(),
            is_draw(final(self).target_dir),
            *final(self) == (Entity { target_dir: final(self).target_dir, ..*old(self) }),
    {
        self.target_dir = random_direction();
    }

    /// Adds `f_norm * strength` to the velocity and makes `f_norm` the intent.
    pub fn apply_force(&mut self, f_norm: Vec2, strength: i64)
        requires
            old(self).wf(),
            f_norm.in_range(),
        ensures
            final(self).wf(),
            *final(self) == with_force(*old(self), f_norm, strength as int),
    {
        let vx = saturate_wide(self.vel.x as i128 + scale_wide(f_norm.x, strength));
        let vy = saturate_wide(self.vel.y as i128 + scale_wide(f_norm.y, strength));
        self.vel = Vec2 { x: vx, y: vy };
        self.target_dir = f_norm;
    }

    /// Applies a force of `strength` toward `pos`; does nothing when the
    /// entity sits on `pos`.
    pub fn push_towards_pos(&mut self, pos: Vec2, strength: i64)
        requires
            old(self).wf(),
            pos.in_range(),
        ensures
            final(self).wf(),
            *final(self) == pushed_toward(*old(self), pos, strength as int),
            old(self).pos != pos ==> is_direction(final(self).target_dir),
    {
        if self.pos != pos {
            let dir = self.pos.direction_to(pos);
            self.apply_force(dir, strength);
        }
    }
}

/// Away from the walls, a tick leaves each velocity axis exactly as
/// integration and the cap made it: at most `max_speed`, and not bounded from
/// below (beyond the representable `-LIMIT`).
pub proof fn lemma_speed_capped_above(e: Entity, b: Bounds, draw: Vec2)
    requires
        e.wf(),
        !hits_x(e, b),
        !hits_y(e, b),
    ensures
        step(e, b, draw).vel == accelerated(e),
        step(e, b, draw).vel.x <= e.max_speed,
        step(e, b, draw).vel.y <= e.max_speed,
        ({
            let vx = e.vel.x + scale(e.target_dir.x as int, e.speed as int);
            in_range(vx) && vx < e.max_speed ==> step(e, b, draw).vel.x == vx
        }),
        ({
            let vy = e.vel.y + scale(e.target_dir.y as int, e.speed as int);
            in_range(vy) && vy < e.max_speed ==> step(e, b, draw).vel.y == vy
        }),
{
}

/// A tick that touches an x wall, and no y wall, while the entity moves away
/// from the arena's middle on x, turns it back toward the middle on x. The y
/// velocity keeps its sign unless the push toward the middle opposes it.
pub proof fn lemma_wall_reflects_x(e: Entity, b: Bounds, draw: Vec2)
    requires
        e.wf(),
        bounds_in_range(b),
        draw.in_range(),
        hits_x(e, b),
        !hits_y(e, b),
    ensures
        ({
            let v = accelerated(e);
            let c = center(b);
            let push = unit_toward(e.pos, c);
            let after = step(e, b, draw).vel;
            &&& e.pos.x <= c.x && v.x < 0 ==> after.x > 0
            &&& e.pos.x >= c.x && v.x > 0 ==> after.x < 0
            &&& v.y > 0 && push.y >= 0 ==> after.y > 0
            &&& v.y < 0 && push.y <= 0 ==> after.y < 0
        }),
{
    let c = center(b);
    let u = unit_toward(e.pos, c);
    lemma_unit_toward(e.pos, c);
    lemma_midpoint_in_range(b.0 as int, b.2 as int);
    lemma_midpoint_in_range(b.1 as int, b.3 as int);
    lemma_scale_by_unit(u.x as int);
    lemma_scale_by_unit(u.y as int);
}

/// A tick that touches a y wall, and no x wall, while the entity moves away
/// from the arena's middle on y, turns it back toward the middle on y. The x
/// velocity keeps its sign unless the push toward the middle opposes it.
pub proof fn lemma_wall_reflects_y(e: Entity, b: Bounds, draw: Vec2)
    requires
        e.wf(),
        bounds_in_range(b),
        draw.in_range(),
        hits_y(e, b),
        !hits_x(e, b),
    ensures
        ({
            let v = accelerated(e);
            let c = center(b);
            let push = unit_toward(e.pos, c);
            let after = step(e, b, draw).vel;
            &&& e.pos.y <= c.y && v.y < 0 ==> after.y > 0
            &&& e.pos.y >= c.y && v.y > 0 ==> after.y < 0
            &&& v.x > 0 && push.x >= 0 ==> after.x > 0
            &&& v.x < 0 && push.x <= 0 ==> after.x < 0
        }),
{
    let c = center(b);
    let u = unit_toward(e.pos, c);
    lemma_unit_toward(e.pos, c);
    lemma_midpoint_in_range(b.0 as int, b.2 as int);
    lemma_midpoint_in_range(b.1 as int, b.3 as int);
    lemma_scale_by_unit(u.x as int);
    lemma_scale_by_unit(u.y as int);
}

/// Away from the walls no random intent is drawn: a tick is fully determined.
pub proof fn lemma_tick_without_wall_is_determined(after: Entity, e: Entity, b: Bounds)
    requires
        !hits_x(e, b),
        !hits_y(e, b),
        is_tick_of(after, e, b),
    ensures
        forall|d: Vec2| after == #[trigger] step(e, b, d),
{
}

} // verus!
