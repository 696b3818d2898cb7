//! Agents: points that sense the trail ahead, turn toward it, move, bounce
//! off the edges of the domain and mark the path they took.

use vstd::prelude::*;
use crate::config::{SteeringConfig, MAX_GAIN};
use crate::field::{Grid, TrailField, MAX_EXTENT};
use crate::fixed::{
    clamp, fixed_mul, floor_div, lemma_fixed_mul_bound, lemma_product_bound, lemma_rounded_bound,
    scale, HALF, ONE,
};
use crate::vector::{lemma_normalised_is_unit, lemma_unit_within, Vec2, Vector};

verus! {

/// The longest time a single step can span: 32768 seconds, in 65536ths.
pub const MAX_ELAPSED: i64 = 0x8000_0000;

/// The distance between two deposits along a path: one half.
pub const SUB_STEP: i64 = 32768;

/// The number of values a random draw can take.  A draw `d` stands for the
/// fraction `d / DRAW_RANGE` of the unit interval.
pub const DRAW_RANGE: u32 = 0x80_0000;

/// Twice `DRAW_RANGE`, divided by the number of 65536ths of a turn that the
/// wander angle spans from its lowest to its highest value: the wander
/// angle lies within one 200th of a turn of zero.
pub const WANDER_DIVISOR: i64 = 25600;

/// The wander angle that the draw `draw` selects, in 65536ths of a turn:
/// the draws spread evenly from one 200th of a turn to one side to one
/// 200th of a turn to the other.
pub open spec fn wander_turn(draw: int) -> int {
    (2 * (draw % (DRAW_RANGE as int)) - DRAW_RANGE) / (WANDER_DIVISOR as int)
}

/// The rotation by the wander angle that the draw `draw` selects.  The
/// rotations to either side are mirror images of each other.
pub open spec fn wander_rotation(draw: int) -> Vector {
    let turn = wander_turn(draw);
    if turn >= 0 {
        Vector::from_turn(turn)
    } else {
        Vector::from_turn(-turn).conjugate()
    }
}

/// How far from the centre of the domain a scattered agent can lie along
/// either axis, in whole units.
pub const SCATTER_RADIUS: i64 = 30;

/// The offset from the centre that the draw `draw` selects for a scattered
/// agent: the draws spread evenly over the scatter radius to either side.
pub open spec fn scatter_offset(draw: int) -> int {
    ((2 * (draw % (DRAW_RANGE as int)) - DRAW_RANGE) * SCATTER_RADIUS) / 128
}

/// The angle that the draw `draw` selects for the heading of a scattered
/// agent, in 65536ths of a turn: the draws spread evenly over the full turn.
pub open spec fn scatter_turn(draw: int) -> int {
    (draw % (DRAW_RANGE as int)) / 128
}

/// The coordinate `c` mirrored at the edge of `[0, extent]` that it lies
/// beyond, if any.
pub open spec fn mirrored(c: int, extent: int) -> int {
    if c < 0 {
        -c
    } else if c > extent {
        2 * extent - c
    } else {
        c
    }
}

/// The coordinate `c` reflected into `[0, extent]`: mirrored at the edge it
/// lies beyond and, should it lie further out than one extent, held at the
/// edge that the mirror image lies beyond.
pub open spec fn reflected(c: int, extent: int) -> int {
    clamp(mirrored(c, extent), 0, extent)
}

/// The heading component `h` after a reflection of the coordinate `c`:
/// negated where `c` lies beyond an edge of `[0, extent]`.
pub open spec fn bounced(h: int, c: int, extent: int) -> int {
    if c < 0 || c > extent {
        -h
    } else {
        h
    }
}

/// The number of deposits along a path of length `distance`: the length
/// divided by the sub-step, rounded up.
pub open spec fn sub_steps(distance: int) -> int {
    (distance + SUB_STEP - 1) / (SUB_STEP as int)
}

/// The `i`-th point of the path that leaves `start` along `heading`.
pub open spec fn path_point(start: Vector, heading: Vector, i: int) -> Vector {
    start.plus(heading.scaled(i * SUB_STEP))
}

/// The grid after deposits at the first `n` points of the path that leaves
/// `start` along `heading`.
pub open spec fn trail(g: Grid, start: Vector, heading: Vector, n: int) -> Grid
    decreases n,
{
    if n <= 0 {
        g
    } else {
        let p = path_point(start, heading, n - 1);
        trail(g, start, heading, n - 1).deposited(p.x, p.y)
    }
}

/// The mathematical model of an agent.
pub struct AgentModel {
    pub position: Vector,
    pub heading: Vector,
}

impl AgentModel {
    /// The agent lies within the domain of `g`, edges included.
    pub open spec fn inside(self, g: Grid) -> bool {
        &&& 0 <= self.position.x <= g.width * ONE
        &&& 0 <= self.position.y <= g.height * ONE
    }

    /// The agent lies within the domain of `g` and its heading is a unit
    /// vector.
    pub open spec fn wf(self, g: Grid) -> bool {
        self.inside(g) && self.heading.is_unit()
    }

    /// The agent that three draws scatter over `g`: it lies within the
    /// scatter radius of the centre along either axis, as far as the domain
    /// reaches, and faces the way the first draw selects.
    pub open spec fn scattered(g: Grid, turn_draw: int, x_draw: int, y_draw: int) -> AgentModel {
        AgentModel {
            position: Vector {
                x: clamp(g.width * HALF + scatter_offset(x_draw), 0, g.width * ONE),
                y: clamp(g.height * HALF + scatter_offset(y_draw), 0, g.height * ONE),
            },
            heading: Vector::from_turn(scatter_turn(turn_draw)),
        }
    }

    /// The direction of a probe: that of the heading for `side` 0, turned
    /// by the sensor spread to one side for a positive `side` and to the
    /// other for a negative one.
    pub open spec fn probe(self, c: SteeringConfig, side: int) -> Vector {
        let spread = Vector::from_turn(c.sensor_turn as int);
        if side == 0 {
            self.heading
        } else if side > 0 {
            self.heading.rotated(spread)
        } else {
            self.heading.rotated(spread.conjugate())
        }
    }

    /// What the probe in direction `d` reads from `g`.
    pub open spec fn reading(self, g: Grid, c: SteeringConfig, d: Vector) -> int {
        let p = self.position.plus(d.scaled(c.probe_distance as int));
        g.sampled(p.x, p.y)
    }

    /// The steering vector: the three probe directions, each weighted by
    /// what its probe reads, summed and normalised.  It is zero where all
    /// three probes read zero.
    pub open spec fn steering(self, g: Grid, c: SteeringConfig) -> Vector {
        let l = self.probe(c, -1);
        let m = self.probe(c, 0);
        let r = self.probe(c, 1);
        l.times(self.reading(g, c, l)).plus(m.times(self.reading(g, c, m))).plus(
            r.times(self.reading(g, c, r)),
        ).normalised()
    }

    /// The wander vector: the heading turned by the wander angle that
    /// `draw` selects, scaled to the wander length.
    pub open spec fn wander(self, c: SteeringConfig, draw: int) -> Vector {
        self.heading.rotated(wander_rotation(draw)).scaled(c.wander as int)
    }

    /// The direction the agent would like to take: its heading, plus the
    /// weighted sum of wander and steering as far as the turn
    /// responsiveness lets it through.
    pub open spec fn desired(self, c: SteeringConfig, steering: Vector, draw: int) -> Vector {
        self.heading.plus(
            self.wander(c, draw).scaled(c.wander as int).plus(
                steering.scaled(c.steer as int),
            ).scaled(c.turn as int),
        )
    }

    /// The heading after the turn: the desired direction normalised, or
    /// the heading as it was where the desired direction is zero.
    pub open spec fn turned(self, c: SteeringConfig, steering: Vector, draw: int) -> Vector {
        let d = self.desired(c, steering, draw);
        if d.is_zero() {
            self.heading
        } else {
            d.normalised()
        }
    }

    /// The agent after a step of `elapsed` seconds over `g`, before its
    /// reflection at the edges: turned, and moved along the new heading by
    /// the speed times the elapsed time.
    pub open spec fn advanced(self, g: Grid, c: SteeringConfig, elapsed: int, draw: int)
        -> AgentModel {
        let heading = self.turned(c, self.steering(g, c), draw);
        AgentModel {
            position: self.position.plus(heading.scaled(fixed_mul(elapsed, c.speed as int))),
            heading,
        }
    }

    /// The agent reflected into the domain of `g`, each axis on its own.
    pub open spec fn reflected(self, g: Grid) -> AgentModel {
        AgentModel {
            position: Vector {
                x: reflected(self.position.x, g.width * ONE),
                y: reflected(self.position.y, g.height * ONE),
            },
            heading: Vector {
                x: bounced(self.heading.x, self.position.x, g.width * ONE),
                y: bounced(self.heading.y, self.position.y, g.height * ONE),
            },
        }
    }

    /// The agent after a step of `elapsed` seconds over `g`.
    pub open spec fn stepped(self, g: Grid, c: SteeringConfig, elapsed: int, draw: int)
        -> AgentModel {
        self.advanced(g, c, elapsed, draw).reflected(g)
    }

    /// The grid after the agent's step of `elapsed` seconds over `g`: `g`
    /// with deposits every half unit along the path from the agent's old
    /// position, in the direction of its new heading.
    pub open spec fn marked(self, g: Grid, c: SteeringConfig, elapsed: int, draw: int) -> Grid {
        trail(
            g,
            self.position,
            self.advanced(g, c, elapsed, draw).heading,
            sub_steps(fixed_mul(elapsed, c.speed as int)),
        )
    }
}

/// A deposit leaves the size of a grid as it was.
pub proof fn lemma_trail_wf(g: Grid, start: Vector, heading: Vector, n: int)
    requires
        g.wf(),
    ensures
        trail(g, start, heading, n).wf(),
        trail(g, start, heading, n).width == g.width,
        trail(g, start, heading, n).height == g.height,
    decreases n,
{
    if n > 0 {
        lemma_trail_wf(g, start, heading, n - 1);
        let t = trail(g, start, heading, n - 1);
        let p = path_point(start, heading, n - 1);
        crate::field::lemma_index_in_range(t, t.column_of(p.x), t.row_of(p.y));
    }
}

/// A reflected agent lies within the domain, wherever it lay before.
pub proof fn lemma_reflected_inside(a: AgentModel, g: Grid)
    requires
        g.wf(),
    ensures
        a.reflected(g).inside(g),
{
    assert(0 <= g.width * ONE && 0 <= g.height * ONE) by (nonlinear_arith)
        requires
            0 <= g.width,
            0 <= g.height,
    ;
}

/// A reflection leaves the length of the heading as it was.
pub proof fn lemma_reflected_heading(a: AgentModel, g: Grid)
    ensures
        a.reflected(g).heading.norm_sq() == a.heading.norm_sq(),
        a.heading.is_unit() ==> a.reflected(g).heading.is_unit(),
{
    let h = a.heading;
    let r = a.reflected(g).heading;
    assert(r.norm_sq() == h.norm_sq()) by (nonlinear_arith)
        requires
            r.norm_sq() == r.x * r.x + r.y * r.y,
            h.norm_sq() == h.x * h.x + h.y * h.y,
            r.x == h.x || r.x == -h.x,
            r.y == h.y || r.y == -h.y,
    ;
}

/// A coordinate no further beyond an edge than the domain is long is
/// reflected to its mirror image at that edge, exactly.
pub proof fn lemma_reflected_is_mirrored(c: int, extent: int)
    requires
        -extent <= c <= 2 * extent,
    ensures
        reflected(c, extent) == mirrored(c, extent),
        c < 0 ==> reflected(c, extent) == -c,
        c > extent ==> reflected(c, extent) == 2 * extent - c,
        0 <= c <= extent ==> reflected(c, extent) == c,
{
}

/// With neither wander nor steering the desired direction is the heading
/// itself, whatever the probes read and whatever the draw: the agent keeps
/// its course.
pub proof fn lemma_quiet_agent_keeps_course(
    a: AgentModel,
    c: SteeringConfig,
    steering: Vector,
    draw: int,
)
    requires
        c.wander == 0,
        c.steer == 0,
    ensures
        a.desired(c, steering, draw) == a.heading,
{
    let spun = a.heading.rotated(wander_rotation(draw));
    assert(spun.scaled(0) == Vector::zero()) by {
        assert(spun.x * 0 == 0 && spun.y * 0 == 0);
    }
    assert(Vector::zero().scaled(0) == Vector::zero());
    assert(steering.scaled(0) == Vector::zero()) by {
        assert(steering.x * 0 == 0 && steering.y * 0 == 0);
    }
    assert(Vector::zero().scaled(c.turn as int) == Vector::zero()) by {
        assert(0 * (c.turn as int) == 0);
    }
    assert(Vector::zero().plus(Vector::zero()) == Vector::zero());
}

/// After a step the agent lies within the domain, whatever the elapsed
/// time, the draw and the trail.
pub proof fn lemma_step_stays_inside(
    a: AgentModel,
    g: Grid,
    c: SteeringConfig,
    elapsed: int,
    draw: int,
)
    requires
        g.wf(),
    ensures
        a.stepped(g, c, elapsed, draw).inside(g),
{
    lemma_reflected_inside(a.advanced(g, c, elapsed, draw), g);
}

/// After a step the heading of an agent is a unit vector, if it was one
/// before; and it is the heading as it was, but for the change of sign at
/// an edge, where the desired direction is zero.
pub proof fn lemma_step_keeps_unit_heading(
    a: AgentModel,
    g: Grid,
    c: SteeringConfig,
    elapsed: int,
    draw: int,
)
    requires
        a.heading.is_unit(),
    ensures
        a.stepped(g, c, elapsed, draw).heading.is_unit(),
        a.desired(c, a.steering(g, c), draw).is_zero() ==> a.advanced(
            g,
            c,
            elapsed,
            draw,
        ).heading == a.heading,
{
    let d = a.desired(c, a.steering(g, c), draw);
    if !d.is_zero() {
        lemma_normalised_is_unit(d);
    }
    lemma_reflected_heading(a.advanced(g, c, elapsed, draw), g);
}

/// A step keeps an agent well formed and leaves the size of the grid as it
/// was.
pub proof fn lemma_step_preserves_wf(
    a: AgentModel,
    g: Grid,
    c: SteeringConfig,
    elapsed: int,
    draw: int,
)
    requires
        g.wf(),
        a.wf(g),
    ensures
        a.marked(g, c, elapsed, draw).wf(),
        a.marked(g, c, elapsed, draw).width == g.width,
        a.marked(g, c, elapsed, draw).height == g.height,
        a.stepped(g, c, elapsed, draw).wf(a.marked(g, c, elapsed, draw)),
{
    lemma_step_stays_inside(a, g, c, elapsed, draw);
    lemma_step_keeps_unit_heading(a, g, c, elapsed, draw);
    lemma_trail_wf(
        g,
        a.position,
        a.advanced(g, c, elapsed, draw).heading,
        sub_steps(fixed_mul(elapsed, c.speed as int)),
    );
}

/// Scaling a vector keeps it within the scaled bound, and one more for the
/// rounding.
pub proof fn lemma_scaled_within(v: Vector, k: int, mv: int, mk: int)
    requires
        v.within(mv),
        -mk <= k <= mk,
    ensures
        v.scaled(k).within((mv * mk) / (ONE as int) + 1),
        -(mv * mk) <= v.x * k <= mv * mk,
        -(mv * mk) <= v.y * k <= mv * mk,
{
    lemma_fixed_mul_bound(v.x, k, mv, mk);
    lemma_fixed_mul_bound(v.y, k, mv, mk);
    lemma_product_bound(v.x, k, mv, mk);
    lemma_product_bound(v.y, k, mv, mk);
}

/// Turning a vector keeps it within twice the product of the bounds, and
/// one more for the rounding.
pub proof fn lemma_rotated_within(v: Vector, r: Vector, mv: int, mr: int)
    requires
        v.within(mv),
        r.within(mr),
    ensures
        v.rotated(r).within((2 * (mv * mr)) / (ONE as int) + 1),
{
    lemma_product_bound(v.x, r.x, mv, mr);
    lemma_product_bound(v.y, r.y, mv, mr);
    lemma_product_bound(v.x, r.y, mv, mr);
    lemma_product_bound(v.y, r.x, mv, mr);
    lemma_rounded_bound(v.x * r.x - v.y * r.y, 2 * (mv * mr));
    lemma_rounded_bound(v.x * r.y + v.y * r.x, 2 * (mv * mr));
}

/// A point agent: where it is, and which way it faces.
#[derive(Clone, Copy, Debug, PartialEq, Eq, Structural)]
pub struct Agent {
    pub position: Vec2,
    pub heading: Vec2,
}

impl View for Agent {
    type V = AgentModel;

    open spec fn view(&self) -> AgentModel {
        AgentModel { position: self.position@, heading: self.heading@ }
    }
}

/// The wander angle that `draw` selects, in 65536ths of a turn.
pub fn wander_angle(draw: u32) -> (turn: i64)
    ensures
        turn == wander_turn(draw as int),
        -328 <= turn <= 327,
{
    let d: i64 = (draw % DRAW_RANGE) as i64;
    let turn: i64 = floor_div(2 * d - (DRAW_RANGE as i64), WANDER_DIVISOR);
    assert(-328 <= turn <= 327) by (nonlinear_arith)
        requires
            turn == (2 * d - 0x80_0000) / 25600,
            0 <= d < 0x80_0000,
    ;
    turn
}

/// The rotation by the wander angle that `draw` selects.
pub fn wander_spin(draw: u32) -> (r: Vec2)
    ensures
        r@ == wander_rotation(draw as int),
        r@.within(ONE as int),
{
    let turn: i64 = wander_angle(draw);
    if turn >= 0 {
        Vec2::from_turn(turn as u16)
    } else {
        Vec2::from_turn((-turn) as u16).conjugate()
    }
}

/// The coordinate `c` reflected into `[0, extent]`.
pub fn reflect_coordinate(c: i64, extent: i64) -> (r: i64)
    requires
        0 <= extent <= 0x8000_0000,
        -0x4000_0000_0000_0000 <= c <= 0x4000_0000_0000_0000,
    ensures
        r == reflected(c as int, extent as int),
        0 <= r <= extent,
{
    let m: i64 = if c < 0 {
        -c
    } else if c > extent {
        2 * extent - c
    } else {
        c
    };
    if m < 0 {
        0
    } else if m > extent {
        extent
    } else {
        m
    }
}

/// The coordinate that `draw` selects around the centre of `[0, extent]`,
/// where `extent` is a number of whole units.
fn scatter_coordinate(extent: usize, draw: u32) -> (c: i64)
    requires
        1 <= extent <= MAX_EXTENT,
    ensures
        c == clamp(extent * HALF + scatter_offset(draw as int), 0, extent * ONE),
        0 <= c <= extent * ONE,
{
    let d: i64 = (draw % DRAW_RANGE) as i64;
    let offset: i64 = floor_div((2 * d - (DRAW_RANGE as i64)) * SCATTER_RADIUS, 128);
    let centre: i64 = (extent as i64) * HALF;
    let edge: i64 = (extent as i64) * ONE;
    let c: i64 = centre + offset;
    if c < 0 {
        0
    } else if c > edge {
        edge
    } else {
        c
    }
}

impl Agent {
    /// The agent that three draws scatter over the domain of `field`.
    pub fn scattered(field: &TrailField, turn_draw: u32, x_draw: u32, y_draw: u32) -> (agent:
        Agent)
        requires
            field.wf(),
        ensures
            agent@ == AgentModel::scattered(
                field@,
                turn_draw as int,
                x_draw as int,
                y_draw as int,
            ),
            agent@.wf(field@),
    {
        let turn: u16 = ((turn_draw % DRAW_RANGE) / 128) as u16;
        let x: i64 = scatter_coordinate(field.width(), x_draw);
        let y: i64 = scatter_coordinate(field.height(), y_draw);
        Agent { position: Vec2 { x, y }, heading: Vec2::from_turn(turn) }
    }

    /// The agent at `position` that faces along `heading`.
    pub fn new(position: Vec2, heading: Vec2) -> (agent: Agent)
        ensures
            agent@ == (AgentModel { position: position@, heading: heading@ }),
            agent.position == position,
            agent.heading == heading,
    {
        Agent { position, heading }
    }

    /// What the probe in direction `d` reads from `field`.
    fn read(&self, field: &TrailField, config: &SteeringConfig, d: Vec2) -> (v: u8)
        requires
            field.wf(),
            config.wf(),
            self@.inside(field@),
            d@.within(0x4_0000),
        ensures
            v == self@.reading(field@, *config, d@),
    {
        proof {
            lemma_scaled_within(d@, config.probe_distance as int, 0x4_0000, MAX_GAIN as int);
            assert(field@.width * ONE <= 0x8000_0000 && field@.height * ONE <= 0x8000_0000)
                by (nonlinear_arith)
                requires
                    field@.width <= 32768,
                    field@.height <= 32768,
            ;
        }
        let p = self.position.plus(d.scaled(config.probe_distance));
        field.sample_neighborhood_average(p.x, p.y)
    }

    /// Senses the trail ahead: the steering vector that the three probes
    /// give on `field`.
    pub fn sense(&self, field: &TrailField, config: &SteeringConfig) -> (s: Vec2)
        requires
            field.wf(),
            config.wf(),
            self@.wf(field@),
        ensures
            s@ == self@.steering(field@, *config),
            s@.within(ONE as int),
    {
        let spread = Vec2::from_turn(config.sensor_turn);
        proof {
            lemma_unit_within(self@.heading);
            lemma_rotated_within(self@.heading, spread@, ONE + 1, ONE as int);
            lemma_rotated_within(self@.heading, spread@.conjugate(), ONE + 1, ONE as int);
        }
        let l = self.heading.rotated(spread.conjugate());
        let m = self.heading;
        let r = self.heading.rotated(spread);
        let sl: u8 = self.read(field, config, l);
        let sm: u8 = self.read(field, config, m);
        let sr: u8 = self.read(field, config, r);
        proof {
            lemma_product_bound(l.x as int, sl as int, 0x4_0000, 255);
            lemma_product_bound(l.y as int, sl as int, 0x4_0000, 255);
            lemma_product_bound(m.x as int, sm as int, 0x4_0000, 255);
            lemma_product_bound(m.y as int, sm as int, 0x4_0000, 255);
            lemma_product_bound(r.x as int, sr as int, 0x4_0000, 255);
            lemma_product_bound(r.y as int, sr as int, 0x4_0000, 255);
        }
        let sum = l.times(sl as i64).plus(m.times(sm as i64)).plus(r.times(sr as i64));
        let s = sum.normalised();
        proof {
            if !sum@.is_zero() {
                lemma_normalised_is_unit(sum@);
            }
        }
        s
    }

    /// Turns the agent: the heading it takes, given the steering vector
    /// from its probes and the random draw that selects its wander angle.
    pub fn steer(&self, config: &SteeringConfig, steering: Vec2, draw: u32) -> (h: Vec2)
        requires
            config.wf(),
            self@.heading.is_unit(),
            steering@.within(ONE as int),
        ensures
            h@ == self@.turned(*config, steering@, draw as int),
            h@.is_unit(),
    {
        let angle = wander_spin(draw);
        proof {
            lemma_unit_within(self@.heading);
            lemma_rotated_within(self@.heading, angle@, ONE + 1, ONE as int);
        }
        let turned = self.heading.rotated(angle);
        proof {
            lemma_scaled_within(turned@, config.wander as int, 0x4_0000, MAX_GAIN as int);
        }
        let wander = turned.scaled(config.wander);
        proof {
            lemma_scaled_within(wander@, config.wander as int, 0x400_0001, MAX_GAIN as int);
            lemma_scaled_within(steering@, config.steer as int, ONE as int, MAX_GAIN as int);
        }
        let weighted = wander.scaled(config.wander).plus(steering.scaled(config.steer));
        proof {
            lemma_scaled_within(weighted@, config.turn as int, 0x4_0200_0002, MAX_GAIN as int);
        }
        let desired = self.heading.plus(weighted.scaled(config.turn));
        if desired.x == 0 && desired.y == 0 {
            self.heading
        } else {
            desired.normalised()
        }
    }

    /// Reflects the agent into the domain of `field`, each axis on its own:
    /// a coordinate beyond an edge is mirrored at that edge, and the
    /// heading component along that axis changes its sign.
    pub fn reflect(self, field: &TrailField) -> (agent: Agent)
        requires
            field.wf(),
            self@.position.within(0x4000_0000_0000_0000),
            self@.heading.within(0x4000_0000_0000_0000),
        ensures
            agent@ == self@.reflected(field@),
            agent@.inside(field@),
            self@.heading.is_unit() ==> agent@.heading.is_unit(),
    {
        let w: i64 = (field.width() as i64) * ONE;
        let h: i64 = (field.height() as i64) * ONE;
        let x: i64 = reflect_coordinate(self.position.x, w);
        let y: i64 = reflect_coordinate(self.position.y, h);
        let hx: i64 = if self.position.x < 0 || self.position.x > w {
            -self.heading.x
        } else {
            self.heading.x
        };
        let hy: i64 = if self.position.y < 0 || self.position.y > h {
            -self.heading.y
        } else {
            self.heading.y
        };
        let agent = Agent { position: Vec2 { x, y }, heading: Vec2 { x: hx, y: hy } };
        proof {
            assert(agent@.heading.norm_sq() == self@.heading.norm_sq()) by (nonlinear_arith)
                requires
                    agent@.heading.norm_sq() == hx * hx + hy * hy,
                    self@.heading.norm_sq() == self.heading.x * self.heading.x + self.heading.y
                        * self.heading.y,
                    hx == self.heading.x || hx == -self.heading.x,
                    hy == self.heading.y || hy == -self.heading.y,
            ;
        }
        agent
    }

    /// Marks the path that leaves `start` along `heading` for `distance`:
    /// a deposit at the start and at every half unit after it, short of the
    /// path's end.
    pub fn deposit_path(field: &mut TrailField, start: Vec2, heading: Vec2, distance: i64)
        requires
            old(field).wf(),
            start@.within(0x1_0000_0000),
            heading@.within(ONE + 1),
            0 <= distance <= 0x100_0000_0000,
        ensures
            final(field).wf(),
            final(field)@ == trail(old(field)@, start@, heading@, sub_steps(distance as int)),
            final(field)@.width == old(field)@.width,
            final(field)@.height == old(field)@.height,
    {
        let n: i64 = (distance + SUB_STEP - 1) / SUB_STEP;
        let mut i: i64 = 0;
        while i < n
            invariant
                0 <= i <= n,
                n == sub_steps(distance as int),
                0 <= distance <= 0x100_0000_0000,
                start@.within(0x1_0000_0000),
                heading@.within(ONE + 1),
                field.wf(),
                field@ == trail(old(field)@, start@, heading@, i as int),
            decreases n - i,
        {
            let offset: i64 = i * SUB_STEP;
            proof {
                lemma_scaled_within(heading@, offset as int, ONE + 1, 0x100_0000_0000);
            }
            let p = start.plus(heading.scaled(offset));
            field.deposit(p.x, p.y);
            i += 1;
        }
        proof {
            lemma_trail_wf(old(field)@, start@, heading@, n as int);
        }
    }

    /// One step of `elapsed` seconds: the agent senses the trail on
    /// `field`, turns, moves by the speed times the elapsed time, bounces
    /// off the edges of the domain and marks the path it took.
    pub fn step(
        &mut self,
        field: &mut TrailField,
        config: &SteeringConfig,
        elapsed: i64,
        draw: u32,
    )
        requires
            old(field).wf(),
            config.wf(),
            old(self)@.wf(old(field)@),
            0 <= elapsed <= MAX_ELAPSED,
        ensures
            final(self)@ == old(self)@.stepped(
                old(field)@,
                *config,
                elapsed as int,
                draw as int,
            ),
            final(field)@ == old(self)@.marked(old(field)@, *config, elapsed as int, draw as int),
            final(field).wf(),
            final(field)@.width == old(field)@.width,
            final(field)@.height == old(field)@.height,
            final(self)@.wf(final(field)@),
    {
        let steering = self.sense(field, config);
        let heading = self.steer(config, steering, draw);
        proof {
            lemma_product_bound(elapsed as int, config.speed as int, 0x8000_0000, 0x100_0000);
            lemma_fixed_mul_bound(elapsed as int, config.speed as int, 0x8000_0000, 0x100_0000);
            lemma_unit_within(heading@);
            assert(field@.width * ONE <= 0x8000_0000 && field@.height * ONE <= 0x8000_0000)
                by (nonlinear_arith)
                requires
                    field@.width <= 32768,
                    field@.height <= 32768,
            ;
        }
        let distance: i64 = scale(elapsed, config.speed);
        proof {
            lemma_scaled_within(heading@, distance as int, ONE + 1, 0x80_0000_0000);
        }
        let advanced = Agent { position: self.position.plus(heading.scaled(distance)), heading };
        let next = advanced.reflect(field);
        Agent::deposit_path(field, self.position, heading, distance);
        *self = next;
    }
}

} // verus!
