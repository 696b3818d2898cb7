use physarum::agent::{
    reflect_coordinate, wander_angle, wander_spin, Agent, DRAW_RANGE, MAX_ELAPSED, SUB_STEP,
};
use physarum::config::SteeringConfig;
use physarum::field::TrailField;
use physarum::fixed::{HALF, ONE};
use physarum::vector::Vec2;

fn config() -> SteeringConfig {
    SteeringConfig {
        evaporation: 10,
        wander: 3 * ONE,
        steer: 5 * ONE,
        turn: ONE,
        speed: 60 * ONE,
        probe_distance: 3 * ONE,
        sensor_turn: 5461,
    }
}

fn marked_cells(field: &TrailField) -> Vec<(usize, usize)> {
    let mut cells = Vec::new();
    for y in 0..field.height() {
        for x in 0..field.width() {
            if field.get(x, y) != 0 {
                cells.push((x, y));
            }
        }
    }
    cells
}

#[test]
fn wander_angle_spans_one_two_hundredth_of_a_turn_each_way() {
    assert_eq!(wander_angle(0), -328);
    assert_eq!(wander_angle(DRAW_RANGE / 2), 0);
    assert_eq!(wander_angle(DRAW_RANGE - 1), 327);
    assert_eq!(wander_angle(DRAW_RANGE / 2 + 12800), 1);
    assert_eq!(wander_angle(DRAW_RANGE / 2 - 1), -1);
    // Only the low 23 bits of a draw count.
    assert_eq!(wander_angle(DRAW_RANGE), -328);
    assert_eq!(wander_angle(u32::MAX), 327);
}

#[test]
fn wander_rotations_mirror_each_other() {
    assert_eq!(wander_spin(DRAW_RANGE / 2), Vec2::new(ONE, 0));
    let forward = wander_spin(DRAW_RANGE / 2 + 100 * 12800);
    let backward = wander_spin(DRAW_RANGE / 2 - 100 * 12800);
    assert_eq!(forward, Vec2::from_turn(100));
    assert_eq!(backward, forward.conjugate());
    assert!(forward.y > 0);
}

#[test]
fn reflect_coordinate_mirrors_at_the_edge_crossed() {
    assert_eq!(reflect_coordinate(50, 100), 50);
    assert_eq!(reflect_coordinate(0, 100), 0);
    assert_eq!(reflect_coordinate(100, 100), 100);
    assert_eq!(reflect_coordinate(-5, 100), 5);
    assert_eq!(reflect_coordinate(105, 100), 95);
    assert_eq!(reflect_coordinate(-100, 100), 100);
    assert_eq!(reflect_coordinate(200, 100), 0);
}

#[test]
fn reflect_coordinate_holds_a_far_overshoot_at_the_edge() {
    assert_eq!(reflect_coordinate(250, 100), 0);
    assert_eq!(reflect_coordinate(-150, 100), 100);
    assert_eq!(reflect_coordinate(7, 0), 0);
}

#[test]
fn reflect_negates_the_heading_on_the_axis_crossed() {
    let field = TrailField::new(10, 20);
    let heading = Vec2::new(39321, 52428);
    let inside = Agent::new(Vec2::new(3 * ONE, 4 * ONE), heading).reflect(&field);
    assert_eq!(inside, Agent::new(Vec2::new(3 * ONE, 4 * ONE), heading));
    let right = Agent::new(Vec2::new(11 * ONE, 4 * ONE), heading).reflect(&field);
    assert_eq!(right, Agent::new(Vec2::new(9 * ONE, 4 * ONE), Vec2::new(-39321, 52428)));
    let top = Agent::new(Vec2::new(3 * ONE, -ONE), heading).reflect(&field);
    assert_eq!(top, Agent::new(Vec2::new(3 * ONE, ONE), Vec2::new(39321, -52428)));
    let corner = Agent::new(Vec2::new(-2 * ONE, 23 * ONE), heading).reflect(&field);
    assert_eq!(corner, Agent::new(Vec2::new(2 * ONE, 17 * ONE), Vec2::new(-39321, -52428)));
}

#[test]
fn sense_on_a_blank_field_gives_no_steering() {
    let field = TrailField::new(32, 32);
    let agent = Agent::new(Vec2::new(16 * ONE, 16 * ONE), Vec2::new(ONE, 0));
    assert_eq!(agent.sense(&field, &config()), Vec2::new(0, 0));
}

#[test]
fn sense_steers_toward_the_trail() {
    let agent = Agent::new(Vec2::new(10 * ONE + HALF, 10 * ONE + HALF), Vec2::new(ONE, 0));
    // The probe turned by the sensor spread reads the cell at (13, 11); the
    // blocks of the other two, at (13, 10) and (13, 9), do not reach row 12.
    let mut field = TrailField::new(32, 32);
    field.deposit(13 * ONE, 12 * ONE);
    let toward = agent.sense(&field, &config());
    assert!(toward.is_unit());
    assert_eq!(toward, Vec2::from_turn(5461).times(28).normalised());
    assert!(toward.x > 0 && toward.y > 0);
    // The mirror image of the trail steers the other way.
    let mut field = TrailField::new(32, 32);
    field.deposit(13 * ONE, 8 * ONE);
    let away = agent.sense(&field, &config());
    assert!(away.is_unit());
    assert_eq!(away, Vec2::from_turn(5461).conjugate().times(28).normalised());
    assert!(away.x > 0 && away.y < 0);
}

#[test]
fn sense_straight_ahead_weighs_the_three_probes() {
    let agent = Agent::new(Vec2::new(10 * ONE + HALF, 10 * ONE + HALF), Vec2::new(ONE, 0));
    let mut field = TrailField::new(32, 32);
    field.deposit(14 * ONE, 10 * ONE);
    // Only the middle probe, at (13.5, 10.5), has the deposit in its block.
    assert_eq!(field.sample_neighborhood_average(13 * ONE + HALF, 10 * ONE + HALF), 28);
    assert_eq!(agent.sense(&field, &config()), Vec2::new(ONE, 0));
}

#[test]
fn steer_without_wander_or_steering_keeps_the_heading() {
    let mut quiet = config();
    quiet.wander = 0;
    quiet.steer = 0;
    let agent = Agent::new(Vec2::new(0, 0), Vec2::new(0, -ONE));
    for draw in [0, 1, DRAW_RANGE / 2, DRAW_RANGE - 1] {
        assert_eq!(agent.steer(&quiet, Vec2::new(ONE, 0), draw), Vec2::new(0, -ONE));
    }
}

#[test]
fn steer_keeps_the_heading_where_the_blend_is_zero() {
    let mut c = config();
    c.wander = 0;
    c.steer = ONE;
    c.turn = ONE;
    let agent = Agent::new(Vec2::new(0, 0), Vec2::new(ONE, 0));
    assert_eq!(agent.steer(&c, Vec2::new(-ONE, 0), 12345), Vec2::new(ONE, 0));
}

#[test]
fn steer_blends_heading_and_steering() {
    let mut c = config();
    c.wander = 0;
    c.steer = ONE;
    c.turn = ONE;
    let agent = Agent::new(Vec2::new(0, 0), Vec2::new(ONE, 0));
    // (1, 0) + (0, 1) normalised.
    assert_eq!(agent.steer(&c, Vec2::new(0, ONE), 0), Vec2::new(46340, 46340));
    c.turn = 0;
    assert_eq!(agent.steer(&c, Vec2::new(0, ONE), 0), Vec2::new(ONE, 0));
}

#[test]
fn steer_wanders_as_the_draw_selects() {
    let mut c = config();
    c.wander = ONE;
    c.steer = 0;
    c.turn = ONE;
    let agent = Agent::new(Vec2::new(0, 0), Vec2::new(ONE, 0));
    // A draw of one half selects no turn at all.
    assert_eq!(agent.steer(&c, Vec2::new(0, 0), DRAW_RANGE / 2), Vec2::new(ONE, 0));
    let one_way = agent.steer(&c, Vec2::new(0, 0), DRAW_RANGE - 1);
    let other_way = agent.steer(&c, Vec2::new(0, 0), 0);
    assert!(one_way.is_unit() && other_way.is_unit());
    assert!(one_way.y > 0 && other_way.y < 0);
    // Heading plus the wander vector at 327 65536ths of a turn, normalised.
    let spin = Vec2::from_turn(327);
    assert_eq!(one_way, Vec2::new(ONE + spin.x, spin.y).normalised());
}

#[test]
fn deposit_path_marks_every_half_unit() {
    let mut field = TrailField::new(8, 2);
    Agent::deposit_path(&mut field, Vec2::new(HALF, HALF), Vec2::new(ONE, 0), 3 * ONE);
    assert_eq!(marked_cells(&field), vec![(0, 0), (1, 0), (2, 0), (3, 0)]);
    let mut field = TrailField::new(8, 2);
    Agent::deposit_path(&mut field, Vec2::new(0, ONE), Vec2::new(ONE, 0), 3 * ONE);
    // Six deposits, at 0, 0.5, ..., 2.5: the end of the path is not marked.
    assert_eq!(marked_cells(&field), vec![(0, 1), (1, 1), (2, 1)]);
}

#[test]
fn deposit_path_rounds_the_number_of_deposits_up() {
    let mut field = TrailField::new(8, 1);
    Agent::deposit_path(&mut field, Vec2::new(0, 0), Vec2::new(ONE, 0), 3 * ONE + 1);
    // Seven deposits: the last at 3.0.
    assert_eq!(marked_cells(&field), vec![(0, 0), (1, 0), (2, 0), (3, 0)]);
    let mut field = TrailField::new(8, 1);
    Agent::deposit_path(&mut field, Vec2::new(0, 0), Vec2::new(ONE, 0), 1);
    assert_eq!(marked_cells(&field), vec![(0, 0)]);
    let mut field = TrailField::new(8, 1);
    Agent::deposit_path(&mut field, Vec2::new(0, 0), Vec2::new(ONE, 0), 0);
    assert_eq!(marked_cells(&field), vec![]);
    assert_eq!(SUB_STEP, HALF);
}

#[test]
fn deposit_path_beyond_the_grid_marks_the_border() {
    let mut field = TrailField::new(3, 3);
    Agent::deposit_path(&mut field, Vec2::new(2 * ONE, ONE), Vec2::new(ONE, 0), 5 * ONE);
    assert_eq!(marked_cells(&field), vec![(2, 1)]);
}

#[test]
fn step_moves_by_speed_times_elapsed() {
    let mut quiet = config();
    quiet.wander = 0;
    quiet.steer = 0;
    let mut field = TrailField::new(256, 256);
    let mut agent = Agent::new(Vec2::new(128 * ONE, 128 * ONE), Vec2::new(0, ONE));
    agent.step(&mut field, &quiet, HALF, 7);
    assert_eq!(agent, Agent::new(Vec2::new(128 * ONE, 158 * ONE), Vec2::new(0, ONE)));
    let marked = marked_cells(&field);
    assert_eq!(marked.len(), 30);
    assert!(marked.iter().all(|&(x, y)| x == 128 && 128 <= y && y < 158));
}

#[test]
fn step_with_no_time_elapsed_turns_but_does_not_move() {
    let mut field = TrailField::new(16, 16);
    field.deposit(8 * ONE, 11 * ONE);
    let mut agent = Agent::new(Vec2::new(8 * ONE, 8 * ONE), Vec2::new(0, ONE));
    agent.step(&mut field, &config(), 0, 99);
    assert_eq!(agent.position, Vec2::new(8 * ONE, 8 * ONE));
    assert!(agent.heading.is_unit());
    assert_eq!(marked_cells(&field), vec![(8, 11)]);
}

#[test]
fn step_stays_inside_and_keeps_a_unit_heading() {
    let mut field = TrailField::new(20, 12);
    let mut agent = Agent::new(Vec2::new(3 * ONE, 11 * ONE), Vec2::from_turn(7000));
    let mut draw: u32 = 1;
    for round in 0..300i64 {
        draw = draw.wrapping_mul(1664525).wrapping_add(1013904223);
        let elapsed = if round % 50 == 49 { MAX_ELAPSED / 1024 } else { 1092 + round };
        field.decay(10);
        agent.step(&mut field, &config(), elapsed, draw);
        assert!(0 <= agent.position.x && agent.position.x <= 20 * ONE);
        assert!(0 <= agent.position.y && agent.position.y <= 12 * ONE);
        assert!(agent.heading.is_unit());
    }
}

#[test]
fn scattered_agents_lie_about_the_centre() {
    let field = TrailField::new(256, 256);
    let half = DRAW_RANGE / 2;
    let centre = Agent::scattered(&field, 0, half, half);
    assert_eq!(centre, Agent::new(Vec2::new(128 * ONE, 128 * ONE), Vec2::new(ONE, 0)));
    let low = Agent::scattered(&field, DRAW_RANGE / 4, 0, DRAW_RANGE - 1);
    assert_eq!(low.heading, Vec2::new(0, ONE));
    assert_eq!(low.position.x, 98 * ONE);
    assert_eq!(low.position.y, 158 * ONE - 1);
    let back = Agent::scattered(&field, DRAW_RANGE / 2, half + half / 2, half - half / 3);
    assert_eq!(back.heading, Vec2::new(-ONE, 0));
    assert_eq!(back.position.x, 143 * ONE);
    assert_eq!(back.position.y, 118 * ONE);
}

#[test]
fn scattered_agents_stay_inside_a_small_domain() {
    let field = TrailField::new(4, 40);
    let a = Agent::scattered(&field, 5, 0, 0);
    assert_eq!(a.position, Vec2::new(0, 0));
    let b = Agent::scattered(&field, 5, DRAW_RANGE - 1, DRAW_RANGE - 1);
    assert_eq!(b.position, Vec2::new(4 * ONE, 40 * ONE));
    assert!(a.heading.is_unit() && b.heading.is_unit());
}
