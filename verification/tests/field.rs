use physarum::field::{TrailField, MAX_EXTENT, MAX_INTENSITY, MIN_INTENSITY};
use physarum::fixed::ONE;

fn single_peak() -> TrailField {
    let mut field = TrailField::new(4, 4);
    field.deposit(ONE + ONE / 2, ONE + ONE / 2);
    field
}

fn total(field: &TrailField) -> u64 {
    field.cells().iter().map(|&v| v as u64).sum()
}

fn peak(field: &TrailField) -> u8 {
    field.cells().iter().copied().max().unwrap()
}

#[test]
fn new_field_is_blank() {
    let field = TrailField::new(5, 3);
    assert_eq!(field.width(), 5);
    assert_eq!(field.height(), 3);
    assert_eq!(field.cells().len(), 15);
    assert!(field.cells().iter().all(|&v| v == MIN_INTENSITY));
}

#[test]
fn smallest_and_largest_fields() {
    let small = TrailField::new(1, 1);
    assert_eq!(small.cells().len(), 1);
    let wide = TrailField::new(MAX_EXTENT, 1);
    assert_eq!(wide.cells().len(), 32768);
}

#[test]
fn cells_are_stored_row_by_row() {
    let mut field = TrailField::new(5, 3);
    field.deposit(4 * ONE, 2 * ONE);
    assert_eq!(field.get(4, 2), 255);
    assert_eq!(field.cells()[2 * 5 + 4], 255);
    assert_eq!(field.cells().iter().filter(|&&v| v != 0).count(), 1);
}

#[test]
fn deposit_marks_one_cell_with_the_highest_intensity() {
    let field = single_peak();
    for y in 0..4 {
        for x in 0..4 {
            let expected = if x == 1 && y == 1 { MAX_INTENSITY } else { 0 };
            assert_eq!(field.get(x, y), expected);
        }
    }
}

#[test]
fn repeated_deposits_do_not_add_up() {
    let mut field = single_peak();
    let once: Vec<u8> = field.cells().clone();
    for _ in 0..10 {
        field.deposit(ONE + 1, 2 * ONE - 1);
    }
    assert_eq!(field.get(1, 1), 255);
    assert_eq!(field.cells(), &once);
}

#[test]
fn deposit_overwrites_a_faded_cell() {
    let mut field = single_peak();
    field.decay(10);
    assert_eq!(field.get(1, 1), 18);
    field.deposit(ONE, ONE);
    assert_eq!(field.get(1, 1), 255);
}

#[test]
fn cell_of_rounds_down_and_holds_within_the_grid() {
    let field = TrailField::new(4, 3);
    assert_eq!(field.cell_of(0, 0), (0, 0));
    assert_eq!(field.cell_of(ONE - 1, ONE), (0, 1));
    assert_eq!(field.cell_of(3 * ONE + 5, 2 * ONE + 7), (3, 2));
    assert_eq!(field.cell_of(4 * ONE, 3 * ONE), (3, 2));
    assert_eq!(field.cell_of(-1, -ONE), (0, 0));
    assert_eq!(field.cell_of(i64::MAX, i64::MIN), (3, 0));
    assert_eq!(field.cell_of(i64::MIN, i64::MAX), (0, 2));
}

#[test]
fn deposit_beyond_the_edges_marks_the_border() {
    let mut field = TrailField::new(4, 4);
    field.deposit(-5 * ONE, 100 * ONE);
    assert_eq!(field.get(0, 3), 255);
    field.deposit(100 * ONE, -5 * ONE);
    assert_eq!(field.get(3, 0), 255);
    assert_eq!(field.cells().iter().filter(|&&v| v != 0).count(), 2);
}

#[test]
fn decay_spreads_a_single_peak_over_its_block() {
    let mut field = single_peak();
    field.decay(10);
    for y in 0..4usize {
        for x in 0..4usize {
            let expected: u8 = if x <= 2 && y <= 2 { 255 / 9 - 10 } else { 0 };
            assert_eq!(field.get(x, y), expected, "cell ({}, {})", x, y);
        }
    }
    assert_eq!(field.get(1, 1), 18);
}

#[test]
fn decay_never_goes_below_the_lowest_intensity() {
    let mut field = single_peak();
    field.decay(200);
    assert!(field.cells().iter().all(|&v| v == 0));
}

#[test]
fn decay_reads_the_grid_as_it_was_before_the_pass() {
    // A row of three cells: 255, 0, 0.  Were the pass to read cells it had
    // already rewritten, the middle cell would see 170 in place of 255.
    let mut field = TrailField::new(3, 1);
    field.deposit(0, 0);
    field.decay(0);
    // Left cell: the block reads the border twice over: 6 * 255 / 9.
    assert_eq!(field.get(0, 0), 170);
    // Middle cell: 3 * 255 / 9.
    assert_eq!(field.get(1, 0), 85);
    assert_eq!(field.get(2, 0), 0);
}

#[test]
fn border_cells_replicate_at_the_edges() {
    let mut field = TrailField::new(4, 4);
    field.deposit(0, 0);
    // The corner is read four times by the block centred on it.
    assert_eq!(field.neighborhood_average(0, 0), (4 * 255 / 9) as u8);
    assert_eq!(field.neighborhood_average(1, 0), (2 * 255 / 9) as u8);
    assert_eq!(field.neighborhood_average(1, 1), (255 / 9) as u8);
    assert_eq!(field.neighborhood_average(2, 2), 0);
}

#[test]
fn sample_matches_the_mean_that_decay_uses() {
    let mut field = single_peak();
    field.deposit(3 * ONE, 0);
    let mut sampled: Vec<u8> = Vec::new();
    for y in 0..4i64 {
        for x in 0..4i64 {
            sampled.push(field.sample_neighborhood_average(x * ONE + 17, y * ONE + 40000));
        }
    }
    field.decay(0);
    assert_eq!(field.cells(), &sampled);
}

#[test]
fn sample_outside_the_grid_reads_the_border() {
    let field = single_peak();
    assert_eq!(field.sample_neighborhood_average(-10 * ONE, -10 * ONE), 28);
    assert_eq!(field.sample_neighborhood_average(10 * ONE, 10 * ONE), 0);
}

#[test]
fn intensities_stay_in_range() {
    let mut field = TrailField::new(6, 6);
    for step in 0..40i64 {
        field.deposit((step % 6) * ONE, ((step * 7) % 6) * ONE);
        field.decay((step % 5) as u8);
        assert!(field
            .cells()
            .iter()
            .all(|&v| MIN_INTENSITY <= v && v <= MAX_INTENSITY));
    }
}

#[test]
fn peak_falls_with_every_pass_until_it_rests() {
    let mut field = TrailField::new(5, 5);
    for i in 0..5i64 {
        field.deposit(i * ONE, i * ONE);
        field.deposit(i * ONE, 2 * ONE);
    }
    let mut before = peak(&field);
    assert_eq!(before, 255);
    for _ in 0..100 {
        field.decay(3);
        let after = peak(&field);
        assert!(after <= before.saturating_sub(3));
        assert!(after < before || after == 0);
        before = after;
    }
    assert_eq!(before, 0);
}

#[test]
fn decay_without_evaporation_does_not_raise_the_peak() {
    let mut field = TrailField::new(3, 3);
    for y in 0..3i64 {
        for x in 0..3i64 {
            field.deposit(x * ONE, y * ONE);
        }
    }
    field.decay(0);
    assert!(field.cells().iter().all(|&v| v == 255));
}

#[test]
fn total_falls_with_every_pass_until_nothing_is_left() {
    let mut field = TrailField::new(7, 5);
    for i in 0..7i64 {
        field.deposit(i * ONE, (i % 5) * ONE);
        field.deposit(0, (i % 5) * ONE);
    }
    let mut before = total(&field);
    assert_eq!(before, 11 * 255);
    for _ in 0..300 {
        field.decay(1);
        let after = total(&field);
        assert!(after < before || after == 0);
        before = after;
    }
    assert_eq!(before, 0);
}

#[test]
fn total_does_not_rise_without_evaporation() {
    let mut field = TrailField::new(4, 6);
    field.deposit(0, 0);
    field.deposit(3 * ONE, 5 * ONE);
    field.deposit(2 * ONE, 3 * ONE);
    let mut before = total(&field);
    for _ in 0..50 {
        field.decay(0);
        let after = total(&field);
        assert!(after <= before);
        before = after;
    }
}

#[test]
fn a_uniform_field_keeps_its_total_without_evaporation() {
    let mut field = TrailField::new(3, 2);
    for y in 0..2i64 {
        for x in 0..3i64 {
            field.deposit(x * ONE, y * ONE);
        }
    }
    field.decay(0);
    assert_eq!(total(&field), 6 * 255);
}
