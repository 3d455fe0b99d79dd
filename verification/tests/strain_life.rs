use matrix_cascade::counter::LimitedCounter;
use matrix_cascade::strain::{Alive, Strain};

fn fade(x: Option<u16>) -> Option<u16> {
    x
}

fn lit(strain: &Strain<Alive>, bound: u16) -> usize {
    strain
        .mask(bound, fade)
        .iter()
        .filter(|cell| cell.is_some())
        .count()
}

/// Ticks until the trail dies and gives the number of the deadly tick.
fn ticks_to_death(mut strain: Strain<Alive>, bound: u16) -> u32 {
    let mut ticks = 0;
    loop {
        ticks += 1;
        match strain.tick(bound) {
            Ok(next) => strain = next,
            Err(_) => return ticks,
        }
        assert!(ticks < 1_000_000);
    }
}

#[test]
fn first_tick_kills_a_trail_that_starts_on_the_bound() {
    let strain = Strain::new(5, 3, LimitedCounter::new(1));
    assert!(strain.tick(5).is_err());
}

#[test]
fn first_tick_kills_a_trail_that_starts_below_the_bound() {
    for bound in 0..8u16 {
        for start in bound..12 {
            let strain = Strain::new(start, 2, LimitedCounter::new(3));
            assert!(strain.tick(bound).is_err());
        }
    }
}

#[test]
fn first_tick_kills_a_trail_at_the_largest_start() {
    let strain = Strain::new(u16::MAX, 1, LimitedCounter::new(1));
    assert!(strain.tick(u16::MAX).is_err());
}

#[test]
fn trail_outside_the_column_shows_nothing() {
    let strain = Strain::new(7, 3, LimitedCounter::new(1));
    assert_eq!(vec![None; 5], strain.mask(5, fade));
}

#[test]
fn mask_of_an_empty_column_is_empty() {
    let strain = Strain::new(0, 3, LimitedCounter::new(1));
    assert_eq!(Vec::<Option<u16>>::new(), strain.mask(0, fade));
}

#[test]
fn mask_is_as_long_as_the_bound_in_every_state() {
    let mut strain = Strain::new(1, 4, LimitedCounter::new(2));
    loop {
        for bound in [0u16, 1, 2, 5, 9, 10, 11, 40] {
            assert_eq!(bound as usize, strain.mask(bound, fade).len());
        }
        match strain.tick(10) {
            Ok(next) => strain = next,
            Err(_) => break,
        }
    }
}

#[test]
fn mask_against_a_smaller_bound_is_cut_to_it() {
    let mut strain = Strain::new(0, 3, LimitedCounter::new(1));
    for _ in 0..6 {
        strain = strain.tick(10).unwrap();
    }
    assert_eq!(vec![None, None, None, None], strain.mask(4, fade));
    assert_eq!(
        vec![None, None, None, None, Some(2)],
        strain.mask(5, fade)
    );
}

#[test]
fn fade_index_counts_back_from_the_head() {
    let mut strain = Strain::new(0, 3, LimitedCounter::new(1));
    assert_eq!(vec![Some(0), None, None, None, None], strain.mask(5, fade));
    strain = strain.tick(5).unwrap();
    assert_eq!(
        vec![Some(1), Some(0), None, None, None],
        strain.mask(5, fade)
    );
    strain = strain.tick(5).unwrap();
    strain = strain.tick(5).unwrap();
    assert_eq!(
        vec![None, Some(2), Some(1), Some(0), None],
        strain.mask(5, fade)
    );
}

#[test]
fn fade_index_keeps_counting_the_rows_that_were_lost() {
    let mut strain = Strain::new(0, 3, LimitedCounter::new(1));
    for _ in 0..5 {
        strain = strain.tick(5).unwrap();
    }
    assert_eq!(
        vec![None, None, None, Some(2), Some(1)],
        strain.mask(5, fade)
    );
    strain = strain.tick(5).unwrap();
    assert_eq!(vec![None, None, None, None, Some(2)], strain.mask(5, fade));
}

#[test]
fn cell_agrees_with_the_mask() {
    let mut strain = Strain::new(2, 4, LimitedCounter::new(1));
    loop {
        let mask = strain.mask(9, fade);
        for row in 0..9u16 {
            assert_eq!(mask[row as usize], strain.cell(9, row));
        }
        match strain.tick(9) {
            Ok(next) => strain = next,
            Err(_) => break,
        }
    }
}

#[test]
fn length_never_grows_and_shrinks_by_one_at_the_bottom() {
    let bound = 6;
    let mut strain = Strain::new(0, 4, LimitedCounter::new(1));
    let mut seen = Vec::new();
    loop {
        seen.push(lit(&strain, bound));
        match strain.tick(bound) {
            Ok(next) => strain = next,
            Err(_) => break,
        }
    }
    assert_eq!(vec![1, 2, 3, 4, 4, 4, 3, 2, 1], seen);
}

#[test]
fn slow_trail_keeps_its_length_between_moves() {
    let bound = 3;
    let mut strain = Strain::new(0, 2, LimitedCounter::new(2));
    let mut seen = Vec::new();
    loop {
        seen.push(strain.mask(bound, fade));
        match strain.tick(bound) {
            Ok(next) => strain = next,
            Err(_) => break,
        }
    }
    let first = vec![Some(0), None, None];
    let second = vec![Some(1), Some(0), None];
    let third = vec![None, Some(1), Some(0)];
    let last = vec![None, None, Some(1)];
    assert_eq!(
        vec![
            first.clone(),
            first,
            second.clone(),
            second,
            third.clone(),
            third,
            last.clone(),
            last
        ],
        seen
    );
}

#[test]
fn full_speed_trail_on_the_last_row_lives_as_many_ticks_as_it_is_long() {
    for len in 1..9u16 {
        let bound = 12;
        let mut strain = Strain::new(0, len, LimitedCounter::new(1));
        for _ in 0..bound - 1 {
            strain = strain.tick(bound).unwrap();
        }
        assert_eq!(len as usize, lit(&strain, bound));
        assert_eq!(len as u32, ticks_to_death(strain, bound));
    }
}

#[test]
fn new_trail_dies_on_the_tick_its_moves_and_speed_give() {
    assert_eq!(7, ticks_to_death(Strain::new(0, 3, LimitedCounter::new(1)), 5));
    assert_eq!(4, ticks_to_death(Strain::new(3, 3, LimitedCounter::new(1)), 5));
    assert_eq!(10, ticks_to_death(Strain::new(0, 6, LimitedCounter::new(1)), 5));
    assert_eq!(14, ticks_to_death(Strain::new(0, 3, LimitedCounter::new(2)), 5));
    assert_eq!(35, ticks_to_death(Strain::new(0, 3, LimitedCounter::new(5)), 5));
    assert_eq!(1, ticks_to_death(Strain::new(0, 1, LimitedCounter::new(1)), 1));
    assert_eq!(3, ticks_to_death(Strain::new(0, 1, LimitedCounter::new(3)), 1));
}

#[test]
fn speed_limit_stretches_the_life_by_its_factor() {
    for limit in 1..6u16 {
        for start in 0..4u16 {
            for len in 1..5u16 {
                let fast = ticks_to_death(Strain::new(start, len, LimitedCounter::new(1)), 6);
                let slow = ticks_to_death(Strain::new(start, len, LimitedCounter::new(limit)), 6);
                assert_eq!(limit as u32 * fast, slow);
                assert_eq!((6 - 1 - start + len) as u32, fast);
            }
        }
    }
}

#[test]
fn shrunk_bound_takes_several_rows_at_once() {
    let mut strain = Strain::new(0, 5, LimitedCounter::new(1));
    for _ in 0..9 {
        strain = strain.tick(10).unwrap();
    }
    assert_eq!(5, lit(&strain, 10));
    strain = strain.tick(7).unwrap();
    assert_eq!(
        vec![None, None, None, None, None, None, Some(4)],
        strain.mask(7, fade)
    );
    assert!(strain.tick(7).is_err());
}

#[test]
fn shrunk_bound_kills_a_trail_that_it_takes_whole() {
    let mut strain = Strain::new(0, 3, LimitedCounter::new(1));
    for _ in 0..9 {
        strain = strain.tick(10).unwrap();
    }
    assert!(strain.tick(7).is_err());
}

#[test]
fn tick_near_the_largest_bound_does_not_overflow() {
    let bound = u16::MAX;
    let mut strain = Strain::new(bound - 2, 2, LimitedCounter::new(1));
    strain = strain.tick(bound).unwrap();
    assert_eq!(Some(0), strain.cell(bound, bound - 1));
    assert_eq!(Some(1), strain.cell(bound, bound - 2));
    strain = strain.tick(bound).unwrap();
    assert_eq!(Some(1), strain.cell(bound, bound - 1));
    assert_eq!(None, strain.cell(bound, bound - 2));
    assert!(strain.tick(bound).is_err());
}

#[test]
fn bump_bound_keeps_a_survivor_as_it_was() {
    let mut strain = Strain::new(0, 3, LimitedCounter::new(1));
    strain = strain.tick(5).unwrap();
    let before = strain.mask(5, fade);
    let strain = strain.bump_bound(5).unwrap();
    assert_eq!(before, strain.mask(5, fade));
    assert_eq!(6, ticks_to_death(strain, 5));
}

#[test]
fn bump_bound_reports_a_bound_that_kills() {
    let strain = Strain::new(3, 3, LimitedCounter::new(1));
    assert!(strain.bump_bound(3).is_err());
    let mut strain = Strain::new(0, 1, LimitedCounter::new(1));
    for _ in 0..4 {
        strain = strain.tick(5).unwrap();
    }
    assert!(strain.bump_bound(5).is_err());
}

#[test]
fn bump_bound_of_a_slow_trail_does_not_advance_its_speed() {
    let strain = Strain::new(0, 2, LimitedCounter::new(2));
    let strain = strain.bump_bound(4).unwrap();
    let strain = strain.bump_bound(4).unwrap();
    assert_eq!(10, ticks_to_death(strain, 4));
}

#[test]
fn clone_lives_the_same_life() {
    let mut strain = Strain::new(1, 3, LimitedCounter::new(2));
    strain = strain.tick(6).unwrap();
    let twin = strain.clone();
    assert_eq!(strain.mask(6, fade), twin.mask(6, fade));
    assert_eq!(ticks_to_death(strain, 6), ticks_to_death(twin, 6));
}
