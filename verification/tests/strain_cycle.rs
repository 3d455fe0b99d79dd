use matrix_cascade::counter::LimitedCounter;
use matrix_cascade::strain::{Alive, Strain};

fn filled(x: Option<u16>) -> i32 {
    match x {
        Some(_) => 1,
        None => 0,
    }
}

#[test]
fn strain_creation() {
    let strain: Strain<Alive> = Strain::new(0, 3, LimitedCounter::new(1));
    let bound = 5;
    let expected = vec![1, 0, 0, 0, 0];
    let mask = strain.mask(bound, |x| match x {
        Some(_) => 1,
        None => 0,
    });
    assert_eq!(expected, mask);
}

#[test]
fn small_strain_cycle() {
    let mut strain: Strain<Alive> = Strain::new(0, 3, LimitedCounter::new(1));
    let bound = 5;
    assert_eq!(vec![1, 0, 0, 0, 0], strain.mask(bound, filled));
    strain = strain.tick(bound).unwrap();
    assert_eq!(vec![1, 1, 0, 0, 0], strain.mask(bound, filled));
    strain = strain.tick(bound).unwrap();
    assert_eq!(vec![1, 1, 1, 0, 0], strain.mask(bound, filled));
    strain = strain.tick(bound).unwrap();
    assert_eq!(vec![0, 1, 1, 1, 0], strain.mask(bound, filled));
    strain = strain.tick(bound).unwrap();
    assert_eq!(vec![0, 0, 1, 1, 1], strain.mask(bound, filled));
    strain = strain.tick(bound).unwrap();
    assert_eq!(vec![0, 0, 0, 1, 1], strain.mask(bound, filled));
    strain = strain.tick(bound).unwrap();
    assert_eq!(vec![0, 0, 0, 0, 1], strain.mask(bound, filled));

    assert!(strain.tick(bound).is_err());
}

#[test]
fn long_strain_cycle() {
    let mut strain: Strain<Alive> = Strain::new(0, 6, LimitedCounter::new(1));
    let bound = 5;
    assert_eq!(vec![1, 0, 0, 0, 0], strain.mask(bound, filled));
    strain = strain.tick(bound).unwrap();
    assert_eq!(vec![1, 1, 0, 0, 0], strain.mask(bound, filled));
    strain = strain.tick(bound).unwrap();
    assert_eq!(vec![1, 1, 1, 0, 0], strain.mask(bound, filled));
    strain = strain.tick(bound).unwrap();
    assert_eq!(vec![1, 1, 1, 1, 0], strain.mask(bound, filled));
    strain = strain.tick(bound).unwrap();
    assert_eq!(vec![1, 1, 1, 1, 1], strain.mask(bound, filled));
    strain = strain.tick(bound).unwrap();
    assert_eq!(vec![1, 1, 1, 1, 1], strain.mask(bound, filled));
    strain = strain.tick(bound).unwrap();
    assert_eq!(vec![0, 1, 1, 1, 1], strain.mask(bound, filled));
    strain = strain.tick(bound).unwrap();
    assert_eq!(vec![0, 0, 1, 1, 1], strain.mask(bound, filled));
    strain = strain.tick(bound).unwrap();
    assert_eq!(vec![0, 0, 0, 1, 1], strain.mask(bound, filled));
    strain = strain.tick(bound).unwrap();
    assert_eq!(vec![0, 0, 0, 0, 1], strain.mask(bound, filled));

    assert!(strain.tick(bound).is_err());
}

#[test]
fn custom_start_strain_cycle() {
    let mut strain: Strain<Alive> = Strain::new(3, 3, LimitedCounter::new(1));
    let bound = 5;
    assert_eq!(vec![0, 0, 0, 1, 0], strain.mask(bound, filled));
    strain = strain.tick(bound).unwrap();
    assert_eq!(vec![0, 0, 0, 1, 1], strain.mask(bound, filled));
    strain = strain.tick(bound).unwrap();
    assert_eq!(vec![0, 0, 0, 1, 1], strain.mask(bound, filled));
    strain = strain.tick(bound).unwrap();
    assert_eq!(vec![0, 0, 0, 0, 1], strain.mask(bound, filled));

    assert!(strain.tick(bound).is_err());
}
