use dataid::params::{ConfigurationError, ParameterSet};

#[test]
fn ordered_sizes_are_accepted() {
    let set = ParameterSet::new(40, 20, 640, 0x16118, 0xA0B1).unwrap();
    assert_eq!(set.norm_size(), 40);
    assert_eq!(set.min_size(), 20);
    assert_eq!(set.max_size(), 640);
    assert_eq!(set.mask_1(), 0x16118);
    assert_eq!(set.mask_2(), 0xA0B1);
}

#[test]
fn equal_sizes_are_accepted() {
    assert!(ParameterSet::new(16, 16, 16, 1, 1).is_ok());
    assert!(ParameterSet::new(0, 0, 0, 0, 0).is_ok());
    assert!(ParameterSet::new(20, 20, 640, 1, 1).is_ok());
    assert!(ParameterSet::new(640, 20, 640, 1, 1).is_ok());
}

#[test]
fn minimum_above_normalized_size_is_rejected() {
    let rejected = ParameterSet::new(19, 20, 640, 1, 1).unwrap_err();
    assert_eq!(rejected, ConfigurationError { norm_size: 19, min_size: 20, max_size: 640 });
}

#[test]
fn normalized_size_above_maximum_is_rejected() {
    let rejected = ParameterSet::new(641, 20, 640, 1, 1).unwrap_err();
    assert_eq!(rejected, ConfigurationError { norm_size: 641, min_size: 20, max_size: 640 });
}

#[test]
fn minimum_above_maximum_is_rejected() {
    assert!(ParameterSet::new(30, 40, 20, 1, 1).is_err());
    assert!(ParameterSet::new(50, 40, 20, 1, 1).is_err());
    assert!(ParameterSet::new(10, 40, 20, 1, 1).is_err());
}

#[test]
fn fine_phase_values() {
    let fine = ParameterSet::fine();
    assert_eq!(fine.norm_size(), 40);
    assert_eq!(fine.min_size(), 20);
    assert_eq!(fine.max_size(), 640);
    assert_eq!(fine.mask_1(), 0x0001_6118);
    assert_eq!(fine.mask_2(), 0x0000_A0B1);
}

#[test]
fn coarse_phase_values() {
    let coarse = ParameterSet::coarse();
    assert_eq!(coarse.norm_size(), 4096);
    assert_eq!(coarse.min_size(), 2048);
    assert_eq!(coarse.max_size(), 65536);
    assert_eq!(coarse.mask_1(), 0x0003_5907_0353_0000);
    assert_eq!(coarse.mask_2(), 0x0000_D900_0353_0000);
}
