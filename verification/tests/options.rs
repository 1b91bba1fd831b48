use ministark::error::ProvingError;
use ministark::options::{FriOptions, ProofOptions};

#[test]
fn options_in_range_are_accepted() {
    let options = ProofOptions::new(32, 8, 8).unwrap();
    assert_eq!(options.num_queries, 32);
    assert_eq!(options.blowup_factor, 8);
    assert_eq!(options.grinding_factor, 8);
}

#[test]
fn zero_queries_are_a_config_error() {
    assert_eq!(ProofOptions::new(0, 8, 8), Err(ProvingError::ConfigError));
}

#[test]
fn too_many_queries_are_a_config_error() {
    assert_eq!(ProofOptions::new(129, 8, 8), Err(ProvingError::ConfigError));
    assert!(ProofOptions::new(128, 8, 8).is_ok());
}

#[test]
fn blowup_three_is_a_config_error() {
    assert_eq!(ProofOptions::new(32, 3, 8), Err(ProvingError::ConfigError));
}

#[test]
fn blowup_128_is_a_config_error() {
    assert_eq!(ProofOptions::new(32, 128, 8), Err(ProvingError::ConfigError));
}

#[test]
fn blowup_one_is_a_config_error() {
    assert_eq!(ProofOptions::new(32, 1, 8), Err(ProvingError::ConfigError));
    assert!(ProofOptions::new(32, 2, 8).is_ok());
    assert!(ProofOptions::new(32, 64, 8).is_ok());
}

#[test]
fn grinding_above_64_is_a_config_error() {
    assert_eq!(ProofOptions::new(32, 8, 65), Err(ProvingError::ConfigError));
    assert!(ProofOptions::new(32, 8, 64).is_ok());
    assert!(ProofOptions::new(32, 8, 0).is_ok());
}

#[test]
fn fri_options_follow_the_blowup() {
    let fri = ProofOptions::new(32, 16, 8).unwrap().into_fri_options();
    assert_eq!(fri, FriOptions::new(16, 8, 64));
    assert_eq!(fri.blowup_factor, 16);
    assert_eq!(fri.folding_factor, 8);
    assert_eq!(fri.max_remainder_size, 64);
}

#[test]
fn lde_domain_is_blowup_times_trace() {
    let options = ProofOptions::new(32, 8, 8).unwrap();
    assert_eq!(options.lde_domain_size(8192), Ok(65536));
    assert_eq!(options.lde_domain_size(1), Ok(8));
    assert_eq!(options.lde_domain_size(0), Err(ProvingError::ConfigError));
    assert_eq!(options.lde_domain_size(12), Err(ProvingError::ConfigError));
    assert_eq!(options.lde_domain_size(1usize << 62), Err(ProvingError::ConfigError));
}
