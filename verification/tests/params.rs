use spz_sandpile::params::{
    pick_representative, power_of_two, validate_config, ConfigError, ParamKey, ParamSummary,
};

fn p(system_size: usize, sigma: u64, q: u64) -> ParamSummary {
    ParamSummary { system_size, sigma_key: sigma, q_key: q, sigma_ok: true, q_ok: true }
}

#[test]
fn single_run_varies_nothing() {
    let params = vec![p(512, 0, 0)];
    assert!(!ParamKey::Sigma.varies(&params));
    assert!(!ParamKey::Q.varies(&params));
    assert!(!ParamKey::SystemSize.varies(&params));
    assert_eq!(pick_representative(&params), ParamKey::Sigma);
}

#[test]
fn q_sweep_picks_q() {
    let params = vec![p(512, 0, 0), p(512, 0, 1), p(512, 0, 2)];
    assert!(!ParamKey::Sigma.varies(&params));
    assert!(ParamKey::Q.varies(&params));
    assert_eq!(pick_representative(&params), ParamKey::Q);
}

#[test]
fn sigma_wins_over_size() {
    let params = vec![p(256, 0, 0), p(512, 3, 0)];
    assert_eq!(pick_representative(&params), ParamKey::Sigma);
    let params = vec![p(256, 0, 0), p(512, 0, 0)];
    assert_eq!(pick_representative(&params), ParamKey::SystemSize);
}

#[test]
fn powers_of_two() {
    assert!(!power_of_two(0));
    assert!(power_of_two(1));
    assert!(power_of_two(2));
    assert!(!power_of_two(3));
    assert!(power_of_two(512));
    assert!(!power_of_two(513));
    assert!(power_of_two(1usize << (usize::BITS - 1)));
    assert!(!power_of_two(usize::MAX));
}

#[test]
fn config_errors_in_order() {
    assert_eq!(validate_config(0, &vec![p(0, 0, 0)]), Err(ConfigError::ZeroSteps));
    assert_eq!(validate_config(10, &vec![]), Err(ConfigError::NoParameters));
    assert_eq!(validate_config(10, &vec![p(8, 0, 0), p(0, 0, 0)]), Err(ConfigError::ZeroSystemSize { index: 1 }));
    assert_eq!(
        validate_config(10, &vec![p(6, 0, 0)]),
        Err(ConfigError::NotPowerOfTwo { index: 0, system_size: 6 })
    );
    let mut bad_sigma = p(8, 0, 0);
    bad_sigma.sigma_ok = false;
    bad_sigma.q_ok = false;
    assert_eq!(validate_config(10, &vec![bad_sigma]), Err(ConfigError::InvalidSigma { index: 0 }));
    let mut bad_q = p(8, 0, 0);
    bad_q.q_ok = false;
    assert_eq!(validate_config(10, &vec![p(4, 0, 0), bad_q]), Err(ConfigError::InvalidQ { index: 1 }));
    assert_eq!(validate_config(10, &vec![p(4, 0, 0), p(512, 1, 2)]), Ok(()));
}
