//! Run parameters as the decision logic sees them: which parameter varies
//! across a sweep, and whether a configuration may run.
use vstd::arithmetic::power2::{lemma_pow2_pos, lemma_pow2_strictly_increases, lemma_pow2_unfold, pow2};
use vstd::prelude::*;

verus! {

/// One `[[parameters]]` block as the checks and the sweep logic read it.
/// The noise amplitude `sigma` and the shortcut probability `q` stand here
/// by keys that two values share exactly when they compare equal, and by
/// whether they pass their range checks.
#[derive(Clone, Copy, Debug)]
pub struct ParamSummary {
    pub system_size: usize,
    pub sigma_key: u64,
    pub q_key: u64,
    /// `sigma` is a finite, non-negative number.
    pub sigma_ok: bool,
    /// `q` is a finite number in `[0, 1)`.
    pub q_ok: bool,
}

/// The parameter by which the runs of a sweep are told apart.
#[derive(Clone, Copy, Debug, PartialEq, Eq, Structural)]
pub enum ParamKey {
    Sigma,
    Q,
    SystemSize,
}

/// The value that `key` picks out of `p`.
pub open spec fn key_value(key: ParamKey, p: ParamSummary) -> int {
    match key {
        ParamKey::Sigma => p.sigma_key as int,
        ParamKey::Q => p.q_key as int,
        ParamKey::SystemSize => p.system_size as int,
    }
}

/// At least two runs, and some run whose `key` differs from the first run's.
pub open spec fn key_varies(key: ParamKey, params: Seq<ParamSummary>) -> bool {
    params.len() >= 2 && exists|k: int|
        0 <= k < params.len() && #[trigger] key_value(key, params[k]) != key_value(key, params[0])
}

/// The first of sigma, q and system size that varies, or sigma when none does.
pub open spec fn representative(params: Seq<ParamSummary>) -> ParamKey {
    if key_varies(ParamKey::Sigma, params) {
        ParamKey::Sigma
    } else if key_varies(ParamKey::Q, params) {
        ParamKey::Q
    } else if key_varies(ParamKey::SystemSize, params) {
        ParamKey::SystemSize
    } else {
        ParamKey::Sigma
    }
}

/// Which parameter labels a sweep: sigma whenever two blocks differ in
/// sigma; q only when all sigmas agree and two blocks differ in q; system
/// size only when sigma and q agree throughout and two sizes differ; and
/// sigma again when nothing varies.
pub proof fn law_representative_priority(params: Seq<ParamSummary>)
    ensures
        (exists|i: int, j: int|
            0 <= i < params.len() && 0 <= j < params.len() && #[trigger] params[i].sigma_key
                != #[trigger] params[j].sigma_key) ==> representative(params) == ParamKey::Sigma,
        (forall|i: int| #![trigger params[i]]
            0 <= i < params.len() ==> params[i].sigma_key == params[0].sigma_key)
            && (exists|i: int, j: int|
            0 <= i < params.len() && 0 <= j < params.len() && #[trigger] params[i].q_key
                != #[trigger] params[j].q_key) ==> representative(params) == ParamKey::Q,
        (forall|i: int|
            #![trigger params[i]]
            0 <= i < params.len() ==> params[i].sigma_key == params[0].sigma_key
                && params[i].q_key == params[0].q_key) && (exists|i: int, j: int|
            0 <= i < params.len() && 0 <= j < params.len() && #[trigger] params[i].system_size
                != #[trigger] params[j].system_size) ==> representative(params)
            == ParamKey::SystemSize,
        (forall|i: int|
            #![trigger params[i]]
            0 <= i < params.len() ==> params[i].sigma_key == params[0].sigma_key
                && params[i].q_key == params[0].q_key && params[i].system_size
                == params[0].system_size) ==> representative(params) == ParamKey::Sigma,
{
    if exists|i: int, j: int|
        0 <= i < params.len() && 0 <= j < params.len() && #[trigger] params[i].sigma_key
            != #[trigger] params[j].sigma_key {
        let (i, j) = choose|i: int, j: int|
            0 <= i < params.len() && 0 <= j < params.len() && #[trigger] params[i].sigma_key
                != #[trigger] params[j].sigma_key;
        lemma_two_differ_varies(ParamKey::Sigma, params, i, j);
    }
    if forall|i: int| #![trigger params[i]]
            0 <= i < params.len() ==> params[i].sigma_key == params[0].sigma_key {
        lemma_agree_not_varies(ParamKey::Sigma, params);
        if exists|i: int, j: int|
            0 <= i < params.len() && 0 <= j < params.len() && #[trigger] params[i].q_key
                != #[trigger] params[j].q_key {
            let (i, j) = choose|i: int, j: int|
                0 <= i < params.len() && 0 <= j < params.len() && #[trigger] params[i].q_key
                    != #[trigger] params[j].q_key;
            lemma_two_differ_varies(ParamKey::Q, params, i, j);
        }
    }
    if forall|i: int|
        #![trigger params[i]]
            0 <= i < params.len() ==> params[i].sigma_key == params[0].sigma_key
            && params[i].q_key == params[0].q_key {
        lemma_agree_not_varies(ParamKey::Sigma, params);
        lemma_agree_not_varies(ParamKey::Q, params);
        if exists|i: int, j: int|
            0 <= i < params.len() && 0 <= j < params.len() && #[trigger] params[i].system_size
                != #[trigger] params[j].system_size {
            let (i, j) = choose|i: int, j: int|
                0 <= i < params.len() && 0 <= j < params.len() && #[trigger] params[i].system_size
                    != #[trigger] params[j].system_size;
            lemma_two_differ_varies(ParamKey::SystemSize, params, i, j);
        }
    }
    if forall|i: int|
        #![trigger params[i]]
            0 <= i < params.len() ==> params[i].sigma_key == params[0].sigma_key
            && params[i].q_key == params[0].q_key && params[i].system_size
            == params[0].system_size {
        lemma_agree_not_varies(ParamKey::Sigma, params);
        lemma_agree_not_varies(ParamKey::Q, params);
        lemma_agree_not_varies(ParamKey::SystemSize, params);
    }
}

/// Two blocks that differ in a key make it vary.
proof fn lemma_two_differ_varies(key: ParamKey, params: Seq<ParamSummary>, i: int, j: int)
    requires
        0 <= i < params.len(),
        0 <= j < params.len(),
        key_value(key, params[i]) != key_value(key, params[j]),
    ensures
        key_varies(key, params),
{
    assert(i != j);
    if key_value(key, params[i]) != key_value(key, params[0]) {
        assert(key_value(key, params[i]) != key_value(key, params[0]));
    } else {
        assert(key_value(key, params[j]) != key_value(key, params[0]));
    }
}

/// A key on which every block agrees with the first does not vary.
proof fn lemma_agree_not_varies(key: ParamKey, params: Seq<ParamSummary>)
    requires
        forall|i: int| 0 <= i < params.len() ==> key_value(key, #[trigger] params[i]) == key_value(key, params[0]),
    ensures
        !key_varies(key, params),
{
}

impl ParamKey {
    /// Whether this parameter takes more than one value across `params`.
    pub fn varies(self, params: &Vec<ParamSummary>) -> (r: bool)
        ensures
            r == key_varies(self, params@),
    {
        if params.len() < 2 {
            return false;
        }
        let p0 = params[0];
        let mut k: usize = 0;
        while k < params.len()
            invariant
                k <= params@.len(),
                p0 == params@[0],
                forall|t: int| 0 <= t < k ==> #[trigger] key_value(self, params@[t]) == key_value(self, p0),
            decreases params@.len() - k,
        {
            let p = params[k];
            let differs = match self {
                ParamKey::Sigma => p.sigma_key != p0.sigma_key,
                ParamKey::Q => p.q_key != p0.q_key,
                ParamKey::SystemSize => p.system_size != p0.system_size,
            };
            if differs {
                assert(key_value(self, params@[k as int]) != key_value(self, params@[0]));
                return true;
            }
            k = k + 1;
        }
        false
    }
}

/// The parameter that labels the runs of a sweep: the first of sigma, q and
/// system size that varies across `params`, and sigma when none does.
pub fn pick_representative(params: &Vec<ParamSummary>) -> (r: ParamKey)
    ensures
        r == representative(params@),
{
    if ParamKey::Sigma.varies(params) {
        ParamKey::Sigma
    } else if ParamKey::Q.varies(params) {
        ParamKey::Q
    } else if ParamKey::SystemSize.varies(params) {
        ParamKey::SystemSize
    } else {
        ParamKey::Sigma
    }
}

/// `n` is `2^k` for some `k`.
pub open spec fn is_power_of_two(n: int) -> bool {
    exists|k: nat| pow2(k) == n
}

/// Whether `n` is a power of two.
pub fn power_of_two(n: usize) -> (r: bool)
    ensures
        r == is_power_of_two(n as int),
{
    let mut p: usize = 1;
    let ghost mut e: nat = 0;
    proof {
        assert(pow2(0) == 1) by {
            vstd::arithmetic::power2::lemma2_to64();
        }
    }
    while p < n
        invariant
            p == pow2(e),
            p >= 1,
            e == 0 || pow2((e - 1) as nat) < n,
        decreases usize::MAX - p,
    {
        if p > usize::MAX / 2 {
            proof {
                lemma_pow2_unfold(e + 1);
                assert forall|k: nat| pow2(k) != n as int by {
                    if k <= e {
                        if k < e {
                            lemma_pow2_strictly_increases(k, e);
                        }
                    } else if k > e + 1 {
                        lemma_pow2_strictly_increases(e + 1, k);
                    }
                }
            }
            return false;
        }
        proof {
            lemma_pow2_unfold(e + 1);
        }
        p = p * 2;
        proof {
            e = e + 1;
        }
    }
    proof {
        if p != n {
            assert forall|k: nat| pow2(k) != n as int by {
                lemma_pow2_pos(k);
                if k < e {
                    if e > 0 && k < (e - 1) as nat {
                        lemma_pow2_strictly_increases(k, (e - 1) as nat);
                    }
                } else if k > e {
                    lemma_pow2_strictly_increases(e, k);
                }
            }
        }
    }
    p == n
}

/// Why a configuration may not run.
#[derive(Clone, Copy, Debug, PartialEq, Eq, Structural)]
pub enum ConfigError {
    /// `steps` is 0.
    ZeroSteps,
    /// There is no `[[parameters]]` block.
    NoParameters,
    /// Block `index` has system size 0.
    ZeroSystemSize { index: usize },
    /// Block `index` has a system size that is not a power of two.
    NotPowerOfTwo { index: usize, system_size: usize },
    /// Block `index` has a sigma that is negative or not finite.
    InvalidSigma { index: usize },
    /// Block `index` has a q outside `[0, 1)` or not finite.
    InvalidQ { index: usize },
}

/// The first check that block `p`, at position `index`, fails.
pub open spec fn param_error(p: ParamSummary, index: usize) -> Option<ConfigError> {
    if p.system_size == 0 {
        Some(ConfigError::ZeroSystemSize { index })
    } else if !is_power_of_two(p.system_size as int) {
        Some(ConfigError::NotPowerOfTwo { index, system_size: p.system_size })
    } else if !p.sigma_ok {
        Some(ConfigError::InvalidSigma { index })
    } else if !p.q_ok {
        Some(ConfigError::InvalidQ { index })
    } else {
        None
    }
}

/// The error of the first block from position `from` on that fails a check.
pub open spec fn first_param_error(params: Seq<ParamSummary>, from: int) -> Option<ConfigError>
    decreases params.len() - from,
{
    if from < 0 || from >= params.len() {
        None
    } else {
        match param_error(params[from], from as usize) {
            Some(e) => Some(e),
            None => first_param_error(params, from + 1),
        }
    }
}

/// The first rule that a configuration with `steps` steps and blocks
/// `params` breaks, if any.
pub open spec fn config_error(steps: u64, params: Seq<ParamSummary>) -> Option<ConfigError> {
    if steps == 0 {
        Some(ConfigError::ZeroSteps)
    } else if params.len() == 0 {
        Some(ConfigError::NoParameters)
    } else {
        first_param_error(params, 0)
    }
}

/// Checks a configuration: `steps` must be positive, there must be a block,
/// and each block in turn must have a power-of-two system size, a valid
/// sigma and a valid q. Reports the first rule broken.
pub fn validate_config(steps: u64, params: &Vec<ParamSummary>) -> (r: Result<(), ConfigError>)
    ensures
        r == match config_error(steps, params@) {
            Some(e) => Err(e),
            None => Ok(()),
        },
{
    if steps == 0 {
        return Err(ConfigError::ZeroSteps);
    }
    if params.len() == 0 {
        return Err(ConfigError::NoParameters);
    }
    let mut i: usize = 0;
    while i < params.len()
        invariant
            i <= params@.len(),
            steps != 0,
            params@.len() > 0,
            first_param_error(params@, 0) == first_param_error(params@, i as int),
        decreases params@.len() - i,
    {
        let p = params[i];
        assert(first_param_error(params@, i as int) == match param_error(p, i) {
            Some(e) => Some(e),
            None => first_param_error(params@, i + 1),
        });
        if p.system_size == 0 {
            return Err(ConfigError::ZeroSystemSize { index: i });
        }
        if !power_of_two(p.system_size) {
            return Err(ConfigError::NotPowerOfTwo { index: i, system_size: p.system_size });
        }
        if !p.sigma_ok {
            return Err(ConfigError::InvalidSigma { index: i });
        }
        if !p.q_ok {
            return Err(ConfigError::InvalidQ { index: i });
        }
        i = i + 1;
    }
    Ok(())
}

/// Blocks `from..` all pass their checks exactly when none of them has an
/// error.
proof fn lemma_first_param_error_none(params: Seq<ParamSummary>, from: int)
    requires
        0 <= from <= params.len(),
        params.len() <= usize::MAX,
    ensures
        first_param_error(params, from) is None <==> forall|i: int|
            from <= i < params.len() ==> #[trigger] param_error(params[i], i as usize) is None,
    decreases params.len() - from,
{
    if from < params.len() {
        lemma_first_param_error_none(params, from + 1);
    }
}

/// A configuration passes exactly when `steps` is positive, there is a
/// block, and every block has a system size `2^k` for some `k`, a valid
/// sigma and a valid q.
pub proof fn law_config_accepted(steps: u64, params: Seq<ParamSummary>)
    requires
        params.len() <= usize::MAX,
    ensures
        config_error(steps, params) is None <==> (steps > 0 && params.len() > 0 && forall|i: int|
            0 <= i < params.len() ==> (exists|k: nat| pow2(k) == (#[trigger] params[i]).system_size)
                && params[i].sigma_ok && params[i].q_ok),
{
    lemma_first_param_error_none(params, 0);
    assert forall|i: int|
        #![trigger params[i]]
        #![trigger param_error(params[i], i as usize)]
        0 <= i < params.len() implies (param_error(params[i], i as usize) is None <==> ((exists|
        k: nat,
    | pow2(k) == params[i].system_size) && params[i].sigma_ok && params[i].q_ok)) by {
        if exists|k: nat| pow2(k) == params[i].system_size {
            let k = choose|k: nat| pow2(k) == params[i].system_size;
            lemma_pow2_pos(k);
        }
    }
}

/// The error found from position `from` on is that of some block there,
/// and every block before it (from `from` on) passes its checks.
proof fn lemma_first_param_error_some(params: Seq<ParamSummary>, from: int)
    requires
        0 <= from <= params.len(),
        params.len() <= usize::MAX,
    ensures
        first_param_error(params, from) matches Some(e) ==> exists|idx: int|
            from <= idx < params.len() && #[trigger] param_error(params[idx], idx as usize) == Some(e)
                && forall|j: int| from <= j < idx ==> #[trigger] param_error(params[j], j as usize) is None,
    decreases params.len() - from,
{
    if from < params.len() {
        lemma_first_param_error_some(params, from + 1);
        if let Some(e) = first_param_error(params, from) {
            if param_error(params[from], from as usize) is None {
                let idx = choose|idx: int|
                    from + 1 <= idx < params.len() && #[trigger] param_error(params[idx], idx as usize)
                        == Some(e) && forall|j: int|
                        from + 1 <= j < idx ==> #[trigger] param_error(params[j], j as usize) is None;
                assert forall|j: int| from <= j < idx implies #[trigger] param_error(
                    params[j],
                    j as usize,
                ) is None by {
                    if j > from {
                    }
                }
            } else {
                assert(param_error(params[from], from as usize) == Some(e));
            }
        }
    }
}

/// The position of the block that an error names (0 for an error that
/// names none).
pub open spec fn blocks_before_error(r: Option<ConfigError>) -> int {
    match r {
        Some(ConfigError::ZeroSystemSize { index }) => index as int,
        Some(ConfigError::NotPowerOfTwo { index, system_size }) => index as int,
        Some(ConfigError::InvalidSigma { index }) => index as int,
        Some(ConfigError::InvalidQ { index }) => index as int,
        _ => 0,
    }
}

/// The error reported is the first rule broken: a zero `steps` before all
/// else, then a missing block, then, in block order, the first block that
/// fails a check, and for that block the first check it fails (size zero,
/// size not `2^k`, sigma, q). Every block before it passes every check.
pub proof fn law_config_error_is_first(steps: u64, params: Seq<ParamSummary>)
    requires
        params.len() <= usize::MAX,
    ensures
        match config_error(steps, params) {
            Some(ConfigError::ZeroSteps) => steps == 0,
            Some(ConfigError::NoParameters) => steps > 0 && params.len() == 0,
            Some(ConfigError::ZeroSystemSize { index }) => steps > 0 && index < params.len()
                && params[index as int].system_size == 0,
            Some(ConfigError::NotPowerOfTwo { index, system_size }) => steps > 0 && index
                < params.len() && system_size == params[index as int].system_size && system_size
                != 0 && !(exists|k: nat| pow2(k) == system_size),
            Some(ConfigError::InvalidSigma { index }) => steps > 0 && index < params.len()
                && params[index as int].system_size != 0 && (exists|k: nat|
                pow2(k) == params[index as int].system_size) && !params[index as int].sigma_ok,
            Some(ConfigError::InvalidQ { index }) => steps > 0 && index < params.len()
                && params[index as int].system_size != 0 && (exists|k: nat|
                pow2(k) == params[index as int].system_size) && params[index as int].sigma_ok
                && !params[index as int].q_ok,
            None => true,
        },
        forall|j: int|
            0 <= j < blocks_before_error(config_error(steps, params)) ==> (#[trigger] params[j]).system_size
                != 0 && (exists|k: nat| pow2(k) == params[j].system_size) && params[j].sigma_ok
                && params[j].q_ok,
{
    lemma_first_param_error_some(params, 0);
    if steps > 0 && params.len() > 0 {
        if let Some(e) = first_param_error(params, 0) {
            let idx = choose|idx: int|
                0 <= idx < params.len() && #[trigger] param_error(params[idx], idx as usize) == Some(e)
                    && forall|j: int| 0 <= j < idx ==> #[trigger] param_error(params[j], j as usize) is None;
            assert forall|j: int|
                0 <= j < idx implies (#[trigger] params[j]).system_size != 0 && (exists|k: nat|
                pow2(k) == params[j].system_size) && params[j].sigma_ok && params[j].q_ok by {
                assert(param_error(params[j], j as usize) is None);
            }
        }
    }
}

} // verus!
