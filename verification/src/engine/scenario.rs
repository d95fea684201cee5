//! Batches of runs: which configurations a batch expands to.
//!
//! Every run of a batch gets its seed from a fixed hash of the batch's root
//! seed and the run's place in the batch, so a batch is the same whatever
//! order its runs are scheduled in.

use crate::config::BacktestConfig;
use crate::data::{DataSourceSpec, WalkShock};
use crate::domain::decimal::{normalized, written, Decimal};
use crate::error::{BacktestError, ErrorKind};
use crate::text::unsigned_text;
use sha2::Digest;
use vstd::prelude::*;
use vstd::slice::*;
use vstd::string::*;

verus! {

/// What a batch is for.
#[derive(Debug, Clone, Copy, PartialEq, Eq, Hash, Structural)]
pub enum ScenarioType {
    /// Independently seeded runs.
    MonteCarlo,
    /// A grid of parameter shocks.
    StressTest,
    /// Replays of historical episodes.
    Historical,
    /// A batch of the user's own.
    Custom,
}

impl ScenarioType {
    /// The name of the kind.
    pub open spec fn name_text(self) -> Seq<char> {
        match self {
            ScenarioType::MonteCarlo => "MonteCarlo"@,
            ScenarioType::StressTest => "StressTest"@,
            ScenarioType::Historical => "Historical"@,
            ScenarioType::Custom => "Custom"@,
        }
    }

    /// The name of the kind.
    fn name(self) -> (name: &'static str)
        ensures
            name@ == self.name_text(),
    {
        match self {
            ScenarioType::MonteCarlo => "MonteCarlo",
            ScenarioType::StressTest => "StressTest",
            ScenarioType::Historical => "Historical",
            ScenarioType::Custom => "Custom",
        }
    }
}

/// One dimension of a sweep.
#[derive(Debug, Clone, Copy, PartialEq, Eq)]
pub struct ConfigOverride {
    /// The engine seed, in place of the derived one.
    pub seed: Option<u64>,
    /// A factor on the simulated walk's volatility.
    pub walk_volatility_factor: Option<Decimal>,
    /// A shift of the simulated walk's drift.
    pub walk_drift_delta: Option<Decimal>,
}

impl ConfigOverride {
    /// Whether the override carries a walk shock.
    pub open spec fn shocks(self) -> bool {
        self.walk_volatility_factor is Some || self.walk_drift_delta is Some
    }

    /// The override that changes nothing.
    pub open spec fn none() -> Self {
        ConfigOverride { seed: None, walk_volatility_factor: None, walk_drift_delta: None }
    }
}

impl Default for ConfigOverride {
    fn default() -> (r: Self)
        ensures
            r == ConfigOverride::none(),
    {
        ConfigOverride { seed: None, walk_volatility_factor: None, walk_drift_delta: None }
    }
}

/// A batch of runs.
#[derive(Debug, PartialEq, Eq)]
pub struct ScenarioParams {
    /// What the batch is for.
    pub kind: ScenarioType,
    /// The root seed.
    pub base_seed: u64,
    /// How many runs each override gets.
    pub count: u32,
    /// The sweep; empty for plain replicas.
    pub sweep: Vec<ConfigOverride>,
}

impl Clone for ScenarioParams {
    fn clone(&self) -> (r: Self)
        ensures
            r.kind == self.kind,
            r.base_seed == self.base_seed,
            r.count == self.count,
            r.sweep@ == self.sweep@,
    {
        let sweep = self.sweep.clone();
        assert(sweep@ =~= self.sweep@);
        ScenarioParams { kind: self.kind, base_seed: self.base_seed, count: self.count, sweep }
    }
}

/// The bytes of `n` in base 256, least significant first.
pub open spec fn le_bytes(n: nat, width: nat) -> Seq<u8>
    decreases width,
{
    if width == 0 {
        Seq::empty()
    } else {
        seq![(n % 256) as u8] + le_bytes(n / 256, (width - 1) as nat)
    }
}

/// The number that some bytes stand for in base 256, least significant first.
pub open spec fn le_value(s: Seq<u8>) -> nat
    decreases s.len(),
{
    if s.len() == 0 {
        0
    } else {
        s[0] as nat + 256 * le_value(s.skip(1))
    }
}

/// The SHA-256 digest of some bytes, as `sha2::Sha256` computes it.
pub uninterp spec fn sha256(data: Seq<u8>) -> Seq<u8>;

/// Hash by `Digest::digest` of `sha2::Sha256`: 32 bytes that depend on the data
/// alone.
#[verifier::external_body]
fn sha256_digest(data: &[u8]) -> (digest: Vec<u8>)
    ensures
        digest@ == sha256(data@),
        digest@.len() == 32,
{
    sha2::Sha256::digest(data).to_vec()
}

/// Append the bytes of `n`, least significant first.
fn push_le(out: &mut Vec<u8>, n: u64, width: usize)
    ensures
        final(out)@ == old(out)@ + le_bytes(n as nat, width as nat),
    decreases width,
{
    if width == 0 {
        assert(out@ =~= old(out)@ + le_bytes(n as nat, 0));
        return ;
    }
    out.push((n % 256) as u8);
    push_le(out, n / 256, width - 1);
    assert(out@ =~= old(out)@ + le_bytes(n as nat, width as nat));
}

/// The number that the eight bytes from `from` on stand for, least
/// significant first.
fn read_le(bytes: &[u8], from: usize, width: usize) -> (n: u64)
    requires
        width <= 8,
        from + width <= bytes@.len(),
    ensures
        n == le_value(bytes@.subrange(from as int, from + width)),
    decreases width,
{
    let len: usize = bytes.len();
    let ghost s = bytes@.subrange(from as int, from + width);
    proof {
        lemma_le_value_bound(s);
    }
    if width == 0 {
        return 0;
    }
    proof {
        assert(s.skip(1) =~= bytes@.subrange(from + 1, from + width));
        lemma_le_value_bound(s.skip(1));
    }
    let high: u64 = read_le(bytes, from + 1, width - 1);
    bytes[from] as u64 + 256 * high
}

/// `256^width`.
pub open spec fn byte_range(width: nat) -> nat
    decreases width,
{
    if width == 0 {
        1
    } else {
        256 * byte_range((width - 1) as nat)
    }
}

/// Eight bytes stand for a `u64`.
proof fn lemma_le_value_bound(s: Seq<u8>)
    requires
        s.len() <= 8,
    ensures
        le_value(s) <= u64::MAX,
{
    lemma_le_value_range(s);
    lemma_byte_range_grows(s.len(), 8);
    assert(byte_range(8) == 0x1_0000_0000_0000_0000) by {
        reveal_with_fuel(byte_range, 9);
    }
}

/// Some bytes stand for less than the range that they span.
proof fn lemma_le_value_range(s: Seq<u8>)
    ensures
        le_value(s) < byte_range(s.len()),
    decreases s.len(),
{
    if s.len() > 0 {
        lemma_le_value_range(s.skip(1));
    }
}

/// More bytes span a larger range.
proof fn lemma_byte_range_grows(a: nat, b: nat)
    requires
        a <= b,
    ensures
        0 < byte_range(a) <= byte_range(b),
    decreases b,
{
    if a < b {
        lemma_byte_range_grows(a, (b - 1) as nat);
    } else if a > 0 {
        lemma_byte_range_grows((a - 1) as nat, (a - 1) as nat);
    }
}

/// The seed that a digest gives: its first eight bytes, least significant
/// first.
pub fn seed_of_digest(digest: &[u8]) -> (seed: u64)
    requires
        digest@.len() >= 8,
    ensures
        seed == le_value(digest@.subrange(0, 8)),
{
    read_le(digest, 0, 8)
}

/// What is hashed for a run's seed: a tag, the root seed and the run's place.
pub open spec fn seed_message(tag: Seq<u8>, base_seed: u64, index: u32) -> Seq<u8> {
    tag + le_bytes(base_seed as nat, 8) + le_bytes(index as nat, 4)
}

/// The seed of a run under a tag.
pub open spec fn seed_under(tag: Seq<u8>, base_seed: u64, index: u32) -> u64 {
    le_value(sha256(seed_message(tag, base_seed, index)).subrange(0, 8)) as u64
}

/// The tag of engine seeds.
pub open spec fn engine_seed_tag() -> Seq<u8> {
    "ironcondor.scenario.child_seed.v1\0".spec_bytes()
}

/// The tag of data seeds.
pub open spec fn data_seed_tag() -> Seq<u8> {
    "ironcondor.scenario.child_data_seed.v1\0".spec_bytes()
}

/// Hash a tag, the root seed and a run's place into a seed.
fn seed_from(tag: &[u8], base_seed: u64, index: u32) -> (seed: u64)
    ensures
        seed == seed_under(tag@, base_seed, index),
{
    let mut message: Vec<u8> = slice_to_vec(tag);
    push_le(&mut message, base_seed, 8);
    push_le(&mut message, index as u64, 4);
    let digest = sha256_digest(message.as_slice());
    let seed: u64 = seed_of_digest(digest.as_slice());
    proof {
        lemma_le_value_bound(digest@.subrange(0, 8));
    }
    seed
}

/// The engine seed of run `index` of a batch.
pub fn child_seed(base_seed: u64, index: u32) -> (seed: u64)
    ensures
        seed == seed_under(engine_seed_tag(), base_seed, index),
{
    seed_from("ironcondor.scenario.child_seed.v1\0".as_bytes(), base_seed, index)
}

/// The data seed of run `index` of a batch.
pub fn child_data_seed(base_seed: u64, index: u32) -> (seed: u64)
    ensures
        seed == seed_under(data_seed_tag(), base_seed, index),
{
    seed_from("ironcondor.scenario.child_data_seed.v1\0".as_bytes(), base_seed, index)
}

/// The most runs that a batch may expand to.
pub const MAX_RUNS: usize = 1_000_000;

/// The overrides of a batch: its sweep, or the one that changes nothing.
pub open spec fn overrides_of(params: ScenarioParams) -> Seq<ConfigOverride> {
    if params.sweep@.len() == 0 {
        seq![ConfigOverride::none()]
    } else {
        params.sweep@
    }
}

/// Whether some override carries a walk shock.
pub open spec fn some_shock(overrides: Seq<ConfigOverride>) -> bool {
    exists|i: int| 0 <= i < overrides.len() && (#[trigger] overrides[i]).shocks()
}

/// Whether some override pins the engine seed.
pub open spec fn some_seed(overrides: Seq<ConfigOverride>) -> bool {
    exists|i: int| 0 <= i < overrides.len() && (#[trigger] overrides[i]).seed is Some
}

/// Whether an override asks for a volatility that is below zero.
pub open spec fn negative_factor(over: ConfigOverride) -> bool {
    over.walk_volatility_factor matches Some(factor) && factor@ < 0
}

/// Whether an override's shock cannot be put on a walk: its factor is below
/// zero, or a number of the walk does not stay finite under it.
pub open spec fn shock_refused(over: ConfigOverride, finite: bool) -> bool {
    negative_factor(over) || (over.shocks() && !finite)
}

/// The engine seed of a run.
pub open spec fn run_seed(base_seed: u64, index: u32, over: ConfigOverride) -> u64 {
    match over.seed {
        Some(seed) => seed,
        None => seed_under(engine_seed_tag(), base_seed, index),
    }
}

/// The walk shock of a run.
pub open spec fn run_shock(over: ConfigOverride) -> WalkShock {
    WalkShock {
        volatility_factor: over.walk_volatility_factor,
        drift_delta: over.walk_drift_delta,
    }
}

/// Whether `config` is the configuration of run `index`.
pub open spec fn is_run_config(
    config: BacktestConfig,
    base: BacktestConfig,
    base_seed: u64,
    index: u32,
    over: ConfigOverride,
) -> bool {
    &&& config.seed == run_seed(base_seed, index, over)
    &&& config.mode == base.mode
    &&& config.initial_capital == base.initial_capital
    &&& config.fees == base.fees
    &&& config.marketable_cap_ticks == base.marketable_cap_ticks
    &&& config.output_dir == base.output_dir
    &&& config.overwrite == base.overwrite
    &&& match base.data_source {
        DataSourceSpec::Parquet { path, sha256 } => config.data_source == base.data_source,
        DataSourceSpec::Simulator(from) => {
            &&& config.data_source matches DataSourceSpec::Simulator(to)
            &&& to.session == from.session
            &&& to.base_url == from.base_url
            &&& to.simulator_version == from.simulator_version
            &&& to.data_seed == seed_under(data_seed_tag(), base_seed, index)
            &&& to.session_seed == Some(seed_under(data_seed_tag(), base_seed, index))
            &&& to.tape_sha256@ == Seq::<char>::empty()
            &&& to.shocks@ == if over.shocks() {
                from.shocks@.push(run_shock(over))
            } else {
                from.shocks@
            }
        },
    }
}

/// Build the configuration of run `index`: its engine seed, and for a
/// simulated source its data seed and its walk shock. A volatility factor below
/// zero is refused, and so is a shock under which the walk's numbers do not stay
/// finite. They are floating-point numbers, so whether they do is told by the
/// caller, who holds them.
pub fn derive_config(
    base: &BacktestConfig,
    base_seed: u64,
    index: u32,
    over: &ConfigOverride,
    finite: bool,
) -> (r: Result<BacktestConfig, BacktestError>)
    ensures
        match r {
            Ok(config) => is_run_config(config, *base, base_seed, index, *over) && !(
            base.data_source is Simulator && shock_refused(*over, finite)),
            Err(e) => base.data_source is Simulator && shock_refused(*over, finite) && e.kind()
                == ErrorKind::Conversion,
        },
{
    let mut config = base.clone();
    config.seed = match over.seed {
        Some(seed) => seed,
        None => child_seed(base_seed, index),
    };
    match &base.data_source {
        DataSourceSpec::Parquet { path: _, sha256: _ } => Ok(config),
        DataSourceSpec::Simulator(from) => {
            let mut spec = from.clone();
            let data_seed: u64 = child_data_seed(base_seed, index);
            spec.data_seed = data_seed;
            spec.session_seed = Some(data_seed);
            spec.tape_sha256 = String::from_str("");
            proof {
                reveal_strlit("");
            }
            match over.walk_volatility_factor {
                Some(factor) => {
                    if factor.is_negative() {
                        return Err(
                            BacktestError::Conversion(
                                String::from_str(
                                    "walk_volatility_factor must be >= 0, got ",
                                ).concat(&written(normalized(factor))),
                            ),
                        );
                    }
                },
                None => {},
            }
            if over.walk_volatility_factor.is_some() || over.walk_drift_delta.is_some() {
                if !finite {
                    return Err(
                        BacktestError::Conversion(
                            String::from_str("shocked walk parameter is not finite"),
                        ),
                    );
                }
                spec.shocks.push(
                    WalkShock {
                        volatility_factor: over.walk_volatility_factor,
                        drift_delta: over.walk_drift_delta,
                    },
                );
            }
            config.data_source = DataSourceSpec::Simulator(spec);
            assert(spec.tape_sha256@ =~= Seq::<char>::empty());
            Ok(config)
        },
    }
}

/// How many runs a batch expands to.
pub open spec fn run_count(params: ScenarioParams) -> int {
    overrides_of(params).len() * params.count
}

/// Why a batch cannot be expanded, in the order in which it is found out.
/// `not_finite` are the places of the overrides under whose shocks the walk's
/// numbers do not stay finite.
pub open spec fn expansion_error(
    params: ScenarioParams,
    base: BacktestConfig,
    not_finite: Seq<usize>,
) -> Option<ErrorKind> {
    let overrides = overrides_of(params);
    if params.kind != ScenarioType::StressTest && some_shock(overrides) {
        Some(ErrorKind::Config)
    } else if params.count > 1 && some_seed(overrides) {
        Some(ErrorKind::Config)
    } else if run_count(params) > usize::MAX {
        Some(ErrorKind::ArithmeticOverflow)
    } else if run_count(params) > MAX_RUNS {
        Some(ErrorKind::Config)
    } else if params.count > 0 && base.data_source is Simulator && some_shock_refused(
        overrides,
        not_finite,
    ) {
        Some(ErrorKind::Conversion)
    } else {
        None
    }
}

/// Whether the shock of some override cannot be put on the walk.
pub open spec fn some_shock_refused(
    overrides: Seq<ConfigOverride>,
    not_finite: Seq<usize>,
) -> bool {
    exists|i: int|
        0 <= i < overrides.len() && shock_refused(
            #[trigger] overrides[i],
            !not_finite.contains(i as usize),
        )
}

/// Whether a place is among some places.
fn is_among(places: &[usize], place: usize) -> (r: bool)
    ensures
        r == places@.contains(place),
{
    let mut i: usize = 0;
    while i < places.len()
        invariant
            i <= places.len(),
            forall|k: int| 0 <= k < i ==> places@[k] != place,
        decreases places.len() - i,
    {
        if places[i] == place {
            return true;
        }
        i = i + 1;
    }
    false
}

/// The override of a run: each override gets `count` runs in a row.
pub open spec fn override_of_run(params: ScenarioParams, index: int) -> ConfigOverride {
    overrides_of(params)[index / (params.count as int)]
}

/// Whether `configs` are the first configurations of a batch.
pub open spec fn are_run_configs(
    configs: Seq<BacktestConfig>,
    params: ScenarioParams,
    base: BacktestConfig,
) -> bool {
    forall|i: int|
        0 <= i < configs.len() ==> #[trigger] run_config_at(configs, params, base, i)
}

/// Whether the configuration at a place is that run's.
pub open spec fn run_config_at(
    configs: Seq<BacktestConfig>,
    params: ScenarioParams,
    base: BacktestConfig,
    i: int,
) -> bool {
    is_run_config(configs[i], base, params.base_seed, i as u32, override_of_run(params, i))
}

/// Expand a batch: `count` runs for each override in turn, each with its own
/// seeds. A walk shock outside a stress test is refused, and so are an explicit
/// seed that several runs would share and a batch of more than a million runs.
/// A shock on a simulated walk is refused where its factor is below zero, or
/// where a number of the walk does not stay finite under it. The walk's numbers
/// are floating-point, so the caller, who holds them, names the places of such
/// overrides in `not_finite`.
pub fn expand(params: &ScenarioParams, base: &BacktestConfig, not_finite: &[usize]) -> (r: Result<
    Vec<BacktestConfig>,
    BacktestError,
>)
    ensures
        match r {
            Ok(configs) => {
                &&& expansion_error(*params, *base, not_finite@) is None
                &&& configs@.len() == run_count(*params)
                &&& are_run_configs(configs@, *params, *base)
            },
            Err(e) => expansion_error(*params, *base, not_finite@) == Some(e.kind()),
        },
{
    let mut implicit: Vec<ConfigOverride> = Vec::new();
    implicit.push(ConfigOverride::default());
    let overrides: &Vec<ConfigOverride> = if params.sweep.len() == 0 {
        &implicit
    } else {
        &params.sweep
    };
    assert(overrides@ == overrides_of(*params));
    let mut any_shock = false;
    let mut any_seed = false;
    for i in 0..overrides.len()
        invariant
            any_shock == some_shock(overrides@.take(i as int)),
            any_seed == some_seed(overrides@.take(i as int)),
    {
        let over: ConfigOverride = overrides[i];
        proof {
            let before = overrides@.take(i as int);
            let after = overrides@.take(i + 1);
            assert(after[i as int] == over);
            assert forall|j: int| 0 <= j < before.len() implies #[trigger] before[j]
                == after[j] by {}
            assert(some_shock(before) ==> some_shock(after)) by {
                if some_shock(before) {
                    let j = choose|j: int| 0 <= j < before.len() && (#[trigger] before[j]).shocks();
                    assert(after[j].shocks());
                }
            }
            assert(some_seed(before) ==> some_seed(after)) by {
                if some_seed(before) {
                    let j = choose|j: int|
                        0 <= j < before.len() && (#[trigger] before[j]).seed is Some;
                    assert(after[j].seed is Some);
                }
            }
            assert(some_shock(after) ==> some_shock(before) || over.shocks()) by {
                if some_shock(after) {
                    let j = choose|j: int| 0 <= j < after.len() && (#[trigger] after[j]).shocks();
                    if j < i {
                        assert(before[j].shocks());
                    }
                }
            }
            assert(some_seed(after) ==> some_seed(before) || over.seed is Some) by {
                if some_seed(after) {
                    let j = choose|j: int|
                        0 <= j < after.len() && (#[trigger] after[j]).seed is Some;
                    if j < i {
                        assert(before[j].seed is Some);
                    }
                }
            }
        }
        any_shock = any_shock || over.walk_volatility_factor.is_some()
            || over.walk_drift_delta.is_some();
        any_seed = any_seed || over.seed.is_some();
    }
    assert(overrides@.take(overrides@.len() as int) == overrides@);
    if params.kind != ScenarioType::StressTest && any_shock {
        return Err(
            BacktestError::Config(
                String::from_str(
                    "walk_volatility_factor / walk_drift_delta are StressTest-only shocks, but the scenario kind is ",
                ).concat(params.kind.name()),
            ),
        );
    }
    if params.count > 1 && any_seed {
        return Err(
            BacktestError::Config(
                String::from_str(
                    "an explicit ConfigOverride.seed with count > 1 makes every replicate share a run_id (a concurrent bundle-directory race); use base_seed derivation (seed: None) for replicated runs, or set count = 1",
                ),
            ),
        );
    }
    let count: usize = params.count as usize;
    let width: usize = overrides.len();
    let total: usize = match width.checked_mul(count) {
        Some(total) => total,
        None => {
            return Err(BacktestError::ArithmeticOverflow);
        },
    };
    if total > MAX_RUNS {
        return Err(
            BacktestError::Config(
                String::from_str("scenario batch expands to ").concat(
                    &unsigned_text(total as u128),
                ).concat(" runs, exceeding the hard cap of 1000000"),
            ),
        );
    }
    let mut out: Vec<BacktestConfig> = Vec::with_capacity(total);
    let mut index: u32 = 0;
    assert(0 * count == 0) by (nonlinear_arith);
    for o in 0..width
        invariant
            overrides@ == overrides_of(*params),
            width == overrides@.len(),
            count == params.count,
            width * count == total,
            total <= MAX_RUNS,
            run_count(*params) == total,
            index == o * count,
            out@.len() == index,
            are_run_configs(out@, *params, *base),
            !(params.kind != ScenarioType::StressTest && some_shock(overrides@)),
            !(params.count > 1 && some_seed(overrides@)),
            count > 0 && base.data_source is Simulator ==> forall|j: int|
                0 <= j < o ==> !shock_refused(
                    #[trigger] overrides@[j],
                    !not_finite@.contains(j as usize),
                ),
    {
        let over: ConfigOverride = overrides[o];
        let finite: bool = !is_among(not_finite, o);
        for rep in 0..count
            invariant
                overrides@ == overrides_of(*params),
                over == overrides@[o as int],
                finite == !not_finite@.contains(o),
                0 <= o < width,
                width == overrides@.len(),
                count == params.count,
                width * count == total,
                total <= MAX_RUNS,
                run_count(*params) == total,
                index == o * count + rep,
                out@.len() == index,
                are_run_configs(out@, *params, *base),
                !(params.kind != ScenarioType::StressTest && some_shock(overrides@)),
                !(params.count > 1 && some_seed(overrides@)),
                rep > 0 && base.data_source is Simulator ==> !shock_refused(over, finite),
        {
            proof {
                assert(o * count + rep < width * count) by (nonlinear_arith)
                    requires
                        0 <= o < width,
                        0 <= rep < count,
                ;
                vstd::arithmetic::div_mod::lemma_fundamental_div_mod_converse(
                    index as int,
                    count as int,
                    o as int,
                    rep as int,
                );
                assert(override_of_run(*params, index as int) == over);
            }
            let config = match derive_config(base, params.base_seed, index, &over, finite) {
                Ok(config) => config,
                Err(e) => {
                    assert(shock_refused(overrides@[o as int], !not_finite@.contains(o)));
                    return Err(e);
                },
            };
            let ghost before = out@;
            out.push(config);
            proof {
                assert forall|i: int| 0 <= i < out@.len() implies #[trigger] run_config_at(
                    out@,
                    *params,
                    *base,
                    i,
                ) by {
                    if i < before.len() {
                        assert(run_config_at(before, *params, *base, i));
                    }
                }
            }
            index = index + 1;
        }
        assert((o + 1) * count == o * count + count) by (nonlinear_arith);
    }
    Ok(out)
}

/// Where a run stands in the batch decides its seeds, and nothing else of the
/// batch does: two batches with one root seed give the runs at one place the
/// same data seed, and the same engine seed unless an override pins it.
pub proof fn law_seeds_depend_on_place_alone(
    params1: ScenarioParams,
    base1: BacktestConfig,
    configs1: Seq<BacktestConfig>,
    params2: ScenarioParams,
    base2: BacktestConfig,
    configs2: Seq<BacktestConfig>,
    i: int,
)
    requires
        are_run_configs(configs1, params1, base1),
        are_run_configs(configs2, params2, base2),
        params1.base_seed == params2.base_seed,
        0 <= i < configs1.len(),
        i < configs2.len(),
    ensures
        override_of_run(params1, i).seed is None && override_of_run(params2, i).seed is None
            ==> configs1[i].seed == configs2[i].seed,
        configs1[i].data_source matches DataSourceSpec::Simulator(a) ==> (
        configs2[i].data_source matches DataSourceSpec::Simulator(b) ==> a.data_seed
            == b.data_seed && a.session_seed == b.session_seed),
{
    assert(run_config_at(configs1, params1, base1, i));
    assert(run_config_at(configs2, params2, base2, i));
}

/// An expansion is a function of the batch and the base configuration: two
/// expansions of one batch agree run by run.
pub proof fn law_expansion_is_reproducible(
    params: ScenarioParams,
    base: BacktestConfig,
    first: Seq<BacktestConfig>,
    second: Seq<BacktestConfig>,
    i: int,
)
    requires
        are_run_configs(first, params, base),
        are_run_configs(second, params, base),
        0 <= i < first.len(),
        i < second.len(),
    ensures
        first[i].seed == second[i].seed,
        first[i].mode == second[i].mode,
        first[i].initial_capital == second[i].initial_capital,
        first[i].fees == second[i].fees,
        first[i].marketable_cap_ticks == second[i].marketable_cap_ticks,
        first[i].output_dir == second[i].output_dir,
        first[i].overwrite == second[i].overwrite,
        first[i].data_source is Parquet ==> first[i].data_source == second[i].data_source,
        first[i].data_source matches DataSourceSpec::Simulator(a) ==> {
            &&& second[i].data_source matches DataSourceSpec::Simulator(b)
            &&& a.session == b.session
            &&& a.session_seed == b.session_seed
            &&& a.shocks@ == b.shocks@
            &&& a.base_url == b.base_url
            &&& a.data_seed == b.data_seed
            &&& a.tape_sha256@ == b.tape_sha256@
            &&& a.simulator_version == b.simulator_version
        },
{
    assert(run_config_at(first, params, base, i));
    assert(run_config_at(second, params, base, i));
}

/// The bytes of a number stand for it.
proof fn lemma_le_value_of_bytes(n: nat, width: nat)
    requires
        n < byte_range(width),
    ensures
        le_bytes(n, width).len() == width,
        le_value(le_bytes(n, width)) == n,
    decreases width,
{
    if width > 0 {
        let rest = (width - 1) as nat;
        assert(n / 256 < byte_range(rest));
        lemma_le_value_of_bytes(n / 256, rest);
        assert(le_bytes(n, width).skip(1) =~= le_bytes(n / 256, rest));
    }
}

/// Under one tag, two runs are hashed from the same bytes only where the root
/// seed and the place are the same.
pub proof fn law_seed_messages_tell_runs_apart(
    tag: Seq<u8>,
    base1: u64,
    index1: u32,
    base2: u64,
    index2: u32,
)
    requires
        seed_message(tag, base1, index1) == seed_message(tag, base2, index2),
    ensures
        base1 == base2,
        index1 == index2,
{
    reveal_with_fuel(byte_range, 9);
    lemma_le_value_of_bytes(base1 as nat, 8);
    lemma_le_value_of_bytes(base2 as nat, 8);
    lemma_le_value_of_bytes(index1 as nat, 4);
    lemma_le_value_of_bytes(index2 as nat, 4);
    let m1 = seed_message(tag, base1, index1);
    let m2 = seed_message(tag, base2, index2);
    let n = tag.len() as int;
    assert(m1.subrange(n, n + 8) =~= le_bytes(base1 as nat, 8));
    assert(m2.subrange(n, n + 8) =~= le_bytes(base2 as nat, 8));
    assert(m1.subrange(n + 8, n + 12) =~= le_bytes(index1 as nat, 4));
    assert(m2.subrange(n + 8, n + 12) =~= le_bytes(index2 as nat, 4));
}

/// No data seed is hashed from the bytes of an engine seed.
pub proof fn law_seed_kinds_are_hashed_apart(base1: u64, index1: u32, base2: u64, index2: u32)
    ensures
        seed_message(engine_seed_tag(), base1, index1) != seed_message(
            data_seed_tag(),
            base2,
            index2,
        ),
{
    reveal_with_fuel(byte_range, 9);
    lemma_le_value_of_bytes(base1 as nat, 8);
    lemma_le_value_of_bytes(base2 as nat, 8);
    lemma_le_value_of_bytes(index1 as nat, 4);
    lemma_le_value_of_bytes(index2 as nat, 4);
    reveal_strlit("ironcondor.scenario.child_seed.v1\0");
    reveal_strlit("ironcondor.scenario.child_data_seed.v1\0");
    is_ascii_spec_bytes("ironcondor.scenario.child_seed.v1\0");
    is_ascii_spec_bytes("ironcondor.scenario.child_data_seed.v1\0");
    assert(is_ascii("ironcondor.scenario.child_seed.v1\0"));
    assert(is_ascii("ironcondor.scenario.child_data_seed.v1\0"));
    assert(seed_message(engine_seed_tag(), base1, index1).len() == 34 + 12);
    assert(seed_message(data_seed_tag(), base2, index2).len() == 39 + 12);
}

/// A batch runs through its overrides one after the other, each as often as it
/// counts; without overrides it runs the base as often.
pub proof fn law_batch_repeats_each_override(params: ScenarioParams, o: int, rep: int)
    requires
        0 <= rep < params.count,
        params.sweep@.len() == 0 ==> o == 0,
        params.sweep@.len() > 0 ==> 0 <= o < params.sweep@.len(),
    ensures
        ({
            let i = o * params.count + rep;
            let over = override_of_run(params, i);
            &&& 0 <= i < run_count(params)
            &&& params.sweep@.len() > 0 ==> over == params.sweep@[o]
            &&& params.sweep@.len() == 0 ==> over.seed is None
                && over.walk_volatility_factor is None && over.walk_drift_delta is None
            &&& params.sweep@.len() > 0 ==> run_count(params) == params.sweep@.len() * params.count
            &&& params.sweep@.len() == 0 ==> run_count(params) == params.count
        }),
{
    let count = params.count as int;
    let width = overrides_of(params).len() as int;
    let i = o * count + rep;
    assert(0 <= i < width * count) by (nonlinear_arith)
        requires
            0 <= o < width,
            0 <= rep < count,
            i == o * count + rep,
    ;
    assert(width == 1 ==> width * count == count) by (nonlinear_arith);
    vstd::arithmetic::div_mod::lemma_fundamental_div_mod_converse(i, count, o, rep);
}

/// A run keeps what its batch does not sweep. Its engine seed is the one that
/// was pinned, or else derived; a recorded tape is replayed as it is, and a
/// simulated one is made anew from the run's own data seed, under the shocks of
/// the base and behind them the run's own.
pub proof fn law_run_changes_only_what_is_swept(
    config: BacktestConfig,
    base: BacktestConfig,
    base_seed: u64,
    index: u32,
    over: ConfigOverride,
)
    requires
        is_run_config(config, base, base_seed, index, over),
    ensures
        over.seed matches Some(pinned) ==> config.seed == pinned,
        config.mode == base.mode,
        config.initial_capital == base.initial_capital,
        config.fees == base.fees,
        config.marketable_cap_ticks == base.marketable_cap_ticks,
        config.output_dir == base.output_dir,
        config.overwrite == base.overwrite,
        base.data_source is Parquet ==> config.data_source == base.data_source,
        base.data_source matches DataSourceSpec::Simulator(from) ==> {
            &&& config.data_source matches DataSourceSpec::Simulator(to)
            &&& to.session == from.session
            &&& to.base_url == from.base_url
            &&& to.simulator_version == from.simulator_version
            &&& to.session_seed == Some(to.data_seed)
            &&& to.tape_sha256@.len() == 0
            &&& from.shocks@.is_prefix_of(to.shocks@)
            &&& over.walk_volatility_factor is None && over.walk_drift_delta is None
                ==> to.shocks@ == from.shocks@
            &&& over.walk_volatility_factor is Some || over.walk_drift_delta is Some ==> {
                &&& to.shocks@.len() == from.shocks@.len() + 1
                &&& to.shocks@.last().volatility_factor == over.walk_volatility_factor
                &&& to.shocks@.last().drift_delta == over.walk_drift_delta
            }
        },
{
}

/// What a batch is refused for: a shock outside a stress test, a pinned seed
/// that several runs would share, more than a million runs, and on a simulated
/// walk a volatility below zero.
pub proof fn law_unsound_batches_are_refused(
    params: ScenarioParams,
    base: BacktestConfig,
    not_finite: Seq<usize>,
    i: int,
)
    requires
        0 <= i < params.sweep@.len(),
    ensures
        ({
            let over = params.sweep@[i];
            let error = expansion_error(params, base, not_finite);
            &&& params.kind != ScenarioType::StressTest && (over.walk_volatility_factor is Some
                || over.walk_drift_delta is Some) ==> error == Some(ErrorKind::Config)
            &&& params.count > 1 && over.seed is Some ==> error == Some(ErrorKind::Config)
            &&& params.sweep@.len() * params.count > 1_000_000 ==> error is Some
            &&& params.count > 0 && base.data_source is Simulator && (
            over.walk_volatility_factor matches Some(factor) && factor@ < 0) ==> error is Some
        }),
{
    let overrides = overrides_of(params);
    let over = overrides[i];
    if over.shocks() {
        assert(some_shock(overrides));
    }
    if over.seed is Some {
        assert(some_seed(overrides));
    }
    if negative_factor(over) {
        assert(shock_refused(overrides[i], !not_finite.contains(i as usize)));
        assert(some_shock_refused(overrides, not_finite));
    }
}

/// A batch without overrides is expanded, as long as it is not too large.
pub proof fn law_plain_batches_are_expanded(
    params: ScenarioParams,
    base: BacktestConfig,
    not_finite: Seq<usize>,
)
    requires
        params.sweep@.len() == 0,
        params.count <= 1_000_000,
    ensures
        expansion_error(params, base, not_finite) is None,
{
    let overrides = overrides_of(params);
    let (width, count) = (overrides.len() as int, params.count as int);
    assert(width == 1 ==> width * count == count) by (nonlinear_arith);
    assert(!some_shock(overrides));
    assert(!some_seed(overrides));
    assert(!some_shock_refused(overrides, not_finite));
}

/// Numbers are written byte by byte, the least significant first, and read
/// back so.
pub proof fn law_bytes_are_least_significant_first(n: u64, s: Seq<u8>)
    requires
        s.len() == 8,
    ensures
        le_value(le_bytes(n as nat, 8)) == n,
        le_value(s) == s[0] + 0x100 * s[1] + 0x1_0000 * s[2] + 0x100_0000 * s[3] + 0x1_0000_0000
            * s[4] + 0x100_0000_0000 * s[5] + 0x1_0000_0000_0000 * s[6] + 0x100_0000_0000_0000
            * s[7],
{
    reveal_with_fuel(byte_range, 9);
    lemma_le_value_of_bytes(n as nat, 8);
    reveal_with_fuel(le_value, 9);
    assert(s.skip(1).skip(1) =~= s.skip(2));
    assert(s.skip(2).skip(1) =~= s.skip(3));
    assert(s.skip(3).skip(1) =~= s.skip(4));
    assert(s.skip(4).skip(1) =~= s.skip(5));
    assert(s.skip(5).skip(1) =~= s.skip(6));
    assert(s.skip(6).skip(1) =~= s.skip(7));
    assert(s.skip(7).skip(1) =~= Seq::<u8>::empty());
}

/// Every run of a batch draws its seeds from its own place in the batch, and no
/// two places are hashed from the same bytes.
pub proof fn law_every_run_draws_its_own_seeds(
    params: ScenarioParams,
    base: BacktestConfig,
    configs: Seq<BacktestConfig>,
    i: int,
    j: int,
)
    requires
        are_run_configs(configs, params, base),
        0 <= i < j < configs.len(),
        configs.len() <= u32::MAX,
    ensures
        override_of_run(params, i).seed is None ==> configs[i].seed == seed_under(
            engine_seed_tag(),
            params.base_seed,
            i as u32,
        ),
        configs[i].data_source matches DataSourceSpec::Simulator(spec) ==> spec.data_seed
            == seed_under(data_seed_tag(), params.base_seed, i as u32),
        seed_message(engine_seed_tag(), params.base_seed, i as u32) != seed_message(
            engine_seed_tag(),
            params.base_seed,
            j as u32,
        ),
        seed_message(data_seed_tag(), params.base_seed, i as u32) != seed_message(
            data_seed_tag(),
            params.base_seed,
            j as u32,
        ),
{
    assert(run_config_at(configs, params, base, i));
    if seed_message(engine_seed_tag(), params.base_seed, i as u32) == seed_message(
        engine_seed_tag(),
        params.base_seed,
        j as u32,
    ) {
        law_seed_messages_tell_runs_apart(
            engine_seed_tag(),
            params.base_seed,
            i as u32,
            params.base_seed,
            j as u32,
        );
    }
    if seed_message(data_seed_tag(), params.base_seed, i as u32) == seed_message(
        data_seed_tag(),
        params.base_seed,
        j as u32,
    ) {
        law_seed_messages_tell_runs_apart(
            data_seed_tag(),
            params.base_seed,
            i as u32,
            params.base_seed,
            j as u32,
        );
    }
}

/// A seed is the first eight bytes of its digest, the least significant first.
pub proof fn law_seed_is_the_front_of_its_digest(tag: Seq<u8>, base_seed: u64, index: u32)
    requires
        sha256(seed_message(tag, base_seed, index)).len() >= 8,
    ensures
        ({
            let d = sha256(seed_message(tag, base_seed, index));
            seed_under(tag, base_seed, index) == d[0] + 0x100 * d[1] + 0x1_0000 * d[2]
                + 0x100_0000 * d[3] + 0x1_0000_0000 * d[4] + 0x100_0000_0000 * d[5]
                + 0x1_0000_0000_0000 * d[6] + 0x100_0000_0000_0000 * d[7]
        }),
{
    let front = sha256(seed_message(tag, base_seed, index)).subrange(0, 8);
    law_bytes_are_least_significant_first(0, front);
    lemma_le_value_bound(front);
}

/// What a batch is not refused for: shocks in a stress test that the walk can
/// bear, seeds that no two runs share, and a million runs.
pub proof fn law_sound_batches_are_expanded(
    params: ScenarioParams,
    base: BacktestConfig,
    not_finite: Seq<usize>,
)
    requires
        params.sweep@.len() > 0,
        params.sweep@.len() * params.count <= 1_000_000,
        params.kind is StressTest || forall|i: int|
            0 <= i < params.sweep@.len() ==> (#[trigger] params.sweep@[i]).walk_volatility_factor is None
                && params.sweep@[i].walk_drift_delta is None,
        params.count <= 1 || forall|i: int|
            0 <= i < params.sweep@.len() ==> (#[trigger] params.sweep@[i]).seed is None,
        not_finite.len() == 0,
        forall|i: int|
            0 <= i < params.sweep@.len() && (
            #[trigger] params.sweep@[i]).walk_volatility_factor is Some
                ==> params.sweep@[i].walk_volatility_factor->0@ >= 0,
    ensures
        expansion_error(params, base, not_finite) is None,
{
    let overrides = overrides_of(params);
    if params.kind !is StressTest {
        assert(!some_shock(overrides));
    }
    if params.count > 1 {
        assert(!some_seed(overrides));
    }
    assert(!some_shock_refused(overrides, not_finite)) by {
        assert forall|i: int| 0 <= i < overrides.len() implies !shock_refused(
            #[trigger] overrides[i],
            !not_finite.contains(i as usize),
        ) by {
            assert(overrides[i] == params.sweep@[i]);
        }
    }
}

} // verus!
