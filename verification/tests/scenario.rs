//! Batches of runs and the walks of simulated sessions.

use ironcondor::config::{BacktestConfig, FeeSchedule};
use ironcondor::data::{DataSourceSpec, SimulatorSourceSpec, WalkShock};
use ironcondor::domain::{Decimal, ExecutionMode};
use ironcondor::engine::scenario::{child_data_seed, child_seed};
use ironcondor::engine::{expand, ConfigOverride, ScenarioParams, ScenarioType, WalkPreset};
use ironcondor::error::BacktestError;

fn base_config() -> BacktestConfig {
    BacktestConfig {
        data_source: DataSourceSpec::Parquet {
            path: "chains/spx.parquet".to_string(),
            sha256: String::new(),
        },
        mode: ExecutionMode::Naive,
        seed: 999,
        initial_capital: 10_000_000,
        fees: FeeSchedule {
            per_contract_cents: 65,
            per_order_cents: 100,
        },
        marketable_cap_ticks: 10,
        output_dir: "runs/out".to_string(),
        overwrite: false,
    }
}

/// An object with one member of a name, itself an object of numbers.
fn tagged(tag: &str, members: &[(&str, f64)]) -> serde_json::Value {
    let mut inner = serde_json::Map::new();
    for (name, value) in members {
        inner.insert((*name).to_string(), serde_json::Value::from(*value));
    }
    let mut outer = serde_json::Map::new();
    outer.insert(tag.to_string(), serde_json::Value::Object(inner));
    serde_json::Value::Object(outer)
}

#[test]
fn test_child_seed_is_pinned_and_stable() {
    assert_eq!(child_seed(0, 0), 0x0b6b_944a_18e1_6e29);
    assert_eq!(child_seed(42, 0), 0x5317_e52e_2b4f_cb1a);
    assert_eq!(child_seed(42, 1), 0xfb9f_52a6_4559_c464);
    assert_eq!(child_data_seed(42, 0), 0x7d1c_7410_be51_cdb9);
    assert_ne!(child_seed(42, 0), child_data_seed(42, 0));
}

#[test]
fn test_child_seed_is_a_pure_function_of_inputs() {
    for base in [0_u64, 1, 42, u64::MAX] {
        for index in 0_u32..8 {
            assert_eq!(child_seed(base, index), child_seed(base, index));
        }
        let seeds: Vec<u64> = (0..8).map(|i| child_seed(base, i)).collect();
        let mut unique = seeds.clone();
        unique.sort_unstable();
        unique.dedup();
        assert_eq!(
            unique.len(),
            seeds.len(),
            "no index collisions for base {base}"
        );
    }
}

#[test]
fn test_expand_empty_sweep_yields_count_replicas_with_derived_seeds() {
    let params = ScenarioParams {
        kind: ScenarioType::MonteCarlo,
        base_seed: 42,
        count: 4,
        sweep: Vec::new(),
    };
    let configs = match expand(&params, &base_config(), &[]) {
        Ok(c) => c,
        Err(e) => panic!("expand must succeed: {e:?}"),
    };
    assert_eq!(configs.len(), 4, "empty sweep => count replicas");
    for (index, config) in configs.iter().enumerate() {
        let i = u32::try_from(index).unwrap_or(u32::MAX);
        assert_eq!(config.seed, child_seed(42, i));
    }
}

#[test]
fn test_expand_cardinality_is_sweep_times_count() {
    let params = ScenarioParams {
        kind: ScenarioType::StressTest,
        base_seed: 7,
        count: 3,
        sweep: vec![
            ConfigOverride::default(),
            ConfigOverride::default(),
            ConfigOverride::default(),
            ConfigOverride::default(),
        ],
    };
    let configs = match expand(&params, &base_config(), &[]) {
        Ok(c) => c,
        Err(e) => panic!("expand must succeed: {e:?}"),
    };
    assert_eq!(configs.len(), 4 * 3, "sweep.len() x count");
    for (index, config) in configs.iter().enumerate() {
        let i = u32::try_from(index).unwrap_or(u32::MAX);
        assert_eq!(config.seed, child_seed(7, i));
    }
}

#[test]
fn test_expand_rejects_run_count_over_max() {
    let params = ScenarioParams {
        kind: ScenarioType::MonteCarlo,
        base_seed: 1,
        count: u32::MAX,
        sweep: Vec::new(),
    };
    assert!(matches!(
        expand(&params, &base_config(), &[]),
        Err(BacktestError::Config(_))
    ));
}

#[test]
fn test_expand_rejects_explicit_seed_with_count_gt_one() {
    let bad = ScenarioParams {
        kind: ScenarioType::MonteCarlo,
        base_seed: 1,
        count: 2,
        sweep: vec![ConfigOverride {
            seed: Some(7),
            ..ConfigOverride::default()
        }],
    };
    assert!(matches!(
        expand(&bad, &base_config(), &[]),
        Err(BacktestError::Config(_))
    ));

    let ok = ScenarioParams {
        kind: ScenarioType::MonteCarlo,
        base_seed: 1,
        count: 1,
        sweep: vec![ConfigOverride {
            seed: Some(7),
            ..ConfigOverride::default()
        }],
    };
    assert!(expand(&ok, &base_config(), &[]).is_ok());
}

#[test]
fn test_expand_rejects_walk_shocks_outside_stress_test() {
    for kind in [
        ScenarioType::MonteCarlo,
        ScenarioType::Historical,
        ScenarioType::Custom,
    ] {
        let params = ScenarioParams {
            kind,
            base_seed: 1,
            count: 1,
            sweep: vec![ConfigOverride {
                seed: None,
                walk_volatility_factor: Some(Decimal::new(15, 1)),
                walk_drift_delta: None,
            }],
        };
        assert!(
            matches!(
                expand(&params, &base_config(), &[]),
                Err(BacktestError::Config(_))
            ),
            "kind {kind:?} must reject a walk shock"
        );
    }
    let stress = ScenarioParams {
        kind: ScenarioType::StressTest,
        base_seed: 1,
        count: 1,
        sweep: vec![ConfigOverride {
            seed: None,
            walk_volatility_factor: Some(Decimal::new(15, 1)),
            walk_drift_delta: None,
        }],
    };
    assert!(expand(&stress, &base_config(), &[]).is_ok());
}

#[test]
fn test_expand_is_scheduling_independent_pure_function() {
    let params = ScenarioParams {
        kind: ScenarioType::MonteCarlo,
        base_seed: 12_345,
        count: 1,
        sweep: vec![
            ConfigOverride {
                seed: Some(111),
                ..ConfigOverride::default()
            },
            ConfigOverride::default(),
        ],
    };
    let base = base_config();
    let first = expand(&params, &base, &[]);
    let second = expand(&params, &base, &[]);
    match (first, second) {
        (Ok(a), Ok(b)) => assert_eq!(a, b),
        other => panic!("expand must be deterministic: {other:?}"),
    }
}

#[test]
fn test_expand_explicit_seed_override_pins_engine_seed() {
    let params = ScenarioParams {
        kind: ScenarioType::Custom,
        base_seed: 1,
        count: 1,
        sweep: vec![
            ConfigOverride {
                seed: Some(4242),
                ..ConfigOverride::default()
            },
            ConfigOverride::default(),
        ],
    };
    let configs = match expand(&params, &base_config(), &[]) {
        Ok(c) => c,
        Err(e) => panic!("expand must succeed: {e:?}"),
    };
    assert_eq!(configs.len(), 2);
    assert_eq!(configs[0].seed, 4242);
    assert_eq!(configs[1].seed, child_seed(1, 1));
}

#[test]
fn test_walk_preset_geometric_brownian_maps_to_tagged_method_json() {
    let preset = WalkPreset::GeometricBrownian {
        dt: Decimal::new(4, 3),
        drift: Decimal::new(5, 2),
        volatility: Decimal::new(25, 2),
    };
    let method = match preset.to_method_json() {
        Ok(m) => m,
        Err(e) => panic!("preset must build a method: {e:?}"),
    };
    let expected = tagged(
        "GeometricBrownian",
        &[("dt", 0.004), ("drift", 0.05), ("volatility", 0.25)],
    );
    assert_eq!(method, expected);
}

#[test]
fn test_expand_simulator_derives_data_seed_and_applies_stress_shocks() {
    let mut base = base_config();
    base.data_source = DataSourceSpec::Simulator(SimulatorSourceSpec {
        session: "{\"symbol\":\"SPX\",\"steps\":10,\"volatility\":0.2}".to_string(),
        session_seed: None,
        shocks: Vec::new(),
        base_url: "http://localhost:7070".to_string(),
        data_seed: 0,
        tape_sha256: "stale".to_string(),
        simulator_version: None,
    });

    let params = ScenarioParams {
        kind: ScenarioType::StressTest,
        base_seed: 7,
        count: 1,
        sweep: vec![
            ConfigOverride::default(),
            ConfigOverride {
                seed: None,
                walk_volatility_factor: Some(Decimal::new(15, 1)),
                walk_drift_delta: Some(Decimal::new(1, 2)),
            },
        ],
    };
    let configs = match expand(&params, &base, &[]) {
        Ok(c) => c,
        Err(e) => panic!("simulator expand must succeed: {e:?}"),
    };
    assert_eq!(configs.len(), 2);

    let DataSourceSpec::Simulator(spec0) = &configs[0].data_source else {
        panic!("run 0 keeps a simulator source");
    };
    assert_eq!(spec0.data_seed, child_data_seed(7, 0));
    assert_eq!(spec0.session_seed, Some(child_data_seed(7, 0)));
    assert!(
        spec0.tape_sha256.is_empty(),
        "the stale tape sha is cleared"
    );
    assert!(spec0.shocks.is_empty(), "the baseline walk is unshocked");

    let DataSourceSpec::Simulator(spec1) = &configs[1].data_source else {
        panic!("run 1 keeps a simulator source");
    };
    assert_eq!(spec1.data_seed, child_data_seed(7, 1));
    assert_eq!(
        spec1.shocks,
        vec![WalkShock {
            volatility_factor: Some(Decimal::new(15, 1)),
            drift_delta: Some(Decimal::new(1, 2)),
        }],
        "the walk is put under the override's shocks"
    );
}

#[test]
fn test_walk_preset_heston_maps_to_all_upstream_fields() {
    let preset = WalkPreset::Heston {
        dt: Decimal::new(4, 3),
        drift: Decimal::new(5, 2),
        volatility: Decimal::new(2, 1),
        kappa: Decimal::new(15, 1),
        theta: Decimal::new(4, 2),
        xi: Decimal::new(3, 1),
        rho: Decimal::new(-5, 1),
    };
    let method = match preset.to_method_json() {
        Ok(m) => m,
        Err(e) => panic!("preset must build a method: {e:?}"),
    };
    let expected = tagged(
        "Heston",
        &[
            ("dt", 0.004),
            ("drift", 0.05),
            ("volatility", 0.2),
            ("kappa", 1.5),
            ("theta", 0.04),
            ("xi", 0.3),
            ("rho", -0.5),
        ],
    );
    assert_eq!(method, expected);
}

#[test]
fn walk_presets_name_their_own_parameters() {
    let d = |n: i64| Decimal::new(n, 2);
    let presets = [
        (
            WalkPreset::Brownian {
                dt: d(1),
                drift: d(2),
                volatility: d(3),
            },
            vec!["dt", "drift", "volatility"],
        ),
        (
            WalkPreset::MeanReverting {
                dt: d(1),
                volatility: d(2),
                speed: d(3),
                mean: d(4),
            },
            vec!["dt", "volatility", "speed", "mean"],
        ),
        (
            WalkPreset::JumpDiffusion {
                dt: d(1),
                drift: d(2),
                volatility: d(3),
                intensity: d(4),
                jump_mean: d(5),
                jump_volatility: d(6),
            },
            vec![
                "dt",
                "drift",
                "volatility",
                "intensity",
                "jump_mean",
                "jump_volatility",
            ],
        ),
        (
            WalkPreset::Garch {
                dt: d(1),
                drift: d(2),
                volatility: d(3),
                alpha: d(4),
                beta: d(5),
            },
            vec!["dt", "drift", "volatility", "alpha", "beta"],
        ),
    ];
    for (preset, names) in presets {
        let got: Vec<&str> = preset.parameters().iter().map(|p| p.name).collect();
        assert_eq!(got, names, "{}", preset.variant_name());
        let Ok(method) = preset.to_method_json() else {
            panic!("preset must build a method");
        };
        let inner = method
            .get(preset.variant_name())
            .and_then(serde_json::Value::as_object)
            .map_or(0, serde_json::Map::len);
        assert_eq!(inner, names.len());
    }
}

#[test]
fn negative_volatility_factor_is_refused() {
    let mut base = base_config();
    base.data_source = DataSourceSpec::Simulator(SimulatorSourceSpec {
        session: String::new(),
        session_seed: None,
        shocks: Vec::new(),
        base_url: String::new(),
        data_seed: 0,
        tape_sha256: String::new(),
        simulator_version: None,
    });
    let params = ScenarioParams {
        kind: ScenarioType::StressTest,
        base_seed: 1,
        count: 1,
        sweep: vec![ConfigOverride {
            seed: None,
            walk_volatility_factor: Some(Decimal::new(-1, 0)),
            walk_drift_delta: None,
        }],
    };
    assert!(matches!(
        expand(&params, &base, &[]),
        Err(BacktestError::Conversion(_))
    ));
}

#[test]
fn a_shock_outside_a_stress_test_names_the_kind() {
    let params = ScenarioParams {
        kind: ScenarioType::MonteCarlo,
        base_seed: 7,
        count: 1,
        sweep: vec![ConfigOverride {
            seed: None,
            walk_volatility_factor: Some(Decimal::new(2, 0)),
            walk_drift_delta: None,
        }],
    };
    let copy = params.clone();
    assert_eq!(copy, params);
    match expand(&params, &base_config(), &[]) {
        Err(BacktestError::Config(text)) => assert_eq!(
            text,
            "walk_volatility_factor / walk_drift_delta are StressTest-only shocks, but the \
             scenario kind is MonteCarlo"
        ),
        other => panic!("expected a refusal, got {other:?}"),
    }
}

#[test]
fn a_shock_that_does_not_stay_finite_is_refused() {
    let mut base = base_config();
    let shock = ConfigOverride {
        seed: None,
        walk_volatility_factor: Some(Decimal::new(2, 0)),
        walk_drift_delta: None,
    };
    let params = ScenarioParams {
        kind: ScenarioType::StressTest,
        base_seed: 1,
        count: 1,
        sweep: vec![ConfigOverride::default(), shock],
    };
    assert!(
        expand(&params, &base, &[1]).is_ok(),
        "a recorded tape has no walk to shock"
    );
    base.data_source = DataSourceSpec::Simulator(SimulatorSourceSpec {
        session: String::new(),
        session_seed: None,
        shocks: Vec::new(),
        base_url: String::new(),
        data_seed: 0,
        tape_sha256: String::new(),
        simulator_version: None,
    });
    assert!(expand(&params, &base, &[]).is_ok());
    assert!(expand(&params, &base, &[0]).is_ok(), "no shock, nothing to refuse");
    assert!(matches!(
        expand(&params, &base, &[1]),
        Err(BacktestError::Conversion(_))
    ));
}
