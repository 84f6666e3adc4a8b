use pie_runtime::runtime::{EngineMode, RuntimeConfig, RuntimeError, SimulationPhase};

#[test]
fn simulation_phase_order_is_pre_update_update_post_update() {
    assert_eq!(
        SimulationPhase::ordered(),
        [SimulationPhase::PreUpdate, SimulationPhase::Update, SimulationPhase::PostUpdate]
    );
}

#[test]
fn runtime_config_supports_assets_and_scene_flags() {
    let config = RuntimeConfig::from_args(&[
        "pie_runtime",
        "--assets",
        "content",
        "--scene",
        "content/demo/scene.gltf",
    ])
    .expect("assets and scene args should parse");

    assert_eq!(config.assets_root, "content");
    assert_eq!(config.scene_path, Some("content/demo/scene.gltf".to_string()));
    assert_eq!(config.default_scene_path(), "content/demo/scene.gltf");
}

#[test]
fn runtime_config_reports_missing_assets_path() {
    let error = RuntimeConfig::from_args(&["pie_runtime", "--assets"])
        .expect_err("missing assets path should fail");

    assert_eq!(error, RuntimeError::MissingArgument("expected path after --assets".to_string()));
}

#[test]
fn client_config_uses_client_mode() {
    let config = RuntimeConfig::client();

    assert_eq!(config.mode, EngineMode::Client);
    assert_eq!(f64::from_bits(config.fixed_timestep_seconds), 1.0 / 60.0);
}

#[test]
fn headless_config_uses_headless_mode() {
    let config = RuntimeConfig::headless();

    assert_eq!(config.mode, EngineMode::Headless);
    assert_eq!(f64::from_bits(config.fixed_timestep_seconds), 1.0 / 60.0);
}

#[test]
fn runtime_config_defaults_to_client_mode_from_args() {
    let config = RuntimeConfig::from_args(&["pie_runtime"]).expect("default runtime args should parse");

    assert_eq!(config.mode, EngineMode::Client);
    assert_eq!(f64::from_bits(config.fixed_timestep_seconds), 1.0 / 60.0);
}

#[test]
fn runtime_config_supports_headless_flag_from_args() {
    let config = RuntimeConfig::from_args(&["pie_runtime", "--headless"])
        .expect("headless runtime args should parse");

    assert_eq!(config.mode, EngineMode::Headless);
    assert_eq!(f64::from_bits(config.fixed_timestep_seconds), 1.0 / 60.0);
}

#[test]
fn runtime_config_rejects_unknown_flags_from_args() {
    let error = RuntimeConfig::from_args(&["pie_runtime", "--unknown"])
        .expect_err("unknown runtime args should be rejected");

    assert_eq!(error, RuntimeError::UnknownArgument("--unknown".to_string()));
}

#[test]
fn default_scene_path_falls_back_under_assets_root() {
    let config = RuntimeConfig::from_args(&["pie_runtime", "--assets", "content/"]).unwrap();
    assert_eq!(config.default_scene_path(), "content/sample/scene.gltf");
    assert_eq!(RuntimeConfig::client().default_scene_path(), "assets/sample/scene.gltf");
    assert_eq!(RuntimeConfig::from_args(&[]).unwrap(), RuntimeConfig::client());
    assert_eq!(
        RuntimeConfig::from_args(&["p", "--scene"]),
        Err(RuntimeError::MissingArgument("expected path after --scene".to_string()))
    );
}

#[test]
fn runtime_app_defaults_to_client_mode() {
    let config = RuntimeConfig::from_args(&["pie_runtime"]).expect("default args should parse");

    assert_eq!(config.mode, EngineMode::Client);
}

#[test]
fn runtime_app_supports_headless_flag() {
    let config = RuntimeConfig::from_args(&["pie_runtime", "--headless"])
        .expect("headless args should parse");

    assert_eq!(config.mode, EngineMode::Headless);
}

#[test]
fn runtime_app_rejects_unknown_flags() {
    let error = RuntimeConfig::from_args(&["pie_runtime", "--unknown"])
        .expect_err("unknown flags should be rejected");

    assert_eq!(error, RuntimeError::UnknownArgument("--unknown".to_string()));
}
