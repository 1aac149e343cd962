use agent_workspace::error::WorkspaceError;
use agent_workspace::model::Normalizer;
use agent_workspace::normalizers::NormalizerConfig;

/// The configuration a `normalizers.toml` with these `(extension, tool)`
/// entries declares over the built-in default.
fn configured(entries: &[(&str, &str)]) -> Result<NormalizerConfig, WorkspaceError> {
    let mut config = NormalizerConfig::builtin_default();
    for (extension, tool) in entries {
        config.declare(extension, tool)?;
    }
    Ok(config)
}

fn resolve_for_path(entries: &[(&str, &str)], path: &str) -> Result<Normalizer, WorkspaceError> {
    Ok(configured(entries)?.for_path(path))
}

#[test]
fn builtin_default_matches_the_former_hard_coded_match() {
    // No config file: rust → rustfmt, everything else → raw bytes.
    assert_eq!(resolve_for_path(&[], "src/task.rs").ok(), Some(Normalizer::Rustfmt));
    assert_eq!(resolve_for_path(&[], "README.md").ok(), Some(Normalizer::Raw));
    assert_eq!(resolve_for_path(&[], "Makefile").ok(), Some(Normalizer::Raw));
}

#[test]
fn config_overlays_the_builtin_and_can_disable_normalization() {
    // The overlay wins: the seam actually changes behavior, not just shape.
    assert_eq!(
        resolve_for_path(&[("rs", "none")], "src/task.rs").ok(),
        Some(Normalizer::Raw)
    );
}

#[test]
fn prettier_is_registered_and_selectable_for_typescript() {
    assert_eq!(
        resolve_for_path(&[("ts", "prettier")], "src/index.ts").ok(),
        Some(Normalizer::Prettier)
    );
    // Still opt-in: a TS file without the config stays raw bytes.
    assert_eq!(resolve_for_path(&[], "a.ts").ok(), Some(Normalizer::Raw));
}

#[test]
fn python_formatters_are_registered_and_selectable() {
    assert_eq!(
        resolve_for_path(&[("py", "ruff")], "hooks/orient.py").ok(),
        Some(Normalizer::RuffFormat)
    );
    // `black` is the other registered Python tool.
    assert_eq!(Normalizer::from_tool_name("black"), Some(Normalizer::Black));
    // Still opt-in: a .py file with no config stays raw bytes.
    assert_eq!(resolve_for_path(&[], "a.py").ok(), Some(Normalizer::Raw));
}

#[test]
fn an_unknown_tool_fails_closed() {
    // `biome` is a real formatter but not a registered normalizer; naming it
    // must fail closed rather than silently degrade to raw-byte comparison.
    let error = resolve_for_path(&[("ts", "biome")], "index.ts").err();
    assert!(
        matches!(error, Some(WorkspaceError::InvalidConfig(_))),
        "an unregistered tool must fail closed, not fall back to raw bytes"
    );
}
