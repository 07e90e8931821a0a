use viva::models::app::{
    AppCollection, AppEnvPlacementStrategy, DefaultAppCollection, VivaApp, VivaAppSpec,
};
use viva::models::environment::VivaEnvSpec;
use viva::models::Decoded;
use viva::store::StoreAction;
use viva::VivaError;

fn strings(items: &[&str]) -> Vec<String> {
    items.iter().map(|s| s.to_string()).collect()
}

fn app_spec(executable: &str, args: &[&str], pkg_specs: &[&str]) -> VivaAppSpec {
    VivaAppSpec {
        executable: executable.to_string(),
        args: strings(args),
        env_spec: VivaEnvSpec { channels: strings(&["conda-forge"]), pkg_specs: strings(pkg_specs) },
    }
}

#[test]
fn placement_strategy_from_reserved_words() {
    assert!(matches!(
        AppEnvPlacementStrategy::from_str("--default--"),
        Ok(AppEnvPlacementStrategy::Default)
    ));
    assert!(matches!(
        AppEnvPlacementStrategy::from_str("--collection_id--"),
        Ok(AppEnvPlacementStrategy::CollectionId)
    ));
    assert!(matches!(
        AppEnvPlacementStrategy::from_str("--app_id--"),
        Ok(AppEnvPlacementStrategy::AppId)
    ));
    match AppEnvPlacementStrategy::from_str("my-env") {
        Ok(AppEnvPlacementStrategy::Custom(id)) => assert_eq!(id, "my-env"),
        other => panic!("unexpected: {:?}", other),
    }
    match AppEnvPlacementStrategy::from_str("default") {
        Ok(AppEnvPlacementStrategy::Custom(id)) => assert_eq!(id, "default"),
        other => panic!("unexpected: {:?}", other),
    }
}

#[test]
fn placement_resolves_every_variant() {
    assert_eq!(AppEnvPlacementStrategy::Default.resolve("app", "col"), "default");
    assert_eq!(AppEnvPlacementStrategy::CollectionId.resolve("app", "col"), "col");
    assert_eq!(AppEnvPlacementStrategy::AppId.resolve("app", "col"), "app");
    assert_eq!(AppEnvPlacementStrategy::Custom("x".to_string()).resolve("app", "col"), "x");
}

#[test]
fn collection_id_placement_under_default_collection_is_default() {
    assert_eq!(AppEnvPlacementStrategy::CollectionId.resolve("black", "default"), "default");
}

#[test]
fn full_cmd_is_executable_then_args() {
    assert_eq!(app_spec("python", &["-m", "http.server"], &[]).get_full_cmd(), strings(&["python", "-m", "http.server"]));
    assert_eq!(app_spec("ls", &[], &[]).get_full_cmd(), strings(&["ls"]));
}

#[test]
fn app_spec_equality() {
    let a = app_spec("python", &["-m", "x"], &["python"]);
    assert!(a == app_spec("python", &["-m", "x"], &["python"]));
    assert!(a != app_spec("python3", &["-m", "x"], &["python"]));
    assert!(a != app_spec("python", &["x", "-m"], &["python"]));
    assert!(a != app_spec("python", &["-m", "x"], &["python", "pip"]));
    let mut b = app_spec("python", &["-m", "x"], &["python"]);
    b.env_spec.channels = strings(&["conda-forge"]);
    assert!(a == b);
    let c = a.clone();
    assert!(a == c);
    assert_eq!(c.args, strings(&["-m", "x"]));
}

#[test]
fn app_keeps_its_environment_id() {
    let app = VivaApp::create(
        "black".to_string(),
        app_spec("black", &[], &["black"]),
        "default".to_string(),
        "tools".to_string(),
    );
    assert_eq!(app.id, "black");
    assert_eq!(app.app_collection_id, "default");
    assert_eq!(app.get_env_id(), "tools");
    assert_eq!(app.get_id(), "black");
    assert_eq!(app.get_collection_id(), "default");
    assert_eq!(app.get_spec().executable, "black");
    assert_eq!(app.get_env_spec().pkg_specs, strings(&["black"]));
    let copy = app.clone();
    assert_eq!(copy.get_env_id(), "tools");
    assert_eq!(copy.spec.executable, "black");
}

#[test]
fn app_collection_reads_sets_and_deletes() {
    let consolidated = Decoded {
        extension: Some("json".to_string()),
        json: Ok(vec![
            ("black".to_string(), app_spec("black", &[], &["black"])),
            ("ruff".to_string(), app_spec("ruff", &[], &["ruff"])),
        ]),
        yaml: Err("unused".to_string()),
    };
    let singles = vec![(
        "ruff".to_string(),
        Decoded {
            extension: Some("json".to_string()),
            json: Ok(app_spec("ruff", &["check"], &["ruff>=0.1"])),
            yaml: Err("unused".to_string()),
        },
    )];
    let mut col = DefaultAppCollection::create("/cfg".to_string(), Some(consolidated), singles).unwrap();
    assert_eq!(col.get_app_ids(), strings(&["black", "ruff"]));
    assert_eq!(col.get_app("ruff").unwrap().args, strings(&["check"]));
    assert!(matches!(col.get_app("nope"), Err(VivaError::NotFound { id }) if id == "nope"));
    let actions = col.sync_config();
    assert_eq!(actions.len(), 1);
    assert!(matches!(&actions[0], StoreAction::WriteCollected { path, .. } if path == "/cfg/apps.json"));

    col.set_app("mypy", &app_spec("mypy", &[], &["mypy"])).unwrap();
    assert_eq!(col.get_app("mypy").unwrap().executable, "mypy");
    col.delete_app("black").unwrap();
    assert!(col.get_app("black").is_err());
    let actions = col.sync_config();
    assert_eq!(actions.len(), 2);
    assert!(matches!(&actions[0], StoreAction::WriteCollected { path, .. } if path == "/cfg/apps.json"));
    assert!(
        matches!(&actions[1], StoreAction::WriteSingle { id, path, .. } if id == "mypy" && path == "/cfg/apps/mypy.json")
    );
    assert!(col.sync_config().is_empty());
}
