use viva::models::app::{AppCollection, AppEnvPlacementStrategy, DefaultAppCollection, VivaAppSpec};
use viva::models::environment::{
    DefaultEnvCollection, EnvSyncStatus, EnvironmentCollection, VivaEnvSpec,
};
use viva::models::Decoded;
use viva::store::StoreAction;
use viva::table::IdTable;
use viva::{VivaContext, VivaError};

type Context = VivaContext<DefaultEnvCollection, DefaultAppCollection>;

fn strings(items: &[&str]) -> Vec<String> {
    items.iter().map(|s| s.to_string()).collect()
}

fn spec(channels: &[&str], pkg_specs: &[&str]) -> VivaEnvSpec {
    VivaEnvSpec { channels: strings(channels), pkg_specs: strings(pkg_specs) }
}

fn app_spec(executable: &str, pkg_specs: &[&str]) -> VivaAppSpec {
    VivaAppSpec {
        executable: executable.to_string(),
        args: Vec::new(),
        env_spec: spec(&["conda-forge"], pkg_specs),
    }
}

fn env_collection(base: &str, entries: Vec<(&str, VivaEnvSpec)>) -> DefaultEnvCollection {
    let entries: Vec<(String, VivaEnvSpec)> =
        entries.into_iter().map(|(id, s)| (id.to_string(), s)).collect();
    DefaultEnvCollection::create(
        base.to_string(),
        Some(Decoded {
            extension: Some("json".to_string()),
            json: Ok(entries),
            yaml: Err("not tried".to_string()),
        }),
        Vec::new(),
    )
    .unwrap()
}

fn app_collection(base: &str, entries: Vec<(&str, VivaAppSpec)>) -> DefaultAppCollection {
    let entries: Vec<(String, VivaAppSpec)> =
        entries.into_iter().map(|(id, s)| (id.to_string(), s)).collect();
    DefaultAppCollection::create(
        base.to_string(),
        Some(Decoded {
            extension: Some("json".to_string()),
            json: Ok(entries),
            yaml: Err("not tried".to_string()),
        }),
        Vec::new(),
    )
    .unwrap()
}

fn context_with_default_collections() -> Context {
    let mut context = Context::create("/data/envs".to_string());
    context.add_env_collection("default", env_collection("/cfg", Vec::new()), &IdTable::new()).unwrap();
    context.add_app_collection("default", app_collection("/cfg", Vec::new()), None).unwrap();
    context
}

#[test]
fn new_context_is_empty() {
    let context = Context::create("/data/envs".to_string());
    assert!(context.get_env_ids().is_empty());
    assert!(context.get_app_ids().is_empty());
    assert!(!context.has_env("default"));
    assert!(matches!(context.get_env("default"), Err(VivaError::NotFound { id }) if id == "default"));
    assert!(matches!(context.get_app("a"), Err(VivaError::NotFound { id }) if id == "a"));
    assert_eq!(context.list_envs().len(), 0);
    assert_eq!(context.list_apps().len(), 0);
}

#[test]
fn registering_twice_without_leave_is_a_duplicate() {
    let mut context = Context::create("/data/envs".to_string());
    assert!(matches!(context.add_registered_env("e1", "default", spec(&["c"], &["p"]), None, false), Ok(true)));
    assert!(matches!(
        context.add_registered_env("e1", "default", spec(&["other"], &["q"]), None, false),
        Err(VivaError::DuplicateId { id }) if id == "e1"
    ));
    assert_eq!(context.get_env("e1").unwrap().spec.pkg_specs, strings(&["p"]));
    assert_eq!(context.get_env_ids(), strings(&["e1"]));
}

#[test]
fn registering_twice_with_leave_changes_nothing() {
    let mut context = Context::create("/data/envs".to_string());
    assert!(matches!(context.add_registered_env("e1", "default", spec(&["c"], &["p"]), None, true), Ok(true)));
    assert!(matches!(context.add_registered_env("e1", "other", spec(&["d"], &["q"]), None, true), Ok(false)));
    let env = context.get_env("e1").unwrap();
    assert_eq!(env.collection_id, "default");
    assert_eq!(env.spec.channels, strings(&["c"]));
    assert_eq!(env.spec.pkg_specs, strings(&["p"]));
    assert_eq!(context.get_env_ids(), strings(&["e1"]));
}

#[test]
fn registered_environment_has_its_paths_and_status() {
    let mut context = Context::create("/data/envs".to_string());
    context.add_registered_env("e1", "col", spec(&["c"], &["p"]), None, false).unwrap();
    let env = context.get_env("e1").unwrap();
    assert_eq!(env.id, "e1");
    assert_eq!(env.collection_id, "col");
    assert_eq!(env.get_env_path(), "/data/envs/e1");
    assert_eq!(env.get_actual_spec_path(), "/data/envs/e1/.viva_env");
    assert!(env.get_actual().channels.is_empty());
    assert!(env.get_actual().pkg_specs.is_empty());
    assert_eq!(env.sync_status, EnvSyncStatus::NotSynced);
}

#[test]
fn status_at_registration_comes_from_the_record_on_disk() {
    let mut context = Context::create("/data/envs".to_string());
    context
        .add_registered_env("ok", "col", spec(&["c"], &["p"]), Some(spec(&["c"], &["p", "q"])), false)
        .unwrap();
    context.add_registered_env("stale", "col", spec(&["c"], &["p"]), Some(spec(&["c"], &[])), false).unwrap();
    context.add_registered_env("empty", "col", spec(&[], &[]), None, false).unwrap();
    assert_eq!(context.get_env("ok").unwrap().sync_status, EnvSyncStatus::Synced);
    assert_eq!(context.get_env("ok").unwrap().get_actual().pkg_specs, strings(&["p", "q"]));
    assert_eq!(context.get_env("stale").unwrap().sync_status, EnvSyncStatus::NotSynced);
    assert_eq!(context.get_env("empty").unwrap().sync_status, EnvSyncStatus::NotSynced);
}

#[test]
fn merge_then_sync_scenario() {
    let mut context = context_with_default_collections();
    context.add_env("default", Some(spec(&["conda-forge"], &[])), None, None).unwrap();
    context.merge_env_specs("default", &spec(&[], &["numpy"]), false, false, None).unwrap();
    {
        let env = context.get_env("default").unwrap();
        assert_eq!(env.spec.pkg_specs, strings(&["numpy"]));
        assert_eq!(env.spec.channels, strings(&["conda-forge"]));
        assert_eq!(env.sync_status, EnvSyncStatus::NotSynced);
    }
    context.check_envs_sync_status().unwrap();
    assert_eq!(context.get_env("default").unwrap().sync_status, EnvSyncStatus::NotSynced);

    let requests = context.sync_envs(&strings(&["default"])).unwrap();
    assert_eq!(requests.len(), 1);
    assert_eq!(requests[0].env_id, "default");
    assert_eq!(requests[0].env_path, "/data/envs/default");
    assert_eq!(requests[0].spec.channels, strings(&["conda-forge"]));
    assert_eq!(requests[0].spec.pkg_specs, strings(&["numpy"]));
    assert_eq!(context.get_env("default").unwrap().sync_status, EnvSyncStatus::NotSynced);

    assert!(matches!(context.finish_sync("default", Err("no network".to_string())), Err(VivaError::MaterializationFailure { .. })));
    assert_eq!(context.get_env("default").unwrap().sync_status, EnvSyncStatus::NotSynced);
    assert!(context.get_env("default").unwrap().get_actual().pkg_specs.is_empty());

    assert!(matches!(context.finish_sync("default", Ok(())), Ok(true)));
    let env = context.get_env("default").unwrap();
    assert_eq!(env.sync_status, EnvSyncStatus::Synced);
    assert!(*env.get_actual() == env.spec);
    assert_eq!(env.get_actual().pkg_specs, strings(&["numpy"]));
    assert!(context.sync_envs(&strings(&["default"])).unwrap().is_empty());
}

#[test]
fn first_collection_wins_on_shared_ids() {
    let mut context = Context::create("/data/envs".to_string());
    context
        .add_env_collection(
            "first",
            env_collection("/cfg1", vec![("shared", spec(&["conda-forge"], &["numpy"])), ("only1", spec(&[], &[]))]),
            &IdTable::new(),
        )
        .unwrap();
    context
        .add_env_collection(
            "second",
            env_collection("/cfg2", vec![("shared", spec(&["bioconda"], &["scipy"])), ("only2", spec(&[], &[]))]),
            &IdTable::new(),
        )
        .unwrap();
    assert_eq!(context.get_env_ids(), strings(&["only1", "only2", "shared"]));
    let shared = context.get_env("shared").unwrap();
    assert_eq!(shared.collection_id, "first");
    assert_eq!(shared.spec.channels, strings(&["conda-forge"]));
    assert_eq!(shared.spec.pkg_specs, strings(&["numpy"]));
    assert_eq!(context.get_env("only2").unwrap().collection_id, "second");
}

#[test]
fn collection_registration_uses_the_records_on_disk() {
    let mut actuals: IdTable<VivaEnvSpec> = IdTable::new();
    actuals.insert("built".to_string(), spec(&["c"], &["p"]));
    actuals.insert("unrelated".to_string(), spec(&["c"], &["p"]));
    let mut context = Context::create("/data/envs".to_string());
    context
        .add_env_collection(
            "default",
            env_collection("/cfg", vec![("built", spec(&["c"], &["p"])), ("fresh", spec(&["c"], &["p"]))]),
            &actuals,
        )
        .unwrap();
    assert_eq!(context.get_env("built").unwrap().sync_status, EnvSyncStatus::Synced);
    assert_eq!(context.get_env("fresh").unwrap().sync_status, EnvSyncStatus::NotSynced);
    assert!(!context.has_env("unrelated"));
}

#[test]
fn merge_all_apps_folds_requirements_into_the_resolved_environment() {
    let mut context = context_with_default_collections();
    context.add_env("default", Some(spec(&["conda-forge"], &["python"])), None, None).unwrap();
    let app = context
        .add_app("black", app_spec("black", &["black", "python"]), "default", AppEnvPlacementStrategy::CollectionId)
        .unwrap();
    assert_eq!(app.get_env_id(), "default");
    assert_eq!(app.app_collection_id, "default");
    assert_eq!(context.get_env("default").unwrap().spec.pkg_specs, strings(&["python"]));
    context.merge_all_apps().unwrap();
    let env = context.get_env("default").unwrap();
    assert_eq!(env.spec.pkg_specs, strings(&["python", "black"]));
    assert_eq!(env.spec.channels, strings(&["conda-forge"]));
    assert_eq!(env.sync_status, EnvSyncStatus::NotSynced);
    context.merge_all_apps().unwrap();
    assert_eq!(context.get_env("default").unwrap().spec.pkg_specs, strings(&["python", "black"]));
}

#[test]
fn merge_all_apps_stops_at_the_first_missing_environment() {
    let mut context = context_with_default_collections();
    context.add_env("default", None, None, None).unwrap();
    context.add_app("a", app_spec("a", &["pa"]), "default", AppEnvPlacementStrategy::Default).unwrap();
    context.add_app("b", app_spec("b", &["pb"]), "default", AppEnvPlacementStrategy::AppId).unwrap();
    context.add_app("c", app_spec("c", &["pc"]), "default", AppEnvPlacementStrategy::Default).unwrap();
    assert_eq!(context.get_app_ids(), strings(&["a", "b", "c"]));
    assert!(matches!(context.merge_all_apps(), Err(VivaError::NotFound { id }) if id == "b"));
    assert_eq!(context.get_env("default").unwrap().spec.pkg_specs, strings(&["pa"]));
    assert!(matches!(context.merge_app_into_env("nope"), Err(VivaError::NotFound { id }) if id == "nope"));
    context.merge_app_into_env("c").unwrap();
    assert_eq!(context.get_env("default").unwrap().spec.pkg_specs, strings(&["pa", "pc"]));
}

#[test]
fn app_collection_registration_resolves_environment_ids() {
    let mut context = Context::create("/data/envs".to_string());
    context
        .add_app_collection(
            "tools",
            app_collection("/cfg", vec![("black", app_spec("black", &["black"])), ("ruff", app_spec("ruff", &["ruff"]))]),
            Some(AppEnvPlacementStrategy::CollectionId),
        )
        .unwrap();
    context
        .add_app_collection(
            "more",
            app_collection("/cfg2", vec![("black", app_spec("other", &[])), ("mypy", app_spec("mypy", &["mypy"]))]),
            None,
        )
        .unwrap();
    assert_eq!(context.get_app_ids(), strings(&["black", "mypy", "ruff"]));
    assert_eq!(context.get_app("black").unwrap().get_env_id(), "tools");
    assert_eq!(context.get_app("black").unwrap().spec.executable, "black");
    assert_eq!(context.get_app("ruff").unwrap().get_env_id(), "tools");
    assert_eq!(context.get_app("mypy").unwrap().get_env_id(), "default");
    assert_eq!(context.get_app("mypy").unwrap().app_collection_id, "more");
    assert_eq!(
        context.get_env_id_for_app("x", &app_spec("x", &[]), "col", &AppEnvPlacementStrategy::AppId),
        "x"
    );
}

#[test]
fn add_env_rejects_duplicates_and_unknown_collections() {
    let mut context = context_with_default_collections();
    assert!(matches!(
        context.add_env("e", None, Some("nowhere"), None),
        Err(VivaError::NotFound { id }) if id == "nowhere"
    ));
    assert!(!context.has_env("e"));
    let added = context.add_env("e", None, None, None).unwrap();
    assert_eq!(added.id, "e");
    assert_eq!(added.collection_id, "default");
    assert!(added.spec.channels.is_empty());
    assert!(matches!(
        context.add_env("e", Some(spec(&["c"], &[])), None, None),
        Err(VivaError::DuplicateId { id }) if id == "e"
    ));
    assert!(context.get_env("e").unwrap().spec.channels.is_empty());
}

#[test]
fn add_app_rejects_duplicates_and_unknown_collections() {
    let mut context = context_with_default_collections();
    assert!(matches!(
        context.add_app("a", app_spec("a", &[]), "nowhere", AppEnvPlacementStrategy::Default),
        Err(VivaError::NotFound { id }) if id == "nowhere"
    ));
    context.add_app("a", app_spec("a", &[]), "default", AppEnvPlacementStrategy::Custom("tools".to_string())).unwrap();
    assert_eq!(context.get_app("a").unwrap().get_env_id(), "tools");
    assert!(matches!(
        context.add_app("a", app_spec("b", &[]), "default", AppEnvPlacementStrategy::Default),
        Err(VivaError::DuplicateId { id }) if id == "a"
    ));
    assert_eq!(context.get_app("a").unwrap().spec.executable, "a");
    assert_eq!(context.get_app("a").unwrap().get_env_id(), "tools");
    assert_eq!(context.app_collection("default").unwrap().get_app("a").unwrap().executable, "a");
    assert!(matches!(
        context.add_app("a", app_spec("b", &[]), "nowhere", AppEnvPlacementStrategy::Default),
        Err(VivaError::DuplicateId { id }) if id == "a"
    ));
}

#[test]
fn merge_env_specs_on_a_missing_environment() {
    let mut context = context_with_default_collections();
    assert!(matches!(
        context.merge_env_specs("e", &spec(&["c"], &["p"]), false, false, None),
        Err(VivaError::NotFound { id }) if id == "e"
    ));
    assert!(!context.has_env("e"));
    context.merge_env_specs("e", &spec(&["c"], &["p"]), false, true, Some(spec(&["c"], &["p"]))).unwrap();
    let env = context.get_env("e").unwrap();
    assert_eq!(env.collection_id, "default");
    assert_eq!(env.spec.channels, strings(&["c"]));
    assert_eq!(env.spec.pkg_specs, strings(&["p"]));
    assert_eq!(env.sync_status, EnvSyncStatus::Synced);
}

#[test]
fn merge_env_specs_can_write_the_declaration_back() {
    let mut context = Context::create("/data/envs".to_string());
    context
        .add_env_collection("default", env_collection("/cfg", vec![("e", spec(&["c"], &["p"]))]), &IdTable::new())
        .unwrap();
    context.merge_env_specs("e", &spec(&["d"], &["q"]), true, false, None).unwrap();
    assert_eq!(context.get_env("e").unwrap().spec.pkg_specs, strings(&["p", "q"]));
    let removed = context.remove_env("e").unwrap();
    assert_eq!(removed.spec.channels, strings(&["c", "d"]));
}

#[test]
fn set_env_spec_needs_the_environment_and_its_collection() {
    let mut context = context_with_default_collections();
    assert!(matches!(
        context.set_env_spec("e", spec(&[], &[])),
        Err(VivaError::NotFound { id }) if id == "e"
    ));
    context.add_registered_env("e", "lost", spec(&[], &[]), None, false).unwrap();
    assert!(matches!(
        context.set_env_spec("e", spec(&[], &[])),
        Err(VivaError::NotFound { id }) if id == "lost"
    ));
    assert!(matches!(
        context.merge_env_specs("e", &spec(&[], &["p"]), true, false, None),
        Err(VivaError::NotFound { id }) if id == "lost"
    ));
    assert_eq!(context.get_env("e").unwrap().spec.pkg_specs, strings(&["p"]));
}

#[test]
fn remove_env_drops_the_registration_and_hands_the_environment_back() {
    let mut context = context_with_default_collections();
    context.add_env("e", Some(spec(&["c"], &["p"])), None, None).unwrap();
    context.add_env("f", None, None, None).unwrap();
    assert!(matches!(context.remove_env("nope"), Err(VivaError::NotFound { id }) if id == "nope"));
    let removed = context.remove_env("e").unwrap();
    assert_eq!(removed.id, "e");
    assert_eq!(removed.get_env_path(), "/data/envs/e");
    assert!(!context.has_env("e"));
    assert_eq!(context.get_env_ids(), strings(&["f"]));
    assert!(matches!(context.remove_env("e"), Err(VivaError::NotFound { id }) if id == "e"));
}

#[test]
fn ids_are_listed_in_ascending_order() {
    let mut context = Context::create("/data/envs".to_string());
    for id in ["zeta", "alpha", "mid", "Beta", "alpha2"] {
        context.add_registered_env(id, "c", spec(&[], &[]), None, false).unwrap();
    }
    assert_eq!(context.get_env_ids(), strings(&["Beta", "alpha", "alpha2", "mid", "zeta"]));
    assert_eq!(context.list_envs().keys(), strings(&["Beta", "alpha", "alpha2", "mid", "zeta"]));
}

#[test]
fn sync_envs_rejects_unknown_ids_and_changes_nothing() {
    let mut context = Context::create("/data/envs".to_string());
    context.add_registered_env("a", "c", spec(&[], &["p"]), None, false).unwrap();
    if let Ok(env) = context.get_env_mut("a") {
        env.sync_status = EnvSyncStatus::Unknown;
    }
    assert!(matches!(
        context.sync_envs(&strings(&["a", "x", "y"])),
        Err(VivaError::NotFound { id }) if id == "x, y"
    ));
    assert!(matches!(
        context.sync_envs(&strings(&["y", "a", "x", "y", "a"])),
        Err(VivaError::NotFound { id }) if id == "y, x"
    ));
    assert!(matches!(
        context.sync_envs(&strings(&["zz"])),
        Err(VivaError::NotFound { id }) if id == "zz"
    ));
    assert_eq!(context.get_env("a").unwrap().sync_status, EnvSyncStatus::Unknown);
    assert!(matches!(context.get_env_mut("zzz"), Err(VivaError::NotFound { id }) if id == "zzz"));
}

#[test]
fn sync_envs_without_names_selects_all() {
    let mut context = Context::create("/data/envs".to_string());
    context.add_registered_env("b", "c", spec(&[], &["p"]), None, false).unwrap();
    context.add_registered_env("a", "c", spec(&[], &["p"]), Some(spec(&[], &["p"])), false).unwrap();
    context.add_registered_env("c", "c", spec(&["ch"], &[]), None, false).unwrap();
    let requests = context.sync_envs(&Vec::new()).unwrap();
    assert_eq!(requests.len(), 2);
    assert_eq!(requests[0].env_id, "b");
    assert_eq!(requests[1].env_id, "c");
    assert_eq!(requests[1].env_path, "/data/envs/c");
    let requests = context.sync_envs(&strings(&["c", "a"])).unwrap();
    assert_eq!(requests.len(), 1);
    assert_eq!(requests[0].env_id, "c");
}

#[test]
fn check_envs_sync_status_settles_unknown_only() {
    let mut context = Context::create("/data/envs".to_string());
    context.add_registered_env("a", "c", spec(&[], &[]), None, false).unwrap();
    context.add_registered_env("b", "c", spec(&[], &["p"]), None, false).unwrap();
    context.add_registered_env("c", "c", spec(&[], &[]), None, false).unwrap();
    context.get_env_mut("a").unwrap().sync_status = EnvSyncStatus::Unknown;
    context.get_env_mut("b").unwrap().sync_status = EnvSyncStatus::Unknown;
    context.check_envs_sync_status().unwrap();
    assert_eq!(context.get_env("a").unwrap().sync_status, EnvSyncStatus::Synced);
    assert_eq!(context.get_env("b").unwrap().sync_status, EnvSyncStatus::NotSynced);
    assert_eq!(context.get_env("c").unwrap().sync_status, EnvSyncStatus::NotSynced);
}

#[test]
fn finish_sync_on_an_unknown_environment() {
    let mut context = Context::create("/data/envs".to_string());
    assert!(matches!(context.finish_sync("a", Ok(())), Err(VivaError::NotFound { id }) if id == "a"));
}

#[test]
fn adding_through_the_context_leaves_files_to_write() {
    let mut context = Context::create("/data/envs".to_string());
    let mut envs = env_collection("/cfg", Vec::new());
    envs.set_env("pre", &spec(&[], &[])).unwrap();
    let actions = envs.sync_config();
    assert_eq!(actions.len(), 1);
    assert!(matches!(&actions[0], StoreAction::WriteSingle { id, path, .. } if id == "pre" && path == "/cfg/envs/pre.yaml"));
    context.add_env_collection("default", envs, &IdTable::new()).unwrap();
    assert!(context.has_env("pre"));
    let mut apps = app_collection("/cfg", Vec::new());
    apps.set_app("a", &app_spec("a", &[])).unwrap();
    assert_eq!(apps.get_app_ids(), strings(&["a"]));
}

#[test]
fn collections_can_be_reached_through_the_context() {
    let mut context = context_with_default_collections();
    assert!(context.env_collection("default").is_some());
    assert!(context.env_collection("other").is_none());
    assert!(context.app_collection("default").is_some());
    assert!(context.app_collection_mut("other").is_none());
    context.add_env("e", Some(spec(&["c"], &["p"])), None, None).unwrap();
    assert_eq!(context.env_collection("default").unwrap().get_env("e").unwrap().pkg_specs, strings(&["p"]));
    let actions = context.env_collection_mut("default").unwrap().sync_config();
    assert_eq!(actions.len(), 1);
    assert!(matches!(&actions[0], StoreAction::WriteSingle { id, path, .. } if id == "e" && path == "/cfg/envs/e.yaml"));
    context.add_app("a", app_spec("a", &[]), "default", AppEnvPlacementStrategy::Default).unwrap();
    let actions = context.app_collection_mut("default").unwrap().sync_config();
    assert_eq!(actions.len(), 1);
    assert!(matches!(&actions[0], StoreAction::WriteSingle { id, path, .. } if id == "a" && path == "/cfg/apps/a.json"));
}

#[test]
fn defaults() {
    assert_eq!(viva::default_channels(), strings(&["conda-forge"]));
    assert_eq!(viva::defaults::DEFAULT_ID, "default");
    assert_eq!(viva::defaults::ENV_SPEC_FILENAME, ".viva_env");
}

#[test]
fn remove_app_leaves_the_environment_as_merged() {
    let mut context = context_with_default_collections();
    context.add_env("default", None, None, None).unwrap();
    context.add_app("a", app_spec("a", &["pa"]), "default", AppEnvPlacementStrategy::Default).unwrap();
    context.merge_all_apps().unwrap();
    assert!(matches!(context.remove_app("nope"), Err(VivaError::NotFound { id }) if id == "nope"));
    let removed = context.remove_app("a").unwrap();
    assert_eq!(removed.id, "a");
    assert_eq!(removed.get_env_id(), "default");
    assert_eq!(removed.get_collection_id(), "default");
    assert!(context.get_app_ids().is_empty());
    assert!(context.app_collection("default").unwrap().get_app("a").is_err());
    assert_eq!(context.get_env("default").unwrap().spec.pkg_specs, strings(&["pa"]));
    assert!(matches!(context.remove_app("a"), Err(VivaError::NotFound { id }) if id == "a"));
}

#[test]
fn registration_follows_the_answer_of_the_collection() {
    let mut context = Context::create("/data/envs".to_string());
    let refused = Err(VivaError::IOError { details: "disk full".to_string() });
    assert!(matches!(
        context.register_stored_env("e", "default", spec(&[], &[]), None, refused),
        Err(VivaError::IOError { details }) if details == "disk full"
    ));
    assert!(!context.has_env("e"));
    let added = context.register_stored_env("e", "default", spec(&["c"], &[]), None, Ok(())).unwrap();
    assert_eq!(added.spec.channels, strings(&["c"]));
    assert!(matches!(
        context.register_stored_env("e", "default", spec(&[], &[]), None, Ok(())),
        Err(VivaError::DuplicateId { id }) if id == "e"
    ));

    let refused = Err(VivaError::IOError { details: "read only".to_string() });
    assert!(matches!(
        context.register_stored_app("a", app_spec("a", &[]), "default", "tools".to_string(), refused),
        Err(VivaError::IOError { details }) if details == "read only"
    ));
    assert!(context.get_app("a").is_err());
    let added = context.register_stored_app("a", app_spec("a", &[]), "default", "tools".to_string(), Ok(())).unwrap();
    assert_eq!(added.get_env_id(), "tools");
    assert!(matches!(
        context.register_stored_app("a", app_spec("a", &[]), "default", "x".to_string(), Ok(())),
        Err(VivaError::DuplicateId { id }) if id == "a"
    ));
}

#[test]
fn removal_follows_the_answer_of_the_collection() {
    let mut context = Context::create("/data/envs".to_string());
    context.add_registered_env("e", "default", spec(&["c"], &[]), None, false).unwrap();
    context.add_registered_app("a", app_spec("a", &[]), "default", "e".to_string(), false).unwrap();
    let refused = Err(VivaError::IOError { details: "busy".to_string() });
    assert!(matches!(context.drop_deleted_env("e", refused), Err(VivaError::IOError { details }) if details == "busy"));
    assert!(context.has_env("e"));
    assert_eq!(context.drop_deleted_env("e", Ok(())).unwrap().id, "e");
    assert!(!context.has_env("e"));
    assert!(matches!(context.drop_deleted_env("e", Ok(())), Err(VivaError::NotFound { id }) if id == "e"));
    let refused = Err(VivaError::IOError { details: "busy".to_string() });
    assert!(matches!(context.drop_deleted_app("a", refused), Err(VivaError::IOError { details }) if details == "busy"));
    assert_eq!(context.drop_deleted_app("a", Ok(())).unwrap().id, "a");
    assert!(matches!(context.drop_deleted_app("a", Ok(())), Err(VivaError::NotFound { id }) if id == "a"));
}

#[test]
fn sync_envs_builds_an_environment_named_twice_once() {
    let mut context = Context::create("/data/envs".to_string());
    context.add_registered_env("b", "c", spec(&[], &["numpy"]), None, false).unwrap();
    context.add_registered_env("c", "c", spec(&["ch"], &[]), None, false).unwrap();
    let requests = context.sync_envs(&strings(&["c", "b", "c", "c", "b"])).unwrap();
    assert_eq!(requests.len(), 2);
    assert_eq!(requests[0].env_id, "c");
    assert_eq!(requests[1].env_id, "b");
}
