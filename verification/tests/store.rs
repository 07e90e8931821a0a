use viva::models::environment::{DefaultEnvCollection, EnvironmentCollection, VivaEnvSpec};
use viva::models::{Decoded, SpecFormat};
use viva::store::{
    collected_file_path, find_collected_file, find_single_file, single_file_path,
    split_file_name, SpecStore, StoreAction,
};
use viva::VivaError;

fn strings(items: &[&str]) -> Vec<String> {
    items.iter().map(|s| s.to_string()).collect()
}

fn spec(channels: &[&str], pkg_specs: &[&str]) -> VivaEnvSpec {
    VivaEnvSpec { channels: strings(channels), pkg_specs: strings(pkg_specs) }
}

fn json_doc<T>(value: T) -> Decoded<T> {
    Decoded { extension: Some("json".to_string()), json: Ok(value), yaml: Err("not tried".to_string()) }
}

fn yaml_doc<T>(extension: &str, value: T) -> Decoded<T> {
    Decoded { extension: Some(extension.to_string()), json: Err("not json".to_string()), yaml: Ok(value) }
}

fn bad_doc<T>(extension: Option<&str>) -> Decoded<T> {
    Decoded {
        extension: extension.map(|s| s.to_string()),
        json: Err("bad json".to_string()),
        yaml: Err("bad yaml".to_string()),
    }
}

#[test]
fn paths_follow_the_layout() {
    assert_eq!(collected_file_path("/cfg", "envs", Some("json")), "/cfg/envs.json");
    assert_eq!(collected_file_path("/cfg", "apps", Some("yaml")), "/cfg/apps.yaml");
    assert_eq!(collected_file_path("/cfg", "envs", None), "/cfg/envs");
    assert_eq!(single_file_path("/cfg", "envs", "default", Some("json")), "/cfg/envs/default.json");
    assert_eq!(single_file_path("/cfg", "apps", "my.app", Some("yml")), "/cfg/apps/my.app.yml");
    assert_eq!(single_file_path("/cfg", "envs", "x", None), "/cfg/envs/x");
    assert_eq!(find_collected_file("/cfg", "apps", true), "/cfg/apps.json");
    assert_eq!(find_collected_file("/cfg", "apps", false), "/cfg/apps.yaml");
    assert_eq!(find_single_file("/cfg", "apps", "a", true), "/cfg/apps/a.json");
    assert_eq!(find_single_file("/cfg", "apps", "a", false), "/cfg/apps/a.yaml");
}

#[test]
fn per_id_file_overrides_the_consolidated_entry() {
    let s1 = spec(&["conda-forge"], &["numpy"]);
    let s2 = spec(&["bioconda"], &["pandas"]);
    let col = DefaultEnvCollection::create(
        "/cfg".to_string(),
        Some(json_doc(vec![("x".to_string(), s1), ("y".to_string(), spec(&[], &["y"]))])),
        vec![("x".to_string(), yaml_doc("yaml", s2))],
    )
    .unwrap();
    let x = col.get_env("x").unwrap();
    assert_eq!(x.channels, strings(&["bioconda"]));
    assert_eq!(x.pkg_specs, strings(&["pandas"]));
    assert_eq!(col.get_env("y").unwrap().pkg_specs, strings(&["y"]));
    assert_eq!(col.get_env_ids(), strings(&["y", "x"]));
}

#[test]
fn override_marks_the_consolidated_document_as_out_of_date() {
    let mut col = DefaultEnvCollection::create(
        "/cfg".to_string(),
        Some(yaml_doc("yaml", vec![("x".to_string(), spec(&[], &["old"]))])),
        vec![("x".to_string(), json_doc(spec(&[], &["new"])))],
    )
    .unwrap();
    let actions = col.sync_config();
    assert_eq!(actions.len(), 1);
    match &actions[0] {
        StoreAction::WriteCollected { path, format } => {
            assert_eq!(path, "/cfg/envs.yaml");
            assert_eq!(*format, SpecFormat::Yaml);
        },
        other => panic!("unexpected: {:?}", other),
    }
    assert_eq!(col.store().collected_len(), 0);
    assert!(col.sync_config().is_empty());
}

#[test]
fn load_without_overrides_leaves_nothing_to_write() {
    let mut col = DefaultEnvCollection::create(
        "/cfg".to_string(),
        Some(json_doc(vec![("a".to_string(), spec(&[], &["a"]))])),
        vec![("b".to_string(), json_doc(spec(&[], &["b"])))],
    )
    .unwrap();
    assert!(col.sync_config().is_empty());
    assert_eq!(col.get_env_ids(), strings(&["a", "b"]));
    assert_eq!(col.store().collected_len(), 1);
    let entry = col.store().collected_entry(0).unwrap();
    assert_eq!(entry.0, "a");
    assert_eq!(entry.1.pkg_specs, strings(&["a"]));
    assert!(col.store().collected_entry(1).is_none());
}

#[test]
fn empty_store() {
    let mut col = DefaultEnvCollection::create("/cfg".to_string(), None, Vec::new()).unwrap();
    assert!(col.get_env_ids().is_empty());
    assert!(matches!(col.get_env("a"), Err(VivaError::NotFound { id }) if id == "a"));
    assert!(col.sync_config().is_empty());
    assert_eq!(col.find_collected_envs_file(true), "/cfg/envs.json");
    assert_eq!(col.find_collected_envs_file(false), "/cfg/envs.yaml");
    assert_eq!(col.find_single_env_file("e", true), "/cfg/envs/e.json");
    assert_eq!(col.find_single_env_file("e", false), "/cfg/envs/e.yaml");
}

#[test]
fn malformed_consolidated_document_aborts_the_load() {
    let r = DefaultEnvCollection::create(
        "/cfg".to_string(),
        Some(bad_doc(Some("json"))),
        vec![("b".to_string(), json_doc(spec(&[], &["b"])))],
    );
    assert!(matches!(r, Err(VivaError::ParseError { details }) if details == "/cfg/envs.json: json: bad json"));
}

#[test]
fn malformed_per_id_document_aborts_the_load() {
    let r = DefaultEnvCollection::create(
        "/cfg".to_string(),
        Some(json_doc(vec![("a".to_string(), spec(&[], &["a"]))])),
        vec![
            ("b".to_string(), json_doc(spec(&[], &["b"]))),
            ("c".to_string(), bad_doc(Some("yml"))),
            ("d".to_string(), bad_doc(Some("json"))),
        ],
    );
    assert!(matches!(r, Err(VivaError::ParseError { details }) if details == "/cfg/envs/c.yml: yaml: bad yaml"));
}

#[test]
fn per_id_document_without_extension_is_decoded_by_content() {
    let r = DefaultEnvCollection::create("/cfg".to_string(), None, vec![("c".to_string(), bad_doc(None))]);
    assert!(
        matches!(r, Err(VivaError::ParseError { details }) if details == "/cfg/envs/c: json: bad json; yaml: bad yaml")
    );
    let col = DefaultEnvCollection::create(
        "/cfg".to_string(),
        None,
        vec![(
            "c".to_string(),
            Decoded { extension: None, json: Err("no".to_string()), yaml: Ok(spec(&[], &["c"])) },
        )],
    )
    .unwrap();
    assert_eq!(col.get_env("c").unwrap().pkg_specs, strings(&["c"]));
}

#[test]
fn unknown_extension_aborts_the_load() {
    let r = DefaultEnvCollection::create(
        "/cfg".to_string(),
        None,
        vec![(
            "c".to_string(),
            Decoded { extension: Some("bak".to_string()), json: Ok(spec(&[], &[])), yaml: Ok(spec(&[], &[])) },
        )],
    );
    assert!(matches!(r, Err(VivaError::UnsupportedFormat { extension }) if extension == "bak"));
}

#[test]
fn set_writes_to_the_per_id_layout() {
    let mut col = DefaultEnvCollection::create(
        "/cfg".to_string(),
        Some(json_doc(vec![
            ("a".to_string(), spec(&[], &["a"])),
            ("b".to_string(), spec(&[], &["b"])),
        ])),
        vec![("c".to_string(), json_doc(spec(&[], &["c"])))],
    )
    .unwrap();
    col.set_env("new", &spec(&["ch"], &["n"])).unwrap();
    col.set_env("a", &spec(&[], &["a2"])).unwrap();
    col.set_env("c", &spec(&[], &["bioconda"])).unwrap();
    col.set_env("new", &spec(&["ch"], &["n2"])).unwrap();
    assert_eq!(col.get_env("a").unwrap().pkg_specs, strings(&["a2"]));
    assert_eq!(col.get_env("new").unwrap().pkg_specs, strings(&["n2"]));
    assert_eq!(col.get_env_ids(), strings(&["b", "a", "c", "new"]));
    let actions = col.sync_config();
    assert_eq!(actions.len(), 4);
    assert!(matches!(&actions[0], StoreAction::WriteCollected { path, format: SpecFormat::Json } if path == "/cfg/envs.json"));
    assert!(
        matches!(&actions[1], StoreAction::WriteSingle { id, path, format: SpecFormat::Yaml } if id == "new" && path == "/cfg/envs/new.yaml")
    );
    assert!(
        matches!(&actions[2], StoreAction::WriteSingle { id, path, format: SpecFormat::Yaml } if id == "a" && path == "/cfg/envs/a.yaml")
    );
    assert!(
        matches!(&actions[3], StoreAction::WriteSingle { id, path, format: SpecFormat::Json } if id == "c" && path == "/cfg/envs/c.json")
    );
    assert_eq!(col.store().collected_len(), 1);
    assert_eq!(col.store().collected_entry(0).unwrap().0, "b");
    assert!(col.sync_config().is_empty());
}

#[test]
fn delete_removes_the_file_and_the_consolidated_entry() {
    let mut col = DefaultEnvCollection::create(
        "/cfg".to_string(),
        Some(json_doc(vec![("a".to_string(), spec(&[], &["a"]))])),
        vec![("c".to_string(), yaml_doc("yml", spec(&[], &["c"])))],
    )
    .unwrap();
    col.delete_env("c").unwrap();
    col.delete_env("a").unwrap();
    col.delete_env("never-there").unwrap();
    assert!(col.get_env("a").is_err());
    assert!(col.get_env("c").is_err());
    assert!(col.get_env_ids().is_empty());
    let actions = col.sync_config();
    assert_eq!(actions.len(), 2);
    assert!(matches!(&actions[0], StoreAction::WriteCollected { path, .. } if path == "/cfg/envs.json"));
    assert!(matches!(&actions[1], StoreAction::RemoveSingle { path } if path == "/cfg/envs/c.yml"));
}

#[test]
fn set_after_delete_reuses_the_file() {
    let mut col = DefaultEnvCollection::create(
        "/cfg".to_string(),
        None,
        vec![("c".to_string(), yaml_doc("yml", spec(&[], &["c"])))],
    )
    .unwrap();
    col.delete_env("c").unwrap();
    col.set_env("c", &spec(&[], &["again"])).unwrap();
    let actions = col.sync_config();
    assert_eq!(actions.len(), 1);
    assert!(
        matches!(&actions[0], StoreAction::WriteSingle { id, path, format: SpecFormat::Yaml } if id == "c" && path == "/cfg/envs/c.yml")
    );
}

#[test]
fn set_then_delete_removes_the_file_that_was_never_written() {
    let mut col = DefaultEnvCollection::create("/cfg".to_string(), None, Vec::new()).unwrap();
    col.set_env("t", &spec(&[], &["t"])).unwrap();
    col.delete_env("t").unwrap();
    let actions = col.sync_config();
    assert_eq!(actions.len(), 1);
    assert!(matches!(&actions[0], StoreAction::RemoveSingle { path } if path == "/cfg/envs/t.yaml"));
}

#[test]
fn generic_store_with_plain_values() {
    let mut store: SpecStore<u32> = SpecStore::new("/b".to_string(), "things".to_string(), SpecFormat::Json);
    assert!(!store.contains("a"));
    store.set("a", 1);
    store.set("b", 2);
    store.set("a", 3);
    assert_eq!(store.get("a"), Some(&3));
    assert_eq!(store.get("zz"), None);
    assert_eq!(store.ids(), strings(&["a", "b"]));
    assert!(store.delete("a"));
    assert!(!store.delete("a"));
    assert_eq!(store.base_config_path(), "/b");
    let actions = store.sync_config();
    assert_eq!(actions.len(), 2);
    assert!(matches!(&actions[0], StoreAction::RemoveSingle { path } if path == "/b/things/a.json"));
    assert!(matches!(&actions[1], StoreAction::WriteSingle { id, path, .. } if id == "b" && path == "/b/things/b.json"));
}

#[test]
fn consolidated_document_with_a_repeated_id_keeps_the_later_entry() {
    let store: SpecStore<u32> = SpecStore::load(
        "/b".to_string(),
        "things".to_string(),
        SpecFormat::Json,
        Some(json_doc(vec![("a".to_string(), 1), ("b".to_string(), 2), ("a".to_string(), 3)])),
        Vec::new(),
    )
    .unwrap();
    assert_eq!(store.get("a"), Some(&3));
    assert_eq!(store.ids(), strings(&["a", "b"]));
}

#[test]
fn file_names_give_ids_and_extensions() {
    assert_eq!(split_file_name("default.json"), ("default".to_string(), Some("json".to_string())));
    assert_eq!(split_file_name("my.env.yaml"), ("my.env".to_string(), Some("yaml".to_string())));
    assert_eq!(split_file_name("plain"), ("plain".to_string(), None));
    assert_eq!(split_file_name(".viva_env"), (".viva_env".to_string(), None));
    assert_eq!(split_file_name(".hidden.yml"), (".hidden".to_string(), Some("yml".to_string())));
    assert_eq!(split_file_name("trailing."), ("trailing".to_string(), Some(String::new())));
    assert_eq!(split_file_name(""), (String::new(), None));
    assert_eq!(split_file_name("é.json"), ("é".to_string(), Some("json".to_string())));
}

#[test]
fn file_names_split_as_paths_do() {
    for name in ["a.json", "a.b.c", "noext", ".viva_env", ".a.b", "x.", "日本.yaml"] {
        let path = std::path::Path::new(name);
        let (stem, extension) = split_file_name(name);
        assert_eq!(stem, path.file_stem().unwrap().to_string_lossy());
        assert_eq!(extension, path.extension().map(|e| e.to_string_lossy().into_owned()));
    }
}
