use juliaup::config_file::{
    load_config_db, ConfigRead, JuliaupConfig, JuliaupConfigChannel, JuliaupConfigVersion,
};
use juliaup::error::EngineError;
use juliaup::string_map::StringMap;
use juliaup::versions_db::{
    load_versions_db, CatalogRead, JuliaupVersionDB, JuliaupVersionDBChannel,
    JuliaupVersionDBVersion,
};

fn s(text: &str) -> String {
    text.to_string()
}

#[test]
fn string_map_starts_empty() {
    let map: StringMap<JuliaupConfigVersion> = StringMap::new();
    assert_eq!(map.len(), 0);
    assert!(map.keys().is_empty());
    assert!(!map.contains_key(&s("1.9.3")));
    assert!(map.get(&s("1.9.3")).is_none());
}

#[test]
fn string_map_insert_then_get() {
    let mut map: StringMap<JuliaupConfigVersion> = StringMap::new();
    map.insert(s("1.9.3"), JuliaupConfigVersion { path: s("./julia-1.9.3") });
    assert_eq!(map.len(), 1);
    assert!(map.contains_key(&s("1.9.3")));
    assert_eq!(map.get(&s("1.9.3")).unwrap().path, "./julia-1.9.3");
    assert!(map.get(&s("1.9.4")).is_none());
}

#[test]
fn string_map_keeps_keys_unique_and_in_order() {
    let mut map: StringMap<JuliaupConfigVersion> = StringMap::new();
    map.insert(s("b"), JuliaupConfigVersion { path: s("1") });
    map.insert(s("a"), JuliaupConfigVersion { path: s("2") });
    map.insert(s("c"), JuliaupConfigVersion { path: s("3") });
    map.insert(s("a"), JuliaupConfigVersion { path: s("4") });
    assert_eq!(map.len(), 3);
    assert_eq!(map.keys(), vec![s("b"), s("a"), s("c")]);
    assert_eq!(map.get(&s("a")).unwrap().path, "4");
    assert_eq!(map.key_at(1), "a");
    assert_eq!(map.value_at(1).path, "4");
    assert_eq!(map.value_at(2).path, "3");
}

#[test]
fn string_map_remove_takes_one_key_out() {
    let mut map: StringMap<JuliaupConfigVersion> = StringMap::new();
    map.insert(s("b"), JuliaupConfigVersion { path: s("1") });
    map.insert(s("a"), JuliaupConfigVersion { path: s("2") });
    map.insert(s("c"), JuliaupConfigVersion { path: s("3") });
    assert!(map.remove(&s("a")));
    assert!(!map.remove(&s("a")));
    assert!(!map.remove(&s("zzz")));
    assert_eq!(map.keys(), vec![s("b"), s("c")]);
    assert!(!map.contains_key(&s("a")));
    assert_eq!(map.get(&s("c")).unwrap().path, "3");
    assert_eq!(map.len(), 2);
}

#[test]
fn string_map_clone_is_independent() {
    let mut map: StringMap<JuliaupConfigVersion> = StringMap::new();
    map.insert(s("b"), JuliaupConfigVersion { path: s("1") });
    map.insert(s("a"), JuliaupConfigVersion { path: s("2") });
    let copy = map.clone();
    map.remove(&s("b"));
    assert_eq!(copy.keys(), vec![s("b"), s("a")]);
    assert_eq!(copy.get(&s("b")).unwrap().path, "1");
    assert_eq!(map.keys(), vec![s("a")]);
}

#[test]
fn missing_file_gives_empty_record() {
    let config = load_config_db(ConfigRead::Missing).unwrap();
    assert!(config.default.is_none());
    assert!(config.juliaup_channel.is_none());
    assert_eq!(config.installed_versions.len(), 0);
    assert_eq!(config.installed_channels.len(), 0);
    assert!(!config.create_symlinks);
}

#[test]
fn unreadable_file_is_config_io() {
    assert_eq!(load_config_db(ConfigRead::Unreadable).err(), Some(EngineError::ConfigIO));
}

#[test]
fn unparseable_file_is_config_corrupt() {
    assert_eq!(load_config_db(ConfigRead::Corrupt).err(), Some(EngineError::ConfigCorrupt));
}

#[test]
fn parsed_record_is_handed_on() {
    let mut record = JuliaupConfig::new();
    record.default = Some(s("release"));
    record.create_symlinks = true;
    record.installed_versions.insert(s("1.9.3"), JuliaupConfigVersion { path: s("./julia-1.9.3") });
    record.installed_channels.insert(
        s("release"),
        JuliaupConfigChannel::SystemChannel { version: s("1.9.3") },
    );
    record.installed_channels.insert(
        s("mybuild"),
        JuliaupConfigChannel::LinkedChannel {
            command: s("/opt/julia/bin/julia"),
            args: Some(vec![s("--threads"), s("4")]),
        },
    );
    let config = load_config_db(ConfigRead::Parsed(record)).unwrap();
    assert_eq!(config.default, Some(s("release")));
    assert!(config.create_symlinks);
    assert_eq!(config.installed_versions.get(&s("1.9.3")).unwrap().path, "./julia-1.9.3");
    assert_eq!(config.installed_channels.keys(), vec![s("release"), s("mybuild")]);
    match config.installed_channels.get(&s("mybuild")).unwrap() {
        JuliaupConfigChannel::LinkedChannel { command, args } => {
            assert_eq!(command, "/opt/julia/bin/julia");
            assert_eq!(args, &Some(vec![s("--threads"), s("4")]));
        }
        JuliaupConfigChannel::SystemChannel { .. } => panic!("linked channel expected"),
    }
}

#[test]
fn catalog_that_cannot_be_had_is_catalog_io() {
    assert_eq!(load_versions_db(CatalogRead::Unavailable).err(), Some(EngineError::CatalogIO));
    assert_eq!(load_versions_db(CatalogRead::Malformed).err(), Some(EngineError::CatalogIO));
}

#[test]
fn parsed_catalog_is_handed_on() {
    let mut db = JuliaupVersionDB::new();
    assert_eq!(db.available_channels.len(), 0);
    assert_eq!(db.available_versions.len(), 0);
    db.available_channels.insert(s("release"), JuliaupVersionDBChannel { version: s("1.9.3") });
    db.available_versions.insert(
        s("1.9.3"),
        JuliaupVersionDBVersion { url: s("https://example.org/julia-1.9.3.tar.gz") },
    );
    let catalog = load_versions_db(CatalogRead::Parsed(db)).unwrap();
    assert_eq!(catalog.available_channels.get(&s("release")).unwrap().version, "1.9.3");
    assert_eq!(
        catalog.available_versions.get(&s("1.9.3")).unwrap().url,
        "https://example.org/julia-1.9.3.tar.gz"
    );
}
