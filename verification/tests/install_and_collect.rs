use juliaup::config_file::{JuliaupConfig, JuliaupConfigChannel, JuliaupConfigVersion};
use juliaup::error::EngineError;
use juliaup::operations::{
    create_symlink, garbage_collect_versions, install_version, is_version_live, remove_symlink,
    InstallStep,
};
use juliaup::versions_db::{JuliaupVersionDB, JuliaupVersionDBChannel, JuliaupVersionDBVersion};

fn s(text: &str) -> String {
    text.to_string()
}

fn catalog(channels: &[(&str, &str)], versions: &[(&str, &str)]) -> JuliaupVersionDB {
    let mut db = JuliaupVersionDB::new();
    for (name, version) in channels {
        db.available_channels.insert(s(name), JuliaupVersionDBChannel { version: s(version) });
    }
    for (version, url) in versions {
        db.available_versions.insert(s(version), JuliaupVersionDBVersion { url: s(url) });
    }
    db
}

fn system(version: &str) -> JuliaupConfigChannel {
    JuliaupConfigChannel::SystemChannel { version: s(version) }
}

fn linked(command: &str) -> JuliaupConfigChannel {
    JuliaupConfigChannel::LinkedChannel { command: s(command), args: None }
}

fn register(config: &mut JuliaupConfig, version: &str) {
    config
        .installed_versions
        .insert(s(version), JuliaupConfigVersion { path: format!("./julia-{}", version) });
}

#[test]
fn install_asks_for_the_download_first() {
    let db = catalog(&[("release", "1.9.3")], &[("1.9.3", "https://example.org/julia-1.9.3.tar.gz")]);
    let mut config = JuliaupConfig::new();
    match install_version(&s("1.9.3"), &mut config, &db, false).unwrap() {
        InstallStep::Fetch { url, folder } => {
            assert_eq!(url, "https://example.org/julia-1.9.3.tar.gz");
            assert_eq!(folder, "julia-1.9.3");
        }
        InstallStep::Done => panic!("a download was expected"),
    }
    assert_eq!(config.installed_versions.len(), 0);
}

#[test]
fn install_registers_after_extraction() {
    let db = catalog(&[("release", "1.9.3")], &[("1.9.3", "https://example.org/julia-1.9.3.tar.gz")]);
    let mut config = JuliaupConfig::new();
    let step = install_version(&s("1.9.3"), &mut config, &db, true).unwrap();
    assert!(matches!(step, InstallStep::Done));
    assert_eq!(config.installed_versions.keys(), vec![s("1.9.3")]);
    assert_eq!(config.installed_versions.get(&s("1.9.3")).unwrap().path, "./julia-1.9.3");
    assert_eq!(config.installed_channels.len(), 0);
    assert!(config.default.is_none());
}

#[test]
fn install_twice_downloads_once() {
    let db = catalog(&[("release", "1.9.3")], &[("1.9.3", "https://example.org/julia-1.9.3.tar.gz")]);
    let mut config = JuliaupConfig::new();
    let first = install_version(&s("1.9.3"), &mut config, &db, false).unwrap();
    assert!(matches!(first, InstallStep::Fetch { .. }));
    let done = install_version(&s("1.9.3"), &mut config, &db, true).unwrap();
    assert!(matches!(done, InstallStep::Done));
    let again = install_version(&s("1.9.3"), &mut config, &db, false).unwrap();
    assert!(matches!(again, InstallStep::Done));
    assert_eq!(config.installed_versions.len(), 1);
    assert_eq!(config.installed_versions.get(&s("1.9.3")).unwrap().path, "./julia-1.9.3");
}

#[test]
fn install_of_registered_version_needs_no_catalog_entry() {
    let db = catalog(&[], &[]);
    let mut config = JuliaupConfig::new();
    config.installed_versions.insert(s("1.9.3"), JuliaupConfigVersion { path: s("./elsewhere") });
    let step = install_version(&s("1.9.3"), &mut config, &db, false).unwrap();
    assert!(matches!(step, InstallStep::Done));
    assert_eq!(config.installed_versions.get(&s("1.9.3")).unwrap().path, "./elsewhere");
}

#[test]
fn install_of_unknown_version_fails() {
    let db = catalog(&[("release", "1.9.3")], &[("1.9.3", "https://example.org/a.tar.gz")]);
    let mut config = JuliaupConfig::new();
    let first = install_version(&s("1.9.4"), &mut config, &db, false);
    assert_eq!(first.err(), Some(EngineError::CatalogEntryMissing));
    let second = install_version(&s("1.9.4"), &mut config, &db, true);
    assert_eq!(second.err(), Some(EngineError::CatalogEntryMissing));
    assert_eq!(config.installed_versions.len(), 0);
}

#[test]
fn liveness_comes_from_system_channels_only() {
    let mut config = JuliaupConfig::new();
    config.installed_channels.insert(s("release"), system("1.9.4"));
    config.installed_channels.insert(s("mybuild"), linked("1.9.3"));
    assert!(is_version_live(&config.installed_channels, &s("1.9.4")));
    assert!(!is_version_live(&config.installed_channels, &s("1.9.3")));
    assert!(!is_version_live(&config.installed_channels, &s("release")));
}

#[test]
fn collection_removes_unreferenced_versions() {
    let mut config = JuliaupConfig::new();
    register(&mut config, "1.9.3");
    register(&mut config, "1.9.4");
    config.installed_channels.insert(s("release"), system("1.9.4"));
    config.default = Some(s("release"));
    let removed = garbage_collect_versions(&mut config);
    assert_eq!(removed.len(), 1);
    assert_eq!(removed[0].version, "1.9.3");
    assert_eq!(removed[0].path, "./julia-1.9.3");
    assert_eq!(config.installed_versions.keys(), vec![s("1.9.4")]);
    assert_eq!(config.installed_versions.get(&s("1.9.4")).unwrap().path, "./julia-1.9.4");
    assert_eq!(config.installed_channels.keys(), vec![s("release")]);
    assert_eq!(config.default, Some(s("release")));
}

#[test]
fn collection_is_sound_and_complete() {
    let mut config = JuliaupConfig::new();
    for version in ["1.6.7", "1.8.5", "1.9.3", "1.9.4", "1.10.0"] {
        register(&mut config, version);
    }
    config.installed_channels.insert(s("lts"), system("1.6.7"));
    config.installed_channels.insert(s("release"), system("1.9.4"));
    config.installed_channels.insert(s("1.9"), system("1.9.4"));
    config.installed_channels.insert(s("dev"), linked("/home/me/julia/julia"));
    config.installed_channels.insert(s("ghost"), system("0.0.1"));
    let removed = garbage_collect_versions(&mut config);
    let gone: Vec<String> = removed.iter().map(|r| r.version.clone()).collect();
    assert_eq!(gone, vec![s("1.8.5"), s("1.9.3"), s("1.10.0")]);
    assert_eq!(config.installed_versions.keys(), vec![s("1.6.7"), s("1.9.4")]);
    for version in config.installed_versions.keys() {
        assert!(is_version_live(&config.installed_channels, &version));
    }
    for version in gone {
        assert!(!is_version_live(&config.installed_channels, &version));
        assert!(!config.installed_versions.contains_key(&version));
    }
    assert_eq!(config.installed_channels.len(), 5);
    let second = garbage_collect_versions(&mut config);
    assert!(second.is_empty());
    assert_eq!(config.installed_versions.keys(), vec![s("1.6.7"), s("1.9.4")]);
}

#[test]
fn collection_of_record_without_channels_removes_everything() {
    let mut config = JuliaupConfig::new();
    register(&mut config, "1.9.3");
    register(&mut config, "1.9.4");
    let removed = garbage_collect_versions(&mut config);
    assert_eq!(removed.len(), 2);
    assert_eq!(config.installed_versions.len(), 0);
}

#[test]
fn alias_plan_names_target_and_link() {
    let home = b"/home/me/.julia/juliaup".to_vec();
    let bin = b"/home/me/.local/bin".to_vec();
    let path = b"/usr/bin:/home/me/.local/bin/:/bin".to_vec();
    let plan = create_symlink(&s("1.9.3"), &s("julia-release"), &home, &bin, Some(&path), true)
        .unwrap();
    assert_eq!(plan.target, b"/home/me/.julia/juliaup/julia-1.9.3/bin/julia".to_vec());
    assert_eq!(plan.link, b"/home/me/.local/bin/julia-release".to_vec());
    assert!(!plan.warn_search_path);
}

#[test]
fn alias_plan_warns_when_directory_is_not_searched() {
    let home = b"/home/me/.julia/juliaup/".to_vec();
    let bin = b"/home/me/.local/bin".to_vec();
    let path = b"/usr/bin:/bin:/home/me/.local".to_vec();
    let plan = create_symlink(&s("1.9.3"), &s("julia-release"), &home, &bin, Some(&path), true)
        .unwrap();
    assert_eq!(plan.target, b"/home/me/.julia/juliaup/julia-1.9.3/bin/julia".to_vec());
    assert!(plan.warn_search_path);
    let silent = create_symlink(&s("1.9.3"), &s("julia-release"), &home, &bin, None, true).unwrap();
    assert!(!silent.warn_search_path);
}

#[test]
fn alias_plan_is_empty_without_alias_support() {
    let home = b"/home/me/.julia/juliaup".to_vec();
    let bin = b"/home/me/.local/bin".to_vec();
    assert!(create_symlink(&s("1.9.3"), &s("julia-release"), &home, &bin, None, false).is_none());
}

#[test]
fn alias_removal_names_the_link() {
    let bin = b"/home/me/.local/bin/".to_vec();
    assert_eq!(remove_symlink(&s("julia-lts"), &bin), b"/home/me/.local/bin/julia-lts".to_vec());
}
