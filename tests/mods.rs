use unreal_asset_core::mods::{
    auto_pick_versions, mod_info_from, set_mod_sizes, newest_version, set_mod_data_from_version, use_version,
    AppData, GameMod, GameModVersion, Metadata, ModInfo, SelectedVersion, SyncMode, Version,
};

fn v(major: u32, minor: u32, patch: u32) -> Version {
    Version { major, minor, patch }
}

fn meta(name: &str, sync: Option<SyncMode>) -> Metadata {
    Metadata {
        name: name.to_string(),
        author: Some("someone".to_string()),
        description: None,
        game_build: Some("1.0.0".to_string()),
        sync,
        homepage: None,
        download: Some("https://example.invalid/mod".to_string()),
    }
}

fn version(n: Version, name: &str) -> GameModVersion {
    GameModVersion {
        version: n,
        file_name: format!("{}.pak", name),
        metadata: Some(meta(name, None)),
    }
}

fn blank_info() -> ModInfo {
    ModInfo {
        name: String::new(),
        author: None,
        description: None,
        game_build: None,
        sync: SyncMode::Unsynced,
        homepage: None,
        download: None,
    }
}

fn game_mod(id: &str, versions: Vec<GameModVersion>, selected: SelectedVersion) -> GameMod {
    GameMod {
        mod_id: id.to_string(),
        versions,
        selected_version: selected,
        info: blank_info(),
        size: 0,
    }
}

#[test]
fn auto_pick_drops_empty_and_resolves_latest() {
    let mut data = AppData {
        game_mods: vec![
            game_mod(
                "a",
                vec![version(v(1, 2, 0), "a12"), version(v(1, 10, 0), "a110"), version(v(1, 9, 9), "a199")],
                SelectedVersion::LatestIndirect(None),
            ),
            game_mod("empty", vec![], SelectedVersion::LatestIndirect(None)),
            game_mod(
                "b",
                vec![version(v(2, 0, 0), "b2"), version(v(3, 0, 0), "b3")],
                SelectedVersion::Specific(v(2, 0, 0)),
            ),
        ],
    };
    auto_pick_versions(&mut data);
    assert_eq!(data.game_mods.len(), 2);
    assert_eq!(data.game_mods[0].mod_id, "a");
    assert_eq!(
        data.game_mods[0].selected_version,
        SelectedVersion::LatestIndirect(Some(v(1, 10, 0)))
    );
    assert_eq!(data.game_mods[1].mod_id, "b");
    assert_eq!(data.game_mods[1].selected_version, SelectedVersion::Specific(v(2, 0, 0)));
}

#[test]
fn newest_version_orders_by_major_minor_patch() {
    let vs = vec![version(v(0, 0, 9), "x"), version(v(0, 1, 0), "y"), version(v(0, 0, 10), "z")];
    assert_eq!(newest_version(&vs), v(0, 1, 0));
    assert_eq!(newest_version(&vec![version(v(4, 0, 0), "w")]), v(4, 0, 0));
    assert_eq!(use_version(SelectedVersion::Latest(v(1, 0, 0))), v(1, 0, 0));
    assert_eq!(use_version(SelectedVersion::LatestIndirect(Some(v(2, 0, 0)))), v(2, 0, 0));
}

#[test]
fn metadata_of_selected_version_is_applied() {
    let mut data = AppData {
        game_mods: vec![game_mod(
            "a",
            vec![version(v(1, 0, 0), "old"), version(v(2, 0, 0), "new")],
            SelectedVersion::Specific(v(1, 0, 0)),
        )],
    };
    data.game_mods[0].versions[0].metadata = Some(meta("old", Some(SyncMode::ClientOnly)));
    set_mod_data_from_version(&mut data);
    let info = &data.game_mods[0].info;
    assert_eq!(info.name, "old");
    assert_eq!(info.author, Some("someone".to_string()));
    assert_eq!(info.sync, SyncMode::ClientOnly);
    assert_eq!(info.game_build, Some("1.0.0".to_string()));
    assert_eq!(data.game_mods[0].selected_version, SelectedVersion::Specific(v(1, 0, 0)));
}

#[test]
fn missing_sync_mode_means_server_and_client() {
    let info = mod_info_from(&meta("m", None));
    assert_eq!(info.sync, SyncMode::ServerAndClient);
    assert_eq!(info.name, "m");
    assert_eq!(info.download, Some("https://example.invalid/mod".to_string()));
}

#[test]
fn sizes_are_set_in_order() {
    let mut data = AppData {
        game_mods: vec![
            game_mod("a", vec![version(v(1, 0, 0), "a")], SelectedVersion::Specific(v(1, 0, 0))),
            game_mod("b", vec![version(v(1, 0, 0), "b")], SelectedVersion::Specific(v(1, 0, 0))),
        ],
    };
    set_mod_sizes(&mut data, &vec![10, 20]);
    assert_eq!(data.game_mods[0].size, 10);
    assert_eq!(data.game_mods[1].size, 20);
    assert_eq!(data.game_mods[1].mod_id, "b");
}
