use memo_node::config::{
    audio_uuids_from, default_threads, ApiConfig, AudioConfig, AudioUuids, Config, ConfigError, NodeConfig,
    StorageConfig, StorageLocation, SyncConfig, TranscriptionConfig,
};

fn config(path: &str) -> Config {
    Config {
        node: NodeConfig { id: "node-a".to_string() },
        audio: AudioConfig {
            memo_service_uuid: "1234A000-1234-5678-1234-56789ABCDEF0".to_string(),
            memo_characteristic_uuid: "1234a001-1234-5678-1234-56789abcdef0".to_string(),
        },
        transcription: TranscriptionConfig { model: "small.en".to_string(), threads: default_threads() },
        storage: StorageConfig { path: path.to_string() },
        sync: SyncConfig { grpc_port: 50051, sync_interval: 30 },
        api: ApiConfig {
            websocket_port: 8765,
            listen_address: "127.0.0.1".to_string(),
            https_endpoint: None,
        },
    }
}

#[test]
fn four_threads_by_default() {
    assert_eq!(default_threads(), 4);
}

#[test]
fn a_path_that_starts_with_a_tilde_lies_below_home() {
    match config("~/.local/share/memo/memo.db").storage_location() {
        StorageLocation::UnderHome(rest) => assert_eq!(rest, ".local/share/memo/memo.db"),
        StorageLocation::AsGiven(_) => panic!("expected a path below home"),
    }
    match config("~").storage_location() {
        StorageLocation::UnderHome(rest) => assert_eq!(rest, "~"),
        StorageLocation::AsGiven(_) => panic!("expected a path below home"),
    }
    match config("~/~/db").storage_location() {
        StorageLocation::UnderHome(rest) => assert_eq!(rest, "db"),
        StorageLocation::AsGiven(_) => panic!("expected a path below home"),
    }
}

#[test]
fn any_other_path_is_taken_as_it_stands() {
    for path in ["/var/lib/memo.db", "memo.db", "", "./~/memo.db"] {
        match config(path).storage_location() {
            StorageLocation::AsGiven(given) => assert_eq!(given, path),
            StorageLocation::UnderHome(_) => panic!("expected the path as given"),
        }
    }
}

#[test]
fn both_uuids_are_read() {
    assert_eq!(
        config("x").audio.uuids(),
        Ok(AudioUuids {
            service: 0x1234A000_1234_5678_1234_56789ABCDEF0,
            characteristic: 0x1234A001_1234_5678_1234_56789ABCDEF0,
        })
    );
}

#[test]
fn a_bad_uuid_is_named() {
    let mut settings = config("x");
    settings.audio.memo_characteristic_uuid = "not-a-uuid".to_string();
    assert_eq!(settings.audio.uuids(), Err(ConfigError::InvalidCharacteristicUuid));
    settings.audio.memo_service_uuid = String::new();
    assert_eq!(settings.audio.uuids(), Err(ConfigError::InvalidServiceUuid));
}

#[test]
fn the_webhook_is_used_only_if_it_is_named() {
    let mut settings = config("x");
    assert_eq!(settings.api.webhook_endpoint(), None);
    settings.api.https_endpoint = Some(String::new());
    assert_eq!(settings.api.webhook_endpoint(), None);
    settings.api.https_endpoint = Some("https://example.com/api".to_string());
    assert_eq!(settings.api.webhook_endpoint(), Some("https://example.com/api".to_string()));
}

#[test]
fn the_push_socket_listens_on_address_and_port() {
    assert_eq!(config("x").api.listen_endpoint(), "127.0.0.1:8765");
}

#[test]
fn the_readings_of_the_two_uuids_are_put_together() {
    assert_eq!(audio_uuids_from(Some(7), Some(9)), Ok(AudioUuids { service: 7, characteristic: 9 }));
    assert_eq!(audio_uuids_from(None, Some(9)), Err(ConfigError::InvalidServiceUuid));
    assert_eq!(audio_uuids_from(Some(7), None), Err(ConfigError::InvalidCharacteristicUuid));
    assert_eq!(audio_uuids_from(None, None), Err(ConfigError::InvalidServiceUuid));
}
