//! Node configuration: the settings tree and the decisions derived from it.
//!
//! Loading the settings from files and the environment is the caller's
//! business; what the settings mean is decided here.

use crate::text::{starts_with_char, strip_home_markers, u16_to_text, without_home_markers, decimal_text};
use crate::uuids::{parse_uuid, parsed_uuid};
use vstd::prelude::*;
use vstd::string::StringExecFns;

verus! {

/// All settings of a node.
#[derive(Debug)]
pub struct Config {
    pub node: NodeConfig,
    pub audio: AudioConfig,
    pub transcription: TranscriptionConfig,
    pub storage: StorageConfig,
    pub sync: SyncConfig,
    pub api: ApiConfig,
}

/// Identity of the node.
#[derive(Debug)]
pub struct NodeConfig {
    pub id: String,
}

/// The wearable's service and its audio characteristic, as UUID texts.
#[derive(Debug)]
pub struct AudioConfig {
    pub memo_service_uuid: String,
    pub memo_characteristic_uuid: String,
}

/// Speech-to-text settings.
#[derive(Debug)]
pub struct TranscriptionConfig {
    pub model: String,
    pub threads: u32,
}

/// Where the store lives.
#[derive(Debug)]
pub struct StorageConfig {
    pub path: String,
}

/// Replication settings.
#[derive(Debug)]
pub struct SyncConfig {
    pub grpc_port: u16,
    pub sync_interval: u64,
}

/// Settings of the client-facing interfaces.
#[derive(Debug)]
pub struct ApiConfig {
    pub websocket_port: u16,
    pub listen_address: String,
    pub https_endpoint: Option<String>,
}

impl Clone for NodeConfig {
    fn clone(&self) -> (copy: Self)
        ensures
            copy.id@ == self.id@,
    {
        NodeConfig { id: self.id.clone() }
    }
}

impl Clone for AudioConfig {
    fn clone(&self) -> (copy: Self)
        ensures
            copy.memo_service_uuid@ == self.memo_service_uuid@,
            copy.memo_characteristic_uuid@ == self.memo_characteristic_uuid@,
    {
        AudioConfig {
            memo_service_uuid: self.memo_service_uuid.clone(),
            memo_characteristic_uuid: self.memo_characteristic_uuid.clone(),
        }
    }
}

impl Clone for TranscriptionConfig {
    fn clone(&self) -> (copy: Self)
        ensures
            copy.model@ == self.model@,
            copy.threads == self.threads,
    {
        TranscriptionConfig { model: self.model.clone(), threads: self.threads }
    }
}

impl Clone for StorageConfig {
    fn clone(&self) -> (copy: Self)
        ensures
            copy.path@ == self.path@,
    {
        StorageConfig { path: self.path.clone() }
    }
}

impl Clone for SyncConfig {
    fn clone(&self) -> (copy: Self)
        ensures
            copy == *self,
    {
        SyncConfig { grpc_port: self.grpc_port, sync_interval: self.sync_interval }
    }
}

impl Clone for ApiConfig {
    fn clone(&self) -> (copy: Self)
        ensures
            copy.websocket_port == self.websocket_port,
            copy.listen_address@ == self.listen_address@,
            crate::storage::option_string_view(copy.https_endpoint)
                == crate::storage::option_string_view(self.https_endpoint),
    {
        ApiConfig {
            websocket_port: self.websocket_port,
            listen_address: self.listen_address.clone(),
            https_endpoint: crate::storage::clone_option_string(&self.https_endpoint),
        }
    }
}

impl Clone for Config {
    fn clone(&self) -> (copy: Self)
        ensures
            copy.node.id@ == self.node.id@,
            copy.audio.memo_service_uuid@ == self.audio.memo_service_uuid@,
            copy.audio.memo_characteristic_uuid@ == self.audio.memo_characteristic_uuid@,
            copy.transcription.model@ == self.transcription.model@,
            copy.transcription.threads == self.transcription.threads,
            copy.storage.path@ == self.storage.path@,
            copy.sync == self.sync,
            copy.api.websocket_port == self.api.websocket_port,
            copy.api.listen_address@ == self.api.listen_address@,
            crate::storage::option_string_view(copy.api.https_endpoint)
                == crate::storage::option_string_view(self.api.https_endpoint),
    {
        Config {
            node: self.node.clone(),
            audio: self.audio.clone(),
            transcription: self.transcription.clone(),
            storage: self.storage.clone(),
            sync: self.sync.clone(),
            api: self.api.clone(),
        }
    }
}

/// Number of transcription threads used when the configuration names none.
pub open spec fn spec_default_threads() -> u32 {
    4
}

/// Number of transcription threads used when the configuration names none.
#[verifier::when_used_as_spec(spec_default_threads)]
pub fn default_threads() -> (threads: u32)
    ensures
        threads == 4,
{
    4
}

/// A setting that cannot be used.
#[derive(Debug, Clone, Copy, PartialEq, Eq, Structural)]
pub enum ConfigError {
    /// The service UUID is no UUID.
    InvalidServiceUuid,
    /// The characteristic UUID is no UUID.
    InvalidCharacteristicUuid,
}

/// The two configured UUIDs as numbers.
#[derive(Debug, Clone, Copy, PartialEq, Eq, Structural)]
pub struct AudioUuids {
    pub service: u128,
    pub characteristic: u128,
}

/// Where the configured storage path points.
#[derive(Debug)]
pub enum StorageLocation {
    /// Below the user's home directory, at this relative path.
    UnderHome(String),
    /// At the configured path, taken as it stands.
    AsGiven(String),
}

/// What the storage path means: a path that starts with `~` lies below the
/// home directory, at the path left when all leading `~/` are removed; any
/// other path is taken as it stands.
pub open spec fn spec_storage_location(path: Seq<char>) -> (bool, Seq<char>) {
    if path.len() > 0 && path[0] == '~' {
        (true, without_home_markers(path))
    } else {
        (false, path)
    }
}

impl Config {
    /// Resolves the configured storage path as far as it can be done without
    /// knowing the home directory.
    pub fn storage_location(&self) -> (location: StorageLocation)
        ensures
            match location {
                StorageLocation::UnderHome(rest) => spec_storage_location(self.storage.path@) == (
                    true,
                    rest@,
                ),
                StorageLocation::AsGiven(path) => spec_storage_location(self.storage.path@) == (
                    false,
                    path@,
                ),
            },
    {
        if starts_with_char(self.storage.path.as_str(), '~') {
            StorageLocation::UnderHome(strip_home_markers(self.storage.path.as_str()))
        } else {
            StorageLocation::AsGiven(self.storage.path.clone())
        }
    }
}

/// What two readings of UUID texts amount to, `None` standing for a text
/// that is no UUID: the first failure is named, the service UUID first.
pub open spec fn spec_audio_uuids(service: Option<u128>, characteristic: Option<u128>) -> Result<
    AudioUuids,
    ConfigError,
> {
    match service {
        None => Err(ConfigError::InvalidServiceUuid),
        Some(service) => match characteristic {
            None => Err(ConfigError::InvalidCharacteristicUuid),
            Some(characteristic) => Ok(AudioUuids { service, characteristic }),
        },
    }
}

/// Puts the readings of the two configured UUIDs together.
pub fn audio_uuids_from(service: Option<u128>, characteristic: Option<u128>) -> (uuids: Result<
    AudioUuids,
    ConfigError,
>)
    ensures
        uuids == spec_audio_uuids(service, characteristic),
{
    match service {
        None => Err(ConfigError::InvalidServiceUuid),
        Some(service) => match characteristic {
            None => Err(ConfigError::InvalidCharacteristicUuid),
            Some(characteristic) => Ok(AudioUuids { service, characteristic }),
        },
    }
}

impl AudioConfig {
    /// Reads both UUIDs. The service UUID is looked at first.
    pub fn uuids(&self) -> (uuids: Result<AudioUuids, ConfigError>)
        ensures
            uuids == spec_audio_uuids(
                parsed_uuid(self.memo_service_uuid@),
                parsed_uuid(self.memo_characteristic_uuid@),
            ),
    {
        let service = parse_uuid(self.memo_service_uuid.as_str());
        let characteristic = parse_uuid(self.memo_characteristic_uuid.as_str());
        audio_uuids_from(service, characteristic)
    }
}

impl ApiConfig {
    /// The webhook to post to: the configured endpoint, unless it is absent
    /// or empty.
    pub fn webhook_endpoint(&self) -> (endpoint: Option<String>)
        ensures
            match self.https_endpoint {
                Some(url) => if url@.len() == 0 {
                    endpoint is None
                } else {
                    endpoint is Some && endpoint->Some_0@ == url@
                },
                None => endpoint is None,
            },
    {
        match &self.https_endpoint {
            Some(url) => {
                if url.as_str().unicode_len() == 0 {
                    None
                } else {
                    Some(url.clone())
                }
            },
            None => None,
        }
    }

    /// The address the push socket listens on, as `address:port`.
    pub fn listen_endpoint(&self) -> (endpoint: String)
        ensures
            endpoint@ == self.listen_address@ + seq![':'] + decimal_text(
                self.websocket_port as nat,
            ),
    {
        proof {
            reveal_strlit(":");
        }
        let mut endpoint = self.listen_address.clone();
        endpoint.append(":");
        let port = u16_to_text(self.websocket_port);
        endpoint.append(port.as_str());
        assert(":"@ =~= seq![':']);
        endpoint
    }
}

} // verus!
