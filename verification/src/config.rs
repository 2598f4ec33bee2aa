//! The sink's settings and what is worked out from them before the first
//! event is taken.

use crate::batcher::BatchSettings;
use crate::dispatch::RetryPolicy;
use crate::document::{BulkAction, VersionType};
use crate::encoder::Dialect;
use crate::encoding::{keeps_all, Transformer};
use crate::template::{Template, TemplatePart};
use vstd::prelude::*;
use vstd::string::StringExecFns;

verus! {

/// The name of the timestamp field that a data stream asks for.
pub const DATA_STREAM_TIMESTAMP_KEY: &'static str = "@timestamp";

/// How documents are addressed.
#[derive(Clone, Copy, Debug, PartialEq, Eq, Structural)]
pub enum InfinoMode {
    /// To an index named by a template, with a configured action.
    Bulk,
    /// To a data stream whose name is put together from its type, dataset
    /// and namespace.
    DataStream,
}

/// The API version to speak.
#[derive(Clone, Copy, Debug, PartialEq, Eq, Structural)]
pub enum InfinoApiVersion {
    /// Ask the destination once, at start.
    Auto,
    V6,
    V7,
    V8,
}

/// How a request body is compressed.
#[derive(Clone, Copy, Debug, PartialEq, Eq, Structural)]
pub enum Compression {
    /// The body is sent as it is.
    Uncompressed,
    Gzip,
}

/// Why the settings cannot be used.
#[derive(Clone, Copy, Debug, PartialEq, Eq, Structural)]
pub enum ConfigError {
    /// No endpoint is given.
    NoEndpoint,
    /// A batch limit is zero.
    InvalidBatch,
    /// External versioning is asked for without a version field.
    VersionRequired,
    /// A version field is given with internal versioning, which ignores it.
    VersionIgnored,
    /// External versioning is asked for without an id field.
    IdRequired,
    /// The API version is none the sink can speak.
    UnsupportedApiVersion,
    /// The version is to be asked of the destination, and it gave none.
    VersionUnknown,
}

/// Whether two texts are the same.
pub fn same_text(a: &str, b: &str) -> (eq: bool)
    ensures
        eq == (a@ == b@),
{
    let x = String::from_str(a);
    let y = String::from_str(b);
    x == y
}

/// The mode that a text names: `bulk` or `data_stream`.
pub open spec fn mode_named(text: Seq<char>) -> Option<InfinoMode> {
    if text == "bulk"@ {
        Some(InfinoMode::Bulk)
    } else if text == "data_stream"@ {
        Some(InfinoMode::DataStream)
    } else {
        None
    }
}

impl InfinoMode {
    /// Reads a mode from its name.
    pub fn parse(text: &str) -> (mode: Option<InfinoMode>)
        ensures
            mode == mode_named(text@),
    {
        if same_text(text, "bulk") {
            Some(InfinoMode::Bulk)
        } else if same_text(text, "data_stream") {
            Some(InfinoMode::DataStream)
        } else {
            None
        }
    }
}

/// The API version that a text names: `auto`, `v6`, `v7` or `v8`. Any
/// other version is one the sink cannot speak.
pub open spec fn api_version_named(text: Seq<char>) -> Result<InfinoApiVersion, ConfigError> {
    if text == "auto"@ {
        Ok(InfinoApiVersion::Auto)
    } else if text == "v6"@ {
        Ok(InfinoApiVersion::V6)
    } else if text == "v7"@ {
        Ok(InfinoApiVersion::V7)
    } else if text == "v8"@ {
        Ok(InfinoApiVersion::V8)
    } else {
        Err(ConfigError::UnsupportedApiVersion)
    }
}

impl InfinoApiVersion {
    /// Reads an API version from its name.
    pub fn parse(text: &str) -> (version: Result<InfinoApiVersion, ConfigError>)
        ensures
            version == api_version_named(text@),
    {
        if same_text(text, "auto") {
            Ok(InfinoApiVersion::Auto)
        } else if same_text(text, "v6") {
            Ok(InfinoApiVersion::V6)
        } else if same_text(text, "v7") {
            Ok(InfinoApiVersion::V7)
        } else if same_text(text, "v8") {
            Ok(InfinoApiVersion::V8)
        } else {
            Err(ConfigError::UnsupportedApiVersion)
        }
    }
}

/// The compression that a text names: `none` or `gzip`.
pub open spec fn compression_named(text: Seq<char>) -> Option<Compression> {
    if text == "none"@ {
        Some(Compression::Uncompressed)
    } else if text == "gzip"@ {
        Some(Compression::Gzip)
    } else {
        None
    }
}

impl Compression {
    /// Reads a compression from its name.
    pub fn parse(text: &str) -> (compression: Option<Compression>)
        ensures
            compression == compression_named(text@),
    {
        if same_text(text, "none") {
            Some(Compression::Uncompressed)
        } else if same_text(text, "gzip") {
            Some(Compression::Gzip)
        } else {
            None
        }
    }
}

/// The action that a text names: `index`, `create`, `update` or `delete`.
pub open spec fn action_named(text: Seq<char>) -> Option<BulkAction> {
    if text == "index"@ {
        Some(BulkAction::Index)
    } else if text == "create"@ {
        Some(BulkAction::Create)
    } else if text == "update"@ {
        Some(BulkAction::Update)
    } else if text == "delete"@ {
        Some(BulkAction::Delete)
    } else {
        None
    }
}

/// Reads an action from its name.
pub fn parse_action(text: &str) -> (action: Option<BulkAction>)
    ensures
        action == action_named(text@),
{
    if same_text(text, "index") {
        Some(BulkAction::Index)
    } else if same_text(text, "create") {
        Some(BulkAction::Create)
    } else if same_text(text, "update") {
        Some(BulkAction::Update)
    } else if same_text(text, "delete") {
        Some(BulkAction::Delete)
    } else {
        None
    }
}

/// The version type that a text names: `internal`, `external` or
/// `external_gte`.
pub open spec fn version_type_named(text: Seq<char>) -> Option<VersionType> {
    if text == "internal"@ {
        Some(VersionType::Internal)
    } else if text == "external"@ {
        Some(VersionType::External)
    } else if text == "external_gte"@ {
        Some(VersionType::ExternalGte)
    } else {
        None
    }
}

/// Reads a version type from its name.
pub fn parse_version_type(text: &str) -> (version_type: Option<VersionType>)
    ensures
        version_type == version_type_named(text@),
{
    if same_text(text, "internal") {
        Some(VersionType::Internal)
    } else if same_text(text, "external") {
        Some(VersionType::External)
    } else if same_text(text, "external_gte") {
        Some(VersionType::ExternalGte)
    } else {
        None
    }
}

/// The settings of bulk mode.
#[derive(Clone, Debug, PartialEq, Eq)]
pub struct BulkConfig {
    pub action: BulkAction,
    pub index: Template,
    /// The name of the field that holds a document's version.
    pub version: Option<String>,
    pub version_type: VersionType,
}

/// The settings of data stream mode.
#[derive(Clone, Debug, PartialEq, Eq)]
pub struct DataStreamConfig {
    /// Whether an event's own `data_stream.*` fields name the stream.
    pub auto_routing: bool,
    /// Whether the document carries the data stream's timestamp field.
    pub sync_fields: bool,
    pub dtype: String,
    pub dataset: String,
    pub namespace: String,
}

/// The limits of a batch; what is left open takes its default.
#[derive(Clone, Copy, Debug, PartialEq, Eq, Structural)]
pub struct BatchConfig {
    pub max_events: Option<usize>,
    pub max_bytes: Option<usize>,
    pub timeout_secs: Option<u64>,
}

/// The limits on requests.
#[derive(Clone, Copy, Debug, PartialEq, Eq, Structural)]
pub struct RequestConfig {
    pub concurrency: usize,
    pub retry_attempts: u32,
    pub retry_initial_backoff_secs: u64,
    pub retry_max_duration_secs: u64,
}

/// The settings of the sink.
#[derive(Clone, Debug, PartialEq, Eq)]
pub struct InfinoConfig {
    pub endpoints: Vec<String>,
    pub mode: InfinoMode,
    pub bulk: BulkConfig,
    pub data_stream: Option<DataStreamConfig>,
    pub api_version: InfinoApiVersion,
    pub compression: Compression,
    /// The name of the pipeline to apply.
    pub pipeline: Option<String>,
    /// The name of the field whose text becomes the document id.
    pub id_key: Option<String>,
    /// Whether documents that the destination refused one by one are sent
    /// again.
    pub request_retry_partial: bool,
    /// Which fields of a log are written.
    pub encoding: Transformer,
    pub batch: BatchConfig,
    pub request: RequestConfig,
    pub acknowledgements: bool,
}

/// How documents are addressed, with what that takes.
#[derive(Clone, Debug, PartialEq, Eq)]
pub enum InfinoCommonMode {
    Bulk { index: Template, action: BulkAction, version: Option<String>, version_type: VersionType },
    DataStream(DataStreamConfig),
}

/// Whether one mode is a copy of another.
pub open spec fn same_mode(a: InfinoCommonMode, b: InfinoCommonMode) -> bool {
    match (a, b) {
        (
            InfinoCommonMode::Bulk { index, action, version, version_type },
            InfinoCommonMode::Bulk {
                index: index2,
                action: action2,
                version: version2,
                version_type: version_type2,
            },
        ) => {
            &&& index@ == index2@
            &&& action == action2
            &&& version == version2
            &&& version_type == version_type2
        },
        (InfinoCommonMode::DataStream(x), InfinoCommonMode::DataStream(y)) => x == y,
        _ => false,
    }
}

impl InfinoCommonMode {
    /// A copy of the mode.
    pub fn duplicate(&self) -> (copy: InfinoCommonMode)
        ensures
            same_mode(copy, *self),
    {
        match self {
            InfinoCommonMode::Bulk { index, action, version, version_type } => {
                InfinoCommonMode::Bulk {
                    index: index.duplicate(),
                    action: *action,
                    version: match version {
                        Some(v) => Some(v.clone()),
                        None => None,
                    },
                    version_type: *version_type,
                }
            },
            InfinoCommonMode::DataStream(ds) => InfinoCommonMode::DataStream(ds.duplicate()),
        }
    }
}

/// The default batch limits.
pub const DEFAULT_MAX_EVENTS: usize = 1000;

pub const DEFAULT_MAX_BYTES: usize = 10000000;

pub const DEFAULT_TIMEOUT_SECS: u64 = 1;

/// Whether a data stream's settings are the defaults: streams of type
/// `logs`, dataset `generic`, namespace `default`, named by the event where
/// it says so, with the timestamp field.
pub open spec fn is_default_stream(ds: DataStreamConfig) -> bool {
    &&& ds.auto_routing
    &&& ds.sync_fields
    &&& ds.dtype@ == "logs"@
    &&& ds.dataset@ == "generic"@
    &&& ds.namespace@ == "default"@
}

impl DataStreamConfig {
    /// A copy of the settings.
    pub fn duplicate(&self) -> (copy: DataStreamConfig)
        ensures
            copy == *self,
    {
        DataStreamConfig {
            auto_routing: self.auto_routing,
            sync_fields: self.sync_fields,
            dtype: self.dtype.clone(),
            dataset: self.dataset.clone(),
            namespace: self.namespace.clone(),
        }
    }
}

impl Default for DataStreamConfig {
    fn default() -> (ds: DataStreamConfig)
        ensures
            is_default_stream(ds),
    {
        DataStreamConfig {
            auto_routing: true,
            sync_fields: true,
            dtype: String::from_str("logs"),
            dataset: String::from_str("generic"),
            namespace: String::from_str("default"),
        }
    }
}

/// Whether bulk settings are the defaults: documents are indexed into
/// `vector`, without versions.
pub open spec fn is_default_bulk(bulk: BulkConfig) -> bool {
    &&& bulk.action == BulkAction::Index
    &&& bulk.index@.len() == 1
    &&& bulk.index@[0] matches TemplatePart::Literal(s) && s@ == "vector"@
    &&& bulk.version.is_none()
    &&& bulk.version_type == VersionType::Internal
}

impl Default for BulkConfig {
    fn default() -> (bulk: BulkConfig)
        ensures
            is_default_bulk(bulk),
    {
        BulkConfig {
            action: BulkAction::Index,
            index: Template::literal("vector"),
            version: None,
            version_type: VersionType::Internal,
        }
    }
}

impl BatchConfig {
    /// The event limit in force.
    pub open spec fn events(&self) -> usize {
        match self.max_events {
            Some(n) => n,
            None => DEFAULT_MAX_EVENTS,
        }
    }

    /// The byte limit in force.
    pub open spec fn bytes(&self) -> usize {
        match self.max_bytes {
            Some(n) => n,
            None => DEFAULT_MAX_BYTES,
        }
    }

    /// The linger time in force, in milliseconds; the longest time that can
    /// be held where the seconds are too many.
    pub open spec fn linger_ms(&self) -> u64 {
        let secs = match self.timeout_secs {
            Some(s) => s,
            None => DEFAULT_TIMEOUT_SECS,
        };
        if secs * 1000 <= u64::MAX {
            (secs * 1000) as u64
        } else {
            u64::MAX
        }
    }

    /// The limits for the batcher, with defaults filled in. A limit of zero
    /// events or zero bytes is refused.
    pub fn into_batcher_settings(&self) -> (settings: Result<BatchSettings, ConfigError>)
        ensures
            settings == if self.events() >= 1 && self.bytes() >= 1 {
                Ok::<BatchSettings, ConfigError>(
                    BatchSettings {
                        max_events: self.events(),
                        max_bytes: self.bytes(),
                        linger_ms: self.linger_ms(),
                    },
                )
            } else {
                Err(ConfigError::InvalidBatch)
            },
    {
        let max_events: usize = match self.max_events {
            Some(n) => n,
            None => DEFAULT_MAX_EVENTS,
        };
        let max_bytes: usize = match self.max_bytes {
            Some(n) => n,
            None => DEFAULT_MAX_BYTES,
        };
        let secs: u64 = match self.timeout_secs {
            Some(s) => s,
            None => DEFAULT_TIMEOUT_SECS,
        };
        let linger_ms: u64 = match secs.checked_mul(1000) {
            Some(ms) => ms,
            None => u64::MAX,
        };
        match BatchSettings::new(max_events, max_bytes, linger_ms) {
            Some(settings) => Ok(settings),
            None => Err(ConfigError::InvalidBatch),
        }
    }
}

/// Whether settings are the defaults.
pub open spec fn is_default_config(config: InfinoConfig) -> bool {
    &&& config.endpoints@.len() == 0
    &&& config.mode == InfinoMode::Bulk
    &&& is_default_bulk(config.bulk)
    &&& config.data_stream.is_none()
    &&& config.api_version == InfinoApiVersion::Auto
    &&& config.compression == Compression::Uncompressed
    &&& config.pipeline.is_none()
    &&& config.id_key.is_none()
    &&& !config.request_retry_partial
    &&& keeps_all(config.encoding)
    &&& config.batch == BatchConfig { max_events: None, max_bytes: None, timeout_secs: None }
    &&& config.request == RequestConfig {
        concurrency: 5,
        retry_attempts: 5,
        retry_initial_backoff_secs: 1,
        retry_max_duration_secs: 30,
    }
    &&& !config.acknowledgements
}

impl Default for InfinoConfig {
    fn default() -> (config: InfinoConfig)
        ensures
            is_default_config(config),
    {
        InfinoConfig {
            endpoints: Vec::new(),
            mode: InfinoMode::Bulk,
            bulk: BulkConfig::default(),
            data_stream: None,
            api_version: InfinoApiVersion::Auto,
            compression: Compression::Uncompressed,
            pipeline: None,
            id_key: None,
            request_retry_partial: false,
            encoding: Transformer::default(),
            batch: BatchConfig { max_events: None, max_bytes: None, timeout_secs: None },
            request: RequestConfig {
                concurrency: 5,
                retry_attempts: 5,
                retry_initial_backoff_secs: 1,
                retry_max_duration_secs: 30,
            },
            acknowledgements: false,
        }
    }
}

/// The kind of a value.
#[derive(Clone, Copy, Debug, PartialEq, Eq, Structural)]
pub enum Kind {
    Bytes,
    Integer,
    Float,
    Boolean,
    Timestamp,
}

/// What a sink asks of the events it takes: a meaning that a field of the
/// event has, and the kind of that field's value.
#[derive(Clone, Debug, PartialEq, Eq)]
pub struct Requirement {
    pub meaning: String,
    pub kind: Kind,
    /// Whether events without the meaning are taken all the same.
    pub optional: bool,
}

/// The kinds of events a sink takes, and what it asks of them.
#[derive(Clone, Debug, PartialEq, Eq)]
pub struct Input {
    pub metrics: bool,
    pub logs: bool,
    pub traces: bool,
    pub requirements: Vec<Requirement>,
}

impl InfinoConfig {
    /// The kinds of events the sink takes: metrics and logs, no traces. Of
    /// them it asks one thing, and that only where they have it: that the
    /// meaning `timestamp` is a timestamp.
    pub fn input(&self) -> (input: Input)
        ensures
            input.metrics,
            input.logs,
            !input.traces,
            input.requirements@.len() == 1,
            input.requirements@[0].meaning@ == "timestamp"@,
            input.requirements@[0].kind == Kind::Timestamp,
            input.requirements@[0].optional,
    {
        let mut requirements: Vec<Requirement> = Vec::new();
        requirements.push(
            Requirement {
                meaning: String::from_str("timestamp"),
                kind: Kind::Timestamp,
                optional: true,
            },
        );
        Input { metrics: true, logs: true, traces: false, requirements }
    }

    /// Whether the host waits for batches to be acknowledged.
    pub fn acknowledgements(&self) -> (wanted: bool)
        ensures
            wanted == self.acknowledgements,
    {
        self.acknowledgements
    }

    /// How documents are addressed under these settings: in bulk mode the
    /// bulk settings, in data stream mode the data stream settings, or the
    /// default ones where none are given. This never fails.
    pub fn common_mode(&self) -> (mode: Result<InfinoCommonMode, ConfigError>)
        ensures
            match mode {
                Ok(InfinoCommonMode::Bulk { index, action, version, version_type }) => {
                    &&& self.mode == InfinoMode::Bulk
                    &&& index@ == self.bulk.index@
                    &&& action == self.bulk.action
                    &&& version == self.bulk.version
                    &&& version_type == self.bulk.version_type
                },
                Ok(InfinoCommonMode::DataStream(ds)) => {
                    &&& self.mode == InfinoMode::DataStream
                    &&& match self.data_stream {
                        Some(given) => ds == given,
                        None => is_default_stream(ds),
                    }
                },
                Err(_) => false,
            },
    {
        match self.mode {
            InfinoMode::Bulk => Ok(
                InfinoCommonMode::Bulk {
                    index: self.bulk.index.duplicate(),
                    action: self.bulk.action,
                    version: match &self.bulk.version {
                        Some(v) => Some(v.clone()),
                        None => None,
                    },
                    version_type: self.bulk.version_type,
                },
            ),
            InfinoMode::DataStream => Ok(
                InfinoCommonMode::DataStream(
                    match &self.data_stream {
                        Some(ds) => ds.duplicate(),
                        None => DataStreamConfig::default(),
                    },
                ),
            ),
        }
    }

    /// The first fault of the settings, in this order: no endpoint; and in
    /// bulk mode, a version field with internal versioning, external
    /// versioning without a version field, external versioning without an
    /// id field.
    pub open spec fn fault(&self) -> Option<ConfigError> {
        let external = self.bulk.version_type != VersionType::Internal;
        if self.endpoints@.len() == 0 {
            Some(ConfigError::NoEndpoint)
        } else if self.mode == InfinoMode::Bulk && !external && self.bulk.version.is_some() {
            Some(ConfigError::VersionIgnored)
        } else if self.mode == InfinoMode::Bulk && external && self.bulk.version.is_none() {
            Some(ConfigError::VersionRequired)
        } else if self.mode == InfinoMode::Bulk && external && self.id_key.is_none() {
            Some(ConfigError::IdRequired)
        } else {
            None
        }
    }

    /// Checks the settings against each other.
    pub fn validate(&self) -> (checked: Result<(), ConfigError>)
        ensures
            checked == match self.fault() {
                Some(e) => Err::<(), ConfigError>(e),
                None => Ok(()),
            },
    {
        let external = match self.bulk.version_type {
            VersionType::Internal => false,
            _ => true,
        };
        let bulk = match self.mode {
            InfinoMode::Bulk => true,
            InfinoMode::DataStream => false,
        };
        if self.endpoints.len() == 0 {
            Err(ConfigError::NoEndpoint)
        } else if bulk && !external && self.bulk.version.is_some() {
            Err(ConfigError::VersionIgnored)
        } else if bulk && external && self.bulk.version.is_none() {
            Err(ConfigError::VersionRequired)
        } else if bulk && external && self.id_key.is_none() {
            Err(ConfigError::IdRequired)
        } else {
            Ok(())
        }
    }

    /// The retry policy these settings ask for, with delays in
    /// milliseconds; the longest delay that can be held where the seconds
    /// are too many.
    pub fn retry_policy(&self) -> (policy: RetryPolicy)
        ensures
            policy == (RetryPolicy {
                max_retries: self.request.retry_attempts,
                initial_backoff_ms: seconds_as_ms(self.request.retry_initial_backoff_secs),
                max_backoff_ms: seconds_as_ms(self.request.retry_max_duration_secs),
                retry_partial: self.request_retry_partial,
            }),
    {
        RetryPolicy {
            max_retries: self.request.retry_attempts,
            initial_backoff_ms: to_ms(self.request.retry_initial_backoff_secs),
            max_backoff_ms: to_ms(self.request.retry_max_duration_secs),
            retry_partial: self.request_retry_partial,
        }
    }
}

/// Seconds in milliseconds, or the largest number that can be held.
pub open spec fn seconds_as_ms(secs: u64) -> u64 {
    if secs * 1000 <= u64::MAX {
        (secs * 1000) as u64
    } else {
        u64::MAX
    }
}

fn to_ms(secs: u64) -> (ms: u64)
    ensures
        ms == seconds_as_ms(secs),
{
    match secs.checked_mul(1000) {
        Some(ms) => ms,
        None => u64::MAX,
    }
}

/// The dialect for an API version. For `Auto` it goes by the major version
/// that the destination reported: 6 is the older dialect, 7 and 8 the
/// current one; any other, or none, is refused.
pub open spec fn dialect_for(version: InfinoApiVersion, probed_major: Option<u32>) -> Result<
    Dialect,
    ConfigError,
> {
    match version {
        InfinoApiVersion::V6 => Ok(Dialect::Legacy),
        InfinoApiVersion::V7 => Ok(Dialect::Current),
        InfinoApiVersion::V8 => Ok(Dialect::Current),
        InfinoApiVersion::Auto => match probed_major {
            Some(major) => if major == 6 {
                Ok(Dialect::Legacy)
            } else if major == 7 || major == 8 {
                Ok(Dialect::Current)
            } else {
                Err(ConfigError::UnsupportedApiVersion)
            },
            None => Err(ConfigError::VersionUnknown),
        },
    }
}

/// Picks the dialect once, at start.
pub fn resolve_dialect(version: InfinoApiVersion, probed_major: Option<u32>) -> (dialect: Result<
    Dialect,
    ConfigError,
>)
    ensures
        dialect == dialect_for(version, probed_major),
{
    match version {
        InfinoApiVersion::V6 => Ok(Dialect::Legacy),
        InfinoApiVersion::V7 => Ok(Dialect::Current),
        InfinoApiVersion::V8 => Ok(Dialect::Current),
        InfinoApiVersion::Auto => match probed_major {
            Some(major) => if major == 6 {
                Ok(Dialect::Legacy)
            } else if major == 7 || major == 8 {
                Ok(Dialect::Current)
            } else {
                Err(ConfigError::UnsupportedApiVersion)
            },
            None => Err(ConfigError::VersionUnknown),
        },
    }
}

} // verus!
