use infino_sink::batcher::BatchSettings;
use infino_sink::config::{
    resolve_dialect, BatchConfig, BulkConfig, Compression, ConfigError, DataStreamConfig,
    InfinoApiVersion, InfinoCommonMode, InfinoConfig, InfinoMode, Input, Kind, Requirement,
    DATA_STREAM_TIMESTAMP_KEY,
};
use infino_sink::encoding::Transformer;
use infino_sink::document::{BulkAction, VersionType};
use infino_sink::encoder::Dialect;
use infino_sink::sink::{InfinoCommon, InfinoSink};
use infino_sink::template::{Template, TemplatePart};

fn config_with_endpoint() -> InfinoConfig {
    let mut config = InfinoConfig::default();
    config.endpoints = vec!["http://localhost:3000".to_string()];
    config
}

#[test]
fn generate_config() {
    let config = InfinoConfig::default();
    let again = InfinoConfig::default();
    assert_eq!(config, again);
    let mode = config.common_mode().unwrap();
    assert!(matches!(mode, InfinoCommonMode::Bulk { .. }));
}

#[test]
fn default_config_values() {
    let config = InfinoConfig::default();
    assert!(config.endpoints.is_empty());
    assert_eq!(config.mode, InfinoMode::Bulk);
    assert_eq!(config.bulk, BulkConfig::default());
    assert_eq!(config.bulk.action, BulkAction::Index);
    assert_eq!(
        config.bulk.index,
        Template { parts: vec![TemplatePart::Literal("vector".to_string())] }
    );
    assert_eq!(config.bulk.version, None);
    assert_eq!(config.bulk.version_type, VersionType::Internal);
    assert_eq!(config.data_stream, None);
    assert_eq!(config.api_version, InfinoApiVersion::Auto);
    assert_eq!(config.compression, Compression::Uncompressed);
    assert_eq!(config.pipeline, None);
    assert_eq!(config.id_key, None);
    assert!(!config.request_retry_partial);
    assert_eq!(config.encoding, Transformer::default());
    assert_eq!(config.encoding, Transformer { only_fields: None, except_fields: None });
    assert_eq!(config.batch, BatchConfig { max_events: None, max_bytes: None, timeout_secs: None });
    assert_eq!(config.request.concurrency, 5);
    assert_eq!(config.request.retry_attempts, 5);
    assert_eq!(config.request.retry_initial_backoff_secs, 1);
    assert_eq!(config.request.retry_max_duration_secs, 30);
    assert!(!config.acknowledgements);
}

#[test]
fn timestamp_key_of_data_streams() {
    assert_eq!(DATA_STREAM_TIMESTAMP_KEY, "@timestamp");
}

#[test]
fn common_mode_bulk_takes_bulk_settings() {
    let mut config = config_with_endpoint();
    config.bulk.action = BulkAction::Create;
    config.bulk.index = Template {
        parts: vec![
            TemplatePart::Literal("app-".to_string()),
            TemplatePart::Field("service".to_string()),
        ],
    };
    config.bulk.version = Some("rev".to_string());
    config.bulk.version_type = VersionType::ExternalGte;
    let mode = config.common_mode().unwrap();
    assert_eq!(
        mode,
        InfinoCommonMode::Bulk {
            index: config.bulk.index.clone(),
            action: BulkAction::Create,
            version: Some("rev".to_string()),
            version_type: VersionType::ExternalGte,
        }
    );
}

#[test]
fn common_mode_data_stream_defaults() {
    let mut config = config_with_endpoint();
    config.mode = InfinoMode::DataStream;
    let mode = config.common_mode().unwrap();
    assert_eq!(
        mode,
        InfinoCommonMode::DataStream(DataStreamConfig {
            auto_routing: true,
            sync_fields: true,
            dtype: "logs".to_string(),
            dataset: "generic".to_string(),
            namespace: "default".to_string(),
        })
    );
}

#[test]
fn common_mode_data_stream_given() {
    let mut config = config_with_endpoint();
    config.mode = InfinoMode::DataStream;
    let given = DataStreamConfig {
        auto_routing: false,
        sync_fields: false,
        dtype: "synthetics".to_string(),
        dataset: "web".to_string(),
        namespace: "prod".to_string(),
    };
    config.data_stream = Some(given.clone());
    assert_eq!(config.common_mode().unwrap(), InfinoCommonMode::DataStream(given));
}

#[test]
fn validate_reports_each_fault() {
    let config = InfinoConfig::default();
    assert_eq!(config.validate(), Err(ConfigError::NoEndpoint));

    let mut config = config_with_endpoint();
    assert_eq!(config.validate(), Ok(()));

    config.bulk.version = Some("rev".to_string());
    assert_eq!(config.validate(), Err(ConfigError::VersionIgnored));

    config.bulk.version = None;
    config.bulk.version_type = VersionType::External;
    assert_eq!(config.validate(), Err(ConfigError::VersionRequired));

    config.bulk.version = Some("rev".to_string());
    assert_eq!(config.validate(), Err(ConfigError::IdRequired));

    config.id_key = Some("id".to_string());
    assert_eq!(config.validate(), Ok(()));
}

#[test]
fn validate_ignores_bulk_settings_in_data_stream_mode() {
    let mut config = config_with_endpoint();
    config.mode = InfinoMode::DataStream;
    config.bulk.version_type = VersionType::External;
    assert_eq!(config.validate(), Ok(()));
}

#[test]
fn dialect_of_each_version() {
    assert_eq!(resolve_dialect(InfinoApiVersion::V6, None), Ok(Dialect::Legacy));
    assert_eq!(resolve_dialect(InfinoApiVersion::V7, None), Ok(Dialect::Current));
    assert_eq!(resolve_dialect(InfinoApiVersion::V8, Some(6)), Ok(Dialect::Current));
    assert_eq!(resolve_dialect(InfinoApiVersion::Auto, Some(6)), Ok(Dialect::Legacy));
    assert_eq!(resolve_dialect(InfinoApiVersion::Auto, Some(7)), Ok(Dialect::Current));
    assert_eq!(resolve_dialect(InfinoApiVersion::Auto, Some(8)), Ok(Dialect::Current));
    assert_eq!(
        resolve_dialect(InfinoApiVersion::Auto, Some(5)),
        Err(ConfigError::UnsupportedApiVersion)
    );
    assert_eq!(
        resolve_dialect(InfinoApiVersion::Auto, Some(9)),
        Err(ConfigError::UnsupportedApiVersion)
    );
    assert_eq!(resolve_dialect(InfinoApiVersion::Auto, None), Err(ConfigError::VersionUnknown));
}

#[test]
fn batch_settings_defaults_and_limits() {
    let batch = BatchConfig { max_events: None, max_bytes: None, timeout_secs: None };
    assert_eq!(
        batch.into_batcher_settings(),
        Ok(BatchSettings { max_events: 1000, max_bytes: 10_000_000, linger_ms: 1000 })
    );
    let batch = BatchConfig { max_events: Some(3), max_bytes: Some(64), timeout_secs: Some(2) };
    assert_eq!(
        batch.into_batcher_settings(),
        Ok(BatchSettings { max_events: 3, max_bytes: 64, linger_ms: 2000 })
    );
    let batch = BatchConfig { max_events: Some(0), max_bytes: Some(64), timeout_secs: None };
    assert_eq!(batch.into_batcher_settings(), Err(ConfigError::InvalidBatch));
    let batch = BatchConfig { max_events: Some(1), max_bytes: Some(0), timeout_secs: None };
    assert_eq!(batch.into_batcher_settings(), Err(ConfigError::InvalidBatch));
    let batch = BatchConfig { max_events: None, max_bytes: None, timeout_secs: Some(u64::MAX) };
    assert_eq!(batch.into_batcher_settings().unwrap().linger_ms, u64::MAX);
}

#[test]
fn retry_policy_in_milliseconds() {
    let mut config = config_with_endpoint();
    config.request.retry_attempts = 3;
    config.request.retry_initial_backoff_secs = 2;
    config.request.retry_max_duration_secs = u64::MAX;
    config.request_retry_partial = true;
    let policy = config.retry_policy();
    assert_eq!(policy.max_retries, 3);
    assert_eq!(policy.initial_backoff_ms, 2000);
    assert_eq!(policy.max_backoff_ms, u64::MAX);
    assert!(policy.retry_partial);
}

#[test]
fn common_is_worked_out_once() {
    let mut config = config_with_endpoint();
    config.endpoints.push("http://other:3000".to_string());
    config.compression = Compression::Gzip;
    config.pipeline = Some("clean".to_string());
    config.request.concurrency = 9;
    let common = InfinoCommon::parse(&config, Some(7)).unwrap();
    assert_eq!(common.request_builder.endpoint, "http://localhost:3000");
    assert_eq!(common.request_builder.dialect, Dialect::Current);
    assert_eq!(common.request_builder.compression, Compression::Gzip);
    assert_eq!(common.request_builder.pipeline, Some("clean".to_string()));
    assert_eq!(common.concurrency, 9);
    assert_eq!(common.retry, config.retry_policy());
    assert_eq!(common.mode, config.common_mode().unwrap());
}

#[test]
fn common_refuses_faults_before_versions() {
    let config = InfinoConfig::default();
    assert_eq!(InfinoCommon::parse(&config, Some(5)), Err(ConfigError::NoEndpoint));
    let config = config_with_endpoint();
    assert_eq!(InfinoCommon::parse(&config, Some(5)), Err(ConfigError::UnsupportedApiVersion));
    assert_eq!(InfinoCommon::parse(&config, None), Err(ConfigError::VersionUnknown));
    let mut config = config_with_endpoint();
    config.api_version = InfinoApiVersion::V6;
    assert_eq!(
        InfinoCommon::parse(&config, None).unwrap().request_builder.dialect,
        Dialect::Legacy
    );
}

#[test]
fn sink_refuses_empty_batches() {
    let mut config = config_with_endpoint();
    let common = InfinoCommon::parse(&config, Some(8)).unwrap();
    config.batch.max_events = Some(0);
    assert_eq!(InfinoSink::new(&common, &config).err(), Some(ConfigError::InvalidBatch));
    config.batch.max_events = Some(2);
    config.id_key = Some("id".to_string());
    let sink = InfinoSink::new(&common, &config).unwrap();
    assert_eq!(sink.batch_settings.max_events, 2);
    assert_eq!(sink.batch_settings.max_bytes, 10_000_000);
    assert_eq!(sink.id_key_field, Some("id".to_string()));
    assert_eq!(sink.request_builder, common.request_builder);
    assert_eq!(sink.mode, common.mode);
    assert_eq!(sink.transformer, config.encoding);
    assert_eq!(sink.open_count(), 0);
}

#[test]
fn sink_takes_its_mode_from_the_common_part() {
    let mut streams = config_with_endpoint();
    streams.mode = InfinoMode::DataStream;
    let common = InfinoCommon::parse(&streams, Some(8)).unwrap();
    let mut bulk = config_with_endpoint();
    bulk.encoding = Transformer { only_fields: Some(vec!["message".to_string()]), except_fields: None };
    let sink = InfinoSink::new(&common, &bulk).unwrap();
    assert_eq!(sink.mode, common.mode);
    assert!(matches!(sink.mode, InfinoCommonMode::DataStream(_)));
    assert_eq!(sink.transformer, bulk.encoding);
    assert_eq!(common.mode.duplicate(), common.mode);
}

#[test]
fn sink_takes_metrics_and_logs() {
    let mut config = InfinoConfig::default();
    assert_eq!(
        config.input(),
        Input {
            metrics: true,
            logs: true,
            traces: false,
            requirements: vec![Requirement {
                meaning: "timestamp".to_string(),
                kind: Kind::Timestamp,
                optional: true
            }]
        }
    );
    assert!(!config.acknowledgements());
    config.acknowledgements = true;
    assert!(config.acknowledgements());
}
