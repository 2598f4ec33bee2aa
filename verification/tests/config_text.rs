use infino_sink::config::{
    parse_action, parse_version_type, BulkConfig, Compression, ConfigError, DataStreamConfig,
    InfinoApiVersion, InfinoConfig, InfinoMode,
};
use infino_sink::document::{BulkAction, VersionType};
use infino_sink::template::Template;
use toml::{Table, Value};

fn text(value: &Value) -> Result<&str, String> {
    value.as_str().ok_or_else(|| format!("expected a string, found {}", value))
}

fn flag(value: &Value) -> Result<bool, String> {
    value.as_bool().ok_or_else(|| format!("expected a boolean, found {}", value))
}

fn count(value: &Value) -> Result<u64, String> {
    value
        .as_integer()
        .and_then(|n| u64::try_from(n).ok())
        .ok_or_else(|| format!("expected a count, found {}", value))
}

fn table(value: &Value) -> Result<&Table, String> {
    value.as_table().ok_or_else(|| format!("expected a table, found {}", value))
}

fn bulk_from(given: &Table) -> Result<BulkConfig, String> {
    let mut bulk = BulkConfig::default();
    for (key, value) in given {
        match key.as_str() {
            "action" => bulk.action = parse_action(text(value)?).ok_or("unknown action")?,
            "index" => bulk.index = Template::parse(text(value)?),
            "version" => bulk.version = Some(text(value)?.to_string()),
            "version_type" => {
                bulk.version_type = parse_version_type(text(value)?).ok_or("unknown version type")?
            }
            other => return Err(format!("unknown field bulk.{}", other)),
        }
    }
    Ok(bulk)
}

fn data_stream_from(given: &Table) -> Result<DataStreamConfig, String> {
    let mut stream = DataStreamConfig::default();
    for (key, value) in given {
        match key.as_str() {
            "type" => stream.dtype = text(value)?.to_string(),
            "dataset" => stream.dataset = text(value)?.to_string(),
            "namespace" => stream.namespace = text(value)?.to_string(),
            "auto_routing" => stream.auto_routing = flag(value)?,
            "sync_fields" => stream.sync_fields = flag(value)?,
            other => return Err(format!("unknown field data_stream.{}", other)),
        }
    }
    Ok(stream)
}

fn config_from_toml(source: &str) -> Result<InfinoConfig, String> {
    let given: Table = source.parse::<Table>().map_err(|e| e.to_string())?;
    let mut config = InfinoConfig::default();
    let mut has_endpoints = false;
    for (key, value) in &given {
        match key.as_str() {
            "endpoints" => {
                let list = value.as_array().ok_or("endpoints must be a list")?;
                config.endpoints =
                    list.iter().map(|v| text(v).map(|s| s.to_string())).collect::<Result<_, _>>()?;
                has_endpoints = true;
            }
            "mode" => config.mode = InfinoMode::parse(text(value)?).ok_or("unknown mode")?,
            "api_version" => {
                config.api_version = InfinoApiVersion::parse(text(value)?)
                    .map_err(|e: ConfigError| format!("{:?}", e))?
            }
            "compression" => {
                config.compression = Compression::parse(text(value)?).ok_or("unknown compression")?
            }
            "pipeline" => config.pipeline = Some(text(value)?.to_string()),
            "id_key" => config.id_key = Some(text(value)?.to_string()),
            "request_retry_partial" => config.request_retry_partial = flag(value)?,
            "acknowledgements" => config.acknowledgements = flag(value)?,
            "bulk" => config.bulk = bulk_from(table(value)?)?,
            "data_stream" => config.data_stream = Some(data_stream_from(table(value)?)?),
            "batch" => {
                for (key, value) in table(value)? {
                    match key.as_str() {
                        "max_events" => config.batch.max_events = Some(count(value)? as usize),
                        "max_bytes" => config.batch.max_bytes = Some(count(value)? as usize),
                        "timeout_secs" => config.batch.timeout_secs = Some(count(value)?),
                        other => return Err(format!("unknown field batch.{}", other)),
                    }
                }
            }
            "request" => {
                for (key, value) in table(value)? {
                    match key.as_str() {
                        "concurrency" => config.request.concurrency = count(value)? as usize,
                        "retry_attempts" => config.request.retry_attempts = count(value)? as u32,
                        "retry_initial_backoff_secs" => {
                            config.request.retry_initial_backoff_secs = count(value)?
                        }
                        "retry_max_duration_secs" => {
                            config.request.retry_max_duration_secs = count(value)?
                        }
                        other => return Err(format!("unknown field request.{}", other)),
                    }
                }
            }
            "auth" | "tls" | "distribution" => {
                table(value)?;
            }
            other => return Err(format!("unknown field {}", other)),
        }
    }
    if !has_endpoints {
        return Err("missing field endpoints".to_string());
    }
    Ok(config)
}

#[test]
fn parse_aws_auth() {
    config_from_toml(
        r#"
            endpoints = [""]
            auth.strategy = "aws"
            auth.assume_role = "role"
        "#,
    )
    .unwrap();

    config_from_toml(
        r#"
            endpoints = [""]
            auth.strategy = "aws"
        "#,
    )
    .unwrap();
}

#[test]
fn parse_mode() {
    let config = config_from_toml(
        r#"
            endpoints = [""]
            mode = "data_stream"
            data_stream.type = "synthetics"
        "#,
    )
    .unwrap();
    assert!(matches!(config.mode, InfinoMode::DataStream));
    assert!(config.data_stream.is_some());
}

#[test]
fn parse_distribution() {
    config_from_toml(
        r#"
            endpoints = ["", ""]
            distribution.retry_initial_backoff_secs = 10
        "#,
    )
    .unwrap();
}

#[test]
fn parse_version() {
    let config = config_from_toml(
        r#"
            endpoints = [""]
            api_version = "v7"
        "#,
    )
    .unwrap();
    assert_eq!(config.api_version, InfinoApiVersion::V7);
}

#[test]
fn parse_version_auto() {
    let config = config_from_toml(
        r#"
            endpoints = [""]
            api_version = "auto"
        "#,
    )
    .unwrap();
    assert_eq!(config.api_version, InfinoApiVersion::Auto);
}

#[test]
fn parse_default_bulk() {
    let config = config_from_toml(
        r#"
            endpoints = [""]
        "#,
    )
    .unwrap();
    assert_eq!(config.mode, InfinoMode::Bulk);
    assert_eq!(config.bulk, BulkConfig::default());
}

#[test]
fn names_of_each_setting() {
    assert_eq!(InfinoMode::parse("bulk"), Some(InfinoMode::Bulk));
    assert_eq!(InfinoMode::parse("data_stream"), Some(InfinoMode::DataStream));
    assert_eq!(InfinoMode::parse("Bulk"), None);
    assert_eq!(InfinoApiVersion::parse("v6"), Ok(InfinoApiVersion::V6));
    assert_eq!(InfinoApiVersion::parse("v8"), Ok(InfinoApiVersion::V8));
    assert_eq!(Compression::parse("none"), Some(Compression::Uncompressed));
    assert_eq!(Compression::parse("gzip"), Some(Compression::Gzip));
    assert_eq!(Compression::parse("zstd"), None);
    assert_eq!(parse_action("index"), Some(BulkAction::Index));
    assert_eq!(parse_action("create"), Some(BulkAction::Create));
    assert_eq!(parse_action("update"), Some(BulkAction::Update));
    assert_eq!(parse_action("delete"), Some(BulkAction::Delete));
    assert_eq!(parse_action(""), None);
    assert_eq!(parse_version_type("internal"), Some(VersionType::Internal));
    assert_eq!(parse_version_type("external"), Some(VersionType::External));
    assert_eq!(parse_version_type("external_gte"), Some(VersionType::ExternalGte));
    assert_eq!(parse_version_type("force"), None);
}

#[test]
fn an_api_version_that_cannot_be_spoken_is_refused() {
    assert_eq!(InfinoApiVersion::parse("v5"), Err(ConfigError::UnsupportedApiVersion));
    assert_eq!(InfinoApiVersion::parse(""), Err(ConfigError::UnsupportedApiVersion));
    assert!(config_from_toml(
        r#"
            endpoints = [""]
            api_version = "v5"
        "#,
    )
    .is_err());
}

#[test]
fn unknown_fields_are_refused() {
    assert!(config_from_toml(
        r#"
            endpoints = [""]
            flavour = "mild"
        "#,
    )
    .is_err());
    assert!(config_from_toml(r#"mode = "bulk""#).is_err());
}

#[test]
fn index_templates_are_read_from_text() {
    let config = config_from_toml(
        r#"
            endpoints = [""]
            bulk.index = "app-{{ service }}-v1"
        "#,
    )
    .unwrap();
    assert_eq!(
        config.bulk.index,
        Template {
            parts: vec![
                infino_sink::template::TemplatePart::Literal("app-".to_string()),
                infino_sink::template::TemplatePart::Field("service".to_string()),
                infino_sink::template::TemplatePart::Literal("-v1".to_string()),
            ]
        }
    );
}
