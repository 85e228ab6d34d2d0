use container_log_collector::clock::{timestamp_from_secs, unix_seconds};
use container_log_collector::log_types::{Device, Level, LogLevel, Measurement, Message, SearchQuery};
use container_log_collector::message::MessageStatus;
use container_log_collector::view_state::{IndexType, Mode, SortDirection, SortField, SortState};

#[test]
fn level_text() {
    assert_eq!(Level::INFO.to_text(), "INFO");
    assert_eq!(Level::WARN.to_text(), "WARN");
    assert_eq!(Level::CRITICAL.to_text(), "CRITICAL");
}

#[test]
fn device_text() {
    assert_eq!(Device::Arduino0.to_text(), "arduino0");
    assert_eq!(Device::Arduino1.to_text(), "arduino1");
    assert_eq!(Device::Arduino2.to_text(), "arduino2");
}

#[test]
fn measurement_text() {
    assert_eq!(Measurement::Temperature.to_text(), "temperature");
    assert_eq!(Measurement::Humidity.to_text(), "humidity");
}

#[test]
fn message_holds_its_parts() {
    let m = Message { device: Device::Arduino1, msg: "ok".to_string(), exceeded_values: [true, false] };
    assert_eq!(m.device, Device::Arduino1);
    assert_eq!(m.msg, "ok");
    assert_eq!(m.exceeded_values, [true, false]);
}

#[test]
fn search_query_holds_its_parts() {
    let q = SearchQuery { query: "error".to_string(), limit: Some(10), offset: None };
    assert_eq!(q.query, "error");
    assert_eq!(q.limit, Some(10));
    assert_eq!(q.offset, None);
    assert_ne!(LogLevel::Critical, LogLevel::Info);
    assert_ne!(LogLevel::Warn, LogLevel::Info);
}

#[test]
fn index_display_names() {
    assert_eq!(IndexType::Logs.display_name(), "Sensor Logs");
    assert_eq!(IndexType::ContainerLogs.display_name(), "Container Logs");
}

#[test]
fn default_sort_is_newest_first() {
    let state = SortState::default();
    assert_eq!(state.field, SortField::Timestamp);
    assert_eq!(state.direction, SortDirection::Descending);
    assert_ne!(SortDirection::Ascending, SortDirection::Descending);
    assert_ne!(Mode::Normal, Mode::Search);
}

#[test]
fn clock_is_after_2020() {
    let now = unix_seconds().unwrap();
    assert!(now > 1_577_836_800);
}

#[test]
fn status_names_round_trip() {
    assert_eq!(MessageStatus::Pending.as_str(), "pending");
    assert_eq!(MessageStatus::Processing.as_str(), "processing");
    assert_eq!(MessageStatus::Failed.as_str(), "failed");
    assert_eq!(MessageStatus::parse("pending"), Some(MessageStatus::Pending));
    assert_eq!(MessageStatus::parse("processing"), Some(MessageStatus::Processing));
    assert_eq!(MessageStatus::parse("failed"), Some(MessageStatus::Failed));
    assert_eq!(MessageStatus::parse("Pending"), None);
    assert_eq!(MessageStatus::parse("sent"), None);
    assert_eq!(MessageStatus::parse(""), None);
}

#[test]
fn timestamps_fit_an_i64() {
    assert_eq!(timestamp_from_secs(0), Some(0));
    assert_eq!(timestamp_from_secs(1_700_000_000), Some(1_700_000_000));
    assert_eq!(timestamp_from_secs(i64::MAX as u64), Some(i64::MAX));
    assert_eq!(timestamp_from_secs(i64::MAX as u64 + 1), None);
    assert_eq!(timestamp_from_secs(u64::MAX), None);
}
