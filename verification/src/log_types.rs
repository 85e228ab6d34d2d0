//! The vocabulary of the sensor logs that travel through the buffer as
//! opaque text: severity levels, devices and measurements.

use vstd::prelude::*;

verus! {

/// The severity of a sensor log.
#[derive(Clone, Copy, Debug, PartialEq, Eq, Structural)]
#[allow(non_camel_case_types)]
pub enum Level {
    INFO,
    WARN,
    CRITICAL,
}

impl Level {
    /// The level as it is written in a log line.
    pub open spec fn text(self) -> Seq<char> {
        match self {
            Level::INFO => "INFO"@,
            Level::WARN => "WARN"@,
            Level::CRITICAL => "CRITICAL"@,
        }
    }

    /// The level as it is written in a log line.
    pub fn to_text(&self) -> (s: String)
        ensures
            s@ == self.text(),
    {
        match self {
            Level::INFO => "INFO".to_owned(),
            Level::WARN => "WARN".to_owned(),
            Level::CRITICAL => "CRITICAL".to_owned(),
        }
    }
}

/// The device that a sensor log comes from.
#[derive(Clone, Copy, Debug, PartialEq, Eq, Structural)]
pub enum Device {
    Arduino0,
    Arduino1,
    Arduino2,
}

impl Device {
    /// The device as it is written in a log line.
    pub open spec fn text(self) -> Seq<char> {
        match self {
            Device::Arduino0 => "arduino0"@,
            Device::Arduino1 => "arduino1"@,
            Device::Arduino2 => "arduino2"@,
        }
    }

    /// The device as it is written in a log line.
    pub fn to_text(&self) -> (s: String)
        ensures
            s@ == self.text(),
    {
        match self {
            Device::Arduino0 => "arduino0".to_owned(),
            Device::Arduino1 => "arduino1".to_owned(),
            Device::Arduino2 => "arduino2".to_owned(),
        }
    }
}

/// A quantity that a device measures.
#[derive(Clone, Copy, Debug, PartialEq, Eq, Structural)]
pub enum Measurement {
    Temperature,
    Humidity,
}

impl Measurement {
    /// The measurement as it is written in a log line.
    pub open spec fn text(self) -> Seq<char> {
        match self {
            Measurement::Temperature => "temperature"@,
            Measurement::Humidity => "humidity"@,
        }
    }

    /// The measurement as it is written in a log line.
    pub fn to_text(&self) -> (s: String)
        ensures
            s@ == self.text(),
    {
        match self {
            Measurement::Temperature => "temperature".to_owned(),
            Measurement::Humidity => "humidity".to_owned(),
        }
    }
}

/// The message part of a sensor log.
#[derive(Clone, Debug)]
pub struct Message {
    pub device: Device,
    pub msg: String,
    /// Whether the temperature and the humidity, in this order, were above
    /// their thresholds.
    pub exceeded_values: [bool; 2],
}

/// The severity of a log entry as the query interface reports it.
#[derive(Clone, Copy, Debug, PartialEq, Eq, Structural)]
pub enum LogLevel {
    Critical,
    Warn,
    Info,
}

/// A full-text search over stored logs.
#[derive(Clone, Debug)]
pub struct SearchQuery {
    pub query: String,
    pub limit: Option<usize>,
    pub offset: Option<usize>,
}

} // verus!
