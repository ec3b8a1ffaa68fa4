//! The `Reading` value a device query produces, and the mathematical model
//! the wire-codec contracts are stated over.
//!
//! A reading carries either a plain numeric sample or a structured sample
//! (the active countdown, the schedule list). Numeric samples are held
//! exactly, as a signed count of thousandths of the channel's unit, so the
//! watt value reported for a milliwatt counter loses nothing.

use vstd::prelude::*;

use crate::rules::{CountdownStatus, DesiredState, ScheduleRule};

verus! {

/// A structured (non-numeric) sample.
pub enum StructuredData {
    /// The active countdown, or `None` when no rule is enabled
    Countdown { status: Option<CountdownStatus> },
    /// The device's schedule rules
    Schedules { rules: Vec<ScheduleRule> },
}

/// The payload of a reading.
pub enum ReadingBody {
    /// A numeric sample, in thousandths of the channel's unit
    Value { millis: i64 },
    /// A structured sample
    Data { data: StructuredData },
}

/// One sample: which device, which metric on it, and the sampled payload.
pub struct Reading {
    /// Name of the configured device the sample belongs to
    pub device: String,
    /// Metric or sub-resource on that device (`state`, `power`, ...)
    pub channel: String,
    /// The sampled payload
    pub body: ReadingBody,
}

/// Model of a schedule rule: its strings as character sequences.
pub ghost struct ScheduleRuleModel {
    pub id: Seq<char>,
    pub enable: bool,
    pub week_day: u8,
    pub s_min: u16,
    pub e_min: u16,
    pub mode: Option<Seq<char>>,
    pub day: Option<u8>,
    pub month: Option<u8>,
    pub year: Option<u16>,
    pub desired_states: Option<Option<bool>>,
}

impl View for ScheduleRule {
    type V = ScheduleRuleModel;

    open spec fn view(&self) -> ScheduleRuleModel {
        ScheduleRuleModel {
            id: self.id@,
            enable: self.enable,
            week_day: self.week_day,
            s_min: self.s_min,
            e_min: self.e_min,
            mode: match self.mode {
                Some(m) => Some(m@),
                None => None,
            },
            day: self.day,
            month: self.month,
            year: self.year,
            desired_states: match self.desired_states {
                Some(ds) => Some(ds.on),
                None => None,
            },
        }
    }
}

/// Model of a reading's payload.
pub ghost enum BodyModel {
    Value { millis: i64 },
    Countdown { status: Option<CountdownStatus> },
    Schedules { rules: Seq<ScheduleRuleModel> },
}

impl View for ReadingBody {
    type V = BodyModel;

    open spec fn view(&self) -> BodyModel {
        match self {
            ReadingBody::Value { millis } => BodyModel::Value { millis: *millis },
            ReadingBody::Data { data: StructuredData::Countdown { status } } => BodyModel::Countdown {
                status: *status,
            },
            ReadingBody::Data { data: StructuredData::Schedules { rules } } => BodyModel::Schedules {
                rules: rules@.map_values(|r: ScheduleRule| r@),
            },
        }
    }
}

/// Model of a reading: device and channel as character sequences.
pub ghost struct ReadingModel {
    pub device: Seq<char>,
    pub channel: Seq<char>,
    pub body: BodyModel,
}

impl View for Reading {
    type V = ReadingModel;

    open spec fn view(&self) -> ReadingModel {
        ReadingModel { device: self.device@, channel: self.channel@, body: self.body@ }
    }
}

/// Model of a batch: the models of its readings, in order.
pub open spec fn batch_model(batch: Seq<Reading>) -> Seq<ReadingModel> {
    batch.map_values(|r: Reading| r@)
}

} // verus!
