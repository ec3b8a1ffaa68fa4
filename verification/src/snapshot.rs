//! One poll of one plug device, as plain values, and its readings.
//!
//! The cloud client performs the per-device queries; what each query
//! returned — or that it failed — lands in a `PlugSnapshot` of plain
//! values. Turning a snapshot into the device's readings is pure and
//! verified: each present part contributes its channels in a fixed order,
//! an absent part contributes nothing, and every numeric value is carried
//! exactly, in thousandths of its unit.

use vstd::prelude::*;

use vstd::string::StringExecFns;

use crate::reading::BodyModel;
use crate::reading::Reading;
use crate::reading::ReadingBody;
use crate::reading::ReadingModel;
use crate::reading::ScheduleRuleModel;
use crate::reading::StructuredData;
use crate::rules::CountdownStatus;
use crate::rules::ScheduleRule;

verus! {

/// Basic device info a plug reports.
pub struct PlugInfo {
    /// Whether the relay is on
    pub device_on: bool,
    /// Seconds the device has been on since the last state change
    pub on_time: u32,
    /// WiFi signal level (zero to three)
    pub signal_level: u8,
    /// WiFi RSSI in dBm (negative)
    pub rssi: i16,
}

/// Energy counters an energy-monitoring plug reports.
pub struct EnergyUsage {
    /// Today's energy in watt-hours
    pub today_energy_wh: u32,
    /// Today's runtime in minutes
    pub today_runtime_min: u32,
    /// This month's energy in watt-hours
    pub month_energy_wh: u32,
    /// This month's runtime in minutes
    pub month_runtime_min: u32,
}

/// Everything one poll of one device produced; a `None` part is a query
/// that failed or was not made, and contributes no readings.
pub struct PlugSnapshot {
    /// Basic device info
    pub info: Option<PlugInfo>,
    /// Current power draw in milliwatts (energy-monitoring plugs)
    pub current_power_mw: Option<u32>,
    /// Energy counters (energy-monitoring plugs)
    pub energy: Option<EnergyUsage>,
    /// The countdown query's result: the active countdown, if any rule is
    /// enabled
    pub countdown: Option<Option<CountdownStatus>>,
    /// The schedule query's result
    pub schedules: Option<Vec<ScheduleRule>>,
}

/// Model of a snapshot.
pub ghost struct PlugSnapshotModel {
    pub info: Option<PlugInfo>,
    pub current_power_mw: Option<u32>,
    pub energy: Option<EnergyUsage>,
    pub countdown: Option<Option<CountdownStatus>>,
    pub schedules: Option<Seq<ScheduleRuleModel>>,
}

impl View for PlugSnapshot {
    type V = PlugSnapshotModel;

    open spec fn view(&self) -> PlugSnapshotModel {
        PlugSnapshotModel {
            info: self.info,
            current_power_mw: self.current_power_mw,
            energy: self.energy,
            countdown: self.countdown,
            schedules: match self.schedules {
                Some(rules) => Some(rules@.map_values(|r: ScheduleRule| r@)),
                None => None,
            },
        }
    }
}

/// A numeric reading of `device` on `channel`, in thousandths.
pub open spec fn rm_val(device: Seq<char>, channel: Seq<char>, millis: i64) -> ReadingModel {
    ReadingModel { device, channel, body: BodyModel::Value { millis } }
}

/// The readings the info part contributes: state, on time, signal level,
/// RSSI.
pub open spec fn spec_info_readings(device: Seq<char>, info: PlugInfo) -> Seq<ReadingModel> {
    seq![
        rm_val(device, "state"@, if info.device_on { 1000i64 } else { 0i64 }),
        rm_val(device, "on_time"@, (info.on_time * 1000) as i64),
        rm_val(device, "signal_level"@, (info.signal_level * 1000) as i64),
        rm_val(device, "rssi"@, (info.rssi * 1000) as i64),
    ]
}

/// The readings the energy part contributes: today's and this month's
/// energy and runtime.
pub open spec fn spec_energy_readings(device: Seq<char>, e: EnergyUsage) -> Seq<ReadingModel> {
    seq![
        rm_val(device, "energy_today"@, (e.today_energy_wh * 1000) as i64),
        rm_val(device, "runtime_today"@, (e.today_runtime_min * 1000) as i64),
        rm_val(device, "energy_month"@, (e.month_energy_wh * 1000) as i64),
        rm_val(device, "runtime_month"@, (e.month_runtime_min * 1000) as i64),
    ]
}

/// The readings one snapshot of `device` yields, in the fixed channel
/// order: info, power (milliwatts carried as thousandths of a watt),
/// energy counters, countdown, schedules. Absent parts yield nothing.
pub open spec fn spec_plug_readings(device: Seq<char>, s: PlugSnapshotModel) -> Seq<ReadingModel> {
    (match s.info {
        Some(info) => spec_info_readings(device, info),
        None => Seq::empty(),
    }) + (match s.current_power_mw {
        Some(mw) => seq![rm_val(device, "power"@, mw as i64)],
        None => Seq::empty(),
    }) + (match s.energy {
        Some(e) => spec_energy_readings(device, e),
        None => Seq::empty(),
    }) + (match s.countdown {
        Some(status) => seq![
            ReadingModel {
                device,
                channel: "countdown"@,
                body: BodyModel::Countdown { status },
            },
        ],
        None => Seq::empty(),
    }) + (match s.schedules {
        Some(rules) => seq![
            ReadingModel { device, channel: "schedules"@, body: BodyModel::Schedules { rules } },
        ],
        None => Seq::empty(),
    })
}

/// Builds one numeric reading.
fn mk_val(device: &String, channel: &str, millis: i64) -> (r: Reading)
    ensures
        r@ == rm_val(device@, channel@, millis),
{
    Reading {
        device: device.clone(),
        channel: String::from_str(channel),
        body: ReadingBody::Value { millis },
    }
}

/// Turns one device's snapshot into its readings, exactly as
/// `spec_plug_readings` says: present parts in the fixed channel order,
/// absent parts absent, every value exact.
#[verifier::rlimit(100)]
pub fn plug_readings(device: &String, snap: PlugSnapshot) -> (r: Vec<Reading>)
    ensures
        r@.map_values(|x: Reading| x@) == spec_plug_readings(device@, snap@),
{
    let ghost sm = snap@;
    let mut out: Vec<Reading> = Vec::new();
    match &snap.info {
        Some(info) => {
            out.push(mk_val(device, "state", if info.device_on {
                1000
            } else {
                0
            }));
            out.push(mk_val(device, "on_time", info.on_time as i64 * 1000));
            out.push(mk_val(device, "signal_level", info.signal_level as i64 * 1000));
            out.push(mk_val(device, "rssi", info.rssi as i64 * 1000));
        },
        None => {},
    }
    let ghost part1 = (match sm.info {
        Some(info) => spec_info_readings(device@, info),
        None => Seq::<ReadingModel>::empty(),
    });
    proof {
        assert(out@.map_values(|x: Reading| x@) =~= part1);
    }
    match snap.current_power_mw {
        Some(mw) => {
            out.push(mk_val(device, "power", mw as i64));
        },
        None => {},
    }
    let ghost part2 = part1 + (match sm.current_power_mw {
        Some(mw) => seq![rm_val(device@, "power"@, mw as i64)],
        None => Seq::<ReadingModel>::empty(),
    });
    proof {
        assert(out@.map_values(|x: Reading| x@) =~= part2);
    }
    match &snap.energy {
        Some(e) => {
            out.push(mk_val(device, "energy_today", e.today_energy_wh as i64 * 1000));
            out.push(mk_val(device, "runtime_today", e.today_runtime_min as i64 * 1000));
            out.push(mk_val(device, "energy_month", e.month_energy_wh as i64 * 1000));
            out.push(mk_val(device, "runtime_month", e.month_runtime_min as i64 * 1000));
        },
        None => {},
    }
    let ghost part3 = part2 + (match sm.energy {
        Some(e) => spec_energy_readings(device@, e),
        None => Seq::<ReadingModel>::empty(),
    });
    proof {
        assert(out@.map_values(|x: Reading| x@) =~= part3);
    }
    match snap.countdown {
        Some(status) => {
            out.push(
                Reading {
                    device: device.clone(),
                    channel: String::from_str("countdown"),
                    body: ReadingBody::Data { data: StructuredData::Countdown { status } },
                },
            );
        },
        None => {},
    }
    let ghost part4 = part3 + (match sm.countdown {
        Some(status) => seq![
            ReadingModel {
                device: device@,
                channel: "countdown"@,
                body: BodyModel::Countdown { status },
            },
        ],
        None => Seq::<ReadingModel>::empty(),
    });
    proof {
        assert(out@.map_values(|x: Reading| x@) =~= part4);
    }
    match snap.schedules {
        Some(rules) => {
            out.push(
                Reading {
                    device: device.clone(),
                    channel: String::from_str("schedules"),
                    body: ReadingBody::Data { data: StructuredData::Schedules { rules } },
                },
            );
        },
        None => {},
    }
    proof {
        assert(out@.map_values(|x: Reading| x@) =~= spec_plug_readings(device@, sm));
    }
    out
}

} // verus!
