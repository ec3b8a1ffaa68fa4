//! The wire envelopes: the auth message and the data message.
//!
//! A message is JSON text in UTF-8 bytes, built from the codec's
//! primitives around fixed segments. The encoding is canonical — fixed
//! field order, no whitespace — and the data-message parser reads exactly
//! that canonical form back; the round-trip law says that parsing inverts
//! encoding for every batch.

use vstd::prelude::*;

use crate::codec::is_digit;
use crate::codec::lemma_digits_all_digits;
use crate::codec::lemma_parse_millis_encode;
use crate::codec::lemma_parse_u64_encode;
use crate::codec::lemma_scan_escaped;
use crate::codec::lemma_scan_string_len;
use crate::codec::parse_millis;
use crate::codec::parse_u64;
use crate::codec::push_json_string;
use crate::codec::push_millis;
use crate::codec::push_u64;
use crate::codec::scan_string;
use crate::codec::string_from_utf8;
use crate::codec::spec_digits;
use crate::codec::spec_escaped;
use crate::codec::spec_json_string;
use crate::codec::spec_millis;
use crate::codec::spec_parse_millis;
use crate::codec::spec_parse_u64;
use crate::codec::spec_scan_string;
use crate::codec::QUOTE;
use crate::reading::BodyModel;
use crate::reading::Reading;
use crate::reading::ReadingBody;
use crate::reading::ReadingModel;
use crate::reading::ScheduleRuleModel;
use crate::reading::StructuredData;
use crate::rules::CountdownStatus;
use crate::rules::DesiredState;
use crate::rules::ScheduleRule;
use vstd::utf8::decode_utf8;
use vstd::utf8::encode_utf8;
use vstd::utf8::encode_utf8_decode_utf8;
use vstd::utf8::encode_utf8_valid_utf8;
use vstd::utf8::valid_utf8;
use vstd::seq_lib::lemma_concat_associative;

verus! {

/// `{"type":"auth","apiKey":`
pub open spec fn seg_auth() -> Seq<u8> {
    seq![
        0x7bu8, 0x22u8, 0x74u8, 0x79u8, 0x70u8, 0x65u8, 0x22u8, 0x3au8, 0x22u8, 0x61u8, 0x75u8, 0x74u8, 0x68u8, 0x22u8, 0x2cu8,
        0x22u8, 0x61u8, 0x70u8, 0x69u8, 0x4bu8, 0x65u8, 0x79u8, 0x22u8, 0x3au8,
    ]
}

/// `{"type":"data","readings":[`
pub open spec fn seg_data() -> Seq<u8> {
    seq![
        0x7bu8, 0x22u8, 0x74u8, 0x79u8, 0x70u8, 0x65u8, 0x22u8, 0x3au8, 0x22u8, 0x64u8, 0x61u8, 0x74u8, 0x61u8, 0x22u8, 0x2cu8,
        0x22u8, 0x72u8, 0x65u8, 0x61u8, 0x64u8, 0x69u8, 0x6eu8, 0x67u8, 0x73u8, 0x22u8, 0x3au8, 0x5bu8,
    ]
}

/// `{"device":`
pub open spec fn seg_device() -> Seq<u8> {
    seq![0x7bu8, 0x22u8, 0x64u8, 0x65u8, 0x76u8, 0x69u8, 0x63u8, 0x65u8, 0x22u8, 0x3au8]
}

/// `,"channel":`
pub open spec fn seg_channel() -> Seq<u8> {
    seq![0x2cu8, 0x22u8, 0x63u8, 0x68u8, 0x61u8, 0x6eu8, 0x6eu8, 0x65u8, 0x6cu8, 0x22u8, 0x3au8]
}

/// `,"value":`
pub open spec fn seg_value() -> Seq<u8> {
    seq![0x2cu8, 0x22u8, 0x76u8, 0x61u8, 0x6cu8, 0x75u8, 0x65u8, 0x22u8, 0x3au8]
}

/// `,"data":`
pub open spec fn seg_dataf() -> Seq<u8> {
    seq![0x2cu8, 0x22u8, 0x64u8, 0x61u8, 0x74u8, 0x61u8, 0x22u8, 0x3au8]
}

/// `{"remain":`
pub open spec fn seg_remain() -> Seq<u8> {
    seq![0x7bu8, 0x22u8, 0x72u8, 0x65u8, 0x6du8, 0x61u8, 0x69u8, 0x6eu8, 0x22u8, 0x3au8]
}

/// `,"action":`
pub open spec fn seg_action() -> Seq<u8> {
    seq![0x2cu8, 0x22u8, 0x61u8, 0x63u8, 0x74u8, 0x69u8, 0x6fu8, 0x6eu8, 0x22u8, 0x3au8]
}

/// `{"id":`
pub open spec fn seg_id() -> Seq<u8> {
    seq![0x7bu8, 0x22u8, 0x69u8, 0x64u8, 0x22u8, 0x3au8]
}

/// `,"enable":`
pub open spec fn seg_enable() -> Seq<u8> {
    seq![0x2cu8, 0x22u8, 0x65u8, 0x6eu8, 0x61u8, 0x62u8, 0x6cu8, 0x65u8, 0x22u8, 0x3au8]
}

/// `,"week_day":`
pub open spec fn seg_week_day() -> Seq<u8> {
    seq![0x2cu8, 0x22u8, 0x77u8, 0x65u8, 0x65u8, 0x6bu8, 0x5fu8, 0x64u8, 0x61u8, 0x79u8, 0x22u8, 0x3au8]
}

/// `,"s_min":`
pub open spec fn seg_s_min() -> Seq<u8> {
    seq![0x2cu8, 0x22u8, 0x73u8, 0x5fu8, 0x6du8, 0x69u8, 0x6eu8, 0x22u8, 0x3au8]
}

/// `,"e_min":`
pub open spec fn seg_e_min() -> Seq<u8> {
    seq![0x2cu8, 0x22u8, 0x65u8, 0x5fu8, 0x6du8, 0x69u8, 0x6eu8, 0x22u8, 0x3au8]
}

/// `,"mode":`
pub open spec fn seg_mode() -> Seq<u8> {
    seq![0x2cu8, 0x22u8, 0x6du8, 0x6fu8, 0x64u8, 0x65u8, 0x22u8, 0x3au8]
}

/// `,"day":`
pub open spec fn seg_day() -> Seq<u8> {
    seq![0x2cu8, 0x22u8, 0x64u8, 0x61u8, 0x79u8, 0x22u8, 0x3au8]
}

/// `,"month":`
pub open spec fn seg_month() -> Seq<u8> {
    seq![0x2cu8, 0x22u8, 0x6du8, 0x6fu8, 0x6eu8, 0x74u8, 0x68u8, 0x22u8, 0x3au8]
}

/// `,"year":`
pub open spec fn seg_year() -> Seq<u8> {
    seq![0x2cu8, 0x22u8, 0x79u8, 0x65u8, 0x61u8, 0x72u8, 0x22u8, 0x3au8]
}

/// `,"desired_states":`
pub open spec fn seg_desired() -> Seq<u8> {
    seq![
        0x2cu8, 0x22u8, 0x64u8, 0x65u8, 0x73u8, 0x69u8, 0x72u8, 0x65u8, 0x64u8, 0x5fu8, 0x73u8, 0x74u8, 0x61u8, 0x74u8, 0x65u8,
        0x73u8, 0x22u8, 0x3au8,
    ]
}

/// `{"on":`
pub open spec fn seg_on_key() -> Seq<u8> {
    seq![0x7bu8, 0x22u8, 0x6fu8, 0x6eu8, 0x22u8, 0x3au8]
}

/// `null`
pub open spec fn lit_null() -> Seq<u8> {
    seq![0x6eu8, 0x75u8, 0x6cu8, 0x6cu8]
}

/// `true`
pub open spec fn lit_true() -> Seq<u8> {
    seq![0x74u8, 0x72u8, 0x75u8, 0x65u8]
}

/// `false`
pub open spec fn lit_false() -> Seq<u8> {
    seq![0x66u8, 0x61u8, 0x6cu8, 0x73u8, 0x65u8]
}

/// `"on"`
pub open spec fn lit_on() -> Seq<u8> {
    seq![0x22u8, 0x6fu8, 0x6eu8, 0x22u8]
}

/// `"off"`
pub open spec fn lit_off() -> Seq<u8> {
    seq![0x22u8, 0x6fu8, 0x66u8, 0x66u8, 0x22u8]
}

/// A JSON boolean or null.
pub open spec fn spec_opt_bool(b: Option<bool>) -> Seq<u8> {
    match b {
        Some(true) => lit_true(),
        Some(false) => lit_false(),
        None => lit_null(),
    }
}

/// The countdown action: `"on"`, `"off"`, or null when unspecified.
pub open spec fn spec_action_of(b: Option<bool>) -> Seq<u8> {
    match b {
        Some(true) => lit_on(),
        Some(false) => lit_off(),
        None => lit_null(),
    }
}

/// The countdown sample: null with no active rule, else the remaining
/// seconds and the action.
pub open spec fn spec_countdown(st: Option<CountdownStatus>) -> Seq<u8> {
    match st {
        None => lit_null(),
        Some(c) => seg_remain() + spec_digits(c.remain as nat) + seg_action() + spec_action_of(
            c.turn_on,
        ) + seq![0x7du8],
    }
}

/// An optional numeral: the digits, or null.
pub open spec fn spec_opt_num(v: Option<nat>) -> Seq<u8> {
    match v {
        Some(x) => spec_digits(x),
        None => lit_null(),
    }
}

/// An optional string: quoted and escaped, or null.
pub open spec fn spec_opt_string(s: Option<Seq<char>>) -> Seq<u8> {
    match s {
        Some(x) => spec_json_string(x),
        None => lit_null(),
    }
}

/// A schedule rule's desired state: null, or an object with `on`.
pub open spec fn spec_desired(d: Option<Option<bool>>) -> Seq<u8> {
    match d {
        None => lit_null(),
        Some(b) => seg_on_key() + spec_opt_bool(b) + seq![0x7du8],
    }
}

/// One schedule rule as a JSON object, fields in fixed order.
pub open spec fn spec_schedule_rule(r: ScheduleRuleModel) -> Seq<u8> {
    seg_id() + spec_json_string(r.id) + seg_enable() + spec_opt_bool(Some(r.enable))
        + seg_week_day() + spec_digits(r.week_day as nat) + seg_s_min() + spec_digits(
        r.s_min as nat,
    ) + seg_e_min() + spec_digits(r.e_min as nat) + seg_mode() + spec_opt_string(r.mode)
        + seg_day() + spec_opt_num(match r.day {
        Some(x) => Some(x as nat),
        None => None,
    }) + seg_month() + spec_opt_num(match r.month {
        Some(x) => Some(x as nat),
        None => None,
    }) + seg_year() + spec_opt_num(match r.year {
        Some(x) => Some(x as nat),
        None => None,
    }) + seg_desired() + spec_desired(r.desired_states) + seq![0x7du8]
}

/// The tail of a rule list: a comma and a rule for each further element.
pub open spec fn spec_rules_join_rest(rs: Seq<ScheduleRuleModel>) -> Seq<u8>
    decreases rs.len(),
{
    if rs.len() == 0 {
        Seq::empty()
    } else {
        seq![0x2cu8] + spec_schedule_rule(rs[0]) + spec_rules_join_rest(rs.drop_first())
    }
}

/// A rule list joined with commas, without the brackets.
pub open spec fn spec_rules_join(rs: Seq<ScheduleRuleModel>) -> Seq<u8> {
    if rs.len() == 0 {
        Seq::empty()
    } else {
        spec_schedule_rule(rs[0]) + spec_rules_join_rest(rs.drop_first())
    }
}

/// The schedule list as a JSON array.
pub open spec fn spec_schedules(rs: Seq<ScheduleRuleModel>) -> Seq<u8> {
    seq![0x5bu8] + spec_rules_join(rs) + seq![0x5du8]
}

/// A reading's payload with its field key: a numeric sample under
/// `value`, a structured one under `data`.
pub open spec fn spec_body(b: BodyModel) -> Seq<u8> {
    match b {
        BodyModel::Value { millis } => seg_value() + spec_millis(millis),
        BodyModel::Countdown { status } => seg_dataf() + spec_countdown(status),
        BodyModel::Schedules { rules } => seg_dataf() + spec_schedules(rules),
    }
}

/// One reading as a JSON object: device, channel, payload.
pub open spec fn spec_reading(r: ReadingModel) -> Seq<u8> {
    seg_device() + spec_json_string(r.device) + seg_channel() + spec_json_string(r.channel)
        + spec_body(r.body) + seq![0x7du8]
}

/// The tail of a batch: a comma and a reading for each further element.
pub open spec fn spec_readings_join_rest(ms: Seq<ReadingModel>) -> Seq<u8>
    decreases ms.len(),
{
    if ms.len() == 0 {
        Seq::empty()
    } else {
        seq![0x2cu8] + spec_reading(ms[0]) + spec_readings_join_rest(ms.drop_first())
    }
}

/// A batch joined with commas, without the brackets.
pub open spec fn spec_readings_join(ms: Seq<ReadingModel>) -> Seq<u8> {
    if ms.len() == 0 {
        Seq::empty()
    } else {
        spec_reading(ms[0]) + spec_readings_join_rest(ms.drop_first())
    }
}

/// The whole data message: `{"type":"data","readings":[...]}`.
pub open spec fn spec_data_message(ms: Seq<ReadingModel>) -> Seq<u8> {
    seg_data() + spec_readings_join(ms) + seq![0x5du8, 0x7du8]
}

/// The whole auth message: `{"type":"auth","apiKey":"..."}`.
pub open spec fn spec_auth_message(key: Seq<char>) -> Seq<u8> {
    seg_auth() + spec_json_string(key) + seq![0x7du8]
}

/// Appends a fixed segment.
fn push_all(out: &mut Vec<u8>, seg: Vec<u8>)
    ensures
        final(out)@ == old(out)@ + seg@,
{
    let mut seg = seg;
    out.append(&mut seg);
}

/// Appends a JSON boolean or null, as `spec_opt_bool` says.
fn push_opt_bool(out: &mut Vec<u8>, b: Option<bool>)
    ensures
        final(out)@ == old(out)@ + spec_opt_bool(b),
{
    let ghost start = out@;
    match b {
        Some(true) => push_all(out, vec![0x74u8, 0x72u8, 0x75u8, 0x65u8]),
        Some(false) => push_all(out, vec![0x66u8, 0x61u8, 0x6cu8, 0x73u8, 0x65u8]),
        None => push_all(out, vec![0x6eu8, 0x75u8, 0x6cu8, 0x6cu8]),
    }
    proof {
        assert(out@ =~= start + spec_opt_bool(b));
    }
}

/// Appends null.
fn push_null(out: &mut Vec<u8>)
    ensures
        final(out)@ == old(out)@ + lit_null(),
{
    let ghost start = out@;
    push_all(out, vec![0x6eu8, 0x75u8, 0x6cu8, 0x6cu8]);
    proof {
        assert(out@ =~= start + lit_null());
    }
}

/// Appends the countdown sample, as `spec_countdown` says.
fn push_countdown(out: &mut Vec<u8>, st: &Option<CountdownStatus>)
    ensures
        final(out)@ == old(out)@ + spec_countdown(*st),
{
    let ghost start = out@;
    match st {
        None => push_null(out),
        Some(c) => {
            push_all(
                out,
                vec![0x7bu8, 0x22u8, 0x72u8, 0x65u8, 0x6du8, 0x61u8, 0x69u8, 0x6eu8, 0x22u8, 0x3au8],
            );
            proof {
                assert(out@ == start + seg_remain());
            }
            let ghost acc = seg_remain();
            push_u64(out, c.remain);
            proof {
                lemma_concat_associative(start, acc, spec_digits(c.remain as nat));
                acc = acc + spec_digits(c.remain as nat);
                assert(out@ == start + acc);
            }
            push_all(
                out,
                vec![0x2cu8, 0x22u8, 0x61u8, 0x63u8, 0x74u8, 0x69u8, 0x6fu8, 0x6eu8, 0x22u8, 0x3au8],
            );
            proof {
                lemma_concat_associative(start, acc, seg_action());
                acc = acc + seg_action();
                assert(out@ == start + acc);
            }
            match c.turn_on {
                Some(true) => push_all(out, vec![0x22u8, 0x6fu8, 0x6eu8, 0x22u8]),
                Some(false) => push_all(out, vec![0x22u8, 0x6fu8, 0x66u8, 0x66u8, 0x22u8]),
                None => push_all(out, vec![0x6eu8, 0x75u8, 0x6cu8, 0x6cu8]),
            }
            proof {
                lemma_concat_associative(start, acc, spec_action_of(c.turn_on));
                assert(out@ == start + acc + spec_action_of(c.turn_on));
                acc = acc + spec_action_of(c.turn_on);
                assert(out@ == start + acc);
            }
            out.push(0x7d);
            proof {
                assert(out@ =~= (start + acc) + seq![0x7du8]);
                lemma_concat_associative(start, acc, seq![0x7du8]);
                acc = acc + seq![0x7du8];
                assert(out@ == start + acc);
                assert(acc == spec_countdown(*st));
            }
        },
    }
}

/// Appends an optional numeral, as `spec_opt_num` says.
fn push_opt_u64(out: &mut Vec<u8>, v: Option<u64>)
    ensures
        final(out)@ == old(out)@ + spec_opt_num(
            match v {
                Some(x) => Some(x as nat),
                None => None,
            },
        ),
{
    match v {
        Some(x) => push_u64(out, x),
        None => push_null(out),
    }
}

/// Appends a rule's desired state, as `spec_desired` says.
fn push_desired(out: &mut Vec<u8>, d: &Option<DesiredState>)
    ensures
        final(out)@ == old(out)@ + spec_desired(
            match d {
                Some(ds) => Some(ds.on),
                None => None,
            },
        ),
{
    let ghost start = out@;
    match d {
        None => push_null(out),
        Some(ds) => {
            push_all(out, vec![0x7bu8, 0x22u8, 0x6fu8, 0x6eu8, 0x22u8, 0x3au8]);
            proof {
                assert(out@ == start + seg_on_key());
            }
            push_opt_bool(out, ds.on);
            proof {
                lemma_concat_associative(start, seg_on_key(), spec_opt_bool(ds.on));
                assert(out@ == start + (seg_on_key() + spec_opt_bool(ds.on)));
            }
            out.push(0x7d);
            proof {
                assert(out@ =~= (start + (seg_on_key() + spec_opt_bool(ds.on))) + seq![0x7du8]);
                lemma_concat_associative(start, seg_on_key() + spec_opt_bool(ds.on), seq![0x7du8]);
                assert(out@ == start + spec_desired(Some(ds.on)));
            }
        },
    }
}

/// Appends one schedule rule, as `spec_schedule_rule` says.
fn push_schedule_rule(out: &mut Vec<u8>, r: &ScheduleRule)
    ensures
        final(out)@ == old(out)@ + spec_schedule_rule(r@),
{
    let ghost start = out@;
    push_all(out, vec![0x7bu8, 0x22u8, 0x69u8, 0x64u8, 0x22u8, 0x3au8]);
    proof {
        assert(out@ == start + seg_id());
    }
    let ghost acc = seg_id();
    push_json_string(out, &r.id);
    proof {
        lemma_concat_associative(start, acc, spec_json_string(r.id@));
        acc = acc + spec_json_string(r.id@);
        assert(out@ == start + acc);
    }
    push_all(
        out,
        vec![0x2cu8, 0x22u8, 0x65u8, 0x6eu8, 0x61u8, 0x62u8, 0x6cu8, 0x65u8, 0x22u8, 0x3au8],
    );
    proof {
        lemma_concat_associative(start, acc, seg_enable());
        acc = acc + seg_enable();
        assert(out@ == start + acc);
    }
    push_opt_bool(out, Some(r.enable));
    proof {
        lemma_concat_associative(start, acc, spec_opt_bool(Some(r.enable)));
        acc = acc + spec_opt_bool(Some(r.enable));
        assert(out@ == start + acc);
    }
    push_all(
        out,
        vec![
            0x2cu8, 0x22u8, 0x77u8, 0x65u8, 0x65u8, 0x6bu8, 0x5fu8, 0x64u8, 0x61u8, 0x79u8, 0x22u8,
            0x3au8,
        ],
    );
    proof {
        lemma_concat_associative(start, acc, seg_week_day());
        acc = acc + seg_week_day();
        assert(out@ == start + acc);
    }
    push_u64(out, r.week_day as u64);
    proof {
        lemma_concat_associative(start, acc, spec_digits(r.week_day as nat));
        acc = acc + spec_digits(r.week_day as nat);
        assert(out@ == start + acc);
    }
    push_all(
        out,
        vec![0x2cu8, 0x22u8, 0x73u8, 0x5fu8, 0x6du8, 0x69u8, 0x6eu8, 0x22u8, 0x3au8],
    );
    proof {
        lemma_concat_associative(start, acc, seg_s_min());
        acc = acc + seg_s_min();
        assert(out@ == start + acc);
    }
    push_u64(out, r.s_min as u64);
    proof {
        lemma_concat_associative(start, acc, spec_digits(r.s_min as nat));
        acc = acc + spec_digits(r.s_min as nat);
        assert(out@ == start + acc);
    }
    push_all(
        out,
        vec![0x2cu8, 0x22u8, 0x65u8, 0x5fu8, 0x6du8, 0x69u8, 0x6eu8, 0x22u8, 0x3au8],
    );
    proof {
        lemma_concat_associative(start, acc, seg_e_min());
        acc = acc + seg_e_min();
        assert(out@ == start + acc);
    }
    push_u64(out, r.e_min as u64);
    proof {
        lemma_concat_associative(start, acc, spec_digits(r.e_min as nat));
        acc = acc + spec_digits(r.e_min as nat);
        assert(out@ == start + acc);
    }
    push_all(
        out,
        vec![0x2cu8, 0x22u8, 0x6du8, 0x6fu8, 0x64u8, 0x65u8, 0x22u8, 0x3au8],
    );
    proof {
        lemma_concat_associative(start, acc, seg_mode());
        acc = acc + seg_mode();
        assert(out@ == start + acc);
    }
    match &r.mode {
        Some(m) => push_json_string(out, m),
        None => push_null(out),
    }
    proof {
        lemma_concat_associative(start, acc, spec_opt_string(r@.mode));
        assert(out@ == start + acc + spec_opt_string(r@.mode));
        acc = acc + spec_opt_string(r@.mode);
        assert(out@ == start + acc);
    }
    push_all(out, vec![0x2cu8, 0x22u8, 0x64u8, 0x61u8, 0x79u8, 0x22u8, 0x3au8]);
    proof {
        lemma_concat_associative(start, acc, seg_day());
        acc = acc + seg_day();
        assert(out@ == start + acc);
    }
    push_opt_u64(
        out,
        match r.day {
            Some(x) => Some(x as u64),
            None => None,
        },
    );
    proof {
        let ghost dn = spec_opt_num(match r@.day {
            Some(x) => Some(x as nat),
            None => None,
        });
        lemma_concat_associative(start, acc, dn);
        assert(out@ == start + acc + dn);
        acc = acc + dn;
        assert(out@ == start + acc);
    }
    push_all(
        out,
        vec![0x2cu8, 0x22u8, 0x6du8, 0x6fu8, 0x6eu8, 0x74u8, 0x68u8, 0x22u8, 0x3au8],
    );
    proof {
        lemma_concat_associative(start, acc, seg_month());
        acc = acc + seg_month();
        assert(out@ == start + acc);
    }
    push_opt_u64(
        out,
        match r.month {
            Some(x) => Some(x as u64),
            None => None,
        },
    );
    proof {
        let ghost mn = spec_opt_num(match r@.month {
            Some(x) => Some(x as nat),
            None => None,
        });
        lemma_concat_associative(start, acc, mn);
        assert(out@ == start + acc + mn);
        acc = acc + mn;
        assert(out@ == start + acc);
    }
    push_all(
        out,
        vec![0x2cu8, 0x22u8, 0x79u8, 0x65u8, 0x61u8, 0x72u8, 0x22u8, 0x3au8],
    );
    proof {
        lemma_concat_associative(start, acc, seg_year());
        acc = acc + seg_year();
        assert(out@ == start + acc);
    }
    push_opt_u64(
        out,
        match r.year {
            Some(x) => Some(x as u64),
            None => None,
        },
    );
    proof {
        let ghost yn = spec_opt_num(match r@.year {
            Some(x) => Some(x as nat),
            None => None,
        });
        lemma_concat_associative(start, acc, yn);
        assert(out@ == start + acc + yn);
        acc = acc + yn;
        assert(out@ == start + acc);
    }
    push_all(
        out,
        vec![
            0x2cu8, 0x22u8, 0x64u8, 0x65u8, 0x73u8, 0x69u8, 0x72u8, 0x65u8, 0x64u8, 0x5fu8, 0x73u8,
            0x74u8, 0x61u8, 0x74u8, 0x65u8, 0x73u8, 0x22u8, 0x3au8,
        ],
    );
    proof {
        lemma_concat_associative(start, acc, seg_desired());
        acc = acc + seg_desired();
        assert(out@ == start + acc);
    }
    push_desired(out, &r.desired_states);
    proof {
        lemma_concat_associative(start, acc, spec_desired(r@.desired_states));
        assert(out@ == start + acc + spec_desired(r@.desired_states));
        acc = acc + spec_desired(r@.desired_states);
        assert(out@ == start + acc);
    }
    out.push(0x7d);
    proof {
        assert(out@ =~= (start + acc) + seq![0x7du8]);
        lemma_concat_associative(start, acc, seq![0x7du8]);
        acc = acc + seq![0x7du8];
        assert(out@ == start + acc);
        assert(acc == spec_schedule_rule(r@));
    }
}

/// How a rule list tail grows by one more rule.
proof fn lemma_rules_join_rest_snoc(rs: Seq<ScheduleRuleModel>, r: ScheduleRuleModel)
    ensures
        spec_rules_join_rest(rs.push(r)) == spec_rules_join_rest(rs) + seq![0x2cu8]
            + spec_schedule_rule(r),
    decreases rs.len(),
{
    let comma = seq![0x2cu8];
    if rs.len() == 0 {
        assert(rs.push(r)[0] == r);
        assert(rs.push(r).drop_first() =~= Seq::<ScheduleRuleModel>::empty());
        assert(spec_rules_join_rest(rs.push(r)) == comma + spec_schedule_rule(r)
            + spec_rules_join_rest(Seq::<ScheduleRuleModel>::empty()));
        assert(comma + spec_schedule_rule(r) + Seq::<u8>::empty() =~= comma + spec_schedule_rule(
            r,
        ));
        assert(spec_rules_join_rest(rs) == Seq::<u8>::empty());
        assert(Seq::<u8>::empty() + comma =~= comma);
    } else {
        let tail = rs.drop_first();
        lemma_rules_join_rest_snoc(tail, r);
        assert(rs.push(r)[0] == rs[0]);
        assert(rs.push(r).drop_first() =~= tail.push(r));
        let p = comma + spec_schedule_rule(rs[0]);
        let q = spec_rules_join_rest(tail);
        let d = spec_schedule_rule(r);
        assert(spec_rules_join_rest(rs.push(r)) == p + (q + comma + d));
        lemma_concat_associative(q, comma, d);
        lemma_concat_associative(p, q + comma, d);
        lemma_concat_associative(p, q, comma);
        assert(spec_rules_join_rest(rs.push(r)) == ((p + q) + comma) + d);
    }
}

/// How a rule list prefix grows by one more rule.
proof fn lemma_rules_join_snoc(rs: Seq<ScheduleRuleModel>, r: ScheduleRuleModel)
    ensures
        rs.len() == 0 ==> spec_rules_join(rs.push(r)) == spec_schedule_rule(r),
        rs.len() > 0 ==> spec_rules_join(rs.push(r)) == spec_rules_join(rs) + seq![0x2cu8]
            + spec_schedule_rule(r),
{
    let comma = seq![0x2cu8];
    if rs.len() == 0 {
        assert(rs.push(r)[0] == r);
        assert(rs.push(r).drop_first() =~= Seq::<ScheduleRuleModel>::empty());
        assert(spec_schedule_rule(r) + Seq::<u8>::empty() =~= spec_schedule_rule(r));
    } else {
        let tail = rs.drop_first();
        lemma_rules_join_rest_snoc(tail, r);
        assert(rs.push(r)[0] == rs[0]);
        assert(rs.push(r).drop_first() =~= tail.push(r));
        let p = spec_schedule_rule(rs[0]);
        let q = spec_rules_join_rest(tail);
        let d = spec_schedule_rule(r);
        assert(spec_rules_join(rs.push(r)) == p + (q + comma + d));
        lemma_concat_associative(q, comma, d);
        lemma_concat_associative(p, q + comma, d);
        lemma_concat_associative(p, q, comma);
        assert(spec_rules_join(rs.push(r)) == ((p + q) + comma) + d);
    }
}

/// Appends the schedule list, as `spec_schedules` says.
fn push_schedules(out: &mut Vec<u8>, rules: &Vec<ScheduleRule>)
    ensures
        final(out)@ == old(out)@ + spec_schedules(rules@.map_values(|r: ScheduleRule| r@)),
{
    let ghost start = out@;
    let ghost ms = rules@.map_values(|r: ScheduleRule| r@);
    out.push(0x5b);
    let ghost open_b = seq![0x5bu8];
    proof {
        assert(out@ =~= start + open_b);
    }
    let n = rules.len();
    proof {
        assert(ms.take(0) =~= Seq::<ScheduleRuleModel>::empty());
        assert(spec_rules_join(ms.take(0)) == Seq::<u8>::empty());
        assert((start + open_b) + spec_rules_join(ms.take(0)) =~= start + open_b);
    }
    for i in 0..n
        invariant
            n == rules@.len(),
            ms == rules@.map_values(|r: ScheduleRule| r@),
            out@ == (start + open_b) + spec_rules_join(ms.take(i as int)),
    {
        let ghost prefix = spec_rules_join(ms.take(i as int));
        if i > 0 {
            out.push(0x2c);
        }
        push_schedule_rule(out, &rules[i]);
        proof {
            assert(ms.take(i + 1) =~= ms.take(i as int).push(rules@[i as int]@));
            lemma_rules_join_snoc(ms.take(i as int), rules@[i as int]@);
            let base = start + open_b;
            if i == 0 {
                assert(out@ == (base + prefix) + spec_schedule_rule(rules@[i as int]@));
                assert(base + prefix =~= base);
                assert(out@ == base + spec_rules_join(ms.take(i + 1)));
            } else {
                assert(out@ =~= ((base + prefix) + seq![0x2cu8]) + spec_schedule_rule(
                    rules@[i as int]@,
                ));
                lemma_concat_associative(base, prefix, seq![0x2cu8]);
                lemma_concat_associative(base, prefix + seq![0x2cu8], spec_schedule_rule(
                    rules@[i as int]@,
                ));
                lemma_concat_associative(prefix, seq![0x2cu8], spec_schedule_rule(
                    rules@[i as int]@,
                ));
                assert(out@ == base + spec_rules_join(ms.take(i + 1)));
            }
        }
    }
    out.push(0x5d);
    proof {
        assert(ms.take(n as int) =~= ms);
        assert(out@ =~= ((start + open_b) + spec_rules_join(ms)) + seq![0x5du8]);
        lemma_concat_associative(start, open_b, spec_rules_join(ms));
        lemma_concat_associative(start, open_b + spec_rules_join(ms), seq![0x5du8]);
        lemma_concat_associative(open_b, spec_rules_join(ms), seq![0x5du8]);
        assert(out@ == start + spec_schedules(ms));
    }
}

/// Appends one reading, as `spec_reading` says.
fn push_reading(out: &mut Vec<u8>, r: &Reading)
    ensures
        final(out)@ == old(out)@ + spec_reading(r@),
{
    let ghost start = out@;
    push_all(
        out,
        vec![0x7bu8, 0x22u8, 0x64u8, 0x65u8, 0x76u8, 0x69u8, 0x63u8, 0x65u8, 0x22u8, 0x3au8],
    );
    proof {
        assert(out@ == start + seg_device());
    }
    let ghost acc = seg_device();
    push_json_string(out, &r.device);
    proof {
        lemma_concat_associative(start, acc, spec_json_string(r.device@));
        acc = acc + spec_json_string(r.device@);
        assert(out@ == start + acc);
    }
    push_all(
        out,
        vec![
            0x2cu8, 0x22u8, 0x63u8, 0x68u8, 0x61u8, 0x6eu8, 0x6eu8, 0x65u8, 0x6cu8, 0x22u8, 0x3au8,
        ],
    );
    proof {
        lemma_concat_associative(start, acc, seg_channel());
        acc = acc + seg_channel();
        assert(out@ == start + acc);
    }
    push_json_string(out, &r.channel);
    proof {
        lemma_concat_associative(start, acc, spec_json_string(r.channel@));
        acc = acc + spec_json_string(r.channel@);
        assert(out@ == start + acc);
    }
    match &r.body {
        ReadingBody::Value { millis } => {
            push_all(
                out,
                vec![0x2cu8, 0x22u8, 0x76u8, 0x61u8, 0x6cu8, 0x75u8, 0x65u8, 0x22u8, 0x3au8],
            );
            proof {
                lemma_concat_associative(start, acc, seg_value());
                assert(out@ == start + (acc + seg_value()));
            }
            push_millis(out, *millis);
            proof {
                lemma_concat_associative(start, acc + seg_value(), spec_millis(*millis));
                lemma_concat_associative(acc, seg_value(), spec_millis(*millis));
                acc = acc + spec_body(r@.body);
                assert(out@ == start + acc);
            }
        },
        ReadingBody::Data { data: StructuredData::Countdown { status } } => {
            push_all(
                out,
                vec![0x2cu8, 0x22u8, 0x64u8, 0x61u8, 0x74u8, 0x61u8, 0x22u8, 0x3au8],
            );
            proof {
                lemma_concat_associative(start, acc, seg_dataf());
                assert(out@ == start + (acc + seg_dataf()));
            }
            push_countdown(out, status);
            proof {
                lemma_concat_associative(start, acc + seg_dataf(), spec_countdown(*status));
                lemma_concat_associative(acc, seg_dataf(), spec_countdown(*status));
                acc = acc + spec_body(r@.body);
                assert(out@ == start + acc);
            }
        },
        ReadingBody::Data { data: StructuredData::Schedules { rules } } => {
            push_all(
                out,
                vec![0x2cu8, 0x22u8, 0x64u8, 0x61u8, 0x74u8, 0x61u8, 0x22u8, 0x3au8],
            );
            proof {
                lemma_concat_associative(start, acc, seg_dataf());
                assert(out@ == start + (acc + seg_dataf()));
            }
            push_schedules(out, rules);
            proof {
                let ghost sch = spec_schedules(rules@.map_values(|x: ScheduleRule| x@));
                lemma_concat_associative(start, acc + seg_dataf(), sch);
                lemma_concat_associative(acc, seg_dataf(), sch);
                acc = acc + spec_body(r@.body);
                assert(out@ == start + acc);
            }
        },
    }
    out.push(0x7d);
    proof {
        assert(out@ =~= (start + acc) + seq![0x7du8]);
        lemma_concat_associative(start, acc, seq![0x7du8]);
        acc = acc + seq![0x7du8];
        assert(out@ == start + acc);
        assert(acc == spec_reading(r@));
    }
}

/// How a batch tail grows by one more reading.
proof fn lemma_readings_join_rest_snoc(ms: Seq<ReadingModel>, m: ReadingModel)
    ensures
        spec_readings_join_rest(ms.push(m)) == spec_readings_join_rest(ms) + seq![0x2cu8]
            + spec_reading(m),
    decreases ms.len(),
{
    let comma = seq![0x2cu8];
    if ms.len() == 0 {
        assert(ms.push(m)[0] == m);
        assert(ms.push(m).drop_first() =~= Seq::<ReadingModel>::empty());
        assert(spec_readings_join_rest(ms.push(m)) == comma + spec_reading(m)
            + spec_readings_join_rest(Seq::<ReadingModel>::empty()));
        assert(comma + spec_reading(m) + Seq::<u8>::empty() =~= comma + spec_reading(m));
        assert(spec_readings_join_rest(ms) == Seq::<u8>::empty());
        assert(Seq::<u8>::empty() + comma =~= comma);
    } else {
        let tail = ms.drop_first();
        lemma_readings_join_rest_snoc(tail, m);
        assert(ms.push(m)[0] == ms[0]);
        assert(ms.push(m).drop_first() =~= tail.push(m));
        let p = comma + spec_reading(ms[0]);
        let q = spec_readings_join_rest(tail);
        let d = spec_reading(m);
        assert(spec_readings_join_rest(ms.push(m)) == p + (q + comma + d));
        lemma_concat_associative(q, comma, d);
        lemma_concat_associative(p, q + comma, d);
        lemma_concat_associative(p, q, comma);
        assert(spec_readings_join_rest(ms.push(m)) == ((p + q) + comma) + d);
    }
}

/// How a batch prefix grows by one more reading.
proof fn lemma_readings_join_snoc(ms: Seq<ReadingModel>, m: ReadingModel)
    ensures
        ms.len() == 0 ==> spec_readings_join(ms.push(m)) == spec_reading(m),
        ms.len() > 0 ==> spec_readings_join(ms.push(m)) == spec_readings_join(ms) + seq![0x2cu8]
            + spec_reading(m),
{
    let comma = seq![0x2cu8];
    if ms.len() == 0 {
        assert(ms.push(m)[0] == m);
        assert(ms.push(m).drop_first() =~= Seq::<ReadingModel>::empty());
        assert(spec_reading(m) + Seq::<u8>::empty() =~= spec_reading(m));
    } else {
        let tail = ms.drop_first();
        lemma_readings_join_rest_snoc(tail, m);
        assert(ms.push(m)[0] == ms[0]);
        assert(ms.push(m).drop_first() =~= tail.push(m));
        let p = spec_reading(ms[0]);
        let q = spec_readings_join_rest(tail);
        let d = spec_reading(m);
        assert(spec_readings_join(ms.push(m)) == p + (q + comma + d));
        lemma_concat_associative(q, comma, d);
        lemma_concat_associative(p, q + comma, d);
        lemma_concat_associative(p, q, comma);
        assert(spec_readings_join(ms.push(m)) == ((p + q) + comma) + d);
    }
}

/// Encodes a batch as the data message `{"type":"data","readings":[...]}`.
#[verifier::rlimit(100)]
pub fn encode_data_message(batch: &Vec<Reading>) -> (out: Vec<u8>)
    ensures
        out@ == spec_data_message(batch@.map_values(|r: Reading| r@)),
{
    let ghost ms = batch@.map_values(|r: Reading| r@);
    let mut out: Vec<u8> = Vec::new();
    push_all(
        &mut out,
        vec![
            0x7bu8, 0x22u8, 0x74u8, 0x79u8, 0x70u8, 0x65u8, 0x22u8, 0x3au8, 0x22u8, 0x64u8, 0x61u8,
            0x74u8, 0x61u8, 0x22u8, 0x2cu8, 0x22u8, 0x72u8, 0x65u8, 0x61u8, 0x64u8, 0x69u8, 0x6eu8,
            0x67u8, 0x73u8, 0x22u8, 0x3au8, 0x5bu8,
        ],
    );
    let n = batch.len();
    proof {
        assert(out@ =~= seg_data());
        assert(ms.take(0) =~= Seq::<ReadingModel>::empty());
        assert(spec_readings_join(ms.take(0)) == Seq::<u8>::empty());
        assert(seg_data() + spec_readings_join(ms.take(0)) =~= seg_data());
    }
    for i in 0..n
        invariant
            n == batch@.len(),
            ms == batch@.map_values(|r: Reading| r@),
            out@ == seg_data() + spec_readings_join(ms.take(i as int)),
    {
        let ghost prefix = spec_readings_join(ms.take(i as int));
        if i > 0 {
            out.push(0x2c);
        }
        push_reading(&mut out, &batch[i]);
        proof {
            assert(ms.take(i + 1) =~= ms.take(i as int).push(batch@[i as int]@));
            lemma_readings_join_snoc(ms.take(i as int), batch@[i as int]@);
            if i == 0 {
                assert(out@ == (seg_data() + prefix) + spec_reading(batch@[i as int]@));
                assert(seg_data() + prefix =~= seg_data());
                assert(out@ == seg_data() + spec_readings_join(ms.take(i + 1)));
            } else {
                assert(out@ =~= ((seg_data() + prefix) + seq![0x2cu8]) + spec_reading(
                    batch@[i as int]@,
                ));
                lemma_concat_associative(seg_data(), prefix, seq![0x2cu8]);
                lemma_concat_associative(seg_data(), prefix + seq![0x2cu8], spec_reading(
                    batch@[i as int]@,
                ));
                lemma_concat_associative(prefix, seq![0x2cu8], spec_reading(batch@[i as int]@));
                assert(out@ == seg_data() + spec_readings_join(ms.take(i + 1)));
            }
        }
    }
    out.push(0x5d);
    out.push(0x7d);
    proof {
        assert(ms.take(n as int) =~= ms);
        let x = seg_data() + spec_readings_join(ms);
        assert(out@ =~= (x + seq![0x5du8]) + seq![0x7du8]);
        lemma_concat_associative(x, seq![0x5du8], seq![0x7du8]);
        assert(seq![0x5du8] + seq![0x7du8] =~= seq![0x5du8, 0x7du8]);
        assert(out@ == spec_data_message(ms));
    }
    out
}

/// Encodes the auth message `{"type":"auth","apiKey":"..."}`, the first
/// frame of every session.
pub fn encode_auth_message(api_key: &String) -> (out: Vec<u8>)
    ensures
        out@ == spec_auth_message(api_key@),
{
    let mut out: Vec<u8> = Vec::new();
    push_all(
        &mut out,
        vec![
            0x7bu8, 0x22u8, 0x74u8, 0x79u8, 0x70u8, 0x65u8, 0x22u8, 0x3au8, 0x22u8, 0x61u8, 0x75u8,
            0x74u8, 0x68u8, 0x22u8, 0x2cu8, 0x22u8, 0x61u8, 0x70u8, 0x69u8, 0x4bu8, 0x65u8, 0x79u8,
            0x22u8, 0x3au8,
        ],
    );
    proof {
        assert(out@ =~= seg_auth());
    }
    push_json_string(&mut out, api_key);
    out.push(0x7d);
    proof {
        assert(out@ =~= (seg_auth() + spec_json_string(api_key@)) + seq![0x7du8]);
        assert(out@ == spec_auth_message(api_key@));
    }
    out
}

/// Expects the input to begin with a fixed segment; consumes exactly it.
pub open spec fn spec_expect(s: Seq<u8>, lit: Seq<u8>) -> Option<int> {
    if lit.len() <= s.len() && s.subrange(0, lit.len() as int) == lit {
        Some(lit.len() as int)
    } else {
        None
    }
}

/// A segment at the front is found.
pub proof fn lemma_expect_prefix(lit: Seq<u8>, rest: Seq<u8>)
    ensures
        spec_expect(lit + rest, lit) == Some(lit.len() as int),
{
    assert((lit + rest).subrange(0, lit.len() as int) =~= lit);
}

/// A byte mismatch anywhere within the segment's reach refuses it.
pub proof fn lemma_expect_mismatch(s: Seq<u8>, lit: Seq<u8>, k: int)
    requires
        0 <= k < lit.len(),
        k < s.len(),
        s[k] != lit[k],
    ensures
        spec_expect(s, lit) is None,
{
    if lit.len() <= s.len() {
        assert(s.subrange(0, lit.len() as int)[k] == s[k]);
    }
}

/// Skipping a front segment of a concatenation leaves the tail.
pub proof fn lemma_skip_concat(a: Seq<u8>, b: Seq<u8>)
    ensures
        (a + b).skip(a.len() as int) == b,
{
    assert((a + b).skip(a.len() as int) =~= b);
}

/// Skipping twice is skipping the sum.
pub proof fn lemma_skip_skip(s: Seq<u8>, a: int, b: int)
    requires
        0 <= a,
        0 <= b,
        a + b <= s.len(),
    ensures
        s.skip(a).skip(b) == s.skip(a + b),
{
    assert(s.skip(a).skip(b) =~= s.skip(a + b));
}

/// Reads a quoted JSON string into its characters: the content must be
/// valid UTF-8 after unescaping.
pub open spec fn spec_parse_json_string(s: Seq<u8>) -> Option<(Seq<char>, int)> {
    if s.len() > 0 && s[0] == QUOTE {
        match spec_scan_string(s.skip(1)) {
            Some((c, n)) => if valid_utf8(c) {
                Some((decode_utf8(c), 1 + n))
            } else {
                None
            },
            None => None,
        }
    } else {
        None
    }
}

/// Parsing inverts the string encoder: a JSON string of any characters
/// parses back to exactly those characters.
pub proof fn lemma_parse_json_string(str: Seq<char>, rest: Seq<u8>)
    ensures
        spec_parse_json_string(spec_json_string(str) + rest) == Some::<(Seq<char>, int)>(
            (str, spec_json_string(str).len() as int),
        ),
{
    broadcast use encode_utf8_valid_utf8;
    broadcast use encode_utf8_decode_utf8;

    let e = spec_escaped(encode_utf8(str));
    let s = spec_json_string(str) + rest;
    assert(s =~= seq![QUOTE] + (e + seq![QUOTE] + rest));
    assert(s[0] == QUOTE);
    assert(s.skip(1) =~= e + seq![QUOTE] + rest);
    lemma_scan_escaped(encode_utf8(str), rest);
}

/// Reads `true`, `false` or `null`.
pub open spec fn spec_parse_opt_bool(s: Seq<u8>) -> Option<(Option<bool>, int)> {
    if spec_expect(s, lit_true()) is Some {
        Some((Some(true), lit_true().len() as int))
    } else if spec_expect(s, lit_false()) is Some {
        Some((Some(false), lit_false().len() as int))
    } else if spec_expect(s, lit_null()) is Some {
        Some((None, lit_null().len() as int))
    } else {
        None
    }
}

/// Parsing inverts the boolean-or-null encoder.
pub proof fn lemma_parse_opt_bool(b: Option<bool>, rest: Seq<u8>)
    ensures
        spec_parse_opt_bool(spec_opt_bool(b) + rest) == Some::<(Option<bool>, int)>(
            (b, spec_opt_bool(b).len() as int),
        ),
{
    let s = spec_opt_bool(b) + rest;
    match b {
        Some(true) => {
            lemma_expect_prefix(lit_true(), rest);
        },
        Some(false) => {
            assert(s[0] == lit_false()[0]);
            lemma_expect_mismatch(s, lit_true(), 0);
            lemma_expect_prefix(lit_false(), rest);
        },
        None => {
            assert(s[0] == lit_null()[0]);
            lemma_expect_mismatch(s, lit_true(), 0);
            lemma_expect_mismatch(s, lit_false(), 0);
            lemma_expect_prefix(lit_null(), rest);
        },
    }
}

/// Reads `"on"`, `"off"` or `null` as the countdown action.
pub open spec fn spec_parse_action(s: Seq<u8>) -> Option<(Option<bool>, int)> {
    if spec_expect(s, lit_on()) is Some {
        Some((Some(true), lit_on().len() as int))
    } else if spec_expect(s, lit_off()) is Some {
        Some((Some(false), lit_off().len() as int))
    } else if spec_expect(s, lit_null()) is Some {
        Some((None, lit_null().len() as int))
    } else {
        None
    }
}

/// Parsing inverts the action encoder.
pub proof fn lemma_parse_action(b: Option<bool>, rest: Seq<u8>)
    ensures
        spec_parse_action(spec_action_of(b) + rest) == Some::<(Option<bool>, int)>(
            (b, spec_action_of(b).len() as int),
        ),
{
    let s = spec_action_of(b) + rest;
    match b {
        Some(true) => {
            lemma_expect_prefix(lit_on(), rest);
        },
        Some(false) => {
            assert(s[2] == lit_off()[2]);
            assert(s[2] != lit_on()[2]);
            lemma_expect_mismatch(s, lit_on(), 2);
            lemma_expect_prefix(lit_off(), rest);
        },
        None => {
            assert(s[0] == lit_null()[0]);
            lemma_expect_mismatch(s, lit_on(), 0);
            lemma_expect_mismatch(s, lit_off(), 0);
            lemma_expect_prefix(lit_null(), rest);
        },
    }
}

/// Reads an unsigned numeral that must fit a byte.
pub open spec fn spec_parse_u8(s: Seq<u8>) -> Option<(u8, int)> {
    match spec_parse_u64(s) {
        Some((v, n)) => if v <= u8::MAX as u64 {
            Some((v as u8, n))
        } else {
            None
        },
        None => None,
    }
}

/// Reads an unsigned numeral that must fit sixteen bits.
pub open spec fn spec_parse_u16(s: Seq<u8>) -> Option<(u16, int)> {
    match spec_parse_u64(s) {
        Some((v, n)) => if v <= u16::MAX as u64 {
            Some((v as u16, n))
        } else {
            None
        },
        None => None,
    }
}

/// Reads a byte-sized numeral or `null`.
pub open spec fn spec_parse_opt_u8(s: Seq<u8>) -> Option<(Option<u8>, int)> {
    if s.len() > 0 && s[0] == 0x6e {
        match spec_expect(s, lit_null()) {
            Some(n) => Some((None, n)),
            None => None,
        }
    } else {
        match spec_parse_u8(s) {
            Some((v, n)) => Some((Some(v), n)),
            None => None,
        }
    }
}

/// Reads a sixteen-bit numeral or `null`.
pub open spec fn spec_parse_opt_u16(s: Seq<u8>) -> Option<(Option<u16>, int)> {
    if s.len() > 0 && s[0] == 0x6e {
        match spec_expect(s, lit_null()) {
            Some(n) => Some((None, n)),
            None => None,
        }
    } else {
        match spec_parse_u16(s) {
            Some((v, n)) => Some((Some(v), n)),
            None => None,
        }
    }
}

/// Reads a JSON string or `null`.
pub open spec fn spec_parse_opt_string(s: Seq<u8>) -> Option<(Option<Seq<char>>, int)> {
    if s.len() > 0 && s[0] == 0x6e {
        match spec_expect(s, lit_null()) {
            Some(n) => Some((None, n)),
            None => None,
        }
    } else {
        match spec_parse_json_string(s) {
            Some((v, n)) => Some((Some(v), n)),
            None => None,
        }
    }
}

/// Parsing inverts the optional-numeral encoder, for byte-sized values.
pub proof fn lemma_parse_opt_u8(v: Option<u8>, rest: Seq<u8>)
    requires
        rest.len() == 0 || !is_digit(rest[0]),
    ensures
        spec_parse_opt_u8(
            spec_opt_num(
                match v {
                    Some(x) => Some(x as nat),
                    None => None,
                },
            ) + rest,
        ) == Some::<(Option<u8>, int)>(
            (
                v,
                spec_opt_num(
                    match v {
                        Some(x) => Some(x as nat),
                        None => None,
                    },
                ).len() as int,
            ),
        ),
{
    match v {
        Some(x) => {
            let s = spec_digits(x as nat) + rest;
            lemma_digits_all_digits(x as nat);
            assert(s[0] == spec_digits(x as nat)[0]);
            assert(is_digit(s[0]));
            assert(s[0] != 0x6e);
            lemma_parse_u64_encode(x as u64, rest);
        },
        None => {
            let s = lit_null() + rest;
            assert(s[0] == 0x6e);
            lemma_expect_prefix(lit_null(), rest);
        },
    }
}

/// Parsing inverts the optional-numeral encoder, for sixteen-bit values.
pub proof fn lemma_parse_opt_u16(v: Option<u16>, rest: Seq<u8>)
    requires
        rest.len() == 0 || !is_digit(rest[0]),
    ensures
        spec_parse_opt_u16(
            spec_opt_num(
                match v {
                    Some(x) => Some(x as nat),
                    None => None,
                },
            ) + rest,
        ) == Some::<(Option<u16>, int)>(
            (
                v,
                spec_opt_num(
                    match v {
                        Some(x) => Some(x as nat),
                        None => None,
                    },
                ).len() as int,
            ),
        ),
{
    match v {
        Some(x) => {
            let s = spec_digits(x as nat) + rest;
            lemma_digits_all_digits(x as nat);
            assert(s[0] == spec_digits(x as nat)[0]);
            assert(is_digit(s[0]));
            assert(s[0] != 0x6e);
            lemma_parse_u64_encode(x as u64, rest);
        },
        None => {
            let s = lit_null() + rest;
            assert(s[0] == 0x6e);
            lemma_expect_prefix(lit_null(), rest);
        },
    }
}

/// Parsing inverts the optional-string encoder.
pub proof fn lemma_parse_opt_string(v: Option<Seq<char>>, rest: Seq<u8>)
    ensures
        spec_parse_opt_string(spec_opt_string(v) + rest) == Some::<(Option<Seq<char>>, int)>(
            (v, spec_opt_string(v).len() as int),
        ),
{
    match v {
        Some(x) => {
            let s = spec_json_string(x) + rest;
            assert(s[0] == spec_json_string(x)[0]);
            assert(spec_json_string(x)[0] == QUOTE);
            lemma_parse_json_string(x, rest);
        },
        None => {
            let s = lit_null() + rest;
            assert(s[0] == 0x6e);
            lemma_expect_prefix(lit_null(), rest);
        },
    }
}

/// Reads the countdown sample: `null`, or remaining seconds and action.
pub open spec fn spec_parse_countdown(s: Seq<u8>) -> Option<(Option<CountdownStatus>, int)> {
    if s.len() > 0 && s[0] == 0x6e {
        match spec_expect(s, lit_null()) {
            Some(n) => Some((None, n)),
            None => None,
        }
    } else {
        match spec_expect(s, seg_remain()) {
            Some(p1) => match spec_parse_u64(s.skip(p1)) {
                Some((remain, n2)) => {
                    let p2 = p1 + n2;
                    match spec_expect(s.skip(p2), seg_action()) {
                        Some(n3) => {
                            let p3 = p2 + n3;
                            match spec_parse_action(s.skip(p3)) {
                                Some((turn_on, n4)) => {
                                    let p4 = p3 + n4;
                                    match spec_expect(s.skip(p4), seq![0x7du8]) {
                                        Some(n5) => Some(
                                            (Some(CountdownStatus { remain, turn_on }), p4 + n5),
                                        ),
                                        None => None,
                                    }
                                },
                                None => None,
                            }
                        },
                        None => None,
                    }
                },
                None => None,
            },
            None => None,
        }
    }
}

/// Parsing inverts the countdown encoder.
pub proof fn lemma_parse_countdown(st: Option<CountdownStatus>, rest: Seq<u8>)
    ensures
        spec_parse_countdown(spec_countdown(st) + rest) == Some::<(Option<CountdownStatus>, int)>(
            (st, spec_countdown(st).len() as int),
        ),
{
    match st {
        None => {
            let s = lit_null() + rest;
            assert(s[0] == 0x6e);
            lemma_expect_prefix(lit_null(), rest);
        },
        Some(c) => {
            let a1 = seg_remain();
            let a2 = spec_digits(c.remain as nat);
            let a3 = seg_action();
            let a4 = spec_action_of(c.turn_on);
            let a5 = seq![0x7du8];
            let s = spec_countdown(st) + rest;
            let t5 = a5 + rest;
            let t4 = a4 + t5;
            let t3 = a3 + t4;
            let t2 = a2 + t3;
            let t1 = a1 + t2;
            assert(spec_countdown(st) == (((a1 + a2) + a3) + a4) + a5);
            lemma_concat_associative(((a1 + a2) + a3) + a4, a5, rest);
            lemma_concat_associative((a1 + a2) + a3, a4, t5);
            lemma_concat_associative(a1 + a2, a3, t4);
            lemma_concat_associative(a1, a2, t3);
            assert(s == t1);
            assert(s[0] == a1[0]);
            assert(s[0] == 0x7b && s[0] != 0x6e);
            lemma_expect_prefix(a1, t2);
            lemma_skip_concat(a1, t2);
            assert(s.skip(a1.len() as int) == t2);
            lemma_digits_all_digits(c.remain as nat);
            assert(t3[0] == a3[0] && !is_digit(a3[0]));
            lemma_parse_u64_encode(c.remain, t3);
            lemma_skip_concat(a2, t3);
            lemma_skip_skip(s, a1.len() as int, a2.len() as int);
            assert(s.skip(a1.len() as int + a2.len() as int) == t3);
            lemma_expect_prefix(a3, t4);
            lemma_skip_concat(a3, t4);
            lemma_skip_skip(s, a1.len() as int + a2.len() as int, a3.len() as int);
            assert(s.skip(a1.len() as int + a2.len() as int + a3.len() as int) == t4);
            lemma_parse_action(c.turn_on, t5);
            lemma_skip_concat(a4, t5);
            lemma_skip_skip(s, a1.len() as int + a2.len() as int + a3.len() as int, a4.len() as int);
            assert(s.skip(a1.len() as int + a2.len() as int + a3.len() as int + a4.len() as int) == t5);
            lemma_expect_prefix(a5, rest);
        },
    }
}

/// Reads a rule's desired state: `null`, or an object with `on`.
pub open spec fn spec_parse_desired(s: Seq<u8>) -> Option<(Option<Option<bool>>, int)> {
    if s.len() > 0 && s[0] == 0x6e {
        match spec_expect(s, lit_null()) {
            Some(n) => Some((None, n)),
            None => None,
        }
    } else {
        match spec_expect(s, seg_on_key()) {
            Some(p1) => match spec_parse_opt_bool(s.skip(p1)) {
                Some((b, n2)) => {
                    let p2 = p1 + n2;
                    match spec_expect(s.skip(p2), seq![0x7du8]) {
                        Some(n3) => Some((Some(b), p2 + n3)),
                        None => None,
                    }
                },
                None => None,
            },
            None => None,
        }
    }
}

/// Parsing inverts the desired-state encoder.
pub proof fn lemma_parse_desired(d: Option<Option<bool>>, rest: Seq<u8>)
    ensures
        spec_parse_desired(spec_desired(d) + rest) == Some::<(Option<Option<bool>>, int)>(
            (d, spec_desired(d).len() as int),
        ),
{
    match d {
        None => {
            let s = lit_null() + rest;
            assert(s[0] == 0x6e);
            lemma_expect_prefix(lit_null(), rest);
        },
        Some(b) => {
            let a1 = seg_on_key();
            let a2 = spec_opt_bool(b);
            let a3 = seq![0x7du8];
            let s = spec_desired(d) + rest;
            let t3 = a3 + rest;
            let t2 = a2 + t3;
            let t1 = a1 + t2;
            assert(spec_desired(d) == (a1 + a2) + a3);
            lemma_concat_associative(a1 + a2, a3, rest);
            lemma_concat_associative(a1, a2, t3);
            assert(s == t1);
            assert(s[0] == a1[0]);
            assert(s[0] == 0x7b && s[0] != 0x6e);
            lemma_expect_prefix(a1, t2);
            lemma_skip_concat(a1, t2);
            assert(s.skip(a1.len() as int) == t2);
            lemma_parse_opt_bool(b, t3);
            lemma_skip_concat(a2, t3);
            lemma_skip_skip(s, a1.len() as int, a2.len() as int);
            assert(s.skip(a1.len() as int + a2.len() as int) == t3);
            lemma_expect_prefix(a3, rest);
        },
    }
}

/// The wire bytes of a rule's id and enable fields.
pub open spec fn enc_rule_ids(m: ScheduleRuleModel) -> Seq<u8> {
    seg_id() + spec_json_string(m.id) + seg_enable() + spec_opt_bool(Some(m.enable))
}

/// The wire bytes of a rule's numeric fields.
pub open spec fn enc_rule_nums(m: ScheduleRuleModel) -> Seq<u8> {
    seg_week_day() + spec_digits(m.week_day as nat) + seg_s_min() + spec_digits(m.s_min as nat)
        + seg_e_min() + spec_digits(m.e_min as nat)
}

/// The wire bytes of a rule's mode field.
pub open spec fn enc_rule_mode(m: ScheduleRuleModel) -> Seq<u8> {
    seg_mode() + spec_opt_string(m.mode)
}

/// The wire bytes of a rule's optional date fields.
pub open spec fn enc_rule_opts(m: ScheduleRuleModel) -> Seq<u8> {
    seg_day() + spec_opt_num(match m.day { Some(x) => Some(x as nat), None => None })
        + seg_month() + spec_opt_num(match m.month { Some(x) => Some(x as nat), None => None })
        + seg_year() + spec_opt_num(match m.year { Some(x) => Some(x as nat), None => None })
}

/// The wire bytes of a rule's desired state and closing brace.
pub open spec fn enc_rule_tail(m: ScheduleRuleModel) -> Seq<u8> {
    seg_desired() + spec_desired(m.desired_states) + seq![0x7du8]
}

/// The rule encoding splits into its five field groups.
#[verifier::rlimit(100)]
pub proof fn lemma_rule_groups(m: ScheduleRuleModel)
    ensures
        spec_schedule_rule(m) == ((enc_rule_ids(m) + enc_rule_nums(m)) + enc_rule_mode(m))
            + (enc_rule_opts(m) + enc_rule_tail(m)),
{
    let i = enc_rule_ids(m);
    let a5 = seg_week_day();
    let a6 = spec_digits(m.week_day as nat);
    let a7 = seg_s_min();
    let a8 = spec_digits(m.s_min as nat);
    let a9 = seg_e_min();
    let a10 = spec_digits(m.e_min as nat);
    let a11 = seg_mode();
    let a12 = spec_opt_string(m.mode);
    let a13 = seg_day();
    let a14 = spec_opt_num(match m.day { Some(x) => Some(x as nat), None => None });
    let a15 = seg_month();
    let a16 = spec_opt_num(match m.month { Some(x) => Some(x as nat), None => None });
    let a17 = seg_year();
    let a18 = spec_opt_num(match m.year { Some(x) => Some(x as nat), None => None });
    let a19 = seg_desired();
    let a20 = spec_desired(m.desired_states);
    let a21 = seq![0x7du8];
    lemma_concat_associative(i, a5, a6);
    lemma_concat_associative(i, a5 + a6, a7);
    lemma_concat_associative(i, (a5 + a6) + a7, a8);
    lemma_concat_associative(i, ((a5 + a6) + a7) + a8, a9);
    lemma_concat_associative(i, (((a5 + a6) + a7) + a8) + a9, a10);
    let w = i + enc_rule_nums(m);
    assert(w == ((((((i + a5) + a6) + a7) + a8) + a9) + a10));
    lemma_concat_associative(w, a11, a12);
    let f = w + enc_rule_mode(m);
    assert(f == (w + a11) + a12);
    lemma_concat_associative(f, a13, a14);
    lemma_concat_associative(f, a13 + a14, a15);
    lemma_concat_associative(f, (a13 + a14) + a15, a16);
    lemma_concat_associative(f, ((a13 + a14) + a15) + a16, a17);
    lemma_concat_associative(f, (((a13 + a14) + a15) + a16) + a17, a18);
    let o = f + enc_rule_opts(m);
    assert(o == (((((f + a13) + a14) + a15) + a16) + a17) + a18);
    lemma_concat_associative(o, a19, a20);
    lemma_concat_associative(o, a19 + a20, a21);
    let z = o + enc_rule_tail(m);
    assert(z == ((o + a19) + a20) + a21);
    assert(spec_schedule_rule(m) == z);
    lemma_concat_associative(f, enc_rule_opts(m), enc_rule_tail(m));
}

/// Reads a rule's id and enable fields.
#[verifier::opaque]
pub open spec fn spec_parse_rule_ids(s: Seq<u8>) -> Option<((Seq<char>, bool), int)> {
    match spec_expect(s, seg_id()) { None => None, Some(p1) =>
    match spec_parse_json_string(s.skip(p1)) { None => None, Some((id, m2)) => { let p2 = p1 + m2;
    match spec_expect(s.skip(p2), seg_enable()) { None => None, Some(m3) => { let p3 = p2 + m3;
    match spec_parse_opt_bool(s.skip(p3)) { None => None, Some((enable_o, m4)) => { let p4 = p3 + m4;
    if enable_o is None { None } else {
    Some(((id, enable_o.unwrap()), p4))
    }
    }}}}}}}
}

/// Reads a rule's numeric fields.
#[verifier::opaque]
pub open spec fn spec_parse_rule_nums(s: Seq<u8>) -> Option<((u8, u16, u16), int)> {
    match spec_expect(s, seg_week_day()) { None => None, Some(p1) =>
    match spec_parse_u8(s.skip(p1)) { None => None, Some((week_day, m2)) => { let p2 = p1 + m2;
    match spec_expect(s.skip(p2), seg_s_min()) { None => None, Some(m3) => { let p3 = p2 + m3;
    match spec_parse_u16(s.skip(p3)) { None => None, Some((s_min, m4)) => { let p4 = p3 + m4;
    match spec_expect(s.skip(p4), seg_e_min()) { None => None, Some(m5) => { let p5 = p4 + m5;
    match spec_parse_u16(s.skip(p5)) { None => None, Some((e_min, m6)) => { let p6 = p5 + m6;
    Some(((week_day, s_min, e_min), p6))
    }}}}}}}}}}}
}

/// Reads a rule's mode field.
#[verifier::opaque]
pub open spec fn spec_parse_rule_mode(s: Seq<u8>) -> Option<(Option<Seq<char>>, int)> {
    match spec_expect(s, seg_mode()) { None => None, Some(p1) =>
    match spec_parse_opt_string(s.skip(p1)) { None => None, Some((mode, m2)) => { let p2 = p1 + m2;
    Some((mode, p2))
    }}}
}

/// Reads a rule's day and month fields.
#[verifier::opaque]
pub open spec fn spec_parse_rule_dm(s: Seq<u8>) -> Option<((Option<u8>, Option<u8>), int)> {
    match spec_expect(s, seg_day()) { None => None, Some(p1) =>
    match spec_parse_opt_u8(s.skip(p1)) { None => None, Some((day, m2)) => { let p2 = p1 + m2;
    match spec_expect(s.skip(p2), seg_month()) { None => None, Some(m3) => { let p3 = p2 + m3;
    match spec_parse_opt_u8(s.skip(p3)) { None => None, Some((month, m4)) => { let p4 = p3 + m4;
    Some(((day, month), p4))
    }}}}}}}
}

/// Reads a rule's year field.
#[verifier::opaque]
pub open spec fn spec_parse_rule_year(s: Seq<u8>) -> Option<(Option<u16>, int)> {
    match spec_expect(s, seg_year()) { None => None, Some(p1) =>
    match spec_parse_opt_u16(s.skip(p1)) { None => None, Some((year, m2)) => { let p2 = p1 + m2;
    Some((year, p2))
    }}}
}

/// Reads a rule's optional date fields.
#[verifier::opaque]
pub open spec fn spec_parse_rule_opts(s: Seq<u8>) -> Option<((Option<u8>, Option<u8>, Option<u16>), int)> {
    match spec_parse_rule_dm(s) { None => None, Some(((day, month), n1)) =>
    match spec_parse_rule_year(s.skip(n1)) { None => None, Some((year, n2)) => { let p2 = n1 + n2;
    Some(((day, month, year), p2))
    }}}
}

/// Reads a rule's desired state and closing brace.
#[verifier::opaque]
pub open spec fn spec_parse_rule_tail(s: Seq<u8>) -> Option<(Option<Option<bool>>, int)> {
    match spec_expect(s, seg_desired()) { None => None, Some(p1) =>
    match spec_parse_desired(s.skip(p1)) { None => None, Some((desired_states, m2)) => { let p2 = p1 + m2;
    match spec_expect(s.skip(p2), seq![0x7du8]) { None => None, Some(m3) => { let p3 = p2 + m3;
    Some((desired_states, p3))
    }}}}}
}

/// Reads one schedule rule, group by group in the fixed order.
#[verifier::opaque]
pub open spec fn spec_parse_schedule_rule(s: Seq<u8>) -> Option<(ScheduleRuleModel, int)> {
    match spec_parse_rule_ids(s) { None => None, Some(((id, enable), n1)) =>
    match spec_parse_rule_nums(s.skip(n1)) { None => None, Some(((week_day, s_min, e_min), n2)) => { let p2 = n1 + n2;
    match spec_parse_rule_mode(s.skip(p2)) { None => None, Some((mode, n3)) => { let p3 = p2 + n3;
    match spec_parse_rule_opts(s.skip(p3)) { None => None, Some(((day, month, year), n4)) => { let p4 = p3 + n4;
    match spec_parse_rule_tail(s.skip(p4)) { None => None, Some((desired_states, n5)) => { let p5 = p4 + n5;
    Some((ScheduleRuleModel {
        id: id,
        enable: enable,
        week_day: week_day,
        s_min: s_min,
        e_min: e_min,
        mode: mode,
        day: day,
        month: month,
        year: year,
        desired_states: desired_states,
    }, p5))
    }}}}}}}}}
}

/// Parsing inverts the id-and-enable group.
#[verifier::rlimit(100)]
pub proof fn lemma_parse_rule_ids(m: ScheduleRuleModel, rest: Seq<u8>)
    ensures
        spec_parse_rule_ids(enc_rule_ids(m) + rest) == Some::<((Seq<char>, bool), int)>(
            (((m.id, m.enable)), enc_rule_ids(m).len() as int),
        ),
{
    reveal(spec_parse_rule_ids);
    broadcast use encode_utf8_valid_utf8;
    broadcast use encode_utf8_decode_utf8;
    let a1 = seg_id();
    let a2 = spec_json_string(m.id);
    let a3 = seg_enable();
    let a4 = spec_opt_bool(Some(m.enable));
    let x1 = a1;
    let x2 = x1 + a2;
    let x3 = x2 + a3;
    let x4 = x3 + a4;
    let t5 = rest;
    let t4 = a4 + t5;
    let t3 = a3 + t4;
    let t2 = a2 + t3;
    let t1 = a1 + t2;
    let s = enc_rule_ids(m) + rest;
    assert(enc_rule_ids(m) == x4);
    assert(s == x4 + t5);
    lemma_concat_associative(x3, a4, t5);
    assert(s == x3 + t4);
    lemma_concat_associative(x2, a3, t4);
    assert(s == x2 + t3);
    lemma_concat_associative(x1, a2, t3);
    assert(s == x1 + t2);
    assert(s == t1);
    let q1 = a1.len() as int;
    let q2 = q1 + a2.len() as int;
    let q3 = q2 + a3.len() as int;
    let q4 = q3 + a4.len() as int;
    lemma_expect_prefix(a1, t2);
    lemma_skip_concat(a1, t2);
    assert(s.skip(q1) == t2);
    lemma_parse_json_string(m.id, t3);
    lemma_skip_skip(s, q1, a2.len() as int);
    lemma_skip_concat(a2, t3);
    assert(s.skip(q2) == t3);
    lemma_expect_prefix(a3, t4);
    lemma_skip_skip(s, q2, a3.len() as int);
    lemma_skip_concat(a3, t4);
    assert(s.skip(q3) == t4);
    lemma_parse_opt_bool(Some(m.enable), t5);
    lemma_skip_skip(s, q3, a4.len() as int);
    lemma_skip_concat(a4, t5);
    assert(s.skip(q4) == t5);
}

/// Parsing inverts the numeric group.
#[verifier::rlimit(100)]
pub proof fn lemma_parse_rule_nums(m: ScheduleRuleModel, rest: Seq<u8>)
    requires
        rest.len() == 0 || !is_digit(rest[0]),
    ensures
        spec_parse_rule_nums(enc_rule_nums(m) + rest) == Some::<((u8, u16, u16), int)>(
            (((m.week_day, m.s_min, m.e_min)), enc_rule_nums(m).len() as int),
        ),
{
    reveal(spec_parse_rule_nums);
    broadcast use encode_utf8_valid_utf8;
    broadcast use encode_utf8_decode_utf8;
    let a1 = seg_week_day();
    let a2 = spec_digits(m.week_day as nat);
    let a3 = seg_s_min();
    let a4 = spec_digits(m.s_min as nat);
    let a5 = seg_e_min();
    let a6 = spec_digits(m.e_min as nat);
    let x1 = a1;
    let x2 = x1 + a2;
    let x3 = x2 + a3;
    let x4 = x3 + a4;
    let x5 = x4 + a5;
    let x6 = x5 + a6;
    let t7 = rest;
    let t6 = a6 + t7;
    let t5 = a5 + t6;
    let t4 = a4 + t5;
    let t3 = a3 + t4;
    let t2 = a2 + t3;
    let t1 = a1 + t2;
    let s = enc_rule_nums(m) + rest;
    assert(enc_rule_nums(m) == x6);
    assert(s == x6 + t7);
    lemma_concat_associative(x5, a6, t7);
    assert(s == x5 + t6);
    lemma_concat_associative(x4, a5, t6);
    assert(s == x4 + t5);
    lemma_concat_associative(x3, a4, t5);
    assert(s == x3 + t4);
    lemma_concat_associative(x2, a3, t4);
    assert(s == x2 + t3);
    lemma_concat_associative(x1, a2, t3);
    assert(s == x1 + t2);
    assert(s == t1);
    let q1 = a1.len() as int;
    let q2 = q1 + a2.len() as int;
    let q3 = q2 + a3.len() as int;
    let q4 = q3 + a4.len() as int;
    let q5 = q4 + a5.len() as int;
    let q6 = q5 + a6.len() as int;
    lemma_expect_prefix(a1, t2);
    lemma_skip_concat(a1, t2);
    assert(s.skip(q1) == t2);
    lemma_digits_all_digits(m.week_day as nat);
    assert(t3[0] == a3[0]);
    assert(!is_digit(t3[0]));
    lemma_parse_u64_encode(m.week_day as u64, t3);
    lemma_skip_skip(s, q1, a2.len() as int);
    lemma_skip_concat(a2, t3);
    assert(s.skip(q2) == t3);
    lemma_expect_prefix(a3, t4);
    lemma_skip_skip(s, q2, a3.len() as int);
    lemma_skip_concat(a3, t4);
    assert(s.skip(q3) == t4);
    lemma_digits_all_digits(m.s_min as nat);
    assert(t5[0] == a5[0]);
    assert(!is_digit(t5[0]));
    lemma_parse_u64_encode(m.s_min as u64, t5);
    lemma_skip_skip(s, q3, a4.len() as int);
    lemma_skip_concat(a4, t5);
    assert(s.skip(q4) == t5);
    lemma_expect_prefix(a5, t6);
    lemma_skip_skip(s, q4, a5.len() as int);
    lemma_skip_concat(a5, t6);
    assert(s.skip(q5) == t6);
    lemma_digits_all_digits(m.e_min as nat);
    assert(rest.len() == 0 || !is_digit(rest[0]));
    lemma_parse_u64_encode(m.e_min as u64, t7);
    lemma_skip_skip(s, q5, a6.len() as int);
    lemma_skip_concat(a6, t7);
    assert(s.skip(q6) == t7);
}

/// Parsing inverts the mode group.
#[verifier::rlimit(100)]
pub proof fn lemma_parse_rule_mode(m: ScheduleRuleModel, rest: Seq<u8>)
    ensures
        spec_parse_rule_mode(enc_rule_mode(m) + rest) == Some::<(Option<Seq<char>>, int)>(
            ((m.mode), enc_rule_mode(m).len() as int),
        ),
{
    reveal(spec_parse_rule_mode);
    broadcast use encode_utf8_valid_utf8;
    broadcast use encode_utf8_decode_utf8;
    let a1 = seg_mode();
    let a2 = spec_opt_string(m.mode);
    let x1 = a1;
    let x2 = x1 + a2;
    let t3 = rest;
    let t2 = a2 + t3;
    let t1 = a1 + t2;
    let s = enc_rule_mode(m) + rest;
    assert(enc_rule_mode(m) == x2);
    assert(s == x2 + t3);
    lemma_concat_associative(x1, a2, t3);
    assert(s == x1 + t2);
    assert(s == t1);
    let q1 = a1.len() as int;
    let q2 = q1 + a2.len() as int;
    lemma_expect_prefix(a1, t2);
    lemma_skip_concat(a1, t2);
    assert(s.skip(q1) == t2);
    lemma_parse_opt_string(m.mode, t3);
    lemma_skip_skip(s, q1, a2.len() as int);
    lemma_skip_concat(a2, t3);
    assert(s.skip(q2) == t3);
}

/// The wire bytes of a rule's day and month fields.
pub open spec fn enc_rule_dm(m: ScheduleRuleModel) -> Seq<u8> {
    seg_day() + spec_opt_num(match m.day { Some(x) => Some(x as nat), None => None })
        + seg_month() + spec_opt_num(match m.month { Some(x) => Some(x as nat), None => None })
}

/// The wire bytes of a rule's year field.
pub open spec fn enc_rule_year(m: ScheduleRuleModel) -> Seq<u8> {
    seg_year() + spec_opt_num(match m.year { Some(x) => Some(x as nat), None => None })
}

/// Parsing inverts the day-and-month group.
#[verifier::rlimit(100)]
pub proof fn lemma_parse_rule_dm(m: ScheduleRuleModel, rest: Seq<u8>)
    requires
        rest.len() == 0 || !is_digit(rest[0]),
    ensures
        spec_parse_rule_dm(enc_rule_dm(m) + rest) == Some::<((Option<u8>, Option<u8>), int)>(
            ((m.day, m.month), enc_rule_dm(m).len() as int),
        ),
{
    reveal(spec_parse_rule_dm);
    let a1 = seg_day();
    let a2 = spec_opt_num(match m.day { Some(x) => Some(x as nat), None => None });
    let a3 = seg_month();
    let a4 = spec_opt_num(match m.month { Some(x) => Some(x as nat), None => None });
    let t5 = rest;
    let t4 = a4 + t5;
    let t3 = a3 + t4;
    let t2 = a2 + t3;
    let s = enc_rule_dm(m) + rest;
    assert(enc_rule_dm(m) == ((a1 + a2) + a3) + a4);
    lemma_concat_associative((a1 + a2) + a3, a4, rest);
    lemma_concat_associative(a1 + a2, a3, t4);
    lemma_concat_associative(a1, a2, t3);
    assert(s == a1 + t2);
    lemma_expect_prefix(a1, t2);
    lemma_skip_concat(a1, t2);
    let q1 = a1.len() as int;
    assert(s.skip(q1) == t2);
    assert(t3[0] == a3[0]);
    assert(!is_digit(t3[0]));
    lemma_parse_opt_u8(m.day, t3);
    lemma_skip_skip(s, q1, a2.len() as int);
    lemma_skip_concat(a2, t3);
    let q2 = q1 + a2.len() as int;
    assert(s.skip(q2) == t3);
    lemma_expect_prefix(a3, t4);
    lemma_skip_skip(s, q2, a3.len() as int);
    lemma_skip_concat(a3, t4);
    let q3 = q2 + a3.len() as int;
    assert(s.skip(q3) == t4);
    lemma_parse_opt_u8(m.month, rest);
}

/// Parsing inverts the year group.
#[verifier::rlimit(100)]
pub proof fn lemma_parse_rule_year(m: ScheduleRuleModel, rest: Seq<u8>)
    requires
        rest.len() == 0 || !is_digit(rest[0]),
    ensures
        spec_parse_rule_year(enc_rule_year(m) + rest) == Some::<(Option<u16>, int)>(
            (m.year, enc_rule_year(m).len() as int),
        ),
{
    reveal(spec_parse_rule_year);
    let a1 = seg_year();
    let a2 = spec_opt_num(match m.year { Some(x) => Some(x as nat), None => None });
    let t2 = a2 + rest;
    let s = enc_rule_year(m) + rest;
    assert(enc_rule_year(m) == a1 + a2);
    lemma_concat_associative(a1, a2, rest);
    assert(s == a1 + t2);
    lemma_expect_prefix(a1, t2);
    lemma_skip_concat(a1, t2);
    assert(s.skip(a1.len() as int) == t2);
    lemma_parse_opt_u16(m.year, rest);
}

/// Parsing inverts the optional-date group.
#[verifier::rlimit(100)]
pub proof fn lemma_parse_rule_opts(m: ScheduleRuleModel, rest: Seq<u8>)
    requires
        rest.len() == 0 || !is_digit(rest[0]),
    ensures
        spec_parse_rule_opts(enc_rule_opts(m) + rest) == Some::<
            ((Option<u8>, Option<u8>, Option<u16>), int),
        >(((m.day, m.month, m.year), enc_rule_opts(m).len() as int)),
{
    reveal(spec_parse_rule_opts);
    let dm = enc_rule_dm(m);
    let y = enc_rule_year(m);
    let a1 = seg_day();
    let a2 = spec_opt_num(match m.day { Some(x) => Some(x as nat), None => None });
    let a3 = seg_month();
    let a4 = spec_opt_num(match m.month { Some(x) => Some(x as nat), None => None });
    let a5 = seg_year();
    let a6 = spec_opt_num(match m.year { Some(x) => Some(x as nat), None => None });
    lemma_concat_associative(dm, a5, a6);
    assert(enc_rule_opts(m) == dm + y);
    let s = enc_rule_opts(m) + rest;
    lemma_concat_associative(dm, y, rest);
    assert(s == dm + (y + rest));
    assert((y + rest)[0] == a5[0]);
    assert(!is_digit((y + rest)[0]));
    lemma_parse_rule_dm(m, y + rest);
    lemma_skip_concat(dm, y + rest);
    assert(s.skip(dm.len() as int) == y + rest);
    lemma_parse_rule_year(m, rest);
}

/// Parsing inverts the desired-state group.
#[verifier::rlimit(100)]
pub proof fn lemma_parse_rule_tail(m: ScheduleRuleModel, rest: Seq<u8>)
    ensures
        spec_parse_rule_tail(enc_rule_tail(m) + rest) == Some::<(Option<Option<bool>>, int)>(
            ((m.desired_states), enc_rule_tail(m).len() as int),
        ),
{
    reveal(spec_parse_rule_tail);
    broadcast use encode_utf8_valid_utf8;
    broadcast use encode_utf8_decode_utf8;
    let a1 = seg_desired();
    let a2 = spec_desired(m.desired_states);
    let a3 = seq![0x7du8];
    let x1 = a1;
    let x2 = x1 + a2;
    let x3 = x2 + a3;
    let t4 = rest;
    let t3 = a3 + t4;
    let t2 = a2 + t3;
    let t1 = a1 + t2;
    let s = enc_rule_tail(m) + rest;
    assert(enc_rule_tail(m) == x3);
    assert(s == x3 + t4);
    lemma_concat_associative(x2, a3, t4);
    assert(s == x2 + t3);
    lemma_concat_associative(x1, a2, t3);
    assert(s == x1 + t2);
    assert(s == t1);
    let q1 = a1.len() as int;
    let q2 = q1 + a2.len() as int;
    let q3 = q2 + a3.len() as int;
    lemma_expect_prefix(a1, t2);
    lemma_skip_concat(a1, t2);
    assert(s.skip(q1) == t2);
    lemma_parse_desired(m.desired_states, t3);
    lemma_skip_skip(s, q1, a2.len() as int);
    lemma_skip_concat(a2, t3);
    assert(s.skip(q2) == t3);
    lemma_expect_prefix(a3, rest);
    lemma_skip_skip(s, q2, a3.len() as int);
    lemma_skip_concat(a3, t4);
    assert(s.skip(q3) == t4);
}

/// Where each field group of a rule stands in its encoding, and what it
/// parses to.
#[verifier::rlimit(100)]
proof fn lemma_rule_steps(m: ScheduleRuleModel, rest: Seq<u8>)
    ensures
        ({
            let s = spec_schedule_rule(m) + rest;
            let q1 = enc_rule_ids(m).len() as int;
            let q2 = q1 + enc_rule_nums(m).len() as int;
            let q3 = q2 + enc_rule_mode(m).len() as int;
            let q4 = q3 + enc_rule_opts(m).len() as int;
            let q5 = q4 + enc_rule_tail(m).len() as int;
            &&& spec_parse_rule_ids(s) == Some(((m.id, m.enable), q1))
            &&& spec_parse_rule_nums(s.skip(q1)) == Some(
                ((m.week_day, m.s_min, m.e_min), enc_rule_nums(m).len() as int),
            )
            &&& spec_parse_rule_mode(s.skip(q2)) == Some((m.mode, enc_rule_mode(m).len() as int))
            &&& spec_parse_rule_opts(s.skip(q3)) == Some(
                ((m.day, m.month, m.year), enc_rule_opts(m).len() as int),
            )
            &&& spec_parse_rule_tail(s.skip(q4)) == Some(
                (m.desired_states, enc_rule_tail(m).len() as int),
            )
            &&& q5 == spec_schedule_rule(m).len()
        }),
{
    let i = enc_rule_ids(m);
    let w = enc_rule_nums(m);
    let d = enc_rule_mode(m);
    let o = enc_rule_opts(m);
    let z = enc_rule_tail(m);
    let s = spec_schedule_rule(m) + rest;
    lemma_rule_groups(m);
    assert(spec_schedule_rule(m) == ((i + w) + d) + (o + z));
    let t5 = z + rest;
    let t4 = o + t5;
    let t3 = d + t4;
    let t2 = w + t3;
    lemma_concat_associative(((i + w) + d), o + z, rest);
    lemma_concat_associative(o, z, rest);
    assert(s == ((i + w) + d) + t4);
    lemma_concat_associative((i + w), d, t4);
    assert(s == (i + w) + t3);
    lemma_concat_associative(i, w, t3);
    assert(s == i + t2);
    lemma_parse_rule_ids(m, t2);
    lemma_skip_concat(i, t2);
    let q1 = i.len() as int;
    assert(s.skip(q1) == t2);
    assert(t3[0] == seg_mode()[0]);
    assert(!is_digit(t3[0]));
    lemma_parse_rule_nums(m, t3);
    lemma_skip_skip(s, q1, w.len() as int);
    lemma_skip_concat(w, t3);
    let q2 = q1 + w.len() as int;
    assert(s.skip(q2) == t3);
    lemma_parse_rule_mode(m, t4);
    lemma_skip_skip(s, q2, d.len() as int);
    lemma_skip_concat(d, t4);
    let q3 = q2 + d.len() as int;
    assert(s.skip(q3) == t4);
    assert(t5[0] == seg_desired()[0]);
    assert(!is_digit(t5[0]));
    lemma_parse_rule_opts(m, t5);
    lemma_skip_skip(s, q3, o.len() as int);
    lemma_skip_concat(o, t5);
    let q4 = q3 + o.len() as int;
    assert(s.skip(q4) == t5);
    lemma_parse_rule_tail(m, rest);
}

/// Parsing inverts the schedule-rule encoder.
#[verifier::rlimit(100)]
pub proof fn lemma_parse_schedule_rule(m: ScheduleRuleModel, rest: Seq<u8>)
    ensures
        spec_parse_schedule_rule(spec_schedule_rule(m) + rest) == Some::<(ScheduleRuleModel, int)>(
            (m, spec_schedule_rule(m).len() as int),
        ),
{
    reveal(spec_parse_schedule_rule);
    lemma_rule_steps(m, rest);
    let s = spec_schedule_rule(m) + rest;
    assert(spec_parse_schedule_rule(s).unwrap().0 == m);
    assert(spec_parse_schedule_rule(s).unwrap().1 == spec_schedule_rule(m).len());
}

/// A rule's encoding begins with an opening brace and is never empty.
pub proof fn lemma_rule_first_byte(m: ScheduleRuleModel)
    ensures
        spec_schedule_rule(m).len() >= 1,
        spec_schedule_rule(m)[0] == 0x7b,
{
    lemma_rule_groups(m);
    assert(enc_rule_ids(m)[0] == seg_id()[0]);
    assert(spec_schedule_rule(m)[0] == enc_rule_ids(m)[0]);
}

/// Reads the tail of a rule list: comma-separated rules up to the
/// closing bracket.
pub open spec fn spec_parse_rules_rest(s: Seq<u8>) -> Option<(Seq<ScheduleRuleModel>, int)>
    decreases s.len(),
{
    if s.len() == 0 {
        None
    } else if s[0] == 0x5d {
        Some((Seq::empty(), 1))
    } else if s[0] == 0x2c {
        match spec_parse_schedule_rule(s.skip(1)) {
            Some((m, n)) => if 0 < n && 1 + n <= s.len() {
                match spec_parse_rules_rest(s.skip(1 + n)) {
                    Some((ms, n2)) => Some((seq![m] + ms, 1 + n + n2)),
                    None => None,
                }
            } else {
                None
            },
            None => None,
        }
    } else {
        None
    }
}

/// Reads a rule list after its opening bracket: rules up to the closing
/// bracket.
pub open spec fn spec_parse_rules_items(s: Seq<u8>) -> Option<(Seq<ScheduleRuleModel>, int)> {
    if s.len() == 0 {
        None
    } else if s[0] == 0x5d {
        Some((Seq::empty(), 1))
    } else {
        match spec_parse_schedule_rule(s) {
            Some((m, n)) => if 0 < n && n <= s.len() {
                match spec_parse_rules_rest(s.skip(n)) {
                    Some((ms, n2)) => Some((seq![m] + ms, n + n2)),
                    None => None,
                }
            } else {
                None
            },
            None => None,
        }
    }
}

/// Reads a schedule list as a JSON array.
pub open spec fn spec_parse_schedules(s: Seq<u8>) -> Option<(Seq<ScheduleRuleModel>, int)> {
    if s.len() > 0 && s[0] == 0x5b {
        match spec_parse_rules_items(s.skip(1)) {
            Some((ms, n)) => Some((ms, 1 + n)),
            None => None,
        }
    } else {
        None
    }
}

/// Parsing inverts the joined rule-list tail.
#[verifier::rlimit(100)]
pub proof fn lemma_parse_rules_rest(ms: Seq<ScheduleRuleModel>, rest: Seq<u8>)
    ensures
        spec_parse_rules_rest(spec_rules_join_rest(ms) + seq![0x5du8] + rest) == Some::<
            (Seq<ScheduleRuleModel>, int),
        >((ms, spec_rules_join_rest(ms).len() as int + 1)),
    decreases ms.len(),
{
    let b = seq![0x5du8];
    let s = spec_rules_join_rest(ms) + b + rest;
    if ms.len() == 0 {
        assert(s =~= b + rest);
        assert(s[0] == 0x5d);
        assert(spec_parse_rules_rest(s).unwrap().0 =~= ms);
    } else {
        let c = seq![0x2cu8];
        let r0 = spec_schedule_rule(ms[0]);
        let ap = spec_rules_join_rest(ms.drop_first());
        assert(spec_rules_join_rest(ms) == ((c + r0) + ap));
        let t = ap + b + rest;
        lemma_concat_associative((c + r0) + ap, b, rest);
        lemma_concat_associative(c + r0, ap, b + rest);
        lemma_concat_associative(ap, b, rest);
        lemma_concat_associative(c, r0, t);
        assert(s == c + (r0 + t));
        lemma_rule_first_byte(ms[0]);
        assert(s[0] == 0x2c);
        assert(!(s[0] == 0x5d));
        lemma_skip_concat(c, r0 + t);
        assert(s.skip(1) == r0 + t);
        lemma_parse_schedule_rule(ms[0], t);
        lemma_skip_skip(s, 1, r0.len() as int);
        lemma_skip_concat(r0, t);
        assert(s.skip(1 + r0.len() as int) == t);
        lemma_parse_rules_rest(ms.drop_first(), rest);
        assert(seq![ms[0]] + ms.drop_first() =~= ms);
        assert(spec_parse_rules_rest(s).unwrap().0 == ms);
        assert(spec_parse_rules_rest(s).unwrap().1 == spec_rules_join_rest(ms).len() + 1);
    }
}

/// Parsing inverts the joined rule list.
#[verifier::rlimit(100)]
pub proof fn lemma_parse_rules_items(ms: Seq<ScheduleRuleModel>, rest: Seq<u8>)
    ensures
        spec_parse_rules_items(spec_rules_join(ms) + seq![0x5du8] + rest) == Some::<
            (Seq<ScheduleRuleModel>, int),
        >((ms, spec_rules_join(ms).len() as int + 1)),
{
    let b = seq![0x5du8];
    let s = spec_rules_join(ms) + b + rest;
    if ms.len() == 0 {
        assert(s =~= b + rest);
        assert(s[0] == 0x5d);
        assert(spec_parse_rules_items(s).unwrap().0 =~= ms);
    } else {
        let r0 = spec_schedule_rule(ms[0]);
        let ap = spec_rules_join_rest(ms.drop_first());
        assert(spec_rules_join(ms) == r0 + ap);
        let t = ap + b + rest;
        lemma_concat_associative(r0 + ap, b, rest);
        lemma_concat_associative(r0, ap, b + rest);
        lemma_concat_associative(ap, b, rest);
        assert(s == r0 + t);
        lemma_rule_first_byte(ms[0]);
        assert(s[0] == r0[0]);
        assert(!(s[0] == 0x5d));
        lemma_parse_schedule_rule(ms[0], t);
        lemma_skip_concat(r0, t);
        assert(s.skip(r0.len() as int) == t);
        lemma_parse_rules_rest(ms.drop_first(), rest);
        assert(seq![ms[0]] + ms.drop_first() =~= ms);
        assert(spec_parse_rules_items(s).unwrap().0 == ms);
        assert(spec_parse_rules_items(s).unwrap().1 == spec_rules_join(ms).len() + 1);
    }
}

/// Parsing inverts the schedules encoder.
#[verifier::rlimit(100)]
pub proof fn lemma_parse_schedules(ms: Seq<ScheduleRuleModel>, rest: Seq<u8>)
    ensures
        spec_parse_schedules(spec_schedules(ms) + rest) == Some::<(Seq<ScheduleRuleModel>, int)>(
            (ms, spec_schedules(ms).len() as int),
        ),
{
    let o = seq![0x5bu8];
    let j = spec_rules_join(ms);
    let b = seq![0x5du8];
    let s = spec_schedules(ms) + rest;
    assert(spec_schedules(ms) == (o + j) + b);
    lemma_concat_associative(o + j, b, rest);
    lemma_concat_associative(o, j, b + rest);
    assert(s == o + (j + (b + rest)));
    assert(s[0] == 0x5b);
    lemma_skip_concat(o, j + (b + rest));
    assert(s.skip(1) == j + (b + rest));
    lemma_concat_associative(j, b, rest);
    lemma_parse_rules_items(ms, rest);
    assert(spec_parse_schedules(s).unwrap().0 == ms);
    assert(spec_parse_schedules(s).unwrap().1 == spec_schedules(ms).len());
}

/// Reads a reading's payload: a numeric `value` or a structured `data`.
#[verifier::opaque]
pub open spec fn spec_parse_body(s: Seq<u8>) -> Option<(BodyModel, int)> {
    match spec_expect(s, seg_value()) {
        Some(p1) => match spec_parse_millis(s.skip(p1)) {
            Some((mi, n)) => Some((BodyModel::Value { millis: mi }, p1 + n)),
            None => None,
        },
        None => match spec_expect(s, seg_dataf()) {
            Some(p1) => {
                let t = s.skip(p1);
                if t.len() > 0 && t[0] == 0x5b {
                    match spec_parse_schedules(t) {
                        Some((rules, n)) => Some((BodyModel::Schedules { rules }, p1 + n)),
                        None => None,
                    }
                } else {
                    match spec_parse_countdown(t) {
                        Some((st, n)) => Some((BodyModel::Countdown { status: st }, p1 + n)),
                        None => None,
                    }
                }
            },
            None => None,
        },
    }
}

/// Parsing inverts the payload encoder, whenever what follows cannot be
/// mistaken for more of the number.
#[verifier::rlimit(100)]
pub proof fn lemma_parse_body(bm: BodyModel, rest: Seq<u8>)
    requires
        rest.len() == 0 || (!is_digit(rest[0]) && rest[0] != 0x2e),
    ensures
        spec_parse_body(spec_body(bm) + rest) == Some::<(BodyModel, int)>(
            (bm, spec_body(bm).len() as int),
        ),
{
    reveal(spec_parse_body);
    let s = spec_body(bm) + rest;
    match bm {
        BodyModel::Value { millis } => {
            let a1 = seg_value();
            let a2 = spec_millis(millis);
            assert(spec_body(bm) == a1 + a2);
            lemma_concat_associative(a1, a2, rest);
            assert(s == a1 + (a2 + rest));
            lemma_expect_prefix(a1, a2 + rest);
            lemma_skip_concat(a1, a2 + rest);
            assert(s.skip(a1.len() as int) == a2 + rest);
            lemma_parse_millis_encode(millis, rest);
        },
        BodyModel::Countdown { status } => {
            let a1 = seg_dataf();
            let a2 = spec_countdown(status);
            assert(spec_body(bm) == a1 + a2);
            lemma_concat_associative(a1, a2, rest);
            assert(s == a1 + (a2 + rest));
            assert(s[2] == a1[2]);
            assert(s[2] != seg_value()[2]);
            lemma_expect_mismatch(s, seg_value(), 2);
            lemma_expect_prefix(a1, a2 + rest);
            lemma_skip_concat(a1, a2 + rest);
            let t = a2 + rest;
            assert(s.skip(a1.len() as int) == t);
            match status {
                None => {
                    assert(t[0] == 0x6e);
                    assert(!(t[0] == 0x5b));
                },
                Some(c) => {
                    assert(a2[0] == seg_remain()[0]);
                    assert(t[0] == 0x7b);
                    assert(!(t[0] == 0x5b));
                },
            }
            lemma_parse_countdown(status, rest);
        },
        BodyModel::Schedules { rules } => {
            let a1 = seg_dataf();
            let a2 = spec_schedules(rules);
            assert(spec_body(bm) == a1 + a2);
            lemma_concat_associative(a1, a2, rest);
            assert(s == a1 + (a2 + rest));
            assert(s[2] == a1[2]);
            assert(s[2] != seg_value()[2]);
            lemma_expect_mismatch(s, seg_value(), 2);
            lemma_expect_prefix(a1, a2 + rest);
            lemma_skip_concat(a1, a2 + rest);
            let t = a2 + rest;
            assert(s.skip(a1.len() as int) == t);
            assert(a2[0] == 0x5b);
            assert(t[0] == 0x5b);
            lemma_parse_schedules(rules, rest);
        },
    }
}

/// Reads one reading: device, channel, payload, closing brace.
#[verifier::opaque]
pub open spec fn spec_parse_reading(s: Seq<u8>) -> Option<(ReadingModel, int)> {
    match spec_expect(s, seg_device()) { None => None, Some(p1) =>
    match spec_parse_json_string(s.skip(p1)) { None => None, Some((device, m2)) => { let p2 = p1 + m2;
    match spec_expect(s.skip(p2), seg_channel()) { None => None, Some(m3) => { let p3 = p2 + m3;
    match spec_parse_json_string(s.skip(p3)) { None => None, Some((channel, m4)) => { let p4 = p3 + m4;
    match spec_parse_body(s.skip(p4)) { None => None, Some((body, m5)) => { let p5 = p4 + m5;
    match spec_expect(s.skip(p5), seq![0x7du8]) { None => None, Some(m6) => Some(
        (ReadingModel { device, channel, body }, p5 + m6),
    ) }}}}}}}}}}
}

/// Parsing inverts the reading encoder.
#[verifier::rlimit(100)]
pub proof fn lemma_parse_reading(m: ReadingModel, rest: Seq<u8>)
    ensures
        spec_parse_reading(spec_reading(m) + rest) == Some::<(ReadingModel, int)>(
            (m, spec_reading(m).len() as int),
        ),
{
    broadcast use encode_utf8_valid_utf8;
    broadcast use encode_utf8_decode_utf8;

    reveal(spec_parse_reading);
    let a1 = seg_device();
    let a2 = spec_json_string(m.device);
    let a3 = seg_channel();
    let a4 = spec_json_string(m.channel);
    let a5 = spec_body(m.body);
    let a6 = seq![0x7du8];
    let t7 = rest;
    let t6 = a6 + t7;
    let t5 = a5 + t6;
    let t4 = a4 + t5;
    let t3 = a3 + t4;
    let t2 = a2 + t3;
    let s = spec_reading(m) + rest;
    assert(spec_reading(m) == ((((a1 + a2) + a3) + a4) + a5) + a6);
    lemma_concat_associative((((a1 + a2) + a3) + a4) + a5, a6, rest);
    lemma_concat_associative(((a1 + a2) + a3) + a4, a5, t6);
    lemma_concat_associative((a1 + a2) + a3, a4, t5);
    lemma_concat_associative(a1 + a2, a3, t4);
    lemma_concat_associative(a1, a2, t3);
    assert(s == a1 + t2);
    lemma_expect_prefix(a1, t2);
    lemma_skip_concat(a1, t2);
    let q1 = a1.len() as int;
    assert(s.skip(q1) == t2);
    lemma_parse_json_string(m.device, t3);
    lemma_skip_skip(s, q1, a2.len() as int);
    lemma_skip_concat(a2, t3);
    let q2 = q1 + a2.len() as int;
    assert(s.skip(q2) == t3);
    lemma_expect_prefix(a3, t4);
    lemma_skip_skip(s, q2, a3.len() as int);
    lemma_skip_concat(a3, t4);
    let q3 = q2 + a3.len() as int;
    assert(s.skip(q3) == t4);
    lemma_parse_json_string(m.channel, t5);
    lemma_skip_skip(s, q3, a4.len() as int);
    lemma_skip_concat(a4, t5);
    let q4 = q3 + a4.len() as int;
    assert(s.skip(q4) == t5);
    assert(t6[0] == 0x7d);
    assert(!is_digit(t6[0]) && t6[0] != 0x2e);
    lemma_parse_body(m.body, t6);
    lemma_skip_skip(s, q4, a5.len() as int);
    lemma_skip_concat(a5, t6);
    let q5 = q4 + a5.len() as int;
    assert(s.skip(q5) == t6);
    lemma_expect_prefix(a6, rest);
    assert(spec_parse_reading(s).unwrap().0 == m);
    assert(spec_parse_reading(s).unwrap().1 == spec_reading(m).len());
}

/// A reading's encoding begins with an opening brace and is never empty.
pub proof fn lemma_reading_first_byte(m: ReadingModel)
    ensures
        spec_reading(m).len() >= 1,
        spec_reading(m)[0] == 0x7b,
{
    assert(spec_reading(m)[0] == seg_device()[0]);
}

/// Reads the tail of a batch: comma-separated readings up to the closing
/// bracket.
pub open spec fn spec_parse_readings_rest(s: Seq<u8>) -> Option<(Seq<ReadingModel>, int)>
    decreases s.len(),
{
    if s.len() == 0 {
        None
    } else if s[0] == 0x5d {
        Some((Seq::empty(), 1))
    } else if s[0] == 0x2c {
        match spec_parse_reading(s.skip(1)) {
            Some((m, n)) => if 0 < n && 1 + n <= s.len() {
                match spec_parse_readings_rest(s.skip(1 + n)) {
                    Some((ms, n2)) => Some((seq![m] + ms, 1 + n + n2)),
                    None => None,
                }
            } else {
                None
            },
            None => None,
        }
    } else {
        None
    }
}

/// Reads a batch after its opening bracket: readings up to the closing
/// bracket.
pub open spec fn spec_parse_readings_items(s: Seq<u8>) -> Option<(Seq<ReadingModel>, int)> {
    if s.len() == 0 {
        None
    } else if s[0] == 0x5d {
        Some((Seq::empty(), 1))
    } else {
        match spec_parse_reading(s) {
            Some((m, n)) => if 0 < n && n <= s.len() {
                match spec_parse_readings_rest(s.skip(n)) {
                    Some((ms, n2)) => Some((seq![m] + ms, n + n2)),
                    None => None,
                }
            } else {
                None
            },
            None => None,
        }
    }
}

/// Parsing inverts the joined batch tail.
#[verifier::rlimit(100)]
pub proof fn lemma_parse_readings_rest(ms: Seq<ReadingModel>, rest: Seq<u8>)
    ensures
        spec_parse_readings_rest(spec_readings_join_rest(ms) + seq![0x5du8] + rest) == Some::<
            (Seq<ReadingModel>, int),
        >((ms, spec_readings_join_rest(ms).len() as int + 1)),
    decreases ms.len(),
{
    let b = seq![0x5du8];
    let s = spec_readings_join_rest(ms) + b + rest;
    if ms.len() == 0 {
        assert(s =~= b + rest);
        assert(s[0] == 0x5d);
        assert(spec_parse_readings_rest(s).unwrap().0 =~= ms);
    } else {
        let c = seq![0x2cu8];
        let r0 = spec_reading(ms[0]);
        let ap = spec_readings_join_rest(ms.drop_first());
        assert(spec_readings_join_rest(ms) == ((c + r0) + ap));
        let t = ap + b + rest;
        lemma_concat_associative((c + r0) + ap, b, rest);
        lemma_concat_associative(c + r0, ap, b + rest);
        lemma_concat_associative(ap, b, rest);
        lemma_concat_associative(c, r0, t);
        assert(s == c + (r0 + t));
        lemma_reading_first_byte(ms[0]);
        assert(s[0] == 0x2c);
        assert(!(s[0] == 0x5d));
        lemma_skip_concat(c, r0 + t);
        assert(s.skip(1) == r0 + t);
        lemma_parse_reading(ms[0], t);
        lemma_skip_skip(s, 1, r0.len() as int);
        lemma_skip_concat(r0, t);
        assert(s.skip(1 + r0.len() as int) == t);
        lemma_parse_readings_rest(ms.drop_first(), rest);
        assert(seq![ms[0]] + ms.drop_first() =~= ms);
        assert(spec_parse_readings_rest(s).unwrap().0 == ms);
        assert(spec_parse_readings_rest(s).unwrap().1 == spec_readings_join_rest(ms).len() + 1);
    }
}

/// Parsing inverts the joined batch.
#[verifier::rlimit(100)]
pub proof fn lemma_parse_readings_items(ms: Seq<ReadingModel>, rest: Seq<u8>)
    ensures
        spec_parse_readings_items(spec_readings_join(ms) + seq![0x5du8] + rest) == Some::<
            (Seq<ReadingModel>, int),
        >((ms, spec_readings_join(ms).len() as int + 1)),
{
    let b = seq![0x5du8];
    let s = spec_readings_join(ms) + b + rest;
    if ms.len() == 0 {
        assert(s =~= b + rest);
        assert(s[0] == 0x5d);
        assert(spec_parse_readings_items(s).unwrap().0 =~= ms);
    } else {
        let r0 = spec_reading(ms[0]);
        let ap = spec_readings_join_rest(ms.drop_first());
        assert(spec_readings_join(ms) == r0 + ap);
        let t = ap + b + rest;
        lemma_concat_associative(r0 + ap, b, rest);
        lemma_concat_associative(r0, ap, b + rest);
        lemma_concat_associative(ap, b, rest);
        assert(s == r0 + t);
        lemma_reading_first_byte(ms[0]);
        assert(s[0] == r0[0]);
        assert(!(s[0] == 0x5d));
        lemma_parse_reading(ms[0], t);
        lemma_skip_concat(r0, t);
        assert(s.skip(r0.len() as int) == t);
        lemma_parse_readings_rest(ms.drop_first(), rest);
        assert(seq![ms[0]] + ms.drop_first() =~= ms);
        assert(spec_parse_readings_items(s).unwrap().0 == ms);
        assert(spec_parse_readings_items(s).unwrap().1 == spec_readings_join(ms).len() + 1);
    }
}

/// Reads a whole data message; the frame must hold the message and
/// nothing more.
pub open spec fn spec_parse_data_message(s: Seq<u8>) -> Option<Seq<ReadingModel>> {
    match spec_expect(s, seg_data()) {
        None => None,
        Some(p1) => match spec_parse_readings_items(s.skip(p1)) {
            None => None,
            Some((ms, n)) => {
                let p2 = p1 + n;
                match spec_expect(s.skip(p2), seq![0x7du8]) {
                    None => None,
                    Some(m3) => if p2 + m3 == s.len() {
                        Some(ms)
                    } else {
                        None
                    },
                }
            },
        },
    }
}

/// The round-trip law. Every batch of readings, serialized as the data
/// message, deserializes to an equal batch: parsing inverts encoding for
/// every model value, whatever the devices, channels and payloads hold.
#[verifier::rlimit(100)]
pub proof fn lemma_data_message_round_trip(ms: Seq<ReadingModel>)
    ensures
        spec_parse_data_message(spec_data_message(ms)) == Some(ms),
{
    let g = seg_data();
    let j = spec_readings_join(ms);
    let b = seq![0x5du8];
    let r = seq![0x7du8];
    let s = spec_data_message(ms);
    assert(seq![0x5du8, 0x7du8] =~= b + r);
    assert(s == (g + j) + (b + r));
    lemma_concat_associative(g, j, b + r);
    assert(s == g + (j + (b + r)));
    lemma_expect_prefix(g, j + (b + r));
    lemma_skip_concat(g, j + (b + r));
    assert(s.skip(g.len() as int) == j + (b + r));
    lemma_concat_associative(j, b, r);
    lemma_parse_readings_items(ms, r);
    lemma_skip_skip(s, g.len() as int, j.len() as int + 1);
    lemma_skip_concat(j + b, r);
    assert((j + b) + r == j + (b + r));
    assert(s.skip(g.len() as int + j.len() as int + 1) == r);
    lemma_expect_prefix(r, Seq::<u8>::empty());
    assert(r + Seq::<u8>::empty() =~= r);
    assert(spec_expect(r, seq![0x7du8]) == Some(1int));
    assert(spec_parse_data_message(s) == Some(ms));
}


/// Compares a fixed segment at position `i`, as `spec_expect` says, and
/// hands back the position after it.
pub fn expect_seg(input: &Vec<u8>, i: usize, lit: &Vec<u8>) -> (r: Option<usize>)
    requires
        i <= input@.len(),
    ensures
        match (r, spec_expect(input@.skip(i as int), lit@)) {
            (Some(j), Some(n)) => j == i + n && i <= j <= input@.len(),
            (None, None) => true,
            _ => false,
        },
{
    let ghost s = input@.skip(i as int);
    let ll = lit.len();
    let n = input.len();
    if n - i < ll {
        return None;
    }
    for k in 0..ll
        invariant
            i + ll <= n,
            n == input@.len(),
            ll == lit@.len(),
            s == input@.skip(i as int),
            forall|q: int| 0 <= q < k ==> s[q] == lit@[q],
    {
        proof {
            assert(s[k as int] == input@[i + k]);
        }
        if input[i + k] != lit[k] {
            proof {
                assert(s.subrange(0, ll as int)[k as int] == s[k as int]);
            }
            return None;
        }
    }
    proof {
        assert(s.subrange(0, ll as int) =~= lit@);
    }
    Some(i + ll)
}

/// Reads a quoted JSON string at position `i`, as
/// `spec_parse_json_string` says.
pub fn parse_json_string(input: &Vec<u8>, i: usize) -> (r: Option<(String, usize)>)
    requires
        i <= input@.len(),
    ensures
        match (r, spec_parse_json_string(input@.skip(i as int))) {
            (Some((v, j)), Some((sv, n))) => v@ == sv && j == i + n && i <= j <= input@.len(),
            (None, None) => true,
            _ => false,
        },
{
    let ghost s = input@.skip(i as int);
    if i >= input.len() || input[i] != QUOTE {
        proof {
            if i < input.len() {
                assert(s[0] == input@[i as int]);
            }
        }
        return None;
    }
    proof {
        assert(s[0] == input@[i as int]);
        assert(input@.skip(i as int + 1) =~= s.skip(1));
    }
    match scan_string(input, i + 1) {
        Some((content, j)) => {
            proof {
                lemma_scan_string_len(s.skip(1));
            }
            match string_from_utf8(content) {
                Some(text) => Some((text, j)),
                None => None,
            }
        },
        None => None,
    }
}

/// Reads `true`, `false` or `null` at position `i`.
pub fn parse_opt_bool(input: &Vec<u8>, i: usize) -> (r: Option<(Option<bool>, usize)>)
    requires
        i <= input@.len(),
    ensures
        match (r, spec_parse_opt_bool(input@.skip(i as int))) {
            (Some((v, j)), Some((sv, n))) => v == sv && j == i + n && i <= j <= input@.len(),
            (None, None) => true,
            _ => false,
        },
{
    let t: Vec<u8> = vec![0x74u8, 0x72u8, 0x75u8, 0x65u8];
    let f: Vec<u8> = vec![0x66u8, 0x61u8, 0x6cu8, 0x73u8, 0x65u8];
    let nl: Vec<u8> = vec![0x6eu8, 0x75u8, 0x6cu8, 0x6cu8];
    proof {
        assert(t@ == lit_true());
        assert(f@ == lit_false());
        assert(nl@ == lit_null());
    }
    match expect_seg(input, i, &t) {
        Some(j) => Some((Some(true), j)),
        None => match expect_seg(input, i, &f) {
            Some(j) => Some((Some(false), j)),
            None => match expect_seg(input, i, &nl) {
                Some(j) => Some((None, j)),
                None => None,
            },
        },
    }
}

/// Reads `"on"`, `"off"` or `null` at position `i`.
pub fn parse_action(input: &Vec<u8>, i: usize) -> (r: Option<(Option<bool>, usize)>)
    requires
        i <= input@.len(),
    ensures
        match (r, spec_parse_action(input@.skip(i as int))) {
            (Some((v, j)), Some((sv, n))) => v == sv && j == i + n && i <= j <= input@.len(),
            (None, None) => true,
            _ => false,
        },
{
    let on: Vec<u8> = vec![0x22u8, 0x6fu8, 0x6eu8, 0x22u8];
    let off: Vec<u8> = vec![0x22u8, 0x6fu8, 0x66u8, 0x66u8, 0x22u8];
    let nl: Vec<u8> = vec![0x6eu8, 0x75u8, 0x6cu8, 0x6cu8];
    proof {
        assert(on@ == lit_on());
        assert(off@ == lit_off());
        assert(nl@ == lit_null());
    }
    match expect_seg(input, i, &on) {
        Some(j) => Some((Some(true), j)),
        None => match expect_seg(input, i, &off) {
            Some(j) => Some((Some(false), j)),
            None => match expect_seg(input, i, &nl) {
                Some(j) => Some((None, j)),
                None => None,
            },
        },
    }
}

/// Reads a byte-sized numeral or `null` at position `i`.
pub fn parse_opt_u8(input: &Vec<u8>, i: usize) -> (r: Option<(Option<u8>, usize)>)
    requires
        i <= input@.len(),
    ensures
        match (r, spec_parse_opt_u8(input@.skip(i as int))) {
            (Some((v, j)), Some((sv, n))) => v == sv && j == i + n && i <= j <= input@.len(),
            (None, None) => true,
            _ => false,
        },
{
    let ghost s = input@.skip(i as int);
    proof {
        if i < input.len() {
            assert(s[0] == input@[i as int]);
        }
    }
    if i < input.len() && input[i] == 0x6e {
        let nl: Vec<u8> = vec![0x6eu8, 0x75u8, 0x6cu8, 0x6cu8];
        proof {
            assert(nl@ == lit_null());
        }
        match expect_seg(input, i, &nl) {
            Some(j) => Some((None, j)),
            None => None,
        }
    } else {
        match parse_u64(input, i) {
            Some((v, j)) => if v <= 255 {
                Some((Some(v as u8), j))
            } else {
                None
            },
            None => None,
        }
    }
}

/// Reads a sixteen-bit numeral or `null` at position `i`.
pub fn parse_opt_u16(input: &Vec<u8>, i: usize) -> (r: Option<(Option<u16>, usize)>)
    requires
        i <= input@.len(),
    ensures
        match (r, spec_parse_opt_u16(input@.skip(i as int))) {
            (Some((v, j)), Some((sv, n))) => v == sv && j == i + n && i <= j <= input@.len(),
            (None, None) => true,
            _ => false,
        },
{
    let ghost s = input@.skip(i as int);
    proof {
        if i < input.len() {
            assert(s[0] == input@[i as int]);
        }
    }
    if i < input.len() && input[i] == 0x6e {
        let nl: Vec<u8> = vec![0x6eu8, 0x75u8, 0x6cu8, 0x6cu8];
        proof {
            assert(nl@ == lit_null());
        }
        match expect_seg(input, i, &nl) {
            Some(j) => Some((None, j)),
            None => None,
        }
    } else {
        match parse_u64(input, i) {
            Some((v, j)) => if v <= 65535 {
                Some((Some(v as u16), j))
            } else {
                None
            },
            None => None,
        }
    }
}

/// Reads a JSON string or `null` at position `i`.
pub fn parse_opt_string(input: &Vec<u8>, i: usize) -> (r: Option<(Option<String>, usize)>)
    requires
        i <= input@.len(),
    ensures
        match (r, spec_parse_opt_string(input@.skip(i as int))) {
            (Some((v, j)), Some((sv, n))) => (match (v, sv) {
                (Some(x), Some(y)) => x@ == y,
                (None, None) => true,
                _ => false,
            }) && j == i + n && i <= j <= input@.len(),
            (None, None) => true,
            _ => false,
        },
{
    let ghost s = input@.skip(i as int);
    proof {
        if i < input.len() {
            assert(s[0] == input@[i as int]);
        }
    }
    if i < input.len() && input[i] == 0x6e {
        let nl: Vec<u8> = vec![0x6eu8, 0x75u8, 0x6cu8, 0x6cu8];
        proof {
            assert(nl@ == lit_null());
        }
        match expect_seg(input, i, &nl) {
            Some(j) => Some((None, j)),
            None => None,
        }
    } else {
        match parse_json_string(input, i) {
            Some((v, j)) => Some((Some(v), j)),
            None => None,
        }
    }
}

/// Reads a countdown sample at position `i`.
pub fn parse_countdown(input: &Vec<u8>, i: usize) -> (r: Option<(Option<CountdownStatus>, usize)>)
    requires
        i <= input@.len(),
    ensures
        match (r, spec_parse_countdown(input@.skip(i as int))) {
            (Some((v, j)), Some((sv, n))) => v == sv && j == i + n && i <= j <= input@.len(),
            (None, None) => true,
            _ => false,
        },
{
    let ghost s = input@.skip(i as int);
    proof {
        if i < input.len() {
            assert(s[0] == input@[i as int]);
        }
    }
    if i < input.len() && input[i] == 0x6e {
        let nl: Vec<u8> = vec![0x6eu8, 0x75u8, 0x6cu8, 0x6cu8];
        proof {
            assert(nl@ == lit_null());
        }
        match expect_seg(input, i, &nl) {
            Some(j) => Some((None, j)),
            None => None,
        }
    } else {
        let remain_key: Vec<u8> = vec![
            0x7bu8, 0x22u8, 0x72u8, 0x65u8, 0x6du8, 0x61u8, 0x69u8, 0x6eu8, 0x22u8, 0x3au8,
        ];
        let action_key: Vec<u8> = vec![
            0x2cu8, 0x22u8, 0x61u8, 0x63u8, 0x74u8, 0x69u8, 0x6fu8, 0x6eu8, 0x22u8, 0x3au8,
        ];
        let rb: Vec<u8> = vec![0x7du8];
        proof {
            assert(remain_key@ == seg_remain());
            assert(action_key@ == seg_action());
            assert(rb@ == seq![0x7du8]);
        }
        let p1 = match expect_seg(input, i, &remain_key) {
            Some(p) => p,
            None => {
                return None;
            },
        };
        proof {
            assert(input@.skip(p1 as int) =~= s.skip(p1 - i));
        }
        let (remain, p2) = match parse_u64(input, p1) {
            Some(x) => x,
            None => {
                return None;
            },
        };
        proof {
            assert(input@.skip(p2 as int) =~= s.skip(p2 - i));
        }
        let p3 = match expect_seg(input, p2, &action_key) {
            Some(p) => p,
            None => {
                return None;
            },
        };
        proof {
            assert(input@.skip(p3 as int) =~= s.skip(p3 - i));
        }
        let (turn_on, p4) = match parse_action(input, p3) {
            Some(x) => x,
            None => {
                return None;
            },
        };
        proof {
            assert(input@.skip(p4 as int) =~= s.skip(p4 - i));
        }
        let p5 = match expect_seg(input, p4, &rb) {
            Some(p) => p,
            None => {
                return None;
            },
        };
        Some((Some(CountdownStatus { remain, turn_on }), p5))
    }
}

/// Reads a rule's desired state at position `i`.
pub fn parse_desired(input: &Vec<u8>, i: usize) -> (r: Option<(Option<DesiredState>, usize)>)
    requires
        i <= input@.len(),
    ensures
        match (r, spec_parse_desired(input@.skip(i as int))) {
            (Some((v, j)), Some((sv, n))) => (match (v, sv) {
                (Some(ds), Some(b)) => ds.on == b,
                (None, None) => true,
                _ => false,
            }) && j == i + n && i <= j <= input@.len(),
            (None, None) => true,
            _ => false,
        },
{
    let ghost s = input@.skip(i as int);
    proof {
        if i < input.len() {
            assert(s[0] == input@[i as int]);
        }
    }
    if i < input.len() && input[i] == 0x6e {
        let nl: Vec<u8> = vec![0x6eu8, 0x75u8, 0x6cu8, 0x6cu8];
        proof {
            assert(nl@ == lit_null());
        }
        match expect_seg(input, i, &nl) {
            Some(j) => Some((None, j)),
            None => None,
        }
    } else {
        let on_key: Vec<u8> = vec![0x7bu8, 0x22u8, 0x6fu8, 0x6eu8, 0x22u8, 0x3au8];
        let rb: Vec<u8> = vec![0x7du8];
        proof {
            assert(on_key@ == seg_on_key());
            assert(rb@ == seq![0x7du8]);
        }
        let p1 = match expect_seg(input, i, &on_key) {
            Some(p) => p,
            None => {
                return None;
            },
        };
        proof {
            assert(input@.skip(p1 as int) =~= s.skip(p1 - i));
        }
        let (b, p2) = match parse_opt_bool(input, p1) {
            Some(x) => x,
            None => {
                return None;
            },
        };
        proof {
            assert(input@.skip(p2 as int) =~= s.skip(p2 - i));
        }
        let p3 = match expect_seg(input, p2, &rb) {
            Some(p) => p,
            None => {
                return None;
            },
        };
        Some((Some(DesiredState { on: b }), p3))
    }
}


/// Reads a rule's id and enable fields at position `i`.
pub fn parse_rule_ids(input: &Vec<u8>, i: usize) -> (r: Option<((String, bool), usize)>)
    requires
        i <= input@.len(),
    ensures
        match (r, spec_parse_rule_ids(input@.skip(i as int))) {
            (Some(((id, en), j)), Some((m, n))) => id@ == m.0 && en == m.1 && j == i + n && i <= j
                <= input@.len(),
            (None, None) => true,
            _ => false,
        },
{
    proof {
        reveal(spec_parse_rule_ids);
    }
    let ghost s = input@.skip(i as int);
    let id_key: Vec<u8> = vec![0x7bu8, 0x22u8, 0x69u8, 0x64u8, 0x22u8, 0x3au8];
    let enable_key: Vec<u8> = vec![
        0x2cu8, 0x22u8, 0x65u8, 0x6eu8, 0x61u8, 0x62u8, 0x6cu8, 0x65u8, 0x22u8, 0x3au8,
    ];
    proof {
        assert(id_key@ == seg_id());
        assert(enable_key@ == seg_enable());
    }
    let p1 = match expect_seg(input, i, &id_key) {
        Some(p) => p,
        None => {
            return None;
        },
    };
    proof {
        assert(input@.skip(p1 as int) =~= s.skip(p1 - i));
    }
    let (id, p2) = match parse_json_string(input, p1) {
        Some(x) => x,
        None => {
            return None;
        },
    };
    proof {
        assert(input@.skip(p2 as int) =~= s.skip(p2 - i));
    }
    let p3 = match expect_seg(input, p2, &enable_key) {
        Some(p) => p,
        None => {
            return None;
        },
    };
    proof {
        assert(input@.skip(p3 as int) =~= s.skip(p3 - i));
    }
    let (b, p4) = match parse_opt_bool(input, p3) {
        Some(x) => x,
        None => {
            return None;
        },
    };
    match b {
        Some(en) => Some(((id, en), p4)),
        None => None,
    }
}

/// Reads a rule's numeric fields at position `i`.
pub fn parse_rule_nums(input: &Vec<u8>, i: usize) -> (r: Option<((u8, u16, u16), usize)>)
    requires
        i <= input@.len(),
    ensures
        match (r, spec_parse_rule_nums(input@.skip(i as int))) {
            (Some((v, j)), Some((m, n))) => v == m && j == i + n && i <= j <= input@.len(),
            (None, None) => true,
            _ => false,
        },
{
    proof {
        reveal(spec_parse_rule_nums);
    }
    let ghost s = input@.skip(i as int);
    let wd_key: Vec<u8> = vec![
        0x2cu8, 0x22u8, 0x77u8, 0x65u8, 0x65u8, 0x6bu8, 0x5fu8, 0x64u8, 0x61u8, 0x79u8, 0x22u8,
        0x3au8,
    ];
    let smin_key: Vec<u8> = vec![
        0x2cu8, 0x22u8, 0x73u8, 0x5fu8, 0x6du8, 0x69u8, 0x6eu8, 0x22u8, 0x3au8,
    ];
    let emin_key: Vec<u8> = vec![
        0x2cu8, 0x22u8, 0x65u8, 0x5fu8, 0x6du8, 0x69u8, 0x6eu8, 0x22u8, 0x3au8,
    ];
    proof {
        assert(wd_key@ == seg_week_day());
        assert(smin_key@ == seg_s_min());
        assert(emin_key@ == seg_e_min());
    }
    let p1 = match expect_seg(input, i, &wd_key) {
        Some(p) => p,
        None => {
            return None;
        },
    };
    proof {
        assert(input@.skip(p1 as int) =~= s.skip(p1 - i));
    }
    let (wd, p2) = match parse_u64(input, p1) {
        Some(x) => x,
        None => {
            return None;
        },
    };
    if wd > 255 {
        return None;
    }
    proof {
        assert(input@.skip(p2 as int) =~= s.skip(p2 - i));
    }
    let p3 = match expect_seg(input, p2, &smin_key) {
        Some(p) => p,
        None => {
            return None;
        },
    };
    proof {
        assert(input@.skip(p3 as int) =~= s.skip(p3 - i));
    }
    let (sm, p4) = match parse_u64(input, p3) {
        Some(x) => x,
        None => {
            return None;
        },
    };
    if sm > 65535 {
        return None;
    }
    proof {
        assert(input@.skip(p4 as int) =~= s.skip(p4 - i));
    }
    let p5 = match expect_seg(input, p4, &emin_key) {
        Some(p) => p,
        None => {
            return None;
        },
    };
    proof {
        assert(input@.skip(p5 as int) =~= s.skip(p5 - i));
    }
    let (em, p6) = match parse_u64(input, p5) {
        Some(x) => x,
        None => {
            return None;
        },
    };
    if em > 65535 {
        return None;
    }
    Some(((wd as u8, sm as u16, em as u16), p6))
}

/// Reads a rule's mode field at position `i`.
pub fn parse_rule_mode(input: &Vec<u8>, i: usize) -> (r: Option<(Option<String>, usize)>)
    requires
        i <= input@.len(),
    ensures
        match (r, spec_parse_rule_mode(input@.skip(i as int))) {
            (Some((v, j)), Some((m, n))) => (match (v, m) {
                (Some(x), Some(y)) => x@ == y,
                (None, None) => true,
                _ => false,
            }) && j == i + n && i <= j <= input@.len(),
            (None, None) => true,
            _ => false,
        },
{
    proof {
        reveal(spec_parse_rule_mode);
    }
    let ghost s = input@.skip(i as int);
    let mode_key: Vec<u8> = vec![
        0x2cu8, 0x22u8, 0x6du8, 0x6fu8, 0x64u8, 0x65u8, 0x22u8, 0x3au8,
    ];
    proof {
        assert(mode_key@ == seg_mode());
    }
    let p1 = match expect_seg(input, i, &mode_key) {
        Some(p) => p,
        None => {
            return None;
        },
    };
    proof {
        assert(input@.skip(p1 as int) =~= s.skip(p1 - i));
    }
    match parse_opt_string(input, p1) {
        Some((v, p2)) => Some((v, p2)),
        None => None,
    }
}

/// Reads a rule's day and month fields at position `i`.
pub fn parse_rule_dm(input: &Vec<u8>, i: usize) -> (r: Option<((Option<u8>, Option<u8>), usize)>)
    requires
        i <= input@.len(),
    ensures
        match (r, spec_parse_rule_dm(input@.skip(i as int))) {
            (Some((v, j)), Some((m, n))) => v == m && j == i + n && i <= j <= input@.len(),
            (None, None) => true,
            _ => false,
        },
{
    proof {
        reveal(spec_parse_rule_dm);
    }
    let ghost s = input@.skip(i as int);
    let day_key: Vec<u8> = vec![0x2cu8, 0x22u8, 0x64u8, 0x61u8, 0x79u8, 0x22u8, 0x3au8];
    let month_key: Vec<u8> = vec![
        0x2cu8, 0x22u8, 0x6du8, 0x6fu8, 0x6eu8, 0x74u8, 0x68u8, 0x22u8, 0x3au8,
    ];
    proof {
        assert(day_key@ == seg_day());
        assert(month_key@ == seg_month());
    }
    let p1 = match expect_seg(input, i, &day_key) {
        Some(p) => p,
        None => {
            return None;
        },
    };
    proof {
        assert(input@.skip(p1 as int) =~= s.skip(p1 - i));
    }
    let (day, p2) = match parse_opt_u8(input, p1) {
        Some(x) => x,
        None => {
            return None;
        },
    };
    proof {
        assert(input@.skip(p2 as int) =~= s.skip(p2 - i));
    }
    let p3 = match expect_seg(input, p2, &month_key) {
        Some(p) => p,
        None => {
            return None;
        },
    };
    proof {
        assert(input@.skip(p3 as int) =~= s.skip(p3 - i));
    }
    let (month, p4) = match parse_opt_u8(input, p3) {
        Some(x) => x,
        None => {
            return None;
        },
    };
    Some(((day, month), p4))
}

/// Reads a rule's year field at position `i`.
pub fn parse_rule_year(input: &Vec<u8>, i: usize) -> (r: Option<(Option<u16>, usize)>)
    requires
        i <= input@.len(),
    ensures
        match (r, spec_parse_rule_year(input@.skip(i as int))) {
            (Some((v, j)), Some((m, n))) => v == m && j == i + n && i <= j <= input@.len(),
            (None, None) => true,
            _ => false,
        },
{
    proof {
        reveal(spec_parse_rule_year);
    }
    let ghost s = input@.skip(i as int);
    let year_key: Vec<u8> = vec![
        0x2cu8, 0x22u8, 0x79u8, 0x65u8, 0x61u8, 0x72u8, 0x22u8, 0x3au8,
    ];
    proof {
        assert(year_key@ == seg_year());
    }
    let p1 = match expect_seg(input, i, &year_key) {
        Some(p) => p,
        None => {
            return None;
        },
    };
    proof {
        assert(input@.skip(p1 as int) =~= s.skip(p1 - i));
    }
    match parse_opt_u16(input, p1) {
        Some((v, p2)) => Some((v, p2)),
        None => None,
    }
}

/// Reads a rule's optional date fields at position `i`.
pub fn parse_rule_opts(input: &Vec<u8>, i: usize) -> (r: Option<
    ((Option<u8>, Option<u8>, Option<u16>), usize),
>)
    requires
        i <= input@.len(),
    ensures
        match (r, spec_parse_rule_opts(input@.skip(i as int))) {
            (Some((v, j)), Some((m, n))) => v == m && j == i + n && i <= j <= input@.len(),
            (None, None) => true,
            _ => false,
        },
{
    proof {
        reveal(spec_parse_rule_opts);
    }
    let ghost s = input@.skip(i as int);
    let ((day, month), p1) = match parse_rule_dm(input, i) {
        Some(x) => x,
        None => {
            return None;
        },
    };
    proof {
        assert(input@.skip(p1 as int) =~= s.skip(p1 - i));
    }
    match parse_rule_year(input, p1) {
        Some((year, p2)) => Some(((day, month, year), p2)),
        None => None,
    }
}

/// Reads a rule's desired state and closing brace at position `i`.
pub fn parse_rule_tail(input: &Vec<u8>, i: usize) -> (r: Option<(Option<DesiredState>, usize)>)
    requires
        i <= input@.len(),
    ensures
        match (r, spec_parse_rule_tail(input@.skip(i as int))) {
            (Some((v, j)), Some((m, n))) => (match (v, m) {
                (Some(ds), Some(b)) => ds.on == b,
                (None, None) => true,
                _ => false,
            }) && j == i + n && i <= j <= input@.len(),
            (None, None) => true,
            _ => false,
        },
{
    proof {
        reveal(spec_parse_rule_tail);
    }
    let ghost s = input@.skip(i as int);
    let des_key: Vec<u8> = vec![
        0x2cu8, 0x22u8, 0x64u8, 0x65u8, 0x73u8, 0x69u8, 0x72u8, 0x65u8, 0x64u8, 0x5fu8, 0x73u8,
        0x74u8, 0x61u8, 0x74u8, 0x65u8, 0x73u8, 0x22u8, 0x3au8,
    ];
    let rb: Vec<u8> = vec![0x7du8];
    proof {
        assert(des_key@ == seg_desired());
        assert(rb@ == seq![0x7du8]);
    }
    let p1 = match expect_seg(input, i, &des_key) {
        Some(p) => p,
        None => {
            return None;
        },
    };
    proof {
        assert(input@.skip(p1 as int) =~= s.skip(p1 - i));
    }
    let (d, p2) = match parse_desired(input, p1) {
        Some(x) => x,
        None => {
            return None;
        },
    };
    proof {
        assert(input@.skip(p2 as int) =~= s.skip(p2 - i));
    }
    let p3 = match expect_seg(input, p2, &rb) {
        Some(p) => p,
        None => {
            return None;
        },
    };
    Some((d, p3))
}

/// Reads one schedule rule at position `i`, as `spec_parse_schedule_rule`
/// says.
pub fn parse_schedule_rule(input: &Vec<u8>, i: usize) -> (r: Option<(ScheduleRule, usize)>)
    requires
        i <= input@.len(),
    ensures
        match (r, spec_parse_schedule_rule(input@.skip(i as int))) {
            (Some((v, j)), Some((m, n))) => v@ == m && j == i + n && i <= j <= input@.len(),
            (None, None) => true,
            _ => false,
        },
{
    proof {
        reveal(spec_parse_schedule_rule);
    }
    let ghost s = input@.skip(i as int);
    let ((id, enable), p1) = match parse_rule_ids(input, i) {
        Some(x) => x,
        None => {
            return None;
        },
    };
    proof {
        assert(input@.skip(p1 as int) =~= s.skip(p1 - i));
    }
    let ((week_day, s_min, e_min), p2) = match parse_rule_nums(input, p1) {
        Some(x) => x,
        None => {
            return None;
        },
    };
    proof {
        assert(input@.skip(p2 as int) =~= s.skip(p2 - i));
    }
    let (mode, p3) = match parse_rule_mode(input, p2) {
        Some(x) => x,
        None => {
            return None;
        },
    };
    proof {
        assert(input@.skip(p3 as int) =~= s.skip(p3 - i));
    }
    let ((day, month, year), p4) = match parse_rule_opts(input, p3) {
        Some(x) => x,
        None => {
            return None;
        },
    };
    proof {
        assert(input@.skip(p4 as int) =~= s.skip(p4 - i));
    }
    let (desired_states, p5) = match parse_rule_tail(input, p4) {
        Some(x) => x,
        None => {
            return None;
        },
    };
    Some(
        (
            ScheduleRule {
                id,
                enable,
                week_day,
                s_min,
                e_min,
                mode,
                day,
                month,
                year,
                desired_states,
            },
            p5,
        ),
    )
}

/// Reads a schedule list at position `i`, as `spec_parse_schedules` says.
pub fn parse_schedules(input: &Vec<u8>, i: usize) -> (r: Option<(Vec<ScheduleRule>, usize)>)
    requires
        i <= input@.len(),
    ensures
        match (r, spec_parse_schedules(input@.skip(i as int))) {
            (Some((v, j)), Some((ms, n))) => v@.map_values(|x: ScheduleRule| x@) == ms && j == i + n
                && i <= j <= input@.len(),
            (None, None) => true,
            _ => false,
        },
{
    let ghost s = input@.skip(i as int);
    let len = input.len();
    if i >= len || input[i] != 0x5b {
        proof {
            if i < len {
                assert(s[0] == input@[i as int]);
            }
        }
        return None;
    }
    proof {
        assert(s[0] == input@[i as int]);
        assert(input@.skip(i as int + 1) =~= s.skip(1));
    }
    let ghost s0 = input@.skip(i as int + 1);
    if i + 1 >= len {
        proof {
            assert(s0.len() == 0);
        }
        return None;
    }
    proof {
        assert(s0[0] == input@[i + 1]);
    }
    if input[i + 1] == 0x5d {
        let empty: Vec<ScheduleRule> = Vec::new();
        proof {
            assert(empty@.map_values(|x: ScheduleRule| x@) =~= Seq::<ScheduleRuleModel>::empty());
        }
        return Some((empty, i + 2));
    }
    let (first, p) = match parse_schedule_rule(input, i + 1) {
        Some(x) => x,
        None => {
            return None;
        },
    };
    if !(p > i + 1) {
        return None;
    }
    let mut acc: Vec<ScheduleRule> = Vec::new();
    acc.push(first);
    let mut pos = p;
    proof {
        assert(acc@.map_values(|x: ScheduleRule| x@) =~= seq![first@]);
        assert(input@.skip(p as int) =~= s0.skip(p - i - 1));
    }
    loop
        invariant
            i + 1 < pos <= len,
            len == input@.len(),
            s0 == input@.skip(i as int + 1),
            s == input@.skip(i as int),
            s.len() > 0 && s[0] == 0x5b,
            s0 =~= s.skip(1),
            ({
                match spec_parse_rules_rest(input@.skip(pos as int)) {
                    Some((ms2, n2)) => spec_parse_rules_items(s0) == Some::<
                        (Seq<ScheduleRuleModel>, int),
                    >(
                        (
                            acc@.map_values(|x: ScheduleRule| x@) + ms2,
                            (pos - i - 1) + n2,
                        ),
                    ),
                    None => spec_parse_rules_items(s0) is None,
                }
            }),
        decreases len - pos,
    {
        let ghost sp = input@.skip(pos as int);
        if pos >= len {
            return None;
        }
        proof {
            assert(sp[0] == input@[pos as int]);
        }
        let b = input[pos];
        if b == 0x5d {
            proof {
                assert(spec_parse_rules_rest(sp) == Some::<(Seq<ScheduleRuleModel>, int)>(
                    (Seq::empty(), 1int),
                ));
                assert(acc@.map_values(|x: ScheduleRule| x@) + Seq::<ScheduleRuleModel>::empty()
                    =~= acc@.map_values(|x: ScheduleRule| x@));
            }
            return Some((acc, pos + 1));
        }
        if b != 0x2c {
            return None;
        }
        proof {
            assert(input@.skip(pos + 1) =~= sp.skip(1));
        }
        let (r2, p2) = match parse_schedule_rule(input, pos + 1) {
            Some(x) => x,
            None => {
                return None;
            },
        };
        if !(p2 > pos + 1) {
            return None;
        }
        let ghost oldmap = acc@.map_values(|x: ScheduleRule| x@);
        acc.push(r2);
        proof {
            assert(input@.skip(p2 as int) =~= sp.skip(1 + (p2 - pos - 1)));
            assert(acc@.map_values(|x: ScheduleRule| x@) =~= oldmap.push(r2@));
            if spec_parse_rules_rest(input@.skip(p2 as int)) is Some {
                let (ms3, n3) = spec_parse_rules_rest(input@.skip(p2 as int)).unwrap();
                assert(oldmap + (seq![r2@] + ms3) =~= oldmap.push(r2@) + ms3);
            }
        }
        pos = p2;
    }
}

/// Reads a reading's payload at position `i`, as `spec_parse_body` says.
pub fn parse_body(input: &Vec<u8>, i: usize) -> (r: Option<(ReadingBody, usize)>)
    requires
        i <= input@.len(),
    ensures
        match (r, spec_parse_body(input@.skip(i as int))) {
            (Some((v, j)), Some((m, n))) => v@ == m && j == i + n && i <= j <= input@.len(),
            (None, None) => true,
            _ => false,
        },
{
    proof {
        reveal(spec_parse_body);
    }
    let ghost s = input@.skip(i as int);
    let value_key: Vec<u8> = vec![
        0x2cu8, 0x22u8, 0x76u8, 0x61u8, 0x6cu8, 0x75u8, 0x65u8, 0x22u8, 0x3au8,
    ];
    let data_key: Vec<u8> = vec![
        0x2cu8, 0x22u8, 0x64u8, 0x61u8, 0x74u8, 0x61u8, 0x22u8, 0x3au8,
    ];
    proof {
        assert(value_key@ == seg_value());
        assert(data_key@ == seg_dataf());
    }
    match expect_seg(input, i, &value_key) {
        Some(p1) => {
            proof {
                assert(input@.skip(p1 as int) =~= s.skip(p1 - i));
            }
            match parse_millis(input, p1) {
                Some((mi, p2)) => Some((ReadingBody::Value { millis: mi }, p2)),
                None => None,
            }
        },
        None => {
            let p1 = match expect_seg(input, i, &data_key) {
                Some(p) => p,
                None => {
                    return None;
                },
            };
            proof {
                assert(input@.skip(p1 as int) =~= s.skip(p1 - i));
            }
            let ghost t = s.skip(p1 - i);
            if p1 < input.len() && input[p1] == 0x5b {
                proof {
                    assert(t[0] == input@[p1 as int]);
                }
                match parse_schedules(input, p1) {
                    Some((rules, p2)) => Some(
                        (ReadingBody::Data { data: StructuredData::Schedules { rules } }, p2),
                    ),
                    None => None,
                }
            } else {
                proof {
                    if p1 < input.len() {
                        assert(t[0] == input@[p1 as int]);
                    }
                    assert(!(t.len() > 0 && t[0] == 0x5b));
                }
                match parse_countdown(input, p1) {
                    Some((status, p2)) => Some(
                        (ReadingBody::Data { data: StructuredData::Countdown { status } }, p2),
                    ),
                    None => None,
                }
            }
        },
    }
}

/// Reads one reading at position `i`, as `spec_parse_reading` says.
pub fn parse_reading(input: &Vec<u8>, i: usize) -> (r: Option<(Reading, usize)>)
    requires
        i <= input@.len(),
    ensures
        match (r, spec_parse_reading(input@.skip(i as int))) {
            (Some((v, j)), Some((m, n))) => v@ == m && j == i + n && i <= j <= input@.len(),
            (None, None) => true,
            _ => false,
        },
{
    proof {
        reveal(spec_parse_reading);
    }
    let ghost s = input@.skip(i as int);
    let dev_key: Vec<u8> = vec![
        0x7bu8, 0x22u8, 0x64u8, 0x65u8, 0x76u8, 0x69u8, 0x63u8, 0x65u8, 0x22u8, 0x3au8,
    ];
    let chan_key: Vec<u8> = vec![
        0x2cu8, 0x22u8, 0x63u8, 0x68u8, 0x61u8, 0x6eu8, 0x6eu8, 0x65u8, 0x6cu8, 0x22u8, 0x3au8,
    ];
    let rb: Vec<u8> = vec![0x7du8];
    proof {
        assert(dev_key@ == seg_device());
        assert(chan_key@ == seg_channel());
        assert(rb@ == seq![0x7du8]);
    }
    let p1 = match expect_seg(input, i, &dev_key) {
        Some(p) => p,
        None => {
            return None;
        },
    };
    proof {
        assert(input@.skip(p1 as int) =~= s.skip(p1 - i));
    }
    let (device, p2) = match parse_json_string(input, p1) {
        Some(x) => x,
        None => {
            return None;
        },
    };
    proof {
        assert(input@.skip(p2 as int) =~= s.skip(p2 - i));
    }
    let p3 = match expect_seg(input, p2, &chan_key) {
        Some(p) => p,
        None => {
            return None;
        },
    };
    proof {
        assert(input@.skip(p3 as int) =~= s.skip(p3 - i));
    }
    let (channel, p4) = match parse_json_string(input, p3) {
        Some(x) => x,
        None => {
            return None;
        },
    };
    proof {
        assert(input@.skip(p4 as int) =~= s.skip(p4 - i));
    }
    let (body, p5) = match parse_body(input, p4) {
        Some(x) => x,
        None => {
            return None;
        },
    };
    proof {
        assert(input@.skip(p5 as int) =~= s.skip(p5 - i));
    }
    let p6 = match expect_seg(input, p5, &rb) {
        Some(p) => p,
        None => {
            return None;
        },
    };
    Some((Reading { device, channel, body }, p6))
}

/// Reads a batch after the opening bracket at position `i`, as
/// `spec_parse_readings_items` says.
pub fn parse_readings_items(input: &Vec<u8>, i: usize) -> (r: Option<(Vec<Reading>, usize)>)
    requires
        i <= input@.len(),
    ensures
        match (r, spec_parse_readings_items(input@.skip(i as int))) {
            (Some((v, j)), Some((ms, n))) => v@.map_values(|x: Reading| x@) == ms && j == i + n
                && i <= j <= input@.len(),
            (None, None) => true,
            _ => false,
        },
{
    let ghost s0 = input@.skip(i as int);
    let len = input.len();
    if i >= len {
        return None;
    }
    proof {
        assert(s0[0] == input@[i as int]);
    }
    if input[i] == 0x5d {
        let empty: Vec<Reading> = Vec::new();
        proof {
            assert(empty@.map_values(|x: Reading| x@) =~= Seq::<ReadingModel>::empty());
        }
        return Some((empty, i + 1));
    }
    let (first, p) = match parse_reading(input, i) {
        Some(x) => x,
        None => {
            return None;
        },
    };
    if !(p > i) {
        return None;
    }
    let mut acc: Vec<Reading> = Vec::new();
    acc.push(first);
    let mut pos = p;
    proof {
        assert(acc@.map_values(|x: Reading| x@) =~= seq![first@]);
        assert(input@.skip(p as int) =~= s0.skip(p - i));
    }
    loop
        invariant
            i < pos <= len,
            len == input@.len(),
            s0 == input@.skip(i as int),
            ({
                match spec_parse_readings_rest(input@.skip(pos as int)) {
                    Some((ms2, n2)) => spec_parse_readings_items(s0) == Some::<
                        (Seq<ReadingModel>, int),
                    >((acc@.map_values(|x: Reading| x@) + ms2, (pos - i) + n2)),
                    None => spec_parse_readings_items(s0) is None,
                }
            }),
        decreases len - pos,
    {
        let ghost sp = input@.skip(pos as int);
        if pos >= len {
            return None;
        }
        proof {
            assert(sp[0] == input@[pos as int]);
        }
        let b = input[pos];
        if b == 0x5d {
            proof {
                assert(spec_parse_readings_rest(sp) == Some::<(Seq<ReadingModel>, int)>(
                    (Seq::empty(), 1int),
                ));
                assert(acc@.map_values(|x: Reading| x@) + Seq::<ReadingModel>::empty()
                    =~= acc@.map_values(|x: Reading| x@));
            }
            return Some((acc, pos + 1));
        }
        if b != 0x2c {
            return None;
        }
        proof {
            assert(input@.skip(pos + 1) =~= sp.skip(1));
        }
        let (r2, p2) = match parse_reading(input, pos + 1) {
            Some(x) => x,
            None => {
                return None;
            },
        };
        if !(p2 > pos + 1) {
            return None;
        }
        let ghost oldmap = acc@.map_values(|x: Reading| x@);
        acc.push(r2);
        proof {
            assert(input@.skip(p2 as int) =~= sp.skip(1 + (p2 - pos - 1)));
            assert(acc@.map_values(|x: Reading| x@) =~= oldmap.push(r2@));
            if spec_parse_readings_rest(input@.skip(p2 as int)) is Some {
                let (ms3, n3) = spec_parse_readings_rest(input@.skip(p2 as int)).unwrap();
                assert(oldmap + (seq![r2@] + ms3) =~= oldmap.push(r2@) + ms3);
            }
        }
        pos = p2;
    }
}

/// Deserializes a data-message frame back into its batch, as
/// `spec_parse_data_message` says: the canonical encoding of a batch, and
/// nothing else, is accepted.
pub fn parse_data_message(frame: &Vec<u8>) -> (r: Option<Vec<Reading>>)
    ensures
        match (r, spec_parse_data_message(frame@)) {
            (Some(b), Some(ms)) => b@.map_values(|x: Reading| x@) == ms,
            (None, None) => true,
            _ => false,
        },
{
    let ghost s = frame@;
    proof {
        assert(frame@.skip(0) =~= s);
    }
    let head: Vec<u8> = vec![
        0x7bu8, 0x22u8, 0x74u8, 0x79u8, 0x70u8, 0x65u8, 0x22u8, 0x3au8, 0x22u8, 0x64u8, 0x61u8,
        0x74u8, 0x61u8, 0x22u8, 0x2cu8, 0x22u8, 0x72u8, 0x65u8, 0x61u8, 0x64u8, 0x69u8, 0x6eu8,
        0x67u8, 0x73u8, 0x22u8, 0x3au8, 0x5bu8,
    ];
    let rb: Vec<u8> = vec![0x7du8];
    proof {
        assert(head@ == seg_data());
        assert(rb@ == seq![0x7du8]);
    }
    let p1 = match expect_seg(frame, 0, &head) {
        Some(p) => p,
        None => {
            return None;
        },
    };
    let (batch, p2) = match parse_readings_items(frame, p1) {
        Some(x) => x,
        None => {
            return None;
        },
    };
    let p3 = match expect_seg(frame, p2, &rb) {
        Some(p) => p,
        None => {
            return None;
        },
    };
    if p3 == frame.len() {
        Some(batch)
    } else {
        None
    }
}

} // verus!
