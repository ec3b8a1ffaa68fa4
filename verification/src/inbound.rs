//! Inbound frames: the auth acknowledgment and the command frame.
//!
//! Both are read in the collector's canonical shape — fixed field order,
//! no whitespace. Anything else counts as malformed; a malformed command
//! frame is ignored and a malformed auth reply counts as a failed
//! authentication, so strictness here never threatens the connection's
//! safety.

use vstd::prelude::*;

use crate::codec::spec_parse_u64;
use crate::codec::parse_u64;
use crate::dispatch::Command;
use crate::envelope::expect_seg;
use crate::envelope::parse_json_string;
use crate::envelope::parse_opt_bool;
use crate::envelope::spec_expect;
use crate::envelope::spec_parse_json_string;
use crate::envelope::spec_parse_opt_bool;

verus! {

/// `{"type":"command","device":`
pub open spec fn seg_cmd_head() -> Seq<u8> {
    seq![
        0x7bu8, 0x22u8, 0x74u8, 0x79u8, 0x70u8, 0x65u8, 0x22u8, 0x3au8, 0x22u8, 0x63u8, 0x6fu8,
        0x6du8, 0x6du8, 0x61u8, 0x6eu8, 0x64u8, 0x22u8, 0x2cu8, 0x22u8, 0x64u8, 0x65u8, 0x76u8,
        0x69u8, 0x63u8, 0x65u8, 0x22u8, 0x3au8,
    ]
}

/// `,"action":`
pub open spec fn seg_cmd_action() -> Seq<u8> {
    seq![0x2cu8, 0x22u8, 0x61u8, 0x63u8, 0x74u8, 0x69u8, 0x6fu8, 0x6eu8, 0x22u8, 0x3au8]
}

/// `,"value":`
pub open spec fn seg_cmd_value() -> Seq<u8> {
    seq![0x2cu8, 0x22u8, 0x76u8, 0x61u8, 0x6cu8, 0x75u8, 0x65u8, 0x22u8, 0x3au8]
}

/// `{"type":"auth","success":`
pub open spec fn seg_auth_head() -> Seq<u8> {
    seq![
        0x7bu8, 0x22u8, 0x74u8, 0x79u8, 0x70u8, 0x65u8, 0x22u8, 0x3au8, 0x22u8, 0x61u8, 0x75u8,
        0x74u8, 0x68u8, 0x22u8, 0x2cu8, 0x22u8, 0x73u8, 0x75u8, 0x63u8, 0x63u8, 0x65u8, 0x73u8,
        0x73u8, 0x22u8, 0x3au8,
    ]
}

/// `,"error":`
pub open spec fn seg_auth_error() -> Seq<u8> {
    seq![0x2cu8, 0x22u8, 0x65u8, 0x72u8, 0x72u8, 0x6fu8, 0x72u8, 0x22u8, 0x3au8]
}

/// Model of an inbound command: what the frame's fields say.
pub ghost struct CommandModel {
    pub device: Seq<char>,
    pub action: Seq<char>,
    pub value: i64,
}

impl View for Command {
    type V = CommandModel;

    open spec fn view(&self) -> CommandModel {
        CommandModel { device: self.device@, action: self.action@, value: self.value }
    }
}

/// Reads a signed decimal integer.
pub open spec fn spec_parse_i64(s: Seq<u8>) -> Option<(i64, int)> {
    let neg = s.len() > 0 && s[0] == 0x2d;
    let t = if neg {
        s.skip(1)
    } else {
        s
    };
    let sign: int = if neg {
        1
    } else {
        0
    };
    match spec_parse_u64(t) {
        Some((v, n)) => {
            if neg {
                if v <= 0x8000000000000000u64 {
                    Some(((-(v as int)) as i64, sign + n))
                } else {
                    None
                }
            } else {
                if v <= 0x7fffffffffffffffu64 {
                    Some((v as i64, sign + n))
                } else {
                    None
                }
            }
        },
        None => None,
    }
}

/// Reads a signed decimal integer at position `i`, as `spec_parse_i64`
/// says.
pub fn parse_i64(input: &Vec<u8>, i: usize) -> (r: Option<(i64, usize)>)
    requires
        i <= input@.len(),
    ensures
        match (r, spec_parse_i64(input@.skip(i as int))) {
            (Some((v, j)), Some((sv, n))) => v == sv && j == i + n && i <= j <= input@.len(),
            (None, None) => true,
            _ => false,
        },
{
    let ghost s = input@.skip(i as int);
    let len = input.len();
    let neg = i < len && input[i] == 0x2d;
    proof {
        if i < len {
            assert(s[0] == input@[i as int]);
        }
        assert(neg == (s.len() > 0 && s[0] == 0x2d));
    }
    let start = if neg {
        i + 1
    } else {
        i
    };
    proof {
        if neg {
            assert(input@.skip(start as int) =~= s.skip(1));
        }
    }
    match parse_u64(input, start) {
        Some((v, j)) => {
            if neg {
                if v > 0x8000000000000000u64 {
                    return None;
                }
                Some(((-(v as i128)) as i64, j))
            } else {
                if v > 0x7fffffffffffffffu64 {
                    return None;
                }
                Some((v as i64, j))
            }
        },
        None => None,
    }
}

/// Reads a command frame in its canonical shape: the whole frame and
/// nothing more. A frame of any other shape is no command.
pub open spec fn spec_parse_command(s: Seq<u8>) -> Option<CommandModel> {
    match spec_expect(s, seg_cmd_head()) { None => None, Some(p1) =>
    match spec_parse_json_string(s.skip(p1)) { None => None, Some((device, m2)) => { let p2 = p1 + m2;
    match spec_expect(s.skip(p2), seg_cmd_action()) { None => None, Some(m3) => { let p3 = p2 + m3;
    match spec_parse_json_string(s.skip(p3)) { None => None, Some((action, m4)) => { let p4 = p3 + m4;
    match spec_expect(s.skip(p4), seg_cmd_value()) { None => None, Some(m5) => { let p5 = p4 + m5;
    match spec_parse_i64(s.skip(p5)) { None => None, Some((value, m6)) => { let p6 = p5 + m6;
    match spec_expect(s.skip(p6), seq![0x7du8]) { None => None, Some(m7) => if p6 + m7 == s.len() {
        Some(CommandModel { device, action, value })
    } else {
        None
    } }}}}}}}}}}}}
}

/// Reads a command frame at the start of `frame`, as
/// `spec_parse_command` says.
pub fn parse_command(frame: &Vec<u8>) -> (r: Option<Command>)
    ensures
        match (r, spec_parse_command(frame@)) {
            (Some(c), Some(m)) => c@ == m,
            (None, None) => true,
            _ => false,
        },
{
    let ghost s = frame@;
    proof {
        assert(frame@.skip(0) =~= s);
    }
    let head: Vec<u8> = vec![
        0x7bu8, 0x22u8, 0x74u8, 0x79u8, 0x70u8, 0x65u8, 0x22u8, 0x3au8, 0x22u8, 0x63u8, 0x6fu8,
        0x6du8, 0x6du8, 0x61u8, 0x6eu8, 0x64u8, 0x22u8, 0x2cu8, 0x22u8, 0x64u8, 0x65u8, 0x76u8,
        0x69u8, 0x63u8, 0x65u8, 0x22u8, 0x3au8,
    ];
    let action_key: Vec<u8> = vec![
        0x2cu8, 0x22u8, 0x61u8, 0x63u8, 0x74u8, 0x69u8, 0x6fu8, 0x6eu8, 0x22u8, 0x3au8,
    ];
    let value_key: Vec<u8> = vec![
        0x2cu8, 0x22u8, 0x76u8, 0x61u8, 0x6cu8, 0x75u8, 0x65u8, 0x22u8, 0x3au8,
    ];
    let rb: Vec<u8> = vec![0x7du8];
    proof {
        assert(head@ == seg_cmd_head());
        assert(action_key@ == seg_cmd_action());
        assert(value_key@ == seg_cmd_value());
        assert(rb@ == seq![0x7du8]);
    }
    let p1 = match expect_seg(frame, 0, &head) {
        Some(p) => p,
        None => {
            return None;
        },
    };
    let (device, p2) = match parse_json_string(frame, p1) {
        Some(x) => x,
        None => {
            return None;
        },
    };
    let p3 = match expect_seg(frame, p2, &action_key) {
        Some(p) => p,
        None => {
            return None;
        },
    };
    let (action, p4) = match parse_json_string(frame, p3) {
        Some(x) => x,
        None => {
            return None;
        },
    };
    let p5 = match expect_seg(frame, p4, &value_key) {
        Some(p) => p,
        None => {
            return None;
        },
    };
    let (value, p6) = match parse_i64(frame, p5) {
        Some(x) => x,
        None => {
            return None;
        },
    };
    let p7 = match expect_seg(frame, p6, &rb) {
        Some(p) => p,
        None => {
            return None;
        },
    };
    if p7 == frame.len() {
        Some(Command { device, action, value })
    } else {
        None
    }
}

/// What the collector said about the auth frame.
pub struct ServerResponse {
    /// Whether authentication succeeded
    pub success: bool,
    /// The collector's reason when it did not
    pub error: Option<String>,
}

/// Reads an auth acknowledgment in its canonical shape: type `auth`, the
/// success flag, and optionally an error string.
pub open spec fn spec_parse_auth_reply(s: Seq<u8>) -> Option<(bool, Option<Seq<char>>)> {
    match spec_expect(s, seg_auth_head()) {
        None => None,
        Some(p1) => match spec_parse_opt_bool(s.skip(p1)) {
            None => None,
            Some((b, m2)) => {
                let p2 = p1 + m2;
                if b is None {
                    None
                } else {
                    match spec_expect(s.skip(p2), seq![0x7du8]) {
                        Some(m3) => if p2 + m3 == s.len() {
                            Some((b.unwrap(), None))
                        } else {
                            None
                        },
                        None => match spec_expect(s.skip(p2), seg_auth_error()) {
                            None => None,
                            Some(m4) => {
                                let p3 = p2 + m4;
                                match spec_parse_json_string(s.skip(p3)) {
                                    None => None,
                                    Some((err, m5)) => {
                                        let p4 = p3 + m5;
                                        match spec_expect(s.skip(p4), seq![0x7du8]) {
                                            None => None,
                                            Some(m6) => if p4 + m6 == s.len() {
                                                Some((b.unwrap(), Some(err)))
                                            } else {
                                                None
                                            },
                                        }
                                    },
                                }
                            },
                        },
                    }
                }
            },
        },
    }
}

/// Reads an auth acknowledgment, as `spec_parse_auth_reply` says. `None`
/// is a malformed reply, which counts as a failed authentication.
pub fn parse_auth_reply(frame: &Vec<u8>) -> (r: Option<ServerResponse>)
    ensures
        match (r, spec_parse_auth_reply(frame@)) {
            (Some(resp), Some((b, e))) => resp.success == b && (match (resp.error, e) {
                (Some(x), Some(y)) => x@ == y,
                (None, None) => true,
                _ => false,
            }),
            (None, None) => true,
            _ => false,
        },
{
    let ghost s = frame@;
    proof {
        assert(frame@.skip(0) =~= s);
    }
    let head: Vec<u8> = vec![
        0x7bu8, 0x22u8, 0x74u8, 0x79u8, 0x70u8, 0x65u8, 0x22u8, 0x3au8, 0x22u8, 0x61u8, 0x75u8,
        0x74u8, 0x68u8, 0x22u8, 0x2cu8, 0x22u8, 0x73u8, 0x75u8, 0x63u8, 0x63u8, 0x65u8, 0x73u8,
        0x73u8, 0x22u8, 0x3au8,
    ];
    let error_key: Vec<u8> = vec![
        0x2cu8, 0x22u8, 0x65u8, 0x72u8, 0x72u8, 0x6fu8, 0x72u8, 0x22u8, 0x3au8,
    ];
    let rb: Vec<u8> = vec![0x7du8];
    proof {
        assert(head@ == seg_auth_head());
        assert(error_key@ == seg_auth_error());
        assert(rb@ == seq![0x7du8]);
    }
    let p1 = match expect_seg(frame, 0, &head) {
        Some(p) => p,
        None => {
            return None;
        },
    };
    let (b, p2) = match parse_opt_bool(frame, p1) {
        Some(x) => x,
        None => {
            return None;
        },
    };
    let success = match b {
        Some(x) => x,
        None => {
            return None;
        },
    };
    match expect_seg(frame, p2, &rb) {
        Some(p3) => {
            if p3 == frame.len() {
                Some(ServerResponse { success, error: None })
            } else {
                None
            }
        },
        None => {
            let p3 = match expect_seg(frame, p2, &error_key) {
                Some(p) => p,
                None => {
                    return None;
                },
            };
            let (err, p4) = match parse_json_string(frame, p3) {
                Some(x) => x,
                None => {
                    return None;
                },
            };
            let p5 = match expect_seg(frame, p4, &rb) {
                Some(p) => p,
                None => {
                    return None;
                },
            };
            if p5 == frame.len() {
                Some(ServerResponse { success, error: Some(err) })
            } else {
                None
            }
        },
    }
}

} // verus!
