//! The consumer harness's configuration: device path and ring geometry,
//! taken from positional arguments with defaults for the reference setup.

use crate::text::{all_digit_chars, char_digits_value, decimal_chars, parse_usize,
    push_decimal_chars};
use vstd::prelude::*;

verus! {

/// Default byte offset of the slot array inside the mapping.
pub const DEFAULT_DATA_OFFSET: usize = 4096;

/// Default number of ring slots.
pub const DEFAULT_MSG_SLOTS: usize = 8;

/// Default slot size in bytes.
pub const DEFAULT_MSG_SIZE: usize = 4096;

/// Default number of messages per session.
pub const DEFAULT_MSG_NUM: usize = 1000;

/// Default device path of the producer's endpoint.
pub fn default_file_path() -> (s: &'static str)
    ensures
        s@ == "/dev/rustdev"@,
{
    "/dev/rustdev"
}

/// A numeric argument the harness accepts: decimal digits denoting a value
/// that fits the machine.
pub open spec fn spec_arg_ok(s: Seq<char>) -> bool {
    &&& s.len() > 0
    &&& all_digit_chars(s)
    &&& char_digits_value(s) <= usize::MAX
}

/// The harness configuration.
pub struct Config {
    /// Path of the producer's device endpoint.
    pub file_path: String,
    /// Byte offset of the slot array inside the mapping.
    pub data_offset: usize,
    /// Number of ring slots.
    pub msg_slots: usize,
    /// Slot size in bytes.
    pub msg_size: usize,
    /// Number of messages per session.
    pub msg_num: usize,
}

impl Config {
    /// Builds a configuration from the positional arguments, program name
    /// first: device path, data offset, slot count, slot size, message
    /// count. A missing argument takes its default; a malformed numeric
    /// argument fails the build.
    pub fn build(args: &Vec<String>) -> (r: Result<Config, &'static str>)
        ensures
            r is Ok <==> {
                &&& (args@.len() <= 2 || spec_arg_ok(args@[2]@))
                &&& (args@.len() <= 3 || spec_arg_ok(args@[3]@))
                &&& (args@.len() <= 4 || spec_arg_ok(args@[4]@))
                &&& (args@.len() <= 5 || spec_arg_ok(args@[5]@))
            },
            r matches Ok(cfg) ==> {
                &&& cfg.file_path@ == (if args@.len() > 1 {
                    args@[1]@
                } else {
                    "/dev/rustdev"@
                })
                &&& cfg.data_offset == (if args@.len() > 2 {
                    char_digits_value(args@[2]@)
                } else {
                    DEFAULT_DATA_OFFSET as nat
                })
                &&& cfg.msg_slots == (if args@.len() > 3 {
                    char_digits_value(args@[3]@)
                } else {
                    DEFAULT_MSG_SLOTS as nat
                })
                &&& cfg.msg_size == (if args@.len() > 4 {
                    char_digits_value(args@[4]@)
                } else {
                    DEFAULT_MSG_SIZE as nat
                })
                &&& cfg.msg_num == (if args@.len() > 5 {
                    char_digits_value(args@[5]@)
                } else {
                    DEFAULT_MSG_NUM as nat
                })
            },
    {
        let file_path = if args.len() > 1 {
            args[1].clone()
        } else {
            String::from_str(default_file_path())
        };
        let data_offset = if args.len() > 2 {
            match parse_usize(args[2].as_str()) {
                Some(v) => v,
                None => {
                    return Err("malformed data_offset argument");
                },
            }
        } else {
            DEFAULT_DATA_OFFSET
        };
        let msg_slots = if args.len() > 3 {
            match parse_usize(args[3].as_str()) {
                Some(v) => v,
                None => {
                    return Err("malformed msg_slots argument");
                },
            }
        } else {
            DEFAULT_MSG_SLOTS
        };
        let msg_size = if args.len() > 4 {
            match parse_usize(args[4].as_str()) {
                Some(v) => v,
                None => {
                    return Err("malformed msg_size argument");
                },
            }
        } else {
            DEFAULT_MSG_SIZE
        };
        let msg_num = if args.len() > 5 {
            match parse_usize(args[5].as_str()) {
                Some(v) => v,
                None => {
                    return Err("malformed msg_num argument");
                },
            }
        } else {
            DEFAULT_MSG_NUM
        };
        Ok(Config { file_path, data_offset, msg_slots, msg_size, msg_num })
    }

    /// The configuration as a report string, one labelled line per field.
    pub fn to_string(&self) -> (r: String)
        ensures
            r@ == "file_path: "@ + self.file_path@ + "\ndata_offset: "@ + decimal_chars(
                self.data_offset as nat,
            ) + "\nmsg_slots: "@ + decimal_chars(self.msg_slots as nat) + "\nmsg_size: "@
                + decimal_chars(self.msg_size as nat) + "\nmsg_num: "@ + decimal_chars(
                self.msg_num as nat,
            ),
    {
        let mut s = String::new();
        s.append("file_path: ");
        s.append(self.file_path.as_str());
        s.append("\ndata_offset: ");
        push_decimal_chars(self.data_offset as u64, &mut s);
        s.append("\nmsg_slots: ");
        push_decimal_chars(self.msg_slots as u64, &mut s);
        s.append("\nmsg_size: ");
        push_decimal_chars(self.msg_size as u64, &mut s);
        s.append("\nmsg_num: ");
        push_decimal_chars(self.msg_num as u64, &mut s);
        proof {
            assert(s@ =~= "file_path: "@ + self.file_path@ + "\ndata_offset: "@ + decimal_chars(
                self.data_offset as nat,
            ) + "\nmsg_slots: "@ + decimal_chars(self.msg_slots as nat) + "\nmsg_size: "@
                + decimal_chars(self.msg_size as nat) + "\nmsg_num: "@ + decimal_chars(
                self.msg_num as nat,
            ));
        }
        s
    }
}

} // verus!
