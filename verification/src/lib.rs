//! Core engine of an alarm daemon: weekday-repeat resolution, the ordered
//! queue of pending alarms, the binary control protocol (codec and
//! dispatcher), and the decimated tick loop that multiplexes alarm firing,
//! configuration reloads and socket polling.
//!
//! All scheduling and protocol logic lives here, verified. I/O (sockets,
//! files, audio, notifications) is left to the surrounding binary, which
//! hands this library plain values.

use vstd::prelude::*;

mod alarm;
mod client;
mod clock;
mod codec;
mod date;
mod dispatch;
mod ident;
mod queue;
mod tick;

pub use alarm::AlarmSpec;
pub use alarm::ScheduledAlarm;
pub use client::parse_bool_value;
pub use client::parse_hex_u32;
pub use client::parse_poll_value;
pub use client::parse_repeat_value;
pub use client::parse_time_value;
pub use client::parse_u32_digits;
pub use client::parse_u64_digits;
pub use client::split_bytes;
pub use clock::current_instant;
pub use clock::determine_entry_day;
pub use codec::alarm_to_info;
pub use codec::decode_request;
pub use codec::decode_response;
pub use codec::encode_request;
pub use codec::encode_response;
pub use codec::info_to_alarm;
pub use codec::ri_to_rr;
pub use codec::AlarmInfo;
pub use codec::DataValue;
pub use codec::ErrorReason;
pub use codec::Request;
pub use codec::Response;
pub use date::determine_entry_day_at;
pub use date::find_next_rep;
pub use date::weekday_of;
pub use date::weekday_to_str;
pub use date::Date;
pub use dispatch::dispatch;
pub use dispatch::resolve_daemonize;
pub use dispatch::settings_from_config;
pub use dispatch::Settings;
pub use ident::alarm_hash;
pub use ident::alarm_ident_string;
pub use ident::find_by_hash;
pub use ident::u32_to_decimal;
pub use queue::AlarmQueue;
pub use tick::Daemon;
pub use tick::Firing;

verus! {

} // verus!
