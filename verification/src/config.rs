//! Settings of the daemon as they are read from the text of its
//! environment.

use vstd::prelude::*;
use crate::decimal::{parse_decimal, parse_u64};

verus! {

/// The seconds that a backend call may take where nothing else is set.
pub const DEFAULT_TIMEOUT_SECS: u64 = 10;

/// The view of an optional text.
pub open spec fn setting_view(raw: Option<&str>) -> Option<Seq<char>> {
    match raw {
        Some(t) => Some(t@),
        None => None,
    }
}

/// The seconds that a backend call may take, given the text of the
/// setting: the number that the text stands for, or the default where the
/// setting is missing or does not stand for an unsigned 64-bit integer.
pub open spec fn timeout_of(raw: Option<Seq<char>>) -> u64 {
    match raw {
        Some(t) => match parse_decimal(t, u64::MAX as nat) {
            Some(secs) => secs as u64,
            None => DEFAULT_TIMEOUT_SECS,
        },
        None => DEFAULT_TIMEOUT_SECS,
    }
}

/// The number of core threads, given the text of the setting: the number
/// that the text stands for, or `None` where the setting is missing or
/// does not stand for an unsigned integer of the machine's word size.
pub open spec fn core_threads_of(raw: Option<Seq<char>>) -> Option<usize> {
    match raw {
        Some(t) => match parse_decimal(t, usize::MAX as nat) {
            Some(n) => Some(n as usize),
            None => None,
        },
        None => None,
    }
}

/// The seconds that a backend call may take, given the text of the
/// setting.
pub fn get_timeout(raw: Option<&str>) -> (secs: u64)
    ensures
        secs == timeout_of(setting_view(raw)),
{
    match raw {
        Some(timeout_str) => match parse_u64(timeout_str) {
            Some(timeout_sec) => timeout_sec,
            None => DEFAULT_TIMEOUT_SECS,
        },
        None => DEFAULT_TIMEOUT_SECS,
    }
}

/// The number of core threads, given the text of the setting.
pub fn get_core_threads(raw: Option<&str>) -> (threads: Option<usize>)
    ensures
        threads == core_threads_of(setting_view(raw)),
{
    match raw {
        Some(core_threads) => match parse_u64(core_threads) {
            Some(num) => if num <= usize::MAX as u64 {
                Some(num as usize)
            } else {
                None
            },
            None => None,
        },
        None => None,
    }
}

} // verus!
