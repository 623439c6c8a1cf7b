//! Unattended access settings, shared by the daemon and the CLI.
//!
//! The PIN exchange needs the PIN itself, so the settings hold it verbatim.

use vstd::prelude::*;
use vstd::string::*;

use crate::auth::{is_pin, pin_error, validate_pin};
use crate::text::{trim, trimmed};

verus! {

pub const DEFAULT_FPS: u32 = 15;

pub const DEFAULT_BITRATE_KBPS: u32 = 4000;

#[derive(Clone, Debug, PartialEq, Eq)]
pub struct Settings {
    pub unattended: bool,
    pub pin: Option<String>,
    /// Capture and encode rate. Applied when the next client connects.
    pub fps: u32,
    /// Encoder target in kilobits per second.
    pub bitrate_kbps: u32,
}

/// The characters of a text that may be missing.
pub open spec fn opt_text(text: Option<String>) -> Option<Seq<char>> {
    match text {
        Some(t) => Some(t@),
        None => None,
    }
}

pub open spec fn clamped(v: u32, low: u32, high: u32) -> u32 {
    if v < low {
        low
    } else if v > high {
        high
    } else {
        v
    }
}

fn clamp(v: u32, low: u32, high: u32) -> (r: u32)
    ensures
        r == clamped(v, low, high),
{
    if v < low {
        low
    } else if v > high {
        high
    } else {
        v
    }
}

impl Default for Settings {
    fn default() -> (r: Settings)
        ensures
            !r.unattended,
            r.pin is None,
            r.fps == DEFAULT_FPS,
            r.bitrate_kbps == DEFAULT_BITRATE_KBPS,
    {
        Settings { unattended: false, pin: None, fps: DEFAULT_FPS, bitrate_kbps: DEFAULT_BITRATE_KBPS }
    }
}

impl Settings {
    /// The text of the settings file, where it holds settings: a file that is
    /// missing or blank stands for the default.
    pub fn content(file: Option<&str>) -> (r: Option<&str>)
        ensures
            match file {
                Some(text) if trimmed(text@).len() > 0 => r == Some(text),
                _ => r is None,
            },
    {
        match file {
            Some(text) => if trim(text).unicode_len() == 0 {
                None
            } else {
                Some(text)
            },
            None => None,
        }
    }

    /// Frame rate and bitrate for the next connection, clamped to a usable range.
    pub fn video(&self) -> (r: (u32, u32))
        ensures
            r.0 == clamped(self.fps, 1, 60),
            r.1 == clamped(self.bitrate_kbps, 500, 50_000),
    {
        (clamp(self.fps, 1, 60), clamp(self.bitrate_kbps, 500, 50_000))
    }

    /// What [`Settings::active_pin`] returns.
    pub open spec fn active(self) -> Option<Seq<char>> {
        match self.pin {
            Some(pin) if self.unattended && pin@.len() > 0 => Some(pin@),
            _ => None,
        }
    }

    /// The PIN a client must prove, or `None` when unattended access is off.
    pub fn active_pin(&self) -> (r: Option<&str>)
        ensures
            match self.active() {
                Some(pin) => r matches Some(p) && p@ == pin,
                None => r is None,
            },
    {
        if !self.unattended {
            return None;
        }
        match &self.pin {
            Some(pin) => if pin.as_str().unicode_len() == 0 {
                None
            } else {
                Some(pin.as_str())
            },
            None => None,
        }
    }

    /// Saves a PIN, which turns unattended access on. A text that is no PIN
    /// changes nothing.
    pub fn set_pin(&mut self, pin: &str) -> (r: Result<(), String>)
        ensures
            match r {
                Ok(_) => {
                    &&& is_pin(trimmed(pin@))
                    &&& final(self).unattended
                    &&& opt_text(final(self).pin) == Some(trimmed(pin@))
                    &&& final(self).fps == old(self).fps
                    &&& final(self).bitrate_kbps == old(self).bitrate_kbps
                },
                Err(e) => {
                    &&& !is_pin(trimmed(pin@))
                    &&& e@ == pin_error(trimmed(pin@))
                    &&& *final(self) == *old(self)
                },
            },
    {
        match validate_pin(pin) {
            Ok(bare) => {
                self.pin = Some(bare.to_owned());
                self.unattended = true;
                Ok(())
            },
            Err(e) => Err(e),
        }
    }

    /// Forgets the PIN.
    pub fn clear_pin(&mut self)
        ensures
            *final(self) == (Settings { pin: None, ..*old(self) }),
    {
        self.pin = None;
    }
}

/// A PIN that was saved is the one that a client must prove.
pub proof fn saved_pin_is_active(s: Settings, pin: Seq<char>)
    requires
        is_pin(trimmed(pin)),
        s.unattended,
        opt_text(s.pin) == Some(trimmed(pin)),
    ensures
        s.active() == Some(trimmed(pin)),
{
}

/// Turning access off hides the PIN without forgetting it: turning it on again
/// brings it back.
pub proof fn switch_keeps_the_pin(s: Settings)
    ensures
        (Settings { unattended: false, ..s }).active() is None,
        s.unattended ==> (Settings { unattended: true, ..(Settings { unattended: false, ..s }) }).active()
            == s.active(),
{
}

/// A value is clamped to the nearest one of its range.
pub proof fn clamped_is_the_nearest(v: u32, low: u32, high: u32, other: u32)
    requires
        low <= high,
        low <= other <= high,
    ensures
        low <= clamped(v, low, high) <= high,
        low <= v <= high ==> clamped(v, low, high) == v,
        v < low ==> clamped(v, low, high) - v <= other - v,
        v > high ==> v - clamped(v, low, high) <= v - other,
{
}

/// A PIN is asked for only of a host that is unattended, and then it is the PIN of the
/// settings, if they hold one that is not empty.
pub proof fn active_pin_is_the_saved_one(s: Settings)
    ensures
        !s.unattended ==> s.active() is None,
        s.pin is None ==> s.active() is None,
        s.active() matches Some(pin) ==> s.unattended && opt_text(s.pin) == Some(pin) && pin.len()
            > 0,
        s.unattended ==> (s.pin matches Some(pin) ==> pin@.len() > 0 ==> s.active() == Some(pin@)),
{
}

} // verus!
