//! Pointer identities and the counting of repeated taps.
use vstd::prelude::*;

verus! {

/// Identifies the pointer that causes an event.
#[derive(Debug, Clone, Copy, PartialEq, Eq, Structural)]
pub struct PointerId(pub usize);

/// The kind of device behind a pointer.
#[derive(Debug, Clone, Copy, PartialEq, Eq, Structural)]
pub enum PointerType {
    /// A mouse.
    Mouse,
    /// A pen or stylus.
    Pen,
    /// A touch, such as a finger.
    Touch,
}

/// The milliseconds within which the taps of one series must follow the
/// first.
pub const TAP_WINDOW_MS: u64 = 250;

/// A series of taps under way.
#[derive(Debug, Clone, Copy, PartialEq, Eq, Structural)]
pub struct TapInfo {
    /// When the first tap of the series came, in milliseconds.
    pub first_tap_stamp: u64,
    /// The taps counted so far.
    pub tap_times: u8,
    pub pointer_type: PointerType,
    pub mouse_btns: u8,
}

/// Counts taps and tells when the wanted number has come in one series.
#[derive(Debug, Clone, Copy)]
pub struct TapListener {
    times: u8,
    tap_info: Option<TapInfo>,
}

/// The milliseconds from `stamp` to `now`; none if `now` lies before.
pub open spec fn elapsed(stamp: u64, now: u64) -> int {
    if now >= stamp {
        now - stamp
    } else {
        0
    }
}

/// Whether a tap at `now` belongs to the series `info`: the same device
/// and buttons, the series not full, and the window still open.
pub open spec fn continues(
    info: TapInfo,
    times: u8,
    now: u64,
    pointer_type: PointerType,
    mouse_btns: u8,
) -> bool {
    &&& info.pointer_type == pointer_type
    &&& info.mouse_btns == mouse_btns
    &&& info.tap_times < times
    &&& elapsed(info.first_tap_stamp, now) < TAP_WINDOW_MS
}

/// The series after a tap at `now` is counted: the old one with one tap
/// more where the tap belongs to it, else a new one of one tap.
pub open spec fn counted(
    prev: Option<TapInfo>,
    times: u8,
    now: u64,
    pointer_type: PointerType,
    mouse_btns: u8,
) -> TapInfo {
    if prev.is_some() && continues(prev.unwrap(), times, now, pointer_type, mouse_btns) {
        TapInfo {
            first_tap_stamp: prev.unwrap().first_tap_stamp,
            tap_times: (prev.unwrap().tap_times + 1) as u8,
            pointer_type,
            mouse_btns,
        }
    } else {
        TapInfo { first_tap_stamp: now, tap_times: 1, pointer_type, mouse_btns }
    }
}

impl TapListener {
    /// The number of taps that make a series full.
    pub closed spec fn times(self) -> u8 {
        self.times
    }

    /// The series under way, if any.
    pub closed spec fn tap_info(self) -> Option<TapInfo> {
        self.tap_info
    }

    /// A listener for series of `times` taps, with no tap counted yet.
    pub fn on_tap_times(times: u8) -> (listener: TapListener)
        ensures
            listener.times() == times,
            listener.tap_info().is_none(),
    {
        TapListener { times, tap_info: None }
    }

    /// Counts a tap that came at `now` and tells whether it fills a
    /// series, in which case the count starts over.
    pub fn tap(&mut self, now: u64, pointer_type: PointerType, mouse_btns: u8) -> (fire: bool)
        ensures
            final(self).times() == old(self).times(),
            fire == (counted(
                old(self).tap_info(),
                old(self).times(),
                now,
                pointer_type,
                mouse_btns,
            ).tap_times == old(self).times()),
            final(self).tap_info() == Some(
                TapInfo {
                    first_tap_stamp: counted(
                        old(self).tap_info(),
                        old(self).times(),
                        now,
                        pointer_type,
                        mouse_btns,
                    ).first_tap_stamp,
                    tap_times: if fire {
                        0
                    } else {
                        counted(
                            old(self).tap_info(),
                            old(self).times(),
                            now,
                            pointer_type,
                            mouse_btns,
                        ).tap_times
                    },
                    pointer_type,
                    mouse_btns,
                },
            ),
    {
        let fresh = TapInfo { first_tap_stamp: now, tap_times: 1, pointer_type, mouse_btns };
        let mut info = match self.tap_info {
            Some(info) => {
                let waited: u64 = if now >= info.first_tap_stamp {
                    now - info.first_tap_stamp
                } else {
                    0
                };
                if info.pointer_type == pointer_type && info.mouse_btns == mouse_btns
                    && info.tap_times < self.times && waited < TAP_WINDOW_MS {
                    TapInfo {
                        first_tap_stamp: info.first_tap_stamp,
                        tap_times: info.tap_times + 1,
                        pointer_type,
                        mouse_btns,
                    }
                } else {
                    fresh
                }
            },
            None => fresh,
        };
        let fire = info.tap_times == self.times;
        if fire {
            info.tap_times = 0;
        }
        self.tap_info = Some(info);
        fire
    }
}

} // verus!
