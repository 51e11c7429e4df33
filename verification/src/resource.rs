//! Capture configuration: the settings the engine keeps for screenshots and
//! screen recordings. The capture, encoding and file output themselves live
//! with the platform layer, not in this crate.

use vstd::prelude::*;

verus! {

/// Capture scale used when a caller does not name one.
pub const DEFAULT_CAPTURE_SCALE: u32 = 2;

/// Recording length in seconds used when a caller does not name one.
pub const DEFAULT_CAPTURE_SEC: u32 = 10;

/// The timing configuration of the screen recorder: frame rate and the
/// number of seconds it keeps.
pub struct Screencast {
    fps: u32,
    capture_sec: u32,
}

impl Screencast {
    /// Frame rate of the recording.
    pub closed spec fn spec_fps(&self) -> u32 {
        self.fps
    }

    /// How many seconds of frames the recorder keeps.
    pub closed spec fn spec_capture_sec(&self) -> u32 {
        self.capture_sec
    }

    /// Builds a recorder configuration for the given frame rate and length.
    pub fn new(fps: u32, capture_sec: u32) -> (s: Screencast)
        ensures
            s.spec_fps() == fps,
            s.spec_capture_sec() == capture_sec,
    {
        Screencast { fps, capture_sec }
    }
}

/// The engine's capture state: the pixel scale applied to exported images
/// and the screen recorder configuration.
pub struct Resource {
    capture_scale: u32,
    screencast: Screencast,
}

impl Resource {
    /// The pixel scale applied to exported captures; always at least 1.
    pub closed spec fn spec_capture_scale(&self) -> u32 {
        self.capture_scale
    }

    /// The recorder configuration.
    pub closed spec fn spec_screencast(&self) -> &Screencast {
        &self.screencast
    }

    /// Builds the capture state: the scale defaults to
    /// [`DEFAULT_CAPTURE_SCALE`] and is clamped to at least 1, the recording
    /// length defaults to [`DEFAULT_CAPTURE_SEC`].
    pub fn new(capture_scale: Option<u32>, capture_sec: Option<u32>, fps: u32) -> (r: Resource)
        ensures
            r.spec_capture_scale() == (match capture_scale {
                Option::Some(s) => if s >= 1 {
                    s
                } else {
                    1u32
                },
                Option::None => DEFAULT_CAPTURE_SCALE,
            }),
            r.spec_capture_scale() >= 1,
            r.spec_screencast().spec_fps() == fps,
            r.spec_screencast().spec_capture_sec() == (match capture_sec {
                Option::Some(s) => s,
                Option::None => DEFAULT_CAPTURE_SEC,
            }),
    {
        let scale = match capture_scale {
            Option::Some(s) => s,
            Option::None => DEFAULT_CAPTURE_SCALE,
        };
        let scale = if scale >= 1 {
            scale
        } else {
            1
        };
        let sec = match capture_sec {
            Option::Some(s) => s,
            Option::None => DEFAULT_CAPTURE_SEC,
        };
        Resource { capture_scale: scale, screencast: Screencast::new(fps, sec) }
    }

    /// The pixel scale applied to exported captures.
    pub fn capture_scale(&self) -> (r: u32)
        ensures
            r == self.spec_capture_scale(),
    {
        self.capture_scale
    }
}

} // verus!
