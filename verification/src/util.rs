use vstd::prelude::*;

verus! {

/// Width and height of a grid, in cells.
#[derive(Copy, Clone, Debug, PartialEq, Eq, Structural)]
pub struct Size {
    pub w: u32,
    pub h: u32,
}

impl Size {
    pub fn new(w: u32, h: u32) -> (s: Size)
        ensures
            s.w == w,
            s.h == h,
    {
        Size { w, h }
    }

    /// Number of cells of a grid of this size.
    pub open spec fn area(self) -> nat {
        (self.w as nat) * (self.h as nat)
    }
}

/// `std::time::SystemTime`, a point in time that is only handed on.
#[verifier::external_type_specification]
#[verifier::external_body]
pub struct ExSystemTime(std::time::SystemTime);

/// `std::time::SystemTimeError`, the error of `duration_since`, of which
/// nothing is read.
#[verifier::external_type_specification]
#[verifier::external_body]
pub struct ExSystemTimeError(std::time::SystemTimeError);

/// `SystemTime::now` reads the system clock; nothing is claimed of the value.
pub assume_specification[ std::time::SystemTime::now ]() -> std::time::SystemTime;

/// `SystemTime::duration_since` gives the time elapsed since `earlier`, or an
/// error when `earlier` is the later of the two; nothing is claimed of either.
pub assume_specification[ std::time::SystemTime::duration_since ](
    t: &std::time::SystemTime,
    earlier: std::time::SystemTime,
) -> Result<std::time::Duration, std::time::SystemTimeError>;

/// `Duration::as_nanos` gives the whole duration in nanoseconds; nothing is
/// claimed of the value.
pub assume_specification[ std::time::Duration::as_nanos ](d: &std::time::Duration) -> u128;

/// The constant `std::time::UNIX_EPOCH`, handed on as a value.
#[verifier::external_body]
fn unix_epoch() -> std::time::SystemTime {
    std::time::UNIX_EPOCH
}

/// The current Unix time in nanoseconds, or 0 when the clock stands before the
/// Unix epoch.
pub fn time_ns() -> u128 {
    let now = std::time::SystemTime::now();
    match now.duration_since(unix_epoch()) {
        Ok(elapsed) => elapsed.as_nanos(),
        Err(_) => 0,
    }
}

} // verus!
