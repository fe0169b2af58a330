//! Short-lived notifications.
use vstd::prelude::*;

verus! {

/// `std::time::Instant`, declared so that a notification can hold the moment
/// it was made. Nothing inside it is visible to proofs.
#[verifier::external_type_specification]
#[verifier::external_body]
pub struct ExInstant(std::time::Instant);

/// `Instant::now`: the current moment. Nothing is claimed of it.
#[verifier::external_body]
fn instant_now() -> std::time::Instant {
    std::time::Instant::now()
}

/// `Instant::elapsed` in whole seconds. It depends on the clock, so nothing is
/// claimed of it.
#[verifier::external_body]
pub(crate) fn elapsed_secs(at: &std::time::Instant) -> u64 {
    at.elapsed().as_secs()
}

/// The kind of a notification.
#[derive(Debug, Clone, Copy, PartialEq, Eq, Structural)]
pub enum ToastType {
    Info,
    Success,
    Error,
    Warning,
}

/// A notification shown for a few seconds.
#[derive(Debug)]
pub struct Toast {
    pub message: String,
    pub toast_type: ToastType,
    pub created_at: std::time::Instant,
    pub duration_secs: u64,
}

impl Toast {
    /// A notification that starts now and lasts four seconds.
    pub fn new(message: String, toast_type: ToastType) -> (r: Self)
        ensures
            r.message == message,
            r.toast_type == toast_type,
            r.duration_secs == 4,
    {
        Toast { message, toast_type, created_at: instant_now(), duration_secs: 4 }
    }

    /// Whether a notification that has been shown for `elapsed_secs` whole
    /// seconds is over.
    pub fn is_expired_after(&self, elapsed_secs: u64) -> (r: bool)
        ensures
            r == (elapsed_secs >= self.duration_secs),
    {
        elapsed_secs >= self.duration_secs
    }

    /// Whether the notification has been shown for its whole duration. The
    /// answer depends on the clock; [`Toast::is_expired_after`] decides it.
    pub fn is_expired(&self) -> (r: bool)
        ensures
            self.duration_secs == 0 ==> r,
    {
        let e = elapsed_secs(&self.created_at);
        self.is_expired_after(e)
    }
}

} // verus!
