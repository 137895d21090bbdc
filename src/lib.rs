//! A registry of named interactive markers, a buffer of staged changes that
//! coalesces writes per marker, and the flush that turns the buffer into one
//! ordered diff. Transport, clocks and callback invocation stay with the caller.

pub mod keyed;
pub mod handlers;
pub mod types;
pub mod model;
pub mod server;
pub mod laws;

pub use handlers::{HandlerId, DEFAULT_FEEDBACK_CB, POSE_UPDATE};
pub use server::InteractiveMarkerServer;
pub use types::{Feedback, MarkerDef, MarkerHeader, MarkerPose, MarkerUpdate, PoseRecord};
