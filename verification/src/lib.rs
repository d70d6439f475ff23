//! A screen-space 2D global-illumination core: a Jump Flood Algorithm (JFA)
//! distance-field generator and a Radiance Cascades (RC) light-propagation
//! solver, together with the ping-pong surfaces and the pass/resource
//! orchestration that sequence them once per frame and react to viewport
//! resizes.
//!
//! All surfaces are modelled as plain pixel buffers, and distances are kept
//! as exact squared Euclidean distances, so every pass of both algorithms is
//! executable and verified: pass counts, pass ordering, ping-pong slot
//! designation, and the per-pixel seed/propagate/resolve and raymarch/merge
//! kernels themselves.

pub mod limits;
pub mod counts;
pub mod image;
pub mod pingpong;
pub mod jfa;
pub mod jfa_props;
pub mod cascades;
pub mod orchestrator;
