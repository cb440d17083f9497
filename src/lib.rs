//! Event pipeline of a two-half split keyboard: debouncing of the key
//! matrix, the coordinate transform of the mirrored half, the three-byte
//! link protocol between the halves, host report building and the
//! arbitration of which half talks to the host.
pub mod boot;
pub mod debounce;
pub mod engine;
pub mod event;
pub mod half;
pub mod leds;
pub mod link;
pub mod report;
pub mod role;
