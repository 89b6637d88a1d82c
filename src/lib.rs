//! Discovery and control of networked smart bulbs, and the scheduler of the
//! daemon that replays lighting programs against one bulb.
pub mod bulb;
pub mod daemon;
pub mod pilot;
pub mod program;
pub mod wizard;
