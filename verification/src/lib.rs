//! Turns robot joint data into motion-skill files and back.
//!
//! A target is a list of frames; a frame holds a value for each of the 20 joints of the robot
//! (left arm, left leg, right leg, right arm) and a waiting time. Frames are read from params
//! files (`name_state_joint<TAB>value` lines), from editor files (one space-separated line per
//! frame), or from captured agent messages; they are written as skill files, as params files
//! with skill files that refer to them, or as editor files.
//!
//! The library works on the texts of the values: reading gives, for each cell of a frame, the
//! text that was read for it (if any), and writing takes the texts of the values. Turning texts
//! into numbers and numbers into texts is left to the caller.
use vstd::prelude::*;

pub mod text;
pub mod joints;
pub mod frames;
pub mod params;
pub mod editor;
pub mod skill;
pub mod reload;
pub mod packets;
pub mod ui;
pub mod capture;

verus! {
}
