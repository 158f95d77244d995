//! The sizes and speeds of the simulation, in whole units.
use vstd::prelude::*;

verus! {

pub const SCREEN_WIDTH: i16 = 1600;

pub const SCREEN_HEIGHT: i16 = 900;

/// The arena is `WORLD_W` wide, from 0.
pub const WORLD_W: i16 = 3200;

/// The arena is `WORLD_H` high, from 0.
pub const WORLD_H: i16 = 1800;

/// How far debris may leave the arena before it re-enters, and how far
/// inside the opposite edge it does.
pub const WRAP_MARGIN: i16 = 5;

pub const AGENTS_NUM: usize = 0;

pub const AGENTS_NUM_MIN: usize = 0;

pub const AGENT_SIZE_MIN: u16 = 4;

pub const AGENT_SIZE_MAX: u16 = 10;

pub const AGENT_SPEED: i16 = 40;

pub const AGENT_VISION_RANGE: u16 = 250;

pub const AGENT_ROTATION: i16 = 2;

pub const ASTER_SIZE_MIN: u16 = 8;

pub const ASTER_SIZE_MAX: u16 = 18;

pub const ASTER_NUM: usize = 4098;

pub const ASTER_SPEED: i16 = 100;

/// The length of a frame at thirty frames a second, in microseconds.
pub const FIX_DT: u64 = 33_333;

} // verus!
