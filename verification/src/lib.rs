//! The logic of a Doom level editor, verified: picture and palette codecs, texture resolution
//! and composition, atlas packing, light animation, BSP replay, value remapping, play-test
//! planning, and the editor's selection, caches and preferences.

use vstd::prelude::*;

pub mod palette;
pub mod picture;
pub mod boundary;
pub mod selection;
pub mod sprites;
pub mod prefs;
pub mod render;
pub mod spans;
pub mod launch;
pub mod things;
pub mod light;
pub mod remap;
pub mod sweep;
pub mod atlas;
pub mod compose;
pub mod bsp_anim;
pub mod assets;
pub mod icons;
pub mod jobs;
pub mod thumbs;
pub mod walls;
