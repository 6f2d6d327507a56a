//! The smaller components of nodes, as far as the scene looks into them.

use crate::numbers::{Real, Vec3};
use vstd::prelude::*;

verus! {

/// A camera.
#[derive(Debug, Clone, Copy, PartialEq, Eq, Structural)]
pub struct Camera {
    pub enabled: bool,
    pub orthographic: bool,
    pub field_of_view: Real,
    pub near: Real,
    pub far: Real,
}

/// What sort of light it is.
#[derive(Debug, Clone, Copy, PartialEq, Eq, Structural)]
pub enum LightKind {
    Directional,
    Point { range: Real },
    Spot { range: Real, inner: Real, outer: Real },
}

/// A light.
#[derive(Debug, Clone, Copy, PartialEq, Eq, Structural)]
pub struct Light {
    pub enabled: bool,
    pub cast_shadows: bool,
    pub kind: LightKind,
    pub color: Vec3,
    pub intensity: Real,
    /// The layers it shines on.
    pub mask: u32,
}

/// A particle system.
#[derive(Debug, Clone, Copy, PartialEq, Eq, Structural)]
pub struct ParticleSystem {
    pub playing: bool,
    pub rate: Real,
    /// How many particles there are.
    pub alive: u32,
    /// Whether its particles bounce off the scene.
    pub scene_collision: bool,
}

/// How a sound fades with distance.
#[derive(Debug, Clone, Copy, PartialEq, Eq, Structural)]
pub struct Spatial {
    pub radius: Real,
    pub max_distance: Real,
    pub rolloff: Real,
}

/// A ground made of heights.
#[derive(Debug, Clone, Copy, PartialEq, Eq, Structural)]
pub struct Terrain {
    pub rows: usize,
    pub cols: usize,
    /// Names the shared grid of heights.
    pub heights: u64,
    pub scale: Vec3,
    /// From the corner, where the ground begins, to its middle, where a height field does.
    pub collider_offset: Vec3,
}

} // verus!
