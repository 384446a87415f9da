use vstd::prelude::*;

use crate::fx::FS;
use crate::vec3::{Point, Vec3};

verus! {

/// Everything one render invocation needs.
#[derive(Debug)]
pub struct RunConfig {
    pub img_config: ImgConfig,
    pub cam_config: CameraConfig,
    pub scene_config: SceneConfig,
    pub filename: String,
    pub quiet: bool,
    pub use_bvh: bool,
}

impl Default for RunConfig {
    fn default() -> (r: Self)
        ensures
            r.img_config == ImgConfig::default_spec(),
            r.cam_config == CameraConfig::default_spec(),
            r.scene_config == SceneConfig::default_spec(),
            r.filename@ == "res.png"@,
            !r.quiet,
            r.use_bvh,
    {
        broadcast use vstd::string::to_string_from_display_ensures_for_str;

        Self {
            img_config: ImgConfig::default(),
            cam_config: CameraConfig::default(),
            scene_config: SceneConfig::default(),
            filename: "res.png".to_string(),
            quiet: false,
            use_bvh: true,
        }
    }
}

/// The output image's shape and sampling effort.
#[derive(Clone, Copy, PartialEq, Eq, Structural, Debug)]
pub struct ImgConfig {
    pub aspect_ratio: i64,
    pub width: u32,
    pub samples_per_pixel: u32,
    pub max_depth: i32,
}

impl ImgConfig {
    /// Sixteen by nine (truncated at the fixed-point scale), 1200 pixels
    /// wide, 500 samples, depth 50.
    pub open spec fn default_spec() -> ImgConfig {
        ImgConfig { aspect_ratio: 177_777, width: 1200, samples_per_pixel: 500, max_depth: 50 }
    }
}

impl Default for ImgConfig {
    fn default() -> (r: Self)
        ensures
            r == ImgConfig::default_spec(),
    {
        Self { aspect_ratio: 177_777, width: 1200, samples_per_pixel: 500, max_depth: 50 }
    }
}

/// Where the camera stands and looks, and its lens parameters.
#[derive(Clone, Copy, PartialEq, Eq, Structural, Debug)]
pub struct CameraConfig {
    pub lookfrom: Point,
    pub lookat: Point,
    pub vec_up: Vec3,
    pub vert_fov: i64,
    pub aperture: i64,
    pub focus_dist: i64,
}

impl CameraConfig {
    /// From `(13, 2, 3)` toward the origin, y up, a twenty-degree field
    /// of view.
    pub open spec fn default_spec() -> CameraConfig {
        CameraConfig {
            lookfrom: Vec3 { x: 1_300_000, y: 200_000, z: 300_000 },
            lookat: Vec3 { x: 0, y: 0, z: 0 },
            vec_up: Vec3 { x: 0, y: 100_000, z: 0 },
            vert_fov: 2_000_000,
            aperture: 10_000,
            focus_dist: 1_000_000,
        }
    }
}

impl Default for CameraConfig {
    fn default() -> (r: Self)
        ensures
            r == CameraConfig::default_spec(),
    {
        Self {
            lookfrom: Point::new(1_300_000, 200_000, 300_000),
            lookat: Point::new(0, 0, 0),
            vec_up: Vec3::new(0, 100_000, 0),
            vert_fov: 2_000_000,
            aperture: 10_000,
            focus_dist: 1_000_000,
        }
    }
}

/// How the scene generator populates the world.
#[derive(Clone, Copy, PartialEq, Eq, Structural, Debug)]
pub struct SceneConfig {
    pub small_sphere_count: u32,
    pub diffuse_prob: i64,
    pub metal_prob: i64,
}

/// The material probabilities are genuine: nonnegative, and what remains
/// for glass is nonnegative too.
pub open spec fn scene_config_valid(c: SceneConfig) -> bool {
    &&& 0 <= c.diffuse_prob
    &&& 0 <= c.metal_prob
    &&& c.diffuse_prob + c.metal_prob <= FS
}

impl SceneConfig {
    /// Check the material probabilities before any scene is generated.
    pub fn validate(&self) -> (r: bool)
        ensures
            r == scene_config_valid(*self),
    {
        0 <= self.diffuse_prob && self.diffuse_prob <= FS && 0 <= self.metal_prob
            && self.metal_prob <= FS && self.diffuse_prob + self.metal_prob <= FS
    }

    /// Aim for 484 small spheres, four fifths diffuse, a tenth metal.
    pub open spec fn default_spec() -> SceneConfig {
        SceneConfig { small_sphere_count: 484, diffuse_prob: 80_000, metal_prob: 10_000 }
    }
}

impl Default for SceneConfig {
    fn default() -> (r: Self)
        ensures
            r == SceneConfig::default_spec(),
    {
        Self { small_sphere_count: 484, diffuse_prob: 80_000, metal_prob: 10_000 }
    }
}

} // verus!
