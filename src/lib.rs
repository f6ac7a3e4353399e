//! An exact-arithmetic ray tracing core over axis-aligned boxes.
//!
//! Scene coordinates are integers; ray parameters and hit points are exact
//! rationals, so every intersection decision is made without rounding.
mod geometry;
mod cube;
mod scene;
mod material;
mod texture;
mod tracer;
mod composition;

pub use geometry::{Vec3, Frac, Ray, COORD_LIMIT, W_LIMIT, ORIGIN_LIMIT, DIR_LIMIT, MAX_HEIGHT};
pub use material::{Color, Material};
pub use texture::{Texture, Image, UV_ONE};
pub use cube::{Cube, Intersect, HPoint, create_tronco};
pub use scene::{Node, Grid, Group, nearest_in, all_check};
pub use tracer::{cast_shadow, shadow_ray_fits, trace_step, Step, MAX_DEPTH, skybox_color};
pub use cube::{Span, Rat, HitModel, box_hit, box_entry, face_normal, point_at, is_axis_unit, lemma_ray_away_misses, outside_and_away};
pub use scene::{node_hit, list_hit, nearer};
pub use composition::{flatten, flatten_list, flat_hit, lemma_nested_equals_flat, lemma_roots_equal_flat, lemma_normal_is_axis_unit};
pub use tracer::{shadow_intensity, first_occluder, shadow_ray, lemma_occluder_casts_shadow};
