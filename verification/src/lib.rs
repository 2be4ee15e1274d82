//! A Whitted-style ray tracer whose geometry, spatial index and shading
//! engine are verified. All real-valued quantities are carried in a
//! fixed-point scale of one millionth, so every computation is exact
//! integer arithmetic with a stated rounding rule.

pub mod bbox;
pub mod bvh;
pub mod color;
pub mod fixed;
pub mod from_obj;
pub mod intersection;
pub mod mesh;
pub mod parser;
pub mod poly;
pub mod ray;
pub mod scene;
pub mod shapes;
pub mod sphere;
pub mod tracer;
pub mod vec3;
