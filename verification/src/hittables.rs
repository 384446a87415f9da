pub mod aabb;
pub mod bvh;
pub mod equivalence;
pub mod hit_record;
pub mod hittable;
pub mod hittable_list;
pub mod sphere;

pub use aabb::AABB;
pub use bvh::BVH;
pub use hit_record::HitRecord;
pub use hittable_list::HittableList;
pub use sphere::Sphere;
