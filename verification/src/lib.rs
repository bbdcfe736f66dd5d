pub mod camera;
pub mod coordinates;
pub mod distant_light;
pub mod drawing_2d;
pub mod fixed;
pub mod intersection;
pub mod line;
pub mod ray;
pub mod raytracer;
pub mod rng;
pub mod scene;
pub mod shapes;
pub mod utils;
