//! A small 2D raycasting core: vectors over any numeric representation, step-sampled rays,
//! a bounds-checked pixel buffer and a grid world of walls around one player.

pub mod text;
pub mod error;
pub mod primitive;
pub mod sqrt;
pub mod scalar;
pub mod vec2;
pub mod rect;
pub mod ray;
pub mod integers;
pub mod pixel_buf;
pub mod game;

pub use error::Error;
pub use error::Result;
pub use game::Game;
pub use game::Player;
pub use game::Wall;
pub use game::WallKind;
pub use pixel_buf::Color;
pub use pixel_buf::PixelBuffer;
pub use primitive::FromPrimitive;
pub use primitive::Primitive;
pub use primitive::ToPrimitive;
pub use ray::Ray;
pub use ray::RayView;
pub use rect::Rect;
pub use scalar::Scalar;
pub use sqrt::Sqrt;
pub use vec2::Vec2;
