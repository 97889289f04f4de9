//! Plain value types shared by the whole library.

pub mod algebra;
pub mod frontback;

pub use algebra::Index2;
pub use frontback::FrontBackBuffer;
