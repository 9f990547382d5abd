//! The social-media preview image: a montage of the best published images.

pub mod layout;
pub mod selection;
