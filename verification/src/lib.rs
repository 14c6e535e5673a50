//! A verified encoder for a small GPU texture container: a source image is
//! downsampled into a full mipmap pyramid, each level is encoded under a
//! selectable pixel format (raw RGBA8, or block-compressed BC1/BC5), and the
//! levels are laid out behind a fixed header whose mip-count word is patched
//! once the pyramid is complete.

pub mod bc1;
pub mod bc5;
pub mod container;
pub mod image_data;
pub mod image_format;
pub mod mipmaping;
pub mod timing;
