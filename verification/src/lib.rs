//! Compares a rendered pixel-art template against an observed image and
//! reports, per named palette color, how many template pixels there are and
//! how many differ from the observed image.
pub mod palette;
pub mod grid;
pub mod compare;
pub mod decode;
