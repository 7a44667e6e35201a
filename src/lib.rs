//! Decoder for the plain-text portable pixmap format (`P3`) into RGBA pixels.
//!
//! The bytes split into lines on `\n`; a line that starts with `#` is a
//! comment and is skipped, and an empty line is an error (`MalformedLine`).
//! The first three other lines are the magic `P3`, the size `<width> <height>`
//! (split at the first space) and the max value. All later lines form one
//! stream of samples separated by single spaces; every three samples make one
//! opaque pixel, and a pixel still incomplete when input ends is kept with its
//! missing channels set to 0. A decode succeeds only with exactly
//! `width * height` pixels. The max value is recorded; samples are taken as
//! they are, in `0..=255`, and not rescaled by it.
pub mod format;
pub mod image;
pub mod laws;
pub mod text;
