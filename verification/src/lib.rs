//! Verified core of a path-tracing renderer: the column-stripe work
//! partition, the pixel collector that funnels worker results into the
//! output image, and the shading decision policy. The floating-point
//! geometry and sampling live outside the verified library.

pub mod collect;
pub mod shade;
pub mod stripes;
