//! Core algorithms of the shapeme image approximator.
//!
//! - `shapes`, `annealing`: the flat shape list of the first version, its
//!   normalisation and mutation;
//! - `gene`, `polygon`, `evolve`: shape genes (triangles, circles, polygons)
//!   with their normalisation, creation, mutation and recombination;
//! - `genome`, `grid`, `budget`: whole candidate solutions and the cost and
//!   size budgets they live within;
//! - `raster`: the integer geometry of scanline rasterisation and the pixel
//!   difference of RGB buffers;
//! - `svg`, `documents`: SVG text and data URLs;
//! - `scale`: the size a target image is scaled down to, and its resampling;
//! - `rng`: the random source.
//!
//! Colours and blur radii are type parameters: the logic here carries them
//! without looking inside; the floating-point work on them (drawing a colour,
//! nudging it, angles around a centroid) is passed in as functions.

pub mod rng;
pub mod annealing;
pub mod gene;
pub mod polygon;
pub mod evolve;
pub mod genome;
pub mod grid;
pub mod documents;
pub mod budget;
pub mod raster;
pub mod shapes;
pub mod svg;
pub mod scale;
