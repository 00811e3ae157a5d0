//! Verified kernels of a fingerprint stack: MINDTCT-style minutiae geometry, block maps and
//! quality, the matcher's score semantics, deterministic test generators, and the daemon's
//! authorization, naming, storage and session rules.

pub mod authorizer;
pub mod bytes;
pub mod chaincod;
pub mod consts;
pub mod contour;
pub mod daemon;
pub mod device;
pub mod error;
pub mod fuzz;
pub mod gen;
pub mod grid;
pub mod image;
pub mod imagemaps;
pub mod manager;
pub mod maps;
pub mod matcher;
pub mod minutia;
pub mod names;
pub mod neighbors;
pub mod prune;
pub mod num;
pub mod quality;
pub mod requests;
pub mod ridges;
pub mod scan;
pub mod session;
pub mod shape;
pub mod sleep;
pub mod smooth;
pub mod status;
pub mod storage;
pub mod text;
pub mod util;
