//! The FBX container and object graph: the binary Node Record reader,
//! the ASCII reader and writer, the decoders of the scene-wide sections
//! and of the object graph, and the object-graph writers.

pub mod animation;
pub mod anim_groups;
pub mod anim_layout;
pub mod anim_writer;
pub mod anim_round_trip;
pub mod ascii;
pub mod ascii_writer;
pub mod base64;
pub mod binary;
pub mod constraint;
pub mod constraint_writer;
pub mod bytes;
pub mod decimal;
pub mod decoder;
pub mod definitions;
pub mod deformer;
pub mod documents;
pub mod deformer_writer;
pub mod deformer_round_trip;
pub mod encoder;
pub mod error;
pub mod geometry;
pub mod globals;
pub mod header_info;
pub mod inflate;
pub mod inherit;
pub mod kinds;
pub mod material;
pub mod model;
pub mod names;
pub mod node_transform;
pub mod nurbs;
pub mod objects;
pub mod opaque;
pub mod round_trip;
pub mod trunc;
pub mod written_utf8;
pub mod text;
