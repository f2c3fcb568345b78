//! Verified core of the Lumelo playback services: protocol lines, queue state,
//! output selection, quiet-mode decisions and library indexing rules.

pub mod text;
pub mod protocol;
pub mod json;
pub mod encode;
pub mod roundtrip;
pub mod snapshot;
pub mod paths;
pub mod artwork;
pub mod media_model;
pub mod queue;
pub mod runtime_model;
pub mod runtime;
pub mod playback;
pub mod runtime_laws;
pub mod alsa;
pub mod cards;
pub mod session;
pub mod library;
pub mod scan;
pub mod resolver;
pub mod dop;
pub mod thumb;
pub mod dsd_pcm;
pub mod linking;
