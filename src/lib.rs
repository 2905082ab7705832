//! Coordination layer for text-to-speech synthesis: the registry of loaded
//! voice models, style resolution, the value-preserving merge of recomputed
//! prosody into accent phrases, and the user pronunciation dictionary.
pub mod error;
pub mod text;
pub mod voice_model;
pub mod accent;
pub mod synthesizer;
pub mod user_dict;
pub mod open_jtalk;
