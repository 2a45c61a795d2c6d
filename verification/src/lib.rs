//! Translation through the inference engine that already runs on the machine:
//! the rules that decide what is asked of the engine and what is kept of its reply.

pub mod cleaning;
pub mod language;
pub mod text;
pub mod translation;

pub use cleaning::{nettoyer, tronquer};
pub use language::{detect_language, meme_langue};
pub use translation::{endpoint_par_defaut, TranslationRequest, TranslationResult};
