use vstd::prelude::*;
use crate::accent::Recompute;
use crate::synthesizer::AccelerationMode;

verus! {

/// The field of a dictionary word that breaks the word rules.
#[derive(Debug, Clone, Copy, PartialEq, Eq)]
pub enum WordField {
    Surface,
    Pronunciation,
    AccentType,
    Priority,
}

/// The stage of the pipeline whose result was refused.
#[derive(Debug, Clone, Copy, PartialEq, Eq)]
pub enum SynthesisStage {
    /// A prosody prediction that does not have the shape of its input.
    Prediction(Recompute),
    /// A waveform with no audio in it.
    Waveform,
}

/// What went wrong in a call of the library. Each variant carries the
/// offending id, field or stage.
#[derive(Debug, Clone, PartialEq, Eq)]
pub enum Error {
    /// The execution device asked for could not be set up.
    InitializationError(AccelerationMode),
    /// A voice model with this id is already loaded.
    DuplicateModelError(String),
    /// A loaded voice model already offers this style id.
    DuplicateStyleError(u32),
    /// No voice model with this id is loaded.
    ModelNotFoundError(String),
    /// No loaded voice model offers this style.
    StyleNotFoundError(u32),
    /// The inference engine handed back an unusable result at this stage.
    SynthesisError(SynthesisStage),
    /// A dictionary word breaks the word rules in this field.
    ValidationError(WordField),
    /// No dictionary word has this id.
    NotFoundError(String),
    /// The id offered for a new dictionary word was issued before.
    WordIdInUseError(String),
}

} // verus!
