use vstd::prelude::*;
use crate::error::{Error, SynthesisStage};
use crate::text::str_eq;
use crate::accent::{merge_prediction, merged, differs_only_in, same_shape, lemma_merge_keeps_the_rest, AccentPhrase, Recompute};
use crate::voice_model::{meta_views, SpeakerMeta, SpeakerMetaView, VoiceModel, copy_metas};

verus! {

/// Which execution device the coordinator asks for.
#[derive(Debug, Clone, Copy, PartialEq, Eq)]
pub enum AccelerationMode {
    /// The GPU where one is available, else the CPU.
    Auto,
    Cpu,
    Gpu,
}

impl Default for AccelerationMode {
    fn default() -> (r: AccelerationMode)
        ensures
            r == AccelerationMode::Auto,
    {
        AccelerationMode::Auto
    }
}

/// How a coordinator is set up.
#[derive(Debug, Clone, Copy)]
pub struct InitializeOptions {
    pub acceleration_mode: AccelerationMode,
    pub cpu_num_threads: u32,
}

/// Options of waveform synthesis.
#[derive(Debug, Clone, Copy, Default)]
pub struct TtsOptions {
    pub enable_interrogative_upspeak: bool,
}

/// The device that `mode` selects: `Ok(true)` for the GPU, `Ok(false)` for the CPU.
pub open spec fn selected_gpu(mode: AccelerationMode, gpu_available: bool) -> Result<bool, Error> {
    match mode {
        AccelerationMode::Auto => Ok(gpu_available),
        AccelerationMode::Cpu => Ok(false),
        AccelerationMode::Gpu => if gpu_available {
            Ok(true)
        } else {
            Err(Error::InitializationError(AccelerationMode::Gpu))
        },
    }
}

/// Selects the execution device: `Auto` falls back to the CPU when no GPU is
/// available, `Gpu` fails then.
pub fn select_device(mode: AccelerationMode, gpu_available: bool) -> (r: Result<bool, Error>)
    ensures
        r == selected_gpu(mode, gpu_available),
{
    match mode {
        AccelerationMode::Auto => Ok(gpu_available),
        AccelerationMode::Cpu => Ok(false),
        AccelerationMode::Gpu => if gpu_available {
            Ok(true)
        } else {
            Err(Error::InitializationError(AccelerationMode::Gpu))
        },
    }
}

/// Whether a model with id `id` is among `models`.
pub open spec fn has_model(models: Seq<VoiceModel>, id: Seq<char>) -> bool {
    exists|i: int| 0 <= i < models.len() && #[trigger] models[i].id@ == id
}

/// Whether some model among `models` offers style `style_id`.
pub open spec fn has_style(models: Seq<VoiceModel>, style_id: u32) -> bool {
    exists|i: int| 0 <= i < models.len() && #[trigger] models[i].has_style(style_id)
}

/// No two models of `models` share an id.
pub open spec fn unique_models(models: Seq<VoiceModel>) -> bool {
    forall|i: int, j: int|
        0 <= i < models.len() && 0 <= j < models.len() && i != j ==> #[trigger] models[i].id@
            != #[trigger] models[j].id@
}

/// No style id is offered by two models of `models`.
pub open spec fn disjoint_styles(models: Seq<VoiceModel>) -> bool {
    forall|i: int, j: int, s: u32|
        0 <= i < models.len() && 0 <= j < models.len() && i != j && #[trigger] models[i].has_style(s)
            ==> !#[trigger] models[j].has_style(s)
}

/// Some style of `model` is already offered by one of `models`.
pub open spec fn style_taken(models: Seq<VoiceModel>, model: VoiceModel) -> bool {
    exists|s: u32| #[trigger] model.has_style(s) && has_style(models, s)
}

/// The metadata of all models, model after model.
pub open spec fn all_metas(models: Seq<VoiceModel>) -> Seq<SpeakerMetaView>
    decreases models.len(),
{
    if models.len() == 0 {
        Seq::empty()
    } else {
        all_metas(models.drop_last()) + meta_views(models.last().metas@)
    }
}

/// The coordinator: the registry of loaded voice models and the execution
/// mode. Every operation runs under one lock, held by the caller of these
/// methods, so each method sees and leaves a consistent registry.
pub struct Synthesizer {
    gpu: bool,
    models: Vec<VoiceModel>,
}

impl Synthesizer {
    /// The loaded models, in the order they were loaded.
    pub closed spec fn loaded(&self) -> Seq<VoiceModel> {
        self.models@
    }

    /// Whether the execution context runs on the GPU.
    pub closed spec fn gpu(&self) -> bool {
        self.gpu
    }

    /// No two loaded models share an id, and no two offer the same style.
    pub open spec fn wf(&self) -> bool {
        unique_models(self.loaded()) && disjoint_styles(self.loaded())
    }

    /// Whether a model with id `id` is loaded.
    pub open spec fn is_loaded(&self, id: Seq<char>) -> bool {
        has_model(self.loaded(), id)
    }

    /// A coordinator with no model loaded, on the device that `options` selects.
    pub fn new(options: InitializeOptions, gpu_available: bool) -> (r: Result<Synthesizer, Error>)
        ensures
            r matches Ok(s) ==> s.wf() && s.loaded().len() == 0 && selected_gpu(
                options.acceleration_mode,
                gpu_available,
            ) == Ok::<bool, Error>(s.gpu()),
            r is Err <==> selected_gpu(options.acceleration_mode, gpu_available) is Err,
            r matches Err(e) ==> e == Error::InitializationError(AccelerationMode::Gpu),
    {
        match select_device(options.acceleration_mode, gpu_available) {
            Ok(gpu) => Ok(Synthesizer { gpu, models: Vec::new() }),
            Err(e) => Err(e),
        }
    }

    pub fn is_gpu_mode(&self) -> (r: bool)
        ensures
            r == self.gpu(),
    {
        self.gpu
    }

    /// The metadata of every loaded model.
    pub fn metas(&self) -> (r: Vec<SpeakerMeta>)
        ensures
            meta_views(r@) == all_metas(self.loaded()),
    {
        let mut r: Vec<SpeakerMeta> = Vec::new();
        let mut i: usize = 0;
        while i < self.models.len()
            invariant
                i <= self.models@.len(),
                meta_views(r@) == all_metas(self.models@.subrange(0, i as int)),
            decreases self.models@.len() - i,
        {
            let mut more = copy_metas(&self.models[i].metas);
            let ghost before = r@;
            let ghost added = more@;
            r.append(&mut more);
            assert(r@ == before + added);
            assert(self.models@.subrange(0, i + 1).drop_last() == self.models@.subrange(
                0,
                i as int,
            ));
            assert(meta_views(r@) =~= meta_views(before) + meta_views(added));
            i = i + 1;
        }
        assert(self.models@.subrange(0, self.models@.len() as int) == self.models@);
        r
    }

    /// The position of the model with id `id`, if one is loaded.
    fn position(&self, id: &str) -> (r: Option<usize>)
        ensures
            r matches Some(i) ==> i < self.loaded().len() && self.loaded()[i as int].id@ == id@,
            r is None <==> !self.is_loaded(id@),
    {
        let mut i: usize = 0;
        while i < self.models.len()
            invariant
                i <= self.models@.len(),
                forall|k: int| 0 <= k < i ==> #[trigger] self.models@[k].id@ != id@,
            decreases self.models@.len() - i,
        {
            if str_eq(self.models[i].id.as_str(), id) {
                return Some(i);
            }
            i = i + 1;
        }
        None
    }

    /// The first style of `model` that a loaded model already offers, if any.
    fn taken_style(&self, model: &VoiceModel) -> (r: Option<u32>)
        ensures
            r matches Some(s) ==> model.has_style(s) && has_style(self.loaded(), s),
            r is None <==> !style_taken(self.loaded(), *model),
    {
        let mut i: usize = 0;
        while i < model.metas.len()
            invariant
                i <= model.metas@.len(),
                forall|a: int, b: int|
                    0 <= a < i && 0 <= b < model.metas@[a].styles@.len() ==> !has_style(
                        self.loaded(),
                        #[trigger] model.metas@[a].styles@[b].id,
                    ),
            decreases model.metas@.len() - i,
        {
            let styles = &model.metas[i].styles;
            let mut j: usize = 0;
            while j < styles.len()
                invariant
                    i < model.metas@.len(),
                    *styles == model.metas@[i as int].styles,
                    j <= styles@.len(),
                    forall|a: int, b: int|
                        0 <= a < i && 0 <= b < model.metas@[a].styles@.len() ==> !has_style(
                            self.loaded(),
                            #[trigger] model.metas@[a].styles@[b].id,
                        ),
                    forall|b: int| 0 <= b < j ==> !has_style(self.loaded(), #[trigger] styles@[b].id),
                decreases styles@.len() - j,
            {
                let id = styles[j].id;
                if self.check_style(id).is_ok() {
                    assert(model.metas@[i as int].styles@[j as int].id == id);
                    assert(model.has_style(id));
                    return Some(id);
                }
                j = j + 1;
            }
            i = i + 1;
        }
        assert forall|s: u32| #[trigger] model.has_style(s) implies !has_style(self.loaded(), s) by {
            let (a, b) = choose|a: int, b: int|
                0 <= a < model.metas@.len() && 0 <= b < model.metas@[a].styles@.len()
                    && #[trigger] model.metas@[a].styles@[b].id == s;
        }
        None
    }

    /// Registers `model` under its id. A model with the same id already
    /// loaded, or one that offers a style of `model`, is an error, and the
    /// registry is then left as it was.
    pub fn load_voice_model(&mut self, model: VoiceModel) -> (r: Result<(), Error>)
        requires
            old(self).wf(),
        ensures
            final(self).wf(),
            final(self).gpu() == old(self).gpu(),
            old(self).is_loaded(model.id@) ==> r == Err::<(), Error>(
                Error::DuplicateModelError(model.id),
            ) && final(self).loaded() == old(self).loaded(),
            !old(self).is_loaded(model.id@) && style_taken(old(self).loaded(), model) ==> (r matches Err(
                Error::DuplicateStyleError(s),
            ) && model.has_style(s) && has_style(old(self).loaded(), s)) && final(self).loaded() == old(
                self,
            ).loaded(),
            !old(self).is_loaded(model.id@) && !style_taken(old(self).loaded(), model) ==> r is Ok
                && final(self).loaded() == old(self).loaded().push(model),
            r is Ok ==> final(self).is_loaded(model.id@),
    {
        match self.position(model.id.as_str()) {
            Some(_) => Err(Error::DuplicateModelError(model.id)),
            None => match self.taken_style(&model) {
                Some(s) => Err(Error::DuplicateStyleError(s)),
                None => {
                    let ghost id = model.id@;
                    let ghost before = self.models@;
                    let ghost m = model;
                    self.models.push(model);
                    assert(self.models@ == before.push(m));
                    assert(self.models@[self.models@.len() - 1].id@ == id);
                    assert forall|i: int, j: int, s: u32|
                        0 <= i < self.models@.len() && 0 <= j < self.models@.len() && i != j
                            && #[trigger] self.models@[i].has_style(s) implies !#[trigger] self.models@[j].has_style(s) by {
                        if i == before.len() {
                            if self.models@[j].has_style(s) {
                                assert(before[j] == self.models@[j]);
                                assert(has_style(before, s));
                            }
                        } else if j == before.len() {
                            assert(before[i] == self.models@[i]);
                            assert(has_style(before, s));
                        } else {
                            assert(before[i] == self.models@[i]);
                            assert(before[j] == self.models@[j]);
                        }
                    }
                    Ok(())
                },
            },
        }
    }

    /// Removes the model with id `id` from the registry.
    pub fn unload_voice_model(&mut self, id: &str) -> (r: Result<(), Error>)
        requires
            old(self).wf(),
        ensures
            final(self).wf(),
            final(self).gpu() == old(self).gpu(),
            !old(self).is_loaded(id@) ==> (r matches Err(Error::ModelNotFoundError(e)) && e@ == id@)
                && final(self).loaded() == old(self).loaded(),
            old(self).is_loaded(id@) ==> r is Ok && exists|i: int|
                0 <= i < old(self).loaded().len() && old(self).loaded()[i].id@ == id@
                    && #[trigger] final(self).loaded() == old(self).loaded().remove(i),
            r is Ok ==> !final(self).is_loaded(id@),
            r is Ok ==> forall|s: u32|
                #[trigger] has_style(old(self).loaded(), s) ==> (has_style(final(self).loaded(), s)
                    <==> !exists|i: int| 0 <= i < old(self).loaded().len() && old(self).loaded()[i].id@ == id@
                    && #[trigger] old(self).loaded()[i].has_style(s)),
    {
        match self.position(id) {
            None => Err(Error::ModelNotFoundError(id.to_owned())),
            Some(i) => {
                let ghost before = self.models@;
                self.models.remove(i);
                assert(self.models@ == before.remove(i as int));
                assert forall|k: int| 0 <= k < self.models@.len() implies #[trigger] self.models@[k].id@ != id@ by {
                    if k < i {
                        assert(self.models@[k] == before[k]);
                    } else {
                        assert(self.models@[k] == before[k + 1]);
                    }
                }
                assert forall|s: u32| #[trigger] has_style(before, s) implies (has_style(self.models@, s)
                    <==> !exists|j: int| 0 <= j < before.len() && before[j].id@ == id@
                    && #[trigger] before[j].has_style(s)) by {
                    if has_style(self.models@, s) {
                        let k = choose|k: int| 0 <= k < self.models@.len() && #[trigger] self.models@[k].has_style(s);
                        let kk = if k < i { k } else { k + 1 };
                        assert(self.models@[k] == before[kk]);
                        assert forall|j: int| 0 <= j < before.len() && before[j].id@ == id@
                            implies !#[trigger] before[j].has_style(s) by {
                            assert(j == i);
                        }
                    } else {
                        let k = choose|k: int| 0 <= k < before.len() && #[trigger] before[k].has_style(s);
                        if k != i {
                            let kk = if k < i { k } else { k - 1 };
                            assert(self.models@[kk] == before[k]);
                        }
                    }
                }
                assert forall|a: int, b: int, s: u32|
                    0 <= a < self.models@.len() && 0 <= b < self.models@.len() && a != b
                        && #[trigger] self.models@[a].has_style(s) implies !#[trigger] self.models@[b].has_style(s) by {
                    let aa = if a < i { a } else { a + 1 };
                    let bb = if b < i { b } else { b + 1 };
                    assert(self.models@[a] == before[aa]);
                    assert(self.models@[b] == before[bb]);
                }
                Ok(())
            },
        }
    }

    pub fn is_loaded_voice_model(&self, id: &str) -> (r: bool)
        ensures
            r == self.is_loaded(id@),
    {
        self.position(id).is_some()
    }

    /// Tells whether some loaded model offers style `style_id`.
    pub fn check_style(&self, style_id: u32) -> (r: Result<(), Error>)
        ensures
            r is Ok <==> has_style(self.loaded(), style_id),
            r is Err ==> r == Err::<(), Error>(Error::StyleNotFoundError(style_id)),
    {
        let mut i: usize = 0;
        while i < self.models.len()
            invariant
                i <= self.models@.len(),
                forall|k: int| 0 <= k < i ==> !(#[trigger] self.models@[k].has_style(style_id)),
            decreases self.models@.len() - i,
        {
            if self.models[i].offers_style(style_id) {
                return Ok(());
            }
            i = i + 1;
        }
        Err(Error::StyleNotFoundError(style_id))
    }

    /// Recomputes fields of `accent_phrases` for style `style_id` from
    /// `predicted`, the inference engine's answer for them. `accent_phrases`
    /// is left alone; the result differs from it in the fields of `kind` only.
    fn replace_fields(
        &self,
        accent_phrases: &Vec<AccentPhrase>,
        style_id: u32,
        predicted: &Vec<AccentPhrase>,
        kind: Recompute,
    ) -> (r: Result<Vec<AccentPhrase>, Error>)
        ensures
            !has_style(self.loaded(), style_id) ==> r == Err::<Vec<AccentPhrase>, Error>(
                Error::StyleNotFoundError(style_id),
            ),
            has_style(self.loaded(), style_id) && !same_shape(accent_phrases@, predicted@) ==> r
                == Err::<Vec<AccentPhrase>, Error>(Error::SynthesisError(SynthesisStage::Prediction(kind))),
            has_style(self.loaded(), style_id) && same_shape(accent_phrases@, predicted@) ==> (r matches Ok(v)
                && merged(v@, accent_phrases@, predicted@, kind)),
            r matches Ok(v) ==> differs_only_in(v@, accent_phrases@, kind),
    {
        match self.check_style(style_id) {
            Err(e) => Err(e),
            Ok(()) => match merge_prediction(accent_phrases, predicted, kind) {
                None => Err(Error::SynthesisError(SynthesisStage::Prediction(kind))),
                Some(v) => {
                    proof {
                        lemma_merge_keeps_the_rest(v@, accent_phrases@, predicted@, kind);
                    }
                    Ok(v)
                },
            },
        }
    }

    /// Takes lengths and pitch from `predicted` (see `replace_fields`).
    pub fn replace_mora_data(
        &self,
        accent_phrases: &Vec<AccentPhrase>,
        style_id: u32,
        predicted: &Vec<AccentPhrase>,
    ) -> (r: Result<Vec<AccentPhrase>, Error>)
        ensures
            !has_style(self.loaded(), style_id) ==> r == Err::<Vec<AccentPhrase>, Error>(
                Error::StyleNotFoundError(style_id),
            ),
            has_style(self.loaded(), style_id) && !same_shape(accent_phrases@, predicted@) ==> r
                == Err::<Vec<AccentPhrase>, Error>(Error::SynthesisError(SynthesisStage::Prediction(Recompute::MoraData))),
            has_style(self.loaded(), style_id) && same_shape(accent_phrases@, predicted@) ==> (r matches Ok(v)
                && merged(v@, accent_phrases@, predicted@, Recompute::MoraData)),
            r matches Ok(v) ==> differs_only_in(v@, accent_phrases@, Recompute::MoraData),
    {
        self.replace_fields(accent_phrases, style_id, predicted, Recompute::MoraData)
    }

    /// Takes the consonant and vowel lengths from `predicted` (see `replace_fields`).
    pub fn replace_phoneme_length(
        &self,
        accent_phrases: &Vec<AccentPhrase>,
        style_id: u32,
        predicted: &Vec<AccentPhrase>,
    ) -> (r: Result<Vec<AccentPhrase>, Error>)
        ensures
            !has_style(self.loaded(), style_id) ==> r == Err::<Vec<AccentPhrase>, Error>(
                Error::StyleNotFoundError(style_id),
            ),
            has_style(self.loaded(), style_id) && !same_shape(accent_phrases@, predicted@) ==> r
                == Err::<Vec<AccentPhrase>, Error>(Error::SynthesisError(SynthesisStage::Prediction(Recompute::PhonemeLength))),
            has_style(self.loaded(), style_id) && same_shape(accent_phrases@, predicted@) ==> (r matches Ok(v)
                && merged(v@, accent_phrases@, predicted@, Recompute::PhonemeLength)),
            r matches Ok(v) ==> differs_only_in(v@, accent_phrases@, Recompute::PhonemeLength),
    {
        self.replace_fields(accent_phrases, style_id, predicted, Recompute::PhonemeLength)
    }

    /// Takes the pitch from `predicted` (see `replace_fields`): phrase and
    /// mora counts stay, and only pitch fields can differ from the input.
    pub fn replace_mora_pitch(
        &self,
        accent_phrases: &Vec<AccentPhrase>,
        style_id: u32,
        predicted: &Vec<AccentPhrase>,
    ) -> (r: Result<Vec<AccentPhrase>, Error>)
        ensures
            !has_style(self.loaded(), style_id) ==> r == Err::<Vec<AccentPhrase>, Error>(
                Error::StyleNotFoundError(style_id),
            ),
            has_style(self.loaded(), style_id) && !same_shape(accent_phrases@, predicted@) ==> r
                == Err::<Vec<AccentPhrase>, Error>(Error::SynthesisError(SynthesisStage::Prediction(Recompute::MoraPitch))),
            has_style(self.loaded(), style_id) && same_shape(accent_phrases@, predicted@) ==> (r matches Ok(v)
                && merged(v@, accent_phrases@, predicted@, Recompute::MoraPitch)),
            r matches Ok(v) ==> differs_only_in(v@, accent_phrases@, Recompute::MoraPitch),
    {
        self.replace_fields(accent_phrases, style_id, predicted, Recompute::MoraPitch)
    }

    /// Accepts the waveform `wave` that the engine rendered for style
    /// `style_id`: the style must be loaded, and the audio must not be empty.
    pub fn synthesis(&self, style_id: u32, wave: Vec<u8>) -> (r: Result<Vec<u8>, Error>)
        ensures
            !has_style(self.loaded(), style_id) ==> r == Err::<Vec<u8>, Error>(
                Error::StyleNotFoundError(style_id),
            ),
            has_style(self.loaded(), style_id) && wave@.len() == 0 ==> r == Err::<Vec<u8>, Error>(
                Error::SynthesisError(SynthesisStage::Waveform),
            ),
            has_style(self.loaded(), style_id) && wave@.len() > 0 ==> (r matches Ok(w) && w@ == wave@),
            r matches Ok(w) ==> w@.len() > 0,
    {
        match self.check_style(style_id) {
            Err(e) => Err(e),
            Ok(()) => if wave.len() == 0 {
                Err(Error::SynthesisError(SynthesisStage::Waveform))
            } else {
                Ok(wave)
            },
        }
    }
}

/// Loading models with pairwise distinct ids and style ids, none of them
/// loaded yet, one after the other in any order (the order the lock admits
/// them): each load finds its id and its styles free, so each one succeeds,
/// and the registry then reports the metadata of the earlier models followed
/// by that of every new one.
pub proof fn lemma_distinct_loads_all_succeed(start: Seq<VoiceModel>, models: Seq<VoiceModel>)
    requires
        unique_models(start + models),
        disjoint_styles(start + models),
    ensures
        forall|k: int|
            0 <= k < models.len() ==> !has_model(
                start + models.subrange(0, k),
                (#[trigger] models[k]).id@,
            ),
        forall|k: int|
            0 <= k < models.len() ==> !style_taken(
                start + models.subrange(0, k),
                #[trigger] models[k],
            ),
        all_metas(start + models) == all_metas(start) + all_metas(models),
    decreases models.len(),
{
    let all = start + models;
    assert forall|k: int| 0 <= k < models.len() implies !has_model(
        start + models.subrange(0, k),
        (#[trigger] models[k]).id@,
    ) by {
        let prefix = start + models.subrange(0, k);
        assert forall|i: int| 0 <= i < prefix.len() implies #[trigger] prefix[i].id@ != models[k].id@ by {
            assert(prefix[i] == all[i]);
            assert(models[k] == all[start.len() + k]);
        }
    }
    assert forall|k: int| 0 <= k < models.len() implies !style_taken(
        start + models.subrange(0, k),
        #[trigger] models[k],
    ) by {
        let prefix = start + models.subrange(0, k);
        assert(models[k] == all[start.len() + k]);
        assert forall|s: u32| #[trigger] models[k].has_style(s) implies !has_style(prefix, s) by {
            assert forall|i: int| 0 <= i < prefix.len() implies !(#[trigger] prefix[i].has_style(s)) by {
                assert(prefix[i] == all[i]);
            }
        }
    }
    if models.len() == 0 {
        assert(start + models =~= start);
    } else {
        let rest = models.drop_last();
        assert((start + models).drop_last() =~= start + rest);
        assert forall|i: int, j: int|
            0 <= i < (start + rest).len() && 0 <= j < (start + rest).len() && i != j
                implies #[trigger] (start + rest)[i].id@ != #[trigger] (start + rest)[j].id@ by {
            assert((start + rest)[i] == all[i]);
            assert((start + rest)[j] == all[j]);
        }
        assert forall|i: int, j: int, s: u32|
            0 <= i < (start + rest).len() && 0 <= j < (start + rest).len() && i != j
                && #[trigger] (start + rest)[i].has_style(s) implies !#[trigger] (start + rest)[j].has_style(s) by {
            assert((start + rest)[i] == all[i]);
            assert((start + rest)[j] == all[j]);
        }
        lemma_distinct_loads_all_succeed(start, rest);
        assert((start + models).last() == models.last());
    }
}

} // verus!
