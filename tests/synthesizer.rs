use voicevox_node::error::{Error, SynthesisStage};
use voicevox_node::synthesizer::{select_device, AccelerationMode, InitializeOptions, Synthesizer};
use voicevox_node::voice_model::{SpeakerMeta, StyleMeta, VoiceModel};

fn model(id: &str, style_ids: &[u32]) -> VoiceModel {
    let styles = style_ids
        .iter()
        .map(|s| StyleMeta { id: *s, name: format!("style{}", s) })
        .collect();
    VoiceModel {
        id: id.to_string(),
        metas: vec![SpeakerMeta {
            name: format!("speaker of {}", id),
            styles,
            version: "0.0.1".to_string(),
            speaker_uuid: format!("uuid-{}", id),
        }],
    }
}

fn cpu_synthesizer() -> Synthesizer {
    Synthesizer::new(
        InitializeOptions { acceleration_mode: AccelerationMode::Auto, cpu_num_threads: 1 },
        false,
    )
    .unwrap()
}

#[test]
fn device_selection() {
    assert_eq!(select_device(AccelerationMode::Auto, false), Ok(false));
    assert_eq!(select_device(AccelerationMode::Auto, true), Ok(true));
    assert_eq!(select_device(AccelerationMode::Cpu, true), Ok(false));
    assert_eq!(select_device(AccelerationMode::Gpu, true), Ok(true));
    assert_eq!(select_device(AccelerationMode::Gpu, false), Err(Error::InitializationError(AccelerationMode::Gpu)));
    assert_eq!(AccelerationMode::default(), AccelerationMode::Auto);
}

#[test]
fn new_reports_device() {
    let s = cpu_synthesizer();
    assert!(!s.is_gpu_mode());
    assert!(s.metas().is_empty());
    let g = Synthesizer::new(
        InitializeOptions { acceleration_mode: AccelerationMode::Gpu, cpu_num_threads: 4 },
        true,
    )
    .unwrap();
    assert!(g.is_gpu_mode());
    let failed = Synthesizer::new(
        InitializeOptions { acceleration_mode: AccelerationMode::Gpu, cpu_num_threads: 4 },
        false,
    );
    assert!(matches!(failed, Err(Error::InitializationError(AccelerationMode::Gpu))));
}

#[test]
fn load_then_unload_toggles_membership() {
    let mut s = cpu_synthesizer();
    assert!(!s.is_loaded_voice_model("m1"));
    s.load_voice_model(model("m1", &[0])).unwrap();
    assert!(s.is_loaded_voice_model("m1"));
    s.unload_voice_model("m1").unwrap();
    assert!(!s.is_loaded_voice_model("m1"));
}

#[test]
fn duplicate_load_keeps_existing_model() {
    let mut s = cpu_synthesizer();
    s.load_voice_model(model("m1", &[0, 1])).unwrap();
    let before = s.metas();
    let r = s.load_voice_model(model("m1", &[7]));
    assert_eq!(r, Err(Error::DuplicateModelError("m1".to_string())));
    let after = s.metas();
    assert_eq!(after.len(), before.len());
    assert_eq!(after[0].styles().len(), 2);
    assert_eq!(after[0].styles()[1].id(), 1);
    assert_eq!(after[0].name(), "speaker of m1");
    assert!(s.check_style(7).is_err());
}

#[test]
fn unload_unknown_model_fails() {
    let mut s = cpu_synthesizer();
    s.load_voice_model(model("m1", &[0])).unwrap();
    let r = s.unload_voice_model("nope");
    assert_eq!(r, Err(Error::ModelNotFoundError("nope".to_string())));
    assert_eq!(s.metas().len(), 1);
    assert!(s.is_loaded_voice_model("m1"));
}

#[test]
fn synthesis_needs_a_loaded_style() {
    let mut s = cpu_synthesizer();
    s.load_voice_model(model("m1", &[0, 3])).unwrap();
    assert_eq!(s.synthesis(3, vec![1, 2, 3]), Ok(vec![1, 2, 3]));
    assert_eq!(s.synthesis(0, vec![9]), Ok(vec![9]));
    assert_eq!(s.synthesis(5, vec![1]), Err(Error::StyleNotFoundError(5)));
    assert_eq!(s.synthesis(0, vec![]), Err(Error::SynthesisError(SynthesisStage::Waveform)));
}

#[test]
fn distinct_loads_all_succeed() {
    let mut s = cpu_synthesizer();
    for (i, id) in ["a", "b", "c", "d"].iter().enumerate() {
        assert_eq!(s.load_voice_model(model(id, &[i as u32])), Ok(()));
    }
    let metas = s.metas();
    assert_eq!(metas.len(), 4);
    let names: Vec<&str> = metas.iter().map(|m| m.name()).collect();
    assert_eq!(names, vec!["speaker of a", "speaker of b", "speaker of c", "speaker of d"]);
    assert_eq!(metas[2].speaker_uuid(), "uuid-c");
    assert_eq!(metas[2].version(), "0.0.1");
}

#[test]
fn end_to_end_unload_invalidates_style() {
    let mut s = cpu_synthesizer();
    let m1 = VoiceModel {
        id: "m1".to_string(),
        metas: vec![SpeakerMeta {
            name: "speaker".to_string(),
            styles: vec![StyleMeta { id: 0, name: "A".to_string() }],
            version: "1".to_string(),
            speaker_uuid: "u".to_string(),
        }],
    };
    assert_eq!(m1.id(), "m1");
    assert_eq!(m1.metas()[0].styles()[0].name(), "A");
    s.load_voice_model(m1).unwrap();
    assert_eq!(s.check_style(0), Ok(()));
    let wave = vec![0x52u8, 0x49, 0x46, 0x46];
    let out = s.synthesis(0, wave.clone()).unwrap();
    assert!(!out.is_empty());
    s.unload_voice_model("m1").unwrap();
    assert_eq!(s.synthesis(0, wave), Err(Error::StyleNotFoundError(0)));
}

#[test]
fn load_refuses_a_taken_style() {
    let mut s = cpu_synthesizer();
    s.load_voice_model(model("m1", &[0, 1])).unwrap();
    assert_eq!(s.load_voice_model(model("m2", &[2, 1])), Err(Error::DuplicateStyleError(1)));
    assert!(!s.is_loaded_voice_model("m2"));
    assert_eq!(s.metas().len(), 1);
    assert_eq!(s.load_voice_model(model("m3", &[2])), Ok(()));
}

#[test]
fn unload_invalidates_every_style_of_the_model() {
    let mut s = cpu_synthesizer();
    s.load_voice_model(model("m1", &[0, 1])).unwrap();
    s.load_voice_model(model("m2", &[2])).unwrap();
    s.unload_voice_model("m1").unwrap();
    assert_eq!(s.check_style(0), Err(Error::StyleNotFoundError(0)));
    assert_eq!(s.check_style(1), Err(Error::StyleNotFoundError(1)));
    assert_eq!(s.check_style(2), Ok(()));
}
