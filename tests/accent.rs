use voicevox_node::accent::{AccentPhrase, Mora, Recompute};
use voicevox_node::error::{Error, SynthesisStage};
use voicevox_node::synthesizer::{AccelerationMode, InitializeOptions, Synthesizer};
use voicevox_node::voice_model::{SpeakerMeta, StyleMeta, VoiceModel};

fn mora(text: &str, len: f32, pitch: f32) -> Mora {
    Mora {
        text: text.to_string(),
        consonant: Some("k".to_string()),
        consonant_length: Some((len / 2.0).to_bits()),
        vowel: "o".to_string(),
        vowel_length: len.to_bits(),
        pitch: pitch.to_bits(),
    }
}

fn phrases(len: f32, pitch: f32) -> Vec<AccentPhrase> {
    vec![
        AccentPhrase {
            moras: vec![mora("コ", len, pitch), mora("ン", len, pitch)],
            accent: 1,
            pause_mora: Some(mora("、", len, 0.0)),
            is_interrogative: false,
        },
        AccentPhrase {
            moras: vec![mora("ニ", len, pitch)],
            accent: 1,
            pause_mora: None,
            is_interrogative: true,
        },
    ]
}

fn ready() -> Synthesizer {
    let mut s = Synthesizer::new(
        InitializeOptions { acceleration_mode: AccelerationMode::Cpu, cpu_num_threads: 1 },
        false,
    )
    .unwrap();
    s.load_voice_model(VoiceModel {
        id: "m".to_string(),
        metas: vec![SpeakerMeta {
            name: "n".to_string(),
            styles: vec![StyleMeta { id: 2, name: "A".to_string() }],
            version: "1".to_string(),
            speaker_uuid: "u".to_string(),
        }],
    })
    .unwrap();
    s
}

#[test]
fn replace_mora_pitch_changes_pitch_only() {
    let s = ready();
    let input = phrases(0.1, 5.0);
    let predicted = phrases(0.3, 5.5);
    let out = s.replace_mora_pitch(&input, 2, &predicted).unwrap();
    assert_eq!(out.len(), 2);
    assert_eq!(out[0].moras.len(), 2);
    assert_eq!(out[1].moras.len(), 1);
    assert_eq!(out[0].moras[1].text, "ン");
    assert_eq!(out[0].moras[0].pitch, 5.5f32.to_bits());
    assert_eq!(out[0].moras[0].vowel_length, 0.1f32.to_bits());
    assert_eq!(out[1].moras[0].consonant_length, Some(0.05f32.to_bits()));
    assert!(out[1].is_interrogative);
    assert_eq!(input[0].moras[0].pitch, 5.0f32.to_bits());
}

#[test]
fn replace_phoneme_length_changes_lengths_only() {
    let s = ready();
    let out = s.replace_phoneme_length(&phrases(0.1, 5.0), 2, &phrases(0.3, 5.5)).unwrap();
    assert_eq!(out[0].moras[0].pitch, 5.0f32.to_bits());
    assert_eq!(out[0].moras[0].vowel_length, 0.3f32.to_bits());
    assert_eq!(out[0].pause_mora.as_ref().unwrap().vowel_length, 0.3f32.to_bits());
}

#[test]
fn replace_mora_data_changes_both() {
    let s = ready();
    let out = s.replace_mora_data(&phrases(0.1, 5.0), 2, &phrases(0.3, 5.5)).unwrap();
    assert_eq!(out[1].moras[0].pitch, 5.5f32.to_bits());
    assert_eq!(out[1].moras[0].vowel_length, 0.3f32.to_bits());
    assert_eq!(out[1].moras[0].text, "ニ");
}

#[test]
fn replace_rejects_unknown_style_and_wrong_shape() {
    let s = ready();
    let input = phrases(0.1, 5.0);
    assert_eq!(
        s.replace_mora_pitch(&input, 9, &input).map(|v| v.len()),
        Err(Error::StyleNotFoundError(9))
    );
    let mut short = phrases(0.1, 5.0);
    short[0].moras.pop();
    assert_eq!(
        s.replace_mora_pitch(&input, 2, &short).map(|v| v.len()),
        Err(Error::SynthesisError(SynthesisStage::Prediction(Recompute::MoraPitch)))
    );
    let mut no_pause = phrases(0.1, 5.0);
    no_pause[0].pause_mora = None;
    assert_eq!(
        s.replace_mora_data(&input, 2, &no_pause).map(|v| v.len()),
        Err(Error::SynthesisError(SynthesisStage::Prediction(Recompute::MoraData)))
    );
}
