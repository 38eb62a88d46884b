use azalea::audio_query::{AccentPhrase, AudioQuery, Mora};
use azalea::config::CoreConfig;
use azalea::error::AppError;
use azalea::pitch::{
    collect_voiced_pitches, optimal_pitch_range, sort_pitches, window_size, DensityRatio,
    RangeItem,
};

fn mora(pitch: u64) -> Mora {
    Mora {
        text: String::from("a"),
        consonant: Some(String::from("k")),
        consonant_length: Some(30),
        vowel: String::from("a"),
        vowel_length: 10,
        pitch,
    }
}

fn query(pitches: &[u64]) -> AudioQuery {
    AudioQuery {
        accent_phrases: vec![AccentPhrase {
            moras: pitches.iter().map(|&p| mora(p)).collect(),
            accent: 1,
            pause_mora: None,
            is_interrogative: false,
        }],
        speed_scale: 1000,
        pitch_scale: 0,
        intonation_scale: 1000,
        volume_scale: 1000,
        pre_phoneme_length: 100,
        post_phoneme_length: 100,
        output_sampling_rate: 24000,
        output_stereo: false,
        kana: None,
    }
}

fn ratio(num: u64, den: u64) -> DensityRatio {
    DensityRatio::new(num, den).expect("valid ratio")
}

#[test]
fn window_tie_breaks_to_first_position() {
    // sorted samples [10, 12, 13, 15, 40] with w = 3: windows [10,12,13] and
    // [12,13,15] both have width 3; the first one wins
    let results = vec![Some(query(&[13, 10, 40, 12, 15]))];
    let r = optimal_pitch_range(&results, 1, &ratio(3, 5));
    assert_eq!(r, RangeItem::Normal(10, 13));
}

#[test]
fn strictly_smaller_window_wins_over_earlier() {
    // sorted [10, 20, 21, 22, 40] with w = 3: [20,21,22] has width 2, less
    // than the earlier [10,20,21]
    let results = vec![Some(query(&[40, 22, 10, 21, 20]))];
    let r = optimal_pitch_range(&results, 1, &ratio(3, 5));
    assert_eq!(r, RangeItem::Normal(20, 22));
}

#[test]
fn whisper_when_nothing_voiced() {
    // every sample at or below the audibility threshold is excluded, and an
    // empty sample set yields the sentinel, never a zero interval
    let results = vec![Some(query(&[1, 0])), Some(query(&[1, 1, 1]))];
    let r = optimal_pitch_range(&results, 1, &ratio(98, 100));
    assert_eq!(r, RangeItem::Whisper);
}

#[test]
fn empty_corpus_is_whisper() {
    let r = optimal_pitch_range(&vec![], 1, &ratio(98, 100));
    assert_eq!(r, RangeItem::Whisper);
}

#[test]
fn single_sample_yields_point_interval() {
    let r = optimal_pitch_range(&vec![Some(query(&[17]))], 1, &ratio(1, 2));
    assert_eq!(r, RangeItem::Normal(17, 17));
}

#[test]
fn threshold_is_strict() {
    let pitches = collect_voiced_pitches(&vec![Some(query(&[5, 6, 7]))], 5);
    assert_eq!(pitches, vec![6, 7]);
}

#[test]
fn failed_lines_are_skipped() {
    let results = vec![None, Some(query(&[8, 3])), None, Some(query(&[9]))];
    let pitches = collect_voiced_pitches(&results, 1);
    assert_eq!(pitches, vec![8, 3, 9]);
}

#[test]
fn end_to_end_five_line_corpus() {
    // five corpus lines, threshold 1, density ratio 0.98: w = ceil(5 * 0.98)
    // = 5, so the whole sorted range is returned
    let results = vec![
        Some(query(&[10, 1])),
        Some(query(&[12])),
        Some(query(&[40, 0])),
        Some(query(&[15])),
        Some(query(&[13, 1])),
    ];
    let r = optimal_pitch_range(&results, 1, &ratio(98, 100));
    assert_eq!(r, RangeItem::Normal(10, 40));
}

#[test]
fn window_size_rounds_up_and_clamps() {
    assert_eq!(window_size(5, &ratio(98, 100)), 5);
    assert_eq!(window_size(5, &ratio(3, 5)), 3);
    assert_eq!(window_size(10, &ratio(1, 2)), 5);
    assert_eq!(window_size(4, &ratio(97, 100)), 4);
    assert_eq!(window_size(3, &ratio(1, 3)), 1);
    // a tiny ratio still demands at least one sample
    assert_eq!(window_size(5, &ratio(1, 1000)), 1);
    // a ratio of one takes everything
    assert_eq!(window_size(7, &ratio(1, 1)), 7);
}

#[test]
fn sort_is_ascending_permutation() {
    let sorted = sort_pitches(&vec![13, 10, 40, 12, 15, 12]);
    assert_eq!(sorted, vec![10, 12, 12, 13, 15, 40]);
}

#[test]
fn density_ratio_rejects_bad_config() {
    assert_eq!(DensityRatio::new(0, 5).unwrap_err(), AppError::CacheMisuse);
    assert_eq!(DensityRatio::new(6, 5).unwrap_err(), AppError::CacheMisuse);
    assert_eq!(DensityRatio::new(5, 0).unwrap_err(), AppError::CacheMisuse);
    assert!(DensityRatio::new(1, 1).is_ok());
}

#[test]
fn config_validation_checks_ratio() {
    let good = CoreConfig {
        model_dir: String::from("models"),
        corpus_path: String::from("corpus.txt"),
        query_cache_capacity: 128,
        wav_cache_capacity: 128,
        density_num: 98,
        density_den: 100,
        audibility_threshold: 1,
    };
    let d = good.validate().expect("valid config");
    assert_eq!(d.num(), 98);
    assert_eq!(d.den(), 100);
    let bad = CoreConfig { density_num: 101, ..good };
    assert_eq!(bad.validate().unwrap_err(), AppError::CacheMisuse);
}

#[test]
fn multiple_phrases_and_queries_accumulate() {
    let mut q = query(&[5, 2]);
    q.accent_phrases.push(AccentPhrase {
        moras: vec![mora(30), mora(1)],
        accent: 1,
        pause_mora: Some(mora(99)),
        is_interrogative: true,
    });
    // pause morae carry no voiced pitch sample; only `moras` count
    let pitches = collect_voiced_pitches(&vec![Some(q), Some(query(&[7]))], 1);
    assert_eq!(pitches, vec![5, 2, 30, 7]);
}
