use std::cell::Cell;

use azalea::audio_query::{AccentPhrase, AudioQuery, Mora};
use azalea::cache::{Lookup, QueryKey, RequestCache, WavKey};
use azalea::error::AppError;
use azalea::metas::StyleId;

fn mora(pitch: u64) -> Mora {
    Mora {
        text: String::from("a"),
        consonant: None,
        consonant_length: None,
        vowel: String::from("a"),
        vowel_length: 10,
        pitch,
    }
}

fn query(pitches: &[u64]) -> AudioQuery {
    AudioQuery {
        accent_phrases: vec![AccentPhrase {
            moras: pitches.iter().map(|&p| mora(p)).collect(),
            accent: 1,
            pause_mora: None,
            is_interrogative: false,
        }],
        speed_scale: 1000,
        pitch_scale: 0,
        intonation_scale: 1000,
        volume_scale: 1000,
        pre_phoneme_length: 100,
        post_phoneme_length: 100,
        output_sampling_rate: 24000,
        output_stereo: false,
        kana: None,
    }
}

fn qkey(text: &str, style: u32) -> QueryKey {
    QueryKey { text: String::from(text), style: StyleId::new(style) }
}

#[test]
fn cache_hit_skips_compute() {
    let mut cache: RequestCache<QueryKey, AudioQuery> = RequestCache::new(4);
    let first = cache.get_or_compute(qkey("hello", 1), || Ok(query(&[5, 7])));
    assert!(first.is_ok());
    // a later identical request must be served from the cache even though
    // this compute would fail
    let second = cache.get_or_compute(qkey("hello", 1), || Err(AppError::QueryFailed));
    let got = second.expect("cached value expected");
    assert_eq!(got.accent_phrases[0].moras[0].pitch, 5);
    assert_eq!(got.accent_phrases[0].moras[1].pitch, 7);
}

#[test]
fn cache_distinguishes_styles() {
    let mut cache: RequestCache<QueryKey, AudioQuery> = RequestCache::new(4);
    let _ = cache.get_or_compute(qkey("hello", 1), || Ok(query(&[5])));
    let other = cache.get_or_compute(qkey("hello", 2), || Ok(query(&[9])));
    assert_eq!(other.unwrap().accent_phrases[0].moras[0].pitch, 9);
}

#[test]
fn failure_is_not_cached() {
    let mut cache: RequestCache<QueryKey, AudioQuery> = RequestCache::new(4);
    let calls = Cell::new(0u32);
    let first = cache.get_or_compute(qkey("x", 1), || {
        calls.set(calls.get() + 1);
        Err(AppError::QueryFailed)
    });
    assert_eq!(first.unwrap_err(), AppError::QueryFailed);
    assert_eq!(cache.len(), 0);
    // the failed key must be recomputed, not served from a stale entry
    let second = cache.get_or_compute(qkey("x", 1), || {
        calls.set(calls.get() + 1);
        Ok(query(&[3]))
    });
    assert_eq!(second.unwrap().accent_phrases[0].moras[0].pitch, 3);
    assert_eq!(calls.get(), 2);
}

#[test]
fn resolved_entry_not_recomputed() {
    let mut cache: RequestCache<QueryKey, AudioQuery> = RequestCache::new(4);
    let calls = Cell::new(0u32);
    for _ in 0..3 {
        let r = cache.get_or_compute(qkey("same", 7), || {
            calls.set(calls.get() + 1);
            Ok(query(&[42]))
        });
        assert_eq!(r.unwrap().accent_phrases[0].moras[0].pitch, 42);
    }
    assert_eq!(calls.get(), 1);
}

#[test]
fn lru_eviction_order() {
    let mut cache: RequestCache<QueryKey, AudioQuery> = RequestCache::new(2);
    let _ = cache.get_or_compute(qkey("a", 1), || Ok(query(&[1])));
    let _ = cache.get_or_compute(qkey("b", 1), || Ok(query(&[2])));
    // touch "a" so "b" becomes the least recently used
    let _ = cache.get_or_compute(qkey("a", 1), || Err(AppError::QueryFailed));
    // inserting a third key evicts exactly "b"
    let _ = cache.get_or_compute(qkey("c", 1), || Ok(query(&[3])));
    assert_eq!(cache.len(), 2);
    assert!(matches!(cache.lookup(&qkey("b", 1)), Lookup::Miss));
    match cache.lookup(&qkey("a", 1)) {
        Lookup::Hit(v) => assert_eq!(v.accent_phrases[0].moras[0].pitch, 1),
        _ => panic!("expected a to stay cached"),
    }
    match cache.lookup(&qkey("c", 1)) {
        Lookup::Hit(v) => assert_eq!(v.accent_phrases[0].moras[0].pitch, 3),
        _ => panic!("expected c to stay cached"),
    }
}

#[test]
fn eviction_without_touch_takes_oldest() {
    let mut cache: RequestCache<QueryKey, AudioQuery> = RequestCache::new(2);
    let _ = cache.get_or_compute(qkey("a", 1), || Ok(query(&[1])));
    let _ = cache.get_or_compute(qkey("b", 1), || Ok(query(&[2])));
    let _ = cache.get_or_compute(qkey("c", 1), || Ok(query(&[3])));
    assert!(matches!(cache.lookup(&qkey("a", 1)), Lookup::Miss));
    assert!(matches!(cache.lookup(&qkey("b", 1)), Lookup::Hit(_)));
    assert!(matches!(cache.lookup(&qkey("c", 1)), Lookup::Hit(_)));
}

#[test]
fn capacity_one_replaces_sole_entry() {
    let mut cache: RequestCache<QueryKey, AudioQuery> = RequestCache::new(1);
    let _ = cache.get_or_compute(qkey("a", 1), || Ok(query(&[1])));
    let _ = cache.get_or_compute(qkey("b", 1), || Ok(query(&[2])));
    assert_eq!(cache.len(), 1);
    assert!(matches!(cache.lookup(&qkey("a", 1)), Lookup::Miss));
    assert!(matches!(cache.lookup(&qkey("b", 1)), Lookup::Hit(_)));
}

#[test]
fn capacity_zero_disables_caching() {
    let mut cache: RequestCache<QueryKey, AudioQuery> = RequestCache::new(0);
    let calls = Cell::new(0u32);
    for _ in 0..2 {
        let r = cache.get_or_compute(qkey("t", 1), || {
            calls.set(calls.get() + 1);
            Ok(query(&[8]))
        });
        assert_eq!(r.unwrap().accent_phrases[0].moras[0].pitch, 8);
    }
    assert_eq!(calls.get(), 2);
    assert_eq!(cache.len(), 0);
}

#[test]
fn pending_placeholder_dedups_concurrent_callers() {
    let mut cache: RequestCache<QueryKey, AudioQuery> = RequestCache::new(4);
    // first caller misses and installs the placeholder
    assert!(matches!(cache.lookup(&qkey("k", 1)), Lookup::Miss));
    cache.begin(qkey("k", 1));
    assert!(cache.is_pending(&qkey("k", 1)));
    // a second caller sees the in-flight computation and waits instead of
    // starting its own
    assert!(matches!(cache.lookup(&qkey("k", 1)), Lookup::InFlight));
    // the computation resolves; every waiter now reads the same value
    cache.complete_ok(&qkey("k", 1), query(&[11]));
    assert!(!cache.is_pending(&qkey("k", 1)));
    match cache.lookup(&qkey("k", 1)) {
        Lookup::Hit(v) => assert_eq!(v.accent_phrases[0].moras[0].pitch, 11),
        _ => panic!("expected the resolved value"),
    }
}

#[test]
fn failed_computation_clears_placeholder() {
    let mut cache: RequestCache<QueryKey, AudioQuery> = RequestCache::new(4);
    cache.begin(qkey("k", 1));
    cache.complete_err(&qkey("k", 1));
    assert!(!cache.is_pending(&qkey("k", 1)));
    assert!(matches!(cache.lookup(&qkey("k", 1)), Lookup::Miss));
    assert_eq!(cache.len(), 0);
}

#[test]
fn clear_discards_entries_and_inflight_results() {
    let mut cache: RequestCache<QueryKey, AudioQuery> = RequestCache::new(4);
    let _ = cache.get_or_compute(qkey("a", 1), || Ok(query(&[1])));
    cache.begin(qkey("b", 1));
    cache.clear();
    assert_eq!(cache.len(), 0);
    assert!(!cache.is_pending(&qkey("b", 1)));
    // the in-flight computation completes after the clear: its result is
    // discarded, not cached
    cache.complete_ok(&qkey("b", 1), query(&[2]));
    assert!(matches!(cache.lookup(&qkey("b", 1)), Lookup::Miss));
    assert_eq!(cache.len(), 0);
}

#[test]
fn waveform_cache_keyed_by_query_value() {
    let mut cache: RequestCache<WavKey, Vec<u8>> = RequestCache::new(2);
    let k1 = WavKey { query: query(&[5, 7]), style: StyleId::new(1) };
    let wav = cache.get_or_compute(k1, || Ok(vec![1u8, 2, 3]));
    assert_eq!(wav.unwrap(), vec![1u8, 2, 3]);
    // an equal query value hits, a different pitch misses
    let same = WavKey { query: query(&[5, 7]), style: StyleId::new(1) };
    match cache.lookup(&same) {
        Lookup::Hit(v) => assert_eq!(v, vec![1u8, 2, 3]),
        _ => panic!("structurally equal query must hit"),
    }
    let different = WavKey { query: query(&[5, 8]), style: StyleId::new(1) };
    assert!(matches!(cache.lookup(&different), Lookup::Miss));
    let other_style = WavKey { query: query(&[5, 7]), style: StyleId::new(2) };
    assert!(matches!(cache.lookup(&other_style), Lookup::Miss));
}

#[test]
fn synthesis_error_propagates() {
    let mut cache: RequestCache<WavKey, Vec<u8>> = RequestCache::new(2);
    let k = WavKey { query: query(&[5]), style: StyleId::new(1) };
    let r = cache.get_or_compute(k, || Err(AppError::SynthesisFailed));
    assert_eq!(r.unwrap_err(), AppError::SynthesisFailed);
    assert_eq!(cache.len(), 0);
}
