use std::cell::Cell;

use azalea::error::AppError;
use azalea::lifecycle::{LifecycleManager, LoadAction};
use azalea::metas::{SpeakerMeta, StyleId, StyleMeta, StyleType, StyleVersion, VoiceModelMeta};

fn style(id: u32, kind: StyleType) -> StyleMeta {
    StyleMeta {
        id: StyleId::new(id),
        name: format!("style {}", id),
        style_type: kind,
        order: None,
    }
}

fn speaker(uuid: &str, styles: Vec<StyleMeta>) -> SpeakerMeta {
    SpeakerMeta {
        name: String::from("speaker"),
        styles,
        version: StyleVersion::new(String::from("1.0.0")),
        speaker_uuid: String::from(uuid),
        order: None,
    }
}

fn catalog() -> Vec<VoiceModelMeta> {
    let model0 = vec![speaker("u0", vec![
        style(1, StyleType::Talk),
        style(2, StyleType::Sing),
    ])];
    let model1 = vec![speaker("u1", vec![
        style(1, StyleType::Talk), // duplicate of model 0's style: first wins
        style(3, StyleType::Talk),
    ])];
    vec![model0, model1]
}

#[test]
fn resolve_finds_first_registration() {
    let mgr = LifecycleManager::build(&catalog());
    // style 1 is exposed by both models; the earlier registration wins
    assert_eq!(mgr.resolve(StyleId::new(1)).unwrap(), 0);
    assert_eq!(mgr.resolve(StyleId::new(3)).unwrap(), 1);
}

#[test]
fn non_talk_styles_are_not_registered() {
    let mgr = LifecycleManager::build(&catalog());
    assert_eq!(mgr.resolve(StyleId::new(2)).unwrap_err(), AppError::StyleNotFound);
}

#[test]
fn unknown_style_not_found() {
    let mgr = LifecycleManager::build(&catalog());
    assert_eq!(mgr.resolve(StyleId::new(99)).unwrap_err(), AppError::StyleNotFound);
    assert!(!mgr.is_loaded(StyleId::new(99)));
}

#[test]
fn ensure_loaded_is_idempotent() {
    let mut mgr = LifecycleManager::build(&catalog());
    let loads = Cell::new(0u32);
    // two consecutive calls result in exactly one engine load
    for _ in 0..2 {
        let r = mgr.ensure_loaded(StyleId::new(1), |_m| {
            loads.set(loads.get() + 1);
            true
        });
        assert!(r.is_ok());
    }
    assert_eq!(loads.get(), 1);
    assert!(mgr.is_loaded(StyleId::new(1)));
}

#[test]
fn ensure_loaded_action_decides() {
    let mut mgr = LifecycleManager::build(&catalog());
    assert_eq!(mgr.ensure_loaded_action(StyleId::new(3)).unwrap(), LoadAction::Load(1));
    mgr.on_load_result(1, true).unwrap();
    assert_eq!(mgr.ensure_loaded_action(StyleId::new(3)).unwrap(), LoadAction::AlreadyLoaded);
    assert_eq!(
        mgr.ensure_loaded_action(StyleId::new(42)).unwrap_err(),
        AppError::StyleNotFound
    );
}

#[test]
fn failed_load_is_reported_and_retryable() {
    let mut mgr = LifecycleManager::build(&catalog());
    let r = mgr.ensure_loaded(StyleId::new(1), |_m| false);
    assert_eq!(r.unwrap_err(), AppError::ModelLoadFailed);
    assert!(AppError::ModelLoadFailed.is_retryable());
    assert!(!mgr.is_loaded(StyleId::new(1)));
    // nothing was marked resident, so a retry reaches the engine again
    let r = mgr.ensure_loaded(StyleId::new(1), |_m| true);
    assert!(r.is_ok());
    assert!(mgr.is_loaded(StyleId::new(1)));
}

#[test]
fn ensure_loaded_unknown_style_fails() {
    let mut mgr = LifecycleManager::build(&catalog());
    let r = mgr.ensure_loaded(StyleId::new(123), |_m| true);
    assert_eq!(r.unwrap_err(), AppError::StyleNotFound);
}

#[test]
fn unload_releases_only_resident_models() {
    let mut mgr = LifecycleManager::build(&catalog());
    assert_eq!(mgr.unload(StyleId::new(1)), None);
    mgr.ensure_loaded(StyleId::new(1), |_m| true).unwrap();
    assert_eq!(mgr.unload(StyleId::new(1)), Some(0));
    assert!(!mgr.is_loaded(StyleId::new(1)));
    assert_eq!(mgr.unload(StyleId::new(1)), None);
    assert_eq!(mgr.unload(StyleId::new(99)), None);
}

#[test]
fn retryability_classification() {
    assert!(!AppError::StyleNotFound.is_retryable());
    assert!(AppError::ModelLoadFailed.is_retryable());
    assert!(AppError::QueryFailed.is_retryable());
    assert!(AppError::SynthesisFailed.is_retryable());
    assert!(!AppError::CacheMisuse.is_retryable());
}

#[test]
fn residency_is_per_model() {
    let mut mgr = LifecycleManager::build(&catalog());
    mgr.ensure_loaded(StyleId::new(1), |_m| true).unwrap();
    // style 3 lives in the other model, which is still cold
    assert!(mgr.is_loaded(StyleId::new(1)));
    assert!(!mgr.is_loaded(StyleId::new(3)));
}
