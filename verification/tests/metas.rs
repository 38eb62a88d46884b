use azalea::audio_query::{query_eq, AccentPhrase, AudioQuery, Mora};
use azalea::metas::{filter_talk, merge, SpeakerMeta, StyleId, StyleMeta, StyleType, StyleVersion};

fn style(id: u32, order: Option<u32>) -> StyleMeta {
    StyleMeta {
        id: StyleId::new(id),
        name: format!("style {}", id),
        style_type: StyleType::Talk,
        order,
    }
}

fn speaker(uuid: &str, name: &str, order: Option<u32>, styles: Vec<StyleMeta>) -> SpeakerMeta {
    SpeakerMeta {
        name: String::from(name),
        styles,
        version: StyleVersion::new(String::from("1.0.0")),
        speaker_uuid: String::from(uuid),
        order,
    }
}

fn ids(sp: &SpeakerMeta) -> Vec<u32> {
    sp.styles.iter().map(|st| st.id.raw_id()).collect()
}

#[test]
fn merge_groups_by_uuid_and_sorts() {
    let metas = vec![
        speaker("u-b", "B", Some(2), vec![style(20, Some(1))]),
        speaker("u-a", "A", Some(1), vec![style(11, Some(2)), style(10, Some(1))]),
        // a second appearance of u-b only contributes its styles; the first
        // appearance keeps its name and order
        speaker("u-b", "B-later", Some(9), vec![style(21, Some(0))]),
    ];
    let merged = merge(&metas);
    assert_eq!(merged.len(), 2);
    // speakers ordered by their `order` field
    assert_eq!(merged[0].speaker_uuid, "u-a");
    assert_eq!(merged[0].name, "A");
    assert_eq!(ids(&merged[0]), vec![10, 11]);
    assert_eq!(merged[1].speaker_uuid, "u-b");
    assert_eq!(merged[1].name, "B");
    assert_eq!(merged[1].order, Some(2));
    // both appearances' styles, sorted by style order
    assert_eq!(ids(&merged[1]), vec![21, 20]);
}

#[test]
fn merge_puts_unordered_entries_last() {
    let metas = vec![
        speaker("u-n", "N", None, vec![style(1, None), style(2, Some(5))]),
        speaker("u-o", "O", Some(7), vec![style(3, Some(0))]),
    ];
    let merged = merge(&metas);
    assert_eq!(merged[0].speaker_uuid, "u-o");
    assert_eq!(merged[1].speaker_uuid, "u-n");
    // within u-n the unordered style sorts after the ordered one
    assert_eq!(ids(&merged[1]), vec![2, 1]);
}

#[test]
fn merge_is_stable_on_equal_keys() {
    let metas = vec![
        speaker("u-1", "first", Some(3), vec![style(1, Some(1)), style(2, Some(1))]),
        speaker("u-2", "second", Some(3), vec![]),
    ];
    let merged = merge(&metas);
    // equal order keys keep input order, for speakers and styles alike
    assert_eq!(merged[0].speaker_uuid, "u-1");
    assert_eq!(merged[1].speaker_uuid, "u-2");
    assert_eq!(ids(&merged[0]), vec![1, 2]);
}

#[test]
fn filter_talk_keeps_only_interactive_styles() {
    let mut sing = style(5, Some(0));
    sing.style_type = StyleType::Sing;
    let mut teacher = style(6, Some(1));
    teacher.style_type = StyleType::SingingTeacher;
    let metas = vec![
        speaker("u-1", "mixed", Some(0), vec![sing, style(1, Some(2)), teacher, style(2, None)]),
        speaker("u-2", "silent", Some(1), vec![]),
    ];
    let kept = filter_talk(&metas);
    assert_eq!(kept.len(), 2);
    assert_eq!(ids(&kept[0]), vec![1, 2]);
    assert_eq!(kept[0].name, "mixed");
    assert!(kept[1].styles.is_empty());
}

#[test]
fn style_id_roundtrip() {
    let id = StyleId::new(47);
    assert_eq!(id.raw_id(), 47);
    assert_eq!(id, StyleId::new(47));
    assert_ne!(id, StyleId::new(48));
}

#[test]
fn style_version_roundtrip() {
    let v = StyleVersion::new(String::from("0.15.3"));
    assert_eq!(v.raw_version().as_str(), "0.15.3");
}

#[test]
fn style_type_defaults_to_talk() {
    assert_eq!(StyleType::default(), StyleType::Talk);
}

fn tiny_query(kana: Option<String>) -> AudioQuery {
    AudioQuery {
        accent_phrases: vec![AccentPhrase {
            moras: vec![Mora {
                text: String::from("a"),
                consonant: None,
                consonant_length: None,
                vowel: String::from("a"),
                vowel_length: 10,
                pitch: 55,
            }],
            accent: 1,
            pause_mora: None,
            is_interrogative: false,
        }],
        speed_scale: 1000,
        pitch_scale: 0,
        intonation_scale: 1000,
        volume_scale: 1000,
        pre_phoneme_length: 100,
        post_phoneme_length: 100,
        output_sampling_rate: 24000,
        output_stereo: false,
        kana,
    }
}

#[test]
fn with_kana_replaces_only_kana() {
    let q = tiny_query(Some(String::from("ア"))).with_kana(None);
    assert_eq!(q.kana, None);
    assert_eq!(q.accent_phrases[0].moras[0].pitch, 55);
    let q2 = q.with_kana(Some(String::from("ア'")));
    assert_eq!(q2.kana.as_deref(), Some("ア'"));
}

#[test]
fn query_equality_is_structural() {
    let a = tiny_query(None);
    let b = tiny_query(None);
    assert!(query_eq(&a, &b));
    let c = tiny_query(Some(String::from("ア")));
    assert!(!query_eq(&a, &c));
    let mut d = tiny_query(None);
    d.accent_phrases[0].moras[0].pitch = 56;
    assert!(!query_eq(&a, &d));
}
