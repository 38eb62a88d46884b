//! Structured representation of "how to say this text".
//!
//! An `AudioQuery` is produced by the engine from (text, style) and can be
//! edited by a caller and re-submitted for synthesis. All prosody scalars are
//! held in the engine's own fixed-point units as plain integers, so that the
//! analysis and caching logic over them can be verified; the adapter that
//! talks to the engine converts at the boundary. Queries support value
//! equality (`query_eq`) because they are one half of the waveform cache key.

use vstd::prelude::*;

verus! {

/// Per-mora (roughly consonant+vowel) timing and pitch information.
#[derive(Debug)]
pub struct Mora {
    /// Display text of the mora.
    pub text: String,
    /// Consonant phoneme, absent for vowel-only morae.
    pub consonant: Option<String>,
    /// Consonant duration, present exactly when `consonant` is.
    pub consonant_length: Option<u64>,
    /// Vowel phoneme.
    pub vowel: String,
    /// Vowel duration.
    pub vowel_length: u64,
    /// Pitch in engine units; unvoiced morae sit at or below the audibility
    /// threshold.
    pub pitch: u64,
}

#[verifier::ext_equal]
pub struct MoraModel {
    pub text: Seq<char>,
    pub consonant: Option<Seq<char>>,
    pub consonant_length: Option<u64>,
    pub vowel: Seq<char>,
    pub vowel_length: u64,
    pub pitch: u64,
}

impl View for Mora {
    type V = MoraModel;

    open spec fn view(&self) -> MoraModel {
        MoraModel {
            text: self.text@,
            consonant: opt_string_view(self.consonant),
            consonant_length: self.consonant_length,
            vowel: self.vowel@,
            vowel_length: self.vowel_length,
            pitch: self.pitch,
        }
    }
}

/// One accent phrase: an ordered run of morae with a single accent position.
#[derive(Debug)]
pub struct AccentPhrase {
    /// Morae of the phrase, in utterance order.
    pub moras: Vec<Mora>,
    /// Accent position within the phrase.
    pub accent: usize,
    /// Trailing silence mora, if any.
    pub pause_mora: Option<Mora>,
    /// Whether the phrase is interrogative.
    pub is_interrogative: bool,
}

#[verifier::ext_equal]
pub struct AccentPhraseModel {
    pub moras: Seq<MoraModel>,
    pub accent: usize,
    pub pause_mora: Option<MoraModel>,
    pub is_interrogative: bool,
}

impl View for AccentPhrase {
    type V = AccentPhraseModel;

    open spec fn view(&self) -> AccentPhraseModel {
        AccentPhraseModel {
            moras: self.moras@.map_values(|m: Mora| m@),
            accent: self.accent,
            pause_mora: match self.pause_mora {
                Some(m) => Some(m@),
                None => None,
            },
            is_interrogative: self.is_interrogative,
        }
    }
}

/// Synthesis query: ordered accent phrases plus global prosody scalars.
#[derive(Debug)]
pub struct AudioQuery {
    /// Accent phrases in utterance order.
    pub accent_phrases: Vec<AccentPhrase>,
    /// Overall speaking speed.
    pub speed_scale: u64,
    /// Overall pitch shift.
    pub pitch_scale: u64,
    /// Overall intonation strength.
    pub intonation_scale: u64,
    /// Overall volume.
    pub volume_scale: u64,
    /// Silence prepended to the utterance.
    pub pre_phoneme_length: u64,
    /// Silence appended to the utterance.
    pub post_phoneme_length: u64,
    /// Output sampling rate of the waveform.
    pub output_sampling_rate: u32,
    /// Whether the waveform is stereo.
    pub output_stereo: bool,
    /// Read-only kana rendering; meaningful only on queries the engine
    /// produced, ignored on input.
    pub kana: Option<String>,
}

#[verifier::ext_equal]
pub struct AudioQueryModel {
    pub accent_phrases: Seq<AccentPhraseModel>,
    pub speed_scale: u64,
    pub pitch_scale: u64,
    pub intonation_scale: u64,
    pub volume_scale: u64,
    pub pre_phoneme_length: u64,
    pub post_phoneme_length: u64,
    pub output_sampling_rate: u32,
    pub output_stereo: bool,
    pub kana: Option<Seq<char>>,
}

impl View for AudioQuery {
    type V = AudioQueryModel;

    open spec fn view(&self) -> AudioQueryModel {
        AudioQueryModel {
            accent_phrases: self.accent_phrases@.map_values(|p: AccentPhrase| p@),
            speed_scale: self.speed_scale,
            pitch_scale: self.pitch_scale,
            intonation_scale: self.intonation_scale,
            volume_scale: self.volume_scale,
            pre_phoneme_length: self.pre_phoneme_length,
            post_phoneme_length: self.post_phoneme_length,
            output_sampling_rate: self.output_sampling_rate,
            output_stereo: self.output_stereo,
            kana: opt_string_view(self.kana),
        }
    }
}

impl AudioQuery {
    /// The same query with its kana rendering replaced.
    pub fn with_kana(self, kana: Option<String>) -> (r: AudioQuery)
        ensures
            r@ == (AudioQueryModel { kana: opt_string_view(kana), ..self@ }),
    {
        AudioQuery { kana, ..self }
    }
}

/// The model of an optional string: its character sequence, if present.
pub open spec fn opt_string_view(a: Option<String>) -> Option<Seq<char>> {
    match a {
        Some(s) => Some(s@),
        None => None,
    }
}

fn opt_string_eq(a: &Option<String>, b: &Option<String>) -> (r: bool)
    ensures
        r == (opt_string_view(*a) == opt_string_view(*b)),
{
    match (a, b) {
        (Some(x), Some(y)) => *x == *y,
        (None, None) => true,
        _ => false,
    }
}

fn opt_string_dup(a: &Option<String>) -> (r: Option<String>)
    ensures
        opt_string_view(r) == opt_string_view(*a),
{
    match a {
        Some(x) => Some(x.clone()),
        None => None,
    }
}

/// Value equality of two morae.
pub fn mora_eq(a: &Mora, b: &Mora) -> (r: bool)
    ensures
        r == (a@ == b@),
{
    let fields_eq = a.text == b.text && opt_string_eq(&a.consonant, &b.consonant)
        && a.consonant_length == b.consonant_length && a.vowel == b.vowel
        && a.vowel_length == b.vowel_length && a.pitch == b.pitch;
    if fields_eq {
        assert(a@ =~= b@);
        true
    } else {
        assert(a@ != b@);
        false
    }
}

fn opt_mora_eq(a: &Option<Mora>, b: &Option<Mora>) -> (r: bool)
    ensures
        r == (match (a, b) {
            (Some(x), Some(y)) => Some(x@) == Some::<MoraModel>(y@),
            (None, None) => true,
            _ => false,
        }),
{
    match (a, b) {
        (Some(x), Some(y)) => mora_eq(x, y),
        (None, None) => true,
        _ => false,
    }
}

/// Value equality of two accent phrases.
pub fn accent_phrase_eq(a: &AccentPhrase, b: &AccentPhrase) -> (r: bool)
    ensures
        r == (a@ == b@),
{
    if a.moras.len() != b.moras.len() {
        assert(a@.moras.len() != b@.moras.len());
        return false;
    }
    let n = a.moras.len();
    let mut i: usize = 0;
    while i < n
        invariant
            n == a.moras.len() == b.moras.len(),
            0 <= i <= n,
            forall|k: int| 0 <= k < i ==> a@.moras[k] == b@.moras[k],
        decreases n - i,
    {
        if !mora_eq(&a.moras[i], &b.moras[i]) {
            assert(a@.moras[i as int] != b@.moras[i as int]);
            return false;
        }
        i += 1;
    }
    assert(a@.moras =~= b@.moras);
    let rest = a.accent == b.accent && opt_mora_eq(&a.pause_mora, &b.pause_mora)
        && a.is_interrogative == b.is_interrogative;
    if rest {
        assert(a@ =~= b@);
        true
    } else {
        assert(a@ != b@);
        false
    }
}

/// Value equality of two audio queries, the relation the waveform cache keys
/// by.
pub fn query_eq(a: &AudioQuery, b: &AudioQuery) -> (r: bool)
    ensures
        r == (a@ == b@),
{
    if a.accent_phrases.len() != b.accent_phrases.len() {
        assert(a@.accent_phrases.len() != b@.accent_phrases.len());
        return false;
    }
    let n = a.accent_phrases.len();
    let mut i: usize = 0;
    while i < n
        invariant
            n == a.accent_phrases.len() == b.accent_phrases.len(),
            0 <= i <= n,
            forall|k: int| 0 <= k < i ==> a@.accent_phrases[k] == b@.accent_phrases[k],
        decreases n - i,
    {
        if !accent_phrase_eq(&a.accent_phrases[i], &b.accent_phrases[i]) {
            assert(a@.accent_phrases[i as int] != b@.accent_phrases[i as int]);
            return false;
        }
        i += 1;
    }
    assert(a@.accent_phrases =~= b@.accent_phrases);
    let rest = a.speed_scale == b.speed_scale && a.pitch_scale == b.pitch_scale
        && a.intonation_scale == b.intonation_scale && a.volume_scale == b.volume_scale
        && a.pre_phoneme_length == b.pre_phoneme_length
        && a.post_phoneme_length == b.post_phoneme_length
        && a.output_sampling_rate == b.output_sampling_rate
        && a.output_stereo == b.output_stereo && opt_string_eq(&a.kana, &b.kana);
    if rest {
        assert(a@ =~= b@);
        true
    } else {
        assert(a@ != b@);
        false
    }
}

/// A deep copy of a mora, equal to the original under the model.
pub fn mora_dup(m: &Mora) -> (r: Mora)
    ensures
        r@ == m@,
{
    let r = Mora {
        text: m.text.clone(),
        consonant: opt_string_dup(&m.consonant),
        consonant_length: m.consonant_length,
        vowel: m.vowel.clone(),
        vowel_length: m.vowel_length,
        pitch: m.pitch,
    };
    assert(r@ =~= m@);
    r
}

/// A deep copy of an accent phrase, equal to the original under the model.
pub fn accent_phrase_dup(p: &AccentPhrase) -> (r: AccentPhrase)
    ensures
        r@ == p@,
{
    let mut moras: Vec<Mora> = Vec::new();
    let n = p.moras.len();
    let mut i: usize = 0;
    while i < n
        invariant
            n == p.moras.len(),
            0 <= i <= n,
            moras.len() == i,
            forall|k: int| 0 <= k < i ==> moras@.map_values(|m: Mora| m@)[k] == p@.moras[k],
        decreases n - i,
    {
        moras.push(mora_dup(&p.moras[i]));
        i += 1;
    }
    let r = AccentPhrase {
        moras,
        accent: p.accent,
        pause_mora: match &p.pause_mora {
            Some(m) => Some(mora_dup(m)),
            None => None,
        },
        is_interrogative: p.is_interrogative,
    };
    assert(r@.moras =~= p@.moras);
    assert(r@ =~= p@);
    r
}

/// A deep copy of an audio query, equal to the original under the model.
pub fn query_dup(q: &AudioQuery) -> (r: AudioQuery)
    ensures
        r@ == q@,
{
    let mut accent_phrases: Vec<AccentPhrase> = Vec::new();
    let n = q.accent_phrases.len();
    let mut i: usize = 0;
    while i < n
        invariant
            n == q.accent_phrases.len(),
            0 <= i <= n,
            accent_phrases.len() == i,
            forall|k: int|
                0 <= k < i ==> accent_phrases@.map_values(|p: AccentPhrase| p@)[k]
                    == q@.accent_phrases[k],
        decreases n - i,
    {
        accent_phrases.push(accent_phrase_dup(&q.accent_phrases[i]));
        i += 1;
    }
    let r = AudioQuery {
        accent_phrases,
        speed_scale: q.speed_scale,
        pitch_scale: q.pitch_scale,
        intonation_scale: q.intonation_scale,
        volume_scale: q.volume_scale,
        pre_phoneme_length: q.pre_phoneme_length,
        post_phoneme_length: q.post_phoneme_length,
        output_sampling_rate: q.output_sampling_rate,
        output_stereo: q.output_stereo,
        kana: opt_string_dup(&q.kana),
    };
    assert(r@.accent_phrases =~= q@.accent_phrases);
    assert(r@ =~= q@);
    r
}

} // verus!
