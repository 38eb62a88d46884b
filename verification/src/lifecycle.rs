//! Voice-model lifecycle: which model serves a style, and when to load it.
//!
//! The manager is built once from the styles each discovered model exposes,
//! keeping only the interactive-speech kind and letting the first
//! registration of a style id win. At request time it decides whether the
//! engine must load a model before a style can be used; the engine call
//! itself is the caller's, reported back through a plain boolean, so a load
//! happens at most once per resident model. Models stay resident until
//! `unload` is asked for explicitly.

use vstd::prelude::*;
use vstd::pervasive::VecAdditionalExecFns;

use crate::error::AppError;
use crate::metas::{SpeakerMeta, SpeakerMetaModel, StyleId, StyleType, VoiceModelMeta};

verus! {

/// Reference to one discovered model: its position in the discovery list.
pub type ModelRef = usize;

/// What the engine must do before a style can be used.
#[derive(Clone, Copy, Debug, PartialEq, Eq, Structural)]
pub enum LoadAction {
    /// The owning model is already resident; no engine call.
    AlreadyLoaded,
    /// The engine must load this model.
    Load(ModelRef),
}

/// Whether one of the first `b` styles of a speaker is the
/// interactive-speech style with id `s`.
pub open spec fn styles_prefix_exposes(sp: SpeakerMetaModel, b: int, s: StyleId) -> bool {
    exists|b2: int|
        0 <= b2 < b && (#[trigger] sp.styles[b2]).id == s && sp.styles[b2].style_type
            == StyleType::Talk
}

/// Whether one of the first `a` speakers of a model exposes the
/// interactive-speech style with id `s`.
pub open spec fn speakers_prefix_exposes(model: Seq<SpeakerMetaModel>, a: int, s: StyleId) -> bool {
    exists|a2: int|
        0 <= a2 < a && styles_prefix_exposes(
            #[trigger] model[a2],
            model[a2].styles.len() as int,
            s,
        )
}

/// Whether the style with id `s` is exposed for interactive speech by the
/// given model.
pub open spec fn exposes_talk(model: Seq<SpeakerMetaModel>, s: StyleId) -> bool {
    speakers_prefix_exposes(model, model.len() as int, s)
}

/// Whether one of the first `m` models exposes the style with id `s`.
pub open spec fn exposed_before(mv: Seq<Seq<SpeakerMetaModel>>, m: int, s: StyleId) -> bool {
    exists|m2: int| 0 <= m2 < m && exposes_talk(#[trigger] mv[m2], s)
}

/// Whether the style id `s` is registered in the index.
pub open spec fn in_index(ix: Seq<(StyleId, usize)>, s: StyleId) -> bool {
    exists|i: int| 0 <= i < ix.len() && (#[trigger] ix[i]).0 == s
}

proof fn lemma_styles_prefix_step(sp: SpeakerMetaModel, b: int, s: StyleId)
    requires
        0 <= b < sp.styles.len(),
    ensures
        styles_prefix_exposes(sp, b + 1, s) <==> (styles_prefix_exposes(sp, b, s) || (sp.styles[b].id
            == s && sp.styles[b].style_type == StyleType::Talk)),
{
    if styles_prefix_exposes(sp, b + 1, s) {
        let b2 = choose|b2: int|
            0 <= b2 < b + 1 && (#[trigger] sp.styles[b2]).id == s && sp.styles[b2].style_type
                == StyleType::Talk;
        if b2 < b {
            assert(styles_prefix_exposes(sp, b, s));
        }
    }
    if styles_prefix_exposes(sp, b, s) {
        let b2 = choose|b2: int|
            0 <= b2 < b && (#[trigger] sp.styles[b2]).id == s && sp.styles[b2].style_type
                == StyleType::Talk;
        assert(styles_prefix_exposes(sp, b + 1, s));
    }
    if sp.styles[b].id == s && sp.styles[b].style_type == StyleType::Talk {
        assert(styles_prefix_exposes(sp, b + 1, s));
    }
}

proof fn lemma_speakers_prefix_step(model: Seq<SpeakerMetaModel>, a: int, s: StyleId)
    requires
        0 <= a < model.len(),
    ensures
        speakers_prefix_exposes(model, a + 1, s) <==> (speakers_prefix_exposes(model, a, s)
            || styles_prefix_exposes(model[a], model[a].styles.len() as int, s)),
{
    if speakers_prefix_exposes(model, a + 1, s) {
        let a2 = choose|a2: int|
            0 <= a2 < a + 1 && styles_prefix_exposes(
                #[trigger] model[a2],
                model[a2].styles.len() as int,
                s,
            );
        if a2 < a {
            assert(speakers_prefix_exposes(model, a, s));
        }
    }
    if speakers_prefix_exposes(model, a, s) {
        let a2 = choose|a2: int|
            0 <= a2 < a && styles_prefix_exposes(
                #[trigger] model[a2],
                model[a2].styles.len() as int,
                s,
            );
        assert(speakers_prefix_exposes(model, a + 1, s));
    }
    if styles_prefix_exposes(model[a], model[a].styles.len() as int, s) {
        assert(speakers_prefix_exposes(model, a + 1, s));
    }
}

proof fn lemma_exposed_before_step(mv: Seq<Seq<SpeakerMetaModel>>, m: int, s: StyleId)
    requires
        0 <= m < mv.len(),
    ensures
        exposed_before(mv, m + 1, s) <==> (exposed_before(mv, m, s) || exposes_talk(mv[m], s)),
{
    if exposed_before(mv, m + 1, s) {
        let m2 = choose|m2: int| 0 <= m2 < m + 1 && exposes_talk(#[trigger] mv[m2], s);
        if m2 < m {
            assert(exposed_before(mv, m, s));
        }
    }
    if exposed_before(mv, m, s) {
        let m2 = choose|m2: int| 0 <= m2 < m && exposes_talk(#[trigger] mv[m2], s);
        assert(exposed_before(mv, m + 1, s));
    }
    if exposes_talk(mv[m], s) {
        assert(exposed_before(mv, m + 1, s));
    }
}

proof fn lemma_in_index_push(ix: Seq<(StyleId, usize)>, e: (StyleId, usize), s: StyleId)
    ensures
        in_index(ix.push(e), s) <==> (in_index(ix, s) || e.0 == s),
{
    let nx = ix.push(e);
    if in_index(nx, s) {
        let i = choose|i: int| 0 <= i < nx.len() && (#[trigger] nx[i]).0 == s;
        if i < ix.len() {
            assert(ix[i] == nx[i]);
            assert(in_index(ix, s));
        } else {
            assert(nx[i] == e);
        }
    }
    if in_index(ix, s) {
        let i = choose|i: int| 0 <= i < ix.len() && (#[trigger] ix[i]).0 == s;
        assert(nx[i].0 == s);
        assert(in_index(nx, s));
    }
    if e.0 == s {
        assert(nx[nx.len() - 1].0 == s);
        assert(in_index(nx, s));
    }
}

/// The model of one discovered model file: its speakers' metadata.
pub open spec fn model_view(model: VoiceModelMeta) -> Seq<SpeakerMetaModel> {
    model@.map_values(|sp: SpeakerMeta| sp@)
}

/// Model of the manager: the style index and each model's residency.
#[verifier::ext_equal]
pub struct LifecycleModel {
    /// Which model provides each known style; at most one entry per style.
    pub index: Seq<(StyleId, int)>,
    /// Residency of each discovered model.
    pub loaded: Seq<bool>,
}

impl LifecycleModel {
    /// Every style appears at most once and points at a discovered model.
    pub open spec fn wf(self) -> bool {
        &&& forall|i: int, j: int|
            0 <= i < j < self.index.len() ==> self.index[i].0 != self.index[j].0
        &&& forall|i: int|
            0 <= i < self.index.len() ==> 0 <= (#[trigger] self.index[i]).1 < self.loaded.len()
    }

    /// A known style: some registered model provides it.
    pub open spec fn resolves(self, s: StyleId) -> bool {
        exists|i: int| 0 <= i < self.index.len() && self.index[i].0 == s
    }

    /// Position of a style's index entry (unique under `wf`).
    pub open spec fn index_pos(self, s: StyleId) -> int {
        choose|i: int| 0 <= i < self.index.len() && self.index[i].0 == s
    }

    /// Whether a style's model is resident; unknown styles are not loaded.
    pub open spec fn is_loaded_spec(self, s: StyleId) -> bool {
        self.resolves(s) && self.loaded[self.model_of_entry(s)]
    }

    /// The model index stored for a style.
    pub open spec fn model_of_entry(self, s: StyleId) -> int {
        self.index[self.index_pos(s)].1
    }

    /// The manager after the engine confirmed a model is resident.
    pub open spec fn mark_loaded(self, m: int) -> Self {
        LifecycleModel { loaded: self.loaded.update(m, true), ..self }
    }

    /// The manager after the engine released a model.
    pub open spec fn mark_unloaded(self, m: int) -> Self {
        LifecycleModel { loaded: self.loaded.update(m, false), ..self }
    }
}

/// Maps style identifiers to the model that provides them and tracks which
/// models are resident.
pub struct LifecycleManager {
    index: Vec<(StyleId, usize)>,
    loaded: Vec<bool>,
}

impl View for LifecycleManager {
    type V = LifecycleModel;

    closed spec fn view(&self) -> LifecycleModel {
        LifecycleModel {
            index: self.index@.map_values(|p: (StyleId, usize)| (p.0, p.1 as int)),
            loaded: self.loaded@,
        }
    }
}

impl LifecycleManager {
    fn find_style(&self, style: StyleId) -> (r: Option<usize>)
        ensures
            match r {
                Some(i) => i < self@.index.len() && self@.index[i as int].0 == style,
                None => !self@.resolves(style),
            },
    {
        let n = self.index.len();
        let mut i: usize = 0;
        while i < n
            invariant
                n == self.index.len(),
                self@.index.len() == n,
                0 <= i <= n,
                forall|k: int| 0 <= k < i ==> self@.index[k].0 != style,
            decreases n - i,
        {
            assert(self@.index[i as int].0 == self.index@[i as int].0);
            if self.index[i].0 == style {
                return Some(i);
            }
            i += 1;
        }
        None
    }

    /// Builds the index from the styles each discovered model exposes.
    /// Only interactive-speech styles are registered; a style id exposed by
    /// two models is registered for the earlier one (first registration
    /// wins). No model starts out resident.
    pub fn build(models: &Vec<VoiceModelMeta>) -> (r: LifecycleManager)
        ensures
            r@.wf(),
            r@.loaded.len() == models@.len(),
            forall|m: int| 0 <= m < models@.len() ==> !r@.loaded[m],
            forall|s: StyleId|
                r@.resolves(s) <==> exists|m: int|
                    0 <= m < models@.len() && exposes_talk(#[trigger] model_view(models@[m]), s),
            forall|i: int|
                0 <= i < r@.index.len() ==> {
                    let s = (#[trigger] r@.index[i]).0;
                    let m = r@.index[i].1;
                    &&& exposes_talk(model_view(models@[m]), s)
                    &&& forall|m2: int|
                        0 <= m2 < m ==> !exposes_talk(#[trigger] model_view(models@[m2]), s)
                },
    {
        let ghost mv = models@.map_values(|model: VoiceModelMeta| model_view(model));
        let mut index: Vec<(StyleId, usize)> = Vec::new();
        let mut loaded: Vec<bool> = Vec::new();
        let n_models = models.len();
        let mut m: usize = 0;
        while m < n_models
            invariant
                n_models == models.len(),
                mv == models@.map_values(|model: VoiceModelMeta| model_view(model)),
                0 <= m <= n_models,
                loaded@.len() == m,
                forall|x: int| 0 <= x < m ==> !loaded@[x],
                forall|i: int, j: int|
                    0 <= i < j < index@.len() ==> index@[i].0 != index@[j].0,
                forall|i: int| 0 <= i < index@.len() ==> (#[trigger] index@[i]).1 < m,
                forall|s: StyleId| #[trigger] in_index(index@, s) <==> exposed_before(mv, m as int, s),
                forall|i: int|
                    0 <= i < index@.len() ==> exposes_talk(
                        mv[(#[trigger] index@[i]).1 as int],
                        index@[i].0,
                    ) && !exposed_before(mv, index@[i].1 as int, index@[i].0),
            decreases n_models - m,
        {
            let model = &models[m];
            let ghost model_v = mv[m as int];
            assert(model_v == model_view(*model));
            let n_speakers = model.len();
            let mut a: usize = 0;
            assert forall|s: StyleId| #[trigger] in_index(index@, s) <==> (exposed_before(
                mv,
                m as int,
                s,
            ) || speakers_prefix_exposes(model_v, 0, s)) by {}
            while a < n_speakers
                invariant
                    n_speakers == model.len(),
                    model_v.len() == n_speakers,
                    0 <= a <= n_speakers,
                    m < n_models,
                    mv == models@.map_values(|mo: VoiceModelMeta| model_view(mo)),
                    mv[m as int] == model_v,
                    model_v == model_view(*model),
                    forall|i: int, j: int|
                        0 <= i < j < index@.len() ==> index@[i].0 != index@[j].0,
                    forall|i: int| 0 <= i < index@.len() ==> (#[trigger] index@[i]).1 <= m,
                    forall|s: StyleId| #[trigger] in_index(index@, s) <==> (exposed_before(
                        mv,
                        m as int,
                        s,
                    ) || speakers_prefix_exposes(model_v, a as int, s)),
                    forall|i: int|
                        0 <= i < index@.len() ==> exposes_talk(
                            mv[(#[trigger] index@[i]).1 as int],
                            index@[i].0,
                        ) && !exposed_before(mv, index@[i].1 as int, index@[i].0),
                decreases n_speakers - a,
            {
                let speaker = &model[a];
                let ghost speaker_v = model_v[a as int];
                assert(speaker_v == speaker@);
                let n_styles = speaker.styles.len();
                let mut b: usize = 0;
                assert forall|s: StyleId| #[trigger] in_index(index@, s) <==> (exposed_before(
                    mv,
                    m as int,
                    s,
                ) || speakers_prefix_exposes(model_v, a as int, s) || styles_prefix_exposes(
                    speaker_v,
                    0,
                    s,
                )) by {}
                while b < n_styles
                    invariant
                        n_styles == speaker.styles.len(),
                        speaker_v == speaker@,
                        speaker_v.styles.len() == n_styles,
                        0 <= b <= n_styles,
                        0 <= a < n_speakers,
                        n_speakers == model_v.len(),
                        m < n_models,
                        mv == models@.map_values(|mo: VoiceModelMeta| model_view(mo)),
                        mv[m as int] == model_v,
                        model_v[a as int] == speaker_v,
                        forall|i: int, j: int|
                            0 <= i < j < index@.len() ==> index@[i].0 != index@[j].0,
                        forall|i: int| 0 <= i < index@.len() ==> (#[trigger] index@[i]).1 <= m,
                        forall|s: StyleId| #[trigger] in_index(index@, s) <==> (exposed_before(
                            mv,
                            m as int,
                            s,
                        ) || speakers_prefix_exposes(model_v, a as int, s) || styles_prefix_exposes(
                            speaker_v,
                            b as int,
                            s,
                        )),
                        forall|i: int|
                            0 <= i < index@.len() ==> exposes_talk(
                                mv[(#[trigger] index@[i]).1 as int],
                                index@[i].0,
                            ) && !exposed_before(mv, index@[i].1 as int, index@[i].0),
                    decreases n_styles - b,
                {
                    let style = &speaker.styles[b];
                    assert(style@ == speaker_v.styles[b as int]);
                    if matches!(style.style_type, StyleType::Talk) {
                        let mut present = false;
                        let n_idx = index.len();
                        let mut i: usize = 0;
                        while i < n_idx
                            invariant
                                n_idx == index.len(),
                                0 <= i <= n_idx,
                                present <==> exists|k: int|
                                    0 <= k < i && (#[trigger] index@[k]).0 == style@.id,
                            decreases n_idx - i,
                        {
                            if index[i].0 == style.id {
                                present = true;
                            }
                            i += 1;
                        }
                        assert(present == in_index(index@, style@.id));
                        if !present {
                            let ghost pre = index@;
                            proof {
                                // the new style is exposed here, by this very
                                // speaker and style position
                                assert(styles_prefix_exposes(
                                    speaker_v,
                                    speaker_v.styles.len() as int,
                                    style@.id,
                                ));
                                assert(speakers_prefix_exposes(
                                    model_v,
                                    model_v.len() as int,
                                    style@.id,
                                ));
                                assert(exposes_talk(mv[m as int], style@.id));
                                // and it was seen nowhere earlier
                                assert(!exposed_before(mv, m as int, style@.id));
                            }
                            index.push((style.id, m));
                            proof {
                                assert forall|s: StyleId| #[trigger] in_index(index@, s) <==> (
                                in_index(pre, s) || style@.id == s) by {
                                    lemma_in_index_push(pre, (style@.id, m as usize), s);
                                }
                                assert(forall|i2: int|
                                    0 <= i2 < pre.len() ==> index@[i2] == pre[i2]);
                                assert(index@[index@.len() - 1] == (style@.id, m as usize));
                            }
                        }
                    }
                    proof {
                        assert forall|s: StyleId| #[trigger] in_index(index@, s) <==> (
                        exposed_before(mv, m as int, s) || speakers_prefix_exposes(
                            model_v,
                            a as int,
                            s,
                        ) || styles_prefix_exposes(speaker_v, b + 1, s)) by {
                            lemma_styles_prefix_step(speaker_v, b as int, s);
                        }
                    }
                    b += 1;
                }
                proof {
                    assert forall|s: StyleId| #[trigger] in_index(index@, s) <==> (exposed_before(
                        mv,
                        m as int,
                        s,
                    ) || speakers_prefix_exposes(model_v, a + 1, s)) by {
                        lemma_speakers_prefix_step(model_v, a as int, s);
                    }
                }
                a += 1;
            }
            proof {
                assert forall|s: StyleId| #[trigger] in_index(index@, s) <==> exposed_before(
                    mv,
                    m + 1,
                    s,
                ) by {
                    lemma_exposed_before_step(mv, m as int, s);
                    assert(speakers_prefix_exposes(model_v, n_speakers as int, s) == exposes_talk(
                        mv[m as int],
                        s,
                    ));
                }
            }
            loaded.push(false);
            m += 1;
        }
        let r = LifecycleManager { index, loaded };
        proof {
            assert(r@.index =~= index@.map_values(|p: (StyleId, usize)| (p.0, p.1 as int)));
            assert(mv.len() == models@.len());
            assert forall|m2: int| 0 <= m2 < models@.len() implies mv[m2] == model_view(
                models@[m2],
            ) by {}
            assert forall|s: StyleId|
                r@.resolves(s) <==> exists|m2: int|
                    0 <= m2 < models@.len() && exposes_talk(
                        #[trigger] model_view(models@[m2]),
                        s,
                    ) by {
                if r@.resolves(s) {
                    let i = choose|i: int| 0 <= i < r@.index.len() && r@.index[i].0 == s;
                    assert(index@[i].0 == s);
                    assert(in_index(index@, s));
                    assert(exposed_before(mv, n_models as int, s));
                    let m2 = choose|m2: int| 0 <= m2 < n_models && exposes_talk(#[trigger] mv[m2], s);
                    assert(exposes_talk(model_view(models@[m2]), s));
                }
                if exists|m2: int|
                    0 <= m2 < models@.len() && exposes_talk(#[trigger] model_view(models@[m2]), s) {
                    let m2 = choose|m2: int|
                        0 <= m2 < models@.len() && exposes_talk(
                            #[trigger] model_view(models@[m2]),
                            s,
                        );
                    assert(exposes_talk(mv[m2], s));
                    assert(exposed_before(mv, n_models as int, s));
                    assert(in_index(index@, s));
                    let i = choose|i: int| 0 <= i < index@.len() && (#[trigger] index@[i]).0 == s;
                    assert(r@.index[i].0 == s);
                }
            }
            assert forall|i: int| 0 <= i < r@.index.len() implies {
                let s = (#[trigger] r@.index[i]).0;
                let mi = r@.index[i].1;
                &&& exposes_talk(model_view(models@[mi]), s)
                &&& forall|m2: int|
                    0 <= m2 < mi ==> !exposes_talk(#[trigger] model_view(models@[m2]), s)
            } by {
                assert(r@.index[i] == (index@[i].0, index@[i].1 as int));
                let s = index@[i].0;
                let mi = index@[i].1 as int;
                assert(exposes_talk(mv[mi], s));
                assert(!exposed_before(mv, mi, s));
                assert forall|m2: int| 0 <= m2 < mi implies !exposes_talk(
                    #[trigger] model_view(models@[m2]),
                    s,
                ) by {
                    assert(model_view(models@[m2]) == mv[m2]);
                    if exposes_talk(mv[m2], s) {
                        assert(exposed_before(mv, mi, s));
                    }
                }
            }
        }
        r
    }

    /// Looks up which registered model provides `style`.
    pub fn resolve(&self, style: StyleId) -> (r: Result<ModelRef, AppError>)
        requires
            self@.wf(),
        ensures
            match r {
                Ok(m) => self@.resolves(style) && m as int == self@.model_of_entry(style),
                Err(e) => e == AppError::StyleNotFound && !self@.resolves(style),
            },
    {
        match self.find_style(style) {
            Some(i) => {
                proof {
                    lemma_index_pos_unique(self@, style, i as int);
                }
                Ok(self.index[i].1)
            },
            None => Err(AppError::StyleNotFound),
        }
    }

    /// Whether `style`'s model is resident; unknown styles are not.
    pub fn is_loaded(&self, style: StyleId) -> (r: bool)
        requires
            self@.wf(),
        ensures
            r == self@.is_loaded_spec(style),
    {
        match self.find_style(style) {
            Some(i) => {
                proof {
                    lemma_index_pos_unique(self@, style, i as int);
                }
                self.loaded[self.index[i].1]
            },
            None => false,
        }
    }

    /// What must happen before `style` can be used: nothing if its model is
    /// resident, an engine load otherwise; unknown styles fail.
    pub fn ensure_loaded_action(&self, style: StyleId) -> (r: Result<LoadAction, AppError>)
        requires
            self@.wf(),
        ensures
            match r {
                Ok(LoadAction::AlreadyLoaded) => self@.resolves(style) && self@.is_loaded_spec(
                    style,
                ),
                Ok(LoadAction::Load(m)) => self@.resolves(style) && m as int
                    == self@.model_of_entry(style) && !self@.is_loaded_spec(style),
                Err(e) => e == AppError::StyleNotFound && !self@.resolves(style),
            },
    {
        match self.find_style(style) {
            Some(i) => {
                proof {
                    lemma_index_pos_unique(self@, style, i as int);
                }
                let m = self.index[i].1;
                if self.loaded[m] {
                    Ok(LoadAction::AlreadyLoaded)
                } else {
                    Ok(LoadAction::Load(m))
                }
            },
            None => Err(AppError::StyleNotFound),
        }
    }

    /// Records the outcome the engine reported for loading `model`. A
    /// failure leaves the manager unchanged and surfaces as
    /// `ModelLoadFailed`.
    pub fn on_load_result(&mut self, model: ModelRef, ok: bool) -> (r: Result<(), AppError>)
        requires
            old(self)@.wf(),
            model < old(self)@.loaded.len(),
        ensures
            final(self)@.wf(),
            match r {
                Ok(()) => ok && final(self)@ == old(self)@.mark_loaded(model as int),
                Err(e) => e == AppError::ModelLoadFailed && !ok && final(self)@ == old(self)@,
            },
    {
        if ok {
            self.loaded.set(model, true);
            proof {
                assert(self@ =~= old(self)@.mark_loaded(model as int));
            }
            Ok(())
        } else {
            Err(AppError::ModelLoadFailed)
        }
    }

    /// Makes sure `style`'s model is resident, calling the engine through
    /// `load` only when it is not already. `load` reports whether the engine
    /// accepted the model; a refusal surfaces as `ModelLoadFailed` and
    /// changes nothing, so the call may be retried.
    pub fn ensure_loaded<F: FnOnce(ModelRef) -> bool>(&mut self, style: StyleId, load: F) -> (r:
        Result<(), AppError>)
        requires
            old(self)@.wf(),
            forall|m: ModelRef|
                m < old(self)@.loaded.len() ==> call_requires(load, (m,)),
        ensures
            final(self)@.wf(),
            !old(self)@.resolves(style) ==> r == Err::<(), AppError>(AppError::StyleNotFound)
                && final(self)@ == old(self)@,
            old(self)@.is_loaded_spec(style) ==> r == Ok::<(), AppError>(()) && final(self)@ == old(
                self,
            )@,
            old(self)@.resolves(style) && !old(self)@.is_loaded_spec(style) ==> match r {
                Ok(()) => call_ensures(load, (old(self)@.model_of_entry(style) as ModelRef,), true)
                    && final(self)@ == old(self)@.mark_loaded(old(self)@.model_of_entry(style)),
                Err(e) => e == AppError::ModelLoadFailed && call_ensures(
                    load,
                    (old(self)@.model_of_entry(style) as ModelRef,),
                    false,
                ) && final(self)@ == old(self)@,
            },
    {
        let action = self.ensure_loaded_action(style)?;
        match action {
            LoadAction::AlreadyLoaded => Ok(()),
            LoadAction::Load(m) => {
                let ok = load(m);
                self.on_load_result(m, ok)
            },
        }
    }

    /// Releases `style`'s model if it is resident: the returned reference is
    /// the model the engine should now unload. Unknown or non-resident
    /// styles are left alone.
    pub fn unload(&mut self, style: StyleId) -> (r: Option<ModelRef>)
        requires
            old(self)@.wf(),
        ensures
            final(self)@.wf(),
            match r {
                Some(m) => old(self)@.resolves(style) && m as int == old(self)@.model_of_entry(
                    style,
                ) && old(self)@.is_loaded_spec(style) && final(self)@ == old(self)@.mark_unloaded(
                    m as int,
                ),
                None => !old(self)@.is_loaded_spec(style) && final(self)@ == old(self)@,
            },
    {
        match self.find_style(style) {
            Some(i) => {
                proof {
                    lemma_index_pos_unique(self@, style, i as int);
                }
                let m = self.index[i].1;
                if self.loaded[m] {
                    self.loaded.set(m, false);
                    proof {
                        assert(self@ =~= old(self)@.mark_unloaded(m as int));
                    }
                    Some(m)
                } else {
                    None
                }
            },
            None => None,
        }
    }
}

/// Under `wf` a style has one index entry, so any found position is it.
proof fn lemma_index_pos_unique(c: LifecycleModel, s: StyleId, i: int)
    requires
        c.wf(),
        0 <= i < c.index.len(),
        c.index[i].0 == s,
    ensures
        c.resolves(s),
        c.index_pos(s) == i,
        c.model_of_entry(s) == c.index[i].1,
{
    assert(c.resolves(s));
    let j = c.index_pos(s);
    assert(0 <= j < c.index.len() && c.index[j].0 == s);
    if i != j {
        assert(false);
    }
}

/// Lifecycle idempotence: once a load for a style has succeeded, the style
/// resolves to the same model, that model is resident, and the decision for
/// a repeated `ensure_loaded` is therefore `AlreadyLoaded` — no second
/// engine call. Residency of every other model is untouched.
pub proof fn lemma_ensure_loaded_idempotent(c: LifecycleModel, s: StyleId)
    requires
        c.wf(),
        c.resolves(s),
    ensures
        ({
            let d = c.mark_loaded(c.model_of_entry(s));
            &&& d.wf()
            &&& d.resolves(s)
            &&& d.model_of_entry(s) == c.model_of_entry(s)
            &&& d.is_loaded_spec(s)
            &&& forall|m: int|
                0 <= m < c.loaded.len() && m != c.model_of_entry(s) ==> d.loaded[m] == c.loaded[m]
        }),
{
    let p = c.index_pos(s);
    assert(0 <= p < c.index.len() && c.index[p].0 == s);
    let d = c.mark_loaded(c.model_of_entry(s));
    assert(d.index == c.index);
    lemma_index_pos_unique(d, s, p);
}

} // verus!
