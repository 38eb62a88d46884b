//! Engine-provided voice metadata: speakers, styles and their identifiers.
//!
//! The catalog is read once at startup from the model files and treated as
//! immutable afterwards. Only styles of the interactive-speech kind take part
//! in synthesis; `merge` combines the speaker lists of several models into
//! one catalog ordered by the declared `order` fields.

use vstd::prelude::*;

use crate::order::{lemma_insert_by_key_at, sort_by_key};

verus! {

/// The integer carried by a [`StyleId`].
pub type RawStyleId = u32;

/// Opaque identifier of one synthesis voice/style, globally unique across
/// all loaded models.
#[derive(Clone, Copy, Debug, PartialEq, Eq, Hash, Structural)]
pub struct StyleId(RawStyleId);

impl StyleId {
    /// The raw integer of this style id.
    pub closed spec fn id_spec(&self) -> RawStyleId {
        self.0
    }

    pub fn new(id: RawStyleId) -> (r: StyleId)
        ensures
            r.id_spec() == id,
    {
        StyleId(id)
    }

    pub fn raw_id(self) -> (r: RawStyleId)
        ensures
            r == self.id_spec(),
    {
        self.0
    }
}

/// The string carried by a [`StyleVersion`].
pub type RawStyleVersion = String;

/// Version tag of a style.
pub struct StyleVersion(RawStyleVersion);

impl View for StyleVersion {
    type V = Seq<char>;

    closed spec fn view(&self) -> Seq<char> {
        self.0@
    }
}

impl StyleVersion {
    pub fn new(version: RawStyleVersion) -> (r: StyleVersion)
        ensures
            r@ == version@,
    {
        StyleVersion(version)
    }

    pub fn raw_version(&self) -> (r: &RawStyleVersion)
        ensures
            r@ == self@,
    {
        &self.0
    }
}

/// The kind of model behind a style: only `Talk` styles can produce audio
/// queries and interactive speech; the singing kinds are excluded from the
/// catalog.
#[derive(Clone, Copy, Debug, PartialEq, Eq, Structural)]
pub enum StyleType {
    Talk,
    SingingTeacher,
    FrameDecode,
    Sing,
}

impl Default for StyleType {
    fn default() -> (r: StyleType)
        ensures
            r == StyleType::Talk,
    {
        StyleType::Talk
    }
}

/// Metadata of one style.
pub struct StyleMeta {
    /// Identifier of the style.
    pub id: StyleId,
    /// Display name of the style.
    pub name: String,
    /// Kind of model behind the style.
    pub style_type: StyleType,
    /// Sort position; styles without one sort after all that have one.
    pub order: Option<u32>,
}

#[verifier::ext_equal]
pub struct StyleMetaModel {
    pub id: StyleId,
    pub name: Seq<char>,
    pub style_type: StyleType,
    pub order: Option<u32>,
}

impl View for StyleMeta {
    type V = StyleMetaModel;

    open spec fn view(&self) -> StyleMetaModel {
        StyleMetaModel {
            id: self.id,
            name: self.name@,
            style_type: self.style_type,
            order: self.order,
        }
    }
}

/// A deep copy of a style's metadata, equal to the original under the model.
pub fn style_meta_dup(m: &StyleMeta) -> (r: StyleMeta)
    ensures
        r@ == m@,
{
    let r = StyleMeta {
        id: m.id,
        name: m.name.clone(),
        style_type: m.style_type,
        order: m.order,
    };
    assert(r@ =~= m@);
    r
}

/// Metadata of one speaker: a named group of styles.
pub struct SpeakerMeta {
    /// Display name of the speaker.
    pub name: String,
    /// Styles belonging to the speaker.
    pub styles: Vec<StyleMeta>,
    /// Version of the speaker's data.
    pub version: StyleVersion,
    /// Stable identity of the speaker across models.
    pub speaker_uuid: String,
    /// Sort position; speakers without one sort after all that have one.
    pub order: Option<u32>,
}

#[verifier::ext_equal]
pub struct SpeakerMetaModel {
    pub name: Seq<char>,
    pub styles: Seq<StyleMetaModel>,
    pub version: Seq<char>,
    pub speaker_uuid: Seq<char>,
    pub order: Option<u32>,
}

impl View for SpeakerMeta {
    type V = SpeakerMetaModel;

    open spec fn view(&self) -> SpeakerMetaModel {
        SpeakerMetaModel {
            name: self.name@,
            styles: self.styles@.map_values(|s: StyleMeta| s@),
            version: self.version@,
            speaker_uuid: self.speaker_uuid@,
            order: self.order,
        }
    }
}

/// A deep copy of a speaker's metadata, equal to the original under the model.
pub fn speaker_meta_dup(m: &SpeakerMeta) -> (r: SpeakerMeta)
    ensures
        r@ == m@,
{
    let mut styles: Vec<StyleMeta> = Vec::new();
    let n = m.styles.len();
    let mut i: usize = 0;
    while i < n
        invariant
            n == m.styles.len(),
            0 <= i <= n,
            styles.len() == i,
            forall|k: int| 0 <= k < i ==> styles@.map_values(|s: StyleMeta| s@)[k] == m@.styles[k],
        decreases n - i,
    {
        styles.push(style_meta_dup(&m.styles[i]));
        i += 1;
    }
    let r = SpeakerMeta {
        name: m.name.clone(),
        styles,
        version: StyleVersion::new(m.version.raw_version().clone()),
        speaker_uuid: m.speaker_uuid.clone(),
        order: m.order,
    };
    assert(r@.styles =~= m@.styles);
    assert(r@ =~= m@);
    r
}

/// The styles one model exposes, speaker by speaker.
pub type VoiceModelMeta = Vec<SpeakerMeta>;

/// The model of a speaker list.
pub open spec fn speakers_view(metas: Seq<SpeakerMeta>) -> Seq<SpeakerMetaModel> {
    metas.map_values(|sp: SpeakerMeta| sp@)
}

/// Sort key of an `order` field: entries without one go after all others.
pub open spec fn order_key_spec(o: Option<u32>) -> int {
    match o {
        Some(v) => v as int,
        None => 0x1_0000_0000,
    }
}

fn order_key(o: &Option<u32>) -> (r: u64)
    ensures
        r as int == order_key_spec(*o),
{
    match o {
        Some(v) => *v as u64,
        None => 0x1_0000_0000u64,
    }
}

/// Whether the list holds a speaker with this uuid.
pub open spec fn has_uuid(acc: Seq<SpeakerMetaModel>, uuid: Seq<char>) -> bool {
    exists|i: int| 0 <= i < acc.len() && (#[trigger] acc[i]).speaker_uuid == uuid
}

/// Position of the speaker with this uuid (unique while uuids are distinct).
pub open spec fn uuid_index(acc: Seq<SpeakerMetaModel>, uuid: Seq<char>) -> int {
    choose|i: int| 0 <= i < acc.len() && (#[trigger] acc[i]).speaker_uuid == uuid
}

/// Folds a speaker list into one entry per uuid: the first appearance keeps
/// its fields, later appearances only add their styles.
pub open spec fn merge_group(
    acc: Seq<SpeakerMetaModel>,
    rest: Seq<SpeakerMetaModel>,
) -> Seq<SpeakerMetaModel>
    decreases rest.len(),
{
    if rest.len() == 0 {
        acc
    } else {
        let sp = rest[0];
        let acc2 = if has_uuid(acc, sp.speaker_uuid) {
            let i = uuid_index(acc, sp.speaker_uuid);
            acc.update(i, SpeakerMetaModel { styles: acc[i].styles + sp.styles, ..acc[i] })
        } else {
            acc.push(sp)
        };
        merge_group(acc2, rest.drop_first())
    }
}

/// Key ordering styles within a speaker.
pub open spec fn style_order_key() -> spec_fn(StyleMetaModel) -> int {
    |st: StyleMetaModel| order_key_spec(st.order)
}

/// Key ordering speakers within the merged catalog.
pub open spec fn speaker_order_key() -> spec_fn(SpeakerMetaModel) -> int {
    |sp: SpeakerMetaModel| order_key_spec(sp.order)
}

/// What merging means: group by uuid in first-appearance order, then sort
/// each speaker's styles and the speakers themselves by their `order` keys,
/// stably, with unordered entries last.
pub open spec fn merge_spec(metas: Seq<SpeakerMetaModel>) -> Seq<SpeakerMetaModel> {
    let grouped = merge_group(Seq::empty(), metas);
    let styled = grouped.map_values(
        |sp: SpeakerMetaModel|
            SpeakerMetaModel { styles: sort_by_key(sp.styles, style_order_key()), ..sp },
    );
    sort_by_key(styled, speaker_order_key())
}

fn sort_styles(v: &Vec<StyleMeta>) -> (r: Vec<StyleMeta>)
    ensures
        r@.map_values(|st: StyleMeta| st@) == sort_by_key(
            v@.map_values(|st: StyleMeta| st@),
            style_order_key(),
        ),
{
    let ghost key = style_order_key();
    let ghost sv = v@.map_values(|st: StyleMeta| st@);
    let n = v.len();
    let mut out: Vec<StyleMeta> = Vec::new();
    let mut i: usize = 0;
    assert(sv.take(0) =~= Seq::<StyleMetaModel>::empty());
    assert(out@.map_values(|st: StyleMeta| st@) =~= sort_by_key(sv.take(0), key));
    while i < n
        invariant
            n == v.len(),
            sv == v@.map_values(|st: StyleMeta| st@),
            key == style_order_key(),
            0 <= i <= n,
            out@.map_values(|st: StyleMeta| st@) == sort_by_key(sv.take(i as int), key),
        decreases n - i,
    {
        let ghost outv = out@.map_values(|st: StyleMeta| st@);
        let x = style_meta_dup(&v[i]);
        let xk = order_key(&x.order);
        let m = out.len();
        let mut j: usize = 0;
        while j < m && order_key(&out[j].order) <= xk
            invariant
                m == out.len(),
                0 <= j <= m,
                outv == out@.map_values(|st: StyleMeta| st@),
                key == style_order_key(),
                xk as int == key(x@),
                forall|k: int| 0 <= k < j ==> key(#[trigger] outv[k]) <= key(x@),
            decreases m - j,
        {
            assert(outv[j as int] == out@[j as int]@);
            j += 1;
        }
        assert(j < m ==> key(outv[j as int]) > key(x@));
        proof {
            lemma_insert_by_key_at(outv, x@, key, j as int);
            let a = sv.take(i + 1);
            assert(a.drop_last() =~= sv.take(i as int));
            assert(a.last() == sv[i as int]);
            assert(x@ == sv[i as int]);
        }
        out.insert(j, x);
        proof {
            assert(out@.map_values(|st: StyleMeta| st@) =~= outv.insert(j as int, x@));
        }
        i += 1;
    }
    assert(sv.take(n as int) =~= sv);
    out
}

fn sort_speakers(v: Vec<SpeakerMeta>) -> (r: Vec<SpeakerMeta>)
    ensures
        speakers_view(r@) == sort_by_key(speakers_view(v@), speaker_order_key()),
{
    let ghost key = speaker_order_key();
    let ghost sv = speakers_view(v@);
    let n = v.len();
    let mut out: Vec<SpeakerMeta> = Vec::new();
    let mut i: usize = 0;
    assert(sv.take(0) =~= Seq::<SpeakerMetaModel>::empty());
    assert(speakers_view(out@) =~= sort_by_key(sv.take(0), key));
    while i < n
        invariant
            n == v.len(),
            sv == speakers_view(v@),
            key == speaker_order_key(),
            0 <= i <= n,
            speakers_view(out@) == sort_by_key(sv.take(i as int), key),
        decreases n - i,
    {
        let ghost outv = speakers_view(out@);
        let x = speaker_meta_dup(&v[i]);
        let xk = order_key(&x.order);
        let m = out.len();
        let mut j: usize = 0;
        while j < m && order_key(&out[j].order) <= xk
            invariant
                m == out.len(),
                0 <= j <= m,
                outv == speakers_view(out@),
                key == speaker_order_key(),
                xk as int == key(x@),
                forall|k: int| 0 <= k < j ==> key(#[trigger] outv[k]) <= key(x@),
            decreases m - j,
        {
            assert(outv[j as int] == out@[j as int]@);
            j += 1;
        }
        assert(j < m ==> key(outv[j as int]) > key(x@));
        proof {
            lemma_insert_by_key_at(outv, x@, key, j as int);
            let a = sv.take(i + 1);
            assert(a.drop_last() =~= sv.take(i as int));
            assert(a.last() == sv[i as int]);
            assert(x@ == sv[i as int]);
        }
        out.insert(j, x);
        proof {
            assert(speakers_view(out@) =~= outv.insert(j as int, x@));
        }
        i += 1;
    }
    assert(sv.take(n as int) =~= sv);
    out
}

/// What filtering a catalog means: every speaker keeps exactly its
/// interactive-speech styles, in order, and nothing else changes.
pub open spec fn talk_only(sp: SpeakerMetaModel) -> SpeakerMetaModel {
    SpeakerMetaModel {
        styles: sp.styles.filter(|st: StyleMetaModel| st.style_type == StyleType::Talk),
        ..sp
    }
}

fn filter_talk_styles(styles: &Vec<StyleMeta>) -> (r: Vec<StyleMeta>)
    ensures
        r@.map_values(|st: StyleMeta| st@) == styles@.map_values(|st: StyleMeta| st@).filter(
            |st: StyleMetaModel| st.style_type == StyleType::Talk,
        ),
{
    let ghost sv = styles@.map_values(|st: StyleMeta| st@);
    let ghost pred = |st: StyleMetaModel| st.style_type == StyleType::Talk;
    let mut out: Vec<StyleMeta> = Vec::new();
    let n = styles.len();
    let mut i: usize = 0;
    proof {
        reveal(Seq::filter);
        assert(sv.take(0) =~= Seq::<StyleMetaModel>::empty());
        assert(out@.map_values(|st: StyleMeta| st@) =~= sv.take(0).filter(pred));
    }
    while i < n
        invariant
            n == styles.len(),
            sv == styles@.map_values(|st: StyleMeta| st@),
            pred == (|st: StyleMetaModel| st.style_type == StyleType::Talk),
            0 <= i <= n,
            out@.map_values(|st: StyleMeta| st@) == sv.take(i as int).filter(pred),
        decreases n - i,
    {
        let ghost outv = out@.map_values(|st: StyleMeta| st@);
        assert(styles@[i as int]@ == sv[i as int]);
        if matches!(styles[i].style_type, StyleType::Talk) {
            out.push(style_meta_dup(&styles[i]));
            proof {
                assert(out@.map_values(|st: StyleMeta| st@) =~= outv.push(sv[i as int]));
            }
        }
        proof {
            reveal(Seq::filter);
            let a = sv.take(i + 1);
            assert(a.drop_last() =~= sv.take(i as int));
            assert(a.last() == sv[i as int]);
            assert(out@.map_values(|st: StyleMeta| st@) =~= sv.take(i + 1).filter(pred));
        }
        i += 1;
    }
    assert(sv.take(n as int) =~= sv);
    out
}

/// Restricts a catalog to the interactive-speech styles: every speaker keeps
/// exactly its `Talk` styles in their original order; the other kinds are
/// excluded from the catalog.
pub fn filter_talk(metas: &Vec<SpeakerMeta>) -> (r: Vec<SpeakerMeta>)
    ensures
        speakers_view(r@) == speakers_view(metas@).map_values(
            |sp: SpeakerMetaModel| talk_only(sp),
        ),
{
    let ghost inv = speakers_view(metas@);
    let mut out: Vec<SpeakerMeta> = Vec::new();
    let n = metas.len();
    let mut i: usize = 0;
    while i < n
        invariant
            n == metas.len(),
            inv == speakers_view(metas@),
            0 <= i <= n,
            out@.len() == i,
            forall|k: int| 0 <= k < i ==> (#[trigger] out@[k]@) == talk_only(inv[k]),
        decreases n - i,
    {
        let sp = &metas[i];
        assert(sp@ == inv[i as int]);
        let kept = SpeakerMeta {
            name: sp.name.clone(),
            styles: filter_talk_styles(&sp.styles),
            version: StyleVersion::new(sp.version.raw_version().clone()),
            speaker_uuid: sp.speaker_uuid.clone(),
            order: sp.order,
        };
        assert(kept@ =~= talk_only(inv[i as int]));
        out.push(kept);
        i += 1;
    }
    assert(speakers_view(out@) =~= inv.map_values(|sp: SpeakerMetaModel| talk_only(sp)));
    out
}

fn find_uuid(acc: &Vec<SpeakerMeta>, uuid: &String) -> (r: Option<usize>)
    ensures
        match r {
            Some(i) => i < acc@.len() && acc@[i as int]@.speaker_uuid == uuid@,
            None => forall|x: int|
                0 <= x < acc@.len() ==> (#[trigger] acc@[x]@).speaker_uuid != uuid@,
        },
{
    let n = acc.len();
    let mut i: usize = 0;
    while i < n
        invariant
            n == acc.len(),
            0 <= i <= n,
            forall|x: int| 0 <= x < i ==> (#[trigger] acc@[x]@).speaker_uuid != uuid@,
        decreases n - i,
    {
        if acc[i].speaker_uuid == *uuid {
            return Some(i);
        }
        i += 1;
    }
    None
}

/// Merges several models' speaker lists into one catalog keyed by uuid.
///
/// Speakers sharing a uuid become one entry holding all their styles, fields
/// other than styles taken from the first appearance; styles and speakers are
/// then ordered by their `order` fields, stably, unordered ones last.
pub fn merge(metas: &Vec<SpeakerMeta>) -> (r: Vec<SpeakerMeta>)
    ensures
        speakers_view(r@) == merge_spec(speakers_view(metas@)),
{
    let ghost inv = speakers_view(metas@);
    let ghost target = merge_group(Seq::<SpeakerMetaModel>::empty(), inv);
    let mut acc: Vec<SpeakerMeta> = Vec::new();
    let n = metas.len();
    let mut k: usize = 0;
    assert(speakers_view(acc@) =~= Seq::<SpeakerMetaModel>::empty());
    assert(inv.skip(0) =~= inv);
    while k < n
        invariant
            n == metas.len(),
            inv == speakers_view(metas@),
            target == merge_group(Seq::<SpeakerMetaModel>::empty(), inv),
            0 <= k <= n,
            forall|i: int, j: int|
                0 <= i < j < acc@.len() ==> (#[trigger] acc@[i]@).speaker_uuid != (
                #[trigger] acc@[j]@).speaker_uuid,
            merge_group(speakers_view(acc@), inv.skip(k as int)) == target,
        decreases n - k,
    {
        let ghost accv = speakers_view(acc@);
        proof {
            assert(forall|i: int| 0 <= i < acc@.len() ==> (#[trigger] acc@[i]@) == accv[i]);
        }
        let sp = &metas[k];
        assert(sp@ == inv[k as int]);
        match find_uuid(&acc, &sp.speaker_uuid) {
            Some(idx) => {
                proof {
                    assert(accv[idx as int].speaker_uuid == sp@.speaker_uuid);
                    assert(has_uuid(accv, sp@.speaker_uuid));
                    let ci = uuid_index(accv, sp@.speaker_uuid);
                    assert(0 <= ci < accv.len() && accv[ci].speaker_uuid == sp@.speaker_uuid);
                    if ci != idx as int {
                        assert(false);
                    }
                }
                let mut entry = acc.remove(idx);
                let ghost entry0 = entry@;
                let n_styles = sp.styles.len();
                let mut t: usize = 0;
                assert(entry@.styles =~= entry0.styles + sp@.styles.take(0));
                while t < n_styles
                    invariant
                        n_styles == sp.styles.len(),
                        0 <= t <= n_styles,
                        entry@.name == entry0.name,
                        entry@.version == entry0.version,
                        entry@.speaker_uuid == entry0.speaker_uuid,
                        entry@.order == entry0.order,
                        entry@.styles == entry0.styles + sp@.styles.take(t as int),
                    decreases n_styles - t,
                {
                    let ghost before = entry@.styles;
                    let ghost x_v = sp@.styles[t as int];
                    assert(sp.styles@[t as int]@ == x_v);
                    entry.styles.push(style_meta_dup(&sp.styles[t]));
                    proof {
                        assert(entry@.styles =~= before.push(x_v));
                        assert(sp@.styles.take(t + 1) =~= sp@.styles.take(t as int).push(x_v));
                        assert(entry@.styles =~= entry0.styles + sp@.styles.take(t + 1));
                    }
                    t += 1;
                }
                assert(sp@.styles.take(n_styles as int) =~= sp@.styles);
                assert(entry@ =~= SpeakerMetaModel { styles: entry0.styles + sp@.styles, ..entry0 });
                acc.insert(idx, entry);
                proof {
                    let updated = SpeakerMetaModel {
                        styles: accv[idx as int].styles + sp@.styles,
                        ..accv[idx as int]
                    };
                    assert(speakers_view(acc@) =~= accv.update(idx as int, updated));
                    let newv = speakers_view(acc@);
                    assert(forall|i: int|
                        0 <= i < newv.len() ==> (#[trigger] newv[i]).speaker_uuid
                            == accv[i].speaker_uuid);
                    assert forall|i: int, j: int| 0 <= i < j < acc@.len() implies (
                    #[trigger] acc@[i]@).speaker_uuid != (#[trigger] acc@[j]@).speaker_uuid by {
                        assert(acc@[i]@ == newv[i]);
                        assert(acc@[j]@ == newv[j]);
                    }
                }
            },
            None => {
                proof {
                    assert(forall|x: int|
                        0 <= x < accv.len() ==> (#[trigger] accv[x]).speaker_uuid
                            != sp@.speaker_uuid);
                    assert(!has_uuid(accv, sp@.speaker_uuid));
                }
                acc.push(speaker_meta_dup(sp));
                proof {
                    assert(speakers_view(acc@) =~= accv.push(sp@));
                    let newv = speakers_view(acc@);
                    assert forall|i: int, j: int| 0 <= i < j < acc@.len() implies (
                    #[trigger] acc@[i]@).speaker_uuid != (#[trigger] acc@[j]@).speaker_uuid by {
                        assert(acc@[i]@ == newv[i]);
                        assert(acc@[j]@ == newv[j]);
                        if j < newv.len() - 1 {
                            assert(newv[i] == accv[i] && newv[j] == accv[j]);
                        } else {
                            assert(newv[i] == accv[i] && newv[j] == sp@);
                        }
                    }
                }
            },
        }
        proof {
            let rest = inv.skip(k as int);
            assert(rest[0] == inv[k as int]);
            assert(rest.drop_first() =~= inv.skip(k + 1));
        }
        k += 1;
    }
    assert(inv.skip(n as int) =~= Seq::<SpeakerMetaModel>::empty());
    assert(speakers_view(acc@) == target);
    // sort each speaker's styles, keeping everything else
    let mut styled: Vec<SpeakerMeta> = Vec::new();
    let ghost styled_target = target.map_values(
        |sp: SpeakerMetaModel|
            SpeakerMetaModel { styles: sort_by_key(sp.styles, style_order_key()), ..sp },
    );
    let total = acc.len();
    let mut done: usize = 0;
    while done < total
        invariant
            total == acc@.len(),
            speakers_view(acc@) == target,
            styled_target == target.map_values(
                |sp: SpeakerMetaModel|
                    SpeakerMetaModel { styles: sort_by_key(sp.styles, style_order_key()), ..sp },
            ),
            0 <= done <= total,
            styled@.len() == done,
            forall|x: int| 0 <= x < done ==> (#[trigger] styled@[x]@) == styled_target[x],
        decreases total - done,
    {
        let e = &acc[done];
        let sorted = sort_styles(&e.styles);
        let rebuilt = SpeakerMeta {
            name: e.name.clone(),
            styles: sorted,
            version: StyleVersion::new(e.version.raw_version().clone()),
            speaker_uuid: e.speaker_uuid.clone(),
            order: e.order,
        };
        proof {
            assert(e@ == target[done as int]);
            assert(rebuilt@ =~= styled_target[done as int]);
        }
        styled.push(rebuilt);
        done += 1;
    }
    assert(speakers_view(styled@) =~= styled_target);
    let r = sort_speakers(styled);
    r
}

} // verus!
