use vstd::prelude::*;

verus! {

/// One speaking style of a speaker: its style id and its name.
#[derive(Debug, Clone)]
pub struct StyleMeta {
    pub id: u32,
    pub name: String,
}

/// What a voice model tells of one of its speakers.
#[derive(Debug, Clone)]
pub struct SpeakerMeta {
    pub name: String,
    pub styles: Vec<StyleMeta>,
    pub version: String,
    pub speaker_uuid: String,
}

/// A parsed voice model, as the coordinator sees it: its unique id and the
/// metadata of its speakers. The weights stay with the inference engine.
#[derive(Debug, Clone)]
pub struct VoiceModel {
    pub id: String,
    pub metas: Vec<SpeakerMeta>,
}

/// The mathematical value of a `SpeakerMeta`.
pub struct SpeakerMetaView {
    pub name: Seq<char>,
    pub styles: Seq<StyleMeta>,
    pub version: Seq<char>,
    pub speaker_uuid: Seq<char>,
}

impl View for SpeakerMeta {
    type V = SpeakerMetaView;

    open spec fn view(&self) -> SpeakerMetaView {
        SpeakerMetaView {
            name: self.name@,
            styles: self.styles@,
            version: self.version@,
            speaker_uuid: self.speaker_uuid@,
        }
    }
}

/// The views of a sequence of speaker metadata.
pub open spec fn meta_views(s: Seq<SpeakerMeta>) -> Seq<SpeakerMetaView> {
    s.map_values(|m: SpeakerMeta| m@)
}

/// Whether some speaker of `metas` has a style with id `style_id`.
pub open spec fn metas_have_style(metas: Seq<SpeakerMeta>, style_id: u32) -> bool {
    exists|i: int, j: int|
        0 <= i < metas.len() && 0 <= j < metas[i].styles@.len() && #[trigger] metas[i].styles@[j].id
            == style_id
}

impl StyleMeta {
    pub fn id(&self) -> (r: u32)
        ensures
            r == self.id,
    {
        self.id
    }

    pub fn name(&self) -> (r: &str)
        ensures
            r@ == self.name@,
    {
        self.name.as_str()
    }

    /// A copy equal to `self`.
    pub fn duplicate(&self) -> (r: StyleMeta)
        ensures
            r == *self,
    {
        StyleMeta { id: self.id, name: self.name.clone() }
    }
}

/// Copies a sequence of styles.
pub fn copy_styles(s: &Vec<StyleMeta>) -> (r: Vec<StyleMeta>)
    ensures
        r@ == s@,
{
    let mut r: Vec<StyleMeta> = Vec::new();
    let mut i: usize = 0;
    while i < s.len()
        invariant
            i <= s@.len(),
            r@ == s@.subrange(0, i as int),
        decreases s@.len() - i,
    {
        r.push(s[i].duplicate());
        i = i + 1;
    }
    assert(s@.subrange(0, s@.len() as int) == s@);
    r
}

impl SpeakerMeta {
    pub fn name(&self) -> (r: &str)
        ensures
            r@ == self.name@,
    {
        self.name.as_str()
    }

    pub fn styles(&self) -> (r: Vec<StyleMeta>)
        ensures
            r@ == self.styles@,
    {
        copy_styles(&self.styles)
    }

    pub fn version(&self) -> (r: &str)
        ensures
            r@ == self.version@,
    {
        self.version.as_str()
    }

    pub fn speaker_uuid(&self) -> (r: &str)
        ensures
            r@ == self.speaker_uuid@,
    {
        self.speaker_uuid.as_str()
    }

    /// A copy with the same view as `self`.
    pub fn duplicate(&self) -> (r: SpeakerMeta)
        ensures
            r@ == self@,
    {
        SpeakerMeta {
            name: self.name.clone(),
            styles: copy_styles(&self.styles),
            version: self.version.clone(),
            speaker_uuid: self.speaker_uuid.clone(),
        }
    }
}

/// Copies a sequence of speaker metadata, view for view.
pub fn copy_metas(s: &Vec<SpeakerMeta>) -> (r: Vec<SpeakerMeta>)
    ensures
        meta_views(r@) == meta_views(s@),
{
    let mut r: Vec<SpeakerMeta> = Vec::new();
    let mut i: usize = 0;
    while i < s.len()
        invariant
            i <= s@.len(),
            r@.len() == i,
            forall|k: int| 0 <= k < i ==> #[trigger] r@[k]@ == s@[k]@,
        decreases s@.len() - i,
    {
        r.push(s[i].duplicate());
        i = i + 1;
    }
    assert(meta_views(r@) =~= meta_views(s@));
    r
}

impl VoiceModel {
    pub fn id(&self) -> (r: &str)
        ensures
            r@ == self.id@,
    {
        self.id.as_str()
    }

    pub fn metas(&self) -> (r: Vec<SpeakerMeta>)
        ensures
            meta_views(r@) == meta_views(self.metas@),
    {
        copy_metas(&self.metas)
    }

    /// Whether a style with id `style_id` belongs to this model.
    pub open spec fn has_style(&self, style_id: u32) -> bool {
        metas_have_style(self.metas@, style_id)
    }

    /// Tells whether a style with id `style_id` belongs to this model.
    pub fn offers_style(&self, style_id: u32) -> (r: bool)
        ensures
            r == self.has_style(style_id),
    {
        let mut i: usize = 0;
        while i < self.metas.len()
            invariant
                i <= self.metas@.len(),
                forall|a: int, b: int|
                    0 <= a < i && 0 <= b < self.metas@[a].styles@.len()
                        ==> #[trigger] self.metas@[a].styles@[b].id != style_id,
            decreases self.metas@.len() - i,
        {
            let styles = &self.metas[i].styles;
            let mut j: usize = 0;
            while j < styles.len()
                invariant
                    i < self.metas@.len(),
                    *styles == self.metas@[i as int].styles,
                    j <= styles@.len(),
                    forall|b: int| 0 <= b < j ==> #[trigger] styles@[b].id != style_id,
                decreases styles@.len() - j,
            {
                if styles[j].id == style_id {
                    assert(self.metas@[i as int].styles@[j as int].id == style_id);
                    return true;
                }
                j = j + 1;
            }
            i = i + 1;
        }
        false
    }
}

} // verus!
