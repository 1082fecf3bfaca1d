//! The novel model: metadata, volumes and chapters, outline tree, characters,
//! locations, timeline, tasks and daily writing statistics.

use vstd::prelude::*;
use crate::text::{str_eq, trim, trim_string};
use crate::util::{id_shaped, is_lower_hex, new_id, now_ts};

verus! {

// ---------------------------------------------------------------------------
// Data types
// ---------------------------------------------------------------------------

/// Descriptive data of a novel.
#[derive(Clone)]
pub struct NovelMeta {
    pub id: String,
    pub title: String,
    pub author: String,
    pub description: String,
    pub genre: String,
    pub created_at: i64,
    pub updated_at: i64,
    pub total_words: u64,
    pub chapter_count: u32,
}

/// A chapter's entry in the volume tree (its text is stored apart).
#[derive(Clone)]
pub struct ChapterMeta {
    pub id: String,
    pub title: String,
    pub words: u64,
    pub updated_at: i64,
}

/// A volume: an ordered group of chapters.
#[derive(Clone)]
pub struct Volume {
    pub id: String,
    pub title: String,
    pub chapters: Vec<ChapterMeta>,
}

/// A node of the outline tree: volume / chapter / section / point.
pub struct OutlineNode {
    pub id: String,
    pub title: String,
    pub kind: String,
    pub content: String,
    pub children: Vec<OutlineNode>,
}

/// A relation from one character to another.
#[derive(Clone)]
pub struct Relationship {
    pub target_id: String,
    pub target_name: String,
    pub relation: String,
    pub note: String,
}

/// A character card.
#[derive(Clone)]
pub struct Character {
    pub id: String,
    pub name: String,
    pub role: String,
    pub appearance: String,
    pub personality: String,
    pub background: String,
    pub goals: String,
    pub notes: String,
    pub relationships: Vec<Relationship>,
}

/// A place of the story world.
#[derive(Clone)]
pub struct Location {
    pub id: String,
    pub name: String,
    pub kind: String,
    pub parent_id: Option<String>,
    pub description: String,
}

/// An event on the story timeline.
#[derive(Clone)]
pub struct TimelineEvent {
    pub id: String,
    pub title: String,
    pub time: String,
    pub description: String,
    pub character_ids: Vec<String>,
    pub location_id: Option<String>,
    pub chapter_id: Option<String>,
}

/// A writing task; `status` is 0 (to do), 1 (in progress) or 2 (done).
#[derive(Clone)]
pub struct Task {
    pub id: String,
    pub title: String,
    pub description: String,
    pub status: u8,
    pub chain_id: Option<String>,
}

/// A named group of tasks.
#[derive(Clone)]
pub struct TaskChain {
    pub id: String,
    pub name: String,
    pub description: String,
    pub task_ids: Vec<String>,
}

/// A whole novel. `stats` maps a day (`YYYY-MM-DD`) to the words added that day;
/// each day occurs at most once.
pub struct Novel {
    pub meta: NovelMeta,
    pub volumes: Vec<Volume>,
    pub outline: Vec<OutlineNode>,
    pub characters: Vec<Character>,
    pub locations: Vec<Location>,
    pub timeline: Vec<TimelineEvent>,
    pub tasks: Vec<Task>,
    pub chains: Vec<TaskChain>,
    pub stats: Vec<(String, u64)>,
    pub ai_summary: String,
}

/// The title given to a novel created without one.
pub const UNTITLED: &'static str = "未命名小说";

/// The title of the volume created to hold chapters when a novel has none.
pub const MAIN_VOLUME: &'static str = "正文";

// ---------------------------------------------------------------------------
// Lookup by identifier
// ---------------------------------------------------------------------------

/// The position of the first key equal to `id`.
pub open spec fn first_key(keys: Seq<Seq<char>>, id: Seq<char>) -> Option<nat>
    decreases keys.len(),
{
    if keys.len() == 0 {
        None
    } else if keys[0] == id {
        Some(0)
    } else {
        match first_key(keys.drop_first(), id) {
            Some(k) => Some(k + 1),
            None => None,
        }
    }
}

pub proof fn lemma_first_key(keys: Seq<Seq<char>>, id: Seq<char>)
    ensures
        match first_key(keys, id) {
            Some(k) => k < keys.len() && keys[k as int] == id && forall|j: int|
                0 <= j < k ==> keys[j] != id,
            None => forall|j: int| 0 <= j < keys.len() ==> keys[j] != id,
        },
    decreases keys.len(),
{
    if keys.len() > 0 && keys[0] != id {
        lemma_first_key(keys.drop_first(), id);
        assert forall|j: int| 0 < j < keys.len() implies keys[j] == keys.drop_first()[j - 1] by {}
    }
}

pub proof fn lemma_first_key_is(keys: Seq<Seq<char>>, id: Seq<char>, k: int)
    requires
        0 <= k < keys.len(),
        keys[k] == id,
        forall|j: int| 0 <= j < k ==> keys[j] != id,
    ensures
        first_key(keys, id) == Some(k as nat),
{
    lemma_first_key(keys, id);
    match first_key(keys, id) {
        Some(m) => {
            if (m as int) > k {
                assert(keys[k] != id);
            }
        },
        None => {
            assert(keys[k] != id);
        },
    }
}

pub open spec fn chapter_ids(s: Seq<ChapterMeta>) -> Seq<Seq<char>> {
    Seq::new(s.len(), |i: int| s[i].id@)
}

pub open spec fn volume_ids(s: Seq<Volume>) -> Seq<Seq<char>> {
    Seq::new(s.len(), |i: int| s[i].id@)
}

pub open spec fn character_ids(s: Seq<Character>) -> Seq<Seq<char>> {
    Seq::new(s.len(), |i: int| s[i].id@)
}

pub open spec fn location_ids(s: Seq<Location>) -> Seq<Seq<char>> {
    Seq::new(s.len(), |i: int| s[i].id@)
}

// ---------------------------------------------------------------------------
// The flat chapter list
// ---------------------------------------------------------------------------

/// All chapters of `vols`, volume after volume.
pub open spec fn all_chapters(vols: Seq<Volume>) -> Seq<ChapterMeta>
    decreases vols.len(),
{
    if vols.len() == 0 {
        Seq::empty()
    } else {
        all_chapters(vols.drop_last()) + vols.last().chapters@
    }
}

pub proof fn lemma_all_chapters_concat(a: Seq<Volume>, b: Seq<Volume>)
    ensures
        all_chapters(a + b) == all_chapters(a) + all_chapters(b),
    decreases b.len(),
{
    if b.len() == 0 {
        assert(a + b =~= a);
        assert(all_chapters(a) + all_chapters(b) =~= all_chapters(a));
    } else {
        lemma_all_chapters_concat(a, b.drop_last());
        assert((a + b).drop_last() =~= a + b.drop_last());
        assert(all_chapters(a + b) =~= all_chapters(a) + all_chapters(b));
    }
}

pub proof fn lemma_all_chapters_take(vols: Seq<Volume>, i: int)
    requires
        0 <= i < vols.len(),
    ensures
        all_chapters(vols.take(i + 1)) == all_chapters(vols.take(i)) + vols[i].chapters@,
{
    assert(vols.take(i + 1).drop_last() =~= vols.take(i));
}

/// The chapters before volume `i` form a prefix of the flat list, followed by
/// the chapters of volume `i`.
pub proof fn lemma_all_chapters_split(vols: Seq<Volume>, i: int)
    requires
        0 <= i < vols.len(),
    ensures
        all_chapters(vols) == all_chapters(vols.take(i)) + vols[i].chapters@ + all_chapters(
            vols.skip(i + 1),
        ),
{
    lemma_all_chapters_take(vols, i);
    assert(vols =~= vols.take(i + 1) + vols.skip(i + 1));
    lemma_all_chapters_concat(vols.take(i + 1), vols.skip(i + 1));
}

/// The sum of the word counts of `cs`.
pub open spec fn chapter_words(cs: Seq<ChapterMeta>) -> int
    decreases cs.len(),
{
    if cs.len() == 0 {
        0
    } else {
        chapter_words(cs.drop_last()) + cs.last().words
    }
}

/// The sum of the word counts of all chapters of `vols`.
pub open spec fn volume_words(vols: Seq<Volume>) -> int
    decreases vols.len(),
{
    if vols.len() == 0 {
        0
    } else {
        volume_words(vols.drop_last()) + chapter_words(vols.last().chapters@)
    }
}

pub proof fn lemma_chapter_words_concat(a: Seq<ChapterMeta>, b: Seq<ChapterMeta>)
    ensures
        chapter_words(a + b) == chapter_words(a) + chapter_words(b),
    decreases b.len(),
{
    if b.len() == 0 {
        assert(a + b =~= a);
    } else {
        lemma_chapter_words_concat(a, b.drop_last());
        assert((a + b).drop_last() =~= a + b.drop_last());
    }
}

/// Counting by volume and counting the flat list agree.
pub proof fn lemma_volume_words_flat(vols: Seq<Volume>)
    ensures
        volume_words(vols) == chapter_words(all_chapters(vols)),
    decreases vols.len(),
{
    if vols.len() > 0 {
        lemma_volume_words_flat(vols.drop_last());
        lemma_chapter_words_concat(all_chapters(vols.drop_last()), vols.last().chapters@);
    }
}

pub proof fn lemma_chapter_words_nonneg(cs: Seq<ChapterMeta>)
    ensures
        chapter_words(cs) >= 0,
        forall|k: int| 0 <= k <= cs.len() ==> chapter_words(#[trigger] cs.take(k)) <= chapter_words(cs),
    decreases cs.len(),
{
    if cs.len() > 0 {
        lemma_chapter_words_nonneg(cs.drop_last());
        assert forall|k: int| 0 <= k <= cs.len() implies chapter_words(#[trigger] cs.take(k))
            <= chapter_words(cs) by {
            if k < cs.len() {
                assert(cs.take(k) =~= cs.drop_last().take(k));
            } else {
                assert(cs.take(k) =~= cs);
            }
        }
    }
}

/// The first chapter with id `cid`, in volume order.
pub open spec fn chapter_with_id(vols: Seq<Volume>, cid: Seq<char>) -> Option<ChapterMeta> {
    match first_key(chapter_ids(all_chapters(vols)), cid) {
        Some(k) => Some(all_chapters(vols)[k as int]),
        None => None,
    }
}

/// Some chapter of `vols` has id `cid`.
pub open spec fn has_chapter(vols: Seq<Volume>, cid: Seq<char>) -> bool {
    exists|k: int| 0 <= k < all_chapters(vols).len() && (#[trigger] all_chapters(vols)[k]).id@ == cid
}

/// The first volume holding a chapter with id `cid`.
pub open spec fn first_volume_holding(vols: Seq<Volume>, cid: Seq<char>) -> Option<nat>
    decreases vols.len(),
{
    if vols.len() == 0 {
        None
    } else if first_key(chapter_ids(vols[0].chapters@), cid) is Some {
        Some(0)
    } else {
        match first_volume_holding(vols.drop_first(), cid) {
            Some(k) => Some(k + 1),
            None => None,
        }
    }
}

// ---------------------------------------------------------------------------
// Whole-novel predicates used by the contracts
// ---------------------------------------------------------------------------

/// The parts of `n` other than its metadata and volumes are those of `o`.
pub open spec fn same_except_meta_volumes(o: Novel, n: Novel) -> bool {
    &&& n.outline == o.outline
    &&& n.characters == o.characters
    &&& n.locations == o.locations
    &&& n.timeline == o.timeline
    &&& n.tasks == o.tasks
    &&& n.chains == o.chains
    &&& n.stats == o.stats
    &&& n.ai_summary == o.ai_summary
}

/// `m` is `o` with only its chapter count changed.
pub open spec fn meta_same_but_count(o: NovelMeta, m: NovelMeta) -> bool {
    &&& m.id == o.id
    &&& m.title == o.title
    &&& m.author == o.author
    &&& m.description == o.description
    &&& m.genre == o.genre
    &&& m.created_at == o.created_at
    &&& m.updated_at == o.updated_at
    &&& m.total_words == o.total_words
}

/// The title given to a new novel asked for with `title`.
pub open spec fn novel_title(title: Seq<char>) -> Seq<char> {
    if trim(title).len() == 0 {
        UNTITLED@
    } else {
        trim(title)
    }
}

/// The volume that receives a new chapter asked for in volume `vid`: the first
/// volume with that id, else (`None`) the last volume, created first when there is none.
pub open spec fn target_volume(vols: Seq<Volume>, vid: Option<Seq<char>>) -> Option<nat> {
    match vid {
        Some(v) => first_key(volume_ids(vols), v),
        None => None,
    }
}

/// `n` is `o` after adding, in the volume chosen by [`target_volume`], a chapter
/// with id `cid`, the trimmed `title`, no words, and time `ts`.
pub open spec fn chapter_added(
    o: Novel,
    n: Novel,
    vid: Option<Seq<char>>,
    title: Seq<char>,
    cid: Seq<char>,
) -> bool {
    let ch = |c: ChapterMeta| c.id@ == cid && c.title@ == trim(title) && c.words == 0;
    &&& same_except_meta_volumes(o, n)
    &&& meta_same_but_count(o.meta, n.meta)
    &&& n.meta.chapter_count == o.meta.chapter_count + 1
    &&& match target_volume(o.volumes@, vid) {
        Some(k) => {
            &&& n.volumes@.len() == o.volumes@.len()
            &&& forall|i: int| 0 <= i < o.volumes@.len() && i != k ==> n.volumes@[i] == o.volumes@[i]
            &&& n.volumes@[k as int].id == o.volumes@[k as int].id
            &&& n.volumes@[k as int].title == o.volumes@[k as int].title
            &&& n.volumes@[k as int].chapters@.drop_last() == o.volumes@[k as int].chapters@
            &&& n.volumes@[k as int].chapters@.len() == o.volumes@[k as int].chapters@.len() + 1
            &&& ch(n.volumes@[k as int].chapters@.last())
        },
        None => if o.volumes@.len() == 0 {
            &&& n.volumes@.len() == 1
            &&& n.volumes@[0].title@ == MAIN_VOLUME@
            &&& n.volumes@[0].chapters@.len() == 1
            &&& ch(n.volumes@[0].chapters@[0])
        } else {
            let k = o.volumes@.len() - 1;
            &&& n.volumes@.len() == o.volumes@.len()
            &&& forall|i: int| 0 <= i < k ==> n.volumes@[i] == o.volumes@[i]
            &&& n.volumes@[k].id == o.volumes@[k].id
            &&& n.volumes@[k].title == o.volumes@[k].title
            &&& n.volumes@[k].chapters@.drop_last() == o.volumes@[k].chapters@
            &&& n.volumes@[k].chapters@.len() == o.volumes@[k].chapters@.len() + 1
            &&& ch(n.volumes@[k].chapters@.last())
        },
    }
}

/// A chapter other than `cid` is kept.
pub open spec fn keeps_chapter(c: ChapterMeta, cid: Seq<char>) -> bool {
    c.id@ != cid
}

/// The chapters of `v` that are not `cid`.
pub open spec fn chapters_without(cs: Seq<ChapterMeta>, cid: Seq<char>) -> Seq<ChapterMeta>
    decreases cs.len(),
{
    if cs.len() == 0 {
        Seq::empty()
    } else {
        let rest = chapters_without(cs.drop_last(), cid);
        if keeps_chapter(cs.last(), cid) {
            rest.push(cs.last())
        } else {
            rest
        }
    }
}

/// After removing chapter `cid`, a volume stays unless it became empty and is
/// titled [`MAIN_VOLUME`].
pub open spec fn keeps_volume(v: Volume, cid: Seq<char>) -> bool {
    chapters_without(v.chapters@, cid).len() > 0 || v.title@ != MAIN_VOLUME@
}

/// The volumes of `vols` that stay after removing chapter `cid`, each with its
/// chapters `cid` removed.
pub open spec fn volumes_without(vols: Seq<Volume>, cid: Seq<char>) -> Seq<(String, String, Seq<ChapterMeta>)>
    decreases vols.len(),
{
    if vols.len() == 0 {
        Seq::empty()
    } else {
        let rest = volumes_without(vols.drop_last(), cid);
        let v = vols.last();
        if keeps_volume(v, cid) {
            rest.push((v.id, v.title, chapters_without(v.chapters@, cid)))
        } else {
            rest
        }
    }
}

/// The shape of `vols`: id, title and chapters of each volume.
pub open spec fn volume_shapes(vols: Seq<Volume>) -> Seq<(String, String, Seq<ChapterMeta>)> {
    Seq::new(vols.len(), |i: int| (vols[i].id, vols[i].title, vols[i].chapters@))
}

/// An event stays when it is not linked to chapter `cid`.
pub open spec fn keeps_event(e: TimelineEvent, cid: Seq<char>) -> bool {
    match e.chapter_id {
        Some(c) => c@ != cid,
        None => true,
    }
}

pub open spec fn events_without(es: Seq<TimelineEvent>, cid: Seq<char>) -> Seq<TimelineEvent>
    decreases es.len(),
{
    if es.len() == 0 {
        Seq::empty()
    } else {
        let rest = events_without(es.drop_last(), cid);
        if keeps_event(es.last(), cid) {
            rest.push(es.last())
        } else {
            rest
        }
    }
}

// ---------------------------------------------------------------------------
// Operations
// ---------------------------------------------------------------------------

impl ChapterMeta {
    /// A copy of this entry.
    pub fn duplicate(&self) -> (r: ChapterMeta)
        ensures
            r == *self,
    {
        ChapterMeta {
            id: self.id.clone(),
            title: self.title.clone(),
            words: self.words,
            updated_at: self.updated_at,
        }
    }
}

impl Novel {
    /// A new, empty novel; the texts are trimmed, and an empty title becomes
    /// [`UNTITLED`].
    pub fn new(title: &str, author: &str, description: &str, genre: &str) -> (r: Novel)
        ensures
            id_shaped(r.meta.id@),
            r.meta.title@ == novel_title(title@),
            r.meta.author@ == trim(author@),
            r.meta.description@ == trim(description@),
            r.meta.genre@ == trim(genre@),
            r.meta.created_at == r.meta.updated_at,
            r.meta.total_words == 0,
            r.meta.chapter_count == 0,
            r.volumes@.len() == 0,
            r.outline@.len() == 0,
            r.characters@.len() == 0,
            r.locations@.len() == 0,
            r.timeline@.len() == 0,
            r.tasks@.len() == 0,
            r.chains@.len() == 0,
            r.stats@.len() == 0,
            r.ai_summary@.len() == 0,
    {
        let ts = now_ts();
        let mut t = trim_string(title);
        if t.as_str().is_empty() {
            t = UNTITLED.to_owned();
        }
        let meta = NovelMeta {
            id: new_id(),
            title: t,
            author: trim_string(author),
            description: trim_string(description),
            genre: trim_string(genre),
            created_at: ts,
            updated_at: ts,
            total_words: 0,
            chapter_count: 0,
        };
        Novel {
            meta,
            volumes: Vec::new(),
            outline: Vec::new(),
            characters: Vec::new(),
            locations: Vec::new(),
            timeline: Vec::new(),
            tasks: Vec::new(),
            chains: Vec::new(),
            stats: Vec::new(),
            ai_summary: String::new(),
        }
    }

    /// All chapters, volume after volume.
    pub fn chapters_all(&self) -> (r: Vec<&ChapterMeta>)
        ensures
            r@.len() == all_chapters(self.volumes@).len(),
            forall|k: int| 0 <= k < r@.len() ==> *r@[k] == all_chapters(self.volumes@)[k],
    {
        let mut r: Vec<&ChapterMeta> = Vec::new();
        let mut i: usize = 0;
        while i < self.volumes.len()
            invariant
                i <= self.volumes.len(),
                r@.len() == all_chapters(self.volumes@.take(i as int)).len(),
                forall|k: int|
                    0 <= k < r@.len() ==> *r@[k] == all_chapters(self.volumes@.take(i as int))[k],
            decreases self.volumes.len() - i,
        {
            let v = &self.volumes[i];
            let ghost before = all_chapters(self.volumes@.take(i as int));
            let mut j: usize = 0;
            while j < v.chapters.len()
                invariant
                    j <= v.chapters.len(),
                    r@.len() == before.len() + j,
                    forall|k: int| 0 <= k < before.len() ==> *r@[k] == before[k],
                    forall|k: int| 0 <= k < j ==> *r@[before.len() + k] == v.chapters@[k],
                decreases v.chapters.len() - j,
            {
                r.push(&v.chapters[j]);
                j = j + 1;
            }
            proof {
                lemma_all_chapters_take(self.volumes@, i as int);
                let after = all_chapters(self.volumes@.take(i + 1));
                assert forall|k: int| 0 <= k < r@.len() implies *r@[k] == after[k] by {
                    if k >= before.len() {
                        assert(*r@[before.len() + (k - before.len())] == v.chapters@[k - before.len()]);
                    }
                }
            }
            i = i + 1;
        }
        assert(self.volumes@.take(self.volumes.len() as int) =~= self.volumes@);
        r
    }

    /// The position `(volume, chapter)` of the first chapter with id `cid`.
    fn locate_chapter(&self, cid: &str) -> (r: Option<(usize, usize)>)
        ensures
            match r {
                Some((vi, ci)) => {
                    &&& vi < self.volumes.len()
                    &&& ci < self.volumes@[vi as int].chapters.len()
                    &&& first_key(chapter_ids(all_chapters(self.volumes@)), cid@) == Some(
                        (all_chapters(self.volumes@.take(vi as int)).len() + ci) as nat,
                    )
                },
                None => first_key(chapter_ids(all_chapters(self.volumes@)), cid@) is None,
            },
    {
        let mut i: usize = 0;
        while i < self.volumes.len()
            invariant
                i <= self.volumes.len(),
                forall|k: int|
                    0 <= k < all_chapters(self.volumes@.take(i as int)).len() ==> (
                    #[trigger] all_chapters(self.volumes@.take(i as int))[k]).id@ != cid@,
            decreases self.volumes.len() - i,
        {
            let ghost before = all_chapters(self.volumes@.take(i as int));
            let mut j: usize = 0;
            while j < self.volumes[i].chapters.len()
                invariant
                    i < self.volumes.len(),
                    j <= self.volumes[i as int].chapters.len(),
                    before == all_chapters(self.volumes@.take(i as int)),
                    forall|k: int| 0 <= k < before.len() ==> (#[trigger] before[k]).id@ != cid@,
                    forall|k: int| 0 <= k < j ==> (#[trigger] self.volumes@[i as int].chapters@[k]).id@ != cid@,
                decreases self.volumes[i as int].chapters.len() - j,
            {
                if str_eq(self.volumes[i].chapters[j].id.as_str(), cid) {
                    proof {
                        let flat = all_chapters(self.volumes@);
                        lemma_all_chapters_split(self.volumes@, i as int);
                        let idx = before.len() + j;
                        assert(flat[idx] == self.volumes@[i as int].chapters@[j as int]);
                        assert forall|k: int| 0 <= k < idx implies chapter_ids(flat)[k] != cid@ by {
                            if k < before.len() {
                                assert(flat[k] == before[k]);
                            } else {
                                assert(flat[k] == self.volumes@[i as int].chapters@[k - before.len()]);
                            }
                        }
                        lemma_first_key_is(chapter_ids(flat), cid@, idx);
                    }
                    return Some((i, j));
                }
                j = j + 1;
            }
            proof {
                lemma_all_chapters_take(self.volumes@, i as int);
                let after = all_chapters(self.volumes@.take(i + 1));
                assert forall|k: int| 0 <= k < after.len() implies (#[trigger] after[k]).id@ != cid@ by {
                    if k >= before.len() {
                        assert(after[k] == self.volumes@[i as int].chapters@[k - before.len()]);
                    } else {
                        assert(after[k] == before[k]);
                    }
                }
            }
            i = i + 1;
        }
        proof {
            assert(self.volumes@.take(self.volumes.len() as int) =~= self.volumes@);
            let flat = all_chapters(self.volumes@);
            lemma_first_key(chapter_ids(flat), cid@);
            if first_key(chapter_ids(flat), cid@) is Some {
                let k = first_key(chapter_ids(flat), cid@)->0 as int;
                assert(chapter_ids(flat)[k] == flat[k].id@);
            }
        }
        None
    }

    /// The first chapter with id `cid`.
    pub fn find_chapter(&self, cid: &str) -> (r: Option<&ChapterMeta>)
        ensures
            match chapter_with_id(self.volumes@, cid@) {
                Some(c) => r is Some && *r->0 == c,
                None => r is None,
            },
    {
        match self.locate_chapter(cid) {
            Some((vi, ci)) => {
                proof {
                    lemma_all_chapters_split(self.volumes@, vi as int);
                    let before = all_chapters(self.volumes@.take(vi as int));
                    assert(all_chapters(self.volumes@)[before.len() + ci] == self.volumes@[vi as int].chapters@[ci as int]);
                }
                Some(&self.volumes[vi].chapters[ci])
            },
            None => None,
        }
    }

    /// The first chapter with id `cid`, for editing in place.
    pub fn find_chapter_mut(&mut self, cid: &str) -> (r: Option<&mut ChapterMeta>)
        ensures
            match chapter_with_id(old(self).volumes@, cid@) {
                Some(c) => r matches Some(x) && *x == c && exists|vi: int, ci: int|
                    0 <= vi < old(self).volumes@.len() && 0 <= ci < old(self).volumes@[vi].chapters@.len()
                    && old(self).volumes@[vi].chapters@[ci] == c
                    && first_key(chapter_ids(all_chapters(old(self).volumes@)), cid@) == Some(
                        (all_chapters(old(self).volumes@.take(vi)).len() + ci) as nat)
                    && final(self).volumes@ == old(self).volumes@.update(vi, Volume {
                        id: old(self).volumes@[vi].id,
                        title: old(self).volumes@[vi].title,
                        chapters: final(self).volumes@[vi].chapters,
                    })
                    && final(self).volumes@[vi].chapters@ == old(self).volumes@[vi].chapters@.update(ci, *final(x))
                    && final(self).meta == old(self).meta
                    && same_except_meta_volumes(*old(self), *final(self)),
                None => r is None && *final(self) == *old(self),
            },
    {
        match self.locate_chapter(cid) {
            Some((vi, ci)) => {
                proof {
                    lemma_all_chapters_split(self.volumes@, vi as int);
                    let before = all_chapters(self.volumes@.take(vi as int));
                    assert(all_chapters(self.volumes@)[before.len() + ci] == self.volumes@[vi as int].chapters@[ci as int]);
                }
                Some(&mut self.volumes[vi].chapters[ci])
            },
            None => None,
        }
    }

    /// Whether volume `v` holds a chapter with id `cid`.
    fn volume_holds(v: &Volume, cid: &str) -> (r: bool)
        ensures
            r == (first_key(chapter_ids(v.chapters@), cid@) is Some),
    {
        let mut j: usize = 0;
        while j < v.chapters.len()
            invariant
                j <= v.chapters.len(),
                forall|k: int| 0 <= k < j ==> chapter_ids(v.chapters@)[k] != cid@,
            decreases v.chapters.len() - j,
        {
            if str_eq(v.chapters[j].id.as_str(), cid) {
                proof {
                    lemma_first_key_is(chapter_ids(v.chapters@), cid@, j as int);
                }
                return true;
            }
            j = j + 1;
        }
        proof {
            lemma_first_key(chapter_ids(v.chapters@), cid@);
        }
        false
    }

    /// The first volume holding a chapter with id `cid`.
    pub fn volume_of_chapter(&self, cid: &str) -> (r: Option<&Volume>)
        ensures
            match first_volume_holding(self.volumes@, cid@) {
                Some(k) => r is Some && k < self.volumes@.len() && *r->0 == self.volumes@[k as int],
                None => r is None,
            },
    {
        let mut i: usize = 0;
        assert(self.volumes@.skip(0) =~= self.volumes@);
        while i < self.volumes.len()
            invariant
                i <= self.volumes.len(),
                first_volume_holding(self.volumes@, cid@) == match first_volume_holding(
                    self.volumes@.skip(i as int),
                    cid@,
                ) {
                    Some(k) => Some((k + i) as nat),
                    None => None,
                },
            decreases self.volumes.len() - i,
        {
            let v = &self.volumes[i];
            let found = Self::volume_holds(v, cid);
            proof {
                assert(self.volumes@.skip(i as int)[0] == self.volumes@[i as int]);
                assert(self.volumes@.skip(i as int).drop_first() =~= self.volumes@.skip(i + 1));
            }
            if found {
                return Some(v);
            }
            i = i + 1;
        }
        None
    }

    /// The first character with id `id`.
    pub fn find_character(&self, id: &str) -> (r: Option<&Character>)
        ensures
            match first_key(character_ids(self.characters@), id@) {
                Some(k) => r is Some && k < self.characters@.len() && *r->0 == self.characters@[k as int],
                None => r is None,
            },
    {
        match self.character_pos(id) {
            Some(k) => Some(&self.characters[k]),
            None => None,
        }
    }

    pub(crate) fn character_pos(&self, id: &str) -> (r: Option<usize>)
        ensures
            match r {
                Some(k) => k < self.characters.len() && first_key(character_ids(self.characters@), id@) == Some(k as nat),
                None => first_key(character_ids(self.characters@), id@) is None,
            },
    {
        let mut i: usize = 0;
        while i < self.characters.len()
            invariant
                i <= self.characters.len(),
                forall|k: int| 0 <= k < i ==> character_ids(self.characters@)[k] != id@,
            decreases self.characters.len() - i,
        {
            if str_eq(self.characters[i].id.as_str(), id) {
                proof {
                    lemma_first_key_is(character_ids(self.characters@), id@, i as int);
                }
                return Some(i);
            }
            i = i + 1;
        }
        proof {
            lemma_first_key(character_ids(self.characters@), id@);
        }
        None
    }

    /// The first character with id `id`, for editing in place.
    pub fn find_character_mut(&mut self, id: &str) -> (r: Option<&mut Character>)
        ensures
            match first_key(character_ids(old(self).characters@), id@) {
                Some(k) => r matches Some(x) && k < old(self).characters@.len() && *x == old(self).characters@[k as int]
                    && final(self).characters@ == old(self).characters@.update(k as int, *final(x))
                    && final(self).meta == old(self).meta && final(self).volumes == old(self).volumes
                    && final(self).outline == old(self).outline && final(self).locations == old(self).locations
                    && final(self).timeline == old(self).timeline && final(self).tasks == old(self).tasks
                    && final(self).chains == old(self).chains && final(self).stats == old(self).stats
                    && final(self).ai_summary == old(self).ai_summary,
                None => r is None && *final(self) == *old(self),
            },
    {
        match self.character_pos(id) {
            Some(k) => Some(&mut self.characters[k]),
            None => None,
        }
    }

    fn location_pos(&self, id: &str) -> (r: Option<usize>)
        ensures
            match r {
                Some(k) => k < self.locations.len() && first_key(location_ids(self.locations@), id@) == Some(k as nat),
                None => first_key(location_ids(self.locations@), id@) is None,
            },
    {
        let mut i: usize = 0;
        while i < self.locations.len()
            invariant
                i <= self.locations.len(),
                forall|k: int| 0 <= k < i ==> location_ids(self.locations@)[k] != id@,
            decreases self.locations.len() - i,
        {
            if str_eq(self.locations[i].id.as_str(), id) {
                proof {
                    lemma_first_key_is(location_ids(self.locations@), id@, i as int);
                }
                return Some(i);
            }
            i = i + 1;
        }
        proof {
            lemma_first_key(location_ids(self.locations@), id@);
        }
        None
    }

    /// The first location with id `id`.
    pub fn find_location(&self, id: &str) -> (r: Option<&Location>)
        ensures
            match first_key(location_ids(self.locations@), id@) {
                Some(k) => r is Some && k < self.locations@.len() && *r->0 == self.locations@[k as int],
                None => r is None,
            },
    {
        match self.location_pos(id) {
            Some(k) => Some(&self.locations[k]),
            None => None,
        }
    }

    /// The first location with id `id`, for editing in place.
    pub fn find_location_mut(&mut self, id: &str) -> (r: Option<&mut Location>)
        ensures
            match first_key(location_ids(old(self).locations@), id@) {
                Some(k) => r matches Some(x) && k < old(self).locations@.len() && *x == old(self).locations@[k as int]
                    && final(self).locations@ == old(self).locations@.update(k as int, *final(x))
                    && final(self).meta == old(self).meta && final(self).volumes == old(self).volumes
                    && final(self).outline == old(self).outline && final(self).characters == old(self).characters
                    && final(self).timeline == old(self).timeline && final(self).tasks == old(self).tasks
                    && final(self).chains == old(self).chains && final(self).stats == old(self).stats
                    && final(self).ai_summary == old(self).ai_summary,
                None => r is None && *final(self) == *old(self),
            },
    {
        match self.location_pos(id) {
            Some(k) => Some(&mut self.locations[k]),
            None => None,
        }
    }

    /// Appends an empty volume with a fresh id and the trimmed `title`.
    pub fn add_volume(&mut self, title: &str)
        ensures
            final(self).volumes@.len() == old(self).volumes@.len() + 1,
            final(self).volumes@.drop_last() == old(self).volumes@,
            id_shaped(final(self).volumes@.last().id@),
            final(self).volumes@.last().title@ == trim(title@),
            final(self).volumes@.last().chapters@.len() == 0,
            final(self).meta == old(self).meta,
            same_except_meta_volumes(*old(self), *final(self)),
    {
        let v = Volume { id: new_id(), title: trim_string(title), chapters: Vec::new() };
        self.volumes.push(v);
    }

    /// The position of the first volume with id `vid`.
    fn volume_pos(&self, vid: &str) -> (r: Option<usize>)
        ensures
            match r {
                Some(k) => k < self.volumes.len() && first_key(volume_ids(self.volumes@), vid@) == Some(k as nat),
                None => first_key(volume_ids(self.volumes@), vid@) is None,
            },
    {
        let mut i: usize = 0;
        while i < self.volumes.len()
            invariant
                i <= self.volumes.len(),
                forall|k: int| 0 <= k < i ==> volume_ids(self.volumes@)[k] != vid@,
            decreases self.volumes.len() - i,
        {
            if str_eq(self.volumes[i].id.as_str(), vid) {
                proof {
                    lemma_first_key_is(volume_ids(self.volumes@), vid@, i as int);
                }
                return Some(i);
            }
            i = i + 1;
        }
        proof {
            lemma_first_key(volume_ids(self.volumes@), vid@);
        }
        None
    }

    /// Adds a chapter with a fresh id and the trimmed `title` to volume `vid`
    /// (its first volume with that id), else to the last volume, creating a
    /// [`MAIN_VOLUME`] volume first when there is none. Returns the new id.
    pub fn add_chapter(&mut self, vid: Option<&str>, title: &str) -> (cid: String)
        requires
            old(self).meta.chapter_count < u32::MAX,
        ensures
            id_shaped(cid@),
            chapter_added(
                *old(self),
                *final(self),
                match vid {
                    Some(v) => Some(v@),
                    None => None,
                },
                title@,
                cid@,
            ),
    {
        let cid = new_id();
        let meta = ChapterMeta {
            id: cid.clone(),
            title: trim_string(title),
            words: 0,
            updated_at: now_ts(),
        };
        let target = match vid {
            Some(v) => self.volume_pos(v),
            None => None,
        };
        match target {
            Some(k) => {
                self.volumes[k].chapters.push(meta);
            },
            None => {
                if self.volumes.len() == 0 {
                    self.volumes.push(
                        Volume { id: new_id(), title: MAIN_VOLUME.to_owned(), chapters: Vec::new() },
                    );
                }
                let last = self.volumes.len() - 1;
                self.volumes[last].chapters.push(meta);
            },
        }
        self.meta.chapter_count = self.meta.chapter_count + 1;
        proof {
            let ghost vv: Option<Seq<char>> = match vid {
                Some(v) => Some(v@),
                None => None,
            };
            assert(target_volume(old(self).volumes@, vv) == match target {
                Some(k) => Some(k as nat),
                None => None::<nat>,
            });
            match target {
                Some(k) => {
                    assert(self.volumes@[k as int].chapters@.drop_last() =~= old(self).volumes@[k as int].chapters@);
                },
                None => {
                    let k = self.volumes@.len() - 1;
                    if old(self).volumes@.len() > 0 {
                        assert(self.volumes@[k].chapters@.drop_last() =~= old(self).volumes@[k].chapters@);
                    }
                },
            }
        }
        cid
    }

    /// The sum of the word counts of all chapters.
    pub fn total_words(&self) -> (n: u64)
        requires
            chapter_words(all_chapters(self.volumes@)) <= u64::MAX,
        ensures
            n == chapter_words(all_chapters(self.volumes@)),
            n == volume_words(self.volumes@),
    {
        let all = self.chapters_all();
        let ghost flat = all_chapters(self.volumes@);
        let mut n: u64 = 0;
        let mut k: usize = 0;
        proof {
            lemma_chapter_words_nonneg(flat);
            lemma_volume_words_flat(self.volumes@);
            assert(flat.take(0) =~= Seq::<ChapterMeta>::empty());
        }
        while k < all.len()
            invariant
                k <= all.len() == flat.len(),
                forall|j: int| 0 <= j < all@.len() ==> *all@[j] == flat[j],
                n == chapter_words(flat.take(k as int)),
                forall|j: int| 0 <= j <= flat.len() ==> chapter_words(#[trigger] flat.take(j)) <= chapter_words(flat),
                chapter_words(flat) <= u64::MAX,
            decreases all.len() - k,
        {
            assert(flat.take(k + 1).drop_last() =~= flat.take(k as int));
            assert(chapter_words(flat.take(k + 1)) <= chapter_words(flat));
            n = n + all[k].words;
            k = k + 1;
        }
        assert(flat.take(flat.len() as int) =~= flat);
        n
    }

    /// Rebuilds a default volume from the chapter list when the novel has no
    /// volume but has chapters. Chapters live only inside volumes, so a novel
    /// without volumes has no chapters and nothing changes.
    pub fn sync_from_chapters(&mut self)
        ensures
            *final(self) == *old(self),
    {
        let empty_vols = self.volumes.len() == 0;
        if empty_vols && self.chapters_all().len() > 0 {
            // Unreachable: without volumes the chapter list is empty.
            assert(false);
            let all = self.chapters_all();
            let mut chs: Vec<ChapterMeta> = Vec::new();
            let mut k: usize = 0;
            while k < all.len()
                decreases all.len() - k,
            {
                chs.push(all[k].duplicate());
                k = k + 1;
            }
            let v = Volume { id: new_id(), title: MAIN_VOLUME.to_owned(), chapters: chs };
            self.volumes.push(v);
        }
    }

    /// Removes chapter `cid` from every volume, drops the [`MAIN_VOLUME`] volumes
    /// left empty, recounts the chapters and unlinks the timeline events tied to it.
    pub fn delete_chapter(&mut self, cid: &str)
        ensures
            volume_shapes(final(self).volumes@) == volumes_without(old(self).volumes@, cid@),
            final(self).meta.chapter_count == all_chapters(final(self).volumes@).len() as u32,
            final(self).timeline@ == events_without(old(self).timeline@, cid@),
            final(self).meta.id == old(self).meta.id,
            final(self).meta.title == old(self).meta.title,
            final(self).meta.author == old(self).meta.author,
            final(self).meta.description == old(self).meta.description,
            final(self).meta.genre == old(self).meta.genre,
            final(self).meta.created_at == old(self).meta.created_at,
            final(self).meta.updated_at == old(self).meta.updated_at,
            final(self).meta.total_words == old(self).meta.total_words,
            final(self).outline == old(self).outline,
            final(self).characters == old(self).characters,
            final(self).locations == old(self).locations,
            final(self).tasks == old(self).tasks,
            final(self).chains == old(self).chains,
            final(self).stats == old(self).stats,
            final(self).ai_summary == old(self).ai_summary,
    {
        let mut new_vols: Vec<Volume> = Vec::new();
        let mut i: usize = 0;
        assert(volume_shapes(new_vols@) =~= Seq::empty());
        assert(self.volumes@.take(0) =~= Seq::<Volume>::empty());
        while i < self.volumes.len()
            invariant
                i <= self.volumes.len(),
                *self == *old(self),
                volume_shapes(new_vols@) == volumes_without(self.volumes@.take(i as int), cid@),
            decreases self.volumes.len() - i,
        {
            let v = &self.volumes[i];
            let mut chs: Vec<ChapterMeta> = Vec::new();
            let mut j: usize = 0;
            assert(v.chapters@.take(0) =~= Seq::<ChapterMeta>::empty());
            while j < v.chapters.len()
                invariant
                    j <= v.chapters.len(),
                    chs@ == chapters_without(v.chapters@.take(j as int), cid@),
                decreases v.chapters.len() - j,
            {
                assert(v.chapters@.take(j + 1).drop_last() =~= v.chapters@.take(j as int));
                if !str_eq(v.chapters[j].id.as_str(), cid) {
                    chs.push(v.chapters[j].duplicate());
                }
                j = j + 1;
            }
            assert(v.chapters@.take(v.chapters.len() as int) =~= v.chapters@);
            assert(self.volumes@.take(i + 1).drop_last() =~= self.volumes@.take(i as int));
            if chs.len() > 0 || !str_eq(v.title.as_str(), MAIN_VOLUME) {
                let nv = Volume { id: v.id.clone(), title: v.title.clone(), chapters: chs };
                let ghost before = new_vols@;
                new_vols.push(nv);
                assert(volume_shapes(new_vols@) =~= volume_shapes(before).push(
                    (v.id, v.title, chapters_without(v.chapters@, cid@)),
                ));
            }
            i = i + 1;
        }
        assert(self.volumes@.take(self.volumes.len() as int) =~= self.volumes@);
        self.volumes = new_vols;
        let n = self.chapters_all().len();
        #[verifier::truncate]
        let count = n as u32;
        self.meta.chapter_count = count;

        let mut old_tl: Vec<TimelineEvent> = Vec::new();
        std::mem::swap(&mut old_tl, &mut self.timeline);
        let ghost events = old_tl@;
        let mut kept: Vec<TimelineEvent> = Vec::new();
        assert(events.take(0) =~= Seq::<TimelineEvent>::empty());
        for e in it: old_tl.into_iter()
            invariant
                it.seq() == events,
                kept@ == events_without(events.take(it.index() as int), cid@),
        {
            let ghost idx = it.index();
            assert(events.take(idx + 1).drop_last() =~= events.take(idx as int));
            let keep = match &e.chapter_id {
                Some(c) => !str_eq(c.as_str(), cid),
                None => true,
            };
            if keep {
                kept.push(e);
            }
        }
        assert(events.take(events.len() as int) =~= events);
        self.timeline = kept;
    }
}

// ---------------------------------------------------------------------------
// Reordering chapters and recording saves
// ---------------------------------------------------------------------------

/// `cs` with its first chapter `cid` moved by `delta` places, when the new
/// place is within bounds; unchanged otherwise.
pub open spec fn moved_chapters(cs: Seq<ChapterMeta>, cid: Seq<char>, delta: int) -> Seq<ChapterMeta> {
    match first_key(chapter_ids(cs), cid) {
        Some(k) => if 0 <= k + delta < cs.len() {
            cs.remove(k as int).insert(k + delta, cs[k as int])
        } else {
            cs
        },
        None => cs,
    }
}

/// Chapter `cid` moves within `cs`.
pub open spec fn chapter_moves(cs: Seq<ChapterMeta>, cid: Seq<char>, delta: int) -> bool {
    match first_key(chapter_ids(cs), cid) {
        Some(k) => 0 <= k + delta < cs.len(),
        None => false,
    }
}

/// The days of a statistics table.
pub open spec fn stat_days(stats: Seq<(String, u64)>) -> Seq<Seq<char>> {
    Seq::new(stats.len(), |i: int| stats[i].0@)
}

/// Each day occurs at most once in the table.
pub open spec fn stats_wf(stats: Seq<(String, u64)>) -> bool {
    forall|i: int, j: int|
        0 <= i < j < stats.len() ==> #[trigger] stats[i].0@ != #[trigger] stats[j].0@
}

/// The words recorded for `day` (0 when the day is absent).
pub open spec fn words_on(stats: Seq<(String, u64)>, day: Seq<char>) -> int {
    match first_key(stat_days(stats), day) {
        Some(k) => stats[k as int].1 as int,
        None => 0,
    }
}

/// `n` is `o` with `delta` words added to `day` (a new entry when the day is absent).
pub open spec fn stats_added(o: Seq<(String, u64)>, n: Seq<(String, u64)>, day: Seq<char>, delta: int) -> bool {
    match first_key(stat_days(o), day) {
        Some(k) => n.len() == o.len() && n[k as int].0 == o[k as int].0 && n[k as int].1 == o[k as int].1
            + delta && forall|i: int| 0 <= i < o.len() && i != k ==> n[i] == o[i],
        None => n.len() == o.len() + 1 && n.drop_last() == o && n.last().0@ == day && n.last().1 == delta,
    }
}

/// Updating one chapter inside a volume updates the flat list at its place.
pub proof fn lemma_all_chapters_update(vols: Seq<Volume>, vi: int, ci: int, v2: Volume)
    requires
        0 <= vi < vols.len(),
        0 <= ci < vols[vi].chapters@.len(),
        v2.chapters@.len() == vols[vi].chapters@.len(),
        forall|j: int| 0 <= j < v2.chapters@.len() && j != ci ==> v2.chapters@[j] == vols[vi].chapters@[j],
    ensures
        all_chapters(vols.update(vi, v2)) == all_chapters(vols).update(
            all_chapters(vols.take(vi)).len() + ci,
            v2.chapters@[ci],
        ),
{
    let nv = vols.update(vi, v2);
    lemma_all_chapters_split(vols, vi);
    lemma_all_chapters_split(nv, vi);
    assert(nv.take(vi) =~= vols.take(vi));
    assert(nv.skip(vi + 1) =~= vols.skip(vi + 1));
    let a = all_chapters(vols.take(vi));
    assert(v2.chapters@ =~= vols[vi].chapters@.update(ci, v2.chapters@[ci]));
    assert(all_chapters(nv) =~= all_chapters(vols).update(a.len() + ci, v2.chapters@[ci]));
}

/// Changing one chapter changes the word sum by the difference.
pub proof fn lemma_chapter_words_update(s: Seq<ChapterMeta>, i: int, x: ChapterMeta)
    requires
        0 <= i < s.len(),
    ensures
        chapter_words(s.update(i, x)) == chapter_words(s) - s[i].words + x.words,
    decreases s.len(),
{
    let t = s.update(i, x);
    if i == s.len() - 1 {
        assert(t.drop_last() =~= s.drop_last());
    } else {
        lemma_chapter_words_update(s.drop_last(), i, x);
        assert(t.drop_last() =~= s.drop_last().update(i, x));
    }
}

/// The words a save of `n` words into chapter `cid` adds to the day: what the
/// chapter gains (never negative), or all `n` when there is no such chapter.
pub open spec fn save_gain(vols: Seq<Volume>, cid: Seq<char>, n: int) -> int {
    match chapter_with_id(vols, cid) {
        Some(c) => if n >= c.words { n - c.words } else { 0 },
        None => n,
    }
}

/// The novel's word total once chapter `cid` counts `n` words.
pub open spec fn saved_total(vols: Seq<Volume>, cid: Seq<char>, n: int) -> int {
    match chapter_with_id(vols, cid) {
        Some(c) => chapter_words(all_chapters(vols)) - c.words + n,
        None => chapter_words(all_chapters(vols)),
    }
}

/// Saving a chapter adds to the day only the words it gained: nothing when
/// its count does not grow, the rise when it does; and saving a growing
/// chapter in two steps adds as much as saving the final text at once.
pub proof fn law_saving_adds_only_the_gain(vols: Seq<Volume>, vols2: Seq<Volume>, cid: Seq<char>, n1: int, n2: int)
    requires
        chapter_with_id(vols, cid) is Some,
        chapter_with_id(vols2, cid) matches Some(d) && d.words == n1,
        n1 >= 0,
        n2 >= 0,
    ensures
        ({
            let w0 = chapter_with_id(vols, cid)->0.words as int;
            &&& 0 <= save_gain(vols, cid, n1) <= n1
            &&& n1 <= w0 ==> save_gain(vols, cid, n1) == 0
            &&& n1 >= w0 ==> save_gain(vols, cid, n1) + w0 == n1
            &&& w0 <= n1 <= n2 ==> save_gain(vols, cid, n1) + save_gain(vols2, cid, n2) == save_gain(vols, cid, n2)
        }),
{
}

/// Each volume's id, title and number of chapters.
pub open spec fn volume_heads(vols: Seq<Volume>) -> Seq<(Seq<char>, Seq<char>, nat)> {
    Seq::new(vols.len(), |i: int| (vols[i].id@, vols[i].title@, vols[i].chapters@.len()))
}

impl Novel {
    /// Moves chapter `cid` by `delta` places inside each volume that holds it
    /// (when the new place is within the volume); returns whether a chapter moved.
    pub fn move_chapter(&mut self, cid: &str, delta: i32) -> (moved: bool)
        ensures
            final(self).volumes@.len() == old(self).volumes@.len(),
            forall|i: int|
                0 <= i < old(self).volumes@.len() ==> {
                    &&& (#[trigger] final(self).volumes@[i]).id == old(self).volumes@[i].id
                    &&& final(self).volumes@[i].title == old(self).volumes@[i].title
                    &&& final(self).volumes@[i].chapters@ == moved_chapters(
                        old(self).volumes@[i].chapters@,
                        cid@,
                        delta as int,
                    )
                },
            moved == exists|i: int|
                0 <= i < old(self).volumes@.len() && chapter_moves(
                    #[trigger] old(self).volumes@[i].chapters@,
                    cid@,
                    delta as int,
                ),
            final(self).meta == old(self).meta,
            same_except_meta_volumes(*old(self), *final(self)),
    {
        let mut moved = false;
        let mut i: usize = 0;
        while i < self.volumes.len()
            invariant
                i <= self.volumes.len() == old(self).volumes@.len(),
                self.meta == old(self).meta,
                same_except_meta_volumes(*old(self), *self),
                forall|j: int|
                    0 <= j < old(self).volumes@.len() ==> {
                        &&& (#[trigger] self.volumes@[j]).id == old(self).volumes@[j].id
                        &&& self.volumes@[j].title == old(self).volumes@[j].title
                        &&& self.volumes@[j].chapters@ == if j < i {
                            moved_chapters(old(self).volumes@[j].chapters@, cid@, delta as int)
                        } else {
                            old(self).volumes@[j].chapters@
                        }
                    },
                moved == exists|j: int|
                    0 <= j < i && chapter_moves(#[trigger] old(self).volumes@[j].chapters@, cid@, delta as int),
            decreases self.volumes.len() - i,
        {
            let pos = Self::chapter_pos(&self.volumes[i], cid);
            match pos {
                Some(p) => {
                    let np = p as i128 + delta as i128;
                    if np >= 0 && np < self.volumes[i].chapters.len() as i128 {
                        let c = self.volumes[i].chapters.remove(p);
                        self.volumes[i].chapters.insert(np as usize, c);
                        moved = true;
                    }
                },
                None => {},
            }
            proof {
                assert forall|j: int| 0 <= j < i + 1 && chapter_moves(
                    #[trigger] old(self).volumes@[j].chapters@, cid@, delta as int) implies moved by {
                    if j == i {
                    }
                }
            }
            i = i + 1;
        }
        moved
    }

    /// The position of the first chapter `cid` of volume `v`.
    fn chapter_pos(v: &Volume, cid: &str) -> (r: Option<usize>)
        ensures
            match r {
                Some(k) => k < v.chapters.len() && first_key(chapter_ids(v.chapters@), cid@) == Some(k as nat),
                None => first_key(chapter_ids(v.chapters@), cid@) is None,
            },
    {
        let mut j: usize = 0;
        while j < v.chapters.len()
            invariant
                j <= v.chapters.len(),
                forall|k: int| 0 <= k < j ==> chapter_ids(v.chapters@)[k] != cid@,
            decreases v.chapters.len() - j,
        {
            if str_eq(v.chapters[j].id.as_str(), cid) {
                proof {
                    lemma_first_key_is(chapter_ids(v.chapters@), cid@, j as int);
                }
                return Some(j);
            }
            j = j + 1;
        }
        proof {
            lemma_first_key(chapter_ids(v.chapters@), cid@);
        }
        None
    }

    /// The position of `day` in the statistics table.
    fn stats_pos(&self, day: &str) -> (r: Option<usize>)
        ensures
            match r {
                Some(k) => k < self.stats.len() && first_key(stat_days(self.stats@), day@) == Some(k as nat),
                None => first_key(stat_days(self.stats@), day@) is None,
            },
    {
        let mut j: usize = 0;
        while j < self.stats.len()
            invariant
                j <= self.stats.len(),
                forall|k: int| 0 <= k < j ==> stat_days(self.stats@)[k] != day@,
            decreases self.stats.len() - j,
        {
            if str_eq(self.stats[j].0.as_str(), day) {
                proof {
                    lemma_first_key_is(stat_days(self.stats@), day@, j as int);
                }
                return Some(j);
            }
            j = j + 1;
        }
        proof {
            lemma_first_key(stat_days(self.stats@), day@);
        }
        None
    }

    /// Whether the statistics hold an entry for `day`.
    pub fn has_day(&self, day: &str) -> (r: bool)
        ensures
            r == (first_key(stat_days(self.stats@), day@) is Some),
    {
        self.stats_pos(day).is_some()
    }

    /// The words recorded for `day`.
    pub fn words_on_day(&self, day: &str) -> (n: u64)
        ensures
            n == words_on(self.stats@, day@),
    {
        match self.stats_pos(day) {
            Some(k) => self.stats[k].1,
            None => 0,
        }
    }

    /// Adds `delta` words to the statistics of `day`.
    pub fn add_day_words(&mut self, day: &str, delta: u64)
        requires
            words_on(old(self).stats@, day@) + delta <= u64::MAX,
        ensures
            stats_added(old(self).stats@, final(self).stats@, day@, delta as int),
            words_on(final(self).stats@, day@) == words_on(old(self).stats@, day@) + delta,
            stats_wf(old(self).stats@) ==> stats_wf(final(self).stats@),
            final(self).meta == old(self).meta,
            final(self).volumes == old(self).volumes,
            final(self).outline == old(self).outline,
            final(self).characters == old(self).characters,
            final(self).locations == old(self).locations,
            final(self).timeline == old(self).timeline,
            final(self).tasks == old(self).tasks,
            final(self).chains == old(self).chains,
            final(self).ai_summary == old(self).ai_summary,
    {
        match self.stats_pos(day) {
            Some(k) => {
                let cur = self.stats[k].1;
                self.stats[k].1 = cur + delta;
                proof {
                    assert(forall|i: int| 0 <= i < self.stats@.len() ==> self.stats@[i].0 == old(self).stats@[i].0);
                    assert(stat_days(self.stats@) =~= stat_days(old(self).stats@));
                }
            },
            None => {
                let ghost before = self.stats@;
                self.stats.push((day.to_owned(), delta));
                proof {
                    let days = stat_days(self.stats@);
                    crate::model::lemma_first_key(stat_days(before), day@);
                    assert forall|j: int| 0 <= j < before.len() implies days[j] != day@ by {
                        assert(days[j] == stat_days(before)[j]);
                    }
                    lemma_first_key_is(days, day@, before.len() as int);
                    assert(self.stats@.drop_last() =~= before);
                    assert forall|j: int| 0 <= j < before.len() implies before[j].0@ != day@ by {
                        assert(stat_days(before)[j] == before[j].0@);
                    }
                }
            },
        }
    }

    /// Renames chapter `cid` to the trimmed `title`; a blank title changes
    /// nothing. Returns whether the chapter was renamed. The chapter keeps its
    /// place and everything else.
    pub fn rename_chapter(&mut self, cid: &str, title: &str) -> (renamed: bool)
        ensures
            renamed == (trim(title@).len() > 0 && chapter_with_id(old(self).volumes@, cid@) is Some),
            renamed ==> (chapter_with_id(old(self).volumes@, cid@) matches Some(c) && first_key(
                chapter_ids(all_chapters(old(self).volumes@)),
                cid@,
            ) matches Some(k) && all_chapters(final(self).volumes@) == all_chapters(old(self).volumes@).update(
                k as int,
                ChapterMeta { title: all_chapters(final(self).volumes@)[k as int].title, ..c },
            ) && all_chapters(final(self).volumes@)[k as int].title@ == trim(title@)),
            !renamed ==> *final(self) == *old(self),
            final(self).volumes@.len() == old(self).volumes@.len(),
            final(self).meta == old(self).meta,
            same_except_meta_volumes(*old(self), *final(self)),
    {
        let t = trim_string(title);
        if t.as_str().is_empty() {
            return false;
        }
        let loc = self.locate_chapter(cid);
        let ghost before = *self;
        let ghost flat = all_chapters(self.volumes@);
        match loc {
            Some((vi, ci)) => {
                self.volumes[vi].chapters[ci].title = t;
                proof {
                    let idx = all_chapters(before.volumes@.take(vi as int)).len() + ci;
                    lemma_all_chapters_split(before.volumes@, vi as int);
                    assert(flat[idx] == before.volumes@[vi as int].chapters@[ci as int]);
                    assert(self.volumes@ =~= before.volumes@.update(vi as int, self.volumes@[vi as int]));
                    lemma_all_chapters_update(before.volumes@, vi as int, ci as int, self.volumes@[vi as int]);
                    lemma_first_key(chapter_ids(flat), cid@);
                }
                true
            },
            None => false,
        }
    }

    /// Records the saved text of chapter `cid` written on `day` at time `ts`: the
    /// chapter's word count becomes that of `text`, the words gained (never
    /// negative) are added to the day's statistics, and the novel's total word
    /// count and update time are refreshed. Nothing else changes. Returns the
    /// chapter's new word count.
    pub fn apply_chapter_save(&mut self, cid: &str, text: &str, day: &str, ts: i64) -> (n: u64)
        requires
            words_on(old(self).stats@, day@) + save_gain(old(self).volumes@, cid@, crate::util::words(text@) as int)
                <= u64::MAX,
            saved_total(old(self).volumes@, cid@, crate::util::words(text@) as int) <= u64::MAX,
        ensures
            n == crate::util::words(text@),
            match chapter_with_id(old(self).volumes@, cid@) {
                Some(c) => {
                    &&& chapter_with_id(final(self).volumes@, cid@) matches Some(d) && d.words == n && d.updated_at == ts && d.id == c.id && d.title == c.title
                    &&& first_key(chapter_ids(all_chapters(old(self).volumes@)), cid@) matches Some(k)
                        && all_chapters(final(self).volumes@) == all_chapters(old(self).volumes@).update(
                        k as int,
                        ChapterMeta { words: n, updated_at: ts, ..c },
                    )
                },
                None => final(self).volumes == old(self).volumes,
            },
            volume_heads(final(self).volumes@) == volume_heads(old(self).volumes@),
            stats_added(old(self).stats@, final(self).stats@, day@, save_gain(old(self).volumes@, cid@, n as int)),
            words_on(final(self).stats@, day@) == words_on(old(self).stats@, day@) + save_gain(
                old(self).volumes@,
                cid@,
                n as int,
            ),
            final(self).meta.total_words == chapter_words(all_chapters(final(self).volumes@)),
            final(self).meta.total_words == saved_total(old(self).volumes@, cid@, n as int),
            final(self).meta == (NovelMeta { total_words: final(self).meta.total_words, updated_at: ts, ..old(self).meta }),
            final(self).outline == old(self).outline,
            final(self).characters == old(self).characters,
            final(self).locations == old(self).locations,
            final(self).timeline == old(self).timeline,
            final(self).tasks == old(self).tasks,
            final(self).chains == old(self).chains,
            final(self).ai_summary == old(self).ai_summary,
            stats_wf(old(self).stats@) ==> stats_wf(final(self).stats@),
    {
        let loc = self.locate_chapter(cid);
        let old_words = match loc {
            Some((vi, ci)) => self.volumes[vi].chapters[ci].words,
            None => 0,
        };
        let new_words = crate::util::count_words(text);
        let delta = new_words.saturating_sub(old_words);
        let ghost before = *self;
        let ghost flat = all_chapters(self.volumes@);
        proof {
            lemma_chapter_words_nonneg(flat);
        }
        match loc {
            Some((vi, ci)) => {
                self.volumes[vi].chapters[ci].words = new_words;
                self.volumes[vi].chapters[ci].updated_at = ts;
                proof {
                    let idx = all_chapters(before.volumes@.take(vi as int)).len() + ci;
                    lemma_all_chapters_split(before.volumes@, vi as int);
                    assert(flat[idx] == before.volumes@[vi as int].chapters@[ci as int]);
                    assert(self.volumes@ =~= before.volumes@.update(vi as int, self.volumes@[vi as int]));
                    lemma_all_chapters_update(before.volumes@, vi as int, ci as int, self.volumes@[vi as int]);
                    let nflat = all_chapters(self.volumes@);
                    let newc = self.volumes@[vi as int].chapters@[ci as int];
                    assert(nflat == flat.update(idx, newc));
                    assert(chapter_ids(nflat) =~= chapter_ids(flat));
                    lemma_chapter_words_update(flat, idx, newc);
                    lemma_first_key(chapter_ids(flat), cid@);
                    assert(volume_heads(self.volumes@) =~= volume_heads(before.volumes@));
                }
            },
            None => {},
        }
        self.add_day_words(day, delta);
        let total = self.total_words();
        self.meta.total_words = total;
        self.meta.updated_at = ts;
        new_words
    }
}

// ---------------------------------------------------------------------------
// Laws of the chapter tree
// ---------------------------------------------------------------------------

/// The chapters of a sequence of volume shapes, in order.
pub open spec fn shape_chapters(shapes: Seq<(String, String, Seq<ChapterMeta>)>) -> Seq<ChapterMeta>
    decreases shapes.len(),
{
    if shapes.len() == 0 {
        Seq::empty()
    } else {
        shape_chapters(shapes.drop_last()) + shapes.last().2
    }
}

proof fn lemma_shape_chapters(vols: Seq<Volume>)
    ensures
        shape_chapters(volume_shapes(vols)) == all_chapters(vols),
    decreases vols.len(),
{
    if vols.len() > 0 {
        lemma_shape_chapters(vols.drop_last());
        assert(volume_shapes(vols).drop_last() =~= volume_shapes(vols.drop_last()));
    }
}

proof fn lemma_chapters_without_concat(a: Seq<ChapterMeta>, b: Seq<ChapterMeta>, cid: Seq<char>)
    ensures
        chapters_without(a + b, cid) == chapters_without(a, cid) + chapters_without(b, cid),
    decreases b.len(),
{
    if b.len() == 0 {
        assert(a + b =~= a);
        assert(chapters_without(a, cid) + chapters_without(b, cid) =~= chapters_without(a, cid));
    } else {
        lemma_chapters_without_concat(a, b.drop_last(), cid);
        assert((a + b).drop_last() =~= a + b.drop_last());
        assert((a + b).last() == b.last());
        if keeps_chapter(b.last(), cid) {
            assert(chapters_without(a + b, cid) =~= chapters_without(a, cid) + chapters_without(b, cid));
        }
    }
}

proof fn lemma_volumes_without_chapters(vols: Seq<Volume>, cid: Seq<char>)
    ensures
        shape_chapters(volumes_without(vols, cid)) == chapters_without(all_chapters(vols), cid),
    decreases vols.len(),
{
    if vols.len() > 0 {
        lemma_volumes_without_chapters(vols.drop_last(), cid);
        lemma_chapters_without_concat(all_chapters(vols.drop_last()), vols.last().chapters@, cid);
        let v = vols.last();
        if !keeps_volume(v, cid) {
            assert(chapters_without(v.chapters@, cid) =~= Seq::<ChapterMeta>::empty());
            assert(chapters_without(all_chapters(vols), cid) =~= chapters_without(all_chapters(vols.drop_last()), cid));
        } else {
            let w = volumes_without(vols, cid);
            assert(w.drop_last() =~= volumes_without(vols.drop_last(), cid));
            assert(w.last().2 == chapters_without(v.chapters@, cid));
        }
    }
}

proof fn lemma_chapters_without_removes(s: Seq<ChapterMeta>, cid: Seq<char>)
    ensures
        forall|k: int| 0 <= k < chapters_without(s, cid).len() ==> (#[trigger] chapters_without(s, cid)[k]).id@ != cid,
    decreases s.len(),
{
    if s.len() > 0 {
        lemma_chapters_without_removes(s.drop_last(), cid);
        let rest = chapters_without(s.drop_last(), cid);
        if keeps_chapter(s.last(), cid) {
            assert forall|k: int| 0 <= k < chapters_without(s, cid).len() implies (#[trigger] chapters_without(s, cid)[k]).id@ != cid by {
                if k < rest.len() {
                    assert(chapters_without(s, cid)[k] == rest[k]);
                }
            }
        }
    }
}

proof fn lemma_chapters_without_absent(s: Seq<ChapterMeta>, cid: Seq<char>)
    requires
        forall|k: int| 0 <= k < s.len() ==> (#[trigger] s[k]).id@ != cid,
    ensures
        chapters_without(s, cid) == s,
    decreases s.len(),
{
    if s.len() > 0 {
        lemma_chapters_without_absent(s.drop_last(), cid);
        assert(s.drop_last().push(s.last()) =~= s);
    }
}

/// The flat chapter list after [`Novel::add_chapter`]: the old list with the new
/// chapter inserted right after the chapters of its volume.
proof fn lemma_added_flat(o: Novel, n: Novel, vid: Option<Seq<char>>, title: Seq<char>, cid: Seq<char>) -> (r: (int, ChapterMeta))
    requires
        chapter_added(o, n, vid, title, cid),
    ensures
        0 <= r.0 <= all_chapters(o.volumes@).len(),
        all_chapters(n.volumes@) == all_chapters(o.volumes@).take(r.0).push(r.1) + all_chapters(o.volumes@).skip(r.0),
        r.1.id@ == cid,
        r.1.title@ == trim(title),
        r.1.words == 0,
{
    let ov = o.volumes@;
    let nv = n.volumes@;
    let k: int = match target_volume(ov, vid) {
        Some(k) => k as int,
        None => if ov.len() == 0 { 0 } else { ov.len() - 1 },
    };
    if ov.len() == 0 && target_volume(ov, vid) is None {
        let c = nv[0].chapters@[0];
        assert(nv.drop_last() =~= Seq::<Volume>::empty());
        assert(nv[0].chapters@ =~= seq![c]);
        assert(all_chapters(nv.drop_last()) =~= Seq::<ChapterMeta>::empty());
        assert(nv.last() == nv[0]);
        assert(all_chapters(nv) =~= seq![c]);
        assert(all_chapters(ov) =~= Seq::<ChapterMeta>::empty());
        assert(all_chapters(ov).take(0).push(c) + all_chapters(ov).skip(0) =~= seq![c]);
        (0, c)
    } else {
        if let Some(t) = target_volume(ov, vid) {
            lemma_first_key(volume_ids(ov), vid->0);
            assert(t < ov.len()) by {
                assert(volume_ids(ov).len() == ov.len());
            }
        }
        let c = nv[k].chapters@.last();
        lemma_all_chapters_split(ov, k);
        lemma_all_chapters_split(nv, k);
        assert(nv.take(k) =~= ov.take(k));
        assert(nv.skip(k + 1) =~= ov.skip(k + 1));
        let a = all_chapters(ov.take(k));
        let b = all_chapters(ov.skip(k + 1));
        let chs = ov[k].chapters@;
        assert(nv[k].chapters@ =~= chs.push(c));
        let pos: int = (a.len() + chs.len()) as int;
        let flat = all_chapters(ov);
        assert(flat =~= a + chs + b);
        assert(flat.take(pos) =~= a + chs);
        assert(flat.skip(pos) =~= b);
        assert(all_chapters(nv) =~= flat.take(pos).push(c) + flat.skip(pos));
        (pos, c)
    }
}

/// A chapter just added can be found by its id, with the trimmed title and no
/// words, provided its fresh id was not already used in the novel; the chapter
/// list grows by exactly one.
pub proof fn law_added_chapter_is_found(
    o: Novel,
    n: Novel,
    vid: Option<Seq<char>>,
    title: Seq<char>,
    cid: Seq<char>,
)
    requires
        chapter_added(o, n, vid, title, cid),
        !has_chapter(o.volumes@, cid),
    ensures
        chapter_with_id(n.volumes@, cid) matches Some(c) && c.id@ == cid && c.title@ == trim(title)
            && c.words == 0,
        has_chapter(n.volumes@, cid),
        all_chapters(n.volumes@).len() == all_chapters(o.volumes@).len() + 1,
{
    let (pos, c) = lemma_added_flat(o, n, vid, title, cid);
    let flat = all_chapters(o.volumes@);
    let nflat = all_chapters(n.volumes@);
    assert(nflat[pos] == c);
    assert forall|j: int| 0 <= j < pos implies chapter_ids(nflat)[j] != cid by {
        assert(nflat[j] == flat[j]);
        if flat[j].id@ == cid {
            assert(has_chapter(o.volumes@, cid));
        }
    }
    lemma_first_key_is(chapter_ids(nflat), cid, pos);
    assert(has_chapter(n.volumes@, cid));
}

/// After deleting chapter `cid` the chapter list is the old one without `cid`,
/// and no chapter with that id is left.
pub proof fn law_deleted_chapter_is_gone(o: Novel, n: Novel, cid: Seq<char>)
    requires
        volume_shapes(n.volumes@) == volumes_without(o.volumes@, cid),
    ensures
        all_chapters(n.volumes@) == chapters_without(all_chapters(o.volumes@), cid),
        !has_chapter(n.volumes@, cid),
        chapter_with_id(n.volumes@, cid) is None,
{
    lemma_shape_chapters(n.volumes@);
    lemma_volumes_without_chapters(o.volumes@, cid);
    lemma_chapters_without_removes(all_chapters(o.volumes@), cid);
    let nflat = all_chapters(n.volumes@);
    lemma_first_key(chapter_ids(nflat), cid);
    if first_key(chapter_ids(nflat), cid) is Some {
        let k = first_key(chapter_ids(nflat), cid)->0 as int;
        assert(chapter_ids(nflat)[k] == nflat[k].id@);
    }
}

/// Adding a chapter with a fresh id and then deleting it gives back the chapter
/// list that the novel had before.
pub proof fn law_add_then_delete_restores_chapters(
    o: Novel,
    m: Novel,
    n: Novel,
    vid: Option<Seq<char>>,
    title: Seq<char>,
    cid: Seq<char>,
)
    requires
        chapter_added(o, m, vid, title, cid),
        !has_chapter(o.volumes@, cid),
        volume_shapes(n.volumes@) == volumes_without(m.volumes@, cid),
    ensures
        all_chapters(n.volumes@) == all_chapters(o.volumes@),
{
    let (pos, c) = lemma_added_flat(o, m, vid, title, cid);
    law_deleted_chapter_is_gone(m, n, cid);
    let flat = all_chapters(o.volumes@);
    assert forall|k: int| 0 <= k < flat.len() implies (#[trigger] flat[k]).id@ != cid by {
        if flat[k].id@ == cid {
            assert(has_chapter(o.volumes@, cid));
        }
    }
    let a = flat.take(pos);
    let b = flat.skip(pos);
    assert forall|k: int| 0 <= k < a.len() implies (#[trigger] a[k]).id@ != cid by {
        assert(a[k] == flat[k]);
    }
    assert forall|k: int| 0 <= k < b.len() implies (#[trigger] b[k]).id@ != cid by {
        assert(b[k] == flat[pos + k]);
    }
    lemma_chapters_without_concat(a.push(c), b, cid);
    lemma_chapters_without_absent(a, cid);
    lemma_chapters_without_absent(b, cid);
    assert(a.push(c).drop_last() =~= a);
    assert(flat =~= a + b);
}


/// No volume of `vols` is an empty [`MAIN_VOLUME`] volume.
pub open spec fn no_empty_main_volume(vols: Seq<Volume>) -> bool {
    forall|i: int| 0 <= i < vols.len() ==> (#[trigger] vols[i]).chapters@.len() > 0 || vols[i].title@ != MAIN_VOLUME@
}

proof fn lemma_volume_has_no_chapter(vols: Seq<Volume>, cid: Seq<char>, i: int)
    requires
        0 <= i < vols.len(),
        !has_chapter(vols, cid),
    ensures
        forall|j: int| 0 <= j < vols[i].chapters@.len() ==> (#[trigger] vols[i].chapters@[j]).id@ != cid,
{
    lemma_all_chapters_split(vols, i);
    let a = all_chapters(vols.take(i));
    assert forall|j: int| 0 <= j < vols[i].chapters@.len() implies (#[trigger] vols[i].chapters@[j]).id@ != cid by {
        assert(all_chapters(vols)[a.len() + j] == vols[i].chapters@[j]);
    }
}

proof fn lemma_events_without_absent(es: Seq<TimelineEvent>, cid: Seq<char>)
    requires
        forall|i: int| 0 <= i < es.len() ==> keeps_event(#[trigger] es[i], cid),
    ensures
        events_without(es, cid) == es,
    decreases es.len(),
{
    if es.len() > 0 {
        lemma_events_without_absent(es.drop_last(), cid);
        assert(es.last() == es[es.len() - 1]);
        assert(es.drop_last().push(es.last()) =~= es);
    }
}

proof fn lemma_volumes_without_same(m: Seq<Volume>, o: Seq<Volume>, cid: Seq<char>)
    requires
        m.len() == o.len(),
        forall|i: int| 0 <= i < m.len() ==> keeps_volume(#[trigger] m[i], cid) && m[i].id == o[i].id && m[i].title
            == o[i].title && chapters_without(m[i].chapters@, cid) == o[i].chapters@,
    ensures
        volumes_without(m, cid) == volume_shapes(o),
    decreases m.len(),
{
    if m.len() > 0 {
        lemma_volumes_without_same(m.drop_last(), o.drop_last(), cid);
        assert(m.last() == m[m.len() - 1]);
        assert(volume_shapes(o) =~= volume_shapes(o.drop_last()).push(
            (o.last().id, o.last().title, o.last().chapters@),
        ));
    } else {
        assert(volume_shapes(o) =~= Seq::empty());
    }
}

/// Adding a chapter with a fresh id and then deleting it gives back the novel:
/// its volumes (ids, titles, chapters), metadata, timeline and every other
/// part, for a novel whose chapter count is right, that has no empty
/// [`MAIN_VOLUME`] volume (deleting a chapter drops such volumes) and no
/// timeline event linked to that id.
pub proof fn law_add_then_delete_restores_the_novel(
    o: Novel,
    m: Novel,
    n: Novel,
    vid: Option<Seq<char>>,
    title: Seq<char>,
    cid: Seq<char>,
)
    requires
        chapter_added(o, m, vid, title, cid),
        !has_chapter(o.volumes@, cid),
        no_empty_main_volume(o.volumes@),
        o.meta.chapter_count == all_chapters(o.volumes@).len(),
        volume_shapes(n.volumes@) == volumes_without(m.volumes@, cid),
        n.meta.chapter_count == all_chapters(n.volumes@).len() as u32,
        n.meta == (NovelMeta { chapter_count: n.meta.chapter_count, ..m.meta }),
        forall|i: int| 0 <= i < o.timeline@.len() ==> keeps_event(#[trigger] o.timeline@[i], cid),
        n.timeline@ == events_without(m.timeline@, cid),
        same_except_meta_volumes(m, Novel { timeline: m.timeline, ..n }),
    ensures
        volume_shapes(n.volumes@) == volume_shapes(o.volumes@),
        n.meta == o.meta,
        n.timeline@ == o.timeline@,
        same_except_meta_volumes(o, Novel { timeline: o.timeline, ..n }),
{
    lemma_events_without_absent(o.timeline@, cid);
    law_add_then_delete_restores_chapters(o, m, n, vid, title, cid);
    let ov = o.volumes@;
    let mv = m.volumes@;
    if ov.len() == 0 && target_volume(ov, vid) is None {
        assert(mv.drop_last() =~= Seq::<Volume>::empty());
        assert(mv[0].chapters@ =~= seq![mv[0].chapters@[0]]);
        assert(mv[0].chapters@.drop_last() =~= Seq::<ChapterMeta>::empty());
        assert(mv[0].chapters@.last() == mv[0].chapters@[0]);
        assert(mv[0].chapters@[0].id@ == cid);
        assert(chapters_without(mv[0].chapters@.drop_last(), cid) =~= Seq::<ChapterMeta>::empty());
        assert(chapters_without(mv[0].chapters@, cid) =~= Seq::<ChapterMeta>::empty());
        assert(!keeps_volume(mv.last(), cid));
        assert(volumes_without(mv.drop_last(), cid) =~= Seq::empty());
        assert(mv.last() == mv[0]);
        assert(volumes_without(mv, cid) =~= Seq::empty());
        assert(volume_shapes(ov) =~= Seq::empty());
    } else {
        let k: int = match target_volume(ov, vid) {
            Some(k) => k as int,
            None => ov.len() - 1,
        };
        if let Some(t) = target_volume(ov, vid) {
            lemma_first_key(volume_ids(ov), vid->0);
            assert(t < ov.len()) by {
                assert(volume_ids(ov).len() == ov.len());
            }
        }
        assert forall|i: int| 0 <= i < mv.len() implies keeps_volume(#[trigger] mv[i], cid) && mv[i].id == ov[i].id
            && mv[i].title == ov[i].title && chapters_without(mv[i].chapters@, cid) == ov[i].chapters@ by {
            lemma_volume_has_no_chapter(ov, cid, i);
            lemma_chapters_without_absent(ov[i].chapters@, cid);
            assert(ov[i].chapters@.len() > 0 || ov[i].title@ != MAIN_VOLUME@);
            if i == k {
                let c = mv[k].chapters@.last();
                assert(mv[k].chapters@ =~= ov[k].chapters@.push(c));
                assert(mv[k].chapters@.drop_last() =~= ov[k].chapters@);
                assert(!keeps_chapter(c, cid));
                assert(chapters_without(mv[k].chapters@, cid) == ov[k].chapters@);
            }
        }
        lemma_volumes_without_same(mv, ov, cid);
    }
    assert(all_chapters(n.volumes@).len() == all_chapters(o.volumes@).len());
}


/// Moving a chapter only reorders its volume: the same chapters remain, as
/// many as before, and a chapter that moves lands `delta` places from where
/// it was.
pub proof fn law_move_keeps_chapters(cs: Seq<ChapterMeta>, cid: Seq<char>, delta: int)
    ensures
        moved_chapters(cs, cid, delta).len() == cs.len(),
        moved_chapters(cs, cid, delta).to_multiset() == cs.to_multiset(),
        chapter_moves(cs, cid, delta) ==> (first_key(chapter_ids(cs), cid) matches Some(k)
            && moved_chapters(cs, cid, delta)[k + delta] == cs[k as int]),
{
    broadcast use {
        vstd::seq_lib::to_multiset_remove,
        vstd::seq_lib::to_multiset_insert,
        vstd::seq_lib::to_multiset_contains,
    };
    broadcast use vstd::multiset::group_multiset_axioms;

    lemma_first_key(chapter_ids(cs), cid);
    match first_key(chapter_ids(cs), cid) {
        Some(k) => {
            if 0 <= k + delta < cs.len() {
                let r = cs.remove(k as int);
                assert(r.insert(k + delta, cs[k as int]).to_multiset() == r.to_multiset().insert(cs[k as int]));
                assert(r.to_multiset() == cs.to_multiset().remove(cs[k as int]));
                assert(cs.contains(cs[k as int]));
                assert(cs.to_multiset().contains(cs[k as int]));
                assert(r.to_multiset().insert(cs[k as int]) =~= cs.to_multiset());
            }
        },
        None => {},
    }
}


/// The title of the first chapter of a new novel.
pub const FIRST_CHAPTER: &'static str = "第一章 开端";

proof fn lemma_trim_unchanged(s: Seq<char>)
    requires
        s.len() > 0,
        !crate::text::is_ws(s[0]),
        !crate::text::is_ws(s.last()),
    ensures
        trim(s) == s,
{
    assert(crate::text::lead_ws(s) == 0);
    assert(s.skip(0) =~= s);
    assert(crate::text::trail_ws(s) == 0);
    assert(s.take(s.len() as int) =~= s);
}

/// A new novel ready for writing: as [`Novel::new`] makes it, with one volume,
/// the main one, holding one empty chapter, the first.
pub fn create_novel(title: &str, author: &str, genre: &str, description: &str) -> (r: Novel)
    ensures
        id_shaped(r.meta.id@),
        r.meta.title@ == novel_title(title@),
        r.meta.author@ == trim(author@),
        r.meta.description@ == trim(description@),
        r.meta.genre@ == trim(genre@),
        r.meta.created_at == r.meta.updated_at,
        r.meta.total_words == 0,
        r.meta.chapter_count == 1,
        r.volumes@.len() == 1,
        r.volumes@[0].title@ == MAIN_VOLUME@,
        r.volumes@[0].chapters@.len() == 1,
        r.volumes@[0].chapters@[0].title@ == FIRST_CHAPTER@,
        r.volumes@[0].chapters@[0].words == 0,
        r.outline@.len() == 0,
        r.characters@.len() == 0,
        r.locations@.len() == 0,
        r.timeline@.len() == 0,
        r.tasks@.len() == 0,
        r.chains@.len() == 0,
        r.stats@.len() == 0,
        r.ai_summary@.len() == 0,
{
    let mut novel = Novel::new(title, author, description, genre);
    proof {
        reveal_strlit("正文");
        reveal_strlit("第一章 开端");
        lemma_trim_unchanged(MAIN_VOLUME@);
        lemma_trim_unchanged(FIRST_CHAPTER@);
    }
    novel.add_volume(MAIN_VOLUME);
    let vid = novel.volumes[0].id.clone();
    proof {
        lemma_first_key_is(volume_ids(novel.volumes@), vid@, 0);
    }
    let _cid = novel.add_chapter(Some(vid.as_str()), FIRST_CHAPTER);
    novel
}

} // verus!
