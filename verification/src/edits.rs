//! Edits made to a novel from its side views: removing characters, places,
//! timeline events, tasks and volumes, and moving tasks between the columns of
//! the task board.

use vstd::prelude::*;
use crate::model::{
    all_chapters, chapter_with_id, character_ids, first_key, lemma_first_key, lemma_first_key_is,
    same_except_meta_volumes, volume_ids, Character, ChapterMeta, Location, Novel, NovelMeta, Relationship, Task, TaskChain,
    TimelineEvent, Volume,
};
use crate::text::{str_eq, trim, trim_string};
use crate::util::{id_shaped, new_id};

verus! {

/// Items of the novel that have an id.
pub trait Keyed {
    /// The item's id.
    spec fn key(&self) -> Seq<char>;

    /// The item's id.
    fn key_str(&self) -> (r: &str)
        ensures
            r@ == self.key(),
    ;
}

impl Keyed for Character {
    open spec fn key(&self) -> Seq<char> {
        self.id@
    }

    fn key_str(&self) -> (r: &str) {
        self.id.as_str()
    }
}

impl Keyed for Location {
    open spec fn key(&self) -> Seq<char> {
        self.id@
    }

    fn key_str(&self) -> (r: &str) {
        self.id.as_str()
    }
}

impl Keyed for TimelineEvent {
    open spec fn key(&self) -> Seq<char> {
        self.id@
    }

    fn key_str(&self) -> (r: &str) {
        self.id.as_str()
    }
}

impl Keyed for Task {
    open spec fn key(&self) -> Seq<char> {
        self.id@
    }

    fn key_str(&self) -> (r: &str) {
        self.id.as_str()
    }
}

/// `items` without those with id `id`, in order.
pub open spec fn without_key<T: Keyed>(items: Seq<T>, id: Seq<char>) -> Seq<T> {
    items.filter(|x: T| x.key() != id)
}

/// Removes from `v` every item whose id is `id`, keeping the others in order.
fn remove_keyed<T: Keyed>(v: &mut Vec<T>, id: &str)
    ensures
        final(v)@ == without_key(old(v)@, id@),
{
    let ghost o = v@;
    let ghost mut k: int = 0;
    let mut i: usize = 0;
    proof {
        reveal(Seq::filter);
        assert(v@.take(0) =~= without_key(o.take(0), id@));
        assert(v@.skip(0) =~= o.skip(0));
    }
    while i < v.len()
        invariant
            0 <= i <= v@.len(),
            0 <= k <= o.len(),
            v@.take(i as int) == without_key(o.take(k), id@),
            v@.skip(i as int) == o.skip(k),
        decreases v.len() - i,
    {
        proof {
            reveal(Seq::filter);
            assert(v@.skip(i as int).len() > 0);
            assert(k < o.len());
            assert(o.take(k + 1).drop_last() =~= o.take(k));
            assert(o.skip(k)[0] == v@[i as int]);
            assert(o.take(k + 1).last() == v@[i as int]);
        }
        if str_eq(v[i].key_str(), id) {
            let ghost before = v@;
            v.remove(i);
            proof {
                assert(v@.take(i as int) =~= before.take(i as int));
                assert(v@.skip(i as int) =~= before.skip(i + 1));
                assert(before.skip(i + 1) =~= before.skip(i as int).drop_first());
                assert(o.skip(k + 1) =~= o.skip(k).drop_first());
                assert(before.skip(i + 1) =~= o.skip(k + 1));
                k = k + 1;
            }
        } else {
            proof {
                assert(v@.take(i + 1) =~= v@.take(i as int).push(v@[i as int]));
                assert(v@.skip(i + 1) =~= v@.skip(i as int).drop_first());
                assert(o.skip(k + 1) =~= o.skip(k).drop_first());
                assert(v@.skip(i + 1) =~= o.skip(k + 1));
                k = k + 1;
            }
            i = i + 1;
        }
    }
    proof {
        assert(v@.skip(i as int).len() == 0);
        assert(o.skip(k).len() == 0);
        assert(o.take(k) =~= o);
        assert(v@.take(i as int) =~= v@);
    }
}

/// `ls` without location `id` and the locations directly inside it.
pub open spec fn without_place_tree(ls: Seq<Location>, id: Seq<char>) -> Seq<Location> {
    ls.filter(|l: Location| l.id@ != id && !(l.parent_id matches Some(p) && p@ == id))
}

fn inside(l: &Location, id: &str) -> (r: bool)
    ensures
        r == (l.parent_id matches Some(p) && p@ == id@),
{
    match &l.parent_id {
        Some(p) => str_eq(p.as_str(), id),
        None => false,
    }
}

/// Task `t` belongs to chain `f`.
pub open spec fn in_chain(t: Task, f: Seq<char>) -> bool {
    t.chain_id matches Some(c) && c@ == f
}

/// The tasks of `ts` that belong to chain `f`, in order.
pub open spec fn chain_tasks(ts: Seq<Task>, f: Seq<char>) -> Seq<Task> {
    ts.filter(|t: Task| in_chain(t, f))
}

/// The tasks shown on the board for a chain filter: all of them for `all` or
/// no filter, else those of that chain.
pub open spec fn tasks_shown(ts: Seq<Task>, filter: Option<Seq<char>>) -> Seq<Task> {
    match filter {
        None => ts,
        Some(f) => if f == ALL_CHAINS@ {
            ts
        } else {
            chain_tasks(ts, f)
        },
    }
}

/// The chain filter that shows every task.
pub const ALL_CHAINS: &'static str = "all";
/// The number of columns of the task board (to do, in progress, done).
pub const TASK_STATES: u8 = 3;

/// `ts` with the first task of id `id`, if any, given status `status`.
pub open spec fn with_status(ts: Seq<Task>, id: Seq<char>, status: u8) -> Seq<Task> {
    match first_key(Seq::new(ts.len(), |i: int| ts[i].id@), id) {
        Some(k) => ts.update(k as int, Task { status: status, ..ts[k as int] }),
        None => ts,
    }
}

/// The status that follows `s` on the board, wrapping from done to to-do.
pub open spec fn next_status(s: u8) -> u8 {
    ((s as int + 1) % (TASK_STATES as int)) as u8
}

impl Novel {
    /// Removes the character with id `id`.
    pub fn delete_character(&mut self, id: &str)
        ensures
            final(self).characters@ == without_key(old(self).characters@, id@),
            *final(self) == (Novel { characters: final(self).characters, ..*old(self) }),
    {
        remove_keyed(&mut self.characters, id);
    }

    /// Removes the location with id `id`, leaving the locations inside it.
    pub fn delete_location(&mut self, id: &str)
        ensures
            final(self).locations@ == without_key(old(self).locations@, id@),
            *final(self) == (Novel { locations: final(self).locations, ..*old(self) }),
    {
        remove_keyed(&mut self.locations, id);
    }

    /// Removes the location with id `id` together with the locations directly inside it.
    pub fn delete_location_tree(&mut self, id: &str)
        ensures
            final(self).locations@ == without_place_tree(old(self).locations@, id@),
            *final(self) == (Novel { locations: final(self).locations, ..*old(self) }),
    {
        let ghost o = self.locations@;
        let ghost mut k: int = 0;
        let mut i: usize = 0;
        proof {
            reveal(Seq::filter);
            assert(self.locations@.take(0) =~= without_place_tree(o.take(0), id@));
            assert(self.locations@.skip(0) =~= o.skip(0));
        }
        while i < self.locations.len()
            invariant
                0 <= i <= self.locations@.len(),
                0 <= k <= o.len(),
                self.locations@.take(i as int) == without_place_tree(o.take(k), id@),
                self.locations@.skip(i as int) == o.skip(k),
                *self == (Novel { locations: self.locations, ..*old(self) }),
            decreases self.locations.len() - i,
        {
            proof {
                reveal(Seq::filter);
                assert(self.locations@.skip(i as int).len() > 0);
                assert(k < o.len());
                assert(o.take(k + 1).drop_last() =~= o.take(k));
                assert(o.skip(k)[0] == self.locations@[i as int]);
                assert(o.take(k + 1).last() == self.locations@[i as int]);
            }
            let drop = str_eq(self.locations[i].id.as_str(), id) || inside(&self.locations[i], id);
            if drop {
                let ghost before = self.locations@;
                self.locations.remove(i);
                proof {
                    assert(self.locations@.take(i as int) =~= before.take(i as int));
                    assert(self.locations@.skip(i as int) =~= before.skip(i + 1));
                    assert(before.skip(i + 1) =~= before.skip(i as int).drop_first());
                assert(o.skip(k + 1) =~= o.skip(k).drop_first());
                assert(before.skip(i + 1) =~= o.skip(k + 1));
                    k = k + 1;
                }
            } else {
                proof {
                    assert(self.locations@.take(i + 1) =~= self.locations@.take(i as int).push(self.locations@[i as int]));
                    assert(self.locations@.skip(i + 1) =~= self.locations@.skip(i as int).drop_first());
                    assert(o.skip(k + 1) =~= o.skip(k).drop_first());
                    assert(self.locations@.skip(i + 1) =~= o.skip(k + 1));
                    k = k + 1;
                }
                i = i + 1;
            }
        }
        proof {
            assert(self.locations@.skip(i as int).len() == 0);
            assert(o.skip(k).len() == 0);
            assert(o.take(k) =~= o);
            assert(self.locations@.take(i as int) =~= self.locations@);
        }
    }

    /// Removes the timeline event with id `id`.
    pub fn delete_event(&mut self, id: &str)
        ensures
            final(self).timeline@ == without_key(old(self).timeline@, id@),
            *final(self) == (Novel { timeline: final(self).timeline, ..*old(self) }),
    {
        remove_keyed(&mut self.timeline, id);
    }

    /// Removes the task with id `id`.
    pub fn delete_task(&mut self, id: &str)
        ensures
            final(self).tasks@ == without_key(old(self).tasks@, id@),
            *final(self) == (Novel { tasks: final(self).tasks, ..*old(self) }),
    {
        remove_keyed(&mut self.tasks, id);
    }

    /// The position of the first task with id `id`.
    fn task_pos(&self, id: &str) -> (r: Option<usize>)
        ensures
            match r {
                Some(k) => k < self.tasks.len() && first_key(Seq::new(self.tasks@.len(), |i: int| self.tasks@[i].id@), id@)
                    == Some(k as nat),
                None => first_key(Seq::new(self.tasks@.len(), |i: int| self.tasks@[i].id@), id@) is None,
            },
    {
        let ghost keys = Seq::new(self.tasks@.len(), |i: int| self.tasks@[i].id@);
        let mut j: usize = 0;
        while j < self.tasks.len()
            invariant
                j <= self.tasks.len(),
                keys == Seq::new(self.tasks@.len(), |i: int| self.tasks@[i].id@),
                forall|k: int| 0 <= k < j ==> keys[k] != id@,
            decreases self.tasks.len() - j,
        {
            if str_eq(self.tasks[j].id.as_str(), id) {
                proof {
                    lemma_first_key_is(keys, id@, j as int);
                }
                return Some(j);
            }
            j = j + 1;
        }
        proof {
            lemma_first_key(keys, id@);
        }
        None
    }

    /// Moves the task with id `id` to column `status` of the board.
    pub fn set_task_status(&mut self, id: &str, status: u8)
        ensures
            final(self).tasks@ == with_status(old(self).tasks@, id@, status),
            *final(self) == (Novel { tasks: final(self).tasks, ..*old(self) }),
    {
        if let Some(k) = self.task_pos(id) {
            self.tasks[k].status = status;
            assert(self.tasks@ =~= with_status(old(self).tasks@, id@, status));
        }
    }

    /// Moves the task with id `id` to the next column of the board (from done
    /// back to to-do).
    pub fn cycle_task_status(&mut self, id: &str)
        requires
            first_key(Seq::new(old(self).tasks@.len(), |i: int| old(self).tasks@[i].id@), id@) matches Some(k)
                ==> old(self).tasks@[k as int].status < 255,
        ensures
            final(self).tasks@ == match first_key(
                Seq::new(old(self).tasks@.len(), |i: int| old(self).tasks@[i].id@),
                id@,
            ) {
                Some(k) => with_status(old(self).tasks@, id@, next_status(old(self).tasks@[k as int].status)),
                None => old(self).tasks@,
            },
            *final(self) == (Novel { tasks: final(self).tasks, ..*old(self) }),
    {
        if let Some(k) = self.task_pos(id) {
            let s = self.tasks[k].status;
            let next: u8 = (s + 1) % TASK_STATES;
            self.tasks[k].status = next;
            assert(self.tasks@ =~= with_status(old(self).tasks@, id@, next));
        }
    }

    /// Removes the volume with id `vid` and the chapters in it; the chapter
    /// count becomes the number of chapters left. Returns the ids of the
    /// chapters removed (none when there is no such volume).
    pub fn delete_volume(&mut self, vid: &str) -> (removed: Vec<String>)
        ensures
            match first_key(volume_ids(old(self).volumes@), vid@) {
                Some(k) => {
                    &&& final(self).volumes@ == old(self).volumes@.remove(k as int)
                    &&& removed@.len() == old(self).volumes@[k as int].chapters@.len()
                    &&& forall|i: int| 0 <= i < removed@.len() ==> #[trigger] removed@[i]@ == old(self).volumes@[k as int].chapters@[i].id@
                    &&& final(self).meta.chapter_count == all_chapters(final(self).volumes@).len() as u32
                },
                None => removed@.len() == 0 && *final(self) == *old(self),
            },
            final(self).meta == (NovelMeta { chapter_count: final(self).meta.chapter_count, ..old(self).meta }),
            same_except_meta_volumes(*old(self), *final(self)),
    {
        let mut removed: Vec<String> = Vec::new();
        let ghost keys = volume_ids(self.volumes@);
        let mut pos: usize = 0;
        let mut found = false;
        while pos < self.volumes.len() && !found
            invariant
                pos <= self.volumes.len(),
                keys == volume_ids(self.volumes@),
                found ==> pos < self.volumes.len() && keys[pos as int] == vid@,
                forall|k: int| 0 <= k < pos ==> keys[k] != vid@,
            decreases self.volumes.len() - pos, if found { 0int } else { 1int },
        {
            if str_eq(self.volumes[pos].id.as_str(), vid) {
                found = true;
            } else {
                pos = pos + 1;
            }
        }
        if !found || pos >= self.volumes.len() {
            proof {
                lemma_first_key(keys, vid@);
            }
            return removed;
        }
        proof {
            lemma_first_key_is(keys, vid@, pos as int);
        }
        let mut i: usize = 0;
        while i < self.volumes[pos].chapters.len()
            invariant
                pos < self.volumes@.len(),
                self.volumes == old(self).volumes,
                i <= self.volumes@[pos as int].chapters@.len(),
                removed@.len() == i,
                forall|j: int| 0 <= j < i ==> #[trigger] removed@[j]@ == self.volumes@[pos as int].chapters@[j].id@,
            decreases self.volumes@[pos as int].chapters@.len() - i,
        {
            removed.push(self.volumes[pos].chapters[i].id.clone());
            i = i + 1;
        }
        self.volumes.remove(pos);
        let n = self.chapters_all().len();
        self.meta.chapter_count = n as u32;
        removed
    }

    /// Renames the volume with id `vid` to the trimmed `title`; a blank title
    /// changes nothing. Returns whether the volume was renamed.
    pub fn rename_volume(&mut self, vid: &str, title: &str) -> (renamed: bool)
        ensures
            renamed == (trim(title@).len() > 0 && first_key(volume_ids(old(self).volumes@), vid@) is Some),
            renamed ==> (first_key(volume_ids(old(self).volumes@), vid@) matches Some(k) && final(self).volumes@
                == old(self).volumes@.update(
                k as int,
                Volume { title: final(self).volumes@[k as int].title, ..old(self).volumes@[k as int] },
            ) && final(self).volumes@[k as int].title@ == trim(title@)),
            !renamed ==> final(self).volumes == old(self).volumes,
            final(self).meta == old(self).meta,
            same_except_meta_volumes(*old(self), *final(self)),
    {
        let t = trim_string(title);
        if t.as_str().is_empty() {
            return false;
        }
        let ghost keys = volume_ids(self.volumes@);
        let mut i: usize = 0;
        while i < self.volumes.len()
            invariant
                i <= self.volumes.len(),
                keys == volume_ids(self.volumes@),
                t@ == trim(title@),
                t@.len() > 0,
                self.volumes == old(self).volumes,
                self.meta == old(self).meta,
                same_except_meta_volumes(*old(self), *self),
                forall|k: int| 0 <= k < i ==> keys[k] != vid@,
            decreases self.volumes.len() - i,
        {
            if str_eq(self.volumes[i].id.as_str(), vid) {
                proof {
                    lemma_first_key_is(keys, vid@, i as int);
                }
                self.volumes[i].title = t;
                assert(self.volumes@ =~= old(self).volumes@.update(
                    i as int,
                    Volume { title: self.volumes@[i as int].title, ..old(self).volumes@[i as int] },
                ));
                return true;
            }
            i = i + 1;
        }
        proof {
            lemma_first_key(keys, vid@);
        }
        false
    }

    /// The tasks shown on the board under the chain filter `filter` (`all` or
    /// none shows every task), in order.
    pub fn tasks_on_board(&self, filter: Option<&str>) -> (r: Vec<&Task>)
        ensures
            r@.len() == tasks_shown(self.tasks@, match filter {
                Some(f) => Some(f@),
                None => None,
            }).len(),
            forall|i: int|
                0 <= i < r@.len() ==> *r@[i] == tasks_shown(self.tasks@, match filter {
                    Some(f) => Some(f@),
                    None => None,
                })[i],
    {
        let all = match filter {
            None => true,
            Some(f) => str_eq(f, ALL_CHAINS),
        };
        let mut r: Vec<&Task> = Vec::new();
        let mut i: usize = 0;
        let ghost fv: Seq<char> = match filter {
            Some(f) => f@,
            None => Seq::empty(),
        };
        proof {
            reveal(Seq::filter);
        }
        while i < self.tasks.len()
            invariant
                i <= self.tasks@.len(),
                all == (match filter {
                    Some(f) => f@ == ALL_CHAINS@,
                    None => true,
                }),
                fv == (match filter {
                    Some(f) => f@,
                    None => Seq::<char>::empty(),
                }),
                all ==> r@.len() == i && forall|k: int| 0 <= k < i ==> *r@[k] == self.tasks@[k],
                !all ==> r@.len() == chain_tasks(self.tasks@.take(i as int), fv).len() && forall|k: int|
                    0 <= k < r@.len() ==> *r@[k] == chain_tasks(self.tasks@.take(i as int), fv)[k],
            decreases self.tasks.len() - i,
        {
            proof {
                reveal(Seq::filter);
                assert(self.tasks@.take(i + 1).drop_last() =~= self.tasks@.take(i as int));
                assert(self.tasks@.take(i + 1).last() == self.tasks@[i as int]);
            }
            let t = &self.tasks[i];
            if all {
                r.push(t);
            } else {
                let keep = match (&t.chain_id, filter) {
                    (Some(c), Some(f)) => str_eq(c.as_str(), f),
                    _ => false,
                };
                assert(keep == in_chain(*t, fv));
                if keep {
                    r.push(t);
                }
            }
            i = i + 1;
        }
        proof {
            assert(self.tasks@.take(self.tasks@.len() as int) =~= self.tasks@);
        }
        r
    }
}

// ---------------------------------------------------------------------------
// Relationships, tasks and chains
// ---------------------------------------------------------------------------

/// A relationship as plain values: target id, target name, relation, note.
pub open spec fn rel_view(r: Relationship) -> (Seq<char>, Seq<char>, Seq<char>, Seq<char>) {
    (r.target_id@, r.target_name@, r.relation@, r.note@)
}

/// The views of a list of relationships.
pub open spec fn rel_views(rs: Seq<Relationship>) -> Seq<(Seq<char>, Seq<char>, Seq<char>, Seq<char>)> {
    Seq::new(rs.len(), |i: int| rel_view(rs[i]))
}

/// The name recorded for the target `target_id` of a relationship of the
/// character `char_id`: the name of the first other character with that id,
/// or nothing when there is none (a character is no target of its own).
pub open spec fn target_name(cs: Seq<Character>, char_id: Seq<char>, target_id: Seq<char>) -> Seq<char> {
    if target_id == char_id {
        Seq::empty()
    } else {
        match first_key(character_ids(cs), target_id) {
            Some(k) => cs[k as int].name@,
            None => Seq::empty(),
        }
    }
}

/// `n` is `o` with character `k` given the relationships of `n`'s character `k`.
pub open spec fn relationships_changed(o: Seq<Character>, n: Seq<Character>, k: int) -> bool {
    &&& n.len() == o.len()
    &&& forall|j: int| 0 <= j < o.len() && j != k ==> n[j] == o[j]
    &&& n[k] == (Character { relationships: n[k].relationships, ..o[k] })
}

/// The parts of `n` other than its characters are those of `o`.
pub open spec fn same_except_characters(o: Novel, n: Novel) -> bool {
    &&& n.meta == o.meta
    &&& n.volumes == o.volumes
    &&& n.outline == o.outline
    &&& n.locations == o.locations
    &&& n.timeline == o.timeline
    &&& n.tasks == o.tasks
    &&& n.chains == o.chains
    &&& n.stats == o.stats
    &&& n.ai_summary == o.ai_summary
}

/// The parts of `n` other than its tasks and chains are those of `o`.
pub open spec fn same_except_tasks(o: Novel, n: Novel) -> bool {
    &&& n.meta == o.meta
    &&& n.volumes == o.volumes
    &&& n.outline == o.outline
    &&& n.characters == o.characters
    &&& n.locations == o.locations
    &&& n.timeline == o.timeline
    &&& n.stats == o.stats
    &&& n.ai_summary == o.ai_summary
}

/// The title of a task made from the board.
pub const NEW_TASK: &'static str = "新任务";
/// The name of a chain made from the board.
pub const NEW_CHAIN: &'static str = "新任务链";

/// The chain a new task joins under the board's chain selection: none when
/// nothing or [`ALL_CHAINS`] is selected, else the selected chain.
pub open spec fn chain_for(selected: Option<Seq<char>>) -> Option<Seq<char>> {
    match selected {
        Some(c) => if c == ALL_CHAINS@ { None } else { Some(c) },
        None => None,
    }
}

/// The view of an optional string.
pub open spec fn opt_str(o: Option<String>) -> Option<Seq<char>> {
    match o {
        Some(s) => Some(s@),
        None => None,
    }
}

impl Novel {
    /// Gives character `char_id` a relationship `relation` (trimmed) to
    /// character `target_id`, whose name is looked up among the other
    /// characters. Nothing changes without a target or without that character.
    /// Returns whether the relationship was added.
    pub fn add_relationship(&mut self, char_id: &str, target_id: &str, relation: &str) -> (added: bool)
        ensures
            added == (target_id@.len() > 0 && first_key(character_ids(old(self).characters@), char_id@) is Some),
            added ==> (first_key(character_ids(old(self).characters@), char_id@) matches Some(k)
                && relationships_changed(old(self).characters@, final(self).characters@, k as int)
                && rel_views(final(self).characters@[k as int].relationships@) == rel_views(
                old(self).characters@[k as int].relationships@,
            ).push(
                (target_id@, target_name(old(self).characters@, char_id@, target_id@), trim(relation@), Seq::empty()),
            )),
            !added ==> *final(self) == *old(self),
            same_except_characters(*old(self), *final(self)),
    {
        if target_id.is_empty() {
            return false;
        }
        let k = match self.character_pos(char_id) {
            Some(k) => k,
            None => return false,
        };
        let name: String = if str_eq(target_id, char_id) {
            String::new()
        } else {
            match self.find_character(target_id) {
                Some(t) => t.name.clone(),
                None => String::new(),
            }
        };
        let rel = Relationship {
            target_id: target_id.to_owned(),
            target_name: name,
            relation: trim_string(relation),
            note: String::new(),
        };
        let ghost before = self.characters@[k as int].relationships@;
        let mut c = self.characters.remove(k);
        c.relationships.push(rel);
        self.characters.insert(k, c);
        proof {
            assert(self.characters@ =~= old(self).characters@.update(k as int, self.characters@[k as int]));
            assert(rel_views(self.characters@[k as int].relationships@) =~= rel_views(before).push(
                (target_id@, target_name(old(self).characters@, char_id@, target_id@), trim(relation@), Seq::empty()),
            ));
        }
        true
    }

    /// Removes relationship `index` of character `char_id`. Nothing changes
    /// without that character or that relationship. Returns whether one was
    /// removed.
    pub fn remove_relationship(&mut self, char_id: &str, index: usize) -> (removed: bool)
        ensures
            removed == (first_key(character_ids(old(self).characters@), char_id@) matches Some(k)
                && index < old(self).characters@[k as int].relationships@.len()),
            removed ==> (first_key(character_ids(old(self).characters@), char_id@) matches Some(k)
                && relationships_changed(old(self).characters@, final(self).characters@, k as int)
                && final(self).characters@[k as int].relationships@ == old(
                self,
            ).characters@[k as int].relationships@.remove(index as int)),
            !removed ==> *final(self) == *old(self),
            same_except_characters(*old(self), *final(self)),
    {
        let k = match self.character_pos(char_id) {
            Some(k) => k,
            None => return false,
        };
        if index >= self.characters[k].relationships.len() {
            return false;
        }
        let mut c = self.characters.remove(k);
        c.relationships.remove(index);
        self.characters.insert(k, c);
        assert(self.characters@ =~= old(self).characters@.update(k as int, self.characters@[k as int]));
        true
    }

    /// Renames character `id` to the trimmed `name`. Returns whether there is
    /// such a character; without one nothing changes.
    pub fn rename_character(&mut self, id: &str, name: &str) -> (renamed: bool)
        ensures
            renamed == (first_key(character_ids(old(self).characters@), id@) is Some),
            renamed ==> (first_key(character_ids(old(self).characters@), id@) matches Some(k)
                && final(self).characters@ == old(self).characters@.update(
                k as int,
                Character { name: final(self).characters@[k as int].name, ..old(self).characters@[k as int] },
            ) && final(self).characters@[k as int].name@ == trim(name@)),
            !renamed ==> *final(self) == *old(self),
            same_except_characters(*old(self), *final(self)),
    {
        let k = match self.character_pos(id) {
            Some(k) => k,
            None => return false,
        };
        let mut c = self.characters.remove(k);
        c.name = trim_string(name);
        self.characters.insert(k, c);
        assert(self.characters@ =~= old(self).characters@.update(k as int, self.characters@[k as int]));
        true
    }

    /// Gives character `id` the role `role`. Returns whether there is such a
    /// character; without one nothing changes.
    pub fn set_character_role(&mut self, id: &str, role: &str) -> (set: bool)
        ensures
            set == (first_key(character_ids(old(self).characters@), id@) is Some),
            set ==> (first_key(character_ids(old(self).characters@), id@) matches Some(k)
                && final(self).characters@ == old(self).characters@.update(
                k as int,
                Character { role: final(self).characters@[k as int].role, ..old(self).characters@[k as int] },
            ) && final(self).characters@[k as int].role@ == role@),
            !set ==> *final(self) == *old(self),
            same_except_characters(*old(self), *final(self)),
    {
        let k = match self.character_pos(id) {
            Some(k) => k,
            None => return false,
        };
        let mut c = self.characters.remove(k);
        c.role = role.to_owned();
        self.characters.insert(k, c);
        assert(self.characters@ =~= old(self).characters@.update(k as int, self.characters@[k as int]));
        true
    }

    /// Adds a task titled `title` in the to-do column, in the chain selected
    /// on the board (none for no selection or [`ALL_CHAINS`]). Returns its
    /// fresh id.
    pub fn add_task(&mut self, title: &str, chain: Option<&str>) -> (id: String)
        ensures
            id_shaped(id@),
            final(self).tasks@.len() == old(self).tasks@.len() + 1,
            final(self).tasks@.drop_last() == old(self).tasks@,
            final(self).tasks@.last().id@ == id@,
            final(self).tasks@.last().title@ == title@,
            final(self).tasks@.last().description@.len() == 0,
            final(self).tasks@.last().status == 0,
            opt_str(final(self).tasks@.last().chain_id) == chain_for(match chain {
                Some(c) => Some(c@),
                None => None,
            }),
            final(self).chains == old(self).chains,
            same_except_tasks(*old(self), *final(self)),
    {
        let chain_id: Option<String> = match chain {
            Some(c) => if str_eq(c, ALL_CHAINS) {
                None
            } else {
                Some(c.to_owned())
            },
            None => None,
        };
        let id = new_id();
        self.tasks.push(
            Task { id: id.clone(), title: title.to_owned(), description: String::new(), status: 0, chain_id },
        );
        id
    }

    /// Adds an empty task chain named `name`. Returns its fresh id.
    pub fn add_chain(&mut self, name: &str) -> (id: String)
        ensures
            id_shaped(id@),
            final(self).chains@.len() == old(self).chains@.len() + 1,
            final(self).chains@.drop_last() == old(self).chains@,
            final(self).chains@.last().id@ == id@,
            final(self).chains@.last().name@ == name@,
            final(self).chains@.last().description@.len() == 0,
            final(self).chains@.last().task_ids@.len() == 0,
            final(self).tasks == old(self).tasks,
            same_except_tasks(*old(self), *final(self)),
    {
        let id = new_id();
        self.chains.push(TaskChain { id: id.clone(), name: name.to_owned(), description: String::new(), task_ids: Vec::new() });
        id
    }
}

} // verus!
