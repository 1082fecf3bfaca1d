//! Exporting a novel as plain text or Markdown, and bringing an imported
//! backup into the store.
//!
//! Chapters are given as `(id, title, text)` triples. Each volume lists the
//! given chapters that belong to it, in the order in which they are given; a
//! volume with none of them is left out.

use vstd::prelude::*;
use crate::crypto::{
    aes256gcm_seal, encrypt_jsb, jsb_blob, password_key, zlib_compressed, A_MAX, ENCRYPT_FAILED, P_MAX,
};
use crate::model::{Novel, NovelMeta, Volume, MAIN_VOLUME};
use crate::store::{chapter_file_name, chapter_path, stored, with_identity, Store, StoredFile};
use crate::text::{str_eq, to_chars};
use crate::util::{is_lower_hex, new_id, now_ts};
use vstd::string::StringSliceAdditionalSpecFns;
use vstd::utf8::encode_utf8;

verus! {

/// A chapter to export: id, title and text.
pub type ChapterEntry = (String, String, String);

pub const TXT_TITLE_OPEN: &'static str = "《";
pub const TXT_TITLE_CLOSE: &'static str = "》\n";
pub const TXT_AUTHOR: &'static str = "作者：";
pub const TXT_DESCRIPTION: &'static str = "简介：";
pub const NEWLINE: &'static str = "\n";
/// The rule above and below a volume title in plain text: twenty `=`.
pub const TXT_VOLUME_RULE: &'static str = "====================";
/// The rule below a chapter title in plain text: twelve `-`.
pub const TXT_CHAPTER_RULE: &'static str = "------------";
pub const MD_TITLE: &'static str = "# ";
pub const MD_AUTHOR: &'static str = "> 作者：";
pub const MD_DESCRIPTION_END: &'static str = "\n\n---\n";
pub const MD_VOLUME: &'static str = "\n## ";
pub const MD_CHAPTER: &'static str = "\n### ";
pub const BLANK_LINE: &'static str = "\n\n";

/// Chapter `id` is listed in volume `v`.
pub open spec fn in_volume(v: Volume, id: Seq<char>) -> bool {
    exists|k: int| 0 <= k < v.chapters@.len() && v.chapters@[k].id@ == id
}

/// The entries of `cs` that belong to volume `v`, in order.
pub open spec fn volume_entries(v: Volume, cs: Seq<ChapterEntry>) -> Seq<ChapterEntry>
    decreases cs.len(),
{
    if cs.len() == 0 {
        Seq::empty()
    } else if in_volume(v, cs.last().0@) {
        volume_entries(v, cs.drop_last()).push(cs.last())
    } else {
        volume_entries(v, cs.drop_last())
    }
}

/// A chapter's text, ended by a newline if it does not end with one.
pub open spec fn ended(text: Seq<char>) -> Seq<char> {
    if text.len() > 0 && text.last() == '\n' {
        text
    } else {
        text + NEWLINE@
    }
}

/// `s` when `cond`, else nothing.
pub open spec fn when(cond: bool, s: Seq<char>) -> Seq<char> {
    if cond {
        s
    } else {
        Seq::empty()
    }
}

/// A chapter in plain text.
pub open spec fn txt_chapter(e: ChapterEntry) -> Seq<char> {
    NEWLINE@ + e.1@ + NEWLINE@ + TXT_CHAPTER_RULE@ + BLANK_LINE@ + ended(e.2@)
}

/// A chapter in Markdown.
pub open spec fn md_chapter(e: ChapterEntry) -> Seq<char> {
    MD_CHAPTER@ + e.1@ + BLANK_LINE@ + ended(e.2@)
}

/// The chapters `es`, each rendered by `f`, one after another.
pub open spec fn rendered(es: Seq<ChapterEntry>, f: spec_fn(ChapterEntry) -> Seq<char>) -> Seq<char>
    decreases es.len(),
{
    if es.len() == 0 {
        Seq::empty()
    } else {
        rendered(es.drop_last(), f) + f(es.last())
    }
}

/// The heading of a volume in plain text, its title framed by a rule above
/// and below; it is written for every volume that has chapters to show.
pub open spec fn txt_volume_heading(v: Volume) -> Seq<char> {
    when(
        v.title@ != MAIN_VOLUME@ || v.chapters@.len() > 0,
        NEWLINE@ + TXT_VOLUME_RULE@ + NEWLINE@ + v.title@ + NEWLINE@ + TXT_VOLUME_RULE@ + BLANK_LINE@,
    )
}

/// The heading of a volume in Markdown; the main volume has none.
pub open spec fn md_volume_heading(v: Volume) -> Seq<char> {
    when(v.title@ != MAIN_VOLUME@, MD_VOLUME@ + v.title@ + BLANK_LINE@)
}

/// A volume with its chapters from `cs`, or nothing when none of them belongs to it.
pub open spec fn volume_text(
    v: Volume,
    cs: Seq<ChapterEntry>,
    heading: spec_fn(Volume) -> Seq<char>,
    f: spec_fn(ChapterEntry) -> Seq<char>,
) -> Seq<char> {
    let es = volume_entries(v, cs);
    when(es.len() > 0, heading(v) + rendered(es, f))
}

/// The volumes `vs`, each with its chapters from `cs`.
pub open spec fn volumes_text(
    vs: Seq<Volume>,
    cs: Seq<ChapterEntry>,
    heading: spec_fn(Volume) -> Seq<char>,
    f: spec_fn(ChapterEntry) -> Seq<char>,
) -> Seq<char>
    decreases vs.len(),
{
    if vs.len() == 0 {
        Seq::empty()
    } else {
        volumes_text(vs.drop_last(), cs, heading, f) + volume_text(vs.last(), cs, heading, f)
    }
}

/// The head of a plain-text export: title, author and description when given.
pub open spec fn txt_head(m: NovelMeta) -> Seq<char> {
    TXT_TITLE_OPEN@ + m.title@ + TXT_TITLE_CLOSE@
        + when(m.author@.len() > 0, TXT_AUTHOR@ + m.author@ + NEWLINE@)
        + when(m.description@.len() > 0, TXT_DESCRIPTION@ + m.description@ + NEWLINE@)
        + NEWLINE@
}

/// The head of a Markdown export: title, author and description when given.
pub open spec fn md_head(m: NovelMeta) -> Seq<char> {
    MD_TITLE@ + m.title@ + BLANK_LINE@
        + when(m.author@.len() > 0, MD_AUTHOR@ + m.author@ + BLANK_LINE@)
        + when(m.description@.len() > 0, m.description@ + MD_DESCRIPTION_END@)
}

/// The plain-text export of `n` with chapters `cs`.
pub open spec fn txt_export(n: Novel, cs: Seq<ChapterEntry>) -> Seq<char> {
    txt_head(n.meta) + volumes_text(n.volumes@, cs, |v: Volume| txt_volume_heading(v), |e: ChapterEntry| txt_chapter(e))
}

/// The Markdown export of `n` with chapters `cs`.
pub open spec fn md_export(n: Novel, cs: Seq<ChapterEntry>) -> Seq<char> {
    md_head(n.meta) + volumes_text(n.volumes@, cs, |v: Volume| md_volume_heading(v), |e: ChapterEntry| md_chapter(e))
}

fn belongs(v: &Volume, id: &str) -> (r: bool)
    ensures
        r == in_volume(*v, id@),
{
    let mut k: usize = 0;
    while k < v.chapters.len()
        invariant
            k <= v.chapters@.len(),
            forall|j: int| 0 <= j < k ==> v.chapters@[j].id@ != id@,
        decreases v.chapters.len() - k,
    {
        if str_eq(v.chapters[k].id.as_str(), id) {
            return true;
        }
        k = k + 1;
    }
    false
}

fn append_ended(out: &mut String, text: &str)
    ensures
        final(out)@ == old(out)@ + ended(text@),
{
    out.append(text);
    let cs = to_chars(text);
    if cs.len() == 0 || cs[cs.len() - 1] != '\n' {
        out.append(NEWLINE);
    }
}

proof fn lemma_entries_step(v: Volume, cs: Seq<ChapterEntry>, j: int)
    requires
        0 <= j < cs.len(),
    ensures
        volume_entries(v, cs.take(j + 1)) == if in_volume(v, cs[j].0@) {
            volume_entries(v, cs.take(j)).push(cs[j])
        } else {
            volume_entries(v, cs.take(j))
        },
{
    assert(cs.take(j + 1).drop_last() =~= cs.take(j));
}

proof fn lemma_rendered_push(es: Seq<ChapterEntry>, e: ChapterEntry, f: spec_fn(ChapterEntry) -> Seq<char>)
    ensures
        rendered(es.push(e), f) == rendered(es, f) + f(e),
{
    assert(es.push(e).drop_last() =~= es);
}

fn has_entries(v: &Volume, cs: &[ChapterEntry]) -> (r: bool)
    ensures
        r == (volume_entries(*v, cs@).len() > 0),
{
    let mut any = false;
    let mut j: usize = 0;
    while j < cs.len()
        invariant
            j <= cs@.len(),
            any == (volume_entries(*v, cs@.take(j as int)).len() > 0),
        decreases cs.len() - j,
    {
        proof {
            lemma_entries_step(*v, cs@, j as int);
        }
        if belongs(v, cs[j].0.as_str()) {
            any = true;
        }
        j = j + 1;
    }
    assert(cs@.take(cs@.len() as int) =~= cs@);
    any
}

fn append_txt_chapter(out: &mut String, e: &ChapterEntry)
    ensures
        final(out)@ == old(out)@ + txt_chapter(*e),
{
    out.append(NEWLINE);
    out.append(e.1.as_str());
    out.append(NEWLINE);
    out.append(TXT_CHAPTER_RULE);
    out.append(BLANK_LINE);
    append_ended(out, e.2.as_str());
}

fn append_md_chapter(out: &mut String, e: &ChapterEntry)
    ensures
        final(out)@ == old(out)@ + md_chapter(*e),
{
    out.append(MD_CHAPTER);
    out.append(e.1.as_str());
    out.append(BLANK_LINE);
    append_ended(out, e.2.as_str());
}

/// Appends the chapters of `cs` that belong to `v`, rendered as plain text or
/// as Markdown.
fn append_entries(out: &mut String, v: &Volume, cs: &[ChapterEntry], markdown: bool)
    ensures
        final(out)@ == old(out)@ + rendered(
            volume_entries(*v, cs@),
            if markdown {
                |e: ChapterEntry| md_chapter(e)
            } else {
                |e: ChapterEntry| txt_chapter(e)
            },
        ),
{
    let ghost f = if markdown {
        |e: ChapterEntry| md_chapter(e)
    } else {
        |e: ChapterEntry| txt_chapter(e)
    };
    let mut j: usize = 0;
    while j < cs.len()
        invariant
            j <= cs@.len(),
            out@ == old(out)@ + rendered(volume_entries(*v, cs@.take(j as int)), f),
            forall|e: ChapterEntry| #[trigger] f(e) == if markdown {
                md_chapter(e)
            } else {
                txt_chapter(e)
            },
        decreases cs.len() - j,
    {
        proof {
            lemma_entries_step(*v, cs@, j as int);
            lemma_rendered_push(volume_entries(*v, cs@.take(j as int)), cs@[j as int], f);
        }
        let ghost before = out@;
        if belongs(v, cs[j].0.as_str()) {
            if markdown {
                append_md_chapter(out, &cs[j]);
            } else {
                append_txt_chapter(out, &cs[j]);
            }
            assert(out@ =~= before + f(cs@[j as int]));
        }
        j = j + 1;
    }
    assert(cs@.take(cs@.len() as int) =~= cs@);
}

/// Appends every volume of `n` with its chapters from `cs`.
fn append_volumes(out: &mut String, n: &Novel, cs: &[ChapterEntry], markdown: bool)
    ensures
        final(out)@ == old(out)@ + if markdown {
            volumes_text(n.volumes@, cs@, |v: Volume| md_volume_heading(v), |e: ChapterEntry| md_chapter(e))
        } else {
            volumes_text(n.volumes@, cs@, |v: Volume| txt_volume_heading(v), |e: ChapterEntry| txt_chapter(e))
        },
{
    let ghost heading = if markdown {
        |v: Volume| md_volume_heading(v)
    } else {
        |v: Volume| txt_volume_heading(v)
    };
    let ghost f = if markdown {
        |e: ChapterEntry| md_chapter(e)
    } else {
        |e: ChapterEntry| txt_chapter(e)
    };
    let mut i: usize = 0;
    while i < n.volumes.len()
        invariant
            i <= n.volumes@.len(),
            out@ == old(out)@ + volumes_text(n.volumes@.take(i as int), cs@, heading, f),
            heading == (if markdown {
                |v: Volume| md_volume_heading(v)
            } else {
                |v: Volume| txt_volume_heading(v)
            }),
            f == (if markdown {
                |e: ChapterEntry| md_chapter(e)
            } else {
                |e: ChapterEntry| txt_chapter(e)
            }),
        decreases n.volumes.len() - i,
    {
        let v = &n.volumes[i];
        proof {
            assert(n.volumes@.take(i + 1).drop_last() =~= n.volumes@.take(i as int));
        }
        let ghost before = out@;
        if has_entries(v, cs) {
            if markdown {
                if !str_eq(v.title.as_str(), MAIN_VOLUME) {
                    out.append(MD_VOLUME);
                    out.append(v.title.as_str());
                    out.append(BLANK_LINE);
                }
            } else {
                if !str_eq(v.title.as_str(), MAIN_VOLUME) || v.chapters.len() > 0 {
                    out.append(NEWLINE);
                    out.append(TXT_VOLUME_RULE);
                    out.append(NEWLINE);
                    out.append(v.title.as_str());
                    out.append(NEWLINE);
                    out.append(TXT_VOLUME_RULE);
                    out.append(BLANK_LINE);
                }
            }
            let ghost mid = out@;
            assert(mid =~= before + heading(*v));
            append_entries(out, v, cs, markdown);
            assert(out@ =~= before + volume_text(*v, cs@, heading, f));
        } else {
            assert(volume_text(*v, cs@, heading, f) =~= Seq::<char>::empty());
            assert(out@ =~= before + volume_text(*v, cs@, heading, f));
        }
        assert(n.volumes@.take(i + 1).last() == *v);
        i = i + 1;
    }
    assert(n.volumes@.take(n.volumes@.len() as int) =~= n.volumes@);
}

/// The novel as plain text: a head with the title in 《》, the author and the
/// description when given, then each volume under a rule of `=` and each of its
/// chapters under a rule of `-`, every chapter ending with a newline.
pub fn export_txt(novel: &Novel, chapters: &[ChapterEntry]) -> (r: String)
    ensures
        r@ == txt_export(*novel, chapters@),
{
    let mut out = String::new();
    out.append(TXT_TITLE_OPEN);
    out.append(novel.meta.title.as_str());
    out.append(TXT_TITLE_CLOSE);
    if !novel.meta.author.as_str().is_empty() {
        out.append(TXT_AUTHOR);
        out.append(novel.meta.author.as_str());
        out.append(NEWLINE);
    }
    if !novel.meta.description.as_str().is_empty() {
        out.append(TXT_DESCRIPTION);
        out.append(novel.meta.description.as_str());
        out.append(NEWLINE);
    }
    out.append(NEWLINE);
    append_volumes(&mut out, novel, chapters, false);
    out
}

/// The novel as Markdown: the title as a level-1 heading, the author as a
/// quote and the description followed by a rule when given, then each volume
/// but the main one as a level-2 heading and each chapter as a level-3 heading,
/// every chapter ending with a newline.
pub fn export_md(novel: &Novel, chapters: &[ChapterEntry]) -> (r: String)
    ensures
        r@ == md_export(*novel, chapters@),
{
    let mut out = String::new();
    out.append(MD_TITLE);
    out.append(novel.meta.title.as_str());
    out.append(BLANK_LINE);
    if !novel.meta.author.as_str().is_empty() {
        out.append(MD_AUTHOR);
        out.append(novel.meta.author.as_str());
        out.append(BLANK_LINE);
    }
    if !novel.meta.description.as_str().is_empty() {
        out.append(novel.meta.description.as_str());
        out.append(MD_DESCRIPTION_END);
    }
    append_volumes(&mut out, novel, chapters, true);
    out
}

/// An identifier as [`new_id`] makes them: 32 lowercase hexadecimal digits.
pub open spec fn fresh_id(id: Seq<char>) -> bool {
    id.len() == 32 && forall|i: int| 0 <= i < 32 ==> is_lower_hex(#[trigger] id[i])
}

/// Brings an imported novel into the store: the novel gets a fresh id and
/// creation time, so that it cannot collide with a novel already there, and
/// each chapter text becomes its encrypted chapter file under the new id, in
/// the order given. Returns the new id with those files. It fails only when
/// encryption does, which it does not for texts and ids of up to 2^36 bytes.
pub fn import_to_store(store: &Store, novel: &mut Novel, chapters: &[ChapterEntry]) -> (r: Result<(String, Vec<StoredFile>), String>)
    ensures
        fresh_id(final(novel).meta.id@),
        *final(novel) == with_identity(*old(novel), final(novel).meta.id, final(novel).meta.created_at),
        match r {
            Ok((id, files)) => {
                &&& id@ == final(novel).meta.id@
                &&& files@.len() == chapters@.len()
                &&& forall|i: int|
                    0 <= i < chapters@.len() ==> stored(
                        #[trigger] files@[i],
                        chapter_path(id@, chapters@[i].0@),
                        store.key@,
                        chapter_file_name(chapters@[i].0@),
                        encode_utf8(chapters@[i].2@),
                    )
            },
            Err(e) => e@ == ENCRYPT_FAILED@,
        },
        (forall|i: int|
            0 <= i < chapters@.len() ==> encode_utf8((#[trigger] chapters@[i]).2@).len() <= P_MAX
                && encode_utf8(chapter_file_name(chapters@[i].0@)).len() <= A_MAX) ==> r is Ok,
{
    novel.meta.id = new_id();
    novel.meta.created_at = now_ts();
    let id = novel.meta.id.clone();
    let mut files: Vec<StoredFile> = Vec::new();
    let mut i: usize = 0;
    while i < chapters.len()
        invariant
            i <= chapters@.len(),
            id@ == novel.meta.id@,
            fresh_id(novel.meta.id@),
            *novel == with_identity(*old(novel), novel.meta.id, novel.meta.created_at),
            files@.len() == i,
            forall|k: int|
                0 <= k < i ==> stored(
                    #[trigger] files@[k],
                    chapter_path(id@, chapters@[k].0@),
                    store.key@,
                    chapter_file_name(chapters@[k].0@),
                    encode_utf8(chapters@[k].2@),
                ),
        decreases chapters.len() - i,
    {
        let f = store.save_chapter(id.as_str(), chapters[i].0.as_str(), chapters[i].2.as_str())?;
        files.push(f);
        i = i + 1;
    }
    Ok((id, files))
}


/// The formats a novel can be exported to.
#[derive(Clone, Copy, PartialEq, Eq, Structural)]
pub enum ExportFormat {
    /// Plain text.
    Txt,
    /// Markdown.
    Md,
}

/// Reported for a format that is not known.
pub const UNKNOWN_FORMAT: &'static str = "未知导出格式";

/// The format named `fmt`: `txt` or `md`; any other name is none.
pub open spec fn format_named(fmt: Seq<char>) -> Option<ExportFormat> {
    if fmt == "txt"@ {
        Some(ExportFormat::Txt)
    } else if fmt == "md"@ {
        Some(ExportFormat::Md)
    } else {
        None
    }
}

/// `blob` is a password backup of `plain` under `password` (see [`encrypt_jsb`]).
pub open spec fn jsb_of(blob: Seq<u8>, password: Seq<u8>, plain: Seq<u8>) -> bool {
    exists|salt: Seq<u8>, nonce: Seq<u8>, key: Seq<u8>, z: Seq<u8>|
        #![trigger jsb_blob(salt, nonce, aes256gcm_seal(key, nonce, Seq::empty(), z))]
        salt.len() == 16 && nonce.len() == 12 && password_key(password, salt) == Some(key)
            && zlib_compressed(plain) == Some(z) && z.len() <= P_MAX && blob == jsb_blob(
            salt,
            nonce,
            aes256gcm_seal(key, nonce, Seq::empty(), z),
        )
}

/// The bytes of the file exported in format `fmt`: the plain-text or Markdown
/// rendering of the novel as UTF-8. Any other format (a backup included) is
/// refused with [`UNKNOWN_FORMAT`].
pub fn export_work(fmt: &str, novel: &Novel, chapters: &[ChapterEntry]) -> (r: Result<Vec<u8>, String>)
    ensures
        match format_named(fmt@) {
            None => r matches Err(e) && e@ == UNKNOWN_FORMAT@,
            Some(ExportFormat::Txt) => r matches Ok(b) && b@ == encode_utf8(txt_export(*novel, chapters@)),
            Some(ExportFormat::Md) => r matches Ok(b) && b@ == encode_utf8(md_export(*novel, chapters@)),
        },
{
    if str_eq(fmt, "txt") {
        let s = export_txt(novel, chapters);
        Ok(vstd::slice::slice_to_vec(s.as_str().as_bytes()))
    } else if str_eq(fmt, "md") {
        let s = export_md(novel, chapters);
        Ok(vstd::slice::slice_to_vec(s.as_str().as_bytes()))
    } else {
        Err(UNKNOWN_FORMAT.to_owned())
    }
}

/// The password backup (`.jsb`) of `backup`, the serialised novel and its
/// chapters, under `password`. It succeeds whenever the compressed backup is
/// within the cipher's limit (2^36 bytes).
pub fn export_jsb(password: &str, backup: &[u8]) -> (r: Result<Vec<u8>, String>)
    ensures
        r matches Ok(b) ==> jsb_of(b@, password.spec_bytes(), backup@),
        zlib_compressed(backup@) matches Some(z) && z.len() <= P_MAX ==> r is Ok,
{
    encrypt_jsb(password, backup)
}

} // verus!
