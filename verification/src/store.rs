//! The encrypted on-disk store: where each file of a novel lives below the data
//! directory, and what is written to it and read back from it.
//!
//! Every file is in the local encrypted format of [`crate::crypto`], with the
//! file's own name as associated data, so that a file copied under another
//! name does not decrypt. The store computes paths and bytes; reading and
//! writing the files is left to the caller.

use vstd::prelude::*;
use crate::context::string_views;
use crate::crypto::{
    aes256gcm_seal, decrypt_bytes, decrypt_result, encrypt_bytes, file_blob, fingerprint,
    hex_upper, is_upper_hex, sha256_of, A_MAX, ENCRYPT_FAILED, FINGERPRINT_BYTES, P_MAX,
};
use crate::model::{Novel, NovelMeta};
use crate::util::{is_lower_hex, new_id, now_ts};
use vstd::string::StringSliceAdditionalSpecFns;
use vstd::utf8::{decode_utf8, encode_utf8, valid_utf8};

verus! {

broadcast use {vstd::utf8::encode_utf8_valid_utf8, vstd::utf8::encode_utf8_decode_utf8};

/// `std::path::PathBuf`, carried through as the data directory.
#[verifier::external_type_specification]
#[verifier::external_body]
pub struct ExPathBuf(std::path::PathBuf);

/// A novel recently opened, as remembered in the settings.
pub struct RecentNovel {
    pub id: String,
    pub title: String,
    pub opened_at: i64,
}

/// The store: its data directory and the 32-byte key every file is encrypted with.
pub struct Store {
    pub data_dir: std::path::PathBuf,
    pub key: [u8; 32],
}

/// A file to be written: its path below the data directory, one component per
/// element, and its bytes.
pub struct StoredFile {
    pub path: Vec<String>,
    pub bytes: Vec<u8>,
}

/// The directory below the data directory that holds one directory per novel.
pub const NOVELS_DIR: &'static str = "novels";
/// The directory of a novel that holds its chapters.
pub const CHAPTERS_DIR: &'static str = "chapters";
/// The file of a novel that holds its structure.
pub const NOVEL_FILE: &'static str = "novel.jsr";
/// The settings file, directly below the data directory.
pub const SETTINGS_FILE: &'static str = "settings.jsr";
/// The extension of every encrypted file.
pub const FILE_EXT: &'static str = ".jsr";
/// The beginning of the error reported for a chapter that is no valid UTF-8.
pub const CHAPTER_ENCODING_ERROR: &'static str = "章节内容编码错误: ";

/// The name of the file of chapter `cid`.
pub open spec fn chapter_file_name(cid: Seq<char>) -> Seq<char> {
    cid + FILE_EXT@
}

/// The directory of novel `id`, below the data directory.
pub open spec fn novel_dir_path(id: Seq<char>) -> Seq<Seq<char>> {
    seq![NOVELS_DIR@, id]
}

/// The file of chapter `cid` of novel `novel_id`, below the data directory.
pub open spec fn chapter_path(novel_id: Seq<char>, cid: Seq<char>) -> Seq<Seq<char>> {
    novel_dir_path(novel_id) + seq![CHAPTERS_DIR@, chapter_file_name(cid)]
}

/// The structure file of novel `id`, below the data directory.
pub open spec fn novel_file_path(id: Seq<char>) -> Seq<Seq<char>> {
    novel_dir_path(id) + seq![NOVEL_FILE@]
}

/// A local file holding `plain`, encrypted under `key` with associated data `aad`
/// and some nonce; both are within the cipher's limits (what a successful
/// encryption shows), so such a file decrypts back to `plain`.
pub open spec fn sealed(blob: Seq<u8>, key: Seq<u8>, aad: Seq<u8>, plain: Seq<u8>) -> bool {
    &&& plain.len() <= P_MAX
    &&& aad.len() <= A_MAX
    &&& exists|nonce: Seq<u8>|
        nonce.len() == 12 && blob == file_blob(nonce, aes256gcm_seal(key, nonce, aad, plain))
}

/// `f` is the file at `path` holding `plain` encrypted under `key`, with the
/// bytes of `name` as associated data.
pub open spec fn stored(f: StoredFile, path: Seq<Seq<char>>, key: Seq<u8>, name: Seq<char>, plain: Seq<u8>) -> bool {
    &&& string_views(f.path@) == path
    &&& sealed(f.bytes@, key, encode_utf8(name), plain)
}

/// What `String::from_utf8` reports, shown as text, for bytes that are no valid UTF-8.
pub uninterp spec fn utf8_error_text(bytes: Seq<u8>) -> Seq<char>;

/// `String::from_utf8`, its error turned into text with `to_string`. Claimed of
/// it, as its documentation says: it succeeds exactly on valid UTF-8, with the
/// characters that the bytes encode; the error's text is named `utf8_error_text`.
#[verifier::external_body]
fn string_from_utf8(bytes: Vec<u8>) -> (r: Result<String, String>)
    ensures
        r is Ok <==> valid_utf8(bytes@),
        r matches Ok(s) ==> s@ == decode_utf8(bytes@),
        r matches Err(e) ==> e@ == utf8_error_text(bytes@),
{
    String::from_utf8(bytes).map_err(|e| e.to_string())
}

/// The text of chapter `cid` read back from file bytes `data` under `key`.
pub open spec fn chapter_text(key: Seq<u8>, cid: Seq<char>, data: Seq<u8>) -> Result<Seq<char>, Seq<char>> {
    match decrypt_result(key, encode_utf8(chapter_file_name(cid)), data) {
        Err(e) => Err(e),
        Ok(p) => if valid_utf8(p) {
            Ok(decode_utf8(p))
        } else {
            Err(CHAPTER_ENCODING_ERROR@ + utf8_error_text(p))
        },
    }
}

/// `n` with a new identity: another id and creation time, all else kept.
pub open spec fn with_identity(n: Novel, id: String, created_at: i64) -> Novel {
    Novel { meta: NovelMeta { id: id, created_at: created_at, ..n.meta }, ..n }
}

proof fn lemma_encoded_len(s: Seq<char>)
    ensures
        encode_utf8(s).len() <= 4 * s.len(),
    decreases s.len(),
{
    if s.len() > 0 {
        lemma_encoded_len(s.drop_first());
    }
}

fn path_of(a: &str, b: &str) -> (r: Vec<String>)
    ensures
        string_views(r@) == seq![a@, b@],
{
    let mut r: Vec<String> = Vec::new();
    r.push(a.to_owned());
    r.push(b.to_owned());
    assert(string_views(r@) =~= seq![a@, b@]);
    r
}

fn chapter_name(cid: &str) -> (r: String)
    ensures
        r@ == chapter_file_name(cid@),
{
    let mut r = cid.to_owned();
    r.append(FILE_EXT);
    r
}

/// Reported when the key file does not hold exactly 32 bytes.
pub const KEY_FILE_CORRUPT: &'static str = "密钥文件损坏（长度不为 32 字节），请删除 data/.jinshu_key 后重试（注意：删除后旧数据将无法解密）";

/// The store's key from the bytes of the key file, which must be exactly 32.
pub fn key_from_bytes(bytes: &[u8]) -> (r: Result<[u8; 32], String>)
    ensures
        bytes@.len() == 32 ==> (r matches Ok(k) && k@ == bytes@),
        bytes@.len() != 32 ==> (r matches Err(e) && e@ == KEY_FILE_CORRUPT@),
{
    if bytes.len() != 32 {
        return Err(KEY_FILE_CORRUPT.to_owned());
    }
    let mut k = [0u8; 32];
    let mut i: usize = 0;
    while i < 32
        invariant
            bytes@.len() == 32,
            i <= 32,
            forall|j: int| 0 <= j < i ==> k@[j] == bytes@[j],
        decreases 32 - i,
    {
        k.set(i, bytes[i]);
        i = i + 1;
    }
    assert(k@ =~= bytes@);
    Ok(k)
}

impl Store {
    /// The fingerprint of the store's key (see [`fingerprint`]).
    pub fn key_fingerprint(&self) -> (r: String)
        ensures
            r@ == hex_upper(sha256_of(self.key@).take(FINGERPRINT_BYTES as int)),
            r@.len() == 2 * FINGERPRINT_BYTES,
            forall|j: int| 0 <= j < r@.len() ==> is_upper_hex(#[trigger] r@[j]),
    {
        fingerprint(&self.key)
    }

    /// The directory of novel `id`, below the data directory.
    pub fn novel_dir(&self, id: &str) -> (r: Vec<String>)
        ensures
            string_views(r@) == novel_dir_path(id@),
    {
        path_of(NOVELS_DIR, id)
    }

    /// The encrypted file of chapter `cid` of novel `novel_id` holding `text`.
    /// It fails only when encryption does, which it does not for texts and
    /// ids of up to 2^36 bytes.
    pub fn save_chapter(&self, novel_id: &str, cid: &str, text: &str) -> (r: Result<StoredFile, String>)
        ensures
            match r {
                Ok(f) => stored(f, chapter_path(novel_id@, cid@), self.key@, chapter_file_name(cid@), text.spec_bytes()),
                Err(e) => e@ == ENCRYPT_FAILED@,
            },
            text.spec_bytes().len() <= P_MAX && encode_utf8(chapter_file_name(cid@)).len() <= A_MAX ==> r is Ok,
    {
        let name = chapter_name(cid);
        let blob = encrypt_bytes(&self.key, name.as_str().as_bytes(), text.as_bytes())?;
        let mut path = self.novel_dir(novel_id);
        path.push(CHAPTERS_DIR.to_owned());
        path.push(name);
        assert(string_views(path@) =~= chapter_path(novel_id@, cid@));
        Ok(StoredFile { path, bytes: blob })
    }

    /// The text of chapter `cid` from the bytes `data` of its file: the file is
    /// decrypted with the chapter's file name as associated data and decoded
    /// as UTF-8. What [`Store::save_chapter`] wrote reads back as the text
    /// that was saved.
    pub fn load_chapter(&self, cid: &str, data: &[u8]) -> (r: Result<String, String>)
        ensures
            match (r, chapter_text(self.key@, cid@, data@)) {
                (Ok(s), Ok(t)) => s@ == t,
                (Err(e), Err(f)) => e@ == f,
                _ => false,
            },
            forall|nonce: Seq<u8>, t: Seq<char>|
                #![trigger file_blob(nonce, aes256gcm_seal(self.key@, nonce, encode_utf8(chapter_file_name(cid@)), encode_utf8(t)))]
                nonce.len() == 12 && encode_utf8(t).len() <= P_MAX
                    && encode_utf8(chapter_file_name(cid@)).len() <= A_MAX && data@ == file_blob(
                    nonce,
                    aes256gcm_seal(self.key@, nonce, encode_utf8(chapter_file_name(cid@)), encode_utf8(t)),
                ) ==> (r matches Ok(s) && s@ == t),
    {
        let name = chapter_name(cid);
        let plain = decrypt_bytes(&self.key, name.as_str().as_bytes(), data)?;
        let ghost p = plain@;
        match string_from_utf8(plain) {
            Ok(s) => Ok(s),
            Err(e) => {
                let mut msg = CHAPTER_ENCODING_ERROR.to_owned();
                msg.append(e.as_str());
                Err(msg)
            },
        }
    }

    /// The encrypted structure file of novel `id`, holding its serialised form `json`.
    pub fn novel_file(&self, id: &str, json: &[u8]) -> (r: Result<StoredFile, String>)
        ensures
            match r {
                Ok(f) => stored(f, novel_file_path(id@), self.key@, NOVEL_FILE@, json@),
                Err(e) => e@ == ENCRYPT_FAILED@,
            },
            json@.len() <= P_MAX ==> r is Ok,
    {
        proof {
            reveal_strlit("novel.jsr");
            lemma_encoded_len(NOVEL_FILE@);
        }
        let blob = encrypt_bytes(&self.key, NOVEL_FILE.as_bytes(), json)?;
        let mut path = self.novel_dir(id);
        path.push(NOVEL_FILE.to_owned());
        assert(string_views(path@) =~= novel_file_path(id@));
        Ok(StoredFile { path, bytes: blob })
    }

    /// The serialised novel held by the bytes `data` of a structure file.
    pub fn novel_json(&self, data: &[u8]) -> (r: Result<Vec<u8>, String>)
        ensures
            match (r, decrypt_result(self.key@, encode_utf8(NOVEL_FILE@), data@)) {
                (Ok(p), Ok(q)) => p@ == q,
                (Err(e), Err(f)) => e@ == f,
                _ => false,
            },
            forall|nonce: Seq<u8>, p: Seq<u8>|
                #![trigger file_blob(nonce, aes256gcm_seal(self.key@, nonce, encode_utf8(NOVEL_FILE@), p))]
                nonce.len() == 12 && p.len() <= P_MAX && data@ == file_blob(
                    nonce,
                    aes256gcm_seal(self.key@, nonce, encode_utf8(NOVEL_FILE@), p),
                ) ==> (r matches Ok(out) && out@ == p),
    {
        proof {
            reveal_strlit("novel.jsr");
            lemma_encoded_len(NOVEL_FILE@);
        }
        decrypt_bytes(&self.key, NOVEL_FILE.as_bytes(), data)
    }

    /// The encrypted settings file holding the serialised settings `json`.
    pub fn settings_file(&self, json: &[u8]) -> (r: Result<StoredFile, String>)
        ensures
            match r {
                Ok(f) => stored(f, seq![SETTINGS_FILE@], self.key@, SETTINGS_FILE@, json@),
                Err(e) => e@ == ENCRYPT_FAILED@,
            },
            json@.len() <= P_MAX ==> r is Ok,
    {
        proof {
            reveal_strlit("settings.jsr");
            lemma_encoded_len(SETTINGS_FILE@);
        }
        let blob = encrypt_bytes(&self.key, SETTINGS_FILE.as_bytes(), json)?;
        let mut path: Vec<String> = Vec::new();
        path.push(SETTINGS_FILE.to_owned());
        assert(string_views(path@) =~= seq![SETTINGS_FILE@]);
        Ok(StoredFile { path, bytes: blob })
    }

    /// The serialised settings held by the bytes `data` of the settings file.
    pub fn settings_json(&self, data: &[u8]) -> (r: Result<Vec<u8>, String>)
        ensures
            match (r, decrypt_result(self.key@, encode_utf8(SETTINGS_FILE@), data@)) {
                (Ok(p), Ok(q)) => p@ == q,
                (Err(e), Err(f)) => e@ == f,
                _ => false,
            },
            forall|nonce: Seq<u8>, p: Seq<u8>|
                #![trigger file_blob(nonce, aes256gcm_seal(self.key@, nonce, encode_utf8(SETTINGS_FILE@), p))]
                nonce.len() == 12 && p.len() <= P_MAX && data@ == file_blob(
                    nonce,
                    aes256gcm_seal(self.key@, nonce, encode_utf8(SETTINGS_FILE@), p),
                ) ==> (r matches Ok(out) && out@ == p),
    {
        proof {
            reveal_strlit("settings.jsr");
            lemma_encoded_len(SETTINGS_FILE@);
        }
        decrypt_bytes(&self.key, SETTINGS_FILE.as_bytes(), data)
    }
}


// ---------------------------------------------------------------------------
// The library, newest first
// ---------------------------------------------------------------------------

/// Where `m` goes in `sorted` (newest first): after every novel updated at
/// the same time or later.
pub open spec fn recent_place(sorted: Seq<NovelMeta>, m: NovelMeta) -> nat
    decreases sorted.len(),
{
    if sorted.len() == 0 || sorted[0].updated_at < m.updated_at {
        0
    } else {
        1 + recent_place(sorted.drop_first(), m)
    }
}

/// `ms` ordered by update time, newest first; novels updated at the same time
/// keep their order (a stable sort).
pub open spec fn recent_first(ms: Seq<NovelMeta>) -> Seq<NovelMeta>
    decreases ms.len(),
{
    if ms.len() == 0 {
        Seq::empty()
    } else {
        let s = recent_first(ms.drop_last());
        s.insert(recent_place(s, ms.last()) as int, ms.last())
    }
}

/// Newest first.
pub open spec fn newest_first(ms: Seq<NovelMeta>) -> bool {
    forall|i: int, j: int| 0 <= i < j < ms.len() ==> ms[i].updated_at >= ms[j].updated_at
}

proof fn lemma_place(sorted: Seq<NovelMeta>, m: NovelMeta)
    ensures
        recent_place(sorted, m) <= sorted.len(),
        forall|i: int| 0 <= i < recent_place(sorted, m) ==> sorted[i].updated_at >= m.updated_at,
        recent_place(sorted, m) < sorted.len() ==> sorted[recent_place(sorted, m) as int].updated_at < m.updated_at,
    decreases sorted.len(),
{
    if sorted.len() > 0 && sorted[0].updated_at >= m.updated_at {
        lemma_place(sorted.drop_first(), m);
        assert forall|i: int| 0 <= i < recent_place(sorted, m) implies sorted[i].updated_at >= m.updated_at by {
            if i > 0 {
                assert(sorted[i] == sorted.drop_first()[i - 1]);
            }
        }
    }
}

/// The library ordered newest first is ordered by update time, newest first,
/// and holds the same novels.
pub proof fn law_recent_first_sorts(ms: Seq<NovelMeta>)
    ensures
        newest_first(recent_first(ms)),
        recent_first(ms).to_multiset() == ms.to_multiset(),
    decreases ms.len(),
{
    broadcast use {vstd::seq_lib::to_multiset_insert, vstd::seq_lib::to_multiset_build};
    broadcast use vstd::multiset::group_multiset_axioms;

    if ms.len() == 0 {
        assert(ms =~= Seq::<NovelMeta>::empty());
    } else {
        law_recent_first_sorts(ms.drop_last());
        let s = recent_first(ms.drop_last());
        let m = ms.last();
        lemma_place(s, m);
        let p = recent_place(s, m) as int;
        let r = s.insert(p, m);
        assert forall|i: int, j: int| 0 <= i < j < r.len() implies r[i].updated_at >= r[j].updated_at by {
            if j < p {
            } else if j == p {
            } else if i < p {
                if p < s.len() {
                    assert(s[j - 1].updated_at <= s[p].updated_at);
                }
            } else if i == p {
                if p < s.len() {
                    assert(s[j - 1].updated_at <= s[p].updated_at);
                }
            } else {
            }
        }
        assert(ms.drop_last().push(m) =~= ms);
        assert(r.to_multiset() == s.to_multiset().insert(m));
        assert(ms.drop_last().push(m).to_multiset() == ms.drop_last().to_multiset().insert(m));
    }
}

/// Orders the novels of the library newest first (by update time), keeping
/// the order of novels updated at the same time.
pub fn sort_recent_first(metas: Vec<NovelMeta>) -> (r: Vec<NovelMeta>)
    ensures
        r@ == recent_first(metas@),
{
    let ghost all = metas@;
    let mut out: Vec<NovelMeta> = Vec::new();
    let ghost mut i: int = 0;
    for m in it: metas.into_iter()
        invariant
            it.seq() == all,
            i == it.index(),
            out@ == recent_first(all.take(i)),
    {
        proof {
            assert(all.take(i + 1).drop_last() =~= all.take(i));
            assert(all.take(i + 1).last() == m);
        }
        let mut p: usize = 0;
        let ghost s = out@;
        proof {
            assert(s.skip(0) =~= s);
        }
        while p < out.len() && !(out[p].updated_at < m.updated_at)
            invariant
                out@ == s,
                p <= s.len(),
                recent_place(s, m) == p + recent_place(s.skip(p as int), m),
            decreases s.len() - p,
        {
            proof {
                assert(s.skip(p as int).drop_first() =~= s.skip(p + 1));
            }
            p = p + 1;
        }
        proof {
            if p < s.len() {
                assert(s.skip(p as int)[0] == s[p as int]);
            }
        }
        out.insert(p, m);
        proof {
            i = i + 1;
        }
    }
    proof {
        assert(all.take(all.len() as int) =~= all);
    }
    out
}

} // verus!
