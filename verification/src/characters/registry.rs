//! The character registry: the packs found under the character-pack root,
//! each checked file by file, and the lookups served from them.
//!
//! Reading the directory is left to the caller, who hands over, for every
//! entry of the root in file-name order, what each file read gave. Every
//! decision the scan makes on those results is taken here.

use vstd::prelude::*;

use crate::characters::assets::{
    asset_content_type, asset_path, is_ogg, is_safe_id, is_webp, normalize_display_name,
    spec_is_ogg, spec_is_webp, spec_required_voices, spec_safe_id, display_name_ok,
    required_voices, CharacterAsset, CharacterRegistryError, CharacterUsage, VoiceLine,
};
use crate::characters::requirements::{expected_views, spec_expected, pair_views, CharacterRequirements};
use crate::crypto::{sha256, sha256_digest};
use crate::text::{
    char_views, chars_end_with, chars_equal, chars_of, chars_start_with, ends_with, is_utf8,
    push_char, split_chars, split_on, starts_with, str_eq, string_from_chars, sub_chars,
    to_lowercase, trim, unicode_lowercase, valid_utf8,
};

verus! {

/// The largest manifest read, in bytes.
pub const MANIFEST_LIMIT: u64 = 65536;

/// The largest license read, in bytes.
pub const LICENSE_LIMIT: u64 = 1048576;

/// The largest icon read, in bytes.
pub const ICON_LIMIT: u64 = 2097152;

/// The largest portrait read, in bytes.
pub const PORTRAIT_LIMIT: u64 = 8388608;

/// The largest voice line read, in bytes.
pub const VOICE_LIMIT: u64 = 8388608;

/// The size limit of an asset file.
pub open spec fn asset_limit(a: CharacterAsset) -> u64 {
    match a {
        CharacterAsset::Portrait => PORTRAIT_LIMIT,
        CharacterAsset::Icon => ICON_LIMIT,
        CharacterAsset::Voice(_) => VOICE_LIMIT,
    }
}

/// The lowercase hexadecimal digits.
pub open spec fn hex_digits() -> Seq<char> {
    seq!['0', '1', '2', '3', '4', '5', '6', '7', '8', '9', 'a', 'b', 'c', 'd', 'e', 'f']
}

/// `b` written in lowercase hexadecimal, two digits per byte.
pub open spec fn hex_lower(b: Seq<u8>) -> Seq<char> {
    Seq::new(
        2 * b.len(),
        |i: int|
            hex_digits()[if i % 2 == 0 {
                (b[i / 2] / 16) as int
            } else {
                (b[i / 2] % 16) as int
            }],
    )
}

/// The entity tag of a file: the lowercase hexadecimal SHA-256 digest of
/// its bytes, in double quotes.
pub open spec fn spec_etag(bytes: Seq<u8>) -> Seq<char> {
    seq!['"'] + hex_lower(sha256_digest(bytes)) + seq!['"']
}

/// `b` in lowercase hexadecimal.
pub fn hex_lower_string(b: &[u8]) -> (res: String)
    ensures
        res@ == hex_lower(b@),
{
    let digits = vec!['0', '1', '2', '3', '4', '5', '6', '7', '8', '9', 'a', 'b', 'c', 'd', 'e', 'f'];
    let mut res = String::new();
    let mut i: usize = 0;
    while i < b.len()
        invariant
            i <= b.len(),
            digits@ == hex_digits(),
            res@.len() == 2 * i,
            forall|j: int| 0 <= j < 2 * i ==> res@[j] == #[trigger] hex_lower(b@)[j],
        decreases b.len() - i,
    {
        let byte = b[i];
        push_char(&mut res, digits[(byte / 16) as usize]);
        push_char(&mut res, digits[(byte % 16) as usize]);
        proof {
            assert(hex_lower(b@)[2 * i] == hex_digits()[(b@[i as int] / 16) as int]);
            assert(hex_lower(b@)[2 * i + 1] == hex_digits()[(b@[i as int] % 16) as int]);
        }
        i += 1;
    }
    assert(res@ =~= hex_lower(b@));
    res
}

/// The entity tag of a file with the given bytes: the 32-byte digest in
/// 64 hexadecimal digits, in double quotes.
pub fn etag_of(bytes: &[u8]) -> (res: String)
    ensures
        res@ == spec_etag(bytes@),
        sha256_digest(bytes@).len() == 32,
        res@.len() == 66,
{
    let digest = sha256(bytes);
    let hex = hex_lower_string(digest.as_slice());
    let mut res = String::new();
    push_char(&mut res, '"');
    res.append(hex.as_str());
    push_char(&mut res, '"');
    res
}

/// A file of a pack as the caller read it: its canonical path, its bytes
/// (read up to one byte past the file's limit) and the device and inode
/// that identify it, where the platform has them.
#[derive(Debug, Clone)]
pub struct ScannedFile {
    pub path: String,
    pub bytes: Vec<u8>,
    pub identity: Option<(u64, u64)>,
}

/// What a scanned file holds.
pub struct FileView {
    pub path: Seq<char>,
    pub bytes: Seq<u8>,
    pub identity: Option<(u64, u64)>,
}

impl View for ScannedFile {
    type V = FileView;

    open spec fn view(&self) -> FileView {
        FileView { path: self.path@, bytes: self.bytes@, identity: self.identity }
    }
}

/// What reading a file gave: the file, or the error its path or read met.
pub open spec fn outcome_view(r: Result<ScannedFile, CharacterRegistryError>) -> Result<
    FileView,
    CharacterRegistryError,
> {
    match r {
        Ok(f) => Ok(f@),
        Err(e) => Err(e),
    }
}

/// A file read, refused when it exceeds `limit`.
pub open spec fn read_within(
    r: Result<FileView, CharacterRegistryError>,
    limit: u64,
) -> Result<FileView, CharacterRegistryError> {
    match r {
        Ok(f) => if f.bytes.len() > limit {
            Err(CharacterRegistryError::InvalidPack)
        } else {
            Ok(f)
        },
        Err(e) => Err(e),
    }
}

/// What an asset file of a loaded pack holds.
pub struct AssetFileView {
    pub relative_path: Seq<char>,
    pub content_type: Seq<char>,
    pub bytes: Seq<u8>,
    pub etag: Seq<char>,
}

/// An asset file of a loaded pack: where it lies under the registry root,
/// its media type, its bytes and its entity tag.
#[derive(Debug, Clone)]
pub struct CharacterAssetFile {
    relative_path: String,
    content_type: &'static str,
    bytes: Vec<u8>,
    etag: String,
}

impl View for CharacterAssetFile {
    type V = AssetFileView;

    closed spec fn view(&self) -> AssetFileView {
        AssetFileView {
            relative_path: self.relative_path@,
            content_type: self.content_type@,
            bytes: self.bytes@,
            etag: self.etag@,
        }
    }
}

impl CharacterAssetFile {
    pub fn relative_path(&self) -> (res: &str)
        ensures
            res@ == self@.relative_path,
    {
        self.relative_path.as_str()
    }

    pub fn content_type(&self) -> (res: &'static str)
        ensures
            res@ == self@.content_type,
    {
        self.content_type
    }

    pub fn bytes(&self) -> (res: &[u8])
        ensures
            res@ == self@.bytes,
    {
        self.bytes.as_slice()
    }

    pub fn etag(&self) -> (res: &str)
        ensures
            res@ == self@.etag,
    {
        self.etag.as_str()
    }
}

/// `path` with the registry root and the `/` after it taken off, or `None`
/// when `path` does not lie under the root.
pub open spec fn path_under(root: Seq<char>, path: Seq<char>) -> Option<Seq<char>> {
    let prefix = if root.len() > 0 && root.last() == '/' {
        root
    } else {
        root + seq!['/']
    };
    if starts_with(path, prefix) {
        Some(path.subrange(prefix.len() as int, path.len() as int))
    } else {
        None
    }
}

/// The media type of a file by its name: WebP for a `.webp` file, Ogg for
/// any other.
pub open spec fn content_type_of(path: Seq<char>) -> Seq<char> {
    if ends_with(path, ".webp"@) {
        "image/webp"@
    } else {
        "audio/ogg"@
    }
}

/// The asset file kept for a file read at `f`, or `None` when `f` does not
/// lie under `root`.
pub open spec fn spec_asset_file(root: Seq<char>, f: FileView) -> Option<AssetFileView> {
    match path_under(root, f.path) {
        Some(rel) => Some(
            AssetFileView {
                relative_path: rel,
                content_type: content_type_of(f.path),
                bytes: f.bytes,
                etag: spec_etag(f.bytes),
            },
        ),
        None => None,
    }
}

fn relative_under(root: &str, path: &str) -> (res: Option<String>)
    ensures
        res matches Some(r) ==> path_under(root@, path@) == Some(r@),
        res is None ==> path_under(root@, path@) is None,
{
    let mut prefix = chars_of(root);
    if prefix.len() == 0 || prefix[prefix.len() - 1] != '/' {
        prefix.push('/');
    }
    let p = chars_of(path);
    proof {
        let want = if root@.len() > 0 && root@.last() == '/' {
            root@
        } else {
            root@ + seq!['/']
        };
        assert(prefix@ =~= want);
    }
    if !chars_start_with(p.as_slice(), prefix.as_slice()) {
        return None;
    }
    let rel = sub_chars(p.as_slice(), prefix.len(), p.len());
    Some(string_from_chars(rel.as_slice()))
}

fn make_asset_file(root: &str, file: ScannedFile) -> (res: Option<CharacterAssetFile>)
    ensures
        res matches Some(a) ==> spec_asset_file(root@, file@) == Some(a@),
        res is None ==> spec_asset_file(root@, file@) is None,
{
    let relative_path = match relative_under(root, file.path.as_str()) {
        Some(r) => r,
        None => return None,
    };
    let path_chars = chars_of(file.path.as_str());
    let webp = chars_of(".webp");
    let content_type = if chars_end_with(path_chars.as_slice(), webp.as_slice()) {
        "image/webp"
    } else {
        "audio/ogg"
    };
    let etag = etag_of(file.bytes.as_slice());
    Some(CharacterAssetFile { relative_path, content_type, bytes: file.bytes, etag })
}

/// The text held by a sequence of strings.
pub open spec fn string_views(s: Seq<String>) -> Seq<Seq<char>> {
    s.map_values(|x: String| x@)
}

/// Whether `v` holds the text `s`.
fn holds_text(v: &Vec<String>, s: &str) -> (res: bool)
    ensures
        res == string_views(v@).contains(s@),
{
    let mut i: usize = 0;
    while i < v.len()
        invariant
            i <= v.len(),
            forall|k: int| 0 <= k < i ==> string_views(v@)[k] != s@,
        decreases v.len() - i,
    {
        if str_eq(v[i].as_str(), s) {
            assert(string_views(v@)[i as int] == s@);
            return true;
        }
        i += 1;
    }
    false
}

/// Whether `v` holds the pair `x`.
fn holds_identity(v: &Vec<(u64, u64)>, x: (u64, u64)) -> (res: bool)
    ensures
        res == v@.contains(x),
{
    let mut i: usize = 0;
    while i < v.len()
        invariant
            i <= v.len(),
            forall|k: int| 0 <= k < i ==> v@[k] != x,
        decreases v.len() - i,
    {
        if v[i].0 == x.0 && v[i].1 == x.1 {
            return true;
        }
        i += 1;
    }
    false
}

/// The pieces of a path, each lowercased, joined again with `/`.
pub open spec fn lowered_join(pieces: Seq<Seq<char>>) -> Seq<char>
    decreases pieces.len(),
{
    if pieces.len() == 0 {
        Seq::empty()
    } else if pieces.len() == 1 {
        unicode_lowercase(pieces[0])
    } else {
        lowered_join(pieces.drop_last()) + seq!['/'] + unicode_lowercase(pieces.last())
    }
}

/// The key under which a path is compared with the others regardless of
/// case: each of its components lowercased.
pub open spec fn case_key(path: Seq<char>) -> Seq<char> {
    lowered_join(split_on(path, '/'))
}

/// The case-insensitive key of `path`.
pub fn case_key_of(path: &str) -> (res: String)
    ensures
        res@ == case_key(path@),
{
    let p = chars_of(path);
    let pieces = split_chars(p.as_slice(), '/');
    let ghost all = char_views(pieces@);
    let mut res = String::new();
    let mut i: usize = 0;
    while i < pieces.len()
        invariant
            i <= pieces.len(),
            all == char_views(pieces@),
            res@ == lowered_join(all.take(i as int)),
        decreases pieces.len() - i,
    {
        let piece = string_from_chars(pieces[i].as_slice());
        let low = to_lowercase(piece.as_str());
        proof {
            assert(all[i as int] == pieces@[i as int]@);
            assert(all.take(i + 1).drop_last() =~= all.take(i as int));
            assert(all.take(i + 1).last() == all[i as int]);
            if i == 0 {
                assert(all.take(0) =~= Seq::<Seq<char>>::empty());
            }
        }
        if i > 0 {
            push_char(&mut res, '/');
        }
        res.append(low.as_str());
        proof {
            if i == 0 {
                assert(res@ =~= unicode_lowercase(all[0]));
                assert(all.take(1)[0] == all[0]);
            }
        }
        i += 1;
    }
    proof {
        assert(all.take(all.len() as int) =~= all);
    }
    res
}

/// What the scan has kept so far: the ids met, the file paths taken with
/// their case-insensitive keys and file identities, and the packs loaded.
pub struct ScanView {
    pub ids: Seq<Seq<char>>,
    pub paths: Seq<Seq<char>>,
    pub keys: Seq<Seq<char>>,
    pub identities: Seq<(u64, u64)>,
    pub packs: Seq<PackView>,
}

/// What a loaded pack holds.
pub struct PackView {
    pub id: Seq<char>,
    pub name: Seq<char>,
    pub usage: CharacterUsage,
    pub assets: Seq<(CharacterAsset, AssetFileView)>,
}

/// The state of a scan before any folder is read.
pub open spec fn empty_scan() -> ScanView {
    ScanView {
        ids: Seq::empty(),
        paths: Seq::empty(),
        keys: Seq::empty(),
        identities: Seq::empty(),
        packs: Seq::empty(),
    }
}

/// Takes the file at `f` for a pack: refused when another file of the scan
/// has the same path, the same identity, or a path that differs from its
/// path only in case.
pub open spec fn register_path(st: ScanView, f: FileView) -> Result<ScanView, CharacterRegistryError> {
    if st.paths.contains(f.path) {
        Err(CharacterRegistryError::DuplicatePath)
    } else if f.identity matches Some(id) && st.identities.contains(id) {
        Err(CharacterRegistryError::DuplicatePath)
    } else if st.keys.contains(case_key(f.path)) {
        Err(CharacterRegistryError::DuplicatePath)
    } else {
        Ok(
            ScanView {
                paths: st.paths.push(f.path),
                identities: match f.identity {
                    Some(id) => st.identities.push(id),
                    None => st.identities,
                },
                keys: st.keys.push(case_key(f.path)),
                ..st
            },
        )
    }
}

/// One loaded character pack: its id, display name, usage and asset files.
#[derive(Debug, Clone)]
pub struct CharacterPack {
    id: String,
    name: String,
    usage: CharacterUsage,
    assets: Vec<(CharacterAsset, CharacterAssetFile)>,
}

/// The text of a pack's asset list.
pub open spec fn asset_views(s: Seq<(CharacterAsset, CharacterAssetFile)>) -> Seq<
    (CharacterAsset, AssetFileView),
> {
    s.map_values(|e: (CharacterAsset, CharacterAssetFile)| (e.0, e.1@))
}

impl View for CharacterPack {
    type V = PackView;

    closed spec fn view(&self) -> PackView {
        PackView {
            id: self.id@,
            name: self.name@,
            usage: self.usage,
            assets: asset_views(self.assets@),
        }
    }
}

/// The file kept for `a` in an asset list: the first entry for it.
pub open spec fn asset_lookup(assets: Seq<(CharacterAsset, AssetFileView)>, a: CharacterAsset) -> Option<
    AssetFileView,
>
    decreases assets.len(),
{
    if assets.len() == 0 {
        None
    } else if assets[0].0 == a {
        Some(assets[0].1)
    } else {
        asset_lookup(assets.drop_first(), a)
    }
}

/// A character's id and display name.
#[derive(Debug, Clone)]
pub struct CharacterSummary {
    pub id: String,
    pub name: String,
}

impl CharacterPack {
    pub fn id(&self) -> (res: &str)
        ensures
            res@ == self@.id,
    {
        self.id.as_str()
    }

    pub fn name(&self) -> (res: &str)
        ensures
            res@ == self@.name,
    {
        self.name.as_str()
    }

    pub fn usage(&self) -> (res: CharacterUsage)
        ensures
            res == self@.usage,
    {
        self.usage
    }

    pub fn summary(&self) -> (res: CharacterSummary)
        ensures
            res.id@ == self@.id,
            res.name@ == self@.name,
    {
        CharacterSummary { id: self.id.clone(), name: self.name.clone() }
    }

    pub fn asset(&self, asset: CharacterAsset) -> (res: Option<&CharacterAssetFile>)
        ensures
            res matches Some(f) ==> asset_lookup(self@.assets, asset) == Some(f@),
            res is None ==> asset_lookup(self@.assets, asset) is None,
    {
        let ghost all = asset_views(self.assets@);
        let mut i: usize = 0;
        assert(all.subrange(0, all.len() as int) =~= all);
        while i < self.assets.len()
            invariant
                i <= self.assets.len(),
                all == asset_views(self.assets@),
                asset_lookup(all, asset) == asset_lookup(all.subrange(i as int, all.len() as int), asset),
            decreases self.assets.len() - i,
        {
            let ghost rest = all.subrange(i as int, all.len() as int);
            assert(rest[0] == all[i as int]);
            assert(all[i as int] == (self.assets@[i as int].0, self.assets@[i as int].1@));
            if self.assets[i].0 == asset {
                return Some(&self.assets[i].1);
            }
            assert(rest.drop_first() =~= all.subrange(i + 1, all.len() as int));
            i += 1;
        }
        None
    }
}

/// A copy of `b`.
fn copy_bytes(b: &Vec<u8>) -> (res: Vec<u8>)
    ensures
        res@ == b@,
{
    let mut res: Vec<u8> = Vec::new();
    let mut i: usize = 0;
    while i < b.len()
        invariant
            i <= b.len(),
            res@ == b@.take(i as int),
        decreases b.len() - i,
    {
        res.push(b[i]);
        assert(b@.take(i + 1) =~= b@.take(i as int).push(b@[i as int]));
        i += 1;
    }
    assert(b@.take(b.len() as int) =~= b@);
    res
}

/// The scan's running state.
struct ScanState {
    ids: Vec<String>,
    paths: Vec<String>,
    keys: Vec<String>,
    identities: Vec<(u64, u64)>,
    packs: Vec<CharacterPack>,
}

/// What a sequence of packs holds.
pub open spec fn pack_views(s: Seq<CharacterPack>) -> Seq<PackView> {
    s.map_values(|p: CharacterPack| p@)
}

impl View for ScanState {
    type V = ScanView;

    closed spec fn view(&self) -> ScanView {
        ScanView {
            ids: string_views(self.ids@),
            paths: string_views(self.paths@),
            keys: string_views(self.keys@),
            identities: self.identities@,
            packs: pack_views(self.packs@),
        }
    }
}

/// Takes the file at `f` for a pack, leaving the state as it was when the
/// file is refused.
fn register(st: &mut ScanState, f: &ScannedFile) -> (res: Result<(), CharacterRegistryError>)
    ensures
        match register_path(old(st)@, f@) {
            Ok(next) => res is Ok && final(st)@ == next,
            Err(e) => res == Err::<(), CharacterRegistryError>(e) && final(st)@ == old(st)@,
        },
{
    if holds_text(&st.paths, f.path.as_str()) {
        return Err(CharacterRegistryError::DuplicatePath);
    }
    if let Some(id) = f.identity {
        if holds_identity(&st.identities, id) {
            return Err(CharacterRegistryError::DuplicatePath);
        }
    }
    let key = case_key_of(f.path.as_str());
    if holds_text(&st.keys, key.as_str()) {
        return Err(CharacterRegistryError::DuplicatePath);
    }
    let ghost before = st@;
    st.paths.push(f.path.clone());
    if let Some(id) = f.identity {
        st.identities.push(id);
    }
    st.keys.push(key);
    proof {
        assert(string_views(st.paths@) =~= before.paths.push(f.path@));
        assert(string_views(st.keys@) =~= before.keys.push(case_key(f.path@)));
    }
    Ok(())
}

/// Whether the bytes of an asset have its container's header.
pub open spec fn format_ok(a: CharacterAsset, b: Seq<u8>) -> bool {
    match a {
        CharacterAsset::Portrait | CharacterAsset::Icon => spec_is_webp(b),
        CharacterAsset::Voice(_) => spec_is_ogg(b),
    }
}

/// Checks one asset of a pack and, when it passes, takes its file and adds
/// it to the pack's assets.
pub open spec fn asset_step(
    st: ScanView,
    assets: Seq<(CharacterAsset, AssetFileView)>,
    root: Seq<char>,
    asset: CharacterAsset,
    outcome: Result<FileView, CharacterRegistryError>,
) -> (ScanView, Result<Seq<(CharacterAsset, AssetFileView)>, CharacterRegistryError>) {
    match read_within(outcome, asset_limit(asset)) {
        Err(e) => (st, Err(e)),
        Ok(f) => if !format_ok(asset, f.bytes) {
            (st, Err(CharacterRegistryError::InvalidPack))
        } else {
            match register_path(st, f) {
                Err(e) => (st, Err(e)),
                Ok(next) => match spec_asset_file(root, f) {
                    None => (next, Err(CharacterRegistryError::UnsafePath)),
                    Some(a) => (next, Ok(assets.push((asset, a)))),
                },
            }
        },
    }
}

fn limit_of(asset: CharacterAsset) -> (res: u64)
    ensures
        res == asset_limit(asset),
{
    match asset {
        CharacterAsset::Portrait => PORTRAIT_LIMIT,
        CharacterAsset::Icon => ICON_LIMIT,
        CharacterAsset::Voice(_) => VOICE_LIMIT,
    }
}

fn run_asset_step(
    st: &mut ScanState,
    assets: &mut Vec<(CharacterAsset, CharacterAssetFile)>,
    root: &str,
    asset: CharacterAsset,
    outcome: &Result<ScannedFile, CharacterRegistryError>,
) -> (res: Result<(), CharacterRegistryError>)
    ensures
        ({
            let (next, r) = asset_step(
                old(st)@,
                asset_views(old(assets)@),
                root@,
                asset,
                outcome_view(*outcome),
            );
            &&& final(st)@ == next
            &&& r is Ok <==> res is Ok
            &&& r matches Ok(a) ==> asset_views(final(assets)@) == a
            &&& r matches Err(e) ==> res == Err::<(), CharacterRegistryError>(e)
        }),
{
    let f = match outcome {
        Ok(f) => f,
        Err(e) => return Err(*e),
    };
    if f.bytes.len() as u64 > limit_of(asset) {
        return Err(CharacterRegistryError::InvalidPack);
    }
    let ok = match asset {
        CharacterAsset::Portrait | CharacterAsset::Icon => is_webp(f.bytes.as_slice()),
        CharacterAsset::Voice(_) => is_ogg(f.bytes.as_slice()),
    };
    if !ok {
        return Err(CharacterRegistryError::InvalidPack);
    }
    register(st, f)?;
    let file = ScannedFile { path: f.path.clone(), bytes: copy_bytes(&f.bytes), identity: f.identity };
    match make_asset_file(root, file) {
        None => Err(CharacterRegistryError::UnsafePath),
        Some(a) => {
            let ghost before = asset_views(assets@);
            assets.push((asset, a));
            proof {
                assert(asset_views(assets@) =~= before.push((asset, a@)));
            }
            Ok(())
        },
    }
}

/// What an entry of the character-pack root is.
#[derive(Debug, Clone, Copy, PartialEq, Eq, Structural)]
pub enum EntryKind {
    /// Its metadata could not be read.
    Unreadable,
    /// A symbolic link or a reparse point.
    Link,
    /// A directory.
    Directory,
    /// Anything else.
    Other,
}

/// The fields of the descriptor file at the root of a pack.
#[derive(Debug, Clone)]
pub struct CharacterManifest {
    pub id: String,
    pub name: String,
    pub usage: CharacterUsage,
}

/// What a manifest holds.
pub struct ManifestView {
    pub id: Seq<char>,
    pub name: Seq<char>,
    pub usage: CharacterUsage,
}

impl View for CharacterManifest {
    type V = ManifestView;

    open spec fn view(&self) -> ManifestView {
        ManifestView { id: self.id@, name: self.name@, usage: self.usage }
    }
}

/// One entry of the character-pack root, as the caller read it: its file
/// name (`None` when it is not UTF-8), what it is, and for each file of a
/// pack the file or the error its path or read met. `manifest` is the
/// manifest file's content, or `None` when it is not a manifest.
#[derive(Debug)]
pub struct ScannedFolder {
    pub name: Option<String>,
    pub kind: EntryKind,
    pub manifest_file: Result<ScannedFile, CharacterRegistryError>,
    pub manifest: Option<CharacterManifest>,
    pub license: Result<ScannedFile, CharacterRegistryError>,
    pub portrait: Result<ScannedFile, CharacterRegistryError>,
    pub icon: Result<ScannedFile, CharacterRegistryError>,
    pub voices: Vec<Result<ScannedFile, CharacterRegistryError>>,
}

/// What a scanned entry holds.
pub struct FolderView {
    pub name: Option<Seq<char>>,
    pub kind: EntryKind,
    pub manifest_file: Result<FileView, CharacterRegistryError>,
    pub manifest: Option<ManifestView>,
    pub license: Result<FileView, CharacterRegistryError>,
    pub portrait: Result<FileView, CharacterRegistryError>,
    pub icon: Result<FileView, CharacterRegistryError>,
    pub voices: Seq<Result<FileView, CharacterRegistryError>>,
}

impl View for ScannedFolder {
    type V = FolderView;

    open spec fn view(&self) -> FolderView {
        FolderView {
            name: match self.name {
                Some(n) => Some(n@),
                None => None,
            },
            kind: self.kind,
            manifest_file: outcome_view(self.manifest_file),
            manifest: match self.manifest {
                Some(m) => Some(m@),
                None => None,
            },
            license: outcome_view(self.license),
            portrait: outcome_view(self.portrait),
            icon: outcome_view(self.icon),
            voices: self.voices@.map_values(
                |v: Result<ScannedFile, CharacterRegistryError>| outcome_view(v),
            ),
        }
    }
}

/// The assets of a pack, in the order they are checked.
pub open spec fn pack_assets() -> Seq<CharacterAsset> {
    seq![CharacterAsset::Portrait, CharacterAsset::Icon]
        + spec_required_voices().map_values(|v: VoiceLine| CharacterAsset::Voice(v))
}

/// What reading the `k`-th voice line of a folder gave; a missing one is
/// an invalid pack.
pub open spec fn voice_outcome(voices: Seq<Result<FileView, CharacterRegistryError>>, k: int) -> Result<
    FileView,
    CharacterRegistryError,
> {
    if 0 <= k < voices.len() {
        voices[k]
    } else {
        Err(CharacterRegistryError::InvalidPack)
    }
}

/// What reading each asset of a folder gave, in the order of `pack_assets`.
pub open spec fn asset_outcomes(f: FolderView) -> Seq<Result<FileView, CharacterRegistryError>> {
    Seq::new(
        8,
        |k: int|
            if k == 0 {
                f.portrait
            } else if k == 1 {
                f.icon
            } else {
                voice_outcome(f.voices, k - 2)
            },
    )
}

/// The first `n` asset steps of a pack, stopping at the first refusal.
pub open spec fn assets_upto(
    st: ScanView,
    root: Seq<char>,
    f: FolderView,
    n: nat,
) -> (ScanView, Result<Seq<(CharacterAsset, AssetFileView)>, CharacterRegistryError>)
    decreases n,
{
    if n == 0 {
        (st, Ok(Seq::empty()))
    } else {
        let (mid, r) = assets_upto(st, root, f, (n - 1) as nat);
        match r {
            Err(e) => (mid, Err(e)),
            Ok(a) => asset_step(mid, a, root, pack_assets()[n - 1], asset_outcomes(f)[n - 1]),
        }
    }
}

/// Checks a pack whose manifest `m` was read from `mf`: its id against its
/// folder, its name, its license and its assets, taking each file in turn.
/// The files taken stay taken when a later check refuses the pack.
pub open spec fn validate_pack(
    st: ScanView,
    root: Seq<char>,
    f: FolderView,
    m: ManifestView,
    mf: FileView,
) -> (ScanView, Result<PackView, CharacterRegistryError>) {
    if !(f.name matches Some(n) && spec_safe_id(m.id) && m.id == n) {
        (st, Err(CharacterRegistryError::InvalidPack))
    } else if !display_name_ok(m.name) {
        (st, Err(CharacterRegistryError::InvalidPack))
    } else {
        match register_path(st, mf) {
            Err(e) => (st, Err(e)),
            Ok(s1) => match read_within(f.license, LICENSE_LIMIT) {
                Err(e) => (s1, Err(e)),
                Ok(lf) => if lf.bytes.len() == 0 || !valid_utf8(lf.bytes) {
                    (s1, Err(CharacterRegistryError::InvalidPack))
                } else {
                    match register_path(s1, lf) {
                        Err(e) => (s1, Err(e)),
                        Ok(s2) => {
                            let (s3, r) = assets_upto(s2, root, f, 8);
                            match r {
                                Err(e) => (s3, Err(e)),
                                Ok(a) => (
                                    s3,
                                    Ok(PackView { id: m.id, name: trim(m.name), usage: m.usage, assets: a }),
                                ),
                            }
                        },
                    }
                },
            },
        }
    }
}

/// Whether a pack with id `id` is among `packs`.
pub open spec fn has_pack(packs: Seq<PackView>, id: Seq<char>) -> bool {
    exists|i: int| 0 <= i < packs.len() && (#[trigger] packs[i]).id == id
}

/// One entry of the root: a link is refused, anything but a directory
/// skipped, a directory with an unreadable manifest skipped, a repeated id
/// refused, and a pack that fails its checks skipped unless a path was
/// unsafe or taken twice.
pub open spec fn folder_step(st: ScanView, root: Seq<char>, f: FolderView) -> Result<
    ScanView,
    CharacterRegistryError,
> {
    match f.kind {
        EntryKind::Unreadable => Err(CharacterRegistryError::Io),
        EntryKind::Link => Err(CharacterRegistryError::UnsafePath),
        EntryKind::Other => Ok(st),
        EntryKind::Directory => match read_within(f.manifest_file, MANIFEST_LIMIT) {
            Err(e) => if e == CharacterRegistryError::UnsafePath {
                Err(e)
            } else {
                Ok(st)
            },
            Ok(mf) => match f.manifest {
                None => Ok(st),
                Some(m) => if st.ids.contains(m.id) {
                    Err(CharacterRegistryError::DuplicateId)
                } else {
                    let s1 = ScanView { ids: st.ids.push(m.id), ..st };
                    let (s2, r) = validate_pack(s1, root, f, m, mf);
                    match r {
                        Ok(p) => if has_pack(s2.packs, p.id) {
                            Err(CharacterRegistryError::DuplicateId)
                        } else {
                            Ok(ScanView { packs: s2.packs.push(p), ..s2 })
                        },
                        Err(e) => if e == CharacterRegistryError::UnsafePath || e
                            == CharacterRegistryError::DuplicatePath {
                            Err(e)
                        } else {
                            Ok(s2)
                        },
                    }
                },
            },
        },
    }
}

/// The scan of the first `n` entries, stopping at the first refusal.
pub open spec fn scan_upto(root: Seq<char>, folders: Seq<FolderView>, n: nat) -> Result<
    ScanView,
    CharacterRegistryError,
>
    decreases n,
{
    if n == 0 {
        Ok(empty_scan())
    } else {
        match scan_upto(root, folders, (n - 1) as nat) {
            Err(e) => Err(e),
            Ok(st) => folder_step(st, root, folders[n - 1]),
        }
    }
}

proof fn lemma_assets_err_stays(st: ScanView, root: Seq<char>, f: FolderView, n: nat, m: nat)
    requires
        n <= m,
        assets_upto(st, root, f, n).1 is Err,
    ensures
        assets_upto(st, root, f, m) == assets_upto(st, root, f, n),
    decreases m,
{
    if m > n {
        lemma_assets_err_stays(st, root, f, n, (m - 1) as nat);
    }
}

proof fn lemma_assets_keep_packs(st: ScanView, root: Seq<char>, f: FolderView, n: nat)
    ensures
        assets_upto(st, root, f, n).0.packs == st.packs,
        assets_upto(st, root, f, n).0.ids == st.ids,
    decreases n,
{
    if n > 0 {
        lemma_assets_keep_packs(st, root, f, (n - 1) as nat);
    }
}

fn run_assets(st: &mut ScanState, root: &str, f: &ScannedFolder) -> (res: Result<
    Vec<(CharacterAsset, CharacterAssetFile)>,
    CharacterRegistryError,
>)
    ensures
        ({
            let (next, r) = assets_upto(old(st)@, root@, f@, 8);
            &&& final(st)@ == next
            &&& r is Ok <==> res is Ok
            &&& r matches Ok(a) ==> (res matches Ok(v) && asset_views(v@) == a)
            &&& r matches Err(e) ==> res == Err::<
                Vec<(CharacterAsset, CharacterAssetFile)>,
                CharacterRegistryError,
            >(e)
        }),
{
    let kinds = vec![
        CharacterAsset::Portrait,
        CharacterAsset::Icon,
        CharacterAsset::Voice(VoiceLine::Chi),
        CharacterAsset::Voice(VoiceLine::Pon),
        CharacterAsset::Voice(VoiceLine::Kan),
        CharacterAsset::Voice(VoiceLine::Riichi),
        CharacterAsset::Voice(VoiceLine::Ron),
        CharacterAsset::Voice(VoiceLine::Tsumo),
    ];
    assert(kinds@ =~= pack_assets());
    let missing: Result<ScannedFile, CharacterRegistryError> = Err(CharacterRegistryError::InvalidPack);
    let ghost st0 = st@;
    let mut assets: Vec<(CharacterAsset, CharacterAssetFile)> = Vec::new();
    assert(asset_views(assets@) =~= Seq::<(CharacterAsset, AssetFileView)>::empty());
    let mut k: usize = 0;
    while k < 8
        invariant
            k <= 8,
            kinds@ == pack_assets(),
            st0 == old(st)@,
            missing == Err::<ScannedFile, CharacterRegistryError>(CharacterRegistryError::InvalidPack),
            assets_upto(st0, root@, f@, k as nat) == (st@, Ok::<
                Seq<(CharacterAsset, AssetFileView)>,
                CharacterRegistryError,
            >(asset_views(assets@))),
        decreases 8 - k,
    {
        let outcome: &Result<ScannedFile, CharacterRegistryError> = if k == 0 {
            &f.portrait
        } else if k == 1 {
            &f.icon
        } else if k - 2 < f.voices.len() {
            &f.voices[k - 2]
        } else {
            &missing
        };
        proof {
            assert(outcome_view(*outcome) == asset_outcomes(f@)[k as int]);
        }
        let ghost prev_st = st@;
        let ghost prev_a = asset_views(assets@);
        let r = run_asset_step(st, &mut assets, root, kinds[k], outcome);
        proof {
            assert(assets_upto(st0, root@, f@, (k + 1) as nat) == asset_step(
                prev_st,
                prev_a,
                root@,
                pack_assets()[k as int],
                asset_outcomes(f@)[k as int],
            ));
        }
        match r {
            Ok(()) => {},
            Err(e) => {
                proof {
                    let step = asset_step(
                        prev_st,
                        prev_a,
                        root@,
                        pack_assets()[k as int],
                        asset_outcomes(f@)[k as int],
                    );
                    assert(step.0 == st@);
                    assert(step.1 == Err::<Seq<(CharacterAsset, AssetFileView)>, CharacterRegistryError>(e));
                    lemma_assets_err_stays(st0, root@, f@, (k + 1) as nat, 8);
                    assert(assets_upto(st0, root@, f@, 8).0 == st@);
                }
                return Err(e);
            },
        }
        k += 1;
    }
    Ok(assets)
}

fn run_validate_pack(
    st: &mut ScanState,
    root: &str,
    f: &ScannedFolder,
    m: &CharacterManifest,
    mf: &ScannedFile,
) -> (res: Result<CharacterPack, CharacterRegistryError>)
    ensures
        ({
            let (next, r) = validate_pack(old(st)@, root@, f@, m@, mf@);
            &&& final(st)@ == next
            &&& r is Ok <==> res is Ok
            &&& r matches Ok(p) ==> (res matches Ok(q) && q@ == p)
            &&& r matches Err(e) ==> res == Err::<CharacterPack, CharacterRegistryError>(e)
        }),
{
    match &f.name {
        None => {
            return Err(CharacterRegistryError::InvalidPack);
        },
        Some(n) => {
            if !is_safe_id(m.id.as_str()) || !str_eq(m.id.as_str(), n.as_str()) {
                return Err(CharacterRegistryError::InvalidPack);
            }
        },
    }
    let name = match normalize_display_name(m.name.as_str()) {
        None => {
            return Err(CharacterRegistryError::InvalidPack);
        },
        Some(n) => n,
    };
    match register(st, mf) {
        Ok(()) => {},
        Err(e) => {
            return Err(e);
        },
    }
    let lf = match &f.license {
        Err(e) => {
            return Err(*e);
        },
        Ok(lf) => lf,
    };
    if lf.bytes.len() as u64 > LICENSE_LIMIT {
        return Err(CharacterRegistryError::InvalidPack);
    }
    if lf.bytes.len() == 0 || !is_utf8(lf.bytes.as_slice()) {
        return Err(CharacterRegistryError::InvalidPack);
    }
    match register(st, lf) {
        Ok(()) => {},
        Err(e) => {
            return Err(e);
        },
    }
    let assets = match run_assets(st, root, f) {
        Ok(a) => a,
        Err(e) => {
            return Err(e);
        },
    };
    Ok(CharacterPack { id: m.id.clone(), name, usage: m.usage, assets })
}

fn holds_pack(packs: &Vec<CharacterPack>, id: &str) -> (res: bool)
    ensures
        res == has_pack(pack_views(packs@), id@),
{
    let mut i: usize = 0;
    while i < packs.len()
        invariant
            i <= packs.len(),
            forall|k: int| 0 <= k < i ==> pack_views(packs@)[k].id != id@,
        decreases packs.len() - i,
    {
        if str_eq(packs[i].id(), id) {
            assert(pack_views(packs@)[i as int].id == id@);
            return true;
        }
        i += 1;
    }
    false
}

fn run_folder_step(st: &mut ScanState, root: &str, f: &ScannedFolder) -> (res: Result<
    (),
    CharacterRegistryError,
>)
    ensures
        match folder_step(old(st)@, root@, f@) {
            Ok(next) => res is Ok && final(st)@ == next,
            Err(e) => res == Err::<(), CharacterRegistryError>(e),
        },
{
    match f.kind {
        EntryKind::Unreadable => {
            return Err(CharacterRegistryError::Io);
        },
        EntryKind::Link => {
            return Err(CharacterRegistryError::UnsafePath);
        },
        EntryKind::Other => {
            return Ok(());
        },
        EntryKind::Directory => {},
    }
    let mf = match &f.manifest_file {
        Err(e) => {
            if *e == CharacterRegistryError::UnsafePath {
                return Err(*e);
            }
            return Ok(());
        },
        Ok(mf) => mf,
    };
    if mf.bytes.len() as u64 > MANIFEST_LIMIT {
        return Ok(());
    }
    let m = match &f.manifest {
        None => {
            return Ok(());
        },
        Some(m) => m,
    };
    if holds_text(&st.ids, m.id.as_str()) {
        return Err(CharacterRegistryError::DuplicateId);
    }
    let ghost before = st@;
    st.ids.push(m.id.clone());
    proof {
        assert(string_views(st.ids@) =~= before.ids.push(m.id@));
        assert(st@ == ScanView { ids: before.ids.push(m.id@), ..before });
    }
    match run_validate_pack(st, root, f, m, mf) {
        Ok(p) => {
            if holds_pack(&st.packs, p.id()) {
                return Err(CharacterRegistryError::DuplicateId);
            }
            let ghost mid = st@;
            st.packs.push(p);
            proof {
                assert(pack_views(st.packs@) =~= mid.packs.push(p@));
            }
            Ok(())
        },
        Err(e) => {
            if e == CharacterRegistryError::UnsafePath || e == CharacterRegistryError::DuplicatePath {
                Err(e)
            } else {
                Ok(())
            }
        },
    }
}

/// What a sequence of scanned entries holds.
pub open spec fn folder_views(s: Seq<ScannedFolder>) -> Seq<FolderView> {
    s.map_values(|f: ScannedFolder| f@)
}

proof fn lemma_scan_err_stays(root: Seq<char>, folders: Seq<FolderView>, n: nat, m: nat)
    requires
        n <= m,
        scan_upto(root, folders, n) is Err,
    ensures
        scan_upto(root, folders, m) == scan_upto(root, folders, n),
    decreases m,
{
    if m > n {
        lemma_scan_err_stays(root, folders, n, (m - 1) as nat);
    }
}

/// No two packs share an id.
pub open spec fn ids_distinct(packs: Seq<PackView>) -> bool {
    forall|i: int, j: int| 0 <= i < j < packs.len() ==> (#[trigger] packs[i]).id != (#[trigger] packs[j]).id
}

proof fn lemma_scan_ids_distinct(root: Seq<char>, folders: Seq<FolderView>, n: nat)
    ensures
        scan_upto(root, folders, n) matches Ok(st) ==> ids_distinct(st.packs),
    decreases n,
{
    if n > 0 {
        lemma_scan_ids_distinct(root, folders, (n - 1) as nat);
        if let Ok(st) = scan_upto(root, folders, (n - 1) as nat) {
            let f = folders[n - 1];
            if f.kind == EntryKind::Directory && read_within(f.manifest_file, MANIFEST_LIMIT) is Ok
                && f.manifest is Some && !st.ids.contains(f.manifest->0.id) {
                let m = f.manifest->0;
                let mf = read_within(f.manifest_file, MANIFEST_LIMIT)->Ok_0;
                let s1 = ScanView { ids: st.ids.push(m.id), ..st };
                lemma_validate_keeps_packs(s1, root, f, m, mf);
                let (s2, r) = validate_pack(s1, root, f, m, mf);
                if let Ok(p) = r {
                    if !has_pack(s2.packs, p.id) {
                        let q = s2.packs.push(p);
                        assert forall|i: int, j: int| 0 <= i < j < q.len() implies (#[trigger] q[i]).id
                            != (#[trigger] q[j]).id by {
                            if j == q.len() - 1 {
                                assert(q[i] == s2.packs[i]);
                            } else {
                                assert(q[i] == s2.packs[i] && q[j] == s2.packs[j]);
                            }
                        }
                    }
                }
            }
        }
    }
}

proof fn lemma_validate_keeps_packs(
    st: ScanView,
    root: Seq<char>,
    f: FolderView,
    m: ManifestView,
    mf: FileView,
)
    ensures
        validate_pack(st, root, f, m, mf).0.packs == st.packs,
{
    if let Ok(s1) = register_path(st, mf) {
        if let Ok(lf) = read_within(f.license, LICENSE_LIMIT) {
            if let Ok(s2) = register_path(s1, lf) {
                lemma_assets_keep_packs(s2, root, f, 8);
            }
        }
    }
}

fn run_scan(root: &str, folders: &Vec<ScannedFolder>) -> (res: Result<
    Vec<CharacterPack>,
    CharacterRegistryError,
>)
    ensures
        match scan_upto(root@, folder_views(folders@), folders@.len()) {
            Ok(st) => res matches Ok(packs) && pack_views(packs@) == st.packs,
            Err(e) => res == Err::<Vec<CharacterPack>, CharacterRegistryError>(e),
        },
{
    let ghost fs = folder_views(folders@);
    let mut st = ScanState {
        ids: Vec::new(),
        paths: Vec::new(),
        keys: Vec::new(),
        identities: Vec::new(),
        packs: Vec::new(),
    };
    proof {
        assert(st@ == empty_scan()) by {
            assert(string_views(st.ids@) =~= Seq::<Seq<char>>::empty());
            assert(string_views(st.paths@) =~= Seq::<Seq<char>>::empty());
            assert(string_views(st.keys@) =~= Seq::<Seq<char>>::empty());
            assert(pack_views(st.packs@) =~= Seq::<PackView>::empty());
        }
    }
    let mut i: usize = 0;
    while i < folders.len()
        invariant
            i <= folders.len(),
            fs == folder_views(folders@),
            scan_upto(root@, fs, i as nat) == Ok::<ScanView, CharacterRegistryError>(st@),
        decreases folders.len() - i,
    {
        assert(fs[i as int] == folders@[i as int]@);
        match run_folder_step(&mut st, root, &folders[i]) {
            Ok(()) => {},
            Err(e) => {
                proof {
                    lemma_scan_err_stays(root@, fs, (i + 1) as nat, folders@.len());
                }
                return Err(e);
            },
        }
        i += 1;
    }
    Ok(st.packs)
}

/// The first pack among `packs` with id `id`.
pub open spec fn pack_lookup(packs: Seq<PackView>, id: Seq<char>) -> Option<PackView>
    decreases packs.len(),
{
    if packs.len() == 0 {
        None
    } else if packs[0].id == id {
        Some(packs[0])
    } else {
        pack_lookup(packs.drop_first(), id)
    }
}

/// Whether a pack for humans is among `packs`.
pub open spec fn has_human(packs: Seq<PackView>) -> bool {
    exists|i: int| 0 <= i < packs.len() && (#[trigger] packs[i]).usage == CharacterUsage::Human
}

/// The first expected pack that is missing or has another usage, as the
/// error it gives; `None` when every expected pack is there.
pub open spec fn expectation_failure(
    packs: Seq<PackView>,
    expected: Seq<(Seq<char>, CharacterUsage)>,
) -> Option<CharacterRegistryError>
    decreases expected.len(),
{
    if expected.len() == 0 {
        None
    } else {
        match pack_lookup(packs, expected[0].0) {
            None => Some(CharacterRegistryError::MissingRequiredPack),
            Some(p) => if p.usage != expected[0].1 {
                Some(CharacterRegistryError::UsageMismatch)
            } else {
                expectation_failure(packs, expected.drop_first())
            },
        }
    }
}

/// The packs that scanning `folders` under `root` loads, checked against
/// the expected packs when there are any: the scan's error, no pack for
/// humans, or the first expected pack missing or of another usage.
pub open spec fn registry_packs(
    root: Seq<char>,
    folders: Seq<FolderView>,
    expected: Option<Seq<(Seq<char>, CharacterUsage)>>,
) -> Result<Seq<PackView>, CharacterRegistryError> {
    match scan_upto(root, folders, folders.len()) {
        Err(e) => Err(e),
        Ok(st) => if !has_human(st.packs) {
            Err(CharacterRegistryError::MissingHumanPack)
        } else {
            match expected {
                None => Ok(st.packs),
                Some(x) => match expectation_failure(st.packs, x) {
                    Some(e) => Err(e),
                    None => Ok(st.packs),
                },
            }
        },
    }
}

/// Whether a pack holds all eight assets, in the order of `pack_assets`,
/// each with its container's header and with the entity tag of its bytes.
pub open spec fn pack_complete(p: PackView) -> bool {
    &&& p.assets.len() == 8
    &&& forall|k: int|
        0 <= k < 8 ==> (#[trigger] p.assets[k]).0 == pack_assets()[k] && format_ok(
            p.assets[k].0,
            p.assets[k].1.bytes,
        ) && p.assets[k].1.etag == spec_etag(p.assets[k].1.bytes)
}

proof fn lemma_assets_complete(st: ScanView, root: Seq<char>, f: FolderView, n: nat)
    ensures
        assets_upto(st, root, f, n).1 matches Ok(a) ==> a.len() == n && forall|k: int|
            0 <= k < n ==> (#[trigger] a[k]).0 == pack_assets()[k] && format_ok(a[k].0, a[k].1.bytes)
                && a[k].1.etag == spec_etag(a[k].1.bytes),
    decreases n,
{
    if n > 0 {
        lemma_assets_complete(st, root, f, (n - 1) as nat);
        let (mid, r) = assets_upto(st, root, f, (n - 1) as nat);
        if let Ok(a) = r {
            let asset = pack_assets()[n - 1];
            let out = asset_step(mid, a, root, asset, asset_outcomes(f)[n - 1]);
            if let Ok(a2) = out.1 {
                let fv = read_within(asset_outcomes(f)[n - 1], asset_limit(asset))->Ok_0;
                let av = spec_asset_file(root, fv)->0;
                assert(a2 == a.push((asset, av)));
                assert forall|k: int| 0 <= k < n implies (#[trigger] a2[k]).0 == pack_assets()[k]
                    && format_ok(a2[k].0, a2[k].1.bytes) && a2[k].1.etag == spec_etag(a2[k].1.bytes) by {
                    if k < n - 1 {
                        assert(a2[k] == a[k]);
                    }
                }
            }
        }
    }
}

proof fn lemma_scan_packs_complete(root: Seq<char>, folders: Seq<FolderView>, n: nat)
    ensures
        scan_upto(root, folders, n) matches Ok(st) ==> forall|i: int|
            0 <= i < st.packs.len() ==> pack_complete(#[trigger] st.packs[i]),
    decreases n,
{
    if n > 0 {
        lemma_scan_packs_complete(root, folders, (n - 1) as nat);
        if let Ok(st) = scan_upto(root, folders, (n - 1) as nat) {
            let f = folders[n - 1];
            if f.kind == EntryKind::Directory && read_within(f.manifest_file, MANIFEST_LIMIT) is Ok
                && f.manifest is Some && !st.ids.contains(f.manifest->0.id) {
                let m = f.manifest->0;
                let mf = read_within(f.manifest_file, MANIFEST_LIMIT)->Ok_0;
                let s1 = ScanView { ids: st.ids.push(m.id), ..st };
                lemma_validate_keeps_packs(s1, root, f, m, mf);
                let (s2, r) = validate_pack(s1, root, f, m, mf);
                if let Ok(p) = r {
                    if let Ok(sa) = register_path(s1, mf) {
                        if let Ok(lf) = read_within(f.license, LICENSE_LIMIT) {
                            if let Ok(sb) = register_path(sa, lf) {
                                lemma_assets_complete(sb, root, f, 8);
                            }
                        }
                    }
                    assert(pack_complete(p));
                    if !has_pack(s2.packs, p.id) {
                        let q = s2.packs.push(p);
                        assert forall|i: int| 0 <= i < q.len() implies pack_complete(#[trigger] q[i]) by {
                            if i < q.len() - 1 {
                                assert(q[i] == s2.packs[i]);
                            }
                        }
                    }
                }
            }
        }
    }
}

/// Every pack of a registry that loads holds all eight assets, in order,
/// each with its container's header (WebP for the pictures, Ogg for the
/// voice lines) and the entity tag of its bytes.
pub proof fn law_registry_packs_are_complete(
    root: Seq<char>,
    folders: Seq<FolderView>,
    expected: Option<Seq<(Seq<char>, CharacterUsage)>>,
    i: int,
)
    ensures
        registry_packs(root, folders, expected) matches Ok(packs) ==> (0 <= i < packs.len() ==> pack_complete(
            packs[i],
        )),
{
    lemma_scan_packs_complete(root, folders, folders.len());
}

/// The packs of a registry that loads have distinct ids, and one of them
/// is for humans.
pub proof fn law_registry_packs_distinct_with_human(
    root: Seq<char>,
    folders: Seq<FolderView>,
    expected: Option<Seq<(Seq<char>, CharacterUsage)>>,
)
    ensures
        registry_packs(root, folders, expected) matches Ok(packs) ==> ids_distinct(packs) && has_human(
            packs,
        ),
{
    lemma_scan_ids_distinct(root, folders, folders.len());
}

/// The ids and names of the packs for humans, in order.
pub open spec fn human_summaries(packs: Seq<PackView>) -> Seq<(Seq<char>, Seq<char>)>
    decreases packs.len(),
{
    if packs.len() == 0 {
        Seq::empty()
    } else if packs.last().usage == CharacterUsage::Human {
        human_summaries(packs.drop_last()).push((packs.last().id, packs.last().name))
    } else {
        human_summaries(packs.drop_last())
    }
}

/// What a registry holds: its root and its packs, in file-name order.
pub struct RegistryView {
    pub root: Seq<char>,
    pub packs: Seq<PackView>,
}

/// The loaded character packs, keyed by id.
#[derive(Debug)]
pub struct CharacterRegistry {
    root: String,
    packs: Vec<CharacterPack>,
}

impl View for CharacterRegistry {
    type V = RegistryView;

    closed spec fn view(&self) -> RegistryView {
        RegistryView { root: self.root@, packs: pack_views(self.packs@) }
    }
}

/// The directory under the data root that holds the character packs.
pub open spec fn spec_pack_root(data_root: Seq<char>) -> Seq<char> {
    crate::text::join_path(data_root, "character-packs"@)
}

/// The directory under `data_root` that holds the character packs.
pub fn pack_root(data_root: &str) -> (res: String)
    ensures
        res@ == spec_pack_root(data_root@),
{
    crate::text::join_path_str(data_root, "character-packs")
}

/// The summaries of a list of summaries.
pub open spec fn summary_views(s: Seq<CharacterSummary>) -> Seq<(Seq<char>, Seq<char>)> {
    s.map_values(|x: CharacterSummary| (x.id@, x.name@))
}

fn first_pack_index(packs: &Vec<CharacterPack>, id: &str) -> (res: Option<usize>)
    ensures
        res matches Some(i) ==> i < packs.len() && pack_lookup(pack_views(packs@), id@) == Some(
            pack_views(packs@)[i as int],
        ),
        res is None ==> pack_lookup(pack_views(packs@), id@) is None,
{
    let ghost all = pack_views(packs@);
    let mut i: usize = 0;
    assert(all.subrange(0, all.len() as int) =~= all);
    while i < packs.len()
        invariant
            i <= packs.len(),
            all == pack_views(packs@),
            pack_lookup(all, id@) == pack_lookup(all.subrange(i as int, all.len() as int), id@),
        decreases packs.len() - i,
    {
        let ghost rest = all.subrange(i as int, all.len() as int);
        assert(rest[0] == all[i as int]);
        if str_eq(packs[i].id(), id) {
            return Some(i);
        }
        assert(rest.drop_first() =~= all.subrange(i + 1, all.len() as int));
        i += 1;
    }
    None
}

impl CharacterRegistry {
    #[verifier::type_invariant]
    spec fn ids_unique(self) -> bool {
        ids_distinct(pack_views(self.packs@))
    }

    fn scan_with_requirements(
        root: &str,
        folders: &Vec<ScannedFolder>,
        expected: Option<Vec<(String, CharacterUsage)>>,
    ) -> (res: Result<CharacterRegistry, CharacterRegistryError>)
        ensures
            match registry_packs(
                root@,
                folder_views(folders@),
                match expected {
                    Some(x) => Some(expected_views(x@)),
                    None => None,
                },
            ) {
                Ok(packs) => res matches Ok(r) && r@.root == root@ && r@.packs == packs,
                Err(e) => res == Err::<CharacterRegistry, CharacterRegistryError>(e),
            },
    {
        proof {
            lemma_scan_ids_distinct(root@, folder_views(folders@), folders@.len());
        }
        let packs = match run_scan(root, folders) {
            Ok(p) => p,
            Err(e) => {
                return Err(e);
            },
        };
        let ghost want = if expected is Some {
            Some(expected_views(expected->0@))
        } else {
            None
        };
        proof {
            assert(scan_upto(root@, folder_views(folders@), folders@.len()) is Ok);
            assert(ids_distinct(pack_views(packs@)));
        }
        let mut found_human = false;
        let mut i: usize = 0;
        while i < packs.len()
            invariant
                i <= packs.len(),
                ids_distinct(pack_views(packs@)),
                found_human == exists|k: int| 0 <= k < i && (#[trigger] pack_views(packs@)[k]).usage
                    == CharacterUsage::Human,
            decreases packs.len() - i,
        {
            if packs[i].usage() == CharacterUsage::Human {
                assert(pack_views(packs@)[i as int].usage == CharacterUsage::Human);
                found_human = true;
            }
            i += 1;
        }
        if !found_human {
            return Err(CharacterRegistryError::MissingHumanPack);
        }
        if let Some(x) = expected {
            let ghost xs = expected_views(x@);
            let mut j: usize = 0;
            assert(xs.subrange(0, xs.len() as int) =~= xs);
            proof {
                assert(has_human(pack_views(packs@)));
            }
            while j < x.len()
                invariant
                    j <= x.len(),
                    xs == expected_views(x@),
                    want == Some(xs),
                    want == (if expected is Some {
                        Some(expected_views(expected->0@))
                    } else {
                        None
                    }),
                    ids_distinct(pack_views(packs@)),
                    registry_packs(root@, folder_views(folders@), Some(xs)) == match expectation_failure(
                        pack_views(packs@),
                        xs,
                    ) {
                        Some(e) => Err(e),
                        None => Ok(pack_views(packs@)),
                    },
                    expectation_failure(pack_views(packs@), xs) == expectation_failure(
                        pack_views(packs@),
                        xs.subrange(j as int, xs.len() as int),
                    ),
                decreases x.len() - j,
            {
                let ghost rest = xs.subrange(j as int, xs.len() as int);
                assert(rest[0] == xs[j as int]);
                assert(xs[j as int] == (x@[j as int].0@, x@[j as int].1));
                match first_pack_index(&packs, x[j].0.as_str()) {
                    None => {
                        return Err(CharacterRegistryError::MissingRequiredPack);
                    },
                    Some(k) => {
                        assert(pack_views(packs@)[k as int] == packs@[k as int]@);
                        if packs[k].usage() != x[j].1 {
                            return Err(CharacterRegistryError::UsageMismatch);
                        }
                    },
                }
                assert(rest.drop_first() =~= xs.subrange(j + 1, xs.len() as int));
                j += 1;
            }
        }
        Ok(CharacterRegistry { root: root.to_owned(), packs })
    }

    /// The registry of the packs under `root`, whatever packs it holds
    /// beyond one for humans.
    pub fn scan(root: &str, folders: &Vec<ScannedFolder>) -> (res: Result<
        CharacterRegistry,
        CharacterRegistryError,
    >)
        ensures
            match registry_packs(root@, folder_views(folders@), None) {
                Ok(packs) => res matches Ok(r) && r@.root == root@ && r@.packs == packs,
                Err(e) => res == Err::<CharacterRegistry, CharacterRegistryError>(e),
            },
    {
        Self::scan_with_requirements(root, folders, None)
    }

    /// The registry of the packs under `root`, which must hold every pack
    /// that `requirements` names, with the usage it names.
    pub fn load(
        root: &str,
        folders: &Vec<ScannedFolder>,
        requirements: &CharacterRequirements,
    ) -> (res: Result<CharacterRegistry, CharacterRegistryError>)
        ensures
            !crate::characters::requirements::requirements_valid(
                requirements.mjai@,
                requirements.builtin@,
                requirements.mcp@,
                pair_views(requirements.mcp_providers@),
            ) ==> res == Err::<CharacterRegistry, CharacterRegistryError>(
                CharacterRegistryError::InvalidRequirement,
            ),
            crate::characters::requirements::requirements_valid(
                requirements.mjai@,
                requirements.builtin@,
                requirements.mcp@,
                pair_views(requirements.mcp_providers@),
            ) ==> match registry_packs(
                root@,
                folder_views(folders@),
                Some(
                    spec_expected(
                        requirements.mjai@,
                        requirements.builtin@,
                        requirements.mcp@,
                        pair_views(requirements.mcp_providers@),
                    ),
                ),
            ) {
                Ok(packs) => res matches Ok(r) && r@.root == root@ && r@.packs == packs,
                Err(e) => res == Err::<CharacterRegistry, CharacterRegistryError>(e),
            },
    {
        match requirements.validate() {
            Ok(()) => {},
            Err(e) => {
                return Err(e);
            },
        }
        let expected = requirements.expected();
        Self::scan_with_requirements(root, folders, Some(expected))
    }

    /// The registry of the packs found in the character-pack directory of a
    /// data root (see `pack_root`), checked against `requirements`.
    pub fn load_from_data_root(
        pack_dir: &str,
        folders: &Vec<ScannedFolder>,
        requirements: &CharacterRequirements,
    ) -> (res: Result<CharacterRegistry, CharacterRegistryError>)
        ensures
            !crate::characters::requirements::requirements_valid(
                requirements.mjai@,
                requirements.builtin@,
                requirements.mcp@,
                pair_views(requirements.mcp_providers@),
            ) ==> res == Err::<CharacterRegistry, CharacterRegistryError>(
                CharacterRegistryError::InvalidRequirement,
            ),
            crate::characters::requirements::requirements_valid(
                requirements.mjai@,
                requirements.builtin@,
                requirements.mcp@,
                pair_views(requirements.mcp_providers@),
            ) ==> match registry_packs(
                pack_dir@,
                folder_views(folders@),
                Some(
                    spec_expected(
                        requirements.mjai@,
                        requirements.builtin@,
                        requirements.mcp@,
                        pair_views(requirements.mcp_providers@),
                    ),
                ),
            ) {
                Ok(packs) => res matches Ok(r) && r@.root == pack_dir@ && r@.packs == packs,
                Err(e) => res == Err::<CharacterRegistry, CharacterRegistryError>(e),
            },
    {
        Self::load(pack_dir, folders, requirements)
    }

    /// The registry of the packs found in the character-pack directory of a
    /// data root, checked against the starter requirements.
    pub fn load_default_from_data_root(pack_dir: &str, folders: &Vec<ScannedFolder>) -> (res:
        Result<CharacterRegistry, CharacterRegistryError>)
        ensures
            match registry_packs(
                pack_dir@,
                folder_views(folders@),
                Some(
                    seq![
                        ("mjai-bot"@, CharacterUsage::Mjai),
                        ("tsumogiri-bot"@, CharacterUsage::Builtin),
                        ("mcp-agent"@, CharacterUsage::Mcp),
                    ],
                ),
            ) {
                Ok(packs) => res matches Ok(r) && r@.root == pack_dir@ && r@.packs == packs,
                Err(e) => res == Err::<CharacterRegistry, CharacterRegistryError>(e),
            },
    {
        let starter = CharacterRequirements::starter();
        proof {
            reveal_strlit("mjai-bot");
            reveal_strlit("tsumogiri-bot");
            reveal_strlit("mcp-agent");
            assert(spec_safe_id("mjai-bot"@));
            assert(spec_safe_id("tsumogiri-bot"@));
            assert(spec_safe_id("mcp-agent"@));
            assert(pair_views(starter.mcp_providers@) =~= Seq::empty());
            assert(crate::characters::requirements::provider_packs(Seq::empty()) =~= Seq::empty());
        }
        Self::load(pack_dir, folders, &starter)
    }

    pub fn root(&self) -> (res: &str)
        ensures
            res@ == self@.root,
    {
        self.root.as_str()
    }

    /// The pack with id `id`; none for an id that is not safe.
    pub fn character(&self, id: &str) -> (res: Option<&CharacterPack>)
        ensures
            !spec_safe_id(id@) ==> res is None,
            spec_safe_id(id@) ==> match pack_lookup(self@.packs, id@) {
                Some(p) => res matches Some(q) && q@ == p,
                None => res is None,
            },
    {
        if !is_safe_id(id) {
            return None;
        }
        match first_pack_index(&self.packs, id) {
            Some(i) => Some(&self.packs[i]),
            None => None,
        }
    }

    /// Every pack, in id order.
    pub fn characters(&self) -> (res: &[CharacterPack])
        ensures
            pack_views(res@) == self@.packs,
    {
        self.packs.as_slice()
    }

    /// The id and name of every pack for humans, in id order.
    pub fn human_characters(&self) -> (res: Vec<CharacterSummary>)
        ensures
            summary_views(res@) == human_summaries(self@.packs),
    {
        let ghost all = pack_views(self.packs@);
        let mut res: Vec<CharacterSummary> = Vec::new();
        let mut i: usize = 0;
        assert(summary_views(res@) =~= human_summaries(all.take(0)));
        while i < self.packs.len()
            invariant
                i <= self.packs.len(),
                all == pack_views(self.packs@),
                summary_views(res@) == human_summaries(all.take(i as int)),
            decreases self.packs.len() - i,
        {
            let ghost before = summary_views(res@);
            proof {
                assert(all.take(i + 1).drop_last() =~= all.take(i as int));
                assert(all.take(i + 1).last() == all[i as int]);
                assert(all[i as int] == self.packs@[i as int]@);
            }
            if self.packs[i].usage() == CharacterUsage::Human {
                let summary = self.packs[i].summary();
                res.push(summary);
                proof {
                    assert(summary_views(res@) =~= before.push((all[i as int].id, all[i as int].name)));
                }
            }
            i += 1;
        }
        assert(all.take(all.len() as int) =~= all);
        res
    }

    /// The file of `asset` in the pack with id `id`.
    pub fn asset(&self, id: &str, asset: CharacterAsset) -> (res: Option<&CharacterAssetFile>)
        ensures
            !spec_safe_id(id@) ==> res is None,
            spec_safe_id(id@) ==> match pack_lookup(self@.packs, id@) {
                Some(p) => match asset_lookup(p.assets, asset) {
                    Some(f) => res matches Some(g) && g@ == f,
                    None => res is None,
                },
                None => res is None,
            },
    {
        match self.character(id) {
            Some(pack) => pack.asset(asset),
            None => None,
        }
    }
}

} // verus!
