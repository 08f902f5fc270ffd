//! Release checking: comparing version numbers, choosing the download of a
//! newer release, and the text of the script that swaps in the new binary.
//!
//! The caller fetches the latest release from the release host and hands it
//! over as a `GitHubRelease`, and hands over the downloaded bundle, which is
//! unpacked here; writing the files and restarting are the caller's.

use vstd::prelude::*;
use std::io::Read;
use crate::text::{
    chars_of, contains_chars, contains_seq, dec_seq, parse_uint, parse_uint_chars, push_decimal,
    split_chars, split_seq, string_from_chars,
};

verus! {

/// The version of this program.
pub const CURRENT_VERSION: &'static str = "0.1.0";

/// The numbers that the dotted pieces `parts` hold, in order; a piece that is
/// no unsigned decimal number is skipped.
pub open spec fn numbers_of(parts: Seq<Seq<char>>) -> Seq<u64>
    decreases parts.len(),
{
    if parts.len() == 0 {
        Seq::<u64>::empty()
    } else {
        let prev = numbers_of(parts.drop_last());
        match parse_uint(parts.last(), 10, u64::MAX as int) {
            Some(n) => prev.push(n as u64),
            None => prev,
        }
    }
}

/// The version numbers of `v`: the part before the first `-` (which drops a
/// pre-release or build suffix), split at `.`, each piece parsed as an
/// unsigned decimal number, the pieces that are none skipped.
pub open spec fn version_numbers(v: Seq<char>) -> Seq<u64> {
    numbers_of(split_seq(split_seq(v, '-')[0], '.'))
}

/// `a` comes after `b` in lexicographic order (the order of `Vec<u64>`).
pub open spec fn seq_after(a: Seq<u64>, b: Seq<u64>) -> bool
    decreases a.len(),
{
    if a.len() == 0 {
        false
    } else if b.len() == 0 {
        true
    } else if a[0] != b[0] {
        a[0] > b[0]
    } else {
        seq_after(a.drop_first(), b.drop_first())
    }
}

/// `latest` is a newer version than `current`.
pub open spec fn is_newer(latest: Seq<char>, current: Seq<char>) -> bool {
    seq_after(version_numbers(latest), version_numbers(current))
}

/// The version numbers of `v`.
pub fn version_numbers_of(v: &str) -> (res: Vec<u64>)
    ensures
        res@ == version_numbers(v@),
{
    let cs = chars_of(v);
    let pieces = split_chars(cs.as_slice(), '-');
    proof {
        crate::text::lemma_split_seq_nonempty(cs@, '-');
    }
    let parts = split_chars(pieces[0].as_slice(), '.');
    let ghost ps = split_seq(split_seq(v@, '-')[0], '.');
    let mut res: Vec<u64> = Vec::new();
    let mut i: usize = 0;
    while i < parts.len()
        invariant
            i <= parts@.len(),
            parts@.len() == ps.len(),
            forall|j: int| 0 <= j < parts@.len() ==> #[trigger] parts@[j]@ == ps[j],
            res@ == numbers_of(ps.take(i as int)),
        decreases parts@.len() - i,
    {
        proof {
            assert(ps.take(i + 1).drop_last() =~= ps.take(i as int));
            assert(ps.take(i + 1).last() == parts@[i as int]@);
        }
        match parse_uint_chars(parts[i].as_slice(), 10, u64::MAX) {
            Some(n) => {
                res.push(n);
            },
            None => {},
        }
        i = i + 1;
    }
    assert(ps.take(ps.len() as int) =~= ps);
    res
}

/// Whether `a` comes after `b` in lexicographic order.
pub fn numbers_after(a: &Vec<u64>, b: &Vec<u64>) -> (res: bool)
    ensures
        res == seq_after(a@, b@),
{
    let mut i: usize = 0;
    assert(a@.skip(0) =~= a@);
    assert(b@.skip(0) =~= b@);
    while i < a.len() && i < b.len()
        invariant
            i <= a@.len(),
            i <= b@.len(),
            seq_after(a@, b@) == seq_after(a@.skip(i as int), b@.skip(i as int)),
        decreases a@.len() - i,
    {
        if a[i] != b[i] {
            return a[i] > b[i];
        }
        assert(a@.skip(i as int).drop_first() =~= a@.skip(i + 1));
        assert(b@.skip(i as int).drop_first() =~= b@.skip(i + 1));
        i = i + 1;
    }
    a.len() > b.len()
}

/// Whether version `latest` is newer than version `current`, comparing
/// their version numbers (e.g. "0.2.0" is newer than "0.1.0";
/// "0.1.0-build.4" counts as "0.1.0").
pub fn version_is_newer(latest: &str, current: &str) -> (res: bool)
    ensures
        res == is_newer(latest@, current@),
{
    let l = version_numbers_of(latest);
    let c = version_numbers_of(current);
    numbers_after(&l, &c)
}

/// No version is newer than itself.
pub proof fn lemma_seq_after_irreflexive(a: Seq<u64>)
    ensures
        !seq_after(a, a),
    decreases a.len(),
{
    if a.len() > 0 {
        lemma_seq_after_irreflexive(a.drop_first());
    }
}

/// Of two versions, at most one is newer than the other, and when their
/// numbers differ, exactly one is.
pub proof fn lemma_seq_after_trichotomy(a: Seq<u64>, b: Seq<u64>)
    ensures
        !(seq_after(a, b) && seq_after(b, a)),
        a != b ==> seq_after(a, b) || seq_after(b, a),
    decreases a.len(),
{
    if a.len() > 0 && b.len() > 0 && a[0] == b[0] {
        lemma_seq_after_trichotomy(a.drop_first(), b.drop_first());
        if a != b {
            assert(a.drop_first() != b.drop_first()) by {
                if a.drop_first() == b.drop_first() {
                    assert(a.len() == b.len());
                    assert forall|i: int| 0 <= i < a.len() implies a[i] == b[i] by {
                        if i > 0 {
                            assert(a[i] == a.drop_first()[i - 1]);
                            assert(b[i] == b.drop_first()[i - 1]);
                        }
                    }
                    assert(a =~= b);
                }
            }
        }
    } else if a.len() == 0 && b.len() == 0 {
        assert(a =~= b);
    }
}

/// Newer-than is transitive.
pub proof fn lemma_seq_after_transitive(a: Seq<u64>, b: Seq<u64>, c: Seq<u64>)
    requires
        seq_after(a, b),
        seq_after(b, c),
    ensures
        seq_after(a, c),
    decreases a.len(),
{
    if a.len() > 0 && b.len() > 0 && c.len() > 0 && a[0] == b[0] && b[0] == c[0] {
        lemma_seq_after_transitive(a.drop_first(), b.drop_first(), c.drop_first());
    }
}

/// Version laws: no version is newer than itself; of two versions at most
/// one is newer; newer-than is transitive.
pub proof fn lemma_version_order(a: Seq<char>, b: Seq<char>, c: Seq<char>)
    ensures
        !is_newer(a, a),
        !(is_newer(a, b) && is_newer(b, a)),
        is_newer(a, b) && is_newer(b, c) ==> is_newer(a, c),
{
    lemma_seq_after_irreflexive(version_numbers(a));
    lemma_seq_after_trichotomy(version_numbers(a), version_numbers(b));
    if is_newer(a, b) && is_newer(b, c) {
        lemma_seq_after_transitive(version_numbers(a), version_numbers(b), version_numbers(c));
    }
}

}

verus! {

/// What the update check found.
#[derive(Debug)]
pub struct UpdateInfo {
    pub available: bool,
    pub current_version: String,
    pub latest_version: String,
    pub download_url: String,
    pub release_notes: String,
}

/// The abstract value of an `UpdateInfo`.
pub struct UpdateInfoView {
    pub available: bool,
    pub current_version: Seq<char>,
    pub latest_version: Seq<char>,
    pub download_url: Seq<char>,
    pub release_notes: Seq<char>,
}

impl View for UpdateInfo {
    type V = UpdateInfoView;

    open spec fn view(&self) -> UpdateInfoView {
        UpdateInfoView {
            available: self.available,
            current_version: self.current_version@,
            latest_version: self.latest_version@,
            download_url: self.download_url@,
            release_notes: self.release_notes@,
        }
    }
}

/// No update: both versions are the current one.
pub open spec fn no_update() -> UpdateInfoView {
    UpdateInfoView {
        available: false,
        current_version: CURRENT_VERSION@,
        latest_version: CURRENT_VERSION@,
        download_url: Seq::<char>::empty(),
        release_notes: Seq::<char>::empty(),
    }
}

impl Clone for UpdateInfo {
    fn clone(&self) -> (r: UpdateInfo)
        ensures
            r@ == self@,
    {
        UpdateInfo {
            available: self.available,
            current_version: self.current_version.clone(),
            latest_version: self.latest_version.clone(),
            download_url: self.download_url.clone(),
            release_notes: self.release_notes.clone(),
        }
    }
}

impl UpdateInfo {
    /// No update available.
    pub fn none() -> (r: UpdateInfo)
        ensures
            r@ == no_update(),
    {
        UpdateInfo {
            available: false,
            current_version: String::from_str(CURRENT_VERSION),
            latest_version: String::from_str(CURRENT_VERSION),
            download_url: String::new(),
            release_notes: String::new(),
        }
    }
}

/// The update state that the control channel reads.
pub struct UpdateState {
    pub info: UpdateInfo,
}

impl UpdateState {
    /// No update known yet.
    pub fn new() -> (s: UpdateState)
        ensures
            s.info@ == no_update(),
    {
        UpdateState { info: UpdateInfo::none() }
    }

    /// Records the outcome of a successful check: the update found, or, when
    /// the program is up to date, no update (clearing a stale one).
    pub fn record_check(&mut self, found: Option<UpdateInfo>)
        ensures
            found matches Some(i) ==> final(self).info@ == i@,
            found is None ==> final(self).info@ == no_update(),
    {
        match found {
            Some(i) => {
                self.info = i;
            },
            None => {
                self.info = UpdateInfo::none();
            },
        }
    }
}

/// A downloadable file of a release.
#[derive(Debug, Clone)]
pub struct GitHubAsset {
    pub name: String,
    pub browser_download_url: String,
}

/// A release as the release host describes it.
#[derive(Debug, Clone)]
pub struct GitHubRelease {
    pub tag_name: String,
    pub body: Option<String>,
    pub assets: Vec<GitHubAsset>,
}

/// The name of the bundle that an update downloads.
pub open spec fn bundle_name() -> Seq<char> {
    "Gos3lih.zip"@
}

/// The download address of the first asset of `assets` named like the
/// bundle, or the empty text when there is none.
pub open spec fn bundle_url(assets: Seq<GitHubAsset>) -> Seq<char>
    decreases assets.len(),
{
    if assets.len() == 0 {
        Seq::<char>::empty()
    } else if assets[0].name@ == bundle_name() {
        assets[0].browser_download_url@
    } else {
        bundle_url(assets.drop_first())
    }
}

/// `s` without all its leading `c` characters, as `trim_start_matches(c)`
/// gives it.
pub open spec fn strip_leading(s: Seq<char>, c: char) -> Seq<char>
    decreases s.len(),
{
    if s.len() > 0 && s[0] == c { strip_leading(s.drop_first(), c) } else { s }
}

/// What the check of `release` against version `current` finds: an update
/// to the release's version (its tag without leading `v`) when that is
/// newer, with the bundle's address and the release notes.
pub open spec fn release_update(release: GitHubRelease, current: Seq<char>) -> Option<UpdateInfoView> {
    let latest = strip_leading(release.tag_name@, 'v');
    if is_newer(latest, current) {
        Some(
            UpdateInfoView {
                available: true,
                current_version: current,
                latest_version: latest,
                download_url: bundle_url(release.assets@),
                release_notes: match release.body {
                    Some(b) => b@,
                    None => Seq::<char>::empty(),
                },
            },
        )
    } else {
        None
    }
}

fn strip_leading_v(s: &str) -> (r: String)
    ensures
        r@ == strip_leading(s@, 'v'),
{
    let cs = chars_of(s);
    let mut i: usize = 0;
    assert(cs@.skip(0) =~= cs@);
    while i < cs.len() && cs[i] == 'v'
        invariant
            i <= cs@.len(),
            strip_leading(cs@, 'v') == strip_leading(cs@.skip(i as int), 'v'),
        decreases cs@.len() - i,
    {
        assert(cs@.skip(i as int).drop_first() =~= cs@.skip(i + 1));
        i = i + 1;
    }
    let mut rest: Vec<char> = Vec::new();
    let mut j: usize = i;
    while j < cs.len()
        invariant
            i <= j <= cs@.len(),
            rest@ == cs@.subrange(i as int, j as int),
        decreases cs@.len() - j,
    {
        rest.push(cs[j]);
        j = j + 1;
        assert(rest@ =~= cs@.subrange(i as int, j as int));
    }
    assert(rest@ =~= cs@.skip(i as int));
    string_from_chars(rest.as_slice())
}

fn find_bundle_url(assets: &Vec<GitHubAsset>) -> (r: String)
    ensures
        r@ == bundle_url(assets@),
{
    let mut i: usize = 0;
    assert(assets@.skip(0) =~= assets@);
    while i < assets.len()
        invariant
            i <= assets@.len(),
            bundle_url(assets@) == bundle_url(assets@.skip(i as int)),
        decreases assets@.len() - i,
    {
        assert(assets@.skip(i as int).drop_first() =~= assets@.skip(i + 1));
        assert(assets@.skip(i as int)[0] == assets@[i as int]);
        if assets[i].name == String::from_str("Gos3lih.zip") {
            return assets[i].browser_download_url.clone();
        }
        i = i + 1;
    }
    String::new()
}

/// Checks `release` against version `current`: an update when the release
/// is newer, else `None`.
pub fn check_release(release: &GitHubRelease, current: &str) -> (r: Option<UpdateInfo>)
    ensures
        r is Some <==> release_update(*release, current@) is Some,
        r matches Some(i) ==> release_update(*release, current@) == Some(i@),
{
    let latest = strip_leading_v(release.tag_name.as_str());
    if version_is_newer(latest.as_str(), current) {
        let notes = match &release.body {
            Some(b) => b.clone(),
            None => String::new(),
        };
        Some(
            UpdateInfo {
                available: true,
                current_version: String::from_str(current),
                latest_version: latest,
                download_url: find_bundle_url(&release.assets),
                release_notes: notes,
            },
        )
    } else {
        None
    }
}

/// How the release host answered the request for the latest release.
#[derive(Debug, Clone, Copy, PartialEq, Eq, Structural)]
pub enum ReleaseStatus {
    /// 404: there is no release yet, so no update.
    NoRelease,
    /// Another client or server error (400–599): the check failed.
    Failed,
    /// Any other status: the body describes the release.
    Ready,
}

/// What an HTTP status of the release request means.
pub fn release_status(status: u16) -> (r: ReleaseStatus)
    ensures
        status == 404 ==> r == ReleaseStatus::NoRelease,
        status != 404 && 400 <= status <= 599 ==> r == ReleaseStatus::Failed,
        !(400 <= status <= 599) ==> r == ReleaseStatus::Ready,
{
    if status == 404 {
        ReleaseStatus::NoRelease
    } else if 400 <= status && status <= 599 {
        ReleaseStatus::Failed
    } else {
        ReleaseStatus::Ready
    }
}

/// Whether the archive entry `name` is the service binary, which replaces
/// the running one; every other entry is put next to it.
pub fn is_service_binary(name: &str) -> (r: bool)
    ensures
        r == contains_seq(name@, "gos3lih-service"@),
{
    let cs = chars_of(name);
    let pat = chars_of("gos3lih-service");
    contains_chars(cs.as_slice(), pat.as_slice())
}

/// The address to download an update from: `Err` when no update is
/// available or it has no download address.
pub fn update_download_url(info: &UpdateInfo) -> (r: Result<String, String>)
    ensures
        (info.available && info.download_url@.len() > 0) ==> (r matches Ok(u) && u@ == info.download_url@),
        !(info.available && info.download_url@.len() > 0) ==> (r matches Err(m) && m@ == "No update available"@),
{
    if !info.available || info.download_url.as_str().is_empty() {
        Err(String::from_str("No update available"))
    } else {
        Ok(info.download_url.clone())
    }
}

}

verus! {

/// The batch script that waits for process `pid` to exit, moves the binary
/// `current` to `backup`, moves `update` into its place, starts it, and
/// deletes the backup and itself.
pub open spec fn update_script_text(pid: u32, current: Seq<char>, update: Seq<char>, backup: Seq<char>) -> Seq<char> {
    "@echo off\n:wait\ntasklist /FI \"PID eq "@ + dec_seq(pid as nat) + "\" 2>NUL | find \""@ + dec_seq(pid as nat)
        + "\" >NUL\nif not errorlevel 1 (\n    timeout /t 1 /nobreak >NUL\n    goto wait\n)\nif exist \""@ + backup
        + "\" del /f \""@ + backup + "\"\nmove /y \""@ + current + "\" \""@ + backup + "\"\nmove /y \""@ + update
        + "\" \""@ + current + "\"\nstart \"\" \""@ + current + "\"\ndel /f \""@ + backup
        + "\" 2>NUL\ndel /f \"%~f0\"\n"@
}

/// The text of the self-replacement script (see `update_script_text`).
pub fn update_script(pid: u32, current: &str, update: &str, backup: &str) -> (s: String)
    ensures
        s@ == update_script_text(pid, current@, update@, backup@),
{
    let mut s = String::from_str("@echo off\n:wait\ntasklist /FI \"PID eq ");
    push_decimal(&mut s, pid as u64);
    s.append("\" 2>NUL | find \"");
    push_decimal(&mut s, pid as u64);
    s.append("\" >NUL\nif not errorlevel 1 (\n    timeout /t 1 /nobreak >NUL\n    goto wait\n)\nif exist \"");
    s.append(backup);
    s.append("\" del /f \"");
    s.append(backup);
    s.append("\"\nmove /y \"");
    s.append(current);
    s.append("\" \"");
    s.append(backup);
    s.append("\"\nmove /y \"");
    s.append(update);
    s.append("\" \"");
    s.append(current);
    s.append("\"\nstart \"\" \"");
    s.append(current);
    s.append("\"\ndel /f \"");
    s.append(backup);
    s.append("\" 2>NUL\ndel /f \"%~f0\"\n");
    s
}

/// An update may be downloaded only from a non-empty address: `Err` with
/// `No download URL available` otherwise.
pub fn check_download_url(url: &str) -> (r: Result<(), String>)
    ensures
        r is Ok <==> url@.len() > 0,
        r matches Err(m) ==> m@ == "No download URL available"@,
{
    if url.is_empty() {
        Err(String::from_str("No download URL available"))
    } else {
        Ok(())
    }
}

/// The number of entries of the zip archive `bytes`, as
/// `ZipArchive::new(..).len()` gives it, or `None` when it is no archive.
pub uninterp spec fn zip_count(bytes: Seq<u8>) -> Option<nat>;

/// The name of entry `i` of the zip archive `bytes`, as `by_index(i)` and
/// `name()` give it, or `None` when it cannot be read.
pub uninterp spec fn zip_name(bytes: Seq<u8>, i: nat) -> Option<Seq<char>>;

/// The unpacked content of entry `i` of the zip archive `bytes`, as
/// `by_index(i)` and `read_to_end` give it, or `None` when it cannot be read.
pub uninterp spec fn zip_data(bytes: Seq<u8>, i: nat) -> Option<Seq<u8>>;

/// `zip::ZipArchive::new` on the bytes, then `len`.
#[verifier::external_body]
fn archive_len(bytes: &[u8]) -> (r: Option<usize>)
    ensures
        r is None <==> zip_count(bytes@) is None,
        r matches Some(n) ==> zip_count(bytes@) == Some(n as nat),
{
    zip::ZipArchive::new(std::io::Cursor::new(bytes)).ok().map(|a| a.len())
}

/// `zip::ZipArchive::new` on the bytes, then `by_index(i)` and `name`.
#[verifier::external_body]
fn archive_entry_name(bytes: &[u8], i: usize) -> (r: Option<String>)
    ensures
        r is None <==> zip_name(bytes@, i as nat) is None,
        r matches Some(n) ==> zip_name(bytes@, i as nat) == Some(n@),
{
    let mut a = zip::ZipArchive::new(std::io::Cursor::new(bytes)).ok()?;
    let f = a.by_index(i).ok()?;
    Some(f.name().to_string())
}

/// `zip::ZipArchive::new` on the bytes, then `by_index(i)` and
/// `read_to_end`.
#[verifier::external_body]
fn archive_entry_data(bytes: &[u8], i: usize) -> (r: Option<Vec<u8>>)
    ensures
        r is None <==> zip_data(bytes@, i as nat) is None,
        r matches Some(d) ==> zip_data(bytes@, i as nat) == Some(d@),
{
    let mut a = zip::ZipArchive::new(std::io::Cursor::new(bytes)).ok()?;
    let mut f = a.by_index(i).ok()?;
    let mut data = Vec::new();
    f.read_to_end(&mut data).ok()?;
    Some(data)
}

/// The archive `bytes` can be read whole: it is an archive and every entry's
/// name and content can be read.
pub open spec fn archive_readable(bytes: Seq<u8>) -> bool {
    &&& zip_count(bytes) is Some
    &&& forall|i: nat| i < zip_count(bytes)->0 ==> (#[trigger] zip_name(bytes, i)) is Some && zip_data(bytes, i) is Some
}

/// One file of an update bundle, and whether it replaces the service binary.
pub struct PlannedFile {
    pub replaces_service: bool,
    pub name: String,
    pub data: Vec<u8>,
}

/// `f` is entry `i` of the archive `bytes`, marked as the service binary
/// exactly when its name contains `gos3lih-service`.
pub open spec fn plans_entry(f: PlannedFile, bytes: Seq<u8>, i: nat) -> bool {
    &&& zip_name(bytes, i) == Some(f.name@)
    &&& zip_data(bytes, i) == Some(f.data@)
    &&& f.replaces_service == contains_seq(f.name@, "gos3lih-service"@)
}

/// Entry `i` of the archive `bytes` can be read: its name and its content.
pub open spec fn entry_readable(bytes: Seq<u8>, i: nat) -> bool {
    zip_name(bytes, i) is Some && zip_data(bytes, i) is Some
}

/// The files of a bundle up to the first entry that cannot be read, and
/// whether that was none, so every entry was read.
pub struct UpdatePlan {
    pub files: Vec<PlannedFile>,
    pub complete: bool,
}

/// Unpacks the downloaded bundle `bytes` entry by entry, in archive order,
/// as far as the entries can be read: each file with its content, marked as
/// the service binary (which replaces the running one) or as a file to put
/// beside it. `None` when `bytes` is no archive; otherwise the files before
/// the first unreadable entry, and whether every entry was read.
pub fn plan_update_entries(bytes: &[u8]) -> (r: Option<UpdatePlan>)
    ensures
        r is None <==> zip_count(bytes@) is None,
        r matches Some(p) ==> ({
            let n = zip_count(bytes@)->0;
            &&& p.files@.len() <= n
            &&& forall|i: int| 0 <= i < p.files@.len() ==> plans_entry(#[trigger] p.files@[i], bytes@, i as nat)
            &&& p.complete <==> p.files@.len() == n
            &&& p.files@.len() < n ==> !entry_readable(bytes@, p.files@.len())
        }),
{
    let n = match archive_len(bytes) {
        Some(n) => n,
        None => return None,
    };
    let mut v: Vec<PlannedFile> = Vec::new();
    let mut i: usize = 0;
    while i < n
        invariant
            i <= n,
            zip_count(bytes@) == Some(n as nat),
            v@.len() == i,
            forall|j: int| 0 <= j < i ==> plans_entry(#[trigger] v@[j], bytes@, j as nat),
        decreases n - i,
    {
        let name = match archive_entry_name(bytes, i) {
            Some(name) => name,
            None => return Some(UpdatePlan { files: v, complete: false }),
        };
        let data = match archive_entry_data(bytes, i) {
            Some(d) => d,
            None => return Some(UpdatePlan { files: v, complete: false }),
        };
        let replaces_service = is_service_binary(name.as_str());
        v.push(PlannedFile { replaces_service, name, data });
        i = i + 1;
    }
    Some(UpdatePlan { files: v, complete: true })
}

/// Unpacks the downloaded bundle `bytes` whole (see `plan_update_entries`):
/// `None` when it cannot be read whole.
pub fn plan_update(bytes: &[u8]) -> (r: Option<Vec<PlannedFile>>)
    ensures
        r is Some <==> archive_readable(bytes@),
        r matches Some(v) ==> v@.len() == zip_count(bytes@)->0 && forall|i: int|
            0 <= i < v@.len() ==> plans_entry(#[trigger] v@[i], bytes@, i as nat),
{
    match plan_update_entries(bytes) {
        None => None,
        Some(p) => {
            proof {
                if p.complete {
                    assert forall|k: nat| k < zip_count(bytes@)->0 implies (#[trigger] zip_name(bytes@, k)) is Some
                        && zip_data(bytes@, k) is Some by {
                        assert(plans_entry(p.files@[k as int], bytes@, k));
                    }
                } else {
                    let k = p.files@.len();
                    assert(!entry_readable(bytes@, k));
                    assert(!(zip_name(bytes@, k) is Some && zip_data(bytes@, k) is Some));
                }
            }
            if p.complete {
                Some(p.files)
            } else {
                None
            }
        },
    }
}

}
