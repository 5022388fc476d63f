//! The per-module update engine.
//!
//! All decisions of the update protocol live here as a verified state
//! machine: a step takes the machine state and the outcome of the previous
//! outside action (an event) and returns the next state with the actions the
//! driver must perform.  The driver performs filesystem and network work and
//! feeds back events; every branch's cleanup of the transient `tmp` file and
//! `tmp.d` directory is captured by a temp-file model that each step provably
//! maintains.

use vstd::prelude::*;
use vstd::string::*;
use vstd::multiset::Multiset;
use vstd::utf8::{valid_utf8, decode_utf8};
use crate::config;
use crate::config::{ModuleCfgV, ProviderKind, RepositorySetting, RepositorySettingV};
use crate::context::Context;
use crate::origin;
use crate::origin::{UpdateJson, UpdateJsonV};
use crate::track::{
    Track, TrackV, Version, VersionV, vers_view, parse_track, ser_track, track_wf, zip_name,
    txt_name, parse_track_x, push_track,
};
use crate::json::skip_ws;
use crate::text;
use crate::util;
use crate::util::{ArchiveEntry, StrUtil, LocalModule, version_display};

verus! {

/// The update engine for one repository: the global retention setting and
/// the root of the module directories.
pub struct Update {
    pub setting: RepositorySetting,
    pub modules_dir: String,
}

impl Update {
    pub fn new(setting: &RepositorySetting, modules_dir: &str) -> (r: Update)
        ensures
            r.setting@ == setting@,
            r.modules_dir@ == modules_dir@,
    {
        Update {
            setting: RepositorySetting {
                base_url: setting.base_url.as_str().to_owned(),
                keep_size: setting.keep_size,
            },
            modules_dir: modules_dir.to_owned(),
        }
    }
}

// ---------- outside actions and their outcomes ----------

/// Work the driver performs inside the module's directory.  `tmp` and
/// `tmp.d` are the fixed transient names; all other names are basenames
/// relative to the module directory.
pub enum UpdateAction {
    /// HTTP GET; the driver answers with `Body`.
    FetchBody { url: String },
    /// HTTP GET streamed into `tmp`; the driver answers with `Downloaded`.
    DownloadTmp { url: String },
    /// Read the bytes of `tmp`; the driver answers with `FileBytes`.
    ReadTmp,
    /// Read the bytes of `track.json`; the driver answers with `TrackBytes`.
    ReadTrack,
    /// Write the serialized track to `track.json`; answered with `Wrote`.
    WriteTrack { data: String },
    /// Write the fetched changelog body; answered with `Wrote`.
    WriteChangelog { name: String, data: Vec<u8> },
    /// Write packaged archive bytes to `tmp`; answered with `Wrote`.
    WriteTmp { data: Vec<u8> },
    /// Rename `tmp` to the retained archive name; no answer expected.
    RenameTmp { to: String },
    /// Remove a retained file; no answer expected.
    Remove { name: String },
    /// Remove `tmp`; no answer expected.
    RemoveTmp,
    /// Clone the repository into `tmp.d`; answered with `Cloned`.
    CloneTmpDir { url: String },
    /// List `tmp.d` recursively; answered with `Entries`.
    ListTmpDir,
    /// Remove `tmp.d`; no answer expected.
    RemoveTmpDir,
}

/// The driver's answer to the previous step's actions.
pub enum UpdateEvent {
    /// Start of an update run, with the wall-clock time in milliseconds.
    Begin { now: i64 },
    /// Body of a plain fetch, `None` on any failure or non-200 status.
    Body { data: Option<Vec<u8>> },
    /// Content of `track.json`, `None` when missing or unreadable.
    TrackBytes { data: Option<Vec<u8>> },
    /// Outcome of the download into `tmp` and the `Last-Modified` header.
    Downloaded { fetched: bool, written: bool, last_modified: Option<String> },
    /// Content of `tmp`, `None` when unreadable.
    FileBytes { data: Option<Vec<u8>> },
    /// Head commit time of a completed clone, `None` on failure.
    Cloned { commit_millis: Option<i64> },
    /// The entries of `tmp.d`, relative paths with file contents.
    Entries { entries: Vec<ArchiveEntry> },
    /// Whether the requested write succeeded.
    Wrote { ok: bool },
}

/// Machine state between two outside actions.
pub enum UpdateState {
    Start,
    /// Waiting for the update-pointer document.
    AwaitPointer { now: i64 },
    /// Waiting for the stored track to check the pointer against.
    AwaitPointerTrack { now: i64, uj: UpdateJson },
    /// Waiting for the archive download; `pending` holds the retained
    /// versions when the version check already passed.
    AwaitDownload { now: i64, changelog_url: String, pending: Option<Vec<Version>> },
    /// Waiting for the downloaded archive bytes.
    AwaitTmpBytes { t: i64, changelog_url: String, pending: Option<Vec<Version>> },
    /// Waiting for the stored track, with the manifest already read.
    AwaitUrlTrack { t: i64, changelog_url: String, origin: origin::Module },
    /// Waiting for the clone of the repository.
    AwaitClone { now: i64 },
    /// Waiting for the cloned directory's entries.
    AwaitEntries { t: i64 },
    /// Waiting for the packaged archive to be written to `tmp`.
    AwaitPkgWrite { t: i64, changelog_url: String, origin: origin::Module },
    /// Waiting for the changelog body.
    AwaitChangelog { origin: origin::Module, versions: Vec<Version>, entry: Version },
    /// Waiting for the changelog file write.
    AwaitClWrite { origin: origin::Module, versions: Vec<Version>, entry: Version },
    /// Waiting for the track write.
    AwaitTrackWrite { track: Track },
    /// The update is over.
    Finished { updated: bool },
}

/// One step's outcome.
pub struct UpdateStep {
    pub state: UpdateState,
    pub actions: Vec<UpdateAction>,
}

// ---------- temp-file model ----------

/// Whether `tmp` may exist on disk in this state.
pub open spec fn st_tmp(s: UpdateState) -> bool {
    match s {
        UpdateState::AwaitDownload { .. } => true,
        UpdateState::AwaitTmpBytes { .. } => true,
        UpdateState::AwaitUrlTrack { .. } => true,
        UpdateState::AwaitPkgWrite { .. } => true,
        _ => false,
    }
}

/// Whether `tmp.d` may exist on disk in this state.
pub open spec fn st_tmpd(s: UpdateState) -> bool {
    match s {
        UpdateState::AwaitClone { .. } => true,
        UpdateState::AwaitEntries { .. } => true,
        _ => false,
    }
}

/// The `tmp` model after performing the actions in order.
pub open spec fn tmp_after(t: bool, acts: Seq<UpdateAction>) -> bool
    decreases acts.len(),
{
    if acts.len() == 0 {
        t
    } else {
        let t2 = match acts[0] {
            UpdateAction::DownloadTmp { .. } => true,
            UpdateAction::WriteTmp { .. } => true,
            UpdateAction::RenameTmp { .. } => false,
            UpdateAction::RemoveTmp => false,
            _ => t,
        };
        tmp_after(t2, acts.skip(1))
    }
}

/// The `tmp.d` model after performing the actions in order.
pub open spec fn tmpd_after(t: bool, acts: Seq<UpdateAction>) -> bool
    decreases acts.len(),
{
    if acts.len() == 0 {
        t
    } else {
        let t2 = match acts[0] {
            UpdateAction::CloneTmpDir { .. } => true,
            UpdateAction::RemoveTmpDir => false,
            _ => t,
        };
        tmpd_after(t2, acts.skip(1))
    }
}

/// No network action carries an empty URL.
pub open spec fn urls_nonempty(acts: Seq<UpdateAction>) -> bool {
    forall|k: int|
        0 <= k < acts.len() ==> match #[trigger] acts[k] {
            UpdateAction::FetchBody { url } => url@.len() > 0,
            UpdateAction::DownloadTmp { url } => url@.len() > 0,
            UpdateAction::CloneTmpDir { url } => url@.len() > 0,
            _ => true,
        }
}

// ---------- removal actions ----------

/// The file basenames the eviction of these entries removes: each entry's
/// archive, and its changelog when one was kept.
pub open spec fn removal_views(old: Seq<VersionV>) -> Seq<Seq<char>>
    decreases old.len(),
{
    if old.len() == 0 {
        Seq::empty()
    } else {
        (if old[0].changelog.len() == 0 {
            seq![old[0].zip_path]
        } else {
            seq![old[0].zip_path, old[0].changelog]
        }) + removal_views(old.skip(1))
    }
}

/// The actions are exactly `Remove` actions bearing these names, in order.
pub open spec fn acts_are_removals(acts: Seq<UpdateAction>, names: Seq<Seq<char>>) -> bool {
    acts.len() == names.len() && forall|k: int|
        0 <= k < acts.len() ==> match #[trigger] acts[k] {
            UpdateAction::Remove { name } => name@ == names[k],
            _ => false,
        }
}

/// Appending one entry appends its one or two removal names.
pub proof fn lemma_removal_views_snoc(old: Seq<VersionV>, v: VersionV)
    ensures
        removal_views(old.push(v)) == removal_views(old) + (if v.changelog.len() == 0 {
            seq![v.zip_path]
        } else {
            seq![v.zip_path, v.changelog]
        }),
    decreases old.len(),
{
    if old.len() == 0 {
        assert(old.push(v)[0] == v);
        assert(old.push(v).skip(1) =~= Seq::<VersionV>::empty());
        assert(removal_views(Seq::<VersionV>::empty()) == Seq::<Seq<char>>::empty());
        assert(removal_views(old.push(v)) =~= removal_views(old) + (if v.changelog.len() == 0 {
            seq![v.zip_path]
        } else {
            seq![v.zip_path, v.changelog]
        }));
    } else {
        assert(old.push(v)[0] == old[0]);
        assert(old.push(v).skip(1) =~= old.skip(1).push(v));
        lemma_removal_views_snoc(old.skip(1), v);
        assert(removal_views(old.push(v)) =~= removal_views(old) + (if v.changelog.len() == 0 {
            seq![v.zip_path]
        } else {
            seq![v.zip_path, v.changelog]
        }));
    }
}

// ---------- retention ----------

/// The retention bound in force for a module.
pub open spec fn eff_keep_size(m: ModuleCfgV, repo: RepositorySettingV) -> int {
    match m.setting.keep_size {
        Some(n) => n,
        None => repo.keep_size,
    }
}

/// Version entries in newest-first order.
pub open spec fn sorted_desc(vs: Seq<VersionV>) -> bool {
    forall|i: int, j: int|
        0 <= i < j < vs.len() ==> (#[trigger] vs[i]).version_code >= (#[trigger] vs[j]).version_code
}

/// What every persisted track satisfies for its module and retention bound.
pub open spec fn track_inv(t: TrackV, m: ModuleCfgV, repo: RepositorySettingV) -> bool {
    &&& t.versions.len() <= eff_keep_size(m, repo)
    &&& (t.versions.len() > 0 ==> t.versions[0].version_code == t.module.version_code)
    &&& sorted_desc(t.versions)
    &&& track_wf(t)
}

/// The track parsed from raw `track.json` bytes, tolerating only trailing
/// whitespace; anything else counts as an absent track.
pub open spec fn track_from_bytes(b: Seq<u8>) -> Option<TrackV> {
    if valid_utf8(b) {
        let s = decode_utf8(b);
        match parse_track(s, 0) {
            Some((t, e)) => if skip_ws(s, e) == s.len() {
                Some(t)
            } else {
                None
            },
            None => None,
        }
    } else {
        None
    }
}

impl Update {
    /// The retention bound for a module: its own setting, else the
    /// repository's.
    pub fn keep_size(&self, module: &config::Module) -> (r: usize)
        ensures
            r as int == eff_keep_size(module@, self.setting@),
    {
        match module.setting.keep_size {
            Some(n) => n,
            None => self.setting.keep_size,
        }
    }

    /// The stored versions sorted newest-first, `None` when the stored track
    /// is already at least as new as the offered code.
    pub fn check_versions(&self, stored: &Option<Track>, version_code: i64) -> (r: Option<
        Vec<Version>,
    >)
        ensures
            match stored {
                None => (match r {
                    Some(v) => v@.len() == 0,
                    None => false,
                }),
                Some(t) => if t@.module.version_code >= version_code {
                    r is None
                } else {
                    match r {
                        Some(v) => sorted_desc(vers_view(v@)) && vers_view(v@).to_multiset()
                            == t@.versions.to_multiset() && (sorted_desc(t@.versions)
                            ==> vers_view(v@) == t@.versions),
                        None => false,
                    }
                },
            },
    {
        match stored {
            None => Some(Vec::new()),
            Some(t) => {
                if t.module.version_code >= version_code {
                    None
                } else {
                    Some(sort_versions_desc(&t.versions))
                }
            },
        }
    }

    /// The removal actions for evicted version entries, and nothing else:
    /// each entry's archive, then its changelog when one was kept, in order.
    pub fn remove_old(&self, old: &Vec<Version>) -> (r: Vec<UpdateAction>)
        ensures
            acts_are_removals(r@, removal_views(vers_view(old@))),
            forall|k: int|
                0 <= k < r@.len() ==> (#[trigger] r@[k]) matches UpdateAction::Remove { .. },
    {
        let mut acts: Vec<UpdateAction> = Vec::new();
        let mut k: usize = 0;
        proof {
            assert(vers_view(old@).subrange(0, 0) =~= Seq::<VersionV>::empty());
        }
        while k < old.len()
            invariant
                k <= old.len(),
                acts_are_removals(acts@, removal_views(vers_view(old@).subrange(0, k as int))),
            decreases old.len() - k,
        {
            let ghost pre = vers_view(old@).subrange(0, k as int);
            let ghost a0 = acts@;
            acts.push(UpdateAction::Remove { name: old[k].zip_path.as_str().to_owned() });
            if old[k].changelog.as_str().unicode_len() > 0 {
                acts.push(UpdateAction::Remove { name: old[k].changelog.as_str().to_owned() });
            }
            proof {
                lemma_removal_views_snoc(pre, vers_view(old@)[k as int]);
                assert(pre.push(vers_view(old@)[k as int]) =~= vers_view(old@).subrange(0, k + 1));
                let names = removal_views(vers_view(old@).subrange(0, k + 1));
                assert forall|x: int| 0 <= x < acts@.len() implies match #[trigger] acts@[x] {
                    UpdateAction::Remove { name } => name@ == names[x],
                    _ => false,
                } by {
                    if x < a0.len() {
                        assert(acts@[x] == a0[x]);
                    }
                }
            }
            k += 1;
        }
        proof {
            assert(vers_view(old@).subrange(0, old@.len() as int) =~= vers_view(old@));
        }
        acts
    }

    /// The serialized (pretty) form under which a track is persisted.
    pub fn write_track(&self, track: &Track) -> (r: String)
        ensures
            r@ == ser_track(track@, true, 0),
    {
        let mut out: Vec<char> = Vec::new();
        push_track(track, true, 0, &mut out);
        text::chars_to_string(&out)
    }
}

/// Insertion sort, newest (largest code) first; an already sorted list comes
/// back unchanged.
fn sort_versions_desc(vs: &Vec<Version>) -> (r: Vec<Version>)
    ensures
        sorted_desc(vers_view(r@)),
        vers_view(r@).to_multiset() == vers_view(vs@).to_multiset(),
        sorted_desc(vers_view(vs@)) ==> vers_view(r@) == vers_view(vs@),
{
    let mut out: Vec<Version> = Vec::new();
    let mut k: usize = 0;
    proof {
        vers_view(out@).to_multiset_ensures();
        assert(vers_view(out@) =~= Seq::<VersionV>::empty());
        assert(vers_view(vs@).subrange(0, 0) =~= Seq::<VersionV>::empty());
    }
    while k < vs.len()
        invariant
            k <= vs.len(),
            sorted_desc(vers_view(out@)),
            vers_view(out@).to_multiset() == vers_view(vs@).subrange(0, k as int).to_multiset(),
            sorted_desc(vers_view(vs@)) ==> vers_view(out@) =~= vers_view(vs@).subrange(
                0,
                k as int,
            ),
        decreases vs.len() - k,
    {
        let v = vs[k].duplicate();
        let mut pos: usize = 0;
        while pos < out.len() && out[pos].version_code >= v.version_code
            invariant
                pos <= out.len(),
                v@ == vs@[k as int]@,
                forall|x: int|
                    0 <= x < pos ==> (#[trigger] vers_view(out@)[x]).version_code
                        >= v@.version_code,
            decreases out.len() - pos,
        {
            pos += 1;
        }
        proof {
            if sorted_desc(vers_view(vs@)) && pos < out@.len() {
                assert(vers_view(out@)[pos as int] == vers_view(vs@)[pos as int]);
                assert(vers_view(vs@)[pos as int].version_code >= vers_view(vs@)[
                    k as int
                ].version_code);
                assert(false);
            }
        }
        let ghost before = vers_view(out@);
        out.insert(pos, v);
        proof {
            assert(vers_view(out@) =~= before.insert(pos as int, vs@[k as int]@));
            lemma_sorted_insert(before, pos as int, vs@[k as int]@);
            lemma_multiset_insert(before, pos as int, vs@[k as int]@);
            assert(vers_view(vs@).subrange(0, k + 1) =~= vers_view(vs@).subrange(0, k as int).push(
                vs@[k as int]@,
            ));
            vers_view(vs@).subrange(0, k as int).to_multiset_ensures();
            if sorted_desc(vers_view(vs@)) {
                assert(before.insert(before.len() as int, vs@[k as int]@) =~= before.push(
                    vs@[k as int]@,
                ));
                assert(vers_view(out@) =~= vers_view(vs@).subrange(0, k + 1));
            }
        }
        k += 1;
    }
    proof {
        assert(vers_view(vs@).subrange(0, vs@.len() as int) =~= vers_view(vs@));
    }
    out
}

/// Inserting at the found position keeps the list sorted.
proof fn lemma_sorted_insert(vs: Seq<VersionV>, pos: int, v: VersionV)
    requires
        sorted_desc(vs),
        0 <= pos <= vs.len(),
        forall|x: int| 0 <= x < pos ==> (#[trigger] vs[x]).version_code >= v.version_code,
        pos < vs.len() ==> vs[pos].version_code < v.version_code,
    ensures
        sorted_desc(vs.insert(pos, v)),
{
    let s2 = vs.insert(pos, v);
    assert forall|i: int, j: int| 0 <= i < j < s2.len() implies (#[trigger] s2[i]).version_code >= (
    #[trigger] s2[j]).version_code by {
        if i < pos {
            assert(s2[i] == vs[i]);
        } else if i == pos {
            assert(s2[i] == v);
        } else {
            assert(s2[i] == vs[i - 1]);
        }
        if j < pos {
            assert(s2[j] == vs[j]);
        } else if j == pos {
            assert(s2[j] == v);
        } else {
            assert(s2[j] == vs[j - 1]);
        }
    }
}

/// A stored list of the shape the machine's own writes produce: newest-first
/// with every code strictly below the incoming one.
pub open spec fn shaped_for(stored: Seq<VersionV>, code: int) -> bool {
    sorted_desc(stored) && forall|k: int|
        0 <= k < stored.len() ==> (#[trigger] stored[k]).version_code < code
}

/// The list a successful update persists: the fresh entry first, then the
/// stored entries, truncated to the retention bound.
pub open spec fn kept_versions(entry: VersionV, stored: Seq<VersionV>, keep: int) -> Seq<
    VersionV,
> {
    let merged = seq![entry] + stored;
    if merged.len() <= keep {
        merged
    } else if keep >= 0 {
        merged.take(keep)
    } else {
        Seq::empty()
    }
}

/// The tail the same update evicts.
pub open spec fn evicted_versions(entry: VersionV, stored: Seq<VersionV>, keep: int) -> Seq<
    VersionV,
> {
    let merged = seq![entry] + stored;
    if merged.len() <= keep {
        Seq::empty()
    } else if keep >= 0 {
        merged.skip(keep)
    } else {
        merged
    }
}

/// The version entry a fetch at `t` creates, before the changelog outcome.
pub open spec fn fresh_entry(t: int, origin: crate::origin::ModuleV) -> VersionV {
    VersionV {
        timestamp: t,
        version: version_display(origin.version, origin.version_code),
        version_code: origin.version_code,
        zip_path: zip_name(t),
        changelog: txt_name(t),
    }
}

/// The same entry once the changelog was rejected or skipped.
pub open spec fn fresh_entry_plain(t: int, origin: crate::origin::ModuleV) -> VersionV {
    VersionV { changelog: Seq::empty(), ..fresh_entry(t, origin) }
}

// ---------- step contracts ----------

/// Effect of a single action on the `tmp` model.
pub open spec fn tmp1(t: bool, a: UpdateAction) -> bool {
    match a {
        UpdateAction::DownloadTmp { .. } => true,
        UpdateAction::WriteTmp { .. } => true,
        UpdateAction::RenameTmp { .. } => false,
        UpdateAction::RemoveTmp => false,
        _ => t,
    }
}

/// Effect of a single action on the `tmp.d` model.
pub open spec fn tmpd1(t: bool, a: UpdateAction) -> bool {
    match a {
        UpdateAction::CloneTmpDir { .. } => true,
        UpdateAction::RemoveTmpDir => false,
        _ => t,
    }
}

/// Whether a single action's URL, if any, is non-empty.
pub open spec fn url_ok1(a: UpdateAction) -> bool {
    match a {
        UpdateAction::FetchBody { url } => url@.len() > 0,
        UpdateAction::DownloadTmp { url } => url@.len() > 0,
        UpdateAction::CloneTmpDir { url } => url@.len() > 0,
        _ => true,
    }
}

/// A track write carries the serialization of the track the machine is about
/// to wait on, and that track satisfies the retention invariant.
pub open spec fn track_write_ok(
    m: ModuleCfgV,
    repo: RepositorySettingV,
    post: UpdateState,
    a: UpdateAction,
) -> bool {
    match a {
        UpdateAction::WriteTrack { data } => match post {
            UpdateState::AwaitTrackWrite { track } => data@ == ser_track(track@, true, 0)
                && track_inv(track@, m, repo),
            _ => false,
        },
        _ => true,
    }
}

pub open spec fn writes_ok(
    m: ModuleCfgV,
    repo: RepositorySettingV,
    post: UpdateState,
    acts: Seq<UpdateAction>,
) -> bool {
    forall|k: int| 0 <= k < acts.len() ==> track_write_ok(m, repo, post, #[trigger] acts[k])
}

/// Everything a step promises about its actions and successor state.
pub open spec fn step_ok(
    m: ModuleCfgV,
    repo: RepositorySettingV,
    pre_tmp: bool,
    pre_tmpd: bool,
    post: UpdateState,
    acts: Seq<UpdateAction>,
) -> bool {
    &&& tmp_after(pre_tmp, acts) == st_tmp(post)
    &&& tmpd_after(pre_tmpd, acts) == st_tmpd(post)
    &&& urls_nonempty(acts)
    &&& writes_ok(m, repo, post, acts)
}

/// The update ended as failed with no actions at all.
pub open spec fn ended_clean(post: UpdateState, acts: Seq<UpdateAction>) -> bool {
    post == (UpdateState::Finished { updated: false }) && acts.len() == 0
}

/// The update ended as failed, removing only the transient archive.
pub open spec fn ended_rm_tmp(post: UpdateState, acts: Seq<UpdateAction>) -> bool {
    post == (UpdateState::Finished { updated: false }) && acts.len() == 1 && acts[0] == (
    UpdateAction::RemoveTmp)
}

/// The update ended as failed, removing only the transient clone directory.
pub open spec fn ended_rm_tmpd(post: UpdateState, acts: Seq<UpdateAction>) -> bool {
    post == (UpdateState::Finished { updated: false }) && acts.len() == 1 && acts[0] == (
    UpdateAction::RemoveTmpDir)
}

/// The timestamp a finished download settles on: the parsed `Last-Modified`
/// header when one parses, else the wall clock taken at the start.
pub open spec fn dl_time(now: int, last_modified: Option<String>) -> int {
    match last_modified {
        Some(h) => match crate::util::rfc2822_millis(h@) {
            Some(ms) => ms,
            None => now,
        },
        None => now,
    }
}

/// The update pointer parsed from fetched bytes, tolerating only trailing
/// whitespace.
pub open spec fn uj_from_bytes(b: Seq<u8>) -> Option<UpdateJsonV> {
    if valid_utf8(b) {
        let s = decode_utf8(b);
        match crate::origin::parse_uj(s, 0) {
            Some((u, e)) => if skip_ws(s, e) == s.len() {
                Some(u)
            } else {
                None
            },
            None => None,
        }
    } else {
        None
    }
}

/// The manifest read out of downloaded archive bytes.
pub open spec fn manifest_from_bytes(b: Seq<u8>) -> Option<crate::origin::ModuleV> {
    match crate::util::module_prop_of(b) {
        Some(p) => crate::util::prop_module_of(p),
        None => None,
    }
}

/// The exact outcome of the persistence tail: the successor waits on the one
/// track write, whose track holds the fresh entry followed by the stored
/// list truncated to the retention bound; the actions after the first
/// `skip0` are precisely the removals of the evicted tail, then the write.
pub open spec fn finish_exact(
    m: ModuleCfgV,
    repo: RepositorySettingV,
    originv: crate::origin::ModuleV,
    entryv: VersionV,
    storedv: Seq<VersionV>,
    post: UpdateState,
    acts: Seq<UpdateAction>,
    skip0: int,
) -> bool {
    match post {
        UpdateState::AwaitTrackWrite { track } => track@.module == originv && track@.versions
            == kept_versions(entryv, storedv, eff_keep_size(m, repo)) && acts.len()
            == removal_views(evicted_versions(entryv, storedv, eff_keep_size(m, repo))).len()
            + skip0 + 1 && acts_are_removals(
            acts.subrange(skip0, acts.len() - 1),
            removal_views(evicted_versions(entryv, storedv, eff_keep_size(m, repo))),
        ) && (match acts[acts.len() - 1] {
            UpdateAction::WriteTrack { data } => data@ == ser_track(track@, true, 0),
            _ => false,
        }),
        _ => false,
    }
}

/// The exact outcome of the shared middle: the staged archive is renamed to
/// the entry's name first; a non-empty changelog URL is fetched, an empty one
/// goes straight to persistence with an empty changelog name.
pub open spec fn common_exact(
    m: ModuleCfgV,
    repo: RepositorySettingV,
    originv: crate::origin::ModuleV,
    storedv: Seq<VersionV>,
    t: int,
    chl: Seq<char>,
    post: UpdateState,
    acts: Seq<UpdateAction>,
) -> bool {
    &&& acts.len() >= 1
    &&& (match acts[0] {
        UpdateAction::RenameTmp { to } => to@ == zip_name(t),
        _ => false,
    })
    &&& (chl.len() > 0 ==> (match post {
        UpdateState::AwaitChangelog { origin: o2, versions: v2, entry: e2 } => o2@ == originv
            && vers_view(v2@) == storedv && e2@ == fresh_entry(t, originv),
        _ => false,
    }) && acts.len() == 2 && (match acts[1] {
        UpdateAction::FetchBody { url } => url@ == chl,
        _ => false,
    }))
    &&& (chl.len() == 0 && shaped_for(storedv, originv.version_code) ==> finish_exact(
        m,
        repo,
        originv,
        fresh_entry_plain(t, originv),
        storedv,
        post,
        acts,
        1,
    ))
}

/// The exact outcome of a passed pointer check: the archive download of the
/// pointer's URL, carrying the stored versions sorted newest-first.
pub open spec fn pointer_dl_exact(
    now: i64,
    uj: UpdateJsonV,
    stored: Seq<VersionV>,
    post: UpdateState,
    acts: Seq<UpdateAction>,
) -> bool {
    if uj.zip_url.len() == 0 {
        ended_clean(post, acts)
    } else {
        (match post {
            UpdateState::AwaitDownload { now: n2, changelog_url, pending } => n2 == now
                && changelog_url@ == uj.changelog && (match pending {
                Some(vs) => sorted_desc(vers_view(vs@)) && vers_view(vs@).to_multiset()
                    == stored.to_multiset() && (sorted_desc(stored) ==> vers_view(vs@) == stored),
                None => false,
            }),
            _ => false,
        }) && acts.len() == 1 && (match acts[0] {
            UpdateAction::DownloadTmp { url } => url@ == uj.zip_url,
            _ => false,
        })
    }
}

/// A stored track at least as new as the offered code ends the update as a
/// no-op.
pub open spec fn stale_noop(
    state: UpdateState,
    event: UpdateEvent,
    post: UpdateState,
    acts: Seq<UpdateAction>,
) -> bool {
    match (state, event) {
        (
            UpdateState::AwaitPointerTrack { now, uj },
            UpdateEvent::TrackBytes { data: Some(b) },
        ) => match track_from_bytes(b@) {
            Some(t) => t.module.version_code >= uj@.version_code ==> (post == (
            UpdateState::Finished { updated: false }) && acts.len() == 0),
            None => true,
        },
        _ => true,
    }
}

pub proof fn lemma_after_empty(t: bool, td: bool)
    ensures
        tmp_after(t, Seq::<UpdateAction>::empty()) == t,
        tmpd_after(td, Seq::<UpdateAction>::empty()) == td,
        urls_nonempty(Seq::<UpdateAction>::empty()),
{
}

/// How one appended action changes the temp models.
pub proof fn lemma_model_snoc(t: bool, td: bool, acts: Seq<UpdateAction>, a: UpdateAction)
    ensures
        tmp_after(t, acts.push(a)) == tmp1(tmp_after(t, acts), a),
        tmpd_after(td, acts.push(a)) == tmpd1(tmpd_after(td, acts), a),
    decreases acts.len(),
{
    if acts.len() == 0 {
        assert(acts.push(a)[0] == a);
        assert(acts.push(a).skip(1) =~= Seq::<UpdateAction>::empty());
        assert(tmp_after(tmp1(t, a), Seq::<UpdateAction>::empty()) == tmp1(t, a));
        assert(tmpd_after(tmpd1(td, a), Seq::<UpdateAction>::empty()) == tmpd1(td, a));
        assert(tmp_after(t, acts.push(a)) == tmp_after(tmp1(t, a), acts.push(a).skip(1)));
        assert(tmpd_after(td, acts.push(a)) == tmpd_after(tmpd1(td, a), acts.push(a).skip(1)));
    } else {
        assert(acts.push(a)[0] == acts[0]);
        assert(acts.push(a).skip(1) =~= acts.skip(1).push(a));
        lemma_model_snoc(tmp1(t, acts[0]), tmpd1(td, acts[0]), acts.skip(1), a);
        assert(tmp_after(t, acts.push(a)) == tmp_after(tmp1(t, acts[0]), acts.push(a).skip(1)));
        assert(tmpd_after(td, acts.push(a)) == tmpd_after(tmpd1(td, acts[0]), acts.push(
            a,
        ).skip(1)));
        assert(tmp_after(t, acts) == tmp_after(tmp1(t, acts[0]), acts.skip(1)));
        assert(tmpd_after(td, acts) == tmpd_after(tmpd1(td, acts[0]), acts.skip(1)));
    }
}

/// Appending an acceptable action preserves the per-action facts.
pub proof fn lemma_flags_snoc(
    m: ModuleCfgV,
    repo: RepositorySettingV,
    post: UpdateState,
    acts: Seq<UpdateAction>,
    a: UpdateAction,
)
    requires
        urls_nonempty(acts),
        url_ok1(a),
        writes_ok(m, repo, post, acts),
        track_write_ok(m, repo, post, a),
    ensures
        urls_nonempty(acts.push(a)),
        writes_ok(m, repo, post, acts.push(a)),
{
    assert forall|k: int| 0 <= k < acts.push(a).len() implies url_ok1(
        #[trigger] acts.push(a)[k],
    ) && track_write_ok(m, repo, post, acts.push(a)[k]) by {
        if k < acts.len() {
            assert(acts.push(a)[k] == acts[k]);
            assert(url_ok1(acts[k]));
            assert(track_write_ok(m, repo, post, acts[k]));
        } else {
            assert(acts.push(a)[k] == a);
        }
    }
}

/// A list of plain `Remove` actions leaves both temp models unchanged and
/// carries no URL or track write.
pub proof fn lemma_removes_neutral(
    m: ModuleCfgV,
    repo: RepositorySettingV,
    post: UpdateState,
    t: bool,
    td: bool,
    acts: Seq<UpdateAction>,
)
    requires
        forall|k: int| 0 <= k < acts.len() ==> (#[trigger] acts[k]) matches UpdateAction::Remove {
            ..
        },
    ensures
        tmp_after(t, acts) == t,
        tmpd_after(td, acts) == td,
        urls_nonempty(acts),
        writes_ok(m, repo, post, acts),
    decreases acts.len(),
{
    if acts.len() > 0 {
        assert(acts[0] matches UpdateAction::Remove { .. });
        assert forall|k: int| 0 <= k < acts.skip(1).len() implies (#[trigger] acts.skip(1)[k])
            matches UpdateAction::Remove { .. } by {
            assert(acts.skip(1)[k] == acts[k + 1]);
        }
        lemma_removes_neutral(m, repo, post, t, td, acts.skip(1));
    }
}

/// No action in the list writes a track.
pub open spec fn no_track_writes(acts: Seq<UpdateAction>) -> bool {
    forall|k: int|
        0 <= k < acts.len() ==> !((#[trigger] acts[k]) matches UpdateAction::WriteTrack { .. })
}

pub proof fn lemma_no_writes_ok(
    m: ModuleCfgV,
    repo: RepositorySettingV,
    post: UpdateState,
    acts: Seq<UpdateAction>,
)
    requires
        no_track_writes(acts),
    ensures
        writes_ok(m, repo, post, acts),
{
}

/// The models compose over concatenation.
pub proof fn lemma_model_concat(t: bool, td: bool, a: Seq<UpdateAction>, b: Seq<UpdateAction>)
    ensures
        tmp_after(t, a + b) == tmp_after(tmp_after(t, a), b),
        tmpd_after(td, a + b) == tmpd_after(tmpd_after(td, a), b),
    decreases a.len(),
{
    if a.len() == 0 {
        assert(a + b =~= b);
    } else {
        assert((a + b)[0] == a[0]);
        assert((a + b).skip(1) =~= a.skip(1) + b);
        lemma_model_concat(tmp1(t, a[0]), tmpd1(td, a[0]), a.skip(1), b);
        assert(tmp_after(t, a + b) == tmp_after(tmp1(t, a[0]), (a + b).skip(1)));
        assert(tmpd_after(td, a + b) == tmpd_after(tmpd1(td, a[0]), (a + b).skip(1)));
        assert(tmp_after(t, a) == tmp_after(tmp1(t, a[0]), a.skip(1)));
        assert(tmpd_after(td, a) == tmpd_after(tmpd1(td, a[0]), a.skip(1)));
    }
}

pub proof fn lemma_flags_concat(
    m: ModuleCfgV,
    repo: RepositorySettingV,
    post: UpdateState,
    a: Seq<UpdateAction>,
    b: Seq<UpdateAction>,
)
    requires
        urls_nonempty(a),
        urls_nonempty(b),
        writes_ok(m, repo, post, a),
        writes_ok(m, repo, post, b),
    ensures
        urls_nonempty(a + b),
        writes_ok(m, repo, post, a + b),
{
    assert forall|k: int| 0 <= k < (a + b).len() implies url_ok1(#[trigger] (a + b)[k])
        && track_write_ok(m, repo, post, (a + b)[k]) by {
        if k < a.len() {
            assert((a + b)[k] == a[k]);
            assert(url_ok1(a[k]));
            assert(track_write_ok(m, repo, post, a[k]));
        } else {
            assert((a + b)[k] == b[k - a.len()]);
            assert(url_ok1(b[k - a.len()]));
            assert(track_write_ok(m, repo, post, b[k - a.len()]));
        }
    }
}

/// Inserting anywhere adds exactly one occurrence.
proof fn lemma_multiset_insert(vs: Seq<VersionV>, pos: int, v: VersionV)
    requires
        0 <= pos <= vs.len(),
    ensures
        vs.insert(pos, v).to_multiset() == vs.to_multiset().insert(v),
{
    let a = vs.subrange(0, pos);
    let b = vs.subrange(pos, vs.len() as int);
    assert(vs.insert(pos, v) =~= a + (seq![v] + b));
    assert(vs =~= a + b);
    vstd::seq_lib::lemma_multiset_commutative(a, seq![v] + b);
    vstd::seq_lib::lemma_multiset_commutative(seq![v], b);
    vstd::seq_lib::lemma_multiset_commutative(a, b);
    seq![v].to_multiset_ensures();
    Seq::<VersionV>::empty().to_multiset_ensures();
    assert(seq![v] =~= Seq::<VersionV>::empty().push(v));
    assert(seq![v].to_multiset() == Multiset::<VersionV>::empty().insert(v));
    assert(vs.insert(pos, v).to_multiset() =~= vs.to_multiset().insert(v)) by {
        assert(vs.insert(pos, v).to_multiset() == a.to_multiset().add(
            Multiset::<VersionV>::empty().insert(v).add(b.to_multiset()),
        ));
        assert(vs.to_multiset() == a.to_multiset().add(b.to_multiset()));
    }
}

/// Reading back the bytes under which a track was just persisted yields a
/// stored module at least as new as any code the track's module reaches;
/// with `stale_noop` of `update`, repeating an update against an unchanged
/// provider therefore ends as a no-op and leaves the track unwritten.
pub proof fn lemma_second_update_noop(t: TrackV, code: int)
    requires
        track_wf(t),
        t.module.version_code >= code,
    ensures
        match track_from_bytes(vstd::utf8::encode_utf8(ser_track(t, true, 0))) {
            Some(t2) => t2 == t && t2.module.version_code >= code,
            None => false,
        },
{
    let s = ser_track(t, true, 0);
    vstd::utf8::encode_utf8_valid_utf8(s);
    vstd::utf8::encode_utf8_decode_utf8(s);
    crate::track::lemma_track_round_trip(t, true);
}

// ---------- the machine ----------

/// No action in the list writes a changelog file.
pub open spec fn no_cl_writes(acts: Seq<UpdateAction>) -> bool {
    forall|k: int|
        0 <= k < acts.len() ==> !((#[trigger] acts[k]) matches UpdateAction::WriteChangelog { .. })
}

/// An HTML changelog body is rejected: no changelog file is written and the
/// persisted entry carries an empty changelog name.
pub open spec fn changelog_html_noop(
    state: UpdateState,
    event: UpdateEvent,
    post: UpdateState,
    acts: Seq<UpdateAction>,
) -> bool {
    match (state, event) {
        (
            UpdateState::AwaitChangelog { origin, versions, entry },
            UpdateEvent::Body { data: Some(b) },
        ) => (valid_utf8(b@) && util::is_html_text(decode_utf8(b@))) ==> (no_cl_writes(acts)
            && match post {
            UpdateState::AwaitTrackWrite { track } => track@.versions.len() > 0
                ==> track@.versions[0].changelog.len() == 0,
            UpdateState::Finished { updated } => !updated,
            _ => false,
        }),
        _ => true,
    }
}

/// The full transition relation of one step: for every state and event,
/// the successor and the exact actions the machine orders.
pub open spec fn transition_exact(
    m: ModuleCfgV,
    repo: RepositorySettingV,
    state: UpdateState,
    event: UpdateEvent,
    post: UpdateState,
    acts: Seq<UpdateAction>,
) -> bool {
    match (state, event) {
        (UpdateState::Start, UpdateEvent::Begin { now }) => if m.setting.disabled
            || m.provider.len() == 0 {
            ended_clean(post, acts)
        } else {
            match m.kind {
                ProviderKind::UpdateJson => (match post {
                    UpdateState::AwaitPointer { now: n2 } => n2 == now,
                    _ => false,
                }) && acts.len() == 1 && (match acts[0] {
                    UpdateAction::FetchBody { url } => url@ == m.provider,
                    _ => false,
                }),
                ProviderKind::ZipUrl => (match post {
                    UpdateState::AwaitDownload { now: n2, changelog_url, pending } => n2 == now
                        && changelog_url@ == m.changelog && pending is None,
                    _ => false,
                }) && acts.len() == 1 && (match acts[0] {
                    UpdateAction::DownloadTmp { url } => url@ == m.provider,
                    _ => false,
                }),
                ProviderKind::Git => (match post {
                    UpdateState::AwaitClone { now: n2 } => n2 == now,
                    _ => false,
                }) && acts.len() == 1 && (match acts[0] {
                    UpdateAction::CloneTmpDir { url } => url@ == m.provider,
                    _ => false,
                }),
            }
        },
        (UpdateState::AwaitPointer { now }, UpdateEvent::Body { data }) => match data {
            Some(b) => match uj_from_bytes(b@) {
                Some(u) => (match post {
                    UpdateState::AwaitPointerTrack { now: n2, uj } => n2 == now && uj@ == u,
                    _ => false,
                }) && acts.len() == 1 && acts[0] == (UpdateAction::ReadTrack),
                None => ended_clean(post, acts),
            },
            None => ended_clean(post, acts),
        },
        (
            UpdateState::AwaitPointerTrack { now, uj },
            UpdateEvent::TrackBytes { data },
        ) => match data {
            Some(b) => match track_from_bytes(b@) {
                Some(t) => if t.module.version_code >= uj@.version_code {
                    ended_clean(post, acts)
                } else {
                    pointer_dl_exact(now, uj@, t.versions, post, acts)
                },
                None => pointer_dl_exact(now, uj@, Seq::<VersionV>::empty(), post, acts),
            },
            None => pointer_dl_exact(now, uj@, Seq::<VersionV>::empty(), post, acts),
        },
        (
            UpdateState::AwaitDownload { now, changelog_url, pending },
            UpdateEvent::Downloaded { fetched, written, last_modified },
        ) => if !(fetched && written) {
            ended_rm_tmp(post, acts)
        } else {
            (match post {
                UpdateState::AwaitTmpBytes { t, changelog_url: c2, pending: p2 } => t as int
                    == dl_time(now as int, last_modified) && c2 == changelog_url && p2 == pending,
                _ => false,
            }) && acts.len() == 1 && acts[0] == (UpdateAction::ReadTmp)
        },
        (
            UpdateState::AwaitTmpBytes { t, changelog_url, pending },
            UpdateEvent::FileBytes { data },
        ) => match data {
            Some(b) => match manifest_from_bytes(b@) {
                Some(om) => match pending {
                    Some(vers) => common_exact(
                        m,
                        repo,
                        om,
                        vers_view(vers@),
                        t as int,
                        changelog_url@,
                        post,
                        acts,
                    ),
                    None => (match post {
                        UpdateState::AwaitUrlTrack { t: t2, changelog_url: c2, origin } => t2 == t
                            && c2 == changelog_url && origin@ == om,
                        _ => false,
                    }) && acts.len() == 1 && acts[0] == (UpdateAction::ReadTrack),
                },
                None => ended_rm_tmp(post, acts),
            },
            None => ended_rm_tmp(post, acts),
        },
        (
            UpdateState::AwaitUrlTrack { t, changelog_url, origin },
            UpdateEvent::TrackBytes { data },
        ) => match data {
            Some(b) => match track_from_bytes(b@) {
                Some(tr) => if tr.module.version_code >= origin@.version_code {
                    ended_rm_tmp(post, acts)
                } else {
                    sorted_desc(tr.versions) ==> common_exact(
                        m,
                        repo,
                        origin@,
                        tr.versions,
                        t as int,
                        changelog_url@,
                        post,
                        acts,
                    )
                },
                None => common_exact(
                    m,
                    repo,
                    origin@,
                    Seq::<VersionV>::empty(),
                    t as int,
                    changelog_url@,
                    post,
                    acts,
                ),
            },
            None => common_exact(
                m,
                repo,
                origin@,
                Seq::<VersionV>::empty(),
                t as int,
                changelog_url@,
                post,
                acts,
            ),
        },
        (UpdateState::AwaitClone { now }, UpdateEvent::Cloned { commit_millis }) => match
        commit_millis {
            Some(cm) => (match post {
                UpdateState::AwaitEntries { t } => t == cm,
                _ => false,
            }) && acts.len() == 1 && acts[0] == (UpdateAction::ListTmpDir),
            None => ended_rm_tmpd(post, acts),
        },
        (UpdateState::AwaitEntries { t }, UpdateEvent::Entries { entries }) => match
        crate::util::prop_of_entries(crate::util::entries_view(entries@)) {
            Some(om) => match crate::util::archive_of(
                crate::util::kept_entries(crate::util::entries_view(entries@)),
            ) {
                Some(ab) => (match post {
                    UpdateState::AwaitPkgWrite { t: t2, changelog_url: c2, origin } => t2 == t
                        && c2@ == m.changelog && origin@ == om,
                    _ => false,
                }) && acts.len() == 2 && (match acts[0] {
                    UpdateAction::WriteTmp { data } => data@ == ab,
                    _ => false,
                }) && acts[1] == (UpdateAction::RemoveTmpDir),
                None => ended_rm_tmpd(post, acts),
            },
            None => ended_rm_tmpd(post, acts),
        },
        (
            UpdateState::AwaitPkgWrite { t, changelog_url, origin },
            UpdateEvent::Wrote { ok },
        ) => if !ok {
            ended_rm_tmp(post, acts)
        } else {
            (match post {
                UpdateState::AwaitUrlTrack { t: t2, changelog_url: c2, origin: o2 } => t2 == t
                    && c2 == changelog_url && o2 == origin,
                _ => false,
            }) && acts.len() == 1 && acts[0] == (UpdateAction::ReadTrack)
        },
        (
            UpdateState::AwaitChangelog { origin, versions, entry },
            UpdateEvent::Body { data },
        ) => match data {
            Some(b) => if valid_utf8(b@) && crate::util::is_html_text(decode_utf8(b@)) {
                entry@.version_code == origin@.version_code && shaped_for(
                    vers_view(versions@),
                    entry@.version_code,
                ) ==> finish_exact(
                    m,
                    repo,
                    origin@,
                    (VersionV { changelog: Seq::empty(), ..entry@ }),
                    vers_view(versions@),
                    post,
                    acts,
                    0,
                )
            } else {
                (match post {
                    UpdateState::AwaitClWrite { origin: o2, versions: v2, entry: e2 } => o2
                        == origin && v2 == versions && e2 == entry,
                    _ => false,
                }) && acts.len() == 1 && (match acts[0] {
                    UpdateAction::WriteChangelog { name, data: d2 } => name@ == entry@.changelog
                        && d2 == b,
                    _ => false,
                })
            },
            None => entry@.version_code == origin@.version_code && shaped_for(
                vers_view(versions@),
                entry@.version_code,
            ) ==> finish_exact(
                m,
                repo,
                origin@,
                (VersionV { changelog: Seq::empty(), ..entry@ }),
                vers_view(versions@),
                post,
                acts,
                0,
            ),
        },
        (
            UpdateState::AwaitClWrite { origin, versions, entry },
            UpdateEvent::Wrote { ok },
        ) => entry@.version_code == origin@.version_code && shaped_for(
            vers_view(versions@),
            entry@.version_code,
        ) ==> (if ok {
            finish_exact(m, repo, origin@, entry@, vers_view(versions@), post, acts, 0)
        } else {
            acts.len() >= 1 && (match acts[0] {
                UpdateAction::Remove { name } => name@ == entry@.changelog,
                _ => false,
            }) && finish_exact(
                m,
                repo,
                origin@,
                (VersionV { changelog: Seq::empty(), ..entry@ }),
                vers_view(versions@),
                post,
                acts,
                1,
            )
        }),
        (UpdateState::AwaitTrackWrite { track }, UpdateEvent::Wrote { ok }) => if ok {
            post == (UpdateState::Finished { updated: true }) && acts.len() == 0
        } else {
            post == (UpdateState::Finished { updated: false }) && acts_are_removals(
                acts,
                if track@.versions.len() > 0 {
                    removal_views(seq![track@.versions[0]])
                } else {
                    Seq::<Seq<char>>::empty()
                },
            )
        },
        (UpdateState::Finished { updated }, _) => post == (UpdateState::Finished { updated })
            && acts.len() == 0,
        (_, _) => post == (UpdateState::Finished { updated: false }) && acts.len() == 2 && acts[0]
            == (UpdateAction::RemoveTmp) && acts[1] == (UpdateAction::RemoveTmpDir),
    }
}

/// Appending a plain action preserves the simple per-action facts.
proof fn lemma_simple_snoc(acts: Seq<UpdateAction>, a: UpdateAction)
    requires
        urls_nonempty(acts),
        no_track_writes(acts),
        no_cl_writes(acts),
        url_ok1(a),
        !(a matches UpdateAction::WriteTrack { .. }),
        !(a matches UpdateAction::WriteChangelog { .. }),
    ensures
        urls_nonempty(acts.push(a)),
        no_track_writes(acts.push(a)),
        no_cl_writes(acts.push(a)),
{
    assert forall|k: int| 0 <= k < acts.push(a).len() implies url_ok1(#[trigger] acts.push(a)[k])
        && !(acts.push(a)[k] matches UpdateAction::WriteTrack { .. }) && !(acts.push(a)[k]
        matches UpdateAction::WriteChangelog { .. }) by {
        if k < acts.len() {
            assert(acts.push(a)[k] == acts[k]);
            assert(url_ok1(acts[k]));
            assert(!(acts[k] matches UpdateAction::WriteTrack { .. }));
            assert(!(acts[k] matches UpdateAction::WriteChangelog { .. }));
        } else {
            assert(acts.push(a)[k] == a);
        }
    }
}

/// The stored track parsed from the driver's bytes, if any.
fn read_stored_track(data: &Option<Vec<u8>>) -> (r: Option<Track>)
    ensures
        match data {
            Some(b) => match r {
                Some(t) => track_from_bytes(b@) == Some(t@),
                None => track_from_bytes(b@) is None,
            },
            None => r is None,
        },
{
    let b = match data {
        Some(b) => b,
        None => {
            return None;
        },
    };
    let s = match util::utf8_to_string(b) {
        Some(s) => s,
        None => {
            return None;
        },
    };
    let v = text::str_to_chars(s.as_str());
    match parse_track_x(&v, 0) {
        Some((t, e)) => {
            let w = crate::json::skip_ws_x(&v, e);
            if w == v.len() {
                Some(t)
            } else {
                None
            }
        },
        None => None,
    }
}

/// Sorted newest-first with every code strictly below `code`; a list already
/// of that shape comes back unchanged.
fn prep_versions(vs: &Vec<Version>, code: i64) -> (r: Vec<Version>)
    ensures
        sorted_desc(vers_view(r@)),
        forall|k: int|
            0 <= k < r@.len() ==> (#[trigger] vers_view(r@)[k]).version_code < code as int,
        sorted_desc(vers_view(vs@)) && (forall|k: int|
            0 <= k < vs@.len() ==> (#[trigger] vers_view(vs@)[k]).version_code < code as int)
            ==> vers_view(r@) == vers_view(vs@),
{
    let ghost shaped = sorted_desc(vers_view(vs@)) && (forall|k: int|
        0 <= k < vs@.len() ==> (#[trigger] vers_view(vs@)[k]).version_code < code as int);
    let sorted = sort_versions_desc(vs);
    let mut out = sorted;
    while out.len() > 0 && out[0].version_code >= code
        invariant
            sorted_desc(vers_view(out@)),
            shaped == (sorted_desc(vers_view(vs@)) && (forall|k: int|
                0 <= k < vs@.len() ==> (#[trigger] vers_view(vs@)[k]).version_code < code as int)),
            shaped ==> vers_view(out@) == vers_view(vs@),
        decreases out.len(),
    {
        proof {
            if shaped {
                assert(vers_view(out@)[0].version_code < code as int);
                assert(false);
            }
        }
        let ghost before = vers_view(out@);
        out.remove(0);
        proof {
            assert(vers_view(out@) =~= before.subrange(1, before.len() as int));
            assert forall|i: int, j: int| 0 <= i < j < vers_view(out@).len() implies (
            #[trigger] vers_view(out@)[i]).version_code >= (#[trigger] vers_view(
                out@,
            )[j]).version_code by {
                assert(vers_view(out@)[i] == before[i + 1]);
                assert(vers_view(out@)[j] == before[j + 1]);
            }
        }
    }
    proof {
        if out@.len() > 0 {
            assert forall|k: int| 0 <= k < out@.len() implies (#[trigger] vers_view(
                out@,
            )[k]).version_code < code as int by {
                if k > 0 {
                    assert(vers_view(out@)[0].version_code >= vers_view(out@)[k].version_code);
                }
            }
        }
    }
    out
}

/// The entry with its changelog name cleared.
fn entry_without_changelog(e: Version) -> (r: Version)
    ensures
        r@.timestamp == e@.timestamp,
        r@.version == e@.version,
        r@.version_code == e@.version_code,
        r@.zip_path == e@.zip_path,
        r@.changelog.len() == 0,
{
    Version {
        timestamp: e.timestamp,
        version: e.version,
        version_code: e.version_code,
        zip_path: e.zip_path,
        changelog: String::new(),
    }
}

impl Update {
    /// A failed end with no actions at all.
    fn noop_fail() -> (r: UpdateStep)
        ensures
            r.state == (UpdateState::Finished { updated: false }),
            r.actions@.len() == 0,
            tmp_after(false, r.actions@) == false,
            tmpd_after(false, r.actions@) == false,
            urls_nonempty(r.actions@),
            no_track_writes(r.actions@),
            no_cl_writes(r.actions@),
    {
        UpdateStep { state: UpdateState::Finished { updated: false }, actions: Vec::new() }
    }

    /// A failed end that clears both transient names.
    fn abort() -> (r: UpdateStep)
        ensures
            r.state == (UpdateState::Finished { updated: false }),
            r.actions@.len() == 2,
            r.actions@[0] == (UpdateAction::RemoveTmp),
            r.actions@[1] == (UpdateAction::RemoveTmpDir),
            forall|t: bool| tmp_after(t, r.actions@) == false,
            forall|t: bool| tmpd_after(t, r.actions@) == false,
            urls_nonempty(r.actions@),
            no_track_writes(r.actions@),
            no_cl_writes(r.actions@),
    {
        let mut acts: Vec<UpdateAction> = Vec::new();
        let ghost a0 = acts@;
        acts.push(UpdateAction::RemoveTmp);
        let ghost a1 = acts@;
        acts.push(UpdateAction::RemoveTmpDir);
        proof {
            assert(a1 =~= a0.push(UpdateAction::RemoveTmp));
            assert(acts@ =~= a1.push(UpdateAction::RemoveTmpDir));
            lemma_simple_snoc(a0, UpdateAction::RemoveTmp);
            lemma_simple_snoc(a1, UpdateAction::RemoveTmpDir);
            assert forall|t: bool| tmp_after(t, acts@) == false && tmpd_after(t, acts@)
                == false by {
                lemma_model_snoc(t, t, a0, UpdateAction::RemoveTmp);
                lemma_model_snoc(false, false, a1, UpdateAction::RemoveTmpDir);
                lemma_model_snoc(t, t, a1, UpdateAction::RemoveTmpDir);
            }
        }
        UpdateStep { state: UpdateState::Finished { updated: false }, actions: acts }
    }

    /// The shared tail of every protocol: retention and persistence of the
    /// new track, given the parsed origin, the fresh entry and the retained
    /// list.  Against a well-shaped stored list the outcome is exact: the
    /// persisted versions are the fresh entry followed by the stored ones,
    /// truncated to the retention bound, and the actions are precisely the
    /// removals of the evicted tail followed by the one track write.
    #[verifier::rlimit(100)]
    #[verifier::spinoff_prover]
    fn finish_track(
        &self,
        module: &config::Module,
        origin: origin::Module,
        entry: Version,
        versions: &Vec<Version>,
    ) -> (r: UpdateStep)
        ensures
            tmp_after(false, r.actions@) == st_tmp(r.state),
            tmpd_after(false, r.actions@) == st_tmpd(r.state),
            urls_nonempty(r.actions@),
            writes_ok(module@, self.setting@, r.state, r.actions@),
            no_cl_writes(r.actions@),
            match r.state {
                UpdateState::AwaitTrackWrite { track } => track@.module == origin@ && (
                track@.versions.len() > 0 ==> track@.versions[0] == entry@),
                UpdateState::Finished { updated } => !updated && r.actions@.len() == 0,
                _ => false,
            },
            entry@.version_code == origin@.version_code && shaped_for(
                vers_view(versions@),
                entry@.version_code,
            ) ==> finish_exact(
                module@,
                self.setting@,
                origin@,
                entry@,
                vers_view(versions@),
                r.state,
                r.actions@,
                0,
            ),
    {
        if entry.version_code != origin.version_code {
            return Self::noop_fail();
        }
        let ghost shaped = shaped_for(vers_view(versions@), entry@.version_code);
        let vers = prep_versions(versions, entry.version_code);
        let ghost versv = vers_view(vers@);
        let ghost entv = entry@;
        let mut merged = vers;
        merged.insert(0, entry);
        proof {
            assert(vers_view(merged@) =~= versv.insert(0, entv));
            lemma_sorted_insert(versv, 0, entv);
            if shaped {
                assert(versv == vers_view(versions@));
                assert(vers_view(merged@) =~= seq![entv] + vers_view(versions@));
            }
        }
        let keep = self.keep_size(module);
        let ghost full = vers_view(merged@);
        let mut old_list: Vec<Version> = Vec::new();
        if merged.len() > keep {
            proof {
                assert((keep as int) < full.len());
                assert(vers_view(merged@) =~= full.take(keep as int) + full.skip(keep as int));
                assert(vers_view(old_list@) =~= full.subrange(keep as int, keep as int));
            }
            while merged.len() > keep
                invariant
                    (keep as int) < full.len(),
                    (keep as int) <= merged@.len(),
                    old_list@.len() + merged@.len() == full.len(),
                    vers_view(merged@) =~= full.take(keep as int) + full.skip(
                        keep + old_list@.len(),
                    ),
                    vers_view(old_list@) =~= full.subrange(keep as int, keep + old_list@.len()),
                decreases merged.len(),
            {
                let ghost mv = vers_view(merged@);
                let ghost ov = vers_view(old_list@);
                let v = merged.remove(keep);
                old_list.push(v);
                proof {
                    assert(v@ == mv[keep as int]);
                    assert(mv[keep as int] == full[keep + ov.len()]);
                    assert(vers_view(merged@) =~= mv.remove(keep as int));
                    assert(vers_view(merged@) =~= full.take(keep as int) + full.skip(
                        keep + old_list@.len(),
                    ));
                    assert(vers_view(old_list@) =~= ov.push(v@));
                    assert(vers_view(old_list@) =~= full.subrange(
                        keep as int,
                        keep + old_list@.len(),
                    ));
                }
            }
            proof {
                assert(full.skip(keep + old_list@.len()) =~= Seq::<VersionV>::empty());
                assert(vers_view(merged@) =~= full.take(keep as int));
                assert(vers_view(old_list@) =~= full.skip(keep as int));
            }
        }
        let track = Track { module: origin, versions: merged };
        proof {
            assert(sorted_desc(full));
            assert(track@.versions =~= vers_view(merged@));
            assert forall|i: int, j: int| 0 <= i < j < track@.versions.len() implies (
            #[trigger] track@.versions[i]).version_code >= (
            #[trigger] track@.versions[j]).version_code by {
                assert(track@.versions[i] == full[i]);
                assert(track@.versions[j] == full[j]);
            }
            assert(track@.versions.len() <= keep as int);
            if track@.versions.len() > 0 {
                assert(track@.versions[0] == full[0]);
                assert(full[0] == entv);
            }
            assert(crate::origin::om_wf(track@.module));
            assert forall|k: int| 0 <= k < track@.versions.len() implies crate::track::version_wf(
                #[trigger] track@.versions[k],
            ) by {
                assert(track@.versions[k] == vers_view(merged@)[k]);
                assert(vers_view(merged@)[k] == merged@[k]@);
            }
            assert(track_inv(track@, module@, self.setting@));
            if shaped {
                let kv = kept_versions(entv, vers_view(versions@), eff_keep_size(
                    module@,
                    self.setting@,
                ));
                let ev = evicted_versions(entv, vers_view(versions@), eff_keep_size(
                    module@,
                    self.setting@,
                ));
                assert(full =~= seq![entv] + vers_view(versions@));
                assert(track@.versions =~= kv);
                assert(vers_view(old_list@) =~= ev);
            }
        }
        let data = self.write_track(&track);
        let st = UpdateState::AwaitTrackWrite { track };
        let mut acts = self.remove_old(&old_list);
        proof {
            lemma_removes_neutral(module@, self.setting@, st, false, false, acts@);
            assert forall|k: int| 0 <= k < acts@.len() implies !((#[trigger] acts@[k])
                matches UpdateAction::WriteChangelog { .. }) by {
                assert(acts@[k] matches UpdateAction::Remove { .. });
            }
        }
        let ghost a0 = acts@;
        acts.push(UpdateAction::WriteTrack { data });
        proof {
            let ghost x = acts@[acts@.len() - 1];
            assert(acts@ =~= a0.push(x));
            lemma_model_snoc(false, false, a0, x);
            lemma_flags_snoc(module@, self.setting@, st, a0, x);
            assert forall|k: int| 0 <= k < acts@.len() implies !((#[trigger] acts@[k])
                matches UpdateAction::WriteChangelog { .. }) by {
                if k < a0.len() {
                    assert(acts@[k] == a0[k]);
                } else {
                    assert(acts@[k] == x);
                }
            }
            assert(acts@.take(acts@.len() - 1) =~= a0);
            assert(acts@.subrange(0, acts@.len() - 1) =~= a0);
        }
        UpdateStep { state: st, actions: acts }
    }

    /// Rename the staged archive and deal with the changelog: the shared
    /// middle of every protocol once the manifest and version check passed.
    /// The first action renames `tmp` to the entry's archive name; an empty
    /// changelog URL goes straight to the exact persistence of
    /// `finish_track`, a non-empty one fetches the changelog body.
    #[verifier::rlimit(100)]
    #[verifier::spinoff_prover]
    fn update_common(
        &self,
        module: &config::Module,
        origin: origin::Module,
        versions: Vec<Version>,
        t: i64,
        changelog_url: &str,
    ) -> (r: UpdateStep)
        ensures
            tmp_after(true, r.actions@) == st_tmp(r.state),
            tmpd_after(false, r.actions@) == st_tmpd(r.state),
            urls_nonempty(r.actions@),
            writes_ok(module@, self.setting@, r.state, r.actions@),
            common_exact(
                module@,
                self.setting@,
                origin@,
                vers_view(versions@),
                t as int,
                changelog_url@,
                r.state,
                r.actions@,
            ),
    {
        let disp = StrUtil::get_version_display(origin.version.as_str(), origin.version_code);
        let entry = Version::new(t, disp, origin.version_code);
        proof {
            assert(entry@ =~= fresh_entry(t as int, origin@));
        }
        let mut acts: Vec<UpdateAction> = Vec::new();
        let ghost a0 = acts@;
        let rn = UpdateAction::RenameTmp { to: entry.zip_path.as_str().to_owned() };
        acts.push(rn);
        proof {
            let ghost x = acts@[0];
            assert(acts@ =~= a0.push(x));
            lemma_model_snoc(true, false, a0, x);
            lemma_simple_snoc(a0, x);
        }
        if changelog_url.unicode_len() == 0 {
            let entry2 = Version {
                timestamp: entry.timestamp,
                version: entry.version,
                version_code: entry.version_code,
                zip_path: entry.zip_path,
                changelog: String::new(),
            };
            proof {
                assert(entry2@ =~= fresh_entry_plain(t as int, origin@));
            }
            let fin = self.finish_track(module, origin, entry2, &versions);
            let mut all = acts;
            let mut fa = fin.actions;
            let ghost av = all@;
            let ghost fv = fa@;
            all.append(&mut fa);
            proof {
                assert(all@ == av + fv);
                lemma_model_concat(true, false, av, fv);
                lemma_no_writes_ok(module@, self.setting@, fin.state, av);
                lemma_flags_concat(module@, self.setting@, fin.state, av, fv);
                assert(all@[0] == av[0]);
                if shaped_for(vers_view(versions@), origin@.version_code) {
                    assert(fv.len() >= 1);
                    assert(all@.subrange(1, all@.len() - 1) =~= fv.subrange(0, fv.len() - 1));
                    assert(all@[all@.len() - 1] == fv[fv.len() - 1]);
                }
            }
            UpdateStep { state: fin.state, actions: all }
        } else {
            let ghost a1 = acts@;
            let fb = UpdateAction::FetchBody { url: changelog_url.to_owned() };
            acts.push(fb);
            proof {
                let ghost x = acts@[acts@.len() - 1];
                assert(acts@ =~= a1.push(x));
                lemma_model_snoc(false, false, a1, x);
                lemma_simple_snoc(a1, x);
                assert(acts@[0] == a1[0]);
            }
            UpdateStep {
                state: UpdateState::AwaitChangelog { origin, versions, entry },
                actions: acts,
            }
        }
    }
}

impl Update {
    /// First step of the update-json protocolimpl Update {
    /// First step of the update-json protocol: fetch the pointer document.
    pub fn update_by_json(&self, module: &config::Module, now: i64) -> (r: UpdateStep)
        ensures
            tmp_after(false, r.actions@) == st_tmp(r.state),
            tmpd_after(false, r.actions@) == st_tmpd(r.state),
            urls_nonempty(r.actions@),
            no_track_writes(r.actions@),
            module@.provider.len() == 0 ==> r.state == (UpdateState::Finished { updated: false })
                && r.actions@.len() == 0,
            module@.provider.len() > 0 ==> (match r.state {
                UpdateState::AwaitPointer { now: n2 } => n2 == now,
                _ => false,
            }) && r.actions@.len() == 1 && (match r.actions@[0] {
                UpdateAction::FetchBody { url } => url@ == module@.provider,
                _ => false,
            }),
    {
        if module.provider.as_str().unicode_len() == 0 {
            return Self::noop_fail();
        }
        let mut acts: Vec<UpdateAction> = Vec::new();
        let ghost a0 = acts@;
        acts.push(UpdateAction::FetchBody { url: module.provider.as_str().to_owned() });
        proof {
            let ghost x = acts@[0];
            assert(acts@ =~= a0.push(x));
            lemma_model_snoc(false, false, a0, x);
            lemma_simple_snoc(a0, x);
        }
        UpdateStep { state: UpdateState::AwaitPointer { now }, actions: acts }
    }

    /// First step of the zip-url protocol: download the archive.
    pub fn update_by_url(&self, module: &config::Module, now: i64) -> (r: UpdateStep)
        ensures
            tmp_after(false, r.actions@) == st_tmp(r.state),
            tmpd_after(false, r.actions@) == st_tmpd(r.state),
            urls_nonempty(r.actions@),
            no_track_writes(r.actions@),
            module@.provider.len() == 0 ==> r.state == (UpdateState::Finished { updated: false })
                && r.actions@.len() == 0,
            module@.provider.len() > 0 ==> (match r.state {
                UpdateState::AwaitDownload { now: n2, changelog_url, pending } => n2 == now
                    && changelog_url@ == module@.changelog && pending is None,
                _ => false,
            }) && r.actions@.len() == 1 && (match r.actions@[0] {
                UpdateAction::DownloadTmp { url } => url@ == module@.provider,
                _ => false,
            }),
    {
        if module.provider.as_str().unicode_len() == 0 {
            return Self::noop_fail();
        }
        let mut acts: Vec<UpdateAction> = Vec::new();
        let ghost a0 = acts@;
        acts.push(UpdateAction::DownloadTmp { url: module.provider.as_str().to_owned() });
        proof {
            let ghost x = acts@[0];
            assert(acts@ =~= a0.push(x));
            lemma_model_snoc(false, false, a0, x);
            lemma_simple_snoc(a0, x);
        }
        UpdateStep {
            state: UpdateState::AwaitDownload {
                now,
                changelog_url: module.changelog.as_str().to_owned(),
                pending: None,
            },
            actions: acts,
        }
    }

    /// First step of the git protocol: clone into the transient directory.
    pub fn update_by_git(&self, module: &config::Module, now: i64) -> (r: UpdateStep)
        ensures
            tmp_after(false, r.actions@) == st_tmp(r.state),
            tmpd_after(false, r.actions@) == st_tmpd(r.state),
            urls_nonempty(r.actions@),
            no_track_writes(r.actions@),
            module@.provider.len() == 0 ==> r.state == (UpdateState::Finished { updated: false })
                && r.actions@.len() == 0,
            module@.provider.len() > 0 ==> (match r.state {
                UpdateState::AwaitClone { now: n2 } => n2 == now,
                _ => false,
            }) && r.actions@.len() == 1 && (match r.actions@[0] {
                UpdateAction::CloneTmpDir { url } => url@ == module@.provider,
                _ => false,
            }),
    {
        if module.provider.as_str().unicode_len() == 0 {
            return Self::noop_fail();
        }
        let mut acts: Vec<UpdateAction> = Vec::new();
        let ghost a0 = acts@;
        acts.push(UpdateAction::CloneTmpDir { url: module.provider.as_str().to_owned() });
        proof {
            let ghost x = acts@[0];
            assert(acts@ =~= a0.push(x));
            lemma_model_snoc(false, false, a0, x);
            lemma_simple_snoc(a0, x);
        }
        UpdateStep { state: UpdateState::AwaitClone { now }, actions: acts }
    }

    /// The pointer body arrived: parse it and ask for the stored track.
    fn on_pointer(&self, module: &config::Module, now: i64, data: Option<Vec<u8>>) -> (r:
        UpdateStep)
        ensures
            tmp_after(false, r.actions@) == st_tmp(r.state),
            tmpd_after(false, r.actions@) == st_tmpd(r.state),
            urls_nonempty(r.actions@),
            no_track_writes(r.actions@),
            match data {
                Some(b) => match uj_from_bytes(b@) {
                    Some(u) => (match r.state {
                        UpdateState::AwaitPointerTrack { now: n2, uj } => n2 == now && uj@ == u,
                        _ => false,
                    }) && r.actions@.len() == 1 && r.actions@[0] == (UpdateAction::ReadTrack),
                    None => ended_clean(r.state, r.actions@),
                },
                None => ended_clean(r.state, r.actions@),
            },
    {
        let b = match data {
            Some(b) => b,
            None => {
                return Self::noop_fail();
            },
        };
        let s = match util::utf8_to_string(&b) {
            Some(s) => s,
            None => {
                return Self::noop_fail();
            },
        };
        let v = text::str_to_chars(s.as_str());
        let uj = match crate::origin::parse_uj_x(&v, 0) {
            Some((uj, e)) => {
                let w = crate::json::skip_ws_x(&v, e);
                if w != v.len() {
                    return Self::noop_fail();
                }
                uj
            },
            None => {
                return Self::noop_fail();
            },
        };
        let mut acts: Vec<UpdateAction> = Vec::new();
        let ghost a0 = acts@;
        acts.push(UpdateAction::ReadTrack);
        proof {
            let ghost x = acts@[0];
            assert(acts@ =~= a0.push(x));
            lemma_model_snoc(false, false, a0, x);
            lemma_simple_snoc(a0, x);
        }
        UpdateStep { state: UpdateState::AwaitPointerTrack { now, uj }, actions: acts }
    }

    /// The stored track arrived for the pointer check: a no-op when the
    /// stored module is at least as new.
    fn on_pointer_track(
        &self,
        module: &config::Module,
        now: i64,
        uj: UpdateJson,
        data: Option<Vec<u8>>,
    ) -> (r: UpdateStep)
        ensures
            tmp_after(false, r.actions@) == st_tmp(r.state),
            tmpd_after(false, r.actions@) == st_tmpd(r.state),
            urls_nonempty(r.actions@),
            no_track_writes(r.actions@),
            match data {
                Some(b) => match track_from_bytes(b@) {
                    Some(t) => if t.module.version_code >= uj@.version_code {
                        ended_clean(r.state, r.actions@)
                    } else {
                        pointer_dl_exact(now, uj@, t.versions, r.state, r.actions@)
                    },
                    None => pointer_dl_exact(
                        now,
                        uj@,
                        Seq::<VersionV>::empty(),
                        r.state,
                        r.actions@,
                    ),
                },
                None => pointer_dl_exact(now, uj@, Seq::<VersionV>::empty(), r.state, r.actions@),
            },
    {
        let stored = read_stored_track(&data);
        let vers = match self.check_versions(&stored, uj.version_code) {
            Some(v) => v,
            None => {
                return Self::noop_fail();
            },
        };
        if uj.zip_url.as_str().unicode_len() == 0 {
            return Self::noop_fail();
        }
        proof {
            if vers@.len() == 0 {
                assert(vers_view(vers@) =~= Seq::<VersionV>::empty());
            }
            assert(sorted_desc(Seq::<VersionV>::empty()));
            Seq::<VersionV>::empty().to_multiset_ensures();
        }
        let mut acts: Vec<UpdateAction> = Vec::new();
        let ghost a0 = acts@;
        acts.push(UpdateAction::DownloadTmp { url: uj.zip_url.as_str().to_owned() });
        proof {
            let ghost x = acts@[0];
            assert(acts@ =~= a0.push(x));
            lemma_model_snoc(false, false, a0, x);
            lemma_simple_snoc(a0, x);
        }
        UpdateStep {
            state: UpdateState::AwaitDownload {
                now,
                changelog_url: uj.changelog.as_str().to_owned(),
                pending: Some(vers),
            },
            actions: acts,
        }
    }

    /// The download finished: settle the timestamp and read the archive back.
    fn on_download(
        &self,
        now: i64,
        changelog_url: String,
        pending: Option<Vec<Version>>,
        fetched: bool,
        written: bool,
        last_modified: Option<String>,
    ) -> (r: UpdateStep)
        ensures
            tmp_after(true, r.actions@) == st_tmp(r.state),
            tmpd_after(false, r.actions@) == st_tmpd(r.state),
            urls_nonempty(r.actions@),
            no_track_writes(r.actions@),
            !(fetched && written) ==> ended_rm_tmp(r.state, r.actions@),
            fetched && written ==> (match r.state {
                UpdateState::AwaitTmpBytes { t, changelog_url: c2, pending: p2 } => t as int
                    == dl_time(now as int, last_modified) && c2 == changelog_url && p2 == pending,
                _ => false,
            }) && r.actions@.len() == 1 && r.actions@[0] == (UpdateAction::ReadTmp),
    {
        if !fetched || !written {
            let mut acts: Vec<UpdateAction> = Vec::new();
            let ghost a0 = acts@;
            acts.push(UpdateAction::RemoveTmp);
            proof {
                let ghost x = acts@[0];
                assert(acts@ =~= a0.push(x));
                lemma_model_snoc(true, false, a0, x);
                lemma_simple_snoc(a0, x);
            }
            return UpdateStep { state: UpdateState::Finished { updated: false }, actions: acts };
        }
        let t = match last_modified {
            Some(h) => match util::parse_rfc2822_millis(h.as_str()) {
                Some(ms) => ms,
                None => now,
            },
            None => now,
        };
        let mut acts: Vec<UpdateAction> = Vec::new();
        let ghost a0 = acts@;
        acts.push(UpdateAction::ReadTmp);
        proof {
            let ghost x = acts@[0];
            assert(acts@ =~= a0.push(x));
            lemma_model_snoc(true, false, a0, x);
            lemma_simple_snoc(a0, x);
        }
        UpdateStep {
            state: UpdateState::AwaitTmpBytes { t, changelog_url, pending },
            actions: acts,
        }
    }

    /// The archive bytes arrived: read the manifest, then either finish (the
    /// pointer flow already checked) or ask for the stored track.
    fn on_tmp_bytes(
        &self,
        module: &config::Module,
        t: i64,
        changelog_url: String,
        pending: Option<Vec<Version>>,
        data: Option<Vec<u8>>,
    ) -> (r: UpdateStep)
        ensures
            tmp_after(true, r.actions@) == st_tmp(r.state),
            tmpd_after(false, r.actions@) == st_tmpd(r.state),
            urls_nonempty(r.actions@),
            writes_ok(module@, self.setting@, r.state, r.actions@),
            match data {
                Some(b) => match manifest_from_bytes(b@) {
                    Some(om) => match pending {
                        Some(vers) => common_exact(
                            module@,
                            self.setting@,
                            om,
                            vers_view(vers@),
                            t as int,
                            changelog_url@,
                            r.state,
                            r.actions@,
                        ),
                        None => (match r.state {
                            UpdateState::AwaitUrlTrack { t: t2, changelog_url: c2, origin } => t2
                                == t && c2 == changelog_url && origin@ == om,
                            _ => false,
                        }) && r.actions@.len() == 1 && r.actions@[0] == (UpdateAction::ReadTrack),
                    },
                    None => ended_rm_tmp(r.state, r.actions@),
                },
                None => ended_rm_tmp(r.state, r.actions@),
            },
    {
        let b = match data {
            Some(b) => b,
            None => {
                return self.drop_tmp_fail();
            },
        };
        let origin = match LocalModule::read_zip(&b) {
            Some(m) => m,
            None => {
                return self.drop_tmp_fail();
            },
        };
        proof {
            assert(manifest_from_bytes(b@) == Some(origin@));
        }
        match pending {
            Some(vers) => self.update_common(module, origin, vers, t, changelog_url.as_str()),
            None => {
                let mut acts: Vec<UpdateAction> = Vec::new();
                let ghost a0 = acts@;
                acts.push(UpdateAction::ReadTrack);
                proof {
                    let ghost x = acts@[0];
                    assert(acts@ =~= a0.push(x));
                    lemma_model_snoc(true, false, a0, x);
                    lemma_simple_snoc(a0, x);
                }
                UpdateStep {
                    state: UpdateState::AwaitUrlTrack { t, changelog_url, origin },
                    actions: acts,
                }
            },
        }
    }

    /// Remove the staged archive and finish as failed.
    fn drop_tmp_fail(&self) -> (r: UpdateStep)
        ensures
            ended_rm_tmp(r.state, r.actions@),
            r.state == (UpdateState::Finished { updated: false }),
            tmp_after(true, r.actions@) == false,
            tmpd_after(false, r.actions@) == false,
            urls_nonempty(r.actions@),
            no_track_writes(r.actions@),
            no_cl_writes(r.actions@),
    {
        let mut acts: Vec<UpdateAction> = Vec::new();
        let ghost a0 = acts@;
        acts.push(UpdateAction::RemoveTmp);
        proof {
            let ghost x = acts@[0];
            assert(acts@ =~= a0.push(x));
            lemma_model_snoc(true, false, a0, x);
            lemma_simple_snoc(a0, x);
        }
        UpdateStep { state: UpdateState::Finished { updated: false }, actions: acts }
    }

    /// The stored track arrived for the manifest check.
    fn on_url_track(
        &self,
        module: &config::Module,
        t: i64,
        changelog_url: String,
        origin: origin::Module,
        data: Option<Vec<u8>>,
    ) -> (r: UpdateStep)
        ensures
            tmp_after(true, r.actions@) == st_tmp(r.state),
            tmpd_after(false, r.actions@) == st_tmpd(r.state),
            urls_nonempty(r.actions@),
            writes_ok(module@, self.setting@, r.state, r.actions@),
            match data {
                Some(b) => match track_from_bytes(b@) {
                    Some(tr) => if tr.module.version_code >= origin@.version_code {
                        ended_rm_tmp(r.state, r.actions@)
                    } else {
                        sorted_desc(tr.versions) ==> common_exact(
                            module@,
                            self.setting@,
                            origin@,
                            tr.versions,
                            t as int,
                            changelog_url@,
                            r.state,
                            r.actions@,
                        )
                    },
                    None => common_exact(
                        module@,
                        self.setting@,
                        origin@,
                        Seq::<VersionV>::empty(),
                        t as int,
                        changelog_url@,
                        r.state,
                        r.actions@,
                    ),
                },
                None => common_exact(
                    module@,
                    self.setting@,
                    origin@,
                    Seq::<VersionV>::empty(),
                    t as int,
                    changelog_url@,
                    r.state,
                    r.actions@,
                ),
            },
    {
        let stored = read_stored_track(&data);
        let vers = match self.check_versions(&stored, origin.version_code) {
            Some(v) => v,
            None => {
                return self.drop_tmp_fail();
            },
        };
        proof {
            if vers@.len() == 0 {
                assert(vers_view(vers@) =~= Seq::<VersionV>::empty());
            }
        }
        self.update_common(module, origin, vers, t, changelog_url.as_str())
    }

    /// The clone finished: take its head commit time and list the tree.
    fn on_clone(&self, now: i64, commit_millis: Option<i64>) -> (r: UpdateStep)
        ensures
            tmp_after(false, r.actions@) == st_tmp(r.state),
            tmpd_after(true, r.actions@) == st_tmpd(r.state),
            urls_nonempty(r.actions@),
            no_track_writes(r.actions@),
            match commit_millis {
                Some(cm) => (match r.state {
                    UpdateState::AwaitEntries { t } => t == cm,
                    _ => false,
                }) && r.actions@.len() == 1 && r.actions@[0] == (UpdateAction::ListTmpDir),
                None => ended_rm_tmpd(r.state, r.actions@),
            },
    {
        match commit_millis {
            Some(cm) => {
                let mut acts: Vec<UpdateAction> = Vec::new();
                let ghost a0 = acts@;
                acts.push(UpdateAction::ListTmpDir);
                proof {
                    let ghost x = acts@[0];
                    assert(acts@ =~= a0.push(x));
                    lemma_model_snoc(false, true, a0, x);
                    lemma_simple_snoc(a0, x);
                }
                UpdateStep { state: UpdateState::AwaitEntries { t: cm }, actions: acts }
            },
            None => {
                let mut acts: Vec<UpdateAction> = Vec::new();
                let ghost a0 = acts@;
                acts.push(UpdateAction::RemoveTmpDir);
                proof {
                    let ghost x = acts@[0];
                    assert(acts@ =~= a0.push(x));
                    lemma_model_snoc(false, true, a0, x);
                    lemma_simple_snoc(a0, x);
                }
                UpdateStep { state: UpdateState::Finished { updated: false }, actions: acts }
            },
        }
    }

    /// The cloned tree arrived: package it and stage the archive.
    fn on_entries(&self, module: &config::Module, t: i64, entries: Vec<ArchiveEntry>) -> (r:
        UpdateStep)
        ensures
            tmp_after(false, r.actions@) == st_tmp(r.state),
            tmpd_after(true, r.actions@) == st_tmpd(r.state),
            urls_nonempty(r.actions@),
            no_track_writes(r.actions@),
            match crate::util::prop_of_entries(crate::util::entries_view(entries@)) {
                Some(om) => match crate::util::archive_of(
                    crate::util::kept_entries(crate::util::entries_view(entries@)),
                ) {
                    Some(ab) => (match r.state {
                        UpdateState::AwaitPkgWrite { t: t2, changelog_url: c2, origin } => t2 == t
                            && c2@ == module@.changelog && origin@ == om,
                        _ => false,
                    }) && r.actions@.len() == 2 && (match r.actions@[0] {
                        UpdateAction::WriteTmp { data } => data@ == ab,
                        _ => false,
                    }) && r.actions@[1] == (UpdateAction::RemoveTmpDir),
                    None => ended_rm_tmpd(r.state, r.actions@),
                },
                None => ended_rm_tmpd(r.state, r.actions@),
            },
    {
        match LocalModule::from_zip(&entries) {
            Some((origin, bytes)) => {
                let mut acts: Vec<UpdateAction> = Vec::new();
                let ghost a0 = acts@;
                acts.push(UpdateAction::WriteTmp { data: bytes });
                let ghost a1 = acts@;
                acts.push(UpdateAction::RemoveTmpDir);
                proof {
                    let ghost x0 = a1[0];
                    let ghost x1 = acts@[1];
                    assert(a1 =~= a0.push(x0));
                    assert(acts@ =~= a1.push(x1));
                    lemma_model_snoc(false, true, a0, x0);
                    lemma_model_snoc(true, true, a1, x1);
                    lemma_simple_snoc(a0, x0);
                    lemma_simple_snoc(a1, x1);
                }
                UpdateStep {
                    state: UpdateState::AwaitPkgWrite {
                        t,
                        changelog_url: module.changelog.as_str().to_owned(),
                        origin,
                    },
                    actions: acts,
                }
            },
            None => {
                let mut acts: Vec<UpdateAction> = Vec::new();
                let ghost a0 = acts@;
                acts.push(UpdateAction::RemoveTmpDir);
                proof {
                    let ghost x = acts@[0];
                    assert(acts@ =~= a0.push(x));
                    lemma_model_snoc(false, true, a0, x);
                    lemma_simple_snoc(a0, x);
                }
                UpdateStep { state: UpdateState::Finished { updated: false }, actions: acts }
            },
        }
    }

    /// The packaged archive was written (or not): proceed to the track
    /// check.
    fn on_pkg_write(
        &self,
        t: i64,
        changelog_url: String,
        origin: origin::Module,
        ok: bool,
    ) -> (r: UpdateStep)
        ensures
            tmp_after(true, r.actions@) == st_tmp(r.state),
            tmpd_after(false, r.actions@) == st_tmpd(r.state),
            urls_nonempty(r.actions@),
            no_track_writes(r.actions@),
            !ok ==> ended_rm_tmp(r.state, r.actions@),
            ok ==> (match r.state {
                UpdateState::AwaitUrlTrack { t: t2, changelog_url: c2, origin: o2 } => t2 == t
                    && c2 == changelog_url && o2 == origin,
                _ => false,
            }) && r.actions@.len() == 1 && r.actions@[0] == (UpdateAction::ReadTrack),
    {
        if !ok {
            return self.drop_tmp_fail();
        }
        let mut acts: Vec<UpdateAction> = Vec::new();
        let ghost a0 = acts@;
        acts.push(UpdateAction::ReadTrack);
        proof {
            let ghost x = acts@[0];
            assert(acts@ =~= a0.push(x));
            lemma_model_snoc(true, false, a0, x);
            lemma_simple_snoc(a0, x);
        }
        UpdateStep { state: UpdateState::AwaitUrlTrack { t, changelog_url, origin }, actions: acts }
    }

    /// The changelog body arrived: keep it unless the fetch failed or the
    /// body is an HTML placeholder.
    fn on_changelog(
        &self,
        module: &config::Module,
        origin: origin::Module,
        versions: Vec<Version>,
        entry: Version,
        data: Option<Vec<u8>>,
    ) -> (r: UpdateStep)
        ensures
            tmp_after(false, r.actions@) == st_tmp(r.state),
            tmpd_after(false, r.actions@) == st_tmpd(r.state),
            urls_nonempty(r.actions@),
            writes_ok(module@, self.setting@, r.state, r.actions@),
            match data {
                Some(b) => (valid_utf8(b@) && util::is_html_text(decode_utf8(b@))) ==> (
                no_cl_writes(r.actions@) && match r.state {
                    UpdateState::AwaitTrackWrite { track } => track@.versions.len() > 0
                        ==> track@.versions[0].changelog.len() == 0,
                    UpdateState::Finished { updated } => !updated,
                    _ => false,
                }),
                None => true,
            },
            match data {
                Some(b) => if valid_utf8(b@) && util::is_html_text(decode_utf8(b@)) {
                    entry@.version_code == origin@.version_code && shaped_for(
                        vers_view(versions@),
                        entry@.version_code,
                    ) ==> finish_exact(
                        module@,
                        self.setting@,
                        origin@,
                        (VersionV { changelog: Seq::empty(), ..entry@ }),
                        vers_view(versions@),
                        r.state,
                        r.actions@,
                        0,
                    )
                } else {
                    (match r.state {
                        UpdateState::AwaitClWrite { origin: o2, versions: v2, entry: e2 } => o2
                            == origin && v2 == versions && e2 == entry,
                        _ => false,
                    }) && r.actions@.len() == 1 && (match r.actions@[0] {
                        UpdateAction::WriteChangelog { name, data: d2 } => name@
                            == entry@.changelog && d2 == b,
                        _ => false,
                    })
                },
                None => entry@.version_code == origin@.version_code && shaped_for(
                    vers_view(versions@),
                    entry@.version_code,
                ) ==> finish_exact(
                    module@,
                    self.setting@,
                    origin@,
                    (VersionV { changelog: Seq::empty(), ..entry@ }),
                    vers_view(versions@),
                    r.state,
                    r.actions@,
                    0,
                ),
            },
    {
        let ghost entv = entry@;
        match data {
            None => {
                let e2 = entry_without_changelog(entry);
                proof {
                    assert(e2@ =~= (VersionV { changelog: Seq::<char>::empty(), ..entv }));
                }
                self.finish_track(module, origin, e2, &versions)
            },
            Some(b) => {
                match util::utf8_to_string(&b) {
                    Some(s) => {
                        if StrUtil::is_html(s.as_str()) {
                            let e2 = entry_without_changelog(entry);
                            proof {
                                assert(e2@ =~= (VersionV {
                                    changelog: Seq::<char>::empty(),
                                    ..entv
                                }));
                            }
                            let fin = self.finish_track(module, origin, e2, &versions);
                            proof {
                                assert(e2@.changelog.len() == 0);
                            }
                            fin
                        } else {
                            let mut acts: Vec<UpdateAction> = Vec::new();
                            let name = entry.changelog.as_str().to_owned();
                            let ghost a0 = acts@;
                            acts.push(UpdateAction::WriteChangelog { name, data: b });
                            proof {
                                let ghost x = acts@[0];
                                assert(acts@ =~= a0.push(x));
                                lemma_model_snoc(false, false, a0, x);
                                assert(urls_nonempty(acts@)) by {
                                    assert(forall|k: int|
                                        0 <= k < acts@.len() ==> acts@[k] == x);
                                }
                                assert(no_track_writes(acts@)) by {
                                    assert(forall|k: int|
                                        0 <= k < acts@.len() ==> acts@[k] == x);
                                }
                            }
                            UpdateStep {
                                state: UpdateState::AwaitClWrite { origin, versions, entry },
                                actions: acts,
                            }
                        }
                    },
                    None => {
                        let mut acts: Vec<UpdateAction> = Vec::new();
                        let name = entry.changelog.as_str().to_owned();
                        let ghost a0 = acts@;
                        acts.push(UpdateAction::WriteChangelog { name, data: b });
                        proof {
                            let ghost x = acts@[0];
                            assert(acts@ =~= a0.push(x));
                            lemma_model_snoc(false, false, a0, x);
                            assert(urls_nonempty(acts@)) by {
                                assert(forall|k: int| 0 <= k < acts@.len() ==> acts@[k] == x);
                            }
                            assert(no_track_writes(acts@)) by {
                                assert(forall|k: int| 0 <= k < acts@.len() ==> acts@[k] == x);
                            }
                        }
                        UpdateStep {
                            state: UpdateState::AwaitClWrite { origin, versions, entry },
                            actions: acts,
                        }
                    },
                }
            },
        }
    }

    /// The changelog write finished: on failure drop the file and clear the
    /// entry's changelog name.
    fn on_cl_write(
        &self,
        module: &config::Module,
        origin: origin::Module,
        versions: Vec<Version>,
        entry: Version,
        ok: bool,
    ) -> (r: UpdateStep)
        ensures
            tmp_after(false, r.actions@) == st_tmp(r.state),
            tmpd_after(false, r.actions@) == st_tmpd(r.state),
            urls_nonempty(r.actions@),
            writes_ok(module@, self.setting@, r.state, r.actions@),
            entry@.version_code == origin@.version_code && shaped_for(
                vers_view(versions@),
                entry@.version_code,
            ) ==> (if ok {
                finish_exact(
                    module@,
                    self.setting@,
                    origin@,
                    entry@,
                    vers_view(versions@),
                    r.state,
                    r.actions@,
                    0,
                )
            } else {
                r.actions@.len() >= 1 && (match r.actions@[0] {
                    UpdateAction::Remove { name } => name@ == entry@.changelog,
                    _ => false,
                }) && finish_exact(
                    module@,
                    self.setting@,
                    origin@,
                    (VersionV { changelog: Seq::empty(), ..entry@ }),
                    vers_view(versions@),
                    r.state,
                    r.actions@,
                    1,
                )
            }),
    {
        let ghost entv = entry@;
        if ok {
            self.finish_track(module, origin, entry, &versions)
        } else {
            let mut acts: Vec<UpdateAction> = Vec::new();
            let name = entry.changelog.as_str().to_owned();
            let ghost a0 = acts@;
            acts.push(UpdateAction::Remove { name });
            proof {
                let ghost x = acts@[0];
                assert(acts@ =~= a0.push(x));
                lemma_model_snoc(false, false, a0, x);
                lemma_simple_snoc(a0, x);
            }
            let e2 = Version {
                timestamp: entry.timestamp,
                version: entry.version,
                version_code: entry.version_code,
                zip_path: entry.zip_path,
                changelog: String::new(),
            };
            proof {
                assert(e2@ =~= (VersionV { changelog: Seq::<char>::empty(), ..entv }));
            }
            let fin = self.finish_track(module, origin, e2, &versions);
            let mut all = acts;
            let mut fa = fin.actions;
            let ghost av = all@;
            let ghost fv = fa@;
            all.append(&mut fa);
            proof {
                assert(all@ == av + fv);
                lemma_model_concat(false, false, av, fv);
                lemma_no_writes_ok(module@, self.setting@, fin.state, av);
                lemma_flags_concat(module@, self.setting@, fin.state, av, fv);
                assert(all@[0] == av[0]);
                if entv.version_code == origin@.version_code && shaped_for(
                    vers_view(versions@),
                    entv.version_code,
                ) {
                    assert(fv.len() >= 1);
                    assert(all@.subrange(1, all@.len() - 1) =~= fv.subrange(0, fv.len() - 1));
                    assert(all@[all@.len() - 1] == fv[fv.len() - 1]);
                }
            }
            UpdateStep { state: fin.state, actions: all }
        }
    }

    /// The track write finished: success ends the update; failure removes
    /// the just-staged artifact files.
    fn on_track_write(&self, track: Track, ok: bool) -> (r: UpdateStep)
        ensures
            tmp_after(false, r.actions@) == st_tmp(r.state),
            tmpd_after(false, r.actions@) == st_tmpd(r.state),
            urls_nonempty(r.actions@),
            no_track_writes(r.actions@),
            ok ==> r.state == (UpdateState::Finished { updated: true }) && r.actions@.len() == 0,
            !ok ==> r.state == (UpdateState::Finished { updated: false }) && acts_are_removals(
                r.actions@,
                if track@.versions.len() > 0 {
                    removal_views(seq![track@.versions[0]])
                } else {
                    Seq::<Seq<char>>::empty()
                },
            ),
    {
        if ok {
            return UpdateStep { state: UpdateState::Finished { updated: true }, actions: Vec::new() };
        }
        let mut acts: Vec<UpdateAction> = Vec::new();
        if track.versions.len() > 0 {
            let ghost a0 = acts@;
            acts.push(UpdateAction::Remove { name: track.versions[0].zip_path.as_str().to_owned() });
            proof {
                let ghost x = acts@[0];
                assert(acts@ =~= a0.push(x));
                lemma_model_snoc(false, false, a0, x);
                lemma_simple_snoc(a0, x);
            }
            if track.versions[0].changelog.as_str().unicode_len() > 0 {
                let ghost a1 = acts@;
                acts.push(
                    UpdateAction::Remove {
                        name: track.versions[0].changelog.as_str().to_owned(),
                    },
                );
                proof {
                    let ghost x = acts@[acts@.len() - 1];
                    assert(acts@ =~= a1.push(x));
                    lemma_model_snoc(false, false, a1, x);
                    lemma_simple_snoc(a1, x);
                }
            }
        }
        proof {
            if track@.versions.len() > 0 {
                let v0 = track@.versions[0];
                assert(v0 == track.versions@[0]@);
                assert(seq![v0].skip(1) =~= Seq::<VersionV>::empty());
                assert(removal_views(Seq::<VersionV>::empty()) == Seq::<Seq<char>>::empty());
                let names = removal_views(seq![v0]);
                if v0.changelog.len() == 0 {
                    assert(names =~= seq![v0.zip_path]);
                } else {
                    assert(names =~= seq![v0.zip_path, v0.changelog]);
                }
                assert(acts@.len() == names.len());
                assert forall|k: int| 0 <= k < acts@.len() implies match #[trigger] acts@[k] {
                    UpdateAction::Remove { name } => name@ == names[k],
                    _ => false,
                } by {
                    if k == 0 {
                        assert(names[0] == v0.zip_path);
                    } else {
                        assert(names[1] == v0.changelog);
                    }
                }
                assert(acts_are_removals(acts@, names));
            }
        }
        UpdateStep { state: UpdateState::Finished { updated: false }, actions: acts }
    }

    /// One step of the update protocol.  The driver starts with `Start` and
    /// `Begin`, performs the returned actions in order, and feeds the
    /// answering event back until the state is `Finished`.
    #[verifier::rlimit(100)]
    #[verifier::spinoff_prover]
    pub fn update(&self, module: &config::Module, state: UpdateState, event: UpdateEvent) -> (r:
        UpdateStep)
        ensures
            step_ok(module@, self.setting@, st_tmp(state), st_tmpd(state), r.state, r.actions@),
            (r.state matches UpdateState::Finished { .. }) ==> tmp_after(st_tmp(state), r.actions@)
                == false && tmpd_after(st_tmpd(state), r.actions@) == false,
            stale_noop(state, event, r.state, r.actions@),
            changelog_html_noop(state, event, r.state, r.actions@),
            transition_exact(module@, self.setting@, state, event, r.state, r.actions@),
    {
        let ghost pre = state;
        let ghost ev = event;
        match (state, event) {
            (UpdateState::Start, UpdateEvent::Begin { now }) => {
                if module.setting.disabled {
                    let s = Self::noop_fail();
                    proof {
                        lemma_no_writes_ok(module@, self.setting@, s.state, s.actions@);
                    }
                    s
                } else {
                    let s = match module.kind {
                        ProviderKind::UpdateJson => self.update_by_json(module, now),
                        ProviderKind::ZipUrl => self.update_by_url(module, now),
                        ProviderKind::Git => self.update_by_git(module, now),
                    };
                    proof {
                        lemma_no_writes_ok(module@, self.setting@, s.state, s.actions@);
                    }
                    s
                }
            },
            (UpdateState::AwaitPointer { now }, UpdateEvent::Body { data }) => {
                let s = self.on_pointer(module, now, data);
                proof {
                    lemma_no_writes_ok(module@, self.setting@, s.state, s.actions@);
                }
                s
            },
            (UpdateState::AwaitPointerTrack { now, uj }, UpdateEvent::TrackBytes { data }) => {
                let s = self.on_pointer_track(module, now, uj, data);
                proof {
                    lemma_no_writes_ok(module@, self.setting@, s.state, s.actions@);
                }
                s
            },
            (
                UpdateState::AwaitDownload { now, changelog_url, pending },
                UpdateEvent::Downloaded { fetched, written, last_modified },
            ) => {
                let s = self.on_download(now, changelog_url, pending, fetched, written,
                last_modified);
                proof {
                    lemma_no_writes_ok(module@, self.setting@, s.state, s.actions@);
                }
                s
            },
            (
                UpdateState::AwaitTmpBytes { t, changelog_url, pending },
                UpdateEvent::FileBytes { data },
            ) => self.on_tmp_bytes(module, t, changelog_url, pending, data),
            (
                UpdateState::AwaitUrlTrack { t, changelog_url, origin },
                UpdateEvent::TrackBytes { data },
            ) => self.on_url_track(module, t, changelog_url, origin, data),
            (UpdateState::AwaitClone { now }, UpdateEvent::Cloned { commit_millis }) => {
                let s = self.on_clone(now, commit_millis);
                proof {
                    lemma_no_writes_ok(module@, self.setting@, s.state, s.actions@);
                }
                s
            },
            (UpdateState::AwaitEntries { t }, UpdateEvent::Entries { entries }) => {
                let s = self.on_entries(module, t, entries);
                proof {
                    lemma_no_writes_ok(module@, self.setting@, s.state, s.actions@);
                }
                s
            },
            (
                UpdateState::AwaitPkgWrite { t, changelog_url, origin },
                UpdateEvent::Wrote { ok },
            ) => {
                let s = self.on_pkg_write(t, changelog_url, origin, ok);
                proof {
                    lemma_no_writes_ok(module@, self.setting@, s.state, s.actions@);
                }
                s
            },
            (
                UpdateState::AwaitChangelog { origin, versions, entry },
                UpdateEvent::Body { data },
            ) => self.on_changelog(module, origin, versions, entry, data),
            (
                UpdateState::AwaitClWrite { origin, versions, entry },
                UpdateEvent::Wrote { ok },
            ) => self.on_cl_write(module, origin, versions, entry, ok),
            (UpdateState::AwaitTrackWrite { track }, UpdateEvent::Wrote { ok }) => {
                let s = self.on_track_write(track, ok);
                proof {
                    lemma_no_writes_ok(module@, self.setting@, s.state, s.actions@);
                }
                s
            },
            (UpdateState::Finished { updated }, _) => {
                UpdateStep { state: UpdateState::Finished { updated }, actions: Vec::new() }
            },
            (st, _) => {
                let s = Self::abort();
                proof {
                    lemma_no_writes_ok(module@, self.setting@, s.state, s.actions@);
                }
                s
            },
        }
    }
}

/// Whether some id in the list spells `s`.
pub open spec fn has_str(ids: Seq<String>, s: Seq<char>) -> bool {
    exists|k: int| 0 <= k < ids.len() && (#[trigger] ids[k])@ == s
}

/// The configured modules whose id is listed, in configuration order.
pub open spec fn selected_mods(ms: Seq<ModuleCfgV>, ids: Seq<String>) -> Seq<ModuleCfgV>
    decreases ms.len(),
{
    if ms.len() == 0 {
        Seq::empty()
    } else {
        (if has_str(ids, ms[0].id) {
            seq![ms[0]]
        } else {
            Seq::empty()
        }) + selected_mods(ms.skip(1), ids)
    }
}

proof fn lemma_selected_mods_snoc(ms: Seq<ModuleCfgV>, ids: Seq<String>, m: ModuleCfgV)
    ensures
        selected_mods(ms.push(m), ids) == selected_mods(ms, ids) + (if has_str(ids, m.id) {
            seq![m]
        } else {
            Seq::<ModuleCfgV>::empty()
        }),
    decreases ms.len(),
{
    if ms.len() == 0 {
        assert(ms.push(m)[0] == m);
        assert(ms.push(m).skip(1) =~= Seq::<ModuleCfgV>::empty());
        assert(selected_mods(Seq::<ModuleCfgV>::empty(), ids) == Seq::<ModuleCfgV>::empty());
        assert(selected_mods(ms.push(m), ids) =~= selected_mods(ms, ids) + (if has_str(
            ids,
            m.id,
        ) {
            seq![m]
        } else {
            Seq::<ModuleCfgV>::empty()
        }));
    } else {
        assert(ms.push(m)[0] == ms[0]);
        assert(ms.push(m).skip(1) =~= ms.skip(1).push(m));
        lemma_selected_mods_snoc(ms.skip(1), ids, m);
        assert(selected_mods(ms.push(m), ids) =~= selected_mods(ms, ids) + (if has_str(
            ids,
            m.id,
        ) {
            seq![m]
        } else {
            Seq::<ModuleCfgV>::empty()
        }));
    }
}

/// The update engine together with the configured modules.
pub struct UpdateWrapper<'u> {
    pub modules: &'u Vec<config::Module>,
    pub original: Update,
}

impl<'u> UpdateWrapper<'u> {
    pub fn build(context: &'u Context) -> (r: UpdateWrapper<'u>)
        ensures
            r.original.setting@ == context.repository@.setting,
            r.original.modules_dir@ == context.modules_dir@,
            r.modules@ == context.modules@,
    {
        UpdateWrapper {
            modules: &context.modules,
            original: Update::new(&context.repository.setting, context.modules_dir.as_str()),
        }
    }

    /// The modules an update run works on: all of them for an empty id list,
    /// else exactly those whose id is listed, in configuration order.
    pub fn select_modules(&self, module_ids: &Vec<String>) -> (r: Vec<config::Module>)
        ensures
            module_ids@.len() == 0 ==> config::mods_view(r@) == config::mods_view(self.modules@),
            module_ids@.len() > 0 ==> config::mods_view(r@) == selected_mods(
                config::mods_view(self.modules@),
                module_ids@,
            ),
    {
        let mut out: Vec<config::Module> = Vec::new();
        if module_ids.len() == 0 {
            let mut k: usize = 0;
            while k < self.modules.len()
                invariant
                    k <= self.modules@.len(),
                    out@.len() == k,
                    forall|x: int| 0 <= x < k ==> (#[trigger] out@[x])@ == self.modules@[x]@,
                decreases self.modules@.len() - k,
            {
                out.push(self.modules[k].duplicate());
                k += 1;
            }
            assert(config::mods_view(out@) =~= config::mods_view(self.modules@));
            return out;
        }
        let ghost all = config::mods_view(self.modules@);
        let mut k: usize = 0;
        proof {
            assert(all.subrange(0, 0) =~= Seq::<ModuleCfgV>::empty());
        }
        while k < self.modules.len()
            invariant
                k <= self.modules@.len(),
                all == config::mods_view(self.modules@),
                config::mods_view(out@) =~= selected_mods(
                    all.subrange(0, k as int),
                    module_ids@,
                ),
            decreases self.modules@.len() - k,
        {
            let ghost pre = all.subrange(0, k as int);
            proof {
                assert(pre.push(all[k as int]) =~= all.subrange(0, k + 1));
                lemma_selected_mods_snoc(pre, module_ids@, all[k as int]);
            }
            let mut found = false;
            let mut i: usize = 0;
            while i < module_ids.len()
                invariant
                    i <= module_ids@.len(),
                    k < self.modules@.len(),
                    found == exists|x: int|
                        0 <= x < i && (#[trigger] module_ids@[x])@ == self.modules@[k as int]@.id,
                decreases module_ids@.len() - i,
            {
                if module_ids[i] == self.modules[k].id {
                    found = true;
                    assert(module_ids@[i as int]@ == self.modules@[k as int]@.id);
                }
                i += 1;
            }
            proof {
                if !found && has_str(module_ids@, self.modules@[k as int]@.id) {
                    let x = choose|x: int|
                        0 <= x < module_ids@.len() && (#[trigger] module_ids@[x])@ == self.modules@[
                            k as int
                        ]@.id;
                    assert(false);
                }
                assert(found == has_str(module_ids@, all[k as int].id));
            }
            if found {
                let ghost before = config::mods_view(out@);
                out.push(self.modules[k].duplicate());
                proof {
                    assert(config::mods_view(out@) =~= before.push(all[k as int]));
                }
            }
            k += 1;
        }
        proof {
            assert(all.subrange(0, self.modules@.len() as int) =~= all);
        }
        out
    }
}

} // verus!
