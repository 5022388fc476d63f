//! The index generator: compose the published index from the configured
//! modules and their tracks, and decide which stray directory entries the
//! reconciliation removes.

use vstd::prelude::*;
use vstd::string::*;
use crate::config;
use crate::config::{Repository, RepositoryV, ModuleCfgV};
use crate::context::Context;
use crate::modules;
use crate::modules::{PubVersionV, PubModuleV, pub_vers_view};
use crate::track;
use crate::track::{Track, TrackV, VersionV};
use crate::text;

verus! {

/// The index generator for one repository.
pub struct Upgrade {
    pub repository: Repository,
    pub json_dir: String,
    pub modules_dir: String,
}

/// A fully qualified artifact URL: `<base>/modules/<id>/<basename>`.
pub open spec fn artifact_url(base: Seq<char>, id: Seq<char>, basename: Seq<char>) -> Seq<char> {
    base + "/modules/"@ + id + "/"@ + basename
}

/// A published version from a tracked one.
pub open spec fn pub_version_of(base: Seq<char>, id: Seq<char>, v: VersionV) -> PubVersionV {
    PubVersionV {
        timestamp: v.timestamp,
        version: v.version,
        version_code: v.version_code,
        zip_url: artifact_url(base, id, v.zip_path),
        changelog: if v.changelog.len() == 0 {
            Seq::empty()
        } else {
            artifact_url(base, id, v.changelog)
        },
    }
}

/// A published module from a track and its configured metadata.
pub open spec fn pub_module_of(base: Seq<char>, t: TrackV, cfg: ModuleCfgV) -> PubModuleV {
    PubModuleV {
        id: t.module.id,
        name: t.module.name,
        version: t.module.version,
        version_code: t.module.version_code,
        author: t.module.author,
        description: t.module.description,
        metadata: cfg.metadata,
        versions: Seq::new(t.versions.len(), |k: int| pub_version_of(base, t.module.id, t.versions[k])),
    }
}

/// The published modules, in configuration order, of those with a readable
/// track.
pub open spec fn pub_modules_of(
    base: Seq<char>,
    cfgs: Seq<ModuleCfgV>,
    tracks: Seq<Option<TrackV>>,
) -> Seq<PubModuleV>
    decreases cfgs.len(),
{
    if cfgs.len() == 0 || tracks.len() == 0 {
        Seq::empty()
    } else {
        let rest = pub_modules_of(base, cfgs.skip(1), tracks.skip(1));
        match tracks[0] {
            Some(t) => seq![pub_module_of(base, t, cfgs[0])] + rest,
            None => rest,
        }
    }
}

/// The views of optional tracks, in order.
pub open spec fn opt_tracks_view(ts: Seq<Option<Track>>) -> Seq<Option<TrackV>> {
    Seq::new(
        ts.len(),
        |k: int|
            match ts[k] {
                Some(t) => Some(t@),
                None => None,
            },
    )
}

fn concat_url(base: &str, id: &str, basename: &str) -> (r: String)
    ensures
        r@ == artifact_url(base@, id@, basename@),
{
    let mut out = text::str_to_chars(base);
    crate::json::push_raw("/modules/", &mut out);
    let idc = text::str_to_chars(id);
    let mut k: usize = 0;
    while k < idc.len()
        invariant
            k <= idc.len(),
            idc@ == id@,
            out@ =~= base@ + "/modules/"@ + id@.subrange(0, k as int),
        decreases idc.len() - k,
    {
        out.push(idc[k]);
        assert(out@ =~= base@ + "/modules/"@ + id@.subrange(0, k + 1));
        k += 1;
    }
    assert(id@.subrange(0, id@.len() as int) =~= id@);
    crate::json::push_raw("/", &mut out);
    let bc = text::str_to_chars(basename);
    let mut k2: usize = 0;
    while k2 < bc.len()
        invariant
            k2 <= bc.len(),
            bc@ == basename@,
            out@ =~= base@ + "/modules/"@ + id@ + "/"@ + basename@.subrange(0, k2 as int),
        decreases bc.len() - k2,
    {
        out.push(bc[k2]);
        assert(out@ =~= base@ + "/modules/"@ + id@ + "/"@ + basename@.subrange(0, k2 + 1));
        k2 += 1;
    }
    assert(basename@.subrange(0, basename@.len() as int) =~= basename@);
    assert(out@ =~= artifact_url(base@, id@, basename@));
    text::chars_to_string(&out)
}

impl Upgrade {
    pub fn new(repository: &Repository, json_dir: &str, modules_dir: &str) -> (r: Upgrade)
        ensures
            r.repository@ == repository@,
            r.json_dir@ == json_dir@,
            r.modules_dir@ == modules_dir@,
    {
        Upgrade {
            repository: Repository {
                name: repository.name.as_str().to_owned(),
                metadata: config::RepositoryMetadata::new(
                    repository.metadata.homepage.as_str(),
                    repository.metadata.donate.as_str(),
                    repository.metadata.support.as_str(),
                ),
                setting: config::RepositorySetting::new(
                    repository.setting.base_url.as_str(),
                    repository.setting.keep_size,
                ),
            },
            json_dir: json_dir.to_owned(),
            modules_dir: modules_dir.to_owned(),
        }
    }

    /// One published version: URLs composed under the repository base, the
    /// changelog left empty when the track kept none.
    pub fn generate_version(&self, id: &str, origin: &track::Version) -> (r: modules::Version)
        ensures
            r@ == pub_version_of(self.repository@.setting.base_url, id@, origin@),
    {
        let base = self.repository.setting.base_url.as_str();
        let changelog = if origin.changelog.as_str().unicode_len() == 0 {
            String::new()
        } else {
            concat_url(base, id, origin.changelog.as_str())
        };
        modules::Version {
            timestamp: origin.timestamp,
            version: origin.version.as_str().to_owned(),
            version_code: origin.version_code,
            zip_url: concat_url(base, id, origin.zip_path.as_str()),
            changelog,
        }
    }

    /// One published module: identity from the track's origin, metadata from
    /// the configuration.
    pub fn generate_module(&self, tr: &Track, cfg: &config::Module) -> (r: modules::Module)
        ensures
            r@ == pub_module_of(self.repository@.setting.base_url, tr@, cfg@),
    {
        let mut versions: Vec<modules::Version> = Vec::new();
        let ghost base = self.repository@.setting.base_url;
        let mut k: usize = 0;
        while k < tr.versions.len()
            invariant
                k <= tr.versions@.len(),
                base == self.repository@.setting.base_url,
                versions@.len() == k,
                forall|x: int|
                    0 <= x < k ==> (#[trigger] versions@[x])@ == pub_version_of(
                        base,
                        tr@.module.id,
                        tr@.versions[x],
                    ),
            decreases tr.versions@.len() - k,
        {
            let pv = self.generate_version(tr.module.id.as_str(), &tr.versions[k]);
            let ghost pvv = pv@;
            versions.push(pv);
            proof {
                assert(track::vers_view(tr.versions@)[k as int] == tr.versions@[k as int]@);
                assert(versions@[k as int]@ == pvv);
            }
            k += 1;
        }
        let r = modules::Module::from(
            tr.module.duplicate(),
            config::ModuleMetadata::new(
                cfg.metadata.license.as_str(),
                cfg.metadata.homepage.as_str(),
                cfg.metadata.donate.as_str(),
                cfg.metadata.support.as_str(),
                cfg.metadata.source.as_str(),
            ),
            versions,
        );
        proof {
            assert(r@.versions =~= pub_module_of(base, tr@, cfg@).versions);
            assert(r@ =~= pub_module_of(base, tr@, cfg@));
        }
        r
    }

    /// The published modules, in configuration order, for the tracks the
    /// caller could read (`None` marks a missing or unreadable track).
    pub fn generate_modules(&self, origins: &Vec<config::Module>, tracks: Vec<Option<Track>>) -> (r:
        Vec<modules::Module>)
        requires
            origins@.len() == tracks@.len(),
        ensures
            modules::pub_mods_view(r@) == pub_modules_of(
                self.repository@.setting.base_url,
                config::mods_view(origins@),
                opt_tracks_view(tracks@),
            ),
    {
        let ghost base = self.repository@.setting.base_url;
        let ghost cfgs = config::mods_view(origins@);
        let ghost tks = opt_tracks_view(tracks@);
        let mut out: Vec<modules::Module> = Vec::new();
        let mut k: usize = 0;
        let n = origins.len();
        let tracks = tracks;
        proof {
            lemma_pub_modules_take(base, cfgs, tks, 0);
        }
        while k < n
            invariant
                k <= n,
                n == origins@.len(),
                n == tracks@.len(),
                base == self.repository@.setting.base_url,
                cfgs == config::mods_view(origins@),
                tks == opt_tracks_view(tracks@),
                modules::pub_mods_view(out@) =~= pub_modules_of(
                    base,
                    cfgs.subrange(0, k as int),
                    tks.subrange(0, k as int),
                ),
            decreases n - k,
        {
            match &tracks[k] {
                Some(t) => {
                    let pm = self.generate_module(t, &origins[k]);
                    let ghost before = modules::pub_mods_view(out@);
                    out.push(pm);
                    proof {
                        assert(modules::pub_mods_view(out@) =~= before.push(pm@));
                        lemma_pub_modules_snoc(base, cfgs, tks, k as int);
                        assert(tks[k as int] == Some(tracks@[k as int]->Some_0@));
                        assert(modules::pub_mods_view(out@) =~= pub_modules_of(
                            base,
                            cfgs.subrange(0, k + 1),
                            tks.subrange(0, k + 1),
                        ));
                    }
                },
                None => {
                    proof {
                        lemma_pub_modules_snoc(base, cfgs, tks, k as int);
                        assert(tks[k as int] is None);
                        assert(modules::pub_mods_view(out@) =~= pub_modules_of(
                            base,
                            cfgs.subrange(0, k + 1),
                            tks.subrange(0, k + 1),
                        ));
                    }
                },
            }
            k += 1;
        }
        proof {
            assert(cfgs.subrange(0, n as int) =~= cfgs);
            assert(tks.subrange(0, n as int) =~= tks);
        }
        out
    }
}

/// Extending the processed prefix by one configuration entry.
proof fn lemma_pub_modules_snoc(
    base: Seq<char>,
    cfgs: Seq<ModuleCfgV>,
    tks: Seq<Option<TrackV>>,
    k: int,
)
    requires
        0 <= k < cfgs.len(),
        cfgs.len() == tks.len(),
    ensures
        pub_modules_of(base, cfgs.subrange(0, k + 1), tks.subrange(0, k + 1)) == pub_modules_of(
            base,
            cfgs.subrange(0, k),
            tks.subrange(0, k),
        ) + (match tks[k] {
            Some(t) => seq![pub_module_of(base, t, cfgs[k])],
            None => Seq::<PubModuleV>::empty(),
        }),
    decreases k,
{
    let c1 = cfgs.subrange(0, k + 1);
    let t1 = tks.subrange(0, k + 1);
    if k == 0 {
        assert(c1.skip(1) =~= Seq::<ModuleCfgV>::empty());
        assert(t1.skip(1) =~= Seq::<Option<TrackV>>::empty());
        assert(pub_modules_of(base, c1.skip(1), t1.skip(1)) =~= Seq::<PubModuleV>::empty());
        assert(cfgs.subrange(0, 0) =~= Seq::<ModuleCfgV>::empty());
        assert(tks.subrange(0, 0) =~= Seq::<Option<TrackV>>::empty());
        assert(pub_modules_of(base, cfgs.subrange(0, 0), tks.subrange(0, 0))
            =~= Seq::<PubModuleV>::empty());
        match t1[0] {
            Some(t) => {
                assert(pub_modules_of(base, c1, t1) =~= seq![pub_module_of(base, t, c1[0])]);
                assert(pub_modules_of(base, c1, t1) =~= pub_modules_of(
                    base,
                    cfgs.subrange(0, 0),
                    tks.subrange(0, 0),
                ) + seq![pub_module_of(base, t, cfgs[0])]);
            },
            None => {
                assert(pub_modules_of(base, c1, t1) =~= Seq::<PubModuleV>::empty());
            },
        }
    } else {
        assert(c1.skip(1) =~= cfgs.skip(1).subrange(0, k));
        assert(t1.skip(1) =~= tks.skip(1).subrange(0, k));
        assert(cfgs.subrange(0, k).skip(1) =~= cfgs.skip(1).subrange(0, k - 1));
        assert(tks.subrange(0, k).skip(1) =~= tks.skip(1).subrange(0, k - 1));
        lemma_pub_modules_snoc(base, cfgs.skip(1), tks.skip(1), k - 1);
        assert(cfgs.skip(1)[k - 1] == cfgs[k]);
        assert(tks.skip(1)[k - 1] == tks[k]);
        assert(c1[0] == cfgs[0]);
        assert(t1[0] == tks[0]);
        assert(cfgs.subrange(0, k)[0] == cfgs[0]);
        assert(tks.subrange(0, k)[0] == tks[0]);
        match tks[0] {
            Some(t0) => {
                assert(pub_modules_of(base, c1, t1) =~= seq![pub_module_of(base, t0, cfgs[0])]
                    + pub_modules_of(base, c1.skip(1), t1.skip(1)));
                assert(pub_modules_of(base, cfgs.subrange(0, k), tks.subrange(0, k)) =~= seq![
                    pub_module_of(base, t0, cfgs[0]),
                ] + pub_modules_of(base, cfgs.skip(1).subrange(0, k - 1), tks.skip(1).subrange(
                    0,
                    k - 1,
                )));
                assert(pub_modules_of(base, c1, t1) =~= pub_modules_of(
                    base,
                    cfgs.subrange(0, k),
                    tks.subrange(0, k),
                ) + (match tks[k] {
                    Some(t) => seq![pub_module_of(base, t, cfgs[k])],
                    None => Seq::<PubModuleV>::empty(),
                }));
            },
            None => {
                assert(pub_modules_of(base, c1, t1) =~= pub_modules_of(
                    base,
                    c1.skip(1),
                    t1.skip(1),
                ));
                assert(pub_modules_of(base, cfgs.subrange(0, k), tks.subrange(0, k))
                    =~= pub_modules_of(base, cfgs.skip(1).subrange(0, k - 1), tks.skip(1).subrange(
                    0,
                    k - 1,
                )));
                assert(pub_modules_of(base, c1, t1) =~= pub_modules_of(
                    base,
                    cfgs.subrange(0, k),
                    tks.subrange(0, k),
                ) + (match tks[k] {
                    Some(t) => seq![pub_module_of(base, t, cfgs[k])],
                    None => Seq::<PubModuleV>::empty(),
                }));
            },
        }
    }
}

proof fn lemma_pub_modules_take(
    base: Seq<char>,
    cfgs: Seq<ModuleCfgV>,
    tks: Seq<Option<TrackV>>,
    k: int,
)
    requires
        k == 0,
    ensures
        pub_modules_of(base, cfgs.subrange(0, 0), tks.subrange(0, 0)) =~= Seq::<PubModuleV>::empty(),
{
    assert(cfgs.subrange(0, 0).len() == 0);
}

// ---------- reconciliation ----------

/// One immediate child of the modules directory, as the driver saw it.
pub struct DirEntry {
    pub name: String,
    pub is_file: bool,
}

pub open spec fn entry_name(e: DirEntry) -> Seq<char> {
    e.name@
}

/// Whether the name is a configured module id.
pub open spec fn known_id(cfgs: Seq<ModuleCfgV>, name: Seq<char>) -> bool {
    exists|k: int| 0 <= k < cfgs.len() && (#[trigger] cfgs[k]).id == name
}

/// An entry the reconciliation removes: every regular file, and every
/// directory whose name is not a configured id.
#[verifier::opaque]
pub open spec fn doomed(cfgs: Seq<ModuleCfgV>, e: DirEntry) -> bool {
    e.is_file || !known_id(cfgs, e.name@)
}

/// The names of the doomed entries, in order of appearance.
pub open spec fn removed_names(cfgs: Seq<ModuleCfgV>, es: Seq<DirEntry>) -> Seq<Seq<char>>
    decreases es.len(),
{
    if es.len() == 0 {
        Seq::empty()
    } else {
        (if doomed(cfgs, es[0]) {
            seq![es[0].name@]
        } else {
            Seq::empty()
        }) + removed_names(cfgs, es.skip(1))
    }
}

proof fn lemma_removed_names_snoc(cfgs: Seq<ModuleCfgV>, es: Seq<DirEntry>, e: DirEntry)
    ensures
        removed_names(cfgs, es.push(e)) == removed_names(cfgs, es) + (if doomed(cfgs, e) {
            seq![e.name@]
        } else {
            Seq::<Seq<char>>::empty()
        }),
    decreases es.len(),
{
    if es.len() == 0 {
        assert(es.push(e)[0] == e);
        assert(es.push(e).skip(1) =~= Seq::<DirEntry>::empty());
        assert(removed_names(cfgs, Seq::<DirEntry>::empty()) == Seq::<Seq<char>>::empty());
        assert(removed_names(cfgs, es.push(e)) =~= removed_names(cfgs, es) + (if doomed(cfgs, e) {
            seq![e.name@]
        } else {
            Seq::<Seq<char>>::empty()
        }));
    } else {
        assert(es.push(e)[0] == es[0]);
        assert(es.push(e).skip(1) =~= es.skip(1).push(e));
        lemma_removed_names_snoc(cfgs, es.skip(1), e);
        assert(removed_names(cfgs, es.push(e)) =~= removed_names(cfgs, es) + (if doomed(cfgs, e) {
            seq![e.name@]
        } else {
            Seq::<Seq<char>>::empty()
        }));
    }
}

/// Every doomed entry's name appears among the removed names.
pub proof fn lemma_removed_names_complete(cfgs: Seq<ModuleCfgV>, es: Seq<DirEntry>, k: int)
    requires
        0 <= k < es.len(),
        doomed(cfgs, es[k]),
    ensures
        exists|j: int|
            0 <= j < removed_names(cfgs, es).len() && (#[trigger] removed_names(cfgs, es)[j])
                == es[k].name@,
    decreases es.len(),
{
    if k == 0 {
        assert(removed_names(cfgs, es)[0] == es[0].name@);
    } else {
        lemma_removed_names_complete(cfgs, es.skip(1), k - 1);
        let hd = if doomed(cfgs, es[0]) {
            seq![es[0].name@]
        } else {
            Seq::<Seq<char>>::empty()
        };
        let j = choose|j: int|
            0 <= j < removed_names(cfgs, es.skip(1)).len() && (#[trigger] removed_names(
                cfgs,
                es.skip(1),
            )[j]) == es.skip(1)[k - 1].name@;
        assert(removed_names(cfgs, es)[hd.len() + j] == removed_names(cfgs, es.skip(1))[j]);
        assert(es.skip(1)[k - 1] == es[k]);
    }
}

impl Upgrade {
    /// The names the reconciliation removes from the modules directory:
    /// exactly the regular files and the directories bearing no configured
    /// id, in order of appearance.
    pub fn remove_unkonwn_path(&self, origins: &Vec<config::Module>, entries: &Vec<DirEntry>) -> (r:
        Vec<String>)
        ensures
            r@.len() == removed_names(config::mods_view(origins@), entries@).len(),
            forall|j: int|
                0 <= j < r@.len() ==> (#[trigger] r@[j])@ == removed_names(
                    config::mods_view(origins@),
                    entries@,
                )[j],
    {
        let ghost cfgs = config::mods_view(origins@);
        let mut out: Vec<String> = Vec::new();
        let mut k: usize = 0;
        proof {
            assert(entries@.subrange(0, 0) =~= Seq::<DirEntry>::empty());
        }
        while k < entries.len()
            invariant
                k <= entries@.len(),
                cfgs == config::mods_view(origins@),
                out@.len() == removed_names(cfgs, entries@.subrange(0, k as int)).len(),
                forall|j: int|
                    0 <= j < out@.len() ==> (#[trigger] out@[j])@ == removed_names(
                        cfgs,
                        entries@.subrange(0, k as int),
                    )[j],
            decreases entries@.len() - k,
        {
            let ghost pre = entries@.subrange(0, k as int);
            proof {
                assert(pre.push(entries@[k as int]) =~= entries@.subrange(0, k + 1));
                lemma_removed_names_snoc(cfgs, pre, entries@[k as int]);
            }
            let mut known = false;
            let mut m: usize = 0;
            while m < origins.len()
                invariant
                    m <= origins@.len(),
                    cfgs == config::mods_view(origins@),
                    known == exists|x: int| 0 <= x < m && (#[trigger] cfgs[x]).id == entries@[
                        k as int
                    ].name@,
                    k < entries@.len(),
                decreases origins@.len() - m,
            {
                if origins[m].id == entries[k].name {
                    known = true;
                    assert(cfgs[m as int].id == entries@[k as int].name@);
                }
                m += 1;
            }
            proof {
                reveal(doomed);
                if known {
                    assert(known_id(cfgs, entries@[k as int].name@));
                } else {
                    if known_id(cfgs, entries@[k as int].name@) {
                        let x = choose|x: int|
                            0 <= x < cfgs.len() && (#[trigger] cfgs[x]).id == entries@[
                                k as int
                            ].name@;
                        assert(false);
                    }
                }
            }
            if entries[k].is_file || !known {
                assert(doomed(cfgs, entries@[k as int]));
                let ghost before = out@;
                out.push(entries[k].name.as_str().to_owned());
                proof {
                    assert(out@[out@.len() - 1]@ == entries@[k as int].name@);
                    assert(forall|j: int| 0 <= j < before.len() ==> out@[j] == before[j]);
                    let names = removed_names(cfgs, entries@.subrange(0, k + 1));
                    assert forall|j: int| 0 <= j < out@.len() implies (#[trigger] out@[j])@
                        == names[j] by {
                        if j < before.len() {
                            assert(out@[j] == before[j]);
                            assert(names[j] == removed_names(cfgs, pre)[j]);
                        } else {
                            assert(names[j] == entries@[k as int].name@);
                        }
                    }
                }
            } else {
                assert(!doomed(cfgs, entries@[k as int]));
            }
            k += 1;
        }
        proof {
            assert(entries@.subrange(0, entries@.len() as int) =~= entries@);
        }
        out
    }
}

/// Every directory kept by the reconciliation bears a configured id, and no
/// regular file survives./// Every directory kept by the reconciliation bears a configured id, and no
/// regular file survives.
pub proof fn lemma_reconcile_keeps_known(cfgs: Seq<ModuleCfgV>, entries: Seq<DirEntry>, k: int)
    requires
        0 <= k < entries.len(),
        forall|j: int|
            0 <= j < removed_names(cfgs, entries).len() ==> (#[trigger] removed_names(
                cfgs,
                entries,
            )[j]) != entries[k].name@,
    ensures
        !entries[k].is_file,
        known_id(cfgs, entries[k].name@),
{
    reveal(doomed);
    if doomed(cfgs, entries[k]) {
        lemma_removed_names_complete(cfgs, entries, k);
        let j = choose|j: int|
            0 <= j < removed_names(cfgs, entries).len() && (#[trigger] removed_names(
                cfgs,
                entries,
            )[j]) == entries[k].name@;
        assert(false);
    }
}

/// The rendered (compact or pretty) index document.
impl Upgrade {
    pub fn write_modules_to(&self, doc: &modules::Modules, pretty: bool) -> (r: String)
        ensures
            r@ == modules::ser_modules_doc(doc@, pretty, 0),
    {
        let mut out: Vec<char> = Vec::new();
        modules::push_modules_doc(doc, pretty, 0, &mut out);
        text::chars_to_string(&out)
    }
}

/// The index generator together with the configured modules.
pub struct UpgradeWrapper<'u> {
    pub modules: &'u Vec<config::Module>,
    pub original: Upgrade,
}

impl<'u> UpgradeWrapper<'u> {
    pub fn build(context: &'u Context) -> (r: UpgradeWrapper<'u>)
        ensures
            r.original.repository@ == context.repository@,
            r.original.json_dir@ == context.json_dir@,
            r.original.modules_dir@ == context.modules_dir@,
            r.modules@ == context.modules@,
    {
        UpgradeWrapper {
            modules: &context.modules,
            original: Upgrade::new(
                &context.repository,
                context.json_dir.as_str(),
                context.modules_dir.as_str(),
            ),
        }
    }
}

} // verus!
