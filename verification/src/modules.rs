//! The published index: repository identity plus every configured module
//! with its retained versions under fully qualified URLs.

use vstd::prelude::*;
use vstd::string::*;
use crate::config::{
    RepositoryMetadata, RepositoryMetadataV, ModuleMetadata, ModuleMetadataV, ser_rmeta, ser_mmeta,
    push_rmeta, push_mmeta,
};
use crate::json::{
    member_str, member_i64, sep_text, key_part, obj_end, push_member_str, push_member_i64,
    push_sep, push_key, push_obj_end, push_arr_end, arr_items, ser_arr, lemma_arr_items_snoc,
};
use crate::origin;
use crate::text;

verus! {

/// One published version of a module.
#[derive(Debug, Clone)]
pub struct Version {
    pub timestamp: i64,
    pub version: String,
    pub version_code: i64,
    pub zip_url: String,
    pub changelog: String,
}

#[verifier::ext_equal]
pub ghost struct PubVersionV {
    pub timestamp: int,
    pub version: Seq<char>,
    pub version_code: int,
    pub zip_url: Seq<char>,
    pub changelog: Seq<char>,
}

impl View for Version {
    type V = PubVersionV;

    open spec fn view(&self) -> PubVersionV {
        PubVersionV {
            timestamp: self.timestamp as int,
            version: self.version@,
            version_code: self.version_code as int,
            zip_url: self.zip_url@,
            changelog: self.changelog@,
        }
    }
}

impl PartialEq for Version {
    fn eq(&self, other: &Self) -> (r: bool) {
        self.timestamp == other.timestamp && self.version == other.version && self.version_code
            == other.version_code && self.zip_url == other.zip_url && self.changelog
            == other.changelog
    }
}

impl vstd::std_specs::cmp::PartialEqSpecImpl for Version {
    open spec fn obeys_eq_spec() -> bool {
        true
    }

    open spec fn eq_spec(&self, other: &Self) -> bool {
        self@ == other@
    }
}

/// One published module: identity from the track's origin, metadata from the
/// configuration.
#[derive(Debug, Clone)]
pub struct Module {
    pub id: String,
    pub name: String,
    pub version: String,
    pub version_code: i64,
    pub author: String,
    pub description: String,
    pub metadata: ModuleMetadata,
    pub versions: Vec<Version>,
}

#[verifier::ext_equal]
pub ghost struct PubModuleV {
    pub id: Seq<char>,
    pub name: Seq<char>,
    pub version: Seq<char>,
    pub version_code: int,
    pub author: Seq<char>,
    pub description: Seq<char>,
    pub metadata: ModuleMetadataV,
    pub versions: Seq<PubVersionV>,
}

pub open spec fn pub_vers_view(vs: Seq<Version>) -> Seq<PubVersionV> {
    Seq::new(vs.len(), |k: int| vs[k]@)
}

impl View for Module {
    type V = PubModuleV;

    open spec fn view(&self) -> PubModuleV {
        PubModuleV {
            id: self.id@,
            name: self.name@,
            version: self.version@,
            version_code: self.version_code as int,
            author: self.author@,
            description: self.description@,
            metadata: self.metadata@,
            versions: pub_vers_view(self.versions@),
        }
    }
}

impl Module {
    /// A published module from a track's origin identity, the configured
    /// metadata, and the composed version list.
    pub fn from(origin: origin::Module, metadata: ModuleMetadata, versions: Vec<Version>) -> (r:
        Module)
        ensures
            r@.id == origin@.id,
            r@.name == origin@.name,
            r@.version == origin@.version,
            r@.version_code == origin@.version_code,
            r@.author == origin@.author,
            r@.description == origin@.description,
            r@.metadata == metadata@,
            r@.versions == pub_vers_view(versions@),
    {
        Module {
            id: origin.id,
            name: origin.name,
            version: origin.version,
            version_code: origin.version_code,
            author: origin.author,
            description: origin.description,
            metadata,
            versions,
        }
    }
}

/// The whole published index.
#[derive(Debug, Clone)]
pub struct Modules {
    pub name: String,
    pub timestamp: i64,
    pub metadata: RepositoryMetadata,
    pub modules: Vec<Module>,
}

#[verifier::ext_equal]
pub ghost struct ModulesV {
    pub name: Seq<char>,
    pub timestamp: int,
    pub metadata: RepositoryMetadataV,
    pub modules: Seq<PubModuleV>,
}

pub open spec fn pub_mods_view(ms: Seq<Module>) -> Seq<PubModuleV> {
    Seq::new(ms.len(), |k: int| ms[k]@)
}

impl View for Modules {
    type V = ModulesV;

    open spec fn view(&self) -> ModulesV {
        ModulesV {
            name: self.name@,
            timestamp: self.timestamp as int,
            metadata: self.metadata@,
            modules: pub_mods_view(self.modules@),
        }
    }
}

// ---------- serialization ----------

#[verifier::opaque]
pub open spec fn ser_pub_version(v: PubVersionV, p: bool, d: nat) -> Seq<char> {
    seq!['{'] + member_i64(true, "timestamp"@, v.timestamp, p, d) + member_str(
        false,
        "version"@,
        v.version,
        p,
        d,
    ) + member_i64(false, "version_code"@, v.version_code, p, d) + member_str(
        false,
        "zip_url"@,
        v.zip_url,
        p,
        d,
    ) + member_str(false, "changelog"@, v.changelog, p, d) + obj_end(p, d)
}

#[verifier::rlimit(60)]
#[verifier::spinoff_prover]
pub fn push_pub_version(x: &Version, p: bool, d: usize, out: &mut Vec<char>)
    requires
        d < 80,
    ensures
        final(out)@ == old(out)@ + ser_pub_version(x@, p, d as nat),
{
    proof {
        reveal(ser_pub_version);
    }
    out.push('{');
    push_member_i64(true, "timestamp", x.timestamp, p, d, out);
    push_member_str(false, "version", x.version.as_str(), p, d, out);
    push_member_i64(false, "version_code", x.version_code, p, d, out);
    push_member_str(false, "zip_url", x.zip_url.as_str(), p, d, out);
    push_member_str(false, "changelog", x.changelog.as_str(), p, d, out);
    push_obj_end(p, d, out);
    assert(out@ =~= old(out)@ + ser_pub_version(x@, p, d as nat));
}

pub open spec fn pub_ver_ser(p: bool, d: nat) -> spec_fn(PubVersionV) -> Seq<char> {
    |x: PubVersionV| ser_pub_version(x, p, d + 1)
}

pub open spec fn ser_pub_versions(es: Seq<PubVersionV>, p: bool, d: nat) -> Seq<char> {
    ser_arr(es, p, d, pub_ver_ser(p, d))
}

#[verifier::rlimit(60)]
#[verifier::spinoff_prover]
pub fn push_pub_versions(es: &Vec<Version>, p: bool, d: usize, out: &mut Vec<char>)
    requires
        d < 79,
    ensures
        final(out)@ == old(out)@ + ser_pub_versions(pub_vers_view(es@), p, d as nat),
{
    let ghost vv = pub_vers_view(es@);
    if es.len() == 0 {
        out.push('[');
        out.push(']');
        assert(out@ =~= old(out)@ + ser_pub_versions(vv, p, d as nat));
        return ;
    }
    out.push('[');
    let mut k: usize = 0;
    while k < es.len()
        invariant
            k <= es.len(),
            es.len() >= 1,
            d < 79,
            vv == pub_vers_view(es@),
            out@ == old(out)@ + seq!['['] + arr_items(
                vv.subrange(0, k as int),
                true,
                p,
                d as nat,
                pub_ver_ser(p, d as nat),
            ),
        decreases es.len() - k,
    {
        proof {
            lemma_arr_items_snoc(
                vv.subrange(0, k as int),
                vv[k as int],
                true,
                p,
                d as nat,
                pub_ver_ser(p, d as nat),
            );
            assert(vv.subrange(0, k as int).push(vv[k as int]) =~= vv.subrange(0, k + 1));
        }
        push_sep(k == 0, p, d, out);
        push_pub_version(&es[k], p, d + 1, out);
        assert(pub_ver_ser(p, d as nat)(vv[k as int]) == ser_pub_version(es@[k as int]@, p, (d
            + 1) as nat));
        assert(out@ =~= old(out)@ + seq!['['] + arr_items(
            vv.subrange(0, k + 1),
            true,
            p,
            d as nat,
            pub_ver_ser(p, d as nat),
        ));
        k += 1;
    }
    assert(vv.subrange(0, es@.len() as int) =~= vv);
    push_arr_end(p, d, out);
    assert(out@ =~= old(out)@ + ser_pub_versions(vv, p, d as nat));
}

#[verifier::opaque]
pub open spec fn ser_pub_module(v: PubModuleV, p: bool, d: nat) -> Seq<char> {
    seq!['{'] + member_str(true, "id"@, v.id, p, d) + member_str(false, "name"@, v.name, p, d)
        + member_str(false, "version"@, v.version, p, d) + member_i64(
        false,
        "version_code"@,
        v.version_code,
        p,
        d,
    ) + member_str(false, "author"@, v.author, p, d) + member_str(
        false,
        "description"@,
        v.description,
        p,
        d,
    ) + (sep_text(false, p, d) + key_part("metadata"@, p) + ser_mmeta(v.metadata, p, d + 1)) + (
    sep_text(false, p, d) + key_part("versions"@, p) + ser_pub_versions(v.versions, p, d + 1))
        + obj_end(p, d)
}

#[verifier::rlimit(100)]
#[verifier::spinoff_prover]
pub fn push_pub_module(x: &Module, p: bool, d: usize, out: &mut Vec<char>)
    requires
        d < 78,
    ensures
        final(out)@ == old(out)@ + ser_pub_module(x@, p, d as nat),
{
    proof {
        reveal(ser_pub_module);
    }
    out.push('{');
    push_member_str(true, "id", x.id.as_str(), p, d, out);
    push_member_str(false, "name", x.name.as_str(), p, d, out);
    push_member_str(false, "version", x.version.as_str(), p, d, out);
    push_member_i64(false, "version_code", x.version_code, p, d, out);
    push_member_str(false, "author", x.author.as_str(), p, d, out);
    push_member_str(false, "description", x.description.as_str(), p, d, out);
    push_sep(false, p, d, out);
    push_key("metadata", p, out);
    push_mmeta(&x.metadata, p, d + 1, out);
    push_sep(false, p, d, out);
    push_key("versions", p, out);
    push_pub_versions(&x.versions, p, d + 1, out);
    push_obj_end(p, d, out);
    assert(out@ =~= old(out)@ + ser_pub_module(x@, p, d as nat));
}

pub open spec fn pub_mod_ser(p: bool, d: nat) -> spec_fn(PubModuleV) -> Seq<char> {
    |x: PubModuleV| ser_pub_module(x, p, d + 1)
}

#[verifier::opaque]
pub open spec fn ser_modules_doc(v: ModulesV, p: bool, d: nat) -> Seq<char> {
    seq!['{'] + member_str(true, "name"@, v.name, p, d) + member_i64(
        false,
        "timestamp"@,
        v.timestamp,
        p,
        d,
    ) + (sep_text(false, p, d) + key_part("metadata"@, p) + ser_rmeta(v.metadata, p, d + 1)) + (
    sep_text(false, p, d) + key_part("modules"@, p) + ser_arr(v.modules, p, d + 1, pub_mod_ser(
        p,
        d + 1,
    ))) + obj_end(p, d)
}

#[verifier::rlimit(100)]
#[verifier::spinoff_prover]
pub fn push_modules_doc(x: &Modules, p: bool, d: usize, out: &mut Vec<char>)
    requires
        d < 76,
    ensures
        final(out)@ == old(out)@ + ser_modules_doc(x@, p, d as nat),
{
    proof {
        reveal(ser_modules_doc);
    }
    out.push('{');
    push_member_str(true, "name", x.name.as_str(), p, d, out);
    push_member_i64(false, "timestamp", x.timestamp, p, d, out);
    push_sep(false, p, d, out);
    push_key("metadata", p, out);
    push_rmeta(&x.metadata, p, d + 1, out);
    push_sep(false, p, d, out);
    push_key("modules", p, out);
    let ghost vv = pub_mods_view(x.modules@);
    if x.modules.len() == 0 {
        out.push('[');
        out.push(']');
        assert(out@.subrange(out@.len() - 2, out@.len() as int) =~= seq!['[', ']']);
    } else {
        out.push('[');
        let mut k: usize = 0;
        let ghost mark = out@;
        while k < x.modules.len()
            invariant
                k <= x.modules@.len(),
                x.modules@.len() >= 1,
                d < 76,
                vv == pub_mods_view(x.modules@),
                out@ == mark + arr_items(
                    vv.subrange(0, k as int),
                    true,
                    p,
                    (d + 1) as nat,
                    pub_mod_ser(p, (d + 1) as nat),
                ),
            decreases x.modules@.len() - k,
        {
            proof {
                lemma_arr_items_snoc(
                    vv.subrange(0, k as int),
                    vv[k as int],
                    true,
                    p,
                    (d + 1) as nat,
                    pub_mod_ser(p, (d + 1) as nat),
                );
                assert(vv.subrange(0, k as int).push(vv[k as int]) =~= vv.subrange(0, k + 1));
            }
            push_sep(k == 0, p, d + 1, out);
            push_pub_module(&x.modules[k], p, d + 2, out);
            assert(pub_mod_ser(p, (d + 1) as nat)(vv[k as int]) == ser_pub_module(
                x.modules@[k as int]@,
                p,
                (d + 2) as nat,
            ));
            assert(out@ =~= mark + arr_items(
                vv.subrange(0, k + 1),
                true,
                p,
                (d + 1) as nat,
                pub_mod_ser(p, (d + 1) as nat),
            ));
            k += 1;
        }
        assert(vv.subrange(0, x.modules@.len() as int) =~= vv);
        push_arr_end(p, d + 1, out);
    }
    push_obj_end(p, d, out);
    assert(out@ =~= old(out)@ + ser_modules_doc(x@, p, d as nat));
}

} // verus!
