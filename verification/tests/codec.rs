use mrepo::config::{
    parse_config_x, push_config, Config, Log, Module, ModuleMetadata, ModuleSetting, ProviderKind,
    Repository, RepositoryMetadata, RepositorySetting,
};
use mrepo::error::Error;
use mrepo::format::Format;
use mrepo::modules;
use mrepo::origin;
use mrepo::origin::parse_uj_x;
use mrepo::text::str_to_chars;
use mrepo::track::{parse_track_x, push_track, Track, Version};
use mrepo::upgrade::{DirEntry, Upgrade};
use mrepo::util::{LocalModule, StrUtil};
use mrepo::ContextWrapper;
use std::io::Write as _;

fn sample_config() -> Config {
    Config::new(
        Log::new(false, "debug", "mrepo.log", true),
        Repository::new(
            "Test Repo",
            Some(RepositoryMetadata::new("https://r/", "", "https://r/s")),
            RepositorySetting::new("https://repo.test.app", 3),
        ),
        vec![
            Module::new(
                "alpha",
                ProviderKind::UpdateJson,
                "https://a/update.json",
                "",
                None,
                None,
            ),
            Module::new(
                "beta",
                ProviderKind::Git,
                "https://b/repo.git",
                "https://b/cl.md",
                Some(ModuleMetadata::new("MIT", "https://b/", "", "", "")),
                Some(ModuleSetting::new(false, 5)),
            ),
        ],
    )
}

fn sample_track() -> Track {
    Track {
        module: origin::Module {
            id: "alpha".to_owned(),
            name: "Alpha \"quoted\"\nline".to_owned(),
            version: "2.1".to_owned(),
            version_code: 21,
            author: "someone".to_owned(),
            description: "a module".to_owned(),
        },
        versions: vec![
            Version::new(2000, "2.1 (21)".to_owned(), 21),
            Version::new(1000, "2.0 (20)".to_owned(), 20),
        ],
    }
}

#[test]
fn config_round_trip_pretty() {
    let cfg = sample_config();
    let mut out: Vec<char> = Vec::new();
    push_config(&cfg, true, 0, &mut out);
    let text: String = out.iter().collect();
    let (parsed, _) = parse_config_x(&str_to_chars(&text), 0).unwrap();
    assert_eq!(parsed, cfg);
}

#[test]
fn config_round_trip_compact() {
    let cfg = sample_config();
    let mut out: Vec<char> = Vec::new();
    push_config(&cfg, false, 0, &mut out);
    let text: String = out.iter().collect();
    let (parsed, _) = parse_config_x(&str_to_chars(&text), 0).unwrap();
    assert_eq!(parsed, cfg);
}

#[test]
fn track_round_trip() {
    let tr = sample_track();
    let mut out: Vec<char> = Vec::new();
    push_track(&tr, true, 0, &mut out);
    let text: String = out.iter().collect();
    let (parsed, _) = parse_track_x(&str_to_chars(&text), 0).unwrap();
    assert_eq!(parsed, tr);
}

#[test]
fn update_json_accepts_camel_case_aliases() {
    let json = r#"{"version":"1.2","versionCode":12,"zipUrl":"https://z","changelog":""}"#;
    let (uj, _) = parse_uj_x(&str_to_chars(json), 0).unwrap();
    assert_eq!(uj.version, "1.2");
    assert_eq!(uj.version_code, 12);
    assert_eq!(uj.zip_url, "https://z");
    assert_eq!(uj.changelog, "");
}

#[test]
fn update_json_extreme_codes() {
    let json = r#"{"version":"x","version_code":-9223372036854775808,"zip_url":"u","changelog":""}"#;
    let (uj, _) = parse_uj_x(&str_to_chars(json), 0).unwrap();
    assert_eq!(uj.version_code, i64::MIN);
    let json = r#"{"version":"x","version_code":9223372036854775807,"zip_url":"u","changelog":""}"#;
    let (uj, _) = parse_uj_x(&str_to_chars(json), 0).unwrap();
    assert_eq!(uj.version_code, i64::MAX);
}

#[test]
fn config_missing_required_field_is_rejected() {
    assert!(parse_config_x(&str_to_chars("{}"), 0).is_none());
    let no_repo = r#"{"log":{},"modules":[]}"#;
    assert!(parse_config_x(&str_to_chars(no_repo), 0).is_none());
}

#[test]
fn unknown_fields_are_tolerated() {
    let json = r#"
    {
      "log": {"level": "warn", "color": {"nested": [1, 2, {"x": null}], "f": 1.5}},
      "repository": {"name": "R", "setting": {"base_url": "https://r"}},
      "modules": [],
      "extra": "ignored"
    }"#;
    let (parsed, _) = parse_config_x(&str_to_chars(json), 0).unwrap();
    assert_eq!(parsed.log.level, "warn");
    assert_eq!(parsed.repository.name, "R");
}

#[test]
fn html_sniff_cases() {
    assert!(StrUtil::is_html("<!DOCTYPE html><title>hi</title>"));
    assert!(!StrUtil::is_html("plain text"));
    assert!(StrUtil::is_html("<html lang=en>"));
    assert!(StrUtil::is_html("prefix <BODY> suffix"));
    assert!(!StrUtil::is_html("<htmlx>"));
}

#[test]
fn version_display_cases() {
    assert_eq!(StrUtil::get_version_display("1.0", 10), "1.0 (10)");
    assert_eq!(StrUtil::get_version_display("v2 (15)", 15), "v2 (15)");
    let once = StrUtil::get_version_display("3.4", -7);
    let twice = StrUtil::get_version_display(&once, -7);
    assert_eq!(once, twice);
}

#[test]
fn property_manifest_parsing() {
    let text = "# a comment\r\n id = m1 \r\nname=M1\r\n\r\nversion=1.0\nversionCode=10\nauthor=A\ndescription=D\nunknown=ok\n";
    let m = LocalModule::read_prop(&text.as_bytes().to_vec()).unwrap();
    assert_eq!(m.id, "m1");
    assert_eq!(m.name, "M1");
    assert_eq!(m.version_code, 10);
    let missing = "id=m1\nname=M1\n";
    assert!(LocalModule::read_prop(&missing.as_bytes().to_vec()).is_none());
    let malformed = "id=m1\nname=M1\nversion=1.0\nversionCode=ten\nauthor=A\ndescription=D\n";
    assert!(LocalModule::read_prop(&malformed.as_bytes().to_vec()).is_none());
}

#[test]
fn archive_manifest_extraction() {
    let mut zw = zip::ZipWriter::new(std::io::Cursor::new(Vec::new()));
    let opts = zip::write::SimpleFileOptions::default()
        .compression_method(zip::CompressionMethod::Stored);
    zw.start_file("module.prop", opts).unwrap();
    zw.write_all(b"id=pkg\nname=P\nversion=0.9\nversionCode=9\nauthor=A\ndescription=D\n")
        .unwrap();
    zw.start_file("other.txt", opts).unwrap();
    zw.write_all(b"payload").unwrap();
    let bytes = zw.finish().unwrap().into_inner();
    let m = LocalModule::read_zip(&bytes).unwrap();
    assert_eq!(m.id, "pkg");
    assert_eq!(m.version_code, 9);
    assert!(LocalModule::read_zip(&b"garbage".to_vec()).is_none());
}

#[test]
fn index_generation() {
    let repo = Repository::new(
        "Repo",
        None,
        RepositorySetting::new("https://base", 3),
    );
    let up = Upgrade::new(&repo, "json", "modules");
    let cfg = Module::new(
        "alpha",
        ProviderKind::UpdateJson,
        "https://a/u.json",
        "",
        None,
        None,
    );
    let tr = Track {
        module: origin::Module {
            id: "alpha".to_owned(),
            name: "Alpha".to_owned(),
            version: "2.1 (21)".to_owned(),
            version_code: 21,
            author: "someone".to_owned(),
            description: "d".to_owned(),
        },
        versions: vec![Version::new(2000, "2.1 (21)".to_owned(), 21)],
    };
    let mods = up.generate_modules(&vec![cfg], vec![Some(tr)]);
    assert_eq!(mods.len(), 1);
    assert_eq!(mods[0].versions[0].zip_url, "https://base/modules/alpha/2000.zip");
    assert_eq!(
        mods[0].versions[0].changelog,
        "https://base/modules/alpha/2000.txt"
    );
    let doc = modules::Modules {
        name: "Repo".to_owned(),
        timestamp: 5,
        metadata: RepositoryMetadata::new("", "", ""),
        modules: vec![],
    };
    let rendered = up.write_modules_to(&doc, false);
    assert_eq!(rendered, r#"{"name":"Repo","timestamp":5,"metadata":{},"modules":[]}"#);
}

#[test]
fn empty_changelog_gives_empty_url() {
    let repo = Repository::new("Repo", None, RepositorySetting::new("https://base", 3));
    let up = Upgrade::new(&repo, "json", "modules");
    let mut v = Version::new(2000, "1".to_owned(), 1);
    v.changelog = String::new();
    let pv = up.generate_version("alpha", &v);
    assert_eq!(pv.changelog, "");
    assert_eq!(pv.zip_url, "https://base/modules/alpha/2000.zip");
}

#[test]
fn orphan_directory_reconciliation() {
    let repo = Repository::new("Repo", None, RepositorySetting::new("https://base", 3));
    let up = Upgrade::new(&repo, "json", "modules");
    let cfg = Module::new("m1", ProviderKind::UpdateJson, "https://u", "", None, None);
    let entries = vec![
        DirEntry {
            name: "m1".to_owned(),
            is_file: false,
        },
        DirEntry {
            name: "ghost".to_owned(),
            is_file: false,
        },
        DirEntry {
            name: "stray.txt".to_owned(),
            is_file: true,
        },
    ];
    let removed = up.remove_unkonwn_path(&vec![cfg], &entries);
    assert!(removed.iter().any(|n| n == "ghost"));
    assert!(removed.iter().any(|n| n == "stray.txt"));
    assert!(!removed.iter().any(|n| n == "m1"));
}

#[test]
fn formatter_round_trips() {
    let cfg = sample_config();
    let mut out: Vec<char> = Vec::new();
    push_config(&cfg, false, 0, &mut out);
    let compact: String = out.iter().collect();
    let fmt = Format::new("json/config.json");
    let pretty = fmt.write_to(&compact.clone().into_bytes()).unwrap();
    assert!(pretty.starts_with("{\n"));
    let (reparsed, _) = parse_config_x(&str_to_chars(&pretty), 0).unwrap();
    assert_eq!(reparsed, cfg);
    assert!(fmt.write_to(&b"not json".to_vec()).is_none());
}

#[test]
fn context_paths_and_selection() {
    let cfg = sample_config();
    let ctx = ContextWrapper::from_working_dir(cfg, "/work");
    assert_eq!(ctx.original.json_dir, "/work/json");
    assert_eq!(ctx.original.modules_dir, "/work/modules");
    assert_eq!(ctx.original.config_path, "/work/json/config.json");
    let upd = ctx.update();
    let all = upd.select_modules(&vec![]);
    assert_eq!(all.len(), 2);
    let one = upd.select_modules(&vec!["beta".to_owned()]);
    assert_eq!(one.len(), 1);
    assert_eq!(one[0].id, "beta");
}

#[test]
fn error_carries_message() {
    let e = Error::custom("boom");
    assert_eq!(e.text(), "boom");
}

#[test]
fn update_json_round_trip() {
    let uj = origin::UpdateJson {
        version: "1.2".to_owned(),
        version_code: 12,
        zip_url: "https://z".to_owned(),
        changelog: "c".to_owned(),
    };
    let mut out: Vec<char> = Vec::new();
    origin::push_uj(&uj, true, 0, &mut out);
    let text: String = out.iter().collect();
    let (parsed, _) = parse_uj_x(&str_to_chars(&text), 0).unwrap();
    assert_eq!(parsed, uj);
}

#[test]
fn packaging_round_trip() {
    let prop = b"id=pkg\nname=P\nversion=0.9\nversionCode=9\nauthor=A\ndescription=D\n".to_vec();
    let entries = vec![
        mrepo::util::ArchiveEntry {
            path: "module.prop".to_owned(),
            data: Some(prop),
        },
        mrepo::util::ArchiveEntry {
            path: "sub".to_owned(),
            data: None,
        },
        mrepo::util::ArchiveEntry {
            path: "sub/file.txt".to_owned(),
            data: Some(b"payload".to_vec()),
        },
        mrepo::util::ArchiveEntry {
            path: ".git".to_owned(),
            data: None,
        },
        mrepo::util::ArchiveEntry {
            path: ".git/config".to_owned(),
            data: Some(b"secret".to_vec()),
        },
    ];
    let (module, bytes) = LocalModule::from_zip(&entries).unwrap();
    assert_eq!(module.id, "pkg");
    assert_eq!(module.version_code, 9);
    let reread = LocalModule::read_zip(&bytes).unwrap();
    assert_eq!(reread, module);
    let mut archive = zip::ZipArchive::new(std::io::Cursor::new(bytes)).unwrap();
    assert!(archive.by_name(".git/config").is_err());
    assert!(archive.by_name("sub/file.txt").is_ok());
}
