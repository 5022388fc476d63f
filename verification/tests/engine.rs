use mrepo::config::{Module, ModuleSetting, ProviderKind, RepositorySetting};
use mrepo::track::parse_track_x;
use mrepo::update::{Update, UpdateAction, UpdateEvent, UpdateState};
use mrepo::text::str_to_chars;
use std::io::Write as _;

fn make_zip(prop: &str) -> Vec<u8> {
    let mut zw = zip::ZipWriter::new(std::io::Cursor::new(Vec::new()));
    let opts = zip::write::SimpleFileOptions::default()
        .compression_method(zip::CompressionMethod::Stored);
    zw.start_file("module.prop", opts).unwrap();
    zw.write_all(prop.as_bytes()).unwrap();
    zw.finish().unwrap().into_inner()
}

fn prop_text(code: i64) -> String {
    format!(
        "id=m1\nname=M1\nversion=1.0\nversionCode={}\nauthor=A\ndescription=D\n",
        code
    )
}

fn drive(
    u: &Update,
    m: &Module,
    events: Vec<UpdateEvent>,
) -> (UpdateState, Vec<UpdateAction>) {
    let mut state = UpdateState::Start;
    let mut all: Vec<UpdateAction> = Vec::new();
    for ev in events {
        let step = u.update(m, state, ev);
        state = step.state;
        for a in step.actions {
            all.push(a);
        }
        if matches!(state, UpdateState::Finished { .. }) {
            break;
        }
    }
    (state, all)
}

fn track_data(actions: &[UpdateAction]) -> String {
    for a in actions {
        if let UpdateAction::WriteTrack { data } = a {
            return data.clone();
        }
    }
    panic!("no track write among the actions");
}

fn engine() -> Update {
    Update::new(&RepositorySetting::new("https://base", 3), "modules")
}

fn json_module() -> Module {
    Module::new(
        "m1",
        ProviderKind::UpdateJson,
        "https://srv/update.json",
        "",
        None,
        None,
    )
}

const POINTER_10: &str = r#"{"version":"1.0","version_code":10,"zip_url":"https://srv/m1.zip","changelog":"https://srv/cl.txt"}"#;

#[test]
fn first_time_update_json() {
    let u = engine();
    let m = json_module();
    let (state, actions) = drive(
        &u,
        &m,
        vec![
            UpdateEvent::Begin { now: 1111 },
            UpdateEvent::Body {
                data: Some(POINTER_10.as_bytes().to_vec()),
            },
            UpdateEvent::TrackBytes { data: None },
            UpdateEvent::Downloaded {
                fetched: true,
                written: true,
                last_modified: None,
            },
            UpdateEvent::FileBytes {
                data: Some(make_zip(&prop_text(10))),
            },
            UpdateEvent::Body {
                data: Some(b"changelog body".to_vec()),
            },
            UpdateEvent::Wrote { ok: true },
            UpdateEvent::Wrote { ok: true },
        ],
    );
    assert!(matches!(state, UpdateState::Finished { updated: true }));
    let data = track_data(&actions);
    let (track, _) = parse_track_x(&str_to_chars(&data), 0).unwrap();
    assert_eq!(track.module.id, "m1");
    assert_eq!(track.versions.len(), 1);
    assert_eq!(track.versions[0].version_code, 10);
    assert_eq!(track.versions[0].version, "1.0 (10)");
    assert_eq!(track.versions[0].zip_path, "1111.zip");
    assert!(actions
        .iter()
        .any(|a| matches!(a, UpdateAction::RenameTmp { to } if to == "1111.zip")));
}

#[test]
fn no_op_on_stale_provider() {
    let u = engine();
    let m = json_module();
    let (_, first_actions) = drive(
        &u,
        &m,
        vec![
            UpdateEvent::Begin { now: 1111 },
            UpdateEvent::Body {
                data: Some(POINTER_10.as_bytes().to_vec()),
            },
            UpdateEvent::TrackBytes { data: None },
            UpdateEvent::Downloaded {
                fetched: true,
                written: true,
                last_modified: None,
            },
            UpdateEvent::FileBytes {
                data: Some(make_zip(&prop_text(10))),
            },
            UpdateEvent::Body { data: None },
            UpdateEvent::Wrote { ok: true },
        ],
    );
    let stored = track_data(&first_actions).into_bytes();
    let (state, actions) = drive(
        &u,
        &m,
        vec![
            UpdateEvent::Begin { now: 2222 },
            UpdateEvent::Body {
                data: Some(POINTER_10.as_bytes().to_vec()),
            },
            UpdateEvent::TrackBytes { data: Some(stored) },
        ],
    );
    assert!(matches!(state, UpdateState::Finished { updated: false }));
    assert!(!actions
        .iter()
        .any(|a| matches!(a, UpdateAction::DownloadTmp { .. })));
    assert!(!actions
        .iter()
        .any(|a| matches!(a, UpdateAction::WriteTrack { .. })));
}

#[test]
fn retention_eviction() {
    let u = engine();
    let m = Module::new(
        "m1",
        ProviderKind::UpdateJson,
        "https://srv/update.json",
        "",
        None,
        Some(ModuleSetting::new(false, 2)),
    );
    let mut stored: Option<Vec<u8>> = None;
    let mut last_actions: Vec<UpdateAction> = Vec::new();
    for (i, code) in [10i64, 11, 12].iter().enumerate() {
        let now = 1000 * (i as i64 + 1);
        let pointer = format!(
            r#"{{"version":"1.0","version_code":{},"zip_url":"https://srv/m1.zip","changelog":""}}"#,
            code
        );
        let (state, actions) = drive(
            &u,
            &m,
            vec![
                UpdateEvent::Begin { now },
                UpdateEvent::Body {
                    data: Some(pointer.into_bytes()),
                },
                UpdateEvent::TrackBytes {
                    data: stored.clone(),
                },
                UpdateEvent::Downloaded {
                    fetched: true,
                    written: true,
                    last_modified: None,
                },
                UpdateEvent::FileBytes {
                    data: Some(make_zip(&prop_text(*code))),
                },
                UpdateEvent::Wrote { ok: true },
            ],
        );
        assert!(matches!(state, UpdateState::Finished { updated: true }));
        stored = Some(track_data(&actions).into_bytes());
        last_actions = actions;
    }
    let (track, _) = parse_track_x(&str_to_chars(&track_data(&last_actions)), 0).unwrap();
    assert_eq!(track.versions.len(), 2);
    assert_eq!(track.versions[0].version_code, 12);
    assert_eq!(track.versions[1].version_code, 11);
    assert!(last_actions
        .iter()
        .any(|a| matches!(a, UpdateAction::Remove { name } if name == "1000.zip")));
}

#[test]
fn html_changelog_sniff() {
    let u = engine();
    let m = json_module();
    let (state, actions) = drive(
        &u,
        &m,
        vec![
            UpdateEvent::Begin { now: 1111 },
            UpdateEvent::Body {
                data: Some(POINTER_10.as_bytes().to_vec()),
            },
            UpdateEvent::TrackBytes { data: None },
            UpdateEvent::Downloaded {
                fetched: true,
                written: true,
                last_modified: None,
            },
            UpdateEvent::FileBytes {
                data: Some(make_zip(&prop_text(10))),
            },
            UpdateEvent::Body {
                data: Some(b"<html><body>404".to_vec()),
            },
            UpdateEvent::Wrote { ok: true },
        ],
    );
    assert!(matches!(state, UpdateState::Finished { updated: true }));
    assert!(!actions
        .iter()
        .any(|a| matches!(a, UpdateAction::WriteChangelog { .. })));
    let (track, _) = parse_track_x(&str_to_chars(&track_data(&actions)), 0).unwrap();
    assert_eq!(track.versions[0].changelog, "");
}

#[test]
fn zip_url_last_modified() {
    let u = engine();
    let m = Module::new(
        "m1",
        ProviderKind::ZipUrl,
        "https://srv/m1.zip",
        "",
        None,
        None,
    );
    let (state, actions) = drive(
        &u,
        &m,
        vec![
            UpdateEvent::Begin { now: 42 },
            UpdateEvent::Downloaded {
                fetched: true,
                written: true,
                last_modified: Some("Tue, 01 Jan 2030 00:00:00 GMT".to_owned()),
            },
            UpdateEvent::FileBytes {
                data: Some(make_zip(&prop_text(10))),
            },
            UpdateEvent::TrackBytes { data: None },
            UpdateEvent::Wrote { ok: true },
        ],
    );
    assert!(matches!(state, UpdateState::Finished { updated: true }));
    let (track, _) = parse_track_x(&str_to_chars(&track_data(&actions)), 0).unwrap();
    assert_eq!(track.versions[0].timestamp, 1893456000000);
    assert_eq!(track.versions[0].zip_path, "1893456000000.zip");
}

#[test]
fn empty_url_fetches_nothing() {
    let u = engine();
    let m = Module::new("m1", ProviderKind::UpdateJson, "", "", None, None);
    let (state, actions) = drive(&u, &m, vec![UpdateEvent::Begin { now: 1 }]);
    assert!(matches!(state, UpdateState::Finished { updated: false }));
    assert!(actions.is_empty());

    let m2 = Module::new("m1", ProviderKind::ZipUrl, "", "", None, None);
    let (state2, actions2) = drive(&u, &m2, vec![UpdateEvent::Begin { now: 1 }]);
    assert!(matches!(state2, UpdateState::Finished { updated: false }));
    assert!(actions2.is_empty());

    let m3 = Module::new("m1", ProviderKind::Git, "", "", None, None);
    let (state3, actions3) = drive(&u, &m3, vec![UpdateEvent::Begin { now: 1 }]);
    assert!(matches!(state3, UpdateState::Finished { updated: false }));
    assert!(actions3.is_empty());
}

#[test]
fn disabled_module_is_skipped() {
    let u = engine();
    let m = Module::new(
        "m1",
        ProviderKind::UpdateJson,
        "https://srv/update.json",
        "",
        None,
        Some(ModuleSetting {
            disabled: true,
            keep_size: None,
        }),
    );
    let (state, actions) = drive(&u, &m, vec![UpdateEvent::Begin { now: 1 }]);
    assert!(matches!(state, UpdateState::Finished { updated: false }));
    assert!(actions.is_empty());
}

#[test]
fn failed_download_cleans_tmp() {
    let u = engine();
    let m = json_module();
    let (state, actions) = drive(
        &u,
        &m,
        vec![
            UpdateEvent::Begin { now: 1111 },
            UpdateEvent::Body {
                data: Some(POINTER_10.as_bytes().to_vec()),
            },
            UpdateEvent::TrackBytes { data: None },
            UpdateEvent::Downloaded {
                fetched: true,
                written: false,
                last_modified: None,
            },
        ],
    );
    assert!(matches!(state, UpdateState::Finished { updated: false }));
    assert!(actions.iter().any(|a| matches!(a, UpdateAction::RemoveTmp)));
}

#[test]
fn bad_archive_cleans_tmp() {
    let u = engine();
    let m = json_module();
    let (state, actions) = drive(
        &u,
        &m,
        vec![
            UpdateEvent::Begin { now: 1111 },
            UpdateEvent::Body {
                data: Some(POINTER_10.as_bytes().to_vec()),
            },
            UpdateEvent::TrackBytes { data: None },
            UpdateEvent::Downloaded {
                fetched: true,
                written: true,
                last_modified: None,
            },
            UpdateEvent::FileBytes {
                data: Some(b"not a zip archive".to_vec()),
            },
        ],
    );
    assert!(matches!(state, UpdateState::Finished { updated: false }));
    assert!(actions.iter().any(|a| matches!(a, UpdateAction::RemoveTmp)));
}
