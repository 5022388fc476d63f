use mrepo::config::{
    Log, Module, ModuleMetadata, ModuleSetting, ProviderKind, Repository, RepositoryMetadata,
    RepositorySetting,
};
use mrepo::config::{parse_log_x, parse_module_x, parse_repository_x};
use mrepo::text::str_to_chars;

fn chars(s: &str) -> Vec<char> {
    str_to_chars(s)
}

#[test]
fn log() {
    let json = r#"
    {
      "disabled": false,
      "level": "trace",
      "output": "mrepo.log",
      "timestamp": true
    }"#;
    assert_eq!(
        parse_log_x(&chars(json), 0).unwrap().0,
        Log::new(false, "trace", "mrepo.log", true)
    );

    let json = r#"
    {
      "level": "info"
    }"#;
    assert_eq!(
        parse_log_x(&chars(json), 0).unwrap().0,
        Log::new(false, "info", "", true)
    );
}

#[test]
fn repository() {
    let json = r#"
    {
      "name": "Test Repo",
      "setting": {
        "base_url": "https://repo.test.app"
      }
    }"#;
    assert_eq!(
        parse_repository_x(&chars(json), 0).unwrap().0,
        Repository::new(
            "Test Repo",
            None,
            RepositorySetting::new("https://repo.test.app", 3)
        )
    );

    let json = r#"
    {
      "name": "Test Repo",
      "metadata": {
        "homepage": "https://repo.test.app/",
        "donate": "https://repo.test.app/donate",
        "support": "https://repo.test.app/support"
      },
      "setting": {
        "base_url": "https://repo.test.app",
        "keep_size": 10
      }
    }"#;
    assert_eq!(
        parse_repository_x(&chars(json), 0).unwrap().0,
        Repository::new(
            "Test Repo",
            Some(RepositoryMetadata::new(
                "https://repo.test.app/",
                "https://repo.test.app/donate",
                "https://repo.test.app/support"
            )),
            RepositorySetting::new("https://repo.test.app", 10)
        )
    );

    let json = r#"
    {
      "name": "Test Repo",
      "metadata": {
        "homepage": "https://repo.test.app/"
      },
      "setting": {
        "base_url": "https://repo.test.app",
        "keep_size": 10
      }
    }"#;
    assert_eq!(
        parse_repository_x(&chars(json), 0).unwrap().0,
        Repository::new(
            "Test Repo",
            Some(RepositoryMetadata::new("https://repo.test.app/", "", "")),
            RepositorySetting::new("https://repo.test.app", 10)
        )
    );
}

#[test]
fn module() {
    let json = r#"
    {
      "id": "test",
      "kind": "update-json",
      "provider": "https://test.app/update.json"
    }"#;
    assert_eq!(
        parse_module_x(&chars(json), 0).unwrap().0,
        Module::new(
            "test",
            ProviderKind::UpdateJson,
            "https://test.app/update.json",
            "",
            None,
            None
        )
    );

    let json = r#"
    {
      "id": "test",
      "kind": "zip-url",
      "provider": "https://test.app/test.zip",
      "changelog": "https://test.app/changelog.md",
      "metadata": {
        "license": "MIT",
        "homepage": "https://test.app/",
        "donate": "https://test.app/donate",
        "support": "https://test.app/support",
        "source": "https://test.app/source"
      },
      "setting": {
        "disabled": false,
         "keep_size": 10
      }
    }"#;
    assert_eq!(
        parse_module_x(&chars(json), 0).unwrap().0,
        Module::new(
            "test",
            ProviderKind::ZipUrl,
            "https://test.app/test.zip",
            "https://test.app/changelog.md",
            Some(ModuleMetadata::new(
                "MIT",
                "https://test.app/",
                "https://test.app/donate",
                "https://test.app/support",
                "https://test.app/source"
            )),
            Some(ModuleSetting::new(false, 10))
        )
    );

    let json = r#"
    {
      "id": "test",
      "kind": "zip-url",
      "provider": "https://test.app/test.zip",
      "changelog": "https://test.app/changelog.md",
      "metadata": {
        "license": "MIT",
        "homepage": "https://test.app/"
      },
      "setting": {
        "keep_size": 10
      }
    }"#;
    assert_eq!(
        parse_module_x(&chars(json), 0).unwrap().0,
        Module::new(
            "test",
            ProviderKind::ZipUrl,
            "https://test.app/test.zip",
            "https://test.app/changelog.md",
            Some(ModuleMetadata::new("MIT", "https://test.app/", "", "", "")),
            Some(ModuleSetting::new(false, 10))
        )
    );
}
