use rshome::json::Json;
use rshome::raw::{ComponentConfig, EsphomeBlock, FrameworkConfig, IdfComponentRef, RawConfig, StringMap};
use rshome::stages::s4_external_components::{
    check_url, stage_4_resolve_external_components, AllowList, DependencySource,
};

fn obj(pairs: Vec<(&str, Json)>) -> Json {
    let mut j = Json::empty_object();
    for (k, v) in pairs {
        j = j.with_member(k, v);
    }
    j
}

fn base_config() -> RawConfig {
    RawConfig {
        esphome: EsphomeBlock {
            name: "test".into(),
            platform: "esp32".into(),
            board: "esp32dev".into(),
            friendly_name: None,
            framework: None,
            includes: vec![],
            libraries: vec![],
            project: None,
            area: None,
            min_version: None,
            profile: None,
            solution: None,
            solution_variant: None,
        },
        packages: vec![],
        substitutions: StringMap::new(),
        components: vec![],
    }
}

fn framework_with_git(url: &str) -> FrameworkConfig {
    FrameworkConfig {
        framework_type: "esp-idf".into(),
        version: None,
        components: vec![IdfComponentRef {
            name: "my_component".into(),
            version: None,
            git: Some(url.into()),
            path: None,
        }],
        sdkconfig_options: StringMap::new(),
    }
}

#[test]
fn no_external_components_clean() {
    let config = base_config();
    let errors = stage_4_resolve_external_components(&config, &AllowList::new());
    assert!(errors.is_empty());
}

#[test]
fn github_url_without_allow_list_rejected() {
    let mut config = base_config();
    config.esphome.framework = Some(framework_with_git("https://github.com/user/repo"));
    let errors = stage_4_resolve_external_components(&config, &AllowList::new());
    assert_eq!(errors.len(), 1);
    assert!(errors[0].is_fatal());
    assert!(errors[0].message.contains("github.com"));
}

#[test]
fn github_url_with_allow_prefix_passes() {
    let mut config = base_config();
    config.esphome.framework = Some(framework_with_git("https://github.com/user/repo"));
    let mut allow = AllowList::new();
    allow.allow_prefix("https://github.com/user/");
    let errors = stage_4_resolve_external_components(&config, &allow);
    assert!(errors.is_empty());
}

#[test]
fn component_git_field_checked() {
    let mut config = base_config();
    config.components.push(ComponentConfig {
        component_type: "external_component".into(),
        platform: None,
        config: obj(vec![("git", Json::Str("https://github.com/user/external".into()))]),
    });
    let errors = stage_4_resolve_external_components(&config, &AllowList::new());
    assert_eq!(errors.len(), 1);
    assert!(errors[0].message.contains("github.com"));
}

#[test]
fn allow_list_matches_by_prefix() {
    let mut allow = AllowList::new();
    allow.allow_prefix("https://github.com/esphome/");
    assert!(allow.is_allowed("https://github.com/esphome/esphome"));
    assert!(!allow.is_allowed("https://github.com/other/repo"));
}

#[test]
fn check_url_trusted_sources_pass() {
    let allow = AllowList::new();
    let mut errors = Vec::new();
    check_url("components.espressif.com/led_strip", "p", &allow, &mut errors);
    check_url("./local", "p", &allow, &mut errors);
    assert!(errors.is_empty());
    check_url("https://gitee.com/x/y", "p", &allow, &mut errors);
    assert_eq!(errors.len(), 1);
    assert!(errors[0].is_fatal());
    assert_eq!(errors[0].path, "p");
}

#[test]
fn registry_host_must_match_exactly() {
    let spoof = DependencySource::from_url("https://evil.example/components.espressif.com/x");
    assert!(!spoof.is_trusted_by_default());
    let real = DependencySource::from_url("https://components.espressif.com/x");
    assert_eq!(real, DependencySource::EspressifRegistry);
    assert!(real.is_trusted_by_default());
    let bare = DependencySource::from_url("espressif/led_strip");
    assert_eq!(bare, DependencySource::EspressifRegistry);
}
