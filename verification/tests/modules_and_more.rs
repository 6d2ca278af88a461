use fleetform::config::{
    choose_format, config_file_name, parse_hcl_basic, Config, ConfigFormat,
};
use fleetform::ffi::{validate_config, validate_config_internal};
use fleetform::hcl::{parse_blocks, SyntaxError};
use fleetform::modules::{
    last_component_of, module_name_of, Module, ModuleError, ModuleFiles,
};
use fleetform::provider::{
    list_available_providers, registry_url, same_strings, OpenTofuProvider, Source,
};
use fleetform::provisioner::{request_for, RequestError, ResourceRequest};
use fleetform::state::State;
use fleetform::tofu::plugin::ProviderServer;
use fleetform::workspace::Workspace;

fn strings(v: &[&str]) -> Vec<String> {
    v.iter().map(|s| s.to_string()).collect()
}

#[test]
fn test_validate_config() {
    assert_eq!(validate_config(r#"{"resource": "aws_instance"}"#), r#"{"valid":true}"#);
}

#[test]
fn config_without_resource_is_invalid() {
    assert_eq!(
        validate_config(r#"{"provider": "aws"}"#),
        r#"{"valid":false,"errors":["Configuration invalid"]}"#
    );
    assert!(validate_config_internal("a resource"));
    assert!(!validate_config_internal("resourc"));
    assert!(!validate_config_internal(""));
}

#[test]
fn basic_reading_counts_lines() {
    let config = parse_hcl_basic(
        "provider \"aws\" {}\nresource \"a\" \"b\" {}\nresource resource\n\n# provider resource",
    );
    assert_eq!(config.provider, strings(&["aws", "aws"]));
    assert_eq!(config.resource, strings(&["aws_instance", "aws_instance", "aws_instance"]));
    assert_eq!(config.resources, config.resource);
    let nothing = parse_hcl_basic("");
    assert!(nothing.provider.is_empty() && nothing.resource.is_empty());
}

#[test]
fn checked_configuration() {
    let config = Config::load_config("resource \"aws_instance\" \"web\" {\n}\n").ok().unwrap();
    assert_eq!(config.provider, strings(&["aws"]));
    assert_eq!(config.resource, strings(&["aws_instance_web"]));
    assert_eq!(config.resources, strings(&["aws_instance_web"]));
    assert_eq!(Config::load_config("a {").err(), Some(SyntaxError::UnmatchedBraces));
    assert_eq!(Config::load_config("}").err(), Some(SyntaxError::UnexpectedClosingBrace));
    let empty = Config::empty();
    assert!(empty.provider.is_empty() && empty.resource.is_empty() && empty.resources.is_empty());
}

#[test]
fn first_format_found_is_chosen() {
    assert_eq!(choose_format(true, true, true), Some(ConfigFormat::Hcl));
    assert_eq!(choose_format(false, true, true), Some(ConfigFormat::Yaml));
    assert_eq!(choose_format(false, false, true), Some(ConfigFormat::Json));
    assert_eq!(choose_format(false, false, false), None);
    assert_eq!(config_file_name(ConfigFormat::Hcl), "fleetform.hcl");
    assert_eq!(config_file_name(ConfigFormat::Yaml), "fleetform.yaml");
    assert_eq!(config_file_name(ConfigFormat::Json), "fleetform.json");
}

#[test]
fn workspace_state_path() {
    assert_eq!(
        Workspace::new("dev", "/srv/project".to_string()).get_state_path(),
        "/srv/project/fleetform-dev.json"
    );
    assert_eq!(
        Workspace::new("prod", "/srv/project/".to_string()).get_state_path(),
        "/srv/project/fleetform-prod.json"
    );
    assert_eq!(Workspace::new("x", String::new()).get_state_path(), "fleetform-x.json");
}

#[test]
fn current_workspace() {
    assert_eq!(Workspace::current_from(Some("  staging\n")), "staging");
    assert_eq!(Workspace::current_from(Some("")), "");
    assert_eq!(Workspace::current_from(None), "default");
    assert_eq!(
        Workspace::listed(&strings(&["dev", "prod"])),
        strings(&["default", "dev", "prod"])
    );
    assert_eq!(Workspace::listed(&Vec::new()), strings(&["default"]));
}

#[test]
fn module_needs_its_directory_and_main_file() {
    let all = ModuleFiles { path_exists: true, has_main_tf: true, has_main_hcl: false };
    let module = Module::load("modules/net", all).ok().unwrap();
    assert_eq!(module.name, "net");
    assert_eq!(module.path, "modules/net");
    assert_eq!(module.validate(all), Ok(()));
    let hcl_only = ModuleFiles { path_exists: true, has_main_tf: false, has_main_hcl: true };
    assert_eq!(module.validate(hcl_only), Ok(()));
    let bare = ModuleFiles { path_exists: true, has_main_tf: false, has_main_hcl: false };
    assert_eq!(module.validate(bare), Err(ModuleError::MainFileMissing));
    let gone = ModuleFiles { path_exists: false, has_main_tf: true, has_main_hcl: true };
    assert_eq!(module.validate(gone), Err(ModuleError::PathMissing));
    assert_eq!(Module::load("x", gone).err(), Some(ModuleError::PathMissing));
    assert_eq!(Module::load("x", bare).err(), Some(ModuleError::MainFileMissing));
    let plain = Module::load("vpc", all).ok().unwrap();
    assert_eq!(plain.name, "vpc");
    assert_eq!(plain.path, "vpc");
    let deep = Module::load("/srv/project/modules/db", hcl_only).ok().unwrap();
    assert_eq!(deep.name, "db");
    assert_eq!(deep.path, "/srv/project/modules/db");
}

#[test]
fn fetched_module_is_named_by_its_last_segment() {
    assert_eq!(module_name_of("https://example.com/modules/vpc"), "vpc");
    assert_eq!(module_name_of("vpc"), "vpc");
    assert_eq!(module_name_of("https://example.com/"), "");
    assert_eq!(module_name_of(""), "");
}

#[test]
fn providers_on_offer() {
    let offers = list_available_providers();
    let pairs: Vec<(String, String)> =
        offers.into_iter().map(|o| (o.name, o.version)).collect();
    assert_eq!(
        pairs,
        vec![
            ("aws".to_string(), "5.0.0".to_string()),
            ("azurerm".to_string(), "3.0.0".to_string()),
            ("google".to_string(), "4.0.0".to_string()),
        ]
    );
    assert_eq!(registry_url("google", "4.0.0"), "https://registry.opentofu.org/providers/google/4.0.0");
    assert_eq!(
        Source::provider_url("aws", "5.0.0"),
        "https://registry.opentofu.org/v1/providers/aws/5.0.0"
    );
    assert_eq!(Source::plugin_path("aws"), "plugins/aws-latest");
    assert_eq!(OpenTofuProvider {}, OpenTofuProvider {});
    assert_eq!(ProviderServer::new(), ProviderServer);
}

fn config_of(resources: &[&str]) -> Config {
    Config { provider: strings(&["aws"]), resource: strings(resources), resources: strings(resources) }
}

#[test]
fn applied_resources_are_recorded() {
    let source = Source::new(config_of(&["a", "b"]));
    let mut state = State::new();
    state.record("old".to_string());
    assert!(source.apply_changes(&config_of(&["a", "b"]), &mut state).is_ok());
    assert_eq!(state.resources, strings(&["old", "a", "b"]));
}

#[test]
fn mismatched_configuration_changes_nothing() {
    let source = Source::new(config_of(&["a", "b"]));
    let mut state = State::new();
    state.record("old".to_string());
    assert!(source.apply_changes(&config_of(&["a"]), &mut state).is_err());
    assert!(source.apply_changes(&config_of(&["b", "a"]), &mut state).is_err());
    assert_eq!(state.resources, strings(&["old"]));
    assert!(same_strings(&strings(&["a", "b"]), &strings(&["a", "b"])));
    assert!(!same_strings(&strings(&["a", "b"]), &strings(&["a", "c"])));
}

fn request(text: &str) -> Result<ResourceRequest, RequestError> {
    let blocks = parse_blocks(text).ok().unwrap();
    request_for(&blocks[0])
}

#[test]
fn instance_request_fills_in_defaults() {
    match request("resource \"aws_instance\" \"web\" {\n}\n") {
        Ok(ResourceRequest::Instance { name, instance_type, ami }) => {
            assert_eq!(name, "web");
            assert_eq!(instance_type, "t2.micro");
            assert_eq!(ami, "ami-12345678");
        }
        _ => panic!("an instance was expected"),
    }
    match request("resource \"aws_instance\" \"web\" {\n  instance_type = \"m5.large\"\n  ami = \"ami-1\"\n}\n") {
        Ok(ResourceRequest::Instance { name, instance_type, ami }) => {
            assert_eq!(name, "web");
            assert_eq!(instance_type, "m5.large");
            assert_eq!(ami, "ami-1");
        }
        _ => panic!("an instance was expected"),
    }
}

#[test]
fn bucket_request_keeps_the_given_name() {
    match request("resource \"aws_s3_bucket\" \"logs\" {\n  bucket = \"my-logs\"\n}\n") {
        Ok(ResourceRequest::Bucket { name, bucket }) => {
            assert_eq!(name, "logs");
            assert_eq!(bucket, Some("my-logs".to_string()));
        }
        _ => panic!("a bucket was expected"),
    }
    match request("resource \"aws_s3_bucket\" \"logs\" {\n}\n") {
        Ok(ResourceRequest::Bucket { name, bucket }) => {
            assert_eq!(name, "logs");
            assert_eq!(bucket, None);
        }
        _ => panic!("a bucket was expected"),
    }
}

#[test]
fn other_requests() {
    match request("resource \"azurerm_vm\" \"x\" {\n}\n") {
        Ok(ResourceRequest::Unknown { resource_type, name }) => {
            assert_eq!(resource_type, "azurerm_vm");
            assert_eq!(name, "x");
        }
        _ => panic!("an unknown resource was expected"),
    }
    assert_eq!(request("provider \"aws\" {\n}\n").err(), Some(RequestError::NotAResource));
    assert_eq!(request("resource \"aws_instance\" {\n}\n").err(), Some(RequestError::InvalidResource));
    assert_eq!(
        request("resource \"aws_instance\" \"a\" \"b\" {\n}\n").err(),
        Some(RequestError::InvalidResource)
    );
}

#[test]
fn module_is_named_by_the_last_component_of_its_path() {
    let all = ModuleFiles { path_exists: true, has_main_tf: true, has_main_hcl: false };
    let module = Module::load("modules/net/", all).ok().unwrap();
    assert_eq!(module.name, "net");
    assert_eq!(module.path, "modules/net/");
    assert_eq!(Module::load("a/", all).ok().unwrap().name, "a");
    assert_eq!(Module::load("/usr/bin/", all).ok().unwrap().name, "bin");
    assert_eq!(Module::load("a/..", all).ok().unwrap().name, "");
    assert_eq!(Module::load("", all).ok().unwrap().name, "");
}

#[test]
fn last_component_is_the_file_name_of_the_path() {
    let paths = [
        "", "/", "//", ".", "..", "./", "../", "a", "a/", "a//", "a/.", "a/./", "a/./.", "a/..",
        "a/../", "a/../b", "./a", "/a", "/a/b", "/a/b/", "/a/b//./", "/.", "/..", "a/b/c.tf",
        "modules/net", "modules/net/", "...", "a/...", ".a", "a.", "..a", "a b/c d", "/usr/bin/",
        "x/./y/.", "x/y/../.", "é/ü/",
    ];
    for path in paths {
        let expected: String = std::path::Path::new(path)
            .file_name()
            .unwrap_or_default()
            .to_string_lossy()
            .into();
        assert_eq!(last_component_of(path), expected, "for {:?}", path);
    }
}
