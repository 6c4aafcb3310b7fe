use java_guard::bridge::{daemon_pool_size, parser_pool_size, scan_worker_count, AstCache, CliParser, DAEMON_JVM_ARGS};
use java_guard::plugin::{PluginConfig, PluginError, PluginLoader};
use java_guard::source::decode_source_bytes;

#[test]
fn cli_parser_creation() {
    let parser = CliParser::new("/nonexistent/java-parser.jar", None);
    assert_eq!(parser.java_cmd(), "java");
    assert_eq!(parser.jar_path(), "/nonexistent/java-parser.jar");
}

#[test]
fn cli_parser_custom_java() {
    let parser = CliParser::new("/nonexistent/java-parser.jar", None)
        .with_java_cmd("/usr/lib/jvm/java-17/bin/java");
    assert_eq!(parser.java_cmd(), "/usr/lib/jvm/java-17/bin/java");
}

#[test]
fn cli_parser_takes_java_cmd_from_environment_value() {
    let parser = CliParser::new("p.jar", Some("/opt/jdk/bin/java".to_string()));
    assert_eq!(parser.java_cmd(), "/opt/jdk/bin/java");
}

#[test]
fn daemon_jvm_args_are_stable() {
    assert!(DAEMON_JVM_ARGS.contains(&"-XX:TieredStopAtLevel=1"));
    assert!(DAEMON_JVM_ARGS.contains(&"-Xshare:auto"));
}

#[test]
fn pool_sizes_are_clamped() {
    assert_eq!(daemon_pool_size(0), 1);
    assert_eq!(daemon_pool_size(3), 3);
    assert_eq!(daemon_pool_size(40), 16);
    assert_eq!(parser_pool_size(Some(8), 100), 4);
    assert_eq!(parser_pool_size(Some(8), 2), 2);
    assert_eq!(parser_pool_size(None, 0), 1);
}

#[test]
fn same_content_deterministic_key() {
    let a = AstCache::new(true, "v", Some("/work")).dir().to_string();
    let b = AstCache::new(true, "v", Some("/work")).dir().to_string();
    assert_eq!(a, b);
    assert_eq!(a, "/work/.java-guard-cache");
    let c = AstCache::new(true, "v", Some("/work"));
    assert_eq!(c.path_for("class A {}"), c.path_for("class A {}"));
    assert!(c.path_for("class A {}").starts_with("/work/.java-guard-cache/10-"));
    assert_ne!(c.path_for("class A {}"), c.path_for("class B {}"));
}

#[test]
fn cache_entry_names_hold_length_and_hash() {
    let cache = AstCache::new(false, "v1", None).with_dir("/tmp/c/");
    assert_eq!(cache.dir(), "/tmp/c/");
    assert!(!cache.enabled());
    assert_eq!(cache.parser_version(), "v1");
    assert_eq!(cache.entry_path(10, 0xab), "/tmp/c/10-00000000000000ab.json");
    assert_eq!(AstCache::new(true, "v", None).dir(), "./.java-guard-cache");
    // length counts bytes of the UTF-8 text
    assert!(cache.path_for("中").starts_with("/tmp/c/3-"));
}

#[test]
fn plugin_config_creation() {
    let config = PluginConfig::new("/nonexistent/plugin.jar", None);
    assert_eq!(config.jar_path, "/nonexistent/plugin.jar");
    assert_eq!(config.java_cmd, "java");
    assert_eq!(config.jvm_args, vec!["-Xmx512m".to_string()]);
}

#[test]
fn plugin_loader_missing_jar() {
    let config = PluginConfig::new("/nonexistent/plugin.jar", None);
    let loader = PluginLoader::new(config);
    let result = loader.load(false);
    assert!(result.is_err());
    match result {
        Err(PluginError::JarNotFound(_)) => {}
        _ => panic!("expected JarNotFound error"),
    }
}

#[test]
fn plugin_loader_existing_jar_returns_empty() {
    let loader = PluginLoader::new(PluginConfig::new("/tmp/plugin.jar", None));
    let result = loader.load(true);
    assert!(result.is_ok());
    assert_eq!(result.unwrap().len(), 0);
}

#[test]
fn read_source_file_utf8() {
    let s = decode_source_bytes(b"class A {\n}", "auto");
    assert!(s.contains("class A"));
}

#[test]
fn read_source_file_gbk() {
    let gbk_bytes = vec![0x2F, 0x2F, 0x20, 0xB2, 0xE2, 0xCA, 0xD4, 0xD6, 0xD0, 0xCE, 0xC4];
    let s = decode_source_bytes(&gbk_bytes, "auto");
    assert!(s.contains("测试"), "auto-detect should decode GBK to readable Chinese, got: {s:?}");
    let s2 = decode_source_bytes(&gbk_bytes, "gbk");
    assert!(s2.contains("测试"));
}

#[test]
fn read_source_file_utf8_bom() {
    let mut bytes = vec![0xEF, 0xBB, 0xBF];
    bytes.extend_from_slice(b"class A {}");
    let s = decode_source_bytes(&bytes, "auto");
    assert!(s.starts_with("class A"));
}

#[test]
fn read_source_file_explicit_encoding() {
    let sjis_bytes = vec![0x2F, 0x2F, 0x20, 0x83, 0x65, 0x83, 0x58, 0x83, 0x67];
    let s = decode_source_bytes(&sjis_bytes, "shift-jis");
    assert!(s.contains("テスト"));
}

#[test]
fn decode_by_label_and_fallbacks() {
    assert_eq!(decode_source_bytes(&[0xE9], "LATIN1"), "é");
    assert_eq!(decode_source_bytes(&[0xE9], "iso-8859-15"), "é");
    assert_eq!(decode_source_bytes(b"abc", "no-such-encoding"), "abc");
}

#[test]
fn scan_workers_follow_parallelism_and_file_count() {
    assert_eq!(scan_worker_count(Some(16), 100), 8);
    assert_eq!(scan_worker_count(Some(2), 100), 2);
    assert_eq!(scan_worker_count(None, 100), 4);
    assert_eq!(scan_worker_count(Some(16), 3), 3);
    assert_eq!(scan_worker_count(Some(0), 3), 1);
}
