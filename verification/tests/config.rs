use gitlet::config::{repo_default_config, Config, ConfigError};
use gitlet::decimal::parse_i32;
use gitlet::filesystem::FileSystem;

fn path(parts: &[&str]) -> Vec<String> {
    parts.iter().map(|s| s.to_string()).collect()
}

#[test]
fn default_has_the_three_keys() {
    let config = repo_default_config();
    assert_eq!(config.get("core", "repositoryformatversion"), Some("0".to_string()));
    assert_eq!(config.get("core", "filemode"), Some("false".to_string()));
    assert_eq!(config.get("core", "bare"), Some("false".to_string()));
}

#[test]
fn default_has_nothing_else() {
    let config = Config::default();
    assert_eq!(config.get("core", "worktree"), None);
    assert_eq!(config.get("user", "name"), None);
    assert_eq!(config.get("", "bare"), None);
}

#[test]
fn default_version_is_zero() {
    assert_eq!(repo_default_config().version(), Ok(0));
    assert_eq!(Config::default().version(), Ok(0));
}

#[test]
fn default_text() {
    let text = repo_default_config().serialize().unwrap();
    assert_eq!(
        String::from_utf8(text).unwrap(),
        "[core]\nrepositoryformatversion=0\nfilemode=false\nbare=false\n"
    );
}

#[test]
fn default_round_trip() {
    let written = repo_default_config();
    let text = written.serialize().unwrap();
    let read = Config::parse(&text).unwrap();
    for key in ["repositoryformatversion", "filemode", "bare", "other"] {
        assert_eq!(read.get("core", key), written.get("core", key));
    }
    assert_eq!(read.get("other", "bare"), None);
    assert_eq!(read.version(), Ok(0));
    assert_eq!(read.serialize().unwrap(), text);
}

#[test]
fn parse_reads_sections_and_keys() {
    let config = Config::parse(b"top=1\n[core]\nbare = true\n[user]\nname=me\n").unwrap();
    assert_eq!(config.get("core", "bare"), Some("true".to_string()));
    assert_eq!(config.get("user", "name"), Some("me".to_string()));
    assert_eq!(config.get("core", "name"), None);
}

#[test]
fn parse_keeps_unknown_sections() {
    let config = Config::parse(b"[core]\nrepositoryformatversion=0\n[remote]\nurl=x\n").unwrap();
    let text = String::from_utf8(config.serialize().unwrap()).unwrap();
    assert_eq!(text, "[core]\nrepositoryformatversion=0\n\n[remote]\nurl=x\n");
}

#[test]
fn parse_takes_the_first_of_two_values() {
    let config = Config::parse(b"[core]\nbare=true\nbare=false\n").unwrap();
    assert_eq!(config.get("core", "bare"), Some("true".to_string()));
}

#[test]
fn parse_skips_byte_order_mark() {
    let config = Config::parse(b"\xEF\xBB\xBF[core]\nrepositoryformatversion=0\n").unwrap();
    assert_eq!(config.version(), Ok(0));
}

#[test]
fn parse_rejects_broken_section() {
    assert_eq!(Config::parse(b"[core\nbare=true\n").unwrap_err(), ConfigError::Malformed);
}

#[test]
fn parse_rejects_value_without_key() {
    assert_eq!(Config::parse(b"[core]\n=true\n").unwrap_err(), ConfigError::Malformed);
}

#[test]
fn parse_rejects_bytes_that_are_no_text() {
    assert_eq!(Config::parse(&[b'a', b'=', 0xff, 0xfe]).unwrap_err(), ConfigError::Malformed);
}

#[test]
fn parse_of_nothing_is_empty() {
    let config = Config::parse(b"").unwrap();
    assert_eq!(config.get("core", "bare"), None);
    assert_eq!(config.version(), Err(ConfigError::VersionMissing));
}

#[test]
fn version_missing() {
    let config = Config::parse(b"[core]\nbare=false\n").unwrap();
    assert_eq!(config.version(), Err(ConfigError::VersionMissing));
    let config = Config::parse(b"[other]\nrepositoryformatversion=0\n").unwrap();
    assert_eq!(config.version(), Err(ConfigError::VersionMissing));
}

#[test]
fn version_malformed() {
    let config = Config::parse(b"[core]\nrepositoryformatversion=zero\n").unwrap();
    assert_eq!(config.version(), Err(ConfigError::VersionMalformed));
    let config = Config::parse(b"[core]\nrepositoryformatversion=\n").unwrap();
    assert_eq!(config.version(), Err(ConfigError::VersionMalformed));
    let config = Config::parse(b"[core]\nrepositoryformatversion=99999999999\n").unwrap();
    assert_eq!(config.version(), Err(ConfigError::VersionMalformed));
}

#[test]
fn version_other_than_zero() {
    let config = Config::parse(b"[core]\nrepositoryformatversion=1\n").unwrap();
    assert_eq!(config.version(), Ok(1));
    let config = Config::parse(b"[core]\nrepositoryformatversion=-3\n").unwrap();
    assert_eq!(config.version(), Ok(-3));
}

#[test]
fn load_reads_the_file() {
    let mut fs = FileSystem::new();
    assert!(fs.write(&path(&["config"]), b"[core]\nrepositoryformatversion=0\n".to_vec()));
    let config = Config::load(&fs, &path(&["config"])).unwrap();
    assert_eq!(config.version(), Ok(0));
}

#[test]
fn load_tells_missing_from_malformed() {
    let mut fs = FileSystem::new();
    assert!(fs.write(&path(&["broken"]), b"[core".to_vec()));
    assert!(fs.create_dir_all(&path(&["dir"])));
    assert_eq!(Config::load(&fs, &path(&["absent"])).unwrap_err(), ConfigError::Missing);
    assert_eq!(Config::load(&fs, &path(&["dir"])).unwrap_err(), ConfigError::Missing);
    assert_eq!(Config::load(&fs, &path(&["broken"])).unwrap_err(), ConfigError::Malformed);
}

#[test]
fn parse_i32_plain_numbers() {
    assert_eq!(parse_i32("0"), Some(0));
    assert_eq!(parse_i32("7"), Some(7));
    assert_eq!(parse_i32("1234567"), Some(1234567));
    assert_eq!(parse_i32("007"), Some(7));
    assert_eq!(parse_i32("000000000000000000000000000012"), Some(12));
}

#[test]
fn parse_i32_signs() {
    assert_eq!(parse_i32("+5"), Some(5));
    assert_eq!(parse_i32("-5"), Some(-5));
    assert_eq!(parse_i32("-0"), Some(0));
    assert_eq!(parse_i32("+"), None);
    assert_eq!(parse_i32("-"), None);
    assert_eq!(parse_i32("+-1"), None);
    assert_eq!(parse_i32("--1"), None);
}

#[test]
fn parse_i32_limits() {
    assert_eq!(parse_i32("2147483647"), Some(i32::MAX));
    assert_eq!(parse_i32("2147483648"), None);
    assert_eq!(parse_i32("-2147483648"), Some(i32::MIN));
    assert_eq!(parse_i32("-2147483649"), None);
    assert_eq!(parse_i32("99999999999999999999999999"), None);
}

#[test]
fn parse_i32_rejects_other_text() {
    assert_eq!(parse_i32(""), None);
    assert_eq!(parse_i32(" 1"), None);
    assert_eq!(parse_i32("1 "), None);
    assert_eq!(parse_i32("12a"), None);
    assert_eq!(parse_i32("1.0"), None);
    assert_eq!(parse_i32("\u{661}"), None);
}

#[test]
fn parse_i32_agrees_with_std() {
    for text in ["0", "-0", "+0", "42", "-42", "2147483647", "2147483648", "-2147483648", "", "x", "4x", "+", "0x10", "1_000"] {
        assert_eq!(parse_i32(text), text.parse::<i32>().ok(), "{}", text);
    }
}
