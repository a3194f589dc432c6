//! The configuration of a repository: ini-style sections of key and value
//! pairs, kept by the `ini` crate.

use crate::decimal::{parse_i32, parsed_i32};
use crate::filesystem::{content_at, FileSystem, RecordView};
use crate::scan::{lemma_filter_all, lemma_run_length, run_length};
use vstd::prelude::*;
use vstd::slice::slice_subrange;

verus! {

/// `ini::Ini`, the sections of a configuration as the `ini` crate keeps
/// them. Nothing inside it is visible here; `ini_sections` names what it
/// holds.
#[verifier::external_type_specification]
#[verifier::external_body]
pub struct ExIni(ini::Ini);

/// `ini::Error`, the reason for which the `ini` crate could not read a
/// configuration. It is carried through and never looked into.
#[verifier::external_type_specification]
#[verifier::external_body]
pub struct ExIniError(ini::Error);

/// What an `Ini` holds: its sections in the order in which it walks them,
/// each with its name (none for the general section) and its pairs of key
/// and value in the order in which the section walks them.
pub uninterp spec fn ini_sections(conf: ini::Ini) -> Seq<
    (Option<Seq<char>>, Seq<(Seq<char>, Seq<char>)>),
>;

/// The text that `Ini::write_to_opt` writes for the given sections with line
/// feeds between the lines, or nothing where it gives up.
pub uninterp spec fn ini_text(
    sections: Seq<(Option<Seq<char>>, Seq<(Seq<char>, Seq<char>)>)>,
) -> Option<Seq<u8>>;

/// The sections that `Ini::read_from` reads out of the given bytes, or
/// nothing where it rejects them.
pub uninterp spec fn ini_parsed(text: Seq<u8>) -> Option<
    Seq<(Option<Seq<char>>, Seq<(Seq<char>, Seq<char>)>)>,
>;

/// The test that a section is called `name`.
pub open spec fn is_named(name: Option<Seq<char>>) -> spec_fn(
    (Option<Seq<char>>, Seq<(Seq<char>, Seq<char>)>),
) -> bool {
    |s: (Option<Seq<char>>, Seq<(Seq<char>, Seq<char>)>)| s.0 == name
}

/// The test that a pair has the key `key`.
pub open spec fn has_key(key: Seq<char>) -> spec_fn((Seq<char>, Seq<char>)) -> bool {
    |p: (Seq<char>, Seq<char>)| p.0 == key
}

/// The test that a pair has another key than `key`.
pub open spec fn has_other_key(key: Seq<char>) -> spec_fn((Seq<char>, Seq<char>)) -> bool {
    |p: (Seq<char>, Seq<char>)| p.0 != key
}

/// The index of the first section called `name`, or the number of sections
/// where there is none.
pub open spec fn section_index(
    sections: Seq<(Option<Seq<char>>, Seq<(Seq<char>, Seq<char>)>)>,
    name: Option<Seq<char>>,
) -> int {
    run_length(sections, is_named(name))
}

/// The index of the first pair with key `key`, or the number of pairs where
/// there is none.
pub open spec fn key_index(pairs: Seq<(Seq<char>, Seq<char>)>, key: Seq<char>) -> int {
    run_length(pairs, has_key(key))
}

/// The value that a lookup of `key` in the section `name` gives: that of the
/// first pair with this key in the first section of this name.
pub open spec fn lookup(
    sections: Seq<(Option<Seq<char>>, Seq<(Seq<char>, Seq<char>)>)>,
    name: Option<Seq<char>>,
    key: Seq<char>,
) -> Option<Seq<char>> {
    let i = section_index(sections, name);
    if 0 <= i < sections.len() {
        let pairs = sections[i].1;
        let j = key_index(pairs, key);
        if 0 <= j < pairs.len() {
            Some(pairs[j].1)
        } else {
            None
        }
    } else {
        None
    }
}

/// The pairs of a section after `key` was set to `value`: every earlier
/// pair with this key is gone and the new pair stands last.
pub open spec fn pairs_with(
    pairs: Seq<(Seq<char>, Seq<char>)>,
    key: Seq<char>,
    value: Seq<char>,
) -> Seq<(Seq<char>, Seq<char>)> {
    pairs.filter(has_other_key(key)).push((key, value))
}

/// The sections after `key` was set to `value` in the section `name`: the
/// first section of this name takes the pair, and where there is none a new
/// section with this one pair is added last.
pub open spec fn sections_with(
    sections: Seq<(Option<Seq<char>>, Seq<(Seq<char>, Seq<char>)>)>,
    name: Option<Seq<char>>,
    key: Seq<char>,
    value: Seq<char>,
) -> Seq<(Option<Seq<char>>, Seq<(Seq<char>, Seq<char>)>)> {
    let i = section_index(sections, name);
    if 0 <= i < sections.len() {
        sections.update(i, (name, pairs_with(sections[i].1, key, value)))
    } else {
        sections.push((name, seq![(key, value)]))
    }
}

/// `section_index` is the one index before which no section has the name
/// and at which the sections end or one has it.
pub proof fn lemma_section_index(
    sections: Seq<(Option<Seq<char>>, Seq<(Seq<char>, Seq<char>)>)>,
    name: Option<Seq<char>>,
    k: int,
)
    requires
        0 <= k <= sections.len(),
        forall|j: int| 0 <= j < k ==> (#[trigger] sections[j]).0 != name,
        k == sections.len() || sections[k].0 == name,
    ensures
        section_index(sections, name) == k,
{
    lemma_run_length(sections, is_named(name), k);
}

/// `key_index` is the one index before which no pair has the key and at
/// which the pairs end or one has it.
pub proof fn lemma_key_index(pairs: Seq<(Seq<char>, Seq<char>)>, key: Seq<char>, k: int)
    requires
        0 <= k <= pairs.len(),
        forall|j: int| 0 <= j < k ==> (#[trigger] pairs[j]).0 != key,
        k == pairs.len() || pairs[k].0 == key,
    ensures
        key_index(pairs, key) == k,
{
    lemma_run_length(pairs, has_key(key), k);
}

/// Setting a key that a section does not have yet adds the pair at its end.
pub proof fn lemma_pairs_with_new_key(
    pairs: Seq<(Seq<char>, Seq<char>)>,
    key: Seq<char>,
    value: Seq<char>,
)
    requires
        forall|j: int| 0 <= j < pairs.len() ==> (#[trigger] pairs[j]).0 != key,
    ensures
        pairs_with(pairs, key, value) == pairs.push((key, value)),
{
    lemma_filter_all(pairs, has_other_key(key));
}

/// `Ini::new`: the new value holds the general section, which is empty, and
/// no other.
#[verifier::external_body]
fn ini_new() -> (conf: ini::Ini)
    ensures
        ini_sections(conf) == seq![(None::<Seq<char>>, Seq::<(Seq<char>, Seq<char>)>::empty())],
{
    ini::Ini::new()
}

/// `Ini::with_section` and `SectionSetter::set`: the pair replaces every
/// pair of this key in the first section of this name and stands last in
/// it; a section that is not there yet is added last.
#[verifier::external_body]
fn ini_set(conf: &mut ini::Ini, section: &str, key: &str, value: &str)
    ensures
        ini_sections(*final(conf)) == sections_with(
            ini_sections(*old(conf)),
            Some(section@),
            key@,
            value@,
        ),
{
    conf.with_section(Some(section)).set(key, value);
}

/// `Ini::get_from`: the first value of `key` in the first section called
/// `section`.
#[verifier::external_body]
fn ini_get(conf: &ini::Ini, section: &str, key: &str) -> (value: Option<String>)
    ensures
        match value {
            Some(text) => lookup(ini_sections(*conf), Some(section@), key@) == Some(text@),
            None => lookup(ini_sections(*conf), Some(section@), key@) is None,
        },
{
    conf.get_from(Some(section), key).map(String::from)
}

/// `Ini::write_to_opt` into a vector, with the default options but for the
/// line separator, which is a line feed on every platform: the text is that
/// of the sections held.
#[verifier::external_body]
fn ini_write(conf: &ini::Ini) -> (text: Option<Vec<u8>>)
    ensures
        match text {
            Some(bytes) => ini_text(ini_sections(*conf)) == Some(bytes@),
            None => ini_text(ini_sections(*conf)) is None,
        },
{
    let options = ini::WriteOption { line_separator: ini::LineSeparator::CR, ..Default::default() };
    let mut text: Vec<u8> = Vec::new();
    match conf.write_to_opt(&mut text, options) {
        Ok(()) => Some(text),
        Err(_) => None,
    }
}

/// `Ini::read_from` on a byte slice: the value read holds the sections that
/// the bytes spell.
#[verifier::external_body]
fn ini_read(text: &[u8]) -> (conf: Result<ini::Ini, ini::Error>)
    ensures
        match conf {
            Ok(read) => ini_parsed(text@) == Some(ini_sections(read)),
            Err(_) => ini_parsed(text@) is None,
        },
{
    let mut reader = text;
    ini::Ini::read_from(&mut reader)
}

/// Why a configuration could not be had or used.
#[derive(Debug, Clone, Copy, PartialEq, Eq, Structural)]
pub enum ConfigError {
    /// No file stands where the configuration was looked for.
    Missing,
    /// The file is no ini text.
    Malformed,
    /// The configuration has no format version.
    VersionMissing,
    /// The format version is no number.
    VersionMalformed,
}

/// The name of the section that every repository's configuration has.
pub open spec fn core_section() -> Seq<char> {
    "core"@
}

/// The key of the format version.
pub open spec fn version_key() -> Seq<char> {
    "repositoryformatversion"@
}

/// The sections of the configuration that a new repository gets: the empty
/// general section and `core` with its three keys.
pub open spec fn default_sections() -> Seq<(Option<Seq<char>>, Seq<(Seq<char>, Seq<char>)>)> {
    seq![
        (None, Seq::empty()),
        (
            Some(core_section()),
            seq![(version_key(), "0"@), ("filemode"@, "false"@), ("bare"@, "false"@)],
        ),
    ]
}

/// The format version that a configuration states: the number under the
/// version key of `core`.
pub open spec fn version_of(
    sections: Seq<(Option<Seq<char>>, Seq<(Seq<char>, Seq<char>)>)>,
) -> Result<i32, ConfigError> {
    match lookup(sections, Some(core_section()), version_key()) {
        None => Err(ConfigError::VersionMissing),
        Some(text) => match parsed_i32(text) {
            None => Err(ConfigError::VersionMalformed),
            Some(version) => Ok(version),
        },
    }
}

/// The configuration of a new repository states the format version 0.
pub proof fn lemma_default_version()
    ensures
        version_of(default_sections()) == Ok::<i32, ConfigError>(0),
{
    let sections = default_sections();
    let pairs = sections[1].1;
    lemma_section_index(sections, Some(core_section()), 1);
    lemma_key_index(pairs, version_key(), 0);
    reveal_strlit("0");
    let text = "0"@;
    assert(text.len() == 1);
    assert(text.drop_last().len() == 0);
    assert(crate::decimal::decimal_value(text) == 0) by {
        reveal_with_fuel(crate::decimal::decimal_value, 2);
    }
}

/// The three bytes that may stand before the text of a file and are no part
/// of it.
pub open spec fn has_bom(bytes: Seq<u8>) -> bool {
    bytes.len() >= 3 && bytes[0] == 0xEF && bytes[1] == 0xBB && bytes[2] == 0xBF
}

/// The text of a file: its bytes without a byte-order mark at the start.
pub open spec fn without_bom(bytes: Seq<u8>) -> Seq<u8> {
    if has_bom(bytes) {
        bytes.skip(3)
    } else {
        bytes
    }
}

/// The sections that the bytes of a configuration file spell.
pub open spec fn parsed_file(bytes: Seq<u8>) -> Option<
    Seq<(Option<Seq<char>>, Seq<(Seq<char>, Seq<char>)>)>,
> {
    ini_parsed(without_bom(bytes))
}

/// A configuration.
#[derive(Debug)]
pub struct Config {
    conf: ini::Ini,
}

impl View for Config {
    type V = Seq<(Option<Seq<char>>, Seq<(Seq<char>, Seq<char>)>)>;

    closed spec fn view(&self) -> Self::V {
        ini_sections(self.conf)
    }
}

/// The configuration that a new repository gets.
pub fn repo_default_config() -> (config: Config)
    ensures
        config@ == default_sections(),
{
    let mut conf = ini_new();
    let ghost s0 = ini_sections(conf);
    ini_set(&mut conf, "core", "repositoryformatversion", "0");
    let ghost s1 = ini_sections(conf);
    ini_set(&mut conf, "core", "filemode", "false");
    let ghost s2 = ini_sections(conf);
    ini_set(&mut conf, "core", "bare", "false");
    proof {
        reveal_strlit("repositoryformatversion");
        reveal_strlit("filemode");
        reveal_strlit("bare");
        let core = Some("core"@);
        let general = (None::<Seq<char>>, Seq::<(Seq<char>, Seq<char>)>::empty());
        let first = seq![("repositoryformatversion"@, "0"@)];
        let second = first.push(("filemode"@, "false"@));
        let third = second.push(("bare"@, "false"@));
        assert("repositoryformatversion"@.len() == 23);
        assert("filemode"@.len() == 8);
        assert("bare"@.len() == 4);
        assert(first[0].0 == "repositoryformatversion"@);
        assert(second[0].0 == "repositoryformatversion"@ && second[1].0 == "filemode"@);
        lemma_section_index(s0, core, 1);
        assert(s1 == seq![general, (core, first)]);
        lemma_section_index(s1, core, 1);
        lemma_pairs_with_new_key(first, "filemode"@, "false"@);
        assert(s2 == seq![general, (core, second)]);
        lemma_section_index(s2, core, 1);
        lemma_pairs_with_new_key(second, "bare"@, "false"@);
        assert(ini_sections(conf) == seq![general, (core, third)]);
        assert(third == seq![(version_key(), "0"@), ("filemode"@, "false"@), ("bare"@, "false"@)]);
    }
    Config { conf }
}

impl Default for Config {
    fn default() -> (config: Config)
        ensures
            config@ == default_sections(),
    {
        repo_default_config()
    }
}

impl Config {
    /// The value of `key` in the section `section`.
    pub fn get(&self, section: &str, key: &str) -> (value: Option<String>)
        ensures
            match value {
                Some(text) => lookup(self@, Some(section@), key@) == Some(text@),
                None => lookup(self@, Some(section@), key@) is None,
            },
    {
        ini_get(&self.conf, section, key)
    }

    /// The format version that the configuration states.
    pub fn version(&self) -> (version: Result<i32, ConfigError>)
        ensures
            version == version_of(self@),
    {
        match self.get("core", "repositoryformatversion") {
            None => Err(ConfigError::VersionMissing),
            Some(text) => match parse_i32(text.as_str()) {
                None => Err(ConfigError::VersionMalformed),
                Some(version) => Ok(version),
            },
        }
    }

    /// The text of the configuration as it is written to a file.
    pub fn serialize(&self) -> (text: Option<Vec<u8>>)
        ensures
            match text {
                Some(bytes) => ini_text(self@) == Some(bytes@),
                None => ini_text(self@) is None,
            },
    {
        ini_write(&self.conf)
    }

    /// Reads a configuration out of the bytes of a file.
    pub fn parse(bytes: &[u8]) -> (config: Result<Config, ConfigError>)
        ensures
            match config {
                Ok(read) => parsed_file(bytes@) == Some(read@),
                Err(e) => e == ConfigError::Malformed && parsed_file(bytes@) is None,
            },
    {
        let text = if bytes.len() >= 3 && bytes[0] == 0xEF && bytes[1] == 0xBB && bytes[2] == 0xBF {
            slice_subrange(bytes, 3, bytes.len())
        } else {
            bytes
        };
        assert(text@ == without_bom(bytes@));
        match ini_read(text) {
            Ok(conf) => Ok(Config { conf }),
            Err(_) => Err(ConfigError::Malformed),
        }
    }

    /// Loads the configuration from the file at `path`.
    pub fn load(fs: &FileSystem, path: &Vec<String>) -> (config: Result<Config, ConfigError>)
        ensures
            match config {
                Ok(read) => loaded(fs@, path.deep_view()) == Ok::<_, ConfigError>(read@),
                Err(e) => loaded(fs@, path.deep_view()) == Err::<Seq<(Option<Seq<char>>, Seq<(Seq<char>, Seq<char>)>)>, _>(e),
            },
    {
        match fs.read(path) {
            None => Err(ConfigError::Missing),
            Some(bytes) => Config::parse(bytes.as_slice()),
        }
    }
}

/// What loading the configuration from the file at `path` gives: the
/// sections that its bytes spell, or why there are none.
pub open spec fn loaded(log: Seq<RecordView>, path: Seq<Seq<char>>) -> Result<
    Seq<(Option<Seq<char>>, Seq<(Seq<char>, Seq<char>)>)>,
    ConfigError,
> {
    match content_at(log, path) {
        None => Err(ConfigError::Missing),
        Some(bytes) => match parsed_file(bytes) {
            None => Err(ConfigError::Malformed),
            Some(sections) => Ok(sections),
        },
    }
}

} // verus!
