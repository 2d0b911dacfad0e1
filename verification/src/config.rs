//! Which config file to read, and what to do when that fails.
//!
//! File names are the bytes that the system knows them by.

use vstd::prelude::*;

use crate::settings::FileConfig;

verus! {

/// Where the config file stands below the directory for config files.
pub open spec fn below_xdg() -> Seq<u8> {
    vstd::utf8::encode_utf8("hyper-loader/config.toml"@)
}

/// Where it stands below the home directory.
pub open spec fn below_home() -> Seq<u8> {
    vstd::utf8::encode_utf8(".config/hyper-loader/config.toml"@)
}

/// A relative file name taken from a directory, with a slash between them unless the directory
/// is empty or ends in one.
pub open spec fn joined(directory: Seq<u8>, name: Seq<u8>) -> Seq<u8> {
    if directory.len() == 0 || directory.last() == 0x2f {
        directory + name
    } else {
        directory.push(0x2f) + name
    }
}

fn join(directory: Vec<u8>, name: &[u8]) -> (path: Vec<u8>)
    ensures
        path@ == joined(directory@, name@),
{
    let mut path = directory;
    if path.len() > 0 && path[path.len() - 1] != 0x2f {
        path.push(0x2f);
    }
    path.extend_from_slice(name);
    assert(path@ =~= joined(directory@, name@));
    path
}

/// The default config file, from what the environment says of `XDG_CONFIG_HOME` and `HOME`.
/// The first counts unless it is empty.
pub open spec fn default_path(xdg: Option<Seq<u8>>, home: Option<Seq<u8>>) -> Option<Seq<u8>> {
    match xdg {
        Some(directory) if directory.len() > 0 => Some(joined(directory, below_xdg())),
        _ => match home {
            Some(directory) => Some(joined(directory, below_home())),
            None => None,
        },
    }
}

/// Finds the default config file.
pub fn default_config_path(xdg: Option<Vec<u8>>, home: Option<Vec<u8>>) -> (path: Option<Vec<u8>>)
    ensures
        crate::settings::name_in(path) == default_path(
            crate::settings::name_in(xdg),
            crate::settings::name_in(home),
        ),
{
    if let Some(directory) = xdg {
        if directory.len() > 0 {
            return Some(join(directory, "hyper-loader/config.toml".as_bytes()));
        }
    }
    match home {
        Some(directory) => Some(join(directory, ".config/hyper-loader/config.toml".as_bytes())),
        None => None,
    }
}

/// A config file to read.
#[derive(Debug)]
pub struct ConfigSource {
    pub path: Vec<u8>,
    /// It was asked for by name.
    pub explicit: bool,
}

/// The config file to read and whether it was asked for by name: the one that is asked for, else
/// the default one, if any.
pub open spec fn chosen(
    explicit_path: Option<Seq<u8>>,
    xdg: Option<Seq<u8>>,
    home: Option<Seq<u8>>,
) -> Option<(Seq<u8>, bool)> {
    match explicit_path {
        Some(path) => Some((path, true)),
        None => match default_path(xdg, home) {
            Some(path) => Some((path, false)),
            None => None,
        },
    }
}

/// Finds the config file to read: the one that is asked for, else the default one, if any.
pub fn config_source(
    explicit_path: Option<Vec<u8>>,
    xdg: Option<Vec<u8>>,
    home: Option<Vec<u8>>,
) -> (source: Option<ConfigSource>)
    ensures
        match source {
            Some(s) => Some((s.path@, s.explicit)),
            None => None,
        } == chosen(
            crate::settings::name_in(explicit_path),
            crate::settings::name_in(xdg),
            crate::settings::name_in(home),
        ),
        explicit_path matches Some(path) ==> source matches Some(s) && s.path == path,
{
    match explicit_path {
        Some(path) => Some(ConfigSource { path, explicit: true }),
        None => match default_config_path(xdg, home) {
            Some(path) => Some(ConfigSource { path, explicit: false }),
            None => None,
        },
    }
}

/// What came of reading a config file.
#[derive(Debug)]
pub enum ConfigRead {
    /// The file could not be read.
    Unreadable,
    /// It was read but is no config.
    Malformed,
    /// It holds this config.
    Parsed(FileConfig),
}

/// What to tell the user of a config file.
#[derive(Clone, Copy, Debug, PartialEq, Eq, Structural)]
pub enum ConfigNotice {
    NotFound,
    Malformed,
}

/// This is the config to go on with, and what to tell the user.
pub open spec fn settles(
    explicit: bool,
    read: ConfigRead,
    config: FileConfig,
    notice: Option<ConfigNotice>,
) -> bool {
    match read {
        ConfigRead::Parsed(parsed) => config == parsed && notice is None,
        ConfigRead::Malformed => config.is_empty() && notice == Some(ConfigNotice::Malformed),
        ConfigRead::Unreadable => config.is_empty() && notice == (if explicit {
            Some(ConfigNotice::NotFound)
        } else {
            None
        }),
    }
}

/// The config to go on with, and what to tell the user. Without a config that could be read and
/// understood nothing is set. A file that is missing is worth a word only if it was asked for by
/// name; one that cannot be understood always is.
pub fn load_config(explicit: bool, read: ConfigRead) -> (res: (FileConfig, Option<ConfigNotice>))
    ensures
        settles(explicit, read, res.0, res.1),
{
    match read {
        ConfigRead::Parsed(config) => (config, None),
        ConfigRead::Malformed => (FileConfig::default(), Some(ConfigNotice::Malformed)),
        ConfigRead::Unreadable => {
            if explicit {
                (FileConfig::default(), Some(ConfigNotice::NotFound))
            } else {
                (FileConfig::default(), None)
            }
        },
    }
}

/// A config that could be read and understood is used as it is; otherwise nothing is set.
pub proof fn lemma_config_that_is_read_is_used(
    explicit: bool,
    read: ConfigRead,
    config: FileConfig,
    notice: Option<ConfigNotice>,
)
    requires
        settles(explicit, read, config, notice),
    ensures
        read matches ConfigRead::Parsed(parsed) ==> config == parsed,
        !(read is Parsed) ==> config.is_empty(),
{
}

/// The user is told that a file is missing if and only if it was asked for by name and could not
/// be read, and that a file is malformed if and only if it is.
pub proof fn lemma_when_the_user_is_told(
    explicit: bool,
    read: ConfigRead,
    config: FileConfig,
    notice: Option<ConfigNotice>,
)
    requires
        settles(explicit, read, config, notice),
    ensures
        notice == Some(ConfigNotice::NotFound) <==> explicit && read is Unreadable,
        notice == Some(ConfigNotice::Malformed) <==> read is Malformed,
{
}

/// A file that is asked for by name is the one to read, whatever the environment says; without
/// one it is the default one, and that was not asked for.
pub proof fn lemma_asked_for_goes_first(
    explicit_path: Option<Seq<u8>>,
    xdg: Option<Seq<u8>>,
    home: Option<Seq<u8>>,
)
    ensures
        explicit_path matches Some(path) ==> chosen(explicit_path, xdg, home) == Some((path, true)),
        explicit_path is None ==> (default_path(xdg, home) matches Some(path) ==> chosen(
            explicit_path,
            xdg,
            home,
        ) == Some((path, false))),
        explicit_path is None && default_path(xdg, home) is None ==> chosen(
            explicit_path,
            xdg,
            home,
        ) is None,
{
}

/// A directory for config files that is set and not empty is where the default file is, whatever
/// the home directory; one that is not set, or empty, leaves it to the home directory.
pub proof fn lemma_where_the_default_is(directory: Seq<u8>, xdg: Option<Seq<u8>>, other: Option<Seq<u8>>)
    requires
        xdg is None || xdg->0.len() == 0,
    ensures
        directory.len() > 0 ==> default_path(Some(directory), other) == Some(
            slashed(directory) + vstd::utf8::encode_utf8("hyper-loader/config.toml"@),
        ),
        default_path(xdg, Some(directory)) == Some(
            slashed(directory) + vstd::utf8::encode_utf8(".config/hyper-loader/config.toml"@),
        ),
        default_path(xdg, None) is None,
{
}

/// The directory with a slash behind it, unless it is empty or ends in one.
pub open spec fn slashed(directory: Seq<u8>) -> Seq<u8> {
    if directory.len() > 0 && directory[directory.len() - 1] != 0x2f {
        directory + seq![0x2fu8]
    } else {
        directory
    }
}

} // verus!
