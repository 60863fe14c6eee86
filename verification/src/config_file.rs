//! The configuration record: installed versions, installed channels, the
//! default channel and the global options.

use crate::error::EngineError;
use crate::string_map::StringMap;
use vstd::prelude::*;

verus! {

/// Where an installed version lives, relative to the home directory.
#[derive(Clone, Debug)]
pub struct JuliaupConfigVersion {
    pub path: String,
}

impl View for JuliaupConfigVersion {
    type V = Seq<char>;

    /// The relative install path.
    open spec fn view(&self) -> Seq<char> {
        self.path@
    }
}

/// What a channel points at.
#[derive(Clone, Debug)]
pub enum JuliaupConfigChannel {
    /// A version that this engine installed.
    SystemChannel { version: String },
    /// An executable that somebody else manages.
    LinkedChannel { command: String, args: Option<Vec<String>> },
}

/// The characters of each string of a list.
pub open spec fn strings_view(strings: Seq<String>) -> Seq<Seq<char>> {
    Seq::new(strings.len(), |i: int| strings[i]@)
}

/// The characters of an optional string.
pub open spec fn option_view(s: Option<String>) -> Option<Seq<char>> {
    match s {
        Some(s) => Some(s@),
        None => None,
    }
}

/// The mathematical content of a channel.
pub ghost enum ChannelView {
    System { version: Seq<char> },
    Linked { command: Seq<char>, args: Option<Seq<Seq<char>>> },
}

impl View for JuliaupConfigChannel {
    type V = ChannelView;

    open spec fn view(&self) -> ChannelView {
        match self {
            JuliaupConfigChannel::SystemChannel { version } => ChannelView::System {
                version: version@,
            },
            JuliaupConfigChannel::LinkedChannel { command, args } => ChannelView::Linked {
                command: command@,
                args: match args {
                    Some(list) => Some(strings_view(list@)),
                    None => None,
                },
            },
        }
    }
}

/// The whole record.
#[derive(Clone, Debug)]
pub struct JuliaupConfig {
    pub default: Option<String>,
    pub installed_versions: StringMap<JuliaupConfigVersion>,
    pub installed_channels: StringMap<JuliaupConfigChannel>,
    pub juliaup_channel: Option<String>,
    pub create_symlinks: bool,
}

/// The mathematical content of a record.
pub ghost struct ConfigView {
    /// The default channel's name.
    pub default: Option<Seq<char>>,
    /// Version identifier to relative install path.
    pub installed_versions: Map<Seq<char>, Seq<char>>,
    /// The version identifiers in the order in which they were registered.
    pub version_order: Seq<Seq<char>>,
    /// Channel name to channel.
    pub installed_channels: Map<Seq<char>, ChannelView>,
    /// The channel names in the order in which they were added.
    pub channel_order: Seq<Seq<char>>,
    /// The channel that the tool itself follows.
    pub juliaup_channel: Option<Seq<char>>,
    /// Whether aliases are created for channels.
    pub create_symlinks: bool,
}

impl View for JuliaupConfig {
    type V = ConfigView;

    open spec fn view(&self) -> ConfigView {
        ConfigView {
            default: option_view(self.default),
            installed_versions: self.installed_versions@,
            version_order: self.installed_versions.key_order(),
            installed_channels: self.installed_channels@,
            channel_order: self.installed_channels.key_order(),
            juliaup_channel: option_view(self.juliaup_channel),
            create_symlinks: self.create_symlinks,
        }
    }
}

/// The record of a fresh start: nothing installed, no default, options off.
pub open spec fn empty_config() -> ConfigView {
    ConfigView {
        default: None,
        installed_versions: Map::empty(),
        version_order: Seq::empty(),
        installed_channels: Map::empty(),
        channel_order: Seq::empty(),
        juliaup_channel: None,
        create_symlinks: false,
    }
}

impl JuliaupConfig {
    /// The record of a fresh start.
    pub fn new() -> (config: Self)
        ensures
            config@ == empty_config(),
    {
        JuliaupConfig {
            default: None,
            installed_versions: StringMap::new(),
            installed_channels: StringMap::new(),
            juliaup_channel: None,
            create_symlinks: false,
        }
    }
}

/// What reading the record's file gave.
#[derive(Clone, Debug)]
pub enum ConfigRead {
    /// There is no file.
    Missing,
    /// The file is there but could not be opened or read.
    Unreadable,
    /// The file was read but is no record.
    Corrupt,
    /// The file holds this record.
    Parsed(JuliaupConfig),
}

/// Turns what reading the file gave into the record to work on.
///
/// A missing file is a fresh start and gives the empty record.  A file that
/// cannot be opened gives `ConfigIO`, one that cannot be parsed gives
/// `ConfigCorrupt`; a parsed record is handed on as it is.
pub fn load_config_db(read: ConfigRead) -> (r: Result<JuliaupConfig, EngineError>)
    ensures
        match read {
            ConfigRead::Missing => r.is_ok() && r.unwrap()@ == empty_config(),
            ConfigRead::Unreadable => r == Err::<JuliaupConfig, EngineError>(
                EngineError::ConfigIO,
            ),
            ConfigRead::Corrupt => r == Err::<JuliaupConfig, EngineError>(
                EngineError::ConfigCorrupt,
            ),
            ConfigRead::Parsed(config) => r == Ok::<JuliaupConfig, EngineError>(config),
        },
{
    match read {
        ConfigRead::Missing => Ok(JuliaupConfig::new()),
        ConfigRead::Unreadable => Err(EngineError::ConfigIO),
        ConfigRead::Corrupt => Err(EngineError::ConfigCorrupt),
        ConfigRead::Parsed(config) => Ok(config),
    }
}

} // verus!
