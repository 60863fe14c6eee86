//! Adding a channel of the catalog to the record.

use crate::config_file::{ChannelView, ConfigView, JuliaupConfig, JuliaupConfigChannel};
use crate::error::EngineError;
use crate::operations::{
    channels_registered, install_effect, install_folder, install_outcome, install_version, prefixed_name, AliasRequest,
    AliasView, InstallStep, InstallStepView,
};
use crate::versions_db::{CatalogView, JuliaupVersionDB};
use vstd::prelude::*;

verus! {

/// What the caller of an add command has to do next.
#[derive(Clone, Debug)]
pub enum AddStep {
    /// Download the archive at `url` and unpack it into `folder`, then call
    /// again and say that it was extracted.
    Fetch { url: String, folder: String },
    /// The channel is in the record: save it.  Where aliases are enabled,
    /// `alias` is the one to create afterwards.
    Added { alias: Option<AliasRequest> },
}

/// The mathematical content of an add step.
pub ghost enum AddStepView {
    Fetch { url: Seq<char>, folder: Seq<char> },
    Added { alias: Option<AliasView> },
}

impl View for AddStep {
    type V = AddStepView;

    open spec fn view(&self) -> AddStepView {
        match self {
            AddStep::Fetch { url, folder } => AddStepView::Fetch { url: url@, folder: folder@ },
            AddStep::Added { alias } => AddStepView::Added {
                alias: match alias {
                    Some(request) => Some(request@),
                    None => None,
                },
            },
        }
    }
}

/// The view of a step or the error in its place.
pub open spec fn add_result_view(r: Result<AddStep, EngineError>) -> Result<
    AddStepView,
    EngineError,
> {
    match r {
        Ok(step) => Ok(step@),
        Err(e) => Err(e),
    }
}

/// What adding `channel` answers.  The catalog must list the channel and
/// the record must not hold it yet; then the catalog's version is installed
/// and the channel is added.
pub open spec fn add_outcome(
    channel: Seq<char>,
    config: ConfigView,
    db: CatalogView,
    extracted: bool,
) -> Result<AddStepView, EngineError> {
    if !db.available_channels.contains_key(channel) {
        Err(EngineError::CatalogChannelMissing)
    } else if config.installed_channels.contains_key(channel) {
        Err(EngineError::ChannelAlreadyInstalled)
    } else {
        let target = db.available_channels[channel];
        match install_outcome(target, config, db, extracted) {
            Err(e) => Err(e),
            Ok(InstallStepView::Fetch { url, folder }) => Ok(AddStepView::Fetch { url, folder }),
            Ok(InstallStepView::Done) => Ok(
                AddStepView::Added {
                    alias: if config.create_symlinks {
                        Some(AliasView { version: target, name: install_folder(channel) })
                    } else {
                        None
                    },
                },
            ),
        }
    }
}

/// The record after adding `channel`.  It changes only where the answer is
/// `Added`: the catalog's version is registered, the channel points at it,
/// and a record without a default gets this channel as its default.
pub open spec fn add_effect(
    channel: Seq<char>,
    config: ConfigView,
    db: CatalogView,
    extracted: bool,
) -> ConfigView {
    match add_outcome(channel, config, db, extracted) {
        Ok(AddStepView::Added { .. }) => {
            let target = db.available_channels[channel];
            let installed = install_effect(target, config, db, extracted);
            ConfigView {
                installed_channels: installed.installed_channels.insert(
                    channel,
                    ChannelView::System { version: target },
                ),
                channel_order: installed.channel_order.push(channel),
                default: if config.default is None {
                    Some(channel)
                } else {
                    config.default
                },
                ..installed
            }
        },
        _ => config,
    }
}

/// Adding a channel keeps the rule that every system channel points at a
/// registered version, and names a default where there was none.
pub proof fn lemma_add_keeps_registered(
    channel: Seq<char>,
    config: ConfigView,
    db: CatalogView,
    extracted: bool,
)
    requires
        channels_registered(config),
    ensures
        channels_registered(add_effect(channel, config, db, extracted)),
        add_outcome(channel, config, db, extracted) matches Ok(AddStepView::Added { .. })
            ==> add_effect(channel, config, db, extracted).default is Some,
{
    let after = add_effect(channel, config, db, extracted);
    assert forall|name: Seq<char>, target: Seq<char>|
        after.installed_channels.contains_key(name) && #[trigger] after.installed_channels[name]
            == (ChannelView::System {
            version: target,
        }) implies #[trigger] after.installed_versions.contains_key(target) by {
        if name != channel || after == config {
            assert(config.installed_channels.contains_key(name));
            assert(config.installed_channels[name] == (ChannelView::System { version: target }));
            assert(config.installed_versions.contains_key(target));
        }
    }
}

/// Adds `channel` to the record as a system channel on the version that
/// the catalog lists for it.
///
/// A first call passes `extracted` as false.  Where the answer is `Fetch`,
/// the caller downloads and unpacks the archive and calls again with
/// `extracted` set; the record changes only in that second call.
pub fn run_command_add(
    channel: String,
    config_data: &mut JuliaupConfig,
    version_db: &JuliaupVersionDB,
    extracted: bool,
) -> (r: Result<AddStep, EngineError>)
    ensures
        add_result_view(r) == add_outcome(channel@, old(config_data)@, version_db@, extracted),
        final(config_data)@ == add_effect(channel@, old(config_data)@, version_db@, extracted),
{
    let required_version = match version_db.available_channels.get(&channel) {
        None => {
            return Err(EngineError::CatalogChannelMissing);
        },
        Some(entry) => entry.version.clone(),
    };
    if config_data.installed_channels.contains_key(&channel) {
        return Err(EngineError::ChannelAlreadyInstalled);
    }
    match install_version(&required_version, config_data, version_db, extracted) {
        Err(e) => Err(e),
        Ok(InstallStep::Fetch { url, folder }) => Ok(AddStep::Fetch { url, folder }),
        Ok(InstallStep::Done) => {
            config_data.installed_channels.insert(
                channel.clone(),
                JuliaupConfigChannel::SystemChannel { version: required_version.clone() },
            );
            let name = prefixed_name(&channel);
            if config_data.default.is_none() {
                config_data.default = Some(channel);
            }
            let alias = if config_data.create_symlinks {
                Some(AliasRequest { version: required_version, name })
            } else {
                None
            };
            Ok(AddStep::Added { alias })
        },
    }
}

} // verus!
