//! Bringing one channel, or all of them, up to what the catalog lists.

use crate::config_file::{
    strings_view, ChannelView, ConfigView, JuliaupConfig, JuliaupConfigChannel,
};
use crate::error::EngineError;
use crate::operations::{
    channels_registered, collected, dead_versions, garbage_collect_versions, install_effect, install_folder,
    install_outcome, install_version, prefixed_name, removed_ids, AliasRequest, AliasView,
    InstallStep, InstallStepView, RemovedVersion,
};
use crate::versions_db::{CatalogView, JuliaupVersionDB};
use vstd::prelude::*;

verus! {

/// What became of a channel, or what the caller has to do for it next.
#[derive(Clone, Debug)]
pub enum UpdateStep {
    /// The channel is as it was: it is up to date, or linked and skipped.
    Unchanged,
    /// Download the archive at `url` and unpack it into `folder`, then ask
    /// again and say that it was extracted.
    Fetch { url: String, folder: String },
    /// The channel points at the catalog's version now.  Where aliases are
    /// enabled, `alias` is the one to refresh.
    Updated { alias: Option<AliasRequest> },
}

/// The mathematical content of an update step.
pub ghost enum UpdateStepView {
    Unchanged,
    Fetch { url: Seq<char>, folder: Seq<char> },
    Updated { alias: Option<AliasView> },
}

impl View for UpdateStep {
    type V = UpdateStepView;

    open spec fn view(&self) -> UpdateStepView {
        match self {
            UpdateStep::Unchanged => UpdateStepView::Unchanged,
            UpdateStep::Fetch { url, folder } => UpdateStepView::Fetch {
                url: url@,
                folder: folder@,
            },
            UpdateStep::Updated { alias } => UpdateStepView::Updated {
                alias: match alias {
                    Some(request) => Some(request@),
                    None => None,
                },
            },
        }
    }
}

/// The view of a step or the error in its place.
pub open spec fn update_result_view(r: Result<UpdateStep, EngineError>) -> Result<
    UpdateStepView,
    EngineError,
> {
    match r {
        Ok(step) => Ok(step@),
        Err(e) => Err(e),
    }
}

/// What an update of `channel` answers.
///
/// A channel that is not installed is an error.  A linked channel is
/// skipped where `ignore_linked` is set and an error where it is not.  A
/// system channel must be listed by the catalog; where it already points at
/// the catalog's version nothing happens, otherwise that version is
/// installed and the channel is moved to it.
pub open spec fn update_outcome(
    channel: Seq<char>,
    config: ConfigView,
    db: CatalogView,
    ignore_linked: bool,
    extracted: bool,
) -> Result<UpdateStepView, EngineError> {
    if !config.installed_channels.contains_key(channel) {
        Err(EngineError::ChannelNotInstalled)
    } else {
        match config.installed_channels[channel] {
            ChannelView::Linked { .. } => if ignore_linked {
                Ok(UpdateStepView::Unchanged)
            } else {
                Err(EngineError::LinkedChannelImmutable)
            },
            ChannelView::System { version } => if !db.available_channels.contains_key(channel) {
                Err(EngineError::CatalogChannelMissing)
            } else if db.available_channels[channel] == version {
                Ok(UpdateStepView::Unchanged)
            } else {
                let target = db.available_channels[channel];
                match install_outcome(target, config, db, extracted) {
                    Err(e) => Err(e),
                    Ok(InstallStepView::Fetch { url, folder }) => Ok(
                        UpdateStepView::Fetch { url, folder },
                    ),
                    Ok(InstallStepView::Done) => Ok(
                        UpdateStepView::Updated {
                            alias: if config.create_symlinks {
                                Some(AliasView { version: target, name: install_folder(channel) })
                            } else {
                                None
                            },
                        },
                    ),
                }
            },
        }
    }
}

/// The record after an update of `channel`.  It changes only where the
/// answer is `Updated`: the catalog's version is registered and the channel
/// points at it.
pub open spec fn update_effect(
    channel: Seq<char>,
    config: ConfigView,
    db: CatalogView,
    ignore_linked: bool,
    extracted: bool,
) -> ConfigView {
    match update_outcome(channel, config, db, ignore_linked, extracted) {
        Ok(UpdateStepView::Updated { .. }) => {
            let target = db.available_channels[channel];
            let installed = install_effect(target, config, db, extracted);
            ConfigView {
                installed_channels: installed.installed_channels.insert(
                    channel,
                    ChannelView::System { version: target },
                ),
                ..installed
            }
        },
        _ => config,
    }
}

/// An update is a no-op where a system channel already points at the
/// version that the catalog lists for it: nothing is fetched, no alias is
/// refreshed and the record stays as it is.
pub proof fn lemma_update_noop(
    channel: Seq<char>,
    config: ConfigView,
    db: CatalogView,
    ignore_linked: bool,
    extracted: bool,
)
    requires
        config.installed_channels.contains_key(channel),
        db.available_channels.contains_key(channel),
        config.installed_channels[channel] == (ChannelView::System {
            version: db.available_channels[channel],
        }),
    ensures
        update_outcome(channel, config, db, ignore_linked, extracted) == Ok::<
            UpdateStepView,
            EngineError,
        >(UpdateStepView::Unchanged),
        update_effect(channel, config, db, ignore_linked, extracted) == config,
{
}

/// Linked channels are protected: an update of a linked channel by name
/// fails with `LinkedChannelImmutable`, an update that skips linked
/// channels passes over it, and neither changes the record.
pub proof fn lemma_linked_protected(
    channel: Seq<char>,
    config: ConfigView,
    db: CatalogView,
    extracted: bool,
)
    requires
        config.installed_channels.contains_key(channel),
        config.installed_channels[channel] is Linked,
    ensures
        update_outcome(channel, config, db, false, extracted) == Err::<
            UpdateStepView,
            EngineError,
        >(EngineError::LinkedChannelImmutable),
        update_outcome(channel, config, db, true, extracted) == Ok::<UpdateStepView, EngineError>(
            UpdateStepView::Unchanged,
        ),
        update_effect(channel, config, db, false, extracted) == config,
        update_effect(channel, config, db, true, extracted) == config,
{
}

/// An update never touches a channel other than the one it was asked for,
/// and never takes a version out of the record.
pub proof fn lemma_update_keeps_others(
    channel: Seq<char>,
    config: ConfigView,
    db: CatalogView,
    ignore_linked: bool,
    extracted: bool,
)
    ensures
        forall|other: Seq<char>|
            other != channel ==> (#[trigger] update_effect(
                channel,
                config,
                db,
                ignore_linked,
                extracted,
            ).installed_channels.contains_key(other)) == config.installed_channels.contains_key(
                other,
            ),
        forall|other: Seq<char>|
            other != channel && config.installed_channels.contains_key(other)
                ==> #[trigger] update_effect(
                channel,
                config,
                db,
                ignore_linked,
                extracted,
            ).installed_channels[other] == config.installed_channels[other],
        forall|version: Seq<char>| #[trigger]
            config.installed_versions.contains_key(version) ==> update_effect(
                channel,
                config,
                db,
                ignore_linked,
                extracted,
            ).installed_versions.contains_key(version),
{
}

/// After an update that moved a channel, the version it points at is
/// registered: the install comes before the channel entry.
pub proof fn lemma_update_installs_first(
    channel: Seq<char>,
    config: ConfigView,
    db: CatalogView,
    ignore_linked: bool,
    extracted: bool,
)
    requires
        update_outcome(channel, config, db, ignore_linked, extracted) matches Ok(
            UpdateStepView::Updated { .. },
        ),
    ensures
        ({
            let after = update_effect(channel, config, db, ignore_linked, extracted);
            &&& after.installed_channels.contains_key(channel)
            &&& after.installed_channels[channel] == (ChannelView::System {
                version: db.available_channels[channel],
            })
            &&& after.installed_versions.contains_key(db.available_channels[channel])
        }),
{
}

/// An update keeps the rule that every system channel points at a
/// registered version.
pub proof fn lemma_update_keeps_registered(
    channel: Seq<char>,
    config: ConfigView,
    db: CatalogView,
    ignore_linked: bool,
    extracted: bool,
)
    requires
        channels_registered(config),
    ensures
        channels_registered(update_effect(channel, config, db, ignore_linked, extracted)),
{
    let after = update_effect(channel, config, db, ignore_linked, extracted);
    assert forall|name: Seq<char>, target: Seq<char>|
        after.installed_channels.contains_key(name) && #[trigger] after.installed_channels[name]
            == (ChannelView::System {
            version: target,
        }) implies #[trigger] after.installed_versions.contains_key(target) by {
        if name != channel || after == config {
            assert(config.installed_channels.contains_key(name));
            assert(config.installed_channels[name] == (ChannelView::System { version: target }));
            assert(config.installed_versions.contains_key(target));
        }
    }
}

/// Brings `channel` up to the version that the catalog lists for it.
///
/// A first call passes `extracted` as false.  Where the answer is `Fetch`,
/// the caller downloads and unpacks the archive and calls again with
/// `extracted` set; the record changes only in that second call.
pub fn update_channel(
    config_db: &mut JuliaupConfig,
    channel: &String,
    version_db: &JuliaupVersionDB,
    ignore_linked_channel: bool,
    extracted: bool,
) -> (r: Result<UpdateStep, EngineError>)
    ensures
        update_result_view(r) == update_outcome(
            channel@,
            old(config_db)@,
            version_db@,
            ignore_linked_channel,
            extracted,
        ),
        final(config_db)@ == update_effect(
            channel@,
            old(config_db)@,
            version_db@,
            ignore_linked_channel,
            extracted,
        ),
{
    let current = match config_db.installed_channels.get(channel) {
        None => {
            return Err(EngineError::ChannelNotInstalled);
        },
        Some(JuliaupConfigChannel::LinkedChannel { .. }) => {
            if ignore_linked_channel {
                return Ok(UpdateStep::Unchanged);
            } else {
                return Err(EngineError::LinkedChannelImmutable);
            }
        },
        Some(JuliaupConfigChannel::SystemChannel { version }) => version.clone(),
    };
    let target = match version_db.available_channels.get(channel) {
        None => {
            return Err(EngineError::CatalogChannelMissing);
        },
        Some(entry) => entry.version.clone(),
    };
    if target == current {
        return Ok(UpdateStep::Unchanged);
    }
    match install_version(&target, config_db, version_db, extracted) {
        Err(e) => Err(e),
        Ok(InstallStep::Fetch { url, folder }) => Ok(UpdateStep::Fetch { url, folder }),
        Ok(InstallStep::Done) => {
            config_db.installed_channels.insert(
                channel.clone(),
                JuliaupConfigChannel::SystemChannel { version: target.clone() },
            );
            let alias = if config_db.create_symlinks {
                Some(AliasRequest { version: target, name: prefixed_name(channel) })
            } else {
                None
            };
            Ok(UpdateStep::Updated { alias })
        },
    }
}


/// Where an update command stands: the channels to visit, how many of them
/// are done, and whether linked channels are skipped.
#[derive(Clone, Debug)]
pub struct UpdateRun {
    pub channels: Vec<String>,
    pub next: usize,
    pub ignore_linked: bool,
}

/// Starts an update command.
///
/// Without a channel, every channel installed at this moment is visited, in
/// the order of the record, and linked channels are skipped.  With a
/// channel, only that one is visited and a linked channel is an error; a
/// channel that is not installed is refused at once.
pub fn begin_update(config_data: &JuliaupConfig, channel: Option<String>) -> (r: Result<
    UpdateRun,
    EngineError,
>)
    ensures
        match channel {
            None => r.is_ok() && r.unwrap().next == 0 && r.unwrap().ignore_linked
                && strings_view(r.unwrap().channels@) == config_data@.channel_order,
            Some(name) => if config_data@.installed_channels.contains_key(name@) {
                r.is_ok() && r.unwrap().next == 0 && !r.unwrap().ignore_linked
                    && r.unwrap().channels@.len() == 1 && r.unwrap().channels@[0]@ == name@
            } else {
                r == Err::<UpdateRun, EngineError>(EngineError::ChannelNotInstalled)
            },
        },
{
    match channel {
        None => Ok(
            UpdateRun {
                channels: config_data.installed_channels.keys(),
                next: 0,
                ignore_linked: true,
            },
        ),
        Some(name) => {
            if !config_data.installed_channels.contains_key(&name) {
                return Err(EngineError::ChannelNotInstalled);
            }
            let mut channels: Vec<String> = Vec::new();
            channels.push(name);
            Ok(UpdateRun { channels, next: 0, ignore_linked: false })
        },
    }
}

/// What the caller of an update command has to do next.
#[derive(Clone, Debug)]
pub enum UpdateAction {
    /// Nothing outside: call again.
    Continue,
    /// Download the archive at `url` and unpack it into `folder`, then call
    /// again and say that it was extracted.
    Fetch { url: String, folder: String },
    /// Refresh this alias, then call again.
    Alias(AliasRequest),
    /// Every channel was visited and the record was collected: delete the
    /// directories of the removed versions and save the record.
    Finished { removed: Vec<RemovedVersion> },
}

/// Whether `action` asks of the caller what `step` stands for: nothing for
/// a channel that is unchanged or was moved without an alias, the fetch, or
/// the alias.
pub open spec fn action_matches(action: UpdateAction, step: UpdateStepView) -> bool {
    match step {
        UpdateStepView::Unchanged => action is Continue,
        UpdateStepView::Updated { alias: None } => action is Continue,
        UpdateStepView::Updated { alias: Some(request) } => action matches UpdateAction::Alias(a)
            && a@ == request,
        UpdateStepView::Fetch { url, folder } => action matches UpdateAction::Fetch {
            url: u,
            folder: f,
        } && u@ == url && f@ == folder,
    }
}

/// Carries an update command one step further.
///
/// While channels are left, the next one is brought up to date as
/// `update_channel` does.  An error ends the command.  A `Fetch` leaves the
/// command at the same channel, to be called again with `extracted` set
/// once the archive is unpacked; every other answer moves on to the next
/// channel.  Once no channel is left, the versions that no system channel
/// needs are collected and the command is finished.
pub fn run_command_update(
    run: &mut UpdateRun,
    config_data: &mut JuliaupConfig,
    version_db: &JuliaupVersionDB,
    extracted: bool,
) -> (r: Result<UpdateAction, EngineError>)
    ensures
        final(run).channels == old(run).channels,
        final(run).ignore_linked == old(run).ignore_linked,
        old(run).next >= old(run).channels@.len() ==> {
            &&& final(run).next == old(run).next
            &&& final(config_data)@ == collected(old(config_data)@)
            &&& r matches Ok(UpdateAction::Finished { removed })
            &&& removed_ids(removed@) == dead_versions(
                old(config_data)@.version_order,
                old(config_data)@.installed_channels,
            )
            &&& forall|i: int|
                0 <= i < removed@.len() ==> old(config_data)@.installed_versions.contains_key(
                    (#[trigger] removed@[i]).version@,
                ) && removed@[i].path@ == old(
                    config_data,
                )@.installed_versions[removed@[i].version@]
        },
        old(run).next < old(run).channels@.len() ==> {
            let channel = old(run).channels@[old(run).next as int]@;
            let outcome = update_outcome(
                channel,
                old(config_data)@,
                version_db@,
                old(run).ignore_linked,
                extracted,
            );
            &&& final(config_data)@ == update_effect(
                channel,
                old(config_data)@,
                version_db@,
                old(run).ignore_linked,
                extracted,
            )
            &&& match outcome {
                Err(e) => r == Err::<UpdateAction, EngineError>(e) && final(run).next == old(
                    run,
                ).next,
                Ok(step) => r.is_ok() && action_matches(r.unwrap(), step) && final(run).next
                    == if step is Fetch {
                    old(run).next as int
                } else {
                    old(run).next + 1
                },
            }
        },
{
    if run.next >= run.channels.len() {
        let removed = garbage_collect_versions(config_data);
        return Ok(UpdateAction::Finished { removed });
    }
    let step = update_channel(
        config_data,
        &run.channels[run.next],
        version_db,
        run.ignore_linked,
        extracted,
    );
    match step {
        Err(e) => Err(e),
        Ok(UpdateStep::Fetch { url, folder }) => Ok(UpdateAction::Fetch { url, folder }),
        Ok(UpdateStep::Unchanged) => {
            run.next = run.next + 1;
            Ok(UpdateAction::Continue)
        },
        Ok(UpdateStep::Updated { alias: None }) => {
            run.next = run.next + 1;
            Ok(UpdateAction::Continue)
        },
        Ok(UpdateStep::Updated { alias: Some(request) }) => {
            run.next = run.next + 1;
            Ok(UpdateAction::Alias(request))
        },
    }
}

} // verus!
