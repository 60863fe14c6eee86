//! Choosing the default channel.

use crate::config_file::{ConfigView, JuliaupConfig};
use crate::error::EngineError;
use crate::versions_db::{CatalogView, JuliaupVersionDB};
use vstd::prelude::*;

verus! {

/// Whether `channel` can become the default.  It must be installed; one
/// that is not is told apart by whether the catalog knows it.
pub open spec fn default_outcome(channel: Seq<char>, config: ConfigView, db: CatalogView) -> Result<
    (),
    EngineError,
> {
    if config.installed_channels.contains_key(channel) {
        Ok(())
    } else if db.available_channels.contains_key(channel) {
        Err(EngineError::ChannelNotInstalled)
    } else {
        Err(EngineError::CatalogChannelMissing)
    }
}

/// Makes `channel` the default channel of the record.
///
/// The catalog is consulted only for a channel that is not installed, to
/// say whether it could be added.
pub fn run_command_default(
    channel: String,
    config_data: &mut JuliaupConfig,
    version_db: &JuliaupVersionDB,
) -> (r: Result<(), EngineError>)
    ensures
        r == default_outcome(channel@, old(config_data)@, version_db@),
        final(config_data)@ == if r.is_ok() {
            ConfigView { default: Some(channel@), ..old(config_data)@ }
        } else {
            old(config_data)@
        },
{
    if !config_data.installed_channels.contains_key(&channel) {
        if !version_db.available_channels.contains_key(&channel) {
            return Err(EngineError::CatalogChannelMissing);
        } else {
            return Err(EngineError::ChannelNotInstalled);
        }
    }
    config_data.default = Some(channel);
    Ok(())
}

} // verus!
