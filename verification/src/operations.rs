//! Installing versions, collecting the ones that no channel needs, and
//! planning the aliases that expose a channel on the command line.

use crate::config_file::{
    ChannelView, ConfigView, JuliaupConfig, JuliaupConfigChannel, JuliaupConfigVersion,
};
use crate::error::EngineError;
use crate::paths::{join_path, on_search_path, push_component, search_path_holds};
use crate::string_map::{without_key, StringMap};
use crate::versions_db::{CatalogView, JuliaupVersionDB};
use vstd::prelude::*;
use vstd::utf8::encode_utf8;

verus! {

/// The name of the directory that holds a version.
pub open spec fn install_folder(version: Seq<char>) -> Seq<char> {
    "julia-"@ + version
}

/// The path of a version's directory relative to the home directory.
pub open spec fn install_path(version: Seq<char>) -> Seq<char> {
    "./"@ + install_folder(version)
}

/// What the caller has to do next for an install.
#[derive(Clone, Debug)]
pub enum InstallStep {
    /// Nothing: the version is registered.
    Done,
    /// Download the archive at `url` and unpack it into `folder`, then ask
    /// again and say that it was extracted.
    Fetch { url: String, folder: String },
}

/// The mathematical content of an install step.
pub ghost enum InstallStepView {
    Done,
    Fetch { url: Seq<char>, folder: Seq<char> },
}

impl View for InstallStep {
    type V = InstallStepView;

    open spec fn view(&self) -> InstallStepView {
        match self {
            InstallStep::Done => InstallStepView::Done,
            InstallStep::Fetch { url, folder } => InstallStepView::Fetch {
                url: url@,
                folder: folder@,
            },
        }
    }
}

/// The view of a step or the error in its place.
pub open spec fn install_result_view(r: Result<InstallStep, EngineError>) -> Result<
    InstallStepView,
    EngineError,
> {
    match r {
        Ok(step) => Ok(step@),
        Err(e) => Err(e),
    }
}

/// What an install answers.  A registered version is done.  An unregistered
/// one needs a download location in the catalog; it is fetched first and
/// done once the caller reports it extracted.
pub open spec fn install_outcome(
    version: Seq<char>,
    config: ConfigView,
    db: CatalogView,
    extracted: bool,
) -> Result<InstallStepView, EngineError> {
    if config.installed_versions.contains_key(version) {
        Ok(InstallStepView::Done)
    } else if !db.available_versions.contains_key(version) {
        Err(EngineError::CatalogEntryMissing)
    } else if extracted {
        Ok(InstallStepView::Done)
    } else {
        Ok(
            InstallStepView::Fetch {
                url: db.available_versions[version],
                folder: install_folder(version),
            },
        )
    }
}

/// The record after an install.  Only an unregistered version that the
/// catalog knows and that was extracted is registered; nothing else changes.
pub open spec fn install_effect(
    version: Seq<char>,
    config: ConfigView,
    db: CatalogView,
    extracted: bool,
) -> ConfigView {
    if !config.installed_versions.contains_key(version) && db.available_versions.contains_key(
        version,
    ) && extracted {
        ConfigView {
            installed_versions: config.installed_versions.insert(version, install_path(version)),
            version_order: config.version_order.push(version),
            ..config
        }
    } else {
        config
    }
}

/// "julia-" followed by `name`.
pub fn prefixed_name(name: &String) -> (r: String)
    ensures
        r@ == install_folder(name@),
{
    String::from_str("julia-").concat(name.as_str())
}

/// Makes sure that `fullversion` is installed and registered.
///
/// The download and the extraction are the caller's work.  A first call
/// passes `extracted` as false; where the answer is `Fetch`, the caller
/// unpacks the archive and calls again with `extracted` set.  The version
/// is registered only by that second call, so a failed download leaves the
/// record as it was.
pub fn install_version(
    fullversion: &String,
    config_data: &mut JuliaupConfig,
    version_db: &JuliaupVersionDB,
    extracted: bool,
) -> (r: Result<InstallStep, EngineError>)
    ensures
        install_result_view(r) == install_outcome(
            fullversion@,
            old(config_data)@,
            version_db@,
            extracted,
        ),
        final(config_data)@ == install_effect(
            fullversion@,
            old(config_data)@,
            version_db@,
            extracted,
        ),
{
    if config_data.installed_versions.contains_key(fullversion) {
        return Ok(InstallStep::Done);
    }
    let url = match version_db.available_versions.get(fullversion) {
        Some(entry) => entry.url.clone(),
        None => {
            return Err(EngineError::CatalogEntryMissing);
        },
    };
    let folder = prefixed_name(fullversion);
    if !extracted {
        return Ok(InstallStep::Fetch { url, folder });
    }
    let path = String::from_str("./").concat(folder.as_str());
    config_data.installed_versions.insert(fullversion.clone(), JuliaupConfigVersion { path });
    Ok(InstallStep::Done)
}

/// Installing is idempotent: once an install of `version` has succeeded, a
/// further install of it is done at once, asks for no download and leaves
/// the record as it is.
pub proof fn lemma_install_idempotent(
    version: Seq<char>,
    config: ConfigView,
    db: CatalogView,
    extracted: bool,
    again: bool,
)
    requires
        install_outcome(version, config, db, extracted) == Ok::<InstallStepView, EngineError>(
            InstallStepView::Done,
        ),
    ensures
        install_outcome(version, install_effect(version, config, db, extracted), db, again) == Ok::<
            InstallStepView,
            EngineError,
        >(InstallStepView::Done),
        install_effect(version, install_effect(version, config, db, extracted), db, again)
            == install_effect(version, config, db, extracted),
{
}

/// An install that does not end in `Done` leaves the record untouched: a
/// version is registered only after its archive was extracted.
pub proof fn lemma_install_registers_last(
    version: Seq<char>,
    config: ConfigView,
    db: CatalogView,
    extracted: bool,
)
    ensures
        install_outcome(version, config, db, extracted) != Ok::<InstallStepView, EngineError>(
            InstallStepView::Done,
        ) ==> install_effect(version, config, db, extracted) == config,
        !extracted ==> install_effect(version, config, db, extracted) == config,
{
}

/// A version is live when some system channel points at it.  Linked
/// channels keep nothing alive.
pub open spec fn is_live(channels: Map<Seq<char>, ChannelView>, version: Seq<char>) -> bool {
    exists|name: Seq<char>|
        channels.contains_key(name) && #[trigger] channels[name] == (ChannelView::System {
            version,
        })
}

/// Those of `versions` that are not live, in their order.
pub open spec fn dead_versions(
    versions: Seq<Seq<char>>,
    channels: Map<Seq<char>, ChannelView>,
) -> Seq<Seq<char>>
    decreases versions.len(),
{
    if versions.len() == 0 {
        versions
    } else if is_live(channels, versions.last()) {
        dead_versions(versions.drop_last(), channels)
    } else {
        dead_versions(versions.drop_last(), channels).push(versions.last())
    }
}

/// Those of `versions` that are live, in their order.
pub open spec fn live_versions(
    versions: Seq<Seq<char>>,
    channels: Map<Seq<char>, ChannelView>,
) -> Seq<Seq<char>>
    decreases versions.len(),
{
    if versions.len() == 0 {
        versions
    } else if is_live(channels, versions.last()) {
        live_versions(versions.drop_last(), channels).push(versions.last())
    } else {
        live_versions(versions.drop_last(), channels)
    }
}

/// The record after a collection: the live versions stay registered, in
/// their order, the others are gone, and nothing else changes.
pub open spec fn collected(config: ConfigView) -> ConfigView {
    ConfigView {
        installed_versions: config.installed_versions.restrict(
            Set::new(|version: Seq<char>| is_live(config.installed_channels, version)),
        ),
        version_order: live_versions(config.version_order, config.installed_channels),
        ..config
    }
}

/// A version that a collection took out of the record, with the directory
/// that held it.
#[derive(Clone, Debug)]
pub struct RemovedVersion {
    pub version: String,
    pub path: String,
}

/// The version identifiers of the removed versions, in order.
pub open spec fn removed_ids(removed: Seq<RemovedVersion>) -> Seq<Seq<char>> {
    Seq::new(removed.len(), |i: int| removed[i].version@)
}

/// Whether some system channel points at `version`.
pub fn is_version_live(channels: &StringMap<JuliaupConfigChannel>, version: &String) -> (live: bool)
    ensures
        live == is_live(channels@, version@),
{
    let n = channels.len();
    let mut i: usize = 0;
    while i < n
        invariant
            i <= n,
            n == channels.key_order().len(),
            channels.key_order().to_set() == channels@.dom(),
            forall|j: int|
                0 <= j < i ==> channels@[#[trigger] channels.key_order()[j]]
                    != (ChannelView::System { version: version@ }),
        decreases n - i,
    {
        match channels.value_at(i) {
            JuliaupConfigChannel::SystemChannel { version: target } => {
                if *target == *version {
                    return true;
                }
            },
            JuliaupConfigChannel::LinkedChannel { .. } => {},
        }
        i += 1;
    }
    proof {
        assert forall|name: Seq<char>| channels@.contains_key(name) implies #[trigger] channels@[name]
            != (ChannelView::System { version: version@ }) by {
            assert(channels.key_order().to_set().contains(name));
            let j = choose|j: int|
                0 <= j < channels.key_order().len() && channels.key_order()[j] == name;
            assert(channels.key_order()[j] == name);
        }
    }
    false
}

/// Takes every version that no system channel points at out of the record.
///
/// The result lists those versions in the order in which they were
/// registered, each with its directory, so that the caller can delete the
/// directories.  Whether a deletion succeeds does not matter to the record.
pub fn garbage_collect_versions(config_data: &mut JuliaupConfig) -> (removed: Vec<RemovedVersion>)
    ensures
        final(config_data)@ == collected(old(config_data)@),
        removed_ids(removed@) == dead_versions(
            old(config_data)@.version_order,
            old(config_data)@.installed_channels,
        ),
        forall|i: int|
            0 <= i < removed@.len() ==> old(config_data)@.installed_versions.contains_key(
                (#[trigger] removed@[i]).version@,
            ) && removed@[i].path@ == old(config_data)@.installed_versions[removed@[i].version@],
{
    let ghost before = config_data@;
    let ghost order = config_data.installed_versions.key_order();
    let ghost channels = config_data@.installed_channels;
    let n = config_data.installed_versions.len();
    let mut removed: Vec<RemovedVersion> = Vec::new();
    let mut i: usize = 0;
    while i < n
        invariant
            i <= n,
            n == order.len(),
            *config_data == *old(config_data),
            order == config_data.installed_versions.key_order(),
            channels == config_data@.installed_channels,
            before == config_data@,
            removed_ids(removed@) == dead_versions(order.take(i as int), channels),
            forall|j: int|
                0 <= j < removed@.len() ==> before.installed_versions.contains_key(
                    (#[trigger] removed@[j]).version@,
                ) && removed@[j].path@ == before.installed_versions[removed@[j].version@],
        decreases n - i,
    {
        let version = config_data.installed_versions.key_at(i);
        proof {
            assert(order.take(i as int + 1).drop_last() =~= order.take(i as int));
            assert(order.take(i as int + 1).last() == order[i as int]);
        }
        if !is_version_live(&config_data.installed_channels, version) {
            let detail = config_data.installed_versions.value_at(i);
            let ghost ids = removed_ids(removed@);
            removed.push(RemovedVersion { version: version.clone(), path: detail.path.clone() });
            assert(removed_ids(removed@) =~= ids.push(version@));
        }
        i += 1;
    }
    assert(order.take(n as int) =~= order);
    proof {
        lemma_dead_versions(order, channels);
        assert(removed_ids(removed@).take(0) =~= Seq::<Seq<char>>::empty());
        lemma_excluding_none(order);
        assert(removed_ids(removed@).take(0).to_set() =~= Set::<Seq<char>>::empty());
        assert(before.installed_versions.remove_keys(Set::<Seq<char>>::empty())
            =~= before.installed_versions);
    }
    let mut j: usize = 0;
    while j < removed.len()
        invariant
            j <= removed@.len(),
            config_data@ == (ConfigView {
                installed_versions: before.installed_versions.remove_keys(
                    removed_ids(removed@).take(j as int).to_set(),
                ),
                version_order: excluding(order, removed_ids(removed@).take(j as int)),
                ..before
            }),
        decreases removed@.len() - j,
    {
        let ghost gone = removed_ids(removed@).take(j as int).to_set();
        config_data.installed_versions.remove(&removed[j].version);
        proof {
            let id = removed@[j as int].version@;
            let next = removed_ids(removed@).take(j as int + 1);
            assert(next =~= removed_ids(removed@).take(j as int).push(id));
            lemma_excluding_one_more(order, removed_ids(removed@).take(j as int), id);
            assert(next.to_set() =~= gone.insert(id)) by {
                assert forall|v: Seq<char>| next.to_set().contains(v) == gone.insert(id).contains(
                    v,
                ) by {
                    if next.to_set().contains(v) {
                        let a = choose|a: int| 0 <= a < next.len() && next[a] == v;
                        if a < j {
                            assert(removed_ids(removed@).take(j as int)[a] == v);
                        }
                    }
                    if gone.contains(v) {
                        let a = choose|a: int|
                            0 <= a < j && removed_ids(removed@).take(j as int)[a] == v;
                        assert(next[a] == v);
                    }
                    if v == id {
                        assert(next[j as int] == v);
                    }
                }
            }
            assert(before.installed_versions.remove_keys(gone).remove(id)
                =~= before.installed_versions.remove_keys(gone.insert(id)));
        }
        j += 1;
    }
    proof {
        let ids = removed_ids(removed@);
        assert(ids.take(removed@.len() as int) =~= ids);
        assert(order.to_set() == before.installed_versions.dom());
        lemma_excluding_dead(order, ids, channels);
        assert(before.installed_versions.remove_keys(ids.to_set()) =~= collected(
            before,
        ).installed_versions) by {
            assert forall|v: Seq<char>| before.installed_versions.contains_key(v) implies (
            ids.to_set().contains(v) <==> !is_live(channels, v)) by {
                assert(order.to_set().contains(v));
                assert(order.contains(v));
                if ids.to_set().contains(v) {
                    assert(ids.contains(v));
                }
                if !is_live(channels, v) {
                    assert(ids.contains(v));
                }
            }
        }
    }
    removed
}

/// The versions without those among `gone`, in their order.
spec fn excluding(versions: Seq<Seq<char>>, gone: Seq<Seq<char>>) -> Seq<Seq<char>>
    decreases versions.len(),
{
    if versions.len() == 0 {
        versions
    } else if gone.contains(versions.last()) {
        excluding(versions.drop_last(), gone)
    } else {
        excluding(versions.drop_last(), gone).push(versions.last())
    }
}

/// Excluding nothing changes nothing.
proof fn lemma_excluding_none(versions: Seq<Seq<char>>)
    ensures
        excluding(versions, Seq::empty()) == versions,
    decreases versions.len(),
{
    if versions.len() > 0 {
        lemma_excluding_none(versions.drop_last());
        assert(!Seq::<Seq<char>>::empty().contains(versions.last()));
        assert(versions.drop_last().push(versions.last()) =~= versions);
    }
}

/// Taking one more key out of what is left excludes that key too.
proof fn lemma_excluding_one_more(versions: Seq<Seq<char>>, gone: Seq<Seq<char>>, id: Seq<char>)
    ensures
        without_key(excluding(versions, gone), id) == excluding(versions, gone.push(id)),
    decreases versions.len(),
{
    if versions.len() > 0 {
        let last = versions.last();
        lemma_excluding_one_more(versions.drop_last(), gone, id);
        let more = gone.push(id);
        assert(more.contains(last) <==> gone.contains(last) || last == id) by {
            if gone.contains(last) {
                let a = choose|a: int| 0 <= a < gone.len() && gone[a] == last;
                assert(more[a] == last);
            }
            if last == id {
                assert(more[gone.len() as int] == last);
            }
        }
        if !gone.contains(last) {
            let kept = excluding(versions.drop_last(), gone).push(last);
            assert(kept.drop_last() =~= excluding(versions.drop_last(), gone));
            assert(kept.last() == last);
        }
    }
}

/// Excluding exactly the versions that are not live leaves the live ones.
proof fn lemma_excluding_dead(
    versions: Seq<Seq<char>>,
    gone: Seq<Seq<char>>,
    channels: Map<Seq<char>, ChannelView>,
)
    requires
        forall|i: int|
            0 <= i < versions.len() ==> (gone.contains(#[trigger] versions[i]) <==> !is_live(
                channels,
                versions[i],
            )),
    ensures
        excluding(versions, gone) == live_versions(versions, channels),
    decreases versions.len(),
{
    if versions.len() > 0 {
        let front = versions.drop_last();
        assert forall|i: int| 0 <= i < front.len() implies (gone.contains(#[trigger] front[i])
            <==> !is_live(channels, front[i])) by {
            assert(front[i] == versions[i]);
        }
        lemma_excluding_dead(front, gone, channels);
        assert(versions.last() == versions[versions.len() - 1]);
    }
}

/// The dead versions of a list are its members that are not live.
pub proof fn lemma_dead_versions(versions: Seq<Seq<char>>, channels: Map<Seq<char>, ChannelView>)
    ensures
        forall|v: Seq<char>|
            #![trigger dead_versions(versions, channels).contains(v)]
            #![trigger versions.contains(v)]
            dead_versions(versions, channels).contains(v) <==> versions.contains(v) && !is_live(
                channels,
                v,
            ),
        versions.no_duplicates() ==> dead_versions(versions, channels).no_duplicates(),
    decreases versions.len(),
{
    let dead = dead_versions(versions, channels);
    if versions.len() > 0 {
        let front = versions.drop_last();
        let last = versions.last();
        let front_dead = dead_versions(front, channels);
        lemma_dead_versions(front, channels);
        assert forall|v: Seq<char>|
            #![trigger dead.contains(v)]
            #![trigger versions.contains(v)]
            dead.contains(v) <==> versions.contains(v) && !is_live(channels, v) by {
            if dead.contains(v) {
                let a = choose|a: int| 0 <= a < dead.len() && dead[a] == v;
                if a < front_dead.len() {
                    assert(front_dead[a] == v);
                    assert(front_dead.contains(v));
                    let b = choose|b: int| 0 <= b < front.len() && front[b] == v;
                    assert(versions[b] == v);
                } else {
                    assert(v == last);
                    assert(versions[versions.len() - 1] == v);
                }
            }
            if versions.contains(v) && !is_live(channels, v) {
                let b = choose|b: int| 0 <= b < versions.len() && versions[b] == v;
                if b < front.len() {
                    assert(front[b] == v);
                    assert(front.contains(v));
                    let a = choose|a: int| 0 <= a < front_dead.len() && front_dead[a] == v;
                    assert(dead[a] == v);
                } else {
                    assert(dead[dead.len() - 1] == v);
                }
            }
        }
        if versions.no_duplicates() {
            assert forall|a: int, b: int| 0 <= a < front.len() && 0 <= b < front.len() && a
                != b implies front[a] != front[b] by {
                assert(front[a] == versions[a]);
                assert(front[b] == versions[b]);
            }
            assert(front.no_duplicates());
            if !is_live(channels, last) {
                assert forall|a: int| 0 <= a < front_dead.len() implies front_dead[a] != last by {
                    assert(front_dead.contains(front_dead[a]));
                    let b = choose|b: int| 0 <= b < front.len() && front[b] == front_dead[a];
                    assert(versions[b] == front[b]);
                    assert(versions[versions.len() - 1] == last);
                }
            }
        }
    }
}

/// A collection is sound: every version that stays registered is live, and
/// every live version that was registered stays so, with its directory.
pub proof fn lemma_collect_sound(config: ConfigView)
    ensures
        forall|version: Seq<char>| #[trigger]
            collected(config).installed_versions.contains_key(version) ==> is_live(
                collected(config).installed_channels,
                version,
            ),
        forall|version: Seq<char>|
            is_live(config.installed_channels, version)
                && #[trigger] config.installed_versions.contains_key(version) ==> collected(
                config,
            ).installed_versions.contains_key(version) && collected(
                config,
            ).installed_versions[version] == config.installed_versions[version],
{
}

/// A collection is complete: no version that no system channel points at
/// stays registered.
pub proof fn lemma_collect_complete(config: ConfigView)
    ensures
        forall|version: Seq<char>|
            !is_live(config.installed_channels, version) ==> !(#[trigger] collected(
                config,
            ).installed_versions.contains_key(version)),
{
}

/// Collecting twice is collecting once.
pub proof fn lemma_collect_idempotent(config: ConfigView)
    ensures
        collected(collected(config)) == collected(config),
{
    assert(collected(collected(config)).installed_versions =~= collected(
        config,
    ).installed_versions);
    lemma_live_versions_stay(config.version_order, config.installed_channels);
}

/// The live versions of a list are all live.
proof fn lemma_live_versions_stay(versions: Seq<Seq<char>>, channels: Map<Seq<char>, ChannelView>)
    ensures
        live_versions(live_versions(versions, channels), channels) == live_versions(
            versions,
            channels,
        ),
    decreases versions.len(),
{
    if versions.len() > 0 {
        lemma_live_versions_stay(versions.drop_last(), channels);
        if is_live(channels, versions.last()) {
            let live = live_versions(versions.drop_last(), channels).push(versions.last());
            assert(live.drop_last() =~= live_versions(versions.drop_last(), channels));
            assert(live.last() == versions.last());
        }
    }
}

/// Every system channel points at a registered version.
pub open spec fn channels_registered(config: ConfigView) -> bool {
    forall|name: Seq<char>, version: Seq<char>|
        config.installed_channels.contains_key(name) && #[trigger] config.installed_channels[name]
            == (ChannelView::System { version }) ==> #[trigger] config.installed_versions.contains_key(
            version,
        )
}

/// Neither an install nor a collection breaks the rule that every system
/// channel points at a registered version.
pub proof fn lemma_registered_kept(
    version: Seq<char>,
    config: ConfigView,
    db: CatalogView,
    extracted: bool,
)
    requires
        channels_registered(config),
    ensures
        channels_registered(install_effect(version, config, db, extracted)),
        channels_registered(collected(config)),
{
    let after = collected(config);
    assert forall|name: Seq<char>, target: Seq<char>|
        after.installed_channels.contains_key(name) && #[trigger] after.installed_channels[name]
            == (ChannelView::System {
            version: target,
        }) implies #[trigger] after.installed_versions.contains_key(target) by {
        assert(config.installed_versions.contains_key(target));
        assert(is_live(config.installed_channels, target));
    }
}

/// An alias to create: the command `name` is to start `version`.
#[derive(Clone, Debug)]
pub struct AliasRequest {
    pub version: String,
    pub name: String,
}

/// The mathematical content of an alias request.
pub ghost struct AliasView {
    pub version: Seq<char>,
    pub name: Seq<char>,
}

impl View for AliasRequest {
    type V = AliasView;

    open spec fn view(&self) -> AliasView {
        AliasView { version: self.version@, name: self.name@ }
    }
}

/// The executable that an alias for `version` starts: `bin/julia` in the
/// version's directory below `home`.
pub open spec fn alias_target(home: Seq<u8>, version: Seq<char>) -> Seq<u8> {
    join_path(
        join_path(join_path(home, encode_utf8(install_folder(version))), encode_utf8("bin"@)),
        encode_utf8("julia"@),
    )
}

/// The place of the alias `name` in the directory that holds aliases.
pub open spec fn alias_link(bin_dir: Seq<u8>, name: Seq<char>) -> Seq<u8> {
    join_path(bin_dir, encode_utf8(name))
}

/// An alias to put on disk.
#[derive(Clone, Debug)]
pub struct SymlinkPlan {
    /// The executable that the alias points at.
    pub target: Vec<u8>,
    /// The place of the alias.  Whatever is there is removed first.
    pub link: Vec<u8>,
    /// Whether to tell the user that the directory of the alias is not on
    /// the search path.
    pub warn_search_path: bool,
}

/// Plans the alias `symlink_name` for `fullversion`.
///
/// On a platform without aliases (`supported` false) there is nothing to
/// do.  Otherwise the plan names the executable below `home` and the place
/// of the alias in `bin_dir`.  The user is warned where a search path is
/// known and `bin_dir` is none of its entries.
pub fn create_symlink(
    fullversion: &String,
    symlink_name: &String,
    home: &Vec<u8>,
    bin_dir: &Vec<u8>,
    search_path: Option<&Vec<u8>>,
    supported: bool,
) -> (plan: Option<SymlinkPlan>)
    ensures
        !supported ==> plan is None,
        supported ==> {
            &&& plan is Some
            &&& plan.unwrap().target@ == alias_target(home@, fullversion@)
            &&& plan.unwrap().link@ == alias_link(bin_dir@, symlink_name@)
            &&& plan.unwrap().warn_search_path == match search_path {
                Some(entries) => !on_search_path(entries@, bin_dir@),
                None => false,
            }
        },
{
    if !supported {
        return None;
    }
    let folder = prefixed_name(fullversion).as_str().as_bytes_vec();
    let version_dir = push_component(home, &folder);
    let bin = push_component(&version_dir, &"bin".as_bytes_vec());
    let target = push_component(&bin, &"julia".as_bytes_vec());
    let link = remove_symlink(symlink_name, bin_dir);
    let warn_search_path = match search_path {
        Some(entries) => !search_path_holds(entries, bin_dir),
        None => false,
    };
    Some(SymlinkPlan { target, link, warn_search_path })
}

/// The place of the alias `symlink_name`, which the caller deletes if it
/// is there.
pub fn remove_symlink(symlink_name: &String, bin_dir: &Vec<u8>) -> (link: Vec<u8>)
    ensures
        link@ == alias_link(bin_dir@, symlink_name@),
{
    push_component(bin_dir, &symlink_name.as_str().as_bytes_vec())
}

} // verus!
