//! Environments: what one should hold, what it was last built with, and
//! whether the two still agree.

use vstd::prelude::*;
use crate::errors::{ErrorModel, VivaError};
use crate::models::{Decoded, SpecFormat};
use crate::store::{
    collected_path, find_collected_file, find_single_file, single_path, SpecStore, StoreAction,
    StoreModel,
};
use crate::merge::{
    check_for_new, clone_list, covers, diff_new, lemma_covers_after_union, lemma_union_of,
    lemma_union_of_idempotent, lemma_union_of_set, list_covers, merge_into, same_items, same_list,
    same_set, union_lists, union_of, append_new,
};

verus! {

/// Whether an environment on disk holds what its declaration asks for.
#[derive(Debug, Clone, Copy, PartialEq, Eq, Structural)]
pub enum EnvSyncStatus {
    Synced,
    NotSynced,
    Unknown,
}

impl EnvSyncStatus {
    /// The status in words, for display.
    pub fn to_string(&self) -> (s: String)
        ensures
            s@ == match *self {
                EnvSyncStatus::Synced => "Synced"@,
                EnvSyncStatus::NotSynced => "Not Synced"@,
                EnvSyncStatus::Unknown => "Unknown"@,
            },
    {
        match self {
            EnvSyncStatus::Synced => "Synced".to_owned(),
            EnvSyncStatus::NotSynced => "Not Synced".to_owned(),
            EnvSyncStatus::Unknown => "Unknown".to_owned(),
        }
    }
}

/// What an environment should hold: the channels to draw packages from and
/// the package specifiers to install.
#[derive(Debug)]
pub struct VivaEnvSpec {
    pub channels: Vec<String>,
    pub pkg_specs: Vec<String>,
}

/// A specification as two lists of texts.
pub struct EnvSpecModel {
    pub channels: Seq<Seq<char>>,
    pub pkg_specs: Seq<Seq<char>>,
}

impl EnvSpecModel {
    /// The specification that asks for nothing.
    pub open spec fn empty() -> EnvSpecModel {
        EnvSpecModel { channels: Seq::empty(), pkg_specs: Seq::empty() }
    }

    /// The union of this specification and `other`: in both lists every
    /// item once, those of this specification first, all in the order in
    /// which they are first named.
    pub open spec fn union(self, other: EnvSpecModel) -> EnvSpecModel {
        EnvSpecModel {
            channels: union_of(self.channels, other.channels),
            pkg_specs: union_of(self.pkg_specs, other.pkg_specs),
        }
    }

    /// Whether `actual` holds every channel and every package specifier
    /// that this specification asks for. It may hold more.
    pub open spec fn satisfied_by(self, actual: EnvSpecModel) -> bool {
        &&& covers(actual.channels, self.channels)
        &&& covers(actual.pkg_specs, self.pkg_specs)
    }

    /// Equality of specifications: the same package specifiers in the same
    /// order, and the same channels in any order.
    pub open spec fn equals(self, other: EnvSpecModel) -> bool {
        &&& self.pkg_specs == other.pkg_specs
        &&& self.channels.to_multiset() == other.channels.to_multiset()
    }

    /// Whether neither list names anything twice.
    pub open spec fn is_set(self) -> bool {
        &&& self.channels.no_duplicates()
        &&& self.pkg_specs.no_duplicates()
    }

    /// The status that a desired specification has against what was built.
    pub open spec fn status_against(self, actual: EnvSpecModel) -> EnvSyncStatus {
        if self.satisfied_by(actual) {
            EnvSyncStatus::Synced
        } else {
            EnvSyncStatus::NotSynced
        }
    }
}

impl View for VivaEnvSpec {
    type V = EnvSpecModel;

    open spec fn view(&self) -> EnvSpecModel {
        EnvSpecModel {
            channels: self.channels.deep_view(),
            pkg_specs: self.pkg_specs.deep_view(),
        }
    }
}

/// Merging the same specification in twice is the same as merging it in once.
pub proof fn lemma_union_idempotent(a: EnvSpecModel, b: EnvSpecModel)
    ensures
        a.union(b).union(b) == a.union(b),
        a.union(b).union(b).equals(a.union(b)),
{
    lemma_union_of_idempotent(a.channels, b.channels);
    lemma_union_of_idempotent(a.pkg_specs, b.pkg_specs);
}

/// A union names nothing twice, and names exactly what either
/// specification names.
pub proof fn lemma_union_is_set(a: EnvSpecModel, b: EnvSpecModel)
    ensures
        a.union(b).is_set(),
        forall|x: Seq<char>| #[trigger]
            a.union(b).channels.contains(x) <==> a.channels.contains(x) || b.channels.contains(x),
        forall|x: Seq<char>| #[trigger]
            a.union(b).pkg_specs.contains(x) <==> a.pkg_specs.contains(x) || b.pkg_specs.contains(
                x,
            ),
{
    lemma_union_of(a.channels, b.channels);
    lemma_union_of(a.pkg_specs, b.pkg_specs);
}

/// The union with a specification that names nothing twice keeps what
/// that specification names in place and only appends.
pub proof fn lemma_union_keeps_sets(a: EnvSpecModel, b: EnvSpecModel)
    requires
        a.is_set(),
    ensures
        a.union(b).channels == append_new(a.channels, b.channels),
        a.union(b).pkg_specs == append_new(a.pkg_specs, b.pkg_specs),
{
    lemma_union_of_set(a.channels, b.channels);
    lemma_union_of_set(a.pkg_specs, b.pkg_specs);
}

/// Merging anything into what was built never breaks satisfaction.
pub proof fn lemma_satisfaction_monotone(desired: EnvSpecModel, actual: EnvSpecModel, extra: EnvSpecModel)
    requires
        desired.satisfied_by(actual),
    ensures
        desired.satisfied_by(actual.union(extra)),
{
    lemma_covers_after_union(actual.channels, desired.channels, extra.channels);
    lemma_covers_after_union(actual.pkg_specs, desired.pkg_specs, extra.pkg_specs);
}

/// The package specifiers of `new_matchspec` that `orig_matchspec` lacks.
pub fn check_for_new_pkg_specs(orig_matchspec: &Vec<String>, new_matchspec: &Vec<String>) -> (r: Vec<String>)
    ensures
        r.deep_view() == diff_new(orig_matchspec.deep_view(), new_matchspec.deep_view()),
{
    check_for_new(orig_matchspec, new_matchspec)
}

/// The channels of `new_channels` that `orig_channels` lacks.
pub fn check_for_new_channels(orig_channels: &Vec<String>, new_channels: &Vec<String>) -> (r: Vec<String>)
    ensures
        r.deep_view() == diff_new(orig_channels.deep_view(), new_channels.deep_view()),
{
    check_for_new(orig_channels, new_channels)
}

/// The union of two lists of package specifiers: every specifier of
/// either list once, in the order in which they are first named.
pub fn join_pkg_specs(spec_1: &Vec<String>, spec_2: &Vec<String>) -> (r: Vec<String>)
    ensures
        r.deep_view() == union_of(spec_1.deep_view(), spec_2.deep_view()),
        r.deep_view().no_duplicates(),
        forall|s: Seq<char>| #[trigger]
            r.deep_view().contains(s) <==> spec_1.deep_view().contains(s)
                || spec_2.deep_view().contains(s),
{
    union_lists(spec_1, spec_2)
}

/// The union of two lists of channels: every channel of either list
/// once, in the order in which they are first named.
pub fn join_channels(channel_1: &Vec<String>, channel_2: &Vec<String>) -> (r: Vec<String>)
    ensures
        r.deep_view() == union_of(channel_1.deep_view(), channel_2.deep_view()),
        r.deep_view().no_duplicates(),
        forall|s: Seq<char>| #[trigger]
            r.deep_view().contains(s) <==> channel_1.deep_view().contains(s)
                || channel_2.deep_view().contains(s),
{
    union_lists(channel_1, channel_2)
}

/// Whether two lists of package specifiers name the same set.
pub fn pkg_specs_are_equal(spec_1: &Vec<String>, spec_2: &Vec<String>) -> (r: bool)
    ensures
        r == (spec_1.deep_view().to_set() == spec_2.deep_view().to_set()),
{
    same_set(spec_1, spec_2)
}

/// Whether two lists of channels name the same set.
pub fn channels_are_equal(channel_1: &Vec<String>, channel_2: &Vec<String>) -> (r: bool)
    ensures
        r == (channel_1.deep_view().to_set() == channel_2.deep_view().to_set()),
{
    same_set(channel_1, channel_2)
}

impl VivaEnvSpec {
    /// The specification that asks for nothing.
    pub fn new() -> (spec: VivaEnvSpec)
        ensures
            spec@ == EnvSpecModel::empty(),
    {
        let spec = VivaEnvSpec { channels: Vec::new(), pkg_specs: Vec::new() };
        assert(spec.channels.deep_view() =~= Seq::<Seq<char>>::empty());
        assert(spec.pkg_specs.deep_view() =~= Seq::<Seq<char>>::empty());
        spec
    }

    /// Whether `other_spec` holds every channel and every package
    /// specifier that this specification asks for.
    pub fn is_satisfied_by(&self, other_spec: &VivaEnvSpec) -> (r: bool)
        ensures
            r == self@.satisfied_by(other_spec@),
    {
        list_covers(&other_spec.channels, &self.channels) && list_covers(
            &other_spec.pkg_specs,
            &self.pkg_specs,
        )
    }

    /// Whether both specifications name the same channels and the same
    /// package specifiers, whatever the order and however often.
    pub fn names_the_same(&self, other: &VivaEnvSpec) -> (r: bool)
        ensures
            r == (self@.channels.to_set() == other@.channels.to_set() && self@.pkg_specs.to_set()
                == other@.pkg_specs.to_set()),
    {
        channels_are_equal(&self.channels, &other.channels) && pkg_specs_are_equal(
            &self.pkg_specs,
            &other.pkg_specs,
        )
    }

    /// The union of this specification and `other`: in both lists every
    /// item of either once, those of this specification first, all in the
    /// order in which they are first named.
    pub fn union_merge(&self, other: &VivaEnvSpec) -> (merged: VivaEnvSpec)
        ensures
            merged@ == self@.union(other@),
            merged@.is_set(),
    {
        VivaEnvSpec {
            channels: join_channels(&self.channels, &other.channels),
            pkg_specs: join_pkg_specs(&self.pkg_specs, &other.pkg_specs),
        }
    }
}

impl Clone for VivaEnvSpec {
    fn clone(&self) -> (copy: Self)
        ensures
            copy@ == self@,
    {
        VivaEnvSpec { channels: clone_list(&self.channels), pkg_specs: clone_list(&self.pkg_specs) }
    }
}

impl PartialEq for VivaEnvSpec {
    fn eq(&self, other: &Self) -> (r: bool) {
        same_list(&self.pkg_specs, &other.pkg_specs) && same_items(&self.channels, &other.channels)
    }
}

impl Eq for VivaEnvSpec {}

impl vstd::std_specs::cmp::PartialEqSpecImpl for VivaEnvSpec {
    open spec fn obeys_eq_spec() -> bool {
        true
    }

    open spec fn eq_spec(&self, other: &Self) -> bool {
        self@.equals(other@)
    }
}

/// An environment of the registry: its declaration, the specification it
/// was last built with, and where on disk both live.
#[derive(Debug)]
pub struct VivaEnv {
    pub id: String,
    pub collection_id: String,
    env_path: String,
    pub spec: VivaEnvSpec,
    actual_spec_path: String,
    actual: VivaEnvSpec,
    pub sync_status: EnvSyncStatus,
}

/// An environment as plain values.
pub struct EnvModel {
    pub id: Seq<char>,
    pub collection_id: Seq<char>,
    pub env_path: Seq<char>,
    pub spec: EnvSpecModel,
    pub actual_spec_path: Seq<char>,
    pub actual: EnvSpecModel,
    pub sync_status: EnvSyncStatus,
}

impl EnvModel {
    /// An environment never claims to be in sync while what was built
    /// lacks something that is asked for.
    pub open spec fn is_consistent(self) -> bool {
        self.sync_status == EnvSyncStatus::Synced ==> self.spec.satisfied_by(self.actual)
    }

    /// This environment with its status worked out from its two specifications.
    pub open spec fn rechecked(self) -> EnvModel {
        EnvModel { sync_status: self.spec.status_against(self.actual), ..self }
    }

    /// This environment after `extra` was merged into its declaration:
    /// the declaration is the union of the two, and the status is worked
    /// out anew if `extra` named anything that the declaration lacked, and
    /// stays otherwise.
    pub open spec fn merged(self, extra: EnvSpecModel) -> EnvModel {
        let spec = self.spec.union(extra);
        EnvModel {
            spec,
            sync_status: if extra.satisfied_by(self.spec) {
                self.sync_status
            } else {
                spec.status_against(self.actual)
            },
            ..self
        }
    }

    /// This environment after channels were added to its declaration.
    pub open spec fn with_channels(self, channels: Seq<Seq<char>>) -> EnvModel {
        let spec = EnvSpecModel { channels: union_of(self.spec.channels, channels), ..self.spec };
        EnvModel {
            spec,
            sync_status: if covers(self.spec.channels, channels) {
                self.sync_status
            } else {
                spec.status_against(self.actual)
            },
            ..self
        }
    }

    /// This environment after package specifiers were added to its declaration.
    pub open spec fn with_pkg_specs(self, pkg_specs: Seq<Seq<char>>) -> EnvModel {
        let spec = EnvSpecModel { pkg_specs: union_of(self.spec.pkg_specs, pkg_specs), ..self.spec };
        EnvModel {
            spec,
            sync_status: if covers(self.spec.pkg_specs, pkg_specs) {
                self.sync_status
            } else {
                spec.status_against(self.actual)
            },
            ..self
        }
    }
}

/// What covers a list covers its union with any list that the list covers.
pub proof fn lemma_covers_union<A>(have: Seq<A>, list: Seq<A>, extra: Seq<A>)
    requires
        covers(have, list),
        covers(list, extra),
    ensures
        covers(have, union_of(list, extra)),
{
    lemma_union_of(list, extra);
    let all = union_of(list, extra);
    assert forall|i: int| 0 <= i < all.len() implies have.contains(#[trigger] all[i]) by {
        assert(all.contains(all[i]));
        if list.contains(all[i]) {
            let k = choose|k: int| 0 <= k < list.len() && list[k] == all[i];
            assert(have.contains(list[k]));
        } else {
            let k = choose|k: int| 0 <= k < extra.len() && extra[k] == all[i];
            assert(list.contains(extra[k]));
        }
    }
}

/// Every list covers itself.
pub proof fn lemma_covers_itself<A>(s: Seq<A>)
    ensures
        covers(s, s),
{
}

/// What has to be built for an environment to hold its declaration.
#[derive(Debug)]
pub struct SyncRequest {
    pub env_id: String,
    pub env_path: String,
    pub spec: VivaEnvSpec,
}

/// A request to build an environment, as plain values.
pub struct SyncRequestModel {
    pub env_id: Seq<char>,
    pub env_path: Seq<char>,
    pub spec: EnvSpecModel,
}

impl View for SyncRequest {
    type V = SyncRequestModel;

    open spec fn view(&self) -> SyncRequestModel {
        SyncRequestModel { env_id: self.env_id@, env_path: self.env_path@, spec: self.spec@ }
    }
}

impl View for VivaEnv {
    type V = EnvModel;

    closed spec fn view(&self) -> EnvModel {
        EnvModel {
            id: self.id@,
            collection_id: self.collection_id@,
            env_path: self.env_path@,
            spec: self.spec@,
            actual_spec_path: self.actual_spec_path@,
            actual: self.actual@,
            sync_status: self.sync_status,
        }
    }
}

impl VivaEnv {
    /// The environment's id.
    pub fn get_id(&self) -> (id: &String)
        ensures
            id@ == self@.id,
    {
        &self.id
    }

    /// The id of the collection that declares the environment.
    pub fn get_collection_id(&self) -> (id: &String)
        ensures
            id@ == self@.collection_id,
    {
        &self.collection_id
    }

    /// What the environment should hold.
    pub fn get_spec(&self) -> (spec: &VivaEnvSpec)
        ensures
            spec@ == self@.spec,
    {
        &self.spec
    }

    /// Whether the environment is known to hold what it should.
    pub fn get_sync_status(&self) -> (status: EnvSyncStatus)
        ensures
            status == self@.sync_status,
    {
        self.sync_status
    }

    /// The directory in which the environment is built.
    pub fn get_env_path(&self) -> (path: &String)
        ensures
            path@ == self@.env_path,
    {
        &self.env_path
    }

    /// The file that records what the environment was last built with.
    pub fn get_actual_spec_path(&self) -> (path: &String)
        ensures
            path@ == self@.actual_spec_path,
    {
        &self.actual_spec_path
    }

    /// What the environment was last built with.
    pub fn get_actual(&self) -> (actual: &VivaEnvSpec)
        ensures
            actual@ == self@.actual,
    {
        &self.actual
    }

    /// An environment made of the given parts, as they are.
    pub fn create(
        id: String,
        collection_id: String,
        spec: VivaEnvSpec,
        env_path: String,
        actual: VivaEnvSpec,
        actual_spec_path: String,
        sync_status: EnvSyncStatus,
    ) -> (env: VivaEnv)
        ensures
            env@ == (EnvModel {
                id: id@,
                collection_id: collection_id@,
                env_path: env_path@,
                spec: spec@,
                actual_spec_path: actual_spec_path@,
                actual: actual@,
                sync_status,
            }),
    {
        VivaEnv { id, collection_id, spec, env_path, actual, actual_spec_path, sync_status }
    }

    /// Works the status out from the declaration and what was built.
    pub fn check_and_update_sync_status(&mut self)
        ensures
            final(self)@ == old(self)@.rechecked(),
            final(self)@.is_consistent(),
    {
        let sync_status = if self.spec.is_satisfied_by(&self.actual) {
            EnvSyncStatus::Synced
        } else {
            EnvSyncStatus::NotSynced
        };
        self.sync_status = sync_status;
    }

    /// Merges a whole specification into the declaration, which becomes
    /// the union of the two.
    pub fn merge_spec(&mut self, spec: &VivaEnvSpec) -> (r: Result<(), VivaError>)
        ensures
            r is Ok,
            final(self)@ == old(self)@.merged(spec@),
            old(self)@.is_consistent() ==> final(self)@.is_consistent(),
    {
        let added_channels = merge_into(&mut self.spec.channels, &spec.channels);
        let added_pkg_specs = merge_into(&mut self.spec.pkg_specs, &spec.pkg_specs);
        proof {
            if !added_channels && !added_pkg_specs && self.sync_status == EnvSyncStatus::Synced
                && old(self)@.is_consistent() {
                lemma_covers_union(self@.actual.channels, old(self)@.spec.channels, spec@.channels);
                lemma_covers_union(
                    self@.actual.pkg_specs,
                    old(self)@.spec.pkg_specs,
                    spec@.pkg_specs,
                );
            }
        }
        if added_channels || added_pkg_specs {
            self.sync_status = EnvSyncStatus::Unknown;
            self.check_and_update_sync_status();
        }
        Ok(())
    }

    /// Makes the channels of the declaration the union of what it has and
    /// the given channels, and hands back the channels it then has.
    pub fn add_channels(&mut self, channels: &Vec<String>) -> (r: Result<&Vec<String>, VivaError>)
        ensures
            final(self)@ == old(self)@.with_channels(channels.deep_view()),
            old(self)@.is_consistent() ==> final(self)@.is_consistent(),
            r matches Ok(listed) && listed.deep_view() == final(self)@.spec.channels,
    {
        let added = merge_into(&mut self.spec.channels, channels);
        proof {
            if !added && self.sync_status == EnvSyncStatus::Synced && old(self)@.is_consistent() {
                lemma_covers_union(
                    self@.actual.channels,
                    old(self)@.spec.channels,
                    channels.deep_view(),
                );
            }
        }
        if added {
            self.sync_status = EnvSyncStatus::Unknown;
            self.check_and_update_sync_status();
        }
        Ok(&self.spec.channels)
    }

    /// Drops from the declaration every channel that the list names, and
    /// hands back the channels it then has. The status stays as it is.
    pub fn remove_channels(&mut self, channels: Vec<String>) -> (r: Result<&Vec<String>, VivaError>)
        ensures
            final(self)@ == (EnvModel {
                spec: EnvSpecModel {
                    channels: diff_new(channels.deep_view(), old(self)@.spec.channels),
                    pkg_specs: old(self)@.spec.pkg_specs,
                },
                ..old(self)@
            }),
            old(self)@.is_consistent() ==> final(self)@.is_consistent(),
            r matches Ok(listed) && listed.deep_view() == final(self)@.spec.channels,
    {
        let kept = check_for_new(&channels, &self.spec.channels);
        proof {
            let before = old(self)@.spec.channels;
            let absent = |x: Seq<char>| !channels.deep_view().contains(x);
            assert forall|i: int| 0 <= i < kept.deep_view().len() implies before.contains(
                #[trigger] kept.deep_view()[i],
            ) by {
                let x = kept.deep_view()[i];
                assert(before.filter(absent).contains(x));
                before.lemma_filter_contains_rev(absent, x);
            }
            if old(self)@.is_consistent() && self.sync_status == EnvSyncStatus::Synced {
                assert forall|i: int| 0 <= i < kept.deep_view().len() implies self@.actual.channels.contains(
                    #[trigger] kept.deep_view()[i],
                ) by {
                    let x = kept.deep_view()[i];
                    let j = choose|j: int| 0 <= j < before.len() && before[j] == x;
                    assert(self@.actual.channels.contains(before[j]));
                }
            }
        }
        self.spec.channels = kept;
        Ok(&self.spec.channels)
    }

    /// Makes the package specifiers of the declaration the union of what it
    /// has and the given ones, and hands back what it then has.
    pub fn add_pkg_specs(&mut self, pkg_specs: &Vec<String>) -> (r: Result<&Vec<String>, VivaError>)
        ensures
            final(self)@ == old(self)@.with_pkg_specs(pkg_specs.deep_view()),
            old(self)@.is_consistent() ==> final(self)@.is_consistent(),
            r matches Ok(listed) && listed.deep_view() == final(self)@.spec.pkg_specs,
    {
        let added = merge_into(&mut self.spec.pkg_specs, pkg_specs);
        proof {
            if !added && self.sync_status == EnvSyncStatus::Synced && old(self)@.is_consistent() {
                lemma_covers_union(
                    self@.actual.pkg_specs,
                    old(self)@.spec.pkg_specs,
                    pkg_specs.deep_view(),
                );
            }
        }
        if added {
            self.sync_status = EnvSyncStatus::Unknown;
            self.check_and_update_sync_status();
        }
        Ok(&self.spec.pkg_specs)
    }

    /// Decides whether the environment has to be built. An unknown status
    /// is worked out first. An environment in sync needs nothing; any other
    /// is to be built at its path with its declaration.
    pub fn sync(&mut self) -> (request: Option<SyncRequest>)
        ensures
            final(self)@ == if old(self)@.sync_status == EnvSyncStatus::Unknown {
                old(self)@.rechecked()
            } else {
                old(self)@
            },
            match request {
                None => final(self)@.sync_status == EnvSyncStatus::Synced,
                Some(wanted) => {
                    &&& final(self)@.sync_status == EnvSyncStatus::NotSynced
                    &&& wanted.env_id@ == final(self)@.id
                    &&& wanted.env_path@ == final(self)@.env_path
                    &&& wanted.spec@ == final(self)@.spec
                },
            },
    {
        if self.sync_status == EnvSyncStatus::Unknown {
            self.check_and_update_sync_status();
        }
        if self.sync_status == EnvSyncStatus::Synced {
            None
        } else {
            Some(
                SyncRequest {
                    env_id: self.id.clone(),
                    env_path: self.env_path.clone(),
                    spec: self.spec.clone(),
                },
            )
        }
    }

    /// Takes note of how building the environment ended. After a success
    /// the environment was built with its declaration and is in sync; the
    /// result is `true`, as something changed. After a failure it is not in
    /// sync, and the cause is handed on with the environment's id and path.
    pub fn finish_sync(&mut self, outcome: Result<(), String>) -> (r: Result<bool, VivaError>)
        ensures
            match outcome {
                Ok(_) => {
                    &&& r == Ok::<bool, VivaError>(true)
                    &&& final(self)@ == (EnvModel {
                        actual: old(self)@.spec,
                        sync_status: EnvSyncStatus::Synced,
                        ..old(self)@
                    })
                },
                Err(cause) => {
                    &&& r matches Err(VivaError::MaterializationFailure { env_id, env_path, cause: told })
                        && env_id@ == old(self)@.id && env_path@ == old(self)@.env_path && told@
                        == cause@
                    &&& final(self)@ == (EnvModel {
                        sync_status: EnvSyncStatus::NotSynced,
                        ..old(self)@
                    })
                },
            },
            final(self)@.is_consistent(),
    {
        match outcome {
            Ok(_) => {
                self.actual = self.spec.clone();
                self.sync_status = EnvSyncStatus::Synced;
                proof {
                    lemma_covers_itself(self@.spec.channels);
                    lemma_covers_itself(self@.spec.pkg_specs);
                }
                Ok(true)
            },
            Err(cause) => {
                self.sync_status = EnvSyncStatus::NotSynced;
                Err(
                    VivaError::MaterializationFailure {
                        env_id: self.id.clone(),
                        env_path: self.env_path.clone(),
                        cause,
                    },
                )
            },
        }
    }
}

impl Clone for VivaEnv {
    fn clone(&self) -> (copy: Self)
        ensures
            copy@ == self@,
    {
        VivaEnv {
            id: self.id.clone(),
            collection_id: self.collection_id.clone(),
            env_path: self.env_path.clone(),
            spec: self.spec.clone(),
            actual_spec_path: self.actual_spec_path.clone(),
            actual: self.actual.clone(),
            sync_status: self.sync_status,
        }
    }
}

/// A named source of environment declarations: a dictionary from id to
/// specification that can be listed, read, written and deleted from.
pub trait EnvironmentCollection {
    /// The collection's validity.
    spec fn wf(&self) -> bool;

    /// The collection as a dictionary.
    spec fn specs(&self) -> Map<Seq<char>, EnvSpecModel>;

    /// The ids of the collection, each once.
    fn get_env_ids(&self) -> (ids: Vec<String>)
        requires
            self.wf(),
        ensures
            ids.deep_view().no_duplicates(),
            forall|id: Seq<char>|
                #![trigger ids.deep_view().contains(id)]
                #![trigger self.specs().contains_key(id)]
                ids.deep_view().contains(id) <==> self.specs().contains_key(id),
    ;

    /// The declaration under `env_id`; an id that the collection lacks is
    /// not found.
    fn get_env(&self, env_id: &str) -> (r: Result<&VivaEnvSpec, VivaError>)
        requires
            self.wf(),
        ensures
            match r {
                Ok(spec) => self.specs().contains_key(env_id@) && spec@ == self.specs()[env_id@],
                Err(e) => !self.specs().contains_key(env_id@) && e@ == (ErrorModel::NotFound {
                    id: env_id@,
                }),
            },
    ;

    /// Deletes the declaration under `env_id`, if there is one. Where the
    /// collection reports success, the id is gone.
    fn delete_env(&mut self, env_id: &str) -> (r: Result<(), VivaError>)
        requires
            old(self).wf(),
        ensures
            final(self).wf(),
            r is Ok ==> final(self).specs() == old(self).specs().remove(env_id@),
    ;

    /// Sets the declaration under `env_id`. Where the collection reports
    /// success, it holds the declaration.
    fn set_env(&mut self, env_id: &str, env: &VivaEnvSpec) -> (r: Result<(), VivaError>)
        requires
            old(self).wf(),
        ensures
            final(self).wf(),
            r is Ok ==> final(self).specs() == old(self).specs().insert(env_id@, env@),
    ;
}

/// The collection of environment declarations that lives in files below
/// one directory: `envs.json` or `envs.yaml` as the consolidated document,
/// and one document for each environment in `envs/`.
#[derive(Debug)]
pub struct DefaultEnvCollection {
    store: SpecStore<VivaEnvSpec>,
}

impl DefaultEnvCollection {
    /// The state of the collection's store.
    pub closed spec fn model(&self) -> StoreModel<VivaEnvSpec> {
        self.store.model()
    }

    /// Reads the collection from its documents, as they were found below
    /// `base_config_path` and decoded. A document that cannot be decoded
    /// ends the reading.
    pub fn create(
        base_config_path: String,
        consolidated: Option<Decoded<Vec<(String, VivaEnvSpec)>>>,
        singles: Vec<(String, Decoded<VivaEnvSpec>)>,
    ) -> (r: Result<Self, VivaError>)
        ensures
            match StoreModel::<VivaEnvSpec>::loaded(
                base_config_path@,
                "envs"@,
                SpecFormat::Yaml,
                consolidated,
                singles@,
            ) {
                Ok(model) => {
                    &&& r is Ok
                    &&& r->Ok_0.wf()
                    &&& r->Ok_0.model() == model
                    &&& r->Ok_0.specs() == model.entries().map_values(|spec: VivaEnvSpec| spec@)
                },
                Err(e) => r is Err && r->Err_0@ == e,
            },
    {
        match SpecStore::load(
            base_config_path,
            "envs".to_owned(),
            SpecFormat::Yaml,
            consolidated,
            singles,
        ) {
            Ok(store) => Ok(DefaultEnvCollection { store }),
            Err(e) => Err(e),
        }
    }

    /// The consolidated document to look for: `envs.json` where that
    /// exists, `envs.yaml` where it does not.
    pub fn find_collected_envs_file(&self, json_exists: bool) -> (path: String)
        ensures
            path@ == collected_path(
                self.model().base,
                "envs"@,
                Some(if json_exists { "json"@ } else { "yaml"@ }),
            ),
    {
        find_collected_file(self.store.base_config_path().as_str(), "envs", json_exists)
    }

    /// The document of one environment to look for: `envs/<id>.json`
    /// where that exists, `envs/<id>.yaml` where it does not.
    pub fn find_single_env_file(&self, env_id: &str, json_exists: bool) -> (path: String)
        ensures
            path@ == single_path(
                self.model().base,
                "envs"@,
                env_id@,
                Some(if json_exists { "json"@ } else { "yaml"@ }),
            ),
    {
        find_single_file(self.store.base_config_path().as_str(), "envs", env_id, json_exists)
    }

    /// Hands out what has to be done to the files to bring them up to the
    /// collection. Nothing is pending afterwards.
    pub fn sync_config(&mut self) -> (actions: Vec<StoreAction>)
        requires
            old(self).wf(),
        ensures
            final(self).wf(),
            final(self).model() == old(self).model().after_sync(),
            final(self).specs() == old(self).specs(),
            actions@.len() == old(self).model().pending().len(),
            forall|i: int|
                0 <= i < actions@.len() ==> (#[trigger] actions@[i])@ == old(self).model().pending()[i],
    {
        let actions = self.store.sync_config();
        proof {
            assert(self.store.model().entries() =~= old(self).store.model().entries());
        }
        actions
    }

    /// The store behind the collection, for reading what is to be written.
    pub fn store(&self) -> (store: &SpecStore<VivaEnvSpec>)
        ensures
            store.model() == self.model(),
            self.wf() ==> store.wf(),
    {
        &self.store
    }
}

impl EnvironmentCollection for DefaultEnvCollection {
    closed spec fn wf(&self) -> bool {
        self.store.wf()
    }

    open spec fn specs(&self) -> Map<Seq<char>, EnvSpecModel> {
        self.model().entries().map_values(|spec: VivaEnvSpec| spec@)
    }

    fn get_env_ids(&self) -> (ids: Vec<String>) {
        self.store.ids()
    }

    fn get_env(&self, env_id: &str) -> (r: Result<&VivaEnvSpec, VivaError>) {
        match self.store.get(env_id) {
            Some(spec) => Ok(spec),
            None => Err(VivaError::NotFound { id: env_id.to_owned() }),
        }
    }

    fn delete_env(&mut self, env_id: &str) -> (r: Result<(), VivaError>)
        ensures
            r is Ok,
            final(self).model() == old(self).model().after_delete(env_id@),
    {
        self.store.delete(env_id);
        proof {
            assert(self.specs() =~= old(self).specs().remove(env_id@));
        }
        Ok(())
    }

    fn set_env(&mut self, env_id: &str, env: &VivaEnvSpec) -> (r: Result<(), VivaError>)
        ensures
            r is Ok,
            final(self).model().entries().contains_key(env_id@),
            final(self).model().entries()[env_id@]@ == env@,
            final(self).model() == old(self).model().after_set(
                env_id@,
                final(self).model().entries()[env_id@],
            ),
    {
        let copy = env.clone();
        self.store.set(env_id, copy);
        proof {
            assert(self.specs() =~= old(self).specs().insert(env_id@, env@));
        }
        Ok(())
    }
}

} // verus!
