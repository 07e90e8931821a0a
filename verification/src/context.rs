//! The registry: the environments and apps that are known, the collections
//! they were declared in, and the operations that keep them in step.

use vstd::prelude::*;
use vstd::string::*;
use crate::defaults::{DEFAULT_ID, ENV_SPEC_FILENAME};
use crate::errors::{ErrorModel, VivaError};
use crate::models::app::{
    AppCollection, AppEnvPlacementStrategy, AppModel, AppSpecModel, PlacementModel, VivaApp,
    VivaAppSpec,
};
use crate::models::environment::{
    EnvModel, EnvSpecModel, EnvSyncStatus, EnvironmentCollection, SyncRequest, SyncRequestModel,
    VivaEnv, VivaEnvSpec,
};
use crate::merge::{distinct, distinct_list};
use crate::text::{join_texts, joined};
use crate::table::{ascending, IdTable};

verus! {

/// The directory in which an environment is built.
pub open spec fn env_path_of(base_env_path: Seq<char>, env_id: Seq<char>) -> Seq<char> {
    base_env_path + "/"@ + env_id
}

/// The environment that a registration creates. What it was last built
/// with is what the record on disk says, and nothing where there is no
/// record; the status is worked out against a record, and an environment
/// without one is not in sync.
pub open spec fn new_env(
    base_env_path: Seq<char>,
    env_id: Seq<char>,
    collection_id: Seq<char>,
    spec: EnvSpecModel,
    actual: Option<EnvSpecModel>,
) -> EnvModel {
    EnvModel {
        id: env_id,
        collection_id,
        env_path: env_path_of(base_env_path, env_id),
        spec,
        actual_spec_path: env_path_of(base_env_path, env_id) + "/"@ + ENV_SPEC_FILENAME@,
        actual: match actual {
            Some(recorded) => recorded,
            None => EnvSpecModel::empty(),
        },
        sync_status: match actual {
            Some(recorded) => spec.status_against(recorded),
            None => EnvSyncStatus::NotSynced,
        },
    }
}

/// What registering an environment gives: the environments afterwards
/// and the answer. An id that is registered already keeps its
/// registration, and the answer is an error, or `false` where duplicates
/// are allowed.
pub open spec fn registered(
    envs: Map<Seq<char>, EnvModel>,
    base_env_path: Seq<char>,
    env_id: Seq<char>,
    collection_id: Seq<char>,
    spec: EnvSpecModel,
    actual: Option<EnvSpecModel>,
    allow_duplicate: bool,
) -> (Map<Seq<char>, EnvModel>, Result<bool, ErrorModel>) {
    if envs.contains_key(env_id) {
        (
            envs,
            if allow_duplicate {
                Ok(false)
            } else {
                Err(ErrorModel::DuplicateId { id: env_id })
            },
        )
    } else {
        (envs.insert(env_id, new_env(base_env_path, env_id, collection_id, spec, actual)), Ok(true))
    }
}

/// Registering an id a second time changes nothing: it is a duplicate,
/// or is skipped with the answer `false` where duplicates are allowed.
pub proof fn lemma_second_registration(
    envs: Map<Seq<char>, EnvModel>,
    base_env_path: Seq<char>,
    env_id: Seq<char>,
    first_collection: Seq<char>,
    first_spec: EnvSpecModel,
    first_actual: Option<EnvSpecModel>,
    first_allowed: bool,
    collection_id: Seq<char>,
    spec: EnvSpecModel,
    actual: Option<EnvSpecModel>,
)
    ensures
        ({
            let once = registered(
                envs,
                base_env_path,
                env_id,
                first_collection,
                first_spec,
                first_actual,
                first_allowed,
            ).0;
            &&& registered(once, base_env_path, env_id, collection_id, spec, actual, false) == (
                once,
                Err::<bool, ErrorModel>(ErrorModel::DuplicateId { id: env_id }),
            )
            &&& registered(once, base_env_path, env_id, collection_id, spec, actual, true) == (
                once,
                Ok::<bool, ErrorModel>(false),
            )
        }),
{
}

/// The view of an optional specification.
pub open spec fn spec_of(spec: Option<VivaEnvSpec>) -> Option<EnvSpecModel> {
    match spec {
        Some(s) => Some(s@),
        None => None,
    }
}

/// The record of what an environment was last built with, if the records hold one.
pub open spec fn record_of(actuals: Map<Seq<char>, VivaEnvSpec>, env_id: Seq<char>) -> Option<
    EnvSpecModel,
> {
    if actuals.contains_key(env_id) {
        Some(actuals[env_id]@)
    } else {
        None
    }
}

/// The environments after a collection was added: what was registered
/// stays, and every id that only the collection holds is registered with
/// the collection's declaration.
pub open spec fn envs_with_collection(
    envs: Map<Seq<char>, EnvModel>,
    base_env_path: Seq<char>,
    collection_id: Seq<char>,
    specs: Map<Seq<char>, EnvSpecModel>,
    actuals: Map<Seq<char>, VivaEnvSpec>,
) -> Map<Seq<char>, EnvModel> {
    Map::new(
        |id: Seq<char>| envs.contains_key(id) || specs.contains_key(id),
        |id: Seq<char>|
            if envs.contains_key(id) {
                envs[id]
            } else {
                new_env(base_env_path, id, collection_id, specs[id], record_of(actuals, id))
            },
    )
}

/// The apps after a collection was added: what was registered stays, and
/// every id that only the collection holds is registered with the
/// collection's declaration and the environment that the rule picks.
pub open spec fn apps_with_collection(
    apps: Map<Seq<char>, AppModel>,
    collection_id: Seq<char>,
    specs: Map<Seq<char>, AppSpecModel>,
    placement: PlacementModel,
) -> Map<Seq<char>, AppModel> {
    Map::new(
        |id: Seq<char>| apps.contains_key(id) || specs.contains_key(id),
        |id: Seq<char>|
            if apps.contains_key(id) {
                apps[id]
            } else {
                AppModel {
                    id,
                    spec: specs[id],
                    app_collection_id: collection_id,
                    env_id: placement.resolve(id, collection_id),
                }
            },
    )
}

/// The environment that a merge works on: the registered one, or one
/// newly registered in the collection `default` with the specification
/// that is merged in.
pub open spec fn merge_target(
    envs: Map<Seq<char>, EnvModel>,
    base_env_path: Seq<char>,
    env_id: Seq<char>,
    spec: EnvSpecModel,
    actual: Option<EnvSpecModel>,
) -> EnvModel {
    if envs.contains_key(env_id) {
        envs[env_id]
    } else {
        new_env(base_env_path, env_id, DEFAULT_ID@, spec, actual)
    }
}

/// The environments after the apps with the given ids had their
/// requirements folded in, one after the other, and the id of the first
/// environment that was looked for and not found, where there is one.
/// Folding ends at such an environment; what was folded in before stays.
pub open spec fn apps_merged(
    envs: Map<Seq<char>, EnvModel>,
    apps: Map<Seq<char>, AppModel>,
    ids: Seq<Seq<char>>,
) -> (Map<Seq<char>, EnvModel>, Option<Seq<char>>)
    decreases ids.len(),
{
    if ids.len() == 0 {
        (envs, None)
    } else {
        let (before, missing) = apps_merged(envs, apps, ids.drop_last());
        let app = apps[ids.last()];
        if missing is Some {
            (before, missing)
        } else if before.contains_key(app.env_id) {
            (before.insert(app.env_id, before[app.env_id].merged(app.spec.env_spec)), None)
        } else {
            (before, Some(app.env_id))
        }
    }
}

/// Once an environment is not found, folding in more apps changes nothing.
pub proof fn lemma_apps_merged_stops(
    envs: Map<Seq<char>, EnvModel>,
    apps: Map<Seq<char>, AppModel>,
    ids: Seq<Seq<char>>,
    k: int,
)
    requires
        0 <= k <= ids.len(),
        apps_merged(envs, apps, ids.take(k)).1 is Some,
    ensures
        apps_merged(envs, apps, ids) == apps_merged(envs, apps, ids.take(k)),
    decreases ids.len() - k,
{
    if k < ids.len() {
        assert(ids.take(k + 1).drop_last() =~= ids.take(k));
        lemma_apps_merged_stops(envs, apps, ids, k + 1);
    } else {
        assert(ids.take(k) =~= ids);
    }
}

/// An environment with its status worked out, where that was unknown.
pub open spec fn settled(env: EnvModel) -> EnvModel {
    if env.sync_status == EnvSyncStatus::Unknown {
        env.rechecked()
    } else {
        env
    }
}

/// The ids, of those named, under which no environment is registered:
/// each once, in the order in which they are first named.
pub open spec fn unregistered(envs: Map<Seq<char>, EnvModel>, named: Seq<Seq<char>>) -> Seq<
    Seq<char>,
> {
    distinct(named).filter(|id: Seq<char>| !envs.contains_key(id))
}

/// The environments that a request to sync selects: those that it
/// names, each once, and all that are registered where it names none.
pub open spec fn selected(named: Seq<Seq<char>>, all: Seq<Seq<char>>) -> Seq<Seq<char>> {
    if named.len() == 0 {
        all
    } else {
        distinct(named)
    }
}

/// The environments after the selected ones had their status worked out.
pub open spec fn envs_settled(envs: Map<Seq<char>, EnvModel>, ids: Seq<Seq<char>>) -> Map<
    Seq<char>,
    EnvModel,
> {
    Map::new(
        |id: Seq<char>| envs.contains_key(id),
        |id: Seq<char>|
            if ids.contains(id) {
                settled(envs[id])
            } else {
                envs[id]
            },
    )
}

/// The request to build an environment.
pub open spec fn request_of(env: EnvModel) -> SyncRequestModel {
    SyncRequestModel { env_id: env.id, env_path: env.env_path, spec: env.spec }
}

/// What has to be built: for every selected environment that is not in
/// sync once its status is worked out, a request with its path and
/// declaration, in the order of the selection.
pub open spec fn requests_for(envs: Map<Seq<char>, EnvModel>, ids: Seq<Seq<char>>) -> Seq<
    SyncRequestModel,
> {
    ids.filter(|id: Seq<char>| settled(envs[id]).sync_status != EnvSyncStatus::Synced).map_values(
        |id: Seq<char>| request_of(envs[id]),
    )
}

/// The registry of environments and apps over any collections.
#[derive(Debug)]
pub struct VivaContext<E: EnvironmentCollection, A: AppCollection> {
    env_collections: IdTable<E>,
    app_collections: IdTable<A>,
    registered_envs: IdTable<VivaEnv>,
    registered_apps: IdTable<VivaApp>,
    base_env_path: String,
}

impl<E: EnvironmentCollection, A: AppCollection> VivaContext<E, A> {
    /// The registry's validity: its tables and its collections are valid.
    pub closed spec fn wf(&self) -> bool {
        &&& self.env_collections.wf()
        &&& self.app_collections.wf()
        &&& self.registered_envs.wf()
        &&& self.registered_apps.wf()
        &&& forall|id: Seq<char>| #[trigger]
            self.env_collections@.contains_key(id) ==> self.env_collections@[id].wf()
        &&& forall|id: Seq<char>| #[trigger]
            self.app_collections@.contains_key(id) ==> self.app_collections@[id].wf()
    }

    /// The registered environments by id.
    pub closed spec fn envs(&self) -> Map<Seq<char>, EnvModel> {
        self.registered_envs@.map_values(|env: VivaEnv| env@)
    }

    /// The ids of the registered environments in ascending order.
    pub closed spec fn env_ids(&self) -> Seq<Seq<char>> {
        self.registered_envs.ids()
    }

    /// The registered apps by id.
    pub closed spec fn apps(&self) -> Map<Seq<char>, AppModel> {
        self.registered_apps@.map_values(|app: VivaApp| app@)
    }

    /// The ids of the registered apps in ascending order.
    pub closed spec fn app_ids(&self) -> Seq<Seq<char>> {
        self.registered_apps.ids()
    }

    /// The collections of environment declarations by id.
    pub closed spec fn env_collections(&self) -> Map<Seq<char>, E> {
        self.env_collections@
    }

    /// The collections of app declarations by id.
    pub closed spec fn app_collections(&self) -> Map<Seq<char>, A> {
        self.app_collections@
    }

    /// The directory below which environments are built.
    pub closed spec fn base_env_path(&self) -> Seq<char> {
        self.base_env_path@
    }

    /// Whether every environment is registered under its own id and
    /// claims to be in sync only where what was built holds all it asks for.
    pub open spec fn sound(&self) -> bool {
        forall|id: Seq<char>| #[trigger]
            self.envs().contains_key(id) ==> self.envs()[id].id == id
                && self.envs()[id].is_consistent()
    }

    /// In a valid registry the listed ids ascend, and they are the ids of
    /// what is registered.
    pub proof fn lemma_ids(&self)
        requires
            self.wf(),
        ensures
            ascending(self.env_ids()),
            self.env_ids().no_duplicates(),
            forall|id: Seq<char>| self.env_ids().contains(id) <==> #[trigger] self.envs().contains_key(id),
            ascending(self.app_ids()),
            self.app_ids().no_duplicates(),
            forall|id: Seq<char>| self.app_ids().contains(id) <==> #[trigger] self.apps().contains_key(id),
    {
        crate::table::lemma_ascending_distinct(self.env_ids());
        crate::table::lemma_ascending_distinct(self.app_ids());
    }

    /// A registry without collections, environments or apps, which builds
    /// environments below `base_env_path`.
    pub fn create(base_env_path: String) -> (context: Self)
        ensures
            context.wf(),
            context.sound(),
            context.envs() == Map::<Seq<char>, EnvModel>::empty(),
            context.apps() == Map::<Seq<char>, AppModel>::empty(),
            context.env_collections() == Map::<Seq<char>, E>::empty(),
            context.app_collections() == Map::<Seq<char>, A>::empty(),
            context.base_env_path() == base_env_path@,
    {
        let context = VivaContext {
            env_collections: IdTable::new(),
            app_collections: IdTable::new(),
            registered_envs: IdTable::new(),
            registered_apps: IdTable::new(),
            base_env_path,
        };
        proof {
            assert(context.envs() =~= Map::<Seq<char>, EnvModel>::empty());
            assert(context.apps() =~= Map::<Seq<char>, AppModel>::empty());
        }
        context
    }

    /// The registered environments, for reading.
    pub fn list_envs(&self) -> (envs: &IdTable<VivaEnv>)
        requires
            self.wf(),
        ensures
            envs.wf(),
            envs@.map_values(|env: VivaEnv| env@) == self.envs(),
            envs.ids() == self.env_ids(),
    {
        &self.registered_envs
    }

    /// The registered apps, for reading.
    pub fn list_apps(&self) -> (apps: &IdTable<VivaApp>)
        requires
            self.wf(),
        ensures
            apps.wf(),
            apps@.map_values(|app: VivaApp| app@) == self.apps(),
            apps.ids() == self.app_ids(),
    {
        &self.registered_apps
    }

    /// The ids of the registered environments in ascending order.
    pub fn get_env_ids(&self) -> (ids: Vec<String>)
        requires
            self.wf(),
        ensures
            ids.deep_view() == self.env_ids(),
            ascending(ids.deep_view()),
            ids.deep_view().no_duplicates(),
            forall|id: Seq<char>|
                #![trigger ids.deep_view().contains(id)]
                #![trigger self.envs().contains_key(id)]
                ids.deep_view().contains(id) <==> self.envs().contains_key(id),
    {
        proof {
            self.lemma_ids();
        }
        self.registered_envs.keys()
    }

    /// The ids of the registered apps in ascending order.
    pub fn get_app_ids(&self) -> (ids: Vec<String>)
        requires
            self.wf(),
        ensures
            ids.deep_view() == self.app_ids(),
            ascending(ids.deep_view()),
            ids.deep_view().no_duplicates(),
            forall|id: Seq<char>|
                #![trigger ids.deep_view().contains(id)]
                #![trigger self.apps().contains_key(id)]
                ids.deep_view().contains(id) <==> self.apps().contains_key(id),
    {
        proof {
            self.lemma_ids();
        }
        self.registered_apps.keys()
    }

    /// Whether an environment is registered under the name.
    pub fn has_env(&self, env_name: &str) -> (r: bool)
        requires
            self.wf(),
        ensures
            r == self.envs().contains_key(env_name@),
    {
        self.registered_envs.contains_key(env_name)
    }

    /// The app registered under the name.
    pub fn get_app(&self, app_name: &str) -> (r: Result<&VivaApp, VivaError>)
        requires
            self.wf(),
        ensures
            match r {
                Ok(app) => self.apps().contains_key(app_name@) && app@ == self.apps()[app_name@],
                Err(e) => !self.apps().contains_key(app_name@) && e@ == (ErrorModel::NotFound {
                    id: app_name@,
                }),
            },
    {
        match self.registered_apps.get(app_name) {
            Some(app) => Ok(app),
            None => Err(VivaError::NotFound { id: app_name.to_owned() }),
        }
    }

    /// The environment registered under the name.
    pub fn get_env(&self, env_name: &str) -> (r: Result<&VivaEnv, VivaError>)
        requires
            self.wf(),
        ensures
            match r {
                Ok(env) => self.envs().contains_key(env_name@) && env@ == self.envs()[env_name@],
                Err(e) => !self.envs().contains_key(env_name@) && e@ == (ErrorModel::NotFound {
                    id: env_name@,
                }),
            },
    {
        match self.registered_envs.get(env_name) {
            Some(env) => Ok(env),
            None => Err(VivaError::NotFound { id: env_name.to_owned() }),
        }
    }

    /// The id of the environment that an app's requirements are folded
    /// into under the given rule.
    pub fn get_env_id_for_app(
        &self,
        app_id: &str,
        _app_spec: &VivaAppSpec,
        collection_id: &str,
        placement_strategy: &AppEnvPlacementStrategy,
    ) -> (env_id: String)
        ensures
            env_id@ == placement_strategy@.resolve(app_id@, collection_id@),
    {
        placement_strategy.resolve(app_id, collection_id)
    }

    /// The environment that a registration under `env_id` creates, given
    /// the declaration and the record of what the environment was last
    /// built with, where there is one.
    pub fn create_env_instance(
        &self,
        env_id: &str,
        collection_id: String,
        env_spec: Option<VivaEnvSpec>,
        actual: Option<VivaEnvSpec>,
    ) -> (env: VivaEnv)
        ensures
            env@ == new_env(
                self.base_env_path(),
                env_id@,
                collection_id@,
                match env_spec {
                    Some(spec) => spec@,
                    None => EnvSpecModel::empty(),
                },
                spec_of(actual),
            ),
            env@.is_consistent(),
    {
        let mut env_path = self.base_env_path.clone();
        env_path.append("/");
        env_path.append(env_id);
        let mut env_spec_file = env_path.clone();
        env_spec_file.append("/");
        env_spec_file.append(ENV_SPEC_FILENAME);
        let spec = match env_spec {
            Some(spec) => spec,
            None => VivaEnvSpec::new(),
        };
        let (recorded, sync_status) = match actual {
            Some(recorded) => {
                let status = if spec.is_satisfied_by(&recorded) {
                    EnvSyncStatus::Synced
                } else {
                    EnvSyncStatus::NotSynced
                };
                (recorded, status)
            },
            None => (VivaEnvSpec::new(), EnvSyncStatus::NotSynced),
        };
        VivaEnv::create(
            env_id.to_owned(),
            collection_id,
            spec,
            env_path,
            recorded,
            env_spec_file,
            sync_status,
        )
    }

    /// Registers an environment. An id that is registered already stays as
    /// it is: that is an error, or nothing at all where duplicates are
    /// allowed. The result says whether the environment was registered.
    pub fn add_registered_env(
        &mut self,
        env_id: &str,
        collection_id: &str,
        env_spec: VivaEnvSpec,
        actual: Option<VivaEnvSpec>,
        allow_duplicate: bool,
    ) -> (r: Result<bool, VivaError>)
        requires
            old(self).wf(),
        ensures
            final(self).wf(),
            final(self).apps() == old(self).apps(),
            final(self).app_ids() == old(self).app_ids(),
            final(self).env_collections() == old(self).env_collections(),
            final(self).app_collections() == old(self).app_collections(),
            final(self).base_env_path() == old(self).base_env_path(),
            old(self).sound() ==> final(self).sound(),
            final(self).envs() == registered(
                old(self).envs(),
                old(self).base_env_path(),
                env_id@,
                collection_id@,
                env_spec@,
                spec_of(actual),
                allow_duplicate,
            ).0,
            match registered(
                old(self).envs(),
                old(self).base_env_path(),
                env_id@,
                collection_id@,
                env_spec@,
                spec_of(actual),
                allow_duplicate,
            ).1 {
                Ok(added) => r == Ok::<bool, VivaError>(added),
                Err(e) => r is Err && r->Err_0@ == e,
            },
            old(self).envs().contains_key(env_id@) ==> final(self).env_ids() == old(self).env_ids(),
    {
        if self.registered_envs.contains_key(env_id) {
            if allow_duplicate {
                Ok(false)
            } else {
                Err(VivaError::DuplicateId { id: env_id.to_owned() })
            }
        } else {
            let env = self.create_env_instance(
                env_id,
                collection_id.to_owned(),
                Some(env_spec),
                actual,
            );
            let ghost made = env@;
            self.registered_envs.insert(env_id.to_owned(), env);
            proof {
                assert(self.envs() =~= old(self).envs().insert(env_id@, made));
            }
            Ok(true)
        }
    }

    /// Registers an app under the environment id that was picked for it.
    /// An id that is registered already stays as it is: that is an error,
    /// or nothing at all where duplicates are allowed. The result says
    /// whether the app was registered.
    pub fn add_registered_app(
        &mut self,
        app_id: &str,
        app_spec: VivaAppSpec,
        collection_id: &str,
        env_id: String,
        allow_duplicate: bool,
    ) -> (r: Result<bool, VivaError>)
        requires
            old(self).wf(),
        ensures
            final(self).wf(),
            final(self).envs() == old(self).envs(),
            final(self).env_ids() == old(self).env_ids(),
            final(self).env_collections() == old(self).env_collections(),
            final(self).app_collections() == old(self).app_collections(),
            final(self).base_env_path() == old(self).base_env_path(),
            if old(self).apps().contains_key(app_id@) {
                &&& final(self).apps() == old(self).apps()
                &&& final(self).app_ids() == old(self).app_ids()
                &&& if allow_duplicate {
                    r == Ok::<bool, VivaError>(false)
                } else {
                    r is Err && r->Err_0@ == (ErrorModel::DuplicateId { id: app_id@ })
                }
            } else {
                &&& r == Ok::<bool, VivaError>(true)
                &&& final(self).apps() == old(self).apps().insert(
                    app_id@,
                    AppModel {
                        id: app_id@,
                        spec: app_spec@,
                        app_collection_id: collection_id@,
                        env_id: env_id@,
                    },
                )
            },
    {
        if self.registered_apps.contains_key(app_id) {
            if allow_duplicate {
                Ok(false)
            } else {
                Err(VivaError::DuplicateId { id: app_id.to_owned() })
            }
        } else {
            let app = VivaApp::create(
                app_id.to_owned(),
                app_spec,
                collection_id.to_owned(),
                env_id,
            );
            let ghost made = app@;
            self.registered_apps.insert(app_id.to_owned(), app);
            proof {
                assert(self.apps() =~= old(self).apps().insert(app_id@, made));
            }
            Ok(true)
        }
    }

    /// Adds a collection of environment declarations and registers every
    /// environment it holds. An id that is registered already keeps its
    /// registration. `actuals` holds, by environment id, the records of
    /// what environments were last built with.
    pub fn add_env_collection(
        &mut self,
        collection_id: &str,
        collection: E,
        actuals: &IdTable<VivaEnvSpec>,
    ) -> (r: Result<(), VivaError>)
        requires
            old(self).wf(),
            collection.wf(),
            actuals.wf(),
        ensures
            final(self).wf(),
            r is Ok,
            final(self).envs() == envs_with_collection(
                old(self).envs(),
                old(self).base_env_path(),
                collection_id@,
                collection.specs(),
                actuals@,
            ),
            final(self).env_collections() == old(self).env_collections().insert(
                collection_id@,
                collection,
            ),
            final(self).apps() == old(self).apps(),
            final(self).app_ids() == old(self).app_ids(),
            final(self).app_collections() == old(self).app_collections(),
            final(self).base_env_path() == old(self).base_env_path(),
            old(self).sound() ==> final(self).sound(),
    {
        let ids = collection.get_env_ids();
        let ghost wanted = envs_with_collection(
            self.envs(),
            self.base_env_path(),
            collection_id@,
            collection.specs(),
            actuals@,
        );
        let mut i: usize = 0;
        while i < ids.len()
            invariant
                0 <= i <= ids@.len(),
                self.wf(),
                collection.wf(),
                actuals.wf(),
                forall|id: Seq<char>|
                    ids.deep_view().contains(id) <==> #[trigger] collection.specs().contains_key(id),
                wanted == envs_with_collection(
                    old(self).envs(),
                    old(self).base_env_path(),
                    collection_id@,
                    collection.specs(),
                    actuals@,
                ),
                forall|id: Seq<char>| #[trigger]
                    self.envs().contains_key(id) <==> old(self).envs().contains_key(id)
                        || ids.deep_view().take(i as int).contains(id),
                forall|id: Seq<char>| #[trigger]
                    self.envs().contains_key(id) ==> self.envs()[id] == wanted[id],
                self.apps() == old(self).apps(),
                self.app_ids() == old(self).app_ids(),
                self.env_collections() == old(self).env_collections(),
                self.app_collections() == old(self).app_collections(),
                self.base_env_path() == old(self).base_env_path(),
                old(self).sound() ==> self.sound(),
            decreases ids@.len() - i,
        {
            let id = &ids[i];
            proof {
                assert(ids.deep_view()[i as int] == id@);
                assert(ids.deep_view().contains(id@));
                assert(ids.deep_view().take(i + 1) =~= ids.deep_view().take(i as int).push(id@));
                assert forall|x: Seq<char>|
                    ids.deep_view().take(i + 1).contains(x) <==> ids.deep_view().take(
                        i as int,
                    ).contains(x) || x == id@ by {
                    let longer = ids.deep_view().take(i + 1);
                    let shorter = ids.deep_view().take(i as int);
                    if longer.contains(x) {
                        let k = choose|k: int| 0 <= k < longer.len() && longer[k] == x;
                        if k < i {
                            assert(shorter[k] == x);
                        }
                    }
                    if shorter.contains(x) {
                        let k = choose|k: int| 0 <= k < shorter.len() && shorter[k] == x;
                        assert(longer[k] == x);
                    }
                    assert(longer[i as int] == id@);
                }
            }
            let spec = match collection.get_env(id.as_str()) {
                Ok(spec) => spec.clone(),
                Err(e) => {
                    return Err(e);
                },
            };
            let actual = match actuals.get(id.as_str()) {
                Some(recorded) => Some(recorded.clone()),
                None => None,
            };
            let _ = self.add_registered_env(id.as_str(), collection_id, spec, actual, true);
            i = i + 1;
        }
        proof {
            assert(ids.deep_view().take(ids@.len() as int) =~= ids.deep_view());
            assert(self.envs() =~= wanted);
        }
        self.env_collections.insert(collection_id.to_owned(), collection);
        Ok(())
    }

    /// Adds a collection of app declarations and registers every app it
    /// holds, each under the environment that the rule picks for it, or
    /// under the environment `default` where no rule is given. An id that
    /// is registered already keeps its registration.
    pub fn add_app_collection(
        &mut self,
        collection_id: &str,
        collection: A,
        env_placement: Option<AppEnvPlacementStrategy>,
    ) -> (r: Result<(), VivaError>)
        requires
            old(self).wf(),
            collection.wf(),
        ensures
            final(self).wf(),
            r is Ok,
            final(self).apps() == apps_with_collection(
                old(self).apps(),
                collection_id@,
                collection.specs(),
                match env_placement {
                    Some(strategy) => strategy@,
                    None => PlacementModel::Default,
                },
            ),
            final(self).app_collections() == old(self).app_collections().insert(
                collection_id@,
                collection,
            ),
            final(self).envs() == old(self).envs(),
            final(self).env_ids() == old(self).env_ids(),
            final(self).env_collections() == old(self).env_collections(),
            final(self).base_env_path() == old(self).base_env_path(),
    {
        let placement_strategy = match env_placement {
            Some(strategy) => strategy,
            None => AppEnvPlacementStrategy::Default,
        };
        let ids = collection.get_app_ids();
        let ghost wanted = apps_with_collection(
            self.apps(),
            collection_id@,
            collection.specs(),
            placement_strategy@,
        );
        let mut i: usize = 0;
        while i < ids.len()
            invariant
                0 <= i <= ids@.len(),
                self.wf(),
                collection.wf(),
                forall|id: Seq<char>|
                    ids.deep_view().contains(id) <==> #[trigger] collection.specs().contains_key(id),
                wanted == apps_with_collection(
                    old(self).apps(),
                    collection_id@,
                    collection.specs(),
                    placement_strategy@,
                ),
                forall|id: Seq<char>| #[trigger]
                    self.apps().contains_key(id) <==> old(self).apps().contains_key(id)
                        || ids.deep_view().take(i as int).contains(id),
                forall|id: Seq<char>| #[trigger]
                    self.apps().contains_key(id) ==> self.apps()[id] == wanted[id],
                self.envs() == old(self).envs(),
                self.env_ids() == old(self).env_ids(),
                self.env_collections() == old(self).env_collections(),
                self.app_collections() == old(self).app_collections(),
                self.base_env_path() == old(self).base_env_path(),
            decreases ids@.len() - i,
        {
            let id = &ids[i];
            proof {
                assert(ids.deep_view()[i as int] == id@);
                assert(ids.deep_view().contains(id@));
                assert(ids.deep_view().take(i + 1) =~= ids.deep_view().take(i as int).push(id@));
                assert forall|x: Seq<char>|
                    ids.deep_view().take(i + 1).contains(x) <==> ids.deep_view().take(
                        i as int,
                    ).contains(x) || x == id@ by {
                    let longer = ids.deep_view().take(i + 1);
                    let shorter = ids.deep_view().take(i as int);
                    if longer.contains(x) {
                        let k = choose|k: int| 0 <= k < longer.len() && longer[k] == x;
                        if k < i {
                            assert(shorter[k] == x);
                        }
                    }
                    if shorter.contains(x) {
                        let k = choose|k: int| 0 <= k < shorter.len() && shorter[k] == x;
                        assert(longer[k] == x);
                    }
                    assert(longer[i as int] == id@);
                }
            }
            let spec = match collection.get_app(id.as_str()) {
                Ok(spec) => spec.clone(),
                Err(e) => {
                    return Err(e);
                },
            };
            let env_id = self.get_env_id_for_app(
                id.as_str(),
                &spec,
                collection_id,
                &placement_strategy,
            );
            let _ = self.add_registered_app(id.as_str(), spec, collection_id, env_id, true);
            i = i + 1;
        }
        proof {
            assert(ids.deep_view().take(ids@.len() as int) =~= ids.deep_view());
            assert(self.apps() =~= wanted);
        }
        self.app_collections.insert(collection_id.to_owned(), collection);
        Ok(())
    }

    /// Writes a declaration to the collection that declares the
    /// environment. The registry's own record of the environment stays as
    /// it is.
    pub fn set_env_spec(&mut self, env_id: &str, env_spec: VivaEnvSpec) -> (r: Result<(), VivaError>)
        requires
            old(self).wf(),
        ensures
            final(self).wf(),
            final(self).envs() == old(self).envs(),
            final(self).env_ids() == old(self).env_ids(),
            final(self).apps() == old(self).apps(),
            final(self).app_ids() == old(self).app_ids(),
            final(self).app_collections() == old(self).app_collections(),
            final(self).base_env_path() == old(self).base_env_path(),
            final(self).env_collections().dom() == old(self).env_collections().dom(),
            if !old(self).envs().contains_key(env_id@) {
                &&& r is Err && r->Err_0@ == (ErrorModel::NotFound { id: env_id@ })
                &&& final(self).env_collections() == old(self).env_collections()
            } else if !old(self).env_collections().contains_key(
                old(self).envs()[env_id@].collection_id,
            ) {
                &&& r is Err && r->Err_0@ == (ErrorModel::NotFound {
                    id: old(self).envs()[env_id@].collection_id,
                })
                &&& final(self).env_collections() == old(self).env_collections()
            } else {
                let collection_id = old(self).envs()[env_id@].collection_id;
                &&& forall|id: Seq<char>|
                    id != collection_id && #[trigger] old(self).env_collections().contains_key(id)
                        ==> final(self).env_collections()[id] == old(self).env_collections()[id]
                &&& r is Ok ==> final(self).env_collections()[collection_id].specs() == old(
                    self,
                ).env_collections()[collection_id].specs().insert(env_id@, env_spec@)
            },
    {
        let collection_id = match self.registered_envs.get(env_id) {
            Some(env) => env.get_collection_id().clone(),
            None => {
                return Err(VivaError::NotFound { id: env_id.to_owned() });
            },
        };
        let ghost before = self.env_collections@;
        match self.env_collections.get_mut(collection_id.as_str()) {
            Some(collection) => {
                let stored = collection.set_env(env_id, &env_spec);
                proof {
                    assert(self.env_collections@.dom() =~= before.dom());
                }
                stored
            },
            None => Err(VivaError::NotFound { id: collection_id }),
        }
    }

    /// Merges a specification into an environment's declaration. An
    /// environment that is not registered is an error, or is first
    /// registered in the collection `default`, with `actual` as the
    /// record of what it was last built with. On request the merged
    /// declaration is then written to the environment's collection.
    pub fn merge_env_specs(
        &mut self,
        target_env_id: &str,
        spec_to_merge: &VivaEnvSpec,
        update_env_spec: bool,
        add_if_not_exist: bool,
        actual: Option<VivaEnvSpec>,
    ) -> (r: Result<(), VivaError>)
        requires
            old(self).wf(),
        ensures
            final(self).wf(),
            final(self).apps() == old(self).apps(),
            final(self).app_ids() == old(self).app_ids(),
            final(self).app_collections() == old(self).app_collections(),
            final(self).base_env_path() == old(self).base_env_path(),
            final(self).env_collections().dom() == old(self).env_collections().dom(),
            old(self).sound() ==> final(self).sound(),
            if !old(self).envs().contains_key(target_env_id@) && !add_if_not_exist {
                &&& r is Err && r->Err_0@ == (ErrorModel::NotFound { id: target_env_id@ })
                &&& final(self).envs() == old(self).envs()
                &&& final(self).env_ids() == old(self).env_ids()
                &&& final(self).env_collections() == old(self).env_collections()
            } else {
                let merged = merge_target(
                    old(self).envs(),
                    old(self).base_env_path(),
                    target_env_id@,
                    spec_to_merge@,
                    spec_of(actual),
                ).merged(spec_to_merge@);
                &&& final(self).envs() == old(self).envs().insert(target_env_id@, merged)
                &&& if !update_env_spec {
                    r is Ok && final(self).env_collections() == old(self).env_collections()
                } else if !old(self).env_collections().contains_key(merged.collection_id) {
                    &&& r is Err && r->Err_0@ == (ErrorModel::NotFound { id: merged.collection_id })
                    &&& final(self).env_collections() == old(self).env_collections()
                } else {
                    &&& forall|id: Seq<char>|
                        id != merged.collection_id && #[trigger] old(
                            self,
                        ).env_collections().contains_key(id) ==> final(self).env_collections()[id]
                            == old(self).env_collections()[id]
                    &&& r is Ok ==> final(self).env_collections()[merged.collection_id].specs()
                        == old(self).env_collections()[merged.collection_id].specs().insert(
                        target_env_id@,
                        merged.spec,
                    )
                }
            },
    {
        if !self.has_env(target_env_id) {
            if add_if_not_exist {
                let _ = self.add_registered_env(
                    target_env_id,
                    DEFAULT_ID,
                    spec_to_merge.clone(),
                    actual,
                    false,
                );
            } else {
                return Err(VivaError::NotFound { id: target_env_id.to_owned() });
            }
        }
        let ghost registered = self.envs();
        assert(registered.contains_key(target_env_id@));
        assert(self.registered_envs@.contains_key(target_env_id@));
        let updated_spec = match self.registered_envs.get_mut(target_env_id) {
            Some(env) => {
                let _ = env.merge_spec(spec_to_merge);
                env.get_spec().clone()
            },
            None => {
                return Err(VivaError::NotFound { id: target_env_id.to_owned() });
            },
        };
        proof {
            assert(self.envs() =~= registered.insert(
                target_env_id@,
                registered[target_env_id@].merged(spec_to_merge@),
            ));
        }
        if update_env_spec {
            self.set_env_spec(target_env_id, updated_spec)
        } else {
            Ok(())
        }
    }

    /// Registers an environment once its collection has answered the
    /// writing of its declaration: a refusal is handed on and nothing is
    /// registered; after a success the environment is registered, unless
    /// its id is registered already, which is an error.
    pub fn register_stored_env(
        &mut self,
        env_id: &str,
        collection_id: &str,
        env_spec: VivaEnvSpec,
        actual: Option<VivaEnvSpec>,
        stored: Result<(), VivaError>,
    ) -> (r: Result<&VivaEnv, VivaError>)
        requires
            old(self).wf(),
        ensures
            final(self).wf(),
            final(self).apps() == old(self).apps(),
            final(self).app_ids() == old(self).app_ids(),
            final(self).env_collections() == old(self).env_collections(),
            final(self).app_collections() == old(self).app_collections(),
            final(self).base_env_path() == old(self).base_env_path(),
            old(self).sound() ==> final(self).sound(),
            match stored {
                Err(e) => {
                    &&& r is Err && r->Err_0 == e
                    &&& final(self).envs() == old(self).envs()
                    &&& final(self).env_ids() == old(self).env_ids()
                },
                Ok(_) => if old(self).envs().contains_key(env_id@) {
                    &&& r is Err && r->Err_0@ == (ErrorModel::DuplicateId { id: env_id@ })
                    &&& final(self).envs() == old(self).envs()
                    &&& final(self).env_ids() == old(self).env_ids()
                } else {
                    &&& r is Ok
                    &&& r->Ok_0@ == new_env(
                        old(self).base_env_path(),
                        env_id@,
                        collection_id@,
                        env_spec@,
                        spec_of(actual),
                    )
                    &&& final(self).envs() == old(self).envs().insert(env_id@, r->Ok_0@)
                },
            },
    {
        match stored {
            Ok(_) => {},
            Err(e) => {
                return Err(e);
            },
        }
        match self.add_registered_env(env_id, collection_id, env_spec, actual, false) {
            Ok(_) => {},
            Err(e) => {
                return Err(e);
            },
        }
        self.get_env(env_id)
    }

    /// Registers an app once its collection has answered the writing of
    /// its declaration: a refusal is handed on and nothing is registered;
    /// after a success the app is registered, unless its id is registered
    /// already, which is an error.
    pub fn register_stored_app(
        &mut self,
        app_id: &str,
        app_spec: VivaAppSpec,
        collection_id: &str,
        env_id: String,
        stored: Result<(), VivaError>,
    ) -> (r: Result<&VivaApp, VivaError>)
        requires
            old(self).wf(),
        ensures
            final(self).wf(),
            final(self).envs() == old(self).envs(),
            final(self).env_ids() == old(self).env_ids(),
            final(self).env_collections() == old(self).env_collections(),
            final(self).app_collections() == old(self).app_collections(),
            final(self).base_env_path() == old(self).base_env_path(),
            match stored {
                Err(e) => {
                    &&& r is Err && r->Err_0 == e
                    &&& final(self).apps() == old(self).apps()
                    &&& final(self).app_ids() == old(self).app_ids()
                },
                Ok(_) => if old(self).apps().contains_key(app_id@) {
                    &&& r is Err && r->Err_0@ == (ErrorModel::DuplicateId { id: app_id@ })
                    &&& final(self).apps() == old(self).apps()
                    &&& final(self).app_ids() == old(self).app_ids()
                } else {
                    &&& r is Ok
                    &&& r->Ok_0@ == (AppModel {
                        id: app_id@,
                        spec: app_spec@,
                        app_collection_id: collection_id@,
                        env_id: env_id@,
                    })
                    &&& final(self).apps() == old(self).apps().insert(app_id@, r->Ok_0@)
                },
            },
    {
        match stored {
            Ok(_) => {},
            Err(e) => {
                return Err(e);
            },
        }
        match self.add_registered_app(app_id, app_spec, collection_id, env_id, false) {
            Ok(_) => {},
            Err(e) => {
                return Err(e);
            },
        }
        self.get_app(app_id)
    }

    /// Drops the registration of an environment once its collection has
    /// answered the deleting of its declaration: a refusal is handed on
    /// and the registration stays; after a success the environment is
    /// taken out of the registry and handed back.
    pub fn drop_deleted_env(&mut self, env_id: &str, deleted: Result<(), VivaError>) -> (r: Result<
        VivaEnv,
        VivaError,
    >)
        requires
            old(self).wf(),
        ensures
            final(self).wf(),
            final(self).apps() == old(self).apps(),
            final(self).app_ids() == old(self).app_ids(),
            final(self).env_collections() == old(self).env_collections(),
            final(self).app_collections() == old(self).app_collections(),
            final(self).base_env_path() == old(self).base_env_path(),
            old(self).sound() ==> final(self).sound(),
            match deleted {
                Err(e) => {
                    &&& r is Err && r->Err_0 == e
                    &&& final(self).envs() == old(self).envs()
                    &&& final(self).env_ids() == old(self).env_ids()
                },
                Ok(_) => if old(self).envs().contains_key(env_id@) {
                    &&& r is Ok
                    &&& r->Ok_0@ == old(self).envs()[env_id@]
                    &&& final(self).envs() == old(self).envs().remove(env_id@)
                } else {
                    &&& r is Err && r->Err_0@ == (ErrorModel::NotFound { id: env_id@ })
                    &&& final(self).envs() == old(self).envs()
                    &&& final(self).env_ids() == old(self).env_ids()
                },
            },
    {
        match deleted {
            Ok(_) => {},
            Err(e) => {
                return Err(e);
            },
        }
        match self.registered_envs.remove(env_id) {
            Some(env) => {
                proof {
                    assert(self.envs() =~= old(self).envs().remove(env_id@));
                    if old(self).sound() {
                        assert forall|id: Seq<char>| #[trigger]
                            self.envs().contains_key(id) implies self.envs()[id].id == id
                            && self.envs()[id].is_consistent() by {
                            assert(old(self).envs().contains_key(id));
                        }
                    }
                }
                Ok(env)
            },
            None => {
                proof {
                    assert(self.envs() =~= old(self).envs());
                }
                Err(VivaError::NotFound { id: env_id.to_owned() })
            },
        }
    }

    /// Drops the registration of an app once its collection has answered
    /// the deleting of its declaration: a refusal is handed on and the
    /// registration stays; after a success the app is taken out of the
    /// registry and handed back.
    pub fn drop_deleted_app(&mut self, app_id: &str, deleted: Result<(), VivaError>) -> (r: Result<
        VivaApp,
        VivaError,
    >)
        requires
            old(self).wf(),
        ensures
            final(self).wf(),
            final(self).envs() == old(self).envs(),
            final(self).env_ids() == old(self).env_ids(),
            final(self).env_collections() == old(self).env_collections(),
            final(self).app_collections() == old(self).app_collections(),
            final(self).base_env_path() == old(self).base_env_path(),
            match deleted {
                Err(e) => {
                    &&& r is Err && r->Err_0 == e
                    &&& final(self).apps() == old(self).apps()
                    &&& final(self).app_ids() == old(self).app_ids()
                },
                Ok(_) => if old(self).apps().contains_key(app_id@) {
                    &&& r is Ok
                    &&& r->Ok_0@ == old(self).apps()[app_id@]
                    &&& final(self).apps() == old(self).apps().remove(app_id@)
                } else {
                    &&& r is Err && r->Err_0@ == (ErrorModel::NotFound { id: app_id@ })
                    &&& final(self).apps() == old(self).apps()
                    &&& final(self).app_ids() == old(self).app_ids()
                },
            },
    {
        match deleted {
            Ok(_) => {},
            Err(e) => {
                return Err(e);
            },
        }
        match self.registered_apps.remove(app_id) {
            Some(app) => {
                proof {
                    assert(self.apps() =~= old(self).apps().remove(app_id@));
                }
                Ok(app)
            },
            None => Err(VivaError::NotFound { id: app_id.to_owned() }),
        }
    }

    /// Adds an environment: its declaration is written to its collection,
    /// the collection `default` where none is named, and the environment
    /// is registered. An id that is registered already is an error, and so
    /// is a collection that is not known.
    pub fn add_env(
        &mut self,
        env_id: &str,
        env: Option<VivaEnvSpec>,
        collection_id: Option<&str>,
        actual: Option<VivaEnvSpec>,
    ) -> (r: Result<&VivaEnv, VivaError>)
        requires
            old(self).wf(),
        ensures
            final(self).wf(),
            final(self).apps() == old(self).apps(),
            final(self).app_ids() == old(self).app_ids(),
            final(self).app_collections() == old(self).app_collections(),
            final(self).base_env_path() == old(self).base_env_path(),
            final(self).env_collections().dom() == old(self).env_collections().dom(),
            old(self).sound() ==> final(self).sound(),
            ({
                let target = match collection_id {
                    Some(id) => id@,
                    None => DEFAULT_ID@,
                };
                let spec = match env {
                    Some(spec) => spec@,
                    None => EnvSpecModel::empty(),
                };
                if old(self).envs().contains_key(env_id@) {
                    &&& r is Err && r->Err_0@ == (ErrorModel::DuplicateId { id: env_id@ })
                    &&& final(self).envs() == old(self).envs()
                    &&& final(self).env_collections() == old(self).env_collections()
                } else if !old(self).env_collections().contains_key(target) {
                    &&& r is Err && r->Err_0@ == (ErrorModel::NotFound { id: target })
                    &&& final(self).envs() == old(self).envs()
                    &&& final(self).env_collections() == old(self).env_collections()
                } else {
                    &&& forall|id: Seq<char>|
                        id != target && #[trigger] old(self).env_collections().contains_key(id)
                            ==> final(self).env_collections()[id] == old(self).env_collections()[id]
                    &&& match r {
                        Ok(added) => {
                            &&& added@ == new_env(
                                old(self).base_env_path(),
                                env_id@,
                                target,
                                spec,
                                spec_of(actual),
                            )
                            &&& final(self).envs() == old(self).envs().insert(env_id@, added@)
                            &&& final(self).env_collections()[target].specs() == old(
                                self,
                            ).env_collections()[target].specs().insert(env_id@, spec)
                        },
                        Err(_) => final(self).envs() == old(self).envs(),
                    }
                }
            }),
    {
        if self.has_env(env_id) {
            return Err(VivaError::DuplicateId { id: env_id.to_owned() });
        }
        let env_col_name = match collection_id {
            Some(col_name) => col_name,
            None => DEFAULT_ID,
        };
        let env_spec = match env {
            Some(env) => env,
            None => VivaEnvSpec::new(),
        };
        let ghost before = self.env_collections@;
        let stored = match self.env_collections.get_mut(env_col_name) {
            Some(collection) => collection.set_env(env_id, &env_spec),
            None => Err(VivaError::NotFound { id: env_col_name.to_owned() }),
        };
        proof {
            assert(self.env_collections@.dom() =~= before.dom());
        }
        self.register_stored_env(env_id, env_col_name, env_spec, actual, stored)
    }

    /// Adds an app: the environment id is picked by the rule, the app's
    /// declaration is written to its collection, and the app is
    /// registered. An id that is registered already is an error, and so
    /// is a collection that is not known; nothing is written then.
    pub fn add_app(
        &mut self,
        app_id: &str,
        app_spec: VivaAppSpec,
        collection_id: &str,
        placement_strategy: AppEnvPlacementStrategy,
    ) -> (r: Result<&VivaApp, VivaError>)
        requires
            old(self).wf(),
        ensures
            final(self).wf(),
            final(self).envs() == old(self).envs(),
            final(self).env_ids() == old(self).env_ids(),
            final(self).env_collections() == old(self).env_collections(),
            final(self).base_env_path() == old(self).base_env_path(),
            final(self).app_collections().dom() == old(self).app_collections().dom(),
            if old(self).apps().contains_key(app_id@) {
                &&& r is Err && r->Err_0@ == (ErrorModel::DuplicateId { id: app_id@ })
                &&& final(self).apps() == old(self).apps()
                &&& final(self).app_collections() == old(self).app_collections()
            } else if !old(self).app_collections().contains_key(collection_id@) {
                &&& r is Err && r->Err_0@ == (ErrorModel::NotFound { id: collection_id@ })
                &&& final(self).apps() == old(self).apps()
                &&& final(self).app_collections() == old(self).app_collections()
            } else {
                &&& forall|id: Seq<char>|
                    id != collection_id@ && #[trigger] old(self).app_collections().contains_key(id)
                        ==> final(self).app_collections()[id] == old(self).app_collections()[id]
                &&& match r {
                    Ok(added) => {
                        &&& added@ == (AppModel {
                            id: app_id@,
                            spec: app_spec@,
                            app_collection_id: collection_id@,
                            env_id: placement_strategy@.resolve(app_id@, collection_id@),
                        })
                        &&& final(self).apps() == old(self).apps().insert(app_id@, added@)
                        &&& final(self).app_collections()[collection_id@].specs() == old(
                            self,
                        ).app_collections()[collection_id@].specs().insert(app_id@, app_spec@)
                    },
                    Err(_) => final(self).apps() == old(self).apps(),
                }
            },
    {
        if self.registered_apps.contains_key(app_id) {
            return Err(VivaError::DuplicateId { id: app_id.to_owned() });
        }
        let env_id = self.get_env_id_for_app(app_id, &app_spec, collection_id, &placement_strategy);
        let ghost before = self.app_collections@;
        let stored = match self.app_collections.get_mut(collection_id) {
            Some(collection) => collection.set_app(app_id, &app_spec),
            None => Err(VivaError::NotFound { id: collection_id.to_owned() }),
        };
        proof {
            assert(self.app_collections@.dom() =~= before.dom());
        }
        self.register_stored_app(app_id, app_spec, collection_id, env_id, stored)
    }

    /// Removes an environment: its declaration is deleted from its
    /// collection and its registration is dropped. The environment is
    /// handed back, so that what was built for it can be removed.
    pub fn remove_env(&mut self, env_id: &str) -> (r: Result<VivaEnv, VivaError>)
        requires
            old(self).wf(),
        ensures
            final(self).wf(),
            final(self).apps() == old(self).apps(),
            final(self).app_ids() == old(self).app_ids(),
            final(self).app_collections() == old(self).app_collections(),
            final(self).base_env_path() == old(self).base_env_path(),
            final(self).env_collections().dom() == old(self).env_collections().dom(),
            old(self).sound() ==> final(self).sound(),
            if !old(self).envs().contains_key(env_id@) {
                &&& r is Err && r->Err_0@ == (ErrorModel::NotFound { id: env_id@ })
                &&& final(self).envs() == old(self).envs()
                &&& final(self).env_collections() == old(self).env_collections()
            } else if !old(self).env_collections().contains_key(
                old(self).envs()[env_id@].collection_id,
            ) {
                &&& r is Err && r->Err_0@ == (ErrorModel::NotFound {
                    id: old(self).envs()[env_id@].collection_id,
                })
                &&& final(self).envs() == old(self).envs()
                &&& final(self).env_collections() == old(self).env_collections()
            } else {
                let collection_id = old(self).envs()[env_id@].collection_id;
                &&& forall|id: Seq<char>|
                    id != collection_id && #[trigger] old(self).env_collections().contains_key(id)
                        ==> final(self).env_collections()[id] == old(self).env_collections()[id]
                &&& match r {
                    Ok(removed) => {
                        &&& removed@ == old(self).envs()[env_id@]
                        &&& final(self).envs() == old(self).envs().remove(env_id@)
                        &&& final(self).env_collections()[collection_id].specs() == old(
                            self,
                        ).env_collections()[collection_id].specs().remove(env_id@)
                    },
                    Err(_) => final(self).envs() == old(self).envs(),
                }
            },
    {
        let collection_id = match self.registered_envs.get(env_id) {
            Some(env) => env.get_collection_id().clone(),
            None => {
                return Err(VivaError::NotFound { id: env_id.to_owned() });
            },
        };
        let ghost before = self.env_collections@;
        let deleted = match self.env_collections.get_mut(collection_id.as_str()) {
            Some(collection) => collection.delete_env(env_id),
            None => Err(VivaError::NotFound { id: collection_id }),
        };
        proof {
            assert(self.env_collections@.dom() =~= before.dom());
        }
        self.drop_deleted_env(env_id, deleted)
    }

    /// Removes an app: its declaration is deleted from its collection and
    /// its registration is dropped. What the app had folded into its
    /// environment stays there.
    pub fn remove_app(&mut self, app_id: &str) -> (r: Result<VivaApp, VivaError>)
        requires
            old(self).wf(),
        ensures
            final(self).wf(),
            final(self).envs() == old(self).envs(),
            final(self).env_ids() == old(self).env_ids(),
            final(self).env_collections() == old(self).env_collections(),
            final(self).base_env_path() == old(self).base_env_path(),
            final(self).app_collections().dom() == old(self).app_collections().dom(),
            if !old(self).apps().contains_key(app_id@) {
                &&& r is Err && r->Err_0@ == (ErrorModel::NotFound { id: app_id@ })
                &&& final(self).apps() == old(self).apps()
                &&& final(self).app_collections() == old(self).app_collections()
            } else if !old(self).app_collections().contains_key(
                old(self).apps()[app_id@].app_collection_id,
            ) {
                &&& r is Err && r->Err_0@ == (ErrorModel::NotFound {
                    id: old(self).apps()[app_id@].app_collection_id,
                })
                &&& final(self).apps() == old(self).apps()
                &&& final(self).app_collections() == old(self).app_collections()
            } else {
                let collection_id = old(self).apps()[app_id@].app_collection_id;
                &&& forall|id: Seq<char>|
                    id != collection_id && #[trigger] old(self).app_collections().contains_key(id)
                        ==> final(self).app_collections()[id] == old(self).app_collections()[id]
                &&& match r {
                    Ok(removed) => {
                        &&& removed@ == old(self).apps()[app_id@]
                        &&& final(self).apps() == old(self).apps().remove(app_id@)
                        &&& final(self).app_collections()[collection_id].specs() == old(
                            self,
                        ).app_collections()[collection_id].specs().remove(app_id@)
                    },
                    Err(_) => final(self).apps() == old(self).apps(),
                }
            },
    {
        let collection_id = match self.registered_apps.get(app_id) {
            Some(app) => app.get_collection_id().clone(),
            None => {
                return Err(VivaError::NotFound { id: app_id.to_owned() });
            },
        };
        let ghost before = self.app_collections@;
        let deleted = match self.app_collections.get_mut(collection_id.as_str()) {
            Some(collection) => collection.delete_app(app_id),
            None => Err(VivaError::NotFound { id: collection_id }),
        };
        proof {
            assert(self.app_collections@.dom() =~= before.dom());
        }
        self.drop_deleted_app(app_id, deleted)
    }

    /// Takes note of how building an environment ended: after a success
    /// the environment is in sync with what it was built with, after a
    /// failure it is not, and the failure is handed on.
    pub fn finish_sync(&mut self, env_id: &str, outcome: Result<(), String>) -> (r: Result<
        bool,
        VivaError,
    >)
        requires
            old(self).wf(),
        ensures
            final(self).wf(),
            final(self).apps() == old(self).apps(),
            final(self).app_ids() == old(self).app_ids(),
            final(self).env_ids() == old(self).env_ids(),
            final(self).env_collections() == old(self).env_collections(),
            final(self).app_collections() == old(self).app_collections(),
            final(self).base_env_path() == old(self).base_env_path(),
            old(self).sound() ==> final(self).sound(),
            if !old(self).envs().contains_key(env_id@) {
                &&& r is Err && r->Err_0@ == (ErrorModel::NotFound { id: env_id@ })
                &&& final(self).envs() == old(self).envs()
            } else {
                let env = old(self).envs()[env_id@];
                match outcome {
                    Ok(_) => {
                        &&& r == Ok::<bool, VivaError>(true)
                        &&& final(self).envs() == old(self).envs().insert(
                            env_id@,
                            EnvModel {
                                actual: env.spec,
                                sync_status: EnvSyncStatus::Synced,
                                ..env
                            },
                        )
                    },
                    Err(cause) => {
                        &&& r is Err && r->Err_0@ == (ErrorModel::MaterializationFailure {
                            env_id: env.id,
                            env_path: env.env_path,
                            cause: cause@,
                        })
                        &&& final(self).envs() == old(self).envs().insert(
                            env_id@,
                            EnvModel { sync_status: EnvSyncStatus::NotSynced, ..env },
                        )
                    },
                }
            },
    {
        let ghost registered = self.envs();
        let r = match self.registered_envs.get_mut(env_id) {
            Some(env) => env.finish_sync(outcome),
            None => Err(VivaError::NotFound { id: env_id.to_owned() }),
        };
        proof {
            if registered.contains_key(env_id@) {
                let env = registered[env_id@];
                assert(self.envs() =~= registered.insert(
                    env_id@,
                    match outcome {
                        Ok(_) => EnvModel {
                            actual: env.spec,
                            sync_status: EnvSyncStatus::Synced,
                            ..env
                        },
                        Err(_) => EnvModel { sync_status: EnvSyncStatus::NotSynced, ..env },
                    },
                ));
            } else {
                assert(self.envs() =~= registered);
            }
        }
        r
    }

    /// Folds the requirements of one app into the declaration of the
    /// environment that was picked for it.
    pub fn merge_app_into_env(&mut self, app_id: &str) -> (r: Result<(), VivaError>)
        requires
            old(self).wf(),
        ensures
            final(self).wf(),
            final(self).apps() == old(self).apps(),
            final(self).app_ids() == old(self).app_ids(),
            final(self).env_ids() == old(self).env_ids(),
            final(self).env_collections() == old(self).env_collections(),
            final(self).app_collections() == old(self).app_collections(),
            final(self).base_env_path() == old(self).base_env_path(),
            old(self).sound() ==> final(self).sound(),
            if !old(self).apps().contains_key(app_id@) {
                &&& r is Err && r->Err_0@ == (ErrorModel::NotFound { id: app_id@ })
                &&& final(self).envs() == old(self).envs()
            } else {
                let app = old(self).apps()[app_id@];
                if !old(self).envs().contains_key(app.env_id) {
                    &&& r is Err && r->Err_0@ == (ErrorModel::NotFound { id: app.env_id })
                    &&& final(self).envs() == old(self).envs()
                } else {
                    &&& r is Ok
                    &&& final(self).envs() == old(self).envs().insert(
                        app.env_id,
                        old(self).envs()[app.env_id].merged(app.spec.env_spec),
                    )
                }
            },
    {
        let (env_id, app_env_spec) = match self.registered_apps.get(app_id) {
            Some(app) => (app.get_env_id().to_owned(), app.get_env_spec().clone()),
            None => {
                return Err(VivaError::NotFound { id: app_id.to_owned() });
            },
        };
        let ghost registered = self.envs();
        let r = match self.registered_envs.get_mut(env_id.as_str()) {
            Some(env) => env.merge_spec(&app_env_spec),
            None => Err(VivaError::NotFound { id: env_id }),
        };
        proof {
            if registered.contains_key(env_id@) {
                assert(self.envs() =~= registered.insert(
                    env_id@,
                    registered[env_id@].merged(app_env_spec@),
                ));
            } else {
                assert(self.envs() =~= registered);
            }
        }
        r
    }

    /// Folds the requirements of every app into the declaration of its
    /// environment, in ascending order of app id. The first environment
    /// that is not found ends the folding with an error.
    pub fn merge_all_apps(&mut self) -> (r: Result<(), VivaError>)
        requires
            old(self).wf(),
        ensures
            final(self).wf(),
            final(self).apps() == old(self).apps(),
            final(self).app_ids() == old(self).app_ids(),
            final(self).env_ids() == old(self).env_ids(),
            final(self).env_collections() == old(self).env_collections(),
            final(self).app_collections() == old(self).app_collections(),
            final(self).base_env_path() == old(self).base_env_path(),
            old(self).sound() ==> final(self).sound(),
            final(self).envs() == apps_merged(old(self).envs(), old(self).apps(), old(self).app_ids()).0,
            match apps_merged(old(self).envs(), old(self).apps(), old(self).app_ids()).1 {
                None => r is Ok,
                Some(env_id) => r is Err && r->Err_0@ == (ErrorModel::NotFound { id: env_id }),
            },
    {
        let app_ids = self.get_app_ids();
        let mut i: usize = 0;
        proof {
            assert(app_ids.deep_view().take(0) =~= Seq::<Seq<char>>::empty());
        }
        while i < app_ids.len()
            invariant
                0 <= i <= app_ids@.len(),
                self.wf(),
                app_ids.deep_view() == old(self).app_ids(),
                forall|id: Seq<char>|
                    app_ids.deep_view().contains(id) <==> #[trigger] old(self).apps().contains_key(id),
                self.apps() == old(self).apps(),
                self.app_ids() == old(self).app_ids(),
                self.env_ids() == old(self).env_ids(),
                self.env_collections() == old(self).env_collections(),
                self.app_collections() == old(self).app_collections(),
                self.base_env_path() == old(self).base_env_path(),
                old(self).sound() ==> self.sound(),
                apps_merged(
                    old(self).envs(),
                    old(self).apps(),
                    app_ids.deep_view().take(i as int),
                ) == (self.envs(), None::<Seq<char>>),
            decreases app_ids@.len() - i,
        {
            proof {
                let ids = app_ids.deep_view();
                assert(ids.take(i + 1).drop_last() =~= ids.take(i as int));
                assert(ids.take(i + 1).last() == ids[i as int]);
                assert(ids[i as int] == app_ids@[i as int]@);
                assert(ids.contains(ids[i as int]));
            }
            match self.merge_app_into_env(app_ids[i].as_str()) {
                Ok(_) => {},
                Err(e) => {
                    proof {
                        lemma_apps_merged_stops(
                            old(self).envs(),
                            old(self).apps(),
                            app_ids.deep_view(),
                            i + 1,
                        );
                    }
                    return Err(e);
                },
            }
            i = i + 1;
        }
        proof {
            assert(app_ids.deep_view().take(app_ids@.len() as int) =~= app_ids.deep_view());
        }
        Ok(())
    }

    /// Works out the status of every environment whose status is unknown.
    pub fn check_envs_sync_status(&mut self) -> (r: Result<(), VivaError>)
        requires
            old(self).wf(),
        ensures
            final(self).wf(),
            r is Ok,
            final(self).envs() == old(self).envs().map_values(|env: EnvModel| settled(env)),
            final(self).apps() == old(self).apps(),
            final(self).app_ids() == old(self).app_ids(),
            final(self).env_ids() == old(self).env_ids(),
            final(self).env_collections() == old(self).env_collections(),
            final(self).app_collections() == old(self).app_collections(),
            final(self).base_env_path() == old(self).base_env_path(),
            old(self).sound() ==> final(self).sound(),
    {
        let env_ids = self.get_env_ids();
        let mut i: usize = 0;
        while i < env_ids.len()
            invariant
                0 <= i <= env_ids@.len(),
                self.wf(),
                env_ids.deep_view().no_duplicates(),
                forall|id: Seq<char>|
                    env_ids.deep_view().contains(id) <==> #[trigger] old(self).envs().contains_key(id),
                self.envs().dom() == old(self).envs().dom(),
                forall|id: Seq<char>| #[trigger]
                    self.envs().contains_key(id) ==> self.envs()[id] == (if env_ids.deep_view().take(
                        i as int,
                    ).contains(id) {
                        settled(old(self).envs()[id])
                    } else {
                        old(self).envs()[id]
                    }),
                self.apps() == old(self).apps(),
                self.app_ids() == old(self).app_ids(),
                self.env_ids() == old(self).env_ids(),
                self.env_collections() == old(self).env_collections(),
                self.app_collections() == old(self).app_collections(),
                self.base_env_path() == old(self).base_env_path(),
                old(self).sound() ==> self.sound(),
            decreases env_ids@.len() - i,
        {
            let ghost ids = env_ids.deep_view();
            let ghost registered = self.envs();
            let ghost current = env_ids@[i as int]@;
            proof {
                assert(ids[i as int] == current);
                assert(ids.contains(current));
                assert(!ids.take(i as int).contains(current)) by {
                    if ids.take(i as int).contains(current) {
                        let k = choose|k: int| 0 <= k < i && ids.take(i as int)[k] == current;
                        assert(ids[k] == ids[i as int]);
                    }
                }
                assert forall|x: Seq<char>|
                    ids.take(i + 1).contains(x) <==> ids.take(i as int).contains(x) || x
                        == current by {
                    let longer = ids.take(i + 1);
                    let shorter = ids.take(i as int);
                    if longer.contains(x) {
                        let k = choose|k: int| 0 <= k < longer.len() && longer[k] == x;
                        if k < i {
                            assert(shorter[k] == x);
                        }
                    }
                    if shorter.contains(x) {
                        let k = choose|k: int| 0 <= k < shorter.len() && shorter[k] == x;
                        assert(longer[k] == x);
                    }
                    assert(longer[i as int] == current);
                }
            }
            match self.registered_envs.get_mut(env_ids[i].as_str()) {
                Some(env) => {
                    if env.get_sync_status() == EnvSyncStatus::Unknown {
                        env.check_and_update_sync_status();
                    }
                },
                None => {},
            }
            proof {
                assert(self.envs() =~= registered.insert(current, settled(registered[current])));
            }
            i = i + 1;
        }
        proof {
            assert(env_ids.deep_view().take(env_ids@.len() as int) =~= env_ids.deep_view());
            assert(self.envs() =~= old(self).envs().map_values(|env: EnvModel| settled(env)));
        }
        Ok(())
    }

    /// Decides what has to be built to bring environments in sync: the
    /// named ones, each once, or all where none is named. Where nothing is
    /// registered under some of the ids, that is an error that names all
    /// of them, separated by a comma and a blank, and nothing changes.
    /// Else the status of every selected environment is worked out where
    /// it was unknown, and each one that is not in sync gives a request.
    pub fn sync_envs(&mut self, env_ids: &Vec<String>) -> (r: Result<Vec<SyncRequest>, VivaError>)
        requires
            old(self).wf(),
        ensures
            final(self).wf(),
            final(self).apps() == old(self).apps(),
            final(self).app_ids() == old(self).app_ids(),
            final(self).env_ids() == old(self).env_ids(),
            final(self).env_collections() == old(self).env_collections(),
            final(self).app_collections() == old(self).app_collections(),
            final(self).base_env_path() == old(self).base_env_path(),
            old(self).sound() ==> final(self).sound(),
            if unregistered(old(self).envs(), env_ids.deep_view()).len() > 0 {
                &&& r is Err && r->Err_0@ == (ErrorModel::NotFound {
                    id: joined(unregistered(old(self).envs(), env_ids.deep_view()), ", "@),
                })
                &&& final(self).envs() == old(self).envs()
            } else {
                let ids = selected(env_ids.deep_view(), old(self).env_ids());
                &&& r is Ok
                &&& final(self).envs() == envs_settled(old(self).envs(), ids)
                &&& r->Ok_0@.len() == requests_for(old(self).envs(), ids).len()
                &&& forall|i: int|
                    0 <= i < r->Ok_0@.len() ==> (#[trigger] r->Ok_0@[i])@ == requests_for(
                        old(self).envs(),
                        ids,
                    )[i]
            },
    {
        let named = distinct_list(env_ids);
        let ghost absent = |id: Seq<char>| !old(self).envs().contains_key(id);
        let mut missing: Vec<String> = Vec::new();
        let mut i: usize = 0;
        proof {
            assert(named.deep_view().take(0) =~= Seq::<Seq<char>>::empty());
            reveal_with_fuel(Seq::filter, 1);
            assert(missing.deep_view() =~= named.deep_view().take(0).filter(absent));
        }
        while i < named.len()
            invariant
                0 <= i <= named@.len(),
                self.wf(),
                *self == *old(self),
                absent == |id: Seq<char>| !old(self).envs().contains_key(id),
                missing.deep_view() == named.deep_view().take(i as int).filter(absent),
            decreases named@.len() - i,
        {
            let ghost seen = named.deep_view().take(i as int);
            let ghost found = missing.deep_view();
            proof {
                assert(named.deep_view().take(i + 1) =~= seen.push(named@[i as int]@));
                seen.lemma_filter_push(named@[i as int]@, absent);
            }
            if !self.has_env(named[i].as_str()) {
                missing.push(named[i].clone());
                assert(missing.deep_view() =~= found.push(named@[i as int]@));
            }
            i = i + 1;
        }
        proof {
            assert(named.deep_view().take(named@.len() as int) =~= named.deep_view());
            assert(missing.deep_view() == unregistered(old(self).envs(), env_ids.deep_view()));
        }
        if missing.len() > 0 {
            return Err(VivaError::NotFound { id: join_texts(&missing, ", ") });
        }
        proof {
            assert forall|k: int| 0 <= k < named.deep_view().len() implies old(
                self,
            ).envs().contains_key(#[trigger] named.deep_view()[k]) by {
                if absent(named.deep_view()[k]) {
                    named.deep_view().lemma_filter_contains(absent, k);
                }
            }
            assert(env_ids.deep_view().len() == env_ids@.len());
        }
        let env_ids_to_sync = if env_ids.len() == 0 {
            self.get_env_ids()
        } else {
            named
        };
        let ghost ids = env_ids_to_sync.deep_view();
        let ghost unsynced = |id: Seq<char>|
            settled(old(self).envs()[id]).sync_status != EnvSyncStatus::Synced;
        let mut requests: Vec<SyncRequest> = Vec::new();
        let mut j: usize = 0;
        proof {
            assert(ids == selected(env_ids.deep_view(), old(self).env_ids()));
            assert(ids.take(0) =~= Seq::<Seq<char>>::empty());
            reveal_with_fuel(Seq::filter, 1);
            assert(ids.take(0).filter(unsynced) =~= Seq::<Seq<char>>::empty());
            assert(forall|k: int| 0 <= k < ids.len() ==> old(self).envs().contains_key(#[trigger] ids[k]));
        }
        while j < env_ids_to_sync.len()
            invariant
                0 <= j <= env_ids_to_sync@.len(),
                self.wf(),
                ids == env_ids_to_sync.deep_view(),
                forall|k: int| 0 <= k < ids.len() ==> old(self).envs().contains_key(#[trigger] ids[k]),
                unsynced == |id: Seq<char>|
                    settled(old(self).envs()[id]).sync_status != EnvSyncStatus::Synced,
                self.envs() == envs_settled(old(self).envs(), ids.take(j as int)),
                requests@.len() == ids.take(j as int).filter(unsynced).len(),
                forall|k: int|
                    0 <= k < requests@.len() ==> (#[trigger] requests@[k])@ == request_of(
                        old(self).envs()[ids.take(j as int).filter(unsynced)[k]],
                    ),
                self.apps() == old(self).apps(),
                self.app_ids() == old(self).app_ids(),
                self.env_ids() == old(self).env_ids(),
                self.env_collections() == old(self).env_collections(),
                self.app_collections() == old(self).app_collections(),
                self.base_env_path() == old(self).base_env_path(),
                old(self).sound() ==> self.sound(),
            decreases env_ids_to_sync@.len() - j,
        {
            let ghost current = ids[j as int];
            let ghost registered = self.envs();
            let ghost seen = ids.take(j as int);
            proof {
                assert(current == env_ids_to_sync@[j as int]@);
                assert(ids.take(j + 1) =~= seen.push(current));
                seen.lemma_filter_push(current, unsynced);
                assert forall|x: Seq<char>| ids.take(j + 1).contains(x) <==> seen.contains(x) || x
                    == current by {
                    let longer = ids.take(j + 1);
                    if longer.contains(x) {
                        let k = choose|k: int| 0 <= k < longer.len() && longer[k] == x;
                        if k < j {
                            assert(seen[k] == x);
                        }
                    }
                    if seen.contains(x) {
                        let k = choose|k: int| 0 <= k < seen.len() && seen[k] == x;
                        assert(longer[k] == x);
                    }
                    assert(longer[j as int] == current);
                }
                assert(registered.contains_key(current));
                assert(settled(registered[current]) == settled(old(self).envs()[current]));
            }
            let request = match self.registered_envs.get_mut(env_ids_to_sync[j].as_str()) {
                Some(env) => env.sync(),
                None => None,
            };
            proof {
                assert(self.envs() =~= registered.insert(current, settled(registered[current])));
                assert(self.envs() =~= envs_settled(old(self).envs(), ids.take(j + 1)));
            }
            match request {
                Some(request) => {
                    requests.push(request);
                },
                None => {},
            }
            j = j + 1;
        }
        proof {
            assert(ids.take(ids.len() as int) =~= ids);
            let wanted = requests_for(old(self).envs(), ids);
            assert(wanted.len() == requests@.len());
            assert forall|k: int| 0 <= k < requests@.len() implies (#[trigger] requests@[k])@
                == wanted[k] by {
                assert(wanted[k] == request_of(old(self).envs()[ids.filter(unsynced)[k]]));
            }
        }
        Ok(requests)
    }

    /// The environment registered under the id, for changing in place.
    pub fn get_env_mut(&mut self, env_id: &str) -> (r: Result<&mut VivaEnv, VivaError>)
        requires
            old(self).wf(),
        ensures
            final(self).wf(),
            final(self).apps() == old(self).apps(),
            final(self).app_ids() == old(self).app_ids(),
            final(self).env_ids() == old(self).env_ids(),
            final(self).env_collections() == old(self).env_collections(),
            final(self).app_collections() == old(self).app_collections(),
            final(self).base_env_path() == old(self).base_env_path(),
            match r {
                Ok(env) => {
                    &&& old(self).envs().contains_key(env_id@)
                    &&& env@ == old(self).envs()[env_id@]
                    &&& final(self).envs() == old(self).envs().insert(env_id@, (*final(env))@)
                },
                Err(e) => {
                    &&& !old(self).envs().contains_key(env_id@)
                    &&& e@ == (ErrorModel::NotFound { id: env_id@ })
                    &&& final(self).envs() == old(self).envs()
                },
            },
    {
        let ghost table = self.registered_envs@;
        proof {
            assert forall|changed: VivaEnv|
                (#[trigger] table.insert(env_id@, changed)).map_values(|env: VivaEnv| env@)
                    == table.map_values(|env: VivaEnv| env@).insert(env_id@, changed@) by {
                assert(table.insert(env_id@, changed).map_values(|env: VivaEnv| env@)
                    =~= table.map_values(|env: VivaEnv| env@).insert(env_id@, changed@));
            }
        }
        match self.registered_envs.get_mut(env_id) {
            Some(env) => Ok(env),
            None => Err(VivaError::NotFound { id: env_id.to_owned() }),
        }
    }

    /// The collection of environment declarations with the id, for reading.
    pub fn env_collection(&self, collection_id: &str) -> (r: Option<&E>)
        requires
            self.wf(),
        ensures
            match r {
                Some(collection) => self.env_collections().contains_key(collection_id@)
                    && *collection == self.env_collections()[collection_id@] && collection.wf(),
                None => !self.env_collections().contains_key(collection_id@),
            },
    {
        self.env_collections.get(collection_id)
    }

    /// The collection of app declarations with the id, for reading.
    pub fn app_collection(&self, collection_id: &str) -> (r: Option<&A>)
        requires
            self.wf(),
        ensures
            match r {
                Some(collection) => self.app_collections().contains_key(collection_id@)
                    && *collection == self.app_collections()[collection_id@] && collection.wf(),
                None => !self.app_collections().contains_key(collection_id@),
            },
    {
        self.app_collections.get(collection_id)
    }

    /// The collection of environment declarations with the id, for
    /// changing in place. The registry stays valid where the collection does.
    pub fn env_collection_mut(&mut self, collection_id: &str) -> (r: Option<&mut E>)
        requires
            old(self).wf(),
        ensures
            final(self).envs() == old(self).envs(),
            final(self).env_ids() == old(self).env_ids(),
            final(self).apps() == old(self).apps(),
            final(self).app_ids() == old(self).app_ids(),
            final(self).app_collections() == old(self).app_collections(),
            final(self).base_env_path() == old(self).base_env_path(),
            match r {
                Some(collection) => {
                    &&& old(self).env_collections().contains_key(collection_id@)
                    &&& *collection == old(self).env_collections()[collection_id@]
                    &&& collection.wf()
                    &&& final(self).env_collections() == old(self).env_collections().insert(
                        collection_id@,
                        *final(collection),
                    )
                    &&& final(collection).wf() ==> final(self).wf()
                },
                None => {
                    &&& !old(self).env_collections().contains_key(collection_id@)
                    &&& final(self).env_collections() == old(self).env_collections()
                    &&& final(self).wf()
                },
            },
    {
        self.env_collections.get_mut(collection_id)
    }

    /// The collection of app declarations with the id, for changing in
    /// place. The registry stays valid where the collection does.
    pub fn app_collection_mut(&mut self, collection_id: &str) -> (r: Option<&mut A>)
        requires
            old(self).wf(),
        ensures
            final(self).envs() == old(self).envs(),
            final(self).env_ids() == old(self).env_ids(),
            final(self).apps() == old(self).apps(),
            final(self).app_ids() == old(self).app_ids(),
            final(self).env_collections() == old(self).env_collections(),
            final(self).base_env_path() == old(self).base_env_path(),
            match r {
                Some(collection) => {
                    &&& old(self).app_collections().contains_key(collection_id@)
                    &&& *collection == old(self).app_collections()[collection_id@]
                    &&& collection.wf()
                    &&& final(self).app_collections() == old(self).app_collections().insert(
                        collection_id@,
                        *final(collection),
                    )
                    &&& final(collection).wf() ==> final(self).wf()
                },
                None => {
                    &&& !old(self).app_collections().contains_key(collection_id@)
                    &&& final(self).app_collections() == old(self).app_collections()
                    &&& final(self).wf()
                },
            },
    {
        self.app_collections.get_mut(collection_id)
    }
}

} // verus!
