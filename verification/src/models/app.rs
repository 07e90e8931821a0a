//! Apps: an executable with its arguments, the environment it needs, and
//! the rule that picks the environment it is folded into.

use vstd::prelude::*;
use crate::errors::{ErrorModel, VivaError};
use crate::models::{Decoded, SpecFormat};
use crate::store::{SpecStore, StoreAction, StoreModel};
use crate::merge::{clone_list, same_list};
use crate::models::environment::{EnvSpecModel, VivaEnvSpec};
use crate::text::same_text;

verus! {

/// The rule that picks the environment an app's requirements are folded into.
#[derive(Debug)]
pub enum AppEnvPlacementStrategy {
    /// The environment named `default`.
    Default,
    /// The environment named like the app's collection.
    CollectionId,
    /// An environment of the app's own, named like the app.
    AppId,
    /// The environment with the given id.
    Custom(String),
}

/// A placement rule as plain values.
pub enum PlacementModel {
    Default,
    CollectionId,
    AppId,
    Custom(Seq<char>),
}

impl PlacementModel {
    /// The rule that a text names: three reserved words name the three
    /// fixed rules, and any other text is itself the environment's id.
    pub open spec fn named(text: Seq<char>) -> PlacementModel {
        if text == "--default--"@ {
            PlacementModel::Default
        } else if text == "--collection_id--"@ {
            PlacementModel::CollectionId
        } else if text == "--app_id--"@ {
            PlacementModel::AppId
        } else {
            PlacementModel::Custom(text)
        }
    }

    /// The id of the environment that the rule picks for an app.
    pub open spec fn resolve(self, app_id: Seq<char>, collection_id: Seq<char>) -> Seq<char> {
        match self {
            PlacementModel::Default => "default"@,
            PlacementModel::CollectionId => collection_id,
            PlacementModel::AppId => app_id,
            PlacementModel::Custom(env_id) => env_id,
        }
    }
}

impl View for AppEnvPlacementStrategy {
    type V = PlacementModel;

    open spec fn view(&self) -> PlacementModel {
        match *self {
            AppEnvPlacementStrategy::Default => PlacementModel::Default,
            AppEnvPlacementStrategy::CollectionId => PlacementModel::CollectionId,
            AppEnvPlacementStrategy::AppId => PlacementModel::AppId,
            AppEnvPlacementStrategy::Custom(env_id) => PlacementModel::Custom(env_id@),
        }
    }
}

impl AppEnvPlacementStrategy {
    /// The rule that a text names. Every text names one.
    pub fn from_str(strategy: &str) -> (r: Result<AppEnvPlacementStrategy, VivaError>)
        ensures
            r is Ok,
            r->Ok_0@ == PlacementModel::named(strategy@),
    {
        if same_text(strategy, "--default--") {
            Ok(AppEnvPlacementStrategy::Default)
        } else if same_text(strategy, "--collection_id--") {
            Ok(AppEnvPlacementStrategy::CollectionId)
        } else if same_text(strategy, "--app_id--") {
            Ok(AppEnvPlacementStrategy::AppId)
        } else {
            Ok(AppEnvPlacementStrategy::Custom(strategy.to_owned()))
        }
    }

    /// The id of the environment that the rule picks for the app `app_id`
    /// of the collection `collection_id`.
    pub fn resolve(&self, app_id: &str, collection_id: &str) -> (env_id: String)
        ensures
            env_id@ == self@.resolve(app_id@, collection_id@),
    {
        match self {
            AppEnvPlacementStrategy::Default => "default".to_owned(),
            AppEnvPlacementStrategy::CollectionId => collection_id.to_owned(),
            AppEnvPlacementStrategy::AppId => app_id.to_owned(),
            AppEnvPlacementStrategy::Custom(env_id) => env_id.clone(),
        }
    }
}

/// What an app is: the executable to start, its arguments, and the
/// environment it needs.
#[derive(Debug)]
pub struct VivaAppSpec {
    pub executable: String,
    pub args: Vec<String>,
    pub env_spec: VivaEnvSpec,
}

/// An app specification as plain values.
pub struct AppSpecModel {
    pub executable: Seq<char>,
    pub args: Seq<Seq<char>>,
    pub env_spec: EnvSpecModel,
}

impl AppSpecModel {
    /// Equality of app specifications: the same executable, the same
    /// arguments in the same order, and equal environment specifications.
    pub open spec fn equals(self, other: AppSpecModel) -> bool {
        &&& self.executable == other.executable
        &&& self.args == other.args
        &&& self.env_spec.equals(other.env_spec)
    }

    /// The command line: the executable and then the arguments.
    pub open spec fn full_cmd(self) -> Seq<Seq<char>> {
        seq![self.executable] + self.args
    }
}

impl View for VivaAppSpec {
    type V = AppSpecModel;

    open spec fn view(&self) -> AppSpecModel {
        AppSpecModel {
            executable: self.executable@,
            args: self.args.deep_view(),
            env_spec: self.env_spec@,
        }
    }
}

impl VivaAppSpec {
    /// The command line: the executable and then the arguments.
    pub fn get_full_cmd(&self) -> (cmd: Vec<String>)
        ensures
            cmd.deep_view() == self@.full_cmd(),
    {
        let mut cmd: Vec<String> = Vec::new();
        cmd.push(self.executable.clone());
        let mut i: usize = 0;
        while i < self.args.len()
            invariant
                0 <= i <= self.args@.len(),
                cmd@.len() == i + 1,
                cmd@[0]@ == self.executable@,
                forall|k: int| 0 <= k < i ==> #[trigger] cmd@[k + 1]@ == self.args@[k]@,
            decreases self.args@.len() - i,
        {
            cmd.push(self.args[i].clone());
            i = i + 1;
        }
        proof {
            let want = self@.full_cmd();
            assert(cmd.deep_view().len() == want.len());
            assert forall|k: int| 0 <= k < want.len() implies cmd.deep_view()[k] == want[k] by {
                if k > 0 {
                    assert(cmd@[(k - 1) + 1]@ == self.args@[k - 1]@);
                }
            }
            assert(cmd.deep_view() =~= want);
        }
        cmd
    }
}

impl Clone for VivaAppSpec {
    fn clone(&self) -> (copy: Self)
        ensures
            copy@ == self@,
    {
        VivaAppSpec {
            executable: self.executable.clone(),
            args: clone_list(&self.args),
            env_spec: self.env_spec.clone(),
        }
    }
}

impl PartialEq for VivaAppSpec {
    fn eq(&self, other: &Self) -> (r: bool) {
        if !same_text(self.executable.as_str(), other.executable.as_str()) {
            return false;
        }
        if !same_list(&self.args, &other.args) {
            return false;
        }
        self.env_spec == other.env_spec
    }
}

impl Eq for VivaAppSpec {}

impl vstd::std_specs::cmp::PartialEqSpecImpl for VivaAppSpec {
    open spec fn obeys_eq_spec() -> bool {
        true
    }

    open spec fn eq_spec(&self, other: &Self) -> bool {
        self@.equals(other@)
    }
}

/// An app of the registry.
#[derive(Debug)]
pub struct VivaApp {
    pub id: String,
    pub spec: VivaAppSpec,
    pub app_collection_id: String,
    env_id: String,
}

/// An app as plain values.
pub struct AppModel {
    pub id: Seq<char>,
    pub spec: AppSpecModel,
    pub app_collection_id: Seq<char>,
    pub env_id: Seq<char>,
}

impl View for VivaApp {
    type V = AppModel;

    closed spec fn view(&self) -> AppModel {
        AppModel {
            id: self.id@,
            spec: self.spec@,
            app_collection_id: self.app_collection_id@,
            env_id: self.env_id@,
        }
    }
}

impl VivaApp {
    /// An app made of the given parts. The environment id is fixed here
    /// and cannot be changed afterwards.
    pub fn create(id: String, spec: VivaAppSpec, app_collection_id: String, env_id: String) -> (app: VivaApp)
        ensures
            app@ == (AppModel {
                id: id@,
                spec: spec@,
                app_collection_id: app_collection_id@,
                env_id: env_id@,
            }),
    {
        VivaApp { id, spec, app_collection_id, env_id }
    }

    /// The app's id.
    pub fn get_id(&self) -> (id: &String)
        ensures
            id@ == self@.id,
    {
        &self.id
    }

    /// What the app is: its executable, its arguments and what it asks of
    /// its environment.
    pub fn get_spec(&self) -> (spec: &VivaAppSpec)
        ensures
            spec@ == self@.spec,
    {
        &self.spec
    }

    /// The id of the environment that the app's requirements are folded into.
    pub fn get_env_id(&self) -> (env_id: &str)
        ensures
            env_id@ == self@.env_id,
    {
        self.env_id.as_str()
    }

    /// The id of the collection that declares the app.
    pub fn get_collection_id(&self) -> (id: &String)
        ensures
            id@ == self@.app_collection_id,
    {
        &self.app_collection_id
    }

    /// What the app asks of its environment.
    pub fn get_env_spec(&self) -> (env_spec: &VivaEnvSpec)
        ensures
            env_spec@ == self@.spec.env_spec,
    {
        &self.spec.env_spec
    }
}

impl Clone for VivaApp {
    fn clone(&self) -> (copy: Self)
        ensures
            copy@ == self@,
    {
        VivaApp {
            id: self.id.clone(),
            spec: self.spec.clone(),
            app_collection_id: self.app_collection_id.clone(),
            env_id: self.env_id.clone(),
        }
    }
}

/// A named source of app declarations: a dictionary from id to
/// specification that can be listed, read, written and deleted from.
pub trait AppCollection {
    /// The collection's validity.
    spec fn wf(&self) -> bool;

    /// The collection as a dictionary.
    spec fn specs(&self) -> Map<Seq<char>, AppSpecModel>;

    /// The ids of the collection, each once.
    fn get_app_ids(&self) -> (ids: Vec<String>)
        requires
            self.wf(),
        ensures
            ids.deep_view().no_duplicates(),
            forall|id: Seq<char>|
                #![trigger ids.deep_view().contains(id)]
                #![trigger self.specs().contains_key(id)]
                ids.deep_view().contains(id) <==> self.specs().contains_key(id),
    ;

    /// The declaration under `app_id`; an id that the collection lacks is
    /// not found.
    fn get_app(&self, app_id: &str) -> (r: Result<&VivaAppSpec, VivaError>)
        requires
            self.wf(),
        ensures
            match r {
                Ok(spec) => self.specs().contains_key(app_id@) && spec@ == self.specs()[app_id@],
                Err(e) => !self.specs().contains_key(app_id@) && e@ == (ErrorModel::NotFound {
                    id: app_id@,
                }),
            },
    ;

    /// Deletes the declaration under `app_id`, if there is one. Where the
    /// collection reports success, the id is gone.
    fn delete_app(&mut self, app_id: &str) -> (r: Result<(), VivaError>)
        requires
            old(self).wf(),
        ensures
            final(self).wf(),
            r is Ok ==> final(self).specs() == old(self).specs().remove(app_id@),
    ;

    /// Sets the declaration under `app_id`. Where the collection reports
    /// success, it holds the declaration.
    fn set_app(&mut self, app_id: &str, app_spec: &VivaAppSpec) -> (r: Result<(), VivaError>)
        requires
            old(self).wf(),
        ensures
            final(self).wf(),
            r is Ok ==> final(self).specs() == old(self).specs().insert(app_id@, app_spec@),
    ;
}

/// The collection of app declarations that lives in files below one
/// directory: `apps.json` or `apps.yaml` as the consolidated document, and
/// one document for each app in `apps/`.
#[derive(Debug)]
pub struct DefaultAppCollection {
    store: SpecStore<VivaAppSpec>,
}

impl DefaultAppCollection {
    /// The state of the collection's store.
    pub closed spec fn model(&self) -> StoreModel<VivaAppSpec> {
        self.store.model()
    }

    /// Reads the collection from its documents, as they were found below
    /// `base_config_path` and decoded. A document that cannot be decoded
    /// ends the reading.
    pub fn create(
        base_config_path: String,
        consolidated: Option<Decoded<Vec<(String, VivaAppSpec)>>>,
        singles: Vec<(String, Decoded<VivaAppSpec>)>,
    ) -> (r: Result<Self, VivaError>)
        ensures
            match StoreModel::<VivaAppSpec>::loaded(
                base_config_path@,
                "apps"@,
                SpecFormat::Json,
                consolidated,
                singles@,
            ) {
                Ok(model) => {
                    &&& r is Ok
                    &&& r->Ok_0.wf()
                    &&& r->Ok_0.model() == model
                    &&& r->Ok_0.specs() == model.entries().map_values(|spec: VivaAppSpec| spec@)
                },
                Err(e) => r is Err && r->Err_0@ == e,
            },
    {
        match SpecStore::load(
            base_config_path,
            "apps".to_owned(),
            SpecFormat::Json,
            consolidated,
            singles,
        ) {
            Ok(store) => Ok(DefaultAppCollection { store }),
            Err(e) => Err(e),
        }
    }

    /// Hands out what has to be done to the files to bring them up to the
    /// collection. Nothing is pending afterwards.
    pub fn sync_config(&mut self) -> (actions: Vec<StoreAction>)
        requires
            old(self).wf(),
        ensures
            final(self).wf(),
            final(self).model() == old(self).model().after_sync(),
            final(self).specs() == old(self).specs(),
            actions@.len() == old(self).model().pending().len(),
            forall|i: int|
                0 <= i < actions@.len() ==> (#[trigger] actions@[i])@ == old(self).model().pending()[i],
    {
        let actions = self.store.sync_config();
        proof {
            assert(self.store.model().entries() =~= old(self).store.model().entries());
        }
        actions
    }

    /// The store behind the collection, for reading what is to be written.
    pub fn store(&self) -> (store: &SpecStore<VivaAppSpec>)
        ensures
            store.model() == self.model(),
            self.wf() ==> store.wf(),
    {
        &self.store
    }
}

impl AppCollection for DefaultAppCollection {
    closed spec fn wf(&self) -> bool {
        self.store.wf()
    }

    open spec fn specs(&self) -> Map<Seq<char>, AppSpecModel> {
        self.model().entries().map_values(|spec: VivaAppSpec| spec@)
    }

    fn get_app_ids(&self) -> (ids: Vec<String>) {
        self.store.ids()
    }

    fn get_app(&self, app_id: &str) -> (r: Result<&VivaAppSpec, VivaError>) {
        match self.store.get(app_id) {
            Some(spec) => Ok(spec),
            None => Err(VivaError::NotFound { id: app_id.to_owned() }),
        }
    }

    fn delete_app(&mut self, app_id: &str) -> (r: Result<(), VivaError>)
        ensures
            r is Ok,
            final(self).model() == old(self).model().after_delete(app_id@),
    {
        self.store.delete(app_id);
        proof {
            assert(self.specs() =~= old(self).specs().remove(app_id@));
        }
        Ok(())
    }

    fn set_app(&mut self, app_id: &str, app_spec: &VivaAppSpec) -> (r: Result<(), VivaError>)
        ensures
            r is Ok,
            final(self).model().entries().contains_key(app_id@),
            final(self).model().entries()[app_id@]@ == app_spec@,
            final(self).model() == old(self).model().after_set(
                app_id@,
                final(self).model().entries()[app_id@],
            ),
    {
        let copy = app_spec.clone();
        self.store.set(app_id, copy);
        proof {
            assert(self.specs() =~= old(self).specs().insert(app_id@, app_spec@));
        }
        Ok(())
    }
}

} // verus!
