//! The store of one kind of declaration. On disk a declaration lives in a
//! consolidated document, `<base>/<kind>.<ext>`, or in a document of its
//! own, `<base>/<kind>/<id>.<ext>`, which overrides the consolidated entry.
//! The store holds what was decoded, decides what has to be written or
//! removed, and leaves reading and writing to its caller.

use vstd::prelude::*;
use vstd::std_specs::iter::IteratorSpec;
use vstd::string::*;
use crate::errors::{ErrorModel, VivaError};
use crate::models::{decoded, read_model_spec, Decoded, SpecFormat};
use crate::table::IdTable;
use crate::text::same_text;

verus! {

/// A file of the store: where it is and in which format it is written.
#[derive(Debug)]
pub struct FileRef {
    pub path: String,
    pub format: SpecFormat,
}

/// A file of the store as plain values.
pub struct FileModel {
    pub path: Seq<char>,
    pub format: SpecFormat,
}

impl View for FileRef {
    type V = FileModel;

    open spec fn view(&self) -> FileModel {
        FileModel { path: self.path@, format: self.format }
    }
}

impl Clone for FileRef {
    fn clone(&self) -> (copy: Self)
        ensures
            copy@ == self@,
    {
        FileRef { path: self.path.clone(), format: self.format }
    }
}

/// Something the store's caller has to do to the files.
#[derive(Debug)]
pub enum StoreAction {
    /// Write the consolidated document anew, with the entries that the
    /// store still holds for it.
    WriteCollected { path: String, format: SpecFormat },
    /// Write the declaration that the store holds under `id` to its own file.
    WriteSingle { id: String, path: String, format: SpecFormat },
    /// Remove the file of a declaration that is gone.
    RemoveSingle { path: String },
}

/// A file action as plain values.
pub enum ActionModel {
    WriteCollected { path: Seq<char>, format: SpecFormat },
    WriteSingle { id: Seq<char>, path: Seq<char>, format: SpecFormat },
    RemoveSingle { path: Seq<char> },
}

impl View for StoreAction {
    type V = ActionModel;

    open spec fn view(&self) -> ActionModel {
        match *self {
            StoreAction::WriteCollected { path, format } => ActionModel::WriteCollected {
                path: path@,
                format,
            },
            StoreAction::WriteSingle { id, path, format } => ActionModel::WriteSingle {
                id: id@,
                path: path@,
                format,
            },
            StoreAction::RemoveSingle { path } => ActionModel::RemoveSingle { path: path@ },
        }
    }
}

/// A dot and the extension, or nothing.
pub open spec fn suffix(extension: Option<Seq<char>>) -> Seq<char> {
    match extension {
        Some(ext) => "."@ + ext,
        None => Seq::empty(),
    }
}

/// The path of the consolidated document of a kind.
pub open spec fn collected_path(base: Seq<char>, kind: Seq<char>, extension: Option<Seq<char>>) -> Seq<char> {
    base + "/"@ + kind + suffix(extension)
}

/// The path of the document of one declaration.
pub open spec fn single_path(
    base: Seq<char>,
    kind: Seq<char>,
    id: Seq<char>,
    extension: Option<Seq<char>>,
) -> Seq<char> {
    base + "/"@ + kind + "/"@ + id + suffix(extension)
}

/// The view of an optional text.
pub open spec fn text_of(extension: Option<String>) -> Option<Seq<char>> {
    match extension {
        Some(ext) => Some(ext@),
        None => None,
    }
}

/// The entries of a consolidated document as a map. Where a document
/// names an id twice, the later entry stands.
pub open spec fn table_of<S>(entries: Seq<(String, S)>) -> Map<Seq<char>, S>
    decreases entries.len(),
{
    if entries.len() == 0 {
        Map::empty()
    } else {
        table_of(entries.drop_last()).insert(entries.last().0@, entries.last().1)
    }
}

/// The state of a store as plain values.
pub struct StoreModel<S> {
    /// The directory that holds the store's files.
    pub base: Seq<char>,
    /// The kind of declaration, which names the files.
    pub kind: Seq<char>,
    /// The format of the documents that the store creates.
    pub default_format: SpecFormat,
    /// The entries that the consolidated document should hold.
    pub collected: Map<Seq<char>, S>,
    /// The consolidated document.
    pub collected_file: FileModel,
    /// Whether the consolidated document on disk holds entries that it
    /// should no longer hold.
    pub collected_dirty: bool,
    /// The declarations that have a document of their own, with its file.
    pub single: Map<Seq<char>, (S, FileModel)>,
    /// The ids whose own document has to be written or removed, in the
    /// order in which they were first touched, with the file concerned.
    pub dirty: Seq<(Seq<char>, FileModel)>,
}

impl<S> StoreModel<S> {
    /// The store's mapping from id to declaration: every id once, and a
    /// declaration's own document before the consolidated entry.
    pub open spec fn entries(self) -> Map<Seq<char>, S> {
        Map::new(
            |id: Seq<char>| self.single.contains_key(id) || self.collected.contains_key(id),
            |id: Seq<char>|
                if self.single.contains_key(id) {
                    self.single[id].0
                } else {
                    self.collected[id]
                },
        )
    }

    /// Whether the own document of `id` awaits writing or removal.
    pub open spec fn is_dirty(self, id: Seq<char>) -> bool {
        exists|i: int| 0 <= i < self.dirty.len() && (#[trigger] self.dirty[i]).0 == id
    }

    /// The file that awaits writing or removal for `id`.
    pub open spec fn dirty_file(self, id: Seq<char>) -> FileModel {
        self.dirty[choose|i: int| 0 <= i < self.dirty.len() && (#[trigger] self.dirty[i]).0 == id].1
    }

    /// The file that a newly created document of `id` gets.
    pub open spec fn new_file(self, id: Seq<char>) -> FileModel {
        FileModel {
            path: single_path(self.base, self.kind, id, Some(self.default_format.extension_text())),
            format: self.default_format,
        }
    }

    /// The file of the own document of `id`: the one it has, else the one
    /// it had and that still awaits removal, else a new one.
    pub open spec fn file_for(self, id: Seq<char>) -> FileModel {
        if self.single.contains_key(id) {
            self.single[id].1
        } else if self.is_dirty(id) {
            self.dirty_file(id)
        } else {
            self.new_file(id)
        }
    }

    /// The store with `id` taken over from the consolidated document, if
    /// that held it, into a document of its own.
    pub open spec fn with_single(self, id: Seq<char>, spec: S, file: FileModel) -> StoreModel<S> {
        StoreModel {
            collected: self.collected.remove(id),
            collected_dirty: self.collected_dirty || self.collected.contains_key(id),
            single: self.single.insert(id, (spec, file)),
            ..self
        }
    }

    /// The store with `id` marked as awaiting the writing or removal of `file`.
    pub open spec fn touched(self, id: Seq<char>, file: FileModel) -> StoreModel<S> {
        StoreModel {
            dirty: if self.is_dirty(id) {
                self.dirty
            } else {
                self.dirty.push((id, file))
            },
            ..self
        }
    }

    /// The store after `spec` was set under `id`: the declaration goes to a
    /// document of its own, which awaits writing, and leaves the
    /// consolidated document, which then awaits writing too.
    pub open spec fn after_set(self, id: Seq<char>, spec: S) -> StoreModel<S> {
        let file = self.file_for(id);
        self.touched(id, file).with_single(id, spec, file)
    }

    /// The store after `id` was deleted: its own document, if it has one,
    /// awaits removal, and its entry leaves the consolidated document,
    /// which then awaits writing.
    pub open spec fn after_delete(self, id: Seq<char>) -> StoreModel<S> {
        let touched = if self.single.contains_key(id) {
            self.touched(id, self.single[id].1)
        } else {
            self
        };
        StoreModel {
            collected: self.collected.remove(id),
            collected_dirty: self.collected_dirty || self.collected.contains_key(id),
            single: self.single.remove(id),
            ..touched
        }
    }

    /// What has to be done to the files to bring them up to the store: the
    /// consolidated document first, where it is out of date, then the own
    /// documents in the order in which their ids were first touched.
    pub open spec fn pending(self) -> Seq<ActionModel> {
        let head = if self.collected_dirty {
            seq![
                ActionModel::WriteCollected {
                    path: self.collected_file.path,
                    format: self.collected_file.format,
                },
            ]
        } else {
            Seq::empty()
        };
        head + Seq::new(
            self.dirty.len(),
            |i: int|
                if self.single.contains_key(self.dirty[i].0) {
                    ActionModel::WriteSingle {
                        id: self.dirty[i].0,
                        path: self.dirty[i].1.path,
                        format: self.dirty[i].1.format,
                    }
                } else {
                    ActionModel::RemoveSingle { path: self.dirty[i].1.path }
                },
        )
    }

    /// The store once everything pending was handed out.
    pub open spec fn after_sync(self) -> StoreModel<S> {
        StoreModel { collected_dirty: false, dirty: Seq::empty(), ..self }
    }

    /// The store that holds nothing yet.
    pub open spec fn fresh(base: Seq<char>, kind: Seq<char>, default_format: SpecFormat) -> StoreModel<S> {
        StoreModel {
            base,
            kind,
            default_format,
            collected: Map::empty(),
            collected_file: FileModel {
                path: collected_path(base, kind, Some(default_format.extension_text())),
                format: default_format,
            },
            collected_dirty: false,
            single: Map::empty(),
            dirty: Seq::empty(),
        }
    }

    /// The store after the consolidated document was read: an error where
    /// it cannot be decoded, else its entries.
    pub open spec fn with_collected(self, document: Option<Decoded<Vec<(String, S)>>>) -> Result<
        StoreModel<S>,
        ErrorModel,
    > {
        match document {
            None => Ok(self),
            Some(doc) => {
                let path = collected_path(self.base, self.kind, text_of(doc.extension));
                match decoded(path, doc) {
                    Err(e) => Err(e),
                    Ok((entries, format)) => Ok(
                        StoreModel {
                            collected: table_of(entries@),
                            collected_file: FileModel { path, format },
                            ..self
                        },
                    ),
                }
            },
        }
    }

    /// The store after the own documents were read in the given order: the
    /// error of the first that cannot be decoded, else every document's
    /// declaration in place of the consolidated entry of its id.
    pub open spec fn with_singles(self, documents: Seq<(String, Decoded<S>)>) -> Result<
        StoreModel<S>,
        ErrorModel,
    >
        decreases documents.len(),
    {
        if documents.len() == 0 {
            Ok(self)
        } else {
            match self.with_singles(documents.drop_last()) {
                Err(e) => Err(e),
                Ok(store) => {
                    let (id, doc) = documents.last();
                    let path = single_path(store.base, store.kind, id@, text_of(doc.extension));
                    match decoded(path, doc) {
                        Err(e) => Err(e),
                        Ok((spec, format)) => Ok(
                            store.with_single(id@, spec, FileModel { path, format }),
                        ),
                    }
                },
            }
        }
    }

    /// What loading a store gives: the consolidated document is read
    /// first, the own documents after it, and the first failure ends it.
    pub open spec fn loaded(
        base: Seq<char>,
        kind: Seq<char>,
        default_format: SpecFormat,
        consolidated: Option<Decoded<Vec<(String, S)>>>,
        singles: Seq<(String, Decoded<S>)>,
    ) -> Result<StoreModel<S>, ErrorModel> {
        match Self::fresh(base, kind, default_format).with_collected(consolidated) {
            Err(e) => Err(e),
            Ok(store) => store.with_singles(singles),
        }
    }
}

/// What loading gives for an id that has a document of its own: the
/// declaration of the last such document, whatever the consolidated
/// document says of the id.
pub proof fn lemma_own_document_wins<S>(
    store: StoreModel<S>,
    documents: Seq<(String, Decoded<S>)>,
    i: int,
)
    requires
        0 <= i < documents.len(),
        store.with_singles(documents) is Ok,
        forall|j: int| i < j < documents.len() ==> (#[trigger] documents[j]).0@ != documents[i].0@,
    ensures
        decoded(
            single_path(store.base, store.kind, documents[i].0@, text_of(documents[i].1.extension)),
            documents[i].1,
        ) is Ok,
        store.with_singles(documents)->Ok_0.entries().contains_key(documents[i].0@),
        store.with_singles(documents)->Ok_0.entries()[documents[i].0@] == decoded(
            single_path(store.base, store.kind, documents[i].0@, text_of(documents[i].1.extension)),
            documents[i].1,
        )->Ok_0.0,
    decreases documents.len(),
{
    let before = store.with_singles(documents.drop_last())->Ok_0;
    lemma_singles_keep_place(store, documents.drop_last());
    if i < documents.len() - 1 {
        assert(documents.drop_last()[i] == documents[i]);
        assert forall|j: int| i < j < documents.drop_last().len() implies (
        #[trigger] documents.drop_last()[j]).0@ != documents.drop_last()[i].0@ by {
            assert(documents.drop_last()[j] == documents[j]);
        }
        lemma_own_document_wins(store, documents.drop_last(), i);
        assert(documents.last() == documents[documents.len() - 1]);
    }
}

/// A document of its own takes precedence: where loading succeeds, an id
/// that has its own document maps to the declaration of the last such
/// document, whatever the consolidated document holds under the id.
pub proof fn lemma_override_precedence<S>(
    base: Seq<char>,
    kind: Seq<char>,
    default_format: SpecFormat,
    consolidated: Option<Decoded<Vec<(String, S)>>>,
    singles: Seq<(String, Decoded<S>)>,
    i: int,
)
    requires
        0 <= i < singles.len(),
        StoreModel::<S>::loaded(base, kind, default_format, consolidated, singles) is Ok,
        forall|j: int| i < j < singles.len() ==> (#[trigger] singles[j]).0@ != singles[i].0@,
    ensures
        ({
            let store = StoreModel::<S>::loaded(base, kind, default_format, consolidated, singles)->Ok_0;
            let own = decoded(
                single_path(base, kind, singles[i].0@, text_of(singles[i].1.extension)),
                singles[i].1,
            );
            &&& own is Ok
            &&& store.entries().contains_key(singles[i].0@)
            &&& store.entries()[singles[i].0@] == own->Ok_0.0
        }),
{
    let read = StoreModel::<S>::fresh(base, kind, default_format).with_collected(consolidated)->Ok_0;
    lemma_own_document_wins(read, singles, i);
}

/// Reading own documents changes neither where the store lives nor its kind.
pub proof fn lemma_singles_keep_place<S>(store: StoreModel<S>, documents: Seq<(String, Decoded<S>)>)
    ensures
        store.with_singles(documents) matches Ok(after) ==> after.base == store.base && after.kind
            == store.kind && after.default_format == store.default_format && after.dirty
            == store.dirty && after.collected_file == store.collected_file,
    decreases documents.len(),
{
    if documents.len() > 0 {
        lemma_singles_keep_place(store, documents.drop_last());
    }
}

/// Once a document fails, the failure is what reading all of them gives.
pub proof fn lemma_first_failure_stands<S>(
    store: StoreModel<S>,
    documents: Seq<(String, Decoded<S>)>,
    k: int,
)
    requires
        0 <= k <= documents.len(),
        store.with_singles(documents.take(k)) is Err,
    ensures
        store.with_singles(documents) == store.with_singles(documents.take(k)),
    decreases documents.len() - k,
{
    if k < documents.len() {
        assert(documents.take(k + 1).drop_last() =~= documents.take(k));
        lemma_first_failure_stands(store, documents, k + 1);
    } else {
        assert(documents.take(k) =~= documents);
    }
}

/// A declaration that has a document of its own.
#[derive(Debug)]
struct Single<S> {
    spec: S,
    file: FileRef,
}

/// An own document that awaits writing or removal.
#[derive(Debug)]
struct DirtyFile {
    id: String,
    file: FileRef,
}

/// The store of one kind of declaration.
#[derive(Debug)]
pub struct SpecStore<S> {
    base_config_path: String,
    kind: String,
    default_format: SpecFormat,
    collected: IdTable<S>,
    collected_file: FileRef,
    collected_dirty: bool,
    single: IdTable<Single<S>>,
    dirty: Vec<DirtyFile>,
}

/// The path of the consolidated document of a kind.
pub fn collected_file_path(base: &str, kind: &str, extension: Option<&str>) -> (path: String)
    ensures
        path@ == collected_path(
            base@,
            kind@,
            match extension {
                Some(ext) => Some(ext@),
                None => None,
            },
        ),
{
    let mut path = base.to_owned();
    path.append("/");
    path.append(kind);
    match extension {
        Some(ext) => {
            path.append(".");
            path.append(ext);
            assert(path@ =~= base@ + "/"@ + kind@ + ("."@ + ext@));
        },
        None => {
            assert(path@ =~= base@ + "/"@ + kind@ + Seq::<char>::empty());
        },
    }
    path
}

/// The path of the document of one declaration.
pub fn single_file_path(base: &str, kind: &str, id: &str, extension: Option<&str>) -> (path: String)
    ensures
        path@ == single_path(
            base@,
            kind@,
            id@,
            match extension {
                Some(ext) => Some(ext@),
                None => None,
            },
        ),
{
    let mut path = base.to_owned();
    path.append("/");
    path.append(kind);
    path.append("/");
    path.append(id);
    match extension {
        Some(ext) => {
            path.append(".");
            path.append(ext);
            assert(path@ =~= base@ + "/"@ + kind@ + "/"@ + id@ + ("."@ + ext@));
        },
        None => {
            assert(path@ =~= base@ + "/"@ + kind@ + "/"@ + id@ + Seq::<char>::empty());
        },
    }
    path
}

/// The position of the last dot in a text, or -1 where it has none.
pub open spec fn last_dot(name: Seq<char>) -> int
    decreases name.len(),
{
    if name.len() == 0 {
        -1
    } else if name.last() == '.' {
        name.len() - 1
    } else {
        last_dot(name.drop_last())
    }
}

/// The last dot of a text is a dot, and no dot follows it.
pub proof fn lemma_last_dot(name: Seq<char>)
    ensures
        -1 <= last_dot(name) < name.len(),
        last_dot(name) >= 0 ==> name[last_dot(name)] == '.',
        forall|k: int| last_dot(name) < k < name.len() ==> name[k] != '.',
    decreases name.len(),
{
    if name.len() > 0 && name.last() != '.' {
        lemma_last_dot(name.drop_last());
        assert forall|k: int| last_dot(name) < k < name.len() implies name[k] != '.' by {
            if k < name.len() - 1 {
                assert(name.drop_last()[k] == name[k]);
            }
        }
    }
}

/// The id that a file name gives: what stands before the last dot, and
/// the whole name where it has no dot or only begins with one.
pub open spec fn stem_of(name: Seq<char>) -> Seq<char> {
    if last_dot(name) > 0 {
        name.take(last_dot(name))
    } else {
        name
    }
}

/// The extension of a file name: what follows the last dot, and none
/// where the name has no dot or only begins with one.
pub open spec fn extension_of(name: Seq<char>) -> Option<Seq<char>> {
    if last_dot(name) > 0 {
        Some(name.skip(last_dot(name) + 1))
    } else {
        None
    }
}

/// Splits a file name into the id it gives and its extension.
pub fn split_file_name(name: &str) -> (r: (String, Option<String>))
    ensures
        r.0@ == stem_of(name@),
        text_of(r.1) == extension_of(name@),
{
    let n = name.unicode_len();
    let mut chars = name.chars();
    let mut i: usize = 0;
    let mut last: Option<usize> = None;
    proof {
        assert(name@.skip(0) =~= name@);
        assert(name@.take(0) =~= Seq::<char>::empty());
    }
    while i < n
        invariant
            0 <= i <= n,
            n == name@.len(),
            chars.remaining() == name@.skip(i as int),
            match last {
                Some(d) => d == last_dot(name@.take(i as int)),
                None => last_dot(name@.take(i as int)) == -1,
            },
        decreases n - i,
    {
        let ghost rest = name@.skip(i as int);
        proof {
            assert(rest.len() > 0);
            assert(rest[0] == name@[i as int]);
            assert(rest.drop_first() =~= name@.skip(i + 1));
            assert(name@.take(i + 1).drop_last() =~= name@.take(i as int));
            assert(name@.take(i + 1).last() == name@[i as int]);
        }
        match chars.next() {
            Some(c) => {
                if c == '.' {
                    last = Some(i);
                }
            },
            None => {},
        }
        i = i + 1;
    }
    proof {
        assert(name@.take(n as int) =~= name@);
        lemma_last_dot(name@);
    }
    match last {
        Some(d) => {
            if d > 0 {
                let stem = name.substring_char(0, d).to_owned();
                let extension = name.substring_char(d + 1, n).to_owned();
                proof {
                    assert(name@.subrange(0, d as int) =~= name@.take(d as int));
                    assert(name@.subrange(d + 1, n as int) =~= name@.skip(d + 1));
                }
                (stem, Some(extension))
            } else {
                (name.to_owned(), None)
            }
        },
        None => (name.to_owned(), None),
    }
}

/// The consolidated document of a kind to look for: the JSON file where
/// that exists, the YAML file where it does not.
pub fn find_collected_file(base: &str, kind: &str, json_exists: bool) -> (path: String)
    ensures
        path@ == collected_path(base@, kind@, Some(if json_exists { "json"@ } else { "yaml"@ })),
{
    collected_file_path(base, kind, Some(if json_exists { "json" } else { "yaml" }))
}

/// The document of one declaration to look for: the JSON file where that
/// exists, the YAML file where it does not.
pub fn find_single_file(base: &str, kind: &str, id: &str, json_exists: bool) -> (path: String)
    ensures
        path@ == single_path(base@, kind@, id@, Some(if json_exists { "json"@ } else { "yaml"@ })),
{
    single_file_path(base, kind, id, Some(if json_exists { "json" } else { "yaml" }))
}

impl<S> SpecStore<S> {
    /// The state of the store as plain values.
    pub closed spec fn model(&self) -> StoreModel<S> {
        StoreModel {
            base: self.base_config_path@,
            kind: self.kind@,
            default_format: self.default_format,
            collected: self.collected@,
            collected_file: self.collected_file@,
            collected_dirty: self.collected_dirty,
            single: self.single@.map_values(|s: Single<S>| (s.spec, s.file@)),
            dirty: Seq::new(self.dirty@.len(), |i: int| (self.dirty@[i].id@, self.dirty@[i].file@)),
        }
    }

    /// The ids of the consolidated entries, in ascending order.
    pub closed spec fn collected_ids(&self) -> Seq<Seq<char>> {
        self.collected.ids()
    }

    /// The ids of the declarations with a document of their own, in ascending order.
    pub closed spec fn single_ids(&self) -> Seq<Seq<char>> {
        self.single.ids()
    }

    /// The store's validity: no id has both a consolidated entry and a
    /// document of its own, no id awaits writing twice, and what awaits
    /// writing goes to the file that the declaration has.
    pub closed spec fn wf(&self) -> bool {
        &&& self.collected.wf()
        &&& self.single.wf()
        &&& forall|id: Seq<char>|
            !(self.collected@.contains_key(id) && #[trigger] self.single@.contains_key(id))
        &&& forall|i: int, j: int|
            0 <= i < j < self.dirty@.len() ==> (#[trigger] self.dirty@[i]).id@ != (
            #[trigger] self.dirty@[j]).id@
        &&& forall|i: int|
            0 <= i < self.dirty@.len() && self.single@.contains_key((#[trigger] self.dirty@[i]).id@)
                ==> self.single@[self.dirty@[i].id@].file@ == self.dirty@[i].file@
    }

    /// In a valid store every id is listed once, and the listing names
    /// exactly the ids that the store maps.
    pub proof fn lemma_ids(&self)
        requires
            self.wf(),
        ensures
            (self.collected_ids() + self.single_ids()).no_duplicates(),
            forall|id: Seq<char>|
                (self.collected_ids() + self.single_ids()).contains(id)
                    <==> #[trigger] self.model().entries().contains_key(id),
            forall|id: Seq<char>|
                self.collected_ids().contains(id) <==> #[trigger] self.model().collected.contains_key(id),
    {
        let listed = self.collected_ids() + self.single_ids();
        let a = self.collected_ids();
        let b = self.single_ids();
        crate::table::lemma_ascending_distinct(a);
        crate::table::lemma_ascending_distinct(b);
        assert forall|i: int, j: int| 0 <= i < listed.len() && 0 <= j < listed.len() && i
            != j implies listed[i] != listed[j] by {
            if i < a.len() && j < a.len() {
            } else if i >= a.len() && j >= a.len() {
                assert(listed[i] == b[i - a.len()]);
                assert(listed[j] == b[j - a.len()]);
            } else if i < a.len() {
                assert(a.contains(a[i]));
                assert(b.contains(b[j - a.len()]));
                assert(self.single@.contains_key(b[j - a.len()]));
            } else {
                assert(a.contains(a[j]));
                assert(b.contains(b[i - a.len()]));
                assert(self.single@.contains_key(b[i - a.len()]));
            }
        }
        assert forall|id: Seq<char>| listed.contains(id) <==> #[trigger] self.model().entries().contains_key(
            id,
        ) by {
            if listed.contains(id) {
                let i = choose|i: int| 0 <= i < listed.len() && listed[i] == id;
                if i < a.len() {
                    assert(a.contains(a[i]));
                } else {
                    assert(b.contains(b[i - a.len()]));
                }
            }
            if a.contains(id) {
                let i = choose|i: int| 0 <= i < a.len() && a[i] == id;
                assert(listed[i] == id);
            }
            if b.contains(id) {
                let i = choose|i: int| 0 <= i < b.len() && b[i] == id;
                assert(listed[a.len() + i] == id);
            }
        }
    }

    /// A store that holds nothing yet.
    pub fn new(base_config_path: String, kind: String, default_format: SpecFormat) -> (store: Self)
        ensures
            store.wf(),
            store.model() == StoreModel::<S>::fresh(base_config_path@, kind@, default_format),
    {
        let path = collected_file_path(
            base_config_path.as_str(),
            kind.as_str(),
            Some(default_format.extension()),
        );
        let store = SpecStore {
            base_config_path,
            kind,
            default_format,
            collected: IdTable::new(),
            collected_file: FileRef { path, format: default_format },
            collected_dirty: false,
            single: IdTable::new(),
            dirty: Vec::new(),
        };
        proof {
            assert(store.model().single =~= Map::<Seq<char>, (S, FileModel)>::empty());
            assert(store.model().dirty =~= Seq::<(Seq<char>, FileModel)>::empty());
        }
        store
    }

    /// Takes `id` over into a document of its own at `file`.
    fn put_single(&mut self, id: String, spec: S, file: FileRef)
        requires
            old(self).wf(),
            forall|i: int|
                0 <= i < old(self).dirty@.len() && (#[trigger] old(self).dirty@[i]).id@ == id@
                    ==> old(self).dirty@[i].file@ == file@,
        ensures
            final(self).wf(),
            final(self).model() == old(self).model().with_single(id@, spec, file@),
            final(self).dirty == old(self).dirty,
    {
        let ghost before = *self;
        if self.collected.remove(id.as_str()).is_some() {
            self.collected_dirty = true;
        }
        let ghost key = id@;
        let ghost held = (spec, file@);
        self.single.insert(id, Single { spec, file });
        proof {
            assert(self.model().single =~= before.model().single.insert(key, held));
            assert(self.model().dirty =~= before.model().dirty);
            assert forall|i: int|
                0 <= i < self.dirty@.len() && self.single@.contains_key(
                    (#[trigger] self.dirty@[i]).id@,
                ) implies self.single@[self.dirty@[i].id@].file@ == self.dirty@[i].file@ by {
                if self.dirty@[i].id@ != key {
                    assert(before.single@.contains_key(before.dirty@[i].id@));
                }
            }
        }
    }

    /// Takes in the entries of the consolidated document, read from `file`.
    fn put_collected(&mut self, entries: Vec<(String, S)>, file: FileRef)
        requires
            old(self).wf(),
            old(self).model() == StoreModel::<S>::fresh(
                old(self).model().base,
                old(self).model().kind,
                old(self).model().default_format,
            ),
        ensures
            final(self).wf(),
            final(self).dirty@.len() == 0,
            final(self).model() == (StoreModel {
                collected: table_of(entries@),
                collected_file: file@,
                ..old(self).model()
            }),
    {
        assert(self.model().dirty.len() == self.dirty@.len());
        assert(self.model().single.dom() =~= self.single@.dom());
        self.collected_file = file;
        self.collected = IdTable::new();
        let ghost start = *self;
        for entry in it: entries
            invariant
                self.collected.wf(),
                self.collected@ == table_of(entries@.take(it.index() as int)),
                self.single == start.single,
                self.dirty == start.dirty,
                self.collected_file == start.collected_file,
                self.collected_dirty == start.collected_dirty,
                self.base_config_path == start.base_config_path,
                self.kind == start.kind,
                self.default_format == start.default_format,
        {
            proof {
                let k = it.index() as int;
                assert(entries@.take(k + 1).drop_last() =~= entries@.take(k));
            }
            self.collected.insert(entry.0, entry.1);
        }
        proof {
            assert(entries@.take(entries@.len() as int) =~= entries@);
            assert(self.model().single =~= old(self).model().single);
            assert(self.model().dirty =~= old(self).model().dirty);
            assert forall|id: Seq<char>| !#[trigger] self.single@.contains_key(id) by {
                assert(!self.model().single.dom().contains(id));
            }
        }
    }

    /// Reads the own documents in the given order, up to the first that
    /// cannot be decoded.
    fn read_singles(&mut self, singles: Vec<(String, Decoded<S>)>) -> (r: Result<(), VivaError>)
        requires
            old(self).wf(),
            old(self).dirty@.len() == 0,
        ensures
            match old(self).model().with_singles(singles@) {
                Ok(model) => r is Ok && final(self).wf() && final(self).model() == model,
                Err(e) => r is Err && r->Err_0@ == e,
            },
    {
        let ghost read = self.model();
        proof {
            assert(singles@.take(0) =~= Seq::<(String, Decoded<S>)>::empty());
        }
        for item in it: singles
            invariant
                self.wf(),
                self.dirty@.len() == 0,
                read == old(self).model(),
                read.with_singles(singles@.take(it.index() as int)) == Ok::<
                    StoreModel<S>,
                    ErrorModel,
                >(self.model()),
        {
            let ghost k = it.index() as int;
            proof {
                assert(singles@.take(k + 1).drop_last() =~= singles@.take(k));
                assert(singles@.take(k + 1).last() == singles@[k]);
                lemma_singles_keep_place(read, singles@.take(k));
            }
            let (id, doc) = item;
            let ext = match &doc.extension {
                Some(e) => Some(e.as_str()),
                None => None,
            };
            let path = single_file_path(
                self.base_config_path.as_str(),
                self.kind.as_str(),
                id.as_str(),
                ext,
            );
            match read_model_spec(path.as_str(), doc) {
                Err(e) => {
                    proof {
                        assert(read.with_singles(singles@.take(k + 1)) is Err);
                        lemma_first_failure_stands(read, singles@, k + 1);
                    }
                    return Err(e);
                },
                Ok((spec, format)) => {
                    self.put_single(id, spec, FileRef { path, format });
                },
            }
        }
        proof {
            assert(singles@.take(singles@.len() as int) =~= singles@);
        }
        Ok(())
    }

    /// Reads a store from its documents: the consolidated document, if
    /// there is one, and the own documents, each with the id that its file
    /// name gives. A document that cannot be decoded ends the loading.
    pub fn load(
        base_config_path: String,
        kind: String,
        default_format: SpecFormat,
        consolidated: Option<Decoded<Vec<(String, S)>>>,
        singles: Vec<(String, Decoded<S>)>,
    ) -> (r: Result<Self, VivaError>)
        ensures
            match StoreModel::<S>::loaded(
                base_config_path@,
                kind@,
                default_format,
                consolidated,
                singles@,
            ) {
                Ok(model) => r is Ok && r->Ok_0.wf() && r->Ok_0.model() == model,
                Err(e) => r is Err && r->Err_0@ == e,
            },
    {
        let mut store: SpecStore<S> = SpecStore::new(base_config_path, kind, default_format);
        assert(store.dirty@.len() == store.model().dirty.len());
        match consolidated {
            None => {},
            Some(doc) => {
                let ext = match &doc.extension {
                    Some(e) => Some(e.as_str()),
                    None => None,
                };
                let path = collected_file_path(
                    store.base_config_path.as_str(),
                    store.kind.as_str(),
                    ext,
                );
                match read_model_spec(path.as_str(), doc) {
                    Err(e) => {
                        return Err(e);
                    },
                    Ok((entries, format)) => {
                        store.put_collected(entries, FileRef { path, format });
                    },
                }
            },
        }
        match store.read_singles(singles) {
            Ok(_) => Ok(store),
            Err(e) => Err(e),
        }
    }

    /// The directory that holds the store's files.
    pub fn base_config_path(&self) -> (path: &String)
        ensures
            path@ == self.model().base,
    {
        &self.base_config_path
    }

    /// Where `id` stands among the ids that await writing or removal.
    fn dirty_position(&self, id: &str) -> (r: Option<usize>)
        ensures
            match r {
                Some(i) => i < self.dirty@.len() && self.dirty@[i as int].id@ == id@,
                None => forall|i: int| 0 <= i < self.dirty@.len() ==> (#[trigger] self.dirty@[i]).id@ != id@,
            },
            r is Some <==> self.model().is_dirty(id@),
    {
        let mut i: usize = 0;
        while i < self.dirty.len()
            invariant
                0 <= i <= self.dirty@.len(),
                forall|k: int| 0 <= k < i ==> (#[trigger] self.dirty@[k]).id@ != id@,
            decreases self.dirty@.len() - i,
        {
            if same_text(self.dirty[i].id.as_str(), id) {
                assert(self.model().dirty[i as int].0 == id@);
                return Some(i);
            }
            i = i + 1;
        }
        proof {
            if self.model().is_dirty(id@) {
                let k = choose|k: int|
                    0 <= k < self.model().dirty.len() && (#[trigger] self.model().dirty[k]).0 == id@;
                assert(self.dirty@[k].id@ == id@);
            }
        }
        None
    }

    /// In a valid store the file that awaits writing or removal for an id
    /// is the one listed with it.
    proof fn lemma_dirty_file(&self, i: int)
        requires
            self.wf(),
            0 <= i < self.dirty@.len(),
        ensures
            self.model().is_dirty(self.dirty@[i].id@),
            self.model().dirty_file(self.dirty@[i].id@) == self.dirty@[i].file@,
    {
        let id = self.dirty@[i].id@;
        assert(self.model().dirty[i].0 == id);
        let k = choose|k: int|
            0 <= k < self.model().dirty.len() && (#[trigger] self.model().dirty[k]).0 == id;
        assert(self.dirty@[k].id@ == id);
        if k < i {
            assert(self.dirty@[k].id@ != self.dirty@[i].id@);
        } else if i < k {
            assert(self.dirty@[i].id@ != self.dirty@[k].id@);
        }
    }

    /// Whether the store holds a declaration under `id`.
    pub fn contains(&self, id: &str) -> (r: bool)
        requires
            self.wf(),
        ensures
            r == self.model().entries().contains_key(id@),
    {
        self.single.contains_key(id) || self.collected.contains_key(id)
    }

    /// The declaration under `id`, if the store holds one.
    pub fn get(&self, id: &str) -> (r: Option<&S>)
        requires
            self.wf(),
        ensures
            match r {
                Some(spec) => self.model().entries().contains_key(id@) && *spec
                    == self.model().entries()[id@],
                None => !self.model().entries().contains_key(id@),
            },
    {
        match self.single.get(id) {
            Some(own) => Some(&own.spec),
            None => self.collected.get(id),
        }
    }

    /// The ids of the store: those of the consolidated entries in
    /// ascending order, then those with a document of their own in
    /// ascending order. Every id is listed once.
    pub fn ids(&self) -> (ids: Vec<String>)
        requires
            self.wf(),
        ensures
            ids.deep_view() == self.collected_ids() + self.single_ids(),
            ids.deep_view().no_duplicates(),
            forall|id: Seq<char>|
                #![trigger ids.deep_view().contains(id)]
                #![trigger self.model().entries().contains_key(id)]
                ids.deep_view().contains(id) <==> self.model().entries().contains_key(id),
    {
        let mut ids = self.collected.keys();
        let mut own = self.single.keys();
        let ghost first = ids.deep_view();
        let ghost second = own.deep_view();
        ids.append(&mut own);
        proof {
            assert(ids.deep_view() =~= first + second);
            self.lemma_ids();
        }
        ids
    }

    /// The number of entries that the consolidated document should hold.
    pub fn collected_len(&self) -> (n: usize)
        ensures
            n == self.collected_ids().len(),
    {
        self.collected.len()
    }

    /// The `i`-th entry that the consolidated document should hold,
    /// counting in ascending order of id.
    pub fn collected_entry(&self, i: usize) -> (r: Option<(&String, &S)>)
        requires
            self.wf(),
        ensures
            match r {
                Some((id, spec)) => i < self.collected_ids().len() && id@ == self.collected_ids()[i as int]
                    && self.model().collected.contains_key(id@) && self.model().collected[id@]
                    == *spec,
                None => i >= self.collected_ids().len(),
            },
    {
        self.collected.entry_at(i)
    }

    /// Sets the declaration under `id`. It goes to a document of its own,
    /// which awaits writing until the next write-back.
    pub fn set(&mut self, id: &str, spec: S)
        requires
            old(self).wf(),
        ensures
            final(self).wf(),
            final(self).model() == old(self).model().after_set(id@, spec),
            final(self).model().entries() == old(self).model().entries().insert(id@, spec),
    {
        let position = self.dirty_position(id);
        let file = match self.single.get(id) {
            Some(own) => own.file.clone(),
            None => match position {
                Some(i) => {
                    proof {
                        self.lemma_dirty_file(i as int);
                    }
                    self.dirty[i].file.clone()
                },
                None => {
                    let path = single_file_path(
                        self.base_config_path.as_str(),
                        self.kind.as_str(),
                        id,
                        Some(self.default_format.extension()),
                    );
                    FileRef { path, format: self.default_format }
                },
            },
        };
        assert(file@ == self.model().file_for(id@));
        let ghost before = *self;
        if position.is_none() {
            self.dirty.push(DirtyFile { id: id.to_owned(), file: file.clone() });
            proof {
                assert(self.model().dirty =~= before.model().dirty.push((id@, file@)));
            }
        } else {
            proof {
                if self.single@.contains_key(id@) {
                    assert(self.single@[self.dirty@[position->0 as int].id@].file@
                        == self.dirty@[position->0 as int].file@);
                }
            }
        }
        assert(self.model() == before.model().touched(id@, file@));
        self.put_single(id.to_owned(), spec, file);
        proof {
            assert(self.model().entries() =~= before.model().entries().insert(id@, spec));
        }
    }

    /// Deletes the declaration under `id`, and says whether there was one.
    /// Its own document, if it has one, awaits removal until the next
    /// write-back.
    pub fn delete(&mut self, id: &str) -> (existed: bool)
        requires
            old(self).wf(),
        ensures
            final(self).wf(),
            final(self).model() == old(self).model().after_delete(id@),
            final(self).model().entries() == old(self).model().entries().remove(id@),
            existed == old(self).model().entries().contains_key(id@),
    {
        let ghost before = *self;
        let position = self.dirty_position(id);
        let mut existed = false;
        match self.single.remove(id) {
            Some(own) => {
                existed = true;
                if position.is_none() {
                    self.dirty.push(DirtyFile { id: id.to_owned(), file: own.file });
                    proof {
                        assert(self.model().dirty =~= before.model().dirty.push(
                            (id@, before.model().single[id@].1),
                        ));
                    }
                }
            },
            None => {},
        }
        if self.collected.remove(id).is_some() {
            self.collected_dirty = true;
            existed = true;
        }
        proof {
            assert(self.model().single =~= before.model().single.remove(id@));
            if !(before.single@.contains_key(id@) && position.is_none()) {
                assert(self.model().dirty =~= before.model().dirty);
            }
            assert(self.model().entries() =~= before.model().entries().remove(id@));
            assert forall|i: int|
                0 <= i < self.dirty@.len() && self.single@.contains_key(
                    (#[trigger] self.dirty@[i]).id@,
                ) implies self.single@[self.dirty@[i].id@].file@ == self.dirty@[i].file@ by {
                assert(self.dirty@[i].id@ != id@);
                assert(i < before.dirty@.len());
                assert(before.single@.contains_key(before.dirty@[i].id@));
            }
        }
        existed
    }

    /// Hands out what has to be done to the files to bring them up to the
    /// store. Nothing is pending afterwards.
    pub fn sync_config(&mut self) -> (actions: Vec<StoreAction>)
        requires
            old(self).wf(),
        ensures
            final(self).wf(),
            final(self).model() == old(self).model().after_sync(),
            actions@.len() == old(self).model().pending().len(),
            forall|i: int|
                0 <= i < actions@.len() ==> (#[trigger] actions@[i])@ == old(self).model().pending()[i],
    {
        let mut actions: Vec<StoreAction> = Vec::new();
        if self.collected_dirty {
            actions.push(
                StoreAction::WriteCollected {
                    path: self.collected_file.path.clone(),
                    format: self.collected_file.format,
                },
            );
        }
        let ghost head = actions@.len() as int;
        let ghost pending = self.model().pending();
        let mut i: usize = 0;
        while i < self.dirty.len()
            invariant
                0 <= i <= self.dirty@.len(),
                *self == *old(self),
                self.wf(),
                pending == self.model().pending(),
                head == (if self.collected_dirty { 1int } else { 0int }),
                actions@.len() == head + i,
                pending.len() == head + self.dirty@.len(),
                forall|k: int| 0 <= k < actions@.len() ==> (#[trigger] actions@[k])@ == pending[k],
            decreases self.dirty@.len() - i,
        {
            let entry = &self.dirty[i];
            proof {
                assert(self.model().dirty[i as int] == (entry.id@, entry.file@));
                assert(self.model().single.contains_key(entry.id@) == self.single@.contains_key(
                    entry.id@,
                ));
            }
            if self.single.contains_key(entry.id.as_str()) {
                actions.push(
                    StoreAction::WriteSingle {
                        id: entry.id.clone(),
                        path: entry.file.path.clone(),
                        format: entry.file.format,
                    },
                );
            } else {
                actions.push(StoreAction::RemoveSingle { path: entry.file.path.clone() });
            }
            i = i + 1;
        }
        self.dirty = Vec::new();
        self.collected_dirty = false;
        proof {
            assert(self.model().dirty =~= Seq::<(Seq<char>, FileModel)>::empty());
        }
        actions
    }
}

} // verus!
