//! The Firestore service handle and the references it hands out.
use vstd::prelude::*;

use crate::app::{default_app_name, FirebaseApp};
use crate::firestore::error::{
    internal_error, invalid_argument, missing_project_id, FirestoreErrorCode, FirestoreResult,
};
use crate::firestore::model::document_key::is_document_path;
use crate::firestore::model::resource_path::parse_resource_path;
use crate::firestore::model::{DatabaseId, DocumentKey, ResourcePath};
use crate::text::{split_on, split_str, starts_with_str, str_equal};
use crate::firestore::model::database_id::default_database_name;

verus! {

/// A Firestore instance: an app together with the database it talks to.
pub struct Firestore {
    app: FirebaseApp,
    database_id: DatabaseId,
}

impl View for Firestore {
    type V = (Seq<char>, Seq<char>);

    closed spec fn view(&self) -> (Seq<char>, Seq<char>) {
        self.database_id@
    }
}

impl Clone for Firestore {
    fn clone(&self) -> (r: Self)
        ensures
            r@ == self@,
    {
        Firestore { app: self.app.clone(), database_id: self.database_id.clone() }
    }
}

impl Firestore {
    pub fn new(app: FirebaseApp, database_id: DatabaseId) -> (f: Self)
        ensures
            f@ == database_id@,
            f.spec_app() == app,
    {
        Firestore { app, database_id }
    }

    /// The app this instance is scoped to.
    pub closed spec fn spec_app(&self) -> FirebaseApp {
        self.app
    }

    /// The app this instance is scoped to.
    pub fn app(&self) -> (r: &FirebaseApp)
        ensures
            *r == self.spec_app(),
    {
        &self.app
    }

    /// The project and database.
    pub fn database_id(&self) -> (r: &DatabaseId)
        ensures
            r@ == self@,
    {
        &self.database_id
    }

    /// A reference to the collection at a slash-separated path.
    pub fn collection(&self, path: &str) -> (r: FirestoreResult<CollectionReference>)
        ensures
            match r {
                Ok(c) => parse_resource_path(path@) == Some(c.spec_path()) && c.spec_path().len() % 2 == 1,
                Err(e) => e.code == FirestoreErrorCode::InvalidArgument && match parse_resource_path(path@) {
                    Some(p) => p.len() % 2 == 0,
                    None => true,
                },
            },
    {
        let resource = ResourcePath::from_string(path)?;
        CollectionReference::new(self.clone(), resource)
    }

    /// A reference to the document at a slash-separated path.
    pub fn doc(&self, path: &str) -> (r: FirestoreResult<DocumentReference>)
        ensures
            match r {
                Ok(d) => parse_resource_path(path@) == Some(d.spec_key()) && is_document_path(d.spec_key()),
                Err(e) => e.code == FirestoreErrorCode::InvalidArgument && match parse_resource_path(path@) {
                    Some(p) => !is_document_path(p),
                    None => true,
                },
            },
    {
        let resource = ResourcePath::from_string(path)?;
        DocumentReference::new(self.clone(), resource)
    }

    /// A handle to the same instance.
    pub fn from_arc(arc: std::sync::Arc<Self>) -> (f: Self)
        ensures
            f@ == (*arc)@,
    {
        (*arc).clone()
    }

    /// The project identifier.
    pub fn project_id(&self) -> (r: &str)
        ensures
            r@ == self@.0,
    {
        self.database_id.project_id()
    }

    /// The database name.
    pub fn database(&self) -> (r: &str)
        ensures
            r@ == self@.1,
    {
        self.database_id.database()
    }
}

/// A reference to a collection.
pub struct CollectionReference {
    firestore: Firestore,
    path: ResourcePath,
}

impl CollectionReference {
    /// A reference to the collection at `path`; paths with an even number of
    /// segments do not name a collection and are refused.
    pub fn new(firestore: Firestore, path: ResourcePath) -> (r: FirestoreResult<Self>)
        ensures
            match r {
                Ok(c) => path@.len() % 2 == 1 && c.spec_path() == path@ && c.spec_firestore() == firestore,
                Err(e) => path@.len() % 2 == 0 && e.code == FirestoreErrorCode::InvalidArgument,
            },
    {
        if path.len() % 2 == 0 {
            return Err(
                invalid_argument("Collection references must have an odd number of segments"),
            );
        }
        Ok(CollectionReference { firestore, path })
    }

    pub closed spec fn spec_path(&self) -> Seq<Seq<char>> {
        self.path@
    }

    pub fn path(&self) -> (r: &ResourcePath)
        ensures
            r@ == self.spec_path(),
    {
        &self.path
    }

    /// The collection's identifier.
    pub fn id(&self) -> (r: &str)
        ensures
            self.spec_path().len() > 0 ==> r@ == self.spec_path().last(),
    {
        match self.path.last_segment() {
            Some(s) => s,
            None => "",
        }
    }

    /// The database this reference belongs to.
    pub closed spec fn spec_firestore(&self) -> Firestore {
        self.firestore
    }

    pub fn firestore(&self) -> (r: &Firestore)
        ensures
            *r == self.spec_firestore(),
    {
        &self.firestore
    }
}

/// A reference to a document.
pub struct DocumentReference {
    firestore: Firestore,
    key: DocumentKey,
}

impl DocumentReference {
    /// A reference to the document at `path`; paths that do not name a
    /// document are refused.
    pub fn new(firestore: Firestore, path: ResourcePath) -> (r: FirestoreResult<Self>)
        ensures
            match r {
                Ok(d) => is_document_path(path@) && d.spec_key() == path@ && d.spec_firestore() == firestore,
                Err(e) => !is_document_path(path@) && e.code == FirestoreErrorCode::InvalidArgument,
            },
    {
        let key = DocumentKey::from_path(path)?;
        Ok(DocumentReference { firestore, key })
    }

    pub closed spec fn spec_key(&self) -> Seq<Seq<char>> {
        self.key@
    }

    pub fn key(&self) -> (r: &DocumentKey)
        ensures
            r@ == self.spec_key(),
    {
        &self.key
    }

    /// The document's identifier.
    pub fn id(&self) -> (r: &str)
        ensures
            r@ == self.spec_key().last(),
    {
        self.key.id()
    }

    /// The database this reference belongs to.
    pub closed spec fn spec_firestore(&self) -> Firestore {
        self.firestore
    }

    pub fn firestore(&self) -> (r: &Firestore)
        ensures
            *r == self.spec_firestore(),
    {
        &self.firestore
    }
}

/// The database named by an instance identifier: either a full
/// `projects/{project}/databases/{database}` name, or a database name within
/// the app's project. The app must name a project in either case.
pub open spec fn parse_database_identifier_spec(project_id: Option<Seq<char>>, identifier: Seq<char>) -> Result<(Seq<char>, Seq<char>), FirestoreErrorCode> {
    match project_id {
        None => Err(FirestoreErrorCode::MissingProjectId),
        Some(p) => if identifier.len() >= 9 && identifier.take(9) == "projects/"@ {
            let segments = split_on(identifier, '/');
            if segments.len() == 4 && segments[0] == "projects"@ && segments[2] == "databases"@ {
                Ok((segments[1], segments[3]))
            } else {
                Err(FirestoreErrorCode::InvalidArgument)
            }
        } else {
            Ok((p, identifier))
        },
    }
}

/// The project id of an app's options, as characters.
pub open spec fn app_project_id(app: FirebaseApp) -> Option<Seq<char>> {
    match app.options.project_id {
        Some(p) => Some(p@),
        None => None,
    }
}

/// Resolves an instance identifier to a database of the app's project.
pub fn parse_database_identifier(app: &FirebaseApp, identifier: &str) -> (r: FirestoreResult<DatabaseId>)
    ensures
        match r {
            Ok(d) => parse_database_identifier_spec(app_project_id(*app), identifier@) == Ok::<(Seq<char>, Seq<char>), FirestoreErrorCode>(d@),
            Err(e) => parse_database_identifier_spec(app_project_id(*app), identifier@) == Err::<(Seq<char>, Seq<char>), FirestoreErrorCode>(e.code),
        },
{
    let project_id = match &app.options().project_id {
        Some(p) => p,
        None => {
            return Err(missing_project_id());
        },
    };
    proof {
        reveal_strlit("projects/");
        reveal_strlit("projects");
        reveal_strlit("databases");
    }
    if starts_with_str(identifier, "projects/") {
        let segments = split_str(identifier, '/');
        proof {
            assert(crate::text::string_views(segments@).len() == segments@.len());
        }
        proof {
            if segments@.len() == 4 {
                assert(crate::text::string_views(segments@)[0] == segments@[0]@);
                assert(crate::text::string_views(segments@)[1] == segments@[1]@);
                assert(crate::text::string_views(segments@)[2] == segments@[2]@);
                assert(crate::text::string_views(segments@)[3] == segments@[3]@);
            }
        }
        if segments.len() == 4 && str_equal(segments[0].as_str(), "projects")
            && str_equal(segments[2].as_str(), "databases") {
            return Ok(DatabaseId::new(segments[1].as_str(), segments[3].as_str()));
        }
        return Err(
            invalid_argument("Database identifier must follow projects/{project}/databases/{database}"),
        );
    }
    Ok(DatabaseId::new(project_id.as_str(), identifier))
}

/// The Firestore instance an app gets for an optional instance identifier: the
/// named database when the identifier is non-empty, the app project's default
/// database otherwise.
pub fn firestore_for_app(app: FirebaseApp, identifier: Option<&str>) -> (r: FirestoreResult<Firestore>)
    ensures
        r matches Ok(f) ==> f.spec_app() == app,
        match identifier {
            Some(id) if id@.len() > 0 => match r {
                Ok(f) => parse_database_identifier_spec(app_project_id(app), id@) == Ok::<(Seq<char>, Seq<char>), FirestoreErrorCode>(f@),
                Err(e) => parse_database_identifier_spec(app_project_id(app), id@) == Err::<(Seq<char>, Seq<char>), FirestoreErrorCode>(e.code),
            },
            _ => match r {
                Ok(f) => app_project_id(app) matches Some(p) && f@ == (p, default_database_name()),
                Err(e) => app_project_id(app) is None && e.code == FirestoreErrorCode::MissingProjectId,
            },
        },
{
    let database_id = match identifier {
        Some(id) if id.unicode_len() > 0 => parse_database_identifier(&app, id)?,
        _ => DatabaseId::from_app(&app)?,
    };
    Ok(Firestore::new(app, database_id))
}

/// A Firestore instance of `app`, talking to the project's default database.
/// Each call makes a new instance, and a call without an app is refused;
/// [`FirestoreRegistry::get_firestore`] hands out one shared instance per app.
pub fn get_firestore(app: Option<FirebaseApp>) -> (r: FirestoreResult<Firestore>)
    ensures
        match app {
            Some(a) => match r {
                Ok(f) => app_project_id(a) matches Some(p) && f@ == (p, default_database_name()),
                Err(e) => app_project_id(a) is None && e.code == FirestoreErrorCode::MissingProjectId,
            },
            None => r matches Err(e) && e.code == FirestoreErrorCode::Internal,
        },
{
    match app {
        Some(a) => firestore_for_app(a, None),
        None => Err(internal_error("No Firebase App '[DEFAULT]' has been created")),
    }
}

/// The map held by a list of instances with distinct app names.
pub open spec fn instances_map(fs: Seq<Firestore>) -> Map<Seq<char>, Firestore>
    decreases fs.len(),
{
    if fs.len() == 0 {
        Map::empty()
    } else {
        instances_map(fs.drop_last()).insert(fs.last().spec_app().name@, fs.last())
    }
}

/// The app names of a list of instances are distinct.
pub open spec fn distinct_apps(fs: Seq<Firestore>) -> bool {
    forall|i: int, j: int| 0 <= i < j < fs.len() ==> (#[trigger] fs[i]).spec_app().name@ != (#[trigger] fs[j]).spec_app().name@
}

proof fn lemma_instances_map(fs: Seq<Firestore>)
    requires
        distinct_apps(fs),
    ensures
        forall|i: int| 0 <= i < fs.len() ==> #[trigger] instances_map(fs).dom().contains(fs[i].spec_app().name@)
            && instances_map(fs)[fs[i].spec_app().name@] == fs[i],
        forall|n: Seq<char>| #[trigger] instances_map(fs).dom().contains(n) ==> exists|i: int|
            0 <= i < fs.len() && fs[i].spec_app().name@ == n,
    decreases fs.len(),
{
    if fs.len() > 0 {
        let init = fs.drop_last();
        assert(distinct_apps(init)) by {
            assert forall|i: int, j: int| 0 <= i < j < init.len() implies (#[trigger] init[i]).spec_app().name@
                != (#[trigger] init[j]).spec_app().name@ by {
                assert(init[i] == fs[i] && init[j] == fs[j]);
            }
        }
        lemma_instances_map(init);
        assert forall|i: int| 0 <= i < fs.len() implies #[trigger] instances_map(fs).dom().contains(
            fs[i].spec_app().name@,
        ) && instances_map(fs)[fs[i].spec_app().name@] == fs[i] by {
            if i < fs.len() - 1 {
                assert(init[i] == fs[i]);
                assert(instances_map(init).dom().contains(init[i].spec_app().name@));
            }
        }
        assert forall|n: Seq<char>| #[trigger] instances_map(fs).dom().contains(n) implies exists|i: int|
            0 <= i < fs.len() && fs[i].spec_app().name@ == n by {
            if n != fs.last().spec_app().name@ {
                assert(instances_map(init).dom().contains(n));
                let i = choose|i: int| 0 <= i < init.len() && init[i].spec_app().name@ == n;
                assert(fs[i] == init[i]);
            } else {
                assert(fs[fs.len() - 1].spec_app().name@ == n);
            }
        }
    }
}

/// The Firestore instances handed out, one per app name: every request for
/// an app's instance after the first gets the same one.
pub struct FirestoreRegistry {
    instances: Vec<Firestore>,
}

impl View for FirestoreRegistry {
    type V = Map<Seq<char>, Firestore>;

    closed spec fn view(&self) -> Map<Seq<char>, Firestore> {
        instances_map(self.instances@)
    }
}

impl FirestoreRegistry {
    #[verifier::type_invariant]
    spec fn apps_distinct(&self) -> bool {
        distinct_apps(self.instances@)
    }

    /// No instances yet.
    pub fn new() -> (r: Self)
        ensures
            r@ == Map::<Seq<char>, Firestore>::empty(),
    {
        FirestoreRegistry { instances: Vec::new() }
    }

    /// The instance kept for the app named `name`.
    fn position(&self, name: &str) -> (r: Option<usize>)
        ensures
            match r {
                Some(i) => i < self.instances@.len() && self.instances@[i as int].spec_app().name@ == name@,
                None => forall|i: int| 0 <= i < self.instances@.len() ==> (#[trigger] self.instances@[i]).spec_app().name@
                    != name@,
            },
    {
        let mut i: usize = 0;
        while i < self.instances.len()
            invariant
                i <= self.instances@.len(),
                forall|j: int| 0 <= j < i ==> (#[trigger] self.instances@[j]).spec_app().name@ != name@,
            decreases self.instances@.len() - i,
        {
            if str_equal(self.instances[i].app.name.as_str(), name) {
                return Some(i);
            }
            i = i + 1;
        }
        None
    }

    /// The Firestore instance of `app` (of the default app when `None`): the
    /// one already made for an app of that name, else, for an app given, a
    /// new instance on the project's default database, kept for later
    /// requests. Without an app and with no instance of the default app, the
    /// request is refused.
    pub fn get_firestore(&mut self, app: Option<FirebaseApp>) -> (r: FirestoreResult<&Firestore>)
        ensures
            ({
                let name = match app {
                    Some(a) => a.name@,
                    None => default_app_name(),
                };
                if old(self)@.dom().contains(name) {
                    r matches Ok(f) && *f == old(self)@[name] && final(self)@ == old(self)@
                } else {
                    match app {
                        Some(a) => match r {
                            Ok(f) => app_project_id(a) matches Some(p) && f@ == (p, default_database_name())
                                && f.spec_app() == a && final(self)@ == old(self)@.insert(name, *f),
                            Err(e) => app_project_id(a) is None && e.code == FirestoreErrorCode::MissingProjectId
                                && final(self)@ == old(self)@,
                        },
                        None => r matches Err(e) && e.code == FirestoreErrorCode::Internal && final(self)@
                            == old(self)@,
                    }
                }
            }),
    {
        proof {
            use_type_invariant(&*self);
            lemma_instances_map(self.instances@);
            reveal_strlit("[DEFAULT]");
        }
        let found = match &app {
            Some(a) => self.position(a.name.as_str()),
            None => self.position("[DEFAULT]"),
        };
        let ghost name = match &app {
            Some(a) => a.name@,
            None => default_app_name(),
        };
        match found {
            Some(i) => Ok(&self.instances[i]),
            None => {
                proof {
                    if self@.dom().contains(name) {
                        let j = choose|j: int| 0 <= j < self.instances@.len() && self.instances@[j].spec_app().name@ == name;
                        assert(self.instances@[j].spec_app().name@ != name);
                    }
                }
                match app {
                    None => Err(internal_error("No Firebase App '[DEFAULT]' has been created")),
                    Some(a) => {
                        let f = firestore_for_app(a, None)?;
                        let ghost fv = f;
                        assert(fv.spec_app().name@ == name);
                        let mut v = Vec::new();
                        std::mem::swap(&mut v, &mut self.instances);
                        let ghost before = v@;
                        v.push(f);
                        proof {
                            assert(v@.drop_last() =~= before);
                            assert forall|x: int, y: int| 0 <= x < y < v@.len() implies (#[trigger] v@[x]).spec_app().name@
                                != (#[trigger] v@[y]).spec_app().name@ by {
                                assert(v@[x] == before[x]);
                                if y < before.len() {
                                    assert(v@[y] == before[y]);
                                }
                            }
                        }
                        self.instances = v;
                        let n = self.instances.len();
                        Ok(&self.instances[n - 1])
                    },
                }
            },
        }
    }
}

} // verus!
