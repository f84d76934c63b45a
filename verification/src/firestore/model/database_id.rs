//! The project and database a Firestore instance talks to.
use vstd::prelude::*;

use crate::app::FirebaseApp;
use crate::firestore::error::{missing_project_id, FirestoreErrorCode, FirestoreResult};
use crate::text::owned;

verus! {

/// The name of the database used when none is chosen.
pub open spec fn default_database_name() -> Seq<char> {
    "(default)"@
}

/// `"(default)"`: the database used when none is chosen.
pub fn default_database_id() -> (r: &'static str)
    ensures
        r@ == default_database_name(),
{
    "(default)"
}

/// A project identifier together with a database name.
#[derive(Debug, PartialEq, Eq, Hash)]
pub struct DatabaseId {
    project_id: String,
    database: String,
}

impl View for DatabaseId {
    type V = (Seq<char>, Seq<char>);

    closed spec fn view(&self) -> (Seq<char>, Seq<char>) {
        (self.project_id@, self.database@)
    }
}

impl Clone for DatabaseId {
    fn clone(&self) -> (r: Self)
        ensures
            r@ == self@,
    {
        DatabaseId { project_id: self.project_id.clone(), database: self.database.clone() }
    }
}

impl DatabaseId {
    pub fn new(project_id: &str, database: &str) -> (d: Self)
        ensures
            d@ == (project_id@, database@),
    {
        DatabaseId { project_id: owned(project_id), database: owned(database) }
    }

    /// The `(default)` database of a project.
    pub fn default(project_id: &str) -> (d: Self)
        ensures
            d@ == (project_id@, default_database_name()),
    {
        Self::new(project_id, default_database_id())
    }

    /// The default database of the app's project; an app without a project
    /// identifier is refused.
    pub fn from_app(app: &FirebaseApp) -> (r: FirestoreResult<Self>)
        ensures
            match r {
                Ok(d) => app.options.project_id matches Some(p) && d@ == (p@, default_database_name()),
                Err(e) => app.options.project_id is None && e.code == FirestoreErrorCode::MissingProjectId,
            },
    {
        match &app.options().project_id {
            Some(p) => Ok(Self::default(p.as_str())),
            None => Err(missing_project_id()),
        }
    }

    pub fn project_id(&self) -> (r: &str)
        ensures
            r@ == self@.0,
    {
        self.project_id.as_str()
    }

    pub fn database(&self) -> (r: &str)
        ensures
            r@ == self@.1,
    {
        self.database.as_str()
    }

    /// The same project with another database.
    pub fn with_database(&self, database: &str) -> (d: Self)
        ensures
            d@ == (self@.0, database@),
    {
        Self::new(self.project_id.as_str(), database)
    }
}

} // verus!
