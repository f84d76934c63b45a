//! The Firebase app handle that service instances are scoped to: a name and
//! the options the app was initialized with.
use vstd::prelude::*;

use crate::text::owned;

verus! {

/// Options that identify a Firebase project.
#[derive(Clone, Debug, PartialEq, Eq)]
pub struct FirebaseOptions {
    pub api_key: Option<String>,
    pub auth_domain: Option<String>,
    pub database_url: Option<String>,
    pub project_id: Option<String>,
    pub storage_bucket: Option<String>,
    pub messaging_sender_id: Option<String>,
    pub app_id: Option<String>,
    pub measurement_id: Option<String>,
}

impl Default for FirebaseOptions {
    fn default() -> (o: Self)
        ensures
            o.api_key is None,
            o.auth_domain is None,
            o.database_url is None,
            o.project_id is None,
            o.storage_bucket is None,
            o.messaging_sender_id is None,
            o.app_id is None,
            o.measurement_id is None,
    {
        FirebaseOptions {
            api_key: None,
            auth_domain: None,
            database_url: None,
            project_id: None,
            storage_bucket: None,
            messaging_sender_id: None,
            app_id: None,
            measurement_id: None,
        }
    }
}

/// Per-app settings chosen at initialization.
#[derive(Clone, Debug, PartialEq, Eq)]
pub struct FirebaseAppSettings {
    pub name: Option<String>,
    pub automatic_data_collection_enabled: Option<bool>,
}

impl Default for FirebaseAppSettings {
    fn default() -> (s: Self)
        ensures
            s.name is None,
            s.automatic_data_collection_enabled is None,
    {
        FirebaseAppSettings { name: None, automatic_data_collection_enabled: None }
    }
}

/// The name given to an app when the settings name none.
pub open spec fn default_app_name() -> Seq<char> {
    "[DEFAULT]"@
}

/// An initialized Firebase app.
#[derive(Clone, Debug)]
pub struct FirebaseApp {
    pub name: String,
    pub options: FirebaseOptions,
    pub automatic_data_collection_enabled: bool,
}

impl FirebaseApp {
    /// The app's name.
    pub fn name(&self) -> (r: &str)
        ensures
            r@ == self.name@,
    {
        self.name.as_str()
    }

    /// The options the app was initialized with.
    pub fn options(&self) -> (r: &FirebaseOptions)
        ensures
            *r == self.options,
    {
        &self.options
    }

    /// Whether automatic data collection is enabled.
    pub fn automatic_data_collection_enabled(&self) -> (r: bool)
        ensures
            r == self.automatic_data_collection_enabled,
    {
        self.automatic_data_collection_enabled
    }
}

/// Errors raised while creating an app.
#[derive(Clone, Copy, Debug, PartialEq, Eq, Structural)]
pub enum AppErrorCode {
    BadAppName,
}

#[derive(Clone, Debug)]
pub struct AppError {
    pub code: AppErrorCode,
}

/// Creates an app handle. The name comes from the settings, `[DEFAULT]` when
/// they give none; an empty name is refused. Data collection is on unless the
/// settings turn it off.
pub fn initialize_app(options: FirebaseOptions, settings: Option<FirebaseAppSettings>) -> (r:
    Result<FirebaseApp, AppError>)
    ensures
        match r {
            Ok(app) => {
                &&& app.options == options
                &&& match settings {
                    Some(s) => match s.name {
                        Some(n) => n@.len() > 0 && app.name@ == n@,
                        None => app.name@ == default_app_name(),
                    },
                    None => app.name@ == default_app_name(),
                }
                &&& app.automatic_data_collection_enabled == match settings {
                    Some(s) => match s.automatic_data_collection_enabled {
                        Some(b) => b,
                        None => true,
                    },
                    None => true,
                }
            },
            Err(e) => e.code == AppErrorCode::BadAppName && (settings matches Some(s) && (
            s.name matches Some(n) && n@.len() == 0)),
        },
{
    let (name, collection) = match settings {
        Some(s) => {
            let collection = match s.automatic_data_collection_enabled {
                Some(b) => b,
                None => true,
            };
            let name = match s.name {
                Some(n) => {
                    if n.as_str().unicode_len() == 0 {
                        return Err(AppError { code: AppErrorCode::BadAppName });
                    }
                    n
                },
                None => owned("[DEFAULT]"),
            };
            (name, collection)
        },
        None => (owned("[DEFAULT]"), true),
    };
    Ok(FirebaseApp { name, options, automatic_data_collection_enabled: collection })
}

} // verus!
