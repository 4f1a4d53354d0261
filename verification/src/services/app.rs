//! The state that the desktop application keeps between requests, and the
//! answers it gives to them.
use vstd::prelude::*;

use crate::models::error::AppError;
use crate::models::message::FixMessage;
use crate::schema::{FixSchema, FixSchemaView};
use crate::services::converter::{conversion, needs_schema, FixConverter, FixConverterView};

verus! {

/// Either a converter with a dictionary loaded, or the error that kept the
/// dictionary from loading.
pub enum AppState {
    Loaded { converter: FixConverter },
    Unloaded { error: AppError },
}

/// An `AppState` as plain values.
pub enum AppStateView {
    Loaded { converter: FixConverterView },
    Unloaded { error: Seq<char> },
}

impl View for AppState {
    type V = AppStateView;

    open spec fn view(&self) -> AppStateView {
        match self {
            AppState::Loaded { converter } => AppStateView::Loaded { converter: converter@ },
            AppState::Unloaded { error } => AppStateView::Unloaded { error: error@ },
        }
    }
}

/// A loaded state always holds a dictionary.
pub open spec fn state_wf(st: AppStateView) -> bool {
    st matches AppStateView::Loaded { converter } ==> converter.schema is Some
}

/// The state after loading `schema`, read from `path`: loaded on success,
/// otherwise unloaded with the error.
pub open spec fn loaded_state(path: Seq<char>, schema: Result<FixSchemaView, Seq<char>>) -> AppStateView {
    match schema {
        Ok(s) => AppStateView::Loaded {
            converter: FixConverterView { schema: Some(s), filename: path },
        },
        Err(e) => AppStateView::Unloaded { error: e },
    }
}

/// The state after a request to use the dictionary `schema` read from `path`:
/// a failed read leaves the state as it was.
pub open spec fn state_after_set(
    st: AppStateView,
    path: Seq<char>,
    schema: Result<FixSchemaView, Seq<char>>,
) -> AppStateView {
    match schema {
        Ok(s) => loaded_state(path, Ok(s)),
        Err(_) => st,
    }
}

/// The answer to a request for the file of the loaded dictionary.
pub open spec fn schema_file_of(st: AppStateView) -> Result<Seq<char>, Seq<char>> {
    match st {
        AppStateView::Loaded { converter } => Ok(converter.filename),
        AppStateView::Unloaded { error } => Err(error),
    }
}

/// A read result as plain values.
pub open spec fn schema_result_view(schema: Result<FixSchema, AppError>) -> Result<
    FixSchemaView,
    Seq<char>,
> {
    match schema {
        Ok(s) => Ok(s@),
        Err(e) => Err(e@),
    }
}

impl AppState {
    /// The state the application starts in: the converter loads the
    /// dictionary named in the cache; the error of a failed cache read or of a
    /// failed dictionary read is kept instead.
    pub fn setup(schema_file: Result<String, AppError>, schema: Result<FixSchema, AppError>) -> (r:
        AppState)
        ensures
            state_wf(r@),
            match schema_file {
                Err(e) => r@ == (AppStateView::Unloaded { error: e@ }),
                Ok(path) => r@ == loaded_state(path@, schema_result_view(schema)),
            },
    {
        let mut converter = FixConverter::new();
        match converter.try_load(schema_file, schema) {
            Ok(()) => AppState::Loaded { converter },
            Err(error) => AppState::Unloaded { error },
        }
    }

    /// The file of the loaded dictionary, or the error that kept it from
    /// loading.
    pub fn get_schema_file(&self) -> (r: Result<String, AppError>)
        ensures
            match schema_file_of(self@) {
                Ok(f) => r matches Ok(got) && got@ == f,
                Err(e) => r matches Err(got) && got@ == e,
            },
    {
        match self {
            AppState::Loaded { converter } => Ok(converter.filename.clone()),
            AppState::Unloaded { error } => Err(error.duplicate()),
        }
    }

    /// Uses the dictionary `schema` read from `path`: the state becomes loaded
    /// with a fresh converter; a failed read is handed back and the state is
    /// left as it was.
    pub fn set_schema_file(&mut self, path: &str, schema: Result<FixSchema, AppError>) -> (r: Result<
        (),
        AppError,
    >)
        ensures
            state_wf(old(self)@) ==> state_wf(final(self)@),
            final(self)@ == state_after_set(old(self)@, path@, schema_result_view(schema)),
            match schema {
                Ok(_) => r is Ok,
                Err(e) => r matches Err(got) && got == e,
            },
    {
        let mut converter = FixConverter::new();
        match converter.load_from(path, schema) {
            Ok(()) => {
                *self = AppState::Loaded { converter };
                Ok(())
            },
            Err(e) => Err(e),
        }
    }

    /// Converts a raw FIX message with the loaded dictionary, or answers with
    /// the error that kept the dictionary from loading.
    pub fn read_fix(&self, input: &str) -> (r: Result<FixMessage, AppError>)
        requires
            self@ matches AppStateView::Loaded { converter } ==> converter.schema is Some
                || !needs_schema(input@),
        ensures
            match self@ {
                AppStateView::Loaded { converter } => match conversion(
                    converter.schema->0,
                    input@,
                ) {
                    Ok(v) => r matches Ok(m) && m@ == v,
                    Err(t) => r matches Err(e) && e@ == t,
                },
                AppStateView::Unloaded { error } => r matches Err(e) && e@ == error,
            },
    {
        match self {
            AppState::Loaded { converter } => converter.from_str(input),
            AppState::Unloaded { error } => Err(error.duplicate()),
        }
    }
}

/// Loading a dictionary and then asking for its file gives back the path it
/// was read from.
pub proof fn law_set_then_get_schema_file(st: AppStateView, path: Seq<char>, s: FixSchemaView)
    ensures
        schema_file_of(state_after_set(st, path, Ok(s))) == Ok::<Seq<char>, Seq<char>>(path),
{
}

/// A failed dictionary read leaves the answer about the file unchanged.
pub proof fn law_failed_set_keeps_schema_file(st: AppStateView, path: Seq<char>, e: Seq<char>)
    ensures
        schema_file_of(state_after_set(st, path, Err(e))) == schema_file_of(st),
{
}

} // verus!
