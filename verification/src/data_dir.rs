//! The error given when the data directory cannot be prepared.
use vstd::prelude::*;

verus! {

#[derive(Debug)]
enum InnerDataDirError {
    UnknownHome,
    CreateFailed { path: String, error: String },
}

/// Error returned when the data directory can't be found or created.
#[derive(Debug)]
pub struct DataDirError(InnerDataDirError);

/// The error as mathematical values.
pub enum DataDirErrorView {
    /// No data (home) directory is known.
    UnknownHome,
    /// Creating the directory `path` failed for the reason `error`.
    CreateFailed { path: Seq<char>, error: Seq<char> },
}

impl View for DataDirError {
    type V = DataDirErrorView;

    closed spec fn view(&self) -> DataDirErrorView {
        match &self.0 {
            InnerDataDirError::UnknownHome => DataDirErrorView::UnknownHome,
            InnerDataDirError::CreateFailed { path, error } => DataDirErrorView::CreateFailed {
                path: path@,
                error: error@,
            },
        }
    }
}

/// The text that describes the error.
pub open spec fn data_dir_error_text(e: DataDirErrorView) -> Seq<char> {
    match e {
        DataDirErrorView::UnknownHome => "unknown data (home) directory"@,
        DataDirErrorView::CreateFailed { path, error: _ } => "failed to create data (home) directory "@
            + path,
    }
}

impl DataDirError {
    /// The error for when no data (home) directory is known.
    pub fn unknown_home() -> (e: DataDirError)
        ensures
            e@ == DataDirErrorView::UnknownHome,
    {
        DataDirError(InnerDataDirError::UnknownHome)
    }

    /// The error for when creating the directory `path` failed with `error`.
    pub fn create_failed(path: String, error: String) -> (e: DataDirError)
        ensures
            e@ == (DataDirErrorView::CreateFailed { path: path@, error: error@ }),
    {
        DataDirError(InnerDataDirError::CreateFailed { path, error })
    }

    /// The text that describes the error.
    pub fn message(&self) -> (s: String)
        ensures
            s@ == data_dir_error_text(self@),
    {
        match &self.0 {
            InnerDataDirError::UnknownHome => String::from_str("unknown data (home) directory"),
            InnerDataDirError::CreateFailed { path, error: _ } => {
                let mut s = String::from_str("failed to create data (home) directory ");
                s.append(path.as_str());
                s
            },
        }
    }

    /// The directory that could not be created, where that is the error.
    pub fn path(&self) -> (p: Option<String>)
        ensures
            match self@ {
                DataDirErrorView::UnknownHome => p is None,
                DataDirErrorView::CreateFailed { path, error: _ } => p is Some && p.unwrap()@
                    == path,
            },
    {
        match &self.0 {
            InnerDataDirError::UnknownHome => None,
            InnerDataDirError::CreateFailed { path, error: _ } => Some(path.clone()),
        }
    }

    /// The reason the directory could not be created, where that is the error.
    pub fn cause(&self) -> (c: Option<String>)
        ensures
            match self@ {
                DataDirErrorView::UnknownHome => c is None,
                DataDirErrorView::CreateFailed { path: _, error } => c is Some && c.unwrap()@
                    == error,
            },
    {
        match &self.0 {
            InnerDataDirError::UnknownHome => None,
            InnerDataDirError::CreateFailed { path: _, error } => Some(error.clone()),
        }
    }
}

} // verus!
