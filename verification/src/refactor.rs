//! Refactoring: source changes and the local engine over them.
//!
//! The local engine is a placeholder in this revision: every operation
//! reports the empty change, and its contracts say exactly that.  Real
//! refactorings go through the backend's code actions instead.

use vstd::prelude::*;
use crate::analyzer::{AnalysisError, FileId, FileRange, TextRange};

verus! {

/// One replacement of a text range.
#[derive(Debug)]
pub struct TextEdit {
    pub range: TextRange,
    pub new_text: String,
}

/// A named set of edits to apply together.
#[derive(Debug)]
pub struct SourceChange {
    pub label: String,
    pub edits: Vec<TextEdit>,
}

impl Default for SourceChange {
    /// The empty change: no label, no edits.
    fn default() -> (r: Self)
        ensures
            r.label@.len() == 0,
            r.edits@.len() == 0,
    {
        Self { label: String::new(), edits: Vec::new() }
    }
}

pub struct RefactorEngine;

impl RefactorEngine {
    pub fn new() -> (r: Self) {
        Self
    }

    /// The range a rename at this position would touch; this
    /// placeholder offers none.
    pub fn prepare_rename(&self, _file_id: FileId, _offset: u32) -> (r: Result<
        Option<FileRange>,
        AnalysisError,
    >)
        ensures
            r == Ok::<Option<FileRange>, AnalysisError>(None),
    {
        Ok(None)
    }

    /// Rename at a position; this placeholder changes nothing.
    pub fn rename(&self, _file_id: FileId, _offset: u32, _new_name: &str) -> (r: Result<
        SourceChange,
        AnalysisError,
    >)
        ensures
            match r {
                Ok(c) => c.label@.len() == 0 && c.edits@.len() == 0,
                Err(_) => false,
            },
    {
        Ok(SourceChange::default())
    }

    /// Extract a range into a function; this placeholder changes
    /// nothing.
    pub fn extract_function(&self, _range: FileRange, _name: &str) -> (r: Result<
        SourceChange,
        AnalysisError,
    >)
        ensures
            match r {
                Ok(c) => c.label@.len() == 0 && c.edits@.len() == 0,
                Err(_) => false,
            },
    {
        Ok(SourceChange::default())
    }

    /// Inline the symbol at a position; this placeholder changes
    /// nothing.
    pub fn inline(&self, _file_id: FileId, _offset: u32) -> (r: Result<
        SourceChange,
        AnalysisError,
    >)
        ensures
            match r {
                Ok(c) => c.label@.len() == 0 && c.edits@.len() == 0,
                Err(_) => false,
            },
    {
        Ok(SourceChange::default())
    }

    /// Reorder a file's imports; this placeholder suggests no edits.
    pub fn organize_imports(&self, _file_id: FileId) -> (r: Result<Vec<TextEdit>, AnalysisError>)
        ensures
            match r {
                Ok(v) => v@.len() == 0,
                Err(_) => false,
            },
    {
        Ok(Vec::new())
    }
}

} // verus!
