//! Project metrics: the shapes reported, and the analyzer over them.
//!
//! The structural analyzer is a placeholder in this revision: it
//! reports empty results for every input, and its contracts say exactly
//! that.  The line-level content metrics live with the metrics command
//! handling.

use vstd::prelude::*;
use crate::analyzer::AnalysisError;

verus! {

/// Line and item counts for one file or module.
#[derive(Debug)]
pub struct CodeMetrics {
    pub lines_of_code: usize,
    pub cyclomatic_complexity: usize,
    pub functions: usize,
    pub structs: usize,
    pub traits: usize,
    pub impls: usize,
}

/// The modules and dependencies of a project.
#[derive(Debug)]
pub struct ProjectStructure {
    pub modules: Vec<ModuleInfo>,
    pub dependencies: Vec<DependencyInfo>,
}

/// One module and how much it exposes.
#[derive(Debug)]
pub struct ModuleInfo {
    pub name: String,
    pub path: String,
    pub public_items: usize,
    pub private_items: usize,
}

/// One dependency as the manifest names it.
#[derive(Debug)]
pub struct DependencyInfo {
    pub name: String,
    pub version: String,
    pub features: Vec<String>,
}

pub struct MetricsAnalyzer;

impl MetricsAnalyzer {
    pub fn new() -> (r: Self) {
        Self
    }

    /// Metrics for one file; this placeholder reports all counts zero.
    pub fn analyze_file(&self, _path: &str) -> (r: Result<CodeMetrics, AnalysisError>)
        ensures
            match r {
                Ok(m) => m.lines_of_code == 0 && m.cyclomatic_complexity == 0 && m.functions == 0
                    && m.structs == 0 && m.traits == 0 && m.impls == 0,
                Err(_) => false,
            },
    {
        Ok(
            CodeMetrics {
                lines_of_code: 0,
                cyclomatic_complexity: 0,
                functions: 0,
                structs: 0,
                traits: 0,
                impls: 0,
            },
        )
    }

    /// Structure of a project; this placeholder reports no modules and
    /// no dependencies.
    pub fn analyze_project(&self, _root: &str) -> (r: Result<ProjectStructure, AnalysisError>)
        ensures
            match r {
                Ok(p) => p.modules@.len() == 0 && p.dependencies@.len() == 0,
                Err(_) => false,
            },
    {
        Ok(ProjectStructure { modules: Vec::new(), dependencies: Vec::new() })
    }

    /// Unused code in a project; this placeholder reports none.
    pub fn find_dead_code(&self, _root: &str) -> (r: Result<Vec<String>, AnalysisError>)
        ensures
            match r {
                Ok(v) => v@.len() == 0,
                Err(_) => false,
            },
    {
        Ok(Vec::new())
    }

    /// Improvement suggestions; this placeholder reports none.
    pub fn suggest_improvements(&self, _path: &str) -> (r: Result<Vec<String>, AnalysisError>)
        ensures
            match r {
                Ok(v) => v@.len() == 0,
                Err(_) => false,
            },
    {
        Ok(Vec::new())
    }
}

} // verus!
