//! Records of a runtime scene that carry no geometry: relations,
//! animations, diagnostics and the runtime's error type.
use vstd::prelude::*;
use std::collections::BTreeMap;

verus! {

#[verifier::external_type_specification]
#[verifier::external_body]
pub struct ExPathBuf(std::path::PathBuf);

#[verifier::external_type_specification]
#[verifier::external_body]
pub struct ExIoError(std::io::Error);

/// Why the runtime could not build a scene.
#[derive(Debug)]
pub enum RuntimeError {
    Io { path: std::path::PathBuf, source: std::io::Error },
    InvalidIr(String),
}

#[derive(Debug, Clone, PartialEq)]
pub struct SceneRelation {
    pub from: String,
    pub to: String,
    pub kind: Option<String>,
    pub properties: BTreeMap<String, String>,
    pub active: bool,
}

#[derive(Debug, Clone, PartialEq)]
pub struct SceneAnimation {
    pub id: String,
    pub reference: Option<String>,
    pub properties: BTreeMap<String, String>,
}

#[derive(Debug, Clone, PartialEq, Eq)]
pub struct RuntimeDiagnostic {
    pub severity: String,
    pub code: String,
    pub message: String,
    pub source: String,
    pub declaration: Option<String>,
    pub line: usize,
    pub column: usize,
}

} // verus!
