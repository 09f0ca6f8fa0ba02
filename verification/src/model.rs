//! Plain data shared by the renderers: colours, fill and stroke settings,
//! diagnostics, filter enumerations, CPU output, and the revision gate that
//! tells a renderer whether its scene is still the newest one.
use vstd::prelude::*;
use std::sync::atomic::{AtomicU64, Ordering};

verus! {

#[derive(Debug, Clone, PartialEq)]
pub struct PathData {
    pub svg: String,
}

#[derive(Debug, Clone, Copy, PartialEq, Eq, Structural)]
pub enum GradientSpread {
    Pad,
    Repeat,
    Reflect,
}

#[derive(Debug, Clone, Copy, PartialEq, Eq, Structural)]
pub struct Rgba {
    pub r: u8,
    pub g: u8,
    pub b: u8,
    pub a: u8,
}

#[derive(Debug, Clone, Copy, PartialEq, Eq, Structural)]
pub enum FillRule {
    NonZero,
    EvenOdd,
}

#[derive(Debug, Clone, Copy, PartialEq, Eq, Structural)]
pub enum LineCap {
    Butt,
    Round,
    Square,
}

#[derive(Debug, Clone, Copy, PartialEq, Eq, Structural)]
pub enum LineJoin {
    Miter,
    Round,
    Bevel,
}

#[derive(Debug, Clone, PartialEq, Eq)]
pub struct RenderDiagnostic {
    pub severity: String,
    pub code: String,
    pub message: String,
    pub declaration: Option<String>,
}

/// Where a filter primitive takes its input from.
#[derive(Debug, Clone, PartialEq)]
pub enum FilterInput {
    SourceGraphic,
    SourceAlpha,
    Named(String),
}

#[derive(Debug, Clone, Copy, PartialEq, Eq, Structural)]
pub enum BlendMode {
    Normal,
    Multiply,
    Screen,
    Darken,
    Lighten,
}

#[derive(Debug, Clone, Copy, PartialEq, Eq, Structural)]
pub enum MorphologyOperator {
    Erode,
    Dilate,
}

/// What the CPU renderer hands back: premultiplied RGBA rows and the
/// diagnostics gathered on the way.
pub struct CpuOutput {
    pub width: u16,
    pub height: u16,
    pub pixels: Vec<u8>,
    pub diagnostics: Vec<RenderDiagnostic>,
}

/// Why the GPU renderer gave up.
#[derive(Debug)]
pub enum GpuRenderError {
    Scene(Vec<RenderDiagnostic>),
    Backend(String),
}

impl GpuRenderError {
    /// The message this error displays with.
    pub fn message(&self) -> (m: String)
        ensures
            match self {
                GpuRenderError::Backend(b) => m@ == "GPU renderer error: "@ + b@,
                GpuRenderError::Scene(d) => m@ == "scene preparation produced "@ + crate::ir::decimal(d@.len())
                    + " renderer diagnostic(s)"@,
            },
    {
        match self {
            GpuRenderError::Backend(b) => {
                let mut out = crate::text::chars_of("GPU renderer error: ");
                crate::text::append_str(&mut out, b.as_str());
                crate::text::string_of(&out)
            },
            GpuRenderError::Scene(d) => {
                let mut out = crate::text::chars_of("scene preparation produced ");
                crate::ir::push_decimal(&mut out, d.len());
                crate::text::append_str(&mut out, " renderer diagnostic(s)");
                crate::text::string_of(&out)
            },
        }
    }
}

/// A counter of scene revisions, shared between the thread that prepares
/// scenes and the renderers. Other threads may move it at any time, so the
/// contracts below say nothing of the values read.
#[derive(Debug, Default)]
pub struct RevisionGate(AtomicU64);

impl RevisionGate {
    /// Starts a new revision and returns its number, one more than the
    /// counter held before the increment (wrapping at `u64::MAX`).
    pub fn begin(&self) -> (revision: u64) {
        let previous = self.0.fetch_add(1, Ordering::SeqCst);
        previous.wrapping_add(1)
    }

    /// The newest revision started so far.
    pub fn current(&self) -> (revision: u64) {
        self.0.load(Ordering::SeqCst)
    }

    /// Whether `revision` is the newest one at the moment of the read.
    pub fn is_current(&self, revision: u64) -> (r: bool) {
        self.current() == revision
    }
}

} // verus!
