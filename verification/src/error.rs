//! Validation error types with source location, severity, and stage metadata.
use vstd::prelude::*;
use crate::text::{owned, push_str};

verus! {

/// The pipeline stage that produced a validation error.
#[derive(Debug, Clone, Copy, PartialEq, Eq, Hash, Structural)]
pub enum ValidationStage {
    PackageMerge,
    Substitutions,
    ExtendRemove,
    /// Resolve a selected solution variant against its parent solution.
    VariantResolution,
    ExternalComponents,
    Preload,
    ComponentLoading,
    SchemaValidation,
    IdResolution,
    FinalValidation,
    PinConflicts,
    ExclusiveGroup,
    ProfileValidation,
    SecretFields,
}

/// The snake-case name of a stage, as shown in diagnostics.
pub open spec fn stage_name_spec(stage: ValidationStage) -> Seq<char> {
    match stage {
        ValidationStage::PackageMerge => "package_merge"@,
        ValidationStage::Substitutions => "substitutions"@,
        ValidationStage::ExtendRemove => "extend_remove"@,
        ValidationStage::VariantResolution => "variant_resolution"@,
        ValidationStage::ExternalComponents => "external_components"@,
        ValidationStage::Preload => "preload"@,
        ValidationStage::ComponentLoading => "component_loading"@,
        ValidationStage::SchemaValidation => "schema_validation"@,
        ValidationStage::IdResolution => "id_resolution"@,
        ValidationStage::FinalValidation => "final_validation"@,
        ValidationStage::PinConflicts => "pin_conflicts"@,
        ValidationStage::ExclusiveGroup => "exclusive_group"@,
        ValidationStage::ProfileValidation => "profile_validation"@,
        ValidationStage::SecretFields => "secret_fields"@,
    }
}

impl ValidationStage {
    /// The snake-case name of this stage.
    pub fn name(&self) -> (r: &'static str)
        ensures
            r@ == stage_name_spec(*self),
    {
        match self {
            ValidationStage::PackageMerge => "package_merge",
            ValidationStage::Substitutions => "substitutions",
            ValidationStage::ExtendRemove => "extend_remove",
            ValidationStage::VariantResolution => "variant_resolution",
            ValidationStage::ExternalComponents => "external_components",
            ValidationStage::Preload => "preload",
            ValidationStage::ComponentLoading => "component_loading",
            ValidationStage::SchemaValidation => "schema_validation",
            ValidationStage::IdResolution => "id_resolution",
            ValidationStage::FinalValidation => "final_validation",
            ValidationStage::PinConflicts => "pin_conflicts",
            ValidationStage::ExclusiveGroup => "exclusive_group",
            ValidationStage::ProfileValidation => "profile_validation",
            ValidationStage::SecretFields => "secret_fields",
        }
    }
}

/// Severity level for a validation diagnostic, ordered `Info < Warning < Error`.
#[derive(Debug, Clone, Copy, PartialEq, Eq, PartialOrd, Ord, Hash, Structural)]
pub enum Severity {
    /// Informational note — does not fail validation.
    Info,
    /// Non-blocking warning — validation continues.
    Warning,
    /// Fatal error — pipeline cannot proceed past this stage.
    Error,
}

/// The rank of a severity in the order `Info < Warning < Error`.
pub open spec fn severity_rank(s: Severity) -> int {
    match s {
        Severity::Info => 0,
        Severity::Warning => 1,
        Severity::Error => 2,
    }
}

/// The debug name of a severity.
pub open spec fn severity_name_spec(s: Severity) -> Seq<char> {
    match s {
        Severity::Info => "Info"@,
        Severity::Warning => "Warning"@,
        Severity::Error => "Error"@,
    }
}

impl Severity {
    /// The rank of this severity: `Info` 0, `Warning` 1, `Error` 2.
    pub fn rank(&self) -> (r: u8)
        ensures
            r as int == severity_rank(*self),
    {
        match self {
            Severity::Info => 0,
            Severity::Warning => 1,
            Severity::Error => 2,
        }
    }

    /// The name of this severity as written in diagnostics.
    pub fn name(&self) -> (r: &'static str)
        ensures
            r@ == severity_name_spec(*self),
    {
        match self {
            Severity::Info => "Info",
            Severity::Warning => "Warning",
            Severity::Error => "Error",
        }
    }
}

/// A structured validation diagnostic with source location and context.
#[derive(Debug)]
pub struct ValidationError {
    /// JSON-path-like source location, e.g. `"sensor[0].platform.dht.pin"`.
    pub path: String,
    /// Human-readable description of the problem.
    pub message: String,
    /// Severity level.
    pub severity: Severity,
    /// Optional remediation suggestion.
    pub suggestion: Option<String>,
    /// Which pipeline stage produced this diagnostic.
    pub stage: ValidationStage,
}

impl Clone for ValidationError {
    fn clone(&self) -> (r: Self)
        ensures
            r == *self,
    {
        ValidationError {
            path: self.path.clone(),
            message: self.message.clone(),
            severity: self.severity,
            suggestion: match &self.suggestion {
                Some(s) => Some(s.clone()),
                None => None,
            },
            stage: self.stage,
        }
    }
}

/// A diagnostic's abstract content.
pub struct DiagnosticView {
    pub path: Seq<char>,
    pub message: Seq<char>,
    pub severity: Severity,
    pub suggestion: Option<Seq<char>>,
    pub stage: ValidationStage,
}

impl View for ValidationError {
    type V = DiagnosticView;

    open spec fn view(&self) -> DiagnosticView {
        DiagnosticView {
            path: self.path@,
            message: self.message@,
            severity: self.severity,
            suggestion: match self.suggestion {
                Some(s) => Some(s@),
                None => None,
            },
            stage: self.stage,
        }
    }
}

/// A diagnostic of the given severity with no suggestion.
pub open spec fn diag(
    stage: ValidationStage,
    severity: Severity,
    path: Seq<char>,
    message: Seq<char>,
) -> DiagnosticView {
    DiagnosticView { path, message, severity, suggestion: None, stage }
}

/// A diagnostic of the given severity carrying a suggestion.
pub open spec fn diag_hint(
    stage: ValidationStage,
    severity: Severity,
    path: Seq<char>,
    message: Seq<char>,
    hint: Seq<char>,
) -> DiagnosticView {
    DiagnosticView { path, message, severity, suggestion: Some(hint), stage }
}

/// The views of a list of diagnostics.
pub open spec fn diags(v: Seq<ValidationError>) -> Seq<DiagnosticView> {
    v.map_values(|e: ValidationError| e@)
}

/// The rendering `[Severity@stage] path: message` followed by
/// ` (hint: suggestion)` when a suggestion is present.
pub open spec fn render_spec(d: DiagnosticView) -> Seq<char> {
    let base = "["@ + severity_name_spec(d.severity) + "@"@ + stage_name_spec(d.stage) + "] "@
        + d.path + ": "@ + d.message;
    match d.suggestion {
        Some(s) => base + " (hint: "@ + s + ")"@,
        None => base,
    }
}

impl ValidationError {
    /// Construct a fatal `Error`-severity diagnostic.
    pub fn error(stage: ValidationStage, path: &str, message: &str) -> (r: Self)
        ensures
            r@ == diag(stage, Severity::Error, path@, message@),
    {
        ValidationError {
            path: owned(path),
            message: owned(message),
            severity: Severity::Error,
            suggestion: None,
            stage,
        }
    }

    /// Construct a non-fatal `Warning`-severity diagnostic.
    pub fn warning(stage: ValidationStage, path: &str, message: &str) -> (r: Self)
        ensures
            r@ == diag(stage, Severity::Warning, path@, message@),
    {
        ValidationError {
            path: owned(path),
            message: owned(message),
            severity: Severity::Warning,
            suggestion: None,
            stage,
        }
    }

    /// Construct an `Info`-severity diagnostic.
    pub fn info(stage: ValidationStage, path: &str, message: &str) -> (r: Self)
        ensures
            r@ == diag(stage, Severity::Info, path@, message@),
    {
        ValidationError {
            path: owned(path),
            message: owned(message),
            severity: Severity::Info,
            suggestion: None,
            stage,
        }
    }

    /// Attach a suggestion string and return `self` for chaining.
    pub fn with_suggestion(self, suggestion: &str) -> (r: Self)
        ensures
            r@ == (DiagnosticView { suggestion: Some(suggestion@), ..self@ }),
    {
        let mut e = self;
        e.suggestion = Some(owned(suggestion));
        e
    }

    /// Returns `true` if this error is fatal (stops pipeline progression).
    pub fn is_fatal(&self) -> (r: bool)
        ensures
            r == (self.severity == Severity::Error),
    {
        self.severity == Severity::Error
    }

    /// Renders the diagnostic as `[Severity@stage] path: message (hint: …)`.
    pub fn to_display_string(&self) -> (r: String)
        ensures
            r@ == render_spec(self@),
    {
        let mut r = owned("[");
        push_str(&mut r, self.severity.name());
        push_str(&mut r, "@");
        push_str(&mut r, self.stage.name());
        push_str(&mut r, "] ");
        push_str(&mut r, self.path.as_str());
        push_str(&mut r, ": ");
        push_str(&mut r, self.message.as_str());
        match &self.suggestion {
            Some(s) => {
                push_str(&mut r, " (hint: ");
                push_str(&mut r, s.as_str());
                push_str(&mut r, ")");
            },
            None => {},
        }
        r
    }
}

/// Some entry of `errors` has `Severity::Error`.
pub open spec fn has_errors_spec(errors: Seq<ValidationError>) -> bool {
    exists|i: int| 0 <= i < errors.len() && #[trigger] errors[i].severity == Severity::Error
}

/// Returns `true` if any entry in `errors` has `Severity::Error`.
pub fn has_errors(errors: &[ValidationError]) -> (r: bool)
    ensures
        r == has_errors_spec(errors@),
{
    let mut i: usize = 0;
    while i < errors.len()
        invariant
            i <= errors@.len(),
            forall|k: int| 0 <= k < i ==> errors@[k].severity != Severity::Error,
        decreases errors@.len() - i,
    {
        if errors[i].is_fatal() {
            return true;
        }
        i = i + 1;
    }
    false
}

/// The diagnostic is fatal.
pub open spec fn is_fatal_spec(e: ValidationError) -> bool {
    e.severity == Severity::Error
}

/// Split `errors` into `(fatal, non_fatal)` partitions, each keeping the
/// original relative order.
pub fn partition_errors(errors: Vec<ValidationError>) -> (r: (
    Vec<ValidationError>,
    Vec<ValidationError>,
))
    ensures
        r.0@ == errors@.filter(|e: ValidationError| is_fatal_spec(e)),
        r.1@ == errors@.filter(|e: ValidationError| !is_fatal_spec(e)),
{
    let mut fatal: Vec<ValidationError> = Vec::new();
    let mut rest: Vec<ValidationError> = Vec::new();
    let mut i: usize = 0;
    while i < errors.len()
        invariant
            i <= errors@.len(),
            fatal@ == errors@.subrange(0, i as int).filter(|e: ValidationError| is_fatal_spec(e)),
            rest@ == errors@.subrange(0, i as int).filter(|e: ValidationError| !is_fatal_spec(e)),
        decreases errors@.len() - i,
    {
        let e = errors[i].clone();
        proof {
            let s = errors@.subrange(0, i as int + 1);
            assert(s.drop_last() =~= errors@.subrange(0, i as int));
            reveal_with_fuel(Seq::<_>::filter, 1);
        }
        if e.is_fatal() {
            fatal.push(e);
        } else {
            rest.push(e);
        }
        i = i + 1;
    }
    proof {
        assert(errors@.subrange(0, errors@.len() as int) =~= errors@);
    }
    (fatal, rest)
}

/// An element of either part of a concatenation is an element of the whole.
pub proof fn lemma_concat_contains<A>(p: Seq<A>, q: Seq<A>, d: A)
    ensures
        (p.contains(d) || q.contains(d)) ==> (p + q).contains(d),
{
    if p.contains(d) {
        let i = choose|i: int| 0 <= i < p.len() && p[i] == d;
        assert((p + q)[i] == d);
    } else if q.contains(d) {
        let i = choose|i: int| 0 <= i < q.len() && q[i] == d;
        assert((p + q)[p.len() + i] == d);
    }
}

} // verus!
