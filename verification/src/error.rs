//! Error types for the lowering pass, and the diagnostics they become.

use vstd::prelude::*;

use crate::text::{append_str, copy_string, owned};

verus! {

/// A source location: a file and a byte range in it.
#[derive(Clone, Copy, PartialEq, Eq, Debug, Structural)]
pub struct Span {
    pub file_id: usize,
    pub start: usize,
    pub end: usize,
}

/// The severity of a diagnostic.
#[derive(Clone, Copy, PartialEq, Eq, Debug, Structural)]
pub enum Severity {
    Bug,
    Error,
    Warning,
    Note,
    Help,
}

/// A primary label attached to a diagnostic.
#[derive(Debug)]
pub struct Label {
    pub file_id: usize,
    pub start: usize,
    pub end: usize,
    pub message: String,
}

/// A diagnostic reported by lowering.
#[derive(Debug)]
pub struct Diagnostic {
    pub severity: Severity,
    pub message: String,
    pub labels: Vec<Label>,
}

/// Errors that can occur during lowering.
#[allow(inconsistent_fields)]
#[derive(Debug)]
pub enum LoweringError {
    /// An unsupported language construct was encountered.
    UnsupportedConstruct { construct: String, span: Span },
    /// A function is missing its body.
    MissingFunctionBody { name: String, span: Span },
    /// A type could not be lowered.
    UnsupportedType { type_desc: String, span: Span },
    /// An expression kind is not yet implemented.
    UnsupportedExpression { expr_kind: String, span: Span },
    /// A statement kind is not yet implemented.
    UnsupportedStatement { stmt_kind: String, span: Span },
    /// A pattern kind is not yet implemented.
    UnsupportedPattern { pattern_kind: String, span: Span },
    /// An item kind is not yet implemented.
    UnsupportedItem { item_kind: String, span: Span },
    /// Internal error during lowering.
    Internal { message: String, span: Option<Span> },
}

impl LoweringError {
    /// Creates an unsupported construct error.
    pub fn unsupported(construct: &str, span: Span) -> (r: LoweringError)
        ensures
            r matches LoweringError::UnsupportedConstruct { construct: c, span: s }
                && c@ == construct@ && s == span,
    {
        LoweringError::UnsupportedConstruct { construct: owned(construct), span }
    }

    /// Creates an unsupported expression error.
    pub fn unsupported_expr(expr_kind: &str, span: Span) -> (r: LoweringError)
        ensures
            r matches LoweringError::UnsupportedExpression { expr_kind: c, span: s }
                && c@ == expr_kind@ && s == span,
    {
        LoweringError::UnsupportedExpression { expr_kind: owned(expr_kind), span }
    }

    /// Creates an unsupported statement error.
    pub fn unsupported_stmt(stmt_kind: &str, span: Span) -> (r: LoweringError)
        ensures
            r matches LoweringError::UnsupportedStatement { stmt_kind: c, span: s }
                && c@ == stmt_kind@ && s == span,
    {
        LoweringError::UnsupportedStatement { stmt_kind: owned(stmt_kind), span }
    }

    /// Creates an unsupported pattern error.
    pub fn unsupported_pattern(pattern_kind: &str, span: Span) -> (r: LoweringError)
        ensures
            r matches LoweringError::UnsupportedPattern { pattern_kind: c, span: s }
                && c@ == pattern_kind@ && s == span,
    {
        LoweringError::UnsupportedPattern { pattern_kind: owned(pattern_kind), span }
    }

    /// Creates an unsupported item error.
    pub fn unsupported_item(item_kind: &str, span: Span) -> (r: LoweringError)
        ensures
            r matches LoweringError::UnsupportedItem { item_kind: c, span: s }
                && c@ == item_kind@ && s == span,
    {
        LoweringError::UnsupportedItem { item_kind: owned(item_kind), span }
    }

    /// Creates an unsupported type error.
    pub fn unsupported_type(type_desc: &str, span: Span) -> (r: LoweringError)
        ensures
            r matches LoweringError::UnsupportedType { type_desc: c, span: s }
                && c@ == type_desc@ && s == span,
    {
        LoweringError::UnsupportedType { type_desc: owned(type_desc), span }
    }

    /// Creates a missing function body error.
    pub fn missing_body(name: &str, span: Span) -> (r: LoweringError)
        ensures
            r matches LoweringError::MissingFunctionBody { name: c, span: s }
                && c@ == name@ && s == span,
    {
        LoweringError::MissingFunctionBody { name: owned(name), span }
    }

    /// Creates an internal error.
    pub fn internal(message: &str, span: Option<Span>) -> (r: LoweringError)
        ensures
            r matches LoweringError::Internal { message: c, span: s }
                && c@ == message@ && s == span,
    {
        LoweringError::Internal { message: owned(message), span }
    }
}

/// The severity of the diagnostic for an error: missing bodies are errors,
/// internal errors are bugs, everything else is a warning.
pub open spec fn error_severity(e: &LoweringError) -> Severity {
    match e {
        LoweringError::MissingFunctionBody { .. } => Severity::Error,
        LoweringError::Internal { .. } => Severity::Bug,
        _ => Severity::Warning,
    }
}

/// The headline message of the diagnostic for an error.
pub open spec fn error_message(e: &LoweringError) -> Seq<char> {
    match e {
        LoweringError::UnsupportedConstruct { construct, .. } =>
            "unsupported construct: "@ + construct@,
        LoweringError::MissingFunctionBody { name, .. } =>
            "function '"@ + name@ + "' is missing a body"@,
        LoweringError::UnsupportedType { type_desc, .. } => "unsupported type: "@ + type_desc@,
        LoweringError::UnsupportedExpression { expr_kind, .. } =>
            "unsupported expression: "@ + expr_kind@,
        LoweringError::UnsupportedStatement { stmt_kind, .. } =>
            "unsupported statement: "@ + stmt_kind@,
        LoweringError::UnsupportedPattern { pattern_kind, .. } =>
            "unsupported pattern: "@ + pattern_kind@,
        LoweringError::UnsupportedItem { item_kind, .. } => "unsupported item: "@ + item_kind@,
        LoweringError::Internal { message, .. } => "internal lowering error: "@ + message@,
    }
}

/// The message of the label an error's diagnostic carries at its span.
pub open spec fn error_label_message(e: &LoweringError) -> Seq<char> {
    match e {
        LoweringError::UnsupportedConstruct { .. } =>
            "this construct is not yet supported in MIR lowering"@,
        LoweringError::MissingFunctionBody { .. } => "expected a function body"@,
        LoweringError::UnsupportedType { .. } => "this type is not yet supported in MIR lowering"@,
        LoweringError::UnsupportedExpression { .. } =>
            "this expression kind is not yet supported in MIR lowering"@,
        LoweringError::UnsupportedStatement { .. } =>
            "this statement kind is not yet supported in MIR lowering"@,
        LoweringError::UnsupportedPattern { .. } =>
            "this pattern kind is not yet supported in MIR lowering"@,
        LoweringError::UnsupportedItem { .. } =>
            "this item kind is not yet supported in MIR lowering"@,
        LoweringError::Internal { .. } => "error occurred here"@,
    }
}

/// The span an error's diagnostic is labelled at, if any.
pub open spec fn error_span(e: &LoweringError) -> Option<Span> {
    match e {
        LoweringError::UnsupportedConstruct { span, .. } => Some(*span),
        LoweringError::MissingFunctionBody { span, .. } => Some(*span),
        LoweringError::UnsupportedType { span, .. } => Some(*span),
        LoweringError::UnsupportedExpression { span, .. } => Some(*span),
        LoweringError::UnsupportedStatement { span, .. } => Some(*span),
        LoweringError::UnsupportedPattern { span, .. } => Some(*span),
        LoweringError::UnsupportedItem { span, .. } => Some(*span),
        LoweringError::Internal { span, .. } => *span,
    }
}

/// The diagnostic describes the error: severity, message, and a single label at
/// the error's span (none when the error has no span).
pub open spec fn describes(d: &Diagnostic, e: &LoweringError) -> bool {
    &&& d.severity == error_severity(e)
    &&& d.message@ == error_message(e)
    &&& match error_span(e) {
        Some(s) => {
            &&& d.labels@.len() == 1
            &&& d.labels@[0].file_id == s.file_id
            &&& d.labels@[0].start == s.start
            &&& d.labels@[0].end == s.end
            &&& d.labels@[0].message@ == error_label_message(e)
        },
        None => d.labels@.len() == 0,
    }
}

fn prefixed(prefix: &str, body: &String) -> (r: String)
    ensures
        r@ == prefix@ + body@,
{
    let mut s = owned(prefix);
    append_str(&mut s, body.as_str());
    s
}

fn label_at(span: Span, message: &str) -> (r: Label)
    ensures
        r.file_id == span.file_id,
        r.start == span.start,
        r.end == span.end,
        r.message@ == message@,
{
    Label { file_id: span.file_id, start: span.start, end: span.end, message: owned(message) }
}

fn diagnostic(severity: Severity, message: String, span: Span, label: &str) -> (r: Diagnostic)
    ensures
        r.severity == severity,
        r.message@ == message@,
        r.labels@.len() == 1,
        r.labels@[0].file_id == span.file_id,
        r.labels@[0].start == span.start,
        r.labels@[0].end == span.end,
        r.labels@[0].message@ == label@,
{
    let mut labels: Vec<Label> = Vec::new();
    labels.push(label_at(span, label));
    Diagnostic { severity, message, labels }
}

impl LoweringError {
    /// The diagnostic reporting this error.
    pub fn into_diagnostic(&self) -> (r: Diagnostic)
        ensures
            describes(&r, self),
    {
        match self {
            LoweringError::UnsupportedConstruct { construct, span } => diagnostic(
                Severity::Warning,
                prefixed("unsupported construct: ", construct),
                *span,
                "this construct is not yet supported in MIR lowering",
            ),
            LoweringError::MissingFunctionBody { name, span } => {
                let mut m = prefixed("function '", name);
                append_str(&mut m, "' is missing a body");
                diagnostic(Severity::Error, m, *span, "expected a function body")
            },
            LoweringError::UnsupportedType { type_desc, span } => diagnostic(
                Severity::Warning,
                prefixed("unsupported type: ", type_desc),
                *span,
                "this type is not yet supported in MIR lowering",
            ),
            LoweringError::UnsupportedExpression { expr_kind, span } => diagnostic(
                Severity::Warning,
                prefixed("unsupported expression: ", expr_kind),
                *span,
                "this expression kind is not yet supported in MIR lowering",
            ),
            LoweringError::UnsupportedStatement { stmt_kind, span } => diagnostic(
                Severity::Warning,
                prefixed("unsupported statement: ", stmt_kind),
                *span,
                "this statement kind is not yet supported in MIR lowering",
            ),
            LoweringError::UnsupportedPattern { pattern_kind, span } => diagnostic(
                Severity::Warning,
                prefixed("unsupported pattern: ", pattern_kind),
                *span,
                "this pattern kind is not yet supported in MIR lowering",
            ),
            LoweringError::UnsupportedItem { item_kind, span } => diagnostic(
                Severity::Warning,
                prefixed("unsupported item: ", item_kind),
                *span,
                "this item kind is not yet supported in MIR lowering",
            ),
            LoweringError::Internal { message, span } => {
                let m = prefixed("internal lowering error: ", message);
                match span {
                    Some(s) => diagnostic(Severity::Bug, m, *s, "error occurred here"),
                    None => Diagnostic { severity: Severity::Bug, message: m, labels: Vec::new() },
                }
            },
        }
    }

    /// A copy of this error.
    pub fn duplicate(&self) -> (r: LoweringError)
        ensures
            r == *self,
    {
        match self {
            LoweringError::UnsupportedConstruct { construct, span } =>
                LoweringError::UnsupportedConstruct { construct: copy_string(construct), span: *span },
            LoweringError::MissingFunctionBody { name, span } =>
                LoweringError::MissingFunctionBody { name: copy_string(name), span: *span },
            LoweringError::UnsupportedType { type_desc, span } =>
                LoweringError::UnsupportedType { type_desc: copy_string(type_desc), span: *span },
            LoweringError::UnsupportedExpression { expr_kind, span } =>
                LoweringError::UnsupportedExpression { expr_kind: copy_string(expr_kind), span: *span },
            LoweringError::UnsupportedStatement { stmt_kind, span } =>
                LoweringError::UnsupportedStatement { stmt_kind: copy_string(stmt_kind), span: *span },
            LoweringError::UnsupportedPattern { pattern_kind, span } =>
                LoweringError::UnsupportedPattern { pattern_kind: copy_string(pattern_kind), span: *span },
            LoweringError::UnsupportedItem { item_kind, span } =>
                LoweringError::UnsupportedItem { item_kind: copy_string(item_kind), span: *span },
            LoweringError::Internal { message, span } =>
                LoweringError::Internal { message: copy_string(message), span: *span },
        }
    }
}

} // verus!
