//! Errors reported while setting up plugins.

use vstd::prelude::*;
use crate::text::{append_chars, chars_of, string_from_chars};

verus! {

/// A plugin configuration error.
#[derive(Debug, Clone, PartialEq, Eq)]
pub enum PluginError {
    /// A general configuration error with its message
    Config(String),
    /// A configuration value that cannot be used
    InvalidConfigValue { field: String, value: String, reason: String },
    /// A required configuration field that is absent
    MissingConfigField { field: String, context: String },
    /// An address that cannot be used
    InvalidAddress { input: String },
    /// A data file that cannot be read
    FileParse { path: String, reason: String },
    /// Any other error with its message
    Other(String),
}

/// Error views: the variant and the text of its fields.
pub enum ErrView {
    Config(Seq<char>),
    InvalidConfigValue { field: Seq<char>, value: Seq<char>, reason: Seq<char> },
    MissingConfigField { field: Seq<char>, context: Seq<char> },
    InvalidAddress { input: Seq<char> },
    FileParse { path: Seq<char>, reason: Seq<char> },
    Other(Seq<char>),
}

impl PluginError {
    pub open spec fn view(&self) -> ErrView {
        match self {
            PluginError::Config(m) => ErrView::Config(m@),
            PluginError::InvalidConfigValue { field, value, reason } => ErrView::InvalidConfigValue {
                field: field@,
                value: value@,
                reason: reason@,
            },
            PluginError::MissingConfigField { field, context } => ErrView::MissingConfigField {
                field: field@,
                context: context@,
            },
            PluginError::InvalidAddress { input } => ErrView::InvalidAddress { input: input@ },
            PluginError::FileParse { path, reason } => ErrView::FileParse { path: path@, reason: reason@ },
            PluginError::Other(m) => ErrView::Other(m@),
        }
    }
}

/// The text an error is reported with.
pub open spec fn error_text(e: ErrView) -> Seq<char> {
    match e {
        ErrView::Config(m) => m,
        ErrView::InvalidConfigValue { field, value, reason } => "invalid value '"@ + value + "' for '"@ + field
            + "': "@ + reason,
        ErrView::MissingConfigField { field, context } => "missing field '"@ + field + "' in "@ + context,
        ErrView::InvalidAddress { input } => "invalid address: "@ + input,
        ErrView::FileParse { path, reason } => "failed to parse "@ + path + ": "@ + reason,
        ErrView::Other(m) => m,
    }
}

fn push_text(out: &mut Vec<char>, s: &str)
    ensures
        final(out)@ == old(out)@ + s@,
{
    let c = chars_of(s);
    append_chars(out, &c);
}

impl PluginError {
    /// The text the error is reported with (see [`error_text`]).
    pub fn message(&self) -> (r: String)
        ensures
            r@ == error_text(self.view()),
    {
        let mut t: Vec<char> = Vec::new();
        match self {
            PluginError::Config(m) => {
                push_text(&mut t, m.as_str());
            },
            PluginError::InvalidConfigValue { field, value, reason } => {
                push_text(&mut t, "invalid value '");
                push_text(&mut t, value.as_str());
                push_text(&mut t, "' for '");
                push_text(&mut t, field.as_str());
                push_text(&mut t, "': ");
                push_text(&mut t, reason.as_str());
            },
            PluginError::MissingConfigField { field, context } => {
                push_text(&mut t, "missing field '");
                push_text(&mut t, field.as_str());
                push_text(&mut t, "' in ");
                push_text(&mut t, context.as_str());
            },
            PluginError::InvalidAddress { input } => {
                push_text(&mut t, "invalid address: ");
                push_text(&mut t, input.as_str());
            },
            PluginError::FileParse { path, reason } => {
                push_text(&mut t, "failed to parse ");
                push_text(&mut t, path.as_str());
                push_text(&mut t, ": ");
                push_text(&mut t, reason.as_str());
            },
            PluginError::Other(m) => {
                push_text(&mut t, m.as_str());
            },
        }
        let r = string_from_chars(&t);
        assert(r@ =~= error_text(self.view()));
        r
    }
}

} // verus!
