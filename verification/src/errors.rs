//! Structured, user-facing errors.
//!
//! An error carries a title, optional detail, an optional raw cause, nested
//! sub-errors (used when a bulk operation accumulates per-entry failures),
//! and an optional retry action that the consumer may offer to the user.

use vstd::prelude::*;

verus! {

/// Retry actions a consumer can bind to an error notification.  The
/// distinction between a plain retry and a forced retry is part of the
/// file-save conflict contract.
#[derive(Clone, Debug, PartialEq, Eq)]
pub enum ErrFRActionCode {
    FileSaveRetry,
    FileSaveRetryForced,
    FileReadRetry,
    InitOnceRetry,
    PrepareCacheRetry,
    WatchPathRetry,
    NoRootPath,
}

/// A structured error for the consumer, with optional nested sub-errors.
#[derive(Debug)]
pub struct ErrFR {
    pub is_error: bool,
    pub title: String,
    pub info: Option<String>,
    pub raw_error: Option<String>,
    pub sub_errors: Vec<ErrFR>,
    pub action_code: Option<ErrFRActionCode>,
    pub action_label: Option<String>,
}

impl ErrFR {
    /// A fresh error with the given title and nothing else set.
    pub fn new(title: &str) -> (r: ErrFR)
        ensures
            r.is_error,
            r.title@ == title@,
            r.info is None,
            r.raw_error is None,
            r.sub_errors@.len() == 0,
            r.action_code is None,
            r.action_label is None,
    {
        ErrFR {
            is_error: true,
            title: title.to_owned(),
            info: None,
            raw_error: None,
            sub_errors: Vec::new(),
            action_code: None,
            action_label: None,
        }
    }

    /// The same error with its detail text set.
    pub fn info(self, description: &str) -> (r: ErrFR)
        ensures
            r.info matches Some(i) && i@ == description@,
            r.is_error == self.is_error,
            r.title == self.title,
            r.raw_error == self.raw_error,
            r.sub_errors == self.sub_errors,
            r.action_code == self.action_code,
            r.action_label == self.action_label,
    {
        ErrFR { info: Some(description.to_owned()), ..self }
    }

    /// The same error with a retry action code and its button label set.
    pub fn action_c(self, code: ErrFRActionCode, label: &str) -> (r: ErrFR)
        ensures
            r.action_code == Some(code),
            r.action_label matches Some(l) && l@ == label@,
            r.is_error == self.is_error,
            r.title == self.title,
            r.info == self.info,
            r.raw_error == self.raw_error,
            r.sub_errors == self.sub_errors,
    {
        ErrFR { action_code: Some(code), action_label: Some(label.to_owned()), ..self }
    }

    /// The same error with its raw cause text set.
    pub fn raw(self, thing: &str) -> (r: ErrFR)
        ensures
            r.raw_error matches Some(w) && w@ == thing@,
            r.is_error == self.is_error,
            r.title == self.title,
            r.info == self.info,
            r.sub_errors == self.sub_errors,
            r.action_code == self.action_code,
            r.action_label == self.action_label,
    {
        ErrFR { raw_error: Some(thing.to_owned()), ..self }
    }

    /// The same error with one more sub-error appended.
    pub fn sub(self, thing: ErrFR) -> (r: ErrFR)
        ensures
            r.sub_errors@ == self.sub_errors@.push(thing),
            r.is_error == self.is_error,
            r.title == self.title,
            r.info == self.info,
            r.raw_error == self.raw_error,
            r.action_code == self.action_code,
            r.action_label == self.action_label,
    {
        let mut s = self;
        s.sub_errors.push(thing);
        s
    }

    /// The same error with its sub-errors replaced wholesale.
    pub fn subs(self, full_array_to_set: Vec<ErrFR>) -> (r: ErrFR)
        ensures
            r.sub_errors == full_array_to_set,
            r.is_error == self.is_error,
            r.title == self.title,
            r.info == self.info,
            r.raw_error == self.raw_error,
            r.action_code == self.action_code,
            r.action_label == self.action_label,
    {
        ErrFR { sub_errors: full_array_to_set, ..self }
    }

    /// Whether any sub-errors were accumulated.
    pub fn has_subs(&self) -> (r: bool)
        ensures
            r == (self.sub_errors@.len() > 0),
    {
        self.sub_errors.len() > 0
    }
}

} // verus!
