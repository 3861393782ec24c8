//! The parameters and results of the `badge.set`, `badge.clear` and
//! `badge.list` requests.

use vstd::prelude::*;
use crate::badges::{Badge, BadgeEntry, BadgeView};

verus! {

/// `badge.set`: set or replace a badge by key. Setting the same key again
/// replaces the previous badge; distinct keys stack.
#[derive(Debug, Clone, PartialEq, Eq)]
pub struct BadgeSetParams {
    /// Stable identifier of the badge; non-empty.
    pub key: String,
    /// Arbitrary text to render; truncated for display if too long.
    pub text: String,
    /// A color string: hex (`#rrggbb`, `#rgb`), `rgb(r,g,b)`, a color name,
    /// or `reset`/`default`/`none`.
    pub color: String,
}

/// `badge.clear`: remove a single badge by key; no-op if the key is absent.
#[derive(Debug, Clone, PartialEq, Eq)]
pub struct BadgeClearParams {
    pub key: String,
}

/// One entry of the `badge.list` answer: a badge set over the request API.
#[derive(Debug, Clone, PartialEq, Eq)]
pub struct BadgeInfo {
    pub key: String,
    pub text: String,
    pub color: String,
}

impl<'a> From<&'a BadgeEntry> for BadgeInfo {
    fn from(entry: &'a BadgeEntry) -> (r: Self) {
        BadgeInfo {
            key: entry.key.clone(),
            text: entry.badge.text.clone(),
            color: entry.badge.color.clone(),
        }
    }
}

impl<'a> vstd::std_specs::convert::FromSpecImpl<&'a BadgeEntry> for BadgeInfo {
    open spec fn obeys_from_spec() -> bool {
        true
    }

    open spec fn from_spec(entry: &'a BadgeEntry) -> Self {
        BadgeInfo { key: entry.key, text: entry.badge.text, color: entry.badge.color }
    }
}

/// The `(key, badge)` pair that a `badge.set` request stores.
pub fn badge_from_set_params(params: &BadgeSetParams) -> (r: (String, Badge))
    ensures
        r.0@ == params.key@,
        r.1@ == (BadgeView { text: params.text@, color: params.color@ }),
{
    (params.key.clone(), Badge { text: params.text.clone(), color: params.color.clone() })
}

/// The successful results of the badge requests.
#[derive(Debug, Clone, PartialEq, Eq)]
pub enum ResponseResult {
    /// The badge that was stored: the trimmed key, and the text and color as
    /// stored.
    BadgeSet { key: String, text: String, color: String },
    /// The trimmed key, and whether a badge was stored under it.
    BadgeClear { key: String, existed: bool },
    /// The badges of the store, in stable (alphabetical by key) order.
    BadgeList { badges: Vec<BadgeInfo> },
}

/// Why a badge request was refused; its code is `invalid_params`.
#[derive(Debug, Clone, Copy, PartialEq, Eq)]
pub enum BadgeRequestError {
    /// The key is empty once trimmed.
    EmptyKey,
    /// The trimmed key is longer than the stored-key limit, in bytes.
    KeyTooLong,
}

impl BadgeRequestError {
    /// The error code of the answer.
    pub fn code(&self) -> (r: String)
        ensures
            r@ == "invalid_params"@,
    {
        "invalid_params".to_owned()
    }

    /// The message of the answer.
    pub fn message(&self) -> (r: String)
        ensures
            r@ == match self {
                BadgeRequestError::EmptyKey => "badge key must be non-empty"@,
                BadgeRequestError::KeyTooLong => "badge key exceeds 64 bytes"@,
            },
    {
        match self {
            BadgeRequestError::EmptyKey => "badge key must be non-empty".to_owned(),
            BadgeRequestError::KeyTooLong => "badge key exceeds 64 bytes".to_owned(),
        }
    }
}

} // verus!
