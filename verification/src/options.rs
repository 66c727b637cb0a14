//! Options controlling which features of the expression language are enabled during
//! parsing and completion.
use vstd::prelude::*;

verus! {

/// Controls which features of the expression language are enabled during parsing and
/// shell completion.
#[derive(Clone, Copy, Debug, PartialEq, Eq)]
pub struct DslOptions {
    /// Whether range expressions like `20..25` are allowed.
    pub ranges: bool,
    /// Whether multiplier prefixes like `3x34` are allowed.
    pub multipliers: bool,
}

impl DslOptions {
    /// Enables all features (ranges and multipliers).
    pub fn all() -> (r: Self)
        ensures
            r.ranges && r.multipliers,
    {
        DslOptions { ranges: true, multipliers: true }
    }

    /// Disables all features — only plain version and feature pack references are accepted.
    pub fn none() -> (r: Self)
        ensures
            !r.ranges && !r.multipliers,
    {
        DslOptions { ranges: false, multipliers: false }
    }
}

impl Default for DslOptions {
    /// Enables all features.
    fn default() -> (r: Self)
        ensures
            r.ranges && r.multipliers,
    {
        Self::all()
    }
}

/// Controls which features of the expression language parsing accepts.
#[derive(Clone, Copy, Debug, PartialEq, Eq)]
pub struct ParseOptions {
    /// Whether range expressions like `20..25` are allowed.
    pub ranges: bool,
    /// Whether multiplier prefixes like `3x34` are allowed.
    pub multipliers: bool,
}

impl ParseOptions {
    /// Enables all features (ranges and multipliers).
    pub fn all() -> (r: Self)
        ensures
            r.ranges && r.multipliers,
    {
        ParseOptions { ranges: true, multipliers: true }
    }

    /// Disables all features — only plain version and feature pack references are accepted.
    pub fn none() -> (r: Self)
        ensures
            !r.ranges && !r.multipliers,
    {
        ParseOptions { ranges: false, multipliers: false }
    }
}

impl Default for ParseOptions {
    /// Enables all features.
    fn default() -> (r: Self)
        ensures
            r.ranges && r.multipliers,
    {
        Self::all()
    }
}

impl From<ParseOptions> for DslOptions {
    fn from(o: ParseOptions) -> (r: DslOptions) {
        DslOptions { ranges: o.ranges, multipliers: o.multipliers }
    }
}

impl vstd::std_specs::convert::FromSpecImpl<ParseOptions> for DslOptions {
    open spec fn obeys_from_spec() -> bool {
        true
    }

    open spec fn from_spec(o: ParseOptions) -> DslOptions {
        DslOptions { ranges: o.ranges, multipliers: o.multipliers }
    }
}

/// Controls which features of the expression language shell completion offers.
#[derive(Clone, Copy, Debug, PartialEq, Eq)]
pub struct CompletionOptions {
    /// Whether range expressions like `20..25` are completed.
    pub ranges: bool,
    /// Whether multiplier prefixes like `3x` are recognized during completion.
    pub multipliers: bool,
}

impl CompletionOptions {
    /// Enables all completion features (ranges and multipliers).
    pub fn all() -> (r: Self)
        ensures
            r.ranges && r.multipliers,
    {
        CompletionOptions { ranges: true, multipliers: true }
    }

    /// Disables all completion features — only plain identifiers are suggested.
    pub fn none() -> (r: Self)
        ensures
            !r.ranges && !r.multipliers,
    {
        CompletionOptions { ranges: false, multipliers: false }
    }
}

impl Default for CompletionOptions {
    /// Enables all completion features.
    fn default() -> (r: Self)
        ensures
            r.ranges && r.multipliers,
    {
        Self::all()
    }
}

impl From<CompletionOptions> for DslOptions {
    fn from(o: CompletionOptions) -> (r: DslOptions) {
        DslOptions { ranges: o.ranges, multipliers: o.multipliers }
    }
}

impl vstd::std_specs::convert::FromSpecImpl<CompletionOptions> for DslOptions {
    open spec fn obeys_from_spec() -> bool {
        true
    }

    open spec fn from_spec(o: CompletionOptions) -> DslOptions {
        DslOptions { ranges: o.ranges, multipliers: o.multipliers }
    }
}

} // verus!
