//! Settings of the tracing subscriber, built up step by step.

use vstd::prelude::*;

use crate::text::join;
use crate::text::seq_join;
use crate::text::views;

verus! {

/// Severity of a log record, from the most to the least severe.
#[derive(Debug, Clone, Copy, PartialEq, Eq, Structural)]
pub enum Level {
    /// Errors only
    Error,
    /// Warnings and above
    Warn,
    /// Information and above
    Info,
    /// Debugging details and above
    Debug,
    /// Everything
    Trace,
}

/// The directive word of a level; `info` when no level is set.
pub open spec fn spec_level_name(level: Option<Level>) -> Seq<char> {
    match level {
        Some(Level::Error) => "error"@,
        Some(Level::Warn) => "warn"@,
        Some(Level::Debug) => "debug"@,
        Some(Level::Trace) => "trace"@,
        _ => "info"@,
    }
}

/// The directive that turns the logs of the MCP library off.
pub open spec fn rmcp_off() -> Seq<char> {
    "rmcp=off"@
}

/// Builder for the tracing subscriber.
#[derive(Debug)]
pub struct TraceBootstrap {
    /// Minimum log level
    pub level: Option<Level>,
    /// Additional filters
    pub filters: Vec<String>,
    /// Whether to display the target of the log
    pub display_target: bool,
    /// Whether to display function span events
    pub with_fn_spans: bool,
}

impl Default for TraceBootstrap {
    /// No level, no filters, no target, no span events.
    fn default() -> (b: Self)
        ensures
            b.level is None,
            b.filters@.len() == 0,
            !b.display_target,
            !b.with_fn_spans,
    {
        TraceBootstrap { level: None, filters: Vec::new(), display_target: false, with_fn_spans: false }
    }
}

impl TraceBootstrap {
    /// Set the minimum log level.
    pub fn with_level(self, level: Level) -> (b: Self)
        ensures
            b.level == Some(level),
            b.filters@ == self.filters@,
            b.display_target == self.display_target,
            b.with_fn_spans == self.with_fn_spans,
    {
        let mut b = self;
        b.level = Some(level);
        b
    }

    /// Enable or disable display of the log target.
    pub fn display_target(self, display: bool) -> (b: Self)
        ensures
            b.level == self.level,
            b.filters@ == self.filters@,
            b.display_target == display,
            b.with_fn_spans == self.with_fn_spans,
    {
        let mut b = self;
        b.display_target = display;
        b
    }

    /// Enable or disable function span events.
    pub fn with_fn_spans(self, enable: bool) -> (b: Self)
        ensures
            b.level == self.level,
            b.filters@ == self.filters@,
            b.display_target == self.display_target,
            b.with_fn_spans == enable,
    {
        let mut b = self;
        b.with_fn_spans = enable;
        b
    }

    /// Filter out rmcp logs.
    pub fn filter_rmcp(self) -> (b: Self)
        ensures
            b.level == self.level,
            views(b.filters@) == views(self.filters@).push(rmcp_off()),
            b.display_target == self.display_target,
            b.with_fn_spans == self.with_fn_spans,
    {
        let mut b = self;
        let ghost before = b.filters@;
        b.filters.push(String::from_str("rmcp=off"));
        assert(views(b.filters@) =~= views(before).push(rmcp_off()));
        b
    }

    /// The directive word of the chosen level; `info` when none was chosen.
    pub fn level_name(&self) -> (s: &'static str)
        ensures
            s@ == spec_level_name(self.level),
    {
        match self.level {
            Some(Level::Error) => "error",
            Some(Level::Warn) => "warn",
            Some(Level::Debug) => "debug",
            Some(Level::Trace) => "trace",
            _ => "info",
        }
    }

    /// The filter directives that the subscriber is built with: the level word,
    /// a comma, and the additional filters separated by commas.
    pub fn filter_directives(&self) -> (s: String)
        ensures
            s@ == spec_level_name(self.level) + ","@ + seq_join(views(self.filters@), ","@),
    {
        let mut s = String::from_str(self.level_name());
        s.append(",");
        let rest = join(&self.filters, ",");
        s.append(rest.as_str());
        s
    }
}

} // verus!
