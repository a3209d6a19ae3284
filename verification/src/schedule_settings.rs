//! Settings for schedule construction.
use vstd::prelude::*;

verus! {

/// Specifies how schedule construction should respond to detecting a certain
/// kind of issue.
#[derive(Clone, Copy, Debug, PartialEq, Eq, Structural)]
pub enum LogLevel {
    /// Occurrences are completely ignored.
    Ignore,
    /// Occurrences are logged only.
    Warn,
    /// Occurrences are logged and result in errors.
    Error,
}

/// Specifies miscellaneous settings for schedule construction.
#[derive(Clone, Copy, Debug, PartialEq, Eq, Structural)]
pub struct ScheduleBuildSettings {
    /// Determines whether the presence of ambiguities (systems with conflicting
    /// access but indeterminate order) is only logged or also results in an
    /// ambiguity warning or error.
    ///
    /// Defaults to [`LogLevel::Ignore`].
    pub ambiguity_detection: LogLevel,
    /// Determines whether the presence of redundant edges in the hierarchy of
    /// system sets is only logged or also results in a hierarchy redundancy
    /// warning or error.
    ///
    /// Defaults to [`LogLevel::Warn`].
    pub hierarchy_detection: LogLevel,
    /// Auto insert apply-deferred systems into the schedule, when there are
    /// deferred buffers in one system and there are ordering dependencies on
    /// that system.
    ///
    /// Defaults to `true`
    pub auto_insert_apply_deferred: bool,
    /// If set to true, node names will be shortened instead of the fully
    /// qualified type path.
    ///
    /// Defaults to `true`.
    pub use_shortnames: bool,
    /// If set to true, report all system sets the conflicting systems are
    /// part of.
    ///
    /// Defaults to `true`.
    pub report_sets: bool,
}

/// The default build settings.
pub open spec fn default_build_settings() -> ScheduleBuildSettings {
    ScheduleBuildSettings {
        ambiguity_detection: LogLevel::Ignore,
        hierarchy_detection: LogLevel::Warn,
        auto_insert_apply_deferred: true,
        use_shortnames: true,
        report_sets: true,
    }
}

impl ScheduleBuildSettings {
    /// Default build settings.
    /// See the field-level documentation for the default value of each field.
    pub fn new() -> (r: Self)
        ensures
            r == default_build_settings(),
    {
        ScheduleBuildSettings {
            ambiguity_detection: LogLevel::Ignore,
            hierarchy_detection: LogLevel::Warn,
            auto_insert_apply_deferred: true,
            use_shortnames: true,
            report_sets: true,
        }
    }
}

impl Default for ScheduleBuildSettings {
    fn default() -> (r: Self)
        ensures
            r == default_build_settings(),
    {
        Self::new()
    }
}

} // verus!
