use vstd::prelude::*;

verus! {

/// How much of a trace is kept.
#[derive(Debug, Clone, Copy, PartialEq, Eq, Structural)]
pub enum TraceLevel {
    Silent,
    Compact,
    Verbose,
}

/// Which traces go into the generated programs, and at what level.
#[derive(Debug, Clone, Copy, PartialEq, Eq, Structural)]
pub enum Tracing {
    UserDefined(TraceLevel),
    CompilerGenerated(TraceLevel),
    All(TraceLevel),
}

/// The trace filter chosen on the command line.
#[derive(Debug, Clone, Copy, PartialEq, Eq, Structural)]
pub enum TraceFilter {
    UserDefined,
    CompilerGenerated,
    All,
}

/// The tracing mode that a filter selects at a level; no filter keeps all
/// traces.
pub open spec fn tracing_spec(filter: Option<TraceFilter>, level: TraceLevel) -> Tracing {
    match filter {
        Some(TraceFilter::UserDefined) => Tracing::UserDefined(level),
        Some(TraceFilter::CompilerGenerated) => Tracing::CompilerGenerated(level),
        Some(TraceFilter::All) | None => Tracing::All(level),
    }
}

/// The tracing mode of a build, from an optional filter and a level.
pub fn tracing(filter: Option<TraceFilter>, level: TraceLevel) -> (r: Tracing)
    ensures
        r == tracing_spec(filter, level),
{
    match filter {
        Some(TraceFilter::UserDefined) => Tracing::UserDefined(level),
        Some(TraceFilter::CompilerGenerated) => Tracing::CompilerGenerated(level),
        Some(TraceFilter::All) | None => Tracing::All(level),
    }
}

/// The seed of the property tests: the one given, else the one drawn.
pub fn effective_seed(given: Option<u32>, drawn: u32) -> (r: u32)
    ensures
        r == match given {
            Some(s) => s,
            None => drawn,
        },
{
    match given {
        Some(s) => s,
        None => drawn,
    }
}

/// What a build produces besides type checking.
#[derive(Debug)]
pub enum CodeGenMode {
    Test {
        match_tests: Option<Vec<String>>,
        verbose: bool,
        exact_match: bool,
        output_json: Option<String>,
    },
    Build(bool),
    NoOp,
}

/// The options of one build.
#[derive(Debug)]
pub struct Options {
    pub code_gen_mode: CodeGenMode,
    pub tracing: Tracing,
}

} // verus!
