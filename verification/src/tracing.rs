//! Configuration for which trace expressions the lowering stages emit.
//!
//! Each kind of trace event can be recorded for no module, only for the
//! module at the root of the compilation, or for every module. Lowering a
//! child module downgrades `OnlyCurrent` to `Off`.

use vstd::prelude::*;

verus! {

#[derive(Clone, Copy, Debug, Eq, PartialEq, Structural)]
pub enum TracingMode {
    Off,
    /// Traces the module that's the root of the compilation and no child
    /// modules.
    OnlyCurrent,
    All,
}

#[derive(Clone, Copy, Debug, Eq, PartialEq, Structural)]
pub enum CallTracingMode {
    Off,
    /// Traces the module that's the root of the compilation and no child
    /// modules.
    OnlyCurrent,
    /// Only trace calls that could panic and don't trace return values.
    OnlyForPanicTraces,
    All,
}

#[derive(Clone, Copy, Debug, Eq, PartialEq, Structural)]
pub struct TracingConfig {
    pub register_fuzzables: TracingMode,
    pub calls: CallTracingMode,
    pub evaluated_expressions: TracingMode,
}

impl TracingMode {
    /// The mode a child module is lowered with: tracing restricted to the
    /// current module does not extend to children.
    pub open spec fn child_module_mode(self) -> TracingMode {
        match self {
            TracingMode::Off => TracingMode::Off,
            TracingMode::OnlyCurrent => TracingMode::Off,
            TracingMode::All => TracingMode::All,
        }
    }

    pub fn all_or_off(should_trace: bool) -> (r: Self)
        ensures
            r == if should_trace { TracingMode::All } else { TracingMode::Off },
    {
        if should_trace {
            Self::All
        } else {
            Self::Off
        }
    }

    pub fn only_current_or_off(should_trace: bool) -> (r: Self)
        ensures
            r == if should_trace { TracingMode::OnlyCurrent } else { TracingMode::Off },
    {
        if should_trace {
            Self::OnlyCurrent
        } else {
            Self::Off
        }
    }

    pub fn is_enabled(&self) -> (r: bool)
        ensures
            r == !(*self is Off),
    {
        match self {
            Self::Off => false,
            Self::OnlyCurrent | Self::All => true,
        }
    }

    pub fn for_child_module(&self) -> (r: Self)
        ensures
            r == self.child_module_mode(),
    {
        match self {
            Self::Off | Self::OnlyCurrent => Self::Off,
            Self::All => Self::All,
        }
    }
}

impl CallTracingMode {
    /// The mode a child module is lowered with: tracing restricted to the
    /// current module does not extend to children, while panic traces are
    /// kept everywhere.
    pub open spec fn child_module_mode(self) -> CallTracingMode {
        match self {
            CallTracingMode::Off => CallTracingMode::Off,
            CallTracingMode::OnlyCurrent => CallTracingMode::Off,
            CallTracingMode::OnlyForPanicTraces => CallTracingMode::OnlyForPanicTraces,
            CallTracingMode::All => CallTracingMode::All,
        }
    }

    pub fn is_enabled(&self) -> (r: bool)
        ensures
            r == !(*self is Off),
    {
        match self {
            Self::Off => false,
            Self::OnlyCurrent | Self::OnlyForPanicTraces | Self::All => true,
        }
    }

    pub fn for_child_module(&self) -> (r: Self)
        ensures
            r == self.child_module_mode(),
    {
        match self {
            Self::Off | Self::OnlyCurrent => Self::Off,
            Self::OnlyForPanicTraces => Self::OnlyForPanicTraces,
            Self::All => Self::All,
        }
    }
}

impl TracingConfig {
    /// The configuration that records nothing.
    pub fn off() -> (r: Self)
        ensures
            r.register_fuzzables == TracingMode::Off,
            r.calls == CallTracingMode::Off,
            r.evaluated_expressions == TracingMode::Off,
    {
        Self {
            register_fuzzables: TracingMode::Off,
            calls: CallTracingMode::Off,
            evaluated_expressions: TracingMode::Off,
        }
    }

    /// The configuration a child module is lowered with: every component is
    /// downgraded through its own child-module rule.
    pub fn for_child_module(&self) -> (r: Self)
        ensures
            r.register_fuzzables == self.register_fuzzables.child_module_mode(),
            r.calls == self.calls.child_module_mode(),
            r.evaluated_expressions == self.evaluated_expressions.child_module_mode(),
    {
        Self {
            register_fuzzables: self.register_fuzzables.for_child_module(),
            calls: self.calls.for_child_module(),
            evaluated_expressions: self.evaluated_expressions.for_child_module(),
        }
    }
}

} // verus!
