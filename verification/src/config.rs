//! Configuration of a collection run: engine selection, host capabilities,
//! the description of the test binary, and the error taxonomy.

use vstd::prelude::*;

verus! {

/// Colour mode forwarded to the test executable's own output.
#[derive(Clone, Copy, PartialEq, Eq, Structural, Debug)]
pub enum Color {
    Auto,
    Always,
    Never,
}

impl Color {
    /// The value this mode takes on the child's `--color` flag.
    pub open spec fn arg_view(self) -> Seq<char> {
        match self {
            Color::Auto => "auto"@,
            Color::Always => "always"@,
            Color::Never => "never"@,
        }
    }

    /// Renders the mode as the lower-case word passed after `--color`.
    pub fn arg_value(&self) -> (r: String)
        ensures
            r@ == self.arg_view(),
    {
        match self {
            Color::Auto => String::from_str("auto"),
            Color::Always => String::from_str("always"),
            Color::Never => String::from_str("never"),
        }
    }
}

/// Collection strategy for a run.
#[derive(Clone, Copy, PartialEq, Eq, Structural, Debug)]
pub enum TraceEngine {
    /// Let the collector pick; this layer cannot execute it directly.
    Auto,
    /// Attach to the process and observe breakpoint traps.
    Ptrace,
    /// Run a self-reporting binary and harvest its profile files.
    Llvm,
}

/// Host capabilities resolved once at startup.  Keeping this a runtime value
/// rather than a compile-time switch keeps the engine dispatch testable on
/// every host.
#[derive(Clone, Copy, PartialEq, Eq, Structural, Debug)]
pub struct Platform {
    /// Whether the operating system offers the process-tracing interface.
    pub ptrace_supported: bool,
}

impl Platform {
    /// Whether `engine` can run on this host.
    pub open spec fn spec_supports(self, engine: TraceEngine) -> bool {
        match engine {
            TraceEngine::Llvm => true,
            TraceEngine::Ptrace => self.ptrace_supported,
            TraceEngine::Auto => false,
        }
    }

    /// Capability query used by the dispatcher before any launch attempt.
    pub fn supports(&self, engine: TraceEngine) -> (r: bool)
        ensures
            r == self.spec_supports(engine),
    {
        match engine {
            TraceEngine::Llvm => true,
            TraceEngine::Ptrace => self.ptrace_supported,
            TraceEngine::Auto => false,
        }
    }
}

/// Everything a run needs to know about how to execute the test binary.
pub struct Config {
    /// Selected collection strategy.
    pub engine: TraceEngine,
    /// Pass a backtrace-enabling variable to the child.
    pub verbose: bool,
    /// Colour mode for the child's output.
    pub color: Color,
    /// Extra arguments appended to the child's command line.
    pub varargs: Vec<String>,
    /// Project root; fallback working directory and artifact location.
    pub root: String,
    /// Wall-clock budget in milliseconds for the whole run; the embedding
    /// program turns its expiry into a timeout event.
    pub timeout_ms: u64,
}

impl Config {
    /// Selected collection strategy.
    pub fn engine(&self) -> (r: TraceEngine)
        ensures
            r == self.engine,
    {
        self.engine
    }

    /// Project root directory.
    pub fn root(&self) -> (r: &String)
        ensures
            r@ == self.root@,
    {
        &self.root
    }
}

/// Description of the test executable under measurement.
pub struct TestBinary {
    /// Path of the executable.
    pub path: String,
    /// File name of the executable, used to tag profile artifacts.
    pub file_name: String,
    /// Name of the package under test, when known.
    pub pkg_name: Option<String>,
    /// Version of the package under test, when known.
    pub pkg_version: Option<String>,
    /// Authors of the package under test, when known.
    pub pkg_authors: Option<Vec<String>>,
    /// Directory of the package manifest; preferred working directory.
    pub manifest_dir: Option<String>,
}

impl TestBinary {
    /// Path of the executable.
    pub fn path(&self) -> (r: &String)
        ensures
            r@ == self.path@,
    {
        &self.path
    }

    /// Directory of the package manifest, when known.
    pub fn manifest_dir(&self) -> (r: &Option<String>)
        ensures
            *r == self.manifest_dir,
    {
        &self.manifest_dir
    }
}

/// What can go wrong during a collection run.
#[derive(Debug)]
pub enum RunError {
    /// The selected engine is unavailable on this platform; nothing was
    /// launched.
    UnsupportedEngine,
    /// The engine value is one this layer can never execute.
    Engine,
    /// The process could not be started; carries the spawn error text.
    SpawnFailure(String),
    /// The configured deadline passed before the run finished; the process
    /// was ordered terminated.
    Timeout,
    /// Collection failed after launch; carries a description.
    TestCoverage(String),
}

} // verus!
