//! The strongly-typed requests handed to the remote execution backend, and
//! the closed keyword enumerations they are built from.

use vstd::prelude::*;

verus! {

/// The compiler release channel.
#[derive(Debug, Clone, Copy, PartialEq, Eq, Structural)]
pub enum Channel {
    Stable,
    Beta,
    Nightly,
}

/// The optimization mode.
#[derive(Debug, Clone, Copy, PartialEq, Eq, Structural)]
pub enum Mode {
    Debug,
    Release,
}

/// The language edition.
#[derive(Debug, Clone, Copy, PartialEq, Eq, Structural)]
pub enum Edition {
    Edition2015,
    Edition2018,
    Edition2021,
    Edition2024,
}

/// Whether the code is built as a program or as a library.
#[derive(Debug, Clone, Copy, PartialEq, Eq, Structural)]
pub enum CrateType {
    Binary,
    Library,
}

/// The aliasing model used by the memory-safety checker.
#[derive(Debug, Clone, Copy, PartialEq, Eq, Structural)]
pub enum AliasingModel {
    Stacked,
    Tree,
}

/// A request to compile and run code remotely.
#[derive(Debug, Clone)]
pub struct ExecuteRequest {
    pub channel: Channel,
    pub mode: Mode,
    pub edition: Edition,
    pub crate_type: CrateType,
    pub tests: bool,
    pub backtrace: bool,
    pub code: String,
}

/// The mathematical value of an [`ExecuteRequest`].
#[verifier::ext_equal]
pub ghost struct ReqView {
    pub channel: Channel,
    pub mode: Mode,
    pub edition: Edition,
    pub crate_type: CrateType,
    pub tests: bool,
    pub backtrace: bool,
    pub code: Seq<char>,
}

impl View for ExecuteRequest {
    type V = ReqView;

    open spec fn view(&self) -> ReqView {
        ReqView {
            channel: self.channel,
            mode: self.mode,
            edition: self.edition,
            crate_type: self.crate_type,
            tests: self.tests,
            backtrace: self.backtrace,
            code: self.code@,
        }
    }
}

/// The canonical default request: stable channel, debug mode, the latest
/// edition, a binary crate, no tests, no backtraces, and the given code.
pub open spec fn default_req(code: Seq<char>) -> ReqView {
    ReqView {
        channel: Channel::Stable,
        mode: Mode::Debug,
        edition: Edition::Edition2024,
        crate_type: CrateType::Binary,
        tests: false,
        backtrace: false,
        code: code,
    }
}

impl ExecuteRequest {
    /// Builds a request from every field.
    pub fn new(
        channel: Channel,
        mode: Mode,
        edition: Edition,
        crate_type: CrateType,
        tests: bool,
        backtrace: bool,
        code: String,
    ) -> (r: ExecuteRequest)
        ensures
            r@ == (ReqView {
                channel,
                mode,
                edition,
                crate_type,
                tests,
                backtrace,
                code: code@,
            }),
    {
        ExecuteRequest { channel, mode, edition, crate_type, tests, backtrace, code }
    }
}

impl Default for ExecuteRequest {
    /// The canonical default request with empty code.
    fn default() -> (r: ExecuteRequest)
        ensures
            r@ == default_req(Seq::<char>::empty()),
    {
        ExecuteRequest {
            channel: Channel::Stable,
            mode: Mode::Debug,
            edition: Edition::Edition2024,
            crate_type: CrateType::Binary,
            tests: false,
            backtrace: false,
            code: String::new(),
        }
    }
}

/// A request to analyze code remotely under the memory-safety checker.
#[derive(Debug, Clone)]
pub struct MiriRequest {
    pub code: String,
    pub edition: Edition,
    pub tests: bool,
    pub aliasing_model: Option<AliasingModel>,
}

/// The mathematical value of a [`MiriRequest`].
#[verifier::ext_equal]
pub ghost struct MiriView {
    pub code: Seq<char>,
    pub edition: Edition,
    pub tests: bool,
    pub aliasing_model: Option<AliasingModel>,
}

impl View for MiriRequest {
    type V = MiriView;

    open spec fn view(&self) -> MiriView {
        MiriView {
            code: self.code@,
            edition: self.edition,
            tests: self.tests,
            aliasing_model: self.aliasing_model,
        }
    }
}

/// The canonical default analysis request: the latest edition, no tests,
/// no aliasing-model selection, and the given code.
pub open spec fn default_miri(code: Seq<char>) -> MiriView {
    MiriView { code: code, edition: Edition::Edition2024, tests: false, aliasing_model: None }
}

impl MiriRequest {
    /// Builds an analysis request from every field.
    pub fn new(code: String, edition: Edition, tests: bool, aliasing_model: Option<
        AliasingModel,
    >) -> (r: MiriRequest)
        ensures
            r@ == (MiriView { code: code@, edition, tests, aliasing_model }),
    {
        MiriRequest { code, edition, tests, aliasing_model }
    }
}

/// The result of one remote execution or analysis: a success flag and the
/// two output streams.
#[derive(Debug, Clone)]
pub struct ExecutionResult {
    pub success: bool,
    pub stdout: String,
    pub stderr: String,
}

/// The stream that counts as the content of a result: standard output on
/// success, standard error otherwise.
pub open spec fn result_content(success: bool, stdout: Seq<char>, stderr: Seq<char>) -> Seq<
    char,
> {
    if success {
        stdout
    } else {
        stderr
    }
}

/// An externally hosted, identifier-addressed snippet of source code.
#[derive(Debug, Clone)]
pub struct Gist {
    pub id: String,
    pub url: String,
    pub code: String,
}

} // verus!
