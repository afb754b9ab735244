//! Shell-completion candidate generation.
//!
//! A completion document is an ordered grammar of rules. Each rule pairs a
//! token pattern with an output strategy. The tokens the user has typed so
//! far are matched against the rules in order; the first applicable rule is
//! resolved into a list of candidate words, which is then filtered by the
//! partially typed last token.

use vstd::prelude::*;
use vstd::string::StringExecFns;

pub mod matcher;
pub mod read;
pub mod resolve;
pub mod strutil;

verus! {

/// One atom of a rule's token pattern.
#[derive(Clone, Debug)]
pub enum Input {
    /// Matches one token exactly equal to the text.
    Word(String),
    /// Matches exactly one arbitrary token (written `.`).
    Any,
    /// Matches zero tokens; as the last unconsumed atom it marks the slot
    /// the user is still typing (written `?`).
    Maybe,
    /// Matches exactly one arbitrary token and binds it under the name
    /// (written `$name`).
    Var(String),
    /// Matches all remaining tokens, zero or more (written `*`).
    Rest,
}

/// Whether a rule's candidates are filtered by the trailing partial token.
#[derive(Clone, Copy, Debug, PartialEq, Eq, Structural)]
pub enum RawOutput {
    /// Candidates are returned verbatim.
    Raw,
    /// Candidates are filtered by the last typed token as a prefix.
    NeedsFilter,
}

/// A rule's output strategy.
#[derive(Clone, Debug)]
pub enum Output {
    /// Run the named inline shell script from the document.
    Sh(String),
    /// Expand a filesystem glob pattern.
    Glob(String),
    /// Run an external executable.
    Exec(String),
    /// A literal candidate list.
    Word(Vec<String>),
    /// The token sequence is complete; there is nothing to suggest.
    End,
}

/// Everything that can go wrong while parsing a document or resolving
/// a matched rule's output.
#[derive(Debug)]
pub enum CompError {
    /// A child process could not be spawned or read.
    IO,
    /// A glob pattern did not parse.
    GlobPat,
    /// A path matched by a glob pattern could not be read.
    GlobRt,
    /// Process output or a matched path was not valid text.
    Utf8,
    /// A rule referred to an inline script name the document never defined.
    LocalScriptNotFound(String),
    /// A rule line has no `->` separator, or its input side is not wrapped
    /// in `[` `]` (both shapes are reported as this one kind).
    ParseLineMissingArrow(String),
    /// A rule line's output clause lacks its bracket structure or names an
    /// unrecognized command.
    ParseLineMissingOutputItem(String),
    /// No completion document path was given.
    MissingComplFile,
    /// An `sh[]`, `exec[]` or `glob[]` clause has no argument.
    MissingExecutablePath,
}

/// The pattern, output strategy and filter flag of one parsed rule.
#[derive(Debug)]
pub struct StaticRule {
    pub inputs: Vec<Input>,
    pub output: Output,
    pub raw: RawOutput,
}

/// A successful match of one rule against the user's tokens: the rule,
/// the tokens bound by its `Var` atoms, and whether the final atom was an
/// unconsumed `Maybe` (in which case prefix filtering is skipped).
///
/// Later entries of `variables` shadow earlier ones, but the matcher never
/// stores the same name twice: rebinding a name overwrites it in place.
#[derive(Debug)]
pub struct ContextfullRule<'r> {
    pub rule: &'r StaticRule,
    pub variables: Vec<(String, String)>,
    pub ignore_last: bool,
}

/// A parsed document: the ordered rule book and the inline script bodies.
///
/// `shell_scripts` associates script names with bodies; a later entry for
/// the same name shadows an earlier one (the last definition wins).
#[derive(Debug)]
pub struct Context {
    pub rule_book: Vec<StaticRule>,
    pub shell_scripts: Vec<(String, String)>,
}

/// Spec-level pattern atom, over character sequences.
pub enum InputV {
    Word(Seq<char>),
    Any,
    Maybe,
    Var(Seq<char>),
    Rest,
}

/// Spec-level output strategy.
pub enum OutputV {
    Sh(Seq<char>),
    Glob(Seq<char>),
    Exec(Seq<char>),
    Word(Seq<Seq<char>>),
    End,
}

/// Spec-level rule.
pub struct RuleV {
    pub inputs: Seq<InputV>,
    pub output: OutputV,
    pub raw: RawOutput,
}

/// Spec-level error.
pub enum CompErrorV {
    IO,
    GlobPat,
    GlobRt,
    Utf8,
    LocalScriptNotFound(Seq<char>),
    ParseLineMissingArrow(Seq<char>),
    ParseLineMissingOutputItem(Seq<char>),
    MissingComplFile,
    MissingExecutablePath,
}

/// Spec-level document: rule sequence and script mapping.
pub struct ContextV {
    pub rules: Seq<RuleV>,
    pub scripts: Map<Seq<char>, Seq<char>>,
}

impl View for Input {
    type V = InputV;

    open spec fn view(&self) -> InputV {
        match self {
            Input::Word(t) => InputV::Word(t@),
            Input::Any => InputV::Any,
            Input::Maybe => InputV::Maybe,
            Input::Var(n) => InputV::Var(n@),
            Input::Rest => InputV::Rest,
        }
    }
}

impl View for Output {
    type V = OutputV;

    open spec fn view(&self) -> OutputV {
        match self {
            Output::Sh(n) => OutputV::Sh(n@),
            Output::Glob(p) => OutputV::Glob(p@),
            Output::Exec(p) => OutputV::Exec(p@),
            Output::Word(ws) => OutputV::Word(ws@.map_values(|w: String| w@)),
            Output::End => OutputV::End,
        }
    }
}

impl View for StaticRule {
    type V = RuleV;

    open spec fn view(&self) -> RuleV {
        RuleV {
            inputs: self.inputs@.map_values(|i: Input| i@),
            output: self.output@,
            raw: self.raw,
        }
    }
}

impl View for CompError {
    type V = CompErrorV;

    open spec fn view(&self) -> CompErrorV {
        match self {
            CompError::IO => CompErrorV::IO,
            CompError::GlobPat => CompErrorV::GlobPat,
            CompError::GlobRt => CompErrorV::GlobRt,
            CompError::Utf8 => CompErrorV::Utf8,
            CompError::LocalScriptNotFound(n) => CompErrorV::LocalScriptNotFound(n@),
            CompError::ParseLineMissingArrow(l) => CompErrorV::ParseLineMissingArrow(l@),
            CompError::ParseLineMissingOutputItem(l) => CompErrorV::ParseLineMissingOutputItem(
                l@,
            ),
            CompError::MissingComplFile => CompErrorV::MissingComplFile,
            CompError::MissingExecutablePath => CompErrorV::MissingExecutablePath,
        }
    }
}

impl CompError {
    /// A human-readable description of the error.
    pub fn message(&self) -> (r: String)
        ensures
            match self {
                CompError::IO => r@ == "Failed to run or read a child process"@,
                CompError::GlobPat => r@ == "Invalid glob pattern"@,
                CompError::GlobRt => r@ == "Failed to read a path matched by a glob pattern"@,
                CompError::Utf8 => r@ == "Output or path is not valid UTF-8"@,
                CompError::LocalScriptNotFound(n) => r@ == "Inlined script "@ + n@
                    + " not found"@,
                CompError::ParseLineMissingArrow(_) => r@
                    == "Expected either graph item ([] -> []) or inline script definition"@,
                CompError::ParseLineMissingOutputItem(l) => r@
                    == "Failed to find output item of line "@ + l@,
                CompError::MissingComplFile => r@
                    == "First argument must be the .compl file to use as the completion graph"@,
                CompError::MissingExecutablePath => r@
                    == "Need a path to execute for sh[] or exec[]"@,
            },
    {
        match self {
            CompError::IO => String::from_str("Failed to run or read a child process"),
            CompError::GlobPat => String::from_str("Invalid glob pattern"),
            CompError::GlobRt => String::from_str(
                "Failed to read a path matched by a glob pattern",
            ),
            CompError::Utf8 => String::from_str("Output or path is not valid UTF-8"),
            CompError::LocalScriptNotFound(n) => String::from_str("Inlined script ").concat(
                n.as_str(),
            ).concat(" not found"),
            CompError::ParseLineMissingArrow(_) => String::from_str(
                "Expected either graph item ([] -> []) or inline script definition",
            ),
            CompError::ParseLineMissingOutputItem(l) => String::from_str(
                "Failed to find output item of line ",
            ).concat(l.as_str()),
            CompError::MissingComplFile => String::from_str(
                "First argument must be the .compl file to use as the completion graph",
            ),
            CompError::MissingExecutablePath => String::from_str(
                "Need a path to execute for sh[] or exec[]",
            ),
        }
    }
}

/// The association that a name/value list stands for: later entries win.
pub open spec fn map_of(ps: Seq<(String, String)>) -> Map<Seq<char>, Seq<char>>
    decreases ps.len(),
{
    if ps.len() == 0 {
        Map::empty()
    } else {
        map_of(ps.drop_last()).insert(ps.last().0@, ps.last().1@)
    }
}

/// The character sequences of a list of strings.
pub open spec fn seq_views(ts: Seq<String>) -> Seq<Seq<char>> {
    ts.map_values(|t: String| t@)
}

impl View for Context {
    type V = ContextV;

    open spec fn view(&self) -> ContextV {
        ContextV {
            rules: self.rule_book@.map_values(|r: StaticRule| r@),
            scripts: map_of(self.shell_scripts@),
        }
    }
}

} // verus!
