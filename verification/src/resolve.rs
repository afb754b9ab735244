//! The output resolver: turns a matched rule into candidate words. Pure
//! outputs (`End`, `Word`) and glob expansion are resolved here; `Sh` and
//! `Exec` outputs become a [`RunRequest`] that the caller must execute,
//! handing the captured output back to [`split_output`]. The final step,
//! [`ContextfullRule::words`], applies the trailing-token prefix filter.

use vstd::prelude::*;
use crate::strutil::{has_prefix, split_ws, split_ws_spec};
use crate::{map_of, seq_views};
use crate::{CompError, CompErrorV, Context, ContextfullRule, Output, OutputV, RawOutput};

verus! {

/// A child process the caller must spawn to finish resolving a rule.
#[derive(Debug)]
pub enum Program {
    /// Feed this inline script body to a shell.
    Shell(String),
    /// Run this path as an executable.
    Executable(String),
}

/// A pending child-process run: the program and the matched rule's
/// captured variables, to be passed as environment entries.
#[derive(Debug)]
pub struct RunRequest {
    pub program: Program,
    pub env: Vec<(String, String)>,
}

/// What resolving a matched rule's output strategy requires or yields.
#[derive(Debug)]
pub enum Resolution {
    /// The sequence is complete; there is nothing to suggest. Distinct
    /// from an empty candidate list.
    NoCandidates,
    /// The candidate words, ready for filtering.
    Candidates(Vec<String>),
    /// A child process must be run; its output holds the candidates.
    Run(RunRequest),
}

/// An exact copy of a word list.
fn clone_words(v: &Vec<String>) -> (r: Vec<String>)
    ensures
        r@ == v@,
{
    let mut r: Vec<String> = Vec::new();
    let mut i: usize = 0;
    while i < v.len()
        invariant
            i <= v@.len(),
            r@ =~= v@.take(i as int),
        decreases v@.len() - i,
    {
        r.push(v[i].clone());
        i += 1;
    }
    proof {
        assert(v@.take(v@.len() as int) =~= v@);
    }
    r
}

/// An exact copy of a name/value list.
fn clone_pairs(v: &Vec<(String, String)>) -> (r: Vec<(String, String)>)
    ensures
        r@ == v@,
{
    let mut r: Vec<(String, String)> = Vec::new();
    let mut i: usize = 0;
    while i < v.len()
        invariant
            i <= v@.len(),
            r@ =~= v@.take(i as int),
        decreases v@.len() - i,
    {
        let p = (v[i].0.clone(), v[i].1.clone());
        proof {
            assert(p == v@[i as int]);
        }
        r.push(p);
        i += 1;
    }
    proof {
        assert(v@.take(v@.len() as int) =~= v@);
    }
    r
}

/// The body recorded for `name`, taking the last definition when the
/// document held several.
fn lookup_script(scripts: &Vec<(String, String)>, name: &String) -> (r: Option<String>)
    ensures
        match r {
            Some(body) => map_of(scripts@).dom().contains(name@) && body@ == map_of(
                scripts@,
            ).index(name@),
            None => !map_of(scripts@).dom().contains(name@),
        },
{
    let mut i = scripts.len();
    proof {
        assert(scripts@.take(scripts@.len() as int) =~= scripts@);
    }
    while i > 0
        invariant
            i <= scripts@.len(),
            map_of(scripts@).dom().contains(name@) == map_of(scripts@.take(i as int)).dom()
                .contains(name@),
            map_of(scripts@).dom().contains(name@) ==> map_of(scripts@)[name@] == map_of(
                scripts@.take(i as int),
            )[name@],
        decreases i,
    {
        proof {
            assert(scripts@.take(i as int).drop_last() =~= scripts@.take(i - 1));
            assert(scripts@.take(i as int).last() == scripts@[i - 1]);
        }
        if scripts[i - 1].0 == *name {
            return Some(scripts[i - 1].1.clone());
        }
        i -= 1;
    }
    proof {
        assert(scripts@.take(0) =~= Seq::<(String, String)>::empty());
    }
    None
}

/// Relies on `glob::glob` of the `glob` crate: expands the pattern against
/// the filesystem, in alphabetical order of path. Which paths come back
/// depends on the machine's filesystem, so nothing is promised of the
/// candidate list; an invalid pattern, an unreadable matched path and a
/// non-text path are told apart as the three error kinds the body maps
/// them to.
#[verifier::external_body]
fn glob_expand(pattern: &str) -> (r: Result<Vec<String>, CompError>)
    ensures
        r matches Err(e) ==> (e@ is GlobPat || e@ is GlobRt || e@ is Utf8),
{
    match glob::glob(pattern) {
        Ok(paths) => paths
            .map(|entry| match entry {
                Ok(path) => path.into_os_string().into_string().map_err(|_| CompError::Utf8),
                Err(_) => Err(CompError::GlobRt),
            })
            .collect(),
        Err(_) => Err(CompError::GlobPat),
    }
}

/// The prefix-filter predicate: whether a candidate word starts with
/// the partial token `p`.
pub open spec fn keeps(p: Seq<char>) -> spec_fn(String) -> bool {
    |w: String| p.is_prefix_of(w@)
}

/// Split captured child-process output into candidate words: maximal
/// whitespace-free runs, in order, empty fields discarded.
pub fn split_output(text: &str) -> (r: Vec<String>)
    ensures
        seq_views(r@) == split_ws_spec(text@),
{
    split_ws(text)
}

impl ContextfullRule<'_> {
    /// Resolve this match's output strategy against the document. `End`
    /// yields no candidates (never an empty-but-present list); a `Word`
    /// list is returned as it stands; a `Glob` pattern is expanded against
    /// the filesystem; `Sh` looks up the named inline script — a name the
    /// document never defined is the script-not-found error, and no
    /// process is involved — and, like `Exec`, hands back the run the
    /// caller must perform, with the captured variables as environment.
    pub fn resolve(&self, ctx: &Context) -> (r: Result<Resolution, CompError>)
        ensures
            match self.rule.output@ {
                OutputV::End => r matches Ok(res) && res is NoCandidates,
                OutputV::Word(ws) => r matches Ok(res) && (res matches Resolution::Candidates(c)
                    && seq_views(c@) == ws),
                OutputV::Sh(name) => if ctx@.scripts.dom().contains(name) {
                    &&& r matches Ok(res)
                    &&& res matches Resolution::Run(req)
                    &&& req.program matches Program::Shell(body) && body@ == ctx@.scripts[name]
                    &&& req.env@ == self.variables@
                } else {
                    r matches Err(e) && e@ == CompErrorV::LocalScriptNotFound(name)
                },
                OutputV::Exec(path) => {
                    &&& r matches Ok(res)
                    &&& res matches Resolution::Run(req)
                    &&& req.program matches Program::Executable(p) && p@ == path
                    &&& req.env@ == self.variables@
                },
                OutputV::Glob(_) => {
                    &&& (r matches Ok(res) ==> res is Candidates)
                    &&& (r matches Err(e) ==> (e@ is GlobPat || e@ is GlobRt || e@ is Utf8))
                },
            },
    {
        match &self.rule.output {
            Output::End => Ok(Resolution::NoCandidates),
            Output::Word(k) => Ok(Resolution::Candidates(clone_words(k))),
            Output::Sh(k) => match lookup_script(&ctx.shell_scripts, k) {
                Some(body) => Ok(
                    Resolution::Run(
                        RunRequest {
                            program: Program::Shell(body),
                            env: clone_pairs(&self.variables),
                        },
                    ),
                ),
                None => Err(CompError::LocalScriptNotFound(k.clone())),
            },
            Output::Exec(cmd) => Ok(
                Resolution::Run(
                    RunRequest {
                        program: Program::Executable(cmd.clone()),
                        env: clone_pairs(&self.variables),
                    },
                ),
            ),
            Output::Glob(pat) => match glob_expand(pat.as_str()) {
                Ok(c) => Ok(Resolution::Candidates(c)),
                Err(e) => Err(e),
            },
        }
    }

    /// The final candidate list: `None` passes through untouched (a dead
    /// end stays a dead end), and a candidate list is filtered to the
    /// entries that start with the trailing partial token — but only when
    /// the rule asks for filtering, the match did not set `ignore_last`,
    /// and a trailing token exists; otherwise the list is returned as it
    /// stands.
    pub fn words(&self, candidates: Option<Vec<String>>, last: Option<&String>) -> (r: Option<
        Vec<String>,
    >)
        ensures
            match candidates {
                None => r is None,
                Some(c) => {
                    if self.rule.raw == RawOutput::NeedsFilter && !self.ignore_last && last
                        is Some {
                        r matches Some(out) && out@ == c@.filter(keeps(last->0@))
                    } else {
                        r matches Some(out) && out == c
                    }
                },
            },
    {
        let cands = match candidates {
            None => {
                return None;
            },
            Some(c) => c,
        };
        if self.rule.raw == RawOutput::NeedsFilter && !self.ignore_last {
            match last {
                Some(l) => {
                    let ghost lastv = l@;
                    let mut out: Vec<String> = Vec::new();
                    let mut i: usize = 0;
                    proof {
                        reveal(Seq::filter);
                        assert(cands@.take(0) =~= Seq::<String>::empty());
                    }
                    while i < cands.len()
                        invariant
                            i <= cands@.len(),
                            lastv == l@,
                            out@ == cands@.take(i as int).filter(keeps(lastv)),
                        decreases cands@.len() - i,
                    {
                        proof {
                            reveal(Seq::filter);
                            assert(cands@.take(i + 1).drop_last() =~= cands@.take(i as int));
                            assert(cands@.take(i + 1).last() == cands@[i as int]);
                        }
                        let keep = has_prefix(cands[i].as_str(), l.as_str());
                        proof {
                            assert(keeps(lastv)(cands@[i as int]) == keep);
                        }
                        if keep {
                            out.push(cands[i].clone());
                        }
                        i += 1;
                    }
                    proof {
                        assert(cands@.take(cands@.len() as int) =~= cands@);
                    }
                    Some(out)
                },
                None => Some(cands),
            }
        } else {
            Some(cands)
        }
    }
}

/// Filtering against an empty trailing token keeps every candidate, in
/// order: the empty sequence is a prefix of every word.
pub proof fn lemma_empty_prefix_keeps_all(ts: Seq<String>)
    ensures
        ts.filter(keeps(Seq::<char>::empty())) == ts,
    decreases ts.len(),
{
    reveal(Seq::filter);
    let pred = keeps(Seq::<char>::empty());
    if ts.len() == 0 {
        assert(ts.filter(pred) =~= ts);
    } else {
        lemma_empty_prefix_keeps_all(ts.drop_last());
        assert(Seq::<char>::empty() =~= ts.last()@.subrange(0, 0));
        assert(pred(ts.last()));
        assert(ts.drop_last().push(ts.last()) =~= ts);
    }
}

} // verus!
