//! The document parser: turns the text of a completion document into a
//! [`Context`], or reports the first malformed line.

use vstd::prelude::*;
use vstd::string::StrSliceExecFns;
use vstd::string::StringExecFns;
use crate::strutil::{
    find_char, lemma_find_char_at, lemma_find_char_none, split_ws, split_ws_spec, str_eq,
    trim_spec, trimmed,
};
use crate::{CompError, CompErrorV, Context, ContextV, Input, InputV, Output, OutputV, RawOutput};
use crate::{RuleV, StaticRule};

verus! {

/// Index of the first `->` in `s`, if any.
pub open spec fn find_arrow(s: Seq<char>) -> Option<int>
    decreases s.len(),
{
    if s.len() < 2 {
        None
    } else if s[0] == '-' && s[1] == '>' {
        Some(0int)
    } else {
        match find_arrow(s.skip(1)) {
            None => None,
            Some(i) => Some(i + 1),
        }
    }
}

proof fn lemma_find_arrow_none(s: Seq<char>)
    requires
        forall|j: int| 0 <= j < s.len() - 1 ==> !(#[trigger] s[j] == '-' && s[j + 1] == '>'),
    ensures
        find_arrow(s) is None,
    decreases s.len(),
{
    if s.len() >= 2 {
        lemma_find_arrow_none(s.skip(1));
    }
}

proof fn lemma_find_arrow_at(s: Seq<char>, k: int)
    requires
        0 <= k < s.len() - 1,
        s[k] == '-' && s[k + 1] == '>',
        forall|j: int| 0 <= j < k ==> !(#[trigger] s[j] == '-' && s[j + 1] == '>'),
    ensures
        find_arrow(s) == Some(k),
    decreases s.len(),
{
    if k > 0 {
        lemma_find_arrow_at(s.skip(1), k - 1);
    }
}

/// How one whitespace-separated field of a rule's input side reads as a
/// pattern atom.
pub open spec fn atom_spec(t: Seq<char>) -> InputV {
    if t == seq!['.'] {
        InputV::Any
    } else if t == seq!['?'] {
        InputV::Maybe
    } else if t == seq!['*'] {
        InputV::Rest
    } else if t.len() > 0 && t[0] == '$' {
        InputV::Var(t.skip(1))
    } else {
        InputV::Word(t)
    }
}

/// How the output side of a rule line reads: `right` is the raw text after
/// the arrow and `line` the whole line (used in error values). `end` maps
/// to `End`; otherwise the side must be `<cmd>[ <args> ]`, where a `!` at
/// the end of `cmd` turns off prefix filtering, and `cmd` is one of `sh`,
/// `exec`, `word`, `words`, `glob`. Anything else is a parse fault.
pub open spec fn out_spec(right: Seq<char>, line: Seq<char>) -> Result<
    (OutputV, RawOutput),
    CompErrorV,
> {
    let r = trim_spec(right);
    if r == seq!['e', 'n', 'd'] {
        Ok((OutputV::End, RawOutput::Raw))
    } else {
        match find_char(r, '[') {
            None => Err(CompErrorV::ParseLineMissingOutputItem(line)),
            Some(b) => {
                let rest = r.skip(b + 1);
                if rest.len() == 0 || rest.last() != ']' {
                    Err(CompErrorV::ParseLineMissingOutputItem(line))
                } else {
                    let args = split_ws_spec(rest.drop_last());
                    let cmd0 = r.take(b);
                    let raw = if cmd0.len() > 0 && cmd0.last() == '!' {
                        RawOutput::Raw
                    } else {
                        RawOutput::NeedsFilter
                    };
                    let cmd = if raw is Raw {
                        cmd0.drop_last()
                    } else {
                        cmd0
                    };
                    if cmd == seq!['s', 'h'] {
                        if args.len() == 0 {
                            Err(CompErrorV::MissingExecutablePath)
                        } else {
                            Ok((OutputV::Sh(args[0]), raw))
                        }
                    } else if cmd == seq!['e', 'x', 'e', 'c'] {
                        if args.len() == 0 {
                            Err(CompErrorV::MissingExecutablePath)
                        } else {
                            Ok((OutputV::Exec(args[0]), raw))
                        }
                    } else if cmd == seq!['w', 'o', 'r', 'd'] || cmd == seq![
                        'w',
                        'o',
                        'r',
                        'd',
                        's',
                    ] {
                        Ok((OutputV::Word(args), raw))
                    } else if cmd == seq!['g', 'l', 'o', 'b'] {
                        if args.len() == 0 {
                            Err(CompErrorV::MissingExecutablePath)
                        } else {
                            Ok((OutputV::Glob(args[0]), raw))
                        }
                    } else {
                        Err(CompErrorV::ParseLineMissingOutputItem(line))
                    }
                }
            },
        }
    }
}

/// How a whole rule line reads. The line splits at its first `->`; the
/// left side must be wrapped in `[` `]` (a missing arrow and a missing
/// bracket are reported as the same kind); its fields become the pattern
/// atoms; the right side reads as [`out_spec`] says.
pub open spec fn rule_spec(line: Seq<char>) -> Result<RuleV, CompErrorV> {
    match find_arrow(line) {
        None => Err(CompErrorV::ParseLineMissingArrow(line)),
        Some(i) => {
            let left = trim_spec(line.take(i));
            if left.len() == 0 || left[0] != '[' {
                Err(CompErrorV::ParseLineMissingArrow(line))
            } else {
                let inner0 = left.skip(1);
                if inner0.len() == 0 || inner0.last() != ']' {
                    Err(CompErrorV::ParseLineMissingArrow(line))
                } else {
                    let inputs = split_ws_spec(inner0.drop_last()).map_values(
                        |t: Seq<char>| atom_spec(t),
                    );
                    match out_spec(line.skip(i + 2), line) {
                        Err(e) => Err(e),
                        Ok(p) => Ok(RuleV { inputs, output: p.0, raw: p.1 }),
                    }
                }
            }
        },
    }
}

/// One pass of the document scanner over the remaining `lines`, carrying
/// the rules and scripts gathered so far and, while inside an inline
/// script, its name and body. Script mode begins at a line of the exact
/// form `# sh <name>` and ends at a line exactly equal to `# end`; every
/// line between the two is appended verbatim to the body, with a trailing
/// newline. At top level a line that is blank after trimming is skipped
/// and every other line must be a rule line. A script left open at the end
/// of the document is dropped; a later script definition for the same name
/// wins over an earlier one.
pub open spec fn doc_step(
    lines: Seq<Seq<char>>,
    acc: ContextV,
    cur: Option<(Seq<char>, Seq<char>)>,
) -> Result<ContextV, CompErrorV>
    decreases lines.len(),
{
    if lines.len() == 0 {
        Ok(acc)
    } else {
        let l = lines[0];
        match cur {
            Some(sc) => {
                if l == seq!['#', ' ', 'e', 'n', 'd'] {
                    doc_step(
                        lines.skip(1),
                        ContextV { rules: acc.rules, scripts: acc.scripts.insert(sc.0, sc.1) },
                        None,
                    )
                } else {
                    doc_step(lines.skip(1), acc, Some((sc.0, sc.1 + l + seq!['\n'])))
                }
            },
            None => {
                if l.len() >= 5 && l.take(5) == seq!['#', ' ', 's', 'h', ' '] {
                    doc_step(lines.skip(1), acc, Some((l.skip(5), Seq::empty())))
                } else if trim_spec(l).len() == 0 {
                    doc_step(lines.skip(1), acc, None)
                } else {
                    match rule_spec(l) {
                        Err(e) => Err(e),
                        Ok(rv) => doc_step(
                            lines.skip(1),
                            ContextV { rules: acc.rules.push(rv), scripts: acc.scripts },
                            None,
                        ),
                    }
                }
            },
        }
    }
}

/// What parsing a whole document yields: the scanner folded over the
/// document's lines, starting at top level with nothing gathered.
pub open spec fn parse_doc_spec(content: Seq<char>) -> Result<ContextV, CompErrorV> {
    doc_step(
        crate::strutil::lines_spec(content),
        ContextV { rules: Seq::empty(), scripts: Map::empty() },
        None,
    )
}

/// Parse a whole completion document, exactly as [`parse_doc_spec`] reads
/// it: the first malformed rule line aborts the parse with its error, and
/// no partial rule book is returned.
pub fn parse_doc(content: &str) -> (r: Result<Context, CompError>)
    ensures
        match parse_doc_spec(content@) {
            Ok(cv) => r matches Ok(c) && c@ == cv,
            Err(e) => r matches Err(err) && err@ == e,
        },
{
    let lines = crate::strutil::split_lines(content);
    let ghost lv = crate::seq_views(lines@);
    let mut rule_book: Vec<StaticRule> = Vec::new();
    let mut scripts: Vec<(String, String)> = Vec::new();
    let mut in_script: bool = false;
    let mut script_name: String = String::new();
    let mut script_body: String = String::new();
    let mut li: usize = 0;
    proof {
        assert(lv.skip(0) =~= lv);
        assert(rule_book@.map_values(|r: StaticRule| r@) =~= Seq::<RuleV>::empty());
    }
    while li < lines.len()
        invariant
            li <= lines@.len(),
            lv == crate::seq_views(lines@),
            parse_doc_spec(content@) == doc_step(
                lv.skip(li as int),
                ContextV {
                    rules: rule_book@.map_values(|r: StaticRule| r@),
                    scripts: crate::map_of(scripts@),
                },
                if in_script {
                    Some((script_name@, script_body@))
                } else {
                    None
                },
            ),
        decreases lines@.len() - li,
    {
        proof {
            reveal_strlit("# end");
            reveal_strlit("# sh ");
            reveal_strlit("\n");
            assert("# end"@ =~= seq!['#', ' ', 'e', 'n', 'd']);
            assert("# sh "@ =~= seq!['#', ' ', 's', 'h', ' ']);
            assert("\n"@ =~= seq!['\n']);
            assert(lv.skip(li as int)[0] == lv[li as int]);
            assert(lv.skip(li as int).skip(1) =~= lv.skip(li + 1));
        }
        let line = &lines[li];
        if in_script {
            if str_eq(line.as_str(), "# end") {
                let p = (script_name.clone(), script_body.clone());
                proof {
                    assert(scripts@.push(p).drop_last() =~= scripts@);
                }
                scripts.push(p);
                in_script = false;
            } else {
                script_body.append(line.as_str());
                script_body.append("\n");
            }
        } else {
            if crate::strutil::has_prefix(line.as_str(), "# sh ") {
                let nl = line.as_str().unicode_len();
                proof {
                    assert(line@.subrange(0, 5) =~= line@.take(5));
                    assert(line@.subrange(5, nl as int) =~= line@.skip(5));
                }
                script_name = String::from_str(line.as_str().substring_char(5, nl));
                script_body = String::new();
                in_script = true;
            } else {
                proof {
                    if line@.len() >= 5 {
                        assert(line@.subrange(0, 5) =~= line@.take(5));
                    }
                }
                let t = trimmed(line.as_str());
                if !t.as_str().is_empty() {
                    match read_rule(line.as_str()) {
                        Ok(rule) => {
                            proof {
                                assert(rule_book@.push(rule).map_values(|r: StaticRule| r@)
                                    =~= rule_book@.map_values(|r: StaticRule| r@).push(rule@));
                            }
                            rule_book.push(rule);
                        },
                        Err(e) => {
                            return Err(e);
                        },
                    }
                }
            }
        }
        li += 1;
    }
    proof {
        assert(lv.skip(li as int) =~= Seq::<Seq<char>>::empty());
    }
    Ok(Context { rule_book, shell_scripts: scripts })
}

/// Parse one rule line into a [`StaticRule`], exactly as [`rule_spec`]
/// reads it; the error names the offending line.
pub fn read_rule(txt: &str) -> (r: Result<StaticRule, CompError>)
    ensures
        match rule_spec(txt@) {
            Ok(rv) => r matches Ok(sr) && sr@ == rv,
            Err(e) => r matches Err(err) && err@ == e,
        },
{
    let n = txt.unicode_len();
    let mut arrow: Option<usize> = None;
    let mut j: usize = 0;
    while arrow.is_none() && n - j > 1
        invariant
            j <= n,
            n == txt@.len(),
            arrow matches Some(k) ==> 0 <= k < n - 1 && txt@[k as int] == '-' && txt@[k as int
                + 1] == '>' && (forall|t: int|
                0 <= t < k ==> !(#[trigger] txt@[t] == '-' && txt@[t + 1] == '>')),
            arrow is None ==> forall|t: int|
                0 <= t < j ==> !(#[trigger] txt@[t] == '-' && txt@[t + 1] == '>'),
        decreases n - j,
    {
        if txt.get_char(j) == '-' && txt.get_char(j + 1) == '>' {
            arrow = Some(j);
        }
        j += 1;
    }
    let k = match arrow {
        None => {
            proof {
                lemma_find_arrow_none(txt@);
            }
            return Err(CompError::ParseLineMissingArrow(String::from_str(txt)));
        },
        Some(k) => k,
    };
    proof {
        lemma_find_arrow_at(txt@, k as int);
        assert(txt@.subrange(0, k as int) =~= txt@.take(k as int));
    }
    let left = trimmed(txt.substring_char(0, k));
    let nl = left.unicode_len();
    if nl == 0 || left.as_str().get_char(0) != '[' {
        return Err(CompError::ParseLineMissingArrow(String::from_str(txt)));
    }
    if nl == 1 || left.as_str().get_char(nl - 1) != ']' {
        return Err(CompError::ParseLineMissingArrow(String::from_str(txt)));
    }
    let inner = left.as_str().substring_char(1, nl - 1);
    proof {
        assert(inner@ =~= left@.skip(1).drop_last());
    }
    let atoms = split_ws(inner);
    let ghost av = crate::seq_views(atoms@);
    let mut inputs: Vec<Input> = Vec::new();
    let mut x: usize = 0;
    proof {
        reveal_strlit(".");
        reveal_strlit("?");
        reveal_strlit("*");
        assert("."@ =~= seq!['.']);
        assert("?"@ =~= seq!['?']);
        assert("*"@ =~= seq!['*']);
    }
    while x < atoms.len()
        invariant
            x <= atoms@.len(),
            av == crate::seq_views(atoms@),
            inputs@.len() == x,
            "."@ =~= seq!['.'],
            "?"@ =~= seq!['?'],
            "*"@ =~= seq!['*'],
            forall|y: int| 0 <= y < x ==> (#[trigger] inputs@[y])@ == atom_spec(av[y]),
        decreases atoms@.len() - x,
    {
        let a = &atoms[x];
        let na = a.unicode_len();
        let input = if str_eq(a.as_str(), ".") {
            Input::Any
        } else if str_eq(a.as_str(), "?") {
            Input::Maybe
        } else if str_eq(a.as_str(), "*") {
            Input::Rest
        } else if na > 0 && a.as_str().get_char(0) == '$' {
            proof {
                assert(a@.subrange(1, na as int) =~= a@.skip(1));
            }
            Input::Var(String::from_str(a.as_str().substring_char(1, na)))
        } else {
            Input::Word(a.clone())
        };
        inputs.push(input);
        x += 1;
    }
    proof {
        assert(inputs@.map_values(|i: Input| i@) =~= av.map_values(|t: Seq<char>| atom_spec(t)));
    }
    let right = txt.substring_char(k + 2, n);
    proof {
        assert(right@ =~= txt@.skip(k + 2));
        reveal_strlit("end");
        assert("end"@ =~= seq!['e', 'n', 'd']);
    }
    let rt = trimmed(right);
    if str_eq(rt.as_str(), "end") {
        return Ok(StaticRule { inputs, output: Output::End, raw: RawOutput::Raw });
    }
    let nr = rt.unicode_len();
    let mut b: usize = 0;
    while b < nr && rt.as_str().get_char(b) != '['
        invariant
            b <= nr,
            nr == rt@.len(),
            forall|t: int| 0 <= t < b ==> rt@[t] != '[',
        decreases nr - b,
    {
        b += 1;
    }
    if b == nr {
        proof {
            lemma_find_char_none(rt@, '[');
        }
        return Err(CompError::ParseLineMissingOutputItem(String::from_str(txt)));
    }
    proof {
        lemma_find_char_at(rt@, '[', b as int);
    }
    if b + 1 == nr || rt.as_str().get_char(nr - 1) != ']' {
        return Err(CompError::ParseLineMissingOutputItem(String::from_str(txt)));
    }
    let args_s = rt.as_str().substring_char(b + 1, nr - 1);
    proof {
        assert(args_s@ =~= rt@.skip(b + 1).drop_last());
    }
    let args = split_ws(args_s);
    let raw_flag = b > 0 && rt.as_str().get_char(b - 1) == '!';
    let cmd_hi: usize = if raw_flag {
        b - 1
    } else {
        b
    };
    let cmd = rt.as_str().substring_char(0, cmd_hi);
    proof {
        assert(rt@.take(b as int).len() == b);
        if raw_flag {
            assert(cmd@ =~= rt@.take(b as int).drop_last());
        } else {
            assert(cmd@ =~= rt@.take(b as int));
        }
        reveal_strlit("sh");
        reveal_strlit("exec");
        reveal_strlit("word");
        reveal_strlit("words");
        reveal_strlit("glob");
        assert("sh"@ =~= seq!['s', 'h']);
        assert("exec"@ =~= seq!['e', 'x', 'e', 'c']);
        assert("word"@ =~= seq!['w', 'o', 'r', 'd']);
        assert("words"@ =~= seq!['w', 'o', 'r', 'd', 's']);
        assert("glob"@ =~= seq!['g', 'l', 'o', 'b']);
    }
    let raw = if raw_flag {
        RawOutput::Raw
    } else {
        RawOutput::NeedsFilter
    };
    if str_eq(cmd, "sh") {
        if args.len() == 0 {
            return Err(CompError::MissingExecutablePath);
        }
        Ok(StaticRule { inputs, output: Output::Sh(args[0].clone()), raw })
    } else if str_eq(cmd, "exec") {
        if args.len() == 0 {
            return Err(CompError::MissingExecutablePath);
        }
        Ok(StaticRule { inputs, output: Output::Exec(args[0].clone()), raw })
    } else if str_eq(cmd, "word") || str_eq(cmd, "words") {
        proof {
            assert(args@.map_values(|w: String| w@) =~= crate::seq_views(args@));
        }
        Ok(StaticRule { inputs, output: Output::Word(args), raw })
    } else if str_eq(cmd, "glob") {
        if args.len() == 0 {
            return Err(CompError::MissingExecutablePath);
        }
        Ok(StaticRule { inputs, output: Output::Glob(args[0].clone()), raw })
    } else {
        Err(CompError::ParseLineMissingOutputItem(String::from_str(txt)))
    }
}

} // verus!
