use compl::read::parse_doc;
use compl::resolve::{Program, Resolution};
use compl::{CompError, Context, Input, Output, RawOutput, StaticRule};

fn toks(ts: &[&str]) -> Vec<String> {
    ts.iter().map(|t| t.to_string()).collect()
}

fn empty_ctx() -> Context {
    Context { rule_book: vec![], shell_scripts: vec![] }
}

fn word_rule(words: &[&str], raw: RawOutput) -> StaticRule {
    StaticRule {
        inputs: vec![Input::Rest],
        output: Output::Word(words.iter().map(|w| w.to_string()).collect()),
        raw,
    }
}

#[test]
fn word_candidates_filtered_by_prefix() {
    let r = word_rule(&["sys", "home", "progs"], RawOutput::NeedsFilter);
    let m = r.try_rule(&toks(&["pr"])).expect("match");
    let c = match m.resolve(&empty_ctx()).expect("resolves") {
        Resolution::Candidates(c) => c,
        _ => panic!("word output must yield candidates"),
    };
    let last = "pr".to_string();
    let out = m.words(Some(c), Some(&last)).expect("candidates present");
    assert_eq!(out, vec!["progs".to_string()]);
}

#[test]
fn empty_prefix_keeps_all_candidates_in_order() {
    let r = word_rule(&["sys", "home", "progs"], RawOutput::NeedsFilter);
    let m = r.try_rule(&toks(&[])).expect("match");
    let last = String::new();
    let out = m
        .words(Some(toks(&["sys", "home", "progs"])), Some(&last))
        .expect("candidates present");
    assert_eq!(out, toks(&["sys", "home", "progs"]));
}

#[test]
fn raw_output_skips_filtering() {
    let r = word_rule(&["sys", "home"], RawOutput::Raw);
    let m = r.try_rule(&toks(&["zz"])).expect("match");
    let last = "zz".to_string();
    let out = m.words(Some(toks(&["sys", "home"])), Some(&last)).expect("present");
    assert_eq!(out, toks(&["sys", "home"]));
}

#[test]
fn no_last_token_skips_filtering() {
    let r = word_rule(&["sys", "home"], RawOutput::NeedsFilter);
    let m = r.try_rule(&toks(&[])).expect("match");
    let out = m.words(Some(toks(&["sys", "home"])), None).expect("present");
    assert_eq!(out, toks(&["sys", "home"]));
}

#[test]
fn filtering_is_case_sensitive() {
    let r = word_rule(&["Progs", "progs"], RawOutput::NeedsFilter);
    let m = r.try_rule(&toks(&["pr"])).expect("match");
    let last = "pr".to_string();
    let out = m.words(Some(toks(&["Progs", "progs"])), Some(&last)).expect("present");
    assert_eq!(out, toks(&["progs"]));
}

#[test]
fn end_yields_no_candidates_not_an_empty_list() {
    let r = StaticRule { inputs: vec![Input::Rest], output: Output::End, raw: RawOutput::Raw };
    let m = r.try_rule(&toks(&["progs"])).expect("match");
    assert!(matches!(m.resolve(&empty_ctx()), Ok(Resolution::NoCandidates)));
    let last = "x".to_string();
    assert_eq!(m.words(None, Some(&last)), None);
}

#[test]
fn empty_word_list_is_present_but_empty() {
    let r = word_rule(&[], RawOutput::Raw);
    let m = r.try_rule(&toks(&[])).expect("match");
    let c = match m.resolve(&empty_ctx()).expect("resolves") {
        Resolution::Candidates(c) => c,
        _ => panic!("word output must yield candidates"),
    };
    // Distinct from End: the list exists, it just has no entries.
    assert_eq!(m.words(Some(c), None), Some(vec![]));
}

#[test]
fn filter_that_removes_everything_is_still_present() {
    let r = word_rule(&["alpha"], RawOutput::NeedsFilter);
    let m = r.try_rule(&toks(&["zz"])).expect("match");
    let last = "zz".to_string();
    assert_eq!(m.words(Some(toks(&["alpha"])), Some(&last)), Some(vec![]));
}

#[test]
fn missing_script_is_script_not_found() {
    let doc = "[ progs $prog ] -> sh[ missing ]\n";
    let ctx = parse_doc(doc).expect("parses");
    let tokens = toks(&["progs", "vim"]);
    let m = ctx.first_match(&tokens).expect("match");
    let e = m.resolve(&ctx).expect_err("script is absent");
    assert!(matches!(e, CompError::LocalScriptNotFound(n) if n == "missing"));
}

#[test]
fn found_script_becomes_a_shell_run_with_bindings() {
    let doc = "[ progs $prog ] -> sh[ list ]\n# sh list\necho vim\n# end\n";
    let ctx = parse_doc(doc).expect("parses");
    let tokens = toks(&["progs", "vim"]);
    let m = ctx.first_match(&tokens).expect("match");
    match m.resolve(&ctx).expect("resolves") {
        Resolution::Run(req) => {
            assert!(matches!(&req.program, Program::Shell(body) if body == "echo vim\n"));
            assert_eq!(req.env, vec![("prog".to_string(), "vim".to_string())]);
        },
        _ => panic!("sh output must request a run"),
    }
}

#[test]
fn later_script_definition_is_the_one_run() {
    let doc = "[ p ] -> sh[ s ]\n# sh s\nfirst\n# end\n# sh s\nsecond\n# end\n";
    let ctx = parse_doc(doc).expect("parses");
    let m = ctx.first_match(&toks(&["p"])).expect("match");
    match m.resolve(&ctx).expect("resolves") {
        Resolution::Run(req) => {
            assert!(matches!(&req.program, Program::Shell(body) if body == "second\n"));
        },
        _ => panic!("sh output must request a run"),
    }
}

#[test]
fn exec_becomes_an_executable_run() {
    let r = StaticRule {
        inputs: vec![Input::Var("f".to_string())],
        output: Output::Exec("/bin/lister".to_string()),
        raw: RawOutput::NeedsFilter,
    };
    let m = r.try_rule(&toks(&["x"])).expect("match");
    match m.resolve(&empty_ctx()).expect("resolves") {
        Resolution::Run(req) => {
            assert!(matches!(&req.program, Program::Executable(p) if p == "/bin/lister"));
            assert_eq!(req.env, vec![("f".to_string(), "x".to_string())]);
        },
        _ => panic!("exec output must request a run"),
    }
}

#[test]
fn invalid_glob_pattern_is_a_pattern_error() {
    let r = StaticRule {
        inputs: vec![Input::Rest],
        output: Output::Glob("a[".to_string()),
        raw: RawOutput::Raw,
    };
    let m = r.try_rule(&toks(&[])).expect("match");
    let e = m.resolve(&empty_ctx()).expect_err("pattern is invalid");
    assert!(matches!(e, CompError::GlobPat));
}

#[test]
fn glob_over_nothing_yields_an_empty_candidate_list() {
    let r = StaticRule {
        inputs: vec![Input::Rest],
        output: Output::Glob("/surely_absent_zqx_0319/*".to_string()),
        raw: RawOutput::Raw,
    };
    let m = r.try_rule(&toks(&[])).expect("match");
    match m.resolve(&empty_ctx()).expect("resolves") {
        Resolution::Candidates(c) => assert!(c.is_empty()),
        _ => panic!("glob output must yield candidates"),
    }
}

#[test]
fn split_output_discards_empty_fields() {
    let words = compl::resolve::split_output("  vim\n emacs\t\tnano  \n");
    assert_eq!(words, toks(&["vim", "emacs", "nano"]));
}

#[test]
fn split_output_of_blank_text_is_empty() {
    assert!(compl::resolve::split_output(" \n\t ").is_empty());
    assert!(compl::resolve::split_output("").is_empty());
}

#[test]
fn full_word_completion_flow() {
    let ctx = parse_doc("[ progs ? ] -> word[ vim emacs vi ]\n").expect("parses");
    // The user is typing the optional slot: "progs vi" — the slot consumes
    // the token, so the partial token filters the list.
    let tokens = toks(&["progs", "vi"]);
    let m = ctx.first_match(&tokens).expect("match");
    assert!(!m.ignore_last);
    let c = match m.resolve(&ctx).expect("resolves") {
        Resolution::Candidates(c) => c,
        _ => panic!("word output must yield candidates"),
    };
    let last = "vi".to_string();
    assert_eq!(m.words(Some(c), Some(&last)), Some(toks(&["vim", "vi"])));

    // One token short of the pattern: the optional slot is still empty,
    // so nothing is filtered away.
    let tokens = toks(&["progs"]);
    let m = ctx.first_match(&tokens).expect("match");
    assert!(m.ignore_last);
    let c = match m.resolve(&ctx).expect("resolves") {
        Resolution::Candidates(c) => c,
        _ => panic!("word output must yield candidates"),
    };
    let last = "progs".to_string();
    assert_eq!(m.words(Some(c), Some(&last)), Some(toks(&["vim", "emacs", "vi"])));
}

#[test]
fn error_messages_name_the_subject() {
    let e = CompError::LocalScriptNotFound("list".to_string());
    assert_eq!(e.message(), "Inlined script list not found");
    let e = CompError::ParseLineMissingOutputItem("[ a ] -> ?".to_string());
    assert_eq!(e.message(), "Failed to find output item of line [ a ] -> ?");
    let e = CompError::MissingComplFile;
    assert_eq!(
        e.message(),
        "First argument must be the .compl file to use as the completion graph"
    );
}
