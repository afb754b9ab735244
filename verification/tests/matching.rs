use compl::{Context, Input, Output, RawOutput, StaticRule};

fn toks(ts: &[&str]) -> Vec<String> {
    ts.iter().map(|t| t.to_string()).collect()
}

fn rule(inputs: Vec<Input>, output: Output, raw: RawOutput) -> StaticRule {
    StaticRule { inputs, output, raw }
}

#[test]
fn match_is_deterministic() {
    let r = rule(
        vec![Input::Word("progs".to_string()), Input::Var("prog".to_string())],
        Output::End,
        RawOutput::Raw,
    );
    let tokens = toks(&["progs", "vim"]);
    let a = r.try_rule(&tokens).expect("first run matches");
    let b = r.try_rule(&tokens).expect("second run matches");
    assert_eq!(a.variables, b.variables);
    assert_eq!(a.ignore_last, b.ignore_last);
}

#[test]
fn rest_matches_zero_trailing_tokens() {
    let r = rule(
        vec![Input::Word("progs".to_string()), Input::Rest],
        Output::End,
        RawOutput::Raw,
    );
    let m = r.try_rule(&toks(&["progs"])).expect("zero trailing tokens match");
    assert!(m.variables.is_empty());
    assert!(!m.ignore_last);
}

#[test]
fn rest_matches_many_trailing_tokens() {
    let r = rule(
        vec![Input::Word("progs".to_string()), Input::Rest],
        Output::End,
        RawOutput::Raw,
    );
    let m = r.try_rule(&toks(&["progs", "a", "b", "c"])).expect("trailing tokens match");
    assert!(m.variables.is_empty());
    assert!(!m.ignore_last);
}

#[test]
fn var_binds_token_at_its_position() {
    let r = rule(
        vec![Input::Word("progs".to_string()), Input::Var("prog".to_string())],
        Output::End,
        RawOutput::Raw,
    );
    let m = r.try_rule(&toks(&["progs", "vim"])).expect("match");
    assert_eq!(m.variables, vec![("prog".to_string(), "vim".to_string())]);
    assert!(!m.ignore_last);
}

#[test]
fn rebinding_a_name_overwrites() {
    let r = rule(
        vec![Input::Var("x".to_string()), Input::Var("x".to_string())],
        Output::End,
        RawOutput::Raw,
    );
    let m = r.try_rule(&toks(&["first", "second"])).expect("match");
    assert_eq!(m.variables, vec![("x".to_string(), "second".to_string())]);
}

#[test]
fn maybe_one_token_short_sets_ignore_last() {
    let r = rule(
        vec![Input::Word("progs".to_string()), Input::Any, Input::Maybe],
        Output::Word(vec!["x".to_string()]),
        RawOutput::NeedsFilter,
    );
    let m = r.try_rule(&toks(&["progs", "a"])).expect("one short matches");
    assert!(m.ignore_last);
    // Filtering is then skipped even though the rule asks for it.
    let last = "zz".to_string();
    let out = m.words(Some(vec!["x".to_string()]), Some(&last));
    assert_eq!(out, Some(vec!["x".to_string()]));
}

#[test]
fn maybe_consumes_a_token_when_one_remains() {
    let r = rule(
        vec![Input::Word("progs".to_string()), Input::Maybe],
        Output::End,
        RawOutput::Raw,
    );
    let m = r.try_rule(&toks(&["progs", "anything"])).expect("match");
    assert!(!m.ignore_last);
}

#[test]
fn word_mismatch_fails() {
    let r = rule(vec![Input::Word("progs".to_string())], Output::End, RawOutput::Raw);
    assert!(r.try_rule(&toks(&["other"])).is_none());
}

#[test]
fn too_many_tokens_fail() {
    let r = rule(vec![Input::Word("progs".to_string())], Output::End, RawOutput::Raw);
    assert!(r.try_rule(&toks(&["progs", "extra"])).is_none());
}

#[test]
fn leftover_word_atom_fails() {
    let r = rule(
        vec![Input::Word("progs".to_string()), Input::Word("go".to_string())],
        Output::End,
        RawOutput::Raw,
    );
    assert!(r.try_rule(&toks(&["progs"])).is_none());
}

#[test]
fn any_matches_exactly_one_arbitrary_token() {
    let r = rule(
        vec![Input::Word("progs".to_string()), Input::Any],
        Output::End,
        RawOutput::Raw,
    );
    assert!(r.try_rule(&toks(&["progs", "whatever"])).is_some());
    assert!(r.try_rule(&toks(&["progs"])).is_none());
    assert!(r.try_rule(&toks(&["progs", "a", "b"])).is_none());
}

#[test]
fn first_match_wins() {
    let specific = rule(
        vec![Input::Word("progs".to_string()), Input::Any, Input::Any],
        Output::End,
        RawOutput::Raw,
    );
    let general = rule(
        vec![Input::Word("progs".to_string()), Input::Var("prog".to_string())],
        Output::Sh("list".to_string()),
        RawOutput::NeedsFilter,
    );
    let ctx = Context { rule_book: vec![specific, general], shell_scripts: vec![] };
    let m = ctx.first_match(&toks(&["progs", "a", "b"])).expect("a rule matches");
    // The more specific first rule wins: its output is End, not Sh.
    assert!(matches!(m.rule.output, Output::End));
}

#[test]
fn first_match_none_when_no_rule_applies() {
    let only = rule(vec![Input::Word("progs".to_string())], Output::End, RawOutput::Raw);
    let ctx = Context { rule_book: vec![only], shell_scripts: vec![] };
    assert!(ctx.first_match(&toks(&["other"])).is_none());
}

#[test]
fn empty_pattern_matches_empty_tokens_only() {
    let r = rule(vec![], Output::End, RawOutput::Raw);
    assert!(r.try_rule(&toks(&[])).is_some());
    assert!(r.try_rule(&toks(&["a"])).is_none());
}
