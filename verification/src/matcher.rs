//! The rule matcher: walks a rule's pattern and the user's tokens in
//! lock-step and, on success, captures the tokens bound by `Var` atoms.

use vstd::prelude::*;
use vstd::map::*;
use vstd::pervasive::VecAdditionalExecFns;
use crate::{Context, ContextfullRule, Input, InputV, StaticRule};
use crate::{map_of, seq_views};

verus! {

/// One step of the matcher, over the unconsumed pattern atoms `pats`, the
/// unconsumed tokens `toks`, and the bindings made so far. The result is
/// `None` when the rule does not apply, otherwise the final bindings and
/// whether the last unconsumed atom was a `Maybe`.
pub open spec fn match_step(
    pats: Seq<InputV>,
    toks: Seq<Seq<char>>,
    vars: Map<Seq<char>, Seq<char>>,
) -> Option<(Map<Seq<char>, Seq<char>>, bool)>
    decreases toks.len(),
{
    if toks.len() == 0 {
        if pats.len() == 0 {
            Some((vars, false))
        } else if pats[0] is Maybe {
            Some((vars, true))
        } else if pats[0] is Rest {
            Some((vars, false))
        } else {
            None
        }
    } else if pats.len() == 0 {
        None
    } else {
        match pats[0] {
            InputV::Any => match_step(pats.skip(1), toks.skip(1), vars),
            InputV::Maybe => match_step(pats.skip(1), toks.skip(1), vars),
            InputV::Word(w) => if w == toks[0] {
                match_step(pats.skip(1), toks.skip(1), vars)
            } else {
                None
            },
            InputV::Var(n) => match_step(pats.skip(1), toks.skip(1), vars.insert(n, toks[0])),
            InputV::Rest => match_step(pats, toks.skip(1), vars),
        }
    }
}

/// What matching a whole rule pattern against the user's tokens yields.
pub open spec fn try_rule_spec(pats: Seq<InputV>, toks: Seq<Seq<char>>) -> Option<
    (Map<Seq<char>, Seq<char>>, bool),
> {
    match_step(pats, toks, Map::empty())
}

/// No two entries of the list carry the same name.
pub open spec fn distinct_keys(ps: Seq<(String, String)>) -> bool {
    forall|i: int, j: int| 0 <= i < j < ps.len() ==> ps[i].0@ != ps[j].0@
}

proof fn lemma_map_of_update(ps: Seq<(String, String)>, i: int, p: (String, String))
    requires
        distinct_keys(ps),
        0 <= i < ps.len(),
        p.0@ == ps[i].0@,
    ensures
        map_of(ps.update(i, p)) == map_of(ps).insert(p.0@, p.1@),
    decreases ps.len(),
{
    let upd = ps.update(i, p);
    if i == ps.len() - 1 {
        assert(upd.drop_last() =~= ps.drop_last());
        assert(map_of(ps.drop_last()).insert(ps.last().0@, ps.last().1@).insert(p.0@, p.1@)
            =~= map_of(ps.drop_last()).insert(p.0@, p.1@));
    } else {
        lemma_map_of_update(ps.drop_last(), i, p);
        assert(upd.drop_last() =~= ps.drop_last().update(i, p));
        assert(map_of(ps.drop_last()).insert(p.0@, p.1@).insert(ps.last().0@, ps.last().1@)
            =~= map_of(ps.drop_last()).insert(ps.last().0@, ps.last().1@).insert(p.0@, p.1@));
    }
}

/// Record `value` under `name`: an existing entry for the name is
/// overwritten in place, otherwise the pair is appended, so names stay
/// unique and the association gains exactly this one binding.
fn bind(vars: &mut Vec<(String, String)>, name: &String, value: &String)
    requires
        distinct_keys(old(vars)@),
    ensures
        distinct_keys(final(vars)@),
        map_of(final(vars)@) == map_of(old(vars)@).insert(name@, value@),
{
    let n = vars.len();
    let mut i: usize = 0;
    while i < n
        invariant
            i <= n,
            n == vars@.len(),
            vars@ == old(vars)@,
            distinct_keys(vars@),
            forall|j: int| 0 <= j < i ==> vars@[j].0@ != name@,
        decreases n - i,
    {
        if vars[i].0 == *name {
            let p = (name.clone(), value.clone());
            proof {
                lemma_map_of_update(vars@, i as int, p);
                let upd = vars@.update(i as int, p);
                assert(forall|a: int| 0 <= a < upd.len() ==> upd[a].0@ == vars@[a].0@);
            }
            vars.set(i, p);
            return;
        }
        i += 1;
    }
    let p = (name.clone(), value.clone());
    proof {
        assert(vars@.push(p).drop_last() =~= vars@);
    }
    vars.push(p);
}

impl StaticRule {
    /// Whether this rule applies to the tokens the user has typed, and if
    /// so, the captured variable bindings and the `ignore_last` flag. The
    /// outcome is exactly [`try_rule_spec`] of the rule's pattern and the
    /// tokens: matching is total and deterministic.
    pub fn try_rule<'r>(&'r self, user_inputs: &[String]) -> (r: Option<ContextfullRule<'r>>)
        ensures
            match try_rule_spec(self@.inputs, seq_views(user_inputs@)) {
                None => r is None,
                Some(p) => {
                    &&& r matches Some(c)
                    &&& c.rule == self
                    &&& map_of(c.variables@) == p.0
                    &&& distinct_keys(c.variables@)
                    &&& c.ignore_last == p.1
                },
            },
    {
        let ghost pats = self@.inputs;
        let ghost toks = seq_views(user_inputs@);
        let np = self.inputs.len();
        let nt = user_inputs.len();
        let mut vars: Vec<(String, String)> = Vec::new();
        let mut pi: usize = 0;
        let mut ti: usize = 0;
        proof {
            assert(pats.skip(0) =~= pats);
            assert(toks.skip(0) =~= toks);
        }
        while ti < nt
            invariant
                pi <= np,
                ti <= nt,
                np == pats.len(),
                nt == toks.len(),
                pats == self@.inputs,
                toks == seq_views(user_inputs@),
                np == self.inputs@.len(),
                nt == user_inputs@.len(),
                distinct_keys(vars@),
                match_step(pats, toks, Map::empty()) == match_step(
                    pats.skip(pi as int),
                    toks.skip(ti as int),
                    map_of(vars@),
                ),
            decreases nt - ti,
        {
            if pi == np {
                return None;
            }
            proof {
                assert(pats.skip(pi as int)[0] == pats[pi as int]);
                assert(toks.skip(ti as int)[0] == toks[ti as int]);
                assert(pats.skip(pi as int).skip(1) =~= pats.skip(pi + 1));
                assert(toks.skip(ti as int).skip(1) =~= toks.skip(ti + 1));
            }
            match &self.inputs[pi] {
                Input::Any | Input::Maybe => {
                    pi += 1;
                },
                Input::Word(txt) => {
                    if !(*txt == user_inputs[ti]) {
                        return None;
                    }
                    pi += 1;
                },
                Input::Var(var_name) => {
                    bind(&mut vars, var_name, &user_inputs[ti]);
                    pi += 1;
                },
                Input::Rest => {},
            }
            ti += 1;
        }
        proof {
            assert(toks.skip(ti as int) =~= Seq::<Seq<char>>::empty());
        }
        if pi == np {
            Some(ContextfullRule { rule: self, variables: vars, ignore_last: false })
        } else {
            proof {
                assert(pats.skip(pi as int)[0] == pats[pi as int]);
            }
            match &self.inputs[pi] {
                Input::Maybe => Some(
                    ContextfullRule { rule: self, variables: vars, ignore_last: true },
                ),
                Input::Rest => Some(
                    ContextfullRule { rule: self, variables: vars, ignore_last: false },
                ),
                _ => None,
            }
        }
    }
}

impl Context {
    /// The first rule of the book, in declared order, that applies to the
    /// user's tokens, with its captured bindings; `None` when no rule
    /// applies. Rule order is part of the contract: an earlier rule that
    /// matches shadows every later one.
    pub fn first_match<'r>(&'r self, user_inputs: &[String]) -> (r: Option<ContextfullRule<'r>>)
        ensures
            r is None ==> forall|i: int|
                0 <= i < self.rule_book@.len() ==> try_rule_spec(
                    #[trigger] self.rule_book@[i]@.inputs,
                    seq_views(user_inputs@),
                ) is None,
            r matches Some(c) ==> exists|i: int|
                {
                    &&& 0 <= i < self.rule_book@.len()
                    &&& (forall|j: int|
                        0 <= j < i ==> try_rule_spec(
                            #[trigger] self.rule_book@[j]@.inputs,
                            seq_views(user_inputs@),
                        ) is None)
                    &&& try_rule_spec(#[trigger] self.rule_book@[i]@.inputs, seq_views(user_inputs@))
                        matches Some(p)
                    &&& c.rule == self.rule_book@[i]
                    &&& map_of(c.variables@) == p.0
                    &&& distinct_keys(c.variables@)
                    &&& c.ignore_last == p.1
                },
    {
        let n = self.rule_book.len();
        let mut i: usize = 0;
        while i < n
            invariant
                i <= n,
                n == self.rule_book@.len(),
                forall|j: int|
                    0 <= j < i ==> try_rule_spec(
                        #[trigger] self.rule_book@[j]@.inputs,
                        seq_views(user_inputs@),
                    ) is None,
            decreases n - i,
        {
            let attempt = self.rule_book[i].try_rule(user_inputs);
            if attempt.is_some() {
                return attempt;
            }
            i += 1;
        }
        None
    }
}

/// Matching is deterministic: the rule and the tokens fix the captured
/// bindings and the `ignore_last` flag; re-running a match can never
/// produce a different outcome.
pub proof fn lemma_match_deterministic(
    pats: Seq<InputV>,
    toks: Seq<Seq<char>>,
    m1: Map<Seq<char>, Seq<char>>,
    il1: bool,
    m2: Map<Seq<char>, Seq<char>>,
    il2: bool,
)
    requires
        try_rule_spec(pats, toks) == Some((m1, il1)),
        try_rule_spec(pats, toks) == Some((m2, il2)),
    ensures
        m1 == m2,
        il1 == il2,
{
}

/// Once the matcher stands on a `Rest` atom it accepts any number of
/// remaining tokens, zero included, without further bindings.
pub proof fn lemma_rest_is_sink(
    pats: Seq<InputV>,
    toks: Seq<Seq<char>>,
    vars: Map<Seq<char>, Seq<char>>,
)
    requires
        pats.len() > 0,
        pats[0] is Rest,
    ensures
        match_step(pats, toks, vars) == Some((vars, false)),
    decreases toks.len(),
{
    if toks.len() > 0 {
        lemma_rest_is_sink(pats, toks.skip(1), vars);
    }
}

/// A rule of the shape `[Word(w), Rest]` matches `w` followed by any
/// trailing tokens, including none at all, and captures nothing.
pub proof fn lemma_rest_matches_any_tail(w: Seq<char>, extra: Seq<Seq<char>>)
    ensures
        try_rule_spec(seq![InputV::Word(w), InputV::Rest], seq![w] + extra) == Some(
            (Map::<Seq<char>, Seq<char>>::empty(), false),
        ),
{
    let pats = seq![InputV::Word(w), InputV::Rest];
    let toks = seq![w] + extra;
    assert(toks[0] == w);
    assert(toks.skip(1) =~= extra);
    assert(pats.skip(1) =~= seq![InputV::Rest]);
    lemma_rest_is_sink(pats.skip(1), extra, Map::<Seq<char>, Seq<char>>::empty());
}

/// A `Var` atom binds exactly the token standing at its position: the
/// rule `[Word(w), Var(name)]` against `[w, t]` captures `name = t` and
/// nothing else.
pub proof fn lemma_var_binds_token(w: Seq<char>, name: Seq<char>, t: Seq<char>)
    ensures
        try_rule_spec(seq![InputV::Word(w), InputV::Var(name)], seq![w, t]) == Some(
            (map![name => t], false),
        ),
{
    let pats = seq![InputV::Word(w), InputV::Var(name)];
    let toks = seq![w, t];
    let empty = Map::<Seq<char>, Seq<char>>::empty();
    assert(toks[0] == w);
    assert(pats.skip(1) =~= seq![InputV::Var(name)]);
    assert(toks.skip(1) =~= seq![t]);
    assert(seq![t].skip(1) =~= Seq::<Seq<char>>::empty());
    assert(pats.skip(1).skip(1) =~= Seq::<InputV>::empty());
    assert(match_step(pats.skip(1), toks.skip(1), empty) == match_step(
        pats.skip(1).skip(1),
        seq![t].skip(1),
        empty.insert(name, t),
    ));
    assert(match_step(pats, toks, empty) == Some((empty.insert(name, t), false)));
    assert(empty.insert(name, t) =~= map![name => t]);
}

/// A pattern atom that consumes exactly one token.
pub open spec fn consumes_one(a: InputV) -> bool {
    a is Word || a is Any || a is Var
}

/// Whether a one-token atom accepts the token standing opposite it.
pub open spec fn accepts(a: InputV, t: Seq<char>) -> bool {
    match a {
        InputV::Word(w) => w == t,
        InputV::Any => true,
        InputV::Var(_) => true,
        _ => false,
    }
}

proof fn lemma_maybe_one_short_step(
    pats: Seq<InputV>,
    toks: Seq<Seq<char>>,
    vars: Map<Seq<char>, Seq<char>>,
)
    requires
        pats.len() == toks.len() + 1,
        pats.last() is Maybe,
        forall|j: int|
            0 <= j < toks.len() ==> consumes_one(#[trigger] pats[j]) && accepts(pats[j], toks[j]),
    ensures
        match_step(pats, toks, vars) matches Some(p) && p.1 == true,
    decreases toks.len(),
{
    if toks.len() == 0 {
        assert(pats[0] is Maybe);
    } else {
        assert(consumes_one(pats[0]) && accepts(pats[0], toks[0]));
        let ptail = pats.skip(1);
        let ttail = toks.skip(1);
        assert(ptail.last() == pats.last());
        assert(forall|j: int|
            0 <= j < ttail.len() ==> consumes_one(#[trigger] ptail[j]) && accepts(
                ptail[j],
                ttail[j],
            ));
        match pats[0] {
            InputV::Word(w) => lemma_maybe_one_short_step(ptail, ttail, vars),
            InputV::Any => lemma_maybe_one_short_step(ptail, ttail, vars),
            InputV::Var(n) => lemma_maybe_one_short_step(ptail, ttail, vars.insert(n, toks[0])),
            _ => {},
        }
    }
}

/// A rule whose final atom is `Maybe` matches tokens exactly one short of
/// the full pattern, provided each earlier atom accepts its token, and the
/// match reports `ignore_last`: the user still stands inside the optional
/// slot, so candidates must not be filtered by the trailing token.
pub proof fn lemma_maybe_one_short(pats: Seq<InputV>, toks: Seq<Seq<char>>)
    requires
        pats.len() == toks.len() + 1,
        pats.last() is Maybe,
        forall|j: int|
            0 <= j < toks.len() ==> consumes_one(#[trigger] pats[j]) && accepts(pats[j], toks[j]),
    ensures
        try_rule_spec(pats, toks) matches Some(p) && p.1 == true,
{
    lemma_maybe_one_short_step(pats, toks, Map::empty());
}

} // verus!

