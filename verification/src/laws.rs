//! The laws the engine obeys, stated over the model in [`crate::semantics`]
//! and proved once and for all.  The executable scanner is tied to that
//! model by the contracts in [`crate::engine`], so each law carries over to
//! every run of the engine.

use crate::diagnostics::RuleError;
use crate::engine::scan_post;
use crate::semantics::{
    blank, joined, spec_any_of, spec_instrs, spec_not, spec_range, spec_run, spec_scan_reds,
    step_any_char_except, Diag, Outcome, Pos, RuleV,
};
use vstd::prelude::*;

verus! {

/// For every exclusion set, the matcher for "any codepoint except these"
/// matches exactly when a current codepoint exists and is not in the set,
/// and then consumes exactly that one codepoint, appending it to the
/// lexeme.
pub proof fn lemma_any_char_except(
    input: Seq<char>,
    exclude: Seq<char>,
    p: Pos,
    in_not: bool,
    d: Diag,
)
    requires
        p.at <= input.len(),
    ensures
        step_any_char_except(input, exclude, p, in_not, d) is Matched <==> (p.at < input.len()
            && !exclude.contains(input[p.at as int])),
        step_any_char_except(input, exclude, p, in_not, d) matches Outcome::Matched {
            ctx,
            ..
        } ==> ctx.at == p.at + 1 && ctx.lexeme == p.lexeme.push(input[p.at as int]),
{
}

/// Repetition bound law: when a repetition succeeds, the number of
/// iterations it performed lies within `min..=max` — except when the
/// zero-width short-circuit ended it, which accepts the iterations gathered
/// so far without holding them against `min`.
pub proof fn lemma_repetition_bounds(
    g: Seq<RuleV>,
    input: Seq<char>,
    min: nat,
    max: nat,
    rule: int,
    count: nat,
    child: Pos,
    p: Pos,
    in_not: bool,
    d: Diag,
    fuel: nat,
)
    ensures
        ({
            let e = spec_range(g, input, min, max, rule, count, child, p, in_not, d, fuel);
            e.out is Matched ==> e.count >= count && (e.zero_width || (min <= e.count
                && e.count <= max))
        }),
    decreases fuel, max - count,
{
    if fuel != 0 {
        match spec_run(g, input, rule, child, in_not, d, (fuel - 1) as nat) {
            Outcome::Matched { ctx, diag } => {
                if ctx.index != child.index && count + 1 < max {
                    lemma_repetition_bounds(
                        g,
                        input,
                        min,
                        max,
                        rule,
                        count + 1,
                        ctx,
                        p,
                        in_not,
                        diag,
                        fuel,
                    );
                }
            },
            _ => (),
        }
    }
}

/// Ordered-choice law: an alternation commits to its first matching
/// candidate.  When the first candidate matches, the alternation's outcome
/// is exactly that candidate's match merged into the parent — the later
/// candidates are never consulted, even if one of them would also match and
/// consume more.
pub proof fn lemma_ordered_choice(
    g: Seq<RuleV>,
    input: Seq<char>,
    rules: Seq<int>,
    p: Pos,
    in_not: bool,
    d: Diag,
    fuel: nat,
)
    requires
        fuel >= 1,
        rules.len() > 0,
        spec_run(g, input, rules[0], blank(p), in_not, d, (fuel - 1) as nat) is Matched,
    ensures
        ({
            let first = spec_run(g, input, rules[0], blank(p), in_not, d, (fuel - 1) as nat);
            spec_any_of(g, input, rules, 0, p, in_not, d, fuel) == Outcome::Matched {
                ctx: joined(p, first->Matched_ctx),
                diag: first.diag(),
            }
        }),
{
}

/// Negative lookahead is zero-width: when it succeeds, the surrounding
/// attempt's cursor, progress index and lexeme are exactly what they were
/// before, whatever the inner rule consumed while being tried.  (When it
/// fails, the engine hands the caller's context back untouched, so nothing
/// changes on that side either.)
pub proof fn lemma_negation_zero_width(
    g: Seq<RuleV>,
    input: Seq<char>,
    rule: int,
    p: Pos,
    in_not: bool,
    d: Diag,
    fuel: nat,
)
    requires
        fuel >= 1,
    ensures
        ({
            let o = spec_not(g, input, rule, p, in_not, d, fuel);
            o matches Outcome::Matched { ctx, .. } ==> ctx == p
        }),
{
}

/// Reducer invocation count law: a successful completion of a rule that
/// carries a reducer accounts for exactly one reducer invocation beyond
/// those its own body made; a rule without a reducer adds none, and a
/// failed or aborted attempt adds none of its own.  Invocations made inside
/// an attempt's body are kept even when the attempt fails: reducer side
/// effects are never rolled back by backtracking.
pub proof fn lemma_reducer_once(
    g: Seq<RuleV>,
    input: Seq<char>,
    rule: int,
    p: Pos,
    in_not: bool,
    d: Diag,
    fuel: nat,
)
    requires
        fuel >= 1,
    ensures
        ({
            let body = spec_instrs(g, input, rule, 0, blank(p), p.index, in_not, d, fuel);
            let o = spec_run(g, input, rule, p, in_not, d, fuel);
            &&& (o is Matched && g[rule].red is Some ==> o.diag().reds == body.diag().reds + 1)
            &&& (o is Matched && g[rule].red is None ==> o.diag().reds == body.diag().reds)
            &&& (!(o is Matched) ==> o.diag() == body.diag())
        }),
{
}

/// Idempotence law: the model's verdict is a function of the grammar, the
/// root rule and the input alone, so two scans of the same frozen rule
/// graph over the same input are interchangeable.  For grammars whose scan
/// invokes no reducer, any two results the engine may return are equal in
/// every observable part.  (Stateful reducers are the one excluded source
/// of variation: the engine threads the caller's reducer mutably and never
/// resets it between scans.)
pub proof fn lemma_scan_repeatable<T>(
    r1: Result<Vec<T>, RuleError>,
    r2: Result<Vec<T>, RuleError>,
    g: Seq<RuleV>,
    rule: int,
    input: Seq<char>,
)
    requires
        scan_post(r1, g, rule, input),
        scan_post(r2, g, rule, input),
        spec_scan_reds(g, rule, input) == 0,
    ensures
        r1 is Ok <==> r2 is Ok,
        r1 matches Ok(v1) ==> (r2 matches Ok(v2) && v1@ == v2@),
        r1 matches Err(e1) ==> (r2 matches Err(e2) && e1.line == e2.line && e1.col == e2.col
            && e1.msg@ == e2.msg@),
{
}

} // verus!
