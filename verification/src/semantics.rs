//! The mathematical model of the matching engine.
//!
//! A grammar is a sequence of rule descriptions (`RuleV`), each an ordered
//! sequence of instructions (`InstrV`).  The functions below form a
//! step-indexed interpreter over that model: they compute, for a given rule,
//! input and starting state, whether the rule matches, how far the cursor
//! moves, which lexeme is gathered, and how the diagnostic state (furthest
//! failure, commit point, reducer-invocation count) evolves.  The executable
//! scanner is verified against this interpreter.
//!
//! Reducers are caller-supplied code, so the model does not predict the
//! values they synthesize, only where and how often they are invoked (the
//! `reds` counter of `Diag`) and everything about cursor movement and
//! diagnostics, which reducer results cannot influence.

use vstd::prelude::*;

verus! {

/// Depth budget for nested rule invocations during one scan.  Rule graphs may
/// be cyclic, and a left-recursive grammar makes no progress while recursing,
/// so execution carries a budget that bounds the nesting depth; a scan that
/// exhausts it stops with a fatal error instead of overflowing the stack.
pub const SCAN_DEPTH: u64 = 1024;

/// The cursor-side state of one scanning attempt: position in the input (in
/// codepoints), the diagnostic index, and the lexeme gathered since the
/// current branch began.
///
/// `at` is the true position in the input.  `index` normally equals the
/// number of codepoints consumed, but the end-of-input matcher reports one
/// step of progress without consuming anything, so `index` may run ahead of
/// `at`; it saturates at `usize::MAX`.
#[verifier::ext_equal]
pub struct Pos {
    pub at: nat,
    pub index: nat,
    pub lexeme: Seq<char>,
}

/// The scan-wide diagnostic state: the active commit point (index and
/// message), the furthest-failure anchor, and the number of reducer
/// invocations made so far.
#[verifier::ext_equal]
pub struct Diag {
    pub commit_idx: nat,
    pub commit_msg: Seq<char>,
    pub anchor: nat,
    pub reds: nat,
}

/// The outcome of one attempt: a match (with the merged cursor state), an
/// ordinary failure open to backtracking, or a fatal error that aborts the
/// whole scan.
#[verifier::ext_equal]
pub enum Outcome {
    Matched { ctx: Pos, diag: Diag },
    Missed { diag: Diag },
    Aborted { idx: nat, msg: Seq<char>, diag: Diag },
}

impl Outcome {
    /// The diagnostic state carried by any outcome.
    pub open spec fn diag(self) -> Diag {
        match self {
            Outcome::Matched { diag, .. } => diag,
            Outcome::Missed { diag } => diag,
            Outcome::Aborted { diag, .. } => diag,
        }
    }
}

/// The model of one instruction.  Rules are referred to by their index in
/// the grammar.
#[verifier::ext_equal]
pub enum InstrV {
    /// Matches exactly one codepoint.
    AnyChar,
    /// Matches one codepoint not in the exclusion set.
    AnyCharExcept { exclude: Seq<char> },
    /// First pair whose `find` text matches at the cursor wins; the lexeme
    /// receives the pair's replacement text.
    Alter { pairs: Seq<(Seq<char>, Seq<char>)> },
    /// Ordered choice: the first rule that matches wins.
    AnyOf { rules: Seq<int> },
    /// Matches one codepoint in the inclusive range.
    CharIn { lo: char, hi: char },
    /// Matches only at the end of the input; zero consumption, one step.
    Eof,
    /// Matches the exact text.
    Literal { text: Seq<char> },
    /// Zero-width; moves the scan-wide commit point forward.
    NoBacktrack { msg: Seq<char> },
    /// Zero-width negative lookahead.
    Not { rule: int },
    /// Greedy repetition of a rule, `min..=max` times.
    Range { min: nat, max: nat, rule: int },
}

/// The model of one rule: its instruction sequence and its optional reducer
/// tag.
#[verifier::ext_equal]
pub struct RuleV {
    pub instrs: Seq<InstrV>,
    pub red: Option<u64>,
}

/// Every rule index that an instruction mentions lies inside the grammar.
pub open spec fn instr_wf(g: Seq<RuleV>, instr: InstrV) -> bool {
    match instr {
        InstrV::AnyOf { rules } => forall|j: int|
            0 <= j < rules.len() ==> 0 <= #[trigger] rules[j] < g.len(),
        InstrV::Not { rule } => 0 <= rule < g.len(),
        InstrV::Range { rule, .. } => 0 <= rule < g.len(),
        _ => true,
    }
}

/// A grammar is well formed when every cross-reference stays inside it.
pub open spec fn grammar_wf(g: Seq<RuleV>) -> bool {
    forall|r: int, i: int|
        0 <= r < g.len() && 0 <= i < g[r].instrs.len() ==> instr_wf(
            g,
            #[trigger] g[r].instrs[i],
        )
}

/// The greater of two naturals.
pub open spec fn nat_max(a: nat, b: nat) -> nat {
    if a >= b {
        a
    } else {
        b
    }
}

/// Addition that saturates at `usize::MAX`, mirroring how the executable
/// scanner advances its diagnostic index.
pub open spec fn sat_add(a: nat, b: nat) -> nat {
    if a + b > usize::MAX as nat {
        usize::MAX as nat
    } else {
        a + b
    }
}

/// The message reported for ordinary failures.
pub open spec fn default_msg() -> Seq<char> {
    "Syntax error."@
}

/// The message reported when the depth budget runs out.
pub open spec fn depth_msg() -> Seq<char> {
    "Rule recursion limit reached."@
}

/// The diagnostic state a scan begins with.
pub open spec fn init_diag() -> Diag {
    Diag { commit_idx: 0, commit_msg: default_msg(), anchor: 0, reds: 0 }
}

/// The cursor state a scan begins with.
pub open spec fn init_pos() -> Pos {
    Pos { at: 0, index: 0, lexeme: Seq::empty() }
}

/// A fresh branch of a parent attempt: same position, empty lexeme.
pub open spec fn blank(p: Pos) -> Pos {
    Pos { at: p.at, index: p.index, lexeme: Seq::empty() }
}

/// A child attempt merged back into its parent: the parent adopts the
/// child's position and appends the child's lexeme.
pub open spec fn joined(p: Pos, c: Pos) -> Pos {
    Pos { at: c.at, index: c.index, lexeme: p.lexeme + c.lexeme }
}

/// Records a failure at `pos` in the furthest-failure anchor.  Failures
/// inside a negative lookahead are expected and leave the anchor alone.
pub open spec fn noted(d: Diag, pos: nat, in_not: bool) -> Diag {
    if in_not {
        d
    } else {
        Diag { anchor: nat_max(d.anchor, pos), ..d }
    }
}

/// The fate of a rule-level failure whose attempt started at `start`:
/// backtracking past the active commit point escalates to a fatal error;
/// otherwise the failure stays ordinary.  Inside a negative lookahead no
/// escalation ever happens.
pub open spec fn rejected(start: nat, in_not: bool, d: Diag) -> Outcome {
    if !in_not && start < d.commit_idx {
        Outcome::Aborted { idx: d.commit_idx, msg: d.commit_msg, diag: d }
    } else {
        Outcome::Missed { diag: d }
    }
}

/// One codepoint, unconditionally.
pub open spec fn step_any_char(input: Seq<char>, p: Pos, in_not: bool, d: Diag) -> Outcome {
    if p.at < input.len() {
        Outcome::Matched {
            ctx: Pos {
                at: p.at + 1,
                index: sat_add(p.index, 1),
                lexeme: p.lexeme.push(input[p.at as int]),
            },
            diag: d,
        }
    } else {
        Outcome::Missed { diag: noted(d, p.index, in_not) }
    }
}

/// One codepoint outside the exclusion set.
pub open spec fn step_any_char_except(
    input: Seq<char>,
    exclude: Seq<char>,
    p: Pos,
    in_not: bool,
    d: Diag,
) -> Outcome {
    if p.at < input.len() && !exclude.contains(input[p.at as int]) {
        Outcome::Matched {
            ctx: Pos {
                at: p.at + 1,
                index: sat_add(p.index, 1),
                lexeme: p.lexeme.push(input[p.at as int]),
            },
            diag: d,
        }
    } else {
        Outcome::Missed { diag: noted(d, p.index, in_not) }
    }
}

/// One codepoint inside the inclusive range.
pub open spec fn step_char_in(
    input: Seq<char>,
    lo: char,
    hi: char,
    p: Pos,
    in_not: bool,
    d: Diag,
) -> Outcome {
    if p.at < input.len() && lo as u32 <= input[p.at as int] as u32 && input[p.at as int] as u32
        <= hi as u32 {
        Outcome::Matched {
            ctx: Pos {
                at: p.at + 1,
                index: sat_add(p.index, 1),
                lexeme: p.lexeme.push(input[p.at as int]),
            },
            diag: d,
        }
    } else {
        Outcome::Missed { diag: noted(d, p.index, in_not) }
    }
}

/// End of input: zero consumption, but one step of reported progress.
pub open spec fn step_eof(input: Seq<char>, p: Pos, in_not: bool, d: Diag) -> Outcome {
    if p.at == input.len() {
        Outcome::Matched {
            ctx: Pos { at: p.at, index: sat_add(p.index, 1), lexeme: p.lexeme },
            diag: d,
        }
    } else {
        Outcome::Missed { diag: noted(d, p.index, in_not) }
    }
}

/// Whether `text` occurs in `input` at position `at`.
pub open spec fn text_at(input: Seq<char>, at: nat, text: Seq<char>) -> bool {
    at + text.len() <= input.len() && input.subrange(
        at as int,
        at as int + text.len() as int,
    ) == text
}

/// The exact text, verbatim.
pub open spec fn step_literal(
    input: Seq<char>,
    text: Seq<char>,
    p: Pos,
    in_not: bool,
    d: Diag,
) -> Outcome {
    if text_at(input, p.at, text) {
        Outcome::Matched {
            ctx: Pos {
                at: p.at + text.len(),
                index: sat_add(p.index, text.len()),
                lexeme: p.lexeme + text,
            },
            diag: d,
        }
    } else {
        Outcome::Missed { diag: noted(d, p.index, in_not) }
    }
}

/// Substitution: the first pair whose `find` text matches at the cursor
/// consumes it and appends the pair's replacement to the lexeme.
pub open spec fn step_alter(
    input: Seq<char>,
    pairs: Seq<(Seq<char>, Seq<char>)>,
    p: Pos,
    in_not: bool,
    d: Diag,
) -> Outcome
    decreases pairs.len(),
{
    if pairs.len() == 0 {
        Outcome::Missed { diag: noted(d, p.index, in_not) }
    } else if text_at(input, p.at, pairs[0].0) {
        Outcome::Matched {
            ctx: Pos {
                at: p.at + pairs[0].0.len(),
                index: sat_add(p.index, pairs[0].0.len()),
                lexeme: p.lexeme + pairs[0].1,
            },
            diag: d,
        }
    } else {
        step_alter(input, pairs.drop_first(), p, in_not, d)
    }
}

/// The commit operator: zero-width, always matches, and moves the scan-wide
/// commit point forward (never backward).  Inside a negative lookahead it
/// leaves the commit point alone.
pub open spec fn step_commit(msg: Seq<char>, p: Pos, in_not: bool, d: Diag) -> Outcome {
    if !in_not && p.index >= d.commit_idx {
        Outcome::Matched {
            ctx: p,
            diag: Diag { commit_idx: p.index, commit_msg: msg, ..d },
        }
    } else {
        Outcome::Matched { ctx: p, diag: d }
    }
}

/// The result of a repetition: its outcome together with the number of
/// completed iterations and whether the zero-width short-circuit fired.
#[verifier::ext_equal]
pub struct RangeEnd {
    pub out: Outcome,
    pub count: nat,
    pub zero_width: bool,
}

/// One rule invocation: a fresh branch runs the rule's instructions; on
/// success the branch merges back into the parent and, if the rule carries a
/// reducer, exactly one reducer invocation is recorded.
pub open spec fn spec_run(
    g: Seq<RuleV>,
    input: Seq<char>,
    rule: int,
    p: Pos,
    in_not: bool,
    d: Diag,
    fuel: nat,
) -> Outcome
    decreases fuel, 3nat, 0nat,
{
    if fuel == 0 {
        Outcome::Aborted { idx: p.index, msg: depth_msg(), diag: d }
    } else {
        match spec_instrs(g, input, rule, 0, blank(p), p.index, in_not, d, fuel) {
            Outcome::Matched { ctx, diag } => {
                let d2 = if g[rule].red is Some {
                    Diag { reds: diag.reds + 1, ..diag }
                } else {
                    diag
                };
                Outcome::Matched { ctx: joined(p, ctx), diag: d2 }
            },
            o => o,
        }
    }
}

/// One instruction, executed in the branch context `cur`.
pub open spec fn step_of(
    g: Seq<RuleV>,
    input: Seq<char>,
    instr: InstrV,
    cur: Pos,
    in_not: bool,
    d: Diag,
    fuel: nat,
) -> Outcome
    decreases fuel, 2nat, 0nat,
{
    match instr {
        InstrV::AnyChar => step_any_char(input, cur, in_not, d),
        InstrV::AnyCharExcept { exclude } => step_any_char_except(input, exclude, cur, in_not, d),
        InstrV::Alter { pairs } => step_alter(input, pairs, cur, in_not, d),
        InstrV::CharIn { lo, hi } => step_char_in(input, lo, hi, cur, in_not, d),
        InstrV::Eof => step_eof(input, cur, in_not, d),
        InstrV::Literal { text } => step_literal(input, text, cur, in_not, d),
        InstrV::NoBacktrack { msg } => step_commit(msg, cur, in_not, d),
        InstrV::AnyOf { rules } => spec_any_of(g, input, rules, 0, cur, in_not, d, fuel),
        InstrV::Not { rule: r2 } => spec_not(g, input, r2, cur, in_not, d, fuel),
        InstrV::Range { min, max, rule: r2 } => spec_range(
            g,
            input,
            min,
            max,
            r2,
            0,
            blank(cur),
            cur,
            in_not,
            d,
            fuel,
        ).out,
    }
}

/// A rule's instruction sequence from position `i` on, threaded through the
/// branch context `cur`.  The first instruction that fails fails the whole
/// rule (checked against the commit point at the rule's start, `start`).
pub open spec fn spec_instrs(
    g: Seq<RuleV>,
    input: Seq<char>,
    rule: int,
    i: nat,
    cur: Pos,
    start: nat,
    in_not: bool,
    d: Diag,
    fuel: nat,
) -> Outcome
    decreases fuel, 2nat, g[rule].instrs.len() - i + 1,
{
    if i >= g[rule].instrs.len() {
        Outcome::Matched { ctx: cur, diag: d }
    } else {
        match step_of(g, input, g[rule].instrs[i as int], cur, in_not, d, fuel) {
            Outcome::Matched { ctx, diag } => spec_instrs(
                g,
                input,
                rule,
                i + 1,
                ctx,
                start,
                in_not,
                diag,
                fuel,
            ),
            Outcome::Missed { diag } => rejected(start, in_not, diag),
            o => o,
        }
    }
}

/// Ordered choice from candidate `j` on: every candidate starts from the
/// same parent position on a fresh branch; the first that matches merges and
/// the rest are never consulted.
pub open spec fn spec_any_of(
    g: Seq<RuleV>,
    input: Seq<char>,
    rules: Seq<int>,
    j: nat,
    p: Pos,
    in_not: bool,
    d: Diag,
    fuel: nat,
) -> Outcome
    decreases fuel, 1nat, rules.len() - j,
{
    if fuel == 0 {
        Outcome::Aborted { idx: p.index, msg: depth_msg(), diag: d }
    } else if j >= rules.len() {
        rejected(p.index, in_not, d)
    } else {
        match spec_run(g, input, rules[j as int], blank(p), in_not, d, (fuel - 1) as nat) {
            Outcome::Matched { ctx, diag } => Outcome::Matched { ctx: joined(p, ctx), diag },
            Outcome::Missed { diag } => spec_any_of(g, input, rules, j + 1, p, in_not, diag, fuel),
            o => o,
        }
    }
}

/// Negative lookahead: the inner rule runs on a fresh branch with the
/// negation flag forced on; its consumption and values are discarded and its
/// success and failure trade places.  Both outcomes are zero-width.
pub open spec fn spec_not(
    g: Seq<RuleV>,
    input: Seq<char>,
    rule: int,
    p: Pos,
    in_not: bool,
    d: Diag,
    fuel: nat,
) -> Outcome
    decreases fuel, 1nat, 0nat,
{
    if fuel == 0 {
        Outcome::Aborted { idx: p.index, msg: depth_msg(), diag: d }
    } else {
        match spec_run(g, input, rule, blank(p), true, d, (fuel - 1) as nat) {
            Outcome::Matched { diag, .. } => Outcome::Missed {
                diag: noted(diag, p.index, in_not),
            },
            Outcome::Missed { diag } => Outcome::Matched { ctx: p, diag },
            o => o,
        }
    }
}

/// Greedy repetition, already `count` iterations in, gathering into the
/// branch `child` of parent `p`.  An iteration that matches without
/// reporting progress ends the loop at once as a success (the zero-width
/// short-circuit, which skips the `min` check); otherwise iteration stops at
/// `max` matches or at the first failure, and the gathered count is then
/// held against `min..=max`.
pub open spec fn spec_range(
    g: Seq<RuleV>,
    input: Seq<char>,
    min: nat,
    max: nat,
    rule: int,
    count: nat,
    child: Pos,
    p: Pos,
    in_not: bool,
    d: Diag,
    fuel: nat,
) -> RangeEnd
    decreases fuel, 1nat, max - count,
{
    if fuel == 0 {
        RangeEnd {
            out: Outcome::Aborted { idx: p.index, msg: depth_msg(), diag: d },
            count,
            zero_width: false,
        }
    } else {
        match spec_run(g, input, rule, child, in_not, d, (fuel - 1) as nat) {
            Outcome::Matched { ctx, diag } => {
                if ctx.index == child.index {
                    RangeEnd {
                        out: Outcome::Matched { ctx: joined(p, ctx), diag },
                        count,
                        zero_width: true,
                    }
                } else if count + 1 >= max {
                    if min <= count + 1 && count + 1 <= max {
                        RangeEnd {
                            out: Outcome::Matched { ctx: joined(p, ctx), diag },
                            count: count + 1,
                            zero_width: false,
                        }
                    } else {
                        RangeEnd {
                            out: rejected(p.index, in_not, diag),
                            count: count + 1,
                            zero_width: false,
                        }
                    }
                } else {
                    spec_range(g, input, min, max, rule, count + 1, ctx, p, in_not, diag, fuel)
                }
            },
            Outcome::Missed { diag } => {
                if min <= count && count <= max {
                    RangeEnd {
                        out: Outcome::Matched { ctx: joined(p, child), diag },
                        count,
                        zero_width: false,
                    }
                } else {
                    RangeEnd { out: rejected(p.index, in_not, diag), count, zero_width: false }
                }
            },
            o => RangeEnd { out: o, count, zero_width: false },
        }
    }
}

/// What a whole scan of `rule` against `input` reports: success is owed only
/// when the match also consumed the entire input; otherwise the error
/// position and message are determined by the residual position, the
/// furthest-failure anchor, or the fatal error.
#[verifier::ext_equal]
pub enum ScanEnd {
    Done,
    Failed { idx: nat, msg: Seq<char> },
}

/// The verdict of a whole scan in the model.
pub open spec fn spec_scan(g: Seq<RuleV>, rule: int, input: Seq<char>) -> ScanEnd {
    match spec_run(g, input, rule, init_pos(), false, init_diag(), SCAN_DEPTH as nat) {
        Outcome::Matched { ctx, .. } => if ctx.at == input.len() {
            ScanEnd::Done
        } else {
            ScanEnd::Failed { idx: ctx.index, msg: default_msg() }
        },
        Outcome::Missed { diag } => ScanEnd::Failed { idx: diag.anchor, msg: default_msg() },
        Outcome::Aborted { idx, msg, .. } => ScanEnd::Failed { idx, msg },
    }
}

/// How many reducer invocations a whole scan of `rule` against `input`
/// makes, counting invocations inside attempts that backtracking later
/// discards (their side effects are not rolled back).
pub open spec fn spec_scan_reds(g: Seq<RuleV>, rule: int, input: Seq<char>) -> nat {
    spec_run(g, input, rule, init_pos(), false, init_diag(), SCAN_DEPTH as nat).diag().reds
}

/// Substitution never invokes a reducer.
pub proof fn lemma_reds_alter(
    input: Seq<char>,
    pairs: Seq<(Seq<char>, Seq<char>)>,
    p: Pos,
    in_not: bool,
    d: Diag,
)
    ensures
        step_alter(input, pairs, p, in_not, d).diag().reds == d.reds,
    decreases pairs.len(),
{
    if pairs.len() != 0 && !text_at(input, p.at, pairs[0].0) {
        lemma_reds_alter(input, pairs.drop_first(), p, in_not, d);
    }
}

/// The reducer-invocation count never decreases across a rule invocation.
pub proof fn lemma_reds_run(
    g: Seq<RuleV>,
    input: Seq<char>,
    rule: int,
    p: Pos,
    in_not: bool,
    d: Diag,
    fuel: nat,
)
    ensures
        spec_run(g, input, rule, p, in_not, d, fuel).diag().reds >= d.reds,
    decreases fuel, 3nat, 0nat,
{
    if fuel != 0 {
        lemma_reds_instrs(g, input, rule, 0, blank(p), p.index, in_not, d, fuel);
    }
}

/// The reducer-invocation count never decreases across an instruction
/// sequence.
pub proof fn lemma_reds_instrs(
    g: Seq<RuleV>,
    input: Seq<char>,
    rule: int,
    i: nat,
    cur: Pos,
    start: nat,
    in_not: bool,
    d: Diag,
    fuel: nat,
)
    ensures
        spec_instrs(g, input, rule, i, cur, start, in_not, d, fuel).diag().reds >= d.reds,
    decreases fuel, 2nat, g[rule].instrs.len() - i + 1,
{
    if i < g[rule].instrs.len() {
        lemma_reds_step(g, input, g[rule].instrs[i as int], cur, in_not, d, fuel);
        match step_of(g, input, g[rule].instrs[i as int], cur, in_not, d, fuel) {
            Outcome::Matched { ctx, diag } => lemma_reds_instrs(
                g,
                input,
                rule,
                i + 1,
                ctx,
                start,
                in_not,
                diag,
                fuel,
            ),
            _ => (),
        }
    }
}

/// The reducer-invocation count never decreases across one instruction.
pub proof fn lemma_reds_step(
    g: Seq<RuleV>,
    input: Seq<char>,
    instr: InstrV,
    cur: Pos,
    in_not: bool,
    d: Diag,
    fuel: nat,
)
    ensures
        step_of(g, input, instr, cur, in_not, d, fuel).diag().reds >= d.reds,
    decreases fuel, 2nat, 0nat,
{
    match instr {
        InstrV::Alter { pairs } => lemma_reds_alter(input, pairs, cur, in_not, d),
        InstrV::AnyOf { rules } => lemma_reds_any_of(g, input, rules, 0, cur, in_not, d, fuel),
        InstrV::Not { rule: r2 } => lemma_reds_not(g, input, r2, cur, in_not, d, fuel),
        InstrV::Range { min, max, rule: r2 } => lemma_reds_range(
            g,
            input,
            min,
            max,
            r2,
            0,
            blank(cur),
            cur,
            in_not,
            d,
            fuel,
        ),
        _ => (),
    }
}

/// The reducer-invocation count never decreases across an ordered choice.
pub proof fn lemma_reds_any_of(
    g: Seq<RuleV>,
    input: Seq<char>,
    rules: Seq<int>,
    j: nat,
    p: Pos,
    in_not: bool,
    d: Diag,
    fuel: nat,
)
    ensures
        spec_any_of(g, input, rules, j, p, in_not, d, fuel).diag().reds >= d.reds,
    decreases fuel, 1nat, rules.len() - j,
{
    if fuel != 0 && j < rules.len() {
        lemma_reds_run(g, input, rules[j as int], blank(p), in_not, d, (fuel - 1) as nat);
        match spec_run(g, input, rules[j as int], blank(p), in_not, d, (fuel - 1) as nat) {
            Outcome::Missed { diag } => lemma_reds_any_of(
                g,
                input,
                rules,
                j + 1,
                p,
                in_not,
                diag,
                fuel,
            ),
            _ => (),
        }
    }
}

/// The reducer-invocation count never decreases across a negative lookahead.
pub proof fn lemma_reds_not(
    g: Seq<RuleV>,
    input: Seq<char>,
    rule: int,
    p: Pos,
    in_not: bool,
    d: Diag,
    fuel: nat,
)
    ensures
        spec_not(g, input, rule, p, in_not, d, fuel).diag().reds >= d.reds,
    decreases fuel, 1nat, 0nat,
{
    if fuel != 0 {
        lemma_reds_run(g, input, rule, blank(p), true, d, (fuel - 1) as nat);
    }
}

/// The reducer-invocation count never decreases across a repetition.
pub proof fn lemma_reds_range(
    g: Seq<RuleV>,
    input: Seq<char>,
    min: nat,
    max: nat,
    rule: int,
    count: nat,
    child: Pos,
    p: Pos,
    in_not: bool,
    d: Diag,
    fuel: nat,
)
    ensures
        spec_range(g, input, min, max, rule, count, child, p, in_not, d, fuel).out.diag().reds
            >= d.reds,
    decreases fuel, 1nat, max - count,
{
    if fuel != 0 {
        lemma_reds_run(g, input, rule, child, in_not, d, (fuel - 1) as nat);
        match spec_run(g, input, rule, child, in_not, d, (fuel - 1) as nat) {
            Outcome::Matched { ctx, diag } => {
                if ctx.index != child.index && count + 1 < max {
                    lemma_reds_range(
                        g,
                        input,
                        min,
                        max,
                        rule,
                        count + 1,
                        ctx,
                        p,
                        in_not,
                        diag,
                        fuel,
                    );
                }
            },
            _ => (),
        }
    }
}

} // verus!
