//! The executable engine: the rule arena and its builders, the per-attempt
//! scanning context, and the recursive scanner.
//!
//! Every scanner function is verified against the interpreter in
//! [`crate::semantics`]: its result agrees with the model exactly, except
//! that a reducer returning an error aborts the scan early (the model cannot
//! predict caller-supplied reducers, only count their invocations).

use crate::diagnostics::RuleError;
use crate::semantics::{
    blank, grammar_wf, init_diag, init_pos, instr_wf, joined, lemma_reds_any_of,
    lemma_reds_instrs, lemma_reds_range, lemma_reds_run, noted, rejected, sat_add, spec_any_of,
    spec_instrs, spec_not, spec_range, spec_run, spec_scan, spec_scan_reds, step_alter,
    step_any_char, step_any_char_except, step_char_in, step_commit, step_eof, step_literal,
    step_of, text_at, Diag, InstrV, Outcome, Pos, RuleV, ScanEnd, SCAN_DEPTH,
};
use vstd::prelude::*;

verus! {

/// A value-synthesizing step supplied by the caller.  A rule built with a
/// reducer tag invokes `reduce` exactly once each time the rule as a whole
/// matches, handing it the tag, the values synthesized by the rule's
/// children, and the text the rule consumed; the returned values replace the
/// children's.  Returning an error aborts the whole scan with that message
/// at the rule's starting position.
///
/// The engine threads the one `Reducer` value mutably through the entire
/// scan, so it may carry caller state; such side effects are not rolled back
/// when backtracking later discards the enclosing match.
pub trait Reducer<T> {
    /// Turn the values and lexeme of one successful rule match into the
    /// values exposed to the rule's caller.
    fn reduce(&mut self, tag: u64, branches: Vec<T>, lexeme: &Vec<char>) -> Result<Vec<T>, String>;
}

/// One instruction of a rule, as stored in the arena.  Cross-references are
/// indices into the grammar's rule list.
pub(crate) enum Instr {
    AnyChar,
    AnyCharExcept(Vec<char>),
    Alter(Vec<(Vec<char>, Vec<char>)>),
    AnyOf(Vec<usize>),
    CharIn(char, char),
    Eof,
    Literal(Vec<char>),
    NoBacktrack(String),
    Not(usize),
    Range(u64, u64, usize),
}

/// One arena slot: a rule's instruction sequence and its optional reducer
/// tag.
pub(crate) struct RuleData {
    pub(crate) instrs: Vec<Instr>,
    pub(crate) red: Option<u64>,
}

/// The arena that owns every rule of one grammar.  Rules refer to each other
/// by index, so the graph may contain cycles; the arena only ever grows, and
/// scanning treats it as read-only.
pub struct Grammar {
    pub(crate) rules: Vec<RuleData>,
}

/// The model of one stored instruction.
pub(crate) open spec fn instr_view(instr: Instr) -> InstrV {
    match instr {
        Instr::AnyChar => InstrV::AnyChar,
        Instr::AnyCharExcept(ex) => InstrV::AnyCharExcept { exclude: ex@ },
        Instr::Alter(pairs) => InstrV::Alter {
            pairs: pairs@.map_values(|p: (Vec<char>, Vec<char>)| (p.0@, p.1@)),
        },
        Instr::AnyOf(ids) => InstrV::AnyOf { rules: ids@.map_values(|r: usize| r as int) },
        Instr::CharIn(lo, hi) => InstrV::CharIn { lo, hi },
        Instr::Eof => InstrV::Eof,
        Instr::Literal(text) => InstrV::Literal { text: text@ },
        Instr::NoBacktrack(msg) => InstrV::NoBacktrack { msg: msg@ },
        Instr::Not(r) => InstrV::Not { rule: r as int },
        Instr::Range(min, max, r) => InstrV::Range {
            min: min as nat,
            max: max as nat,
            rule: r as int,
        },
    }
}

/// The model of one arena slot.
pub(crate) open spec fn rule_view(rd: RuleData) -> RuleV {
    RuleV { instrs: rd.instrs@.map_values(|i: Instr| instr_view(i)), red: rd.red }
}

impl View for Grammar {
    type V = Seq<RuleV>;

    closed spec fn view(&self) -> Seq<RuleV> {
        self.rules@.map_values(|rd: RuleData| rule_view(rd))
    }
}

impl Grammar {
    /// Every rule index mentioned by any instruction lies inside the arena.
    pub open spec fn wf(&self) -> bool {
        grammar_wf(self@)
    }

    /// An empty grammar.
    pub fn new() -> (g: Grammar)
        ensures
            g@ == Seq::<RuleV>::empty(),
            g.wf(),
    {
        let g = Grammar { rules: Vec::new() };
        proof {
            assert(g@ =~= Seq::<RuleV>::empty());
        }
        g
    }
}

/// A handle to one rule of a [`Grammar`].  Handles are cheap to copy; all
/// building and scanning goes through the grammar they belong to.
#[derive(Clone, Copy)]
pub struct Rule {
    /// The rule's index in its grammar.
    pub id: usize,
}

impl Rule {
    /// The index of this rule in its grammar.
    pub open spec fn idx(&self) -> int {
        self.id as int
    }

    /// Appends a fresh rule to the grammar and returns its handle.  A rule
    /// built with a reducer tag invokes the scan's [`Reducer`] with that tag
    /// once per successful match of the rule.
    pub fn new(g: &mut Grammar, reducer: Option<u64>) -> (r: Rule)
        requires
            old(g).wf(),
        ensures
            final(g).wf(),
            final(g)@ == old(g)@.push(RuleV { instrs: Seq::empty(), red: reducer }),
            r.idx() == old(g)@.len(),
    {
        let id = g.rules.len();
        g.rules.push(RuleData { instrs: Vec::new(), red: reducer });
        proof {
            assert(g@ =~~= old(g)@.push(RuleV { instrs: Seq::empty(), red: reducer }));
            assert forall|r: int, i: int|
                0 <= r < g@.len() && 0 <= i < g@[r].instrs.len() implies instr_wf(
                g@,
                #[trigger] g@[r].instrs[i],
            ) by {
                if r < old(g)@.len() {
                    assert(instr_wf(old(g)@, g@[r].instrs[i]));
                    assert(old(g)@.len() <= g@.len());
                }
            }
        }
        Rule { id }
    }
}

/// What one rule handle's grammar looks like after appending one
/// instruction to that rule.
pub open spec fn appended(g: Seq<RuleV>, rule: int, instr: InstrV) -> Seq<RuleV> {
    g.update(rule, RuleV { instrs: g[rule].instrs.push(instr), red: g[rule].red })
}

impl Grammar {
    /// Appends one instruction to the rule at `id`, preserving
    /// well-formedness.
    fn push_instr(&mut self, id: usize, instr: Instr) -> (r: Rule)
        requires
            old(self).wf(),
            id < old(self)@.len(),
            instr_wf(old(self)@, instr_view(instr)),
        ensures
            final(self).wf(),
            final(self)@ == appended(old(self)@, id as int, instr_view(instr)),
            r.idx() == id,
    {
        let ghost iv = instr_view(instr);
        let slot = &mut self.rules[id];
        slot.instrs.push(instr);
        proof {
            assert(self@ =~~= appended(old(self)@, id as int, iv));
            assert(self@.len() == old(self)@.len());
            assert forall|r: int, i: int|
                0 <= r < self@.len() && 0 <= i < self@[r].instrs.len() implies instr_wf(
                self@,
                #[trigger] self@[r].instrs[i],
            ) by {
                if r == id as int && i == self@[r].instrs.len() - 1 {
                    assert(self@[r].instrs[i] == iv);
                    assert(instr_wf(old(self)@, iv));
                } else {
                    assert(self@[r].instrs[i] == old(self)@[r].instrs[i]);
                    assert(instr_wf(old(self)@, old(self)@[r].instrs[i]));
                }
            }
        }
        Rule { id }
    }
}

/// The codepoints of a text, in order.
fn chars_of(s: &str) -> (v: Vec<char>)
    ensures
        v@ == s@,
{
    let n = s.unicode_len();
    let mut v: Vec<char> = Vec::new();
    let mut i: usize = 0;
    while i < n
        invariant
            i <= n,
            n == s@.len(),
            v@ == s@.subrange(0, i as int),
        decreases n - i,
    {
        v.push(s.get_char(i));
        proof {
            assert(v@ =~= s@.subrange(0, i + 1));
        }
        i = i + 1;
    }
    proof {
        assert(v@ =~= s@);
    }
    v
}

/// Whether a character occurs in a list.
fn contains_char(list: &Vec<char>, c: char) -> (b: bool)
    ensures
        b == list@.contains(c),
{
    let mut i: usize = 0;
    while i < list.len()
        invariant
            i <= list@.len(),
            forall|j: int| 0 <= j < i ==> list@[j] != c,
        decreases list@.len() - i,
    {
        if list[i] == c {
            return true;
        }
        i = i + 1;
    }
    false
}

/// Whether `text` occurs in `input` at position `at`.
fn match_at(input: &Vec<char>, at: usize, text: &Vec<char>) -> (b: bool)
    requires
        at <= input@.len(),
    ensures
        b == text_at(input@, at as nat, text@),
{
    if text.len() > input.len() - at {
        return false;
    }
    let n = input.len();
    let mut k: usize = 0;
    while k < text.len()
        invariant
            k <= text@.len(),
            at + text@.len() <= input@.len(),
            input@.len() == n,
            forall|j: int| 0 <= j < k ==> input@[at + j] == text@[j],
        decreases text@.len() - k,
    {
        if input[at + k] != text[k] {
            assert(input@.subrange(at as int, at + text@.len())[k as int] != text@[k as int]);
            return false;
        }
        k = k + 1;
    }
    proof {
        assert(input@.subrange(at as int, at + text@.len()) =~= text@);
    }
    true
}

/// Appends the characters of `src` to `dst`.
fn extend_chars(dst: &mut Vec<char>, src: &Vec<char>)
    ensures
        final(dst)@ == old(dst)@ + src@,
{
    let mut k: usize = 0;
    while k < src.len()
        invariant
            k <= src@.len(),
            dst@ == old(dst)@ + src@.subrange(0, k as int),
        decreases src@.len() - k,
    {
        dst.push(src[k]);
        proof {
            assert(dst@ =~= old(dst)@ + src@.subrange(0, k + 1));
        }
        k = k + 1;
    }
    proof {
        assert(dst@ =~= old(dst)@ + src@);
    }
}

/// Adds `b` to `a`, stopping at `usize::MAX`.
fn sat_add_usize(a: usize, b: usize) -> (r: usize)
    ensures
        r as nat == sat_add(a as nat, b as nat),
{
    if a <= usize::MAX - b {
        a + b
    } else {
        usize::MAX
    }
}

impl Rule {
    /// Appends a matcher for exactly one codepoint.
    pub fn any_char(self, g: &mut Grammar) -> (r: Rule)
        requires
            old(g).wf(),
            self.idx() < old(g)@.len(),
        ensures
            final(g).wf(),
            final(g)@ == appended(old(g)@, self.idx(), InstrV::AnyChar),
            r == self,
    {
        g.push_instr(self.id, Instr::AnyChar);
        self
    }

    /// Appends a matcher for one codepoint outside `exclude`.  The exclusion
    /// set must not be empty: an empty set is a construction error, not a
    /// scan-time failure.
    pub fn any_char_except(self, g: &mut Grammar, exclude: Vec<char>) -> (r: Rule)
        requires
            old(g).wf(),
            self.idx() < old(g)@.len(),
            exclude@.len() > 0,
        ensures
            final(g).wf(),
            final(g)@ == appended(
                old(g)@,
                self.idx(),
                InstrV::AnyCharExcept { exclude: exclude@ },
            ),
            r == self,
    {
        g.push_instr(self.id, Instr::AnyCharExcept(exclude));
        self
    }

    /// Appends a substitution matcher over `(find, replace)` pairs of plain
    /// text.  The list and every text in it must be non-empty: anything else
    /// is a construction error, not a scan-time failure.
    pub fn alter(self, g: &mut Grammar, list: Vec<(&str, &str)>) -> (r: Rule)
        requires
            old(g).wf(),
            self.idx() < old(g)@.len(),
            list@.len() > 0,
            forall|j: int|
                0 <= j < list@.len() ==> (#[trigger] list@[j]).0@.len() > 0 && list@[j].1@.len()
                    > 0,
        ensures
            final(g).wf(),
            final(g)@ == appended(
                old(g)@,
                self.idx(),
                InstrV::Alter {
                    pairs: list@.map_values(|p: (&str, &str)| (p.0@, p.1@)),
                },
            ),
            r == self,
    {
        let mut pairs: Vec<(Vec<char>, Vec<char>)> = Vec::new();
        let mut k: usize = 0;
        while k < list.len()
            invariant
                k <= list@.len(),
                pairs@.len() == k,
                forall|j: int|
                    0 <= j < k ==> ((#[trigger] pairs@[j]).0@, pairs@[j].1@) == (
                        list@[j].0@,
                        list@[j].1@,
                    ),
            decreases list@.len() - k,
        {
            let (f, rep) = list[k];
            pairs.push((chars_of(f), chars_of(rep)));
            k = k + 1;
        }
        proof {
            assert(pairs@.map_values(|p: (Vec<char>, Vec<char>)| (p.0@, p.1@)) =~= list@.map_values(
                |p: (&str, &str)| (p.0@, p.1@),
            ));
        }
        g.push_instr(self.id, Instr::Alter(pairs));
        self
    }

    /// Appends a substitution matcher over `(find, replace)` pairs of owned
    /// text; the same construction rules as [`Rule::alter`] apply.
    pub fn alter_string(self, g: &mut Grammar, list: Vec<(String, String)>) -> (r: Rule)
        requires
            old(g).wf(),
            self.idx() < old(g)@.len(),
            list@.len() > 0,
            forall|j: int|
                0 <= j < list@.len() ==> (#[trigger] list@[j]).0@.len() > 0 && list@[j].1@.len()
                    > 0,
        ensures
            final(g).wf(),
            final(g)@ == appended(
                old(g)@,
                self.idx(),
                InstrV::Alter {
                    pairs: list@.map_values(|p: (String, String)| (p.0@, p.1@)),
                },
            ),
            r == self,
    {
        let mut pairs: Vec<(Vec<char>, Vec<char>)> = Vec::new();
        let mut k: usize = 0;
        while k < list.len()
            invariant
                k <= list@.len(),
                pairs@.len() == k,
                forall|j: int|
                    0 <= j < k ==> ((#[trigger] pairs@[j]).0@, pairs@[j].1@) == (
                        list@[j].0@,
                        list@[j].1@,
                    ),
            decreases list@.len() - k,
        {
            let f = chars_of(list[k].0.as_str());
            let rep = chars_of(list[k].1.as_str());
            pairs.push((f, rep));
            k = k + 1;
        }
        proof {
            assert(pairs@.map_values(|p: (Vec<char>, Vec<char>)| (p.0@, p.1@)) =~= list@.map_values(
                |p: (String, String)| (p.0@, p.1@),
            ));
        }
        g.push_instr(self.id, Instr::Alter(pairs));
        self
    }

    /// Appends an ordered choice over `rules`.  The list must not be empty:
    /// an empty list is a construction error.  A single candidate degenerates
    /// to a one-iteration repetition, which matches the same way.
    pub fn any_of(self, g: &mut Grammar, rules: Vec<Rule>) -> (r: Rule)
        requires
            old(g).wf(),
            self.idx() < old(g)@.len(),
            rules@.len() > 0,
            forall|j: int| 0 <= j < rules@.len() ==> (#[trigger] rules@[j]).idx() < old(g)@.len(),
        ensures
            final(g).wf(),
            final(g)@ == appended(
                old(g)@,
                self.idx(),
                if rules@.len() == 1 {
                    InstrV::Range { min: 1, max: 1, rule: rules@[0].idx() }
                } else {
                    InstrV::AnyOf { rules: rules@.map_values(|x: Rule| x.idx()) }
                },
            ),
            r == self,
    {
        if rules.len() == 1 {
            g.push_instr(self.id, Instr::Range(1, 1, rules[0].id));
        } else {
            let mut ids: Vec<usize> = Vec::new();
            let mut k: usize = 0;
            while k < rules.len()
                invariant
                    k <= rules@.len(),
                    ids@.len() == k,
                    forall|j: int| 0 <= j < k ==> (#[trigger] ids@[j]) == rules@[j].id,
                decreases rules@.len() - k,
            {
                ids.push(rules[k].id);
                k = k + 1;
            }
            proof {
                assert(ids@.map_values(|x: usize| x as int) =~= rules@.map_values(
                    |x: Rule| x.idx(),
                ));
            }
            g.push_instr(self.id, Instr::AnyOf(ids));
        }
        self
    }

    /// Appends a repetition of `rule` at least `count` times, with no upper
    /// bound.
    pub fn at_least(self, g: &mut Grammar, count: u64, rule: Rule) -> (r: Rule)
        requires
            old(g).wf(),
            self.idx() < old(g)@.len(),
            rule.idx() < old(g)@.len(),
        ensures
            final(g).wf(),
            final(g)@ == appended(
                old(g)@,
                self.idx(),
                InstrV::Range { min: count as nat, max: u64::MAX as nat, rule: rule.idx() },
            ),
            r == self,
    {
        g.push_instr(self.id, Instr::Range(count, u64::MAX, rule.id));
        self
    }

    /// Appends a repetition of `rule` at most `count` times.
    pub fn at_most(self, g: &mut Grammar, count: u64, rule: Rule) -> (r: Rule)
        requires
            old(g).wf(),
            self.idx() < old(g)@.len(),
            rule.idx() < old(g)@.len(),
        ensures
            final(g).wf(),
            final(g)@ == appended(
                old(g)@,
                self.idx(),
                InstrV::Range { min: 0, max: count as nat, rule: rule.idx() },
            ),
            r == self,
    {
        g.push_instr(self.id, Instr::Range(0, count, rule.id));
        self
    }

    /// Appends a repetition of `rule` between `min` and `max` times.
    pub fn between(self, g: &mut Grammar, min: u64, max: u64, rule: Rule) -> (r: Rule)
        requires
            old(g).wf(),
            self.idx() < old(g)@.len(),
            rule.idx() < old(g)@.len(),
        ensures
            final(g).wf(),
            final(g)@ == appended(
                old(g)@,
                self.idx(),
                InstrV::Range { min: min as nat, max: max as nat, rule: rule.idx() },
            ),
            r == self,
    {
        g.push_instr(self.id, Instr::Range(min, max, rule.id));
        self
    }

    /// Appends a matcher for one codepoint in the inclusive range
    /// `min..=max`.
    pub fn char_in(self, g: &mut Grammar, min: char, max: char) -> (r: Rule)
        requires
            old(g).wf(),
            self.idx() < old(g)@.len(),
        ensures
            final(g).wf(),
            final(g)@ == appended(old(g)@, self.idx(), InstrV::CharIn { lo: min, hi: max }),
            r == self,
    {
        g.push_instr(self.id, Instr::CharIn(min, max));
        self
    }

    /// Appends a matcher that succeeds only at the end of the input.
    pub fn eof(self, g: &mut Grammar) -> (r: Rule)
        requires
            old(g).wf(),
            self.idx() < old(g)@.len(),
        ensures
            final(g).wf(),
            final(g)@ == appended(old(g)@, self.idx(), InstrV::Eof),
            r == self,
    {
        g.push_instr(self.id, Instr::Eof);
        self
    }

    /// Appends a repetition of `rule` exactly `count` times.
    pub fn exact(self, g: &mut Grammar, count: u64, rule: Rule) -> (r: Rule)
        requires
            old(g).wf(),
            self.idx() < old(g)@.len(),
            rule.idx() < old(g)@.len(),
        ensures
            final(g).wf(),
            final(g)@ == appended(
                old(g)@,
                self.idx(),
                InstrV::Range { min: count as nat, max: count as nat, rule: rule.idx() },
            ),
            r == self,
    {
        g.push_instr(self.id, Instr::Range(count, count, rule.id));
        self
    }

    /// Appends a matcher for the exact text `text`.  Empty text is a
    /// construction error, not a scan-time failure.
    pub fn literal(self, g: &mut Grammar, text: &str) -> (r: Rule)
        requires
            old(g).wf(),
            self.idx() < old(g)@.len(),
            text@.len() > 0,
        ensures
            final(g).wf(),
            final(g)@ == appended(old(g)@, self.idx(), InstrV::Literal { text: text@ }),
            r == self,
    {
        g.push_instr(self.id, Instr::Literal(chars_of(text)));
        self
    }

    /// Appends a matcher for the exact owned text `text`; empty text is a
    /// construction error.
    pub fn literal_string(self, g: &mut Grammar, text: String) -> (r: Rule)
        requires
            old(g).wf(),
            self.idx() < old(g)@.len(),
            text@.len() > 0,
        ensures
            final(g).wf(),
            final(g)@ == appended(old(g)@, self.idx(), InstrV::Literal { text: text@ }),
            r == self,
    {
        g.push_instr(self.id, Instr::Literal(chars_of(text.as_str())));
        self
    }

    /// Appends a repetition of `rule` zero or one times.
    pub fn maybe(self, g: &mut Grammar, rule: Rule) -> (r: Rule)
        requires
            old(g).wf(),
            self.idx() < old(g)@.len(),
            rule.idx() < old(g)@.len(),
        ensures
            final(g).wf(),
            final(g)@ == appended(
                old(g)@,
                self.idx(),
                InstrV::Range { min: 0, max: 1, rule: rule.idx() },
            ),
            r == self,
    {
        g.push_instr(self.id, Instr::Range(0, 1, rule.id));
        self
    }

    /// Appends a commit point: zero-width, always matches, and makes any
    /// later failure of an attempt that started before this position fatal,
    /// reported with `err_msg`.
    pub fn no_backtrack(self, g: &mut Grammar, err_msg: String) -> (r: Rule)
        requires
            old(g).wf(),
            self.idx() < old(g)@.len(),
        ensures
            final(g).wf(),
            final(g)@ == appended(old(g)@, self.idx(), InstrV::NoBacktrack { msg: err_msg@ }),
            r == self,
    {
        g.push_instr(self.id, Instr::NoBacktrack(err_msg));
        self
    }

    /// Appends a repetition of `rule` any number of times, including none.
    pub fn none_or_many(self, g: &mut Grammar, rule: Rule) -> (r: Rule)
        requires
            old(g).wf(),
            self.idx() < old(g)@.len(),
            rule.idx() < old(g)@.len(),
        ensures
            final(g).wf(),
            final(g)@ == appended(
                old(g)@,
                self.idx(),
                InstrV::Range { min: 0, max: u64::MAX as nat, rule: rule.idx() },
            ),
            r == self,
    {
        g.push_instr(self.id, Instr::Range(0, u64::MAX, rule.id));
        self
    }

    /// Appends a zero-width negative lookahead on `rule`.
    pub fn not(self, g: &mut Grammar, rule: Rule) -> (r: Rule)
        requires
            old(g).wf(),
            self.idx() < old(g)@.len(),
            rule.idx() < old(g)@.len(),
        ensures
            final(g).wf(),
            final(g)@ == appended(old(g)@, self.idx(), InstrV::Not { rule: rule.idx() }),
            r == self,
    {
        g.push_instr(self.id, Instr::Not(rule.id));
        self
    }

    /// Appends a repetition of `rule` exactly once.
    pub fn one(self, g: &mut Grammar, rule: Rule) -> (r: Rule)
        requires
            old(g).wf(),
            self.idx() < old(g)@.len(),
            rule.idx() < old(g)@.len(),
        ensures
            final(g).wf(),
            final(g)@ == appended(
                old(g)@,
                self.idx(),
                InstrV::Range { min: 1, max: 1, rule: rule.idx() },
            ),
            r == self,
    {
        g.push_instr(self.id, Instr::Range(1, 1, rule.id));
        self
    }
}

/// `new` extends `base`: `base` is a prefix of `new`.
pub open spec fn extends<T>(new: Seq<T>, base: Seq<T>) -> bool {
    new.len() >= base.len() && new.subrange(0, base.len() as int) == base
}

/// The state of one scanning attempt: the synthesized values gathered so
/// far, the position in the input (`at`, in codepoints), the reported
/// progress index (`index`, which the end-of-input matcher moves without
/// consuming), whether the attempt runs inside a negative lookahead, and the
/// lexeme consumed since the attempt's branch point.
///
/// A fresh context is branched off for every speculative attempt, so no two
/// live attempts ever share a lexeme or value accumulator; discarding a
/// failed attempt is therefore always safe.
pub struct ScanCtx<T> {
    pub branches: Vec<T>,
    pub at: usize,
    pub index: usize,
    pub in_not: bool,
    pub lexeme: Vec<char>,
}

/// The outcome of one executable attempt: a match carrying the merged
/// context and the progress made, an ordinary failure returning the parent
/// context untouched, or a fatal error that aborts the whole scan.
pub enum Progress<T> {
    Matched { steps: usize, ctx: ScanCtx<T> },
    Missed { ctx: ScanCtx<T> },
    Aborted { idx: usize, msg: String },
}

impl<T> ScanCtx<T> {
    /// The cursor-side model of this context.
    pub open spec fn pos(&self) -> Pos {
        Pos { at: self.at as nat, index: self.index as nat, lexeme: self.lexeme@ }
    }

    /// The context a scan starts from.
    pub fn new() -> (c: ScanCtx<T>)
        ensures
            c.pos() == init_pos(),
            c.in_not == false,
            c.branches@ == Seq::<T>::empty(),
    {
        let c = ScanCtx {
            branches: Vec::new(),
            at: 0,
            index: 0,
            in_not: false,
            lexeme: Vec::new(),
        };
        proof {
            assert(c.pos() =~= init_pos());
        }
        c
    }

    /// Opens a fresh branch: same position as the parent, empty lexeme and
    /// value list, the negation flag inherited and OR'd with `in_not`.  The
    /// parent comes back untouched for a later merge or discard.
    pub fn branch(self, in_not: bool) -> (r: (ScanCtx<T>, ScanCtx<T>))
        ensures
            r.1 == self,
            r.0.pos() == blank(self.pos()),
            r.0.in_not == (self.in_not || in_not),
            r.0.branches@ == Seq::<T>::empty(),
    {
        let child = ScanCtx {
            branches: Vec::new(),
            at: self.at,
            index: self.index,
            in_not: self.in_not || in_not,
            lexeme: Vec::new(),
        };
        proof {
            assert(child.pos() =~= blank(self.pos()));
        }
        (child, self)
    }

    /// Merges a finished child branch back into this parent: the parent
    /// adopts the child's position, appends the child's lexeme, and takes
    /// over the child's values — either unchanged, or, exactly when
    /// `is_rule` holds and the rule carries a reducer `tag`, replaced by one
    /// invocation of the reducer on them.  A reducer error aborts the scan
    /// at the parent's (the rule's starting) position.
    pub fn merge_with<R: Reducer<T>>(
        self,
        source: ScanCtx<T>,
        is_rule: bool,
        tag: Option<u64>,
        red: &mut R,
    ) -> (r: Progress<T>)
        requires
            self.index <= source.index,
        ensures
            match r {
                Progress::Matched { steps, ctx } => {
                    &&& ctx.pos() == joined(self.pos(), source.pos())
                    &&& ctx.in_not == self.in_not
                    &&& steps as int == source.index - self.index
                    &&& if is_rule && tag is Some {
                        extends(ctx.branches@, self.branches@)
                    } else {
                        ctx.branches@ == self.branches@ + source.branches@
                    }
                },
                Progress::Missed { .. } => false,
                Progress::Aborted { idx, msg } => {
                    &&& is_rule
                    &&& tag is Some
                    &&& idx == self.index
                },
            },
    {
        let mut this = self;
        let ghost start = this.pos();
        let rule_start = this.index;
        let steps = source.index - this.index;
        let ScanCtx { branches: mut src_branches, at, index, lexeme: mut src_lexeme, .. } = source;
        this.at = at;
        this.index = index;
        let invoke = is_rule && tag.is_some();
        if invoke {
            let t = match tag {
                Option::Some(t) => t,
                Option::None => 0,
            };
            match red.reduce(t, src_branches, &src_lexeme) {
                Result::Ok(mut vals) => {
                    this.branches.append(&mut vals);
                },
                Result::Err(m) => {
                    return Progress::Aborted { idx: rule_start, msg: m };
                },
            }
        } else {
            this.branches.append(&mut src_branches);
        }
        this.lexeme.append(&mut src_lexeme);
        proof {
            assert(this.pos() =~= joined(start, source.pos()));
            if invoke {
                assert(this.branches@.subrange(0, self.branches@.len() as int) =~= self.branches@);
            }
        }
        Progress::Matched { steps, ctx: this }
    }
}

/// The scan-wide mutable state of one scan: the active commit point, the
/// furthest-failure anchor, and (in the ghost world) the number of reducer
/// invocations made so far.
pub struct Scanner {
    pub commit_idx: usize,
    pub commit_msg: String,
    pub anchor: usize,
    pub reds: Ghost<nat>,
}

impl Scanner {
    /// The diagnostic model of this scanner.
    pub open spec fn diag(&self) -> Diag {
        Diag {
            commit_idx: self.commit_idx as nat,
            commit_msg: self.commit_msg@,
            anchor: self.anchor as nat,
            reds: self.reds@,
        }
    }

    /// The scanner state a scan begins with.
    pub fn new() -> (s: Scanner)
        ensures
            s.diag() == init_diag(),
    {
        let s = Scanner {
            commit_idx: 0,
            commit_msg: "Syntax error.".to_owned(),
            anchor: 0,
            reds: Ghost(0),
        };
        proof {
            assert(s.diag() =~= init_diag());
        }
        s
    }

    /// Records a failure at `pos` in the furthest-failure anchor, unless the
    /// failure happened inside a negative lookahead, where failures are
    /// expected and stay out of the diagnostics.
    fn note_failure(&mut self, pos: usize, in_not: bool)
        ensures
            final(self).diag() == noted(old(self).diag(), pos as nat, in_not),
            final(self).reds@ == old(self).reds@,
    {
        if !in_not && pos > self.anchor {
            self.anchor = pos;
        }
        proof {
            assert(self.diag() =~= noted(old(self).diag(), pos as nat, in_not));
        }
    }

    /// Decides the fate of a rule-level failure whose attempt started at the
    /// position of `ctx`: a failure that would backtrack past the active
    /// commit point becomes fatal with the commit's message; any other
    /// failure stays ordinary and hands `ctx` back for backtracking.  Inside
    /// a negative lookahead no escalation ever happens.
    pub fn negative_progress<T>(&self, ctx: ScanCtx<T>) -> (r: Progress<T>)
        ensures
            ({
                let o = rejected(ctx.index as nat, ctx.in_not, self.diag());
                match o {
                    Outcome::Missed { diag } => r matches Progress::Missed { ctx: c } && c == ctx
                        && diag == self.diag(),
                    Outcome::Aborted { idx, msg, .. } => r matches Progress::Aborted {
                        idx: i,
                        msg: m,
                    } && i as nat == idx && m@ == msg,
                    Outcome::Matched { .. } => false,
                }
            }),
    {
        if !ctx.in_not && ctx.index < self.commit_idx {
            Progress::Aborted { idx: self.commit_idx, msg: self.commit_msg.clone() }
        } else {
            Progress::Missed { ctx }
        }
    }
}

/// How an executable result `r` (with final scanner state `d`) realizes a
/// model outcome `o`, for an attempt that entered at `entry`: positions,
/// lexemes, reported steps and diagnostic state coincide (for a fatal error,
/// its position and message), and a match never moves backwards or past the
/// end of the input.
pub open spec fn agrees<T>(
    input: Seq<char>,
    entry: Pos,
    in_not: bool,
    r: Progress<T>,
    d: Diag,
    o: Outcome,
) -> bool {
    match o {
        Outcome::Matched { ctx, diag } => {
            &&& r matches Progress::Matched { steps, ctx: c } && c.pos() == ctx && c.in_not
                == in_not && steps as int == ctx.index - entry.index
            &&& d == diag
            &&& entry.index <= ctx.index
            &&& entry.at <= ctx.at <= input.len()
        },
        Outcome::Missed { diag } => {
            &&& r matches Progress::Missed { ctx: c } && c.pos() == entry && c.in_not == in_not
            &&& d == diag
        },
        Outcome::Aborted { idx, msg, diag } => {
            &&& r matches Progress::Aborted { idx: i, msg: m } && i as nat == idx && m@ == msg
        },
    }
}

impl Scanner {
    /// Matches exactly one codepoint, whatever it is.
    pub fn scan_any_char_leaf<T>(&mut self, input: &Vec<char>, ctx: ScanCtx<T>) -> (r: Progress<T>)
        requires
            ctx.at <= input@.len(),
        ensures
            agrees(
                input@,
                ctx.pos(),
                ctx.in_not,
                r,
                final(self).diag(),
                step_any_char(input@, ctx.pos(), ctx.in_not, old(self).diag()),
            ),
            r matches Progress::Matched { ctx: c, .. } ==> c.branches@ == ctx.branches@,
            r matches Progress::Missed { ctx: c } ==> c == ctx,
            final(self).reds@ == old(self).reds@,
    {
        let mut cur = ctx;
        if cur.at < input.len() {
            let c = input[cur.at];
            cur.lexeme.push(c);
            cur.at = cur.at + 1;
            let prev = cur.index;
            cur.index = sat_add_usize(prev, 1);
            let steps = cur.index - prev;
            proof {
                let o = step_any_char(input@, ctx.pos(), ctx.in_not, self.diag());
                assert(cur.pos() =~= o->Matched_ctx);
            }
            Progress::Matched { steps, ctx: cur }
        } else {
            self.note_failure(cur.index, cur.in_not);
            Progress::Missed { ctx: cur }
        }
    }

    /// Matches one codepoint not in `exclude`.
    pub fn scan_any_char_except_leaf<T>(
        &mut self,
        input: &Vec<char>,
        exclude: &Vec<char>,
        ctx: ScanCtx<T>,
    ) -> (r: Progress<T>)
        requires
            ctx.at <= input@.len(),
        ensures
            agrees(
                input@,
                ctx.pos(),
                ctx.in_not,
                r,
                final(self).diag(),
                step_any_char_except(
                    input@,
                    exclude@,
                    ctx.pos(),
                    ctx.in_not,
                    old(self).diag(),
                ),
            ),
            r matches Progress::Matched { ctx: c, .. } ==> c.branches@ == ctx.branches@,
            r matches Progress::Missed { ctx: c } ==> c == ctx,
            final(self).reds@ == old(self).reds@,
    {
        let mut cur = ctx;
        if cur.at < input.len() {
            let c = input[cur.at];
            if contains_char(exclude, c) {
                self.note_failure(cur.index, cur.in_not);
                return Progress::Missed { ctx: cur };
            }
            cur.lexeme.push(c);
            cur.at = cur.at + 1;
            let prev = cur.index;
            cur.index = sat_add_usize(prev, 1);
            let steps = cur.index - prev;
            proof {
                let o = step_any_char_except(input@, exclude@, ctx.pos(), ctx.in_not, self.diag());
                assert(cur.pos() =~= o->Matched_ctx);
            }
            Progress::Matched { steps, ctx: cur }
        } else {
            self.note_failure(cur.index, cur.in_not);
            Progress::Missed { ctx: cur }
        }
    }

    /// Matches one codepoint in the inclusive range `min..=max`.
    pub fn scan_char_in_leaf<T>(
        &mut self,
        input: &Vec<char>,
        min: char,
        max: char,
        ctx: ScanCtx<T>,
    ) -> (r: Progress<T>)
        requires
            ctx.at <= input@.len(),
        ensures
            agrees(
                input@,
                ctx.pos(),
                ctx.in_not,
                r,
                final(self).diag(),
                step_char_in(input@, min, max, ctx.pos(), ctx.in_not, old(self).diag()),
            ),
            r matches Progress::Matched { ctx: c, .. } ==> c.branches@ == ctx.branches@,
            r matches Progress::Missed { ctx: c } ==> c == ctx,
            final(self).reds@ == old(self).reds@,
    {
        let mut cur = ctx;
        if cur.at < input.len() {
            let c = input[cur.at];
            if (c as u32) < (min as u32) || (c as u32) > (max as u32) {
                self.note_failure(cur.index, cur.in_not);
                return Progress::Missed { ctx: cur };
            }
            cur.lexeme.push(c);
            cur.at = cur.at + 1;
            let prev = cur.index;
            cur.index = sat_add_usize(prev, 1);
            let steps = cur.index - prev;
            proof {
                let o = step_char_in(input@, min, max, ctx.pos(), ctx.in_not, self.diag());
                assert(cur.pos() =~= o->Matched_ctx);
            }
            Progress::Matched { steps, ctx: cur }
        } else {
            self.note_failure(cur.index, cur.in_not);
            Progress::Missed { ctx: cur }
        }
    }

    /// Matches only at the end of the input; consumes nothing but reports
    /// one step of progress.
    pub fn scan_eof_leaf<T>(&mut self, input: &Vec<char>, ctx: ScanCtx<T>) -> (r: Progress<T>)
        requires
            ctx.at <= input@.len(),
        ensures
            agrees(
                input@,
                ctx.pos(),
                ctx.in_not,
                r,
                final(self).diag(),
                step_eof(input@, ctx.pos(), ctx.in_not, old(self).diag()),
            ),
            r matches Progress::Matched { ctx: c, .. } ==> c.branches@ == ctx.branches@,
            r matches Progress::Missed { ctx: c } ==> c == ctx,
            final(self).reds@ == old(self).reds@,
    {
        let mut cur = ctx;
        if cur.at == input.len() {
            let prev = cur.index;
            cur.index = sat_add_usize(prev, 1);
            let steps = cur.index - prev;
            proof {
                let o = step_eof(input@, ctx.pos(), ctx.in_not, self.diag());
                assert(cur.pos() =~= o->Matched_ctx);
            }
            Progress::Matched { steps, ctx: cur }
        } else {
            self.note_failure(cur.index, cur.in_not);
            Progress::Missed { ctx: cur }
        }
    }

    /// Matches the exact text `find`, verbatim.
    pub fn scan_literal_leaf<T>(
        &mut self,
        input: &Vec<char>,
        find: &Vec<char>,
        ctx: ScanCtx<T>,
    ) -> (r: Progress<T>)
        requires
            ctx.at <= input@.len(),
        ensures
            agrees(
                input@,
                ctx.pos(),
                ctx.in_not,
                r,
                final(self).diag(),
                step_literal(input@, find@, ctx.pos(), ctx.in_not, old(self).diag()),
            ),
            r matches Progress::Matched { ctx: c, .. } ==> c.branches@ == ctx.branches@,
            r matches Progress::Missed { ctx: c } ==> c == ctx,
            final(self).reds@ == old(self).reds@,
    {
        let ilen = input.len();
        let mut cur = ctx;
        if match_at(input, cur.at, find) {
            proof {
                assert(cur.at + find@.len() <= ilen);
            }
            extend_chars(&mut cur.lexeme, find);
            let prev = cur.index;
            cur.at = cur.at + find.len();
            cur.index = sat_add_usize(prev, find.len());
            let steps = cur.index - prev;
            proof {
                let o = step_literal(input@, find@, ctx.pos(), ctx.in_not, self.diag());
                assert(cur.pos() =~= o->Matched_ctx);
            }
            Progress::Matched { steps, ctx: cur }
        } else {
            self.note_failure(cur.index, cur.in_not);
            Progress::Missed { ctx: cur }
        }
    }

    /// Substitution: tries the `(find, replace)` pairs in order and commits
    /// to the first whose `find` text matches at the cursor; the lexeme
    /// receives the pair's replacement.
    pub fn scan_alter_leaf<T>(
        &mut self,
        input: &Vec<char>,
        pairs: &Vec<(Vec<char>, Vec<char>)>,
        ctx: ScanCtx<T>,
    ) -> (r: Progress<T>)
        requires
            ctx.at <= input@.len(),
        ensures
            agrees(
                input@,
                ctx.pos(),
                ctx.in_not,
                r,
                final(self).diag(),
                step_alter(
                    input@,
                    pairs@.map_values(|p: (Vec<char>, Vec<char>)| (p.0@, p.1@)),
                    ctx.pos(),
                    ctx.in_not,
                    old(self).diag(),
                ),
            ),
            r matches Progress::Matched { ctx: c, .. } ==> c.branches@ == ctx.branches@,
            r matches Progress::Missed { ctx: c } ==> c == ctx,
            final(self).reds@ == old(self).reds@,
    {
        let ghost pv = pairs@.map_values(|p: (Vec<char>, Vec<char>)| (p.0@, p.1@));
        let ilen = input.len();
        let mut cur = ctx;
        let mut j: usize = 0;
        proof {
            assert(pv.skip(0) =~= pv);
        }
        while j < pairs.len()
            invariant
                j <= pairs@.len(),
                pv == pairs@.map_values(|p: (Vec<char>, Vec<char>)| (p.0@, p.1@)),
                cur == ctx,
                ctx.at <= input@.len(),
                input@.len() == ilen,
                step_alter(input@, pv.skip(j as int), ctx.pos(), ctx.in_not, old(self).diag())
                    == step_alter(input@, pv, ctx.pos(), ctx.in_not, old(self).diag()),
                self == old(self),
            decreases pairs@.len() - j,
        {
            proof {
                assert(pv.skip(j as int).len() == pv.len() - j);
                assert(pv.skip(j as int)[0] == pv[j as int]);
                assert(pv.skip(j as int).drop_first() =~= pv.skip(j as int + 1));
            }
            let find = &pairs[j].0;
            if match_at(input, cur.at, find) {
                proof {
                    assert(cur.at + find@.len() <= ilen);
                }
                extend_chars(&mut cur.lexeme, &pairs[j].1);
                let prev = cur.index;
                cur.at = cur.at + find.len();
                cur.index = sat_add_usize(prev, find.len());
                let steps = cur.index - prev;
                proof {
                    let o = step_alter(input@, pv, ctx.pos(), ctx.in_not, self.diag());
                    assert(cur.pos() =~= o->Matched_ctx);
                }
                return Progress::Matched { steps, ctx: cur };
            }
            j = j + 1;
        }
        proof {
            assert(pv.skip(pairs@.len() as int).len() == 0);
        }
        self.note_failure(cur.index, cur.in_not);
        Progress::Missed { ctx: cur }
    }

    /// The commit operator: zero-width, always matches, and moves the active
    /// commit point forward to the current position with message `msg`.
    /// Inside a negative lookahead the commit point stays untouched, so
    /// speculative lookaheads never commit the scan to anything.
    pub fn scan_no_backtrack_leaf<T>(
        &mut self,
        input: &Vec<char>,
        msg: &String,
        ctx: ScanCtx<T>,
    ) -> (r: Progress<T>)
        requires
            ctx.at <= input@.len(),
        ensures
            agrees(
                input@,
                ctx.pos(),
                ctx.in_not,
                r,
                final(self).diag(),
                step_commit(msg@, ctx.pos(), ctx.in_not, old(self).diag()),
            ),
            r matches Progress::Matched { ctx: c, .. } ==> c == ctx,
            final(self).reds@ == old(self).reds@,
    {
        if !ctx.in_not && ctx.index >= self.commit_idx {
            self.commit_idx = ctx.index;
            self.commit_msg = msg.clone();
        }
        proof {
            let o = step_commit(msg@, ctx.pos(), ctx.in_not, old(self).diag());
            assert(self.diag() =~= o.diag());
        }
        Progress::Matched { steps: 0, ctx }
    }
}

impl Scanner {
    /// Zero-width negative lookahead: runs `rule` on an isolated branch with
    /// the negation flag forced on, discards everything the attempt did, and
    /// trades success and failure places.  The context handed back is the
    /// caller's own, untouched, whatever the inner rule did.
    pub fn scan_not<T, R: Reducer<T>>(
        &mut self,
        g: &Grammar,
        input: &Vec<char>,
        rule: usize,
        ctx: ScanCtx<T>,
        red: &mut R,
        fuel: u64,
    ) -> (r: Progress<T>)
        requires
            fuel >= 1,
            g.wf(),
            (rule as int) < g@.len(),
            ctx.at <= input@.len(),
        ensures
            ({
                let o = spec_not(
                    g@,
                    input@,
                    rule as int,
                    ctx.pos(),
                    ctx.in_not,
                    old(self).diag(),
                    fuel as nat,
                );
                (agrees(input@, ctx.pos(), ctx.in_not, r, final(self).diag(), o) && (
                r matches Progress::Matched { ctx: c, .. } ==> c == ctx) && (
                r matches Progress::Missed { ctx: c } ==> c == ctx)) || (
                r matches Progress::Aborted { .. } && o.diag().reds > old(self).diag().reds)
            }),
            final(self).reds@ >= old(self).reds@,
        decreases fuel, 2int, 0int,
    {
        let ghost d0 = self.diag();
        let (child, parent) = ctx.branch(true);
        let ghost child0 = child;
        let prog = self.run(g, input, rule, child, red, fuel - 1);
        proof {
            assert(blank(ctx.pos()) =~= child0.pos());
        }
        match prog {
            Progress::Matched { .. } => {
                self.note_failure(parent.index, parent.in_not);
                Progress::Missed { ctx: parent }
            },
            Progress::Missed { ctx: _discarded } => Progress::Matched { steps: 0, ctx: parent },
            Progress::Aborted { idx, msg } => Progress::Aborted { idx, msg },
        }
    }

    /// Ordered choice: tries each candidate in order from the same starting
    /// position on an isolated branch, merges the first that matches, and
    /// never consults the rest.  If every candidate fails, the whole choice
    /// fails at its starting position.
    #[verifier::loop_isolation(false)]
    pub fn scan_any_of<T, R: Reducer<T>>(
        &mut self,
        g: &Grammar,
        input: &Vec<char>,
        ids: &Vec<usize>,
        ctx: ScanCtx<T>,
        red: &mut R,
        fuel: u64,
    ) -> (r: Progress<T>)
        requires
            fuel >= 1,
            g.wf(),
            forall|k: int| 0 <= k < ids@.len() ==> (#[trigger] ids@[k]) < g@.len(),
            ctx.at <= input@.len(),
        ensures
            ({
                let o = spec_any_of(
                    g@,
                    input@,
                    ids@.map_values(|x: usize| x as int),
                    0,
                    ctx.pos(),
                    ctx.in_not,
                    old(self).diag(),
                    fuel as nat,
                );
                (agrees(input@, ctx.pos(), ctx.in_not, r, final(self).diag(), o) && (
                r matches Progress::Matched { ctx: c, .. } ==> extends(c.branches@, ctx.branches@)
                    && (final(self).reds@ == old(self).reds@ ==> c.branches@ == ctx.branches@)) && (
                r matches Progress::Missed { ctx: c } ==> c == ctx)) || (
                r matches Progress::Aborted { .. } && o.diag().reds > old(self).diag().reds)
            }),
            final(self).reds@ >= old(self).reds@,
        decreases fuel, 2int, 0int,
    {
        let ghost idsv = ids@.map_values(|x: usize| x as int);
        let ghost d0 = self.diag();
        let (mut child, parent) = ctx.branch(false);
        let ghost child0 = child;
        proof {
            assert(blank(ctx.pos()) =~= child0.pos());
        }
        let mut j: usize = 0;
        while j < ids.len()
            invariant
                j <= ids@.len(),
                idsv == ids@.map_values(|x: usize| x as int),
                forall|k: int| 0 <= k < ids@.len() ==> (#[trigger] ids@[k]) < g@.len(),
                g.wf(),
                fuel >= 1,
                child == child0,
                child0.pos() == blank(parent.pos()),
                child0.in_not == parent.in_not,
                child0.branches@ == Seq::<T>::empty(),
                child0.at <= input@.len(),
                parent == ctx,
                spec_any_of(g@, input@, idsv, j as nat, parent.pos(), parent.in_not, self.diag(),
                    fuel as nat,
                ) == spec_any_of(g@, input@, idsv, 0, parent.pos(), parent.in_not, d0,
                    fuel as nat,
                ),
                self.reds@ >= d0.reds,
            decreases ids@.len() - j,
        {
            let ghost d_call = self.diag();
            proof {
                assert(idsv[j as int] == ids@[j as int] as int);
            }
            let id = ids[j];
            let prog = self.run(g, input, id, child, red, fuel - 1);
            let ghost inner = spec_run(g@, input@, idsv[j as int], child0.pos(), parent.in_not,
                d_call, (fuel - 1) as nat);
            match prog {
                Progress::Matched { steps: _, ctx: got } => {
                    let ghost gotv = got;
                    let res = parent.merge_with(got, false, Option::None, red);
                    proof {
                        assert(inner is Matched);
                        assert(spec_any_of(g@, input@, idsv, j as nat, parent.pos(),
                            parent.in_not, d_call, fuel as nat) == Outcome::Matched {
                            ctx: joined(parent.pos(), inner->Matched_ctx),
                            diag: inner.diag(),
                        });
                        let o = spec_any_of(g@, input@, idsv, 0, ctx.pos(), ctx.in_not, d0,
                            fuel as nat);
                        if res is Matched {
                            assert((res->Matched_ctx).pos() =~= o->Matched_ctx);
                            assert((res->Matched_ctx).branches@.subrange(
                                0,
                                ctx.branches@.len() as int,
                            ) =~= ctx.branches@);
                            if self.reds@ == d0.reds {
                                assert(gotv.branches@ =~= Seq::<T>::empty());
                                assert((res->Matched_ctx).branches@ =~= ctx.branches@);
                            }
                        }
                    }
                    return res;
                },
                Progress::Missed { ctx: got_back } => {
                    proof {
                        assert(inner is Missed);
                        assert(spec_any_of(g@, input@, idsv, j as nat, parent.pos(),
                            parent.in_not, d_call, fuel as nat) == spec_any_of(g@, input@, idsv,
                            j as nat + 1, parent.pos(), parent.in_not, inner.diag(), fuel as nat));
                    }
                    child = got_back;
                    j = j + 1;
                },
                Progress::Aborted { idx, msg } => {
                    proof {
                        match inner {
                            Outcome::Matched { ctx: c, diag } => {
                                assert(spec_any_of(g@, input@, idsv, j as nat, parent.pos(),
                                    parent.in_not, d_call, fuel as nat) == Outcome::Matched {
                                    ctx: joined(parent.pos(), c),
                                    diag,
                                });
                            },
                            Outcome::Missed { diag } => {
                                assert(spec_any_of(g@, input@, idsv, j as nat, parent.pos(),
                                    parent.in_not, d_call, fuel as nat) == spec_any_of(g@, input@,
                                    idsv, j as nat + 1, parent.pos(), parent.in_not, diag,
                                    fuel as nat));
                                lemma_reds_any_of(g@, input@, idsv, j as nat + 1, parent.pos(),
                                    parent.in_not, diag, fuel as nat);
                            },
                            Outcome::Aborted { .. } => {
                                assert(spec_any_of(g@, input@, idsv, j as nat, parent.pos(),
                                    parent.in_not, d_call, fuel as nat) == inner);
                            },
                        }
                    }
                    return Progress::Aborted { idx, msg };
                },
            }
        }
        proof {
            assert(spec_any_of(g@, input@, idsv, j as nat, parent.pos(), parent.in_not,
                self.diag(), fuel as nat) == rejected(ctx.index as nat, ctx.in_not, self.diag()));
        }
        self.negative_progress(parent)
    }

    /// Greedy repetition: attempts `rule` at the current position until it
    /// fails or `max` matches are gathered, then holds the count against
    /// `min..=max`.  An attempt that matches without reporting progress ends
    /// the repetition at once as a success — iterating a zero-width match
    /// could never terminate — and this short-circuit skips the `min` check,
    /// faithfully to the engine's historical behavior.
    #[verifier::loop_isolation(false)]
    pub fn scan_rule_range<T, R: Reducer<T>>(
        &mut self,
        g: &Grammar,
        input: &Vec<char>,
        min: u64,
        max: u64,
        rule: usize,
        ctx: ScanCtx<T>,
        red: &mut R,
        fuel: u64,
    ) -> (r: Progress<T>)
        requires
            fuel >= 1,
            g.wf(),
            (rule as int) < g@.len(),
            ctx.at <= input@.len(),
        ensures
            ({
                let o = spec_range(
                    g@,
                    input@,
                    min as nat,
                    max as nat,
                    rule as int,
                    0,
                    blank(ctx.pos()),
                    ctx.pos(),
                    ctx.in_not,
                    old(self).diag(),
                    fuel as nat,
                ).out;
                (agrees(input@, ctx.pos(), ctx.in_not, r, final(self).diag(), o) && (
                r matches Progress::Matched { ctx: c, .. } ==> extends(c.branches@, ctx.branches@)
                    && (final(self).reds@ == old(self).reds@ ==> c.branches@ == ctx.branches@)) && (
                r matches Progress::Missed { ctx: c } ==> c == ctx)) || (
                r matches Progress::Aborted { .. } && o.diag().reds > old(self).diag().reds)
            }),
            final(self).reds@ >= old(self).reds@,
        decreases fuel, 2int, 0int,
    {
        let ghost d0 = self.diag();
        let (mut cur, parent) = ctx.branch(false);
        proof {
            assert(blank(ctx.pos()) =~= cur.pos());
        }
        let mut count: u64 = 0;
        loop
            invariant
                g.wf(),
                (rule as int) < g@.len(),
                fuel >= 1,
                cur.in_not == ctx.in_not,
                cur.at <= input@.len(),
                ctx.index <= cur.index,
                ctx.at <= cur.at,
                parent == ctx,
                count == 0 || count < max,
                (self.reds@ == d0.reds ==> cur.branches@ == Seq::<T>::empty()),
                spec_range(g@, input@, min as nat, max as nat, rule as int, count as nat,
                    cur.pos(), ctx.pos(), ctx.in_not, self.diag(), fuel as nat,
                ) == spec_range(g@, input@, min as nat, max as nat, rule as int, 0,
                    blank(ctx.pos()), ctx.pos(), ctx.in_not, d0, fuel as nat,
                ),
                self.reds@ >= d0.reds,
            decreases max - count,
        {
            let ghost cur0 = cur;
            let ghost d_call = self.diag();
            let prog = self.run(g, input, rule, cur, red, fuel - 1);
            let ghost inner = spec_run(g@, input@, rule as int, cur0.pos(), ctx.in_not, d_call,
                (fuel - 1) as nat);
            let ghost total = spec_range(g@, input@, min as nat, max as nat, rule as int, 0,
                blank(ctx.pos()), ctx.pos(), ctx.in_not, d0, fuel as nat);
            match prog {
                Progress::Matched { steps, ctx: c2 } => {
                    let ghost c2v = c2;
                    proof {
                        assert(inner is Matched);
                    }
                    if steps == 0 {
                        proof {
                            assert((inner->Matched_ctx).index == cur0.index);
                            assert(total.out == Outcome::Matched {
                                ctx: joined(ctx.pos(), inner->Matched_ctx),
                                diag: inner.diag(),
                            });
                        }
                        let res = parent.merge_with(c2, false, Option::None, red);
                        proof {
                            if res is Matched {
                                assert((res->Matched_ctx).pos() =~= total.out->Matched_ctx);
                                assert((res->Matched_ctx).branches@.subrange(
                                    0,
                                    ctx.branches@.len() as int,
                                ) =~= ctx.branches@);
                                if self.reds@ == d0.reds {
                                    assert(cur0.branches@ =~= Seq::<T>::empty());
                                    assert((res->Matched_ctx).branches@ =~= ctx.branches@);
                                }
                            }
                        }
                        return res;
                    }
                    proof {
                        assert((inner->Matched_ctx).index != cur0.index);
                    }
                    count = count + 1;
                    if count >= max {
                        if count >= min && count <= max {
                            proof {
                                assert(total.out == Outcome::Matched {
                                    ctx: joined(ctx.pos(), inner->Matched_ctx),
                                    diag: inner.diag(),
                                });
                            }
                            let res = parent.merge_with(c2, false, Option::None, red);
                            proof {
                                if res is Matched {
                                    assert((res->Matched_ctx).pos() =~= total.out->Matched_ctx);
                                    assert((res->Matched_ctx).branches@.subrange(
                                        0,
                                        ctx.branches@.len() as int,
                                    ) =~= ctx.branches@);
                                    if self.reds@ == d0.reds {
                                        assert(cur0.branches@ =~= Seq::<T>::empty());
                                        assert((res->Matched_ctx).branches@ =~= ctx.branches@);
                                    }
                                }
                            }
                            return res;
                        } else {
                            proof {
                                assert(total.out == rejected(ctx.index as nat, ctx.in_not,
                                    inner.diag()));
                            }
                            return self.negative_progress(parent);
                        }
                    }
                    proof {
                        assert(spec_range(g@, input@, min as nat, max as nat, rule as int,
                            count as nat, c2v.pos(), ctx.pos(), ctx.in_not, inner.diag(),
                            fuel as nat) == total);
                    }
                    cur = c2;
                },
                Progress::Missed { ctx: c2 } => {
                    proof {
                        assert(inner is Missed);
                    }
                    cur = c2;
                    if count >= min && count <= max {
                        proof {
                            assert(total.out == Outcome::Matched {
                                ctx: joined(ctx.pos(), cur0.pos()),
                                diag: inner.diag(),
                            });
                        }
                        let res = parent.merge_with(cur, false, Option::None, red);
                        proof {
                            if res is Matched {
                                assert((res->Matched_ctx).pos() =~= total.out->Matched_ctx);
                                assert((res->Matched_ctx).branches@.subrange(
                                    0,
                                    ctx.branches@.len() as int,
                                ) =~= ctx.branches@);
                                if self.reds@ == d0.reds {
                                    assert(cur0.branches@ =~= Seq::<T>::empty());
                                    assert((res->Matched_ctx).branches@ =~= ctx.branches@);
                                }
                            }
                        }
                        return res;
                    } else {
                        proof {
                            assert(total.out == rejected(ctx.index as nat, ctx.in_not,
                                inner.diag()));
                        }
                        return self.negative_progress(parent);
                    }
                },
                Progress::Aborted { idx, msg } => {
                    proof {
                        match inner {
                            Outcome::Matched { ctx: c, diag } => {
                                if c.index != cur0.index && count as nat + 1 < max as nat {
                                    lemma_reds_range(g@, input@, min as nat, max as nat,
                                        rule as int, count as nat + 1, c, ctx.pos(), ctx.in_not,
                                        diag, fuel as nat);
                                }
                            },
                            _ => (),
                        }
                    }
                    return Progress::Aborted { idx, msg };
                },
            }
        }
    }

    /// Runs one rule: opens a fresh branch, executes the rule's instructions
    /// left to right — the first failure fails the whole rule — and on
    /// completion merges the branch back into the caller, applying the
    /// rule's reducer exactly once if it has one.  A failure that would
    /// backtrack past the active commit point aborts the scan instead.
    #[verifier::loop_isolation(false)]
    pub fn run<T, R: Reducer<T>>(
        &mut self,
        g: &Grammar,
        input: &Vec<char>,
        rule: usize,
        ctx: ScanCtx<T>,
        red: &mut R,
        fuel: u64,
    ) -> (r: Progress<T>)
        requires
            g.wf(),
            (rule as int) < g@.len(),
            ctx.at <= input@.len(),
        ensures
            ({
                let o = spec_run(
                    g@,
                    input@,
                    rule as int,
                    ctx.pos(),
                    ctx.in_not,
                    old(self).diag(),
                    fuel as nat,
                );
                (agrees(input@, ctx.pos(), ctx.in_not, r, final(self).diag(), o) && (
                r matches Progress::Matched { ctx: c, .. } ==> extends(c.branches@, ctx.branches@)
                    && (final(self).reds@ == old(self).reds@ ==> c.branches@ == ctx.branches@)) && (
                r matches Progress::Missed { ctx: c } ==> c == ctx)) || (
                r matches Progress::Aborted { .. } && o.diag().reds > old(self).diag().reds)
            }),
            final(self).reds@ >= old(self).reds@,
        decreases fuel, 3int, 0int,
    {
        if fuel == 0 {
            return Progress::Aborted {
                idx: ctx.index,
                msg: "Rule recursion limit reached.".to_owned(),
            };
        }
        let ghost d0 = self.diag();
        let (mut cur, parent) = ctx.branch(false);
        proof {
            assert(blank(ctx.pos()) =~= cur.pos());
        }
        let n = g.rules[rule].instrs.len();
        proof {
            assert(g@[rule as int] == rule_view(g.rules@[rule as int]));
        }
        let mut i: usize = 0;
        while i < n
            invariant
                g.wf(),
                (rule as int) < g@.len(),
                fuel >= 1,
                i <= n,
                n == g@[rule as int].instrs.len(),
                parent == ctx,
                cur.in_not == ctx.in_not,
                cur.at <= input@.len(),
                ctx.index <= cur.index,
                ctx.at <= cur.at,
                (self.reds@ == d0.reds ==> cur.branches@ == Seq::<T>::empty()),
                spec_instrs(g@, input@, rule as int, i as nat, cur.pos(), ctx.index as nat,
                    ctx.in_not, self.diag(), fuel as nat,
                ) == spec_instrs(g@, input@, rule as int, 0, blank(ctx.pos()), ctx.index as nat,
                    ctx.in_not, d0, fuel as nat,
                ),
                self.reds@ >= d0.reds,
            decreases n - i,
        {
            let ghost iv = g@[rule as int].instrs[i as int];
            proof {
                assert(g@[rule as int] == rule_view(g.rules@[rule as int]));
                assert(iv == instr_view(g.rules@[rule as int].instrs@[i as int]));
                assert(instr_wf(g@, iv));
            }
            let ghost cur0 = cur;
            let ghost d_call = self.diag();
            let ghost step = step_of(g@, input@, iv, cur0.pos(), ctx.in_not, d_call, fuel as nat);
            let instr = &g.rules[rule].instrs[i];
            let prog = match instr {
                Instr::AnyChar => {
                    let p = self.scan_any_char_leaf(input, cur);
                    proof {
                        assert(step == step_any_char(input@, cur0.pos(), ctx.in_not, d_call));
                    }
                    p
                },
                Instr::AnyCharExcept(ex) => {
                    let p = self.scan_any_char_except_leaf(input, ex, cur);
                    proof {
                        assert(step == step_any_char_except(input@, ex@, cur0.pos(), ctx.in_not,
                            d_call));
                    }
                    p
                },
                Instr::Alter(pairs) => {
                    let p = self.scan_alter_leaf(input, pairs, cur);
                    proof {
                        assert(step == step_alter(input@,
                            pairs@.map_values(|q: (Vec<char>, Vec<char>)| (q.0@, q.1@)),
                            cur0.pos(), ctx.in_not, d_call));
                    }
                    p
                },
                Instr::AnyOf(ids) => {
                    proof {
                        let m = ids@.map_values(|x: usize| x as int);
                        assert(iv == InstrV::AnyOf { rules: m });
                        assert forall|k: int| 0 <= k < ids@.len() implies (#[trigger] ids@[k])
                            < g@.len() by {
                            assert(m[k] == ids@[k] as int);
                            assert(0 <= m[k] < g@.len());
                        }
                    }
                    let p = self.scan_any_of(g, input, ids, cur, red, fuel);
                    proof {
                        assert(step == spec_any_of(g@, input@,
                            ids@.map_values(|x: usize| x as int), 0, cur0.pos(), ctx.in_not,
                            d_call, fuel as nat));
                    }
                    p
                },
                Instr::CharIn(lo, hi) => {
                    let p = self.scan_char_in_leaf(input, *lo, *hi, cur);
                    proof {
                        assert(step == step_char_in(input@, *lo, *hi, cur0.pos(), ctx.in_not,
                            d_call));
                    }
                    p
                },
                Instr::Eof => {
                    let p = self.scan_eof_leaf(input, cur);
                    proof {
                        assert(step == step_eof(input@, cur0.pos(), ctx.in_not, d_call));
                    }
                    p
                },
                Instr::Literal(text) => {
                    let p = self.scan_literal_leaf(input, text, cur);
                    proof {
                        assert(step == step_literal(input@, text@, cur0.pos(), ctx.in_not,
                            d_call));
                    }
                    p
                },
                Instr::NoBacktrack(msg) => {
                    let p = self.scan_no_backtrack_leaf(input, msg, cur);
                    proof {
                        assert(step == step_commit(msg@, cur0.pos(), ctx.in_not, d_call));
                    }
                    p
                },
                Instr::Not(r2) => {
                    proof {
                        assert(iv == InstrV::Not { rule: *r2 as int });
                    }
                    let p = self.scan_not(g, input, *r2, cur, red, fuel);
                    proof {
                        assert(step == spec_not(g@, input@, *r2 as int, cur0.pos(), ctx.in_not,
                            d_call, fuel as nat));
                    }
                    p
                },
                Instr::Range(mn, mx, r2) => {
                    proof {
                        assert(iv == InstrV::Range {
                            min: *mn as nat,
                            max: *mx as nat,
                            rule: *r2 as int,
                        });
                    }
                    let p = self.scan_rule_range(g, input, *mn, *mx, *r2, cur, red, fuel);
                    proof {
                        assert(step == spec_range(g@, input@, *mn as nat, *mx as nat, *r2 as int,
                            0, blank(cur0.pos()), cur0.pos(), ctx.in_not, d_call,
                            fuel as nat).out);
                    }
                    p
                },
            };
            proof {
                assert(agrees(input@, cur0.pos(), ctx.in_not, prog, self.diag(), step) || (
                prog matches Progress::Aborted { .. } && step.diag().reds > d_call.reds));
                if prog is Matched {
                    assert((prog->Matched_ctx).branches@.subrange(
                        0,
                        (prog->Matched_ctx).branches@.len() as int,
                    ) =~= (prog->Matched_ctx).branches@);
                }
                assert(prog matches Progress::Matched { ctx: c, .. } ==> extends(
                    c.branches@,
                    cur0.branches@,
                ) && (self.reds@ == d_call.reds ==> c.branches@ == cur0.branches@));
                assert(prog matches Progress::Missed { ctx: c } ==> c == cur0);
                assert(spec_instrs(g@, input@, rule as int, i as nat, cur0.pos(),
                    ctx.index as nat, ctx.in_not, d_call, fuel as nat) == (match step {
                    Outcome::Matched { ctx: c, diag } => spec_instrs(g@, input@, rule as int,
                        i as nat + 1, c, ctx.index as nat, ctx.in_not, diag, fuel as nat),
                    Outcome::Missed { diag } => rejected(ctx.index as nat, ctx.in_not, diag),
                    o => o,
                }));
            }
            match prog {
                Progress::Matched { steps: _, ctx: c2 } => {
                    cur = c2;
                    i = i + 1;
                },
                Progress::Missed { ctx: _back } => {
                    return self.negative_progress(parent);
                },
                Progress::Aborted { idx, msg } => {
                    proof {
                        if step is Matched {
                            lemma_reds_instrs(g@, input@, rule as int, i as nat + 1,
                                step->Matched_ctx, ctx.index as nat, ctx.in_not, step.diag(),
                                fuel as nat);
                        }
                    }
                    return Progress::Aborted { idx, msg };
                },
            }
        }
        let tag = g.rules[rule].red;
        proof {
            assert(g@[rule as int] == rule_view(g.rules@[rule as int]));
            assert(g@[rule as int].red == tag);
            assert(spec_instrs(g@, input@, rule as int, i as nat, cur.pos(), ctx.index as nat,
                ctx.in_not, self.diag(), fuel as nat) == Outcome::Matched {
                ctx: cur.pos(),
                diag: self.diag(),
            });
        }
        let ghost d_end = self.diag();
        let ghost curf = cur;
        let res = parent.merge_with(cur, true, tag, red);
        if tag.is_some() {
            self.reds = Ghost(self.reds@ + 1);
        }
        proof {
            let o = spec_run(g@, input@, rule as int, ctx.pos(), ctx.in_not, d0, fuel as nat);
            assert(o == Outcome::Matched {
                ctx: joined(ctx.pos(), curf.pos()),
                diag: if g@[rule as int].red is Some {
                    Diag { reds: d_end.reds + 1, ..d_end }
                } else {
                    d_end
                },
            });
            if res is Matched {
                assert((res->Matched_ctx).pos() =~= o->Matched_ctx);
                assert(self.diag() =~= o.diag());
                assert((res->Matched_ctx).branches@.subrange(0, ctx.branches@.len() as int)
                    =~= ctx.branches@);
                if self.reds@ == d0.reds {
                    assert(curf.branches@ =~= Seq::<T>::empty());
                    assert((res->Matched_ctx).branches@ =~= ctx.branches@);
                }
            }
        }
        match res {
            Progress::Missed { ctx: c } => {
                proof {
                    assert(false);
                }
                Progress::Missed { ctx: c }
            },
            other => other,
        }
    }
}

/// Everything the engine promises of a scan's result `r`, for grammar `g`,
/// root rule `rule` and input `input`.  The model's verdict (`spec_scan`)
/// decides success, and for grammars whose scan invokes no reducer
/// (`spec_scan_reds` is zero) it also pins down the returned values (none
/// come from anywhere but reducers) and the error's exact message, line and
/// column.
pub open spec fn scan_post<T>(
    r: Result<Vec<T>, RuleError>,
    g: Seq<RuleV>,
    rule: int,
    input: Seq<char>,
) -> bool {
    let end = spec_scan(g, rule, input);
    let reds = spec_scan_reds(g, rule, input);
    &&& (r is Ok ==> end is Done)
    &&& (reds == 0 ==> (r is Ok <==> end is Done))
    &&& (reds == 0 && r is Ok ==> r->Ok_0@ == Seq::<T>::empty())
    &&& (end matches ScanEnd::Failed { idx, msg } ==> (reds == 0 ==> (r matches Err(e)
        && e.msg@ == msg && e.line as nat == crate::diagnostics::spec_pos_of(
        input.subrange(0, RuleError::spec_clamp(input, idx)),
    ).0 && e.col as nat == crate::diagnostics::spec_pos_of(
        input.subrange(0, RuleError::spec_clamp(input, idx)),
    ).1)))
}

impl Rule {
    /// Scans `code` against this rule.  Success is owed exactly when the
    /// rule matches and the match consumes the entire input; the values the
    /// scan's reducers synthesized are then returned.  On failure the error
    /// carries the best available position and message: the residual
    /// position after a partial match, the furthest failure reached, or the
    /// active commit point's message after a fatal failure.
    ///
    /// The model pins the result down completely for grammars whose scan
    /// invokes no reducer; a reducer returning an error turns any outcome
    /// into that error, which no model of the grammar alone can predict.
    pub fn scan<T, R: Reducer<T>>(self, g: &Grammar, red: &mut R, code: &str) -> (r: Result<
        Vec<T>,
        RuleError,
    >)
        requires
            g.wf(),
            self.idx() < g@.len(),
            g@[self.idx()].instrs.len() > 0,
            code@.len() < usize::MAX,
        ensures
            scan_post(r, g@, self.idx(), code@),
    {
        let input = chars_of(code);
        let ctx = ScanCtx::<T>::new();
        let mut scanner = Scanner::new();
        let prog = scanner.run(g, &input, self.id, ctx, red, SCAN_DEPTH);
        let ghost o = spec_run(
            g@,
            input@,
            self.idx(),
            init_pos(),
            false,
            init_diag(),
            SCAN_DEPTH as nat,
        );
        match prog {
            Progress::Matched { steps: _, ctx: done } => {
                if done.at == input.len() {
                    Result::Ok(done.branches)
                } else {
                    Result::Err(RuleError::new(&input, done.index, "Syntax error.".to_owned()))
                }
            },
            Progress::Missed { ctx: _rest } => Result::Err(
                RuleError::new(&input, scanner.anchor, "Syntax error.".to_owned()),
            ),
            Progress::Aborted { idx, msg } => Result::Err(RuleError::new(&input, idx, msg)),
        }
    }
}

} // verus!
