//! The mathematical model of comment stripping: rules, the engine's mode, one
//! step of the engine, and the text that a whole input is filtered to.
//!
//! Everything here is ghost code. The executable engine is proved against
//! these functions, and the laws of the library are stated over them.

use vstd::prelude::*;

verus! {

/// One comment form: the pattern that opens it, the pattern that closes it,
/// and how the engine treats nesting and the close pattern.
pub struct Rule {
    /// Pattern that opens the comment.
    pub open: Seq<char>,
    /// Pattern that closes the comment.
    pub close: Seq<char>,
    /// Whether the comment can reopen inside itself.
    pub nests: bool,
    /// Whether the close pattern stays in the text once it has closed the comment.
    pub keep_close: bool,
    /// Whether the close pattern may stand in plain text.
    pub allow_bare_close: bool,
}

impl Rule {
    /// Both patterns hold at least one character.
    pub open spec fn well_formed(self) -> bool {
        self.open.len() > 0 && self.close.len() > 0
    }

    /// The open pattern stands at the head of `rest`.
    pub open spec fn opens(self, rest: Seq<char>) -> bool {
        self.open.is_prefix_of(rest)
    }

    /// The close pattern stands at the head of `rest`.
    pub open spec fn closes(self, rest: Seq<char>) -> bool {
        self.close.is_prefix_of(rest)
    }

    /// The close pattern stands at the head of `rest` and may not stand in plain text.
    pub open spec fn closes_unopened(self, rest: Seq<char>) -> bool {
        !self.allow_bare_close && self.closes(rest)
    }

    /// The rule ends the scan of plain text at the head of `rest`, either by
    /// opening a comment or by finding a close pattern that nothing opened.
    pub open spec fn hits(self, rest: Seq<char>) -> bool {
        self.opens(rest) || self.closes_unopened(rest)
    }

    /// Length of the longer of the two patterns.
    pub open spec fn longest(self) -> nat {
        if self.open.len() >= self.close.len() {
            self.open.len()
        } else {
            self.close.len()
        }
    }
}

/// Every rule of the table is well formed.
pub open spec fn well_formed(rules: Seq<Rule>) -> bool {
    forall|i: int| 0 <= i < rules.len() ==> (#[trigger] rules[i]).well_formed()
}

/// Length of the longest pattern of the table, 0 for the empty table.
pub open spec fn max_pattern_len(rules: Seq<Rule>) -> nat
    decreases rules.len(),
{
    if rules.len() == 0 {
        0
    } else {
        let before = max_pattern_len(rules.drop_last());
        if rules.last().longest() > before {
            rules.last().longest()
        } else {
            before
        }
    }
}

/// Where the engine stands: in plain text, or inside a comment of one rule.
pub enum Mode {
    /// Not inside any comment.
    Text,
    /// Inside a comment of rule `rule`. `depth` is `None` for a rule that does
    /// not nest, and the number of enclosing comments of the same rule for one
    /// that does.
    InComment { rule: int, depth: Option<nat> },
}

impl Mode {
    /// The mode names a rule of the table, and carries a depth exactly if that rule nests.
    pub open spec fn valid_for(self, rules: Seq<Rule>) -> bool {
        match self {
            Mode::Text => true,
            Mode::InComment { rule, depth } => {
                &&& 0 <= rule < rules.len()
                &&& depth is Some <==> rules[rule].nests
            },
        }
    }

    /// Number of enclosing comments, 0 in plain text and in a comment that does not nest.
    pub open spec fn depth(self) -> nat {
        match self {
            Mode::InComment { depth: Some(d), .. } => d,
            _ => 0,
        }
    }

    /// Number of comments that are open: 0 in plain text, one more than the
    /// depth inside a comment.
    pub open spec fn open_comments(self) -> nat {
        match self {
            Mode::Text => 0,
            Mode::InComment { .. } => self.depth() + 1,
        }
    }
}

/// What one step of the engine yields.
pub enum Event {
    /// A character of plain text.
    Produced(char),
    /// The input has ended.
    Exhausted,
    /// Nothing yet: the engine moved, and has to be stepped again.
    Retry,
    /// The close pattern of the rule with this index stands in plain text,
    /// where the rule does not allow it.
    UnmatchedClose(int),
}

/// Result of a step: the event, and the mode and input that the engine is left with.
pub struct Outcome {
    pub event: Event,
    pub mode: Mode,
    pub rest: Seq<char>,
}

/// Index of the first rule at or after `from` that hits at the head of `rest`.
pub open spec fn first_hit(rules: Seq<Rule>, rest: Seq<char>, from: int) -> Option<int>
    decreases rules.len() - from,
{
    if from < 0 || from >= rules.len() {
        None
    } else if rules[from].hits(rest) {
        Some(from)
    } else {
        first_hit(rules, rest, from + 1)
    }
}

/// One step of the engine in plain text, on input that has not ended.
pub open spec fn step_in_text(rules: Seq<Rule>, rest: Seq<char>) -> Outcome {
    match first_hit(rules, rest, 0) {
        None => Outcome { event: Event::Produced(rest[0]), mode: Mode::Text, rest: rest.skip(1) },
        Some(i) => if rules[i].opens(rest) {
            Outcome {
                event: Event::Retry,
                mode: Mode::InComment {
                    rule: i,
                    depth: if rules[i].nests {
                        Some(0nat)
                    } else {
                        None
                    },
                },
                rest: rest.skip(rules[i].open.len() as int),
            }
        } else {
            Outcome { event: Event::UnmatchedClose(i), mode: Mode::Text, rest }
        },
    }
}

/// One step of the engine inside a comment of `rule`, on input that has not
/// ended. The close pattern is tried before the open pattern.
pub open spec fn step_in_comment(
    rule: Rule,
    index: int,
    depth: Option<nat>,
    rest: Seq<char>,
) -> Outcome {
    if rule.closes(rest) {
        Outcome {
            event: Event::Retry,
            mode: match depth {
                Some(d) => if d > 0 {
                    Mode::InComment { rule: index, depth: Some((d - 1) as nat) }
                } else {
                    Mode::Text
                },
                None => Mode::Text,
            },
            rest: if rule.keep_close { rest } else { rest.skip(rule.close.len() as int) },
        }
    } else if depth is Some && rule.opens(rest) {
        Outcome {
            event: Event::Retry,
            mode: Mode::InComment { rule: index, depth: Some(depth->0 + 1) },
            rest: rest.skip(rule.open.len() as int),
        }
    } else {
        Outcome {
            event: Event::Retry,
            mode: Mode::InComment { rule: index, depth },
            rest: rest.skip(1),
        }
    }
}

/// One step of the engine in `mode` on the input `rest`.
pub open spec fn step(rules: Seq<Rule>, mode: Mode, rest: Seq<char>) -> Outcome {
    if rest.len() == 0 {
        Outcome { event: Event::Exhausted, mode, rest }
    } else {
        match mode {
            Mode::Text => step_in_text(rules, rest),
            Mode::InComment { rule, depth } => step_in_comment(rules[rule], rule, depth, rest),
        }
    }
}

/// `tail` with `head` before it, where `tail` came out without error.
pub open spec fn after(head: Seq<char>, tail: Result<Seq<char>, int>) -> Result<Seq<char>, int> {
    match tail {
        Ok(text) => Ok(head + text),
        Err(i) => Err(i),
    }
}

/// The engine stepped until it yields something other than a retry.
pub open spec fn advance(rules: Seq<Rule>, mode: Mode, rest: Seq<char>) -> Outcome
    decreases rest.len(), mode.open_comments(),
    when well_formed(rules) && mode.valid_for(rules)
{
    let o = step(rules, mode, rest);
    if o.event is Retry {
        proof {
            lemma_step(rules, mode, rest);
        }
        advance(rules, o.mode, o.rest)
    } else {
        o
    }
}

/// The plain text that the engine produces from `rest` when it starts in
/// `mode`, or the index of the rule whose close pattern it finds unopened.
pub open spec fn filtered(rules: Seq<Rule>, mode: Mode, rest: Seq<char>) -> Result<Seq<char>, int>
    decreases rest.len(), mode.open_comments(),
    when well_formed(rules) && mode.valid_for(rules)
{
    let o = step(rules, mode, rest);
    proof {
        lemma_step(rules, mode, rest);
    }
    match o.event {
        Event::Exhausted => Ok(Seq::empty()),
        Event::UnmatchedClose(i) => Err(i),
        Event::Retry => filtered(rules, o.mode, o.rest),
        Event::Produced(c) => after(seq![c], filtered(rules, o.mode, o.rest)),
    }
}

/// The greatest nesting depth that the engine passes through when it starts
/// in `mode` on the input `rest`, up to the end of the input or to an error.
pub open spec fn deepest(rules: Seq<Rule>, mode: Mode, rest: Seq<char>) -> nat
    decreases rest.len(), mode.open_comments(),
    when well_formed(rules) && mode.valid_for(rules)
{
    let o = step(rules, mode, rest);
    proof {
        lemma_step(rules, mode, rest);
    }
    if o.event is Retry || o.event is Produced {
        let later = deepest(rules, o.mode, o.rest);
        if later > mode.depth() {
            later
        } else {
            mode.depth()
        }
    } else {
        mode.depth()
    }
}

/// The text without its comments: what the engine produces from `text` when it
/// starts in plain text.
pub open spec fn strip(rules: Seq<Rule>, text: Seq<char>) -> Result<Seq<char>, int> {
    filtered(rules, Mode::Text, text)
}

/// No pattern of a table is longer than the table's longest pattern.
pub proof fn lemma_longest_pattern(rules: Seq<Rule>, i: int)
    requires
        0 <= i < rules.len(),
    ensures
        rules[i].open.len() <= max_pattern_len(rules),
        rules[i].close.len() <= max_pattern_len(rules),
    decreases rules.len(),
{
    if i < rules.len() - 1 {
        lemma_longest_pattern(rules.drop_last(), i);
    }
}

/// `first_hit` answers with the least index from `from` on at which a rule hits.
pub proof fn lemma_first_hit(rules: Seq<Rule>, rest: Seq<char>, from: int)
    requires
        0 <= from,
    ensures
        match first_hit(rules, rest, from) {
            Some(i) => {
                &&& from <= i < rules.len()
                &&& rules[i].hits(rest)
                &&& forall|j: int| from <= j < i ==> !(#[trigger] rules[j]).hits(rest)
            },
            None => forall|j: int| from <= j < rules.len() ==> !(#[trigger] rules[j]).hits(rest),
        },
    decreases rules.len() - from,
{
    if from < rules.len() && !rules[from].hits(rest) {
        lemma_first_hit(rules, rest, from + 1);
    }
}

/// A step keeps the mode valid, and lets the depth grow by no more than it
/// shortens the input. A step that produces a character shortens the input.
/// A step that asks for a retry shortens the input, or leaves it as it is and
/// closes a comment.
pub proof fn lemma_step(rules: Seq<Rule>, mode: Mode, rest: Seq<char>)
    requires
        well_formed(rules),
        mode.valid_for(rules),
    ensures
        ({
            let o = step(rules, mode, rest);
            &&& o.mode.valid_for(rules)
            &&& o.rest.len() <= rest.len()
            &&& o.mode.depth() + o.rest.len() <= mode.depth() + rest.len()
            &&& o.event is Produced ==> o.rest.len() < rest.len()
            &&& o.event is Retry ==> o.rest.len() < rest.len() || (o.rest == rest
                && o.mode.open_comments() < mode.open_comments())
        }),
{
    lemma_first_hit(rules, rest, 0);
}

/// The greatest depth from a mode on is no less than the depth of that mode,
/// nor than the greatest depth from where a step leaves the engine.
pub proof fn lemma_deepest(rules: Seq<Rule>, mode: Mode, rest: Seq<char>)
    requires
        well_formed(rules),
        mode.valid_for(rules),
    ensures
        mode.depth() <= deepest(rules, mode, rest),
        ({
            let o = step(rules, mode, rest);
            o.event is Retry || o.event is Produced ==> o.mode.depth() <= deepest(
                rules,
                o.mode,
                o.rest,
            ) <= deepest(rules, mode, rest)
        }),
{
    lemma_step(rules, mode, rest);
}

/// Putting `mid` and then `head` before a result is putting `head + mid` before it.
pub proof fn lemma_after_twice(head: Seq<char>, mid: Seq<char>, tail: Result<Seq<char>, int>)
    ensures
        after(head, after(mid, tail)) == after(head + mid, tail),
{
    if let Ok(text) = tail {
        assert(head + (mid + text) =~= (head + mid) + text);
    }
}

/// The filtered text, read off the engine's advances: the character that the
/// first advance produces, then the text filtered from where that advance
/// leaves the engine.
pub proof fn lemma_filtered_by_advance(rules: Seq<Rule>, mode: Mode, rest: Seq<char>)
    requires
        well_formed(rules),
        mode.valid_for(rules),
    ensures
        ({
            let o = advance(rules, mode, rest);
            filtered(rules, mode, rest) == match o.event {
                Event::Produced(c) => after(seq![c], filtered(rules, o.mode, o.rest)),
                Event::UnmatchedClose(i) => Err(i),
                _ => Ok(Seq::empty()),
            }
        }),
    decreases rest.len(), mode.open_comments(),
{
    let o = step(rules, mode, rest);
    lemma_step(rules, mode, rest);
    if o.event is Retry {
        lemma_filtered_by_advance(rules, o.mode, o.rest);
    }
}

} // verus!
