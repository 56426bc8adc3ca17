//! Laws of comment stripping, proved of the model that the engine is verified
//! against.

use crate::model::deepest;
use crate::model::filtered;
use crate::model::lemma_first_hit;
use crate::model::lemma_step;
use crate::model::step;
use crate::model::strip;
use crate::model::well_formed;
use crate::model::Mode;
use crate::model::Rule;
use vstd::prelude::*;

verus! {

/// The pattern `pat` stands somewhere in `text`.
pub open spec fn occurs(pat: Seq<char>, text: Seq<char>) -> bool {
    exists|k: int| 0 <= k <= text.len() && pat.is_prefix_of(#[trigger] text.skip(k))
}

/// A pattern that stands in what is left of a text stands in the text.
proof fn lemma_occurs_in_suffix(pat: Seq<char>, text: Seq<char>, n: int)
    requires
        0 <= n <= text.len(),
        occurs(pat, text.skip(n)),
    ensures
        occurs(pat, text),
{
    let rest = text.skip(n);
    let k = choose|k: int| 0 <= k <= rest.len() && pat.is_prefix_of(#[trigger] rest.skip(k));
    assert(rest.skip(k) =~= text.skip(n + k));
}

/// No rule of the table opens a comment anywhere in `text`, and no close
/// pattern stands in it that its rule does not allow in plain text.
pub open spec fn plain(rules: Seq<Rule>, text: Seq<char>) -> bool {
    forall|i: int, k: int|
        0 <= i < rules.len() && 0 <= k <= text.len() ==> !#[trigger] rules[i].hits(text.skip(k))
}

/// Text in which no rule opens a comment, and in which no close pattern
/// stands that may not stand in plain text, comes out as it went in.
pub proof fn law_plain_text_is_unchanged(rules: Seq<Rule>, text: Seq<char>)
    requires
        well_formed(rules),
        plain(rules, text),
    ensures
        strip(rules, text) == Ok::<Seq<char>, int>(text),
    decreases text.len(),
{
    if text.len() == 0 {
        assert(text =~= Seq::<char>::empty());
    } else {
        let tail = text.skip(1);
        assert forall|i: int| 0 <= i < rules.len() implies !(#[trigger] rules[i]).hits(text) by {
            assert(!rules[i].hits(text.skip(0)));
        }
        lemma_first_hit(rules, text, 0);
        assert forall|i: int, k: int|
            0 <= i < rules.len() && 0 <= k <= tail.len() implies !#[trigger] rules[i].hits(
            tail.skip(k),
        ) by {
            assert(!rules[i].hits(text.skip(k + 1)));
        }
        law_plain_text_is_unchanged(rules, tail);
        assert(seq![text[0]] + tail =~= text);
    }
}

/// Text that holds none of the table's patterns comes out as it went in.
pub proof fn law_text_without_patterns_is_unchanged(rules: Seq<Rule>, text: Seq<char>)
    requires
        well_formed(rules),
        forall|i: int|
            0 <= i < rules.len() ==> !occurs((#[trigger] rules[i]).open, text) && !occurs(
                rules[i].close,
                text,
            ),
    ensures
        strip(rules, text) == Ok::<Seq<char>, int>(text),
{
    law_plain_text_is_unchanged(rules, text);
}

/// A comment that is never closed runs to the end of the input: inside a
/// comment whose close pattern stands nowhere in what follows, nothing more
/// comes out, and there is no error.
pub proof fn law_unclosed_comment_yields_nothing(
    rules: Seq<Rule>,
    rule: int,
    depth: Option<nat>,
    rest: Seq<char>,
)
    requires
        well_formed(rules),
        (Mode::InComment { rule, depth }).valid_for(rules),
        !occurs(rules[rule].close, rest),
    ensures
        filtered(rules, Mode::InComment { rule, depth }, rest) == Ok::<Seq<char>, int>(
            Seq::empty(),
        ),
    decreases rest.len(),
{
    let mode = Mode::InComment { rule, depth };
    if rest.len() > 0 {
        let o = step(rules, mode, rest);
        lemma_step(rules, mode, rest);
        assert(rest.skip(0) =~= rest);
        let n = rest.len() - o.rest.len();
        if occurs(rules[rule].close, o.rest) {
            lemma_occurs_in_suffix(rules[rule].close, rest, n);
        }
        law_unclosed_comment_yields_nothing(rules, rule, o.mode->depth, o.rest);
    }
}

/// Only a close pattern that may not stand in plain text is ever an error:
/// input in which no such pattern stands comes out without error, whatever
/// the mode that the engine starts in.
pub proof fn law_no_error_without_unallowed_close(rules: Seq<Rule>, mode: Mode, rest: Seq<char>)
    requires
        well_formed(rules),
        mode.valid_for(rules),
        forall|i: int|
            0 <= i < rules.len() && !(#[trigger] rules[i]).allow_bare_close ==> !occurs(
                rules[i].close,
                rest,
            ),
    ensures
        filtered(rules, mode, rest) is Ok,
    decreases rest.len(), mode.open_comments(),
{
    let o = step(rules, mode, rest);
    lemma_step(rules, mode, rest);
    lemma_first_hit(rules, rest, 0);
    assert(rest.skip(0) =~= rest);
    if o.event is Retry || o.event is Produced {
        let n = rest.len() - o.rest.len();
        assert forall|i: int|
            0 <= i < rules.len() && !(#[trigger] rules[i]).allow_bare_close implies !occurs(
            rules[i].close,
            o.rest,
        ) by {
            if occurs(rules[i].close, o.rest) {
                lemma_occurs_in_suffix(rules[i].close, rest, n);
            }
        }
        law_no_error_without_unallowed_close(rules, o.mode, o.rest);
    }
}

/// The nesting depth grows by no more than one for each character of the
/// input: the greatest depth that the engine passes through is at most the
/// depth that it starts at and the length of the input together.
pub proof fn law_depth_within_length(rules: Seq<Rule>, mode: Mode, rest: Seq<char>)
    requires
        well_formed(rules),
        mode.valid_for(rules),
    ensures
        deepest(rules, mode, rest) <= mode.depth() + rest.len(),
    decreases rest.len(), mode.open_comments(),
{
    let o = step(rules, mode, rest);
    lemma_step(rules, mode, rest);
    if o.event is Retry || o.event is Produced {
        law_depth_within_length(rules, o.mode, o.rest);
    }
}

/// Where no rule of the table nests, the engine never leaves depth 0.
pub proof fn law_no_depth_without_nesting(rules: Seq<Rule>, mode: Mode, rest: Seq<char>)
    requires
        well_formed(rules),
        mode.valid_for(rules),
        forall|i: int| 0 <= i < rules.len() ==> !(#[trigger] rules[i]).nests,
    ensures
        deepest(rules, mode, rest) == 0,
    decreases rest.len(), mode.open_comments(),
{
    let o = step(rules, mode, rest);
    lemma_step(rules, mode, rest);
    if o.event is Retry || o.event is Produced {
        law_no_depth_without_nesting(rules, o.mode, o.rest);
    }
}

} // verus!
