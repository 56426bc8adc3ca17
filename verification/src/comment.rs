//! Comment rules as the language tables hold them.

use crate::model::Rule;
use vstd::prelude::*;

verus! {

/// A set of rules for matching one kind of comment of a language, such as the
/// block comment of Rust or the line comment of Haskell. Neither pattern of a
/// `Comment` is empty.
#[derive(Copy, Clone, Debug)]
pub struct Comment {
    /// Open comment pattern, such as `/*`
    open_pat: &'static str,
    /// Close comment pattern, such as `*/`
    close_pat: &'static str,
    /// Whether this kind of comment can be nested. Rust block comments can be
    /// nested, C block comments cannot.
    nests: bool,
    /// Whether the close pattern is returned as part of the text. The `*/` of
    /// a block comment is not, the newline that ends a line comment is.
    keep_close_pat: bool,
    /// Whether the close pattern may stand in plain text. A newline may, the
    /// `*/` of a block comment is an error unless it closes a comment.
    allow_close_pat: bool,
}

impl Comment {
    #[verifier::type_invariant]
    spec fn patterns_not_empty(self) -> bool {
        self.open_pat@.len() > 0 && self.close_pat@.len() > 0
    }

    /// The rule that this comment stands for.
    pub closed spec fn view(&self) -> Rule {
        Rule {
            open: self.open_pat@,
            close: self.close_pat@,
            nests: self.nests,
            keep_close: self.keep_close_pat,
            allow_bare_close: self.allow_close_pat,
        }
    }

    /// The comment with the given patterns and flags, or `None` if one of the
    /// patterns is empty.
    pub fn new(
        open_pat: &'static str,
        close_pat: &'static str,
        nests: bool,
        keep_close_pat: bool,
        allow_close_pat: bool,
    ) -> (made: Option<Comment>)
        ensures
            made is Some <==> open_pat@.len() > 0 && close_pat@.len() > 0,
            made matches Some(c) ==> c@ == (Rule {
                open: open_pat@,
                close: close_pat@,
                nests,
                keep_close: keep_close_pat,
                allow_bare_close: allow_close_pat,
            }),
    {
        if open_pat.is_empty() || close_pat.is_empty() {
            None
        } else {
            Some(Comment { open_pat, close_pat, nests, keep_close_pat, allow_close_pat })
        }
    }

    /// The pattern that opens the comment.
    pub fn open_pat(&self) -> (pat: &'static str)
        ensures
            pat@ == self@.open,
            self@.well_formed(),
    {
        proof {
            use_type_invariant(self);
        }
        self.open_pat
    }

    /// The pattern that closes the comment.
    pub fn close_pat(&self) -> (pat: &'static str)
        ensures
            pat@ == self@.close,
            self@.well_formed(),
    {
        proof {
            use_type_invariant(self);
        }
        self.close_pat
    }

    /// Whether the comment can be nested.
    pub fn nests(&self) -> (nests: bool)
        ensures
            nests == self@.nests,
    {
        self.nests
    }

    /// Whether the close pattern is returned as part of the text.
    pub fn keep_close_pat(&self) -> (keep: bool)
        ensures
            keep == self@.keep_close,
    {
        self.keep_close_pat
    }

    /// Whether the close pattern may stand in plain text.
    pub fn allow_close_pat(&self) -> (allow: bool)
        ensures
            allow == self@.allow_bare_close,
    {
        self.allow_close_pat
    }
}

/// The rules that a table of comments stands for, in the table's order.
pub open spec fn rules_of(table: Seq<Comment>) -> Seq<Rule> {
    Seq::new(table.len(), |i: int| table[i]@)
}

} // verus!
