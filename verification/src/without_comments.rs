//! The engine that removes comments from a stream of characters.

use crate::buffer::Buf;
use crate::comment::rules_of;
use crate::comment::Comment;
use crate::model::advance;
use crate::model::after;
use crate::model::deepest;
use crate::model::filtered;
use crate::model::first_hit;
use crate::model::lemma_after_twice;
use crate::model::lemma_deepest;
use crate::model::lemma_filtered_by_advance;
use crate::model::lemma_longest_pattern;
use crate::model::max_pattern_len;
use crate::model::step;
use crate::model::well_formed;
use crate::model::Event;
use crate::model::Mode;
use crate::model::Rule;
use vstd::prelude::*;
use vstd::std_specs::iter::IteratorSpec;
use vstd::string::StrSliceExecFns;
use vstd::string::StringExecFns;

verus! {

/// Like `Option`, with one more value, `Retry`, for a step that has no item
/// to return yet and has to be made again. `Exhausted` ends the iteration.
#[derive(Debug)]
pub enum Tription<T> {
    /// An item of type `T` is returned
    Produced(T),
    /// Iteration has completed
    Exhausted,
    /// No item can be returned but another attempt should be made
    Retry,
}

impl<T> From<Option<T>> for Tription<T> {
    fn from(o: Option<T>) -> (t: Self) {
        match o {
            Some(item) => Tription::Produced(item),
            None => Tription::Exhausted,
        }
    }
}

impl<T> vstd::std_specs::convert::FromSpecImpl<Option<T>> for Tription<T> {
    open spec fn obeys_from_spec() -> bool {
        true
    }

    open spec fn from_spec(o: Option<T>) -> Self {
        match o {
            Some(item) => Tription::Produced(item),
            None => Tription::Exhausted,
        }
    }
}

/// The table of comments is empty: it has no pattern to look for.
#[derive(Copy, Clone, Debug)]
pub struct ConfigurationError;

/// A close pattern was found in plain text, where its rule does not allow it.
#[derive(Copy, Clone, Debug)]
pub struct UnmatchedCloseError {
    /// Index of the rule in the table.
    pub rule: usize,
    /// The close pattern that was found.
    pub close_pat: &'static str,
    /// The open pattern that should have come before it.
    pub open_pat: &'static str,
}

impl UnmatchedCloseError {
    /// The error names the rule at its index in `rules` by both patterns.
    pub open spec fn names(self, rules: Seq<Rule>) -> bool {
        &&& self.rule < rules.len()
        &&& self.close_pat@ == rules[self.rule as int].close
        &&& self.open_pat@ == rules[self.rule as int].open
    }

    /// The error in words: which pattern was found, and which one it lacks.
    pub fn message(&self) -> (text: String)
        ensures
            text@ == "Got \""@ + self.close_pat@ + "\" without matching \""@ + self.open_pat@
                + "\""@,
    {
        let mut text = String::from_str("Got \"");
        text.append(self.close_pat);
        text.append("\" without matching \"");
        text.append(self.open_pat);
        text.append("\"");
        text
    }
}

/// The event that the result of a step stands for.
pub open spec fn event_of(r: Result<Tription<char>, UnmatchedCloseError>) -> Event {
    match r {
        Ok(Tription::Produced(c)) => Event::Produced(c),
        Ok(Tription::Exhausted) => Event::Exhausted,
        Ok(Tription::Retry) => Event::Retry,
        Err(e) => Event::UnmatchedClose(e.rule as int),
    }
}

/// The event that the result of `next` stands for.
pub open spec fn event_of_item(r: Result<Option<char>, UnmatchedCloseError>) -> Event {
    match r {
        Ok(Some(c)) => Event::Produced(c),
        Ok(None) => Event::Exhausted,
        Err(e) => Event::UnmatchedClose(e.rule as int),
    }
}

/// Lexicographic order on triples of natural numbers.
pub open spec fn lower(a: (nat, nat, nat), b: (nat, nat, nat)) -> bool {
    a.0 < b.0 || (a.0 == b.0 && (a.1 < b.1 || (a.1 == b.1 && a.2 < b.2)))
}

/// The state of the engine.
enum State {
    /// In plain text.
    Text,
    /// In a comment of the rule with index `rule`; `depth` is `None` if the
    /// rule does not nest, else the nesting depth, starting at 0.
    InComment { rule: usize, depth: Option<usize> },
}

impl State {
    spec fn view(self) -> Mode {
        match self {
            State::Text => Mode::Text,
            State::InComment { rule, depth } => Mode::InComment {
                rule: rule as int,
                depth: match depth {
                    Some(d) => Some(d as nat),
                    None => None,
                },
            },
        }
    }
}

/// Removes comments from a stream of characters, by a table of `Comment`
/// rules. A comment that is not closed runs to the end of the stream. A close
/// pattern that stands in plain text, where its rule does not allow it, is an
/// error.
pub struct WithoutComments<I: Iterator<Item = char>> {
    /// Inner `char` iterator
    iter: I,
    /// Buffer used to match against open and close patterns
    buf: Buf,
    /// List of types of comments and associated rules
    comments: Box<[Comment]>,
    /// The current state
    state: State,
    /// Whether `iter` has been seen to end
    ended: Ghost<bool>,
}

impl<I: Iterator<Item = char>> WithoutComments<I> {
    /// The table of rules.
    pub closed spec fn rules(&self) -> Seq<Rule> {
        rules_of(self.comments@)
    }

    /// Where the engine stands.
    pub closed spec fn mode(&self) -> Mode {
        self.state@
    }

    /// The characters that were taken from the source and not yet looked at.
    pub closed spec fn buffered(&self) -> Seq<char> {
        self.buf@
    }

    /// The source of characters.
    pub closed spec fn source(&self) -> I {
        self.iter
    }

    /// The number of characters that the engine looks ahead.
    pub closed spec fn lookahead(&self) -> nat {
        self.buf.capacity()
    }

    /// The engine looks ahead at least one character and far enough for every
    /// pattern of its table, it holds no more characters than it looks
    /// ahead, its mode fits the table, and its source is an iterator that
    /// ends.
    pub open spec fn wf(&self) -> bool {
        &&& 0 < self.lookahead()
        &&& self.buffered().len() <= self.lookahead()
        &&& well_formed(self.rules())
        &&& max_pattern_len(self.rules()) <= self.lookahead()
        &&& self.mode().valid_for(self.rules())
        &&& self.source().obeys_prophetic_iter_laws()
        &&& self.source().decrease() is Some
    }

    /// The engine can go on with `upcoming` as what its source still holds:
    /// the nesting depth fits in a `usize` all the way through it, and
    /// nothing is to come from a source that was seen to end.
    pub closed spec fn admits(&self, upcoming: Seq<char>) -> bool {
        &&& self.ended@ ==> upcoming.len() == 0
        &&& deepest(self.rules(), self.state@, self.buf@ + upcoming) <= usize::MAX
    }

    /// What is left for the engine to do, as a measure that every retry lowers.
    pub closed spec fn fuel(&self) -> (nat, nat, nat) {
        (
            if self.ended@ {
                0
            } else {
                self.iter.decrease()->0 + 1
            },
            self.buf@.len(),
            self.state@.open_comments(),
        )
    }

    /// An engine over `iter` with the table `comments`, in plain text, that
    /// looks `buf_len` characters ahead.
    ///
    /// The source has to be an iterator that ends, on which the nesting
    /// depth fits in a `usize`: `law_depth_within_length` shows that it does
    /// where no more than `usize::MAX` characters are to come, and
    /// `law_no_depth_without_nesting` that it does where no rule nests.
    pub fn new(iter: I, comments: Box<[Comment]>, buf_len: usize) -> (made: Self)
        requires
            iter.obeys_prophetic_iter_laws(),
            iter.decrease() is Some,
            deepest(rules_of(comments@), Mode::Text, iter.remaining()) <= usize::MAX,
            well_formed(rules_of(comments@)),
            0 < buf_len,
            max_pattern_len(rules_of(comments@)) <= buf_len,
        ensures
            made.wf(),
            made.admits(iter.remaining()),
            made.rules() == rules_of(comments@),
            made.mode() == Mode::Text,
            made.buffered() == Seq::<char>::empty(),
            made.source() == iter,
            made.lookahead() == buf_len,
    {
        Self {
            iter,
            // buffer will be filled in first call to self.next_()
            buf: Buf::new(buf_len),
            comments,
            state: State::Text,
            ended: Ghost(false),
        }
    }

    /// One step of the engine: fills the buffer, then opens or closes a
    /// comment, drops a character of a comment, or returns a character of
    /// plain text.
    ///
    /// The step is `Retry` where the engine moved without a character to
    /// return: after `*/` the buffer has to be filled again before a `/*` that
    /// follows at once can be seen, which the next step does. Every step but
    /// one at the end of the input lowers the engine's fuel.
    pub fn next_(&mut self) -> (r: Result<Tription<char>, UnmatchedCloseError>)
        requires
            old(self).wf(),
            old(self).admits(old(self).source().remaining()),
        ensures
            final(self).wf(),
            final(self).admits(final(self).source().remaining()),
            final(self).rules() == old(self).rules(),
            final(self).lookahead() == old(self).lookahead(),
            ({
                let o = step(
                    old(self).rules(),
                    old(self).mode(),
                    old(self).buffered() + old(self).source().remaining(),
                );
                &&& event_of(r) == o.event
                &&& final(self).mode() == o.mode
                &&& final(self).buffered() + final(self).source().remaining() == o.rest
            }),
            r matches Err(e) ==> e.names(old(self).rules()),
            r matches Ok(t) ==> t is Exhausted || lower(final(self).fuel(), old(self).fuel()),
    {
        let ghost coming = self.iter.remaining();
        // at least one element missing from previous call
        self.buf.fill_up(&mut self.iter);
        proof {
            self.ended@ = self.ended@ || self.buf@.len() < self.buf.capacity();
            assert(self.buf@ + self.iter.remaining() =~= old(self).buf@ + coming);
        }

        if self.buf.is_empty() {
            return Ok(Tription::Exhausted);
        }
        match self.state {
            // if in comment
            State::InComment { rule, depth } => {
                self.step_in_comment(rule, depth);
                Ok(Tription::Retry)
            },
            // if in text
            State::Text => self.step_in_text(),
        }
    }

    /// The step inside a comment of the rule with index `rule`, once the
    /// buffer is filled: closes the comment, opens a nested one, or drops a
    /// character.
    fn step_in_comment(&mut self, rule: usize, depth: Option<usize>)
        requires
            old(self).wf(),
            old(self).admits(old(self).iter.remaining()),
            old(self).state == (State::InComment { rule, depth }),
            old(self).buf@.len() > 0,
            old(self).buf@.len() == old(self).buf.capacity() || old(self).iter.remaining().len()
                == 0,
        ensures
            final(self).wf(),
            final(self).admits(final(self).iter.remaining()),
            final(self).comments == old(self).comments,
            final(self).iter == old(self).iter,
            final(self).ended == old(self).ended,
            final(self).buf.capacity() == old(self).buf.capacity(),
            ({
                let o = step(
                    old(self).rules(),
                    old(self).state@,
                    old(self).buf@ + old(self).iter.remaining(),
                );
                &&& o.event is Retry
                &&& final(self).state@ == o.mode
                &&& final(self).buf@ + final(self).iter.remaining() == o.rest
            }),
            final(self).buf@.len() < old(self).buf@.len() || (final(self).buf@.len() == old(
                self,
            ).buf@.len() && final(self).state@.open_comments() < old(self).state@.open_comments()),
    {
        let ghost rest = self.buf@ + self.iter.remaining();
        let comment = self.comments[rule];
        let open_pat = comment.open_pat();
        let close_pat = comment.close_pat();
        proof {
            lemma_deepest(self.rules(), self.state@, rest);
            lemma_longest_pattern(self.rules(), rule as int);
        }

        // check close before open to make things like python's '''...''' work
        if self.buf.matches(close_pat) {
            // matched close pattern
            if !comment.keep_close_pat() {
                self.buf.pop_front_n(close_pat.unicode_len());
                assert(self.buf@ + self.iter.remaining() =~= rest.skip(close_pat@.len() as int));
            }
            match depth {
                // nested comment
                Some(d) if d > 0 => {
                    self.state = State::InComment { rule, depth: Some(d - 1) };
                },
                // non-nesting comment or top-level comment
                _ => {
                    self.state = State::Text;
                },
            }
        } else if depth.is_some() && self.buf.matches(open_pat) {
            // matched nesting open pattern
            self.buf.pop_front_n(open_pat.unicode_len());
            assert(self.buf@ + self.iter.remaining() =~= rest.skip(open_pat@.len() as int));
            self.state = State::InComment { rule, depth: Some(depth.unwrap() + 1) };
        } else {
            self.buf.pop_front();
            assert(self.buf@ + self.iter.remaining() =~= rest.skip(1));
        }
    }

    /// The step in plain text, once the buffer is filled: opens the comment of
    /// the first rule whose open pattern matches, fails on a close pattern
    /// that a rule before that does not allow, or returns a character.
    fn step_in_text(&mut self) -> (r: Result<Tription<char>, UnmatchedCloseError>)
        requires
            old(self).wf(),
            old(self).admits(old(self).iter.remaining()),
            old(self).state == State::Text,
            old(self).buf@.len() > 0,
            old(self).buf@.len() == old(self).buf.capacity() || old(self).iter.remaining().len()
                == 0,
        ensures
            final(self).wf(),
            final(self).admits(final(self).iter.remaining()),
            final(self).comments == old(self).comments,
            final(self).iter == old(self).iter,
            final(self).ended == old(self).ended,
            final(self).buf.capacity() == old(self).buf.capacity(),
            ({
                let o = step(
                    old(self).rules(),
                    old(self).state@,
                    old(self).buf@ + old(self).iter.remaining(),
                );
                &&& event_of(r) == o.event
                &&& final(self).state@ == o.mode
                &&& final(self).buf@ + final(self).iter.remaining() == o.rest
            }),
            r matches Err(e) ==> e.names(old(self).rules()),
            r is Ok ==> final(self).buf@.len() < old(self).buf@.len(),
    {
        let ghost rules = self.rules();
        let ghost rest = self.buf@ + self.iter.remaining();
        let mut idx: usize = 0;
        // for each rule...
        while idx < self.comments.len()
            invariant
                idx <= self.comments@.len(),
                *self == *old(self),
                self.wf(),
                self.admits(self.iter.remaining()),
                self.state == State::Text,
                self.buf@.len() > 0,
                self.buf@.len() == self.buf.capacity() || self.iter.remaining().len() == 0,
                rules == self.rules(),
                rest == self.buf@ + self.iter.remaining(),
                first_hit(rules, rest, 0) == first_hit(rules, rest, idx as int),
            decreases self.comments@.len() - idx,
        {
            let comment = self.comments[idx];
            let open_pat = comment.open_pat();
            let close_pat = comment.close_pat();
            proof {
                lemma_deepest(rules, Mode::Text, rest);
                lemma_longest_pattern(rules, idx as int);
            }

            // if it matches open pattern, open
            if self.buf.matches(open_pat) {
                self.buf.pop_front_n(open_pat.unicode_len());
                assert(self.buf@ + self.iter.remaining() =~= rest.skip(open_pat@.len() as int));
                let depth = if comment.nests() {
                    Some(0)
                } else {
                    None
                };
                self.state = State::InComment { rule: idx, depth };
                return Ok(Tription::Retry);
            } else if !comment.allow_close_pat() && self.buf.matches(close_pat) {
                // if close pattern forbidden, fail
                return Err(UnmatchedCloseError { rule: idx, close_pat, open_pat });
            }
            idx += 1;
        }

        proof {
            lemma_deepest(rules, Mode::Text, rest);
        }
        let c = self.buf.pop_front();
        assert(self.buf@ + self.iter.remaining() =~= rest.skip(1));
        Ok(Tription::Produced(c))
    }

    /// The next character of the text without its comments, or `None` at the
    /// end of the text. Steps the engine with `next_` until a step yields
    /// something other than `Retry`.
    pub fn next(&mut self) -> (r: Result<Option<char>, UnmatchedCloseError>)
        requires
            old(self).wf(),
            old(self).admits(old(self).source().remaining()),
        ensures
            final(self).wf(),
            final(self).admits(final(self).source().remaining()),
            final(self).rules() == old(self).rules(),
            final(self).lookahead() == old(self).lookahead(),
            ({
                let o = advance(
                    old(self).rules(),
                    old(self).mode(),
                    old(self).buffered() + old(self).source().remaining(),
                );
                &&& event_of_item(r) == o.event
                &&& final(self).mode() == o.mode
                &&& final(self).buffered() + final(self).source().remaining() == o.rest
            }),
            r matches Err(e) ==> e.names(old(self).rules()),
            r matches Ok(Some(_)) ==> lower(final(self).fuel(), old(self).fuel()),
    {
        loop
            invariant
                self.wf(),
                self.admits(self.source().remaining()),
                self.rules() == old(self).rules(),
                self.lookahead() == old(self).lookahead(),
                advance(
                    self.rules(),
                    self.mode(),
                    self.buffered() + self.source().remaining(),
                ) == advance(
                    old(self).rules(),
                    old(self).mode(),
                    old(self).buffered() + old(self).source().remaining(),
                ),
                self.fuel() == old(self).fuel() || lower(self.fuel(), old(self).fuel()),
            decreases self.fuel().0, self.fuel().1, self.fuel().2,
        {
            match self.next_() {
                Err(e) => {
                    return Err(e);
                },
                Ok(Tription::Exhausted) => {
                    return Ok(None);
                },
                Ok(Tription::Produced(c)) => {
                    return Ok(Some(c));
                },
                Ok(Tription::Retry) => (),
            }
        }
    }

    /// All the text without its comments, or the first close pattern found
    /// where no comment was open.
    pub fn collect(self) -> (r: Result<Vec<char>, UnmatchedCloseError>)
        requires
            self.wf(),
            self.admits(self.source().remaining()),
        ensures
            ({
                let whole = filtered(
                    self.rules(),
                    self.mode(),
                    self.buffered() + self.source().remaining(),
                );
                match r {
                    Ok(text) => whole == Ok::<Seq<char>, int>(text@),
                    Err(e) => whole == Err::<Seq<char>, int>(e.rule as int) && e.names(
                        self.rules(),
                    ),
                }
            }),
    {
        let mut engine = self;
        let mut text: Vec<char> = Vec::new();
        loop
            invariant
                engine.wf(),
                engine.admits(engine.source().remaining()),
                engine.rules() == self.rules(),
                filtered(self.rules(), self.mode(), self.buffered() + self.source().remaining())
                    == after(
                    text@,
                    filtered(
                        engine.rules(),
                        engine.mode(),
                        engine.buffered() + engine.source().remaining(),
                    ),
                ),
            decreases engine.fuel().0, engine.fuel().1, engine.fuel().2,
        {
            proof {
                lemma_filtered_by_advance(
                    engine.rules(),
                    engine.mode(),
                    engine.buffered() + engine.source().remaining(),
                );
            }
            let ghost before = text@;
            match engine.next() {
                Err(e) => {
                    return Err(e);
                },
                Ok(None) => {
                    return Ok(text);
                },
                Ok(Some(c)) => {
                    text.push(c);
                    proof {
                        lemma_after_twice(
                            before,
                            seq![c],
                            filtered(
                                engine.rules(),
                                engine.mode(),
                                engine.buffered() + engine.source().remaining(),
                            ),
                        );
                        assert(before + seq![c] =~= before.push(c));
                    }
                },
            }
        }
    }
}

/// Gives every iterator over `char` the method `without_comments`.
pub trait IntoWithoutComments: Sized + Iterator<Item = char> {
    /// An engine that removes from `self` the comments that the table
    /// `language` describes. It looks ahead as far as the longest pattern of
    /// the table is long; a table without a pattern is an error.
    ///
    /// `self` has to be an iterator that ends, on which the nesting depth
    /// fits in a `usize`: `law_depth_within_length` shows that it does where
    /// no more than `usize::MAX` characters are to come, and
    /// `law_no_depth_without_nesting` that it does where no rule nests. Both
    /// laws speak of well-formed tables, which every table of `Comment` is.
    fn without_comments(self, language: Box<[Comment]>) -> (made: Result<
        WithoutComments<Self>,
        ConfigurationError,
    >)
        requires
            self.obeys_prophetic_iter_laws(),
            self.decrease() is Some,
            well_formed(rules_of(language@)) ==> deepest(
                rules_of(language@),
                Mode::Text,
                self.remaining(),
            ) <= usize::MAX,
        ensures
            made is Err <==> max_pattern_len(rules_of(language@)) == 0,
            made matches Ok(engine) ==> {
                &&& engine.wf()
                &&& engine.admits(self.remaining())
                &&& engine.rules() == rules_of(language@)
                &&& engine.mode() == Mode::Text
                &&& engine.buffered() == Seq::<char>::empty()
                &&& engine.source() == self
                &&& engine.lookahead() == max_pattern_len(rules_of(language@))
            },
    {
        let ghost rules = rules_of(language@);
        let mut buf_len: usize = 0;
        let mut i: usize = 0;
        while i < language.len()
            invariant
                i <= language@.len(),
                rules == rules_of(language@),
                buf_len == max_pattern_len(rules.take(i as int)),
                forall|j: int| 0 <= j < i ==> (#[trigger] rules[j]).well_formed(),
            decreases language@.len() - i,
        {
            let comment = language[i];
            let open_len = comment.open_pat().unicode_len();
            let close_len = comment.close_pat().unicode_len();
            proof {
                assert(rules.take(i + 1).drop_last() =~= rules.take(i as int));
            }
            if open_len > buf_len {
                buf_len = open_len
            }
            if close_len > buf_len {
                buf_len = close_len
            }
            i += 1;
        }
        assert(rules.take(i as int) =~= rules);
        if buf_len == 0 {
            return Err(ConfigurationError);
        }
        Ok(WithoutComments::new(self, language, buf_len))
    }
}

/// Blanket implementation
impl<I: Iterator<Item = char>> IntoWithoutComments for I {}

} // verus!
