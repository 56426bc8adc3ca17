use no_comment::languages::{c, haskell, python, rust};
use no_comment::{
    Comment, ConfigurationError, IntoWithoutComments, Tription, UnmatchedCloseError,
    WithoutComments,
};

fn strip(text: &str, language: Box<[Comment]>) -> Result<String, UnmatchedCloseError> {
    let engine = text.chars().without_comments(language).unwrap();
    engine.collect().map(|chars| chars.into_iter().collect::<String>())
}

fn table(rules: Vec<Option<Comment>>) -> Box<[Comment]> {
    rules
        .into_iter()
        .map(|rule| rule.unwrap())
        .collect::<Vec<Comment>>()
        .into_boxed_slice()
}

#[test]
fn text_without_patterns_is_unchanged() {
    let texts = ["", "a", "fn main() { let x = 1 + 2; }", "a / b * c", "-{ x }-"];
    for text in texts.iter() {
        assert_eq!(strip(text, rust()).unwrap(), *text);
        assert_eq!(strip(text, c()).unwrap(), *text);
    }
    assert_eq!(strip("a / b * c - d", python()).unwrap(), "a / b * c - d");
    assert_eq!(strip("a / b * c # d", haskell()).unwrap(), "a / b * c # d");
}

#[test]
fn line_comment_keeps_the_newline() {
    assert_eq!(strip("text//comment\nmore", rust()).unwrap(), "text\nmore");
    assert_eq!(strip("text//comment\nmore", c()).unwrap(), "text\nmore");
}

#[test]
fn nesting_block_closes_at_the_matching_close() {
    assert_eq!(strip("/* /* */ */", rust()).unwrap(), "");
    assert_eq!(strip("a{- {- -} b -}c", haskell()).unwrap(), "ac");
}

#[test]
fn block_that_does_not_nest_closes_at_the_first_close() {
    let lenient = table(vec![Comment::new("/*", "*/", false, false, true)]);
    assert_eq!(strip("/* /* */ */", lenient).unwrap(), " */");
}

#[test]
fn close_after_a_block_that_does_not_nest_is_an_error_in_c() {
    let error = strip("/* /* */ */", c()).unwrap_err();
    assert_eq!(error.rule, 1);
    assert_eq!(error.close_pat, "*/");
    assert_eq!(error.open_pat, "/*");
}

#[test]
fn unclosed_block_runs_to_the_end() {
    assert_eq!(strip("/* unclosed", c()).unwrap(), "");
    assert_eq!(strip("/* unclosed", rust()).unwrap(), "");
    assert_eq!(strip("/* /* one closed */ unclosed", rust()).unwrap(), "");
    assert_eq!(strip("kept''' unclosed", python()).unwrap(), "kept");
}

#[test]
fn bare_close_is_an_error() {
    let error = strip("*/", c()).unwrap_err();
    assert_eq!(error.rule, 1);
    assert_eq!(error.close_pat, "*/");
    assert_eq!(error.open_pat, "/*");
    assert_eq!(error.message(), "Got \"*/\" without matching \"/*\"");

    let error = strip("ab -} cd", haskell()).unwrap_err();
    assert_eq!(error.rule, 1);
    assert_eq!(error.message(), "Got \"-}\" without matching \"{-\"");
}

#[test]
fn bare_newline_is_no_error() {
    assert_eq!(strip("\n", c()).unwrap(), "\n");
    assert_eq!(strip("\n", rust()).unwrap(), "\n");
    assert_eq!(strip("\n", python()).unwrap(), "\n");
    assert_eq!(strip("\n", haskell()).unwrap(), "\n");
}

#[test]
fn adjacent_comments_leave_nothing_between_them() {
    assert_eq!(strip("/* a *//* b */", c()).unwrap(), "");
    assert_eq!(strip("/* a *//* b */", rust()).unwrap(), "");
    assert_eq!(strip("x/* a *//* b */y", c()).unwrap(), "xy");
}

#[test]
fn same_open_and_close_pattern_closes_first() {
    assert_eq!(strip("'''a'''''b'''", python()).unwrap(), "''b");
    assert_eq!(strip("'''a''''''b'''", python()).unwrap(), "");
    assert_eq!(strip("'''a'''b", python()).unwrap(), "b");
}

#[test]
fn python_block_close_is_never_bare() {
    assert_eq!(strip("'''", python()).unwrap(), "");
    assert_eq!(strip("\"\"\"", python()).unwrap(), "");
}

#[test]
fn empty_table_is_a_configuration_error() {
    let empty: Box<[Comment]> = Vec::new().into_boxed_slice();
    let made = "text".chars().without_comments(empty);
    assert!(matches!(made, Err(ConfigurationError)));
}

#[test]
fn table_with_one_rule_is_accepted() {
    let one = table(vec![Comment::new("#", "\n", false, true, true)]);
    assert!("text".chars().without_comments(one).is_ok());
}

#[test]
fn comment_with_an_empty_pattern_is_refused() {
    assert!(Comment::new("", "*/", false, false, false).is_none());
    assert!(Comment::new("/*", "", false, false, false).is_none());
    assert!(Comment::new("", "", true, true, true).is_none());
    assert!(Comment::new("/*", "*/", false, false, false).is_some());
}

#[test]
fn comment_hands_out_what_it_was_made_of() {
    let comment = Comment::new("{-", "-}", true, false, true).unwrap();
    assert_eq!(comment.open_pat(), "{-");
    assert_eq!(comment.close_pat(), "-}");
    assert!(comment.nests());
    assert!(!comment.keep_close_pat());
    assert!(comment.allow_close_pat());

    let comment = Comment::new("//", "\n", false, true, false).unwrap();
    assert_eq!(comment.open_pat(), "//");
    assert_eq!(comment.close_pat(), "\n");
    assert!(!comment.nests());
    assert!(comment.keep_close_pat());
    assert!(!comment.allow_close_pat());
}

#[test]
fn language_tables_hold_their_rules_in_order() {
    let describe = |table: Box<[Comment]>| {
        table
            .iter()
            .map(|rule| {
                (
                    rule.open_pat(),
                    rule.close_pat(),
                    rule.nests(),
                    rule.keep_close_pat(),
                    rule.allow_close_pat(),
                )
            })
            .collect::<Vec<_>>()
    };
    assert_eq!(
        describe(rust()),
        vec![("//", "\n", false, true, true), ("/*", "*/", true, false, false)]
    );
    assert_eq!(
        describe(c()),
        vec![("//", "\n", false, true, true), ("/*", "*/", false, false, false)]
    );
    assert_eq!(
        describe(python()),
        vec![
            ("#", "\n", false, true, true),
            ("'''", "'''", false, false, false),
            ("\"\"\"", "\"\"\"", false, false, false),
        ]
    );
    assert_eq!(
        describe(haskell()),
        vec![("--", "\n", false, true, true), ("{-", "-}", true, false, false)]
    );
}

#[test]
fn rules_are_tried_in_the_order_of_the_table() {
    let short_first = table(vec![
        Comment::new("/", "\n", false, true, true),
        Comment::new("/*", "*/", false, false, true),
    ]);
    assert_eq!(strip("a/* b */ c\nd", short_first).unwrap(), "a\nd");

    let long_first = table(vec![
        Comment::new("/*", "*/", false, false, true),
        Comment::new("/", "\n", false, true, true),
    ]);
    assert_eq!(strip("a/* b */ c\nd", long_first).unwrap(), "a c\nd");
}

#[test]
fn kept_close_pattern_is_read_again_as_text() {
    let kept = table(vec![Comment::new("<", ">", false, true, true)]);
    assert_eq!(strip("a<b>c", kept).unwrap(), "a>c");

    // the kept close pattern closes every level of a nested comment
    let nested = table(vec![Comment::new("<", ">", true, true, true)]);
    assert_eq!(strip("a<<b>c", nested).unwrap(), "a>c");

    // a kept close pattern that opens a comment of another rule
    let chained = table(vec![
        Comment::new("//", "#", false, true, true),
        Comment::new("#", "\n", false, false, true),
    ]);
    assert_eq!(strip("a//b#c\nd", chained).unwrap(), "ad");
}

#[test]
fn patterns_are_measured_in_characters() {
    let guillemets = table(vec![Comment::new("«", "»", true, false, false)]);
    assert_eq!(strip("a«b«c»d»e", guillemets).unwrap(), "ae");

    let arrows = table(vec![Comment::new("→→", "←", false, false, true)]);
    assert_eq!(strip("é→→è←ê→", arrows).unwrap(), "éê→");
}

#[test]
fn pattern_cut_short_by_the_end_does_not_match() {
    assert_eq!(strip("a/", c()).unwrap(), "a/");
    assert_eq!(strip("a*", c()).unwrap(), "a*");
    assert_eq!(strip("a''", python()).unwrap(), "a''");
    assert_eq!(strip("/* a *", c()).unwrap(), "");
}

#[test]
fn next_hands_out_one_character_at_a_time() {
    let mut engine = "a/*b*/c".chars().without_comments(c()).unwrap();
    assert_eq!(engine.next().unwrap(), Some('a'));
    assert_eq!(engine.next().unwrap(), Some('c'));
    assert_eq!(engine.next().unwrap(), None);
    assert_eq!(engine.next().unwrap(), None);
}

#[test]
fn next_returns_the_text_before_an_error_and_then_the_error() {
    let mut engine = "ab*/c".chars().without_comments(c()).unwrap();
    assert_eq!(engine.next().unwrap(), Some('a'));
    assert_eq!(engine.next().unwrap(), Some('b'));
    let error = engine.next().unwrap_err();
    assert_eq!(error.rule, 1);
    assert_eq!(error.close_pat, "*/");
    // the engine stays where it found the pattern
    let again = engine.next().unwrap_err();
    assert_eq!(again.rule, 1);
}

fn step(engine: &mut WithoutComments<std::str::Chars<'_>>) -> &'static str {
    match engine.next_() {
        Ok(Tription::Produced(_)) => "produced",
        Ok(Tription::Exhausted) => "exhausted",
        Ok(Tription::Retry) => "retry",
        Err(_) => "error",
    }
}

#[test]
fn steps_retry_while_inside_a_comment() {
    let mut engine = "a/*b*/c".chars().without_comments(c()).unwrap();
    assert!(matches!(engine.next_(), Ok(Tription::Produced('a'))));
    // opens the comment, drops `b`, closes the comment
    assert_eq!(step(&mut engine), "retry");
    assert_eq!(step(&mut engine), "retry");
    assert_eq!(step(&mut engine), "retry");
    assert!(matches!(engine.next_(), Ok(Tription::Produced('c'))));
    assert_eq!(step(&mut engine), "exhausted");
    assert_eq!(step(&mut engine), "exhausted");
}

#[test]
fn steps_count_nested_comments() {
    let mut engine = "/*/**/*/x".chars().without_comments(rust()).unwrap();
    // open, open, close, close
    for _ in 0..4 {
        assert_eq!(step(&mut engine), "retry");
    }
    assert!(matches!(engine.next_(), Ok(Tription::Produced('x'))));
    assert_eq!(step(&mut engine), "exhausted");
}

#[test]
fn step_on_a_bare_close_is_an_error() {
    let mut engine = "-}".chars().without_comments(haskell()).unwrap();
    assert_eq!(step(&mut engine), "error");
}

#[test]
fn engine_made_by_hand_works_like_one_made_from_an_iterator() {
    let mut engine = WithoutComments::new("a--b\nc".chars(), haskell(), 2);
    let mut text = String::new();
    while let Some(c) = engine.next().unwrap() {
        text.push(c);
    }
    assert_eq!(text, "a\nc");

    // a buffer that is longer than the longest pattern changes nothing
    let engine = WithoutComments::new("a{-b-}c{-".chars(), haskell(), 7);
    assert_eq!(engine.collect().unwrap().into_iter().collect::<String>(), "ac");
}

#[test]
fn engine_works_on_any_iterator_over_characters() {
    let chars = vec!['a', '#', 'b', '\n', 'c'];
    let engine = chars.into_iter().without_comments(python()).unwrap();
    assert_eq!(engine.collect().unwrap(), vec!['a', '\n', 'c']);
}

#[test]
fn tription_is_made_from_an_option() {
    assert!(matches!(Tription::from(Some(7)), Tription::Produced(7)));
    assert!(matches!(Tription::<u8>::from(None), Tription::Exhausted));
}

#[test]
fn engine_looks_ahead_as_far_as_the_longest_pattern() {
    // the longest pattern of C has two characters
    let mut source = "abcdef".chars();
    let mut engine = (&mut source).without_comments(c()).unwrap();
    assert!(matches!(engine.next_(), Ok(Tription::Produced('a'))));
    drop(engine);
    assert_eq!(source.as_str(), "cdef");

    // the longest pattern of Python has three characters
    let mut source = "abcdef".chars();
    let mut engine = (&mut source).without_comments(python()).unwrap();
    assert!(matches!(engine.next_(), Ok(Tription::Produced('a'))));
    assert!(matches!(engine.next_(), Ok(Tription::Produced('b'))));
    drop(engine);
    assert_eq!(source.as_str(), "ef");
}

#[test]
fn engine_takes_nothing_from_the_source_before_the_first_step() {
    let mut source = "abc".chars();
    let engine = (&mut source).without_comments(rust()).unwrap();
    drop(engine);
    assert_eq!(source.as_str(), "abc");
}
