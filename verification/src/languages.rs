//! Comment tables of four languages. The order of a table is the order in
//! which the engine tries its rules.

use crate::comment::rules_of;
use crate::comment::Comment;
use crate::model::Rule;
use vstd::prelude::*;

verus! {

/// A comment that runs from `open` to the end of the line. The newline stays
/// in the text, and a newline in plain text is no error.
pub open spec fn line_comment(open: Seq<char>) -> Rule {
    Rule { open, close: seq!['\n'], nests: false, keep_close: true, allow_bare_close: true }
}

/// A comment that runs from `open` to `close`. The close pattern is dropped
/// with the comment, and is an error where no comment is open.
pub open spec fn block_comment(open: Seq<char>, close: Seq<char>, nests: bool) -> Rule {
    Rule { open, close, nests, keep_close: false, allow_bare_close: false }
}

/// The comments of Rust: `//` to the end of the line, and `/*` to `*/`, nested.
pub open spec fn rust_rules() -> Seq<Rule> {
    seq![line_comment(seq!['/', '/']), block_comment(seq!['/', '*'], seq!['*', '/'], true)]
}

/// The comments of C: `//` to the end of the line, and `/*` to `*/`, not nested.
pub open spec fn c_rules() -> Seq<Rule> {
    seq![line_comment(seq!['/', '/']), block_comment(seq!['/', '*'], seq!['*', '/'], false)]
}

/// The comments of Python: `#` to the end of the line, and text between two
/// `'''` or between two `"""`, not nested.
pub open spec fn python_rules() -> Seq<Rule> {
    seq![
        line_comment(seq!['#']),
        block_comment(seq!['\'', '\'', '\''], seq!['\'', '\'', '\''], false),
        block_comment(seq!['"', '"', '"'], seq!['"', '"', '"'], false),
    ]
}

/// The comments of Haskell: `--` to the end of the line, and `{-` to `-}`, nested.
pub open spec fn haskell_rules() -> Seq<Rule> {
    seq![line_comment(seq!['-', '-']), block_comment(seq!['{', '-'], seq!['-', '}'], true)]
}

/// The comment table of Rust.
pub fn rust() -> (table: Box<[Comment]>)
    ensures
        rules_of(table@) == rust_rules(),
{
    proof {
        reveal_strlit("//");
        reveal_strlit("\n");
        reveal_strlit("/*");
        reveal_strlit("*/");
        assert("//"@ =~= seq!['/', '/']);
        assert("\n"@ =~= seq!['\n']);
        assert("/*"@ =~= seq!['/', '*']);
        assert("*/"@ =~= seq!['*', '/']);
    }
    let line = Comment::new("//", "\n", false, true, true).unwrap();
    let block = Comment::new("/*", "*/", true, false, false).unwrap();
    Box::new([line, block])
}

/// The comment table of C.
pub fn c() -> (table: Box<[Comment]>)
    ensures
        rules_of(table@) == c_rules(),
{
    proof {
        reveal_strlit("//");
        reveal_strlit("\n");
        reveal_strlit("/*");
        reveal_strlit("*/");
        assert("//"@ =~= seq!['/', '/']);
        assert("\n"@ =~= seq!['\n']);
        assert("/*"@ =~= seq!['/', '*']);
        assert("*/"@ =~= seq!['*', '/']);
    }
    let line = Comment::new("//", "\n", false, true, true).unwrap();
    let block = Comment::new("/*", "*/", false, false, false).unwrap();
    Box::new([line, block])
}

/// The comment table of Python.
pub fn python() -> (table: Box<[Comment]>)
    ensures
        rules_of(table@) == python_rules(),
{
    proof {
        reveal_strlit("#");
        reveal_strlit("\n");
        reveal_strlit("'''");
        reveal_strlit("\"\"\"");
        assert("#"@ =~= seq!['#']);
        assert("\n"@ =~= seq!['\n']);
        assert("'''"@ =~= seq!['\'', '\'', '\'']);
        assert("\"\"\""@ =~= seq!['"', '"', '"']);
    }
    let line = Comment::new("#", "\n", false, true, true).unwrap();
    // the close pattern of a block is never found in plain text: the open
    // pattern, which is the same, matches first
    let single = Comment::new("'''", "'''", false, false, false).unwrap();
    let double = Comment::new("\"\"\"", "\"\"\"", false, false, false).unwrap();
    Box::new([line, single, double])
}

/// The comment table of Haskell.
pub fn haskell() -> (table: Box<[Comment]>)
    ensures
        rules_of(table@) == haskell_rules(),
{
    proof {
        reveal_strlit("--");
        reveal_strlit("\n");
        reveal_strlit("{-");
        reveal_strlit("-}");
        assert("--"@ =~= seq!['-', '-']);
        assert("\n"@ =~= seq!['\n']);
        assert("{-"@ =~= seq!['{', '-']);
        assert("-}"@ =~= seq!['-', '}']);
    }
    let line = Comment::new("--", "\n", false, true, true).unwrap();
    let block = Comment::new("{-", "-}", true, false, false).unwrap();
    Box::new([line, block])
}

} // verus!
