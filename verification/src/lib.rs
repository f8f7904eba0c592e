//! A lossless, error-tolerant front end for a small expression language:
//! lexing, token classification, an event-driven Pratt parser and the
//! replay of its event log into a concrete syntax tree.

//!
//! The text goes through [`lexer`], whose grammar [`lexical`] states and
//! [`longest_match`] characterises, to tokens; [`grammar`] drives the [`parser`] over them, which sees no trivia
//! ([`source`]) and writes an [`event`] log; the [`sink`] replays the log
//! against the tokens into a [`tree`]. [`lossless`] shows that nothing of the
//! text is lost on the way.

pub mod event;
pub mod grammar;
pub mod lexer;
pub mod lexical;
pub mod longest_match;
pub mod lossless;
pub mod marker;
pub mod parse_error;
pub mod parser;
pub mod sink;
pub mod source;
pub mod syntax;
pub mod text;
pub mod token_kind;
pub mod token_set;
pub mod tree;

use vstd::prelude::*;
use vstd::string::*;

verus! {

/// The messages of `errors`, each after a line break.
pub open spec fn error_lines(errors: Seq<parse_error::ParseErrorView>) -> Seq<char>
    decreases errors.len(),
{
    if errors.len() == 0 {
        Seq::empty()
    } else {
        error_lines(errors.drop_last()) + "\n"@ + errors.last().message()
    }
}

/// The result of a parse: the syntax tree and the errors, in the order in
/// which they were met.
pub struct Parse {
    green_node: rowan::GreenNode,
    errors: Vec<parse_error::ParseError>,
}

impl Parse {
    /// The steps that built the tree, which are the tree read from its root
    /// down and from left to right.
    pub closed spec fn tree(self) -> Seq<tree::TreeStep> {
        tree::tree_steps(self.green_node)
    }

    /// The errors of the parse, in order.
    pub closed spec fn error_list(self) -> Seq<parse_error::ParseError> {
        self.errors@
    }

    pub(crate) fn new(green_node: rowan::GreenNode, errors: Vec<parse_error::ParseError>) -> (r:
        Self)
        ensures
            r.tree() == tree::tree_steps(green_node),
            r.error_list() == errors@,
    {
        Parse { green_node, errors }
    }

    /// The tree, as the tree library holds it.
    #[must_use]
    pub fn green_node(&self) -> (r: &rowan::GreenNode)
        ensures
            tree::tree_steps(*r) == self.tree(),
    {
        &self.green_node
    }

    /// The dump of the parse for diagnostics: `tree`, which is the indented
    /// dump of the tree, without its last character, the line break; then
    /// the message of each error on a line of its own.
    #[must_use]
    pub fn debug_tree(&self, tree: &str) -> (r: String)
        requires
            tree@.len() > 0,
        ensures
            r@ == tree@.drop_last() + error_lines(sink::error_views(self.error_list())),
    {
        let mut s = String::new();
        let n = tree.unicode_len();
        s.append(tree.substring_char(0, n - 1));
        assert(s@ =~= tree@.drop_last());
        let mut idx: usize = 0;
        while idx < self.errors.len()
            invariant
                idx <= self.errors@.len(),
                s@ == tree@.drop_last() + error_lines(
                    sink::error_views(self.errors@.subrange(0, idx as int)),
                ),
            decreases self.errors@.len() - idx,
        {
            let ghost before = s@;
            s.append("\n");
            let message = self.errors[idx].message();
            s.append(message.as_str());
            proof {
                let done = sink::error_views(self.errors@.subrange(0, idx + 1));
                assert(done.drop_last() =~= sink::error_views(
                    self.errors@.subrange(0, idx as int),
                ));
                assert(done.last() == self.errors@[idx as int]@);
                assert(s@ =~= tree@.drop_last() + error_lines(done));
            }
            idx += 1;
        }
        assert(self.errors@.subrange(0, idx as int) =~= self.errors@);
        s
    }

    /// The errors of the parse, in the order in which they were met.
    #[must_use]
    pub fn errors(&self) -> (r: &[parse_error::ParseError])
        ensures
            r@ == self.error_list(),
    {
        self.errors.as_slice()
    }
}

/// Parses `input`, which is short enough for its offsets to fit in 32 bits,
/// as a sequence of statements: the tree is the replay of the event log of
/// the grammar against the tokens of the input, and the errors are those of
/// the log. Whatever the input, there is one tree, and the text of its
/// leaves is the input.
#[must_use]
pub fn parse_repl_line(input: &str) -> (parse: Parse)
    requires
        input.spec_bytes().len() <= u32::MAX,
    ensures
        parse.tree() == sink::replay(
            lexer::lexed(input.spec_bytes()),
            grammar::parsed(lexer::lexed(input.spec_bytes())).log,
        ).steps,
        sink::error_views(parse.error_list()) == event::errors_of(
            grammar::parsed(lexer::lexed(input.spec_bytes())).log,
        ),
        tree::single_tree(parse.tree()),
        tree::leaf_text(parse.tree()) == input@,
{
    let tokens = lexer::tokenize(input);
    proof {
        lossless::lemma_tokens_cover(input);
    }
    let events = grammar::parse(tokens.as_slice());
    let sink = sink::Sink::new(tokens.as_slice(), events);
    let parse = sink.finish();
    proof {
        lossless::lemma_tree_text(parse.tree(), input);
    }
    parse
}

} // verus!
