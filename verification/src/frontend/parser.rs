//! Parses source text into a syntax tree.
use super::grammar::{rule_spec, RainbowGrammar, Rule};
use super::implicit_blocks::{rewrite, rewrite_spec, Functions};
use super::parse_error::{ParseError, SyntaxProblem};
use super::syntax_tree::{build_spec, shaped, Interns, SyntaxTree};
use super::tree_model::Stx;
use crate::namespace::INamespace;
use vstd::prelude::*;
use vstd::string::*;

verus! {

/// What stands in the way of a tree for the text, before implicit blocks are
/// rewritten; `None` where nothing does.
pub open spec fn parse_problem(rule: Rule, bytes: Seq<u8>, symbols: Seq<Seq<char>>) -> Option<
    ParseError,
> {
    match rule_spec(rule, bytes) {
        None => Some(
            ParseError::Syntax {
                problem: if bytes.len() == 0 {
                    SyntaxProblem::NoInput
                } else {
                    SyntaxProblem::Unexpected
                },
                position: 0,
            },
        ),
        Some((pair, end)) => if end != bytes.len() {
            Some(ParseError::Syntax { problem: SyntaxProblem::ExtraInput, position: end as usize })
        } else {
            match build_spec(pair, bytes, Interns { symbols, constants: Seq::empty() }) {
                None => Some(ParseError::TooLarge),
                Some((t, st)) => if shaped(t, st.symbols.len() as int, st.constants.len() as int) {
                    None
                } else {
                    Some(ParseError::Malformed)
                },
            }
        },
    }
}

/// The tree that parsing gives for a text in which nothing stands in the way: the
/// tree of the rule's match, with implicit blocks rewritten against the namespace.
pub open spec fn parsed_spec(
    rule: Rule,
    bytes: Seq<u8>,
    symbols: Seq<Seq<char>>,
    signatures: Map<crate::arena::ArenaId, crate::signature::SignatureView>,
) -> Stx {
    let (built, interns) = build_spec(
        rule_spec(rule, bytes)->Some_0.0,
        bytes,
        Interns { symbols, constants: Seq::empty() },
    )->Some_0;
    rewrite_spec(
        built,
        Functions { names: interns.symbols, ns_symbols: symbols, ns_signatures: signatures },
    )
}

/// The syntax tree of the text, for the given rule of the grammar.
///
/// The rule has to match the whole text. The tree's symbols start with those of the
/// namespace, so that the names of functions have the same ids in both. Implicit
/// blocks are rewritten after the tree was built.
pub fn parse<'i, NS: INamespace>(namespace: &NS, rule: Rule, input: &'i str) -> (res: Result<
    SyntaxTree<'i>,
    ParseError,
>)
    ensures
        match parse_problem(rule, input.spec_bytes(), namespace.symbol_keys()) {
            Some(e) => res == Err::<SyntaxTree<'i>, ParseError>(e),
            None => {
                let (built, interns) = build_spec(
                    rule_spec(rule, input.spec_bytes())->Some_0.0,
                    input.spec_bytes(),
                    Interns { symbols: namespace.symbol_keys(), constants: Seq::empty() },
                )->Some_0;
                &&& res matches Ok(tree)
                &&& tree.wf()
                &&& tree.input == input
                &&& tree.interns() == interns
                &&& tree@ == rewrite_spec(
                    built,
                    Functions {
                        names: interns.symbols,
                        ns_symbols: namespace.symbol_keys(),
                        ns_signatures: namespace.signature_map(),
                    },
                )
            },
        },
{
    let bytes = input.as_bytes();
    match RainbowGrammar::parse_bytes(rule, bytes) {
        None => Err(
            ParseError::Syntax {
                problem: if bytes.len() == 0 {
                    SyntaxProblem::NoInput
                } else {
                    SyntaxProblem::Unexpected
                },
                position: 0,
            },
        ),
        Some((pair, end)) => {
            if end != bytes.len() {
                return Err(
                    ParseError::Syntax { problem: SyntaxProblem::ExtraInput, position: end },
                );
            }
            let mut tree = SyntaxTree::from_input_and_pair(namespace.symbols(), input, &pair)?;
            match rewrite(namespace, &mut tree) {
                Ok(()) => Ok(tree),
                Err(e) => Err(e),
            }
        },
    }
}

} // verus!
