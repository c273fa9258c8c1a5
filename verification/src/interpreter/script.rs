//! A compiled script: source text turned into a typed, executable program.
use super::emitter::{emit, emit_spec, EmitError};
use super::instruction::Instruction;
use super::machine::{frame_outcome, initial, Callback, Machine, MachineView};
use super::value::Value;
use crate::arena::{key_index, ArenaId, Internable};
use crate::frontend::grammar::Rule;
use crate::frontend::parse_error::ParseError;
use crate::frontend::parser::{parse, parse_problem, parsed_spec};
use crate::frontend::syntax_tree::SyntaxTree;
use crate::namespace::{INamespace, Namespace};
use crate::typing::checker::{type_of, type_of_spec, TypeCheckerResult};
use crate::typing::constraint_generator::Context;
use std::rc::Rc;
use vstd::prelude::*;
use vstd::string::*;

verus! {

/// A namespace for several scripts.
pub type SharedNamespace<C> = Rc<Namespace<C>>;

/// The number of a block.
#[derive(Debug, Clone, Copy, PartialEq, Eq, Structural)]
pub struct BlockId(pub usize);

/// The stages of compilation.
#[derive(Debug, Clone, Copy, PartialEq, Eq, Structural)]
pub enum Stage {
    Parse,
    TypeCheck,
    Emit,
}

/// Why a script could not be compiled.
#[derive(Debug, Clone, Copy, PartialEq, Eq, Structural)]
pub enum CompileError {
    /// The source text could not be parsed.
    ParseError(ParseError),
    /// A stage could not deal with the tree.
    InternalTreeError(Stage, EmitError),
}

/// A script: its namespace, its syntax tree, its instructions, and what type inference
/// found. Problems with the types do not keep a script from being compiled.
pub struct Script<'i, C> {
    pub ns: SharedNamespace<C>,
    pub tree: SyntaxTree<'i>,
    pub instructions: Vec<Instruction>,
    pub typer_result: TypeCheckerResult,
}

impl<'i, C> Script<'i, C> {
    /// Compiles source text: parses it as a term, infers its types without any
    /// given, and lowers the tree to instructions.
    pub fn compile(ns: SharedNamespace<C>, src: &'i str) -> (res: Result<Self, CompileError>)
        ensures
            match parse_problem(Rule::term, src.spec_bytes(), ns.symbol_keys()) {
                Some(e) => res == Err::<Self, CompileError>(CompileError::ParseError(e)),
                None => match res {
                    Ok(script) => {
                        &&& script.ns == ns
                        &&& script.tree.wf()
                        &&& script.tree.input == src
                        &&& script.tree@ == parsed_spec(
                            Rule::term,
                            src.spec_bytes(),
                            ns.symbol_keys(),
                            ns.signature_map(),
                        )
                        &&& emit_spec(script.tree@) == Ok::<Seq<Instruction>, EmitError>(
                            script.instructions@,
                        )
                        &&& script.typer_result@ == type_of_spec(
                            script.tree@,
                            Seq::empty(),
                            Context {
                                names: script.tree.symbols.keys(),
                                constants: script.tree.constants.keys(),
                                ns_symbols: ns.symbol_keys(),
                                ns_signatures: ns.signature_map(),
                            },
                        )
                    },
                    Err(CompileError::ParseError(_)) => false,
                    Err(CompileError::InternalTreeError(stage, e)) => stage == Stage::Emit
                        && emit_spec(
                        parsed_spec(
                            Rule::term,
                            src.spec_bytes(),
                            ns.symbol_keys(),
                            ns.signature_map(),
                        ),
                    ) == Err::<Seq<Instruction>, EmitError>(e),
                },
            },
    {
        let tree = match parse(&*ns, Rule::term, src) {
            Ok(tree) => tree,
            Err(e) => {
                return Err(CompileError::ParseError(e));
            },
        };
        let globals: Vec<(String, crate::typing::types::Type)> = Vec::new();
        assert(crate::typing::type_env::types_of_pairs(globals@) =~= Seq::empty());
        let typer_result = type_of(&*ns, globals, &tree);
        let instructions = match emit(&tree) {
            Ok(instructions) => instructions,
            Err(e) => {
                return Err(CompileError::InternalTreeError(Stage::Emit, e));
            },
        };
        Ok(Script { ns, tree, instructions, typer_result })
    }

    /// The bindings that a run starts with: for each input whose name is a symbol of
    /// the script, in the order of the inputs, the symbol and the value. Where a name
    /// comes twice, the later input is the one that the script sees.
    pub fn bindings_for<V>(&self, inputs: Vec<(String, V)>) -> (bindings: Vec<(ArenaId, V)>)
        ensures
            bindings@ == bound_inputs(self.tree.symbols.keys(), inputs@, 0, Seq::empty()),
    {
        let mut bindings: Vec<(ArenaId, V)> = Vec::with_capacity(inputs.len());
        let ghost all = inputs@;
        let ghost names = self.tree.symbols.keys();
        let mut inputs = inputs;
        let n = inputs.len();
        let mut i: usize = 0;
        while i < n
            invariant
                i <= n,
                n == all.len(),
                names == self.tree.symbols.keys(),
                inputs@ == all.skip(i as int),
                bound_inputs(names, all, i as int, bindings@) == bound_inputs(
                    names,
                    all,
                    0,
                    Seq::empty(),
                ),
            decreases n - i,
        {
            let (name, value) = inputs.remove(0);
            assert(inputs@ =~= all.skip(i + 1));
            match self.tree.symbols.find(&name) {
                Some(id) => bindings.push((id, value)),
                None => {},
            }
            i += 1;
        }
        bindings
    }

    /// Runs the script with the given inputs. An input whose name the script does
    /// not use is left out.
    ///
    /// The result is that of the frame of all the script's instructions, run without
    /// arguments by a machine that starts with the script's constants and symbols and
    /// with the bindings for the inputs. What each call of a host function gives is
    /// for the namespace's callbacks to say.
    pub fn eval<V: Value>(&self, inputs: Vec<(String, V)>) -> (res: Result<V, V::Error>) where
        C: Callback<V>,

        ensures
            exists|trace: Seq<MachineView<V, Namespace<C>>>| #[trigger]
                frame_outcome(
                    initial(
                        *self.ns,
                        self.instructions@,
                        self.tree.constants.keys(),
                        self.tree.symbols.keys(),
                        bound_inputs(self.tree.symbols.keys(), inputs@, 0, Seq::empty()),
                    ),
                    0,
                    self.instructions@.len() as usize,
                    Seq::empty(),
                    res,
                    trace,
                ),
    {
        let bindings = self.bindings_for(inputs);
        let constants = self.tree.constants.as_slice();
        let symbols = self.tree.symbols.as_slice();
        let n = self.instructions.len();
        let mut machine = Machine::new(
            &*self.ns,
            self.instructions.as_slice(),
            constants,
            symbols,
            bindings,
        );
        let ghost first = machine@;
        proof {
            assert forall|i: int| 0 <= i < first.constants.len() implies first.constants[i]
                == self.tree.constants.keys()[i] by {
                assert(constants@[i].key() == self.tree.constants.keys()[i]);
            }
            assert forall|i: int| 0 <= i < first.symbols.len() implies first.symbols[i]
                == self.tree.symbols.keys()[i] by {
                assert(symbols@[i].key() == self.tree.symbols.keys()[i]);
            }
            assert(first.constants =~= self.tree.constants.keys());
            assert(first.symbols =~= self.tree.symbols.keys());
            assert(first == initial(
                *self.ns,
                self.instructions@,
                self.tree.constants.keys(),
                self.tree.symbols.keys(),
                bound_inputs(self.tree.symbols.keys(), inputs@, 0, Seq::empty()),
            ));
        }
        let res = machine.run();
        proof {
            let trace = choose|trace: Seq<MachineView<V, Namespace<C>>>| #[trigger]
                frame_outcome(
                    first,
                    0,
                    first.instructions.len() as usize,
                    Seq::empty(),
                    res,
                    trace,
                );
            assert(first.instructions.len() == n);
            assert(frame_outcome(first, 0, n, Seq::empty(), res, trace));
        }
        res
    }
}

/// The bindings for the inputs from position `i` on whose names are among `names`,
/// added to `acc`.
pub open spec fn bound_inputs<V>(
    names: Seq<Seq<char>>,
    inputs: Seq<(String, V)>,
    i: int,
    acc: Seq<(ArenaId, V)>,
) -> Seq<(ArenaId, V)>
    decreases inputs.len() - i,
{
    if i < 0 || i >= inputs.len() {
        acc
    } else {
        match key_index(names, inputs[i].0@, 0) {
            Some(k) => bound_inputs(names, inputs, i + 1, acc.push((k as ArenaId, inputs[i].1))),
            None => bound_inputs(names, inputs, i + 1, acc),
        }
    }
}

/// The value of a shared pointer that nothing else holds.
///
/// Stands for `Rc::try_unwrap`, which gives the value if the pointer is the only one
/// to it, and else gives the pointer back.
#[verifier::external_body]
fn sole<C>(shared: Rc<Namespace<C>>) -> (res: Result<Namespace<C>, Rc<Namespace<C>>>)
    ensures
        match res {
            Ok(ns) => ns == *shared,
            Err(back) => back == shared,
        },
{
    Rc::try_unwrap(shared)
}

impl<C> Namespace<C> {
    /// The namespace, to be shared by scripts.
    pub fn into_shared(self) -> (shared: SharedNamespace<C>)
        ensures
            *shared == self,
    {
        Rc::new(self)
    }

    /// The namespace back from the scripts, to define more functions in it: the
    /// namespace itself once no script holds it any more, and until then the shared
    /// namespace as it was given.
    pub fn from_shared(shared: SharedNamespace<C>) -> (res: Result<Self, SharedNamespace<C>>)
        ensures
            match res {
                Ok(ns) => ns == *shared,
                Err(back) => back == shared,
            },
    {
        sole(shared)
    }
}

} // verus!
