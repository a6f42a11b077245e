//! The functions that scripts may call.

use crate::string_map::StringMap;
use vstd::prelude::*;
use vstd::string::StringExecFns;

verus! {

/// A registry of callable functions: for each name, the number of arguments
/// that the function takes.
#[derive(Debug)]
pub struct Library {
    functions: StringMap<usize>,
}

impl View for Library {
    type V = Map<Seq<char>, usize>;

    closed spec fn view(&self) -> Map<Seq<char>, usize> {
        self.functions@
    }
}

/// The name of the variable that counts the visits to the node of the given
/// title.
pub open spec fn visited_variable_name(node_name: Seq<char>) -> Seq<char> {
    "$Yarn.Internal.Visiting."@ + node_name
}

impl Library {
    /// A registry without functions.
    pub fn new() -> (library: Self)
        ensures
            library@ == Map::<Seq<char>, usize>::empty(),
    {
        Library { functions: StringMap::new() }
    }

    /// The same registry with the function of the given name, which takes
    /// `arity` arguments. A function that had the name before is replaced.
    pub fn with_function(self, name: String, arity: usize) -> (library: Self)
        ensures
            library@ == self@.insert(name@, arity),
    {
        let mut functions = self.functions;
        functions.insert(name, arity);
        Library { functions }
    }

    /// The number of arguments that the function of the given name takes, if
    /// there is one.
    pub fn arity_of(&self, name: &String) -> (arity: Option<usize>)
        ensures
            arity is Some <==> self@.contains_key(name@),
            arity matches Some(n) ==> n == self@[name@],
    {
        match self.functions.get(name) {
            Some(arity) => Some(*arity),
            None => None,
        }
    }

    /// The name of the variable that counts the visits to the node of the
    /// given title. Different titles give different names.
    pub fn generate_unique_visited_variable_for_node(node_name: &str) -> (name: String)
        ensures
            name@ == visited_variable_name(node_name@),
    {
        "$Yarn.Internal.Visiting.".to_owned().concat(node_name)
    }
}

/// Different titles give different names.
pub proof fn lemma_visited_variable_names_differ(first: Seq<char>, second: Seq<char>)
    ensures
        visited_variable_name(first) == visited_variable_name(second) ==> first == second,
{
    let prefix = "$Yarn.Internal.Visiting."@;
    if visited_variable_name(first) == visited_variable_name(second) {
        assert((prefix + first).subrange(prefix.len() as int, (prefix + first).len() as int)
            =~= first);
        assert((prefix + second).subrange(prefix.len() as int, (prefix + second).len() as int)
            =~= second);
    }
}

} // verus!
