use vstd::hash_map::StringHashMap;
use vstd::prelude::*;

use crate::text::{join2, text_eq};

verus! {

/// An architecture that no model is known for.
#[derive(Debug, Clone, PartialEq, Eq)]
pub struct UnsupportedArchitecture {
    pub architecture: String,
}

impl UnsupportedArchitecture {
    pub fn message(&self) -> (text: String)
        ensures
            text@ == "unsupported architecture: "@ + self.architecture@,
    {
        join2("unsupported architecture: ", self.architecture.as_str())
    }
}

/// Ways to make models, by architecture.
#[verifier::reject_recursive_types(F)]
pub struct ModelRegistry<F> {
    factories: StringHashMap<F>,
}

impl<F> ModelRegistry<F> {
    pub closed spec fn view(&self) -> Map<Seq<char>, F> {
        self.factories@
    }

    pub fn new() -> (registry: Self)
        ensures
            registry@ == Map::<Seq<char>, F>::empty(),
    {
        ModelRegistry { factories: StringHashMap::new() }
    }

    /// Use a factory for an architecture, in place of an earlier one.
    pub fn register(&mut self, architecture: &str, factory: F)
        ensures
            final(self)@ == old(self)@.insert(architecture@, factory),
    {
        self.factories.insert(architecture.to_owned(), factory);
    }

    /// The factory of an architecture.
    pub fn factory(&self, architecture: &str) -> (result: Result<&F, UnsupportedArchitecture>)
        ensures
            match result {
                Ok(factory) => self@.contains_key(architecture@) && *factory
                    == self@[architecture@],
                Err(error) => !self@.contains_key(architecture@) && error.architecture@
                    == architecture@,
            },
    {
        match self.factories.get(architecture) {
            Some(factory) => Ok(factory),
            None => Err(UnsupportedArchitecture { architecture: architecture.to_owned() }),
        }
    }

    /// A registry that knows the Llama-compatible architectures.
    pub fn default_registry(llama: F, mistral: F) -> (registry: Self)
        ensures
            registry@ == Map::<Seq<char>, F>::empty().insert("LlamaForCausalLM"@, llama).insert(
                "MistralForCausalLM"@,
                mistral,
            ),
    {
        let mut registry = ModelRegistry::new();
        registry.register("LlamaForCausalLM", llama);
        registry.register("MistralForCausalLM", mistral);
        registry
    }
}

/// Whether a model runner can load an architecture.
pub fn check_runner_architecture(architecture: &str) -> (result: Result<
    (),
    UnsupportedArchitecture,
>)
    ensures
        match result {
            Ok(()) => architecture@ == "LlamaForCausalLM"@ || architecture@
                == "MistralForCausalLM"@,
            Err(error) => architecture@ != "LlamaForCausalLM"@ && architecture@
                != "MistralForCausalLM"@ && error.architecture@ == architecture@,
        },
{
    if text_eq(architecture, "LlamaForCausalLM") || text_eq(architecture, "MistralForCausalLM") {
        Ok(())
    } else {
        Err(UnsupportedArchitecture { architecture: architecture.to_owned() })
    }
}

} // verus!
