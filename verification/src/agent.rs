//! Agents: how they are configured, and how callbacks act on them.

use vstd::prelude::*;
use crate::error::ReactError;
use crate::json::Json;
use crate::text::opt_str;

verus! {

// ── Factory ─────────────────────────────────────────────────────────────────────────────────

/// What an agent is made from; `T` is a tool.
pub struct AgentFactoryConfig<T> {
    model: String,
    name: String,
    system_prompt: String,
    tools: Vec<T>,
}

impl<T> AgentFactoryConfig<T> {
    /// The model.
    pub closed spec fn model_text(&self) -> Seq<char> {
        self.model@
    }

    /// The name.
    pub closed spec fn name_text(&self) -> Seq<char> {
        self.name@
    }

    /// The system prompt.
    pub closed spec fn prompt_text(&self) -> Seq<char> {
        self.system_prompt@
    }

    /// The tools.
    pub closed spec fn tool_list(&self) -> Seq<T> {
        self.tools@
    }

    /// A configuration without a model and tools, for a helpful assistant.
    pub fn new() -> (r: AgentFactoryConfig<T>)
        ensures
            r.model_text().len() == 0,
            r.name_text() == "assistant"@,
            r.prompt_text() == "You are a helpful assistant"@,
            r.tool_list() == Seq::<T>::empty(),
    {
        AgentFactoryConfig {
            model: String::new(),
            name: "assistant".to_owned(),
            system_prompt: "You are a helpful assistant".to_owned(),
            tools: Vec::new(),
        }
    }

    /// The configuration with a model.
    pub fn model(self, model: &str) -> (r: AgentFactoryConfig<T>)
        ensures
            r.model_text() == model@,
            r.name_text() == self.name_text(),
            r.prompt_text() == self.prompt_text(),
            r.tool_list() == self.tool_list(),
    {
        let mut r = self;
        r.model = model.to_owned();
        r
    }

    /// The configuration with a name.
    pub fn name(self, name: &str) -> (r: AgentFactoryConfig<T>)
        ensures
            r.model_text() == self.model_text(),
            r.name_text() == name@,
            r.prompt_text() == self.prompt_text(),
            r.tool_list() == self.tool_list(),
    {
        let mut r = self;
        r.name = name.to_owned();
        r
    }

    /// The configuration with a system prompt.
    pub fn with_system_prompt(self, prompt: &str) -> (r: AgentFactoryConfig<T>)
        ensures
            r.model_text() == self.model_text(),
            r.name_text() == self.name_text(),
            r.prompt_text() == prompt@,
            r.tool_list() == self.tool_list(),
    {
        let mut r = self;
        r.system_prompt = prompt.to_owned();
        r
    }

    /// The configuration with one more tool.
    pub fn tool(self, tool: T) -> (r: AgentFactoryConfig<T>)
        ensures
            r.model_text() == self.model_text(),
            r.name_text() == self.name_text(),
            r.prompt_text() == self.prompt_text(),
            r.tool_list() == self.tool_list().push(tool),
    {
        let mut r = self;
        r.tools.push(tool);
        r
    }

    /// The configuration with more tools.
    pub fn tools(self, tools: Vec<T>) -> (r: AgentFactoryConfig<T>)
        ensures
            r.model_text() == self.model_text(),
            r.name_text() == self.name_text(),
            r.prompt_text() == self.prompt_text(),
            r.tool_list() == self.tool_list() + tools@,
    {
        let mut r = self;
        let mut more = tools;
        r.tools.append(&mut more);
        r
    }

    /// The model.
    pub fn model_name(&self) -> (r: &str)
        ensures
            r@ == self.model_text(),
    {
        self.model.as_str()
    }

    /// The name.
    pub fn agent_name(&self) -> (r: &str)
        ensures
            r@ == self.name_text(),
    {
        self.name.as_str()
    }

    /// The system prompt.
    pub fn system_prompt(&self) -> (r: &str)
        ensures
            r@ == self.prompt_text(),
    {
        self.system_prompt.as_str()
    }

    /// The number of tools.
    pub fn tool_count(&self) -> (r: usize)
        ensures
            r == self.tool_list().len(),
    {
        self.tools.len()
    }

    /// The tools.
    pub fn into_tools(self) -> (r: Vec<T>)
        ensures
            r@ == self.tool_list(),
    {
        self.tools
    }
}

impl<T> Default for AgentFactoryConfig<T> {
    fn default() -> (r: AgentFactoryConfig<T>)
        ensures
            r.model_text().len() == 0,
            r.name_text() == "assistant"@,
            r.prompt_text() == "You are a helpful assistant"@,
            r.tool_list() == Seq::<T>::empty(),
    {
        AgentFactoryConfig::new()
    }
}

/// The factory that makes no agent: whoever has an agent to offer brings a factory of its own.
pub struct DefaultAgentFactory;

/// What the factory that makes no agent says.
pub const NO_FACTORY: &'static str =
    "DefaultAgentFactory::create_agent must be called from the facade crate (echo_agent), which provides the concrete ReactAgentBuilder-based implementation. Use echo_agent::agent::default_factory::DefaultAgentFactory instead.";

impl DefaultAgentFactory {
    /// Fails.
    pub fn create_agent<T, A>(&self, config: AgentFactoryConfig<T>) -> (r: Result<A, ReactError>)
        ensures
            r matches Err(ReactError::Other(m)) && m@ == NO_FACTORY@,
    {
        Err(ReactError::Other(NO_FACTORY.to_owned()))
    }
}

// ── Interventions ───────────────────────────────────────────────────────────────────────────

/// What a callback has to say on what an agent is about to do.
pub struct InterventionResult {
    /// Whether it is blocked.
    pub block: bool,
    /// Why it is blocked.
    pub block_reason: Option<String>,
    /// What the model is told next.
    pub injected_context: Option<String>,
    /// The tool that is used instead.
    pub redirect_to: Option<String>,
    /// Whether the agent stops.
    pub cancel: bool,
    /// The arguments that are used instead.
    pub modified_args: Option<Json>,
}

impl InterventionResult {
    /// Whether nothing is said.
    pub open spec fn is_neutral(&self) -> bool {
        &&& !self.block
        &&& self.block_reason is None
        &&& self.injected_context is None
        &&& self.redirect_to is None
        &&& !self.cancel
        &&& self.modified_args is None
    }

    /// Nothing is said.
    pub fn allow() -> (r: InterventionResult)
        ensures
            r.is_neutral(),
    {
        InterventionResult {
            block: false,
            block_reason: None,
            injected_context: None,
            redirect_to: None,
            cancel: false,
            modified_args: None,
        }
    }

    /// It is blocked, with a reason.
    pub fn block(reason: &str) -> (r: InterventionResult)
        ensures
            r.block,
            opt_str(r.block_reason) == Some(reason@),
            (InterventionResult { block: false, block_reason: None, ..r }).is_neutral(),
    {
        let mut r = InterventionResult::allow();
        r.block = true;
        r.block_reason = Some(reason.to_owned());
        r
    }

    /// The model is told something.
    pub fn inject(context: &str) -> (r: InterventionResult)
        ensures
            opt_str(r.injected_context) == Some(context@),
            (InterventionResult { injected_context: None, ..r }).is_neutral(),
    {
        let mut r = InterventionResult::allow();
        r.injected_context = Some(context.to_owned());
        r
    }

    /// The agent stops.
    pub fn cancel() -> (r: InterventionResult)
        ensures
            r.cancel,
            (InterventionResult { cancel: false, ..r }).is_neutral(),
    {
        let mut r = InterventionResult::allow();
        r.cancel = true;
        r
    }

    /// Other arguments are used.
    pub fn modify_args(args: Json) -> (r: InterventionResult)
        ensures
            r.modified_args == Some(args),
            (InterventionResult { modified_args: None, ..r }).is_neutral(),
    {
        let mut r = InterventionResult::allow();
        r.modified_args = Some(args);
        r
    }
}

impl Default for InterventionResult {
    fn default() -> (r: InterventionResult)
        ensures
            r.is_neutral(),
    {
        InterventionResult::allow()
    }
}

/// Lets an observer of an agent stand where one that steps in is asked for: it steps in nowhere.
pub struct CallbackBridge;

/// The answer of an agent that hands no tasks on.
pub fn delegation_unsupported() -> (r: ReactError)
    ensures
        r matches ReactError::Other(m) && m@ == "delegation not supported by this agent"@,
{
    ReactError::Other("delegation not supported by this agent".to_owned())
}

} // verus!
