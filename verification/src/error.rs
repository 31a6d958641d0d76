//! Error types of the framework and their messages.

use vstd::prelude::*;
use crate::text::{concat, decimal, number};

verus! {

/// LLM-related error.
#[derive(Debug)]
pub enum LlmError {
    /// A network failure.
    NetworkError(String),
    /// An error answer of the API.
    ApiError { status: u16, message: String },
    /// An answer that cannot be read.
    InvalidResponse(String),
    /// An answer without content.
    EmptyResponse,
    /// A value that cannot be written or read.
    SerializationError(String),
}

impl LlmError {
    /// The message of the error.
    pub open spec fn text(&self) -> Seq<char> {
        match self {
            LlmError::NetworkError(a) => "Network error: "@ + a@,
            LlmError::ApiError { status, message } => "API error (status "@ + decimal(*status as nat) + "): "@ + message@,
            LlmError::InvalidResponse(a) => "Invalid response: "@ + a@,
            LlmError::EmptyResponse => "Empty response from LLM"@,
            LlmError::SerializationError(a) => "Serialization error: "@ + a@,
        }
    }

    /// The message of the error.
    pub fn message(&self) -> (r: String)
        ensures
            r@ == self.text(),
    {
        match self {
            LlmError::NetworkError(a) => {
                let mut r = "Network error: ".to_owned();
                r.push_str(a.as_str());
                r
            },
            LlmError::ApiError { status, message } => {
                let mut r = "API error (status ".to_owned();
                r.push_str(number(*status as u64).as_str());
                r.push_str("): ");
                r.push_str(message.as_str());
                r
            },
            LlmError::InvalidResponse(a) => {
                let mut r = "Invalid response: ".to_owned();
                r.push_str(a.as_str());
                r
            },
            LlmError::EmptyResponse => "Empty response from LLM".to_owned(),
            LlmError::SerializationError(a) => {
                let mut r = "Serialization error: ".to_owned();
                r.push_str(a.as_str());
                r
            },
        }
    }
}

/// Tool execution error.
#[derive(Debug)]
pub enum ToolError {
    /// No tool has the name.
    NotFound(String),
    /// A required parameter is absent.
    MissingParameter(String),
    /// A parameter has an unusable value.
    InvalidParameter { name: String, message: String },
    /// The tool ran and failed.
    ExecutionFailed { tool: String, message: String },
    /// The tool ran too long.
    Timeout(String),
    /// A path that is refused.
    InvalidPath { path: String, reason: String },
    /// A path outside the allowed directories.
    AccessDenied { path: String, reason: String },
    /// A file over the size limit.
    FileTooLarge { size: u64, max: u64 },
}

impl ToolError {
    /// The message of the error.
    pub open spec fn text(&self) -> Seq<char> {
        match self {
            ToolError::NotFound(a) => "Tool '"@ + a@ + "' not found"@,
            ToolError::MissingParameter(a) => "Missing parameter: "@ + a@,
            ToolError::InvalidParameter { name, message } => "Invalid parameter '"@ + name@ + "': "@ + message@,
            ToolError::ExecutionFailed { tool, message } => "Tool '"@ + tool@ + "' execution failed: "@ + message@,
            ToolError::Timeout(a) => "Tool '"@ + a@ + "' execution timed out"@,
            ToolError::InvalidPath { path, reason } => "Invalid path: "@ + path@ + " ("@ + reason@ + ")"@,
            ToolError::AccessDenied { path, reason } => "Access denied: "@ + path@ + " ("@ + reason@ + ")"@,
            ToolError::FileTooLarge { size, max } => "File too large: "@ + decimal(*size as nat) + " bytes (max: "@ + decimal(*max as nat) + " bytes)"@,
        }
    }

    /// The message of the error.
    pub fn message(&self) -> (r: String)
        ensures
            r@ == self.text(),
    {
        match self {
            ToolError::NotFound(a) => {
                let mut r = "Tool '".to_owned();
                r.push_str(a.as_str());
                r.push_str("' not found");
                r
            },
            ToolError::MissingParameter(a) => {
                let mut r = "Missing parameter: ".to_owned();
                r.push_str(a.as_str());
                r
            },
            ToolError::InvalidParameter { name, message } => {
                let mut r = "Invalid parameter '".to_owned();
                r.push_str(name.as_str());
                r.push_str("': ");
                r.push_str(message.as_str());
                r
            },
            ToolError::ExecutionFailed { tool, message } => {
                let mut r = "Tool '".to_owned();
                r.push_str(tool.as_str());
                r.push_str("' execution failed: ");
                r.push_str(message.as_str());
                r
            },
            ToolError::Timeout(a) => {
                let mut r = "Tool '".to_owned();
                r.push_str(a.as_str());
                r.push_str("' execution timed out");
                r
            },
            ToolError::InvalidPath { path, reason } => {
                let mut r = "Invalid path: ".to_owned();
                r.push_str(path.as_str());
                r.push_str(" (");
                r.push_str(reason.as_str());
                r.push_str(")");
                r
            },
            ToolError::AccessDenied { path, reason } => {
                let mut r = "Access denied: ".to_owned();
                r.push_str(path.as_str());
                r.push_str(" (");
                r.push_str(reason.as_str());
                r.push_str(")");
                r
            },
            ToolError::FileTooLarge { size, max } => {
                let mut r = "File too large: ".to_owned();
                r.push_str(number(*size as u64).as_str());
                r.push_str(" bytes (max: ");
                r.push_str(number(*max as u64).as_str());
                r.push_str(" bytes)");
                r
            },
        }
    }
}

/// Parse error.
#[derive(Debug)]
pub enum ParseError {
    /// A malformed thought.
    InvalidThought(String),
    /// A malformed action.
    InvalidAction(String),
    /// A malformed action input.
    InvalidActionInput(String),
    /// A JSON text that cannot be read, by the message of the parser.
    JsonError(String),
    /// An unexpected format.
    UnexpectedFormat(String),
}

impl ParseError {
    /// The message of the error.
    pub open spec fn text(&self) -> Seq<char> {
        match self {
            ParseError::InvalidThought(a) => "Invalid Thought: "@ + a@,
            ParseError::InvalidAction(a) => "Invalid Action: "@ + a@,
            ParseError::InvalidActionInput(a) => "Invalid Action Input: "@ + a@,
            ParseError::JsonError(a) => "JSON parse error: "@ + a@,
            ParseError::UnexpectedFormat(a) => "Unexpected format: "@ + a@,
        }
    }

    /// The message of the error.
    pub fn message(&self) -> (r: String)
        ensures
            r@ == self.text(),
    {
        match self {
            ParseError::InvalidThought(a) => {
                let mut r = "Invalid Thought: ".to_owned();
                r.push_str(a.as_str());
                r
            },
            ParseError::InvalidAction(a) => {
                let mut r = "Invalid Action: ".to_owned();
                r.push_str(a.as_str());
                r
            },
            ParseError::InvalidActionInput(a) => {
                let mut r = "Invalid Action Input: ".to_owned();
                r.push_str(a.as_str());
                r
            },
            ParseError::JsonError(a) => {
                let mut r = "JSON parse error: ".to_owned();
                r.push_str(a.as_str());
                r
            },
            ParseError::UnexpectedFormat(a) => {
                let mut r = "Unexpected format: ".to_owned();
                r.push_str(a.as_str());
                r
            },
        }
    }
}

/// Agent execution error.
#[derive(Debug)]
pub enum AgentError {
    /// The iteration limit was reached.
    MaxIterationsExceeded(usize),
    /// There is no tool to call.
    NoToolsAvailable,
    /// The agent could not be set up.
    InitializationFailed(String),
    /// The run was interrupted.
    Interrupted,
    /// The run was cancelled.
    Cancelled(String),
    /// The model gave no answer.
    NoResponse { model: String, agent: String },
    /// The token limit was reached.
    TokenLimitExceeded,
    /// The action was not permitted.
    PermissionDenied(String),
    /// A hook failed.
    HookError(String),
    /// A subagent failed.
    SubagentError(String),
    /// The run took too long.
    Timeout(String),
    /// A limit of the context was reached.
    ContextLimitExceeded(String),
}

impl AgentError {
    /// The message of the error.
    pub open spec fn text(&self) -> Seq<char> {
        match self {
            AgentError::MaxIterationsExceeded(a) => "Max iterations exceeded: "@ + decimal(*a as nat),
            AgentError::NoToolsAvailable => "No tools available"@,
            AgentError::InitializationFailed(a) => "Initialization failed: "@ + a@,
            AgentError::Interrupted => "Execution interrupted"@,
            AgentError::Cancelled(a) => "Cancelled: "@ + a@,
            AgentError::NoResponse { model, agent } => "No response from LLM (model: "@ + model@ + ", agent: "@ + agent@ + ")"@,
            AgentError::TokenLimitExceeded => "Token limit exceeded"@,
            AgentError::PermissionDenied(a) => "Permission denied: "@ + a@,
            AgentError::HookError(a) => "Hook error: "@ + a@,
            AgentError::SubagentError(a) => "Subagent error: "@ + a@,
            AgentError::Timeout(a) => "Timeout: "@ + a@,
            AgentError::ContextLimitExceeded(a) => "Context limit exceeded: "@ + a@,
        }
    }

    /// The message of the error.
    pub fn message(&self) -> (r: String)
        ensures
            r@ == self.text(),
    {
        match self {
            AgentError::MaxIterationsExceeded(a) => {
                let mut r = "Max iterations exceeded: ".to_owned();
                r.push_str(number(*a as u64).as_str());
                r
            },
            AgentError::NoToolsAvailable => "No tools available".to_owned(),
            AgentError::InitializationFailed(a) => {
                let mut r = "Initialization failed: ".to_owned();
                r.push_str(a.as_str());
                r
            },
            AgentError::Interrupted => "Execution interrupted".to_owned(),
            AgentError::Cancelled(a) => {
                let mut r = "Cancelled: ".to_owned();
                r.push_str(a.as_str());
                r
            },
            AgentError::NoResponse { model, agent } => {
                let mut r = "No response from LLM (model: ".to_owned();
                r.push_str(model.as_str());
                r.push_str(", agent: ");
                r.push_str(agent.as_str());
                r.push_str(")");
                r
            },
            AgentError::TokenLimitExceeded => "Token limit exceeded".to_owned(),
            AgentError::PermissionDenied(a) => {
                let mut r = "Permission denied: ".to_owned();
                r.push_str(a.as_str());
                r
            },
            AgentError::HookError(a) => {
                let mut r = "Hook error: ".to_owned();
                r.push_str(a.as_str());
                r
            },
            AgentError::SubagentError(a) => {
                let mut r = "Subagent error: ".to_owned();
                r.push_str(a.as_str());
                r
            },
            AgentError::Timeout(a) => {
                let mut r = "Timeout: ".to_owned();
                r.push_str(a.as_str());
                r
            },
            AgentError::ContextLimitExceeded(a) => {
                let mut r = "Context limit exceeded: ".to_owned();
                r.push_str(a.as_str());
                r
            },
        }
    }
}

/// Configuration error.
#[derive(Debug)]
pub enum ConfigError {
    /// An environment variable cannot be read.
    EnvParseError(String),
    /// A model lacks a required entry.
    MissingConfig(String, String),
    /// An environment variable has the wrong format.
    EnvFormatError(String),
    /// A model's entries do not fit together.
    UnMatchConfigError(String, String),
    /// A model has no configuration.
    NotFindModelError(String),
    /// The configuration file cannot be used.
    ConfigFileError(String),
}

impl ConfigError {
    /// The message of the error.
    pub open spec fn text(&self) -> Seq<char> {
        match self {
            ConfigError::EnvParseError(a) => "Failed to parse environment variable: "@ + a@,
            ConfigError::MissingConfig(a, b) => "Model '"@ + a@ + "' missing required config: "@ + b@,
            ConfigError::EnvFormatError(a) => "Invalid environment variable format: "@ + a@,
            ConfigError::UnMatchConfigError(a, b) => "Model '"@ + a@ + "' mismatched config error: "@ + b@,
            ConfigError::NotFindModelError(a) => "No configuration found for model: "@ + a@,
            ConfigError::ConfigFileError(a) => "Config file error: "@ + a@,
        }
    }

    /// The message of the error.
    pub fn message(&self) -> (r: String)
        ensures
            r@ == self.text(),
    {
        match self {
            ConfigError::EnvParseError(a) => {
                let mut r = "Failed to parse environment variable: ".to_owned();
                r.push_str(a.as_str());
                r
            },
            ConfigError::MissingConfig(a, b) => {
                let mut r = "Model '".to_owned();
                r.push_str(a.as_str());
                r.push_str("' missing required config: ");
                r.push_str(b.as_str());
                r
            },
            ConfigError::EnvFormatError(a) => {
                let mut r = "Invalid environment variable format: ".to_owned();
                r.push_str(a.as_str());
                r
            },
            ConfigError::UnMatchConfigError(a, b) => {
                let mut r = "Model '".to_owned();
                r.push_str(a.as_str());
                r.push_str("' mismatched config error: ");
                r.push_str(b.as_str());
                r
            },
            ConfigError::NotFindModelError(a) => {
                let mut r = "No configuration found for model: ".to_owned();
                r.push_str(a.as_str());
                r
            },
            ConfigError::ConfigFileError(a) => {
                let mut r = "Config file error: ".to_owned();
                r.push_str(a.as_str());
                r
            },
        }
    }
}

/// MCP-related error.
#[derive(Debug)]
pub enum McpError {
    /// The connection failed.
    ConnectionFailed(String),
    /// The session could not be set up.
    InitializationFailed(String),
    /// The peer broke the protocol.
    ProtocolError(String),
    /// A tool call failed.
    ToolCallFailed(String),
    /// The transport was closed.
    TransportClosed,
}

impl McpError {
    /// The message of the error.
    pub open spec fn text(&self) -> Seq<char> {
        match self {
            McpError::ConnectionFailed(a) => "Connection failed: "@ + a@,
            McpError::InitializationFailed(a) => "Initialization failed: "@ + a@,
            McpError::ProtocolError(a) => "Protocol error: "@ + a@,
            McpError::ToolCallFailed(a) => "Tool call failed: "@ + a@,
            McpError::TransportClosed => "MCP transport closed unexpectedly"@,
        }
    }

    /// The message of the error.
    pub fn message(&self) -> (r: String)
        ensures
            r@ == self.text(),
    {
        match self {
            McpError::ConnectionFailed(a) => {
                let mut r = "Connection failed: ".to_owned();
                r.push_str(a.as_str());
                r
            },
            McpError::InitializationFailed(a) => {
                let mut r = "Initialization failed: ".to_owned();
                r.push_str(a.as_str());
                r
            },
            McpError::ProtocolError(a) => {
                let mut r = "Protocol error: ".to_owned();
                r.push_str(a.as_str());
                r
            },
            McpError::ToolCallFailed(a) => {
                let mut r = "Tool call failed: ".to_owned();
                r.push_str(a.as_str());
                r
            },
            McpError::TransportClosed => "MCP transport closed unexpectedly".to_owned(),
        }
    }
}

/// Memory system error.
#[derive(Debug)]
pub enum MemoryError {
    /// An I/O failure, by its message.
    IoError(String),
    /// A value that cannot be written or read.
    SerializationError(String),
    /// No memory has the name.
    NotFound(String),
    /// An operation that the store does not offer.
    Unsupported(String),
}

impl MemoryError {
    /// The message of the error.
    pub open spec fn text(&self) -> Seq<char> {
        match self {
            MemoryError::IoError(a) => "IO error: "@ + a@,
            MemoryError::SerializationError(a) => "Serialization error: "@ + a@,
            MemoryError::NotFound(a) => "Memory '"@ + a@ + "' not found"@,
            MemoryError::Unsupported(a) => "Unsupported operation: "@ + a@,
        }
    }

    /// The message of the error.
    pub fn message(&self) -> (r: String)
        ensures
            r@ == self.text(),
    {
        match self {
            MemoryError::IoError(a) => {
                let mut r = "IO error: ".to_owned();
                r.push_str(a.as_str());
                r
            },
            MemoryError::SerializationError(a) => {
                let mut r = "Serialization error: ".to_owned();
                r.push_str(a.as_str());
                r
            },
            MemoryError::NotFound(a) => {
                let mut r = "Memory '".to_owned();
                r.push_str(a.as_str());
                r.push_str("' not found");
                r
            },
            MemoryError::Unsupported(a) => {
                let mut r = "Unsupported operation: ".to_owned();
                r.push_str(a.as_str());
                r
            },
        }
    }
}

/// Sandbox error.
#[derive(Debug)]
pub enum SandboxError {
    /// The sandbox cannot be used here.
    Unavailable(String),
    /// The sandbox did not start.
    StartFailed(String),
    /// The command ran too long.
    Timeout(String),
    /// A resource limit was reached.
    ResourceExceeded(String),
    /// The command was not permitted.
    PermissionDenied(String),
    /// An I/O failure, by its message.
    IoError(String),
}

impl SandboxError {
    /// The message of the error.
    pub open spec fn text(&self) -> Seq<char> {
        match self {
            SandboxError::Unavailable(a) => "Sandbox unavailable: "@ + a@,
            SandboxError::StartFailed(a) => "Sandbox start failed: "@ + a@,
            SandboxError::Timeout(a) => "Sandbox timeout: "@ + a@,
            SandboxError::ResourceExceeded(a) => "Resource exceeded: "@ + a@,
            SandboxError::PermissionDenied(a) => "Permission denied: "@ + a@,
            SandboxError::IoError(a) => "IO error: "@ + a@,
        }
    }

    /// The message of the error.
    pub fn message(&self) -> (r: String)
        ensures
            r@ == self.text(),
    {
        match self {
            SandboxError::Unavailable(a) => {
                let mut r = "Sandbox unavailable: ".to_owned();
                r.push_str(a.as_str());
                r
            },
            SandboxError::StartFailed(a) => {
                let mut r = "Sandbox start failed: ".to_owned();
                r.push_str(a.as_str());
                r
            },
            SandboxError::Timeout(a) => {
                let mut r = "Sandbox timeout: ".to_owned();
                r.push_str(a.as_str());
                r
            },
            SandboxError::ResourceExceeded(a) => {
                let mut r = "Resource exceeded: ".to_owned();
                r.push_str(a.as_str());
                r
            },
            SandboxError::PermissionDenied(a) => {
                let mut r = "Permission denied: ".to_owned();
                r.push_str(a.as_str());
                r
            },
            SandboxError::IoError(a) => {
                let mut r = "IO error: ".to_owned();
                r.push_str(a.as_str());
                r
            },
        }
    }
}

/// Runtime state error.
#[derive(Debug)]
pub enum RuntimeStateError {
    /// An I/O failure, by its message.
    Io(String),
    /// A value that cannot be written or read.
    SerializationError(String),
    /// No state has the name.
    NotFound(String),
}

impl RuntimeStateError {
    /// The message of the error.
    pub open spec fn text(&self) -> Seq<char> {
        match self {
            RuntimeStateError::Io(a) => "IO error: "@ + a@,
            RuntimeStateError::SerializationError(a) => "Serialization error: "@ + a@,
            RuntimeStateError::NotFound(a) => "State not found: "@ + a@,
        }
    }

    /// The message of the error.
    pub fn message(&self) -> (r: String)
        ensures
            r@ == self.text(),
    {
        match self {
            RuntimeStateError::Io(a) => {
                let mut r = "IO error: ".to_owned();
                r.push_str(a.as_str());
                r
            },
            RuntimeStateError::SerializationError(a) => {
                let mut r = "Serialization error: ".to_owned();
                r.push_str(a.as_str());
                r
            },
            RuntimeStateError::NotFound(a) => {
                let mut r = "State not found: ".to_owned();
                r.push_str(a.as_str());
                r
            },
        }
    }
}

/// Channel / IM integration error.
#[derive(Debug)]
pub enum ChannelError {
    /// A network failure.
    NetworkError(String),
    /// An error answer of the API.
    ApiError { status: u16, message: String },
    /// An authentication failure.
    AuthError(String),
    /// A connection failure.
    ConnectionError(String),
    /// A message that could not be sent.
    SendError(String),
    /// A configuration that cannot be used.
    InvalidConfig(String),
    /// Any other error.
    Other(String),
}

impl ChannelError {
    /// The message of the error.
    pub open spec fn text(&self) -> Seq<char> {
        match self {
            ChannelError::NetworkError(a) => "Network error: "@ + a@,
            ChannelError::ApiError { status, message } => "API error (status "@ + decimal(*status as nat) + "): "@ + message@,
            ChannelError::AuthError(a) => "Auth error: "@ + a@,
            ChannelError::ConnectionError(a) => "Connection error: "@ + a@,
            ChannelError::SendError(a) => "Send error: "@ + a@,
            ChannelError::InvalidConfig(a) => "Invalid config: "@ + a@,
            ChannelError::Other(a) => "Channel error: "@ + a@,
        }
    }

    /// The message of the error.
    pub fn message(&self) -> (r: String)
        ensures
            r@ == self.text(),
    {
        match self {
            ChannelError::NetworkError(a) => {
                let mut r = "Network error: ".to_owned();
                r.push_str(a.as_str());
                r
            },
            ChannelError::ApiError { status, message } => {
                let mut r = "API error (status ".to_owned();
                r.push_str(number(*status as u64).as_str());
                r.push_str("): ");
                r.push_str(message.as_str());
                r
            },
            ChannelError::AuthError(a) => {
                let mut r = "Auth error: ".to_owned();
                r.push_str(a.as_str());
                r
            },
            ChannelError::ConnectionError(a) => {
                let mut r = "Connection error: ".to_owned();
                r.push_str(a.as_str());
                r
            },
            ChannelError::SendError(a) => {
                let mut r = "Send error: ".to_owned();
                r.push_str(a.as_str());
                r
            },
            ChannelError::InvalidConfig(a) => {
                let mut r = "Invalid config: ".to_owned();
                r.push_str(a.as_str());
                r
            },
            ChannelError::Other(a) => {
                let mut r = "Channel error: ".to_owned();
                r.push_str(a.as_str());
                r
            },
        }
    }
}

/// Application error; only its message crosses the boundary to a front end.
#[derive(Debug)]
pub enum AppError {
    /// No session has the identifier.
    SessionNotFound(String),
    /// The agent could not be built.
    AgentBuild(String),
    /// The agent failed.
    AgentExec(String),
    /// The store could not be set up.
    PersistenceInit(String),
    /// The store could not be read.
    PersistenceRead(String),
    /// The store could not be written.
    PersistenceWrite(String),
    /// The store could not be cleared.
    PersistenceDelete(String),
    /// A configuration that cannot be used.
    Config(String),
    /// An internal failure.
    Internal(String),
}

impl AppError {
    /// The message of the error.
    pub open spec fn text(&self) -> Seq<char> {
        match self {
            AppError::SessionNotFound(a) => "session `"@ + a@ + "` 不存在"@,
            AppError::AgentBuild(a) => "agent 构建失败: "@ + a@,
            AppError::AgentExec(a) => "agent 执行失败: "@ + a@,
            AppError::PersistenceInit(a) => "持久化初始化失败: "@ + a@,
            AppError::PersistenceRead(a) => "持久化读取失败: "@ + a@,
            AppError::PersistenceWrite(a) => "持久化写入失败: "@ + a@,
            AppError::PersistenceDelete(a) => "持久化删除失败: "@ + a@,
            AppError::Config(a) => "配置错误: "@ + a@,
            AppError::Internal(a) => "内部错误: "@ + a@,
        }
    }

    /// The message of the error.
    pub fn message(&self) -> (r: String)
        ensures
            r@ == self.text(),
    {
        match self {
            AppError::SessionNotFound(a) => {
                let mut r = "session `".to_owned();
                r.push_str(a.as_str());
                r.push_str("` 不存在");
                r
            },
            AppError::AgentBuild(a) => {
                let mut r = "agent 构建失败: ".to_owned();
                r.push_str(a.as_str());
                r
            },
            AppError::AgentExec(a) => {
                let mut r = "agent 执行失败: ".to_owned();
                r.push_str(a.as_str());
                r
            },
            AppError::PersistenceInit(a) => {
                let mut r = "持久化初始化失败: ".to_owned();
                r.push_str(a.as_str());
                r
            },
            AppError::PersistenceRead(a) => {
                let mut r = "持久化读取失败: ".to_owned();
                r.push_str(a.as_str());
                r
            },
            AppError::PersistenceWrite(a) => {
                let mut r = "持久化写入失败: ".to_owned();
                r.push_str(a.as_str());
                r
            },
            AppError::PersistenceDelete(a) => {
                let mut r = "持久化删除失败: ".to_owned();
                r.push_str(a.as_str());
                r
            },
            AppError::Config(a) => {
                let mut r = "配置错误: ".to_owned();
                r.push_str(a.as_str());
                r
            },
            AppError::Internal(a) => {
                let mut r = "内部错误: ".to_owned();
                r.push_str(a.as_str());
                r
            },
        }
    }
}

/// Top-level framework error, one variant for each subsystem.
#[derive(Debug)]
pub enum ReactError {
    /// LLM-related error.
    Llm(Box<LlmError>),
    /// Tool execution error.
    Tool(Box<ToolError>),
    /// Parse error.
    Parse(Box<ParseError>),
    /// Agent execution error.
    Agent(Box<AgentError>),
    /// Configuration error.
    Config(Box<ConfigError>),
    /// MCP-related error.
    Mcp(Box<McpError>),
    /// Memory system error.
    Memory(Box<MemoryError>),
    /// Sandbox error.
    Sandbox(Box<SandboxError>),
    /// Runtime state error.
    RuntimeState(Box<RuntimeStateError>),
    /// Channel / IM integration error.
    Channel(Box<ChannelError>),
    /// I/O error, by its message.
    Io(String),
    /// Any other error.
    Other(String),
}

impl ReactError {
    /// The message of the error: the subsystem, then the message of its error.
    pub open spec fn text(&self) -> Seq<char> {
        match self {
            ReactError::Llm(e) => "LLM Error: "@ + e.text(),
            ReactError::Tool(e) => "Tool Error: "@ + e.text(),
            ReactError::Parse(e) => "Parse Error: "@ + e.text(),
            ReactError::Agent(e) => "Agent Error: "@ + e.text(),
            ReactError::Config(e) => "Config Error: "@ + e.text(),
            ReactError::Mcp(e) => "MCP Error: "@ + e.text(),
            ReactError::Memory(e) => "Memory Error: "@ + e.text(),
            ReactError::Sandbox(e) => "Sandbox Error: "@ + e.text(),
            ReactError::RuntimeState(e) => "Runtime State Error: "@ + e.text(),
            ReactError::Channel(e) => "Channel Error: "@ + e.text(),
            ReactError::Io(e) => "IO Error: "@ + e@,
            ReactError::Other(e) => e@,
        }
    }

    /// The message of the error.
    pub fn message(&self) -> (r: String)
        ensures
            r@ == self.text(),
    {
        match self {
            ReactError::Llm(e) => {
                let mut r = "LLM Error: ".to_owned();
                r.push_str(e.message().as_str());
                r
            },
            ReactError::Tool(e) => {
                let mut r = "Tool Error: ".to_owned();
                r.push_str(e.message().as_str());
                r
            },
            ReactError::Parse(e) => {
                let mut r = "Parse Error: ".to_owned();
                r.push_str(e.message().as_str());
                r
            },
            ReactError::Agent(e) => {
                let mut r = "Agent Error: ".to_owned();
                r.push_str(e.message().as_str());
                r
            },
            ReactError::Config(e) => {
                let mut r = "Config Error: ".to_owned();
                r.push_str(e.message().as_str());
                r
            },
            ReactError::Mcp(e) => {
                let mut r = "MCP Error: ".to_owned();
                r.push_str(e.message().as_str());
                r
            },
            ReactError::Memory(e) => {
                let mut r = "Memory Error: ".to_owned();
                r.push_str(e.message().as_str());
                r
            },
            ReactError::Sandbox(e) => {
                let mut r = "Sandbox Error: ".to_owned();
                r.push_str(e.message().as_str());
                r
            },
            ReactError::RuntimeState(e) => {
                let mut r = "Runtime State Error: ".to_owned();
                r.push_str(e.message().as_str());
                r
            },
            ReactError::Channel(e) => {
                let mut r = "Channel Error: ".to_owned();
                r.push_str(e.message().as_str());
                r
            },
            ReactError::Io(e) => {
                let mut r = "IO Error: ".to_owned();
                r.push_str(e.as_str());
                r
            },
            ReactError::Other(e) => e.clone(),
        }
    }
}

/// The error of a request that did not come through, given whether it took too long and whether no
/// connection was made.
pub fn request_failed(timed_out: bool, connect: bool, message: &str) -> (r: LlmError)
    ensures
        r matches LlmError::NetworkError(m) && m@ == if timed_out {
            "Request timeout"@
        } else if connect {
            "Connection failed: "@ + message@
        } else {
            message@
        },
{
    if timed_out {
        LlmError::NetworkError("Request timeout".to_owned())
    } else if connect {
        LlmError::NetworkError(concat("Connection failed: ", message))
    } else {
        LlmError::NetworkError(message.to_owned())
    }
}

impl From<LlmError> for ReactError {
    fn from(err: LlmError) -> (r: ReactError) {
        ReactError::Llm(Box::new(err))
    }
}

impl vstd::std_specs::convert::FromSpecImpl<LlmError> for ReactError {
    open spec fn obeys_from_spec() -> bool {
        true
    }

    open spec fn from_spec(err: LlmError) -> ReactError {
        ReactError::Llm(Box::new(err))
    }
}

impl From<ToolError> for ReactError {
    fn from(err: ToolError) -> (r: ReactError) {
        ReactError::Tool(Box::new(err))
    }
}

impl vstd::std_specs::convert::FromSpecImpl<ToolError> for ReactError {
    open spec fn obeys_from_spec() -> bool {
        true
    }

    open spec fn from_spec(err: ToolError) -> ReactError {
        ReactError::Tool(Box::new(err))
    }
}

impl From<ParseError> for ReactError {
    fn from(err: ParseError) -> (r: ReactError) {
        ReactError::Parse(Box::new(err))
    }
}

impl vstd::std_specs::convert::FromSpecImpl<ParseError> for ReactError {
    open spec fn obeys_from_spec() -> bool {
        true
    }

    open spec fn from_spec(err: ParseError) -> ReactError {
        ReactError::Parse(Box::new(err))
    }
}

impl From<AgentError> for ReactError {
    fn from(err: AgentError) -> (r: ReactError) {
        ReactError::Agent(Box::new(err))
    }
}

impl vstd::std_specs::convert::FromSpecImpl<AgentError> for ReactError {
    open spec fn obeys_from_spec() -> bool {
        true
    }

    open spec fn from_spec(err: AgentError) -> ReactError {
        ReactError::Agent(Box::new(err))
    }
}

impl From<ConfigError> for ReactError {
    fn from(err: ConfigError) -> (r: ReactError) {
        ReactError::Config(Box::new(err))
    }
}

impl vstd::std_specs::convert::FromSpecImpl<ConfigError> for ReactError {
    open spec fn obeys_from_spec() -> bool {
        true
    }

    open spec fn from_spec(err: ConfigError) -> ReactError {
        ReactError::Config(Box::new(err))
    }
}

impl From<McpError> for ReactError {
    fn from(err: McpError) -> (r: ReactError) {
        ReactError::Mcp(Box::new(err))
    }
}

impl vstd::std_specs::convert::FromSpecImpl<McpError> for ReactError {
    open spec fn obeys_from_spec() -> bool {
        true
    }

    open spec fn from_spec(err: McpError) -> ReactError {
        ReactError::Mcp(Box::new(err))
    }
}

impl From<MemoryError> for ReactError {
    fn from(err: MemoryError) -> (r: ReactError) {
        ReactError::Memory(Box::new(err))
    }
}

impl vstd::std_specs::convert::FromSpecImpl<MemoryError> for ReactError {
    open spec fn obeys_from_spec() -> bool {
        true
    }

    open spec fn from_spec(err: MemoryError) -> ReactError {
        ReactError::Memory(Box::new(err))
    }
}

impl From<SandboxError> for ReactError {
    fn from(err: SandboxError) -> (r: ReactError) {
        ReactError::Sandbox(Box::new(err))
    }
}

impl vstd::std_specs::convert::FromSpecImpl<SandboxError> for ReactError {
    open spec fn obeys_from_spec() -> bool {
        true
    }

    open spec fn from_spec(err: SandboxError) -> ReactError {
        ReactError::Sandbox(Box::new(err))
    }
}

impl From<RuntimeStateError> for ReactError {
    fn from(err: RuntimeStateError) -> (r: ReactError) {
        ReactError::RuntimeState(Box::new(err))
    }
}

impl vstd::std_specs::convert::FromSpecImpl<RuntimeStateError> for ReactError {
    open spec fn obeys_from_spec() -> bool {
        true
    }

    open spec fn from_spec(err: RuntimeStateError) -> ReactError {
        ReactError::RuntimeState(Box::new(err))
    }
}

impl From<ChannelError> for ReactError {
    fn from(err: ChannelError) -> (r: ReactError) {
        ReactError::Channel(Box::new(err))
    }
}

impl vstd::std_specs::convert::FromSpecImpl<ChannelError> for ReactError {
    open spec fn obeys_from_spec() -> bool {
        true
    }

    open spec fn from_spec(err: ChannelError) -> ReactError {
        ReactError::Channel(Box::new(err))
    }
}

impl AppError {
    /// The application error for an error of the framework, by its message.
    pub fn from_react(err: ReactError) -> (r: AppError)
        ensures
            r matches AppError::AgentExec(m) && m@ == err.text(),
    {
        AppError::AgentExec(err.message())
    }
}

} // verus!
