//! Static configuration of the assistant: model selection, compaction
//! policy, remote-adapter settings, and the bounds of the session
//! registry and of the memory-reclamation hook.

use vstd::prelude::*;

verus! {

/// A chat-completion provider.
#[derive(Debug, Clone, Copy, PartialEq, Eq, Structural)]
pub enum Provider {
    OpenAI,
    OpenAICompatible,
    Anthropic,
    Gemini,
    Ollama,
}

impl Provider {
    /// The provider's textual name, as it appears in configuration files.
    pub fn label(&self) -> (r: String)
        ensures
            r@ == self.label_spec(),
    {
        match self {
            Provider::OpenAI => String::from_str("openai"),
            Provider::OpenAICompatible => String::from_str("openai-compatible"),
            Provider::Anthropic => String::from_str("anthropic"),
            Provider::Gemini => String::from_str("gemini"),
            Provider::Ollama => String::from_str("ollama"),
        }
    }

    pub open spec fn label_spec(&self) -> Seq<char> {
        match self {
            Provider::OpenAI => "openai"@,
            Provider::OpenAICompatible => "openai-compatible"@,
            Provider::Anthropic => "anthropic"@,
            Provider::Gemini => "gemini"@,
            Provider::Ollama => "ollama"@,
        }
    }

    /// Whether this provider works without an API key.
    pub fn keyless(&self) -> (r: bool)
        ensures
            r == self.keyless_spec(),
    {
        match self {
            Provider::Ollama => true,
            Provider::OpenAICompatible => true,
            _ => false,
        }
    }

    pub open spec fn keyless_spec(&self) -> bool {
        self is Ollama || self is OpenAICompatible
    }
}

/// Parameters of a secondary ("small" / degraded) model.
#[derive(Debug, PartialEq)]
pub struct SmallModelConfig {
    pub provider: Provider,
    pub model: String,
    pub api_key: Option<String>,
    pub api_base: Option<String>,
    pub context_window: usize,
}

impl Clone for SmallModelConfig {
    fn clone(&self) -> (r: Self)
        ensures
            r == *self,
    {
        SmallModelConfig {
            provider: self.provider.clone(),
            model: self.model.clone(),
            api_key: clone_opt_string(&self.api_key),
            api_base: clone_opt_string(&self.api_base),
            context_window: self.context_window,
        }
    }
}

/// A reference to a model: either a named tier or an inline definition.
#[derive(Debug, PartialEq)]
pub enum ModelRef {
    Named(String),
    Inline(Box<SmallModelConfig>),
}

impl Clone for ModelRef {
    fn clone(&self) -> (r: Self)
        ensures
            r == *self,
    {
        match self {
            ModelRef::Named(n) => ModelRef::Named(n.clone()),
            ModelRef::Inline(c) => ModelRef::Inline(Box::new((**c).clone())),
        }
    }
}

/// Configuration of the periodic heartbeat driver.
#[derive(Debug, PartialEq)]
pub struct HeartbeatConfig {
    pub enabled: bool,
    pub interval_secs: u64,
    pub model: Option<ModelRef>,
    pub prompt: Option<String>,
}

/// One cron-scheduled task.
#[derive(Debug, PartialEq)]
pub struct ScheduleTaskConfig {
    pub name: String,
    pub cron: String,
    pub model: Option<ModelRef>,
    pub prompt: String,
    pub enabled: bool,
}

impl Clone for ScheduleTaskConfig {
    fn clone(&self) -> (r: Self)
        ensures
            r == *self,
    {
        ScheduleTaskConfig {
            name: self.name.clone(),
            cron: self.cron.clone(),
            model: clone_opt_model_ref(&self.model),
            prompt: self.prompt.clone(),
            enabled: self.enabled,
        }
    }
}

/// How the ledger is shrunk when it outgrows the context budget.
#[derive(Debug, Clone, Copy, PartialEq, Eq, Structural)]
pub enum CompactStrategy {
    Truncate,
    SmallModel,
}

impl Default for CompactStrategy {
    fn default() -> (r: Self)
        ensures
            r is Truncate,
    {
        CompactStrategy::Truncate
    }
}

/// Compaction policy. The trigger ratio is kept as a percentage of the
/// context window (80 stands for the default ratio of 0.8).
#[derive(Debug, PartialEq)]
pub struct CompactConfig {
    pub enabled: bool,
    pub strategy: CompactStrategy,
    pub trigger_percent: u32,
    pub model: Option<ModelRef>,
    pub prompt: Option<String>,
}

/// Settings of the chat-bot long-polling adapter.
#[derive(Debug, PartialEq)]
pub struct TelegramConfig {
    pub enabled: bool,
    pub bot_token: String,
    pub poll_timeout_secs: Option<u32>,
}

/// Bounds of the session registry.
#[derive(Debug, Clone, Copy, PartialEq, Eq, Structural)]
pub struct SessionConfig {
    pub ttl_secs: u64,
    pub max_sessions: usize,
}

/// Policy of the memory-reclamation observability hook.
#[derive(Debug, Clone, Copy, PartialEq, Eq, Structural)]
pub struct MemoryConfig {
    pub large_release_threshold_bytes: usize,
}

impl Default for MemoryConfig {
    fn default() -> (r: Self)
        ensures
            r.large_release_threshold_bytes == 1048576,
    {
        MemoryConfig { large_release_threshold_bytes: 1048576 }
    }
}

/// Settings of the remote adapters.
#[derive(Debug, PartialEq)]
pub struct RemoteConfig {
    pub telegram: Option<TelegramConfig>,
    pub session: Option<SessionConfig>,
}

/// One external tool server: started as a child process (`command`) or
/// reached over HTTP (`url`).
#[derive(Debug, PartialEq)]
pub struct McpServerConfig {
    pub command: Option<String>,
    pub args: Option<Vec<String>>,
    pub env: Option<Vec<(String, String)>>,
    pub url: Option<String>,
}

/// The set of configured tool servers, as (name, server) pairs.
#[derive(Debug, PartialEq)]
pub struct McpConfig {
    pub mcp_servers: Vec<(String, McpServerConfig)>,
}

/// The full model configuration of one assistant instance.
#[derive(Debug)]
pub struct ModelConfig {
    pub provider: Provider,
    pub model: String,
    pub api_key: Option<String>,
    pub api_base: Option<String>,
    pub preamble: Option<String>,
    pub context_window: usize,
    pub history_limit: Option<usize>,
    pub small_model: Option<SmallModelConfig>,
    pub heartbeat: Option<HeartbeatConfig>,
    pub schedules: Option<Vec<ScheduleTaskConfig>>,
    pub compact: Option<CompactConfig>,
    pub remote: Option<RemoteConfig>,
    pub memory: Option<MemoryConfig>,
}

fn clone_opt_string(o: &Option<String>) -> (r: Option<String>)
    ensures
        r == *o,
{
    match o {
        Some(s) => Some(s.clone()),
        None => None,
    }
}

fn clone_opt_model_ref(o: &Option<ModelRef>) -> (r: Option<ModelRef>)
    ensures
        r == *o,
{
    match o {
        Some(m) => Some(m.clone()),
        None => None,
    }
}

/// Whether a configuration passes the static checks: a key-requiring
/// provider has a key, the same for the small model, and an enabled
/// chat-bot adapter has a token.
pub open spec fn valid_config_spec(c: &ModelConfig) -> bool {
    &&& (c.provider.keyless_spec() || c.api_key is Some)
    &&& match c.small_model {
        Some(ref s) => s.provider.keyless_spec() || s.api_key is Some,
        None => true,
    }
    &&& match c.remote {
        Some(ref r) => match r.telegram {
            Some(ref t) => !t.enabled || t.bot_token@.len() > 0,
            None => true,
        },
        None => true,
    }
}

impl ModelConfig {
    /// Check the configuration; the error text names the first failing rule.
    pub fn validate(&self) -> (r: Result<(), String>)
        ensures
            r is Ok <==> valid_config_spec(self),
    {
        if !self.provider.keyless() && self.api_key.is_none() {
            let mut msg = String::from_str("api_key is required for provider ");
            msg.append(self.provider.label().as_str());
            return Err(msg);
        }
        match &self.small_model {
            Some(small) => {
                if !small.provider.keyless() && small.api_key.is_none() {
                    let mut msg = String::from_str("api_key is required for small_model provider ");
                    msg.append(small.provider.label().as_str());
                    return Err(msg);
                }
            },
            None => {},
        }
        match &self.remote {
            Some(remote) => {
                match &remote.telegram {
                    Some(telegram) => {
                        if telegram.enabled && telegram.bot_token.as_str().unicode_len() == 0 {
                            return Err(
                                String::from_str("bot_token is required when Telegram remote is enabled"),
                            );
                        }
                    },
                    None => {},
                }
            },
            None => {},
        }
        Ok(())
    }

    /// The primary model's parameters in the shape of a small-model entry.
    pub fn as_small_model_config(&self) -> (r: SmallModelConfig)
        ensures
            r.provider == self.provider,
            r.model == self.model,
            r.api_key == self.api_key,
            r.api_base == self.api_base,
            r.context_window == self.context_window,
    {
        SmallModelConfig {
            provider: self.provider.clone(),
            model: self.model.clone(),
            api_key: clone_opt_string(&self.api_key),
            api_base: clone_opt_string(&self.api_base),
            context_window: self.context_window,
        }
    }

    /// What a model reference resolves to: an inline definition stands for
    /// itself; the name `"small"` stands for the configured small model
    /// where one exists; everything else falls back to the primary model.
    pub open spec fn resolve_model_ref_spec(&self, model_ref: &Option<ModelRef>) -> SmallModelConfig {
        match model_ref {
            Some(ModelRef::Inline(c)) => **c,
            Some(ModelRef::Named(n)) => if n@ == "small"@ && self.small_model is Some {
                self.small_model->Some_0
            } else {
                self.primary_as_small_spec()
            },
            None => self.primary_as_small_spec(),
        }
    }

    pub open spec fn primary_as_small_spec(&self) -> SmallModelConfig {
        SmallModelConfig {
            provider: self.provider,
            model: self.model,
            api_key: self.api_key,
            api_base: self.api_base,
            context_window: self.context_window,
        }
    }

    /// Resolve a model reference against this configuration.
    pub fn resolve_model_ref(&self, model_ref: &Option<ModelRef>) -> (r: SmallModelConfig)
        ensures
            r == self.resolve_model_ref_spec(model_ref),
    {
        match model_ref {
            None => self.as_small_model_config(),
            Some(ModelRef::Named(name)) => {
                if crate::text::str_eq(name.as_str(), "small") {
                    match &self.small_model {
                        Some(s) => s.clone(),
                        None => self.as_small_model_config(),
                    }
                } else {
                    self.as_small_model_config()
                }
            },
            Some(ModelRef::Inline(config)) => (**config).clone(),
        }
    }
}

/// Default heartbeat interval, in seconds.
pub fn default_interval_secs() -> (r: u64)
    ensures
        r == 300,
{
    300
}

/// Default long-poll timeout of the chat-bot adapter, in seconds.
pub fn default_poll_timeout_secs() -> (r: Option<u32>)
    ensures
        r == Some(30u32),
{
    Some(30)
}

/// Default threshold above which a release of ledger memory is reported.
pub fn default_large_release_threshold_bytes() -> (r: usize)
    ensures
        r == 1048576,
{
    1048576
}

/// Default idle lifetime of a registry session, in seconds.
pub fn default_session_ttl_secs() -> (r: u64)
    ensures
        r == 3600,
{
    3600
}

/// Default capacity of the session registry.
pub fn default_max_sessions() -> (r: usize)
    ensures
        r == 100,
{
    100
}

/// Default compaction trigger, as a percentage of the context window.
pub fn default_trigger_percent() -> (r: u32)
    ensures
        r == 80,
{
    80
}

} // verus!
