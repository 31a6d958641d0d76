//! What providers and models can do.

use vstd::prelude::*;
use crate::text::{contains, contains_str, lower_ascii, lowered, same, starts_with};

verus! {

/// Protocol features that differ between providers.
#[derive(Debug, Clone, Copy, PartialEq, Eq)]
pub struct ProviderCapabilities {
    /// Streams tool calls piece by piece.
    pub streaming_tool_calls: bool,
    /// Names the events of its stream.
    pub named_sse_events: bool,
    /// Gives reasoning content.
    pub reasoning_content: bool,
    /// Takes images.
    pub image_input: bool,
    /// Takes the system prompt outside the messages.
    pub system_as_top_level: bool,
    /// Streams one JSON object per line.
    pub ndjson_streaming: bool,
    /// Takes tool definitions.
    pub tool_support: bool,
    /// Gives structured output.
    pub structured_output: bool,
    /// Needs a version header.
    pub requires_version_header: bool,
    /// Calls several tools in one answer.
    pub supports_parallel_tool_calls: bool,
    /// Context window of the default model in tokens, where it is known.
    pub max_context_tokens: Option<u32>,
    /// Name of the tokenizer, where it is known.
    pub tokenizer_name: Option<&'static str>,
}

impl ProviderCapabilities {
    /// What OpenAI and compatible providers can do.
    pub open spec fn is_openai_compatible(self) -> bool {
        &&& self.streaming_tool_calls && !self.named_sse_events && self.reasoning_content
            && self.image_input && !self.system_as_top_level && !self.ndjson_streaming
            && self.tool_support && self.structured_output && !self.requires_version_header
            && self.supports_parallel_tool_calls
        &&& self.max_context_tokens is None
        &&& self.tokenizer_name is None
    }

    /// What Anthropic can do, whatever its tokenizer is called.
    pub open spec fn speaks_anthropic(self) -> bool {
        &&& !self.streaming_tool_calls && self.named_sse_events && !self.reasoning_content
            && self.image_input && self.system_as_top_level && !self.ndjson_streaming
            && self.tool_support && !self.structured_output && self.requires_version_header
            && self.supports_parallel_tool_calls
        &&& self.max_context_tokens == Some(200_000u32)
    }

    /// What Anthropic can do, with no name for its tokenizer.
    pub open spec fn is_anthropic(self) -> bool {
        self.speaks_anthropic() && self.tokenizer_name is None
    }

    /// What a local Ollama can do.
    pub open spec fn is_ollama(self) -> bool {
        &&& !self.streaming_tool_calls && !self.named_sse_events && !self.reasoning_content
            && !self.image_input && !self.system_as_top_level && self.ndjson_streaming
            && self.tool_support && !self.structured_output && !self.requires_version_header
            && !self.supports_parallel_tool_calls
        &&& self.max_context_tokens is None
        &&& self.tokenizer_name is None
    }

    /// Whether these are the capabilities of the provider with the given name.
    pub open spec fn fits(self, name: Seq<char>) -> bool {
        if lower_ascii(name) == "anthropic"@ {
            self.is_anthropic()
        } else if lower_ascii(name) == "ollama"@ {
            self.is_ollama()
        } else {
            self.is_openai_compatible()
        }
    }

    /// What OpenAI and compatible providers can do.
    pub fn openai_compatible() -> (r: ProviderCapabilities)
        ensures
            r.is_openai_compatible(),
    {
        ProviderCapabilities {
            streaming_tool_calls: true,
            named_sse_events: false,
            reasoning_content: true,
            image_input: true,
            system_as_top_level: false,
            ndjson_streaming: false,
            tool_support: true,
            structured_output: true,
            requires_version_header: false,
            supports_parallel_tool_calls: true,
            max_context_tokens: None,
            tokenizer_name: None,
        }
    }

    /// What Anthropic can do. The name of its tokenizer is left to
    /// [`ProviderCapabilities::anthropic_with_tokenizer`].
    pub fn anthropic() -> (r: ProviderCapabilities)
        ensures
            r.is_anthropic(),
    {
        ProviderCapabilities {
            streaming_tool_calls: false,
            named_sse_events: true,
            reasoning_content: false,
            image_input: true,
            system_as_top_level: true,
            ndjson_streaming: false,
            tool_support: true,
            structured_output: false,
            requires_version_header: true,
            supports_parallel_tool_calls: true,
            max_context_tokens: Some(200_000),
            tokenizer_name: None,
        }
    }

    /// What Anthropic can do, with the name of its tokenizer.
    pub fn anthropic_with_tokenizer(name: &'static str) -> (r: ProviderCapabilities)
        ensures
            r.speaks_anthropic(),
            r.tokenizer_name == Some(name),
    {
        let mut r = ProviderCapabilities::anthropic();
        r.tokenizer_name = Some(name);
        r
    }

    /// What a local Ollama can do.
    pub fn ollama() -> (r: ProviderCapabilities)
        ensures
            r.is_ollama(),
    {
        ProviderCapabilities {
            streaming_tool_calls: false,
            named_sse_events: false,
            reasoning_content: false,
            image_input: false,
            system_as_top_level: false,
            ndjson_streaming: true,
            tool_support: true,
            structured_output: false,
            requires_version_header: false,
            supports_parallel_tool_calls: false,
            max_context_tokens: None,
            tokenizer_name: None,
        }
    }

    /// The capabilities of the provider with the given name, in any case of letters.
    pub fn from_provider_name(name: &str) -> (r: ProviderCapabilities)
        ensures
            r.fits(name@),
    {
        let lower = lowered(name);
        if same(lower.as_str(), "anthropic") {
            ProviderCapabilities::anthropic()
        } else if same(lower.as_str(), "ollama") {
            ProviderCapabilities::ollama()
        } else {
            ProviderCapabilities::openai_compatible()
        }
    }
}

/// What is known of a model.
#[derive(Debug)]
pub struct ModelProfile {
    /// Provider name.
    pub provider: String,
    /// Model name.
    pub model_name: String,
    /// What the provider can do.
    pub capabilities: ProviderCapabilities,
    /// Whether the model gives reasoning content.
    pub supports_reasoning: bool,
    /// Whether the model takes images.
    pub supports_images: bool,
    /// Whether the model calls tools.
    pub supports_tools: bool,
    /// Longest answer in tokens, where it is known.
    pub max_output_tokens: Option<u32>,
    /// Whether the model streams.
    pub supports_streaming: bool,
    /// Whether the model calls several tools in one answer.
    pub supports_parallel_tool_calls: bool,
    /// Context window in tokens, where it is known.
    pub max_context_tokens: Option<u32>,
    /// Name of the tokenizer, where it is known.
    pub tokenizer_name: Option<&'static str>,
}

/// Whether a lower-case model name belongs to a family that reasons.
pub open spec fn reasons(m: Seq<char>) -> bool {
    "qwen3-"@.is_prefix_of(m) || "qwen-"@.is_prefix_of(m) || "deepseek-"@.is_prefix_of(m)
        || "gpt-5.5"@.is_prefix_of(m) || "o3"@.is_prefix_of(m) || "o4"@.is_prefix_of(m)
}

/// Whether a lower-case model name begins with the prefix of Anthropic's models, where one is given.
pub open spec fn in_family(m: Seq<char>, family: Option<Seq<char>>) -> bool {
    family matches Some(f) && f.is_prefix_of(m)
}

/// The context window of a lower-case model name, else that of the provider. `family` is the prefix
/// of Anthropic's models, where the caller gives it.
pub open spec fn context_window(
    m: Seq<char>,
    family: Option<Seq<char>>,
    provider: Option<u32>,
) -> Option<u32> {
    if contains(m, "qwen3-235b"@) {
        Some(131_072u32)
    } else if "gpt-5.5"@.is_prefix_of(m) || "gpt-4.5"@.is_prefix_of(m) {
        Some(128_000u32)
    } else if "gpt-4"@.is_prefix_of(m) {
        Some(8_192u32)
    } else if in_family(m, family) {
        Some(200_000u32)
    } else if "deepseek-"@.is_prefix_of(m) {
        Some(128_000u32)
    } else if "qwen-"@.is_prefix_of(m) {
        Some(131_072u32)
    } else {
        provider
    }
}

/// The longest answer of a lower-case model name, where it is known. `family` is the prefix of
/// Anthropic's models, where the caller gives it.
pub open spec fn answer_limit(m: Seq<char>, family: Option<Seq<char>>) -> Option<u32> {
    if contains(m, "qwen3-235b"@) {
        Some(131_072u32)
    } else if "gpt-5.5"@.is_prefix_of(m) {
        Some(16_384u32)
    } else if in_family(m, family) {
        Some(8_192u32)
    } else {
        None
    }
}

/// Whether `t` is the tokenizer of a lower-case model name, else that of the provider.
pub open spec fn tokenizer_fits(
    m: Seq<char>,
    provider: Option<&'static str>,
    t: Option<&'static str>,
) -> bool {
    if "gpt-5.5"@.is_prefix_of(m) || "gpt-4.5"@.is_prefix_of(m) {
        t matches Some(s) && s@ == "o200k_base"@
    } else if "gpt-4"@.is_prefix_of(m) || "gpt-3"@.is_prefix_of(m) {
        t matches Some(s) && s@ == "cl100k_base"@
    } else {
        t == provider
    }
}

impl ModelProfile {
    /// Whether this is the profile of a model of a provider with the given capabilities, where no
    /// prefix tells Anthropic's models.
    pub open spec fn fits(
        self,
        model_name: Seq<char>,
        provider: Seq<char>,
        c: ProviderCapabilities,
    ) -> bool {
        self.fits_with(model_name, provider, c, None)
    }

    /// Whether this is the profile of a model of a provider with the given capabilities, where
    /// `family` is the prefix of Anthropic's models.
    pub open spec fn fits_with(
        self,
        model_name: Seq<char>,
        provider: Seq<char>,
        c: ProviderCapabilities,
        family: Option<Seq<char>>,
    ) -> bool {
        let m = lower_ascii(model_name);
        &&& self.provider@ == provider
        &&& self.model_name@ == model_name
        &&& self.capabilities == c
        &&& self.supports_reasoning == (c.reasoning_content && reasons(m))
        &&& self.supports_images == (c.image_input && !"gpt-5.5"@.is_prefix_of(m)
            && !"o3"@.is_prefix_of(m))
        &&& self.supports_tools == c.tool_support
        &&& self.max_output_tokens == answer_limit(m, family)
        &&& self.supports_streaming
        &&& self.supports_parallel_tool_calls == c.supports_parallel_tool_calls
        &&& self.max_context_tokens == context_window(m, family, c.max_context_tokens)
        &&& tokenizer_fits(m, c.tokenizer_name, self.tokenizer_name)
    }

    /// The profile of a model of a provider with the given capabilities. It knows no prefix of
    /// Anthropic's models: [`ModelProfile::new_in_family`] takes one.
    pub fn new(model_name: &str, provider: &str, capabilities: ProviderCapabilities) -> (r:
        ModelProfile)
        ensures
            r.fits(model_name@, provider@, capabilities),
    {
        ModelProfile::profile(model_name, provider, capabilities, None)
    }

    /// The profile of a model of a provider with the given capabilities. A model whose lower-case name
    /// begins with `family` is one of Anthropic's.
    pub fn new_in_family(
        model_name: &str,
        provider: &str,
        capabilities: ProviderCapabilities,
        family: &str,
    ) -> (r: ModelProfile)
        ensures
            r.fits_with(model_name@, provider@, capabilities, Some(family@)),
    {
        ModelProfile::profile(model_name, provider, capabilities, Some(family))
    }

    fn profile(
        model_name: &str,
        provider: &str,
        capabilities: ProviderCapabilities,
        family: Option<&str>,
    ) -> (r: ModelProfile)
        ensures
            r.fits_with(
                model_name@,
                provider@,
                capabilities,
                match family {
                    Some(f) => Some(f@),
                    None => None,
                },
            ),
    {
        let lower = lowered(model_name);
        let m = lower.as_str();
        let gpt55 = starts_with(m, "gpt-5.5");
        let gpt45 = starts_with(m, "gpt-4.5");
        let gpt4 = starts_with(m, "gpt-4");
        let anthropic = match family {
            Some(f) => starts_with(m, f),
            None => false,
        };
        let deepseek = starts_with(m, "deepseek-");
        let qwen = starts_with(m, "qwen-");
        let qwen235 = contains_str(m, "qwen3-235b");
        let o3 = starts_with(m, "o3");
        let supports_reasoning = capabilities.reasoning_content && (starts_with(m, "qwen3-")
            || qwen || deepseek || gpt55 || o3 || starts_with(m, "o4"));
        let supports_images = capabilities.image_input && !gpt55 && !o3;
        let max_context_tokens: Option<u32> = if qwen235 {
            Some(131_072)
        } else if gpt55 || gpt45 {
            Some(128_000)
        } else if gpt4 {
            Some(8_192)
        } else if anthropic {
            Some(200_000)
        } else if deepseek {
            Some(128_000)
        } else if qwen {
            Some(131_072)
        } else {
            capabilities.max_context_tokens
        };
        let max_output_tokens: Option<u32> = if qwen235 {
            Some(131_072)
        } else if gpt55 {
            Some(16_384)
        } else if anthropic {
            Some(8_192)
        } else {
            None
        };
        let tokenizer_name = if gpt55 || gpt45 {
            Some("o200k_base")
        } else if gpt4 || starts_with(m, "gpt-3") {
            Some("cl100k_base")
        } else {
            capabilities.tokenizer_name
        };
        ModelProfile {
            provider: provider.to_owned(),
            model_name: model_name.to_owned(),
            capabilities,
            supports_reasoning,
            supports_images,
            supports_tools: capabilities.tool_support,
            max_output_tokens,
            supports_streaming: true,
            supports_parallel_tool_calls: capabilities.supports_parallel_tool_calls,
            max_context_tokens,
            tokenizer_name,
        }
    }

    /// The profile of a model of the provider with the given name.
    pub fn from_provider_name(model_name: &str, provider: &str) -> (r: ModelProfile)
        ensures
            r.capabilities.fits(provider@),
            r.fits(model_name@, provider@, r.capabilities),
    {
        let capabilities = ProviderCapabilities::from_provider_name(provider);
        ModelProfile::new(model_name, provider, capabilities)
    }
}

/// Models are known by what their names begin with. Those that begin with `gpt-4` have the small window
/// of that family, unless they are of the later ones with the large window.
pub proof fn law_models_are_known_by_their_family(
    m: Seq<char>,
    family: Option<Seq<char>>,
    provider: Option<u32>,
)
    requires
        !contains(m, "qwen3-235b"@),
    ensures
        "gpt-5.5"@.is_prefix_of(m) || "gpt-4.5"@.is_prefix_of(m) ==> context_window(
            m,
            family,
            provider,
        ) == Some(128_000u32),
        "gpt-4"@.is_prefix_of(m) && !"gpt-4.5"@.is_prefix_of(m) && !"gpt-5.5"@.is_prefix_of(m)
            ==> context_window(m, family, provider) == Some(8_192u32),
        family is Some && family->0.is_prefix_of(m) && !"gpt-"@.is_prefix_of(m) ==> context_window(
            m,
            family,
            provider,
        ) == Some(200_000u32) && answer_limit(m, family) == Some(8_192u32),
        family is None && "deepseek-"@.is_prefix_of(m) ==> context_window(m, family, provider)
            == Some(128_000u32),
        family is None && "qwen-"@.is_prefix_of(m) ==> context_window(m, family, provider) == Some(
            131_072u32,
        ),
        family is None && !"gpt-"@.is_prefix_of(m) && !"deepseek-"@.is_prefix_of(m)
            && !"qwen-"@.is_prefix_of(m) ==> context_window(m, family, provider) == provider
            && answer_limit(m, family) is None,
        "gpt-5.5"@.is_prefix_of(m) ==> answer_limit(m, family) == Some(16_384u32),
{
    reveal_strlit("gpt-");
    reveal_strlit("gpt-4");
    reveal_strlit("gpt-4.5");
    reveal_strlit("gpt-5.5");
    reveal_strlit("deepseek-");
    reveal_strlit("qwen-");
    if "gpt-4"@.is_prefix_of(m) {
        assert("gpt-4"@ =~= m.take(5));
        assert("gpt-"@ =~= m.take(4)) by {
            assert(m.take(5).take(4) =~= m.take(4));
            assert("gpt-4"@.take(4) =~= "gpt-"@);
        }
    }
    if "gpt-4.5"@.is_prefix_of(m) {
        assert("gpt-4.5"@ =~= m.take(7));
        assert(m.take(7).take(4) =~= m.take(4));
        assert("gpt-4.5"@.take(4) =~= "gpt-"@);
    }
    if "gpt-5.5"@.is_prefix_of(m) {
        assert("gpt-5.5"@ =~= m.take(7));
        assert(m.take(7).take(4) =~= m.take(4));
        assert("gpt-5.5"@.take(4) =~= "gpt-"@);
    }
    if "deepseek-"@.is_prefix_of(m) {
        assert(m[0] == "deepseek-"@[0]);
    }
    if "qwen-"@.is_prefix_of(m) {
        assert(m[0] == "qwen-"@[0]);
    }
    if "gpt-"@.is_prefix_of(m) {
        assert(m[0] == "gpt-"@[0]);
    }
}

} // verus!
