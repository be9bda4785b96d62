use vstd::prelude::*;

use crate::text::{copy_string, same_text};

verus! {

/// The services that compute vectors and classify relationships.
#[derive(Clone, Copy, Debug, PartialEq, Eq, Structural)]
pub enum EmbeddingProvider {
    OpenAI,
    Gemini,
}

/// What a text is embedded for: storage, or a search query.
#[derive(Clone, Copy, Debug, PartialEq, Eq, Structural)]
pub enum EmbeddingTaskType {
    Document,
    Query,
}

/// The provider settings a pipeline run works with.
#[derive(Debug)]
pub struct EmbeddingConfig {
    pub provider: EmbeddingProvider,
    pub api_key: String,
    pub embedding_model: String,
    pub chat_model: String,
}

impl EmbeddingProvider {
    /// The name under which a provider is stored.
    pub open spec fn name(self) -> Seq<char> {
        match self {
            EmbeddingProvider::OpenAI => "openai"@,
            EmbeddingProvider::Gemini => "gemini"@,
        }
    }

    /// The setting that holds the provider's key.
    pub open spec fn key_setting_name(self) -> Seq<char> {
        match self {
            EmbeddingProvider::OpenAI => "openai_api_key"@,
            EmbeddingProvider::Gemini => "gemini_api_key"@,
        }
    }

    pub open spec fn default_embedding_model(self) -> Seq<char> {
        match self {
            EmbeddingProvider::OpenAI => "text-embedding-3-small"@,
            EmbeddingProvider::Gemini => "gemini-embedding-001"@,
        }
    }

    pub open spec fn default_chat_model(self) -> Seq<char> {
        match self {
            EmbeddingProvider::OpenAI => "gpt-4o-mini"@,
            EmbeddingProvider::Gemini => "gemini-2.0-flash"@,
        }
    }

    /// Largest number of texts the provider takes in one request.
    pub open spec fn spec_batch_limit(self) -> usize {
        match self {
            EmbeddingProvider::OpenAI => 2048,
            EmbeddingProvider::Gemini => 100,
        }
    }

    /// Reads a provider name; an unknown name is an error that repeats it.
    pub fn from_str(s: &str) -> (r: Result<EmbeddingProvider, String>)
        ensures
            r matches Ok(p) ==> p.name() == s@,
            r is Err ==> s@ != "openai"@ && s@ != "gemini"@,
            r matches Err(e) ==> e@ == "Unknown embedding provider: "@ + s@,
    {
        if same_text(s, "openai") {
            Ok(EmbeddingProvider::OpenAI)
        } else if same_text(s, "gemini") {
            Ok(EmbeddingProvider::Gemini)
        } else {
            Err(String::from_str("Unknown embedding provider: ").concat(s))
        }
    }

    pub fn as_str(&self) -> (r: &'static str)
        ensures
            r@ == self.name(),
    {
        match self {
            EmbeddingProvider::OpenAI => "openai",
            EmbeddingProvider::Gemini => "gemini",
        }
    }

    /// Name of the setting holding this provider's key.
    pub fn key_setting(&self) -> (r: &'static str)
        ensures
            r@ == self.key_setting_name(),
    {
        match self {
            EmbeddingProvider::OpenAI => "openai_api_key",
            EmbeddingProvider::Gemini => "gemini_api_key",
        }
    }

    /// Largest number of texts sent in one embedding request.
    pub fn batch_limit(&self) -> (r: usize)
        ensures
            r == self.spec_batch_limit(),
            r > 0,
    {
        match self {
            EmbeddingProvider::OpenAI => 2048,
            EmbeddingProvider::Gemini => 100,
        }
    }
}

impl EmbeddingTaskType {
    pub open spec fn gemini_name(self) -> Seq<char> {
        match self {
            EmbeddingTaskType::Document => "RETRIEVAL_DOCUMENT"@,
            EmbeddingTaskType::Query => "RETRIEVAL_QUERY"@,
        }
    }

    /// The task name the Gemini embedding service expects.
    pub fn gemini_task_name(&self) -> (r: &'static str)
        ensures
            r@ == self.gemini_name(),
    {
        match self {
            EmbeddingTaskType::Document => "RETRIEVAL_DOCUMENT",
            EmbeddingTaskType::Query => "RETRIEVAL_QUERY",
        }
    }
}

pub fn default_embedding_model(provider: &EmbeddingProvider) -> (r: &'static str)
    ensures
        r@ == provider.default_embedding_model(),
{
    match provider {
        EmbeddingProvider::OpenAI => "text-embedding-3-small",
        EmbeddingProvider::Gemini => "gemini-embedding-001",
    }
}

pub fn default_chat_model(provider: &EmbeddingProvider) -> (r: &'static str)
    ensures
        r@ == provider.default_chat_model(),
{
    match provider {
        EmbeddingProvider::OpenAI => "gpt-4o-mini",
        EmbeddingProvider::Gemini => "gemini-2.0-flash",
    }
}

/// The value stored under `key`, the first such entry counting.
pub open spec fn setting_value(settings: Seq<(String, String)>, key: Seq<char>) -> Option<
    Seq<char>,
>
    decreases settings.len(),
{
    if settings.len() == 0 {
        None
    } else if settings[0].0@ == key {
        Some(settings[0].1@)
    } else {
        setting_value(settings.drop_first(), key)
    }
}

/// Looks a setting up in a list of key and value pairs.
pub fn find_setting(settings: &Vec<(String, String)>, key: &str) -> (r: Option<String>)
    ensures
        (r is Some) == (setting_value(settings@, key@) is Some),
        r matches Some(v) ==> setting_value(settings@, key@) == Some(v@),
{
    let mut i: usize = 0;
    assert(settings@.subrange(0, settings.len() as int) =~= settings@);
    while i < settings.len()
        invariant
            i <= settings.len(),
            setting_value(settings@, key@) == setting_value(settings@.subrange(i as int, settings.len() as int), key@),
        decreases settings.len() - i,
    {
        let ghost rest = settings@.subrange(i as int, settings.len() as int);
        assert(rest.drop_first() =~= settings@.subrange(i + 1, settings.len() as int));
        if same_text(settings[i].0.as_str(), key) {
            return Some(copy_string(&settings[i].1));
        }
        i = i + 1;
    }
    None
}

/// The provider named by the settings; `openai` where none is stored.
pub open spec fn configured_provider_name(settings: Seq<(String, String)>) -> Seq<char> {
    match setting_value(settings, "embedding_provider"@) {
        Some(v) => v,
        None => "openai"@,
    }
}

pub open spec fn or_default(v: Option<Seq<char>>, d: Seq<char>) -> Seq<char> {
    match v {
        Some(x) => x,
        None => d,
    }
}

/// Builds the provider configuration out of the stored settings: the
/// provider (default `openai`), its key (required), and the two models,
/// each falling back to the provider's default.
pub fn resolve_embedding_config(settings: &Vec<(String, String)>) -> (r: Result<EmbeddingConfig, String>)
    ensures
        r is Ok <==> (exists|p: EmbeddingProvider|
            p.name() == configured_provider_name(settings@) && #[trigger] setting_value(
                settings@,
                p.key_setting_name(),
            ) is Some),
        r matches Ok(c) ==> {
            &&& c.provider.name() == configured_provider_name(settings@)
            &&& setting_value(settings@, c.provider.key_setting_name()) == Some(c.api_key@)
            &&& c.embedding_model@ == or_default(
                setting_value(settings@, "embedding_model"@),
                c.provider.default_embedding_model(),
            )
            &&& c.chat_model@ == or_default(
                setting_value(settings@, "chat_model"@),
                c.provider.default_chat_model(),
            )
        },
{
    let provider_name = match find_setting(settings, "embedding_provider") {
        Some(v) => v,
        None => "openai".to_owned(),
    };
    let provider = match EmbeddingProvider::from_str(provider_name.as_str()) {
        Ok(p) => p,
        Err(e) => {
            proof {
                reveal_strlit("openai");
                reveal_strlit("gemini");
                assert forall|p: EmbeddingProvider| p.name() == configured_provider_name(settings@) implies
                    #[trigger] setting_value(settings@, p.key_setting_name()) is None by {
                    match p {
                        EmbeddingProvider::OpenAI => {},
                        EmbeddingProvider::Gemini => {},
                    }
                }
            }
            return Err(e);
        },
    };
    assert(provider.name() == configured_provider_name(settings@));
    let api_key = match find_setting(settings, provider.key_setting()) {
        Some(k) => k,
        None => {
            proof {
                reveal_strlit("openai");
                reveal_strlit("gemini");
                assert forall|p: EmbeddingProvider| p.name() == configured_provider_name(settings@) implies
                    #[trigger] setting_value(settings@, p.key_setting_name()) is None by {
                    assert("openai"@[0] != "gemini"@[0]);
                    assert(p == provider) by {
                        match (p, provider) {
                            (EmbeddingProvider::OpenAI, EmbeddingProvider::OpenAI) => {},
                            (EmbeddingProvider::Gemini, EmbeddingProvider::Gemini) => {},
                            (EmbeddingProvider::OpenAI, EmbeddingProvider::Gemini) => {
                                assert(p.name() != provider.name());
                            },
                            (EmbeddingProvider::Gemini, EmbeddingProvider::OpenAI) => {
                                assert(p.name() != provider.name());
                            },
                        }
                    }
                }
            }
            return Err(String::from_str(provider.as_str()).concat(" API key not configured"));
        },
    };
    let embedding_model = match find_setting(settings, "embedding_model") {
        Some(m) => m,
        None => default_embedding_model(&provider).to_owned(),
    };
    let chat_model = match find_setting(settings, "chat_model") {
        Some(m) => m,
        None => default_chat_model(&provider).to_owned(),
    };
    Ok(EmbeddingConfig { provider, api_key, embedding_model, chat_model })
}

/// The model path the Gemini service expects: `models/` in front, unless
/// it is already there.
pub open spec fn gemini_path(model: Seq<char>) -> Seq<char> {
    if model.len() >= 7 && model.subrange(0, 7) == "models/"@ {
        model
    } else {
        "models/"@ + model
    }
}

pub fn gemini_model_path(model: &str) -> (r: String)
    ensures
        r@ == gemini_path(model@),
{
    proof {
        reveal_strlit("models/");
    }
    if model.unicode_len() >= 7 && same_text(model.substring_char(0, 7), "models/") {
        model.to_owned()
    } else {
        String::from_str("models/").concat(model)
    }
}

} // verus!
