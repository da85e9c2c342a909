//! The settings of the proxy.

use crate::error::{Failure, ProxyError};
use crate::json::Object;
use crate::number::{JsonNumber, Num};
use crate::table::Table;
use crate::text::{
    concat, concat3, is_blank, starts_with, trim_end_matches, trimmed, without_trailing,
};
use vstd::prelude::*;
use vstd::string::*;

verus! {

/// A program that the proxy runs when the model calls a tool.
#[derive(Debug)]
pub struct LocalToolSettings {
    pub command: String,
    pub args: Vec<String>,
    pub env: Table<String>,
    pub workdir: Option<String>,
    pub timeout_seconds: JsonNumber,
    pub stdin_json: bool,
    pub output_json: bool,
}

/// The settings of the proxy. Time spans that may be fractional are JSON numbers.
#[derive(Debug)]
pub struct Settings {
    pub proxy_host: String,
    pub proxy_port: u16,
    pub proxy_api_key: String,
    pub upstream_base_url: String,
    pub upstream_chat_path: String,
    pub upstream_model: String,
    pub upstream_api_key: String,
    pub upstream_headers: Table<String>,
    pub upstream_api_key_header_name: String,
    pub upstream_api_key_prefix: String,
    pub request_timeout_seconds: JsonNumber,
    pub strict_protocol: bool,
    pub upstream_supports_image_input: bool,
    pub upstream_supports_reasoning_content: Option<bool>,
    pub upstream_supports_tool_choice_required: Option<bool>,
    pub upstream_supports_named_tool_choice: Option<bool>,
    pub response_ttl_seconds: u64,
    pub drop_input_reasoning: bool,
    pub drop_tools: bool,
    pub upstream_body: Object,
    pub model_aliases: Table<String>,
    pub local_tools: Table<LocalToolSettings>,
    pub max_auto_tool_rounds: u32,
    pub upstream_max_retries: u32,
    pub upstream_retry_base_delay_ms: u64,
    pub upstream_reasoning_effort_field: String,
    pub web_search_url: Option<String>,
    pub web_search_max_results: usize,
    pub file_search_paths: Vec<String>,
    pub file_search_max_results: usize,
}

pub fn default_proxy_host() -> (s: String)
    ensures
        s@ == "127.0.0.1"@,
{
    "127.0.0.1".to_owned()
}

pub fn default_proxy_port() -> (n: u16)
    ensures
        n == 8800,
{
    8800
}

pub fn default_upstream_chat_path() -> (s: String)
    ensures
        s@ == "/v1/chat/completions"@,
{
    "/v1/chat/completions".to_owned()
}

pub fn default_api_key_header_name() -> (s: String)
    ensures
        s@ == "Authorization"@,
{
    "Authorization".to_owned()
}

pub fn default_api_key_prefix() -> (s: String)
    ensures
        s@ == "Bearer "@,
{
    "Bearer ".to_owned()
}

pub fn default_request_timeout_seconds() -> (n: JsonNumber)
    ensures
        n@ == Num::Unsigned(120),
{
    JsonNumber::Unsigned(120)
}

pub fn default_tool_timeout_seconds() -> (n: JsonNumber)
    ensures
        n@ == Num::Unsigned(30),
{
    JsonNumber::Unsigned(30)
}

pub fn default_max_auto_tool_rounds() -> (n: u32)
    ensures
        n == 8,
{
    8
}

pub fn default_upstream_max_retries() -> (n: u32)
    ensures
        n == 3,
{
    3
}

pub fn default_upstream_retry_base_delay_ms() -> (n: u64)
    ensures
        n == 1000,
{
    1000
}

pub fn default_response_ttl_seconds() -> (n: u64)
    ensures
        n == 3600,
{
    3600
}

pub fn default_upstream_reasoning_effort_field() -> (s: String)
    ensures
        s@ == "reasoning_effort"@,
{
    "reasoning_effort".to_owned()
}

pub fn default_web_search_max_results() -> (n: usize)
    ensures
        n == 5,
{
    5
}

pub fn default_file_search_max_results() -> (n: usize)
    ensures
        n == 5,
{
    5
}

pub fn default_true() -> (b: bool)
    ensures
        b,
{
    true
}

/// What is wrong with a local tool, if anything.
pub open spec fn tool_problem(name: Seq<char>, tool: LocalToolSettings) -> Option<Failure> {
    if trimmed(name).len() == 0 {
        Some(Failure::InvalidConfig("local_tools cannot contain an empty tool name"@))
    } else if trimmed(tool.command@).len() == 0 {
        Some(Failure::InvalidConfig("local tool `"@ + name + "` command cannot be empty"@))
    } else if !tool.timeout_seconds@.is_positive() {
        Some(
            Failure::InvalidConfig("local tool `"@ + name + "` timeout_seconds must be positive"@),
        )
    } else {
        None
    }
}

/// What is wrong with the first faulty tool of a list, if there is one.
pub open spec fn tools_problem(tools: Seq<(String, LocalToolSettings)>) -> Option<Failure>
    decreases tools.len(),
{
    if tools.len() == 0 {
        None
    } else {
        let earlier = tools_problem(tools.drop_last());
        if earlier is Some {
            earlier
        } else {
            tool_problem(tools.last().0@, tools.last().1)
        }
    }
}

/// What is wrong with the settings, if anything.
pub open spec fn settings_problem(s: Settings) -> Option<Failure> {
    if trimmed(s.proxy_host@).len() == 0 {
        Some(Failure::InvalidConfig("proxy_host cannot be empty"@))
    } else if trimmed(s.proxy_api_key@).len() == 0 {
        Some(Failure::InvalidConfig("proxy_api_key cannot be empty"@))
    } else if trimmed(s.upstream_base_url@).len() == 0 {
        Some(Failure::InvalidConfig("upstream_base_url cannot be empty"@))
    } else if trimmed(s.upstream_model@).len() == 0 {
        Some(Failure::InvalidConfig("upstream_model cannot be empty"@))
    } else if trimmed(s.upstream_api_key@).len() == 0 {
        Some(Failure::InvalidConfig("upstream_api_key cannot be empty"@))
    } else if !s.request_timeout_seconds@.is_positive() {
        Some(Failure::InvalidConfig("request_timeout_seconds must be positive"@))
    } else if s.max_auto_tool_rounds == 0 {
        Some(Failure::InvalidConfig("max_auto_tool_rounds must be positive"@))
    } else {
        tools_problem(s.local_tools.spec_entries())
    }
}

/// The path of a URL, with a slash in front.
pub open spec fn absolute_path(path: Seq<char>) -> Seq<char> {
    if path.len() > 0 && path[0] == '/' {
        path
    } else {
        seq!['/'] + path
    }
}

impl Settings {
    /// The chat endpoint of the upstream.
    pub open spec fn spec_upstream_url(self) -> Seq<char> {
        without_trailing(self.upstream_base_url@, '/') + absolute_path(self.upstream_chat_path@)
    }

    /// The upstream's name for the model that a client asks for.
    pub open spec fn spec_mapped_model(self, requested: Option<Seq<char>>) -> Seq<char> {
        let wanted = match requested {
            Some(m) => m,
            None => self.upstream_model@,
        };
        match self.model_aliases@.get(wanted) {
            Some(m) => m@,
            None => self.upstream_model@,
        }
    }

    /// Checks all that can be checked without resolving the listen address.
    pub fn validate(&self) -> (r: Result<(), ProxyError>)
        ensures
            match r {
                Ok(_) => settings_problem(*self) is None,
                Err(e) => settings_problem(*self) == Some(e@),
            },
    {
        if is_blank(self.proxy_host.as_str()) {
            return Err(ProxyError::invalid_config("proxy_host cannot be empty"));
        }
        if is_blank(self.proxy_api_key.as_str()) {
            return Err(ProxyError::invalid_config("proxy_api_key cannot be empty"));
        }
        if is_blank(self.upstream_base_url.as_str()) {
            return Err(ProxyError::invalid_config("upstream_base_url cannot be empty"));
        }
        if is_blank(self.upstream_model.as_str()) {
            return Err(ProxyError::invalid_config("upstream_model cannot be empty"));
        }
        if is_blank(self.upstream_api_key.as_str()) {
            return Err(ProxyError::invalid_config("upstream_api_key cannot be empty"));
        }
        if !self.request_timeout_seconds.is_positive() {
            return Err(ProxyError::invalid_config("request_timeout_seconds must be positive"));
        }
        if self.max_auto_tool_rounds == 0 {
            return Err(ProxyError::invalid_config("max_auto_tool_rounds must be positive"));
        }
        let ghost tools = self.local_tools.spec_entries();
        let mut i: usize = 0;
        while i < self.local_tools.len()
            invariant
                i <= tools.len(),
                tools == self.local_tools.spec_entries(),
                tools_problem(tools.take(i as int)) is None,
                settings_problem(*self) == tools_problem(tools),
            decreases tools.len() - i,
        {
            let (name, tool) = self.local_tools.entry(i);
            proof {
                assert(tools.take(i + 1).drop_last() =~= tools.take(i as int));
                assert(tools.take(i + 1).last() == tools[i as int]);
                lemma_first_problem(tools, i + 1);
            }
            if is_blank(name.as_str()) {
                return Err(
                    ProxyError::invalid_config("local_tools cannot contain an empty tool name"),
                );
            }
            if is_blank(tool.command.as_str()) {
                return Err(
                    ProxyError::InvalidConfig(
                        concat3("local tool `", name.as_str(), "` command cannot be empty"),
                    ),
                );
            }
            if !tool.timeout_seconds.is_positive() {
                return Err(
                    ProxyError::InvalidConfig(
                        concat3("local tool `", name.as_str(), "` timeout_seconds must be positive"),
                    ),
                );
            }
            i += 1;
        }
        assert(tools.take(i as int) =~= tools);
        Ok(())
    }

    /// The address to listen on, before it is resolved.
    pub fn listen_address(&self) -> (s: String)
        ensures
            s@ == self.proxy_host@ + ":"@ + crate::text::decimal(self.proxy_port as nat),
    {
        concat3(
            self.proxy_host.as_str(),
            ":",
            crate::text::decimal_text(self.proxy_port as u64).as_str(),
        )
    }

    /// The chat endpoint of the upstream.
    pub fn upstream_url(&self) -> (url: String)
        ensures
            url@ == self.spec_upstream_url(),
    {
        let base = trim_end_matches(self.upstream_base_url.as_str(), '/');
        proof {
            reveal_strlit("/");
            assert(seq!['/'] =~= "/"@);
        }
        let path = self.upstream_chat_path.as_str();
        if starts_with(path, "/") {
            assert(path@.take(1)[0] == '/');
            concat(base.as_str(), path)
        } else {
            assert(path@.len() > 0 && path@[0] == '/' ==> path@.take(1) =~= "/"@);
            concat(base.as_str(), concat("/", path).as_str())
        }
    }

    /// The upstream's name for the model that a client asks for.
    pub fn mapped_model(&self, requested: Option<&str>) -> (model: String)
        ensures
            model@ == self.spec_mapped_model(requested.deep_view()),
    {
        let wanted = match requested {
            Some(m) => m,
            None => self.upstream_model.as_str(),
        };
        match self.model_aliases.get(wanted) {
            Some(m) => m.clone(),
            None => self.upstream_model.clone(),
        }
    }
}

/// A problem found among the first tools is the problem of the whole list.
proof fn lemma_first_problem(tools: Seq<(String, LocalToolSettings)>, n: int)
    requires
        0 <= n <= tools.len(),
    ensures
        tools_problem(tools.take(n)) is Some ==> tools_problem(tools) == tools_problem(
            tools.take(n),
        ),
    decreases tools.len() - n,
{
    if n < tools.len() {
        lemma_first_problem(tools, n + 1);
        assert(tools.take(n + 1).drop_last() =~= tools.take(n));
    } else {
        assert(tools.take(n) =~= tools);
    }
}

/// The chat endpoint is the path behind the base, with one slash between them, however
/// they are written.
pub proof fn law_one_slash_joins_base_and_path(settings: Settings, base: Seq<char>, path: Seq<char>)
    requires
        base.len() > 0 ==> base.last() != '/',
        path.len() > 0 ==> path[0] != '/',
        settings.upstream_base_url@ == base || settings.upstream_base_url@ == base.push('/'),
        settings.upstream_chat_path@ == path || settings.upstream_chat_path@ == seq!['/'] + path,
    ensures
        settings.spec_upstream_url() == base + seq!['/'] + path,
{
    reveal_with_fuel(without_trailing, 2);
    assert(base.push('/').drop_last() =~= base);
    assert((seq!['/'] + path)[0] == '/');
    assert(base + (seq!['/'] + path) =~= base + seq!['/'] + path);
}

/// A model goes upstream under the name that its alias leads to, and the configured model
/// stands in for every model without an alias.
pub proof fn law_models_go_upstream_by_their_alias(settings: Settings, wanted: Seq<char>)
    ensures
        settings.model_aliases@.contains_key(wanted) ==> settings.spec_mapped_model(Some(wanted))
            == settings.model_aliases@[wanted]@,
        !settings.model_aliases@.contains_key(wanted) ==> settings.spec_mapped_model(Some(wanted))
            == settings.upstream_model@,
        settings.spec_mapped_model(None) == settings.spec_mapped_model(
            Some(settings.upstream_model@),
        ),
{
}

proof fn lemma_faultless_tools(tools: Seq<(String, LocalToolSettings)>)
    ensures
        tools_problem(tools) is None <==> forall|i: int|
            0 <= i < tools.len() ==> trimmed((#[trigger] tools[i]).0@).len() > 0 && trimmed(
                tools[i].1.command@,
            ).len() > 0 && tools[i].1.timeout_seconds@.is_positive(),
        tools_problem(tools) matches Some(e) ==> e is InvalidConfig,
    decreases tools.len(),
{
    if tools.len() > 0 {
        let front = tools.drop_last();
        lemma_faultless_tools(front);
        assert(forall|i: int| 0 <= i < front.len() ==> front[i] == tools[i]);
        assert(tools.last() == tools[tools.len() - 1]);
        if tools_problem(front) is Some {
            let k = choose|k: int|
                0 <= k < front.len() && !(trimmed((#[trigger] front[k]).0@).len() > 0 && trimmed(
                    front[k].1.command@,
                ).len() > 0 && front[k].1.timeout_seconds@.is_positive());
            assert(tools[k] == front[k]);
        }
    }
}

/// Settings are sound if and only if the host, the keys, the base and the model are given,
/// the timeouts are positive, there is a round to run tools in, and each tool has a name
/// and a command.
pub proof fn law_sound_settings_are_accepted(s: Settings)
    ensures
        settings_problem(s) is None <==> {
            let tools = s.local_tools.spec_entries();
            &&& trimmed(s.proxy_host@).len() > 0
            &&& trimmed(s.proxy_api_key@).len() > 0
            &&& trimmed(s.upstream_base_url@).len() > 0
            &&& trimmed(s.upstream_model@).len() > 0
            &&& trimmed(s.upstream_api_key@).len() > 0
            &&& s.request_timeout_seconds@.is_positive()
            &&& s.max_auto_tool_rounds > 0
            &&& forall|i: int|
                0 <= i < tools.len() ==> trimmed((#[trigger] tools[i]).0@).len() > 0 && trimmed(
                    tools[i].1.command@,
                ).len() > 0 && tools[i].1.timeout_seconds@.is_positive()
        },
        settings_problem(s) matches Some(e) ==> e is InvalidConfig,
{
    lemma_faultless_tools(s.local_tools.spec_entries());
}

} // verus!
