//! Requests for a completion.

use vstd::prelude::*;

use crate::json::Json;
use crate::text;

verus! {

/// A message of a conversation.
pub struct Message {
    pub role: String,
    pub content: String,
}

/// What a client wants to be told along a stream.
#[derive(Debug, Clone, Copy, PartialEq, Eq, Structural)]
pub struct StreamOptions {
    pub include_usage: bool,
}

/// A request for a completion. Numbers that are no integers are held by the bits of their
/// singles.
pub struct ChatCompletionRequest {
    pub model: String,
    pub messages: Vec<Message>,
    pub temperature: Option<u32>,
    pub top_p: Option<u32>,
    pub max_tokens: Option<u32>,
    pub stop: Option<Json>,
    pub frequency_penalty: Option<u32>,
    pub presence_penalty: Option<u32>,
    pub stream: bool,
    pub stream_options: Option<StreamOptions>,
    pub tools: Option<Json>,
    pub tool_choice: Option<Json>,
    pub response_format: Option<Json>,
    pub seed: Option<i64>,
    pub store: Option<bool>,
    pub cache_prompt: Option<bool>,
    /// The providers that the client wants, in its order.
    pub provider: Option<Vec<String>>,
    pub preference: Option<String>,
    pub zdr: Option<bool>,
    pub zds: Option<bool>,
    pub tee: Option<bool>,
}

/// What a message says.
#[verifier::ext_equal]
pub struct Said {
    pub role: Seq<char>,
    pub content: Seq<char>,
}

impl DeepView for Message {
    type V = Said;

    open spec fn deep_view(&self) -> Said {
        Said { role: self.role@, content: self.content@ }
    }
}

/// What some messages say.
pub open spec fn said_in(v: Seq<Message>) -> Seq<Said> {
    v.map_values(|m: Message| m.deep_view())
}

/// Whether two requests ask for the same kind of answer, from the same providers.
pub open spec fn same_wishes(a: ChatCompletionRequest, b: ChatCompletionRequest) -> bool {
    &&& a.temperature == b.temperature
    &&& a.top_p == b.top_p
    &&& a.max_tokens == b.max_tokens
    &&& a.stop == b.stop
    &&& a.frequency_penalty == b.frequency_penalty
    &&& a.presence_penalty == b.presence_penalty
    &&& a.stream == b.stream
    &&& a.tools == b.tools
    &&& a.tool_choice == b.tool_choice
    &&& a.response_format == b.response_format
    &&& a.seed == b.seed
    &&& a.provider == b.provider
    &&& a.preference == b.preference
}

/// Whether two requests differ at most in the model, the messages, what is told along the
/// stream, and the two flags for keeping data.
pub open spec fn same_otherwise(a: ChatCompletionRequest, b: ChatCompletionRequest) -> bool {
    &&& same_wishes(a, b)
    &&& a.zdr == b.zdr
    &&& a.zds == b.zds
    &&& a.tee == b.tee
}

impl ChatCompletionRequest {
    /// Asks a provider for its own name of the model, and for the usage along a stream.
    pub fn address_to(&mut self, upstream_model: &str)
        ensures
            same_otherwise(*final(self), *old(self)),
            final(self).messages == old(self).messages,
            final(self).store == old(self).store,
            final(self).cache_prompt == old(self).cache_prompt,
            final(self).model@ == upstream_model@,
            final(self).stream_options == (if old(self).stream {
                Some(StreamOptions { include_usage: true })
            } else {
                old(self).stream_options
            }),
    {
        if self.stream {
            self.stream_options = Some(StreamOptions { include_usage: true });
        }
        self.model = upstream_model.to_string();
    }

    /// Forbids the provider to keep the conversation, whatever the client said.
    pub fn forbid_keeping(&mut self)
        ensures
            same_otherwise(*final(self), *old(self)),
            final(self).messages == old(self).messages,
            final(self).model == old(self).model,
            final(self).stream_options == old(self).stream_options,
            final(self).store == Some(false),
            final(self).cache_prompt == Some(false),
    {
        self.store = Some(false);
        self.cache_prompt = Some(false);
    }

    /// Whether the client wants to be told the usage along a stream.
    pub fn wants_usage(&self) -> (r: bool)
        ensures
            r == (self.stream_options matches Some(o) && o.include_usage),
    {
        match self.stream_options {
            Some(o) => o.include_usage,
            None => false,
        }
    }
}

/// What each switch is called that a client set, with its setting.
pub open spec fn switch_text(name: Seq<char>, setting: Option<bool>) -> Seq<char> {
    match setting {
        Some(true) => name + "=true;"@,
        Some(false) => name + "=false;"@,
        None => ""@,
    }
}

/// The switches that a client set, as encrypted messages are bound to them.
pub open spec fn switches_text(zdr: Option<bool>, zds: Option<bool>, tee: Option<bool>) -> Seq<char> {
    switch_text("zdr"@, zdr) + switch_text("zds"@, zds) + switch_text("tee"@, tee)
}

fn one_switch(name: &str, setting: Option<bool>) -> (r: String)
    ensures
        r@ == switch_text(name@, setting),
{
    match setting {
        Some(true) => text::cat2(name, "=true;"),
        Some(false) => text::cat2(name, "=false;"),
        None => "".to_string(),
    }
}

/// Writes down the switches that a client set, as encrypted messages are bound to them.
pub fn toggles_aad(zdr: Option<bool>, zds: Option<bool>, tee: Option<bool>) -> (r: String)
    ensures
        r@ == switches_text(zdr, zds, tee),
{
    let a = one_switch("zdr", zdr);
    let b = one_switch("zds", zds);
    let c = one_switch("tee", tee);
    text::cat3(a.as_str(), b.as_str(), c.as_str())
}

/// A switch under encryption: on, unless the client set it.
pub open spec fn switch_under_encryption(setting: Option<bool>, encrypted: bool) -> Option<bool> {
    if encrypted && setting is None {
        Some(true)
    } else {
        setting
    }
}

/// A switch under encryption: on, unless the client set it.
pub fn default_switch(setting: Option<bool>, encrypted: bool) -> (r: Option<bool>)
    ensures
        r == switch_under_encryption(setting, encrypted),
{
    match setting {
        Some(b) => Some(b),
        None => {
            if encrypted {
                Some(true)
            } else {
                None
            }
        },
    }
}

/// Messages bound to the switches of one request are bound to no other setting of them.
pub proof fn law_switches_are_told_apart(
    zdr: Option<bool>,
    zds: Option<bool>,
    tee: Option<bool>,
    zdr2: Option<bool>,
    zds2: Option<bool>,
    tee2: Option<bool>,
)
    requires
        switches_text(zdr, zds, tee) == switches_text(zdr2, zds2, tee2),
    ensures
        zdr == zdr2,
        zds == zds2,
        tee == tee2,
{
    reveal_strlit("zdr");
    reveal_strlit("zds");
    reveal_strlit("tee");
    reveal_strlit("=true;");
    reveal_strlit("=false;");
    reveal_strlit("");
    let none = Seq::<char>::empty();
    let b = switch_text("zds"@, zds);
    let b2 = switch_text("zds"@, zds2);
    let c = switch_text("tee"@, tee);
    let c2 = switch_text("tee"@, tee2);
    assert(switches_text(zdr, zds, tee) =~= switch_text("zdr"@, zdr) + (b + c));
    assert(switches_text(zdr2, zds2, tee2) =~= switch_text("zdr"@, zdr2) + (b2 + c2));
    lemma_switch("zdr"@, zdr, b + c, zdr2, b2 + c2);
    lemma_switch("zds"@, zds, c, zds2, c2);
    assert(c + none =~= c && c2 + none =~= c2);
    lemma_switch("tee"@, tee, none, tee2, none);
}

/// Whether a text starts with a name of three letters.
spec fn begins(s: Seq<char>, name: Seq<char>) -> bool {
    s.len() >= 3 && s[0] == name[0] && s[1] == name[1] && s[2] == name[2]
}

proof fn lemma_switch(
    name: Seq<char>,
    s: Option<bool>,
    rest: Seq<char>,
    s2: Option<bool>,
    rest2: Seq<char>,
)
    requires
        name.len() == 3,
        !begins(rest, name),
        !begins(rest2, name),
        switch_text(name, s) + rest == switch_text(name, s2) + rest2,
    ensures
        s == s2,
        rest == rest2,
{
    reveal_strlit("=true;");
    reveal_strlit("=false;");
    reveal_strlit("");
    let t = switch_text(name, s);
    let t2 = switch_text(name, s2);
    let whole = t + rest;
    if s is None {
        assert(whole =~= rest);
    } else {
        assert(begins(whole, name));
        assert(whole[4] == t[4]);
    }
    if s2 is None {
        assert(whole =~= rest2);
    } else {
        assert(begins(whole, name));
        assert(whole[4] == t2[4]);
    }
    assert(rest =~= whole.skip(t.len() as int));
    assert(rest2 =~= whole.skip(t2.len() as int));
}

} // verus!
