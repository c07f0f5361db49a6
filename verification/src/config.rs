//! Process configuration and the URLs the command-line client talks to.

use vstd::prelude::*;
use crate::textfmt::{decimal_chars, push_decimal};

verus! {

/// Engine settings: the port the API listens on, the inference service's
/// base URL, the two model identifiers, and where the store keeps its data.
#[derive(Debug, Clone, PartialEq)]
pub struct Config {
    pub port: u16,
    pub ollama_url: String,
    pub embed_model: String,
    pub chat_model: String,
    pub data_dir: String,
}

impl Config {
    /// Fills each setting from the given value or its documented default.
    /// The data directory defaults to `.memorai/data` under the home
    /// directory, or under `/tmp` when no home directory is known.
    pub fn resolve(
        port: Option<u16>,
        ollama_url: Option<String>,
        embed_model: Option<String>,
        chat_model: Option<String>,
        data_dir: Option<String>,
        home: Option<String>,
    ) -> (c: Config)
        ensures
            c.port == match port {
                Option::Some(p) => p,
                Option::None => 8484u16,
            },
            c.ollama_url@ == match ollama_url {
                Option::Some(u) => u@,
                Option::None => "http://localhost:11434"@,
            },
            c.embed_model@ == match embed_model {
                Option::Some(m) => m@,
                Option::None => "mxbai-embed-large"@,
            },
            c.chat_model@ == match chat_model {
                Option::Some(m) => m@,
                Option::None => "qwen2.5:14b"@,
            },
            c.data_dir@ == match data_dir {
                Option::Some(d) => d@,
                Option::None => (match home {
                    Option::Some(h) => h@,
                    Option::None => "/tmp"@,
                }) + "/.memorai/data"@,
            },
    {
        let port_v: u16 = match port {
            Option::Some(p) => p,
            Option::None => 8484,
        };
        let ollama_v: String = match ollama_url {
            Option::Some(u) => u,
            Option::None => String::from_str("http://localhost:11434"),
        };
        let embed_v: String = match embed_model {
            Option::Some(m) => m,
            Option::None => String::from_str("mxbai-embed-large"),
        };
        let chat_v: String = match chat_model {
            Option::Some(m) => m,
            Option::None => String::from_str("qwen2.5:14b"),
        };
        let data_v: String = match data_dir {
            Option::Some(d) => d,
            Option::None => {
                let base: String = match home {
                    Option::Some(h) => h,
                    Option::None => String::from_str("/tmp"),
                };
                base.concat("/.memorai/data")
            },
        };
        Config {
            port: port_v,
            ollama_url: ollama_v,
            embed_model: embed_v,
            chat_model: chat_v,
            data_dir: data_v,
        }
    }
}

/// Base URL of the local API for the command-line client.
pub fn api_url(config: &Config) -> (r: String)
    ensures
        r@ == "http://localhost:"@ + decimal_chars(config.port as int),
{
    let mut s = String::from_str("http://localhost:");
    push_decimal(&mut s, config.port as u64);
    s
}

/// What `urlencoding::encode` returns on a string with the given
/// characters.
pub uninterp spec fn urlencode_of(s: Seq<char>) -> Seq<char>;

/// Relies on `urlencoding::encode`: percent-encodes every byte except
/// ASCII alphanumerics and `-`, `_`, `.`, `~`; a function of the
/// characters alone.
#[verifier::external_body]
pub(crate) fn urlencode(s: &str) -> (r: String)
    ensures
        r@ == urlencode_of(s@),
{
    urlencoding::encode(s).into_owned()
}

/// The search endpoint URL for a query: the query text is percent-encoded
/// into the `q` parameter and the result cap into `limit`.
pub fn search_url(config: &Config, query: &str, limit: usize) -> (r: String)
    ensures
        r@ == "http://localhost:"@ + decimal_chars(config.port as int) + "/v1/search?q="@
            + urlencode_of(query@) + "&limit="@ + decimal_chars(limit as int),
{
    let mut s = api_url(config);
    s.append("/v1/search?q=");
    let enc = urlencode(query);
    s.append(enc.as_str());
    s.append("&limit=");
    push_decimal(&mut s, limit as u64);
    proof {
        assert(s@ =~= "http://localhost:"@ + decimal_chars(config.port as int) + "/v1/search?q="@
            + urlencode_of(query@) + "&limit="@ + decimal_chars(limit as int));
    }
    s
}

} // verus!
