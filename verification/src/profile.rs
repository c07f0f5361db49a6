//! Profile synthesis: composes the stored texts into a numbered list
//! inside a fixed instructional prompt, or answers with a placeholder when
//! nothing is stored — in that case the generation service is never
//! consulted.

use vstd::prelude::*;
use crate::models::{OllamaGenerateResponse, ProfileResponse};
use crate::textfmt::{decimal_chars, push_decimal, trim_of, trim_str};

verus! {

/// The reply when no memories are stored.
pub open spec fn placeholder_view() -> Seq<char> {
    "No memories stored yet. Add some memories to generate a profile."@
}

/// The instruction that precedes the numbered list of memories.
pub open spec fn prompt_prefix() -> Seq<char> {
    "Based on the following collection of memories/notes from a person, create a concise user profile summary. Include their interests, expertise, personality traits, and any patterns you notice. Be insightful but respectful of privacy. Write in third person.\n\nMemories:\n"@
}

/// The cue that follows the numbered list.
pub open spec fn prompt_suffix() -> Seq<char> {
    "\n\nProfile summary:"@
}

/// The first `n` texts as a numbered list, one line per text, numbered
/// from one.
pub open spec fn numbered_list(texts: Seq<Seq<char>>, n: int) -> Seq<char>
    decreases n,
{
    if n <= 0 {
        Seq::empty()
    } else if n == 1 {
        decimal_chars(1) + ". "@ + texts[0]
    } else {
        numbered_list(texts, n - 1) + "\n"@ + decimal_chars(n) + ". "@ + texts[n - 1]
    }
}

/// The full generation prompt for the given texts.
pub open spec fn prompt_view(texts: Seq<Seq<char>>) -> Seq<char> {
    prompt_prefix() + numbered_list(texts, texts.len() as int) + prompt_suffix()
}

/// What a profile request resolves to before any generation call: either a
/// finished reply (the placeholder, for an empty store), or the prompt to
/// hand to the generation service.
#[derive(Debug, Clone, PartialEq)]
pub enum ProfilePlan {
    Ready { profile: String, count: usize },
    Generate { prompt: String, count: usize },
}

/// Plans a profile request from the stored texts. With no texts the reply
/// is ready immediately — the fixed placeholder and a count of zero —
/// and no prompt is produced; otherwise the prompt embeds all texts as a
/// numbered list and the count reports how many.
pub fn plan_profile(texts: &Vec<String>) -> (p: ProfilePlan)
    ensures
        match p {
            ProfilePlan::Ready { profile, count } => texts@.len() == 0 && profile@
                == placeholder_view() && count == 0,
            ProfilePlan::Generate { prompt, count } => texts@.len() > 0 && prompt@ == prompt_view(
                texts.deep_view(),
            ) && count == texts@.len(),
        },
{
    let n = texts.len();
    if n == 0 {
        return ProfilePlan::Ready {
            profile: String::from_str(
                "No memories stored yet. Add some memories to generate a profile.",
            ),
            count: 0,
        };
    }
    let ghost tv = texts.deep_view();
    let mut body = String::new();
    let mut i: usize = 0;
    proof {
        assert(body@ =~= numbered_list(tv, 0));
    }
    while i < n
        invariant
            0 <= i <= n,
            n == texts@.len(),
            tv == texts.deep_view(),
            body@ == numbered_list(tv, i as int),
        decreases n - i,
    {
        if i > 0 {
            body.append("\n");
        }
        push_decimal(&mut body, (i + 1) as u64);
        body.append(". ");
        body.append(texts[i].as_str());
        proof {
            assert(tv[i as int] == texts@[i as int]@);
            assert(body@ =~= numbered_list(tv, i as int + 1));
        }
        i = i + 1;
    }
    let mut prompt = String::from_str(
        "Based on the following collection of memories/notes from a person, create a concise user profile summary. Include their interests, expertise, personality traits, and any patterns you notice. Be insightful but respectful of privacy. Write in third person.\n\nMemories:\n",
    );
    prompt.append(body.as_str());
    prompt.append("\n\nProfile summary:");
    proof {
        assert(prompt@ =~= prompt_view(tv));
    }
    ProfilePlan::Generate { prompt, count: n }
}

/// Turns the generation service's reply into the profile response: the
/// reply text trimmed of surrounding whitespace, and the number of texts
/// the prompt rested on.
pub fn finish_profile(resp: &OllamaGenerateResponse, count: usize) -> (r: ProfileResponse)
    ensures
        r.profile@ == trim_of(resp.response@),
        r.memory_count == count,
{
    ProfileResponse { profile: trim_str(resp.response.as_str()), memory_count: count }
}

} // verus!
