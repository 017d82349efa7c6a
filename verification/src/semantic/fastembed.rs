//! The prompts under which texts are embedded: the model tells queries and passages apart by them.

use crate::error::AppError;
use vstd::prelude::*;
use vstd::string::*;

verus! {

/// The prompt for a query.
pub open spec fn query_prompt(query: Seq<char>) -> Seq<char> {
    "query: "@ + query
}

/// The prompt for a passage.
pub open spec fn passage_prompt(passage: Seq<char>) -> Seq<char> {
    "passage: "@ + passage
}

/// The prompt for a query.
pub fn prefixed_query(query: &str) -> (prompt: String)
    ensures
        prompt@ == query_prompt(query@),
{
    "query: ".to_owned().concat(query)
}

/// The prompts for a list of passages, in order.
pub fn prefixed_passages(passages: &[String]) -> (prompts: Vec<String>)
    ensures
        prompts@.len() == passages@.len(),
        forall|i: int|
            0 <= i < passages@.len() ==> (#[trigger] prompts@[i])@ == passage_prompt(passages@[i]@),
{
    let mut prompts: Vec<String> = Vec::new();
    let mut i: usize = 0;
    while i < passages.len()
        invariant
            i <= passages@.len(),
            prompts@.len() == i,
            forall|j: int|
                0 <= j < i ==> (#[trigger] prompts@[j])@ == passage_prompt(passages@[j]@),
        decreases passages@.len() - i,
    {
        prompts.push("passage: ".to_owned().concat(passages[i].as_str()));
        i = i + 1;
    }
    prompts
}

/// No query has the prompt of a passage, and no two texts share a prompt.
pub proof fn law_prompts_tell_texts_apart(a: Seq<char>, b: Seq<char>)
    ensures
        query_prompt(a) != passage_prompt(b),
        query_prompt(a) == query_prompt(b) ==> a == b,
        passage_prompt(a) == passage_prompt(b) ==> a == b,
{
    reveal_strlit("query: ");
    reveal_strlit("passage: ");
    assert(query_prompt(a)[0] == 'q');
    assert(passage_prompt(b)[0] == 'p');
    assert(query_prompt(a).skip(7) =~= a);
    assert(query_prompt(b).skip(7) =~= b);
    assert(passage_prompt(a).skip(9) =~= a);
    assert(passage_prompt(b).skip(9) =~= b);
}

/// A prompt is its text behind the word for what it is, a colon and a space.
pub proof fn law_prompts_name_what_they_hold(text: Seq<char>)
    ensures
        query_prompt(text) == seq!['q', 'u', 'e', 'r', 'y', ':', ' '] + text,
        passage_prompt(text) == seq!['p', 'a', 's', 's', 'a', 'g', 'e', ':', ' '] + text,
{
    reveal_strlit("query: ");
    reveal_strlit("passage: ");
    assert("query: "@ =~= seq!['q', 'u', 'e', 'r', 'y', ':', ' ']);
    assert("passage: "@ =~= seq!['p', 'a', 's', 's', 'a', 'g', 'e', ':', ' ']);
}

/// The error of a model that could not be set up.
pub fn init_error(reason: &str) -> (error: AppError)
    ensures
        error matches AppError::ConfigError(text) && text@ == "fastembed init failed: "@ + reason@,
{
    AppError::ConfigError("fastembed init failed: ".to_owned().concat(reason))
}

/// The error of a model that could not embed texts.
pub fn embed_error(reason: &str) -> (error: AppError)
    ensures
        error matches AppError::ConfigError(text) && text@ == "fastembed embed failed: "@ + reason@,
{
    AppError::ConfigError("fastembed embed failed: ".to_owned().concat(reason))
}

} // verus!
