//! What the processor asks of the language model, and how it reads the answers.
pub mod micro_prompt;
pub mod openai;

use vstd::prelude::*;
use crate::processor::control_unit::language_logic_unit::openai::{
    OpenAIChatCompletionRequestText, OpenAIChatCompletionResponse,
};
use crate::text::{chars_of, replace, spec_replace, spec_trim, string_from_chars, trim};

verus! {

pub const SYSTEM_ROLE: &'static str = "system";

pub const USER_ROLE: &'static str = "user";

pub const SYSTEM_PROMPT: &'static str = "Provide exactly the requested output. Follow structural markers strictly.";

/// A message of the conversation that precedes a request.
#[derive(Debug)]
pub struct ContextMessage {
    pub role: String,
    pub content: String,
}

impl ContextMessage {
    pub fn new(role: &str, content: &str) -> (r: ContextMessage)
        ensures
            r.role@ == role@,
            r.content@ == content@,
    {
        ContextMessage { role: String::from_str(role), content: String::from_str(content) }
    }
}

/// A reply without surrounding whitespace and without line breaks.
pub open spec fn spec_clean(value: Seq<char>) -> Seq<char> {
    spec_replace(spec_trim(value), seq!['\n'], Seq::empty())
}

/// The largest score, or 0 for none.
pub open spec fn max_score(scores: Seq<u32>) -> u32
    decreases scores.len(),
{
    if scores.len() == 0 {
        0
    } else {
        let m = max_score(scores.drop_last());
        if scores.last() > m {
            scores.last()
        } else {
            m
        }
    }
}

/// The largest score is at least every score and is one of them; with no score it is 0.
pub proof fn lemma_max_score(scores: Seq<u32>)
    ensures
        forall|i: int| 0 <= i < scores.len() ==> scores[i] <= max_score(scores),
        scores.len() == 0 ==> max_score(scores) == 0,
        scores.len() > 0 ==> exists|i: int| 0 <= i < scores.len() && max_score(scores) == scores[i],
    decreases scores.len(),
{
    if scores.len() > 0 {
        let rest = scores.drop_last();
        lemma_max_score(rest);
        assert forall|i: int| 0 <= i < scores.len() implies scores[i] <= max_score(scores) by {
            if i < scores.len() - 1 {
                assert(scores[i] == rest[i]);
            }
        }
        if scores.last() > max_score(rest) {
            assert(max_score(scores) == scores[scores.len() - 1]);
        } else if rest.len() == 0 {
            assert(max_score(scores) == scores[0]);
        } else {
            let k = choose|k: int| 0 <= k < rest.len() && max_score(rest) == rest[k];
            assert(max_score(scores) == scores[k]);
        }
    }
}

/// The yes/no verdict is yes (100) exactly when some "yes" score is above 0 and above
/// every "no" score, and no (0) otherwise.
pub proof fn lemma_verdict(true_scores: Seq<u32>, false_scores: Seq<u32>)
    ensures
        (max_score(true_scores) > max_score(false_scores)) <==> exists|i: int|
            0 <= i < true_scores.len() && true_scores[i] > 0
                && forall|j: int| 0 <= j < false_scores.len() ==> true_scores[i] > #[trigger] false_scores[j],
{
    lemma_max_score(true_scores);
    lemma_max_score(false_scores);
    if max_score(true_scores) > max_score(false_scores) {
        let i = choose|i: int| 0 <= i < true_scores.len() && max_score(true_scores) == true_scores[i];
        assert(0 <= i < true_scores.len() && true_scores[i] > 0
            && forall|j: int| 0 <= j < false_scores.len() ==> true_scores[i] > #[trigger] false_scores[j]);
    } else {
        assert forall|i: int| 0 <= i < true_scores.len() && true_scores[i] > 0 implies
            !(forall|j: int| 0 <= j < false_scores.len() ==> true_scores[i] > #[trigger] false_scores[j]) by {
            if false_scores.len() > 0 {
                let k = choose|k: int| 0 <= k < false_scores.len() && max_score(false_scores) == false_scores[k];
                assert(!(true_scores[i] > false_scores[k]));
            }
        }
    }
}

/// The role and content of each message of a request.
pub open spec fn request_view(messages: Seq<OpenAIChatCompletionRequestText>) -> Seq<(Seq<char>, Seq<char>)> {
    messages.map_values(|m: OpenAIChatCompletionRequestText| (m.role@, m.content@))
}

pub open spec fn context_view(messages: Seq<ContextMessage>) -> Seq<(Seq<char>, Seq<char>)> {
    messages.map_values(|m: ContextMessage| (m.role@, m.content@))
}

pub struct LanguageLogicUnit;

impl LanguageLogicUnit {
    pub fn clean_string(value: &str) -> (r: String)
        ensures
            r@ == spec_clean(value@),
    {
        let chars = chars_of(value);
        let trimmed = trim(chars.as_slice());
        let newline = ['\n'];
        let nothing: [char; 0] = [];
        assert(newline@ =~= seq!['\n']);
        assert(nothing@ =~= Seq::<char>::empty());
        let cleaned = replace(trimmed.as_slice(), &newline, &nothing);
        string_from_chars(cleaned.as_slice())
    }

    /// The messages of a chat request: the system prompt, then the context, then `content`
    /// from the user.
    pub fn chat_messages(content: &str, context: &Vec<ContextMessage>) -> (r: Vec<OpenAIChatCompletionRequestText>)
        ensures
            request_view(r@) == seq![(SYSTEM_ROLE@, SYSTEM_PROMPT@)] + context_view(context@) + seq![(USER_ROLE@, content@)],
    {
        let mut messages: Vec<OpenAIChatCompletionRequestText> = Vec::new();
        messages.push(OpenAIChatCompletionRequestText { role: String::from_str(SYSTEM_ROLE), content: String::from_str(SYSTEM_PROMPT) });
        let mut i: usize = 0;
        while i < context.len()
            invariant
                i <= context@.len(),
                request_view(messages@) == seq![(SYSTEM_ROLE@, SYSTEM_PROMPT@)] + context_view(context@).take(i as int),
            decreases context@.len() - i,
        {
            let message = &context[i];
            let ghost before = messages@;
            let role = message.role.clone();
            let content = message.content.clone();
            messages.push(OpenAIChatCompletionRequestText { role, content });
            assert(request_view(messages@) =~= request_view(before).push((role@, content@)));
            assert(context_view(context@).take(i + 1) =~= context_view(context@).take(i as int).push(context_view(context@)[i as int]));
            i = i + 1;
            assert(request_view(messages@) =~= seq![(SYSTEM_ROLE@, SYSTEM_PROMPT@)] + context_view(context@).take(i as int));
        }
        messages.push(OpenAIChatCompletionRequestText { role: String::from_str(USER_ROLE), content: String::from_str(content) });
        assert(context_view(context@).take(i as int) =~= context_view(context@));
        assert(request_view(messages@) =~= seq![(SYSTEM_ROLE@, SYSTEM_PROMPT@)] + context_view(context@) + seq![(USER_ROLE@, content@)]);
        messages
    }

    /// The cleaned content of the first choice of a reply; an error for a reply without one.
    pub fn string(response: &OpenAIChatCompletionResponse) -> (r: Result<String, &'static str>)
        ensures
            response.choices@.len() > 0 ==> (r matches Ok(s) && s@ == spec_clean(response.choices@[0].message.content@)),
            response.choices@.len() == 0 ==> r == Err::<String, &'static str>("No choices returned from client."),
    {
        if response.choices.len() == 0 {
            return Err("No choices returned from client.");
        }
        Ok(Self::clean_string(response.choices[0].message.content.as_str()))
    }

    /// The verdict of a yes/no question from the similarity of the reply to each "yes"
    /// answer and to each "no" answer: 100 when the best "yes" beats the best "no", else 0.
    pub fn boolean(true_scores: &Vec<u32>, false_scores: &Vec<u32>) -> (r: u32)
        ensures
            r == (if max_score(true_scores@) > max_score(false_scores@) {
                100u32
            } else {
                0u32
            }),
            r == 100 <==> exists|i: int|
                0 <= i < true_scores@.len() && true_scores@[i] > 0
                    && forall|j: int| 0 <= j < false_scores@.len() ==> true_scores@[i] > #[trigger] false_scores@[j],
    {
        proof {
            lemma_verdict(true_scores@, false_scores@);
        }
        let max_true_score = Self::max(true_scores);
        let max_false_score = Self::max(false_scores);
        if max_true_score > max_false_score {
            return 100;
        }
        0
    }

    fn max(scores: &Vec<u32>) -> (r: u32)
        ensures
            r == max_score(scores@),
    {
        let mut best: u32 = 0;
        let mut i: usize = 0;
        while i < scores.len()
            invariant
                i <= scores@.len(),
                best == max_score(scores@.take(i as int)),
            decreases scores@.len() - i,
        {
            assert(scores@.take(i + 1).drop_last() =~= scores@.take(i as int));
            if scores[i] > best {
                best = scores[i];
            }
            i = i + 1;
        }
        assert(scores@.take(i as int) =~= scores@);
        best
    }
}

} // verus!
