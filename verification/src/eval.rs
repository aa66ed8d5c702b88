//! Judging retrieval with a language model: the prompts, and what is read
//! from the answers.

use vstd::prelude::*;
use crate::text::{
    chars_of, contains, find_chars, join, join_chars, lowercase, push_all, push_str, split_words,
    string_of, str_views, to_lower, trim, trim_chars, views, words_of,
};

verus! {

/// What a metric is given to judge.
#[derive(Debug)]
pub struct EvaluationInput {
    /// The question.
    pub query: String,
    /// What was retrieved for it.
    pub contexts: Vec<String>,
    /// The answer that was generated, if any.
    pub answer: Option<String>,
    /// The answer that is known to be right, if any.
    pub ground_truth: Option<String>,
}

/// What a judge gave back, as mathematics: its answer, or the message of
/// its failure.
pub open spec fn reply_view(r: Result<String, String>) -> Result<Seq<char>, Seq<char>> {
    match r {
        Ok(s) => Ok(s@),
        Err(e) => Err(e@),
    }
}

/// A language model used as a judge.
pub trait LLM {
    /// Whether the model may give `reply` to `prompt`. The contracts of
    /// the metrics say through this relation what the model was asked and
    /// what it gave back. A model of which nothing is said may reply
    /// anything.
    open spec fn may_reply(&self, prompt: Seq<char>, reply: Result<Seq<char>, Seq<char>>) -> bool {
        true
    }

    /// The answer of the model to a prompt, or the message of its failure.
    fn generate(&self, prompt: &str) -> (r: Result<String, String>)
        ensures
            self.may_reply(prompt@, reply_view(r)),
    ;
}

/// The judge may have answered `prompt`, and so that its answer says yes
/// or not as `yes` tells.
pub open spec fn judged<L: LLM>(judge: L, prompt: Seq<char>, yes: bool) -> bool {
    exists|answer: Seq<char>|
        #[trigger] judge.may_reply(prompt, Ok(answer)) && yes == says_yes(answer)
}

/// The prompt that asks whether a context is relevant to a query.
pub open spec fn relevance_prompt(query: Seq<char>, context: Seq<char>) -> Seq<char> {
    "Query: "@ + query + "\n\nContext: "@ + context + "\n\n"@
        + "Is this context relevant for answering the query? "@ + "Answer only 'Yes' or 'No'."@
}

/// An answer says yes: trimmed and in lower case, it holds `yes`.
pub open spec fn says_yes(response: Seq<char>) -> bool {
    contains(lowercase(trim(response)), "yes"@)
}

/// The prompt that asks how faithful an answer is to a context.
pub open spec fn faithfulness_prompt(context: Seq<char>, answer: Seq<char>) -> Seq<char> {
    "Context:\n"@ + context + "\n\nAnswer:\n"@ + answer + "\n\n"@
        + "Is the answer fully supported by the context? "@
        + "Rate the faithfulness from 0.0 (completely unfaithful/hallucinated) "@
        + "to 1.0 (fully faithful/grounded). "@ + "Respond with only a number between 0.0 and 1.0."@
}

/// The first word of an answer, if it has one: where the score is read
/// from.
pub open spec fn first_word(response: Seq<char>) -> Option<Seq<char>> {
    if words_of(response).len() > 0 {
        Some(words_of(response)[0])
    } else {
        None
    }
}

/// Builds the prompt that asks whether a context is relevant to a query.
pub fn build_relevance_prompt(query: &str, context: &str) -> (p: String)
    ensures
        p@ == relevance_prompt(query@, context@),
{
    let mut out: Vec<char> = Vec::new();
    push_str(&mut out, "Query: ");
    push_str(&mut out, query);
    push_str(&mut out, "\n\nContext: ");
    push_str(&mut out, context);
    push_str(&mut out, "\n\n");
    push_str(&mut out, "Is this context relevant for answering the query? ");
    push_str(&mut out, "Answer only 'Yes' or 'No'.");
    string_of(&out)
}

/// Whether an answer says yes.
pub fn judge_relevance(response: &str) -> (b: bool)
    ensures
        b == says_yes(response@),
{
    let trimmed = string_of(&trim_chars(&chars_of(response)));
    let normalized = to_lower(trimmed.as_str());
    find_chars(&chars_of(normalized.as_str()), &chars_of("yes")).is_some()
}

/// Builds the prompt that asks how faithful an answer is to the contexts,
/// which are joined by two line feeds.
pub fn build_faithfulness_prompt(contexts: &Vec<String>, answer: &str) -> (p: String)
    ensures
        p@ == faithfulness_prompt(join(str_views(contexts@), "\n\n"@), answer@),
{
    let parts = crate::text::strings_as_chars(contexts);
    let context = join_chars(&parts, &chars_of("\n\n"));
    let mut out: Vec<char> = Vec::new();
    push_str(&mut out, "Context:\n");
    push_all(&mut out, &context);
    push_str(&mut out, "\n\nAnswer:\n");
    push_str(&mut out, answer);
    push_str(&mut out, "\n\n");
    push_str(&mut out, "Is the answer fully supported by the context? ");
    push_str(&mut out, "Rate the faithfulness from 0.0 (completely unfaithful/hallucinated) ");
    push_str(&mut out, "to 1.0 (fully faithful/grounded). ");
    push_str(&mut out, "Respond with only a number between 0.0 and 1.0.");
    string_of(&out)
}

/// The first word of an answer: where the score is read from.
pub fn score_word(response: &str) -> (r: Option<String>)
    ensures
        r is Some <==> first_word(response@) is Some,
        r is Some ==> r->Some_0@ == first_word(response@)->Some_0,
{
    let words = split_words(&chars_of(response));
    if words.len() > 0 {
        assert(views(words@)[0] == words@[0]@);
        Some(string_of(&words[0]))
    } else {
        None
    }
}

/// The judge may have answered `prompt`.
pub open spec fn answered<L: LLM>(judge: L, prompt: Seq<char>) -> bool {
    exists|answer: Seq<char>| #[trigger] judge.may_reply(prompt, Ok(answer))
}

/// The judge may have answered for each of the first `i` contexts and
/// failed with `message` for the next.
pub open spec fn fails_at<L: LLM>(
    judge: L,
    query: Seq<char>,
    contexts: Seq<Seq<char>>,
    i: int,
    message: Seq<char>,
) -> bool {
    &&& 0 <= i < contexts.len()
    &&& judge.may_reply(relevance_prompt(query, contexts[i]), Err(message))
    &&& forall|k: int| 0 <= k < i ==> answered(judge, relevance_prompt(query, #[trigger] contexts[k]))
}

/// The judge may have failed with `message` for one of the contexts, after
/// it answered for those before it.
pub open spec fn failed_at<L: LLM>(
    judge: L,
    query: Seq<char>,
    contexts: Seq<Seq<char>>,
    message: Seq<char>,
) -> bool {
    exists|i: int| #[trigger] fails_at(judge, query, contexts, i, message)
}

/// Judges whether what was retrieved is relevant to the query.
pub struct ContextRelevance<L: LLM> {
    llm: L,
}

/// How many of the contexts were judged relevant, and the judgement of
/// each.
#[derive(Debug)]
pub struct RelevanceCount {
    pub relevant: usize,
    pub judgements: Vec<bool>,
}

/// Number of judgements that say yes.
pub open spec fn count_true(js: Seq<bool>) -> nat
    decreases js.len(),
{
    if js.len() == 0 {
        0
    } else {
        count_true(js.drop_last()) + if js.last() {
            1nat
        } else {
            0nat
        }
    }
}

/// No more judgements say yes than there are.
pub proof fn lemma_count_true(js: Seq<bool>)
    ensures
        count_true(js) <= js.len(),
    decreases js.len(),
{
    if js.len() > 0 {
        lemma_count_true(js.drop_last());
    }
}

impl<L: LLM> ContextRelevance<L> {
    /// The judge of the metric.
    pub closed spec fn judge(&self) -> L {
        self.llm
    }

    /// The metric with its judge.
    pub fn new(llm: L) -> (m: Self)
        ensures
            m.judge() == llm,
    {
        ContextRelevance { llm }
    }

    /// `context_relevance`.
    pub fn name(&self) -> (n: &'static str)
        ensures
            n@ == "context_relevance"@,
    {
        "context_relevance"
    }

    /// Asks the judge whether a context is relevant to a query. The judge
    /// is given the prompt of [`relevance_prompt`]; whatever it answers is
    /// read as by [`judge_relevance`], and its failure is handed on.
    pub fn is_relevant(&self, query: &str, context: &str) -> (r: Result<bool, String>)
        ensures
            match r {
                Ok(yes) => judged(self.judge(), relevance_prompt(query@, context@), yes),
                Err(e) => self.judge().may_reply(
                    relevance_prompt(query@, context@),
                    Err::<Seq<char>, Seq<char>>(e@),
                ),
            },
    {
        let prompt = build_relevance_prompt(query, context);
        match self.llm.generate(prompt.as_str()) {
            Ok(response) => {
                assert(self.judge().may_reply(
                    relevance_prompt(query@, context@),
                    Ok::<Seq<char>, Seq<char>>(response@),
                ));
                Ok(judge_relevance(response.as_str()))
            },
            Err(e) => Err(e),
        }
    }

    /// Asks the judge about each context in turn, as
    /// [`ContextRelevance::is_relevant`] does. Without contexts nothing is
    /// asked and the count is zero. The first failure of the judge ends the
    /// count and is handed on; otherwise there is one judgement per
    /// context, and the count is the number of those that say yes.
    pub fn count_relevant(&self, input: &EvaluationInput) -> (r: Result<RelevanceCount, String>)
        ensures
            input.contexts@.len() == 0 ==> r is Ok,
            match r {
                Ok(c) => c.judgements@.len() == input.contexts@.len() && c.relevant == count_true(
                    c.judgements@,
                ) && forall|i: int|
                    0 <= i < input.contexts@.len() ==> judged(
                        self.judge(),
                        relevance_prompt(input.query@, input.contexts@[i]@),
                        #[trigger] c.judgements@[i],
                    ),
                Err(e) => failed_at(self.judge(), input.query@, str_views(input.contexts@), e@),
            },
    {
        let mut judgements: Vec<bool> = Vec::new();
        let mut relevant: usize = 0;
        let mut i: usize = 0;
        while i < input.contexts.len()
            invariant
                i <= input.contexts.len(),
                judgements@.len() == i,
                relevant == count_true(judgements@),
                forall|k: int|
                    0 <= k < i ==> judged(
                        self.judge(),
                        relevance_prompt(input.query@, input.contexts@[k]@),
                        #[trigger] judgements@[k],
                    ),
            decreases input.contexts.len() - i,
        {
            let ghost before = judgements@;
            proof {
                lemma_count_true(before);
            }
            match self.is_relevant(input.query.as_str(), input.contexts[i].as_str()) {
                Ok(yes) => {
                    judgements.push(yes);
                    assert(judgements@.drop_last() =~= before);
                    if yes {
                        relevant += 1;
                    }
                },
                Err(e) => {
                    proof {
                        let contexts = str_views(input.contexts@);
                        assert(contexts[i as int] == input.contexts@[i as int]@);
                        assert forall|k: int| 0 <= k < i implies answered(
                            self.judge(),
                            relevance_prompt(input.query@, #[trigger] contexts[k]),
                        ) by {
                            assert(contexts[k] == input.contexts@[k]@);
                            assert(judged(
                                self.judge(),
                                relevance_prompt(input.query@, input.contexts@[k]@),
                                judgements@[k],
                            ));
                        }
                        assert(fails_at(self.judge(), input.query@, contexts, i as int, e@));
                    }
                    return Err(e);
                },
            }
            i += 1;
        }
        Ok(RelevanceCount { relevant, judgements })
    }
}

/// Judges whether an answer is grounded in what was retrieved.
pub struct AnswerFaithfulness<L: LLM> {
    llm: L,
}

/// What the faithfulness metric finds before it asks the judge.
#[derive(Debug)]
pub enum FaithfulnessPlan {
    /// There are no contexts: the score is zero and the judge is not
    /// asked.
    NoContexts,
    /// The judge is to be asked with this prompt.
    Ask(String),
}

impl<L: LLM> AnswerFaithfulness<L> {
    /// The judge of the metric.
    pub closed spec fn judge(&self) -> L {
        self.llm
    }

    /// The metric with its judge.
    pub fn new(llm: L) -> (m: Self)
        ensures
            m.judge() == llm,
    {
        AnswerFaithfulness { llm }
    }

    /// `answer_faithfulness`.
    pub fn name(&self) -> (n: &'static str)
        ensures
            n@ == "answer_faithfulness"@,
    {
        "answer_faithfulness"
    }

    /// What is to be done for an input: an input without an answer is
    /// refused; without contexts the score is zero; otherwise the judge is
    /// asked.
    pub fn plan(input: &EvaluationInput) -> (r: Result<FaithfulnessPlan, String>)
        ensures
            match input.answer {
                None => r is Err && r->Err_0@ == "Answer required for faithfulness metric"@,
                Some(a) => r is Ok && if input.contexts@.len() == 0 {
                    r->Ok_0 is NoContexts
                } else {
                    r->Ok_0 is Ask && r->Ok_0->Ask_0@ == faithfulness_prompt(
                        join(str_views(input.contexts@), "\n\n"@),
                        a@,
                    )
                },
            },
    {
        match &input.answer {
            None => Err("Answer required for faithfulness metric".to_owned()),
            Some(a) => {
                if input.contexts.len() == 0 {
                    Ok(FaithfulnessPlan::NoContexts)
                } else {
                    Ok(FaithfulnessPlan::Ask(build_faithfulness_prompt(&input.contexts, a.as_str())))
                }
            },
        }
    }

    /// Asks the judge and hands back its answer with the word that the
    /// score is read from. An input without an answer is refused, and
    /// without contexts nothing is asked. Otherwise the judge is given the
    /// prompt of [`faithfulness_prompt`], and its failure is handed on.
    pub fn ask(&self, input: &EvaluationInput) -> (r: Result<Option<(String, Option<String>)>, String>)
        ensures
            match input.answer {
                None => r is Err && r->Err_0@ == "Answer required for faithfulness metric"@,
                Some(a) => if input.contexts@.len() == 0 {
                    r is Ok && r->Ok_0 is None
                } else {
                    let prompt = faithfulness_prompt(join(str_views(input.contexts@), "\n\n"@), a@);
                    match r {
                        Ok(Some(x)) => self.judge().may_reply(prompt, Ok::<Seq<char>, Seq<char>>(x.0@))
                            && opt_word(x.1) == first_word(x.0@),
                        Ok(None) => false,
                        Err(e) => self.judge().may_reply(prompt, Err::<Seq<char>, Seq<char>>(e@)),
                    }
                },
            },
    {
        match Self::plan(input) {
            Err(e) => Err(e),
            Ok(FaithfulnessPlan::NoContexts) => Ok(None),
            Ok(FaithfulnessPlan::Ask(prompt)) => match self.llm.generate(prompt.as_str()) {
                Ok(response) => {
                    let word = score_word(response.as_str());
                    Ok(Some((response, word)))
                },
                Err(e) => Err(e),
            },
        }
    }
}

/// The text of an optional word.
pub open spec fn opt_word(o: Option<String>) -> Option<Seq<char>> {
    match o {
        Some(s) => Some(s@),
        None => None,
    }
}

} // verus!
