//! Estimates of the number of tokens of a text, and a record of what was used.

use vstd::prelude::*;
use crate::text::{byte_count, chars_of, concat, decimal, number, text_bytes};

verus! {

/// Estimates how many tokens a text has.
pub trait Tokenizer {
    /// The estimate for a text.
    spec fn tokens(&self, text: Seq<char>) -> nat;

    /// The estimate for a text.
    fn count_tokens(&self, text: &str) -> (r: usize)
        requires
            text_bytes(text@) <= usize::MAX,
        ensures
            r == self.tokens(text@),
    ;
}

/// The weight of a text: one for each ASCII character, two for any other.
pub open spec fn weight(s: Seq<char>) -> nat
    decreases s.len(),
{
    if s.len() == 0 {
        0
    } else {
        weight(s.drop_last()) + if (s.last() as u32) < 128 {
            1nat
        } else {
            2nat
        }
    }
}

/// A quarter of the weight of the text, but at least one token where there is text.
pub struct HeuristicTokenizer;

impl Tokenizer for HeuristicTokenizer {
    open spec fn tokens(&self, text: Seq<char>) -> nat {
        if text.len() == 0 {
            0
        } else if weight(text) / 4 == 0 {
            1
        } else {
            weight(text) / 4
        }
    }

    fn count_tokens(&self, text: &str) -> (r: usize) {
        let v = chars_of(text);
        if v.len() == 0 {
            return 0;
        }
        let mut w: u128 = 0;
        let mut i: usize = 0;
        assert(text@.take(0) =~= Seq::<char>::empty());
        while i < v.len()
            invariant
                v@ == text@,
                i <= v.len(),
                w == weight(text@.take(i as int)),
                i <= w <= 2 * i,
            decreases v.len() - i,
        {
            assert(text@.take(i + 1).drop_last() =~= text@.take(i as int));
            let c = v[i] as u32;
            assert(text@.take(i + 1).last() == v@[i as int]);
            w = w + if c < 128 {
                1
            } else {
                2
            };
            i = i + 1;
        }
        assert(text@.take(text@.len() as int) =~= text@);
        let q: u128 = w / 4;
        if q == 0 {
            1
        } else {
            q as usize
        }
    }
}

/// A quarter of the bytes of the text and one more, where there is text.
pub struct SimpleTokenizer;

impl Tokenizer for SimpleTokenizer {
    open spec fn tokens(&self, text: Seq<char>) -> nat {
        if text.len() == 0 {
            0
        } else {
            text_bytes(text) / 4 + 1
        }
    }

    fn count_tokens(&self, text: &str) -> (r: usize) {
        if text.is_empty() {
            0
        } else {
            let n: u128 = byte_count(text);
            (n / 4 + 1) as usize
        }
    }
}

// ── Use ─────────────────────────────────────────────────────────────────────────────────────

/// The use that a provider reports.
pub struct Usage {
    pub prompt_tokens: Option<u32>,
    pub completion_tokens: Option<u32>,
    pub total_tokens: Option<u32>,
}

/// The tokens used with a model. The counters wrap round at their end.
pub struct TokenUsageTracker {
    model_name: String,
    total_prompt_tokens: u64,
    total_completion_tokens: u64,
    total_tokens: u64,
    request_count: u64,
}

/// The tokens used with a model at one moment.
pub struct UsageSummary {
    pub model_name: String,
    pub total_prompt_tokens: u64,
    pub total_completion_tokens: u64,
    pub total_tokens: u64,
    pub request_count: u64,
}

/// A counter after so many more.
pub open spec fn counted(counter: u64, more: int) -> u64 {
    if counter + more > u64::MAX {
        (counter + more - 0x1_0000_0000_0000_0000) as u64
    } else {
        (counter + more) as u64
    }
}

fn count_more(counter: u64, more: u32) -> (r: u64)
    ensures
        r == counted(counter, more as int),
{
    counter.wrapping_add(more as u64)
}

impl TokenUsageTracker {
    /// What has been used so far.
    pub closed spec fn so_far(&self) -> UsageSummary {
        UsageSummary {
            model_name: self.model_name,
            total_prompt_tokens: self.total_prompt_tokens,
            total_completion_tokens: self.total_completion_tokens,
            total_tokens: self.total_tokens,
            request_count: self.request_count,
        }
    }

    /// A record of nothing.
    pub fn new(model_name: &str) -> (r: TokenUsageTracker)
        ensures
            r.so_far().model_name@ == model_name@,
            r.so_far().total_prompt_tokens == 0,
            r.so_far().total_completion_tokens == 0,
            r.so_far().total_tokens == 0,
            r.so_far().request_count == 0,
    {
        TokenUsageTracker {
            model_name: model_name.to_owned(),
            total_prompt_tokens: 0,
            total_completion_tokens: 0,
            total_tokens: 0,
            request_count: 0,
        }
    }

    /// Records one request; where its total is not given, it is the sum of both parts.
    pub fn record(&mut self, prompt: u32, completion: u32, total: Option<u32>)
        requires
            prompt + completion <= u32::MAX,
        ensures
            final(self).so_far() == (UsageSummary {
                model_name: old(self).so_far().model_name,
                total_prompt_tokens: counted(
                    old(self).so_far().total_prompt_tokens,
                    prompt as int,
                ),
                total_completion_tokens: counted(
                    old(self).so_far().total_completion_tokens,
                    completion as int,
                ),
                total_tokens: counted(
                    old(self).so_far().total_tokens,
                    match total {
                        Some(t) => t as int,
                        None => prompt + completion,
                    },
                ),
                request_count: counted(old(self).so_far().request_count, 1),
            }),
    {
        let t: u32 = match total {
            Some(t) => t,
            None => prompt + completion,
        };
        self.total_prompt_tokens = count_more(self.total_prompt_tokens, prompt);
        self.total_completion_tokens = count_more(self.total_completion_tokens, completion);
        self.total_tokens = count_more(self.total_tokens, t);
        self.request_count = count_more(self.request_count, 1);
    }

    /// A count that may be missing.
    pub open spec fn or_zero(n: Option<u32>) -> u32 {
        match n {
            Some(k) => k,
            None => 0,
        }
    }

    /// Records the use that a provider reports; missing parts count as zero.
    pub fn record_usage(&mut self, usage: &Usage)
        requires
            TokenUsageTracker::or_zero(usage.prompt_tokens) + TokenUsageTracker::or_zero(
                usage.completion_tokens,
            ) <= u32::MAX,
        ensures
            final(self).so_far() == (UsageSummary {
                model_name: old(self).so_far().model_name,
                total_prompt_tokens: counted(
                    old(self).so_far().total_prompt_tokens,
                    TokenUsageTracker::or_zero(usage.prompt_tokens) as int,
                ),
                total_completion_tokens: counted(
                    old(self).so_far().total_completion_tokens,
                    TokenUsageTracker::or_zero(usage.completion_tokens) as int,
                ),
                total_tokens: counted(
                    old(self).so_far().total_tokens,
                    match usage.total_tokens {
                        Some(t) => t as int,
                        None => TokenUsageTracker::or_zero(usage.prompt_tokens)
                            + TokenUsageTracker::or_zero(usage.completion_tokens),
                    },
                ),
                request_count: counted(old(self).so_far().request_count, 1),
            }),
    {
        let prompt: u32 = match usage.prompt_tokens {
            Some(n) => n,
            None => 0,
        };
        let completion: u32 = match usage.completion_tokens {
            Some(n) => n,
            None => 0,
        };
        self.record(prompt, completion, usage.total_tokens);
    }

    /// What has been used so far.
    pub fn summary(&self) -> (r: UsageSummary)
        ensures
            r == self.so_far(),
    {
        UsageSummary {
            model_name: self.model_name.clone(),
            total_prompt_tokens: self.total_prompt_tokens,
            total_completion_tokens: self.total_completion_tokens,
            total_tokens: self.total_tokens,
            request_count: self.request_count,
        }
    }

    /// Starts again from nothing.
    pub fn reset(&mut self)
        ensures
            final(self).so_far() == (UsageSummary {
                model_name: old(self).so_far().model_name,
                total_prompt_tokens: 0,
                total_completion_tokens: 0,
                total_tokens: 0,
                request_count: 0,
            }),
    {
        self.total_prompt_tokens = 0;
        self.total_completion_tokens = 0;
        self.total_tokens = 0;
        self.request_count = 0;
    }
}

impl UsageSummary {
    /// The summary in words.
    pub fn text(&self) -> (r: String)
        ensures
            r@ == "Token Usage ["@ + self.model_name@ + "]:\n  Requests:   "@ + decimal(
                self.request_count as nat,
            ) + "\n  Input tokens:  "@ + decimal(self.total_prompt_tokens as nat)
                + "\n  Output tokens: "@ + decimal(self.total_completion_tokens as nat)
                + "\n  Total tokens:  "@ + decimal(self.total_tokens as nat),
    {
        let mut r = concat("Token Usage [", self.model_name.as_str());
        r.push_str("]:\n  Requests:   ");
        r.push_str(number(self.request_count).as_str());
        r.push_str("\n  Input tokens:  ");
        r.push_str(number(self.total_prompt_tokens).as_str());
        r.push_str("\n  Output tokens: ");
        r.push_str(number(self.total_completion_tokens).as_str());
        r.push_str("\n  Total tokens:  ");
        r.push_str(number(self.total_tokens).as_str());
        r
    }
}

// ── Laws ────────────────────────────────────────────────────────────────────────────────────

proof fn lemma_weight(s: Seq<char>)
    ensures
        s.len() <= weight(s) <= 2 * s.len(),
    decreases s.len(),
{
    if s.len() > 0 {
        lemma_weight(s.drop_last());
    }
}

/// Both estimates are zero for the empty text and for no other.
pub proof fn law_only_the_empty_text_has_no_tokens(s: Seq<char>)
    ensures
        HeuristicTokenizer.tokens(s) == 0 <==> s.len() == 0,
        SimpleTokenizer.tokens(s) == 0 <==> s.len() == 0,
{
    lemma_weight(s);
}

/// A longer text never has a smaller estimate.
pub proof fn law_estimates_grow(s: Seq<char>, c: char)
    ensures
        HeuristicTokenizer.tokens(s) <= HeuristicTokenizer.tokens(s.push(c)),
        SimpleTokenizer.tokens(s) <= SimpleTokenizer.tokens(s.push(c)),
{
    assert(s.push(c).drop_last() =~= s);
    lemma_weight(s);
}

/// The weights of texts that follow each other add up; an ASCII character weighs one, any other two.
pub proof fn law_weights_add_up(a: Seq<char>, b: Seq<char>, c: char)
    ensures
        weight(a + b) == weight(a) + weight(b),
        weight(seq![c]) == if (c as u32) < 128 {
            1nat
        } else {
            2nat
        },
    decreases b.len(),
{
    if b.len() == 0 {
        assert(a + b =~= a);
    } else {
        assert((a + b).drop_last() =~= a + b.drop_last());
        law_weights_add_up(a, b.drop_last(), c);
    }
    let one = seq![c];
    assert(one.drop_last() =~= Seq::<char>::empty());
    assert(weight(one.drop_last()) == 0);
}

/// An estimate by weight is a quarter of the weight, rounded down, and at least one; an estimate by
/// bytes is a quarter of the bytes, rounded down, and one more.
pub proof fn law_estimates_are_quarters(s: Seq<char>)
    requires
        s.len() > 0,
    ensures
        weight(s) >= 4 ==> 4 * HeuristicTokenizer.tokens(s) <= weight(s) < 4
            * HeuristicTokenizer.tokens(s) + 4,
        weight(s) < 4 ==> HeuristicTokenizer.tokens(s) == 1,
        4 * (SimpleTokenizer.tokens(s) - 1) <= text_bytes(s) < 4 * SimpleTokenizer.tokens(s),
{
}

} // verus!
