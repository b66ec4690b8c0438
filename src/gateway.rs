//! Decisions around a call of the remote model: how failures are classified,
//! when a throttled call is tried again and after how long, and what a reply
//! yields. The call itself, and the waiting, are done by the caller.
use vstd::prelude::*;

verus! {

/// How many times a throttled call is tried again before giving up.
pub const MAX_RETRIES: u32 = 3;

/// What one call of the model returned, as plain values.
pub struct ModelResponse {
    /// The texts of the reply's content blocks, in order.
    pub texts: Vec<String>,
    pub input_tokens: u32,
    pub output_tokens: u32,
}

/// The outcome of one attempt.
pub enum InvokeOutcome {
    Response(ModelResponse),
    /// The model refused the call for rate limiting.
    Throttled,
    /// Any other failure, with its description.
    Failed(String),
}

/// A successful reply: its first text block and the token counts.
pub struct ModelReply {
    pub text: String,
    pub input_tokens: u32,
    pub output_tokens: u32,
}

/// Why a call of the model failed for good.
pub enum ModelError {
    /// Still throttled after `retries` further attempts.
    RateLimited { retries: u32 },
    /// A failure other than throttling; never retried.
    InvocationFailed { message: String },
    /// The reply held no content block.
    EmptyReply,
}

/// What to do after an attempt.
pub enum RetryStep {
    /// Wait this many milliseconds, then call again.
    Wait { millis: u64 },
    /// Stop with this result.
    Finish(Result<ModelReply, ModelError>),
}

/// The retry state of one call: how many retries were already made.
pub struct RetryPolicy {
    pub retries: u32,
}

/// The wait before retry `k` (the first retry is 1): 2^k seconds.
pub open spec fn backoff_millis(k: nat) -> nat
    decreases k,
{
    if k == 0 {
        1000
    } else {
        2 * backoff_millis((k - 1) as nat)
    }
}

/// What a response yields: its first text block, or `EmptyReply`.
pub open spec fn reply_of(r: ModelResponse) -> Result<ModelReply, ModelError> {
    if r.texts@.len() > 0 {
        Ok(ModelReply {
            text: r.texts@[0],
            input_tokens: r.input_tokens,
            output_tokens: r.output_tokens,
        })
    } else {
        Err(ModelError::EmptyReply)
    }
}

/// The step taken after `outcome` when `retries` retries were made, and the
/// retry count after it.
pub open spec fn step_after(retries: u32, outcome: InvokeOutcome) -> (u32, RetryStep) {
    match outcome {
        InvokeOutcome::Response(r) => (retries, RetryStep::Finish(reply_of(r))),
        InvokeOutcome::Throttled => if retries < MAX_RETRIES {
            (
                (retries + 1) as u32,
                RetryStep::Wait { millis: backoff_millis((retries + 1) as nat) as u64 },
            )
        } else {
            (retries, RetryStep::Finish(Err(ModelError::RateLimited { retries: MAX_RETRIES })))
        },
        InvokeOutcome::Failed(m) => (
            retries,
            RetryStep::Finish(Err(ModelError::InvocationFailed { message: m })),
        ),
    }
}

/// Running the policy from `retries` over successive outcomes: the number of
/// attempts made, the waits in between, and the result, if one was reached.
pub open spec fn run_policy(retries: u32, outcomes: Seq<InvokeOutcome>) -> (nat, Seq<u64>, Option<
    Result<ModelReply, ModelError>,
>)
    decreases outcomes.len(),
{
    if outcomes.len() == 0 {
        (0, seq![], None)
    } else {
        let (next, step) = step_after(retries, outcomes[0]);
        match step {
            RetryStep::Finish(res) => (1, seq![], Some(res)),
            RetryStep::Wait { millis } => {
                let (n, waits, res) = run_policy(next, outcomes.drop_first());
                (n + 1, seq![millis] + waits, res)
            },
        }
    }
}

/// Whether `pat` occurs in `s`.
pub open spec fn occurs_in(pat: Seq<char>, s: Seq<char>) -> bool {
    exists|i: int| 0 <= i && i + pat.len() <= s.len() && #[trigger] s.subrange(i, i + pat.len()) == pat
}

/// Whether a failure description names rate limiting.
pub open spec fn names_throttling(description: Seq<char>) -> bool {
    occurs_in("ThrottlingException"@, description) || occurs_in("Too many tokens"@, description)
}

fn occurs_in_exec(pat: &Vec<char>, s: &Vec<char>) -> (r: bool)
    ensures
        r == occurs_in(pat@, s@),
{
    if pat.len() > s.len() {
        return false;
    }
    let n = s.len();
    let mut i: usize = 0;
    while i <= s.len() - pat.len()
        invariant
            n == s@.len(),
            pat@.len() <= s@.len(),
            i <= s@.len() - pat@.len() + 1,
            forall|j: int| 0 <= j < i ==> #[trigger] s@.subrange(j, j + pat@.len()) != pat@,
        decreases s@.len() - pat@.len() + 1 - i,
    {
        let mut k: usize = 0;
        let mut same = true;
        while k < pat.len()
            invariant
                n == s@.len(),
                pat@.len() <= s@.len(),
                i + pat@.len() <= s@.len(),
                k <= pat@.len(),
                same == (forall|m: int| 0 <= m < k ==> s@[i + m] == pat@[m]),
            decreases pat@.len() - k,
        {
            if s[i + k] != pat[k] {
                same = false;
            }
            k = k + 1;
        }
        if same {
            assert(s@.subrange(i as int, i + pat@.len()) =~= pat@);
            return true;
        }
        assert(s@.subrange(i as int, i + pat@.len()) != pat@) by {
            let m = choose|m: int| 0 <= m < pat@.len() && s@[i + m] != pat@[m];
            assert(s@.subrange(i as int, i + pat@.len())[m] != pat@[m]);
        }
        i = i + 1;
    }
    false
}

/// Whether a failure description, as the transport renders it, names rate
/// limiting ("ThrottlingException" or "Too many tokens").
pub fn is_throttling(description: &str) -> (r: bool)
    ensures
        r == names_throttling(description@),
{
    let d = crate::text::chars_of(description);
    let first = crate::text::chars_of("ThrottlingException");
    let second = crate::text::chars_of("Too many tokens");
    occurs_in_exec(&first, &d) || occurs_in_exec(&second, &d)
}

fn backoff_millis_exec(k: u32) -> (r: u64)
    requires
        k <= MAX_RETRIES,
    ensures
        r as nat == backoff_millis(k as nat),
{
    let mut r: u64 = 1000;
    let mut i: u32 = 0;
    while i < k
        invariant
            i <= k <= MAX_RETRIES,
            r as nat == backoff_millis(i as nat),
            r <= 8000,
        decreases k - i,
    {
        assert(backoff_millis((i + 1) as nat) == 2 * backoff_millis(i as nat));
        r = r * 2;
        i = i + 1;
        assert(i <= 3 ==> r <= 8000) by {
            if i == 1 {
                assert(backoff_millis(1) == 2000) by {
                    reveal_with_fuel(backoff_millis, 2);
                }
            } else if i == 2 {
                assert(backoff_millis(2) == 4000) by {
                    reveal_with_fuel(backoff_millis, 3);
                }
            } else if i == 3 {
                assert(backoff_millis(3) == 8000) by {
                    reveal_with_fuel(backoff_millis, 4);
                }
            }
        }
    }
    r
}

/// What a response yields: its first text block with the token counts, or
/// `EmptyReply` when it holds none.
pub fn reply_from(response: ModelResponse) -> (r: Result<ModelReply, ModelError>)
    ensures
        r == reply_of(response),
{
    let ModelResponse { mut texts, input_tokens, output_tokens } = response;
    if texts.len() > 0 {
        let text = texts.swap_remove(0);
        Ok(ModelReply { text, input_tokens, output_tokens })
    } else {
        Err(ModelError::EmptyReply)
    }
}

impl RetryPolicy {
    /// The state before the first attempt.
    pub fn new() -> (r: RetryPolicy)
        ensures
            r.retries == 0,
    {
        RetryPolicy { retries: 0 }
    }

    /// Decides what follows an attempt: a throttled attempt is retried after
    /// 2, 4 and 8 seconds, then the call fails with `RateLimited`; any other
    /// failure ends the call at once; a response ends it with its reply.
    pub fn after_attempt(&mut self, outcome: InvokeOutcome) -> (r: RetryStep)
        requires
            old(self).retries <= MAX_RETRIES,
        ensures
            (final(self).retries, r) == step_after(old(self).retries, outcome),
            final(self).retries <= MAX_RETRIES,
    {
        match outcome {
            InvokeOutcome::Response(response) => RetryStep::Finish(reply_from(response)),
            InvokeOutcome::Throttled => {
                if self.retries < MAX_RETRIES {
                    self.retries = self.retries + 1;
                    RetryStep::Wait { millis: backoff_millis_exec(self.retries) }
                } else {
                    RetryStep::Finish(Err(ModelError::RateLimited { retries: MAX_RETRIES }))
                }
            },
            InvokeOutcome::Failed(message) => RetryStep::Finish(
                Err(ModelError::InvocationFailed { message }),
            ),
        }
    }
}

/// Input token count above which a call counts as heavy.
pub const HIGH_INPUT_TOKENS: u32 = 30000;

/// Total token count above which a call risks the rate limit.
pub const HIGH_TOTAL_TOKENS: u64 = 40000;

/// Whether a reply's input was heavy.
pub fn high_input_usage(input_tokens: u32) -> (r: bool)
    ensures
        r == (input_tokens > HIGH_INPUT_TOKENS),
{
    input_tokens > HIGH_INPUT_TOKENS
}

/// Whether a reply's total usage risks the rate limit.
pub fn very_high_usage(input_tokens: u32, output_tokens: u32) -> (r: bool)
    ensures
        r == (input_tokens + output_tokens > HIGH_TOTAL_TOKENS),
{
    (input_tokens as u64) + (output_tokens as u64) > HIGH_TOTAL_TOKENS
}

/// The HTTP status for a failed turn: 429 when rate limited, 502 when the
/// model returned no content, 500 for any other failure.
pub fn error_status(e: &ModelError) -> (r: u16)
    ensures
        r == match e {
            ModelError::RateLimited { .. } => 429u16,
            ModelError::EmptyReply => 502u16,
            ModelError::InvocationFailed { .. } => 500u16,
        },
{
    match e {
        ModelError::RateLimited { .. } => 429,
        ModelError::EmptyReply => 502,
        ModelError::InvocationFailed { .. } => 500,
    }
}

/// When every attempt is throttled, the call is made four times, with waits
/// of 2, 4 and 8 seconds between, and fails with `RateLimited` after three
/// retries.
pub proof fn throttled_every_time(outcomes: Seq<InvokeOutcome>)
    requires
        outcomes.len() >= 4,
        forall|i: int| 0 <= i < outcomes.len() ==> #[trigger] outcomes[i] is Throttled,
    ensures
        run_policy(0, outcomes) == (
            4nat,
            seq![2000u64, 4000u64, 8000u64],
            Some(Err::<ModelReply, ModelError>(ModelError::RateLimited { retries: 3 })),
        ),
{
    reveal_with_fuel(backoff_millis, 4);
    let o1 = outcomes.drop_first();
    let o2 = o1.drop_first();
    let o3 = o2.drop_first();
    assert(o1[0] is Throttled && o2[0] is Throttled && o3[0] is Throttled) by {
        assert(o1[0] == outcomes[1]);
        assert(o2[0] == outcomes[2]);
        assert(o3[0] == outcomes[3]);
    }
    assert(run_policy(3, o3) == (
        1nat,
        Seq::<u64>::empty(),
        Some(Err::<ModelReply, ModelError>(ModelError::RateLimited { retries: 3 })),
    ));
    assert(run_policy(2, o2).1 =~= seq![8000u64]);
    assert(run_policy(1, o1).1 =~= seq![4000u64, 8000u64]);
    assert(run_policy(0, outcomes).1 =~= seq![2000u64, 4000u64, 8000u64]);
}

/// When the first attempt is throttled and the second returns a response,
/// the call is retried once, after 2 seconds, and yields that response's reply.
pub proof fn success_on_second_attempt(outcomes: Seq<InvokeOutcome>)
    requires
        outcomes.len() >= 2,
        outcomes[0] is Throttled,
        outcomes[1] is Response,
        outcomes[1]->Response_0.texts@.len() > 0,
    ensures
        run_policy(0, outcomes) == (
            2nat,
            seq![2000u64],
            Some(reply_of(outcomes[1]->Response_0)),
        ),
        run_policy(0, outcomes).2 matches Some(r) && r is Ok,
{
    reveal_with_fuel(backoff_millis, 2);
    let o1 = outcomes.drop_first();
    assert(o1[0] == outcomes[1]);
    assert(run_policy(1, o1) == (
        1nat,
        Seq::<u64>::empty(),
        Some(reply_of(outcomes[1]->Response_0)),
    ));
    assert(run_policy(0, outcomes).1 =~= seq![2000u64]);
}

} // verus!
