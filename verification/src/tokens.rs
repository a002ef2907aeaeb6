//! Estimation of a chat prompt's size in tokens: each message costs three
//! framing tokens plus the tokens of its content and of its optional name
//! (one more for the name field), and the reply priming costs three more.

use tokenizers::models::ModelWrapper;
use tokenizers::Tokenizer;
use vstd::prelude::*;

verus! {

#[verifier::external_type_specification]
#[verifier::external_body]
pub struct ExTokenizer(Tokenizer);

/// Framing tokens around every message.
pub const MESSAGE_FRAMING_TOKENS: usize = 3;

/// Tokens that prime the assistant's reply.
pub const REPLY_PRIMING_TOKENS: usize = 3;

/// The texts of one message that are counted.
pub struct MessageText {
    /// The `content` field, when it is a string.
    pub content: Option<String>,
    /// The `name` field, when it is a string.
    pub name: Option<String>,
}

/// Token counts of one message's texts; `None` where the text is absent or
/// could not be encoded.
pub struct MessageTokenCounts {
    pub content: Option<usize>,
    pub name: Option<usize>,
}

/// The counts of every message, when the request holds a message list, and
/// the prompt's total (`None` only when it exceeds `usize::MAX`).
pub struct PromptEstimate {
    pub counts: Option<Vec<MessageTokenCounts>>,
    pub total: Option<usize>,
}

/// Tokens one message costs.
pub open spec fn message_tokens(c: MessageTokenCounts) -> int {
    MESSAGE_FRAMING_TOKENS + match c.content {
        Some(n) => n as int,
        None => 0,
    } + match c.name {
        Some(n) => n + 1,
        None => 0,
    }
}

/// Tokens all the messages cost.
pub open spec fn messages_tokens(cs: Seq<MessageTokenCounts>) -> int
    decreases cs.len(),
{
    if cs.len() == 0 {
        0
    } else {
        messages_tokens(cs.drop_last()) + message_tokens(cs.last())
    }
}

/// The prompt's size: nothing without a message list, else the messages'
/// tokens and the reply priming.
pub open spec fn prompt_tokens_spec(counts: Option<Seq<MessageTokenCounts>>) -> int {
    match counts {
        Some(cs) => messages_tokens(cs) + REPLY_PRIMING_TOKENS,
        None => 0,
    }
}

/// The view of optional counts.
pub open spec fn counts_view(counts: Option<Vec<MessageTokenCounts>>) -> Option<Seq<MessageTokenCounts>> {
    match counts {
        Some(v) => Some(v@),
        None => None,
    }
}

/// `counts` has one entry per message of `messages`, and a message's count
/// is `None` wherever its text is `None` (only a present text is encoded).
pub open spec fn counts_match(
    counts: Option<Vec<MessageTokenCounts>>,
    messages: Option<Vec<MessageText>>,
) -> bool {
    match (counts, messages) {
        (Some(cs), Some(ms)) => {
            &&& cs@.len() == ms@.len()
            &&& forall|i: int|
                0 <= i < cs@.len() ==> {
                    &&& ms@[i].content is None ==> (#[trigger] cs@[i]).content is None
                    &&& ms@[i].name is None ==> cs@[i].name is None
                }
        },
        (None, None) => true,
        _ => false,
    }
}

/// The number of token ids that `tokenizer.encode(text, false)` gives, or
/// `None` when encoding fails.
pub uninterp spec fn token_count(tokenizer: Tokenizer, text: Seq<char>) -> Option<usize>;

/// The `(max_length, stride)` of the tokenizer's truncation settings, when
/// it truncates (what `Tokenizer::get_truncation` holds).
pub uninterp spec fn tokenizer_truncation(tokenizer: Tokenizer) -> Option<(usize, usize)>;

/// Whether the tokenizer's model is set to sample its segmentation (what
/// `Tokenizer::get_model` holds: a BPE model with a dropout or a Unigram
/// model with an alpha).
pub uninterp spec fn tokenizer_sampling(tokenizer: Tokenizer) -> bool;

/// Truncation settings under which encoding one text cannot fail an
/// assertion: no truncation, a zero length, or a stride below the length.
pub open spec fn truncation_safe(t: Option<(usize, usize)>) -> bool {
    match t {
        Some((max_length, stride)) => max_length == 0 || stride < max_length,
        None => true,
    }
}

/// The count that a present text gets.
pub open spec fn text_count(tokenizer: Tokenizer, text: Option<String>) -> Option<usize> {
    match text {
        Some(t) => token_count(tokenizer, t@),
        None => None,
    }
}

/// The counts of one message.
pub open spec fn message_counts(tokenizer: Tokenizer, m: MessageText) -> MessageTokenCounts {
    MessageTokenCounts {
        content: text_count(tokenizer, m.content),
        name: text_count(tokenizer, m.name),
    }
}

/// The view of optional messages.
pub open spec fn messages_view(messages: Option<Vec<MessageText>>) -> Option<Seq<MessageText>> {
    match messages {
        Some(v) => Some(v@),
        None => None,
    }
}

/// The counts of every message, when there is a message list.
pub open spec fn expected_counts(tokenizer: Tokenizer, messages: Option<Seq<MessageText>>) -> Option<
    Seq<MessageTokenCounts>,
> {
    match messages {
        Some(ms) => Some(ms.map_values(|m: MessageText| message_counts(tokenizer, m))),
        None => None,
    }
}

/// The number of token ids that `tokenizers::Tokenizer::encode` gives for
/// `text` without special tokens, or `None` when encoding fails. Claims that
/// the result is `token_count`, a function of the tokenizer and the text,
/// whenever the tokenizer does not sample its segmentation (with BPE dropout
/// or a Unigram alpha the ids are drawn at random, and nothing is claimed).
/// Requires truncation settings under which `Encoding::truncate` cannot
/// fail its `stride < max_len` assertion.
#[verifier::external_body]
fn encoded_len(tokenizer: &Tokenizer, text: &str) -> (n: Option<usize>)
    requires
        truncation_safe(tokenizer_truncation(*tokenizer)),
    ensures
        !tokenizer_sampling(*tokenizer) ==> n == token_count(*tokenizer, text@),
{
    match tokenizer.encode(text, false) {
        Ok(encoding) => Some(encoding.get_ids().len()),
        Err(_) => None,
    }
}

/// The `(max_length, stride)` of the tokenizer's truncation, through
/// `Tokenizer::get_truncation`. Claims that the result is `tokenizer_truncation`.
#[verifier::external_body]
fn truncation_limits(tokenizer: &Tokenizer) -> (t: Option<(usize, usize)>)
    ensures
        t == tokenizer_truncation(*tokenizer),
{
    match tokenizer.get_truncation() {
        Some(params) => Some((params.max_length, params.stride)),
        None => None,
    }
}

/// Whether the tokenizer's model samples, through `Tokenizer::get_model`:
/// a BPE dropout or a Unigram alpha is set. Claims that the result is
/// `tokenizer_sampling`.
#[verifier::external_body]
fn samples_segmentation(tokenizer: &Tokenizer) -> (s: bool)
    ensures
        s == tokenizer_sampling(*tokenizer),
{
    match tokenizer.get_model() {
        ModelWrapper::BPE(model) => model.dropout.is_some(),
        ModelWrapper::Unigram(model) => model.alpha.is_some(),
        ModelWrapper::WordPiece(_) => false,
        ModelWrapper::WordLevel(_) => false,
    }
}

/// Whether texts can be encoded with `tokenizer` without tripping its
/// truncation assertion.
pub fn truncation_is_safe(tokenizer: &Tokenizer) -> (ok: bool)
    ensures
        ok == truncation_safe(tokenizer_truncation(*tokenizer)),
{
    match truncation_limits(tokenizer) {
        Some((max_length, stride)) => max_length == 0 || stride < max_length,
        None => true,
    }
}

/// Whether `tokenizer` gives every text the same count each time (its
/// model does not sample).
pub fn is_deterministic(tokenizer: &Tokenizer) -> (d: bool)
    ensures
        d == !tokenizer_sampling(*tokenizer),
{
    !samples_segmentation(tokenizer)
}

proof fn lemma_messages_tokens_lower_bound(cs: Seq<MessageTokenCounts>)
    ensures
        messages_tokens(cs) >= MESSAGE_FRAMING_TOKENS * cs.len(),
    decreases cs.len(),
{
    if cs.len() > 0 {
        lemma_messages_tokens_lower_bound(cs.drop_last());
    }
}

/// The prompt's size for these counts, or `None` when it exceeds `usize::MAX`.
pub fn checked_prompt_tokens(counts: &Option<Vec<MessageTokenCounts>>) -> (total: Option<usize>)
    ensures
        total == (if prompt_tokens_spec(counts_view(*counts)) <= usize::MAX {
            Some(prompt_tokens_spec(counts_view(*counts)) as usize)
        } else {
            None
        }),
{
    match counts {
        None => Some(0),
        Some(cs) => {
            let n = cs.len();
            let mut acc: usize = 0;
            let mut i: usize = 0;
            proof {
                assert(cs@.take(0) =~= Seq::<MessageTokenCounts>::empty());
            }
            while i < n
                invariant
                    n == cs@.len(),
                    counts_view(*counts) == Some(cs@),
                    i <= n,
                    acc == messages_tokens(cs@.take(i as int)),
                decreases n - i,
            {
                let c = &cs[i];
                proof {
                    assert(cs@.take(i + 1).drop_last() =~= cs@.take(i as int));
                    lemma_messages_suffix_grows(cs@, i as int + 1);
                    assert(cs@.take(i + 1).last() == cs@[i as int]);
                    assert(messages_tokens(cs@.take(i + 1)) == acc + message_tokens(cs@[i as int]));
                }
                let content = match c.content {
                    Some(k) => k,
                    None => 0,
                };
                proof {
                    assert(message_tokens(cs@[i as int]) >= MESSAGE_FRAMING_TOKENS + content);
                    assert(messages_tokens(cs@.take(i + 1)) <= messages_tokens(cs@));
                }
                let mut step = match acc.checked_add(MESSAGE_FRAMING_TOKENS) {
                    Some(v) => v,
                    None => {
                        return None;
                    },
                };
                step = match step.checked_add(content) {
                    Some(v) => v,
                    None => return None,
                };
                match c.name {
                    Some(k) => {
                        proof {
                            assert(message_tokens(cs@[i as int]) == MESSAGE_FRAMING_TOKENS + content + k + 1);
                        }
                        step = match step.checked_add(k) {
                            Some(v) => v,
                            None => {
                                return None;
                            },
                        };
                        step = match step.checked_add(1) {
                            Some(v) => v,
                            None => return None,
                        };
                    },
                    None => {},
                }
                acc = step;
                i += 1;
            }
            proof {
                assert(cs@.take(n as int) =~= cs@);
            }
            acc.checked_add(REPLY_PRIMING_TOKENS)
        },
    }
}

/// The messages' tokens never shrink as more messages are counted.
proof fn lemma_messages_suffix_grows(cs: Seq<MessageTokenCounts>, k: int)
    requires
        0 <= k <= cs.len(),
    ensures
        messages_tokens(cs.take(k)) <= messages_tokens(cs),
    decreases cs.len(),
{
    if k < cs.len() {
        lemma_messages_suffix_grows(cs.drop_last(), k);
        assert(cs.drop_last().take(k) =~= cs.take(k));
    } else {
        assert(cs.take(k) =~= cs);
    }
}

/// Counts the tokens of every message with `tokenizer` and sums the
/// prompt's size: each present content and name text is counted with the
/// tokenizer.
pub fn estimate_prompt_tokens(tokenizer: &Tokenizer, messages: &Option<Vec<MessageText>>) -> (e:
    PromptEstimate)
    requires
        truncation_safe(tokenizer_truncation(*tokenizer)),
    ensures
        counts_match(e.counts, *messages),
        !tokenizer_sampling(*tokenizer) ==> counts_view(e.counts) == expected_counts(
            *tokenizer,
            messages_view(*messages),
        ),
        e.total == (if prompt_tokens_spec(counts_view(e.counts)) <= usize::MAX {
            Some(prompt_tokens_spec(counts_view(e.counts)) as usize)
        } else {
            None
        }),
{
    let counts = match messages {
        None => None,
        Some(ms) => {
            let n = ms.len();
            let mut cs: Vec<MessageTokenCounts> = Vec::new();
            let mut i: usize = 0;
            while i < n
                invariant
                    n == ms@.len(),
                    truncation_safe(tokenizer_truncation(*tokenizer)),
                    i <= n,
                    cs@.len() == i,
                    forall|j: int|
                        0 <= j < i ==> {
                            &&& ms@[j].content is None ==> (#[trigger] cs@[j]).content is None
                            &&& ms@[j].name is None ==> cs@[j].name is None
                        },
                    !tokenizer_sampling(*tokenizer) ==> forall|j: int|
                        0 <= j < i ==> #[trigger] cs@[j] == message_counts(*tokenizer, ms@[j]),
                decreases n - i,
            {
                let m = &ms[i];
                let content = match &m.content {
                    Some(t) => encoded_len(tokenizer, t.as_str()),
                    None => None,
                };
                let name = match &m.name {
                    Some(t) => encoded_len(tokenizer, t.as_str()),
                    None => None,
                };
                cs.push(MessageTokenCounts { content, name });
                i += 1;
            }
            proof {
                if !tokenizer_sampling(*tokenizer) {
                    assert(cs@ =~= ms@.map_values(|m: MessageText| message_counts(*tokenizer, m)));
                }
            }
            Some(cs)
        },
    };
    let total = checked_prompt_tokens(&counts);
    PromptEstimate { counts, total }
}

/// The prompt estimate when the tokenizer's truncation settings allow
/// encoding; `None` (nothing encoded) when they would make encoding trip
/// its assertion.
pub fn try_estimate_prompt_tokens(tokenizer: &Tokenizer, messages: &Option<Vec<MessageText>>) -> (e:
    Option<PromptEstimate>)
    ensures
        e is None <==> !truncation_safe(tokenizer_truncation(*tokenizer)),
        e matches Some(est) ==> {
            &&& counts_match(est.counts, *messages)
            &&& !tokenizer_sampling(*tokenizer) ==> counts_view(est.counts) == expected_counts(
                *tokenizer,
                messages_view(*messages),
            )
            &&& est.total == (if prompt_tokens_spec(counts_view(est.counts)) <= usize::MAX {
                Some(prompt_tokens_spec(counts_view(est.counts)) as usize)
            } else {
                None
            })
        },
{
    if truncation_is_safe(tokenizer) {
        Some(estimate_prompt_tokens(tokenizer, messages))
    } else {
        None
    }
}

/// A request without a message list counts no tokens; one with `k` messages
/// counts at least `3k + 3`.
pub proof fn lemma_prompt_tokens_floor(counts: Option<Seq<MessageTokenCounts>>)
    ensures
        counts is None ==> prompt_tokens_spec(counts) == 0,
        counts matches Some(cs) ==> prompt_tokens_spec(counts) >= MESSAGE_FRAMING_TOKENS * cs.len()
            + REPLY_PRIMING_TOKENS,
{
    if let Some(cs) = counts {
        lemma_messages_tokens_lower_bound(cs);
    }
}

/// Each text of a message is counted on its own: a present content gets the
/// content's token count and a present name the name's, whatever the other
/// field holds; an absent text gets no count. In a message list, message
/// `i` gets the counts of the `i`-th message.
pub proof fn lemma_each_text_counted_alone(tokenizer: Tokenizer, ms: Seq<MessageText>, i: int)
    requires
        0 <= i < ms.len(),
    ensures
        ({
            let c = expected_counts(tokenizer, Some(ms))->0;
            &&& c.len() == ms.len()
            &&& (ms[i].content matches Some(t) ==> c[i].content == token_count(tokenizer, t@))
            &&& (ms[i].content is None ==> c[i].content is None)
            &&& (ms[i].name matches Some(t) ==> c[i].name == token_count(tokenizer, t@))
            &&& (ms[i].name is None ==> c[i].name is None)
        }),
{
}

/// The prompt's size in numbers: no message list gives 0; adding a message
/// with `c` content tokens adds `3 + c`, and `n + 1` more when it has a name
/// of `n` tokens; a list of messages adds 3 for the reply priming.
pub proof fn lemma_prompt_size_arithmetic(
    cs: Seq<MessageTokenCounts>,
    content: Option<usize>,
    name: Option<usize>,
)
    ensures
        prompt_tokens_spec(None) == 0,
        prompt_tokens_spec(Some(Seq::<MessageTokenCounts>::empty())) == 3,
        prompt_tokens_spec(Some(cs.push(MessageTokenCounts { content, name }))) == prompt_tokens_spec(
            Some(cs),
        ) + 3 + (match content {
            Some(c) => c as int,
            None => 0,
        }) + (match name {
            Some(n) => n as int + 1,
            None => 0,
        }),
{
    assert(cs.push(MessageTokenCounts { content, name }).drop_last() =~= cs);
}

} // verus!
