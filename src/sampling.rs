//! The parts of top-K / top-P sampling that decide rather than compute: which
//! adjustment each logit gets, and which candidates survive the top-K cut.
//!
//! Logits are carried as the bit patterns of IEEE-754 binary32 values. Candidates
//! are ranked by the IEEE-754 total order, which on bit patterns is an integer order.
use vstd::prelude::*;
use vstd::seq_lib::lemma_multiset_commutative;

verus! {

/// Identifier of a token in a model's vocabulary.
pub type TokenId = u32;

/// A candidate token: the bit pattern of its adjusted logit, and its id.
pub type Candidate = (u32, TokenId);

/// The position of a binary32 value in the IEEE-754 total order
/// (`f32::total_cmp`): negative values, by sign and magnitude, come first; NaNs
/// with the sign bit set are lowest and those without it are highest.
pub open spec fn total_order_key(bits: u32) -> int {
    if bits < 0x8000_0000 {
        bits as int
    } else {
        0x7fff_ffff - bits as int
    }
}

/// Whether the binary32 value with these bits compares below zero: the sign bit is
/// set, and it is neither negative zero nor a NaN.
pub open spec fn is_below_zero(bits: u32) -> bool {
    0x8000_0000 < bits && bits <= 0xff80_0000
}

/// The rank of a binary32 value in the IEEE-754 total order.
pub fn order_key(bits: u32) -> (r: i64)
    ensures
        r == total_order_key(bits),
{
    if bits < 0x8000_0000 {
        bits as i64
    } else {
        0x7fff_ffff_i64 - bits as i64
    }
}

/// Whether candidate `a` ranks no lower than `b`: a higher value ranks higher, and
/// among equal values the lower id does.
pub open spec fn ranks_at_least(a: Candidate, b: Candidate) -> bool {
    total_order_key(a.0) > total_order_key(b.0) || (total_order_key(a.0) == total_order_key(b.0)
        && a.1 <= b.1)
}

/// Whether `a` comes strictly before `b` when candidates are ranked from the
/// highest value down, ties going to the lower id.
pub fn ranks_above(a: &Candidate, b: &Candidate) -> (r: bool)
    ensures
        r == !ranks_at_least(*b, *a),
{
    let ka = order_key(a.0);
    let kb = order_key(b.0);
    ka > kb || (ka == kb && a.1 < b.1)
}

/// Whether the binary32 value with these bits is below zero.
pub fn below_zero(bits: u32) -> (r: bool)
    ensures
        r == is_below_zero(bits),
{
    0x8000_0000 < bits && bits <= 0xff80_0000
}

/// The override for `id` among `entries`: the value of its first entry.
pub open spec fn bias_lookup(entries: Seq<(TokenId, u32)>, id: TokenId) -> Option<u32>
    decreases entries.len(),
{
    if entries.len() == 0 {
        None
    } else if entries[0].0 == id {
        Some(entries[0].1)
    } else {
        bias_lookup(entries.drop_first(), id)
    }
}

/// Logit overrides for chosen tokens; each value is the bit pattern of a binary32.
#[derive(Clone, Debug, PartialEq, Eq)]
pub struct TokenBias {
    pub entries: Vec<(TokenId, u32)>,
}

impl TokenBias {
    /// A bias table with the given entries; where an id repeats, its first entry counts.
    pub fn new(entries: Vec<(TokenId, u32)>) -> (r: TokenBias)
        ensures
            r.entries@ == entries@,
    {
        TokenBias { entries }
    }

    /// The table that overrides nothing.
    pub fn empty() -> (r: TokenBias)
        ensures
            r.entries@.len() == 0,
    {
        TokenBias { entries: Vec::new() }
    }

    /// The override for `id`, if it has one.
    pub fn get(&self, id: TokenId) -> (r: Option<u32>)
        ensures
            r == bias_lookup(self.entries@, id),
    {
        let n = self.entries.len();
        let mut i: usize = 0;
        proof {
            assert(self.entries@.skip(0) =~= self.entries@);
        }
        while i < n
            invariant
                n == self.entries@.len(),
                i <= n,
                bias_lookup(self.entries@, id) == bias_lookup(self.entries@.skip(i as int), id),
            decreases n - i,
        {
            proof {
                assert(self.entries@.skip(i as int).drop_first() == self.entries@.skip(i + 1));
            }
            if self.entries[i].0 == id {
                return Some(self.entries[i].1);
            }
            i = i + 1;
        }
        None
    }
}

/// Settings for one call of prompt feeding or generation. The floating-point
/// settings are held as the bit patterns of binary32 values.
#[derive(Clone, Debug, PartialEq, Eq)]
pub struct InferenceParameters {
    /// Number of worker threads for the compute backend.
    pub n_threads: usize,
    /// How many prompt tokens are handed to one evaluation.
    pub n_batch: usize,
    /// How many of the best candidates survive the top-K cut.
    pub top_k: usize,
    /// Cumulative probability at which the top-P cut is made.
    pub top_p: u32,
    /// Factor applied to the logits of recently seen tokens; one disables it.
    pub repeat_penalty: u32,
    /// Divisor applied to every logit that is not overridden.
    pub temperature: u32,
    /// Logit overrides.
    pub bias_tokens: TokenBias,
    /// How many of the latest tokens the repetition penalty looks at.
    pub repetition_penalty_last_n: usize,
}

/// What the sampler does to one logit before ranking.
#[derive(Clone, Copy, Debug, PartialEq, Eq, Structural)]
pub enum LogitTransform {
    /// The value is replaced by this override (binary32 bits); nothing else applies.
    Override(u32),
    /// The value is divided by the temperature.
    Scale,
    /// The value is divided by the temperature, then multiplied by the repetition
    /// penalty (the unscaled logit is below zero).
    ScaleAndMultiplyPenalty,
    /// The value is divided by the temperature, then divided by the repetition
    /// penalty (the unscaled logit is not below zero).
    ScaleAndDividePenalty,
}

/// The tokens that the repetition penalty looks at: the last `last_n` of `history`.
pub open spec fn penalty_window(history: Seq<TokenId>, last_n: nat) -> Seq<TokenId> {
    if history.len() <= last_n {
        history
    } else {
        history.skip(history.len() - last_n)
    }
}

/// The transform that the sampler applies to the logit of token `id`.
pub open spec fn transform_of(
    logit: u32,
    id: TokenId,
    history: Seq<TokenId>,
    bias: Seq<(TokenId, u32)>,
    last_n: nat,
) -> LogitTransform {
    match bias_lookup(bias, id) {
        Some(v) => LogitTransform::Override(v),
        None => if penalty_window(history, last_n).contains(id) {
            if is_below_zero(logit) {
                LogitTransform::ScaleAndMultiplyPenalty
            } else {
                LogitTransform::ScaleAndDividePenalty
            }
        } else {
            LogitTransform::Scale
        },
    }
}

/// Whether `id` occurs among the last `last_n` tokens of `history`.
pub fn in_penalty_window(history: &[TokenId], last_n: usize, id: TokenId) -> (r: bool)
    ensures
        r == penalty_window(history@, last_n as nat).contains(id),
{
    let n = history.len();
    let start = n.saturating_sub(last_n);
    proof {
        assert(penalty_window(history@, last_n as nat) =~= history@.subrange(start as int, n as int));
    }
    let mut i: usize = start;
    let mut found = false;
    while i < n && !found
        invariant
            start <= i <= n,
            n == history@.len(),
            found ==> start < i && history@[i - 1] == id,
            !found ==> forall|j: int| start <= j < i ==> history@[j] != id,
        decreases n - i,
    {
        found = history[i] == id;
        i = i + 1;
    }
    proof {
        let w = penalty_window(history@, last_n as nat);
        if found {
            assert(w[i - 1 - start] == id);
        } else {
            assert forall|j: int| 0 <= j < w.len() implies w[j] != id by {
                assert(w[j] == history@[start + j]);
            }
        }
    }
    found
}

/// The transform for each logit of `logits`, where the logit at index `i` belongs
/// to token `i`.
pub fn logit_transforms(logits: &[u32], history: &[TokenId], params: &InferenceParameters) -> (r:
    Vec<LogitTransform>)
    requires
        logits@.len() <= 0x1_0000_0000,
    ensures
        r@.len() == logits@.len(),
        forall|i: int|
            0 <= i < logits@.len() ==> #[trigger] r@[i] == transform_of(
                logits@[i],
                i as TokenId,
                history@,
                params.bias_tokens.entries@,
                params.repetition_penalty_last_n as nat,
            ),
{
    let n = logits.len();
    let mut out: Vec<LogitTransform> = Vec::with_capacity(n);
    let mut i: usize = 0;
    while i < n
        invariant
            n == logits@.len(),
            n <= 0x1_0000_0000,
            i <= n,
            out@.len() == i,
            forall|j: int|
                0 <= j < i ==> #[trigger] out@[j] == transform_of(
                    logits@[j],
                    j as TokenId,
                    history@,
                    params.bias_tokens.entries@,
                    params.repetition_penalty_last_n as nat,
                ),
        decreases n - i,
    {
        let id = i as TokenId;
        let t = match params.bias_tokens.get(id) {
            Some(v) => LogitTransform::Override(v),
            None => if in_penalty_window(history, params.repetition_penalty_last_n, id) {
                if below_zero(logits[i]) {
                    LogitTransform::ScaleAndMultiplyPenalty
                } else {
                    LogitTransform::ScaleAndDividePenalty
                }
            } else {
                LogitTransform::Scale
            },
        };
        out.push(t);
        i = i + 1;
    }
    out
}

/// Relies on `partial_sort::partial_sort`: it panics unless `last <= len`, only
/// moves elements, and leaves in `[0, last)` the `last` least elements under the
/// given "less" relation, in ascending order. Here "less" is "ranks above".
#[verifier::external_body]
fn sort_best_first(v: &mut Vec<Candidate>, last: usize)
    requires
        last <= old(v)@.len(),
    ensures
        final(v)@.to_multiset() == old(v)@.to_multiset(),
        forall|i: int, j: int|
            0 <= i < j < last ==> ranks_at_least(#[trigger] final(v)@[i], #[trigger] final(v)@[j]),
        forall|i: int, j: int|
            0 <= i < last <= j < final(v)@.len() ==> ranks_at_least(
                #[trigger] final(v)@[i],
                #[trigger] final(v)@[j],
            ),
{
    partial_sort::partial_sort(v.as_mut_slice(), last, |a, b| ranks_above(a, b));
}

/// Whether `r` is a top-K selection of `k` from `candidates`: the best
/// `min(k, |candidates|)` of them, best first (ties by ascending id), and nothing
/// left out ranks above anything kept.
pub open spec fn is_top_k(r: Seq<Candidate>, candidates: Seq<Candidate>, k: nat) -> bool {
    &&& r.len() == if k < candidates.len() {
        k as int
    } else {
        candidates.len() as int
    }
    &&& forall|i: int, j: int|
        0 <= i < j < r.len() ==> ranks_at_least(#[trigger] r[i], #[trigger] r[j])
    &&& r.to_multiset().subset_of(candidates.to_multiset())
    &&& forall|x: Candidate|
        #[trigger] candidates.to_multiset().count(x) > r.to_multiset().count(x) ==> r.len() > 0
            && ranks_at_least(r.last(), x)
}

/// Keeps the `k` candidates with the highest values, best first.
pub fn top_k(candidates: Vec<Candidate>, k: usize) -> (r: Vec<Candidate>)
    requires
        k >= 1,
    ensures
        is_top_k(r@, candidates@, k as nat),
{
    let mut v = candidates;
    let n = v.len();
    let last = if k < n {
        k
    } else {
        n
    };
    sort_best_first(&mut v, last);
    let ghost p = v@;
    proof {
        broadcast use vstd::seq_lib::group_to_multiset_ensures;

        assert(p.to_multiset().len() == p.len());
        assert(candidates@.to_multiset().len() == candidates@.len());
    }
    v.truncate(last);
    proof {
        broadcast use vstd::seq_lib::group_to_multiset_ensures;
        broadcast use vstd::multiset::group_multiset_axioms;

        let kept = p.take(last as int);
        let dropped = p.skip(last as int);
        assert(p =~= kept + dropped);
        lemma_multiset_commutative(kept, dropped);
        assert(v@ =~= kept);
        assert forall|x: Candidate|
            #[trigger] candidates@.to_multiset().count(x) > v@.to_multiset().count(x) implies v@.len()
            > 0 && ranks_at_least(v@.last(), x) by {
            assert(dropped.to_multiset().count(x) > 0);
            assert(dropped.contains(x));
            let j = choose|j: int| 0 <= j < dropped.len() && dropped[j] == x;
            assert(p[last + j] == x);
            assert(last > 0);
            assert(p[last - 1] == v@.last());
        }
    }
    v
}

/// A candidate whose value ranks strictly above every other candidate's survives
/// any top-K cut, and comes first.
pub proof fn lemma_dominant_candidate_first(candidates: Seq<Candidate>, k: nat, r: Seq<Candidate>, x: Candidate)
    requires
        k >= 1,
        candidates.contains(x),
        forall|i: int|
            0 <= i < candidates.len() && candidates[i] != x ==> total_order_key(
                #[trigger] candidates[i].0,
            ) < total_order_key(x.0),
        is_top_k(r, candidates, k),
    ensures
        r.len() > 0,
        r[0] == x,
{
    broadcast use vstd::seq_lib::group_to_multiset_ensures;
    broadcast use vstd::multiset::group_multiset_axioms;

    assert(candidates.to_multiset().count(x) > 0);
    assert(r.len() > 0);
    assert(r.to_multiset().count(r[0]) > 0);
    assert(candidates.to_multiset().count(r[0]) > 0);
    assert(candidates.contains(r[0]));
    if r.to_multiset().count(x) == 0 {
        let last = r.last();
        assert(r.contains(last));
        assert(r.to_multiset().count(last) > 0);
        assert(candidates.contains(last));
        assert(last != x);
        assert(ranks_at_least(last, x));
    }
    assert(r.contains(x));
    let i = choose|i: int| 0 <= i < r.len() && r[i] == x;
    if r[0] != x {
        assert(ranks_at_least(r[0], r[i]));
    }
}

/// With `k = 1` the one survivor has the highest value of all candidates.
pub proof fn lemma_top_one_is_maximum(candidates: Seq<Candidate>, r: Seq<Candidate>)
    requires
        candidates.len() > 0,
        is_top_k(r, candidates, 1),
    ensures
        r.len() == 1,
        candidates.contains(r[0]),
        forall|i: int|
            0 <= i < candidates.len() ==> total_order_key(#[trigger] candidates[i].0)
                <= total_order_key(r[0].0),
{
    broadcast use vstd::seq_lib::group_to_multiset_ensures;
    broadcast use vstd::multiset::group_multiset_axioms;

    assert(r.contains(r[0]));
    assert(r.to_multiset().count(r[0]) > 0);
    assert forall|i: int| 0 <= i < candidates.len() implies total_order_key(
        #[trigger] candidates[i].0,
    ) <= total_order_key(r[0].0) by {
        let c = candidates[i];
        assert(candidates.contains(c));
        if r.to_multiset().count(c) > 0 {
            assert(r.contains(c));
        }
    }
}

} // verus!
