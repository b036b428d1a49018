//! The adaptive bulk-query engine: ask about many package ids in few
//! requests.  A query is assembled from per-package fragments until it would
//! exceed the URL length budget, the batch size budget, or the input; the
//! caller issues it and reports the outcome back, and the engine reacts by
//! shrinking its budgets and rewinding, or by advancing past the batch.
//! Budgets only shrink, and the cursor only advances over a batch whose
//! response was accepted, so no id is ever skipped or asked about twice.
//!
//! The engine itself performs no I/O: callers (and tests) drive it with
//! whatever transport they have.

use vstd::prelude::*;

verus! {

/// The length of the URL a query string normalises to: what `url::Url::parse`
/// followed by `as_str` yields, a function of the string alone; `None` where
/// the string is not a parsable URL.
pub uninterp spec fn url_normal_len_of(s: Seq<char>) -> Option<int>;

/// Relies on `url::Url::parse` (the `Url` that `reqwest` re-exports) and
/// `Url::as_str`: the length of the normalised form of `s`, or `None` where
/// `s` does not parse as an absolute URL.
#[verifier::external_body]
fn parse_url_len(s: &str) -> (r: Option<usize>)
    ensures
        match r {
            Some(n) => url_normal_len_of(s@) == Some(n as int),
            None => url_normal_len_of(s@) is None,
        },
{
    match url::Url::parse(s) {
        Ok(u) => Some(u.as_str().len()),
        Err(_) => None,
    }
}

/// The fragments `[from, from + count)` joined with `delim` between them.
pub open spec fn spec_join(frags: Seq<Seq<char>>, delim: Seq<char>, from: int, count: int) -> Seq<
    char,
>
    decreases count,
{
    if count <= 0 {
        Seq::<char>::empty()
    } else if count == 1 {
        frags[from]
    } else {
        spec_join(frags, delim, from, count - 1) + delim + frags[from + count - 1]
    }
}

/// The query text a batch of `count` fragments starting at `from` produces,
/// before the terminator is appended.
pub open spec fn spec_partial_query(
    base: Seq<char>,
    frags: Seq<Seq<char>>,
    delim: Seq<char>,
    from: int,
    count: int,
) -> Seq<char> {
    base + spec_join(frags, delim, from, count)
}

/// The batch size the assembly loop settles on, already having taken `k`
/// fragments: it stops at the first size whose query outgrows `max_url`, or
/// that exhausts the input or the batch budget; `None` where some prefix does
/// not parse as a URL at all.
pub open spec fn spec_plan_batch(
    base: Seq<char>,
    frags: Seq<Seq<char>>,
    delim: Seq<char>,
    cursor: int,
    k: int,
    max_batch: int,
    max_url: int,
) -> Option<int>
    decreases frags.len() - cursor - k,
{
    match url_normal_len_of(spec_partial_query(base, frags, delim, cursor, k)) {
        None => None,
        Some(n) => if n > max_url || cursor + k >= frags.len() || k >= max_batch {
            Some(k)
        } else {
            spec_plan_batch(base, frags, delim, cursor, k + 1, max_batch, max_url)
        },
    }
}

/// The combined backoff budget of an engine.  Every retried response
/// strictly shrinks it (while the URL budget has not already fallen under
/// the exhaustion floor), which bounds how often a run can retry.
pub open spec fn spec_bulk_measure(q: BulkQuery) -> int {
    q.max_url_len + q.max_batch_size
}

/// A backoff run is finite.  Along any chain of engine states in which
/// each later state came out of a retried response — `apply_response`
/// ensures the combined budget shrinks on every retry while the URL budget
/// is above the exhaustion floor — the chain is no longer than the first
/// state's combined budget allows.  Together with the cursor strictly
/// advancing on every accepted batch, a driving loop issues finitely many
/// requests before it has consumed its input or failed with the
/// communication error.
pub proof fn lemma_bulk_retries_bounded(states: Seq<BulkQuery>)
    requires
        states.len() > 0,
        forall|i: int|
            0 <= i < states.len() - 1 ==> spec_bulk_measure(#[trigger] states[i + 1])
                < spec_bulk_measure(states[i]),
    ensures
        states.len() <= spec_bulk_measure(states[0]) + 1,
    decreases states.len(),
{
    if states.len() > 1 {
        let d = states.drop_first();
        assert(forall|i: int|
            0 <= i < d.len() - 1 ==> spec_bulk_measure(#[trigger] d[i + 1]) < spec_bulk_measure(
                d[i],
            )) by {
            assert(forall|i: int| 0 <= i < d.len() ==> #[trigger] d[i] == states[i + 1]);
        }
        lemma_bulk_retries_bounded(d);
        assert(spec_bulk_measure(states[1]) < spec_bulk_measure(states[0]));
    }
}

/// What the engine asks of the caller after a response was handed in.
#[derive(Clone, Copy, PartialEq, Eq, Structural, Debug)]
pub enum BulkStep {
    /// The budgets shrank; re-issue from the same starting index.
    Retry,
    /// The body belongs to the batch just sent: hand it to the response
    /// parser; the cursor has advanced past the batch.
    Consume,
}

/// The adaptive bulk-query engine.  `fragments[i]` is the query fragment of
/// the `i`-th package id; everything before `cursor` has been answered.
pub struct BulkQuery {
    pub base: String,
    pub delim: String,
    pub terminator: String,
    pub fragments: Vec<String>,
    pub max_batch_size: u32,
    pub max_url_len: usize,
    pub cursor: usize,
    pub pending: Option<u32>,
}

impl BulkQuery {
    pub open spec fn wf(&self) -> bool {
        &&& self.cursor <= self.fragments@.len()
        &&& match self.pending {
            Some(size) => 1 <= size && self.cursor + size <= self.fragments@.len(),
            None => true,
        }
    }

    /// A fresh engine over the given query shape: nothing consumed, nothing
    /// pending, and the URL length budget at its initial 2047.
    pub fn new(
        base: String,
        delim: String,
        terminator: String,
        fragments: Vec<String>,
        max_batch_size: u32,
    ) -> (r: BulkQuery)
        ensures
            r.wf(),
            r.base == base,
            r.delim == delim,
            r.terminator == terminator,
            r.fragments == fragments,
            r.max_batch_size == max_batch_size,
            r.max_url_len == 2047,
            r.cursor == 0,
            r.pending is None,
    {
        BulkQuery {
            base,
            delim,
            terminator,
            fragments,
            max_batch_size,
            max_url_len: 2047,
            cursor: 0,
            pending: None,
        }
    }

    /// All input consumed?
    pub fn done(&self) -> (r: bool)
        ensures
            r == (self.cursor == self.fragments@.len()),
    {
        self.cursor == self.fragments.len()
    }

    /// Have the budgets been ground down to nothing?  Once this holds the
    /// feed cannot be queried with this protocol and the whole query fails.
    pub fn exhausted(&self) -> (r: bool)
        ensures
            r == (self.max_batch_size == 0 || self.max_url_len < 100),
    {
        self.max_batch_size == 0 || self.max_url_len < 100
    }

    /// Assemble the next request: fragments joined by the delimiter until the
    /// URL length budget, the batch budget or the input runs out, then the
    /// terminator.  The batch taken is recorded as pending until its response
    /// is handed to `apply_response`.
    pub fn next_batch(&mut self) -> (r: Result<(String, u32), String>)
        requires
            old(self).wf(),
            old(self).pending is None,
            old(self).cursor < old(self).fragments@.len(),
            old(self).max_batch_size >= 1,
        ensures
            final(self).wf(),
            final(self).base == old(self).base,
            final(self).delim == old(self).delim,
            final(self).terminator == old(self).terminator,
            final(self).fragments == old(self).fragments,
            final(self).max_batch_size == old(self).max_batch_size,
            final(self).max_url_len == old(self).max_url_len,
            final(self).cursor == old(self).cursor,
            match r {
                Ok((query, size)) => {
                    &&& spec_plan_batch(
                        old(self).base@,
                        old(self).fragments.deep_view(),
                        old(self).delim@,
                        old(self).cursor as int,
                        1,
                        old(self).max_batch_size as int,
                        old(self).max_url_len as int,
                    ) == Some(size as int)
                    &&& query@ == spec_partial_query(
                        old(self).base@,
                        old(self).fragments.deep_view(),
                        old(self).delim@,
                        old(self).cursor as int,
                        size as int,
                    ) + old(self).terminator@
                    &&& 1 <= size <= old(self).max_batch_size
                    &&& old(self).cursor + size <= old(self).fragments@.len()
                    &&& final(self).pending == Some(size)
                },
                Err(e) => {
                    &&& spec_plan_batch(
                        old(self).base@,
                        old(self).fragments.deep_view(),
                        old(self).delim@,
                        old(self).cursor as int,
                        1,
                        old(self).max_batch_size as int,
                        old(self).max_url_len as int,
                    ) is None
                    &&& e@ == "failed to execute bulk query, invalid query url."@
                    &&& final(self).pending is None
                },
            },
    {
        let ghost basev = self.base@;
        let ghost fragsv = self.fragments.deep_view();
        let ghost delimv = self.delim@;
        let ghost c = self.cursor as int;
        let total = self.fragments.len();
        let mut query: String = self.base.clone();
        let mut size: u32 = 1;
        let mut idx: usize = self.cursor;
        proof {
            assert(self.fragments.deep_view()[idx as int] == self.fragments@[idx as int]@);
        }
        query.append(self.fragments[idx].as_str());
        idx += 1;
        proof {
            assert(query@ =~= spec_partial_query(basev, fragsv, delimv, c, 1));
        }
        loop
            invariant
                *self == *old(self),
                self.wf(),
                self.pending is None,
                total == self.fragments@.len(),
                basev == self.base@,
                fragsv == self.fragments.deep_view(),
                delimv == self.delim@,
                c == self.cursor,
                1 <= size <= self.max_batch_size,
                idx == c + size,
                idx <= self.fragments@.len(),
                query@ == spec_partial_query(basev, fragsv, delimv, c, size as int),
                spec_plan_batch(
                    basev,
                    fragsv,
                    delimv,
                    c,
                    1,
                    self.max_batch_size as int,
                    self.max_url_len as int,
                ) == spec_plan_batch(
                    basev,
                    fragsv,
                    delimv,
                    c,
                    size as int,
                    self.max_batch_size as int,
                    self.max_url_len as int,
                ),
            decreases self.fragments@.len() - idx,
        {
            let url_len = parse_url_len(query.as_str());
            match url_len {
                None => {
                    return Err("failed to execute bulk query, invalid query url.".to_owned());
                },
                Some(n) => {
                    if n > self.max_url_len || idx == self.fragments.len() || size
                        >= self.max_batch_size {
                        query.append(self.terminator.as_str());
                        self.pending = Some(size);
                        return Ok((query, size));
                    }
                },
            }
            query.append(self.delim.as_str());
            proof {
                assert(self.fragments.deep_view()[idx as int] == self.fragments@[idx as int]@);
            }
            query.append(self.fragments[idx].as_str());
            idx += 1;
            size += 1;
            proof {
                assert(query@ =~= spec_partial_query(basev, fragsv, delimv, c, size as int));
            }
        }
    }

    /// React to the response of the pending batch, mirroring the backoff
    /// protocol: 406 collapses the batch budget to one (bulk queries are not
    /// supported) and, being a client error itself, also halves the URL
    /// length budget; any other client error halves the URL length budget;
    /// an empty body shrinks the batch budget by one — each of those rewinds
    /// to the same starting index.  Anything else accepts the batch: the
    /// cursor advances past it and the body is the caller's to parse.
    ///
    /// Every retry strictly shrinks the combined budget (unless the URL
    /// budget is already exhausted) and every accepted batch advances the
    /// cursor, so a driving loop always reaches the end of its input or the
    /// fatal communication error after finitely many requests.
    pub fn apply_response(&mut self, status: u16, body_empty: bool) -> (r: BulkStep)
        requires
            old(self).wf(),
            old(self).pending is Some,
            old(self).max_batch_size >= 1,
        ensures
            final(self).wf(),
            final(self).base == old(self).base,
            final(self).delim == old(self).delim,
            final(self).terminator == old(self).terminator,
            final(self).fragments == old(self).fragments,
            final(self).pending is None,
            r == BulkStep::Retry && old(self).max_url_len >= 100 ==> spec_bulk_measure(
                *final(self),
            ) < spec_bulk_measure(*old(self)),
            r == BulkStep::Consume ==> final(self).cursor > old(self).cursor,
            status == 406 ==> {
                &&& r == BulkStep::Retry
                &&& final(self).max_batch_size == 1
                &&& final(self).max_url_len == old(self).max_url_len / 2
                &&& final(self).cursor == old(self).cursor
            },
            status != 406 && 400 <= status <= 499 ==> {
                &&& r == BulkStep::Retry
                &&& final(self).max_batch_size == old(self).max_batch_size
                &&& final(self).max_url_len == old(self).max_url_len / 2
                &&& final(self).cursor == old(self).cursor
            },
            !(400 <= status <= 499) && body_empty ==> {
                &&& r == BulkStep::Retry
                &&& final(self).max_batch_size == old(self).max_batch_size - 1
                &&& final(self).max_url_len == old(self).max_url_len
                &&& final(self).cursor == old(self).cursor
            },
            !(400 <= status <= 499) && !body_empty ==> {
                &&& r == BulkStep::Consume
                &&& final(self).max_batch_size == old(self).max_batch_size
                &&& final(self).max_url_len == old(self).max_url_len
                &&& final(self).cursor == old(self).cursor + old(self).pending->0
            },
    {
        let total = self.fragments.len();
        let pending = match self.pending {
            Some(size) => size,
            None => 0,  // unreachable under the precondition
        };
        self.pending = None;
        if status == 406 {
            // the server does not support bulk queries; a 406 is a client
            // error too, so the URL budget shrinks with it and repeated
            // 406 answers exhaust the backoff instead of spinning
            self.max_batch_size = 1;
            self.max_url_len = self.max_url_len / 2;
            return BulkStep::Retry;
        }
        if 400 <= status && status <= 499 {
            // client error: first try shrinking the query URL
            self.max_url_len = self.max_url_len / 2;
            return BulkStep::Retry;
        }
        if body_empty {
            // an empty body with a non-error status: shrink the batch
            self.max_batch_size = self.max_batch_size - 1;
            return BulkStep::Retry;
        }
        self.cursor = self.cursor + pending as usize;
        BulkStep::Consume
    }
}

} // verus!
