//! Batch data types and the per-request outcome decision.
//!
//! A batch is a fixed set of request descriptors, each carrying an opaque
//! target address and a unique index in `[0, n)`. One fetch attempt per
//! descriptor yields exactly one outcome record: the echoed index together
//! with the byte size of the response body, or the sentinel `-1` when the
//! request or the body read failed.

use vstd::prelude::*;

verus! {

/// One unit of work: an opaque target address and the position its result
/// occupies in the batch's result array.
#[derive(Clone)]
pub struct Request {
    pub url: String,
    pub number: usize,
}

/// One unit of result data: the originating request's index and a signed
/// size, where a non-negative value is the byte length of the fetched body
/// and `-1` means the request or the body read failed.
#[derive(Clone, Copy, PartialEq, Eq, Structural, Debug)]
pub struct ResultStruct {
    pub number: usize,
    pub size: isize,
}

impl ResultStruct {
    /// A record is well formed when its size is a byte count or the
    /// failure sentinel, never any other negative value.
    pub open spec fn wf(self) -> bool {
        self.size >= -1
    }

    /// A record is addressed to a result array of length `n` when its
    /// index falls inside that array.
    pub open spec fn addressed(self, n: nat) -> bool {
        self.number < n
    }
}

/// The outcome decision of one fetch attempt: a body read in full becomes
/// its byte length, any failure collapses to the sentinel `-1`.
///
/// `body_len` is `Some(k)` when the request succeeded and the whole body of
/// `k` bytes was read, `None` for every failure class (connection error,
/// transport error, body-read error): the caller performs the fetch and
/// reports only this.
pub fn fetch_outcome(number: usize, body_len: Option<usize>) -> (r: ResultStruct)
    requires
        body_len matches Some(k) ==> k <= isize::MAX,
    ensures
        r.number == number,
        body_len matches Some(k) ==> r.size == k,
        body_len is None ==> r.size == -1,
        r.wf(),
{
    match body_len {
        Some(k) => ResultStruct { number, size: k as isize },
        None => ResultStruct { number, size: -1 },
    }
}

/// Builds the batch: `n` request descriptors against one target, indexed
/// `0` to `n - 1` in order.
pub fn build_requests(url: &str, n: usize) -> (reqs: Vec<Request>)
    ensures
        reqs@.len() == n,
        forall|i: int| 0 <= i < n ==> (#[trigger] reqs@[i]).number == i,
        forall|i: int| 0 <= i < n ==> (#[trigger] reqs@[i]).url@ == url@,
{
    let mut reqs: Vec<Request> = Vec::new();
    let mut i: usize = 0;
    while i < n
        invariant
            i <= n,
            reqs@.len() == i,
            forall|j: int| 0 <= j < i ==> (#[trigger] reqs@[j]).number == j,
            forall|j: int| 0 <= j < i ==> (#[trigger] reqs@[j]).url@ == url@,
        decreases n - i,
    {
        reqs.push(Request { url: url.to_owned(), number: i });
        i = i + 1;
    }
    reqs
}

/// The pre-sized result array: `n` slots, every one at the neutral default
/// `0`, ready to receive one outcome per slot.
pub fn new_results(n: usize) -> (results: Vec<isize>)
    ensures
        results@.len() == n,
        forall|i: int| 0 <= i < n ==> results@[i] == 0isize,
{
    let mut results: Vec<isize> = Vec::new();
    let mut i: usize = 0;
    while i < n
        invariant
            i <= n,
            results@.len() == i,
            forall|j: int| 0 <= j < i ==> results@[j] == 0isize,
        decreases n - i,
    {
        results.push(0);
        i = i + 1;
    }
    results
}

} // verus!
