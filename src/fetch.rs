use vstd::prelude::*;
use vstd::arithmetic::power2::{pow2, lemma2_to64, lemma2_to64_rest, lemma_pow2_strictly_increases};
use crate::error::{AppError, ErrorKind};
use crate::text::{decimal, decimal_text, join2};

verus! {

/// Number of attempts a request gets before it is given up.
pub const MAX_ATTEMPTS: u32 = 3;

/// Time limit of each attempt, in seconds.
pub const TIMEOUT_SECS: u64 = 15;

/// Seconds to wait after failed attempt number `attempt`: 1, 2, 4, ...
pub open spec fn backoff_secs(attempt: nat) -> nat {
    if attempt == 0 {
        1
    } else {
        pow2((attempt - 1) as nat)
    }
}

/// Wait before the next attempt, in seconds: `2^(attempt - 1)`, and 1 for attempt 0.
pub fn backoff_duration(attempt: u32) -> (r: u64)
    requires
        attempt <= 64,
    ensures
        r == backoff_secs(attempt as nat),
{
    let e: u32 = if attempt == 0 {
        0
    } else {
        attempt - 1
    };
    let mut r: u64 = 1;
    let mut i: u32 = 0;
    proof {
        lemma2_to64();
        lemma2_to64_rest();
    }
    while i < e
        invariant
            i <= e <= 63,
            r == pow2(i as nat),
            pow2(63) == 0x8000000000000000,
        decreases e - i,
    {
        proof {
            lemma_pow2_strictly_increases(i as nat, 63);
        }
        r = r * 2;
        i = i + 1;
        proof {
            vstd::arithmetic::power2::lemma_pow2_unfold(i as nat);
        }
    }
    assert(attempt > 0 ==> e as nat == (attempt - 1) as nat);
    r
}

/// What one attempt of a request came to.
pub enum AttemptOutcome {
    /// The server answered with this HTTP status.
    Status(u16),
    /// No answer (connection failure or timeout); the text describes the failure.
    Transport(String),
}

/// What to do after an attempt.
pub enum AttemptStep {
    /// The answer is usable: read its body.
    Success,
    /// Wait this many seconds, then try again.
    Retry { backoff_secs: u64 },
    /// Give the request up with this error.
    Fail(AppError),
}

pub open spec fn is_success_status(s: u16) -> bool {
    200 <= s < 300
}

/// Message of a request the server refused with 401.
pub open spec fn unauthorized_message() -> Seq<char> {
    "the API answered 401 Unauthorized: configure an access token"@
}

pub open spec fn outcome_detail(o: AttemptOutcome) -> Seq<char> {
    match o {
        AttemptOutcome::Status(s) => "status="@ + decimal(s as nat),
        AttemptOutcome::Transport(e) => "error="@ + e@,
    }
}

/// Message of a request given up after `attempts` attempts.
pub open spec fn failure_message(url: Seq<char>, o: AttemptOutcome, attempts: nat) -> Seq<char> {
    "request failed: url="@ + url + " "@ + outcome_detail(o) + " attempt="@ + decimal(attempts)
}

/// Attempts made so far on one request.
pub struct RetryState {
    pub attempt: u32,
}

impl RetryState {
    pub fn new() -> (r: Self)
        ensures
            r.attempt == 0,
    {
        RetryState { attempt: 0 }
    }

    /// Records the outcome of the next attempt and says what follows.
    ///
    /// A 2xx status succeeds; 401 fails at once; any other outcome is retried,
    /// after `backoff_secs(attempt)` seconds, until `MAX_ATTEMPTS` attempts are used.
    pub fn record(&mut self, url: &str, outcome: &AttemptOutcome) -> (r: AttemptStep)
        requires
            old(self).attempt < MAX_ATTEMPTS,
        ensures
            final(self).attempt == old(self).attempt + 1,
            match *outcome {
                AttemptOutcome::Status(s) if is_success_status(s) => r is Success,
                AttemptOutcome::Status(401) => r matches AttemptStep::Fail(e)
                    && e.kind == ErrorKind::Network && e.message@ == unauthorized_message(),
                _ => if final(self).attempt < MAX_ATTEMPTS {
                    r == AttemptStep::Retry {
                        backoff_secs: backoff_secs(final(self).attempt as nat) as u64,
                    }
                } else {
                    r matches AttemptStep::Fail(e) && e.kind == ErrorKind::Network
                        && e.message@ == failure_message(url@, *outcome, final(self).attempt as nat)
                },
            },
    {
        self.attempt = self.attempt + 1;
        if let AttemptOutcome::Status(s) = outcome {
            if 200 <= *s && *s < 300 {
                return AttemptStep::Success;
            }
            if *s == 401 {
                return AttemptStep::Fail(AppError::network(String::from_str("the API answered 401 Unauthorized: configure an access token")));
            }
        }
        if self.attempt < MAX_ATTEMPTS {
            AttemptStep::Retry { backoff_secs: backoff_duration(self.attempt) }
        } else {
            let detail = match outcome {
                AttemptOutcome::Status(s) => join2("status=", decimal_text(*s as u64).as_str()),
                AttemptOutcome::Transport(e) => join2("error=", e.as_str()),
            };
            let msg = join2("request failed: url=", url).concat(" ").concat(detail.as_str()).concat(
                " attempt=",
            ).concat(decimal_text(self.attempt as u64).as_str());
            AttemptStep::Fail(AppError::network(msg))
        }
    }
}

/// Sum of a sequence of page sizes.
pub open spec fn sum_pages(s: Seq<nat>) -> nat
    decreases s.len(),
{
    if s.len() == 0 {
        0
    } else {
        sum_pages(s.drop_last()) + s.last()
    }
}

/// `n` capped at the largest `u32`.
pub open spec fn saturate(n: nat) -> nat {
    if n > u32::MAX {
        u32::MAX as nat
    } else {
        n
    }
}

/// What to do next while counting the items of a paginated list.
#[derive(Debug, PartialEq, Eq, Structural)]
pub enum PageStep {
    /// Fetch this page (numbered from 1).
    Fetch { page: u32 },
    /// Counting is over. `capped` is set when the page limit was reached
    /// without a short page, so that `total` is only a lower bound.
    Finished { total: u32, capped: bool },
}

/// Counts the items of a list served `per_page` at a time, reading at most
/// `max_pages` pages and stopping at the first page shorter than `per_page`.
pub struct LikesPager {
    pub per_page: u32,
    pub max_pages: u32,
    pub fetched: u32,
    pub total: u32,
    pub finished: bool,
    /// Sizes of the pages recorded so far, in order.
    pub sizes: Ghost<Seq<nat>>,
}

impl LikesPager {
    /// The running total is the saturated sum of the page sizes seen; no page
    /// beyond `max_pages` was read, and every page but the last was full.
    pub open spec fn wf(&self) -> bool {
        &&& self.total == saturate(sum_pages(self.sizes@))
        &&& self.fetched == self.sizes@.len()
        &&& self.sizes@.len() <= self.max_pages
        &&& forall|i: int| 0 <= i < self.sizes@.len() - 1 ==> self.sizes@[i] >= self.per_page
        &&& !self.finished ==> (self.sizes@.len() < self.max_pages && forall|i: int|
            0 <= i < self.sizes@.len() ==> self.sizes@[i] >= self.per_page)
        &&& self.finished ==> (self.sizes@.len() == self.max_pages || (self.sizes@.len() > 0
            && self.sizes@.last() < self.per_page))
    }

    pub fn new(per_page: u32, max_pages: u32) -> (r: Self)
        ensures
            r.wf(),
            r.per_page == per_page,
            r.max_pages == max_pages,
            r.sizes@ == Seq::<nat>::empty(),
            r.finished == (max_pages == 0),
    {
        LikesPager { per_page, max_pages, fetched: 0, total: 0, finished: max_pages == 0, sizes: Ghost(Seq::empty()) }
    }

    /// The first step: fetch page 1, or finish at once when no page may be read.
    pub fn first_step(&self) -> (r: PageStep)
        requires
            self.wf(),
            self.sizes@.len() == 0,
        ensures
            r == (if self.max_pages == 0 {
                PageStep::Finished { total: 0, capped: true }
            } else {
                PageStep::Fetch { page: 1 }
            }),
    {
        if self.max_pages == 0 {
            PageStep::Finished { total: 0, capped: true }
        } else {
            PageStep::Fetch { page: 1 }
        }
    }

    /// Records the size of the page just fetched and says what follows.
    pub fn record_page(&mut self, items: usize) -> (r: PageStep)
        requires
            old(self).wf(),
            !old(self).finished,
        ensures
            final(self).wf(),
            final(self).sizes@ == old(self).sizes@.push(items as nat),
            final(self).per_page == old(self).per_page,
            final(self).max_pages == old(self).max_pages,
            final(self).total == saturate((old(self).total + items) as nat),
                        r == (if items < old(self).per_page {
                PageStep::Finished { total: final(self).total, capped: false }
            } else if final(self).sizes@.len() == old(self).max_pages {
                PageStep::Finished { total: final(self).total, capped: true }
            } else {
                PageStep::Fetch { page: (final(self).sizes@.len() + 1) as u32 }
            }),
            final(self).finished == !(r is Fetch),
    {
        let ghost old_sizes = self.sizes@;
        let room: u32 = u32::MAX - self.total;
        if items as u64 >= room as u64 {
            self.total = u32::MAX;
        } else {
            self.total = self.total + items as u32;
        }
        self.sizes = Ghost(self.sizes@.push(items as nat));
        assert(self.sizes@.drop_last() =~= old_sizes);
        self.fetched = self.fetched + 1;
        let fetched = self.fetched;
        if items < self.per_page as usize {
            self.finished = true;
            PageStep::Finished { total: self.total, capped: false }
        } else if fetched == self.max_pages {
            self.finished = true;
            PageStep::Finished { total: self.total, capped: true }
        } else {
            PageStep::Fetch { page: fetched + 1 }
        }
    }
}

} // verus!
