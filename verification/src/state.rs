//! The record of provisioned resources, and the decisions that surround its
//! storage: how often a contended lock is tried again, where a key-value
//! backend keeps a state, and what each of its replies means.

use vstd::prelude::*;
use crate::text::{chars_of, push_chars, reads, string_of, texts};

verus! {

/// The format tag that this version writes.
pub const STATE_VERSION: u32 = 1;

/// How many times a contended lock is tried again.
pub const LOCK_RETRIES: u32 = 3;

/// Seconds between two tries for a lock.
pub const RETRY_PAUSE_SECONDS: u64 = 1;

/// The record of the resources that are believed to exist.
pub struct State {
    /// The format tag.
    pub version: u32,
    /// The revision counter, advanced by whoever stores a new revision.
    pub serial: u64,
    /// Resource identifiers in the order in which they were provisioned.
    /// An identifier may occur more than once.
    pub resources: Vec<String>,
}

/// The mathematical content of a [`State`].
pub struct StateModel {
    pub version: u32,
    pub serial: u64,
    pub resources: Seq<Seq<char>>,
}

impl View for State {
    type V = StateModel;

    open spec fn view(&self) -> StateModel {
        StateModel {
            version: self.version,
            serial: self.serial,
            resources: texts(self.resources@),
        }
    }
}

/// The position of the first `x` in `s`, which holds one.
pub open spec fn first_position(s: Seq<Seq<char>>, x: Seq<char>) -> int
    decreases s.len(),
{
    if s.len() == 0 || s[0] == x {
        0
    } else {
        1 + first_position(s.drop_first(), x)
    }
}

/// `s` with its first `from` replaced by `to`, or `s` itself if it holds
/// no `from`.
pub open spec fn replaced_first(s: Seq<Seq<char>>, from: Seq<char>, to: Seq<char>) -> Seq<
    Seq<char>,
> {
    if s.contains(from) {
        s.update(first_position(s, from), to)
    } else {
        s
    }
}

/// The first position of `x` is the one before which no `x` stands.
pub proof fn lemma_first_position(s: Seq<Seq<char>>, x: Seq<char>, i: int)
    requires
        0 <= i < s.len(),
        s[i] == x,
        forall|j: int| 0 <= j < i ==> s[j] != x,
    ensures
        first_position(s, x) == i,
        s.contains(x),
    decreases s.len(),
{
    if i > 0 {
        let t = s.drop_first();
        assert forall|j: int| 0 <= j < i - 1 implies t[j] != x by {
            assert(t[j] == s[j + 1]);
        }
        lemma_first_position(t, x, i - 1);
    }
}

/// The content of a state that records nothing.
pub open spec fn empty_state() -> StateModel {
    StateModel { version: 1, serial: 0, resources: Seq::empty() }
}

impl State {
    /// A state that records nothing: version 1, serial 0, no resources.
    pub fn new() -> (r: State)
        ensures
            r@ == empty_state(),
            r.resources@.len() == 0,
    {
        let r = State { version: STATE_VERSION, serial: 0, resources: Vec::new() };
        assert(texts(r.resources@) =~= Seq::<Seq<char>>::empty());
        r
    }

    /// Records `id` behind the resources already recorded.
    pub fn record(&mut self, id: String)
        ensures
            final(self)@ == (StateModel {
                resources: old(self)@.resources.push(id@),
                ..old(self)@
            }),
    {
        self.resources.push(id);
        assert(texts(self.resources@) =~= texts(old(self).resources@).push(id@));
    }

    /// Replaces the first record of `from` by `to` and says whether there
    /// was one. Without a record of `from` the state stays as it is.
    pub fn replace_first(&mut self, from: &str, to: &str) -> (r: bool)
        ensures
            r == old(self)@.resources.contains(from@),
            final(self)@ == (StateModel {
                resources: replaced_first(old(self)@.resources, from@, to@),
                ..old(self)@
            }),
    {
        let mut i: usize = 0;
        while i < self.resources.len()
            invariant
                i <= self.resources.len(),
                *self == *old(self),
                forall|j: int| 0 <= j < i ==> self@.resources[j] != from@,
            decreases self.resources.len() - i,
        {
            if reads(self.resources[i].as_str(), from) {
                let ghost before = self@.resources;
                proof {
                    lemma_first_position(before, from@, i as int);
                }
                self.resources.set(i, to.to_owned());
                assert(self@.resources =~= before.update(i as int, to@));
                return true;
            }
            i = i + 1;
        }
        proof {
            let all = self@.resources;
            if all.contains(from@) {
                let k = choose|k: int| 0 <= k < all.len() && all[k] == from@;
                assert(all[k] != from@);
            }
        }
        false
    }

    /// Stamps the next revision. The counter stays where it is once it has
    /// reached the largest value it can hold.
    pub fn advance(&mut self)
        ensures
            final(self)@ == (StateModel {
                serial: if old(self)@.serial < u64::MAX {
                    (old(self)@.serial + 1) as u64
                } else {
                    u64::MAX
                },
                ..old(self)@
            }),
    {
        if self.serial < u64::MAX {
            self.serial = self.serial + 1;
        }
    }
}

/// Why a state could not be read or written.
#[derive(Clone, Copy, Debug, PartialEq, Eq, Structural)]
pub enum StateError {
    /// The lock on the local file was not obtained within the allowed tries.
    LockTimeout,
    /// A write did not reach the remote backend (`None`), or the backend
    /// answered it with the given status, which is no success.
    RemoteUnavailable(Option<u16>),
}

/// How one try of a locked read or write ended.
#[derive(Clone, Copy, Debug, PartialEq, Eq, Structural)]
pub enum TryOutcome {
    /// The try did its work.
    Succeeded,
    /// The lock was held by someone else.
    Contended,
    /// The try failed for another reason, such as content that does not
    /// parse.
    Failed,
}

/// What to do after one try of a locked read or write.
#[derive(Clone, Copy, Debug, PartialEq, Eq, Structural)]
pub enum RetryAction {
    /// The try succeeded: hand its result on.
    Done,
    /// The try failed: pause, then try again.
    PauseThenRetry,
    /// The lock was contended and no tries are left: report the error.
    Fail(StateError),
    /// The try failed for a reason that another try would not mend:
    /// report the try's own failure at once.
    ReportFailure,
}

/// Counts the pauses of one locked read or write.
pub struct RetryPolicy {
    retries: u32,
    failures: u32,
}

impl RetryPolicy {
    /// How many times a try that found the lock contended is repeated.
    pub closed spec fn retries(&self) -> u32 {
        self.retries
    }

    /// How many tries so far were followed by a pause and another try.
    /// The try after which the policy gives up is not counted.
    pub closed spec fn failures(&self) -> u32 {
        self.failures
    }

    /// No more tries are repeated than the policy allows.
    #[verifier::type_invariant]
    spec fn well_formed(&self) -> bool {
        self.failures <= self.retries
    }

    /// A policy that repeats a contended try up to `retries` times.
    pub fn new(retries: u32) -> (r: RetryPolicy)
        ensures
            r.retries() == retries,
            r.failures() == 0,
    {
        RetryPolicy { retries, failures: 0 }
    }

    /// The policy for the local state file.
    pub fn for_lock() -> (r: RetryPolicy)
        ensures
            r.retries() == LOCK_RETRIES,
            r.failures() == 0,
    {
        RetryPolicy::new(LOCK_RETRIES)
    }

    /// Takes note of how a try ended and says how to go on. A success ends
    /// the operation. A contended lock is followed by a pause and another
    /// try as long as fewer than `retries` tries were repeated before; after
    /// that the operation fails with `LockTimeout`. Any other failure ends
    /// the operation at once and is never tried again.
    pub fn on_try(&mut self, outcome: TryOutcome) -> (r: RetryAction)
        ensures
            final(self).retries() == old(self).retries(),
            outcome == TryOutcome::Succeeded ==> r == RetryAction::Done && final(self).failures()
                == old(self).failures(),
            outcome == TryOutcome::Failed ==> r == RetryAction::ReportFailure
                && final(self).failures() == old(self).failures(),
            outcome == TryOutcome::Contended && old(self).failures() < old(self).retries() ==> r
                == RetryAction::PauseThenRetry && final(self).failures() == old(self).failures()
                + 1,
            outcome == TryOutcome::Contended && old(self).failures() >= old(self).retries() ==> r
                == RetryAction::Fail(StateError::LockTimeout)
                && final(self).failures() == old(self).failures(),
    {
        match outcome {
            TryOutcome::Succeeded => self.on_outcome(true),
            TryOutcome::Contended => self.on_outcome(false),
            TryOutcome::Failed => RetryAction::ReportFailure,
        }
    }

    /// Takes note of a try that either succeeded or found the lock
    /// contended, and says how to go on: see [`RetryPolicy::on_try`], which
    /// also takes failures of other kinds.
    pub fn on_outcome(&mut self, success: bool) -> (r: RetryAction)
        ensures
            final(self).retries() == old(self).retries(),
            success ==> r == RetryAction::Done && final(self).failures() == old(self).failures(),
            !success && old(self).failures() < old(self).retries() ==> r
                == RetryAction::PauseThenRetry && final(self).failures() == old(self).failures()
                + 1,
            !success && old(self).failures() >= old(self).retries() ==> r == RetryAction::Fail(
                StateError::LockTimeout,
            ) && final(self).failures() == old(self).failures(),
    {
        proof {
            use_type_invariant(&*self);
        }
        if success {
            RetryAction::Done
        } else if self.failures < self.retries {
            self.failures = self.failures + 1;
            RetryAction::PauseThenRetry
        } else {
            RetryAction::Fail(StateError::LockTimeout)
        }
    }
}

/// The address of `key` in a key-value backend at `endpoint`.
pub open spec fn kv_address(endpoint: Seq<char>, key: Seq<char>) -> Seq<char> {
    endpoint + "/v1/kv/"@ + key
}

/// The address from which the raw content of `key` is read.
pub open spec fn kv_raw_address(endpoint: Seq<char>, key: Seq<char>) -> Seq<char> {
    kv_address(endpoint, key) + "?raw"@
}

/// The address to which a state is written.
pub fn kv_write_url(endpoint: &str, key: &str) -> (r: String)
    ensures
        r@ == kv_address(endpoint@, key@),
{
    let mut url = chars_of(endpoint);
    let infix = chars_of("/v1/kv/");
    push_chars(&mut url, &infix);
    let tail = chars_of(key);
    push_chars(&mut url, &tail);
    string_of(&url)
}

/// The address from which a state is read.
pub fn kv_read_url(endpoint: &str, key: &str) -> (r: String)
    ensures
        r@ == kv_raw_address(endpoint@, key@),
{
    let mut url = chars_of(endpoint);
    let infix = chars_of("/v1/kv/");
    push_chars(&mut url, &infix);
    let tail = chars_of(key);
    push_chars(&mut url, &tail);
    let suffix = chars_of("?raw");
    push_chars(&mut url, &suffix);
    string_of(&url)
}

/// Whether an HTTP status reports success.
pub open spec fn is_success(status: u16) -> bool {
    200 <= status < 300
}

/// What the status of the answer to a write means: any success status is
/// a success, every other status fails the write.
pub fn write_verdict(status: u16) -> (r: Result<(), StateError>)
    ensures
        is_success(status) ==> r == Ok::<(), StateError>(()),
        !is_success(status) ==> r == Err::<(), StateError>(
            StateError::RemoteUnavailable(Some(status)),
        ),
{
    if 200 <= status && status < 300 {
        Ok(())
    } else {
        Err(StateError::RemoteUnavailable(Some(status)))
    }
}

/// The outcome of a write: `reply` is the status of the answer, or `None`
/// when no connection could be made. Only a success status is a success.
pub open spec fn write_remote_spec(reply: Option<u16>) -> Result<(), StateError> {
    match reply {
        Some(status) => if is_success(status) {
            Ok(())
        } else {
            Err(StateError::RemoteUnavailable(reply))
        },
        None => Err(StateError::RemoteUnavailable(reply)),
    }
}

/// Completes a write to a key-value backend: `reply` is the status of the
/// answer, or `None` when no connection could be made. A write that was
/// refused or did not arrive fails; it does not degrade as a read does.
pub fn write_remote(reply: Option<u16>) -> (r: Result<(), StateError>)
    ensures
        r == write_remote_spec(reply),
        r is Ok <==> (reply matches Some(status) && is_success(status)),
{
    match reply {
        Some(status) => write_verdict(status),
        None => Err(StateError::RemoteUnavailable(None)),
    }
}

/// What to do with the reply to a read.
#[derive(Clone, Copy, Debug, PartialEq, Eq, Structural)]
pub enum ReadVerdict {
    /// The reply carries a state: decode its body.
    Decode,
    /// Nothing is stored, the backend refused, or it could not be reached:
    /// start from a state that records nothing.
    Fresh,
}

/// The verdict on a read: `reply` is the status of the answer, or `None`
/// when no connection could be made. Only a success status carries a
/// state.
pub open spec fn read_verdict_spec(reply: Option<u16>) -> ReadVerdict {
    match reply {
        Some(status) => if is_success(status) {
            ReadVerdict::Decode
        } else {
            ReadVerdict::Fresh
        },
        None => ReadVerdict::Fresh,
    }
}

/// Decides what the reply to a read means. An absent key, a refusal and
/// an unreachable backend all lead to a fresh state, never to an error.
pub fn read_verdict(reply: Option<u16>) -> (r: ReadVerdict)
    ensures
        r == read_verdict_spec(reply),
{
    match reply {
        Some(status) => {
            if 200 <= status && status < 300 {
                ReadVerdict::Decode
            } else {
                ReadVerdict::Fresh
            }
        },
        None => ReadVerdict::Fresh,
    }
}

/// The model of a state, or of the error in its place.
pub open spec fn state_result(r: Result<State, StateError>) -> Result<StateModel, StateError> {
    match r {
        Ok(s) => Ok(s@),
        Err(e) => Err(e),
    }
}

/// The state that a read yields: the decoded body where the reply carries
/// one, and the state that records nothing in every other case.
pub open spec fn read_remote_spec(
    reply: Option<u16>,
    decoded: StateModel,
) -> Result<StateModel, StateError> {
    match read_verdict_spec(reply) {
        ReadVerdict::Decode => Ok(decoded),
        ReadVerdict::Fresh => Ok(empty_state()),
    }
}

/// Completes a read from a key-value backend: `reply` is the status of the
/// answer, or `None` when no connection could be made, and `decoded` is the
/// state that the body of a successful answer holds. The read never fails
/// on account of the reply.
pub fn read_remote(reply: Option<u16>, decoded: State) -> (r: Result<State, StateError>)
    ensures
        state_result(r) == read_remote_spec(reply, decoded@),
        r is Ok,
{
    match read_verdict(reply) {
        ReadVerdict::Decode => Ok(decoded),
        ReadVerdict::Fresh => Ok(State::new()),
    }
}

/// Reading an absent key yields the state that records nothing.
pub proof fn lemma_absent_key_reads_empty(decoded: StateModel)
    ensures
        read_remote_spec(Some(404u16), decoded) == Ok::<StateModel, StateError>(empty_state()),
{
}

/// A read degrades and never fails: whenever the reply is no success, be
/// it a refusal or no reply at all, it yields the state that records
/// nothing.
pub proof fn lemma_read_degrades(reply: Option<u16>, decoded: StateModel)
    requires
        !(reply matches Some(status) && is_success(status)),
    ensures
        read_remote_spec(reply, decoded) == Ok::<StateModel, StateError>(empty_state()),
{
}

} // verus!
