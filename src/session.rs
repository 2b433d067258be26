use vstd::prelude::*;
use vstd::string::StringExecFns;
use crate::chunker::{ChunkerModel, StreamChunker};
use crate::pool::ResourcePool;
use crate::parts::{
    lemma_part_count, lemma_parts_reassemble, part_count, parts_well_shaped, split_parts,
};
use crate::registry::{
    covers_exactly, has_part, ordered_from, part_list, CompletedPart, ConsistencyError, PartRegistry,
};

verus! {

/// The smallest part the store accepts, and the default part size.
pub const DEFAULT_PART_SIZE: usize = 5 * 1024 * 1024;

/// Default bound on part uploads running at the same time.
pub const DEFAULT_MAX_CONCURRENCY: usize = 10;

/// The key an object is stored under: `prefix/file_key`.
pub fn object_key(prefix: &str, file_key: &str) -> (r: String)
    ensures
        r@ == prefix@ + seq!['/'] + file_key@,
{
    let mut key = String::from_str(prefix);
    proof {
        reveal_strlit("/");
    }
    key.append("/");
    key.append(file_key);
    key
}

/// How an upload cuts its source and how many parts it sends at once.
pub struct UploadOptions {
    pub part_size: usize,
    pub max_concurrency: usize,
}

impl Default for UploadOptions {
    fn default() -> (r: UploadOptions)
        ensures
            r.part_size == DEFAULT_PART_SIZE,
            r.max_concurrency == DEFAULT_MAX_CONCURRENCY,
    {
        UploadOptions { part_size: DEFAULT_PART_SIZE, max_concurrency: DEFAULT_MAX_CONCURRENCY }
    }
}

/// Where a multipart upload session stands. States only move forward:
/// `Created`, `Initiating`, `Initiated`, `InProgress`, then `Completing` or
/// `Aborting`, and finally one of `Completed`, `Aborted`, `Failed`.
#[derive(Clone, Copy, Debug, PartialEq, Eq, Structural)]
pub enum SessionState {
    /// Nothing asked of the store yet.
    Created,
    /// The session is being opened on the store.
    Initiating,
    /// The store gave an upload identifier; no part sent yet.
    Initiated,
    /// At least one part has been sent.
    InProgress,
    /// The ordered part list was handed to the store.
    Completing,
    /// The store was asked to drop the session.
    Aborting,
    /// The object is assembled on the store.
    Completed,
    /// The session was dropped after a failure.
    Aborted,
    /// Opening or completing the session failed; no abort was asked for.
    Failed,
}

impl SessionState {
    pub open spec fn rank(self) -> nat {
        match self {
            SessionState::Created => 0,
            SessionState::Initiating => 1,
            SessionState::Initiated => 2,
            SessionState::InProgress => 3,
            SessionState::Completing => 4,
            SessionState::Aborting => 4,
            SessionState::Completed => 5,
            SessionState::Aborted => 5,
            SessionState::Failed => 5,
        }
    }

    pub open spec fn is_terminal(self) -> bool {
        self.rank() == 5
    }
}

/// What went wrong with an upload.
pub enum UploadError {
    /// The store refused to open the session; nothing exists on it.
    InitiateFailed(String),
    /// Reading the source failed.
    SourceRead(String),
    /// The store refused a part.
    PartUpload { part_number: u64, message: String },
    /// The acknowledged parts do not match the parts sent.
    Consistency(ConsistencyError),
    /// Completing failed after every part was stored: those parts remain on
    /// the store and may need to be cleaned up from outside.
    CompleteFailed(String),
}

/// The outcome of a failed upload: the error that ended it, and the error of
/// the abort call that followed, if that call failed too.
pub struct UploadFailure {
    pub error: UploadError,
    pub abort_error: Option<String>,
}

/// The object that a completed upload created.
pub struct ObjectDescriptor {
    pub key: String,
    pub e_tag: Option<String>,
}

/// The next thing the caller has to do for the upload.
pub enum Action {
    /// Open a multipart upload for `key`; answer with `on_initiated` or
    /// `on_initiate_failed`.
    Initiate { key: String },
    /// Read at most `max_bytes` from the source; answer with `on_read` or
    /// `on_read_failed`.
    Read { max_bytes: usize },
    /// Start uploading a part without waiting for it; answer later with
    /// `on_part_uploaded` or `on_part_failed`.
    UploadPart { upload_id: String, part_number: u64, bytes: Vec<u8> },
    /// Complete the upload with these parts; answer with `on_completed` or
    /// `on_complete_failed`.
    Complete { upload_id: String, parts: Vec<CompletedPart> },
    /// Abort the upload; answer with `on_aborted` or `on_abort_failed`.
    Abort { upload_id: String },
    /// Wait until an outstanding part upload returns, and report it.
    Wait,
    /// The upload is over: take the result with `into_result`.
    Finished,
}

/// The state of an upload as the contracts see it.
pub struct UploaderModel {
    pub key: Seq<char>,
    pub max_concurrency: nat,
    pub state: SessionState,
    pub upload_id: Seq<char>,
    /// What was read from the source and how it was cut.
    pub source: ChunkerModel,
    /// Part numbers sent and not yet answered for.
    pub in_flight: Seq<u64>,
    /// Part numbers whose upload has returned, successfully or not.
    pub settled: Set<nat>,
    /// Acknowledged parts with their tokens, in order of arrival.
    pub recorded: Seq<(u64, Seq<char>)>,
    /// The first error; it decides the outcome.
    pub failure: Option<UploadError>,
    /// Some part upload has failed.
    pub part_failed: bool,
    pub abort_error: Option<String>,
    pub object: Option<ObjectDescriptor>,
    /// How many times each remote session call was asked for.
    pub initiate_calls: nat,
    pub complete_calls: nat,
    pub abort_calls: nat,
}

impl UploaderModel {
    /// Parts may be read and sent.
    pub open spec fn active(self) -> bool {
        self.state is Initiated || self.state is InProgress
    }

    /// A new piece of the source is welcome.
    pub open spec fn accepts_source(self) -> bool {
        self.active() && self.failure is None && !self.source.at_eof
    }

    /// Another part upload may start.
    pub open spec fn has_slot(self) -> bool {
        self.in_flight.len() < self.max_concurrency
    }

    /// The same upload once the abort call has been asked for.
    pub open spec fn aborting(self) -> UploaderModel {
        UploaderModel { state: SessionState::Aborting, abort_calls: 1, ..self }
    }

    /// The parts sent so far: part `n` holds `sent()[n - 1]`.
    pub open spec fn sent(self) -> Seq<Seq<u8>> {
        self.source.emitted
    }

    /// What holds of every upload between calls.
    pub open spec fn wf(self) -> bool {
        &&& self.source.wf()
        &&& self.max_concurrency > 0
        &&& self.in_flight.no_duplicates()
        &&& self.in_flight.len() <= self.max_concurrency
        &&& forall|i: int|
            0 <= i < self.in_flight.len() ==> 1 <= #[trigger] self.in_flight[i]
                <= self.sent().len()
        &&& forall|n: nat| #[trigger] self.settled.contains(n) ==> 1 <= n <= self.sent().len()
        &&& forall|n: nat|
            1 <= n <= self.sent().len() ==> (#[trigger] self.settled.contains(n)
                <==> !self.in_flight.contains(n as u64))
        &&& (self.state is Created <==> self.initiate_calls == 0)
        &&& self.initiate_calls <= 1
        &&& self.sent().len() > 0 ==> self.state.rank() >= 3
        &&& self.in_flight.len() > 0 ==> self.state is InProgress
        &&& self.complete_calls == if self.state is Completing || self.state is Completed || (
        self.state is Failed && self.failure matches Some(UploadError::CompleteFailed(_))) {
            1nat
        } else {
            0nat
        }
        &&& self.abort_calls == if self.state is Aborting || self.state is Aborted {
            1nat
        } else {
            0nat
        }
        &&& self.part_failed ==> self.failure is Some && (self.state is InProgress
            || self.state is Aborting || self.state is Aborted)
        &&& (self.state is Completing || self.state is Completed) ==> {
            &&& self.failure is None
            &&& self.source.finished()
            &&& self.in_flight.len() == 0
        }
        &&& self.state is Completed ==> self.object is Some
        &&& self.failure is None ==> {
            &&& self.recorded.len() + self.in_flight.len() == self.sent().len()
            &&& forall|k: nat|
                1 <= k <= self.sent().len() && #[trigger] self.settled.contains(k) ==> has_part(
                    self.recorded,
                    k,
                )
        }
        &&& (self.state is Aborting || self.state is Aborted || self.state is Failed)
            ==> self.failure is Some
    }
}

/// Drives one multipart upload: decides, from what the caller reports, which
/// remote call or source read comes next.
pub struct Uploader {
    key: String,
    state: SessionState,
    upload_id: String,
    chunker: StreamChunker,
    pool: ResourcePool,
    registry: PartRegistry,
    failure: Option<UploadError>,
    part_failed: bool,
    abort_error: Option<String>,
    object: Option<ObjectDescriptor>,
    settled: Ghost<Set<nat>>,
    initiate_calls: Ghost<nat>,
    complete_calls: Ghost<nat>,
    abort_calls: Ghost<nat>,
}

impl View for Uploader {
    type V = UploaderModel;

    closed spec fn view(&self) -> UploaderModel {
        UploaderModel {
            key: self.key@,
            max_concurrency: self.pool@.capacity,
            state: self.state,
            upload_id: self.upload_id@,
            source: self.chunker@,
            in_flight: self.pool@.held,
            settled: self.settled@,
            recorded: self.registry@,
            failure: self.failure,
            part_failed: self.part_failed,
            abort_error: self.abort_error,
            object: self.object,
            initiate_calls: self.initiate_calls@,
            complete_calls: self.complete_calls@,
            abort_calls: self.abort_calls@,
        }
    }
}

/// Settling an outstanding part keeps the book of outstanding and settled
/// parts in agreement.
proof fn lemma_settle(
    in_flight: Seq<u64>,
    after: Seq<u64>,
    settled: Set<nat>,
    sent: nat,
    part_number: u64,
)
    requires
        sent < u64::MAX,
        in_flight.contains(part_number),
        forall|i: int| 0 <= i < in_flight.len() ==> 1 <= #[trigger] in_flight[i] <= sent,
        forall|n: nat| #[trigger] settled.contains(n) ==> 1 <= n <= sent,
        forall|n: nat|
            1 <= n <= sent ==> (#[trigger] settled.contains(n) <==> !in_flight.contains(n as u64)),
        forall|y: u64| after.contains(y) <==> (in_flight.contains(y) && y != part_number),
    ensures
        forall|i: int| 0 <= i < after.len() ==> 1 <= #[trigger] after[i] <= sent,
        forall|n: nat|
            #[trigger] settled.insert(part_number as nat).contains(n) ==> 1 <= n <= sent,
        forall|n: nat|
            1 <= n <= sent ==> (#[trigger] settled.insert(part_number as nat).contains(n)
                <==> !after.contains(n as u64)),
{
    let j = choose|j: int| 0 <= j < in_flight.len() && in_flight[j] == part_number;
    assert(1 <= in_flight[j] <= sent);
    assert forall|i: int| 0 <= i < after.len() implies 1 <= #[trigger] after[i] <= sent by {
        assert(after.contains(after[i]));
        let k = choose|k: int| 0 <= k < in_flight.len() && in_flight[k] == after[i];
        assert(1 <= in_flight[k] <= sent);
    }
    assert forall|n: nat|
        1 <= n <= sent implies (#[trigger] settled.insert(part_number as nat).contains(n)
            <==> !after.contains(n as u64)) by {
        if n == part_number as nat {
            assert(!after.contains(part_number));
        } else {
            assert(n as u64 != part_number);
            assert(settled.contains(n) <==> !in_flight.contains(n as u64));
        }
    }
}

/// At every point between calls, at most `max_concurrency` part uploads are
/// outstanding, and the outstanding ones are exactly the parts sent whose
/// upload has not returned.
pub proof fn lemma_outstanding_within_limit(u: &Uploader)
    requires
        u.inv(),
    ensures
        u@.in_flight.len() <= u@.max_concurrency,
        forall|k: nat|
            1 <= k <= u@.sent().len() ==> (u@.in_flight.contains(k as u64)
                <==> !#[trigger] u@.settled.contains(k)),
        forall|i: int|
            0 <= i < u@.in_flight.len() ==> 1 <= #[trigger] u@.in_flight[i] <= u@.sent().len(),
{
}

/// Once a part upload has failed, completion is never asked for and abort at
/// most once; when the upload is over, it was aborted, and abort was asked
/// for exactly once.
pub proof fn lemma_part_failure_aborts_once(u: &Uploader)
    requires
        u.inv(),
        u@.part_failed,
    ensures
        u@.complete_calls == 0,
        u@.abort_calls <= 1,
        u@.state.is_terminal() ==> u@.state is Aborted && u@.abort_calls == 1,
{
}

/// When completion is asked for or done, the parts sent, in ascending part
/// order, put together give back exactly what was read from the source; they
/// are the `ceil(len / part_size)` parts of it, all full but the last.
pub proof fn lemma_completion_reassembles(u: &Uploader)
    requires
        u.inv(),
        u@.state is Completing || u@.state is Completed,
    ensures
        u@.sent().flatten() == u@.source.consumed,
        u@.sent() == split_parts(u@.source.consumed, u@.source.part_size),
        u@.sent().len() == part_count(u@.source.consumed.len(), u@.source.part_size),
        parts_well_shaped(u@.sent(), u@.source.part_size),
        u@.in_flight.len() == 0,
{
    u@.source.lemma_finished();
    lemma_part_count(u@.source.consumed, u@.source.part_size);
    lemma_parts_reassemble(u@.source.consumed, u@.source.part_size);
}

/// Every upload opens one session of its own: it asks the store to initiate
/// at most once, and exactly once as soon as it has started. Nothing else is
/// shared between uploads; each owns all of its state.
pub proof fn lemma_one_session_per_upload(u: &Uploader)
    requires
        u.inv(),
    ensures
        u@.initiate_calls <= 1,
        !(u@.state is Created) ==> u@.initiate_calls == 1,
{
}

impl Uploader {
    pub closed spec fn inv(&self) -> bool {
        &&& self@.wf()
        &&& self.chunker.inv()
        &&& self.pool@.wf()
    }

    /// Prepares an upload of a source to `key`; nothing is asked of the store
    /// until the first `next_action`.
    pub fn new(key: String, options: UploadOptions) -> (r: Uploader)
        requires
            options.part_size > 0,
            options.max_concurrency > 0,
        ensures
            r.inv(),
            r@ == (UploaderModel {
                key: key@,
                max_concurrency: options.max_concurrency as nat,
                state: SessionState::Created,
                upload_id: Seq::empty(),
                source: ChunkerModel {
                    part_size: options.part_size as nat,
                    buffer: Seq::empty(),
                    at_eof: false,
                    consumed: Seq::empty(),
                    emitted: Seq::empty(),
                },
                in_flight: Seq::empty(),
                settled: Set::empty(),
                recorded: Seq::empty(),
                failure: None,
                part_failed: false,
                abort_error: None,
                object: None,
                initiate_calls: 0,
                complete_calls: 0,
                abort_calls: 0,
            }),
    {
        Uploader {
            key,
            state: SessionState::Created,
            upload_id: String::new(),
            chunker: StreamChunker::new(options.part_size),
            pool: ResourcePool::new(options.max_concurrency),
            registry: PartRegistry::new(),
            failure: None,
            part_failed: false,
            abort_error: None,
            object: None,
            settled: Ghost(Set::empty()),
            initiate_calls: Ghost(0),
            complete_calls: Ghost(0),
            abort_calls: Ghost(0),
        }
    }

    pub fn state(&self) -> (r: SessionState)
        ensures
            r == self@.state,
    {
        self.state
    }

    /// How many part uploads are outstanding.
    pub fn in_flight_count(&self) -> (r: usize)
        ensures
            r == self@.in_flight.len(),
    {
        self.pool.in_use()
    }

    /// The store opened the session under `upload_id`.
    pub fn on_initiated(&mut self, upload_id: String)
        requires
            old(self).inv(),
        ensures
            final(self).inv(),
            old(self)@.state is Initiating ==> final(self)@ == (UploaderModel {
                state: SessionState::Initiated,
                upload_id: upload_id@,
                ..old(self)@
            }),
            !(old(self)@.state is Initiating) ==> final(self)@ == old(self)@,
    {
        if let SessionState::Initiating = self.state {
            self.state = SessionState::Initiated;
            self.upload_id = upload_id;
        }
    }

    /// The store refused to open the session.
    pub fn on_initiate_failed(&mut self, message: String)
        requires
            old(self).inv(),
        ensures
            final(self).inv(),
            old(self)@.state is Initiating ==> final(self)@ == (UploaderModel {
                state: SessionState::Failed,
                failure: Some(UploadError::InitiateFailed(message)),
                ..old(self)@
            }),
            !(old(self)@.state is Initiating) ==> final(self)@ == old(self)@,
    {
        if let SessionState::Initiating = self.state {
            self.state = SessionState::Failed;
            self.failure = Some(UploadError::InitiateFailed(message));
        }
    }

    /// The source gave `bytes`; `eof` says that it has nothing more.
    pub fn on_read(&mut self, bytes: Vec<u8>, eof: bool)
        requires
            old(self).inv(),
        ensures
            final(self).inv(),
            old(self)@.accepts_source() ==> final(self)@ == (UploaderModel {
                source: ChunkerModel {
                    buffer: old(self)@.source.buffer + bytes@,
                    at_eof: eof,
                    consumed: old(self)@.source.consumed + bytes@,
                    ..old(self)@.source
                },
                ..old(self)@
            }),
            !old(self)@.accepts_source() ==> final(self)@ == old(self)@,
    {
        let accepts = match self.state {
            SessionState::Initiated | SessionState::InProgress => self.failure.is_none()
                && !self.chunker.at_eof(),
            _ => false,
        };
        if accepts {
            self.chunker.feed(bytes, eof);
        }
    }

    /// Reading the source failed.
    pub fn on_read_failed(&mut self, message: String)
        requires
            old(self).inv(),
        ensures
            final(self).inv(),
            old(self)@.active() && old(self)@.failure is None ==> final(self)@ == (
            UploaderModel { failure: Some(UploadError::SourceRead(message)), ..old(self)@ }),
            !(old(self)@.active() && old(self)@.failure is None) ==> final(self)@ == old(self)@,
    {
        let active = match self.state {
            SessionState::Initiated | SessionState::InProgress => true,
            _ => false,
        };
        if active && self.failure.is_none() {
            self.failure = Some(UploadError::SourceRead(message));
        }
    }

    /// The store acknowledged part `part_number` with `token`.
    pub fn on_part_uploaded(&mut self, part_number: u64, token: String)
        requires
            old(self).inv(),
        ensures
            final(self).inv(),
            old(self)@.in_flight.contains(part_number) ==> final(self)@ == (UploaderModel {
                in_flight: old(self)@.in_flight.remove_value(part_number),
                settled: old(self)@.settled.insert(part_number as nat),
                recorded: old(self)@.recorded.push((part_number, token@)),
                ..old(self)@
            }),
            !old(self)@.in_flight.contains(part_number) ==> final(self)@ == old(self)@,
            old(self)@.in_flight.contains(part_number) ==> final(self)@.in_flight.len() + 1
                == old(self)@.in_flight.len(),
            forall|y: u64|
                #[trigger] final(self)@.in_flight.contains(y) <==> (old(self)@.in_flight.contains(y)
                    && y != part_number),
    {
        let ghost before = self@;
        if self.pool.release(part_number) {
            proof {
                lemma_settle(
                    before.in_flight,
                    self.pool@.held,
                    before.settled,
                    before.sent().len(),
                    part_number,
                );
            }
            self.settled = Ghost(self.settled@.insert(part_number as nat));
            self.registry.record(part_number, token);
            proof {
                let f = self@;
                assert(f.recorded[f.recorded.len() - 1].0 == part_number);
                if f.failure is None {
                    assert forall|k: nat|
                        1 <= k <= f.sent().len() && #[trigger] f.settled.contains(k) implies has_part(
                        f.recorded,
                        k,
                    ) by {
                        if k != part_number as nat {
                            assert(before.settled.contains(k));
                            let j = choose|j: int|
                                0 <= j < before.recorded.len() && before.recorded[j].0 == k;
                            assert(f.recorded[j] == before.recorded[j]);
                        }
                    }
                }
            }
        }
    }

    /// The store refused part `part_number`.
    pub fn on_part_failed(&mut self, part_number: u64, message: String)
        requires
            old(self).inv(),
        ensures
            final(self).inv(),
            old(self)@.in_flight.contains(part_number) ==> final(self)@ == (UploaderModel {
                in_flight: old(self)@.in_flight.remove_value(part_number),
                settled: old(self)@.settled.insert(part_number as nat),
                part_failed: true,
                failure: if old(self)@.failure is None {
                    Some(UploadError::PartUpload { part_number, message })
                } else {
                    old(self)@.failure
                },
                ..old(self)@
            }),
            !old(self)@.in_flight.contains(part_number) ==> final(self)@ == old(self)@,
            old(self)@.in_flight.contains(part_number) ==> final(self)@.in_flight.len() + 1
                == old(self)@.in_flight.len(),
            forall|y: u64|
                #[trigger] final(self)@.in_flight.contains(y) <==> (old(self)@.in_flight.contains(y)
                    && y != part_number),
    {
        let ghost before = self@;
        if self.pool.release(part_number) {
            proof {
                lemma_settle(
                    before.in_flight,
                    self.pool@.held,
                    before.settled,
                    before.sent().len(),
                    part_number,
                );
            }
            self.settled = Ghost(self.settled@.insert(part_number as nat));
            self.part_failed = true;
            if self.failure.is_none() {
                self.failure = Some(UploadError::PartUpload { part_number, message });
            }
        }
    }

    /// The store assembled the object.
    pub fn on_completed(&mut self, object: ObjectDescriptor)
        requires
            old(self).inv(),
        ensures
            final(self).inv(),
            old(self)@.state is Completing ==> final(self)@ == (UploaderModel {
                state: SessionState::Completed,
                object: Some(object),
                ..old(self)@
            }),
            !(old(self)@.state is Completing) ==> final(self)@ == old(self)@,
    {
        if let SessionState::Completing = self.state {
            self.state = SessionState::Completed;
            self.object = Some(object);
        }
    }

    /// The store refused to complete the upload.
    pub fn on_complete_failed(&mut self, message: String)
        requires
            old(self).inv(),
        ensures
            final(self).inv(),
            old(self)@.state is Completing ==> final(self)@ == (UploaderModel {
                state: SessionState::Failed,
                failure: Some(UploadError::CompleteFailed(message)),
                ..old(self)@
            }),
            !(old(self)@.state is Completing) ==> final(self)@ == old(self)@,
    {
        if let SessionState::Completing = self.state {
            self.state = SessionState::Failed;
            self.failure = Some(UploadError::CompleteFailed(message));
        }
    }

    /// The store dropped the session.
    pub fn on_aborted(&mut self)
        requires
            old(self).inv(),
        ensures
            final(self).inv(),
            old(self)@.state is Aborting ==> final(self)@ == (UploaderModel {
                state: SessionState::Aborted,
                ..old(self)@
            }),
            !(old(self)@.state is Aborting) ==> final(self)@ == old(self)@,
    {
        if let SessionState::Aborting = self.state {
            self.state = SessionState::Aborted;
        }
    }

    /// The abort call itself failed; the message is kept beside the error
    /// that caused the abort.
    pub fn on_abort_failed(&mut self, message: String)
        requires
            old(self).inv(),
        ensures
            final(self).inv(),
            old(self)@.state is Aborting ==> final(self)@ == (UploaderModel {
                state: SessionState::Aborted,
                abort_error: Some(message),
                ..old(self)@
            }),
            !(old(self)@.state is Aborting) ==> final(self)@ == old(self)@,
    {
        if let SessionState::Aborting = self.state {
            self.state = SessionState::Aborted;
            self.abort_error = Some(message);
        }
    }

    /// With a failure recorded: wait for the outstanding parts, then abort.
    fn drain(&mut self) -> (r: Action)
        requires
            old(self).inv(),
            old(self)@.active(),
            old(self)@.failure is Some,
        ensures
            final(self).inv(),
            old(self)@.in_flight.len() > 0 ==> r is Wait && final(self)@ == old(self)@,
            old(self)@.in_flight.len() == 0 ==> {
                &&& r matches Action::Abort { upload_id } && upload_id@ == old(self)@.upload_id
                &&& final(self)@ == old(self)@.aborting()
            },
    {
        if self.pool.in_use() > 0 {
            Action::Wait
        } else {
            self.state = SessionState::Aborting;
            self.abort_calls = Ghost(1);
            Action::Abort { upload_id: self.upload_id.clone() }
        }
    }

    /// A chunk is ready: send it if a slot is free.
    fn send_next(&mut self) -> (r: Action)
        requires
            old(self).inv(),
            old(self)@.active(),
            old(self)@.failure is None,
            old(self)@.source.chunk_ready(),
        ensures
            final(self).inv(),
            !old(self)@.has_slot() ==> r is Wait && final(self)@ == old(self)@,
            old(self)@.has_slot() && old(self)@.source.next_part() == u64::MAX ==> {
                let failed = UploaderModel {
                    failure: Some(UploadError::Consistency(ConsistencyError::TooManyParts)),
                    ..old(self)@
                };
                &&& old(self)@.in_flight.len() > 0 ==> r is Wait && final(self)@ == failed
                &&& old(self)@.in_flight.len() == 0 ==> r is Abort && final(self)@
                    == failed.aborting()
            },
            old(self)@.has_slot() && old(self)@.source.next_part() < u64::MAX ==> {
                let o = old(self)@;
                let n = o.source.next_len() as int;
                &&& r matches Action::UploadPart { upload_id, part_number, bytes }
                &&& upload_id@ == o.upload_id
                &&& part_number == o.source.next_part()
                &&& bytes@ == o.source.buffer.take(n)
                &&& final(self)@ == (UploaderModel {
                    state: SessionState::InProgress,
                    source: ChunkerModel {
                        buffer: o.source.buffer.skip(n),
                        emitted: o.source.emitted.push(bytes@),
                        ..o.source
                    },
                    in_flight: o.in_flight.push(part_number),
                    ..o
                })
                &&& o.max_concurrency == 1 ==> forall|k: nat|
                    1 <= k < part_number ==> #[trigger] o.settled.contains(k)
            },
    {
        if !self.pool.has_free() {
            return Action::Wait;
        }
        if self.chunker.next_part() == u64::MAX {
            self.failure = Some(UploadError::Consistency(ConsistencyError::TooManyParts));
            return self.drain();
        }
        let ghost o = self@;
        match self.chunker.next_chunk() {
            Some(chunk) => {
                let part_number = chunk.part_number;
                proof {
                    assert forall|i: int| 0 <= i < o.in_flight.len() implies o.in_flight[i]
                        != part_number by {}
                    if o.max_concurrency == 1 {
                        assert forall|k: nat| 1 <= k < part_number implies #[trigger] o.settled.contains(k) by {
                            assert(!o.in_flight.contains(k as u64));
                        }
                    }
                }
                self.pool.acquire(part_number);
                self.state = SessionState::InProgress;
                proof {
                    let f = self@;
                    assert forall|i: int| 0 <= i < f.in_flight.len() implies 1
                        <= #[trigger] f.in_flight[i] <= f.sent().len() by {
                        if i < o.in_flight.len() {
                            assert(f.in_flight[i] == o.in_flight[i]);
                        }
                    }
                    assert forall|k: nat| 1 <= k <= f.sent().len() implies (
                    #[trigger] f.settled.contains(k) <==> !f.in_flight.contains(k as u64)) by {
                        if k == f.sent().len() {
                            assert(f.in_flight[f.in_flight.len() - 1] == k as u64);
                        } else {
                            if f.in_flight.contains(k as u64) {
                                let j = choose|j: int|
                                    0 <= j < f.in_flight.len() && f.in_flight[j] == k as u64;
                                if j < o.in_flight.len() {
                                    assert(o.in_flight[j] == k as u64);
                                }
                            }
                            if o.in_flight.contains(k as u64) {
                                let j = choose|j: int|
                                    0 <= j < o.in_flight.len() && o.in_flight[j] == k as u64;
                                assert(f.in_flight[j] == k as u64);
                            }
                        }
                    }
                }
                Action::UploadPart {
                    upload_id: self.upload_id.clone(),
                    part_number,
                    bytes: chunk.bytes,
                }
            },
            None => Action::Wait,
        }
    }

    /// The source is exhausted and every chunk sent: once no part is
    /// outstanding, complete with the ordered parts.
    fn finish_parts(&mut self) -> (r: Action)
        requires
            old(self).inv(),
            old(self)@.active(),
            old(self)@.failure is None,
            old(self)@.source.finished(),
        ensures
            final(self).inv(),
            old(self)@.in_flight.len() > 0 ==> r is Wait && final(self)@ == old(self)@,
            old(self)@.in_flight.len() == 0 ==> {
                let o = old(self)@;
                &&& covers_exactly(o.recorded, o.sent().len())
                &&& r matches Action::Complete { upload_id, parts }
                &&& upload_id@ == o.upload_id
                &&& parts@.len() == o.sent().len()
                &&& ordered_from(part_list(parts@), o.recorded)
                &&& final(self)@ == (UploaderModel {
                    state: SessionState::Completing,
                    complete_calls: 1,
                    ..o
                })
            },
    {
        if self.pool.in_use() > 0 {
            return Action::Wait;
        }
        proof {
            let o = self@;
            assert forall|k: nat| 1 <= k <= o.sent().len() implies has_part(o.recorded, k) by {
                assert(!o.in_flight.contains(k as u64));
                assert(o.settled.contains(k));
            }
        }
        let expected = self.chunker.next_part() - 1;
        match self.registry.finalize(expected) {
            Ok(parts) => {
                self.state = SessionState::Completing;
                self.complete_calls = Ghost(1);
                Action::Complete { upload_id: self.upload_id.clone(), parts }
            },
            Err(e) => {
                self.failure = Some(UploadError::Consistency(e));
                self.drain()
            },
        }
    }

    /// Decides what comes next, and records that it was asked for.
    pub fn next_action(&mut self) -> (r: Action)
        requires
            old(self).inv(),
        ensures
            final(self).inv(),
            final(self)@.state.rank() >= old(self)@.state.rank(),
            old(self)@.state is Created ==> {
                &&& r matches Action::Initiate { key } && key@ == old(self)@.key
                &&& final(self)@ == (UploaderModel {
                    state: SessionState::Initiating,
                    initiate_calls: 1,
                    ..old(self)@
                })
            },
            old(self)@.state is Initiating || old(self)@.state is Completing
                || old(self)@.state is Aborting ==> r is Wait && final(self)@ == old(self)@,
            old(self)@.state.is_terminal() ==> r is Finished && final(self)@ == old(self)@,
            // a failure was recorded: drain the outstanding parts, then abort
            old(self)@.active() && old(self)@.failure is Some ==> {
                &&& old(self)@.in_flight.len() > 0 ==> r is Wait && final(self)@ == old(self)@
                &&& old(self)@.in_flight.len() == 0 ==> {
                    &&& r matches Action::Abort { upload_id } && upload_id@
                        == old(self)@.upload_id
                    &&& final(self)@ == old(self)@.aborting()
                }
            },
            // a chunk is ready: send it when a slot is free
            old(self)@.active() && old(self)@.failure is None && old(self)@.source.chunk_ready()
                ==> {
                let o = old(self)@;
                let n = o.source.next_len() as int;
                &&& !o.has_slot() ==> r is Wait && final(self)@ == o
                &&& o.has_slot() && o.source.next_part() < u64::MAX ==> {
                    &&& r matches Action::UploadPart { upload_id, part_number, bytes }
                    &&& upload_id@ == o.upload_id
                    &&& part_number == o.source.next_part()
                    &&& bytes@ == o.source.buffer.take(n)
                    &&& final(self)@ == (UploaderModel {
                        state: SessionState::InProgress,
                        source: ChunkerModel {
                            buffer: o.source.buffer.skip(n),
                            emitted: o.source.emitted.push(bytes@),
                            ..o.source
                        },
                        in_flight: o.in_flight.push(part_number),
                        ..o
                    })
                    // with one slot, a part starts only once every earlier one returned
                    &&& o.max_concurrency == 1 ==> forall|k: nat|
                        1 <= k < part_number ==> #[trigger] o.settled.contains(k)
                }
                &&& o.has_slot() && o.source.next_part() == u64::MAX ==> final(self)@.failure
                    == Some(UploadError::Consistency(ConsistencyError::TooManyParts))
            },
            // the source is exhausted: complete once every part returned
            old(self)@.active() && old(self)@.failure is None && old(self)@.source.finished()
                ==> {
                let o = old(self)@;
                &&& o.in_flight.len() > 0 ==> r is Wait && final(self)@ == o
                &&& o.in_flight.len() == 0 ==> {
                    &&& r matches Action::Complete { upload_id, parts }
                    &&& upload_id@ == o.upload_id
                    &&& o.sent() == split_parts(o.source.consumed, o.source.part_size)
                    &&& parts@.len() == part_count(o.source.consumed.len(), o.source.part_size)
                    &&& ordered_from(part_list(parts@), o.recorded)
                    &&& final(self)@ == (UploaderModel {
                        state: SessionState::Completing,
                        complete_calls: 1,
                        ..o
                    })
                }
            },
            // more of the source is needed: read it when a slot is free
            old(self)@.active() && old(self)@.failure is None && !old(self)@.source.chunk_ready()
                && !old(self)@.source.finished() ==> {
                let o = old(self)@;
                &&& o.has_slot() ==> r == (Action::Read {
                    max_bytes: (o.source.part_size - o.source.buffer.len()) as usize,
                })
                &&& !o.has_slot() ==> r is Wait
                &&& final(self)@ == o
            },
    {
        match self.state {
            SessionState::Created => {
                self.state = SessionState::Initiating;
                self.initiate_calls = Ghost(1);
                Action::Initiate { key: self.key.clone() }
            },
            SessionState::Initiated | SessionState::InProgress => {
                if self.failure.is_some() {
                    self.drain()
                } else if self.chunker.chunk_ready() {
                    self.send_next()
                } else if self.chunker.is_finished() {
                    proof {
                        let o = self@;
                        o.source.lemma_finished();
                        lemma_part_count(o.source.consumed, o.source.part_size);
                    }
                    self.finish_parts()
                } else if self.pool.has_free() {
                    Action::Read { max_bytes: self.chunker.wanted() }
                } else {
                    Action::Wait
                }
            },
            SessionState::Completed | SessionState::Aborted | SessionState::Failed => {
                Action::Finished
            },
            _ => Action::Wait,
        }
    }

    /// The result of a finished upload; `None` while it is still running.
    pub fn into_result(self) -> (r: Option<Result<ObjectDescriptor, UploadFailure>>)
        requires
            self.inv(),
        ensures
            self@.state is Completed ==> (r matches Some(Ok(object)) && self@.object == Some(
                object,
            )),
            self@.state is Aborted || self@.state is Failed ==> (r matches Some(Err(failure))
                && self@.failure == Some(failure.error) && failure.abort_error
                == self@.abort_error),
            !self@.state.is_terminal() ==> r is None,
    {
        match self.state {
            SessionState::Completed => match self.object {
                Some(object) => Some(Ok(object)),
                None => None,
            },
            SessionState::Aborted | SessionState::Failed => match self.failure {
                Some(error) => Some(Err(UploadFailure { error, abort_error: self.abort_error })),
                None => None,
            },
            _ => None,
        }
    }
}

} // verus!
