//! The interchain transaction coordinator. A transaction locks the
//! resources of its own chain when it starts, records its steps in order,
//! and is finalized by a commit, which releases the locks, or by a rollback,
//! which compensates the steps in reverse order and then releases them.
//!
//! The coordinator does no outside work itself. The resource locator and
//! the remote invoker are reached by the caller, which hands their answers
//! in: the address that a path resolved to, the result of an invocation,
//! the statuses of the compensating calls, the caller's identity and the
//! wall clock.
use vstd::prelude::*;
use crate::invoke::{getMethodFromFunc, getRevertFunc, method_of, revert_func};
use crate::table::Table;
use crate::text::{
    bytes_to_hex, comma_join, decimal, hex_of, lemma_comma_join_push, parse_u32, parse_u32_spec,
    push_decimal, push_quoted, quoted, serialize_string_array, string_array, u64_to_string, views,
};

verus! {

pub const VERSION: &'static str = "v1.0.0";

pub const NULL_FLAG: &'static str = "null";

pub const SUCCESS_FLAG: &'static str = "success";

pub const SEPARATOR: char = '.';

pub const BFS_APPS: &'static str = "/apps/";

pub const DEFAULT_VERSION: &'static str = "latest";

/// Where a transaction stands: open, or finalized one way or the other.
#[derive(Clone, Copy, PartialEq, Eq, Structural, Debug)]
pub enum XaStatus {
    Processing,
    Committed,
    Rolledback,
}

/// The status as it reads in query responses.
pub open spec fn status_text(s: XaStatus) -> Seq<char> {
    match s {
        XaStatus::Processing => "processing"@,
        XaStatus::Committed => "committed"@,
        XaStatus::Rolledback => "rolledback"@,
    }
}

impl XaStatus {
    /// The status as it reads in query responses.
    pub fn as_str(&self) -> (r: &'static str)
        ensures
            r@ == status_text(*self),
    {
        match self {
            XaStatus::Processing => "processing",
            XaStatus::Committed => "committed",
            XaStatus::Rolledback => "rolledback",
        }
    }
}

/// One recorded step of a transaction.
pub struct XATransactionStep {
    pub account_identity: String,
    pub timestamp: u64,
    pub path: String,
    pub contract_address: String,
    pub func: String,
    pub args: Vec<u8>,
}

/// A step as plain values.
pub struct StepView {
    pub account_identity: Seq<char>,
    pub timestamp: u64,
    pub path: Seq<char>,
    pub contract_address: Seq<char>,
    pub func: Seq<char>,
    pub args: Seq<u8>,
}

impl View for XATransactionStep {
    type V = StepView;

    open spec fn view(&self) -> StepView {
        StepView {
            account_identity: self.account_identity@,
            timestamp: self.timestamp,
            path: self.path@,
            contract_address: self.contract_address@,
            func: self.func@,
            args: self.args@,
        }
    }
}

/// One transaction: who started it, the paths it spans, the addresses it
/// locked, its status and timestamps, and its steps with their sequence
/// numbers.
pub struct XATransaction {
    pub account_identity: String,
    pub paths: Vec<String>,
    pub contract_addresses: Vec<String>,
    pub status: XaStatus,
    pub start_timestamp: u64,
    pub commit_timestamp: u64,
    pub rollback_timestamp: u64,
    pub seqs: Vec<u64>,
    pub steps: Vec<XATransactionStep>,
}

/// A transaction as plain values.
pub struct XaView {
    pub account_identity: Seq<char>,
    pub paths: Seq<Seq<char>>,
    pub contract_addresses: Seq<Seq<char>>,
    pub status: XaStatus,
    pub start_timestamp: u64,
    pub commit_timestamp: u64,
    pub rollback_timestamp: u64,
    pub seqs: Seq<u64>,
    pub steps: Seq<StepView>,
}

/// The views of a sequence of steps.
pub open spec fn step_views(s: Seq<XATransactionStep>) -> Seq<StepView> {
    s.map_values(|x: XATransactionStep| x@)
}

impl View for XATransaction {
    type V = XaView;

    open spec fn view(&self) -> XaView {
        XaView {
            account_identity: self.account_identity@,
            paths: views(self.paths@),
            contract_addresses: views(self.contract_addresses@),
            status: self.status,
            start_timestamp: self.start_timestamp,
            commit_timestamp: self.commit_timestamp,
            rollback_timestamp: self.rollback_timestamp,
            seqs: self.seqs@,
            steps: step_views(self.steps@),
        }
    }
}

/// A transaction after it was finalized with `status` at `timestamp`.
pub open spec fn finalized(t: XaView, status: XaStatus, timestamp: u64) -> XaView {
    if status == XaStatus::Committed {
        XaView { status, commit_timestamp: timestamp, ..t }
    } else {
        XaView { status, rollback_timestamp: timestamp, ..t }
    }
}

/// A transaction after the step `step` numbered `seq` was recorded.
pub open spec fn with_step(t: XaView, seq: u64, step: StepView) -> XaView {
    XaView { seqs: t.seqs.push(seq), steps: t.steps.push(step), ..t }
}

/// `c` compensates `step`: it calls the step's address with the
/// compensating signature and the step's own arguments.
pub open spec fn compensates(c: Compensation, step: StepView) -> bool {
    &&& c.address@ == step.contract_address
    &&& c.func@ == revert_func(step.func)
    &&& c.args@ == step.args
}

/// `plan` compensates `steps` one for one, latest step first.
pub open spec fn compensations_of(plan: Seq<Compensation>, steps: Seq<StepView>) -> bool {
    &&& plan.len() == steps.len()
    &&& forall|k: int| 0 <= k < plan.len() ==> compensates(#[trigger] plan[k], steps[steps.len() - 1 - k])
}

/// The warnings of the first `k` compensating calls (latest step first)
/// that ended with a non-zero status.
pub open spec fn revert_warnings(steps: Seq<StepView>, statuses: Seq<u32>, k: nat) -> Seq<char>
    decreases k,
{
    if k == 0 {
        Seq::empty()
    } else {
        let prev = revert_warnings(steps, statuses, (k - 1) as nat);
        if statuses[k - 1] != 0 {
            prev + " revert \""@ + steps[steps.len() - k].func + "\" failed.'"@
        } else {
            prev
        }
    }
}

/// The result of a rollback: `success` when every compensating call
/// succeeded, otherwise the warnings of those that failed.
pub open spec fn rollback_text(steps: Seq<StepView>, statuses: Seq<u32>) -> Seq<char> {
    if exists|j: int| 0 <= j < statuses.len() && statuses[j] != 0 {
        "warning:"@ + revert_warnings(steps, statuses, statuses.len())
    } else {
        SUCCESS_FLAG@
    }
}

/// The list entry of the transaction `id`.
pub open spec fn summary_json(id: Seq<char>, t: XaView) -> Seq<char> {
    "{\"xaTransactionID\":"@ + quoted(id) + ",\"accountIdentity\":"@ + quoted(t.account_identity)
        + ",\"status\":"@ + quoted(status_text(t.status)) + ",\"paths\":"@ + string_array(t.paths)
        + ",\"timestamp\":"@ + decimal(t.start_timestamp as nat) + "}"@
}

/// The detail entry of the step numbered `seq`.
pub open spec fn step_json(seq: u64, s: StepView) -> Seq<char> {
    "{\"xaTransactionSeq\":"@ + decimal(seq as nat) + ",\"accountIdentity\":"@ + quoted(
        s.account_identity,
    ) + ",\"path\":"@ + quoted(s.path) + ",\"timestamp\":"@ + decimal(s.timestamp as nat)
        + ",\"method\":"@ + quoted(method_of(s.func)) + ",\"args\":\""@ + hex_of(s.args) + "\"}"@
}

/// The detail entries of the first `n` steps.
pub open spec fn step_entries(t: XaView, n: nat) -> Seq<Seq<char>> {
    Seq::new(n, |i: int| step_json(t.seqs[i], t.steps[i]))
}

/// The full detail of the transaction `id`.
pub open spec fn detail_json(id: Seq<char>, t: XaView) -> Seq<char> {
    "{\"xaTransactionID\":"@ + quoted(id) + ",\"accountIdentity\":"@ + quoted(t.account_identity)
        + ",\"status\":"@ + quoted(status_text(t.status)) + ",\"paths\":"@ + string_array(t.paths)
        + ",\"startTimestamp\":"@ + decimal(t.start_timestamp as nat) + ",\"commitTimestamp\":"@
        + decimal(t.commit_timestamp as nat) + ",\"rollbackTimestamp\":"@ + decimal(
        t.rollback_timestamp as nat,
    ) + ",\"xaTransactionSteps\":["@ + comma_join(step_entries(t, t.steps.len())) + "]}"@
}

/// The answer of a listing on an empty window. The key is spelled
/// `tota`, as the consumers of these answers have always received it.
pub open spec fn empty_list_json() -> Seq<char> {
    "{\"tota\":0,\"xaTransactions\":[]}"@
}

/// The last segment of a dot-separated path begins here.
pub open spec fn name_start(p: Seq<char>) -> nat
    decreases p.len(),
{
    if p.len() == 0 {
        0
    } else if p.last() == '.' {
        p.len()
    } else {
        name_start(p.drop_last())
    }
}

/// The resource's local name: the last segment of a dot-separated path.
pub open spec fn name_of_path(p: Seq<char>) -> Seq<char> {
    p.skip(name_start(p) as int)
}

/// Sequence numbers that rise strictly in the order they were recorded.
pub open spec fn strictly_increasing(s: Seq<u64>) -> bool {
    forall|i: int, j: int| 0 <= i < j < s.len() ==> s[i] < s[j]
}

/// A transaction holds one step per sequence number, in rising order.
pub open spec fn record_wf(t: XaView) -> bool {
    &&& t.seqs.len() == t.steps.len()
    &&& strictly_increasing(t.seqs)
}

/// The lock on a resolved address.
pub struct ContractStatus {
    pub locked: bool,
    pub xa_transaction_id: String,
}

/// A cached result of a completed call, under the caller's uid.
pub struct Transaction {
    pub existed: bool,
    pub result: Vec<u8>,
}

/// An entry of a directory listing of the resource locator.
pub struct BfsInfo {
    pub file_name: String,
    pub file_type: String,
    pub ext: Vec<String>,
}

/// A compensating call of a rollback: the address of the step, the
/// compensating signature and the step's own arguments.
pub struct Compensation {
    pub address: String,
    pub func: String,
    pub args: Vec<u8>,
}

/// Why a call of the coordinator was refused.
#[derive(Debug, PartialEq, Eq)]
pub enum ProxyError {
    /// The path or name resolved to no address.
    AddressNotExist,
    /// A transaction with this id was started before.
    AlreadyExists { id: String },
    /// The resource is reserved by the open transaction `owner`.
    ResourceLocked { path: String, owner: String },
    /// No transaction has this id.
    TransactionNotFound,
    /// The transaction was committed.
    AlreadyCommitted,
    /// The transaction was rolled back.
    AlreadyRolledback,
    /// The resource is not reserved by this transaction.
    ResourceUnregistered { path: String, id: String },
    /// The sequence number is not above the last recorded one.
    NonMonotonicSequence,
    /// The remote invocation failed.
    CallFailed { address: String },
    /// The locator refused to link the name; `code` is its status.
    LinkFailed { name: String, code: i32 },
    /// The task queue is empty.
    NoPendingTask,
    /// The oldest task of the queue is another transaction.
    UnmatchedHead,
}

/// An error as plain values.
pub enum ErrorView {
    AddressNotExist,
    AlreadyExists { id: Seq<char> },
    ResourceLocked { path: Seq<char>, owner: Seq<char> },
    TransactionNotFound,
    AlreadyCommitted,
    AlreadyRolledback,
    ResourceUnregistered { path: Seq<char>, id: Seq<char> },
    NonMonotonicSequence,
    CallFailed { address: Seq<char> },
    LinkFailed { name: Seq<char>, code: i32 },
    NoPendingTask,
    UnmatchedHead,
}

impl View for ProxyError {
    type V = ErrorView;

    open spec fn view(&self) -> ErrorView {
        match self {
            ProxyError::AddressNotExist => ErrorView::AddressNotExist,
            ProxyError::AlreadyExists { id } => ErrorView::AlreadyExists { id: id@ },
            ProxyError::ResourceLocked { path, owner } => ErrorView::ResourceLocked {
                path: path@,
                owner: owner@,
            },
            ProxyError::TransactionNotFound => ErrorView::TransactionNotFound,
            ProxyError::AlreadyCommitted => ErrorView::AlreadyCommitted,
            ProxyError::AlreadyRolledback => ErrorView::AlreadyRolledback,
            ProxyError::ResourceUnregistered { path, id } => ErrorView::ResourceUnregistered {
                path: path@,
                id: id@,
            },
            ProxyError::NonMonotonicSequence => ErrorView::NonMonotonicSequence,
            ProxyError::CallFailed { address } => ErrorView::CallFailed { address: address@ },
            ProxyError::LinkFailed { name, code } => ErrorView::LinkFailed {
                name: name@,
                code: *code,
            },
            ProxyError::NoPendingTask => ErrorView::NoPendingTask,
            ProxyError::UnmatchedHead => ErrorView::UnmatchedHead,
        }
    }
}

/// The outcome of a remote invocation: the returned bytes, or `CallFailed`
/// naming the address when the invoker reports a non-zero status.
pub fn call_with_address_data(address: &String, status: u32, return_data: Vec<u8>) -> (r: Result<
    Vec<u8>,
    ProxyError,
>)
    ensures
        status == 0 ==> r is Ok && r->Ok_0@ == return_data@,
        status != 0 ==> r is Err && r->Err_0@ == (ErrorView::CallFailed { address: address@ }),
{
    if status != 0 {
        Err(ProxyError::CallFailed { address: address.clone() })
    } else {
        Ok(return_data)
    }
}

/// The coordinator's store: the path cache, the task queue (the ids of all
/// transactions in the order they started, and the position of the oldest
/// unacknowledged one), the lock table, the transactions and the
/// idempotency cache.
pub struct WeCrossProxy {
    head: usize,
    path_cache: Vec<String>,
    xa_transaction_ids: Vec<String>,
    locked_contracts: Table<ContractStatus>,
    xa_transactions: Table<XATransaction>,
    transactions: Table<Transaction>,
}

impl WeCrossProxy {
    /// The transactions by id.
    pub closed spec fn xa_records(&self) -> Map<Seq<char>, XaView> {
        Map::new(
            |k: Seq<char>| self.xa_transactions@.contains_key(k),
            |k: Seq<char>| self.xa_transactions@[k]@,
        )
    }

    /// The owning transaction of each locked address.
    pub closed spec fn lock_owners(&self) -> Map<Seq<char>, Seq<char>> {
        Map::new(
            |k: Seq<char>| self.locked_contracts@.contains_key(k),
            |k: Seq<char>| self.locked_contracts@[k].xa_transaction_id@,
        )
    }

    /// The cached result of each uid.
    pub closed spec fn cached_results(&self) -> Map<Seq<char>, Seq<u8>> {
        Map::new(
            |k: Seq<char>| self.transactions@.contains_key(k),
            |k: Seq<char>| self.transactions@[k].result@,
        )
    }

    /// The ids of all transactions, in the order they started.
    pub closed spec fn task_ids(&self) -> Seq<Seq<char>> {
        views(self.xa_transaction_ids@)
    }

    /// The position of the oldest unacknowledged task.
    pub closed spec fn head_index(&self) -> nat {
        self.head as nat
    }

    /// The paths of the path cache.
    pub closed spec fn path_list(&self) -> Seq<Seq<char>> {
        views(self.path_cache@)
    }

    /// The ids of the open transactions.
    pub open spec fn open_ids(&self) -> Set<Seq<char>> {
        self.xa_records().dom().filter(|k: Seq<char>| self.xa_records()[k].status == XaStatus::Processing)
    }

    /// Whether `id` names an open transaction.
    pub open spec fn is_open(&self, id: Seq<char>) -> bool {
        self.xa_records().contains_key(id) && self.xa_records()[id].status == XaStatus::Processing
    }

    /// The store's invariant: every task names a transaction and every
    /// transaction is well formed; each lock names an open transaction that
    /// lists its address, and each open transaction holds the locks of all
    /// its addresses; every cache entry is filled; the head of the task
    /// queue stays behind its tail by at least the number of open
    /// transactions.
    pub closed spec fn wf(&self) -> bool {
        &&& self.locked_contracts.wf()
        &&& self.xa_transactions.wf()
        &&& self.transactions.wf()
        &&& self.xa_records().dom().finite()
        &&& self.head + self.open_ids().len() <= self.xa_transaction_ids.len()
        &&& forall|i: int|
            0 <= i < self.xa_transaction_ids.len() ==> self.xa_records().contains_key(
                #[trigger] self.xa_transaction_ids@[i]@,
            )
        &&& forall|id: Seq<char>| #[trigger]
            self.xa_records().contains_key(id) ==> record_wf(self.xa_records()[id])
        &&& forall|a: Seq<char>| #[trigger]
            self.locked_contracts@.contains_key(a) ==> {
                &&& self.locked_contracts@[a].locked
                &&& self.is_open(self.lock_owners()[a])
                &&& self.xa_records()[self.lock_owners()[a]].contract_addresses.contains(a)
            }
        &&& forall|id: Seq<char>, a: Seq<char>|
            self.is_open(id) && #[trigger] self.xa_records()[id].contract_addresses.contains(a)
                ==> #[trigger] self.lock_owners().contains_key(a) && self.lock_owners()[a] == id
        &&& forall|u: Seq<char>| #[trigger]
            self.transactions@.contains_key(u) ==> self.transactions@[u].existed
    }

    /// An empty coordinator.
    pub fn new() -> (r: Self)
        ensures
            r.wf(),
            r.xa_records() == Map::<Seq<char>, XaView>::empty(),
            r.lock_owners() == Map::<Seq<char>, Seq<char>>::empty(),
            r.cached_results() == Map::<Seq<char>, Seq<u8>>::empty(),
            r.task_ids() == Seq::<Seq<char>>::empty(),
            r.head_index() == 0,
            r.path_list() == Seq::<Seq<char>>::empty(),
    {
        let r = WeCrossProxy {
            head: 0,
            path_cache: Vec::new(),
            xa_transaction_ids: Vec::new(),
            locked_contracts: Table::new(),
            xa_transactions: Table::new(),
            transactions: Table::new(),
        };
        assert(r.xa_records() =~= Map::empty());
        assert(r.lock_owners() =~= Map::empty());
        assert(r.cached_results() =~= Map::empty());
        assert(r.task_ids() =~= Seq::empty());
        assert(r.path_list() =~= Seq::empty());
        assert(r.open_ids() =~= Set::empty());
        r
    }

    /// The version of the coordinator.
    pub fn getVersion(&self) -> (r: String)
        ensures
            r@ == VERSION@,
    {
        String::from_str(VERSION)
    }

    /// Adds `path` to the path cache.
    pub fn addPath(&mut self, path: String)
        requires
            old(self).wf(),
        ensures
            final(self).wf(),
            final(self).path_list() == old(self).path_list().push(path@),
            final(self).xa_records() == old(self).xa_records(),
            final(self).lock_owners() == old(self).lock_owners(),
            final(self).cached_results() == old(self).cached_results(),
            final(self).task_ids() == old(self).task_ids(),
            final(self).head_index() == old(self).head_index(),
    {
        self.path_cache.push(path);
        assert(self.path_list() =~= old(self).path_list().push(path@));
    }

    /// The paths of the path cache, in the order they were added.
    pub fn getPaths(&self) -> (r: Vec<String>)
        ensures
            views(r@) == self.path_list(),
    {
        let mut out: Vec<String> = Vec::new();
        let mut i: usize = 0;
        while i < self.path_cache.len()
            invariant
                i <= self.path_cache.len(),
                views(out@) == views(self.path_cache@.subrange(0, i as int)),
            decreases self.path_cache.len() - i,
        {
            let ghost before = out@;
            out.push(self.path_cache[i].clone());
            assert(out@ == before.push(self.path_cache@[i as int]));
            assert(views(out@) =~= views(before).push(self.path_cache@[i as int]@));
            assert(views(self.path_cache@.subrange(0, i + 1)) =~= views(
                self.path_cache@.subrange(0, i as int),
            ).push(self.path_cache@[i as int]@));
            i = i + 1;
        }
        assert(self.path_cache@.subrange(0, i as int) =~= self.path_cache@);
        out
    }

    /// Empties the path cache.
    pub fn deletePathList(&mut self)
        requires
            old(self).wf(),
        ensures
            final(self).wf(),
            final(self).path_list() == Seq::<Seq<char>>::empty(),
            final(self).xa_records() == old(self).xa_records(),
            final(self).lock_owners() == old(self).lock_owners(),
            final(self).cached_results() == old(self).cached_results(),
            final(self).task_ids() == old(self).task_ids(),
            final(self).head_index() == old(self).head_index(),
    {
        self.path_cache = Vec::new();
        assert(self.path_list() =~= Seq::empty());
    }

    /// Why `startXATransaction` refuses the own-side resources among the
    /// first `n`, checked in order: an unresolved address, an address locked
    /// by a transaction, or one that this call reserved already.
    pub open spec fn start_lock_error(
        &self,
        id: Seq<char>,
        paths: Seq<Seq<char>>,
        addrs: Seq<Seq<char>>,
        n: nat,
    ) -> Option<ErrorView>
        decreases n,
    {
        if n == 0 {
            None
        } else {
            match self.start_lock_error(id, paths, addrs, (n - 1) as nat) {
                Some(e) => Some(e),
                None => {
                    let a = addrs[n - 1];
                    if a.len() == 0 {
                        Some(ErrorView::AddressNotExist)
                    } else if self.lock_owners().contains_key(a) {
                        Some(ErrorView::ResourceLocked { path: paths[n - 1], owner: self.lock_owners()[a] })
                    } else if addrs.take(n - 1).contains(a) {
                        Some(ErrorView::ResourceLocked { path: paths[n - 1], owner: id })
                    } else {
                        None
                    }
                },
            }
        }
    }

    /// Why `startXATransaction` refuses, if it does.
    pub open spec fn start_error(&self, id: Seq<char>, paths: Seq<Seq<char>>, addrs: Seq<Seq<char>>) -> Option<
        ErrorView,
    > {
        if self.xa_records().contains_key(id) {
            Some(ErrorView::AlreadyExists { id })
        } else {
            self.start_lock_error(id, paths, addrs, addrs.len())
        }
    }

    /// Why a commit or a rollback of `id` is refused, if it is.
    pub open spec fn finalize_error(&self, id: Seq<char>) -> Option<ErrorView> {
        if !self.xa_records().contains_key(id) {
            Some(ErrorView::TransactionNotFound)
        } else if self.xa_records()[id].status == XaStatus::Committed {
            Some(ErrorView::AlreadyCommitted)
        } else if self.xa_records()[id].status == XaStatus::Rolledback {
            Some(ErrorView::AlreadyRolledback)
        } else {
            None
        }
    }

    /// The owners of the locks after `addrs` were reserved for `id`.
    pub open spec fn with_locks(&self, id: Seq<char>, addrs: Seq<Seq<char>>) -> Map<Seq<char>, Seq<char>> {
        self.lock_owners().union_prefer_right(Map::new(|a: Seq<char>| addrs.contains(a), |a: Seq<char>| id))
    }

    /// Starts the transaction `id` spanning `self_paths`, the resources of
    /// this chain, and `other_paths`, those of the counterpart chains.
    /// `self_addresses` holds what each own-side path resolved to (empty
    /// when it did not resolve), `origin` the caller's identity and `now_ms`
    /// the wall clock in milliseconds. On success every own-side address is
    /// locked to `id`, the transaction is recorded as processing and its id
    /// is appended to the task queue; on refusal nothing changes.
    pub fn startXATransaction(
        &mut self,
        id: String,
        self_paths: Vec<String>,
        other_paths: Vec<String>,
        self_addresses: Vec<String>,
        origin: String,
        now_ms: u64,
    ) -> (r: Result<String, ProxyError>)
        requires
            old(self).wf(),
            self_addresses.len() == self_paths.len(),
        ensures
            final(self).wf(),
            r is Ok <==> old(self).start_error(id@, views(self_paths@), views(self_addresses@)) is None,
            r is Err ==> *final(self) == *old(self) && Some(r->Err_0@) == old(self).start_error(
                id@,
                views(self_paths@),
                views(self_addresses@),
            ),
            r is Ok ==> {
                &&& r->Ok_0@ == SUCCESS_FLAG@
                &&& final(self).xa_records() == old(self).xa_records().insert(
                    id@,
                    XaView {
                        account_identity: origin@,
                        paths: views(self_paths@) + views(other_paths@),
                        contract_addresses: views(self_addresses@),
                        status: XaStatus::Processing,
                        start_timestamp: now_ms / 1000,
                        commit_timestamp: 0,
                        rollback_timestamp: 0,
                        seqs: Seq::empty(),
                        steps: Seq::empty(),
                    },
                )
                &&& final(self).lock_owners() == old(self).with_locks(id@, views(self_addresses@))
                &&& final(self).task_ids() == old(self).task_ids().push(id@)
                &&& final(self).cached_results() == old(self).cached_results()
                &&& final(self).head_index() == old(self).head_index()
                &&& final(self).path_list() == old(self).path_list()
            },
    {
        if self.xa_transactions.contains_key(&id) {
            return Err(ProxyError::AlreadyExists { id });
        }
        let ghost paths = views(self_paths@);
        let ghost addrs = views(self_addresses@);
        let mut i: usize = 0;
        while i < self_addresses.len()
            invariant
                self.wf(),
                self == old(self),
                self_addresses.len() == self_paths.len(),
                paths == views(self_paths@),
                addrs == views(self_addresses@),
                i <= self_addresses.len(),
                self.start_lock_error(id@, paths, addrs, i as nat) is None,
                !self.xa_records().contains_key(id@),
            decreases self_addresses.len() - i,
        {
            let a = &self_addresses[i];
            assert(addrs[i as int] == a@);
            assert(paths[i as int] == self_paths@[i as int]@);
            if a.unicode_len() == 0 {
                proof {
                    self.lemma_start_lock_error_stays(id@, paths, addrs, (i + 1) as nat, addrs.len());
                }
                return Err(ProxyError::AddressNotExist);
            }
            match self.locked_contracts.get(a) {
                Some(status) => {
                    proof {
                        self.lemma_start_lock_error_stays(id@, paths, addrs, (i + 1) as nat, addrs.len());
                    }
                    return Err(
                        ProxyError::ResourceLocked {
                            path: self_paths[i].clone(),
                            owner: status.xa_transaction_id.clone(),
                        },
                    );
                },
                None => {},
            }
            if contains_before(&self_addresses, i, a) {
                proof {
                    self.lemma_start_lock_error_stays(id@, paths, addrs, (i + 1) as nat, addrs.len());
                }
                return Err(ProxyError::ResourceLocked { path: self_paths[i].clone(), owner: id.clone() });
            }
            i = i + 1;
        }
        let ghost old_locks = self.locked_contracts@;
        proof {
            self.lemma_start_lock_error_none(id@, paths, addrs, addrs.len());
            assert forall|a: Seq<char>| #[trigger] addrs.contains(a) implies !old_locks.contains_key(a) by {
                let j = choose|j: int| 0 <= j < addrs.len() && addrs[j] == a;
                assert(!self.lock_owners().contains_key(addrs[j]));
            }
            assert(addrs.take(0) =~= Seq::<Seq<char>>::empty());
        }
        let mut k: usize = 0;
        while k < self_addresses.len()
            invariant
                old(self).wf(),
                self.locked_contracts.wf(),
                self.xa_transactions == old(self).xa_transactions,
                self.transactions == old(self).transactions,
                self.xa_transaction_ids == old(self).xa_transaction_ids,
                self.head == old(self).head,
                self.path_cache == old(self).path_cache,
                old_locks == old(self).locked_contracts@,
                k <= self_addresses.len(),
                addrs == views(self_addresses@),
                forall|a: Seq<char>|
                    #[trigger] self.locked_contracts@.contains_key(a) <==> (old_locks.contains_key(a)
                        || addrs.take(k as int).contains(a)),
                forall|a: Seq<char>| #[trigger]
                    old_locks.contains_key(a) ==> self.locked_contracts@[a] == old_locks[a],
                forall|a: Seq<char>|
                    !old_locks.contains_key(a) && #[trigger] addrs.take(k as int).contains(a) ==> {
                        &&& self.locked_contracts@[a].locked
                        &&& self.locked_contracts@[a].xa_transaction_id@ == id@
                    },
                forall|a: Seq<char>| #[trigger] addrs.contains(a) ==> !old_locks.contains_key(a),
            decreases self_addresses.len() - k,
        {
            let key = self_addresses[k].clone();
            assert(key@ == addrs[k as int]);
            let st = ContractStatus { locked: true, xa_transaction_id: id.clone() };
            self.locked_contracts.insert(key, st);
            proof {
                let t0 = addrs.take(k as int);
                let t1 = addrs.take(k + 1);
                assert(t1 =~= t0.push(addrs[k as int]));
                assert(addrs.contains(addrs[k as int]));
                assert forall|a: Seq<char>| t1.contains(a) <==> (t0.contains(a) || a == addrs[k as int]) by {
                    if t1.contains(a) && a != addrs[k as int] {
                        let j = choose|j: int| 0 <= j < t1.len() && t1[j] == a;
                        assert(t0[j] == a);
                    }
                    if t0.contains(a) {
                        let j = choose|j: int| 0 <= j < t0.len() && t0[j] == a;
                        assert(t1[j] == a);
                    }
                    if a == addrs[k as int] {
                        assert(t1[k as int] == a);
                    }
                }
            }
            k = k + 1;
        }
        proof {
            assert(addrs.take(self_addresses.len() as int) =~= addrs);
        }
        let mut all_paths: Vec<String> = Vec::new();
        append_clones(&mut all_paths, &self_paths);
        append_clones(&mut all_paths, &other_paths);
        let ghost new_view = XaView {
            account_identity: origin@,
            paths: views(self_paths@) + views(other_paths@),
            contract_addresses: addrs,
            status: XaStatus::Processing,
            start_timestamp: now_ms / 1000,
            commit_timestamp: 0,
            rollback_timestamp: 0,
            seqs: Seq::empty(),
            steps: Seq::empty(),
        };
        let rec = XATransaction {
            account_identity: origin,
            paths: all_paths,
            contract_addresses: self_addresses,
            status: XaStatus::Processing,
            start_timestamp: now_ms / 1000,
            commit_timestamp: 0,
            rollback_timestamp: 0,
            seqs: Vec::new(),
            steps: Vec::new(),
        };
        assert(rec@ =~= new_view) by {
            assert(rec.seqs@ =~= Seq::<u64>::empty());
            assert(step_views(rec.steps@) =~= Seq::<StepView>::empty());
        }
        self.xa_transactions.insert(id.clone(), rec);
        self.xa_transaction_ids.push(id);
        proof {
            let old_p = old(self);
            let r0 = old_p.xa_records();
            let r1 = self.xa_records();
            assert(r1 =~= r0.insert(id@, new_view));
            assert(self.lock_owners() =~= old_p.with_locks(id@, addrs));
            assert(self.task_ids() =~= old_p.task_ids().push(id@));
            assert(r1.dom() =~= r0.dom().insert(id@));
            r0.dom().lemma_len_filter(|k: Seq<char>| r0[k].status == XaStatus::Processing);
            assert(self.open_ids() =~= old_p.open_ids().insert(id@));
            assert(!old_p.open_ids().contains(id@));
            assert forall|j: int| 0 <= j < self.xa_transaction_ids.len() implies r1.contains_key(
                #[trigger] self.xa_transaction_ids@[j]@,
            ) by {
                if j < old_p.xa_transaction_ids.len() {
                    assert(self.xa_transaction_ids@[j] == old_p.xa_transaction_ids@[j]);
                }
            }
            assert forall|q: Seq<char>| #[trigger] r1.contains_key(q) implies record_wf(r1[q]) by {
                if q != id@ {
                    assert(r0.contains_key(q));
                }
            }
            assert forall|a: Seq<char>| #[trigger] self.locked_contracts@.contains_key(a) implies {
                &&& self.locked_contracts@[a].locked
                &&& self.is_open(self.lock_owners()[a])
                &&& self.xa_records()[self.lock_owners()[a]].contract_addresses.contains(a)
            } by {
                if old_locks.contains_key(a) {
                    assert(old_p.locked_contracts@.contains_key(a));
                    assert(old_p.is_open(old_p.lock_owners()[a]));
                    assert(self.lock_owners()[a] == old_p.lock_owners()[a]);
                    assert(old_p.lock_owners()[a] != id@);
                } else {
                    assert(addrs.take(self_addresses.len() as int).contains(a));
                }
            }
            assert forall|q: Seq<char>, a: Seq<char>|
                self.is_open(q) && #[trigger] self.xa_records()[q].contract_addresses.contains(a)
                    implies #[trigger] self.lock_owners().contains_key(a) && self.lock_owners()[a]
                == q by {
                if q == id@ {
                    assert(addrs.take(self_addresses.len() as int).contains(a));
                    assert(!old_locks.contains_key(a));
                } else {
                    assert(old_p.is_open(q));
                    assert(old_p.xa_records()[q].contract_addresses.contains(a));
                    assert(old_p.lock_owners().contains_key(a));
                }
            }
        }
        Ok(String::from_str(SUCCESS_FLAG))
    }

    /// The locks left when `id` releases the addresses it holds.
    pub open spec fn without_locks_of(&self, id: Seq<char>) -> Map<Seq<char>, Seq<char>> {
        self.lock_owners().remove_keys(self.xa_records()[id].contract_addresses.to_set())
    }

    /// Marks the open transaction `id` with the terminal `status` at
    /// `timestamp` and releases every lock it holds.
    fn finalize(&mut self, id: &String, status: XaStatus, timestamp: u64)
        requires
            old(self).wf(),
            old(self).is_open(id@),
            status != XaStatus::Processing,
        ensures
            final(self).wf(),
            final(self).xa_records() == old(self).xa_records().insert(
                id@,
                finalized(old(self).xa_records()[id@], status, timestamp),
            ),
            final(self).lock_owners() == old(self).without_locks_of(id@),
            final(self).open_ids().len() + 1 == old(self).open_ids().len(),
            final(self).cached_results() == old(self).cached_results(),
            final(self).task_ids() == old(self).task_ids(),
            final(self).head == old(self).head,
            final(self).xa_transaction_ids == old(self).xa_transaction_ids,
            final(self).path_list() == old(self).path_list(),
    {
        let ghost r0 = self.xa_records();
        let ghost old_locks = self.locked_contracts@;
        let mut rec = self.xa_transactions.remove(id).unwrap();
        assert(rec@ == r0[id@]);
        rec.status = status;
        if status == XaStatus::Committed {
            rec.commit_timestamp = timestamp;
        } else {
            rec.rollback_timestamp = timestamp;
        }
        let ghost addrs = views(rec.contract_addresses@);
        assert(addrs.take(0) =~= Seq::<Seq<char>>::empty());
        let mut j: usize = 0;
        while j < rec.contract_addresses.len()
            invariant
                self.locked_contracts.wf(),
                self.xa_transactions.wf(),
                self.xa_transactions@ == old(self).xa_transactions@.remove(id@),
                self.transactions == old(self).transactions,
                self.xa_transaction_ids == old(self).xa_transaction_ids,
                self.head == old(self).head,
                self.path_cache == old(self).path_cache,
                old_locks == old(self).locked_contracts@,
                j <= rec.contract_addresses.len(),
                addrs == views(rec.contract_addresses@),
                forall|a: Seq<char>|
                    #[trigger] self.locked_contracts@.contains_key(a) <==> (old_locks.contains_key(a)
                        && !addrs.take(j as int).contains(a)),
                forall|a: Seq<char>| #[trigger]
                    self.locked_contracts@.contains_key(a) ==> self.locked_contracts@[a]
                        == old_locks[a],
            decreases rec.contract_addresses.len() - j,
        {
            assert(addrs[j as int] == rec.contract_addresses@[j as int]@);
            self.locked_contracts.remove(&rec.contract_addresses[j]);
            proof {
                let t0 = addrs.take(j as int);
                let t1 = addrs.take(j + 1);
                assert(t1 =~= t0.push(addrs[j as int]));
                assert forall|a: Seq<char>| t1.contains(a) <==> (t0.contains(a) || a == addrs[j as int]) by {
                    if t1.contains(a) && a != addrs[j as int] {
                        let q = choose|q: int| 0 <= q < t1.len() && t1[q] == a;
                        assert(t0[q] == a);
                    }
                    if t0.contains(a) {
                        let q = choose|q: int| 0 <= q < t0.len() && t0[q] == a;
                        assert(t1[q] == a);
                    }
                    if a == addrs[j as int] {
                        assert(t1[j as int] == a);
                    }
                }
            }
            j = j + 1;
        }
        assert(addrs.take(rec.contract_addresses.len() as int) =~= addrs);
        let ghost new_view = rec@;
        self.xa_transactions.insert(id.clone(), rec);
        proof {
            let old_p = old(self);
            let r1 = self.xa_records();
            assert(new_view =~= finalized(r0[id@], status, timestamp));
            assert(r1 =~= r0.insert(id@, new_view));
            assert(addrs == r0[id@].contract_addresses);
            assert forall|a: Seq<char>| addrs.to_set().contains(a) <==> addrs.contains(a) by {}
            assert(self.lock_owners() =~= old_p.without_locks_of(id@));
            assert(r1.dom() =~= r0.dom());
            r0.dom().lemma_len_filter(|k: Seq<char>| r0[k].status == XaStatus::Processing);
            assert(self.open_ids() =~= old_p.open_ids().remove(id@));
            assert(old_p.open_ids().contains(id@));
            assert forall|q: int| 0 <= q < self.xa_transaction_ids.len() implies r1.contains_key(
                #[trigger] self.xa_transaction_ids@[q]@,
            ) by {
                assert(r0.contains_key(old_p.xa_transaction_ids@[q]@));
            }
            assert forall|q: Seq<char>| #[trigger] r1.contains_key(q) implies record_wf(r1[q]) by {
                assert(r0.contains_key(q));
            }
            assert forall|a: Seq<char>| #[trigger] self.locked_contracts@.contains_key(a) implies {
                &&& self.locked_contracts@[a].locked
                &&& self.is_open(self.lock_owners()[a])
                &&& self.xa_records()[self.lock_owners()[a]].contract_addresses.contains(a)
            } by {
                assert(old_p.locked_contracts@.contains_key(a));
                assert(self.lock_owners()[a] == old_p.lock_owners()[a]);
                if old_p.lock_owners()[a] == id@ {
                    assert(addrs.contains(a));
                }
            }
            assert forall|q: Seq<char>, a: Seq<char>|
                self.is_open(q) && #[trigger] self.xa_records()[q].contract_addresses.contains(a)
                    implies #[trigger] self.lock_owners().contains_key(a) && self.lock_owners()[a]
                == q by {
                assert(q != id@);
                assert(old_p.is_open(q));
                assert(old_p.xa_records()[q].contract_addresses.contains(a));
                assert(old_p.lock_owners().contains_key(a));
                if addrs.contains(a) {
                    assert(old_p.lock_owners()[a] == id@);
                }
            }
        }
    }

    /// Commits the open transaction `id` at `now_ms`: it becomes committed,
    /// its locks are released and the head of the task queue advances by
    /// one. A finalized or unknown transaction is refused and nothing
    /// changes.
    pub fn commitXATransaction(&mut self, id: String, now_ms: u64) -> (r: Result<String, ProxyError>)
        requires
            old(self).wf(),
        ensures
            final(self).wf(),
            r is Ok <==> old(self).finalize_error(id@) is None,
            r is Err ==> *final(self) == *old(self) && Some(r->Err_0@) == old(self).finalize_error(id@),
            r is Ok ==> {
                &&& r->Ok_0@ == SUCCESS_FLAG@
                &&& final(self).xa_records() == old(self).xa_records().insert(
                    id@,
                    finalized(old(self).xa_records()[id@], XaStatus::Committed, now_ms / 1000),
                )
                &&& final(self).lock_owners() == old(self).without_locks_of(id@)
                &&& final(self).head_index() == old(self).head_index() + 1
                &&& final(self).task_ids() == old(self).task_ids()
                &&& final(self).cached_results() == old(self).cached_results()
                &&& final(self).path_list() == old(self).path_list()
            },
    {
        match self.xa_transactions.get(&id) {
            None => {
                return Err(ProxyError::TransactionNotFound);
            },
            Some(rec) => {
                assert(rec@ == self.xa_records()[id@]);
                if rec.status == XaStatus::Committed {
                    return Err(ProxyError::AlreadyCommitted);
                }
                if rec.status == XaStatus::Rolledback {
                    return Err(ProxyError::AlreadyRolledback);
                }
            },
        }
        self.finalize(&id, XaStatus::Committed, now_ms / 1000);
        self.head = self.head + 1;
        Ok(String::from_str(SUCCESS_FLAG))
    }

    /// Why a step of `id` numbered `seq` on the resource at `path`, which
    /// resolved to `resolved`, is refused, if it is.
    pub open spec fn step_error(&self, id: Seq<char>, seq: u64, path: Seq<char>, resolved: Seq<char>) -> Option<
        ErrorView,
    > {
        if resolved.len() == 0 {
            Some(ErrorView::AddressNotExist)
        } else if self.finalize_error(id) is Some {
            self.finalize_error(id)
        } else if !(self.lock_owners().contains_key(resolved) && self.lock_owners()[resolved] == id) {
            Some(ErrorView::ResourceUnregistered { path, id })
        } else if self.xa_records()[id].seqs.len() > 0 && seq <= self.xa_records()[id].seqs.last() {
            Some(ErrorView::NonMonotonicSequence)
        } else {
            None
        }
    }

    /// Why a read of the resource at `path`, which resolved to `resolved`,
    /// within the transaction `id` is refused, if it is.
    pub open spec fn xa_call_error(&self, id: Seq<char>, path: Seq<char>, resolved: Seq<char>) -> Option<
        ErrorView,
    > {
        if resolved.len() == 0 {
            Some(ErrorView::AddressNotExist)
        } else if !self.xa_records().contains_key(id) {
            Some(ErrorView::TransactionNotFound)
        } else if !(self.lock_owners().contains_key(resolved) && self.lock_owners()[resolved] == id) {
            Some(ErrorView::ResourceUnregistered { path, id })
        } else {
            None
        }
    }

    /// Why a call outside any transaction on the resource `name`, which
    /// resolved to `resolved`, is refused, if it is.
    pub open spec fn plain_call_error(&self, name: Seq<char>, resolved: Seq<char>) -> Option<ErrorView> {
        if resolved.len() == 0 {
            Some(ErrorView::AddressNotExist)
        } else if self.lock_owners().contains_key(resolved) {
            Some(ErrorView::ResourceLocked { path: name, owner: self.lock_owners()[resolved] })
        } else {
            None
        }
    }

    /// The result cached under `uid`, if a call with that uid completed.
    pub fn cached_result(&self, uid: &String) -> (r: Option<Vec<u8>>)
        requires
            self.wf(),
        ensures
            match r {
                Some(v) => self.cached_results().contains_key(uid@) && v@ == self.cached_results()[uid@],
                None => !self.cached_results().contains_key(uid@),
            },
    {
        match self.transactions.get(uid) {
            Some(t) => Some(copy_bytes(&t.result)),
            None => None,
        }
    }

    /// Checks a step before the remote invocation is made.
    pub fn check_step(&self, id: &String, seq: u64, path: &String, resolved: &String) -> (r: Result<
        (),
        ProxyError,
    >)
        requires
            self.wf(),
        ensures
            r is Ok <==> self.step_error(id@, seq, path@, resolved@) is None,
            r is Err ==> Some(r->Err_0@) == self.step_error(id@, seq, path@, resolved@),
    {
        if resolved.unicode_len() == 0 {
            return Err(ProxyError::AddressNotExist);
        }
        match self.xa_transactions.get(id) {
            None => {
                return Err(ProxyError::TransactionNotFound);
            },
            Some(rec) => {
                assert(rec@ == self.xa_records()[id@]);
                if rec.status == XaStatus::Committed {
                    return Err(ProxyError::AlreadyCommitted);
                }
                if rec.status == XaStatus::Rolledback {
                    return Err(ProxyError::AlreadyRolledback);
                }
                let owned = match self.locked_contracts.get(resolved) {
                    Some(status) => status.xa_transaction_id.eq(id),
                    None => false,
                };
                if !owned {
                    return Err(ProxyError::ResourceUnregistered { path: path.clone(), id: id.clone() });
                }
                let n = rec.seqs.len();
                if n > 0 && seq <= rec.seqs[n - 1] {
                    return Err(ProxyError::NonMonotonicSequence);
                }
            },
        }
        Ok(())
    }

    /// A step of the open transaction `id`: `seq` is its sequence number,
    /// `path` the resource, `func` the invoked signature and `args` its
    /// encoded arguments. `resolved` is the address `path` resolved to,
    /// `origin` the caller, `now_ms` the wall clock and `result` what the
    /// remote invocation returned. A uid seen before returns its cached
    /// result and changes nothing. Otherwise, when the step is accepted, it
    /// is recorded after the earlier ones and `result` is cached under
    /// `uid` and returned; when it is refused nothing changes.
    pub fn sendTransactionWithXa(
        &mut self,
        uid: String,
        id: String,
        seq: u64,
        path: String,
        func: String,
        args: Vec<u8>,
        resolved: String,
        origin: String,
        now_ms: u64,
        result: Vec<u8>,
    ) -> (r: Result<Vec<u8>, ProxyError>)
        requires
            old(self).wf(),
        ensures
            final(self).wf(),
            old(self).cached_results().contains_key(uid@) ==> r is Ok && r->Ok_0@ == old(
                self,
            ).cached_results()[uid@] && *final(self) == *old(self),
            !old(self).cached_results().contains_key(uid@) ==> {
                &&& r is Ok <==> old(self).step_error(id@, seq, path@, resolved@) is None
                &&& r is Err ==> *final(self) == *old(self) && Some(r->Err_0@) == old(self).step_error(
                    id@,
                    seq,
                    path@,
                    resolved@,
                )
                &&& r is Ok ==> {
                    &&& r->Ok_0@ == result@
                    &&& final(self).xa_records() == old(self).xa_records().insert(
                        id@,
                        with_step(
                            old(self).xa_records()[id@],
                            seq,
                            StepView {
                                account_identity: origin@,
                                timestamp: now_ms / 1000,
                                path: path@,
                                contract_address: resolved@,
                                func: func@,
                                args: args@,
                            },
                        ),
                    )
                    &&& final(self).cached_results() == old(self).cached_results().insert(uid@, result@)
                    &&& final(self).lock_owners() == old(self).lock_owners()
                    &&& final(self).task_ids() == old(self).task_ids()
                    &&& final(self).head_index() == old(self).head_index()
                    &&& final(self).path_list() == old(self).path_list()
                }
            },
    {
        match self.cached_result(&uid) {
            Some(v) => {
                return Ok(v);
            },
            None => {},
        }
        match self.check_step(&id, seq, &path, &resolved) {
            Err(e) => {
                return Err(e);
            },
            Ok(()) => {},
        }
        let ghost r0 = self.xa_records();
        let ghost step = StepView {
            account_identity: origin@,
            timestamp: now_ms / 1000,
            path: path@,
            contract_address: resolved@,
            func: func@,
            args: args@,
        };
        let mut rec = self.xa_transactions.remove(&id).unwrap();
        assert(rec@ == r0[id@]);
        let ghost old_steps = rec.steps@;
        rec.seqs.push(seq);
        rec.steps.push(
            XATransactionStep {
                account_identity: origin,
                timestamp: now_ms / 1000,
                path,
                contract_address: resolved,
                func,
                args,
            },
        );
        let ghost new_view = rec@;
        assert(step_views(rec.steps@) =~= step_views(old_steps).push(step));
        assert(new_view =~= with_step(r0[id@], seq, step));
        self.xa_transactions.insert(id, rec);
        let cached = copy_bytes(&result);
        self.transactions.insert(uid, Transaction { existed: true, result: cached });
        proof {
            let old_p = old(self);
            let r1 = self.xa_records();
            assert(r1 =~= r0.insert(id@, new_view));
            assert(self.cached_results() =~= old_p.cached_results().insert(uid@, result@));
            assert(self.lock_owners() =~= old_p.lock_owners());
            assert(r1.dom() =~= r0.dom());
            assert(self.open_ids() =~= old_p.open_ids());
            assert forall|q: int| 0 <= q < self.xa_transaction_ids.len() implies r1.contains_key(
                #[trigger] self.xa_transaction_ids@[q]@,
            ) by {
                assert(r0.contains_key(old_p.xa_transaction_ids@[q]@));
            }
            assert forall|q: Seq<char>| #[trigger] r1.contains_key(q) implies record_wf(r1[q]) by {
                assert(r0.contains_key(q));
                assert(record_wf(r0[q]));
            }
            assert forall|a: Seq<char>| #[trigger] self.locked_contracts@.contains_key(a) implies {
                &&& self.locked_contracts@[a].locked
                &&& self.is_open(self.lock_owners()[a])
                &&& self.xa_records()[self.lock_owners()[a]].contract_addresses.contains(a)
            } by {
                assert(old_p.locked_contracts@.contains_key(a));
            }
            assert forall|q: Seq<char>, a: Seq<char>|
                self.is_open(q) && #[trigger] self.xa_records()[q].contract_addresses.contains(a)
                    implies #[trigger] self.lock_owners().contains_key(a) && self.lock_owners()[a]
                == q by {
                assert(old_p.is_open(q));
                assert(old_p.xa_records()[q].contract_addresses.contains(a));
            }
        }
        Ok(result)
    }

    /// Checks a read within the transaction `id` before the remote
    /// invocation is made: the resource must be locked by `id`.
    pub fn constantCallWithXa(&self, id: &String, path: &String, resolved: &String) -> (r: Result<
        (),
        ProxyError,
    >)
        requires
            self.wf(),
        ensures
            r is Ok <==> self.xa_call_error(id@, path@, resolved@) is None,
            r is Err ==> Some(r->Err_0@) == self.xa_call_error(id@, path@, resolved@),
    {
        if resolved.unicode_len() == 0 {
            return Err(ProxyError::AddressNotExist);
        }
        if !self.xa_transactions.contains_key(id) {
            return Err(ProxyError::TransactionNotFound);
        }
        let owned = match self.locked_contracts.get(resolved) {
            Some(status) => status.xa_transaction_id.eq(id),
            None => false,
        };
        if !owned {
            return Err(ProxyError::ResourceUnregistered { path: path.clone(), id: id.clone() });
        }
        Ok(())
    }

    /// Checks a call outside any transaction before the remote invocation
    /// is made: the resource must not be locked.
    pub fn constantCall(&self, name: &String, resolved: &String) -> (r: Result<(), ProxyError>)
        requires
            self.wf(),
        ensures
            r is Ok <==> self.plain_call_error(name@, resolved@) is None,
            r is Err ==> Some(r->Err_0@) == self.plain_call_error(name@, resolved@),
    {
        if resolved.unicode_len() == 0 {
            return Err(ProxyError::AddressNotExist);
        }
        match self.locked_contracts.get(resolved) {
            Some(status) => Err(
                ProxyError::ResourceLocked { path: name.clone(), owner: status.xa_transaction_id.clone() },
            ),
            None => Ok(()),
        }
    }

    /// A call outside any transaction on the resource `name`, which
    /// resolved to `resolved`; `result` is what the remote invocation
    /// returned. A uid seen before returns its cached result and changes
    /// nothing; otherwise, when the resource is not locked, `result` is
    /// cached under `uid` and returned, and when it is refused nothing
    /// changes.
    pub fn sendTransaction(&mut self, uid: String, name: String, resolved: String, result: Vec<u8>) -> (r:
        Result<Vec<u8>, ProxyError>)
        requires
            old(self).wf(),
        ensures
            final(self).wf(),
            old(self).cached_results().contains_key(uid@) ==> r is Ok && r->Ok_0@ == old(
                self,
            ).cached_results()[uid@] && *final(self) == *old(self),
            !old(self).cached_results().contains_key(uid@) ==> {
                &&& r is Ok <==> old(self).plain_call_error(name@, resolved@) is None
                &&& r is Err ==> *final(self) == *old(self) && Some(r->Err_0@) == old(
                    self,
                ).plain_call_error(name@, resolved@)
                &&& r is Ok ==> {
                    &&& r->Ok_0@ == result@
                    &&& final(self).cached_results() == old(self).cached_results().insert(uid@, result@)
                    &&& final(self).xa_records() == old(self).xa_records()
                    &&& final(self).lock_owners() == old(self).lock_owners()
                    &&& final(self).task_ids() == old(self).task_ids()
                    &&& final(self).head_index() == old(self).head_index()
                    &&& final(self).path_list() == old(self).path_list()
                }
            },
    {
        match self.cached_result(&uid) {
            Some(v) => {
                return Ok(v);
            },
            None => {},
        }
        match self.constantCall(&name, &resolved) {
            Err(e) => {
                return Err(e);
            },
            Ok(()) => {},
        }
        let cached = copy_bytes(&result);
        self.transactions.insert(uid, Transaction { existed: true, result: cached });
        assert(self.cached_results() =~= old(self).cached_results().insert(uid@, result@));
        assert(self.xa_records() =~= old(self).xa_records());
        assert(self.lock_owners() =~= old(self).lock_owners());
        assert(self.open_ids() =~= old(self).open_ids());
        Ok(result)
    }

    /// Why `rollbackAndDeleteXATransactionTask` cannot remove `id` from
    /// the head of the task queue, if it cannot.
    pub open spec fn delete_task_error(&self, id: Seq<char>) -> Option<ErrorView> {
        if self.head_index() == self.task_ids().len() {
            Some(ErrorView::NoPendingTask)
        } else if self.task_ids()[self.head_index() as int] != id {
            Some(ErrorView::UnmatchedHead)
        } else {
            None
        }
    }

    /// Checks an acknowledgment of `id` before any compensating call is
    /// made: the transaction must be open and stand at the head of the
    /// task queue.
    pub fn check_delete_task(&self, id: &String) -> (r: Result<(), ProxyError>)
        requires
            self.wf(),
        ensures
            r is Ok <==> self.finalize_error(id@) is None && self.delete_task_error(id@) is None,
            r is Err && self.finalize_error(id@) is Some ==> Some(r->Err_0@) == self.finalize_error(id@),
            r is Err && self.finalize_error(id@) is None ==> Some(r->Err_0@) == self.delete_task_error(id@),
    {
        match self.xa_transactions.get(id) {
            None => {
                return Err(ProxyError::TransactionNotFound);
            },
            Some(rec) => {
                assert(rec@ == self.xa_records()[id@]);
                if rec.status == XaStatus::Committed {
                    return Err(ProxyError::AlreadyCommitted);
                }
                if rec.status == XaStatus::Rolledback {
                    return Err(ProxyError::AlreadyRolledback);
                }
            },
        }
        if self.head == self.xa_transaction_ids.len() {
            return Err(ProxyError::NoPendingTask);
        }
        assert(self.task_ids()[self.head as int] == self.xa_transaction_ids@[self.head as int]@);
        if !self.xa_transaction_ids[self.head].eq(id) {
            return Err(ProxyError::UnmatchedHead);
        }
        Ok(())
    }

    /// The compensating calls of a rollback of the open transaction `id`:
    /// one per recorded step, latest step first, each to the step's address
    /// with the compensating signature and the step's own arguments.
    pub fn rollbackPlan(&self, id: &String) -> (r: Result<Vec<Compensation>, ProxyError>)
        requires
            self.wf(),
        ensures
            r is Ok <==> self.finalize_error(id@) is None,
            r is Err ==> Some(r->Err_0@) == self.finalize_error(id@),
            r is Ok ==> compensations_of(r->Ok_0@, self.xa_records()[id@].steps),
    {
        match self.xa_transactions.get(id) {
            None => Err(ProxyError::TransactionNotFound),
            Some(rec) => {
                assert(rec@ == self.xa_records()[id@]);
                if rec.status == XaStatus::Committed {
                    return Err(ProxyError::AlreadyCommitted);
                }
                if rec.status == XaStatus::Rolledback {
                    return Err(ProxyError::AlreadyRolledback);
                }
                let ghost steps = step_views(rec.steps@);
                let n = rec.steps.len();
                let mut plan: Vec<Compensation> = Vec::new();
                let mut k: usize = 0;
                while k < n
                    invariant
                        k <= n,
                        n == rec.steps.len(),
                        steps == step_views(rec.steps@),
                        plan.len() == k,
                        forall|j: int|
                            0 <= j < k ==> compensates(#[trigger] plan@[j], steps[n - 1 - j]),
                    decreases n - k,
                {
                    let step = &rec.steps[n - 1 - k];
                    assert(steps[n - 1 - k] == step@);
                    plan.push(
                        Compensation {
                            address: step.contract_address.clone(),
                            func: getRevertFunc(&step.func),
                            args: copy_bytes(&step.args),
                        },
                    );
                    k = k + 1;
                }
                Ok(plan)
            },
        }
    }

    /// The warning text of a rollback of `id` whose compensating calls
    /// (in the order of `rollbackPlan`) ended with `statuses`.
    fn rollback_message(&self, id: &String, statuses: &Vec<u32>) -> (r: String)
        requires
            self.wf(),
            self.xa_records().contains_key(id@),
            statuses.len() == self.xa_records()[id@].steps.len(),
        ensures
            r@ == rollback_text(self.xa_records()[id@].steps, statuses@),
    {
        let rec = self.xa_transactions.get(id).unwrap();
        assert(rec@ == self.xa_records()[id@]);
        let ghost steps = step_views(rec.steps@);
        let n = rec.steps.len();
        let mut message = String::from_str("warning:");
        let mut failed = false;
        let mut k: usize = 0;
        while k < n
            invariant
                k <= n,
                n == rec.steps.len(),
                n == statuses.len(),
                steps == step_views(rec.steps@),
                message@ == "warning:"@ + revert_warnings(steps, statuses@, k as nat),
                failed == exists|j: int| 0 <= j < k && statuses@[j] != 0,
            decreases n - k,
        {
            if statuses[k] != 0 {
                let step = &rec.steps[n - 1 - k];
                assert(steps[n - 1 - k] == step@);
                message.append(" revert \"");
                message.append(step.func.as_str());
                message.append("\" failed.'");
                failed = true;
            }
            assert(message@ =~= "warning:"@ + revert_warnings(steps, statuses@, (k + 1) as nat));
            k = k + 1;
        }
        if failed {
            message
        } else {
            String::from_str(SUCCESS_FLAG)
        }
    }

    /// Rolls back the open transaction `id` at `now_ms`. `statuses` holds
    /// the status of each compensating call of `rollbackPlan`, in its order
    /// (zero for success). A failed compensation does not stop the
    /// rollback: the transaction becomes rolled back and its locks are
    /// released whatever the statuses, and the result is `success` or the
    /// warning text naming each failed step. A finalized or unknown
    /// transaction is refused and nothing changes.
    pub fn rollbackXATransaction(&mut self, id: String, statuses: &Vec<u32>, now_ms: u64) -> (r: Result<
        String,
        ProxyError,
    >)
        requires
            old(self).wf(),
            old(self).finalize_error(id@) is None ==> statuses.len() == old(
                self,
            ).xa_records()[id@].steps.len(),
        ensures
            final(self).wf(),
            r is Ok <==> old(self).finalize_error(id@) is None,
            r is Err ==> *final(self) == *old(self) && Some(r->Err_0@) == old(self).finalize_error(id@),
            r is Ok ==> {
                &&& r->Ok_0@ == rollback_text(old(self).xa_records()[id@].steps, statuses@)
                &&& final(self).xa_records() == old(self).xa_records().insert(
                    id@,
                    finalized(old(self).xa_records()[id@], XaStatus::Rolledback, now_ms / 1000),
                )
                &&& final(self).lock_owners() == old(self).without_locks_of(id@)
                &&& final(self).head_index() == old(self).head_index()
                &&& final(self).task_ids() == old(self).task_ids()
                &&& final(self).cached_results() == old(self).cached_results()
                &&& final(self).path_list() == old(self).path_list()
            },
    {
        match self.xa_transactions.get(&id) {
            None => {
                return Err(ProxyError::TransactionNotFound);
            },
            Some(rec) => {
                assert(rec@ == self.xa_records()[id@]);
                if rec.status == XaStatus::Committed {
                    return Err(ProxyError::AlreadyCommitted);
                }
                if rec.status == XaStatus::Rolledback {
                    return Err(ProxyError::AlreadyRolledback);
                }
            },
        }
        let message = self.rollback_message(&id, statuses);
        self.finalize(&id, XaStatus::Rolledback, now_ms / 1000);
        Ok(message)
    }

    /// Rolls back the open transaction `id`, as `rollbackXATransaction`
    /// does once the compensating calls of `rollbackPlan` were made, and
    /// removes it from the head of the task queue, where it must stand.
    /// Returns `success` whatever the compensations gave; when either part
    /// is refused nothing changes.
    pub fn rollbackAndDeleteXATransactionTask(&mut self, id: String, now_ms: u64) -> (r: Result<
        String,
        ProxyError,
    >)
        requires
            old(self).wf(),
        ensures
            final(self).wf(),
            r is Ok <==> old(self).finalize_error(id@) is None && old(self).delete_task_error(id@) is None,
            r is Err ==> *final(self) == *old(self),
            r is Err && old(self).finalize_error(id@) is Some ==> Some(r->Err_0@) == old(
                self,
            ).finalize_error(id@),
            r is Err && old(self).finalize_error(id@) is None ==> Some(r->Err_0@) == old(
                self,
            ).delete_task_error(id@),
            r is Ok ==> {
                &&& r->Ok_0@ == SUCCESS_FLAG@
                &&& final(self).xa_records() == old(self).xa_records().insert(
                    id@,
                    finalized(old(self).xa_records()[id@], XaStatus::Rolledback, now_ms / 1000),
                )
                &&& final(self).lock_owners() == old(self).without_locks_of(id@)
                &&& final(self).head_index() == old(self).head_index() + 1
                &&& final(self).task_ids() == old(self).task_ids()
                &&& final(self).cached_results() == old(self).cached_results()
                &&& final(self).path_list() == old(self).path_list()
            },
    {
        match self.check_delete_task(&id) {
            Err(e) => {
                return Err(e);
            },
            Ok(()) => {},
        }
        self.finalize(&id, XaStatus::Rolledback, now_ms / 1000);
        self.head = self.head + 1;
        Ok(String::from_str(SUCCESS_FLAG))
    }

    /// The position in the task list where a listing starts: the latest
    /// for `-1`, otherwise the number that `index` denotes (0 when it
    /// denotes none).
    pub open spec fn list_start(&self, index: Seq<char>) -> int {
        if index == "-1"@ {
            if self.task_ids().len() == 0 {
                0
            } else {
                self.task_ids().len() - 1
            }
        } else {
            match parse_u32_spec(index) {
                Some(v) => v as int,
                None => 0,
            }
        }
    }

    /// The list entries of a window of `count` transactions going back from
    /// position `start` of the task list.
    pub open spec fn list_entries(&self, start: int, count: nat) -> Seq<Seq<char>> {
        Seq::new(
            count,
            |j: int| summary_json(self.task_ids()[start - j], self.xa_records()[self.task_ids()[start - j]]),
        )
    }

    /// The answer of `listXATransactions`.
    pub open spec fn list_json(&self, index: Seq<char>, size: u64) -> Seq<char> {
        let len = self.task_ids().len();
        let start = self.list_start(index);
        if len == 0 || len <= start {
            empty_list_json()
        } else {
            let count = if size < start + 1 { size as nat } else { (start + 1) as nat };
            "{\"total\":"@ + decimal(len) + ",\"xaTransactions\":["@ + comma_join(
                self.list_entries(start, count),
            ) + "]}"@
        }
    }

    /// The answer of `getXATransactionState` on an address that resolved.
    pub open spec fn state_text(&self, resolved: Seq<char>) -> Seq<char> {
        if !self.lock_owners().contains_key(resolved) {
            NULL_FLAG@
        } else {
            let owner = self.lock_owners()[resolved];
            let seqs = self.xa_records()[owner].seqs;
            owner + " "@ + if seqs.len() == 0 {
                "0"@
            } else {
                decimal(seqs.last() as nat)
            }
        }
    }

    /// The number of transactions started so far, in decimal.
    pub fn getXATransactionNumber(&self) -> (r: String)
        requires
            self.wf(),
        ensures
            r@ == decimal(self.task_ids().len()),
    {
        u64_to_string(self.xa_transaction_ids.len() as u64)
    }

    /// Appends the list entry of the transaction `id` to `out`.
    fn push_summary(out: &mut String, id: &String, rec: &XATransaction)
        ensures
            final(out)@ == old(out)@ + summary_json(id@, rec@),
    {
        out.append("{\"xaTransactionID\":");
        push_quoted(out, id.as_str());
        out.append(",\"accountIdentity\":");
        push_quoted(out, rec.account_identity.as_str());
        out.append(",\"status\":");
        push_quoted(out, rec.status.as_str());
        out.append(",\"paths\":");
        let paths = serialize_string_array(&rec.paths);
        out.append(paths.as_str());
        out.append(",\"timestamp\":");
        push_decimal(out, rec.start_timestamp);
        out.append("}");
        assert(final(out)@ =~= old(out)@ + summary_json(id@, rec@));
    }

    /// Appends the detail entry of the step numbered `seq` to `out`.
    fn push_step(out: &mut String, seq: u64, step: &XATransactionStep)
        ensures
            final(out)@ == old(out)@ + step_json(seq, step@),
    {
        out.append("{\"xaTransactionSeq\":");
        push_decimal(out, seq);
        out.append(",\"accountIdentity\":");
        push_quoted(out, step.account_identity.as_str());
        out.append(",\"path\":");
        push_quoted(out, step.path.as_str());
        out.append(",\"timestamp\":");
        push_decimal(out, step.timestamp);
        out.append(",\"method\":");
        let method = getMethodFromFunc(&step.func);
        push_quoted(out, method.as_str());
        out.append(",\"args\":\"");
        let hex = bytes_to_hex(&step.args);
        out.append(hex.as_str());
        out.append("\"}");
        assert(final(out)@ =~= old(out)@ + step_json(seq, step@));
    }

    /// Appends the full detail of the transaction `id` to `out`.
    fn push_detail(out: &mut String, id: &String, rec: &XATransaction)
        requires
            record_wf(rec@),
        ensures
            final(out)@ == old(out)@ + detail_json(id@, rec@),
    {
        out.append("{\"xaTransactionID\":");
        push_quoted(out, id.as_str());
        out.append(",\"accountIdentity\":");
        push_quoted(out, rec.account_identity.as_str());
        out.append(",\"status\":");
        push_quoted(out, rec.status.as_str());
        out.append(",\"paths\":");
        let paths = serialize_string_array(&rec.paths);
        out.append(paths.as_str());
        out.append(",\"startTimestamp\":");
        push_decimal(out, rec.start_timestamp);
        out.append(",\"commitTimestamp\":");
        push_decimal(out, rec.commit_timestamp);
        out.append(",\"rollbackTimestamp\":");
        push_decimal(out, rec.rollback_timestamp);
        out.append(",\"xaTransactionSteps\":[");
        let ghost head = out@;
        let ghost t = rec@;
        let n = rec.steps.len();
        let mut i: usize = 0;
        assert(step_entries(t, 0) =~= Seq::<Seq<char>>::empty());
        while i < n
            invariant
                i <= n,
                n == rec.steps.len(),
                n == rec.seqs.len(),
                t == rec@,
                out@ == head + comma_join(step_entries(t, i as nat)),
            decreases n - i,
        {
            let ghost before = out@;
            if i > 0 {
                out.append(",");
            }
            Self::push_step(out, rec.seqs[i], &rec.steps[i]);
            proof {
                assert(t.steps[i as int] == rec.steps@[i as int]@);
                let e = step_json(t.seqs[i as int], t.steps[i as int]);
                assert(step_entries(t, (i + 1) as nat) =~= step_entries(t, i as nat).push(e));
                lemma_comma_join_push(step_entries(t, i as nat), e);
                reveal_strlit(",");
                assert(out@ =~= head + comma_join(step_entries(t, (i + 1) as nat)));
            }
            i = i + 1;
        }
        out.append("]}");
        assert(final(out)@ =~= old(out)@ + detail_json(id@, rec@));
    }

    /// The window of at most `size` transactions going back from position
    /// `index` of the task list (`-1` for the latest), latest first, with
    /// the total count; a window that starts past the end is empty.
    pub fn listXATransactions(&self, index: String, size: u64) -> (r: String)
        requires
            self.wf(),
            size > 0,
        ensures
            r@ == self.list_json(index@, size),
    {
        let len = self.xa_transaction_ids.len();
        let minus_one = String::from_str("-1");
        let start: usize = if index.eq(&minus_one) {
            if len == 0 {
                0
            } else {
                len - 1
            }
        } else {
            match parse_u32(index.as_str()) {
                Some(v) => v as usize,
                None => 0,
            }
        };
        assert(start as int == self.list_start(index@));
        if len == 0 || len <= start {
            return String::from_str("{\"tota\":0,\"xaTransactions\":[]}");
        }
        let avail = start + 1;
        let count: usize = if size < avail as u64 {
            size as usize
        } else {
            avail
        };
        let mut out = String::from_str("{\"total\":");
        push_decimal(&mut out, len as u64);
        out.append(",\"xaTransactions\":[");
        let ghost head = out@;
        let mut j: usize = 0;
        assert(self.list_entries(start as int, 0) =~= Seq::<Seq<char>>::empty());
        while j < count
            invariant
                self.wf(),
                j <= count,
                count <= start + 1,
                start < len,
                len == self.xa_transaction_ids.len(),
                out@ == head + comma_join(self.list_entries(start as int, j as nat)),
            decreases count - j,
        {
            if j > 0 {
                out.append(",");
            }
            let id = &self.xa_transaction_ids[start - j];
            assert(self.task_ids()[start - j] == id@);
            assert(self.xa_records().contains_key(self.xa_transaction_ids@[start - j]@));
            let rec = self.xa_transactions.get(id).unwrap();
            assert(rec@ == self.xa_records()[id@]);
            Self::push_summary(&mut out, id, rec);
            proof {
                let e = summary_json(id@, rec@);
                assert(self.list_entries(start as int, (j + 1) as nat) =~= self.list_entries(
                    start as int,
                    j as nat,
                ).push(e));
                lemma_comma_join_push(self.list_entries(start as int, j as nat), e);
                reveal_strlit(",");
                assert(out@ =~= head + comma_join(self.list_entries(start as int, (j + 1) as nat)));
            }
            j = j + 1;
        }
        out.append("]}");
        assert(out@ =~= self.list_json(index@, size));
        out
    }

    /// The full detail of the transaction `id`, its steps included.
    pub fn getXATransaction(&self, id: String) -> (r: Result<String, ProxyError>)
        requires
            self.wf(),
        ensures
            self.xa_records().contains_key(id@) ==> r is Ok && r->Ok_0@ == detail_json(
                id@,
                self.xa_records()[id@],
            ),
            !self.xa_records().contains_key(id@) ==> r is Err && r->Err_0@
                == ErrorView::TransactionNotFound,
    {
        match self.xa_transactions.get(&id) {
            None => Err(ProxyError::TransactionNotFound),
            Some(rec) => {
                assert(rec@ == self.xa_records()[id@]);
                let mut out = String::new();
                Self::push_detail(&mut out, &id, rec);
                assert(out@ =~= detail_json(id@, rec@));
                Ok(out)
            },
        }
    }

    /// The full detail of the oldest unacknowledged transaction, or `{}`
    /// when the task queue is empty.
    pub fn getLatestXATransaction(&self) -> (r: String)
        requires
            self.wf(),
        ensures
            self.head_index() == self.task_ids().len() ==> r@ == "{}"@,
            self.head_index() < self.task_ids().len() ==> r@ == detail_json(
                self.task_ids()[self.head_index() as int],
                self.xa_records()[self.task_ids()[self.head_index() as int]],
            ),
    {
        if self.head == self.xa_transaction_ids.len() {
            return String::from_str("{}");
        }
        let id = &self.xa_transaction_ids[self.head];
        assert(self.xa_records().contains_key(self.xa_transaction_ids@[self.head as int]@));
        let rec = self.xa_transactions.get(id).unwrap();
        assert(rec@ == self.xa_records()[id@]);
        let mut out = String::new();
        Self::push_detail(&mut out, id, rec);
        assert(out@ =~= detail_json(id@, rec@));
        out
    }

    /// The id of the oldest unacknowledged transaction, or `null` when the
    /// task queue is empty.
    pub fn getLatestXATransactionID(&self) -> (r: String)
        requires
            self.wf(),
        ensures
            self.head_index() == self.task_ids().len() ==> r@ == NULL_FLAG@,
            self.head_index() < self.task_ids().len() ==> r@ == self.task_ids()[self.head_index() as int],
    {
        if self.head == self.xa_transaction_ids.len() {
            String::from_str(NULL_FLAG)
        } else {
            self.xa_transaction_ids[self.head].clone()
        }
    }

    /// The lock state of the resource at `path`, which resolved to
    /// `resolved`: `null` when it is not locked, otherwise the owning
    /// transaction and its last sequence number (0 before any step).
    pub fn getXATransactionState(&self, path: &String, resolved: &String) -> (r: Result<String, ProxyError>)
        requires
            self.wf(),
        ensures
            resolved@.len() == 0 ==> r is Err && r->Err_0@ == ErrorView::AddressNotExist,
            resolved@.len() > 0 ==> r is Ok && r->Ok_0@ == self.state_text(resolved@),
    {
        if resolved.unicode_len() == 0 {
            return Err(ProxyError::AddressNotExist);
        }
        match self.locked_contracts.get(resolved) {
            None => Ok(String::from_str(NULL_FLAG)),
            Some(status) => {
                let owner = &status.xa_transaction_id;
                assert(self.is_open(owner@));
                let rec = self.xa_transactions.get(owner).unwrap();
                assert(rec@ == self.xa_records()[owner@]);
                let mut out = owner.clone();
                out.append(" ");
                let n = rec.seqs.len();
                if n == 0 {
                    out.append("0");
                } else {
                    push_decimal(&mut out, rec.seqs[n - 1]);
                }
                assert(out@ =~= self.state_text(resolved@));
                Ok(out)
            },
        }
    }

    /// Why linking the resource at `path`, which currently resolves to
    /// `resolved` (empty when it does not), is refused before the locator
    /// is asked, if it is: a locked resource cannot be repointed.
    pub open spec fn link_error(&self, path: Seq<char>, resolved: Seq<char>) -> Option<ErrorView> {
        if resolved.len() > 0 && self.lock_owners().contains_key(resolved) {
            Some(ErrorView::ResourceLocked { path: name_of_path(path), owner: self.lock_owners()[resolved] })
        } else {
            None
        }
    }

    /// Checks a link of the resource at `path` before the locator is asked.
    pub fn check_link(&self, path: &String, resolved: &String) -> (r: Result<(), ProxyError>)
        requires
            self.wf(),
        ensures
            r is Ok <==> self.link_error(path@, resolved@) is None,
            r is Err ==> Some(r->Err_0@) == self.link_error(path@, resolved@),
    {
        if resolved.unicode_len() > 0 {
            match self.locked_contracts.get(resolved) {
                Some(status) => {
                    return Err(
                        ProxyError::ResourceLocked {
                            path: getNameByPath(path),
                            owner: status.xa_transaction_id.clone(),
                        },
                    );
                },
                None => {},
            }
        }
        Ok(())
    }

    /// Links the resource at `path` in the locator; `resolved` is what
    /// `path` resolved to before and `link_status` what the locator
    /// answered (zero for success). On success `path` joins the path cache;
    /// otherwise nothing changes.
    pub fn linkBFS(&mut self, path: String, resolved: &String, link_status: i32) -> (r: Result<
        (),
        ProxyError,
    >)
        requires
            old(self).wf(),
        ensures
            final(self).wf(),
            r is Ok <==> old(self).link_error(path@, resolved@) is None && link_status == 0,
            r is Err ==> *final(self) == *old(self),
            old(self).link_error(path@, resolved@) is Some ==> r is Err && Some(r->Err_0@) == old(
                self,
            ).link_error(path@, resolved@),
            old(self).link_error(path@, resolved@) is None && link_status != 0 ==> r is Err
                && r->Err_0@ == (ErrorView::LinkFailed { name: name_of_path(path@), code: link_status }),
            r is Ok ==> {
                &&& final(self).path_list() == old(self).path_list().push(path@)
                &&& final(self).xa_records() == old(self).xa_records()
                &&& final(self).lock_owners() == old(self).lock_owners()
                &&& final(self).cached_results() == old(self).cached_results()
                &&& final(self).task_ids() == old(self).task_ids()
                &&& final(self).head_index() == old(self).head_index()
            },
    {
        match self.check_link(&path, resolved) {
            Err(e) => {
                return Err(e);
            },
            Ok(()) => {},
        }
        if link_status != 0 {
            return Err(ProxyError::LinkFailed { name: getNameByPath(&path), code: link_status });
        }
        self.addPath(path);
        Ok(())
    }

    /// The file name, address and interface description of a locator entry,
    /// given what listing its directory returned: three empty texts unless
    /// the status is not negative and the first entry is a link with at
    /// least two extra fields.
    pub fn readlink(&self, list_status: i32, list: &Vec<BfsInfo>) -> (r: (String, String, String))
        ensures
            ({
                let ok = list_status >= 0 && list@.len() >= 1 && list@[0].file_type@ == "link"@
                    && list@[0].ext@.len() >= 2;
                &&& ok ==> r.0@ == list@[0].file_name@ && r.1@ == list@[0].ext@[0]@ && r.2@
                    == list@[0].ext@[1]@
                &&& !ok ==> r.0@.len() == 0 && r.1@.len() == 0 && r.2@.len() == 0
            }),
    {
        let link = String::from_str("link");
        if list_status < 0 || list.len() < 1 || !list[0].file_type.eq(&link) || list[0].ext.len() < 2 {
            return (String::new(), String::new(), String::new());
        }
        let info = &list[0];
        (info.file_name.clone(), info.ext[0].clone(), info.ext[1].clone())
    }

    /// A committed or rolled-back transaction stays finalized: every
    /// further commit or rollback of it is refused (and a refused call
    /// changes nothing, timestamps and locks included).
    pub proof fn lemma_finalized_is_terminal(&self, id: Seq<char>)
        requires
            self.xa_records().contains_key(id),
            self.xa_records()[id].status != XaStatus::Processing,
        ensures
            self.finalize_error(id) is Some,
    {
    }

    /// A locked address has exactly one owner: an open transaction that
    /// lists the address, and no other open transaction lists it.
    pub proof fn lemma_lock_has_unique_owner(&self, a: Seq<char>, other: Seq<char>)
        requires
            self.wf(),
            self.lock_owners().contains_key(a),
            self.is_open(other),
            self.xa_records()[other].contract_addresses.contains(a),
        ensures
            self.is_open(self.lock_owners()[a]),
            self.xa_records()[self.lock_owners()[a]].contract_addresses.contains(a),
            other == self.lock_owners()[a],
    {
    }

    /// Finalizing a transaction leaves no lock on any of its addresses.
    pub proof fn lemma_release_leaves_no_lock(&self, id: Seq<char>, a: Seq<char>)
        requires
            self.wf(),
            self.xa_records().contains_key(id),
            self.xa_records()[id].contract_addresses.contains(a),
        ensures
            !self.without_locks_of(id).contains_key(a),
    {
    }

    /// The sequence numbers recorded for a transaction rise strictly in the
    /// order they were recorded, one per step.
    pub proof fn lemma_seqs_strictly_increasing(&self, id: Seq<char>)
        requires
            self.wf(),
            self.xa_records().contains_key(id),
        ensures
            strictly_increasing(self.xa_records()[id].seqs),
            self.xa_records()[id].seqs.len() == self.xa_records()[id].steps.len(),
    {
    }

    /// While a transaction is open the task queue is not empty: its head
    /// stays behind its tail.
    pub proof fn lemma_open_transaction_keeps_queue_nonempty(&self, id: Seq<char>)
        requires
            self.wf(),
            self.is_open(id),
        ensures
            self.head_index() < self.task_ids().len(),
    {
        let r = self.xa_records();
        r.dom().lemma_len_filter(|k: Seq<char>| r[k].status == XaStatus::Processing);
        assert(self.open_ids().contains(id));
        vstd::set::axiom_set_contains_len(self.open_ids(), id);
    }

    /// A step whose sequence number is not above the last recorded one is
    /// refused.
    pub proof fn lemma_stale_seq_refused(
        &self,
        id: Seq<char>,
        seq: u64,
        path: Seq<char>,
        resolved: Seq<char>,
    )
        requires
            self.xa_records().contains_key(id),
            self.xa_records()[id].seqs.len() > 0,
            seq <= self.xa_records()[id].seqs.last(),
        ensures
            self.step_error(id, seq, path, resolved) is Some,
    {
    }

    proof fn lemma_start_lock_error_stays(
        &self,
        id: Seq<char>,
        paths: Seq<Seq<char>>,
        addrs: Seq<Seq<char>>,
        n: nat,
        m: nat,
    )
        requires
            n <= m,
            self.start_lock_error(id, paths, addrs, n) is Some,
        ensures
            self.start_lock_error(id, paths, addrs, m) == self.start_lock_error(id, paths, addrs, n),
        decreases m - n,
    {
        if n < m {
            self.lemma_start_lock_error_stays(id, paths, addrs, n, (m - 1) as nat);
        }
    }

    proof fn lemma_start_lock_error_none(
        &self,
        id: Seq<char>,
        paths: Seq<Seq<char>>,
        addrs: Seq<Seq<char>>,
        n: nat,
    )
        requires
            n <= addrs.len(),
            self.start_lock_error(id, paths, addrs, n) is None,
        ensures
            forall|i: int|
                0 <= i < n ==> {
                    &&& (#[trigger] addrs[i]).len() > 0
                    &&& !self.lock_owners().contains_key(addrs[i])
                    &&& !addrs.take(i).contains(addrs[i])
                },
        decreases n,
    {
        if n > 0 {
            self.lemma_start_lock_error_none(id, paths, addrs, (n - 1) as nat);
        }
    }
}

/// The locator's directory path of the resource `name`.
pub open spec fn bfs_path(name: Seq<char>) -> Seq<char> {
    BFS_APPS@ + name + "/"@ + DEFAULT_VERSION@
}

/// The locator's directory path of the resource `name`.
pub fn nameToBfsPath(name: &String) -> (r: String)
    ensures
        r@ == bfs_path(name@),
{
    let mut r = String::from_str(BFS_APPS);
    r.append(name.as_str());
    r.append("/");
    r.append(DEFAULT_VERSION);
    r
}

/// The resource's local name: the last segment of the dot-separated `path`.
pub fn getNameByPath(path: &String) -> (r: String)
    ensures
        r@ == name_of_path(path@),
{
    let s = path.as_str();
    let n = s.unicode_len();
    let mut start: usize = 0;
    let mut i: usize = 0;
    while i < n
        invariant
            i <= n,
            n == s@.len(),
            start as nat == name_start(s@.take(i as int)),
            start <= i,
        decreases n - i,
    {
        assert(s@.take(i + 1).drop_last() =~= s@.take(i as int));
        if s.get_char(i) == SEPARATOR {
            start = i + 1;
        }
        i = i + 1;
    }
    assert(s@.take(n as int) =~= s@);
    let r = String::from_str(s.substring_char(start, n));
    assert(r@ =~= name_of_path(path@));
    r
}

/// A copy of `v`.
fn copy_bytes(v: &Vec<u8>) -> (r: Vec<u8>)
    ensures
        r@ == v@,
{
    let mut out: Vec<u8> = Vec::new();
    let mut i: usize = 0;
    while i < v.len()
        invariant
            i <= v.len(),
            out@ == v@.take(i as int),
        decreases v.len() - i,
    {
        out.push(v[i]);
        assert(v@.take(i + 1) =~= v@.take(i as int).push(v[i as int]));
        i = i + 1;
    }
    assert(v@.take(v.len() as int) =~= v@);
    out
}

/// Whether one of the first `n` strings of `v` equals `s`.
fn contains_before(v: &Vec<String>, n: usize, s: &String) -> (r: bool)
    requires
        n <= v.len(),
    ensures
        r == views(v@).take(n as int).contains(s@),
{
    let ghost w = views(v@).take(n as int);
    let mut j: usize = 0;
    while j < n
        invariant
            j <= n <= v.len(),
            w == views(v@).take(n as int),
            forall|k: int| 0 <= k < j ==> w[k] != s@,
        decreases n - j,
    {
        if v[j].eq(s) {
            assert(w[j as int] == s@);
            return true;
        }
        j = j + 1;
    }
    false
}

/// Appends a copy of each string of `v` to `out`.
fn append_clones(out: &mut Vec<String>, v: &Vec<String>)
    ensures
        views(final(out)@) == views(old(out)@) + views(v@),
{
    let mut i: usize = 0;
    while i < v.len()
        invariant
            i <= v.len(),
            views(out@) == views(old(out)@) + views(v@.subrange(0, i as int)),
        decreases v.len() - i,
    {
        let ghost before = out@;
        out.push(v[i].clone());
        assert(views(out@) =~= views(before).push(v@[i as int]@));
        assert(views(v@.subrange(0, i + 1)) =~= views(v@.subrange(0, i as int)).push(v@[i as int]@));
        i = i + 1;
    }
    assert(v@.subrange(0, v.len() as int) =~= v@);
}

} // verus!
