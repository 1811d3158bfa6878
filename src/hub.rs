//! The relay log: an append-only FIFO of serialized interchain requests
//! with a producer cursor (`increment`, the id of the latest request) and
//! a consumer cursor (`current_index`, the id of the latest request
//! acknowledged), and a store of the results that consumers report back.
use vstd::prelude::*;
use crate::table::Table;
use crate::text::{serialize_string_array, string_array, u64_to_string, decimal, views};

verus! {

pub const HUB_VERSION: &'static str = "v1.0.0";

pub const HUB_NULL_FLAG: &'static str = "null";

/// The call type of a query.
pub const CALL_TYPE_QUERY: &'static str = "0";

/// The call type of an invocation.
pub const CALL_TYPE_INVOKE: &'static str = "1";

/// The record of one request: its id, call type, target path and method,
/// arguments, callback path and method, and the requester.
pub open spec fn request_text(
    uid: Seq<char>,
    call_type: Seq<char>,
    path: Seq<char>,
    method: Seq<char>,
    args: Seq<Seq<char>>,
    callback_path: Seq<char>,
    callback_method: Seq<char>,
    origin: Seq<char>,
) -> Seq<char> {
    string_array(
        seq![uid, call_type, path, method, string_array(args), callback_path, callback_method, origin],
    )
}

/// The record of one reported result.
pub open spec fn callback_record(
    tid: Seq<char>,
    seq: Seq<char>,
    error_code: Seq<char>,
    error_msg: Seq<char>,
    result: Seq<Seq<char>>,
) -> Seq<Seq<char>> {
    seq![tid, seq, error_code, error_msg, string_array(result)]
}

/// The relay log.
pub struct WeCrossHub {
    increment: u64,
    current_index: u64,
    requests: Vec<String>,
    callback_results: Table<Vec<String>>,
}

impl WeCrossHub {
    /// The id of the latest request.
    pub closed spec fn increment_value(&self) -> nat {
        self.increment as nat
    }

    /// The id of the latest acknowledged request.
    pub closed spec fn current_value(&self) -> nat {
        self.current_index as nat
    }

    /// The request records; the one with id `i` stands at `i - 1`.
    pub closed spec fn request_log(&self) -> Seq<Seq<char>> {
        views(self.requests@)
    }

    /// The reported results by uid.
    pub closed spec fn callbacks(&self) -> Map<Seq<char>, Seq<Seq<char>>> {
        Map::new(
            |k: Seq<char>| self.callback_results@.contains_key(k),
            |k: Seq<char>| views(self.callback_results@[k]@),
        )
    }

    /// One record per request id issued so far.
    pub closed spec fn wf(&self) -> bool {
        &&& self.requests.len() == self.increment
        &&& self.callback_results.wf()
    }

    /// An empty relay log.
    pub fn new() -> (r: Self)
        ensures
            r.wf(),
            r.increment_value() == 0,
            r.current_value() == 0,
            r.request_log() == Seq::<Seq<char>>::empty(),
            r.callbacks() == Map::<Seq<char>, Seq<Seq<char>>>::empty(),
    {
        let r = WeCrossHub {
            increment: 0,
            current_index: 0,
            requests: Vec::new(),
            callback_results: Table::new(),
        };
        assert(r.request_log() =~= Seq::empty());
        assert(r.callbacks() =~= Map::empty());
        r
    }

    /// The version of the relay log.
    pub fn getVersion(&self) -> (r: String)
        ensures
            r@ == HUB_VERSION@,
    {
        String::from_str(HUB_VERSION)
    }

    /// The id of the latest request.
    pub fn getIncrement(&self) -> (r: u64)
        ensures
            r == self.increment_value(),
    {
        self.increment
    }

    /// The id of the latest acknowledged request.
    pub fn getCurrentIndex(&self) -> (r: u64)
        ensures
            r == self.current_value(),
    {
        self.current_index
    }

    /// Appends a request of type `call_type` from `origin` and returns its
    /// id, the next value of the producer cursor, in decimal.
    fn handle_request(
        &mut self,
        call_type: &str,
        path: String,
        method: String,
        args: &Vec<String>,
        callback_path: String,
        callback_method: String,
        origin: String,
    ) -> (r: String)
        requires
            old(self).wf(),
            old(self).increment_value() < u64::MAX,
        ensures
            final(self).wf(),
            r@ == decimal(old(self).increment_value() + 1),
            final(self).increment_value() == old(self).increment_value() + 1,
            final(self).request_log() == old(self).request_log().push(
                request_text(
                    r@,
                    call_type@,
                    path@,
                    method@,
                    views(args@),
                    callback_path@,
                    callback_method@,
                    origin@,
                ),
            ),
            final(self).current_value() == old(self).current_value(),
            final(self).callbacks() == old(self).callbacks(),
    {
        self.increment = self.increment + 1;
        let uid = u64_to_string(self.increment);
        let ghost fields = seq![
            uid@,
            call_type@,
            path@,
            method@,
            string_array(views(args@)),
            callback_path@,
            callback_method@,
            origin@,
        ];
        let mut request: Vec<String> = Vec::new();
        request.push(uid.clone());
        request.push(String::from_str(call_type));
        request.push(path);
        request.push(method);
        request.push(serialize_string_array(args));
        request.push(callback_path);
        request.push(callback_method);
        request.push(origin);
        assert(views(request@) =~= fields);
        let record = serialize_string_array(&request);
        self.requests.push(record);
        assert(self.request_log() =~= old(self).request_log().push(string_array(fields)));
        uid
    }

    /// Appends an invocation request and returns its id.
    pub fn interchainInvoke(
        &mut self,
        path: String,
        method: String,
        args: Vec<String>,
        callback_path: String,
        callback_method: String,
        origin: String,
    ) -> (r: String)
        requires
            old(self).wf(),
            old(self).increment_value() < u64::MAX,
        ensures
            final(self).wf(),
            r@ == decimal(old(self).increment_value() + 1),
            final(self).increment_value() == old(self).increment_value() + 1,
            final(self).request_log() == old(self).request_log().push(
                request_text(
                    r@,
                    CALL_TYPE_INVOKE@,
                    path@,
                    method@,
                    views(args@),
                    callback_path@,
                    callback_method@,
                    origin@,
                ),
            ),
            final(self).current_value() == old(self).current_value(),
            final(self).callbacks() == old(self).callbacks(),
    {
        self.handle_request(CALL_TYPE_INVOKE, path, method, &args, callback_path, callback_method, origin)
    }

    /// Appends a query request and returns its id.
    pub fn interchainQuery(
        &mut self,
        path: String,
        method: String,
        args: Vec<String>,
        callback_path: String,
        callback_method: String,
        origin: String,
    ) -> (r: String)
        requires
            old(self).wf(),
            old(self).increment_value() < u64::MAX,
        ensures
            final(self).wf(),
            r@ == decimal(old(self).increment_value() + 1),
            final(self).increment_value() == old(self).increment_value() + 1,
            final(self).request_log() == old(self).request_log().push(
                request_text(
                    r@,
                    CALL_TYPE_QUERY@,
                    path@,
                    method@,
                    views(args@),
                    callback_path@,
                    callback_method@,
                    origin@,
                ),
            ),
            final(self).current_value() == old(self).current_value(),
            final(self).callbacks() == old(self).callbacks(),
    {
        self.handle_request(CALL_TYPE_QUERY, path, method, &args, callback_path, callback_method, origin)
    }

    /// The answer of `getInterchainRequests`: `null` when the consumer is
    /// caught up, otherwise the up to `num` oldest unacknowledged records.
    pub open spec fn pending_text(&self, num: u64) -> Seq<char> {
        if self.current_value() >= self.increment_value() {
            HUB_NULL_FLAG@
        } else {
            let avail = self.increment_value() - self.current_value();
            let n = if num < avail { num as int } else { avail };
            string_array(
                self.request_log().subrange(
                    self.current_value() as int,
                    self.current_value() + n,
                ),
            )
        }
    }

    /// Up to `num` records following the consumer cursor, oldest first, as
    /// a JSON array of strings; `null` when there are none left.
    pub fn getInterchainRequests(&self, num: u64) -> (r: String)
        requires
            self.wf(),
        ensures
            r@ == self.pending_text(num),
    {
        if self.current_index >= self.increment {
            return String::from_str(HUB_NULL_FLAG);
        }
        let avail = self.increment - self.current_index;
        let n = if num < avail {
            num
        } else {
            avail
        };
        let start = self.current_index as usize;
        let end = start + n as usize;
        let mut batch: Vec<String> = Vec::new();
        let mut i: usize = start;
        while i < end
            invariant
                start <= i <= end,
                end <= self.requests.len(),
                views(batch@) == views(self.requests@).subrange(start as int, i as int),
            decreases end - i,
        {
            let ghost before = batch@;
            batch.push(self.requests[i].clone());
            assert(views(batch@) =~= views(before).push(self.requests@[i as int]@));
            assert(views(self.requests@).subrange(start as int, i + 1) =~= views(self.requests@).subrange(
                start as int,
                i as int,
            ).push(self.requests@[i as int]@));
            i = i + 1;
        }
        serialize_string_array(&batch)
    }

    /// Advances the consumer cursor to `index` when that is further on.
    pub fn updateCurrentRequestIndex(&mut self, index: u64)
        requires
            old(self).wf(),
        ensures
            final(self).wf(),
            final(self).current_value() == if old(self).current_value() < index {
                index as nat
            } else {
                old(self).current_value()
            },
            final(self).increment_value() == old(self).increment_value(),
            final(self).request_log() == old(self).request_log(),
            final(self).callbacks() == old(self).callbacks(),
    {
        if self.current_index < index {
            self.current_index = index;
        }
    }

    /// Stores the result reported for `uid`, replacing any earlier one.
    pub fn registerCallbackResult(
        &mut self,
        uid: String,
        tid: String,
        seq: String,
        error_code: String,
        error_msg: String,
        result: Vec<String>,
    )
        requires
            old(self).wf(),
        ensures
            final(self).wf(),
            final(self).callbacks() == old(self).callbacks().insert(
                uid@,
                callback_record(tid@, seq@, error_code@, error_msg@, views(result@)),
            ),
            final(self).increment_value() == old(self).increment_value(),
            final(self).current_value() == old(self).current_value(),
            final(self).request_log() == old(self).request_log(),
    {
        let ghost rec = callback_record(tid@, seq@, error_code@, error_msg@, views(result@));
        let mut record: Vec<String> = Vec::new();
        record.push(tid);
        record.push(seq);
        record.push(error_code);
        record.push(error_msg);
        record.push(serialize_string_array(&result));
        assert(views(record@) =~= rec);
        self.callback_results.insert(uid, record);
        assert(self.callbacks() =~= old(self).callbacks().insert(uid@, rec));
    }

    /// The result reported for `uid`, if any.
    pub fn selectCallbackResult(&self, uid: &String) -> (r: Option<Vec<String>>)
        requires
            self.wf(),
        ensures
            match r {
                Some(v) => self.callbacks().contains_key(uid@) && views(v@) == self.callbacks()[uid@],
                None => !self.callbacks().contains_key(uid@),
            },
    {
        match self.callback_results.get(uid) {
            None => None,
            Some(v) => {
                let mut out: Vec<String> = Vec::new();
                let mut i: usize = 0;
                while i < v.len()
                    invariant
                        i <= v.len(),
                        views(out@) == views(v@).take(i as int),
                    decreases v.len() - i,
                {
                    let ghost before = out@;
                    out.push(v[i].clone());
                    assert(views(out@) =~= views(before).push(v@[i as int]@));
                    assert(views(v@).take(i + 1) =~= views(v@).take(i as int).push(v@[i as int]@));
                    i = i + 1;
                }
                assert(views(v@).take(v.len() as int) =~= views(v@));
                Some(out)
            },
        }
    }
}

} // verus!
