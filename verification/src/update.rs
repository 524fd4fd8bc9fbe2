//! Provider-side half of the library: translating parsed actions into
//! provider-shaped requests, caching the provider's current records, and
//! deciding how a batch of requests is applied and tallied.
//!
//! The library never talks to the network.  The caller fetches each page of
//! records and each request's response over HTTP and hands the plain values
//! in; everything decided from those values is verified here.

use vstd::prelude::*;

use crate::parser::ActionV;
use crate::parser::AddV;
use crate::parser::CommandV;
use crate::parser::DeleteV;
use crate::parser::NSUpdateAction;
use crate::parser::NSUpdateActionAdd;
use crate::parser::NSUpdateActionDelete;
use crate::parser::NSUpdateCommand;
use crate::parser::NSUpdateQueue;

verus! {

/// The body of a provider "create record" call.  `proxied` is always false
/// by policy.
#[derive(Debug, PartialEq)]
pub struct RequestDataAdd {
    pub record_type: String,
    pub name: String,
    pub content: String,
    pub ttl: usize,
    pub priority: Option<usize>,
    pub proxied: bool,
}

/// A pending deletion: the record's id is resolved against the cache later.
#[derive(Debug, PartialEq)]
pub struct RequestDataDelete {
    pub record_type: String,
    pub name: String,
}

#[derive(Debug, PartialEq)]
pub enum RequestData {
    Add(RequestDataAdd),
    Delete(RequestDataDelete),
}

/// Mathematical image of an add request.
#[verifier::ext_equal]
pub struct AddReqV {
    pub record_type: Seq<char>,
    pub name: Seq<char>,
    pub content: Seq<char>,
    pub ttl: int,
    pub priority: Option<int>,
    pub proxied: bool,
}

/// Mathematical image of a delete request.
#[verifier::ext_equal]
pub struct DelReqV {
    pub record_type: Seq<char>,
    pub name: Seq<char>,
}

#[verifier::ext_equal]
pub enum ReqV {
    Add(AddReqV),
    Delete(DelReqV),
}

impl View for RequestDataAdd {
    type V = AddReqV;

    open spec fn view(&self) -> AddReqV {
        AddReqV {
            record_type: self.record_type@,
            name: self.name@,
            content: self.content@,
            ttl: self.ttl as int,
            priority: match self.priority {
                Some(p) => Some(p as int),
                None => None,
            },
            proxied: self.proxied,
        }
    }
}

impl View for RequestDataDelete {
    type V = DelReqV;

    open spec fn view(&self) -> DelReqV {
        DelReqV { record_type: self.record_type@, name: self.name@ }
    }
}

impl View for RequestData {
    type V = ReqV;

    open spec fn view(&self) -> ReqV {
        match self {
            RequestData::Add(a) => ReqV::Add(a@),
            RequestData::Delete(d) => ReqV::Delete(d@),
        }
    }
}

impl DeepView for RequestData {
    type V = ReqV;

    open spec fn deep_view(&self) -> ReqV {
        self@
    }
}

/// The translator, at the level of values: an `add` action becomes an add
/// request with `proxied` forced off, field for field.
pub open spec fn translate_add(a: AddV) -> AddReqV {
    AddReqV {
        record_type: a.record_type,
        name: a.domain,
        content: a.content,
        ttl: a.ttl,
        priority: a.priority,
        proxied: false,
    }
}

/// A `delete` action carries only the record's name and type.
pub open spec fn translate_delete(d: DeleteV) -> DelReqV {
    DelReqV { record_type: d.record_type, name: d.domain }
}

/// A decoder of the add request's wire shape, back to the action it encodes.
pub open spec fn decode_add(r: AddReqV) -> AddV {
    AddV {
        domain: r.name,
        ttl: r.ttl,
        record_type: r.record_type,
        priority: r.priority,
        content: r.content,
    }
}

/// Law: translating an `add` action and decoding the wire shape gives the
/// action back, every field preserved.
pub proof fn lemma_translate_add_round_trip(a: AddV)
    ensures
        decode_add(translate_add(a)) == a,
{
}

impl RequestDataAdd {
    /// Translates an `add` action into the provider's request shape.
    pub fn from(source: NSUpdateActionAdd) -> (r: Self)
        ensures
            r@ == translate_add(source@),
    {
        RequestDataAdd {
            record_type: source.record_type,
            name: source.domain,
            content: source.content,
            ttl: source.ttl,
            priority: source.priority,
            proxied: false,
        }
    }

    /// Decodes the request shape back into the `add` action it encodes.
    pub fn into_action(self) -> (a: NSUpdateActionAdd)
        ensures
            a@ == decode_add(self@),
    {
        NSUpdateActionAdd {
            domain: self.name,
            ttl: self.ttl,
            record_type: self.record_type,
            priority: self.priority,
            content: self.content,
        }
    }
}

impl RequestDataDelete {
    /// Translates a `delete` action into the provider's request shape.
    pub fn from(source: NSUpdateActionDelete) -> (r: Self)
        ensures
            r@ == translate_delete(source@),
    {
        RequestDataDelete { record_type: source.record_type, name: source.domain }
    }
}

/// The requests a closed batch gives rise to: its `Update` commands translated
/// in order, `Send` markers dropped.
pub open spec fn requests_of(cmds: Seq<CommandV>) -> Seq<ReqV>
    decreases cmds.len(),
{
    if cmds.len() == 0 {
        Seq::empty()
    } else {
        let rest = requests_of(cmds.drop_first());
        match cmds[0] {
            CommandV::Update(a) => seq![
                match a {
                    ActionV::Add(add) => ReqV::Add(translate_add(add)),
                    ActionV::Delete(del) => ReqV::Delete(translate_delete(del)),
                },
            ] + rest,
            CommandV::Send => rest,
        }
    }
}

/// The ordered requests derived from one closed batch.
#[derive(Debug)]
pub struct RequestQueue {
    inner: Vec<RequestData>,
}

impl View for RequestQueue {
    type V = Seq<ReqV>;

    closed spec fn view(&self) -> Seq<ReqV> {
        self.inner.deep_view()
    }
}

impl RequestQueue {
    /// Builds the request queue of a batch, consuming it: each `add` and
    /// `delete` command is translated in order, `send` markers are dropped.
    pub fn from(source: NSUpdateQueue) -> (r: Self)
        ensures
            r@ == requests_of(source@.commands),
    {
        let ghost src = source@.commands;
        let cmds = source.into_inner();
        let n = cmds.len();
        let mut inner: Vec<RequestData> = Vec::new();
        let mut i: usize = 0;
        proof {
            assert(inner.deep_view() =~= Seq::<ReqV>::empty());
            assert(src.skip(0) =~= src);
        }
        while i < n
            invariant
                src == cmds.deep_view(),
                n == cmds@.len(),
                i <= n,
                requests_of(src) == inner.deep_view() + requests_of(src.skip(i as int)),
            decreases n - i,
        {
            proof {
                assert(src.skip(i as int)[0] == src[i as int]);
                assert(src.skip(i as int).drop_first() =~= src.skip(i + 1));
                assert(cmds[i as int].deep_view() == src[i as int]);
            }
            let ghost old_deep = inner.deep_view();
            match &cmds[i] {
                NSUpdateCommand::Update(action) => {
                    match action {
                        NSUpdateAction::Add(a) => {
                            inner.push(
                                RequestData::Add(
                                    RequestDataAdd {
                                        record_type: a.record_type.clone(),
                                        name: a.domain.clone(),
                                        content: a.content.clone(),
                                        ttl: a.ttl,
                                        priority: a.priority,
                                        proxied: false,
                                    },
                                ),
                            );
                        },
                        NSUpdateAction::Delete(d) => {
                            inner.push(
                                RequestData::Delete(
                                    RequestDataDelete {
                                        record_type: d.record_type.clone(),
                                        name: d.domain.clone(),
                                    },
                                ),
                            );
                        },
                    }
                    proof {
                        assert(inner.deep_view() =~= old_deep.push(
                            inner@.last().deep_view(),
                        ));
                        assert(requests_of(src) =~= inner.deep_view() + requests_of(
                            src.skip(i + 1),
                        ));
                    }
                },
                NSUpdateCommand::Send => {
                    proof {
                        assert(requests_of(src.skip(i as int)) == requests_of(src.skip(i + 1)));
                    }
                },
            }
            i = i + 1;
        }
        proof {
            assert(src.skip(n as int) =~= Seq::<CommandV>::empty());
            assert(requests_of(src) =~= inner.deep_view());
        }
        RequestQueue { inner }
    }

    /// How many requests the queue holds.
    pub fn len(&self) -> (r: usize)
        ensures
            r == self@.len(),
    {
        self.inner.len()
    }
}

/// One DNS record as the provider currently stores it.  The `id` is the
/// provider-assigned handle that a deletion must quote.
#[derive(Debug, PartialEq)]
pub struct CFRecord {
    pub id: String,
    pub record_type: String,
    pub name: String,
    pub content: String,
    pub ttl: usize,
}

/// One entry of the provider's error list.
#[derive(Debug, PartialEq)]
pub struct CFError {
    pub code: usize,
    pub message: String,
}

/// The paging block of a record-list response.
#[derive(Debug, PartialEq)]
pub struct CFResultInfo {
    pub total_pages: usize,
}

/// One page of the provider's record-list response, already decoded from the
/// wire into plain values.
#[derive(Debug)]
pub struct CFListResponse {
    pub success: bool,
    pub errors: Vec<CFError>,
    pub result: Vec<CFRecord>,
    pub result_info: CFResultInfo,
}

/// The provider's response to a single add or delete request.
#[derive(Debug)]
pub struct CFUpdateResponse {
    pub success: bool,
    pub errors: Vec<CFError>,
    pub result: Option<CFRecord>,
}

/// A failed cache refresh: the provider said `success=false`, and these are
/// its errors, surfaced verbatim.
#[derive(Debug)]
pub struct FetchError {
    pub errors: Vec<CFError>,
}

/// Mathematical image of a provider record.
#[verifier::ext_equal]
pub struct RecV {
    pub id: Seq<char>,
    pub record_type: Seq<char>,
    pub name: Seq<char>,
    pub content: Seq<char>,
    pub ttl: int,
}

/// Mathematical image of a provider error entry.
#[verifier::ext_equal]
pub struct ErrV {
    pub code: int,
    pub message: Seq<char>,
}

/// Mathematical image of an add/delete response.
#[verifier::ext_equal]
pub struct UpdRespV {
    pub success: bool,
    pub errors: Seq<ErrV>,
    pub result: Option<RecV>,
}

impl View for CFRecord {
    type V = RecV;

    open spec fn view(&self) -> RecV {
        RecV {
            id: self.id@,
            record_type: self.record_type@,
            name: self.name@,
            content: self.content@,
            ttl: self.ttl as int,
        }
    }
}

impl DeepView for CFRecord {
    type V = RecV;

    open spec fn deep_view(&self) -> RecV {
        self@
    }
}

impl View for CFError {
    type V = ErrV;

    open spec fn view(&self) -> ErrV {
        ErrV { code: self.code as int, message: self.message@ }
    }
}

impl DeepView for CFError {
    type V = ErrV;

    open spec fn deep_view(&self) -> ErrV {
        self@
    }
}

impl View for CFUpdateResponse {
    type V = UpdRespV;

    open spec fn view(&self) -> UpdRespV {
        UpdRespV {
            success: self.success,
            errors: self.errors.deep_view(),
            result: self.result.deep_view(),
        }
    }
}

impl DeepView for CFUpdateResponse {
    type V = UpdRespV;

    open spec fn deep_view(&self) -> UpdRespV {
        self@
    }
}

fn clone_errors(errors: &Vec<CFError>) -> (r: Vec<CFError>)
    ensures
        r.deep_view() == errors.deep_view(),
{
    let mut r: Vec<CFError> = Vec::new();
    let n = errors.len();
    let mut i: usize = 0;
    proof {
        assert(r.deep_view() =~= errors.deep_view().take(0));
    }
    while i < n
        invariant
            n == errors@.len(),
            i <= n,
            r.deep_view() == errors.deep_view().take(i as int),
        decreases n - i,
    {
        let ghost old_deep = r.deep_view();
        r.push(CFError { code: errors[i].code, message: errors[i].message.clone() });
        proof {
            assert(r.deep_view() =~= old_deep.push(errors.deep_view()[i as int]));
            assert(errors.deep_view().take(i + 1) =~= errors.deep_view().take(i as int).push(
                errors.deep_view()[i as int],
            ));
        }
        i = i + 1;
    }
    proof {
        assert(errors.deep_view().take(n as int) =~= errors.deep_view());
    }
    r
}

impl CFListResponse {
    /// The records this page carries.
    pub fn get_records(self) -> (r: Vec<CFRecord>)
        ensures
            r == self.result,
    {
        self.result
    }

    /// Reads the page count out of a successful response; a response with
    /// `success=false` becomes a `FetchError` carrying the provider's errors.
    pub fn get_total_pages(&self) -> (r: Result<usize, FetchError>)
        ensures
            self.success ==> (r matches Ok(p) && p == self.result_info.total_pages),
            !self.success ==> (r matches Err(e) && e.errors.deep_view()
                == self.errors.deep_view()),
    {
        if !self.success {
            return Err(FetchError { errors: clone_errors(&self.errors) });
        }
        Ok(self.result_info.total_pages)
    }
}

/// Whether a stored record answers a query: the provider stores names without
/// the trailing dot, so the dot is appended before comparing, and the record
/// type must match exactly.
pub open spec fn rec_matches(r: RecV, name: Seq<char>, record_type: Seq<char>) -> bool {
    r.name + "."@ == name && r.record_type == record_type
}

/// The first stored record answering a query, in the provider's order.
pub open spec fn first_match(recs: Seq<RecV>, name: Seq<char>, record_type: Seq<char>) -> Option<
    RecV,
>
    decreases recs.len(),
{
    if recs.len() == 0 {
        None
    } else if rec_matches(recs[0], name, record_type) {
        Some(recs[0])
    } else {
        first_match(recs.drop_first(), name, record_type)
    }
}

/// Law: `first_match` misses exactly when no stored record answers the query,
/// and a hit is the earliest record that does.
pub proof fn lemma_first_match(recs: Seq<RecV>, name: Seq<char>, record_type: Seq<char>)
    ensures
        first_match(recs, name, record_type) is None <==> forall|i: int|
            0 <= i < recs.len() ==> !rec_matches(#[trigger] recs[i], name, record_type),
        first_match(recs, name, record_type) matches Some(rec) ==> exists|i: int|
            0 <= i < recs.len() && recs[i] == rec && rec_matches(#[trigger] recs[i], name, record_type)
                && forall|j: int| 0 <= j < i ==> !rec_matches(#[trigger] recs[j], name, record_type),
    decreases recs.len(),
{
    if recs.len() == 0 {
    } else if rec_matches(recs[0], name, record_type) {
        assert(first_match(recs, name, record_type) == Some(recs[0]));
        assert(0 <= 0 < recs.len() && recs[0] == recs[0] && rec_matches(recs[0], name, record_type)
            && forall|j: int| 0 <= j < 0 ==> !rec_matches(#[trigger] recs[j], name, record_type));
    } else {
        lemma_first_match(recs.drop_first(), name, record_type);
        if first_match(recs, name, record_type) is None {
            assert forall|i: int| 0 <= i < recs.len() implies !rec_matches(
                #[trigger] recs[i],
                name,
                record_type,
            ) by {
                if i > 0 {
                    assert(recs.drop_first()[i - 1] == recs[i]);
                }
            }
        } else {
            let rec = first_match(recs, name, record_type)->0;
            let i0 = choose|i0: int|
                0 <= i0 < recs.drop_first().len() && recs.drop_first()[i0] == rec && rec_matches(
                    #[trigger] recs.drop_first()[i0],
                    name,
                    record_type,
                ) && forall|j: int|
                    0 <= j < i0 ==> !rec_matches(#[trigger] recs.drop_first()[j], name, record_type);
            assert(recs.drop_first()[i0] == recs[i0 + 1]);
            assert forall|j: int| 0 <= j < i0 + 1 implies !rec_matches(
                #[trigger] recs[j],
                name,
                record_type,
            ) by {
                if j > 0 {
                    assert(recs.drop_first()[j - 1] == recs[j]);
                    assert(!rec_matches(recs.drop_first()[j - 1], name, record_type));
                }
            }
            assert(0 <= i0 + 1 < recs.len() && recs[i0 + 1] == rec && rec_matches(
                #[trigger] recs[i0 + 1],
                name,
                record_type,
            ) && forall|j: int| 0 <= j < i0 + 1 ==> !rec_matches(#[trigger] recs[j], name, record_type));
        }
    }
}

/// The cache of the provider's current records: one snapshot, fetched page by
/// page at the start of a batch, queried read-only while the batch applies.
#[derive(Debug)]
pub struct CFCurrentRecords {
    inner: Vec<CFRecord>,
}

impl View for CFCurrentRecords {
    type V = Seq<RecV>;

    closed spec fn view(&self) -> Seq<RecV> {
        self.inner.deep_view()
    }
}

impl CFCurrentRecords {
    /// An empty cache.
    pub fn new() -> (r: Self)
        ensures
            r@ == Seq::<RecV>::empty(),
    {
        let r = CFCurrentRecords { inner: Vec::new() };
        proof {
            assert(r.inner.deep_view() =~= Seq::<RecV>::empty());
        }
        r
    }

    /// Moves one page's records to the back of the snapshot.
    pub fn append(&mut self, result: &mut Vec<CFRecord>)
        ensures
            final(self)@ == old(self)@ + old(result).deep_view(),
            final(result)@.len() == 0,
    {
        let ghost old_self = self.inner.deep_view();
        let ghost old_recs = result.deep_view();
        self.inner.append(result);
        proof {
            assert(self.inner.deep_view() =~= old_self + old_recs);
        }
    }

    /// Folds one page of the provider's listing into the snapshot: on
    /// `success` the records are kept and the reported page count returned;
    /// otherwise the snapshot is untouched and the provider's errors surface
    /// as a `FetchError`.
    pub fn absorb_page(&mut self, response: CFListResponse) -> (r: Result<usize, FetchError>)
        ensures
            response.success ==> (r matches Ok(p) && p == response.result_info.total_pages
                && final(self)@ == old(self)@ + response.result.deep_view()),
            !response.success ==> (r matches Err(e) && e.errors.deep_view()
                == response.errors.deep_view() && final(self)@ == old(self)@),
    {
        let total_pages = match response.get_total_pages() {
            Ok(p) => p,
            Err(e) => {
                return Err(e);
            },
        };
        let mut records = response.get_records();
        self.append(&mut records);
        Ok(total_pages)
    }

    /// Linear scan for the first record with this (dot-terminated) name and
    /// record type, in the provider's returned order.
    pub fn find_record(&self, name: &str, record_type: &str) -> (r: Option<&CFRecord>)
        ensures
            match r {
                Some(rec) => first_match(self@, name@, record_type@) == Some(rec@),
                None => first_match(self@, name@, record_type@) is None,
            },
    {
        let target_name: String = name.to_owned();
        let target_type: String = record_type.to_owned();
        let n = self.inner.len();
        let mut i: usize = 0;
        proof {
            assert(self@.skip(0) =~= self@);
        }
        while i < n
            invariant
                n == self.inner@.len(),
                i <= n,
                self@ == self.inner.deep_view(),
                target_name@ == name@,
                target_type@ == record_type@,
                first_match(self@, name@, record_type@) == first_match(
                    self@.skip(i as int),
                    name@,
                    record_type@,
                ),
            decreases n - i,
        {
            proof {
                assert(self@.skip(i as int)[0] == self@[i as int]);
                assert(self.inner[i as int].deep_view() == self@[i as int]);
            }
            let mut dotted = self.inner[i].name.clone();
            dotted.append(".");
            let type_hit = self.inner[i].record_type == target_type;
            if dotted == target_name && type_hit {
                proof {
                    assert(rec_matches(self@[i as int], name@, record_type@));
                }
                return Some(&self.inner[i]);
            }
            proof {
                assert(!rec_matches(self@[i as int], name@, record_type@));
                assert(self@.skip(i as int).drop_first() =~= self@.skip(i + 1));
            }
            i = i + 1;
        }
        proof {
            assert(self@.skip(n as int) =~= Seq::<RecV>::empty());
        }
        None
    }

    /// The id to quote when deleting the record with this name and type, or
    /// `None` when the cache is empty or holds no such record.
    pub fn find_record_id(&self, name: &str, record_type: &str) -> (r: Option<&str>)
        ensures
            match first_match(self@, name@, record_type@) {
                Some(rec) => r matches Some(id) && id@ == rec.id,
                None => r is None,
            },
    {
        match self.find_record(name, record_type) {
            Some(record) => Some(record.id.as_str()),
            None => None,
        }
    }
}

/// One provider call the engine has decided to make: an add, or a delete of
/// a record whose id the cache resolved.
#[derive(Debug, PartialEq)]
pub enum PlannedCall {
    Add(RequestDataAdd),
    Delete { id: String, request: RequestDataDelete },
}

/// Mathematical image of a planned call.
#[verifier::ext_equal]
pub enum CallV {
    Add(AddReqV),
    Delete { id: Seq<char>, request: DelReqV },
}

impl View for PlannedCall {
    type V = CallV;

    open spec fn view(&self) -> CallV {
        match self {
            PlannedCall::Add(a) => CallV::Add(a@),
            PlannedCall::Delete { id, request } => CallV::Delete {
                id: id@,
                request: request@,
            },
        }
    }
}

impl DeepView for PlannedCall {
    type V = CallV;

    open spec fn deep_view(&self) -> CallV {
        self@
    }
}

/// The calls a batch sends to the provider, in request order: every add, and
/// every delete whose target the snapshot resolves.  A delete with no match
/// is skipped — the provider is never called for it.
pub open spec fn spec_plan(reqs: Seq<ReqV>, recs: Seq<RecV>) -> Seq<CallV>
    decreases reqs.len(),
{
    if reqs.len() == 0 {
        Seq::empty()
    } else {
        let rest = spec_plan(reqs.drop_first(), recs);
        match reqs[0] {
            ReqV::Add(a) => seq![CallV::Add(a)] + rest,
            ReqV::Delete(d) => match first_match(recs, d.name, d.record_type) {
                Some(rec) => seq![CallV::Delete { id: rec.id, request: d }] + rest,
                None => rest,
            },
        }
    }
}

/// How many of the first `i` requests are deletes the snapshot cannot
/// resolve: each is counted processed and failed without a provider call.
pub open spec fn spec_skipped(reqs: Seq<ReqV>, recs: Seq<RecV>) -> nat
    decreases reqs.len(),
{
    if reqs.len() == 0 {
        0
    } else {
        spec_skipped(reqs.drop_last(), recs) + match reqs.last() {
            ReqV::Add(_) => 0nat,
            ReqV::Delete(d) => if first_match(recs, d.name, d.record_type) is None {
                1nat
            } else {
                0nat
            },
        }
    }
}

/// A request succeeded only when the provider answered and said so.
pub open spec fn outcome_ok(o: Option<UpdRespV>) -> bool {
    o matches Some(resp) && resp.success
}

/// How many outcomes are failures: no response at all (transport failure) or
/// a response with `success=false`.
pub open spec fn spec_failed(outcomes: Seq<Option<UpdRespV>>) -> nat
    decreases outcomes.len(),
{
    if outcomes.len() == 0 {
        0
    } else {
        spec_failed(outcomes.drop_last()) + if outcome_ok(outcomes.last()) {
            0nat
        } else {
            1nat
        }
    }
}

impl RequestQueue {
    /// Decides, against one snapshot of the provider's records, which calls
    /// this queue sends: adds as they stand, deletes with their resolved id,
    /// unresolved deletes left out.
    pub fn plan(&self, current_records: &CFCurrentRecords) -> (calls: Vec<PlannedCall>)
        ensures
            calls.deep_view() == spec_plan(self@, current_records@),
    {
        let n = self.inner.len();
        let mut calls: Vec<PlannedCall> = Vec::new();
        let mut i: usize = 0;
        proof {
            assert(calls.deep_view() =~= Seq::<CallV>::empty());
            assert(self@.skip(0) =~= self@);
        }
        while i < n
            invariant
                n == self.inner@.len(),
                i <= n,
                self@ == self.inner.deep_view(),
                spec_plan(self@, current_records@) == calls.deep_view() + spec_plan(
                    self@.skip(i as int),
                    current_records@,
                ),
            decreases n - i,
        {
            proof {
                assert(self@.skip(i as int)[0] == self@[i as int]);
                assert(self@.skip(i as int).drop_first() =~= self@.skip(i + 1));
                assert(self.inner[i as int].deep_view() == self@[i as int]);
            }
            let ghost old_deep = calls.deep_view();
            match &self.inner[i] {
                RequestData::Add(a) => {
                    calls.push(
                        PlannedCall::Add(
                            RequestDataAdd {
                                record_type: a.record_type.clone(),
                                name: a.name.clone(),
                                content: a.content.clone(),
                                ttl: a.ttl,
                                priority: a.priority,
                                proxied: a.proxied,
                            },
                        ),
                    );
                    proof {
                        assert(calls.deep_view() =~= old_deep.push(calls@.last().deep_view()));
                        assert(spec_plan(self@, current_records@) =~= calls.deep_view()
                            + spec_plan(self@.skip(i + 1), current_records@));
                    }
                },
                RequestData::Delete(d) => {
                    match current_records.find_record_id(d.name.as_str(), d.record_type.as_str()) {
                        Some(id) => {
                            let owned_id: String = id.to_owned();
                            calls.push(
                                PlannedCall::Delete {
                                    id: owned_id,
                                    request: RequestDataDelete {
                                        record_type: d.record_type.clone(),
                                        name: d.name.clone(),
                                    },
                                },
                            );
                            proof {
                                assert(calls.deep_view() =~= old_deep.push(
                                    calls@.last().deep_view(),
                                ));
                                assert(spec_plan(self@, current_records@) =~= calls.deep_view()
                                    + spec_plan(self@.skip(i + 1), current_records@));
                            }
                        },
                        None => {
                            proof {
                                assert(spec_plan(self@.skip(i as int), current_records@)
                                    == spec_plan(self@.skip(i + 1), current_records@));
                            }
                        },
                    }
                },
            }
            i = i + 1;
        }
        proof {
            assert(self@.skip(n as int) =~= Seq::<ReqV>::empty());
            assert(spec_plan(self@, current_records@) =~= calls.deep_view());
        }
        calls
    }

    /// Tallies one batch, consuming the queue.  `outcomes` holds, in plan
    /// order, what came back from each call the plan sent (`None` for a
    /// transport failure).  Every request counts as processed; a request
    /// fails when its call did not succeed, or when it was a delete the
    /// snapshot could not resolve.
    pub fn process(self, current_records: &CFCurrentRecords, outcomes: &Vec<
        Option<CFUpdateResponse>,
    >) -> (tally: (usize, usize))
        requires
            outcomes.deep_view().len() == spec_plan(self@, current_records@).len(),
        ensures
            tally.0 == self@.len(),
            tally.1 == spec_skipped(self@, current_records@) + spec_failed(outcomes.deep_view()),
    {
        let ghost reqs = self@;
        let ghost recs = current_records@;
        let ghost outs = outcomes.deep_view();
        let n = self.inner.len();
        let out_len = outcomes.len();
        let mut subtotal: usize = 0;
        let mut subtotal_failed: usize = 0;
        let mut j: usize = 0;
        let mut i: usize = 0;
        proof {
            assert(reqs.skip(0) =~= reqs);
            assert(reqs.take(0) =~= Seq::<ReqV>::empty());
            assert(outs.take(0) =~= Seq::<Option<UpdRespV>>::empty());
        }
        while i < n
            invariant
                reqs == self.inner.deep_view(),
                recs == current_records@,
                outs == outcomes.deep_view(),
                n == self.inner@.len(),
                out_len == outcomes@.len(),
                out_len == outs.len(),
                i <= n,
                j <= out_len,
                subtotal == i,
                spec_plan(reqs, recs).len() == j + spec_plan(reqs.skip(i as int), recs).len(),
                outs.len() == spec_plan(reqs, recs).len(),
                subtotal_failed == spec_skipped(reqs.take(i as int), recs) + spec_failed(
                    outs.take(j as int),
                ),
                subtotal_failed <= i,
            decreases n - i,
        {
            proof {
                assert(reqs.skip(i as int)[0] == reqs[i as int]);
                assert(reqs.skip(i as int).drop_first() =~= reqs.skip(i + 1));
                assert(self.inner[i as int].deep_view() == reqs[i as int]);
                assert(reqs.take(i + 1).drop_last() =~= reqs.take(i as int));
                assert(reqs.take(i + 1).last() == reqs[i as int]);
            }
            let mut call_made = false;
            match &self.inner[i] {
                RequestData::Add(_) => {
                    call_made = true;
                },
                RequestData::Delete(d) => {
                    match current_records.find_record_id(d.name.as_str(), d.record_type.as_str()) {
                        Some(_) => {
                            call_made = true;
                        },
                        None => {
                            proof {
                                assert(spec_plan(reqs.skip(i as int), recs) == spec_plan(
                                    reqs.skip(i + 1),
                                    recs,
                                ));
                                assert(spec_skipped(reqs.take(i + 1), recs) == spec_skipped(
                                    reqs.take(i as int),
                                    recs,
                                ) + 1);
                            }
                            subtotal_failed = subtotal_failed + 1;
                        },
                    }
                },
            }
            if call_made {
                proof {
                    assert(spec_plan(reqs.skip(i as int), recs).len() == 1 + spec_plan(
                        reqs.skip(i + 1),
                        recs,
                    ).len());
                    assert(j < outs.len());
                    assert(outs.take(j + 1).drop_last() =~= outs.take(j as int));
                    assert(outs.take(j + 1).last() == outs[j as int]);
                    assert(outcomes@[j as int].deep_view() == outs[j as int]);
                    assert(spec_skipped(reqs.take(i + 1), recs) == spec_skipped(
                        reqs.take(i as int),
                        recs,
                    ));
                }
                let ok = match &outcomes[j] {
                    Some(resp) => resp.success,
                    None => false,
                };
                if !ok {
                    subtotal_failed = subtotal_failed + 1;
                }
                j = j + 1;
            }
            subtotal = subtotal + 1;
            i = i + 1;
        }
        proof {
            assert(reqs.skip(n as int) =~= Seq::<ReqV>::empty());
            assert(reqs.take(n as int) =~= reqs);
            assert(j == outs.len());
            assert(outs.take(j as int) =~= outs);
        }
        (subtotal, subtotal_failed)
    }
}

} // verus!
