use vstd::prelude::*;

verus! {

use vstd::utf8::encode_utf8;
use vstd::string::StringExecFns;
use crate::codec::spec_enc_str;
use crate::codec::spec_parse_str;
use crate::codec::enc_str;
use crate::codec::parse_str;
use crate::codec::ParseStep;
use crate::codec::DecStep;
use crate::codec::MAX_LEN;
use crate::errors::SerializationError;
use crate::errors::PayloadShapeError;
use crate::envelope::str_fits;
use crate::worker::Worker;
use crate::worker::AttrsV;
use crate::worker::attrs_fit;
use crate::worker::spec_enc_attributes;
use crate::worker::encode_value_attributes;

/// Spec view of a liveness announcement.
pub struct IsAliveV {
    pub sync: Seq<char>,
}

/// Spec view of a statement-execution request.
pub struct EnqueueV {
    pub statements: Seq<char>,
    pub command_id: Seq<char>,
    pub bindings: Seq<(Seq<char>, Seq<u8>)>,
}

/// Spec view of an evaluation result carrying an opaque payload blob.
pub struct EvalV {
    pub id: Seq<char>,
    pub value: Seq<u8>,
}

/// Spec view of a remote error report.
pub struct ErrV {
    pub err_msg: Seq<char>,
    pub trace: Seq<char>,
    pub command_id: Seq<char>,
    pub sync: Seq<char>,
}

/// Spec view of a protocol message.
pub enum MsgV {
    IsAlive(IsAliveV),
    Enqueue(EnqueueV),
    Eval(EvalV),
    Error(ErrV),
    Heartbeat,
    Registered,
}

/// Announces that this worker is alive; `sync` is its envelope correlation id.
#[derive(Debug, Clone)]
pub struct IsAliveMessage {
    pub sync: String,
}

/// Asks the peer to run `statements` with the named, independently encoded
/// `bindings`; `command_id` is its envelope correlation id.
#[derive(Debug, Clone)]
pub struct EnqueueMessage {
    pub statements: String,
    pub command_id: String,
    pub bindings: Vec<(String, Vec<u8>)>,
}

/// An evaluation result from the peer; `value` holds one independently
/// encoded opaque payload, and `id` is the envelope correlation id.
#[derive(Debug, Clone)]
pub struct EvalMessage {
    pub id: String,
    pub value: Vec<u8>,
}

/// An error report from the peer; `sync` is its envelope correlation id.
#[derive(Debug, Clone)]
pub struct ErrMessage {
    pub err_msg: String,
    pub trace: String,
    pub command_id: String,
    pub sync: String,
}

/// The closed union of protocol messages. `Heartbeat` and `Registered` are
/// synthesized locally and carry no payload.
#[derive(Debug, Clone)]
pub enum Message {
    IsAlive(IsAliveMessage),
    Enqueue(EnqueueMessage),
    Eval(EvalMessage),
    Error(ErrMessage),
    Heartbeat,
    Registered,
}

/// The views of a binding list's entries.
pub open spec fn bindings_view(b: Seq<(String, Vec<u8>)>) -> Seq<(Seq<char>, Seq<u8>)> {
    b.map_values(|p: (String, Vec<u8>)| (p.0@, p.1@))
}

impl View for IsAliveMessage {
    type V = IsAliveV;

    open spec fn view(&self) -> IsAliveV {
        IsAliveV { sync: self.sync@ }
    }
}

impl View for EnqueueMessage {
    type V = EnqueueV;

    open spec fn view(&self) -> EnqueueV {
        EnqueueV {
            statements: self.statements@,
            command_id: self.command_id@,
            bindings: bindings_view(self.bindings@),
        }
    }
}

impl View for EvalMessage {
    type V = EvalV;

    open spec fn view(&self) -> EvalV {
        EvalV { id: self.id@, value: self.value@ }
    }
}

impl View for ErrMessage {
    type V = ErrV;

    open spec fn view(&self) -> ErrV {
        ErrV {
            err_msg: self.err_msg@,
            trace: self.trace@,
            command_id: self.command_id@,
            sync: self.sync@,
        }
    }
}

impl View for Message {
    type V = MsgV;

    open spec fn view(&self) -> MsgV {
        match self {
            Message::IsAlive(m) => MsgV::IsAlive(m@),
            Message::Enqueue(m) => MsgV::Enqueue(m@),
            Message::Eval(m) => MsgV::Eval(m@),
            Message::Error(m) => MsgV::Error(m@),
            Message::Heartbeat => MsgV::Heartbeat,
            Message::Registered => MsgV::Registered,
        }
    }
}

/// The envelope correlation id a message carries: `sync` for `IsAlive` and
/// `Err`, `commandId` for `Enqueue`, `id` for `Eval`; none for the two
/// synthesized variants.
pub open spec fn spec_msg_id(m: MsgV) -> Option<Seq<char>> {
    match m {
        MsgV::IsAlive(v) => Some(v.sync),
        MsgV::Enqueue(v) => Some(v.command_id),
        MsgV::Eval(v) => Some(v.id),
        MsgV::Error(v) => Some(v.sync),
        MsgV::Heartbeat => None,
        MsgV::Registered => None,
    }
}

impl Message {
    /// The uniform envelope correlation id accessor.
    pub fn id(&self) -> (r: Option<&str>)
        ensures
            match r {
                Some(s) => spec_msg_id(self@) == Some(s@),
                None => spec_msg_id(self@) is None,
            },
    {
        match self {
            Message::IsAlive(message) => Some(message.sync.as_str()),
            Message::Enqueue(message) => Some(message.command_id.as_str()),
            Message::Eval(message) => Some(message.id.as_str()),
            Message::Error(message) => Some(message.sync.as_str()),
            Message::Heartbeat => None,
            Message::Registered => None,
        }
    }
}

/// Relies on uuid::Uuid::new_v4 and Uuid::hyphenated: a fresh random identity
/// rendered in the fixed 36-character hyphenated ASCII form.
#[verifier::external_body]
pub fn fresh_id() -> (r: String)
    ensures
        r@.len() == 36,
        encode_utf8(r@).len() == 36,
{
    uuid::Uuid::new_v4().hyphenated().to_string()
}

/// Whether some entry of a binding list carries the key `k`.
pub open spec fn spec_has_binding(b: Seq<(Seq<char>, Seq<u8>)>, k: Seq<char>) -> bool {
    exists|i: int| 0 <= i < b.len() && b[i].0 == k
}

/// The binding list after storing `v` under `k`: the first entry keyed `k` is
/// replaced, or a new entry is appended.
pub open spec fn spec_binding_stored(
    old_b: Seq<(Seq<char>, Seq<u8>)>,
    new_b: Seq<(Seq<char>, Seq<u8>)>,
    k: Seq<char>,
    v: Seq<u8>,
) -> bool {
    if spec_has_binding(old_b, k) {
        exists|i: int|
            0 <= i < old_b.len() && old_b[i].0 == k && (forall|j: int|
                0 <= j < i ==> old_b[j].0 != k) && new_b == old_b.update(i, (k, v))
    } else {
        new_b == old_b.push((k, v))
    }
}

/// Encode one text value into an opaque blob, to be carried inside an
/// envelope independently of the envelope's own encoding.
pub fn encode_value_str(value: &str) -> (r: Result<Vec<u8>, SerializationError>)
    ensures
        r matches Ok(v) ==> v@ == spec_enc_str(value@) && encode_utf8(value@).len() <= MAX_LEN,
        r is Err ==> encode_utf8(value@).len() > MAX_LEN,
{
    let mut out: Vec<u8> = Vec::new();
    if enc_str(&mut out, value) {
        Ok(out)
    } else {
        Err(SerializationError::Oversize)
    }
}

/// Decode an opaque blob that is expected to hold one text value.
pub fn decode_value_str(blob: &Vec<u8>) -> (r: Result<String, PayloadShapeError>)
    ensures
        r matches Ok(s) ==> spec_parse_str(blob@, 0) matches ParseStep::Found(t, _) && t == s@,
        r is Err ==> !(spec_parse_str(blob@, 0) is Found),
{
    match parse_str(blob, 0) {
        DecStep::Found(s, _) => Ok(s),
        DecStep::Short => Err(PayloadShapeError::ValueNotText),
        DecStep::Bad => Err(PayloadShapeError::ValueNotText),
    }
}

impl EnqueueMessage {
    /// Store an already-encoded blob under `name`, replacing the first entry
    /// with that key if one exists.
    pub fn add_binding_encoded(&mut self, name: &str, encoded: Vec<u8>)
        ensures
            final(self).statements == old(self).statements,
            final(self).command_id == old(self).command_id,
            spec_binding_stored(
                bindings_view(old(self).bindings@),
                bindings_view(final(self).bindings@),
                name@,
                encoded@,
            ),
    {
        let key: String = name.to_owned();
        let ghost obv = bindings_view(self.bindings@);
        let mut i: usize = 0;
        while i < self.bindings.len()
            invariant
                i <= self.bindings@.len(),
                obv == bindings_view(self.bindings@),
                obv == bindings_view(old(self).bindings@),
                key@ == name@,
                self.statements == old(self).statements,
                self.command_id == old(self).command_id,
                forall|j: int| 0 <= j < i ==> obv[j].0 != name@,
            decreases self.bindings@.len() - i,
        {
            assert(obv[i as int] == (self.bindings@[i as int].0@, self.bindings@[i as int].1@));
            if self.bindings[i].0.eq(&key) {
                assert(obv[i as int].0 == name@);
                self.bindings.remove(i);
                self.bindings.insert(i, (key, encoded));
                assert(bindings_view(self.bindings@) =~= obv.update(i as int, (name@, encoded@)));
                assert(0 <= i < obv.len() && obv[i as int].0 == name@ && (forall|j: int|
                    0 <= j < i ==> obv[j].0 != name@) && bindings_view(self.bindings@)
                    == obv.update(i as int, (name@, encoded@)));
                assert(spec_binding_stored(obv, bindings_view(self.bindings@), name@, encoded@));
                return ;
            }
            i = i + 1;
        }
        assert(!spec_has_binding(obv, name@));
        self.bindings.push((key, encoded));
        assert(bindings_view(self.bindings@) =~= obv.push((name@, encoded@)));
    }

    /// Encode `value` as an independent text value and store it under `name`.
    pub fn add_binding(&mut self, name: &str, value: &str) -> (r: Result<(), SerializationError>)
        ensures
            r is Ok ==> encode_utf8(value@).len() <= MAX_LEN && final(self).statements == old(
                self,
            ).statements && final(self).command_id == old(self).command_id
                && spec_binding_stored(
                bindings_view(old(self).bindings@),
                bindings_view(final(self).bindings@),
                name@,
                spec_enc_str(value@),
            ),
            r is Err ==> encode_utf8(value@).len() > MAX_LEN && *final(self) == *old(self),
    {
        match encode_value_str(value) {
            Ok(encoded) => {
                self.add_binding_encoded(name, encoded);
                Ok(())
            },
            Err(e) => Err(e),
        }
    }

    /// The envelope correlation id of this request.
    pub fn id(&self) -> (r: &str)
        ensures
            r@ == self@.command_id,
    {
        self.command_id.as_str()
    }

    /// Build a request that runs `statement` verbatim, with a fresh envelope
    /// correlation id, bound under `pharoCommandId` as its only binding.
    pub fn new_raw(statement: &str) -> (r: Self)
        ensures
            r@.statements == statement@,
            r@.command_id.len() == 36,
            encode_utf8(r@.command_id).len() == 36,
            r@.bindings =~= seq![("pharoCommandId"@, spec_enc_str(r@.command_id))],
    {
        let command_id = fresh_id();
        let mut message = EnqueueMessage {
            statements: statement.to_owned(),
            command_id: command_id.clone(),
            bindings: Vec::new(),
        };
        assert(message.command_id@ == command_id@);
        match message.add_binding("pharoCommandId", command_id.as_str()) {
            Ok(_) => {},
            Err(_) => {
                assert(false);
            },
        }
        message
    }

    /// Build a request whose statement notifies the peer of the value of
    /// `statement` under this request's own envelope correlation id.
    pub fn new(statement: &str) -> (r: Self)
        ensures
            r@.statements == "llCommand notify: ("@ + statement@ + ") id: pharoCommandId."@,
            r@.command_id.len() == 36,
            encode_utf8(r@.command_id).len() == 36,
            r@.bindings =~= seq![("pharoCommandId"@, spec_enc_str(r@.command_id))],
    {
        let full_statement = String::from_str("llCommand notify: (").concat(statement).concat(
            ") id: pharoCommandId.",
        );
        Self::new_raw(full_statement.as_str())
    }
}

impl IsAliveMessage {
    /// A liveness announcement with a fresh envelope correlation id.
    pub fn new() -> (r: Self)
        ensures
            r@.sync.len() == 36,
            encode_utf8(r@.sync).len() == 36,
    {
        IsAliveMessage { sync: fresh_id() }
    }
}


/// The notify wrapper that `EnqueueMessage::new` puts around a statement.
pub open spec fn spec_wrapped_statement(stmt: Seq<char>) -> Seq<char> {
    "llCommand notify: ("@ + stmt + ") id: pharoCommandId."@
}

pub open spec fn spec_register_statement() -> Seq<char> {
    "GtAssignedRemoteRunner registerWorkerWithDetails: attributes"@
}

pub open spec fn spec_observer_statement() -> Seq<char> {
    "GtAssignedRemoteRunner\n\t\t\taddObserver: [ :anObject |\n\t\t\t\tPharoLinkAnswerByValue\n\t\t\t\t\tvalue: #value\n\t\t\t\t\tduring: [ llCommand\n\t\t\t\t\t\t\tnotify: anObject\n\t\t\t\t\t\t\tcommand: pharoCommandId\n\t\t\t\t\t\t\tobserver: observerId ] ]\n\t\t\ttoWorkerId: workerId"@
}

pub open spec fn spec_next_task_statement() -> Seq<char> {
    "GtAssignedRemoteRunner nextTaskSerializedForWorkerId: workerId"@
}

pub open spec fn spec_task_done_statement() -> Seq<char> {
    "GtAssignedRemoteRunner\n\t    taskDone: taskContextId\n\t    executionData: (LeJsonV4 uniqueInstance deserialize: executionData readStream)\n\t    result: (LeJsonV4 uniqueInstance deserialize: result readStream).\n    llCommand notify: true id: pharoCommandId."@
}

/// A liveness announcement with a fresh 36-character envelope id.
pub open spec fn spec_is_is_alive(m: MsgV) -> bool {
    match m {
        MsgV::IsAlive(v) => v.sync.len() == 36 && str_fits(v.sync),
        _ => false,
    }
}

/// The registration request: the register statement with the worker's
/// attributes bound beside its own envelope id.
pub open spec fn spec_is_registration(m: MsgV, a: AttrsV) -> bool {
    match m {
        MsgV::Enqueue(e) => {
            &&& e.statements == spec_wrapped_statement(spec_register_statement())
            &&& e.command_id.len() == 36
            &&& str_fits(e.command_id)
            &&& e.bindings == seq![
                ("pharoCommandId"@, spec_enc_str(e.command_id)),
                ("attributes"@, spec_enc_attributes(a)),
            ]
        },
        _ => false,
    }
}

/// The observer attachment request for the worker named `worker_id`.
pub open spec fn spec_is_add_observer(m: MsgV, worker_id: Seq<char>) -> bool {
    match m {
        MsgV::Enqueue(e) => {
            &&& e.statements == spec_wrapped_statement(spec_observer_statement())
            &&& e.command_id.len() == 36
            &&& str_fits(e.command_id)
            &&& e.bindings.len() == 3
            &&& e.bindings[0] == ("pharoCommandId"@, spec_enc_str(e.command_id))
            &&& e.bindings[1] == ("workerId"@, spec_enc_str(worker_id))
            &&& e.bindings[2].0 == "observerId"@
            &&& exists|o: Seq<char>| e.bindings[2].1 == spec_enc_str(o) && o.len() == 36
        },
        _ => false,
    }
}

/// The task-pull request for the worker named `worker_id`.
pub open spec fn spec_is_next_task(m: MsgV, worker_id: Seq<char>) -> bool {
    match m {
        MsgV::Enqueue(e) => {
            &&& e.statements == spec_wrapped_statement(spec_next_task_statement())
            &&& e.command_id.len() == 36
            &&& str_fits(e.command_id)
            &&& e.bindings == seq![
                ("pharoCommandId"@, spec_enc_str(e.command_id)),
                ("workerId"@, spec_enc_str(worker_id)),
            ]
        },
        _ => false,
    }
}

/// The task-result report for the payload task-context id `tid`, carrying the
/// given execution data.
pub open spec fn spec_is_task_result(m: MsgV, tid: Seq<char>, execution_data: Seq<char>) -> bool {
    match m {
        MsgV::Enqueue(e) => {
            &&& e.statements == spec_task_done_statement()
            &&& e.command_id.len() == 36
            &&& str_fits(e.command_id)
            &&& e.bindings == seq![
                ("pharoCommandId"@, spec_enc_str(e.command_id)),
                ("executionData"@, spec_enc_str(execution_data)),
                ("taskContextId"@, spec_enc_str(tid)),
                ("result"@, spec_enc_str("\"result\""@)),
            ]
        },
        _ => false,
    }
}

/// Build a liveness announcement; always succeeds.
pub fn is_alive_message() -> (r: Result<Message, SerializationError>)
    ensures
        r matches Ok(m) ==> spec_is_is_alive(m@),
        r is Ok,
{
    Ok(Message::IsAlive(IsAliveMessage::new()))
}

/// Build the registration request carrying the worker's attributes.
pub fn register_worker_message(worker: &Worker) -> (r: Result<Message, SerializationError>)
    ensures
        r matches Ok(m) ==> spec_is_registration(m@, worker@.attributes),
        r is Err ==> !attrs_fit(worker@.attributes),
{
    let statement = "GtAssignedRemoteRunner registerWorkerWithDetails: attributes";
    let mut message = EnqueueMessage::new(statement);
    let attrs = worker.attributes();
    match encode_value_attributes(&attrs) {
        Ok(encoded) => {
            proof {
                reveal_strlit("pharoCommandId");
                reveal_strlit("attributes");
            }
            let ghost b0 = message@.bindings;
            assert("pharoCommandId"@.len() == 14 && "attributes"@.len() == 10);
            assert(b0.len() == 1);
            assert(!spec_has_binding(b0, "attributes"@)) by {
                assert(forall|i: int| 0 <= i < b0.len() ==> #[trigger] b0[i].0 == "pharoCommandId"@);
            }
            message.add_binding_encoded("attributes", encoded);
            assert(message@.bindings =~= seq![
                ("pharoCommandId"@, spec_enc_str(message@.command_id)),
                ("attributes"@, spec_enc_attributes(attrs@)),
            ]);
            Ok(Message::Enqueue(message))
        },
        Err(e) => Err(e),
    }
}

/// Build the observer attachment request, with a fresh observer id bound
/// beside the worker's id.
pub fn add_observer_message(worker: &Worker) -> (r: Result<Message, SerializationError>)
    ensures
        r matches Ok(m) ==> spec_is_add_observer(m@, worker@.attributes.id),
        r is Ok ==> str_fits(worker@.attributes.id),
        r is Err ==> !str_fits(worker@.attributes.id),
{
    let statement = "GtAssignedRemoteRunner\n\t\t\taddObserver: [ :anObject |\n\t\t\t\tPharoLinkAnswerByValue\n\t\t\t\t\tvalue: #value\n\t\t\t\t\tduring: [ llCommand\n\t\t\t\t\t\t\tnotify: anObject\n\t\t\t\t\t\t\tcommand: pharoCommandId\n\t\t\t\t\t\t\tobserver: observerId ] ]\n\t\t\ttoWorkerId: workerId";
    let observer_id = fresh_id();
    let mut message = EnqueueMessage::new(statement);
    proof {
        reveal_strlit("pharoCommandId");
        reveal_strlit("workerId");
        reveal_strlit("observerId");
    }
    let ghost b0 = message@.bindings;
    assert("pharoCommandId"@.len() == 14 && "workerId"@.len() == 8 && "observerId"@.len() == 10);
    assert(b0.len() == 1);
    assert(!spec_has_binding(b0, "workerId"@)) by {
        assert(forall|i: int| 0 <= i < b0.len() ==> #[trigger] b0[i].0 == "pharoCommandId"@);
    }
    match message.add_binding("workerId", worker.id()) {
        Ok(_) => {},
        Err(e) => {
            return Err(e);
        },
    }
    let ghost b1 = message@.bindings;
    assert(b1 =~= seq![
        ("pharoCommandId"@, spec_enc_str(message@.command_id)),
        ("workerId"@, spec_enc_str(worker@.attributes.id)),
    ]);
    assert(b1.len() == 2);
    assert(!spec_has_binding(b1, "observerId"@)) by {
        assert forall|i: int| 0 <= i < b1.len() implies b1[i].0 != "observerId"@ by {
            assert(i == 0 || i == 1);
            assert(b1[0].0 == "pharoCommandId"@ && b1[1].0 == "workerId"@);
        }
    }
    match message.add_binding("observerId", observer_id.as_str()) {
        Ok(_) => {},
        Err(e) => {
            proof {
                assert(false);
            }
            return Err(e);
        },
    }
    assert(message@.bindings =~= b1.push(("observerId"@, spec_enc_str(observer_id@))));
    assert(message@.bindings[2].1 == spec_enc_str(observer_id@) && observer_id@.len() == 36);
    Ok(Message::Enqueue(message))
}

/// Build the task-pull request for this worker.
pub fn next_task_for_worker_message(worker: &Worker) -> (r: Result<Message, SerializationError>)
    ensures
        r matches Ok(m) ==> spec_is_next_task(m@, worker@.attributes.id),
        r is Ok ==> str_fits(worker@.attributes.id),
        r is Err ==> !str_fits(worker@.attributes.id),
{
    let statement = "GtAssignedRemoteRunner nextTaskSerializedForWorkerId: workerId";
    let mut message = EnqueueMessage::new(statement);
    proof {
        reveal_strlit("pharoCommandId");
        reveal_strlit("workerId");
    }
    let ghost b0 = message@.bindings;
    assert("pharoCommandId"@.len() == 14 && "workerId"@.len() == 8);
    assert(b0.len() == 1);
    assert(!spec_has_binding(b0, "workerId"@)) by {
        assert(forall|i: int| 0 <= i < b0.len() ==> #[trigger] b0[i].0 == "pharoCommandId"@);
    }
    match message.add_binding("workerId", worker.id()) {
        Ok(_) => {},
        Err(e) => {
            return Err(e);
        },
    }
    assert(message@.bindings =~= seq![
        ("pharoCommandId"@, spec_enc_str(message@.command_id)),
        ("workerId"@, spec_enc_str(worker@.attributes.id)),
    ]);
    Ok(Message::Enqueue(message))
}

/// Build the task-result report naming the payload task-context id, with the
/// given execution data bound beside a fixed result value.
pub fn task_result_message(task_context_id: &str, execution_data: &str) -> (r: Result<
    Message,
    SerializationError,
>)
    ensures
        r matches Ok(m) ==> spec_is_task_result(m@, task_context_id@, execution_data@),
        r is Ok ==> str_fits(task_context_id@) && str_fits(execution_data@),
        r is Err ==> !str_fits(task_context_id@) || !str_fits(execution_data@),
{
    let statement = "GtAssignedRemoteRunner\n\t    taskDone: taskContextId\n\t    executionData: (LeJsonV4 uniqueInstance deserialize: executionData readStream)\n\t    result: (LeJsonV4 uniqueInstance deserialize: result readStream).\n    llCommand notify: true id: pharoCommandId.";
    let mut message = EnqueueMessage::new_raw(statement);
    proof {
        reveal_strlit("pharoCommandId");
        reveal_strlit("executionData");
        reveal_strlit("taskContextId");
        reveal_strlit("result");
        reveal_strlit("\"result\"");
        lemma_enc_len_quote_result();
    }
    let ghost b0 = message@.bindings;
    assert("pharoCommandId"@.len() == 14 && "executionData"@.len() == 13 && "taskContextId"@.len()
        == 13 && "result"@.len() == 6);
    assert(b0.len() == 1);
    assert(!spec_has_binding(b0, "executionData"@)) by {
        assert(forall|i: int| 0 <= i < b0.len() ==> #[trigger] b0[i].0 == "pharoCommandId"@);
    }
    match message.add_binding("executionData", execution_data) {
        Ok(_) => {},
        Err(e) => {
            return Err(e);
        },
    }
    let ghost b1 = message@.bindings;
    assert(b1 =~= seq![
        ("pharoCommandId"@, spec_enc_str(message@.command_id)),
        ("executionData"@, spec_enc_str(execution_data@)),
    ]);
    assert(b1.len() == 2);
    assert(!spec_has_binding(b1, "taskContextId"@)) by {
        assert("executionData"@[0] != "taskContextId"@[0]);
        assert forall|i: int| 0 <= i < b1.len() implies b1[i].0 != "taskContextId"@ by {
            assert(i == 0 || i == 1);
            assert(b1[0].0 == "pharoCommandId"@ && b1[1].0 == "executionData"@);
        }
    }
    match message.add_binding("taskContextId", task_context_id) {
        Ok(_) => {},
        Err(e) => {
            return Err(e);
        },
    }
    let ghost b2 = message@.bindings;
    assert(b2 =~= b1.push(("taskContextId"@, spec_enc_str(task_context_id@))));
    assert(b2.len() == 3);
    assert(!spec_has_binding(b2, "result"@)) by {
        assert forall|i: int| 0 <= i < b2.len() implies b2[i].0 != "result"@ by {
            assert(i == 0 || i == 1 || i == 2);
            assert(b2[0].0 == "pharoCommandId"@ && b2[1].0 == "executionData"@ && b2[2].0
                == "taskContextId"@);
        }
    }
    match message.add_binding("result", "\"result\"") {
        Ok(_) => {},
        Err(e) => {
            proof {
                assert(false);
            }
            return Err(e);
        },
    }
    assert(message@.bindings =~= seq![
        ("pharoCommandId"@, spec_enc_str(message@.command_id)),
        ("executionData"@, spec_enc_str(execution_data@)),
        ("taskContextId"@, spec_enc_str(task_context_id@)),
        ("result"@, spec_enc_str("\"result\""@)),
    ]);
    Ok(Message::Enqueue(message))
}

proof fn lemma_enc_len_quote_result()
    ensures
        encode_utf8("\"result\""@).len() <= 32,
{
    reveal_strlit("\"result\"");
    crate::envelope::lemma_encode_utf8_len("\"result\""@);
}

} // verus!
