use vstd::prelude::*;

verus! {

use vstd::utf8::encode_utf8;
use crate::codec::MAX_LEN;
use crate::codec::spec_enc_str;
use crate::codec::spec_enc_map_header;
use crate::codec::spec_enc_uint;
use crate::codec::enc_str;
use crate::codec::enc_map_header;
use crate::codec::enc_uint;
use crate::envelope::spec_enc_field;
use crate::envelope::str_fits;
use crate::envelope::enc_key;
use crate::envelope::lemma_encode_utf8_len;
use crate::messages::Message;
use crate::messages::MsgV;
use crate::messages::EvalV;
use crate::messages::register_worker_message;
use crate::messages::spec_is_registration;
use crate::errors::SerializationError;

/// How this worker connects to the dispatch server: one socket for the whole
/// session.
#[derive(Debug, Clone, Copy, PartialEq, Eq, Structural)]
pub enum WorkerConnectionStrategy {
    Single,
}

/// The attributes a worker announces at registration.
#[derive(Debug, Clone)]
pub struct WorkerAttributes {
    pub id: String,
    pub working_directory: String,
    pub worker_connection_strategy: WorkerConnectionStrategy,
    pub platform: String,
    pub pid: u32,
}

/// Spec view of the announced attributes.
pub struct AttrsV {
    pub id: Seq<char>,
    pub working_directory: Seq<char>,
    pub platform: Seq<char>,
    pub pid: u32,
}

impl View for WorkerAttributes {
    type V = AttrsV;

    open spec fn view(&self) -> AttrsV {
        AttrsV {
            id: self.id@,
            working_directory: self.working_directory@,
            platform: self.platform@,
            pid: self.pid,
        }
    }
}

impl WorkerAttributes {
    /// Attributes for a worker identified by `id`, running in the given
    /// directory on the given platform under the given process id.
    pub fn new(id: String, working_directory: String, platform: String, pid: u32) -> (r: Self)
        ensures
            r@ == (AttrsV {
                id: id@,
                working_directory: working_directory@,
                platform: platform@,
                pid: pid,
            }),
            r.worker_connection_strategy == WorkerConnectionStrategy::Single,
    {
        WorkerAttributes {
            id: id,
            working_directory: working_directory,
            worker_connection_strategy: WorkerConnectionStrategy::Single,
            platform: platform,
            pid: pid,
        }
    }
}

/// The wire encoding of the attributes record, an independently encoded value
/// carried as a binding blob.
pub open spec fn spec_enc_attributes(a: AttrsV) -> Seq<u8> {
    spec_enc_map_header(5) + spec_enc_field("id"@, a.id) + spec_enc_field(
        "workingDirectory"@,
        a.working_directory,
    ) + spec_enc_field("workerConnectionStrategy"@, "singleConnectionStrategy"@) + spec_enc_field(
        "platform"@,
        a.platform,
    ) + spec_enc_str("pid"@) + spec_enc_uint(a.pid as nat)
}

/// Whether each attribute text fits in one wire element.
pub open spec fn attrs_fit(a: AttrsV) -> bool {
    str_fits(a.id) && str_fits(a.working_directory) && str_fits(a.platform)
}

/// Encode the attributes record into an opaque blob, the independent value
/// encoding used for the registration binding.
pub fn encode_value_attributes(a: &WorkerAttributes) -> (r: Result<Vec<u8>, SerializationError>)
    ensures
        r matches Ok(v) ==> v@ == spec_enc_attributes(a@) && attrs_fit(a@),
        r is Err ==> !attrs_fit(a@),
{
    proof {
        reveal_strlit("id");
        reveal_strlit("workingDirectory");
        reveal_strlit("workerConnectionStrategy");
        reveal_strlit("singleConnectionStrategy");
        reveal_strlit("platform");
        reveal_strlit("pid");
        lemma_encode_utf8_len("id"@);
        lemma_encode_utf8_len("workingDirectory"@);
        lemma_encode_utf8_len("workerConnectionStrategy"@);
        lemma_encode_utf8_len("singleConnectionStrategy"@);
        lemma_encode_utf8_len("platform"@);
        lemma_encode_utf8_len("pid"@);
    }
    let mut out: Vec<u8> = Vec::new();
    enc_map_header(&mut out, 5);
    enc_key(&mut out, "id");
    if !enc_str(&mut out, a.id.as_str()) {
        return Err(SerializationError::Oversize);
    }
    enc_key(&mut out, "workingDirectory");
    if !enc_str(&mut out, a.working_directory.as_str()) {
        return Err(SerializationError::Oversize);
    }
    enc_key(&mut out, "workerConnectionStrategy");
    enc_key(&mut out, "singleConnectionStrategy");
    enc_key(&mut out, "platform");
    if !enc_str(&mut out, a.platform.as_str()) {
        return Err(SerializationError::Oversize);
    }
    enc_key(&mut out, "pid");
    enc_uint(&mut out, a.pid);
    assert(out@ =~= spec_enc_attributes(a@));
    Ok(out)
}

/// The session state of one worker run: identity and announced attributes,
/// the optional heartbeat interval and simulated work duration, and the
/// registration state with its pending envelope correlation id.
#[derive(Debug)]
pub struct Worker {
    pub attributes: WorkerAttributes,
    pub heartbeat: Option<u64>,
    pub work_duration: Option<u64>,
    pub is_registered: bool,
    pub registration_message_id: Option<String>,
}

/// Spec view of the session state.
pub struct WorkerV {
    pub attributes: AttrsV,
    pub heartbeat: Option<u64>,
    pub work_duration: Option<u64>,
    pub is_registered: bool,
    pub registration_message_id: Option<Seq<char>>,
}

impl View for Worker {
    type V = WorkerV;

    open spec fn view(&self) -> WorkerV {
        WorkerV {
            attributes: self.attributes@,
            heartbeat: self.heartbeat,
            work_duration: self.work_duration,
            is_registered: self.is_registered,
            registration_message_id: match self.registration_message_id {
                Some(s) => Some(s@),
                None => None,
            },
        }
    }
}

/// The session translation of one incoming message: while a registration is
/// pending, an `Eval` whose envelope id equals the pending id completes the
/// handshake and is rewritten to the synthesized `Registered` event; every
/// other message passes through with the state unchanged.
pub open spec fn spec_classify(w: WorkerV, m: MsgV) -> (WorkerV, MsgV) {
    match (w.registration_message_id, m) {
        (Some(rid), MsgV::Eval(ev)) => if !w.is_registered && ev.id == rid {
            (
                WorkerV {
                    is_registered: true,
                    registration_message_id: None::<Seq<char>>,
                    ..w
                },
                MsgV::Registered,
            )
        } else {
            (w, m)
        },
        _ => (w, m),
    }
}

impl Worker {
    /// A fresh, unregistered session with a newly drawn random identity.
    pub fn new(working_directory: String, platform: String, pid: u32) -> (r: Self)
        ensures
            r@.attributes.id.len() == 36,
            str_fits(r@.attributes.id),
            r@.attributes.working_directory == working_directory@,
            r@.attributes.platform == platform@,
            r@.attributes.pid == pid,
            r@.heartbeat is None,
            r@.work_duration is None,
            !r@.is_registered,
            r@.registration_message_id is None,
    {
        let id = crate::messages::fresh_id();
        Worker {
            attributes: WorkerAttributes::new(id, working_directory, platform, pid),
            heartbeat: None,
            work_duration: None,
            is_registered: false,
            registration_message_id: None,
        }
    }

    pub fn set_heartbeat(&mut self, heartbeat: Option<u64>)
        ensures
            final(self)@ == (WorkerV { heartbeat: heartbeat, ..old(self)@ }),
    {
        self.heartbeat = heartbeat;
    }

    pub fn set_work_duration(&mut self, work_duration: Option<u64>)
        ensures
            final(self)@ == (WorkerV { work_duration: work_duration, ..old(self)@ }),
    {
        self.work_duration = work_duration;
    }

    pub fn work_duration(&self) -> (r: Option<u64>)
        ensures
            r == self@.work_duration,
    {
        self.work_duration
    }

    /// A copy of the announced attributes.
    pub fn attributes(&self) -> (r: WorkerAttributes)
        ensures
            r@ == self@.attributes,
            r.worker_connection_strategy == self.attributes.worker_connection_strategy,
    {
        WorkerAttributes {
            id: self.attributes.id.clone(),
            working_directory: self.attributes.working_directory.clone(),
            worker_connection_strategy: self.attributes.worker_connection_strategy,
            platform: self.attributes.platform.clone(),
            pid: self.attributes.pid,
        }
    }

    pub fn id(&self) -> (r: &str)
        ensures
            r@ == self@.attributes.id,
    {
        self.attributes.id.as_str()
    }

    pub fn is_registered(&self) -> (r: bool)
        ensures
            r == self@.is_registered,
    {
        self.is_registered
    }

    /// Build the registration request and record its envelope id as pending;
    /// a no-op when the session is already registered. The returned message,
    /// if any, is to be sent to the peer.
    pub fn request_registration(&mut self) -> (r: Result<Option<Message>, SerializationError>)
        ensures
            old(self)@.is_registered ==> (r matches Ok(o) && o is None && *final(self) == *old(
                self,
            )),
            !old(self)@.is_registered ==> match r {
                Ok(o) => (o matches Some(msg) && spec_is_registration(msg@, old(self)@.attributes)
                    && (msg@ matches MsgV::Enqueue(e) && final(self)@ == (WorkerV {
                    registration_message_id: Some(e.command_id),
                    ..old(self)@
                }))),
                Err(_) => !attrs_fit(old(self)@.attributes) && *final(self) == *old(self),
            },
    {
        if self.is_registered {
            return Ok(None);
        }
        match register_worker_message(self) {
            Ok(message) => {
                let mid: String = match &message {
                    Message::Enqueue(e) => e.command_id.clone(),
                    _ => {
                        proof {
                            assert(false);
                        }
                        String::new()
                    },
                };
                self.registration_message_id = Some(mid);
                Ok(Some(message))
            },
            Err(e) => Err(e),
        }
    }

    /// Run one incoming message through the registration check, yielding the
    /// message the handler must see (possibly rewritten to `Registered`).
    pub fn classify_message(&mut self, message: Message) -> (r: Message)
        ensures
            final(self)@ == spec_classify(old(self)@, message@).0,
            r@ == spec_classify(old(self)@, message@).1,
    {
        if !self.is_registered {
            match (&self.registration_message_id, &message) {
                (Some(rid), Message::Eval(ev)) => {
                    if ev.id.eq(rid) {
                        self.is_registered = true;
                        self.registration_message_id = None;
                        return Message::Registered;
                    }
                },
                _ => {},
            }
        }
        message
    }
}

/// The registration handshake completes exactly once: an `Eval` bearing the
/// pending envelope id is classified as `Registered` and registers the
/// session; afterwards no message is ever rewritten again, and before then an
/// `Eval` with any other envelope id passes through unchanged.
pub proof fn lemma_registration_exactly_once(w: WorkerV, ev: EvalV)
    requires
        !w.is_registered,
        w.registration_message_id == Some(ev.id),
    ensures
        spec_classify(w, MsgV::Eval(ev)).1 == MsgV::Registered,
        spec_classify(w, MsgV::Eval(ev)).0.is_registered,
        spec_classify(w, MsgV::Eval(ev)).0.registration_message_id is None,
        forall|m2: MsgV| #[trigger] spec_classify(spec_classify(w, MsgV::Eval(ev)).0, m2) == (
            spec_classify(w, MsgV::Eval(ev)).0,
            m2,
        ),
        forall|ev2: EvalV|
            ev2.id != ev.id ==> #[trigger] spec_classify(w, MsgV::Eval(ev2)) == (
                w,
                MsgV::Eval(ev2),
            ),
{
}

} // verus!
