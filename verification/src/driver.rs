use vstd::prelude::*;

verus! {

use crate::envelope::str_fits;
use crate::messages::Message;
use crate::messages::MsgV;
use crate::messages::is_alive_message;
use crate::messages::add_observer_message;
use crate::messages::next_task_for_worker_message;
use crate::messages::task_result_message;
use crate::messages::spec_is_is_alive;
use crate::messages::spec_is_add_observer;
use crate::messages::spec_is_next_task;
use crate::messages::spec_is_task_result;
use crate::payload::spec_task_context_id;
use crate::worker::Worker;
use crate::worker::WorkerV;
use crate::errors::SerializationError;

/// What the reference handler asks the driver to do for one message: wait for
/// the given simulated work duration, if any, then send the replies in order.
pub struct HandlerAction {
    pub sleep_ms: Option<u64>,
    pub replies: Vec<Message>,
}

/// The views of a reply list.
pub open spec fn replies_views(s: Seq<Message>) -> Seq<MsgV> {
    s.map_values(|m: Message| m@)
}

/// Whether the reference handler succeeds on this message in this state: it
/// fails only where a reply's element would not fit on the wire.
pub open spec fn spec_handler_ok(w: WorkerV, m: MsgV, execution_data: Seq<char>) -> bool {
    match m {
        MsgV::Registered => str_fits(w.attributes.id),
        MsgV::Eval(ev) => match spec_task_context_id(ev.value) {
            Some(tid) => str_fits(tid) && str_fits(execution_data) && str_fits(w.attributes.id),
            None => true,
        },
        _ => true,
    }
}

/// The workflow policy: what the handler replies, and when it sleeps, for
/// each message. A heartbeat is answered with a fresh liveness announcement;
/// registration completion is answered with an observer attachment then a
/// task pull; an evaluation naming a task-context id is answered, after the
/// simulated work, with exactly one task-result report for that id followed
/// by exactly one task pull; every other message, including an evaluation
/// whose payload names no task-context id, draws no reply.
pub open spec fn spec_handler_replies(
    w: WorkerV,
    m: MsgV,
    execution_data: Seq<char>,
    sleep_ms: Option<u64>,
    rs: Seq<MsgV>,
) -> bool {
    match m {
        MsgV::Heartbeat => sleep_ms is None && rs.len() == 1 && spec_is_is_alive(rs[0]),
        MsgV::Registered => sleep_ms is None && rs.len() == 2 && spec_is_add_observer(
            rs[0],
            w.attributes.id,
        ) && spec_is_next_task(rs[1], w.attributes.id),
        MsgV::Eval(ev) => match spec_task_context_id(ev.value) {
            Some(tid) => sleep_ms == w.work_duration && rs.len() == 2 && spec_is_task_result(
                rs[0],
                tid,
                execution_data,
            ) && spec_is_next_task(rs[1], w.attributes.id),
            None => sleep_ms is None && rs.len() == 0,
        },
        _ => sleep_ms is None && rs.len() == 0,
    }
}

/// The reference handler. The session state is read, never changed; the
/// returned action tells the driver what to send back on the same connection.
///
/// The driver is expected to wait out `sleep_ms` and send the replies before
/// reading again, so while a simulated task runs, no heartbeat can be
/// answered and nothing is read: a long task can starve the heartbeat
/// exchange and make the peer consider this worker dead. That coupling is
/// deliberate in this engine.
pub fn reference_handler(worker: &Worker, message: &Message, execution_data: &str) -> (r: Result<
    HandlerAction,
    SerializationError,
>)
    ensures
        r matches Ok(a) ==> spec_handler_replies(
            worker@,
            message@,
            execution_data@,
            a.sleep_ms,
            replies_views(a.replies@),
        ),
        r is Ok <==> spec_handler_ok(worker@, message@, execution_data@),
{
    match message {
        Message::Eval(eval) => match eval.task_context_id() {
            Ok(tid) => {
                let mut replies: Vec<Message> = Vec::new();
                match task_result_message(tid.as_str(), execution_data) {
                    Ok(m1) => {
                        replies.push(m1);
                    },
                    Err(e) => {
                        return Err(e);
                    },
                }
                match next_task_for_worker_message(worker) {
                    Ok(m2) => {
                        replies.push(m2);
                    },
                    Err(e) => {
                        return Err(e);
                    },
                }
                assert(replies_views(replies@).len() == 2);
                assert(replies_views(replies@)[0] == replies@[0]@);
                assert(replies_views(replies@)[1] == replies@[1]@);
                Ok(HandlerAction { sleep_ms: worker.work_duration(), replies: replies })
            },
            Err(_) => Ok(HandlerAction { sleep_ms: None, replies: Vec::new() }),
        },
        Message::Heartbeat => {
            let mut replies: Vec<Message> = Vec::new();
            match is_alive_message() {
                Ok(m) => {
                    replies.push(m);
                },
                Err(e) => {
                    proof {
                        assert(false);
                    }
                    return Err(e);
                },
            }
            assert(replies_views(replies@).len() == 1);
            assert(replies_views(replies@)[0] == replies@[0]@);
            Ok(HandlerAction { sleep_ms: None, replies: replies })
        },
        Message::Registered => {
            let mut replies: Vec<Message> = Vec::new();
            match add_observer_message(worker) {
                Ok(m1) => {
                    replies.push(m1);
                },
                Err(e) => {
                    return Err(e);
                },
            }
            match next_task_for_worker_message(worker) {
                Ok(m2) => {
                    replies.push(m2);
                },
                Err(e) => {
                    return Err(e);
                },
            }
            assert(replies_views(replies@).len() == 2);
            assert(replies_views(replies@)[0] == replies@[0]@);
            assert(replies_views(replies@)[1] == replies@[1]@);
            Ok(HandlerAction { sleep_ms: None, replies: replies })
        },
        _ => Ok(HandlerAction { sleep_ms: None, replies: Vec::new() }),
    }
}

} // verus!
