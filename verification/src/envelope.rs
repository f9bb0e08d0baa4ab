use vstd::prelude::*;

verus! {

use vstd::utf8::encode_utf8;
use vstd::string::StringExecFns;
use crate::codec::ParseStep;
use crate::codec::DecStep;
use crate::codec::MAX_LEN;
use crate::codec::spec_parse_str;
use crate::codec::spec_parse_bin;
use crate::codec::spec_parse_map_header;
use crate::codec::spec_enc_str;
use crate::codec::spec_enc_bin;
use crate::codec::spec_enc_map_header;
use crate::codec::parse_str;
use crate::codec::parse_bin;
use crate::codec::parse_map_header;
use crate::codec::enc_str;
use crate::codec::enc_bin;
use crate::codec::enc_map_header;
use crate::codec::lemma_parse_str_enc;
use crate::codec::lemma_parse_bin_enc;
use crate::codec::lemma_parse_map_header_enc;
use crate::messages::Message;
use crate::messages::MsgV;
use crate::messages::IsAliveV;
use crate::messages::EnqueueV;
use crate::messages::EvalV;
use crate::messages::ErrV;
use crate::messages::IsAliveMessage;
use crate::messages::EnqueueMessage;
use crate::messages::EvalMessage;
use crate::messages::ErrMessage;
use crate::messages::bindings_view;
use crate::errors::SerializationError;
use crate::errors::ProtocolDecodeError;

/// Every UTF-8 encoding takes at most four bytes per character.
pub proof fn lemma_encode_utf8_len(s: Seq<char>)
    ensures
        encode_utf8(s).len() <= 4 * s.len(),
    decreases s.len(),
{
    if s.len() == 0 {
    } else {
        lemma_encode_utf8_len(s.drop_first());
    }
}

/// A string element whose text must equal the expected key `k`.
pub open spec fn spec_parse_key(b: Seq<u8>, i: int, k: Seq<char>) -> ParseStep<()> {
    match spec_parse_str(b, i) {
        ParseStep::Found(s, e) => if s == k {
            ParseStep::Found((), e)
        } else {
            ParseStep::Bad
        },
        ParseStep::Short => ParseStep::Short,
        ParseStep::Bad => ParseStep::Bad,
    }
}

/// A map entry pair named `k` whose value is a string element.
pub open spec fn spec_parse_str_field(b: Seq<u8>, i: int, k: Seq<char>) -> ParseStep<Seq<char>> {
    match spec_parse_key(b, i, k) {
        ParseStep::Found(_, j) => spec_parse_str(b, j),
        ParseStep::Short => ParseStep::Short,
        ParseStep::Bad => ParseStep::Bad,
    }
}

/// A map entry pair named `k` whose value is a binary element.
pub open spec fn spec_parse_bin_field(b: Seq<u8>, i: int, k: Seq<char>) -> ParseStep<Seq<u8>> {
    match spec_parse_key(b, i, k) {
        ParseStep::Found(_, j) => spec_parse_bin(b, j),
        ParseStep::Short => ParseStep::Short,
        ParseStep::Bad => ParseStep::Bad,
    }
}

/// `n` binding entries, each a string key and a binary blob, in wire order
/// after those already gathered in `acc`.
pub open spec fn spec_parse_entries(
    b: Seq<u8>,
    i: int,
    n: nat,
    acc: Seq<(Seq<char>, Seq<u8>)>,
) -> ParseStep<Seq<(Seq<char>, Seq<u8>)>>
    decreases n,
{
    if n == 0 {
        ParseStep::Found(acc, i)
    } else {
        match spec_parse_str(b, i) {
            ParseStep::Found(k, j) => match spec_parse_bin(b, j) {
                ParseStep::Found(v, e) => spec_parse_entries(b, e, (n - 1) as nat, acc.push((k, v))),
                ParseStep::Short => ParseStep::Short,
                ParseStep::Bad => ParseStep::Bad,
            },
            ParseStep::Short => ParseStep::Short,
            ParseStep::Bad => ParseStep::Bad,
        }
    }
}

pub open spec fn spec_parse_is_alive(b: Seq<u8>, i: int) -> ParseStep<MsgV> {
    match spec_parse_str_field(b, i, "__sync"@) {
        ParseStep::Found(s, e) => ParseStep::Found(MsgV::IsAlive(IsAliveV { sync: s }), e),
        ParseStep::Short => ParseStep::Short,
        ParseStep::Bad => ParseStep::Bad,
    }
}

pub open spec fn spec_parse_enqueue(b: Seq<u8>, i: int) -> ParseStep<MsgV> {
    match spec_parse_str_field(b, i, "statements"@) {
        ParseStep::Found(st, i1) => match spec_parse_str_field(b, i1, "commandId"@) {
            ParseStep::Found(cid, i2) => match spec_parse_key(b, i2, "bindings"@) {
                ParseStep::Found(_, i3) => match spec_parse_map_header(b, i3) {
                    ParseStep::Found(n, i4) => match spec_parse_entries(
                        b,
                        i4,
                        n as nat,
                        Seq::empty(),
                    ) {
                        ParseStep::Found(bs, e) => ParseStep::Found(
                            MsgV::Enqueue(EnqueueV { statements: st, command_id: cid, bindings: bs }),
                            e,
                        ),
                        ParseStep::Short => ParseStep::Short,
                        ParseStep::Bad => ParseStep::Bad,
                    },
                    ParseStep::Short => ParseStep::Short,
                    ParseStep::Bad => ParseStep::Bad,
                },
                ParseStep::Short => ParseStep::Short,
                ParseStep::Bad => ParseStep::Bad,
            },
            ParseStep::Short => ParseStep::Short,
            ParseStep::Bad => ParseStep::Bad,
        },
        ParseStep::Short => ParseStep::Short,
        ParseStep::Bad => ParseStep::Bad,
    }
}

pub open spec fn spec_parse_eval(b: Seq<u8>, i: int) -> ParseStep<MsgV> {
    match spec_parse_str_field(b, i, "id"@) {
        ParseStep::Found(id, i1) => match spec_parse_bin_field(b, i1, "value"@) {
            ParseStep::Found(v, e) => ParseStep::Found(MsgV::Eval(EvalV { id: id, value: v }), e),
            ParseStep::Short => ParseStep::Short,
            ParseStep::Bad => ParseStep::Bad,
        },
        ParseStep::Short => ParseStep::Short,
        ParseStep::Bad => ParseStep::Bad,
    }
}

pub open spec fn spec_parse_err(b: Seq<u8>, i: int) -> ParseStep<MsgV> {
    match spec_parse_str_field(b, i, "errMsg"@) {
        ParseStep::Found(em, i1) => match spec_parse_str_field(b, i1, "trace"@) {
            ParseStep::Found(tr, i2) => match spec_parse_str_field(b, i2, "commandId"@) {
                ParseStep::Found(cid, i3) => match spec_parse_str_field(b, i3, "__sync"@) {
                    ParseStep::Found(sy, e) => ParseStep::Found(
                        MsgV::Error(ErrV { err_msg: em, trace: tr, command_id: cid, sync: sy }),
                        e,
                    ),
                    ParseStep::Short => ParseStep::Short,
                    ParseStep::Bad => ParseStep::Bad,
                },
                ParseStep::Short => ParseStep::Short,
                ParseStep::Bad => ParseStep::Bad,
            },
            ParseStep::Short => ParseStep::Short,
            ParseStep::Bad => ParseStep::Bad,
        },
        ParseStep::Short => ParseStep::Short,
        ParseStep::Bad => ParseStep::Bad,
    }
}

/// One complete message at the head of the buffer: a map whose first entry
/// is the `type` discriminator, followed by that variant's named fields.
pub open spec fn spec_decode_msg(b: Seq<u8>) -> ParseStep<MsgV> {
    match spec_parse_map_header(b, 0) {
        ParseStep::Found(n, i1) => match spec_parse_str_field(b, i1, "type"@) {
            ParseStep::Found(tag, i2) => if tag == "IS_ALIVE"@ {
                if n != 2 {
                    ParseStep::Bad
                } else {
                    spec_parse_is_alive(b, i2)
                }
            } else if tag == "ENQUEUE"@ {
                if n != 4 {
                    ParseStep::Bad
                } else {
                    spec_parse_enqueue(b, i2)
                }
            } else if tag == "EVAL"@ {
                if n != 3 {
                    ParseStep::Bad
                } else {
                    spec_parse_eval(b, i2)
                }
            } else if tag == "ERR"@ {
                if n != 5 {
                    ParseStep::Bad
                } else {
                    spec_parse_err(b, i2)
                }
            } else if tag == "HEARTBEAT"@ {
                if n != 1 {
                    ParseStep::Bad
                } else {
                    ParseStep::Found(MsgV::Heartbeat, i2)
                }
            } else if tag == "REGISTERED"@ {
                if n != 1 {
                    ParseStep::Bad
                } else {
                    ParseStep::Found(MsgV::Registered, i2)
                }
            } else {
                ParseStep::Bad
            },
            ParseStep::Short => ParseStep::Short,
            ParseStep::Bad => ParseStep::Bad,
        },
        ParseStep::Short => ParseStep::Short,
        ParseStep::Bad => ParseStep::Bad,
    }
}

/// One map entry: a string key followed by a string value.
pub open spec fn spec_enc_field(key: Seq<char>, val: Seq<char>) -> Seq<u8> {
    spec_enc_str(key) + spec_enc_str(val)
}

/// Binding entries in order: each a string key and a binary blob.
pub open spec fn spec_enc_entries(bs: Seq<(Seq<char>, Seq<u8>)>) -> Seq<u8>
    decreases bs.len(),
{
    if bs.len() == 0 {
        Seq::empty()
    } else {
        spec_enc_str(bs[0].0) + spec_enc_bin(bs[0].1) + spec_enc_entries(bs.drop_first())
    }
}

/// The wire encoding of a message: its tagged map of named fields.
pub open spec fn spec_enc_msg(m: MsgV) -> Seq<u8> {
    match m {
        MsgV::IsAlive(v) => spec_enc_map_header(2) + spec_enc_field("type"@, "IS_ALIVE"@)
            + spec_enc_field("__sync"@, v.sync),
        MsgV::Enqueue(v) => spec_enc_map_header(4) + spec_enc_field("type"@, "ENQUEUE"@)
            + spec_enc_field("statements"@, v.statements) + spec_enc_field(
            "commandId"@,
            v.command_id,
        ) + spec_enc_str("bindings"@) + spec_enc_map_header(v.bindings.len()) + spec_enc_entries(
            v.bindings,
        ),
        MsgV::Eval(v) => spec_enc_map_header(3) + spec_enc_field("type"@, "EVAL"@) + spec_enc_field(
            "id"@,
            v.id,
        ) + spec_enc_str("value"@) + spec_enc_bin(v.value),
        MsgV::Error(v) => spec_enc_map_header(5) + spec_enc_field("type"@, "ERR"@) + spec_enc_field(
            "errMsg"@,
            v.err_msg,
        ) + spec_enc_field("trace"@, v.trace) + spec_enc_field("commandId"@, v.command_id)
            + spec_enc_field("__sync"@, v.sync),
        MsgV::Heartbeat => spec_enc_map_header(1) + spec_enc_field("type"@, "HEARTBEAT"@),
        MsgV::Registered => spec_enc_map_header(1) + spec_enc_field("type"@, "REGISTERED"@),
    }
}

/// A text's UTF-8 form fits in one wire element.
pub open spec fn str_fits(s: Seq<char>) -> bool {
    encode_utf8(s).len() <= MAX_LEN
}

/// Every binding entry fits in its wire elements.
pub open spec fn entries_fit(bs: Seq<(Seq<char>, Seq<u8>)>) -> bool {
    bs.len() <= MAX_LEN && forall|i: int|
        0 <= i < bs.len() ==> str_fits(#[trigger] bs[i].0) && bs[i].1.len() <= MAX_LEN
}

/// Whether a message's variable parts all fit in their wire elements; the
/// encoder succeeds exactly on such messages.
pub open spec fn spec_msg_encodable(m: MsgV) -> bool {
    match m {
        MsgV::IsAlive(v) => str_fits(v.sync),
        MsgV::Enqueue(v) => str_fits(v.statements) && str_fits(v.command_id) && entries_fit(
            v.bindings,
        ),
        MsgV::Eval(v) => str_fits(v.id) && v.value.len() <= MAX_LEN,
        MsgV::Error(v) => str_fits(v.err_msg) && str_fits(v.trace) && str_fits(v.command_id)
            && str_fits(v.sync),
        MsgV::Heartbeat => true,
        MsgV::Registered => true,
    }
}

/// Append a key or tag known to fit in one string element.
pub(crate) fn enc_key(out: &mut Vec<u8>, k: &str)
    requires
        encode_utf8(k@).len() <= MAX_LEN,
    ensures
        final(out)@ == old(out)@ + spec_enc_str(k@),
{
    let ok = enc_str(out, k);
    if !ok {
        proof {
            assert(false);
        }
    }
}

proof fn lemma_enc_entries_snoc(s: Seq<(Seq<char>, Seq<u8>)>, e: (Seq<char>, Seq<u8>))
    ensures
        spec_enc_entries(s.push(e)) == spec_enc_entries(s) + spec_enc_str(e.0) + spec_enc_bin(e.1),
    decreases s.len(),
{
    if s.len() == 0 {
        assert(s.push(e)[0] == e);
        assert(s.push(e).drop_first() =~= Seq::<(Seq<char>, Seq<u8>)>::empty());
        assert(spec_enc_entries(s.push(e)) == spec_enc_str(e.0) + spec_enc_bin(e.1)
            + spec_enc_entries(s.push(e).drop_first()));
        assert(spec_enc_entries(s.push(e).drop_first()) == Seq::<u8>::empty());
        assert(spec_enc_entries(s) == Seq::<u8>::empty());
        assert(spec_enc_entries(s.push(e)) =~= spec_enc_entries(s) + spec_enc_str(e.0)
            + spec_enc_bin(e.1));
    } else {
        let d = s.push(e).drop_first();
        assert(d =~= s.drop_first().push(e));
        lemma_enc_entries_snoc(s.drop_first(), e);
        assert(s.push(e)[0] == s[0]);
        assert(spec_enc_entries(s.push(e)) == spec_enc_str(s[0].0) + spec_enc_bin(s[0].1)
            + spec_enc_entries(d));
        assert(spec_enc_entries(d) == spec_enc_entries(s.drop_first()) + spec_enc_str(e.0)
            + spec_enc_bin(e.1));
        assert(spec_enc_entries(s) == spec_enc_str(s[0].0) + spec_enc_bin(s[0].1)
            + spec_enc_entries(s.drop_first()));
        assert(spec_enc_entries(s.push(e)) =~= spec_enc_entries(s) + spec_enc_str(e.0)
            + spec_enc_bin(e.1));
    }
}

/// Encode one message for the wire. Fails, leaving nothing sent, exactly when
/// some element of the message exceeds the largest length the format carries.
#[verifier::rlimit(100)]
pub fn encode(m: &Message) -> (r: Result<Vec<u8>, SerializationError>)
    ensures
        r matches Ok(v) ==> spec_msg_encodable(m@) && v@ == spec_enc_msg(m@),
        r is Err ==> !spec_msg_encodable(m@),
{
    proof {
        reveal_strlit("type");
        reveal_strlit("IS_ALIVE");
        reveal_strlit("ENQUEUE");
        reveal_strlit("EVAL");
        reveal_strlit("ERR");
        reveal_strlit("HEARTBEAT");
        reveal_strlit("REGISTERED");
        reveal_strlit("__sync");
        reveal_strlit("statements");
        reveal_strlit("commandId");
        reveal_strlit("bindings");
        reveal_strlit("id");
        reveal_strlit("value");
        reveal_strlit("errMsg");
        reveal_strlit("trace");
        lemma_encode_utf8_len("type"@);
        lemma_encode_utf8_len("IS_ALIVE"@);
        lemma_encode_utf8_len("ENQUEUE"@);
        lemma_encode_utf8_len("EVAL"@);
        lemma_encode_utf8_len("ERR"@);
        lemma_encode_utf8_len("HEARTBEAT"@);
        lemma_encode_utf8_len("REGISTERED"@);
        lemma_encode_utf8_len("__sync"@);
        lemma_encode_utf8_len("statements"@);
        lemma_encode_utf8_len("commandId"@);
        lemma_encode_utf8_len("bindings"@);
        lemma_encode_utf8_len("id"@);
        lemma_encode_utf8_len("value"@);
        lemma_encode_utf8_len("errMsg"@);
        lemma_encode_utf8_len("trace"@);
    }
    let mut out: Vec<u8> = Vec::new();
    match m {
        Message::IsAlive(v) => {
            enc_map_header(&mut out, 2);
            enc_key(&mut out, "type");
            enc_key(&mut out, "IS_ALIVE");
            enc_key(&mut out, "__sync");
            if !enc_str(&mut out, v.sync.as_str()) {
                return Err(SerializationError::Oversize);
            }
            assert(out@ =~= spec_enc_msg(m@));
            Ok(out)
        },
        Message::Enqueue(v) => {
            enc_map_header(&mut out, 4);
            enc_key(&mut out, "type");
            enc_key(&mut out, "ENQUEUE");
            enc_key(&mut out, "statements");
            if !enc_str(&mut out, v.statements.as_str()) {
                return Err(SerializationError::Oversize);
            }
            enc_key(&mut out, "commandId");
            if !enc_str(&mut out, v.command_id.as_str()) {
                return Err(SerializationError::Oversize);
            }
            enc_key(&mut out, "bindings");
            if v.bindings.len() > MAX_LEN {
                return Err(SerializationError::Oversize);
            }
            enc_map_header(&mut out, v.bindings.len());
            let ghost pre = out@;
            let ghost bv = bindings_view(v.bindings@);
            let mut i: usize = 0;
            while i < v.bindings.len()
                invariant
                    i <= v.bindings@.len(),
                    bv == bindings_view(v.bindings@),
                    m@ == MsgV::Enqueue(v@),
                    v@.bindings == bv,
                    str_fits(v.statements@),
                    str_fits(v.command_id@),
                    out@ == pre + spec_enc_entries(bv.take(i as int)),
                    forall|j: int|
                        0 <= j < i ==> str_fits(#[trigger] bv[j].0) && bv[j].1.len() <= MAX_LEN,
                decreases v.bindings@.len() - i,
            {
                assert(bv[i as int] == (v.bindings@[i as int].0@, v.bindings@[i as int].1@));
                assert(bv.len() == v.bindings@.len());
                if !enc_str(&mut out, v.bindings[i].0.as_str()) {
                    assert(!str_fits(bv[i as int].0));
                    assert(!entries_fit(bv));
                    return Err(SerializationError::Oversize);
                }
                if !enc_bin(&mut out, &v.bindings[i].1) {
                    assert(str_fits(bv[i as int].0));
                    assert(bv[i as int].1.len() > MAX_LEN);
                    assert(!entries_fit(bv));
                    return Err(SerializationError::Oversize);
                }
                proof {
                    lemma_enc_entries_snoc(bv.take(i as int), bv[i as int]);
                    assert(bv.take(i + 1 as int) =~= bv.take(i as int).push(bv[i as int]));
                }
                i = i + 1;
            }
            assert(bv.take(v.bindings@.len() as int) =~= bv);
            assert(entries_fit(bv));
            assert(out@ =~= spec_enc_msg(m@));
            Ok(out)
        },
        Message::Eval(v) => {
            enc_map_header(&mut out, 3);
            enc_key(&mut out, "type");
            enc_key(&mut out, "EVAL");
            enc_key(&mut out, "id");
            if !enc_str(&mut out, v.id.as_str()) {
                return Err(SerializationError::Oversize);
            }
            enc_key(&mut out, "value");
            if !enc_bin(&mut out, &v.value) {
                return Err(SerializationError::Oversize);
            }
            assert(out@ =~= spec_enc_msg(m@));
            Ok(out)
        },
        Message::Error(v) => {
            enc_map_header(&mut out, 5);
            enc_key(&mut out, "type");
            enc_key(&mut out, "ERR");
            enc_key(&mut out, "errMsg");
            if !enc_str(&mut out, v.err_msg.as_str()) {
                return Err(SerializationError::Oversize);
            }
            enc_key(&mut out, "trace");
            if !enc_str(&mut out, v.trace.as_str()) {
                return Err(SerializationError::Oversize);
            }
            enc_key(&mut out, "commandId");
            if !enc_str(&mut out, v.command_id.as_str()) {
                return Err(SerializationError::Oversize);
            }
            enc_key(&mut out, "__sync");
            if !enc_str(&mut out, v.sync.as_str()) {
                return Err(SerializationError::Oversize);
            }
            assert(out@ =~= spec_enc_msg(m@));
            Ok(out)
        },
        Message::Heartbeat => {
            enc_map_header(&mut out, 1);
            enc_key(&mut out, "type");
            enc_key(&mut out, "HEARTBEAT");
            assert(out@ =~= spec_enc_msg(m@));
            Ok(out)
        },
        Message::Registered => {
            enc_map_header(&mut out, 1);
            enc_key(&mut out, "type");
            enc_key(&mut out, "REGISTERED");
            assert(out@ =~= spec_enc_msg(m@));
            Ok(out)
        },
    }
}

/// Whether a parsed string equals an expected literal.
fn str_is(s: &String, lit: &str) -> (r: bool)
    ensures
        r == (s@ == lit@),
{
    let l: String = lit.to_owned();
    s.eq(&l)
}

/// Parse a string element that must equal the key `k`.
fn parse_key(b: &Vec<u8>, i: usize, k: &str) -> (r: DecStep<()>)
    ensures
        r matches DecStep::Found(_, e) ==> spec_parse_key(b@, i as int, k@)
            == ParseStep::<()>::Found((), e as int) && i < e <= b@.len(),
        r is Short ==> spec_parse_key(b@, i as int, k@) is Short,
        r is Bad ==> spec_parse_key(b@, i as int, k@) is Bad,
{
    match parse_str(b, i) {
        DecStep::Found(s, e) => {
            if str_is(&s, k) {
                DecStep::Found((), e)
            } else {
                DecStep::Bad
            }
        },
        DecStep::Short => DecStep::Short,
        DecStep::Bad => DecStep::Bad,
    }
}

fn parse_str_field(b: &Vec<u8>, i: usize, k: &str) -> (r: DecStep<String>)
    ensures
        r matches DecStep::Found(s, e) ==> spec_parse_str_field(b@, i as int, k@)
            == ParseStep::<Seq<char>>::Found(s@, e as int) && i < e <= b@.len(),
        r is Short ==> spec_parse_str_field(b@, i as int, k@) is Short,
        r is Bad ==> spec_parse_str_field(b@, i as int, k@) is Bad,
{
    match parse_key(b, i, k) {
        DecStep::Found(_, j) => parse_str(b, j),
        DecStep::Short => DecStep::Short,
        DecStep::Bad => DecStep::Bad,
    }
}

fn parse_bin_field(b: &Vec<u8>, i: usize, k: &str) -> (r: DecStep<Vec<u8>>)
    ensures
        r matches DecStep::Found(v, e) ==> spec_parse_bin_field(b@, i as int, k@)
            == ParseStep::<Seq<u8>>::Found(v@, e as int) && i < e <= b@.len(),
        r is Short ==> spec_parse_bin_field(b@, i as int, k@) is Short,
        r is Bad ==> spec_parse_bin_field(b@, i as int, k@) is Bad,
{
    match parse_key(b, i, k) {
        DecStep::Found(_, j) => parse_bin(b, j),
        DecStep::Short => DecStep::Short,
        DecStep::Bad => DecStep::Bad,
    }
}

fn parse_entries(b: &Vec<u8>, start: usize, n: usize) -> (r: DecStep<Vec<(String, Vec<u8>)>>)
    requires
        start <= b@.len(),
    ensures
        r matches DecStep::Found(es, e) ==> spec_parse_entries(b@, start as int, n as nat, Seq::empty())
            == ParseStep::<Seq<(Seq<char>, Seq<u8>)>>::Found(bindings_view(es@), e as int) && start
            <= e <= b@.len(),
        r is Short ==> spec_parse_entries(b@, start as int, n as nat, Seq::empty()) is Short,
        r is Bad ==> spec_parse_entries(b@, start as int, n as nat, Seq::empty()) is Bad,
{
    let mut entries: Vec<(String, Vec<u8>)> = Vec::new();
    let mut pos: usize = start;
    let mut k: usize = 0;
    assert(bindings_view(entries@) =~= Seq::<(Seq<char>, Seq<u8>)>::empty());
    while k < n
        invariant
            k <= n,
            start <= pos <= b@.len(),
            spec_parse_entries(b@, start as int, n as nat, Seq::empty()) == spec_parse_entries(
                b@,
                pos as int,
                (n - k) as nat,
                bindings_view(entries@),
            ),
        decreases n - k,
    {
        let ghost acc = bindings_view(entries@);
        match parse_str(b, pos) {
            DecStep::Found(key, j) => {
                match parse_bin(b, j) {
                    DecStep::Found(val, e) => {
                        proof {
                            assert(spec_parse_entries(b@, pos as int, (n - k) as nat, acc)
                                == spec_parse_entries(b@, e as int, (n - k - 1) as nat, acc.push(
                                (key@, val@),
                            )));
                        }
                        entries.push((key, val));
                        assert(bindings_view(entries@) =~= acc.push((key@, val@)));
                        pos = e;
                        k = k + 1;
                    },
                    DecStep::Short => {
                        return DecStep::Short;
                    },
                    DecStep::Bad => {
                        return DecStep::Bad;
                    },
                }
            },
            DecStep::Short => {
                return DecStep::Short;
            },
            DecStep::Bad => {
                return DecStep::Bad;
            },
        }
    }
    DecStep::Found(entries, pos)
}

/// Decode one complete message from the head of `buf`, reporting exactly how
/// many leading bytes it occupied so the caller can retain the rest. Fails
/// with `Incomplete` when more input could still complete a message, and with
/// `Malformed` when no extension of the leading bytes forms one.
#[verifier::rlimit(100)]
pub fn decode_one(buf: &Vec<u8>) -> (r: Result<(Message, usize), ProtocolDecodeError>)
    ensures
        r matches Ok(p) ==> spec_decode_msg(buf@) == ParseStep::<MsgV>::Found(p.0@, p.1 as int) && 0
            < p.1 <= buf@.len(),
        r == Err::<(Message, usize), ProtocolDecodeError>(ProtocolDecodeError::Incomplete)
            ==> spec_decode_msg(buf@) is Short,
        r == Err::<(Message, usize), ProtocolDecodeError>(ProtocolDecodeError::Malformed)
            ==> spec_decode_msg(buf@) is Bad,
        r is Err ==> !(spec_decode_msg(buf@) is Found),
{
    let n: usize;
    let i1: usize;
    match parse_map_header(buf, 0) {
        DecStep::Found(n0, e0) => {
            n = n0;
            i1 = e0;
        },
        DecStep::Short => {
            return Err(ProtocolDecodeError::Incomplete);
        },
        DecStep::Bad => {
            return Err(ProtocolDecodeError::Malformed);
        },
    }
    let tag: String;
    let i2: usize;
    match parse_str_field(buf, i1, "type") {
        DecStep::Found(t, e) => {
            tag = t;
            i2 = e;
        },
        DecStep::Short => {
            return Err(ProtocolDecodeError::Incomplete);
        },
        DecStep::Bad => {
            return Err(ProtocolDecodeError::Malformed);
        },
    }
    if str_is(&tag, "IS_ALIVE") {
        if n != 2 {
            return Err(ProtocolDecodeError::Malformed);
        }
        match parse_str_field(buf, i2, "__sync") {
            DecStep::Found(s, e) => Ok((Message::IsAlive(IsAliveMessage { sync: s }), e)),
            DecStep::Short => Err(ProtocolDecodeError::Incomplete),
            DecStep::Bad => Err(ProtocolDecodeError::Malformed),
        }
    } else if str_is(&tag, "ENQUEUE") {
        if n != 4 {
            return Err(ProtocolDecodeError::Malformed);
        }
        let st: String;
        let i3: usize;
        match parse_str_field(buf, i2, "statements") {
            DecStep::Found(s, e) => {
                st = s;
                i3 = e;
            },
            DecStep::Short => {
                return Err(ProtocolDecodeError::Incomplete);
            },
            DecStep::Bad => {
                return Err(ProtocolDecodeError::Malformed);
            },
        }
        let cid: String;
        let i4: usize;
        match parse_str_field(buf, i3, "commandId") {
            DecStep::Found(s, e) => {
                cid = s;
                i4 = e;
            },
            DecStep::Short => {
                return Err(ProtocolDecodeError::Incomplete);
            },
            DecStep::Bad => {
                return Err(ProtocolDecodeError::Malformed);
            },
        }
        let i5: usize;
        match parse_key(buf, i4, "bindings") {
            DecStep::Found(_, e) => {
                i5 = e;
            },
            DecStep::Short => {
                return Err(ProtocolDecodeError::Incomplete);
            },
            DecStep::Bad => {
                return Err(ProtocolDecodeError::Malformed);
            },
        }
        let bn: usize;
        let i6: usize;
        match parse_map_header(buf, i5) {
            DecStep::Found(c, e) => {
                bn = c;
                i6 = e;
            },
            DecStep::Short => {
                return Err(ProtocolDecodeError::Incomplete);
            },
            DecStep::Bad => {
                return Err(ProtocolDecodeError::Malformed);
            },
        }
        match parse_entries(buf, i6, bn) {
            DecStep::Found(es, e) => Ok(
                (
                    Message::Enqueue(
                        EnqueueMessage { statements: st, command_id: cid, bindings: es },
                    ),
                    e,
                ),
            ),
            DecStep::Short => Err(ProtocolDecodeError::Incomplete),
            DecStep::Bad => Err(ProtocolDecodeError::Malformed),
        }
    } else if str_is(&tag, "EVAL") {
        if n != 3 {
            return Err(ProtocolDecodeError::Malformed);
        }
        let id: String;
        let i3: usize;
        match parse_str_field(buf, i2, "id") {
            DecStep::Found(s, e) => {
                id = s;
                i3 = e;
            },
            DecStep::Short => {
                return Err(ProtocolDecodeError::Incomplete);
            },
            DecStep::Bad => {
                return Err(ProtocolDecodeError::Malformed);
            },
        }
        match parse_bin_field(buf, i3, "value") {
            DecStep::Found(v, e) => Ok((Message::Eval(EvalMessage { id: id, value: v }), e)),
            DecStep::Short => Err(ProtocolDecodeError::Incomplete),
            DecStep::Bad => Err(ProtocolDecodeError::Malformed),
        }
    } else if str_is(&tag, "ERR") {
        if n != 5 {
            return Err(ProtocolDecodeError::Malformed);
        }
        let em: String;
        let i3: usize;
        match parse_str_field(buf, i2, "errMsg") {
            DecStep::Found(s, e) => {
                em = s;
                i3 = e;
            },
            DecStep::Short => {
                return Err(ProtocolDecodeError::Incomplete);
            },
            DecStep::Bad => {
                return Err(ProtocolDecodeError::Malformed);
            },
        }
        let tr: String;
        let i4: usize;
        match parse_str_field(buf, i3, "trace") {
            DecStep::Found(s, e) => {
                tr = s;
                i4 = e;
            },
            DecStep::Short => {
                return Err(ProtocolDecodeError::Incomplete);
            },
            DecStep::Bad => {
                return Err(ProtocolDecodeError::Malformed);
            },
        }
        let cid: String;
        let i5: usize;
        match parse_str_field(buf, i4, "commandId") {
            DecStep::Found(s, e) => {
                cid = s;
                i5 = e;
            },
            DecStep::Short => {
                return Err(ProtocolDecodeError::Incomplete);
            },
            DecStep::Bad => {
                return Err(ProtocolDecodeError::Malformed);
            },
        }
        match parse_str_field(buf, i5, "__sync") {
            DecStep::Found(sy, e) => Ok(
                (
                    Message::Error(
                        ErrMessage { err_msg: em, trace: tr, command_id: cid, sync: sy },
                    ),
                    e,
                ),
            ),
            DecStep::Short => Err(ProtocolDecodeError::Incomplete),
            DecStep::Bad => Err(ProtocolDecodeError::Malformed),
        }
    } else if str_is(&tag, "HEARTBEAT") {
        if n != 1 {
            return Err(ProtocolDecodeError::Malformed);
        }
        Ok((Message::Heartbeat, i2))
    } else if str_is(&tag, "REGISTERED") {
        if n != 1 {
            return Err(ProtocolDecodeError::Malformed);
        }
        Ok((Message::Registered, i2))
    } else {
        Err(ProtocolDecodeError::Malformed)
    }
}

pub proof fn lemma_slice_at(b: Seq<u8>, i: int, part: Seq<u8>, off: int, sub: Seq<u8>)
    requires
        0 <= i,
        0 <= off,
        off + sub.len() <= part.len(),
        i + part.len() <= b.len(),
        b.subrange(i, i + part.len()) == part,
        part.subrange(off, off + sub.len()) == sub,
    ensures
        b.subrange(i + off, i + off + sub.len()) == sub,
{
    assert forall|k: int| 0 <= k < sub.len() implies b.subrange(
        i + off,
        i + off + sub.len(),
    )[k] == sub[k] by {
        assert(b.subrange(i, i + part.len())[off + k] == part[off + k]);
        assert(part.subrange(off, off + sub.len())[k] == sub[k]);
    }
    assert(b.subrange(i + off, i + off + sub.len()) =~= sub);
}

proof fn lemma_lits()
    ensures
        str_fits("type"@),
        str_fits("IS_ALIVE"@),
        str_fits("ENQUEUE"@),
        str_fits("EVAL"@),
        str_fits("ERR"@),
        str_fits("HEARTBEAT"@),
        str_fits("REGISTERED"@),
        str_fits("__sync"@),
        str_fits("statements"@),
        str_fits("commandId"@),
        str_fits("bindings"@),
        str_fits("id"@),
        str_fits("value"@),
        str_fits("errMsg"@),
        str_fits("trace"@),
        "IS_ALIVE"@.len() == 8,
        "ENQUEUE"@.len() == 7,
        "EVAL"@.len() == 4,
        "ERR"@.len() == 3,
        "HEARTBEAT"@.len() == 9,
        "REGISTERED"@.len() == 10,
{
    reveal_strlit("type");
    reveal_strlit("IS_ALIVE");
    reveal_strlit("ENQUEUE");
    reveal_strlit("EVAL");
    reveal_strlit("ERR");
    reveal_strlit("HEARTBEAT");
    reveal_strlit("REGISTERED");
    reveal_strlit("__sync");
    reveal_strlit("statements");
    reveal_strlit("commandId");
    reveal_strlit("bindings");
    reveal_strlit("id");
    reveal_strlit("value");
    reveal_strlit("errMsg");
    reveal_strlit("trace");
    lemma_encode_utf8_len("type"@);
    lemma_encode_utf8_len("IS_ALIVE"@);
    lemma_encode_utf8_len("ENQUEUE"@);
    lemma_encode_utf8_len("EVAL"@);
    lemma_encode_utf8_len("ERR"@);
    lemma_encode_utf8_len("HEARTBEAT"@);
    lemma_encode_utf8_len("REGISTERED"@);
    lemma_encode_utf8_len("__sync"@);
    lemma_encode_utf8_len("statements"@);
    lemma_encode_utf8_len("commandId"@);
    lemma_encode_utf8_len("bindings"@);
    lemma_encode_utf8_len("id"@);
    lemma_encode_utf8_len("value"@);
    lemma_encode_utf8_len("errMsg"@);
    lemma_encode_utf8_len("trace"@);
}

/// A key and string value laid out at `i` parse back as that named field.
proof fn lemma_field_at(b: Seq<u8>, i: int, k: Seq<char>, s: Seq<char>)
    requires
        str_fits(k),
        str_fits(s),
        0 <= i,
        i + spec_enc_field(k, s).len() <= b.len(),
        b.subrange(i, i + spec_enc_field(k, s).len()) == spec_enc_field(k, s),
    ensures
        spec_parse_str_field(b, i, k) == ParseStep::<Seq<char>>::Found(
            s,
            i + spec_enc_field(k, s).len(),
        ),
{
    let f = spec_enc_field(k, s);
    let ek = spec_enc_str(k);
    let es = spec_enc_str(s);
    assert(f.subrange(0, ek.len() as int) =~= ek);
    lemma_slice_at(b, i, f, 0, ek);
    lemma_parse_str_enc(k, b, i);
    assert(f.subrange(ek.len() as int, (ek.len() + es.len()) as int) =~= es);
    lemma_slice_at(b, i, f, ek.len() as int, es);
    lemma_parse_str_enc(s, b, i + ek.len());
}

/// Binding entries laid out at `i` parse back in order after `acc`.
proof fn lemma_parse_entries_enc(
    bs: Seq<(Seq<char>, Seq<u8>)>,
    acc: Seq<(Seq<char>, Seq<u8>)>,
    b: Seq<u8>,
    i: int,
)
    requires
        entries_fit(bs),
        0 <= i,
        i + spec_enc_entries(bs).len() <= b.len(),
        b.subrange(i, i + spec_enc_entries(bs).len()) == spec_enc_entries(bs),
    ensures
        spec_parse_entries(b, i, bs.len(), acc) == ParseStep::<Seq<(Seq<char>, Seq<u8>)>>::Found(
            acc + bs,
            i + spec_enc_entries(bs).len(),
        ),
    decreases bs.len(),
{
    if bs.len() == 0 {
        assert(acc + bs =~= acc);
    } else {
        let e = spec_enc_entries(bs);
        let p1 = spec_enc_str(bs[0].0);
        let p2 = spec_enc_bin(bs[0].1);
        let pr = spec_enc_entries(bs.drop_first());
        assert(e == p1 + p2 + pr);
        assert(str_fits(bs[0].0) && bs[0].1.len() <= MAX_LEN);
        assert(e.subrange(0, p1.len() as int) =~= p1);
        lemma_slice_at(b, i, e, 0, p1);
        lemma_parse_str_enc(bs[0].0, b, i);
        assert(e.subrange(p1.len() as int, (p1.len() + p2.len()) as int) =~= p2);
        lemma_slice_at(b, i, e, p1.len() as int, p2);
        lemma_parse_bin_enc(bs[0].1, b, i + p1.len());
        assert(e.subrange((p1.len() + p2.len()) as int, e.len() as int) =~= pr);
        lemma_slice_at(b, i, e, (p1.len() + p2.len()) as int, pr);
        assert(entries_fit(bs.drop_first())) by {
            assert forall|j: int| 0 <= j < bs.drop_first().len() implies str_fits(
                #[trigger] bs.drop_first()[j].0,
            ) && bs.drop_first()[j].1.len() <= MAX_LEN by {
                assert(bs.drop_first()[j] == bs[j + 1]);
                assert(str_fits(bs[j + 1].0) && bs[j + 1].1.len() <= MAX_LEN);
            }
        }
        lemma_parse_entries_enc(bs.drop_first(), acc.push(bs[0]), b, i + p1.len() + p2.len());
        assert(acc.push(bs[0]) + bs.drop_first() =~= acc + bs);
    }
}

/// Round trip: a buffer that begins with the encoding of an encodable message
/// decodes to exactly that message, consuming exactly its encoding.
pub proof fn lemma_decode_encode(m: MsgV, b: Seq<u8>)
    requires
        spec_msg_encodable(m),
        spec_enc_msg(m).len() <= b.len(),
        b.subrange(0, spec_enc_msg(m).len() as int) == spec_enc_msg(m),
    ensures
        spec_decode_msg(b) == ParseStep::<MsgV>::Found(m, spec_enc_msg(m).len() as int),
{
    match m {
        MsgV::IsAlive(v) => lemma_decode_encode_is_alive(v, b),
        MsgV::Enqueue(v) => lemma_decode_encode_enqueue(v, b),
        MsgV::Eval(v) => lemma_decode_encode_eval(v, b),
        MsgV::Error(v) => lemma_decode_encode_err(v, b),
        MsgV::Heartbeat => lemma_decode_encode_heartbeat(b),
        MsgV::Registered => lemma_decode_encode_registered(b),
    }
}

#[verifier::rlimit(100)]
proof fn lemma_decode_encode_is_alive(v: IsAliveV, b: Seq<u8>)
    requires
        spec_msg_encodable(MsgV::IsAlive(v)),
        spec_enc_msg(MsgV::IsAlive(v)).len() <= b.len(),
        b.subrange(0, spec_enc_msg(MsgV::IsAlive(v)).len() as int) == spec_enc_msg(MsgV::IsAlive(v)),
    ensures
        spec_decode_msg(b) == ParseStep::<MsgV>::Found(MsgV::IsAlive(v), spec_enc_msg(MsgV::IsAlive(v)).len() as int),
{
    lemma_lits();
    let m = MsgV::IsAlive(v);
    let enc = spec_enc_msg(m);

            let h = spec_enc_map_header(2);
            let f1 = spec_enc_field("type"@, "IS_ALIVE"@);
            let f2 = spec_enc_field("__sync"@, v.sync);
            assert(enc == h + f1 + f2);
            let o1 = h.len() as int;
            let o2 = o1 + f1.len();
            assert(enc.subrange(0, o1) =~= h);
            lemma_slice_at(b, 0, enc, 0, h);
            lemma_parse_map_header_enc(2, b, 0);
            assert(enc.subrange(o1, o2) =~= f1);
            lemma_slice_at(b, 0, enc, o1, f1);
            lemma_field_at(b, o1, "type"@, "IS_ALIVE"@);
            assert(enc.subrange(o2, enc.len() as int) =~= f2);
            lemma_slice_at(b, 0, enc, o2, f2);
            lemma_field_at(b, o2, "__sync"@, v.sync);
            assert(v == (IsAliveV { sync: v.sync }));
}

#[verifier::rlimit(100)]
proof fn lemma_decode_encode_enqueue(v: EnqueueV, b: Seq<u8>)
    requires
        spec_msg_encodable(MsgV::Enqueue(v)),
        spec_enc_msg(MsgV::Enqueue(v)).len() <= b.len(),
        b.subrange(0, spec_enc_msg(MsgV::Enqueue(v)).len() as int) == spec_enc_msg(MsgV::Enqueue(v)),
    ensures
        spec_decode_msg(b) == ParseStep::<MsgV>::Found(MsgV::Enqueue(v), spec_enc_msg(MsgV::Enqueue(v)).len() as int),
{
    lemma_lits();
    let m = MsgV::Enqueue(v);
    let enc = spec_enc_msg(m);

            let h = spec_enc_map_header(4);
            let f1 = spec_enc_field("type"@, "ENQUEUE"@);
            let f2 = spec_enc_field("statements"@, v.statements);
            let f3 = spec_enc_field("commandId"@, v.command_id);
            let kb = spec_enc_str("bindings"@);
            let mh = spec_enc_map_header(v.bindings.len());
            let es = spec_enc_entries(v.bindings);
            assert(enc == h + f1 + f2 + f3 + kb + mh + es);
            let o1 = h.len() as int;
            let o2 = o1 + f1.len();
            let o3 = o2 + f2.len();
            let o4 = o3 + f3.len();
            let o5 = o4 + kb.len();
            let o6 = o5 + mh.len();
            assert(enc.subrange(0, o1) =~= h);
            lemma_slice_at(b, 0, enc, 0, h);
            lemma_parse_map_header_enc(4, b, 0);
            assert(enc.subrange(o1, o2) =~= f1);
            lemma_slice_at(b, 0, enc, o1, f1);
            lemma_field_at(b, o1, "type"@, "ENQUEUE"@);
            assert(enc.subrange(o2, o3) =~= f2);
            lemma_slice_at(b, 0, enc, o2, f2);
            lemma_field_at(b, o2, "statements"@, v.statements);
            assert(enc.subrange(o3, o4) =~= f3);
            lemma_slice_at(b, 0, enc, o3, f3);
            lemma_field_at(b, o3, "commandId"@, v.command_id);
            assert(enc.subrange(o4, o5) =~= kb);
            lemma_slice_at(b, 0, enc, o4, kb);
            lemma_parse_str_enc("bindings"@, b, o4);
            assert(enc.subrange(o5, o6) =~= mh);
            lemma_slice_at(b, 0, enc, o5, mh);
            lemma_parse_map_header_enc(v.bindings.len(), b, o5);
            assert(enc.subrange(o6, enc.len() as int) =~= es);
            lemma_slice_at(b, 0, enc, o6, es);
            lemma_parse_entries_enc(v.bindings, Seq::empty(), b, o6);
            assert(Seq::<(Seq<char>, Seq<u8>)>::empty() + v.bindings =~= v.bindings);
            assert(v == (EnqueueV {
                statements: v.statements,
                command_id: v.command_id,
                bindings: v.bindings,
            }));
}

#[verifier::rlimit(100)]
proof fn lemma_decode_encode_eval(v: EvalV, b: Seq<u8>)
    requires
        spec_msg_encodable(MsgV::Eval(v)),
        spec_enc_msg(MsgV::Eval(v)).len() <= b.len(),
        b.subrange(0, spec_enc_msg(MsgV::Eval(v)).len() as int) == spec_enc_msg(MsgV::Eval(v)),
    ensures
        spec_decode_msg(b) == ParseStep::<MsgV>::Found(MsgV::Eval(v), spec_enc_msg(MsgV::Eval(v)).len() as int),
{
    lemma_lits();
    let m = MsgV::Eval(v);
    let enc = spec_enc_msg(m);

            let h = spec_enc_map_header(3);
            let f1 = spec_enc_field("type"@, "EVAL"@);
            let f2 = spec_enc_field("id"@, v.id);
            let kv = spec_enc_str("value"@);
            let bv = spec_enc_bin(v.value);
            assert(enc == h + f1 + f2 + kv + bv);
            let o1 = h.len() as int;
            let o2 = o1 + f1.len();
            let o3 = o2 + f2.len();
            let o4 = o3 + kv.len();
            assert(enc.subrange(0, o1) =~= h);
            lemma_slice_at(b, 0, enc, 0, h);
            lemma_parse_map_header_enc(3, b, 0);
            assert(enc.subrange(o1, o2) =~= f1);
            lemma_slice_at(b, 0, enc, o1, f1);
            lemma_field_at(b, o1, "type"@, "EVAL"@);
            assert(enc.subrange(o2, o3) =~= f2);
            lemma_slice_at(b, 0, enc, o2, f2);
            lemma_field_at(b, o2, "id"@, v.id);
            assert(enc.subrange(o3, o4) =~= kv);
            lemma_slice_at(b, 0, enc, o3, kv);
            lemma_parse_str_enc("value"@, b, o3);
            assert(enc.subrange(o4, enc.len() as int) =~= bv);
            lemma_slice_at(b, 0, enc, o4, bv);
            lemma_parse_bin_enc(v.value, b, o4);
            assert(v == (EvalV { id: v.id, value: v.value }));
            assert(spec_parse_map_header(b, 0) == ParseStep::<int>::Found(3, o1));
            assert(spec_parse_str_field(b, o1, "type"@) == ParseStep::<Seq<char>>::Found(
                "EVAL"@,
                o2,
            ));
            assert(spec_parse_str_field(b, o2, "id"@) == ParseStep::<Seq<char>>::Found(v.id, o3));
            assert(spec_parse_key(b, o3, "value"@) == ParseStep::<()>::Found((), o4));
            assert(spec_parse_bin_field(b, o3, "value"@) == ParseStep::<Seq<u8>>::Found(
                v.value,
                enc.len() as int,
            ));
            assert(spec_parse_eval(b, o2) == ParseStep::<MsgV>::Found(m, enc.len() as int));
}

#[verifier::rlimit(100)]
proof fn lemma_decode_encode_err(v: ErrV, b: Seq<u8>)
    requires
        spec_msg_encodable(MsgV::Error(v)),
        spec_enc_msg(MsgV::Error(v)).len() <= b.len(),
        b.subrange(0, spec_enc_msg(MsgV::Error(v)).len() as int) == spec_enc_msg(MsgV::Error(v)),
    ensures
        spec_decode_msg(b) == ParseStep::<MsgV>::Found(MsgV::Error(v), spec_enc_msg(MsgV::Error(v)).len() as int),
{
    lemma_lits();
    let m = MsgV::Error(v);
    let enc = spec_enc_msg(m);

            let h = spec_enc_map_header(5);
            let f1 = spec_enc_field("type"@, "ERR"@);
            let f2 = spec_enc_field("errMsg"@, v.err_msg);
            let f3 = spec_enc_field("trace"@, v.trace);
            let f4 = spec_enc_field("commandId"@, v.command_id);
            let f5 = spec_enc_field("__sync"@, v.sync);
            assert(enc == h + f1 + f2 + f3 + f4 + f5);
            let o1 = h.len() as int;
            let o2 = o1 + f1.len();
            let o3 = o2 + f2.len();
            let o4 = o3 + f3.len();
            let o5 = o4 + f4.len();
            assert(enc.subrange(0, o1) =~= h);
            lemma_slice_at(b, 0, enc, 0, h);
            lemma_parse_map_header_enc(5, b, 0);
            assert(enc.subrange(o1, o2) =~= f1);
            lemma_slice_at(b, 0, enc, o1, f1);
            lemma_field_at(b, o1, "type"@, "ERR"@);
            assert(enc.subrange(o2, o3) =~= f2);
            lemma_slice_at(b, 0, enc, o2, f2);
            lemma_field_at(b, o2, "errMsg"@, v.err_msg);
            assert(enc.subrange(o3, o4) =~= f3);
            lemma_slice_at(b, 0, enc, o3, f3);
            lemma_field_at(b, o3, "trace"@, v.trace);
            assert(enc.subrange(o4, o5) =~= f4);
            lemma_slice_at(b, 0, enc, o4, f4);
            lemma_field_at(b, o4, "commandId"@, v.command_id);
            assert(enc.subrange(o5, enc.len() as int) =~= f5);
            lemma_slice_at(b, 0, enc, o5, f5);
            lemma_field_at(b, o5, "__sync"@, v.sync);
            assert(v == (ErrV {
                err_msg: v.err_msg,
                trace: v.trace,
                command_id: v.command_id,
                sync: v.sync,
            }));
}

#[verifier::rlimit(100)]
proof fn lemma_decode_encode_heartbeat( b: Seq<u8>)
    requires
        spec_msg_encodable(MsgV::Heartbeat),
        spec_enc_msg(MsgV::Heartbeat).len() <= b.len(),
        b.subrange(0, spec_enc_msg(MsgV::Heartbeat).len() as int) == spec_enc_msg(MsgV::Heartbeat),
    ensures
        spec_decode_msg(b) == ParseStep::<MsgV>::Found(MsgV::Heartbeat, spec_enc_msg(MsgV::Heartbeat).len() as int),
{
    lemma_lits();
    let m = MsgV::Heartbeat;
    let enc = spec_enc_msg(m);

            let h = spec_enc_map_header(1);
            let f1 = spec_enc_field("type"@, "HEARTBEAT"@);
            assert(enc == h + f1);
            let o1 = h.len() as int;
            assert(enc.subrange(0, o1) =~= h);
            lemma_slice_at(b, 0, enc, 0, h);
            lemma_parse_map_header_enc(1, b, 0);
            assert(enc.subrange(o1, enc.len() as int) =~= f1);
            lemma_slice_at(b, 0, enc, o1, f1);
            lemma_field_at(b, o1, "type"@, "HEARTBEAT"@);
}

#[verifier::rlimit(100)]
proof fn lemma_decode_encode_registered( b: Seq<u8>)
    requires
        spec_msg_encodable(MsgV::Registered),
        spec_enc_msg(MsgV::Registered).len() <= b.len(),
        b.subrange(0, spec_enc_msg(MsgV::Registered).len() as int) == spec_enc_msg(MsgV::Registered),
    ensures
        spec_decode_msg(b) == ParseStep::<MsgV>::Found(MsgV::Registered, spec_enc_msg(MsgV::Registered).len() as int),
{
    lemma_lits();
    let m = MsgV::Registered;
    let enc = spec_enc_msg(m);

            let h = spec_enc_map_header(1);
            let f1 = spec_enc_field("type"@, "REGISTERED"@);
            assert(enc == h + f1);
            let o1 = h.len() as int;
            assert(enc.subrange(0, o1) =~= h);
            lemma_slice_at(b, 0, enc, 0, h);
            lemma_parse_map_header_enc(1, b, 0);
            assert(enc.subrange(o1, enc.len() as int) =~= f1);
            lemma_slice_at(b, 0, enc, o1, f1);
            lemma_field_at(b, o1, "type"@, "REGISTERED"@);
}

/// For every encodable message, decoding its encoding yields the message
/// back and consumes exactly its length.
pub proof fn lemma_round_trip(m: MsgV)
    requires
        spec_msg_encodable(m),
    ensures
        spec_decode_msg(spec_enc_msg(m)) == ParseStep::<MsgV>::Found(
            m,
            spec_enc_msg(m).len() as int,
        ),
{
    let enc = spec_enc_msg(m);
    assert(enc.subrange(0, enc.len() as int) =~= enc);
    lemma_decode_encode(m, enc);
}

/// A buffer holding two consecutive encoded messages decodes to the first
/// one, consuming strictly less than the whole buffer and leaving the second
/// message intact for the next call.
pub proof fn lemma_two_messages(m1: MsgV, m2: MsgV)
    requires
        spec_msg_encodable(m1),
        spec_msg_encodable(m2),
    ensures
        spec_decode_msg(spec_enc_msg(m1) + spec_enc_msg(m2)) == ParseStep::<MsgV>::Found(
            m1,
            spec_enc_msg(m1).len() as int,
        ),
        spec_enc_msg(m1).len() < (spec_enc_msg(m1) + spec_enc_msg(m2)).len(),
        (spec_enc_msg(m1) + spec_enc_msg(m2)).subrange(
            spec_enc_msg(m1).len() as int,
            (spec_enc_msg(m1) + spec_enc_msg(m2)).len() as int,
        ) == spec_enc_msg(m2),
{
    let e1 = spec_enc_msg(m1);
    let e2 = spec_enc_msg(m2);
    let b = e1 + e2;
    assert(b.subrange(0, e1.len() as int) =~= e1);
    lemma_decode_encode(m1, b);
    assert(e2.len() > 0);
    assert(b.subrange(e1.len() as int, b.len() as int) =~= e2);
}

} // verus!
