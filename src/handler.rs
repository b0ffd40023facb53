use vstd::prelude::*;
use crate::codec::{encode, encode_view, ResponseRecord};

verus! {

/// A message as a client sent it: text or bytes, of any content.
#[derive(Debug, Clone, PartialEq, Eq)]
pub enum InboundMessage {
    Text(String),
    Binary(Vec<u8>),
}

/// The record every message is answered with: status `ok`, data `Some data`.
pub open spec fn stub_record() -> (Seq<char>, Seq<char>) {
    (seq!['o', 'k'], seq!['S', 'o', 'm', 'e', ' ', 'd', 'a', 't', 'a'])
}

/// The reply record for a message. It does not read the message: every
/// message, empty, large or not valid text, gets the same record.
pub fn handle(_msg: &InboundMessage) -> (r: ResponseRecord)
    ensures
        r@ == stub_record(),
{
    let status = String::from_str("ok");
    let data = String::from_str("Some data");
    proof {
        reveal_strlit("ok");
        reveal_strlit("Some data");
        assert(status@ =~= stub_record().0);
        assert(data@ =~= stub_record().1);
    }
    ResponseRecord { status, data }
}

/// The wire form of the reply to a message:
/// `{"status":"ok","data":"Some data"}`.
pub fn message_handler(msg: InboundMessage) -> (r: String)
    ensures
        r@ == encode_view(stub_record()),
        r@ == "{\"status\":\"ok\",\"data\":\"Some data\"}"@,
{
    let record = handle(&msg);
    let r = encode(&record);
    proof {
        reveal_strlit("{\"status\":\"ok\",\"data\":\"Some data\"}");
        reveal_with_fuel(crate::codec::escape_all, 10);
        assert(encode_view(stub_record()) =~= "{\"status\":\"ok\",\"data\":\"Some data\"}"@);
    }
    r
}

} // verus!
