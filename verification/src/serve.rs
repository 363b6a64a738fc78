//! The read-only query interface's computation: the current documents as one
//! structured response body, `{"channels":[{"title":"<title>"},...]}`, and
//! the mapping of store failures to a server-side failure description.  The
//! listening socket and the request plumbing live outside the library.

use vstd::prelude::*;
use vstd::string::StringExecFns;

use crate::codec::esc;
use crate::codec::push_char;
use crate::codec::push_escaped;
use crate::errors::StoreError;
use crate::errors::store_error_chars;
use crate::store::Channel;

verus! {

/// The response's fixed opening.
pub open spec fn list_header_chars() -> Seq<char> {
    seq!['{', '"', 'c', 'h', 'a', 'n', 'n', 'e', 'l', 's', '"', ':', '[']
}

/// One listed document.
pub open spec fn enc_list_item(t: Seq<char>) -> Seq<char> {
    seq!['{', '"', 't', 'i', 't', 'l', 'e', '"', ':', '"'] + esc(t) + seq!['"', '}']
}

/// The listed documents, comma-separated, in the given order.
pub open spec fn enc_list_items(ts: Seq<Seq<char>>) -> Seq<char>
    decreases ts.len(),
{
    if ts.len() == 0 {
        Seq::empty()
    } else if ts.len() == 1 {
        enc_list_item(ts[0])
    } else {
        enc_list_items(ts.drop_last()) + seq![','] + enc_list_item(ts.last())
    }
}

/// The whole response body.
pub open spec fn enc_channel_list(ts: Seq<Seq<char>>) -> Seq<char> {
    list_header_chars() + enc_list_items(ts) + seq![']', '}']
}

/// Serialize the documents into the query response's body.
pub fn serialize_channel_list(channels: &Vec<Channel>) -> (out: String)
    ensures
        out@ == enc_channel_list(channels@.map_values(|c: Channel| c@)),
{
    let ghost ts = channels@.map_values(|c: Channel| c@);
    let mut out = String::new();
    push_char(&mut out, '{');
    push_char(&mut out, '"');
    push_char(&mut out, 'c');
    push_char(&mut out, 'h');
    push_char(&mut out, 'a');
    push_char(&mut out, 'n');
    push_char(&mut out, 'n');
    push_char(&mut out, 'e');
    push_char(&mut out, 'l');
    push_char(&mut out, 's');
    push_char(&mut out, '"');
    push_char(&mut out, ':');
    push_char(&mut out, '[');
    proof {
        assert(out@ =~= list_header_chars());
    }
    let n = channels.len();
    let mut i: usize = 0;
    while i < n
        invariant
            n == channels@.len(),
            ts == channels@.map_values(|c: Channel| c@),
            ts.len() == n,
            i <= n,
            out@ == list_header_chars() + enc_list_items(ts.take(i as int)),
        decreases n - i,
    {
        let ghost before = out@;
        if i > 0 {
            push_char(&mut out, ',');
        }
        push_char(&mut out, '{');
        push_char(&mut out, '"');
        push_char(&mut out, 't');
        push_char(&mut out, 'i');
        push_char(&mut out, 't');
        push_char(&mut out, 'l');
        push_char(&mut out, 'e');
        push_char(&mut out, '"');
        push_char(&mut out, ':');
        push_char(&mut out, '"');
        push_escaped(&mut out, channels[i].title.as_str());
        push_char(&mut out, '"');
        push_char(&mut out, '}');
        proof {
            assert(ts[i as int] == channels@[i as int]@);
            if i == 0 {
                assert(out@ =~= list_header_chars() + enc_list_item(ts[0]));
                assert(ts.take(1) =~= seq![ts[0]]);
                assert(enc_list_items(ts.take(1)) == enc_list_item(ts[0]));
            } else {
                assert(out@ =~= before + seq![','] + enc_list_item(ts[i as int]));
                assert(ts.take(i + 1).drop_last() =~= ts.take(i as int));
                assert(ts.take(i + 1).last() == ts[i as int]);
                assert(enc_list_items(ts.take(i + 1)) == enc_list_items(ts.take(i as int))
                    + seq![','] + enc_list_item(ts[i as int]));
                assert(out@ =~= list_header_chars() + enc_list_items(ts.take(i + 1)));
            }
        }
        i = i + 1;
    }
    proof {
        assert(ts.take(n as int) =~= ts);
    }
    push_char(&mut out, ']');
    push_char(&mut out, '}');
    proof {
        assert(out@ =~= enc_channel_list(ts));
    }
    out
}

/// What a failed query reads as.
pub open spec fn query_failure_chars(e: StoreError) -> Seq<char> {
    "getting channels: "@ + store_error_chars(e)
}

/// The query endpoint's whole computation, from the store's answer: the
/// documents serialized into the response body, or the store failure mapped
/// to a server-side failure description.
pub fn channels_response(r: Result<Vec<Channel>, StoreError>) -> (resp: Result<String, String>)
    ensures
        match r {
            Ok(channels) => resp matches Ok(body) && body@ == enc_channel_list(
                channels@.map_values(|c: Channel| c@),
            ),
            Err(e) => resp matches Err(msg) && msg@ == query_failure_chars(e),
        },
{
    match r {
        Ok(channels) => Ok(serialize_channel_list(&channels)),
        Err(e) => {
            let mut m = String::from_str("getting channels: ");
            m.append(e.message().as_str());
            Err(m)
        },
    }
}

} // verus!
