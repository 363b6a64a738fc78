//! One fetch worker's judgement and the round's result routing.  The network
//! transfer itself happens outside; what came back — a transport failure, a
//! status code and a body — is classified here, the body is parsed as a feed,
//! and the round's outcomes are routed into disjoint success and failure
//! lists without losing either.

use vstd::prelude::*;

use crate::errors::FetchError;
use crate::store::Channel;
use crate::store::Record;

verus! {

/// What parsing a feed wire document yields: the channel's title, or the
/// parse failure's description.
pub uninterp spec fn feed_parse(body: Seq<u8>) -> Result<Seq<char>, Seq<char>>;

/// Relies on `rss`'s `Channel::read_from`: parsing a byte body into a feed
/// channel, or failing, is a function of the bytes alone, and so is the
/// failure's rendered description.
#[verifier::external_body]
fn read_feed_title(body: &Vec<u8>) -> (r: Result<String, String>)
    ensures
        match r {
            Ok(title) => feed_parse(body@) == Ok::<Seq<char>, Seq<char>>(title@),
            Err(msg) => feed_parse(body@) == Err::<Seq<char>, Seq<char>>(msg@),
        },
{
    match rss::Channel::read_from(body.as_slice()) {
        Ok(c) => Ok(c.title),
        Err(e) => Err(e.to_string()),
    }
}

/// Exactly one outcome per source and round: a document, or a typed failure.
#[derive(Debug)]
pub enum FetchOutcome {
    Success { source: String, channel: Channel },
    Failure { source: String, error: FetchError },
}

/// An HTTP status that carries a usable body.
pub open spec fn is_success_status(code: u16) -> bool {
    200 <= code < 300
}

/// What the transport handed back, as values: a status code with the body's
/// bytes, or the transport failure's description.
pub open spec fn response_view(r: Result<(u16, Vec<u8>), String>) -> Result<
    (u16, Seq<u8>),
    Seq<char>,
> {
    match r {
        Ok(p) => Ok((p.0, p.1@)),
        Err(d) => Err(d@),
    }
}

/// The one correct judgement of one attempt: transport failures and
/// unsuccessful statuses are failures of their own kinds, a successful
/// status's body either parses into a document or is a parse failure.
pub open spec fn spec_outcome(
    source: Seq<char>,
    resp: Result<(u16, Seq<u8>), Seq<char>>,
    o: FetchOutcome,
) -> bool {
    match resp {
        Err(d) => o matches FetchOutcome::Failure {
            source: s,
            error: FetchError::Transport { detail },
        } && s@ == source && detail@ == d,
        Ok(p) => if !is_success_status(p.0) {
            o matches FetchOutcome::Failure { source: s, error: FetchError::Status { code } } && s@
                == source && code == p.0
        } else {
            match feed_parse(p.1) {
                Ok(title) => o matches FetchOutcome::Success { source: s, channel: c } && s@
                    == source && c@ == title,
                Err(msg) => o matches FetchOutcome::Failure {
                    source: s,
                    error: FetchError::Parse { detail },
                } && s@ == source && detail@ == msg,
            }
        },
    }
}

/// The judgement on a parse's result: a worker never panics on a bad body,
/// it reports a document or a parse failure for its source.
pub fn outcome_of_parse(source: String, parsed: Result<String, String>) -> (o: FetchOutcome)
    ensures
        match parsed {
            Ok(title) => o matches FetchOutcome::Success { source: s, channel: c } && s@ == source@
                && c@ == title@,
            Err(msg) => o matches FetchOutcome::Failure {
                source: s,
                error: FetchError::Parse { detail },
            } && s@ == source@ && detail@ == msg@,
        },
{
    match parsed {
        Ok(title) => FetchOutcome::Success { source, channel: Channel { title } },
        Err(msg) => FetchOutcome::Failure { source, error: FetchError::Parse { detail: msg } },
    }
}

/// One worker's whole judgement of one attempt.
pub fn evaluate_fetch(source: String, response: Result<(u16, Vec<u8>), String>) -> (o:
    FetchOutcome)
    ensures
        spec_outcome(source@, response_view(response), o),
{
    match response {
        Err(detail) => FetchOutcome::Failure {
            source,
            error: FetchError::Transport { detail },
        },
        Ok((code, body)) => {
            if !(200 <= code && code < 300) {
                FetchOutcome::Failure { source, error: FetchError::Status { code } }
            } else {
                outcome_of_parse(source, read_feed_title(&body))
            }
        },
    }
}

/// One whole round's judgements, one per source, in the round's own order.
pub fn evaluate_round(results: Vec<(String, Result<(u16, Vec<u8>), String>)>) -> (outs: Vec<
    FetchOutcome,
>)
    ensures
        outs@.len() == results@.len(),
        forall|i: int|
            0 <= i < results@.len() ==> spec_outcome(
                results@[i].0@,
                response_view(results@[i].1),
                outs@[i],
            ),
{
    let mut outs: Vec<FetchOutcome> = Vec::new();
    let mut results = results;
    let ghost all = results@;
    let n = results.len();
    let mut i: usize = 0;
    while results.len() > 0
        invariant
            all.len() == n,
            i + results@.len() == all.len(),
            outs@.len() == i,
            results@ == all.skip(i as int),
            forall|j: int|
                0 <= j < i ==> spec_outcome(all[j].0@, response_view(all[j].1), outs@[j]),
        decreases results@.len(),
    {
        let (source, response) = results.remove(0);
        proof {
            assert(all.skip(i as int)[0] == all[i as int]);
            assert(all.skip(i as int).drop_first() =~= all.skip(i + 1));
        }
        let o = evaluate_fetch(source, response);
        outs.push(o);
        i = i + 1;
    }
    outs
}

/// The successes among a round's outcomes, in order: source and document.
pub open spec fn successes_of(outs: Seq<FetchOutcome>) -> Seq<Record>
    decreases outs.len(),
{
    if outs.len() == 0 {
        Seq::empty()
    } else {
        successes_of(outs.drop_last()) + (match outs.last() {
            FetchOutcome::Success { source, channel } => seq![(source@, channel@)],
            FetchOutcome::Failure { .. } => Seq::empty(),
        })
    }
}

/// The failures among a round's outcomes, in order: source and error.
pub open spec fn failures_of(outs: Seq<FetchOutcome>) -> Seq<(Seq<char>, FetchError)>
    decreases outs.len(),
{
    if outs.len() == 0 {
        Seq::empty()
    } else {
        failures_of(outs.drop_last()) + (match outs.last() {
            FetchOutcome::Success { .. } => Seq::empty(),
            FetchOutcome::Failure { source, error } => seq![(source@, error)],
        })
    }
}

/// The records a routed success list stands for.
pub open spec fn success_pairs_view(s: Seq<(String, Channel)>) -> Seq<Record> {
    s.map_values(|e: (String, Channel)| (e.0@, e.1@))
}

/// The pairs a routed failure list stands for.
pub open spec fn failure_pairs_view(s: Seq<(String, FetchError)>) -> Seq<(Seq<char>, FetchError)> {
    s.map_values(|e: (String, FetchError)| (e.0@, e.1))
}

/// Route a round's outcomes into the two disjoint sinks: every success to
/// one, every failure to the other, both in round order, none lost.
pub fn route_outcomes(outs: Vec<FetchOutcome>) -> (r: (
    Vec<(String, Channel)>,
    Vec<(String, FetchError)>,
))
    ensures
        success_pairs_view(r.0@) == successes_of(outs@),
        failure_pairs_view(r.1@) == failures_of(outs@),
{
    let mut outs = outs;
    let ghost all = outs@;
    let mut succ: Vec<(String, Channel)> = Vec::new();
    let mut fail: Vec<(String, FetchError)> = Vec::new();
    let n = outs.len();
    let mut i: usize = 0;
    while outs.len() > 0
        invariant
            all.len() == n,
            i + outs@.len() == all.len(),
            outs@ == all.skip(i as int),
            success_pairs_view(succ@) == successes_of(all.take(i as int)),
            failure_pairs_view(fail@) == failures_of(all.take(i as int)),
        decreases outs@.len(),
    {
        let o = outs.remove(0);
        proof {
            assert(all.skip(i as int)[0] == all[i as int]);
            assert(all.skip(i as int).drop_first() =~= all.skip(i + 1));
            assert(all.take(i + 1).drop_last() =~= all.take(i as int));
            assert(all.take(i + 1).last() == all[i as int]);
        }
        let ghost succ0 = succ@;
        let ghost fail0 = fail@;
        match o {
            FetchOutcome::Success { source, channel } => {
                let ghost pair = (source@, channel@);
                succ.push((source, channel));
                proof {
                    assert(success_pairs_view(succ@) =~= success_pairs_view(succ0) + seq![pair]);
                    assert(failure_pairs_view(fail@) =~= failures_of(all.take(i + 1)));
                }
            },
            FetchOutcome::Failure { source, error } => {
                let ghost pair = (source@, error);
                fail.push((source, error));
                proof {
                    assert(failure_pairs_view(fail@) =~= failure_pairs_view(fail0) + seq![pair]);
                    assert(success_pairs_view(succ@) =~= successes_of(all.take(i + 1)));
                }
            },
        }
        i = i + 1;
    }
    proof {
        assert(all.take(all.len() as int) =~= all);
    }
    (succ, fail)
}

/// Partial failure isolation: in a round where one source succeeds and
/// another fails, routing yields exactly one success, carrying the first
/// source's document unaffected by the other's error, and exactly one
/// failure, carrying the other's error.
pub proof fn lemma_partial_failure_isolation(
    sa: String,
    d: Channel,
    sb: String,
    e: FetchError,
)
    ensures
        ({
            let outs = seq![
                (FetchOutcome::Success { source: sa, channel: d }),
                (FetchOutcome::Failure { source: sb, error: e }),
            ];
            &&& successes_of(outs) == seq![(sa@, d@)]
            &&& failures_of(outs) == seq![(sb@, e)]
        }),
{
    let ok = FetchOutcome::Success { source: sa, channel: d };
    let bad = FetchOutcome::Failure { source: sb, error: e };
    let outs = seq![ok, bad];
    assert(outs.drop_last() =~= seq![ok]);
    assert(seq![ok].drop_last() =~= Seq::<FetchOutcome>::empty());
    assert(successes_of(Seq::<FetchOutcome>::empty()) =~= Seq::<Record>::empty());
    assert(failures_of(Seq::<FetchOutcome>::empty()) =~= Seq::<(Seq<char>, FetchError)>::empty());
    assert(seq![ok].last() == ok);
    assert(successes_of(seq![ok]) =~= seq![(sa@, d@)]);
    assert(successes_of(outs) =~= seq![(sa@, d@)]);
    assert(failures_of(seq![ok]) =~= Seq::<(Seq<char>, FetchError)>::empty());
    assert(failures_of(outs) =~= seq![(sb@, e)]);
}

} // verus!
