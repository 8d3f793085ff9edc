//! What holds of every session.
use vstd::prelude::*;

use super::backend::{self, Answer, Ask, BackendErrorSpec, ResumeKind};
use super::protocol::{self, RequestSpec};
use super::server::{self, Opening, Out, Session};
use crate::json::{self, Json};

verus! {

/// A message answers the request, and is no mere event.
pub open spec fn is_response(out: Out) -> bool {
    !(out is Event)
}

/// The message at `i` is a response, and no other is.
pub open spec fn is_only_response(outs: Seq<Out>, i: int) -> bool {
    &&& 0 <= i < outs.len()
    &&& is_response(outs[i])
    &&& forall|j: int| 0 <= j < outs.len() && j != i ==> !is_response(#[trigger] outs[j])
}

/// Every request is answered, and answered once: of what is sent for it, exactly
/// one message is a response.
pub proof fn law_every_request_is_answered_once(
    request: RequestSpec,
    opening: Opening,
    answers: spec_fn(Ask) -> Answer,
)
    requires
        server::is_answered_in_kind(request, opening, answers),
    ensures
        exists|i: int| is_only_response(server::outs_for(request, opening, answers), i),
{
    let outs = server::outs_for(request, opening, answers);
    let i: int = if is_response(outs[0]) {
        0
    } else if is_response(outs[1]) {
        1
    } else {
        2
    };
    assert(is_only_response(outs, i));
}

/// What a target fails at is never hidden: the client is shown the error's
/// message, and told of it in the response.
pub proof fn law_failures_are_shown(
    request: RequestSpec,
    opening: Opening,
    answers: spec_fn(Ask) -> Answer,
    error: BackendErrorSpec,
)
    requires
        server::question_of(request) matches Some(ask) && answers(ask) == Answer::Failed(error),
        server::trace_of(request) is None || opening is Ready,
    ensures
        server::outs_for(request, opening, answers) == server::failed(error.message()),
{
}

/// A recording that cannot be opened is shown and told of likewise, and the
/// target is not launched.
pub proof fn law_a_recording_that_cannot_be_opened_is_shown(
    request: RequestSpec,
    message: Seq<char>,
    answers: spec_fn(Ask) -> Answer,
)
    requires
        server::trace_of(request) is Some,
    ensures
        server::outs_for(request, Opening::Failed(message), answers) == server::failed(message),
{
    reveal_strlit("initialize");
    reveal_strlit("launch");
    reveal_strlit("attach");
    assert("initialize"@.len() == 10);
    assert("launch"@.len() == 6 && "attach"@.len() == 6);
}

/// The static target is polite about what it cannot do: going backward and going
/// to an event fail, with a message that points at the replay engine.
pub proof fn law_the_static_target_points_at_replay(request: RequestSpec, opening: Opening)
    requires
        server::question_of(request) matches Some(ask) && (ask is Jump || ask == Ask::Resume(
            ResumeKind::StepBack,
        ) || ask == Ask::Resume(ResumeKind::ReverseContinue)),
    ensures
        server::outs_for(request, opening, |ask: Ask| backend::stub_answer(ask))
            == server::failed(
            if server::question_of(request)->Some_0 is Jump {
                backend::jump_stub_message()
            } else {
                backend::reverse_stub_message()
            },
        ),
{
}

/// The number that a message carries.
pub open spec fn number_of(message: Json) -> Option<int> {
    match message {
        Json::Object(m) => if m.contains_key("seq"@) {
            match m["seq"@] {
                Json::Integer(n) => Some(n),
                _ => None,
            }
        } else {
            None
        },
        _ => None,
    }
}

/// The number of the request that a response echoes.
pub open spec fn echo_of(message: Json) -> Option<int> {
    match message {
        Json::Object(m) => if m.contains_key("request_seq"@) {
            match m["request_seq"@] {
                Json::Integer(n) => Some(n),
                _ => None,
            }
        } else {
            None
        },
        _ => None,
    }
}

/// A message is a response, by what it says of itself.
pub open spec fn says_response(message: Json) -> bool {
    message matches Json::Object(m) && m.contains_key("type"@) && m["type"@] == Json::Text(
        "response"@,
    )
}

/// A message carries its number and says whether it is a response, and a response
/// echoes its request's number.
pub proof fn law_messages_carry_their_numbers(seq: u64, request: RequestSpec, out: Out)
    ensures
        says_response(server::message_of(seq, request, out)) == is_response(out),
        number_of(server::message_of(seq, request, out)) == Some(seq as int),
        is_response(out) ==> echo_of(server::message_of(seq, request, out)) == Some(
            request.seq as int,
        ),
{
    reveal_strlit("seq");
    reveal_strlit("type");
    reveal_strlit("request_seq");
    reveal_strlit("command");
    reveal_strlit("success");
    reveal_strlit("message");
    reveal_strlit("event");
    reveal_strlit("body");
    reveal_strlit("response");
    assert("response"@.len() == 8);
    assert("type"@[0] == 't' && "body"@[0] == 'b');
    assert("seq"@.len() == 3 && "type"@.len() == 4 && "request_seq"@.len() == 11);
    assert("command"@.len() == 7 && "success"@.len() == 7 && "message"@.len() == 7);
    assert("event"@.len() == 5 && "body"@.len() == 4);
    match out {
        Out::Success(body) => {
            let s = seq![
                ("seq"@, Json::Integer(seq as int)),
                ("type"@, Json::Text("response"@)),
                ("request_seq"@, Json::Integer(request.seq as int)),
                ("command"@, Json::Text(request.command)),
                ("success"@, Json::Bool(true)),
                ("body"@, body),
            ];
            lemma_six(s);
        },
        Out::Failure(message) => {
            let s = seq![
                ("seq"@, Json::Integer(seq as int)),
                ("type"@, Json::Text("response"@)),
                ("request_seq"@, Json::Integer(request.seq as int)),
                ("command"@, Json::Text(request.command)),
                ("success"@, Json::Bool(false)),
                ("message"@, Json::Text(message)),
            ];
            lemma_six(s);
        },
        Out::Event(name, body) => {
            let s = seq![
                ("seq"@, Json::Integer(seq as int)),
                ("type"@, Json::Text("event"@)),
                ("event"@, Json::Text(name)),
                ("body"@, body),
            ];
            let a = s.drop_last();
            let b = a.drop_last();
            let c = b.drop_last();
            assert(c.drop_last() =~= Seq::empty());
            assert(json::fields(c.drop_last()) == Map::<Seq<char>, Json>::empty());
            assert(json::fields(c) == Map::<Seq<char>, Json>::empty().insert(s[0].0, s[0].1));
            assert(json::fields(b) == json::fields(c).insert(s[1].0, s[1].1));
            assert(json::fields(a) == json::fields(b).insert(s[2].0, s[2].1));
            assert(json::fields(s) == json::fields(a).insert(s[3].0, s[3].1));
        },
    }
}

proof fn lemma_six(s: Seq<(Seq<char>, Json)>)
    requires
        s.len() == 6,
    ensures
        json::fields(s) == Map::<Seq<char>, Json>::empty().insert(s[0].0, s[0].1).insert(
            s[1].0,
            s[1].1,
        ).insert(s[2].0, s[2].1).insert(s[3].0, s[3].1).insert(s[4].0, s[4].1).insert(
            s[5].0,
            s[5].1,
        ),
{
    let a = s.drop_last();
    let b = a.drop_last();
    let c = b.drop_last();
    let d = c.drop_last();
    let e = d.drop_last();
    assert(e.drop_last() =~= Seq::empty());
    assert(json::fields(e.drop_last()) == Map::<Seq<char>, Json>::empty());
    assert(json::fields(e) == Map::<Seq<char>, Json>::empty().insert(s[0].0, s[0].1));
    assert(json::fields(d) == json::fields(e).insert(s[1].0, s[1].1));
    assert(json::fields(c) == json::fields(d).insert(s[2].0, s[2].1));
    assert(json::fields(b) == json::fields(c).insert(s[3].0, s[3].1));
    assert(json::fields(a) == json::fields(b).insert(s[4].0, s[4].1));
    assert(json::fields(s) == json::fields(a).insert(s[5].0, s[5].1));
}

/// Over a whole session the server's numbers go up one by one, whatever the
/// targets do from one request to the next.
pub proof fn law_messages_are_numbered_in_order(
    requests: Seq<RequestSpec>,
    sent: u64,
    s: Session,
)
    requires
        server::is_session(requests, sent, s),
        sent + s.messages.len() <= u64::MAX,
    ensures
        forall|i: int|
            0 <= i < s.messages.len() ==> number_of(#[trigger] s.messages[i]) == Some(
                sent + i + 1,
            ),
{
    assert forall|i: int| 0 <= i < s.messages.len() implies number_of(#[trigger] s.messages[i])
        == Some(sent + i + 1) by {
        let r = lemma_part_of(requests, sent, s, i, requests.len() as int);
        let part = s.messages.subrange(s.cuts[r], s.cuts[r + 1]);
        let start = (sent + s.cuts[r]) as u64;
        let outs = outs_at(requests, s, r);
        assert(part.len() == outs.len());
        let k = i - s.cuts[r];
        assert(s.messages[i] == part[k]);
        assert(part[k] == server::message_of((start + k + 1) as u64, requests[r], outs[k]));
        law_messages_carry_their_numbers((start + k + 1) as u64, requests[r], outs[k]);
    }
}

/// What is sent for one of the requests of a session, apart from the numbers.
spec fn outs_at(requests: Seq<RequestSpec>, s: Session, i: int) -> Seq<Out> {
    server::outs_for(
        requests[i],
        server::opening_of(s.openings[i]),
        server::serving(s.targets[i], requests[i], s.openings[i]).answers,
    )
}

/// Every message is part of what is sent for one of the requests.
proof fn lemma_part_of(
    requests: Seq<RequestSpec>,
    sent: u64,
    s: Session,
    i: int,
    n: int,
) -> (r: int)
    requires
        server::is_session(requests, sent, s),
        0 <= n <= requests.len(),
        0 <= i < s.cuts[n],
    ensures
        0 <= r < n,
        s.cuts[r] <= i < s.cuts[r + 1],
        server::is_turn_at(requests, sent, s, r),
    decreases n,
{
    assert(server::is_turn_at(requests, sent, s, n - 1));
    if s.cuts[n - 1] <= i {
        n - 1
    } else {
        lemma_part_of(requests, sent, s, i, n - 1)
    }
}

/// The message at `k` is a response to the request, and no other from `from` to
/// `to` is a response.
pub open spec fn is_only_answer(
    messages: Seq<Json>,
    from: int,
    to: int,
    request: RequestSpec,
    k: int,
) -> bool {
    &&& from <= k < to
    &&& says_response(messages[k])
    &&& echo_of(messages[k]) == Some(request.seq as int)
    &&& forall|j: int| from <= j < to && j != k ==> !says_response(#[trigger] messages[j])
}

/// Exactly one message from `from` to `to` is a response, and it is one to the
/// request.
pub open spec fn has_only_answer(
    messages: Seq<Json>,
    from: int,
    to: int,
    request: RequestSpec,
) -> bool {
    exists|k: int| is_only_answer(messages, from, to, request, k)
}

/// Over a whole session every request is answered once, in order, whatever the
/// targets do from one request to the next: of the messages from one cut to the
/// next exactly one is a response, and it is one to the request of the same
/// number.
pub proof fn law_a_session_answers_every_request_once(
    requests: Seq<RequestSpec>,
    sent: u64,
    s: Session,
)
    requires
        server::is_session(requests, sent, s),
    ensures
        forall|i: int|
            0 <= i < requests.len() ==> has_only_answer(
                s.messages,
                s.cuts[i],
                s.cuts[i + 1],
                #[trigger] requests[i],
            ),
{
    assert forall|i: int| 0 <= i < requests.len() implies has_only_answer(
        s.messages,
        s.cuts[i],
        s.cuts[i + 1],
        #[trigger] requests[i],
    ) by {
        assert(server::is_turn_at(requests, sent, s, i));
        let from = s.cuts[i];
        let part = s.messages.subrange(from, s.cuts[i + 1]);
        let start = (sent + from) as u64;
        let outs = outs_at(requests, s, i);
        assert(part.len() == outs.len());
        law_every_request_is_answered_once(
            requests[i],
            server::opening_of(s.openings[i]),
            server::serving(s.targets[i], requests[i], s.openings[i]).answers,
        );
        let k = choose|k: int| is_only_response(outs, k);
        assert forall|j: int| from <= j < s.cuts[i + 1] implies says_response(
            #[trigger] s.messages[j],
        ) == is_response(outs[j - from]) by {
            assert(s.messages[j] == part[j - from]);
            assert(part[j - from] == server::message_of(
                (start + (j - from) + 1) as u64,
                requests[i],
                outs[j - from],
            ));
            law_messages_carry_their_numbers(
                (start + (j - from) + 1) as u64,
                requests[i],
                outs[j - from],
            );
        }
        assert(s.messages[from + k] == part[k]);
        law_messages_carry_their_numbers((start + k + 1) as u64, requests[i], outs[k]);
        assert(is_only_answer(s.messages, from, s.cuts[i + 1], requests[i], from + k));
    }
}

} // verus!
