use vstd::prelude::*;
use vstd::string::StrSliceExecFns;

use crate::article::article_views;
use crate::chars::str_eq;
use crate::messages::{ListMode, ListModeView, ListRequest, ListRequestView, ListResponse,
    ListResponseView};
use crate::store::{public_articles, ArticleStore};
use crate::codec::spec_parse_lit;
use crate::wire::{encode_request, encode_response, enc_request, enc_response, spec_decode_request,
    spec_decode_response, decode_request, decode_response};

verus! {

/// What a peer does with one inbound broadcast payload: drop it, display a
/// response addressed to it, or owe the sender a response.
#[derive(Debug, PartialEq)]
pub enum InboundAction {
    Ignore,
    Display(ListResponse),
    Respond(String),
}

/// Mathematical image of an [`InboundAction`].
pub enum InboundActionView {
    Ignore,
    Display(ListResponseView),
    Respond(Seq<char>),
}

impl View for InboundAction {
    type V = InboundActionView;

    open spec fn view(&self) -> InboundActionView {
        match self {
            InboundAction::Ignore => InboundActionView::Ignore,
            InboundAction::Display(r) => InboundActionView::Display(r@),
            InboundAction::Respond(t) => InboundActionView::Respond(t@),
        }
    }
}

/// The protocol's decision for one inbound payload, taken by the peer whose
/// id-string is `self_id` on a payload sent by `source`. A payload that
/// denotes a response is displayed exactly when it is addressed to `self_id`.
/// A payload that denotes a request obliges this peer to answer `source`
/// exactly when the request addresses all peers or names `self_id`. Every
/// other payload is foreign traffic on the shared topic and is dropped.
pub open spec fn spec_handle_inbound(
    self_id: Seq<char>,
    source: Seq<char>,
    payload: Seq<char>,
) -> InboundActionView {
    match spec_decode_response(payload) {
        Some(r) => if r.receiver == self_id {
            InboundActionView::Display(r)
        } else {
            InboundActionView::Ignore
        },
        None => match spec_decode_request(payload) {
            Some(q) => match q.mode {
                ListModeView::All => InboundActionView::Respond(source),
                ListModeView::One(t) => if t == self_id {
                    InboundActionView::Respond(source)
                } else {
                    InboundActionView::Ignore
                },
            },
            None => InboundActionView::Ignore,
        },
    }
}

/// Decides what to do with one inbound payload; see [`spec_handle_inbound`].
pub fn handle_inbound(self_id: &str, source: &str, payload: &str) -> (a: InboundAction)
    ensures
        a@ == spec_handle_inbound(self_id@, source@, payload@),
{
    match decode_response(payload) {
        Some(r) => {
            if str_eq(r.receiver.as_str(), self_id) {
                InboundAction::Display(r)
            } else {
                InboundAction::Ignore
            }
        },
        None => match decode_request(payload) {
            Some(q) => match q.mode {
                ListMode::ALL => InboundAction::Respond(source.to_owned()),
                ListMode::One(t) => {
                    if str_eq(t.as_str(), self_id) {
                        InboundAction::Respond(source.to_owned())
                    } else {
                        InboundAction::Ignore
                    }
                },
            },
            None => InboundAction::Ignore,
        },
    }
}

/// No payload denotes both a request and a response: a request ends right
/// after its mode, where a response carries its data field.
pub proof fn lemma_wire_discrimination(payload: Seq<char>)
    ensures
        spec_decode_request(payload) is Some ==> spec_decode_response(payload) is None,
{
    reveal_strlit(",\"data\":");
    if spec_decode_request(payload) is Some && spec_decode_response(payload) is Some {
        let k1 = spec_parse_lit(payload, "{\"mode\":"@).unwrap();
        let (m, k2) = crate::wire::spec_parse_mode(payload.skip(k1)).unwrap();
        let p2 = k1 + k2;
        let s2 = payload.skip(p2);
        assert(spec_parse_lit(s2, seq!['}']) is Some);
        assert(spec_parse_lit(s2, ",\"data\":"@) is Some);
        assert(s2.take(1)[0] == s2[0]);
        assert(s2.take(",\"data\":"@.len() as int)[0] == s2[0]);
        assert(false);
    }
}

/// A response addressed to a different peer is never displayed or acted
/// upon: the decision is to drop it.
pub proof fn lemma_foreign_response_dropped(
    self_id: Seq<char>,
    source: Seq<char>,
    payload: Seq<char>,
)
    requires
        spec_decode_response(payload) matches Some(r) && r.receiver != self_id,
    ensures
        spec_handle_inbound(self_id, source, payload) == InboundActionView::Ignore,
{
}

/// A request in mode `ALL` obliges every receiving peer to answer, and the
/// answer is addressed to the peer the request came from.
pub proof fn lemma_all_request_owes_response(
    self_id: Seq<char>,
    source: Seq<char>,
    payload: Seq<char>,
)
    requires
        spec_decode_request(payload) matches Some(q) && q.mode == ListModeView::All,
    ensures
        spec_handle_inbound(self_id, source, payload) == InboundActionView::Respond(source),
{
    lemma_wire_discrimination(payload);
}

/// A request in mode `One` obliges exactly the named peer to answer: the
/// decision is `Respond` for the peer whose id the request names and
/// `Ignore` for every other peer.
pub proof fn lemma_one_request_targets_one_peer(
    self_id: Seq<char>,
    source: Seq<char>,
    payload: Seq<char>,
    target: Seq<char>,
)
    requires
        spec_decode_request(payload) matches Some(q) && q.mode == ListModeView::One(target),
    ensures
        target == self_id ==> spec_handle_inbound(self_id, source, payload)
            == InboundActionView::Respond(source),
        target != self_id ==> spec_handle_inbound(self_id, source, payload)
            == InboundActionView::Ignore,
{
    lemma_wire_discrimination(payload);
}

/// The answer a peer builds for `requester` travels the flood topic intact:
/// the requester displays exactly the responder's public articles, and every
/// other peer on the topic drops the payload unread.
pub proof fn lemma_answer_reaches_requester_only(
    store: Seq<crate::article::Article>,
    requester: Seq<char>,
    source: Seq<char>,
)
    ensures
        ({
            let rv = ListResponseView {
                mode: ListModeView::All,
                data: article_views(public_articles(store)),
                receiver: requester,
            };
            &&& spec_handle_inbound(requester, source, enc_response(rv))
                == InboundActionView::Display(rv)
            &&& forall|other: Seq<char>|
                other != requester ==> spec_handle_inbound(other, source, enc_response(rv))
                    == InboundActionView::Ignore
        }),
{
    let rv = ListResponseView {
        mode: ListModeView::All,
        data: article_views(public_articles(store)),
        receiver: requester,
    };
    assert forall|j: int| 0 <= j < rv.data.len() implies 0 <= (#[trigger] rv.data[j]).id
        <= usize::MAX by {
        assert(rv.data[j] == public_articles(store)[j]@);
    };
    crate::wire::lemma_response_round_trip(rv);
}

/// The outbound query that addresses every peer.
pub fn make_all_request() -> (q: ListRequest)
    ensures
        q@ == (ListRequestView { mode: ListModeView::All }),
{
    ListRequest { mode: ListMode::ALL }
}

/// The outbound query that names the one peer expected to answer.
pub fn make_one_request(target: String) -> (q: ListRequest)
    ensures
        q@ == (ListRequestView { mode: ListModeView::One(target@) }),
{
    ListRequest { mode: ListMode::One(target) }
}

/// Builds the answer owed for a request from `receiver`: exactly the
/// publicly flagged articles of the store, addressed back to `receiver`.
pub fn build_public_response(store: &ArticleStore, receiver: String) -> (r: ListResponse)
    ensures
        r@.mode == ListModeView::All,
        r@.receiver == receiver@,
        r@.data == article_views(public_articles(store@)),
{
    let data = store.list_public();
    let r = ListResponse { mode: ListMode::ALL, data, receiver };
    proof {
        assert(r@.data =~= article_views(public_articles(store@)));
    }
    r
}

/// The full answer path for one request: reads the store, keeps the public
/// articles, and returns the encoded response addressed to `receiver`.
pub fn respond_with_public_articles(store: &ArticleStore, receiver: String) -> (payload: String)
    ensures
        payload@ == enc_response(
            ListResponseView {
                mode: ListModeView::All,
                data: article_views(public_articles(store@)),
                receiver: receiver@,
            },
        ),
{
    let r = build_public_response(store, receiver);
    encode_response(&r)
}

/// The encoded query of [`make_all_request`].
pub fn list_peers_payload() -> (payload: String)
    ensures
        payload@ == enc_request((ListRequestView { mode: ListModeView::All })),
{
    let q = make_all_request();
    encode_request(&q)
}

/// The encoded query of [`make_one_request`].
pub fn list_article_payload(target: String) -> (payload: String)
    ensures
        payload@ == enc_request((ListRequestView { mode: ListModeView::One(target@) })),
{
    let q = make_one_request(target);
    encode_request(&q)
}

} // verus!
