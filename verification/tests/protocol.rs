use p2p_articles::article::Article;
use p2p_articles::protocol::{
    build_public_response, handle_inbound, list_article_payload, list_peers_payload,
    respond_with_public_articles, InboundAction,
};
use p2p_articles::store::ArticleStore;
use p2p_articles::wire::encode_response;

fn article(id: usize, name: &str, public: bool) -> Article {
    Article { id, name: name.to_string(), description: "text".to_string(), public }
}

#[test]
fn response_addressed_to_another_peer_is_dropped() {
    let r = p2p_articles::messages::ListResponse {
        mode: p2p_articles::messages::ListMode::ALL,
        data: vec![article(1, "Alpha", true)],
        receiver: "peer-b".to_string(),
    };
    let payload = encode_response(&r);
    let action = handle_inbound("peer-a", "peer-b", &payload);
    assert_eq!(action, InboundAction::Ignore);
}

#[test]
fn response_addressed_to_self_is_displayed() {
    let r = p2p_articles::messages::ListResponse {
        mode: p2p_articles::messages::ListMode::ALL,
        data: vec![article(1, "Alpha", true)],
        receiver: "peer-a".to_string(),
    };
    let payload = encode_response(&r);
    match handle_inbound("peer-a", "peer-b", &payload) {
        InboundAction::Display(shown) => {
            assert_eq!(shown.data.len(), 1);
            assert_eq!(shown.data[0].name, "Alpha");
        },
        other => panic!("expected a displayed response, got {:?}", other),
    }
}

#[test]
fn all_request_owes_every_peer_one_response_to_the_source() {
    let payload = list_peers_payload();
    assert_eq!(
        handle_inbound("peer-b", "peer-a", &payload),
        InboundAction::Respond("peer-a".to_string())
    );
    assert_eq!(
        handle_inbound("peer-c", "peer-a", &payload),
        InboundAction::Respond("peer-a".to_string())
    );
}

#[test]
fn one_request_obliges_only_the_named_peer() {
    let payload = list_article_payload("peer-b".to_string());
    assert_eq!(
        handle_inbound("peer-b", "peer-a", &payload),
        InboundAction::Respond("peer-a".to_string())
    );
    assert_eq!(handle_inbound("peer-c", "peer-a", &payload), InboundAction::Ignore);
}

#[test]
fn foreign_traffic_is_dropped() {
    assert_eq!(handle_inbound("peer-a", "peer-b", "hello there"), InboundAction::Ignore);
    assert_eq!(handle_inbound("peer-a", "peer-b", ""), InboundAction::Ignore);
    assert_eq!(handle_inbound("peer-a", "peer-b", "{\"mode\":\"ALL\"} "), InboundAction::Ignore);
}

#[test]
fn built_response_carries_exactly_the_public_articles() {
    let store = ArticleStore::from_articles(vec![
        article(0, "Alpha", true),
        article(1, "Secret", false),
    ]);
    let r = build_public_response(&store, "peer-a".to_string());
    assert_eq!(r.receiver, "peer-a");
    assert_eq!(r.data.len(), 1);
    assert_eq!(r.data[0].name, "Alpha");
}

#[test]
fn query_and_answer_flow_between_three_peers() {
    // Peer A queries everyone; B holds one public and one private article;
    // C holds nothing public.
    let store_b = ArticleStore::from_articles(vec![
        article(0, "Alpha", true),
        article(1, "Private", false),
    ]);
    let store_c = ArticleStore::from_articles(vec![article(0, "Hidden", false)]);
    let query = list_peers_payload();

    // B and C each owe A exactly one response.
    let at_b = handle_inbound("peer-b", "peer-a", &query);
    let at_c = handle_inbound("peer-c", "peer-a", &query);
    assert_eq!(at_b, InboundAction::Respond("peer-a".to_string()));
    assert_eq!(at_c, InboundAction::Respond("peer-a".to_string()));

    // A accepts both answers but sees an article only from B.
    let mut shown: Vec<Article> = Vec::new();
    let payload_b = respond_with_public_articles(&store_b, "peer-a".to_string());
    let payload_c = respond_with_public_articles(&store_c, "peer-a".to_string());
    for (source, payload) in [("peer-b", payload_b), ("peer-c", payload_c)] {
        if let InboundAction::Display(resp) = handle_inbound("peer-a", source, &payload) {
            shown.extend(resp.data);
        }
    }
    assert_eq!(shown.len(), 1);
    assert_eq!(shown[0].name, "Alpha");

    // B, not being the requester, drops A-bound responses.
    let again = respond_with_public_articles(&store_b, "peer-a".to_string());
    assert_eq!(handle_inbound("peer-b", "peer-c", &again), InboundAction::Ignore);
}
