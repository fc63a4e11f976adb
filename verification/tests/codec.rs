use p2p_articles::article::Article;
use p2p_articles::messages::{ListMode, ListRequest, ListResponse};
use p2p_articles::wire::{
    decode_articles, decode_request, decode_response, encode_articles, encode_request,
    encode_response,
};

fn article(id: usize, name: &str, description: &str, public: bool) -> Article {
    Article { id, name: name.to_string(), description: description.to_string(), public }
}

#[test]
fn article_collection_encodes_to_exact_text() {
    let arts = vec![article(1, "Alpha", "first", true)];
    assert_eq!(
        encode_articles(&arts),
        "[{\"id\":1,\"name\":\"Alpha\",\"description\":\"first\",\"public\":true}]"
    );
}

#[test]
fn empty_collection_encodes_to_brackets() {
    let arts: Vec<Article> = Vec::new();
    assert_eq!(encode_articles(&arts), "[]");
    assert_eq!(decode_articles("[]"), Some(Vec::new()));
}

#[test]
fn articles_round_trip_field_for_field() {
    let arts = vec![
        article(0, "Alpha", "first", true),
        article(3, "Beta", "second", false),
        article(10, "Gamma", "", true),
    ];
    let text = encode_articles(&arts);
    assert_eq!(decode_articles(&text), Some(arts));
}

#[test]
fn escaped_characters_round_trip() {
    let arts = vec![article(2, "say \"hi\"", "a\\b and \"q\"", false)];
    let text = encode_articles(&arts);
    assert_eq!(decode_articles(&text), Some(arts));
}

#[test]
fn largest_id_round_trips() {
    let arts = vec![article(usize::MAX, "big", "edge", true)];
    let text = encode_articles(&arts);
    assert_eq!(decode_articles(&text), Some(arts));
}

#[test]
fn oversized_id_is_rejected() {
    let text = "[{\"id\":99999999999999999999999,\"name\":\"x\",\"description\":\"y\",\"public\":true}]";
    assert_eq!(decode_articles(text), None);
}

#[test]
fn corrupt_storage_text_is_rejected() {
    assert_eq!(decode_articles(""), None);
    assert_eq!(decode_articles("nonsense"), None);
    assert_eq!(decode_articles("["), None);
    assert_eq!(decode_articles("[{\"id\":1}]"), None);
    assert_eq!(decode_articles("[] trailing"), None);
}

#[test]
fn request_all_encodes_to_exact_text() {
    let q = ListRequest { mode: ListMode::ALL };
    assert_eq!(encode_request(&q), "{\"mode\":\"ALL\"}");
}

#[test]
fn request_one_encodes_to_exact_text() {
    let q = ListRequest { mode: ListMode::One("peer-7".to_string()) };
    assert_eq!(encode_request(&q), "{\"mode\":{\"One\":\"peer-7\"}}");
}

#[test]
fn request_round_trips() {
    let q = ListRequest { mode: ListMode::One("peer-7".to_string()) };
    let text = encode_request(&q);
    assert_eq!(decode_request(&text), Some(q));
}

#[test]
fn response_round_trips() {
    let r = ListResponse {
        mode: ListMode::ALL,
        data: vec![article(4, "Alpha", "text", true)],
        receiver: "peer-a".to_string(),
    };
    let text = encode_response(&r);
    assert_eq!(
        text,
        "{\"mode\":\"ALL\",\"data\":[{\"id\":4,\"name\":\"Alpha\",\"description\":\"text\",\"public\":true}],\"receiver\":\"peer-a\"}"
    );
    assert_eq!(decode_response(&text), Some(r));
}

#[test]
fn a_request_never_decodes_as_a_response() {
    let q = ListRequest { mode: ListMode::ALL };
    let text = encode_request(&q);
    assert_eq!(decode_response(&text), None);
}

#[test]
fn a_response_never_decodes_as_a_request() {
    let r = ListResponse { mode: ListMode::ALL, data: Vec::new(), receiver: "p".to_string() };
    let text = encode_response(&r);
    assert_eq!(decode_request(&text), None);
}

#[test]
fn encoded_articles_agree_with_a_json_reader() {
    let arts = vec![article(9, "Alpha", "some text", true)];
    let text = encode_articles(&arts);
    let value: serde_json::Value = serde_json::from_str(&text).expect("well-formed");
    assert_eq!(value[0]["id"], serde_json::Value::from(9u64));
    assert_eq!(value[0]["name"].as_str(), Some("Alpha"));
    assert_eq!(value[0]["description"].as_str(), Some("some text"));
    assert_eq!(value[0]["public"].as_bool(), Some(true));
}

#[test]
fn compactly_written_storage_text_decodes() {
    let text = "[{\"id\":3,\"name\":\"Beta\",\"description\":\"d\",\"public\":false},{\"id\":0,\"name\":\"A\",\"description\":\"\",\"public\":true}]";
    assert_eq!(
        decode_articles(text),
        Some(vec![article(3, "Beta", "d", false), article(0, "A", "", true)])
    );
}
