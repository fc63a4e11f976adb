use p2p_articles::article::Article;
use p2p_articles::store::ArticleStore;

fn article(id: usize, name: &str, public: bool) -> Article {
    Article { id, name: name.to_string(), description: format!("about {}", name), public }
}

#[test]
fn first_append_on_empty_store_gets_id_zero() {
    let mut store = ArticleStore::new();
    let id = store.append("soup".to_string(), "hot".to_string(), false);
    assert_eq!(id, 0);
    assert_eq!(store.len(), 1);
    assert_eq!(store.articles[0].id, 0);
    assert_eq!(store.articles[0].name, "soup");
    assert_eq!(store.articles[0].description, "hot");
    assert!(!store.articles[0].public);
}

#[test]
fn append_assigns_max_plus_one() {
    let mut store = ArticleStore::from_articles(vec![
        article(5, "a", true),
        article(2, "b", false),
    ]);
    let id = store.append("c".to_string(), "d".to_string(), true);
    assert_eq!(id, 6);
}

#[test]
fn append_is_insertion_order_independent() {
    let mut ascending = ArticleStore::from_articles(vec![
        article(2, "a", true),
        article(5, "b", false),
    ]);
    let mut descending = ArticleStore::from_articles(vec![
        article(5, "b", false),
        article(2, "a", true),
    ]);
    assert_eq!(
        ascending.append("x".to_string(), "y".to_string(), false),
        descending.append("x".to_string(), "y".to_string(), false)
    );
}

#[test]
fn appended_ids_are_distinct_and_contiguous() {
    let mut store = ArticleStore::new();
    let mut ids = Vec::new();
    for k in 0..5usize {
        ids.push(store.append(format!("a{}", k), "text".to_string(), false));
    }
    assert_eq!(ids, vec![0, 1, 2, 3, 4]);
    for i in 0..ids.len() {
        for j in 0..i {
            assert_ne!(ids[i], ids[j]);
        }
    }
}

#[test]
fn appended_ids_stay_fresh_after_gaps() {
    let mut store = ArticleStore::from_articles(vec![article(7, "a", false)]);
    let first = store.append("b".to_string(), "t".to_string(), false);
    let second = store.append("c".to_string(), "t".to_string(), false);
    assert_eq!(first, 8);
    assert_eq!(second, 9);
}

#[test]
fn list_public_keeps_exactly_the_public_articles() {
    let store = ArticleStore::from_articles(vec![
        article(1, "open", true),
        article(2, "hidden", false),
    ]);
    let public = store.list_public();
    assert_eq!(public.len(), 1);
    assert_eq!(public[0].id, 1);
    assert_eq!(public[0].name, "open");
    assert!(public[0].public);
}

#[test]
fn list_public_of_all_private_store_is_empty() {
    let store = ArticleStore::from_articles(vec![
        article(0, "a", false),
        article(1, "b", false),
    ]);
    assert!(store.list_public().is_empty());
}

#[test]
fn concurrent_appends_get_distinct_contiguous_ids() {
    let rt = tokio::runtime::Builder::new_multi_thread()
        .worker_threads(4)
        .build()
        .unwrap();
    rt.block_on(async {
        // The store is shared behind a single serialization point, so no two
        // tasks can allocate the next id from a stale read.
        let store = std::sync::Arc::new(tokio::sync::Mutex::new(ArticleStore::new()));
        let mut handles = Vec::new();
        for k in 0..8usize {
            let store = store.clone();
            handles.push(tokio::spawn(async move {
                let mut guard = store.lock().await;
                guard.append(format!("a{}", k), "t".to_string(), false)
            }));
        }
        let mut ids = Vec::new();
        for h in handles {
            ids.push(h.await.unwrap());
        }
        ids.sort();
        assert_eq!(ids, vec![0, 1, 2, 3, 4, 5, 6, 7]);
        assert_eq!(store.lock().await.len(), 8);
    });
}
