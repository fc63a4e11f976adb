use vstd::prelude::*;

use crate::article::Article;

verus! {

/// The id the next appended article receives: one past the largest existing
/// id, or `0` for an empty collection. Folding over the sequence with `max`
/// makes the result depend only on which ids are present, not on their order.
pub open spec fn next_article_id(s: Seq<Article>) -> int
    decreases s.len(),
{
    if s.len() == 0 {
        0
    } else {
        let rest = next_article_id(s.drop_last());
        let from_last = s.last()@.id + 1;
        if from_last > rest {
            from_last
        } else {
            rest
        }
    }
}

/// The subsequence of publicly flagged articles, in order.
pub open spec fn public_articles(s: Seq<Article>) -> Seq<Article>
    decreases s.len(),
{
    if s.len() == 0 {
        Seq::empty()
    } else {
        let rest = public_articles(s.drop_last());
        if s.last()@.public {
            rest.push(s.last())
        } else {
            rest
        }
    }
}

/// `next_article_id` is exactly one past the maximum id: it is strictly above
/// every id in the collection, and (when the collection is not empty) some
/// article's id is exactly one below it. In particular the next id is
/// determined by the set of ids alone, independent of insertion order, and an
/// appended article can never collide with an existing id.
pub proof fn lemma_next_id_is_max(s: Seq<Article>)
    ensures
        forall|i: int| 0 <= i < s.len() ==> (#[trigger] s[i])@.id < next_article_id(s),
        s.len() > 0 ==> exists|i: int|
            0 <= i < s.len() && (#[trigger] s[i])@.id + 1 == next_article_id(s),
        next_article_id(s) >= 0,
    decreases s.len(),
{
    if s.len() > 0 {
        lemma_next_id_is_max(s.drop_last());
        let rest = next_article_id(s.drop_last());
        let from_last = s.last()@.id + 1;
        assert(next_article_id(s) == if from_last > rest {
            from_last
        } else {
            rest
        });
        assert forall|i: int| 0 <= i < s.len() implies (#[trigger] s[i])@.id < next_article_id(
            s,
        ) by {
            if i < s.len() - 1 {
                assert(s[i] == s.drop_last()[i]);
                assert(s.drop_last()[i]@.id < rest);
            }
        };
        if from_last > rest {
            assert(s[s.len() - 1]@.id + 1 == next_article_id(s));
        } else {
            let j = choose|j: int|
                0 <= j < s.drop_last().len() && (#[trigger] s.drop_last()[j])@.id + 1 == rest;
            assert(s[j] == s.drop_last()[j]);
            assert(s[j]@.id + 1 == next_article_id(s));
        }
    }
}

/// The ids of a collection, in store order.
pub open spec fn article_ids(s: Seq<Article>) -> Seq<int> {
    s.map_values(|a: Article| a@.id)
}

/// The next id depends only on which ids are present, not on the order the
/// articles were inserted in: two stores whose ids form the same multiset
/// allocate the same next id.
pub proof fn lemma_next_id_order_independent(s1: Seq<Article>, s2: Seq<Article>)
    requires
        article_ids(s1).to_multiset() == article_ids(s2).to_multiset(),
    ensures
        next_article_id(s1) == next_article_id(s2),
{
    broadcast use vstd::seq_lib::group_to_multiset_ensures;

    lemma_next_id_is_max(s1);
    lemma_next_id_is_max(s2);
    assert(article_ids(s1).to_multiset().len() == article_ids(s1).len());
    assert(article_ids(s2).to_multiset().len() == article_ids(s2).len());
    assert(s1.len() == s2.len());
    if s1.len() > 0 {
        assert(next_article_id(s1) <= next_article_id(s2)) by {
            let i = choose|i: int|
                0 <= i < s1.len() && (#[trigger] s1[i])@.id + 1 == next_article_id(s1);
            assert(article_ids(s1)[i] == s1[i]@.id);
            assert(article_ids(s1).contains(s1[i]@.id));
            assert(article_ids(s1).to_multiset().count(s1[i]@.id) > 0);
            assert(article_ids(s2).to_multiset().count(s1[i]@.id) > 0);
            assert(article_ids(s2).contains(s1[i]@.id));
            let j = choose|j: int|
                0 <= j < article_ids(s2).len() && article_ids(s2)[j] == s1[i]@.id;
            assert(s2[j]@.id == s1[i]@.id);
        };
        assert(next_article_id(s2) <= next_article_id(s1)) by {
            let i = choose|i: int|
                0 <= i < s2.len() && (#[trigger] s2[i])@.id + 1 == next_article_id(s2);
            assert(article_ids(s2)[i] == s2[i]@.id);
            assert(article_ids(s2).contains(s2[i]@.id));
            assert(article_ids(s2).to_multiset().count(s2[i]@.id) > 0);
            assert(article_ids(s1).to_multiset().count(s2[i]@.id) > 0);
            assert(article_ids(s1).contains(s2[i]@.id));
            let j = choose|j: int|
                0 <= j < article_ids(s1).len() && article_ids(s1)[j] == s2[i]@.id;
            assert(s1[j]@.id == s2[i]@.id);
        };
    }
}

/// Appending an article that carries the allocated next id advances the next
/// id by exactly one: a run of appends therefore hands out distinct,
/// contiguous ids.
pub proof fn lemma_append_ids_contiguous(s: Seq<Article>, a: Article)
    requires
        a@.id == next_article_id(s),
    ensures
        next_article_id(s.push(a)) == next_article_id(s) + 1,
{
    lemma_next_id_is_max(s);
    assert(s.push(a).drop_last() =~= s);
    assert(s.push(a).last() == a);
}

/// `next_article_id` of a prefix never exceeds that of the whole sequence.
proof fn lemma_next_id_take_le(s: Seq<Article>, i: int)
    requires
        0 <= i <= s.len(),
    ensures
        next_article_id(s.take(i)) <= next_article_id(s),
    decreases s.len() - i,
{
    if i == s.len() {
        assert(s.take(i) =~= s);
    } else {
        lemma_next_id_take_le(s, i + 1);
        assert(s.take(i + 1).drop_last() =~= s.take(i));
        assert(s.take(i + 1).last() == s[i]);
    }
}

/// The concurrency-guarded collection of articles. The process shares one
/// value of this type behind a single serialization point, so that every
/// mutating sequence observes the allocation rule of [`next_article_id`].
pub struct ArticleStore {
    pub articles: Vec<Article>,
}

impl View for ArticleStore {
    type V = Seq<Article>;

    open spec fn view(&self) -> Seq<Article> {
        self.articles@
    }
}

impl ArticleStore {
    /// An empty store.
    pub fn new() -> (r: ArticleStore)
        ensures
            r@ == Seq::<Article>::empty(),
    {
        let r = ArticleStore { articles: Vec::new() };
        proof {
            assert(r@ =~= Seq::<Article>::empty());
        }
        r
    }

    /// A store over an already-loaded collection.
    pub fn from_articles(articles: Vec<Article>) -> (r: ArticleStore)
        ensures
            r@ == articles@,
    {
        ArticleStore { articles }
    }

    /// Appends a new article under the allocation rule: the new article
    /// receives id `0` on an empty store, and one past the maximum existing
    /// id otherwise, so it collides with no stored article.
    pub fn append(&mut self, name: String, description: String, public: bool) -> (id: usize)
        requires
            next_article_id(old(self)@) <= usize::MAX,
        ensures
            id as int == next_article_id(old(self)@),
            final(self)@ == old(self)@.push((Article { id, name, description, public })),
    {
        proof {
            lemma_next_id_is_max(self@);
        }
        let n = self.articles.len();
        let mut id: usize = 0;
        let mut i: usize = 0;
        while i < n
            invariant
                0 <= i <= n,
                n == self@.len(),
                id as int == next_article_id(self@.take(i as int)),
                next_article_id(self@) <= usize::MAX,
            decreases n - i,
        {
            proof {
                lemma_next_id_take_le(self@, i + 1);
                assert(self@.take(i + 1).drop_last() =~= self@.take(i as int));
                assert(self@.take(i + 1).last() == self@[i as int]);
            }
            let candidate = self.articles[i].id;
            if candidate >= id {
                id = candidate + 1;
            }
            i += 1;
        }
        proof {
            assert(self@.take(n as int) =~= self@);
        }
        let article = Article { id, name, description, public };
        self.articles.push(article);
        id
    }

    /// A snapshot of the publicly flagged articles, in store order.
    pub fn list_public(&self) -> (r: Vec<Article>)
        ensures
            r@ == public_articles(self@),
    {
        let n = self.articles.len();
        let mut r: Vec<Article> = Vec::new();
        let mut i: usize = 0;
        proof {
            assert(r@ =~= public_articles(self@.take(0)));
        }
        while i < n
            invariant
                0 <= i <= n,
                n == self@.len(),
                r@ == public_articles(self@.take(i as int)),
            decreases n - i,
        {
            proof {
                assert(self@.take(i + 1).drop_last() =~= self@.take(i as int));
                assert(self@.take(i + 1).last() == self@[i as int]);
            }
            if self.articles[i].public {
                r.push(self.articles[i].duplicate());
            }
            i += 1;
        }
        proof {
            assert(self@.take(n as int) =~= self@);
        }
        r
    }

    /// The number of stored articles.
    pub fn len(&self) -> (n: usize)
        ensures
            n == self@.len(),
    {
        self.articles.len()
    }
}

} // verus!
