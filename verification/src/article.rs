use vstd::prelude::*;

verus! {

/// A single shared article. Articles are appended to a store, never mutated
/// or deleted; only articles with `public == true` are ever sent to peers.
#[derive(Debug, PartialEq)]
pub struct Article {
    pub id: usize,
    pub name: String,
    pub description: String,
    pub public: bool,
}

/// Mathematical image of an [`Article`]: the same fields over `int` and
/// `Seq<char>`, used by every contract in this crate.
pub struct ArticleView {
    pub id: int,
    pub name: Seq<char>,
    pub description: Seq<char>,
    pub public: bool,
}

impl View for Article {
    type V = ArticleView;

    open spec fn view(&self) -> ArticleView {
        ArticleView {
            id: self.id as int,
            name: self.name@,
            description: self.description@,
            public: self.public,
        }
    }
}

/// The views of a sequence of articles, element for element.
pub open spec fn article_views(s: Seq<Article>) -> Seq<ArticleView> {
    s.map_values(|a: Article| a@)
}

impl DeepView for Article {
    type V = ArticleView;

    open spec fn deep_view(&self) -> ArticleView {
        self.view()
    }
}

impl Article {
    /// An explicit copy whose fields equal the original's.
    pub fn duplicate(&self) -> (r: Article)
        ensures
            r == *self,
    {
        Article {
            id: self.id,
            name: self.name.clone(),
            description: self.description.clone(),
            public: self.public,
        }
    }
}

} // verus!
