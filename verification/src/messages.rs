use vstd::prelude::*;

use crate::article::{Article, ArticleView};

verus! {

/// Selector of a list request: `ALL` addresses every peer on the topic,
/// `One` names the single peer whose id-string must answer.
#[derive(Debug, PartialEq)]
pub enum ListMode {
    ALL,
    One(String),
}

/// Mathematical image of a [`ListMode`].
pub enum ListModeView {
    All,
    One(Seq<char>),
}

impl View for ListMode {
    type V = ListModeView;

    open spec fn view(&self) -> ListModeView {
        match self {
            ListMode::ALL => ListModeView::All,
            ListMode::One(t) => ListModeView::One(t@),
        }
    }
}

/// A query for articles, flooded to every peer on the shared topic.
#[derive(Debug, PartialEq)]
pub struct ListRequest {
    pub mode: ListMode,
}

/// Mathematical image of a [`ListRequest`].
pub struct ListRequestView {
    pub mode: ListModeView,
}

impl View for ListRequest {
    type V = ListRequestView;

    open spec fn view(&self) -> ListRequestView {
        ListRequestView { mode: self.mode@ }
    }
}

/// The answer to a list request. `receiver` names the peer the answer is
/// addressed to; every other peer on the topic must drop it.
#[derive(Debug, PartialEq)]
pub struct ListResponse {
    pub mode: ListMode,
    pub data: Vec<Article>,
    pub receiver: String,
}

/// Mathematical image of a [`ListResponse`].
pub struct ListResponseView {
    pub mode: ListModeView,
    pub data: Seq<ArticleView>,
    pub receiver: Seq<char>,
}

impl View for ListResponse {
    type V = ListResponseView;

    open spec fn view(&self) -> ListResponseView {
        ListResponseView {
            mode: self.mode@,
            data: self.data.deep_view(),
            receiver: self.receiver@,
        }
    }
}

} // verus!
