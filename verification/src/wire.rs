use vstd::prelude::*;

use crate::article::{Article, ArticleView};
use crate::chars::{chars_of, string_of};
use crate::codec::{
    enc_bool, enc_nat, enc_string, spec_parse_bool, spec_parse_lit, spec_parse_nat,
    spec_parse_string, lemma_parse_lit_round_trip, lemma_parse_nat_round_trip,
    lemma_parse_string_round_trip, lemma_parse_bool_round_trip, is_digit, match_lit, parse_nat,
    parse_string, parse_bool, emit_lit, emit_nat, emit_string, emit_bool,
};
use crate::messages::{ListMode, ListModeView, ListRequest, ListRequestView, ListResponse,
    ListResponseView};

verus! {

// ---------------------------------------------------------------------------
// Wire and storage images
//
// An article travels and rests as
//   {"id":N,"name":"...","description":"...","public":B}
// a collection as   [A,A,...]
// a request as      {"mode":M}       with M = "ALL" or {"One":"..."}
// a response as     {"mode":M,"data":[...],"receiver":"..."}
// ---------------------------------------------------------------------------

pub open spec fn enc_article(a: ArticleView) -> Seq<char> {
    "{\"id\":"@ + enc_nat(a.id) + ",\"name\":"@ + enc_string(a.name) + ",\"description\":"@
        + enc_string(a.description) + ",\"public\":"@ + enc_bool(a.public) + seq!['}']
}

pub open spec fn enc_articles_items(s: Seq<ArticleView>) -> Seq<char>
    decreases s.len(),
{
    if s.len() == 0 {
        Seq::empty()
    } else if s.len() == 1 {
        enc_article(s[0])
    } else {
        enc_article(s[0]) + seq![','] + enc_articles_items(s.skip(1))
    }
}

pub open spec fn enc_articles(s: Seq<ArticleView>) -> Seq<char> {
    seq!['['] + enc_articles_items(s) + seq![']']
}

pub open spec fn enc_mode(m: ListModeView) -> Seq<char> {
    match m {
        ListModeView::All => "\"ALL\""@,
        ListModeView::One(t) => "{\"One\":"@ + enc_string(t) + seq!['}'],
    }
}

pub open spec fn enc_request(q: ListRequestView) -> Seq<char> {
    "{\"mode\":"@ + enc_mode(q.mode) + seq!['}']
}

pub open spec fn enc_response(r: ListResponseView) -> Seq<char> {
    "{\"mode\":"@ + enc_mode(r.mode) + ",\"data\":"@ + enc_articles(r.data) + ",\"receiver\":"@
        + enc_string(r.receiver) + seq!['}']
}

// ---------------------------------------------------------------------------
// Parsers
// ---------------------------------------------------------------------------

pub open spec fn spec_parse_article(s: Seq<char>) -> Option<(ArticleView, int)> {
    match spec_parse_lit(s, "{\"id\":"@) {
        None => None,
        Some(k1) => match spec_parse_nat(s.skip(k1)) {
            None => None,
            Some((id, k2)) => if id > usize::MAX {
                None
            } else {
                let p2 = k1 + k2;
                match spec_parse_lit(s.skip(p2), ",\"name\":"@) {
                    None => None,
                    Some(k3) => match spec_parse_string(s.skip(p2 + k3)) {
                        None => None,
                        Some((name, k4)) => {
                            let p4 = p2 + k3 + k4;
                            match spec_parse_lit(s.skip(p4), ",\"description\":"@) {
                                None => None,
                                Some(k5) => match spec_parse_string(s.skip(p4 + k5)) {
                                    None => None,
                                    Some((description, k6)) => {
                                        let p6 = p4 + k5 + k6;
                                        match spec_parse_lit(s.skip(p6), ",\"public\":"@) {
                                            None => None,
                                            Some(k7) => match spec_parse_bool(s.skip(p6 + k7)) {
                                                None => None,
                                                Some((public, k8)) => {
                                                    let p8 = p6 + k7 + k8;
                                                    match spec_parse_lit(s.skip(p8), seq!['}']) {
                                                        None => None,
                                                        Some(k9) => Some(
                                                            (
                                                                ArticleView {
                                                                    id,
                                                                    name,
                                                                    description,
                                                                    public,
                                                                },
                                                                p8 + k9,
                                                            ),
                                                        ),
                                                    }
                                                },
                                            },
                                        }
                                    },
                                },
                            }
                        },
                    },
                }
            },
        },
    }
}

pub open spec fn spec_parse_articles_rest(s: Seq<char>) -> Option<(Seq<ArticleView>, int)>
    decreases s.len(),
{
    match spec_parse_article(s) {
        None => None,
        Some((a, k)) => if 0 <= k && k < s.len() && s[k] == ',' {
            match spec_parse_articles_rest(s.skip(k + 1)) {
                None => None,
                Some((items, k2)) => Some((seq![a] + items, k + 1 + k2)),
            }
        } else if 0 <= k && k < s.len() && s[k] == ']' {
            Some((seq![a], k + 1))
        } else {
            None
        },
    }
}

pub open spec fn spec_parse_articles(s: Seq<char>) -> Option<(Seq<ArticleView>, int)> {
    if s.len() == 0 || s[0] != '[' {
        None
    } else if s.len() >= 2 && s[1] == ']' {
        Some((Seq::empty(), 2))
    } else {
        match spec_parse_articles_rest(s.skip(1)) {
            None => None,
            Some((items, k)) => Some((items, k + 1)),
        }
    }
}

pub open spec fn spec_parse_mode(s: Seq<char>) -> Option<(ListModeView, int)> {
    match spec_parse_lit(s, "\"ALL\""@) {
        Some(k) => Some((ListModeView::All, k)),
        None => match spec_parse_lit(s, "{\"One\":"@) {
            None => None,
            Some(k1) => match spec_parse_string(s.skip(k1)) {
                None => None,
                Some((t, k2)) => match spec_parse_lit(s.skip(k1 + k2), seq!['}']) {
                    None => None,
                    Some(k3) => Some((ListModeView::One(t), k1 + k2 + k3)),
                },
            },
        },
    }
}

pub open spec fn spec_parse_request(s: Seq<char>) -> Option<(ListRequestView, int)> {
    match spec_parse_lit(s, "{\"mode\":"@) {
        None => None,
        Some(k1) => match spec_parse_mode(s.skip(k1)) {
            None => None,
            Some((m, k2)) => match spec_parse_lit(s.skip(k1 + k2), seq!['}']) {
                None => None,
                Some(k3) => Some((ListRequestView { mode: m }, k1 + k2 + k3)),
            },
        },
    }
}

pub open spec fn spec_parse_response(s: Seq<char>) -> Option<(ListResponseView, int)> {
    match spec_parse_lit(s, "{\"mode\":"@) {
        None => None,
        Some(k1) => match spec_parse_mode(s.skip(k1)) {
            None => None,
            Some((m, k2)) => {
                let p2 = k1 + k2;
                match spec_parse_lit(s.skip(p2), ",\"data\":"@) {
                    None => None,
                    Some(k3) => match spec_parse_articles(s.skip(p2 + k3)) {
                        None => None,
                        Some((items, k4)) => {
                            let p4 = p2 + k3 + k4;
                            match spec_parse_lit(s.skip(p4), ",\"receiver\":"@) {
                                None => None,
                                Some(k5) => match spec_parse_string(s.skip(p4 + k5)) {
                                    None => None,
                                    Some((receiver, k6)) => {
                                        let p6 = p4 + k5 + k6;
                                        match spec_parse_lit(s.skip(p6), seq!['}']) {
                                            None => None,
                                            Some(k7) => Some(
                                                (
                                                    ListResponseView {
                                                        mode: m,
                                                        data: items,
                                                        receiver,
                                                    },
                                                    p6 + k7,
                                                ),
                                            ),
                                        }
                                    },
                                },
                            }
                        },
                    },
                }
            },
        },
    }
}

/// A payload denotes a message only when the whole payload is consumed.
pub open spec fn spec_decode_articles(s: Seq<char>) -> Option<Seq<ArticleView>> {
    match spec_parse_articles(s) {
        None => None,
        Some((items, k)) => if k == s.len() {
            Some(items)
        } else {
            None
        },
    }
}

pub open spec fn spec_decode_request(s: Seq<char>) -> Option<ListRequestView> {
    match spec_parse_request(s) {
        None => None,
        Some((q, k)) => if k == s.len() {
            Some(q)
        } else {
            None
        },
    }
}

pub open spec fn spec_decode_response(s: Seq<char>) -> Option<ListResponseView> {
    match spec_parse_response(s) {
        None => None,
        Some((r, k)) => if k == s.len() {
            Some(r)
        } else {
            None
        },
    }
}

/// Every id of the collection fits the machine word; true of every collection
/// an [`crate::article::Article`] value can denote.
pub open spec fn ids_bounded(s: Seq<ArticleView>) -> bool {
    forall|j: int| 0 <= j < s.len() ==> 0 <= (#[trigger] s[j]).id <= usize::MAX
}

// ---------------------------------------------------------------------------
// Round trips
// ---------------------------------------------------------------------------

#[verifier::rlimit(100)]
#[verifier::spinoff_prover]
pub proof fn lemma_parse_article_round_trip(a: ArticleView, rest: Seq<char>)
    requires
        0 <= a.id <= usize::MAX,
    ensures
        spec_parse_article(enc_article(a) + rest) == Some((a, enc_article(a).len() as int)),
{
    reveal_strlit("{\"id\":");
    reveal_strlit(",\"name\":");
    reveal_strlit(",\"description\":");
    reveal_strlit(",\"public\":");
    let s = enc_article(a) + rest;
    let e1 = "{\"id\":"@;
    let e2 = enc_nat(a.id);
    let e3 = ",\"name\":"@;
    let e4 = enc_string(a.name);
    let e5 = ",\"description\":"@;
    let e6 = enc_string(a.description);
    let e7 = ",\"public\":"@;
    let e8 = enc_bool(a.public);
    let r9 = seq!['}'] + rest;
    let r8 = e8 + r9;
    let r7 = e7 + r8;
    let r6 = e6 + r7;
    let r5 = e5 + r6;
    let r4 = e4 + r5;
    let r3 = e3 + r4;
    let r2 = e2 + r3;
    assert(s =~= e1 + r2);
    lemma_parse_lit_round_trip(e1, r2);
    let q1 = e1.len() as int;
    assert(s.skip(q1) =~= r2);
    assert(r3[0] == ',');
    assert(!is_digit(r3[0]));
    lemma_parse_nat_round_trip(a.id, r3);
    let q2 = q1 + e2.len();
    assert(s.skip(q2) =~= r3);
    lemma_parse_lit_round_trip(e3, r4);
    let q3 = q2 + e3.len();
    assert(s.skip(q3) =~= r4);
    lemma_parse_string_round_trip(a.name, r5);
    let q4 = q3 + e4.len();
    assert(s.skip(q4) =~= r5);
    lemma_parse_lit_round_trip(e5, r6);
    let q5 = q4 + e5.len();
    assert(s.skip(q5) =~= r6);
    lemma_parse_string_round_trip(a.description, r7);
    let q6 = q5 + e6.len();
    assert(s.skip(q6) =~= r7);
    lemma_parse_lit_round_trip(e7, r8);
    let q7 = q6 + e7.len();
    assert(s.skip(q7) =~= r8);
    lemma_parse_bool_round_trip(a.public, r9);
    let q8 = q7 + e8.len();
    assert(s.skip(q8) =~= r9);
    lemma_parse_lit_round_trip(seq!['}'], rest);
    assert(ArticleView { id: a.id, name: a.name, description: a.description, public: a.public }
        == a);
    assert(enc_article(a).len() == q8 + 1);
}

#[verifier::rlimit(100)]
#[verifier::spinoff_prover]
proof fn lemma_parse_articles_rest_round_trip(s: Seq<ArticleView>, rest: Seq<char>)
    requires
        s.len() >= 1,
        ids_bounded(s),
    ensures
        spec_parse_articles_rest(enc_articles_items(s) + (seq![']'] + rest)) == Some(
            (s, enc_articles_items(s).len() as int + 1),
        ),
    decreases s.len(),
{
    let input = enc_articles_items(s) + (seq![']'] + rest);
    let k = enc_article(s[0]).len() as int;
    if s.len() == 1 {
        lemma_parse_article_round_trip(s[0], seq![']'] + rest);
        assert(input =~= enc_article(s[0]) + (seq![']'] + rest));
        assert(input[k] == ']');
        assert(input[k] != ',');
        assert(seq![s[0]] =~= s);
    } else {
        let tail = enc_articles_items(s.skip(1));
        let after = seq![','] + (tail + (seq![']'] + rest));
        lemma_parse_article_round_trip(s[0], after);
        assert(input =~= enc_article(s[0]) + after);
        assert(input[k] == ',');
        assert(input.skip(k + 1) =~= tail + (seq![']'] + rest));
        assert forall|j: int| 0 <= j < s.skip(1).len() implies 0 <= (#[trigger] s.skip(1)[j]).id
            <= usize::MAX by {
            assert(s.skip(1)[j] == s[j + 1]);
        };
        lemma_parse_articles_rest_round_trip(s.skip(1), rest);
        assert(seq![s[0]] + s.skip(1) =~= s);
        assert(enc_articles_items(s).len() == k + 1 + tail.len());
    }
}

#[verifier::rlimit(100)]
#[verifier::spinoff_prover]
pub proof fn lemma_parse_articles_round_trip(s: Seq<ArticleView>, rest: Seq<char>)
    ensures
        ids_bounded(s) ==> spec_parse_articles(enc_articles(s) + rest) == Some(
            (s, enc_articles(s).len() as int),
        ),
{
    if ids_bounded(s) {
        let input = enc_articles(s) + rest;
        assert(input[0] == '[');
        if s.len() == 0 {
            assert(enc_articles_items(s) =~= Seq::<char>::empty());
            assert(input[1] == ']');
            assert(Seq::<ArticleView>::empty() =~= s);
        } else {
            reveal_strlit("{\"id\":");
            assert(enc_articles_items(s)[0] == enc_article(s[0])[0]);
            assert(enc_article(s[0])[0] == '{');
            assert(input[1] == '{');
            assert(input.skip(1) =~= enc_articles_items(s) + (seq![']'] + rest));
            lemma_parse_articles_rest_round_trip(s, rest);
        }
    }
}

pub proof fn lemma_parse_mode_round_trip(m: ListModeView, rest: Seq<char>)
    ensures
        spec_parse_mode(enc_mode(m) + rest) == Some((m, enc_mode(m).len() as int)),
{
    reveal_strlit("\"ALL\"");
    reveal_strlit("{\"One\":");
    let s = enc_mode(m) + rest;
    match m {
        ListModeView::All => {
            lemma_parse_lit_round_trip("\"ALL\""@, rest);
        },
        ListModeView::One(t) => {
            let e1 = "{\"One\":"@;
            let r2 = enc_string(t) + (seq!['}'] + rest);
            assert(s =~= e1 + r2);
            if spec_parse_lit(s, "\"ALL\""@) is Some {
                assert(s.take("\"ALL\""@.len() as int)[0] == s[0]);
                assert(false);
            }
            lemma_parse_lit_round_trip(e1, r2);
            let q1 = e1.len() as int;
            assert(s.skip(q1) =~= r2);
            lemma_parse_string_round_trip(t, seq!['}'] + rest);
            let q2 = q1 + enc_string(t).len();
            assert(s.skip(q2) =~= seq!['}'] + rest);
            lemma_parse_lit_round_trip(seq!['}'], rest);
        },
    }
}

pub proof fn lemma_parse_request_round_trip(q: ListRequestView, rest: Seq<char>)
    ensures
        spec_parse_request(enc_request(q) + rest) == Some((q, enc_request(q).len() as int)),
{
    reveal_strlit("{\"mode\":");
    let s = enc_request(q) + rest;
    let e1 = "{\"mode\":"@;
    let r2 = enc_mode(q.mode) + (seq!['}'] + rest);
    assert(s =~= e1 + r2);
    lemma_parse_lit_round_trip(e1, r2);
    let q1 = e1.len() as int;
    assert(s.skip(q1) =~= r2);
    lemma_parse_mode_round_trip(q.mode, seq!['}'] + rest);
    let q2 = q1 + enc_mode(q.mode).len();
    assert(s.skip(q2) =~= seq!['}'] + rest);
    lemma_parse_lit_round_trip(seq!['}'], rest);
    assert(ListRequestView { mode: q.mode } == q);
}

#[verifier::rlimit(100)]
#[verifier::spinoff_prover]
pub proof fn lemma_parse_response_round_trip(r: ListResponseView, rest: Seq<char>)
    ensures
        ids_bounded(r.data) ==> spec_parse_response(enc_response(r) + rest) == Some(
            (r, enc_response(r).len() as int),
        ),
{
    if ids_bounded(r.data) {
        reveal_strlit("{\"mode\":");
        reveal_strlit(",\"data\":");
        reveal_strlit(",\"receiver\":");
        let s = enc_response(r) + rest;
        let e1 = "{\"mode\":"@;
        let e2 = enc_mode(r.mode);
        let e3 = ",\"data\":"@;
        let e4 = enc_articles(r.data);
        let e5 = ",\"receiver\":"@;
        let e6 = enc_string(r.receiver);
        let r7 = seq!['}'] + rest;
        let r6 = e6 + r7;
        let r5 = e5 + r6;
        let r4 = e4 + r5;
        let r3 = e3 + r4;
        let r2 = e2 + r3;
        assert(s =~= e1 + r2);
        lemma_parse_lit_round_trip(e1, r2);
        let q1 = e1.len() as int;
        assert(s.skip(q1) =~= r2);
        lemma_parse_mode_round_trip(r.mode, r3);
        let q2 = q1 + e2.len();
        assert(s.skip(q2) =~= r3);
        lemma_parse_lit_round_trip(e3, r4);
        let q3 = q2 + e3.len();
        assert(s.skip(q3) =~= r4);
        lemma_parse_articles_round_trip(r.data, r5);
        let q4 = q3 + e4.len();
        assert(s.skip(q4) =~= r5);
        lemma_parse_lit_round_trip(e5, r6);
        let q5 = q4 + e5.len();
        assert(s.skip(q5) =~= r6);
        lemma_parse_string_round_trip(r.receiver, r7);
        let q6 = q5 + e6.len();
        assert(s.skip(q6) =~= r7);
        lemma_parse_lit_round_trip(seq!['}'], rest);
        assert(ListResponseView { mode: r.mode, data: r.data, receiver: r.receiver } == r);
    }
}

/// Decoding inverts encoding: a stored or transmitted collection comes back
/// field for field.
pub proof fn lemma_articles_round_trip(s: Seq<ArticleView>)
    requires
        ids_bounded(s),
    ensures
        spec_decode_articles(enc_articles(s)) == Some(s),
{
    lemma_parse_articles_round_trip(s, Seq::empty());
    assert(enc_articles(s) + Seq::<char>::empty() =~= enc_articles(s));
}

/// Decoding inverts encoding for requests.
pub proof fn lemma_request_round_trip(q: ListRequestView)
    ensures
        spec_decode_request(enc_request(q)) == Some(q),
{
    lemma_parse_request_round_trip(q, Seq::empty());
    assert(enc_request(q) + Seq::<char>::empty() =~= enc_request(q));
}

/// Decoding inverts encoding for responses.
pub proof fn lemma_response_round_trip(r: ListResponseView)
    requires
        ids_bounded(r.data),
    ensures
        spec_decode_response(enc_response(r)) == Some(r),
{
    lemma_parse_response_round_trip(r, Seq::empty());
    assert(enc_response(r) + Seq::<char>::empty() =~= enc_response(r));
}

// ---------------------------------------------------------------------------
// Executable encoders
// ---------------------------------------------------------------------------

#[verifier::rlimit(100)]
fn emit_article(out: &mut Vec<char>, a: &Article)
    ensures
        final(out)@ == old(out)@ + enc_article(a@),
{
    emit_lit(out, "{\"id\":");
    emit_nat(out, a.id);
    emit_lit(out, ",\"name\":");
    emit_string(out, a.name.as_str());
    emit_lit(out, ",\"description\":");
    emit_string(out, a.description.as_str());
    emit_lit(out, ",\"public\":");
    emit_bool(out, a.public);
    out.push('}');
    proof {
        assert(old(out)@ + enc_article(a@) =~= out@);
    }
}

fn emit_articles_items(out: &mut Vec<char>, arts: &Vec<Article>, i: usize)
    requires
        i < arts@.len(),
    ensures
        final(out)@ == old(out)@ + enc_articles_items(arts.deep_view().skip(i as int)),
    decreases arts@.len() - i,
{
    let n = arts.len();
    let ghost dv = arts.deep_view();
    proof {
        assert(dv.skip(i as int)[0] == arts@[i as int]@);
    }
    emit_article(out, &arts[i]);
    if i + 1 < n {
        out.push(',');
        emit_articles_items(out, arts, i + 1);
        proof {
            assert(dv.skip(i as int).skip(1) =~= dv.skip(i + 1));
            assert(out@ =~= old(out)@ + enc_articles_items(dv.skip(i as int)));
        }
    } else {
        proof {
            assert(dv.skip(i as int).len() == 1);
        }
    }
}

/// The storage image of a collection of articles.
pub fn encode_articles(arts: &Vec<Article>) -> (s: String)
    ensures
        s@ == enc_articles(arts.deep_view()),
{
    let mut out: Vec<char> = Vec::new();
    out.push('[');
    if arts.len() > 0 {
        emit_articles_items(&mut out, arts, 0);
        proof {
            assert(arts.deep_view().skip(0) =~= arts.deep_view());
        }
    } else {
        proof {
            assert(arts.deep_view().len() == 0);
        }
    }
    out.push(']');
    proof {
        assert(out@ =~= enc_articles(arts.deep_view()));
    }
    string_of(&out)
}

fn emit_mode(out: &mut Vec<char>, m: &ListMode)
    ensures
        final(out)@ == old(out)@ + enc_mode(m@),
{
    match m {
        ListMode::ALL => {
            emit_lit(out, "\"ALL\"");
        },
        ListMode::One(t) => {
            emit_lit(out, "{\"One\":");
            emit_string(out, t.as_str());
            out.push('}');
            proof {
                assert(old(out)@ + enc_mode(m@) =~= out@);
            }
        },
    }
}

/// The wire image of a request.
pub fn encode_request(q: &ListRequest) -> (s: String)
    ensures
        s@ == enc_request(q@),
{
    let mut out: Vec<char> = Vec::new();
    emit_lit(&mut out, "{\"mode\":");
    emit_mode(&mut out, &q.mode);
    out.push('}');
    proof {
        assert(out@ =~= enc_request(q@));
    }
    string_of(&out)
}

/// The wire image of a response.
#[verifier::rlimit(100)]
pub fn encode_response(r: &ListResponse) -> (s: String)
    ensures
        s@ == enc_response(r@),
{
    let mut out: Vec<char> = Vec::new();
    emit_lit(&mut out, "{\"mode\":");
    emit_mode(&mut out, &r.mode);
    emit_lit(&mut out, ",\"data\":");
    out.push('[');
    if r.data.len() > 0 {
        emit_articles_items(&mut out, &r.data, 0);
        proof {
            assert(r.data.deep_view().skip(0) =~= r.data.deep_view());
        }
    } else {
        proof {
            assert(r.data.deep_view().len() == 0);
        }
    }
    out.push(']');
    emit_lit(&mut out, ",\"receiver\":");
    emit_string(&mut out, r.receiver.as_str());
    out.push('}');
    proof {
        assert(out@ =~= enc_response(r@));
    }
    string_of(&out)
}

// ---------------------------------------------------------------------------
// Executable parsers
// ---------------------------------------------------------------------------

/// Matches the single character `c` at position `i`.
fn match_char(v: &Vec<char>, i: usize, c: char) -> (r: Option<usize>)
    requires
        i <= v@.len(),
    ensures
        r matches Some(j) ==> j == i + 1 && i < v@.len() && spec_parse_lit(
            v@.skip(i as int),
            seq![c],
        ) == Some(1int),
        r is None ==> spec_parse_lit(v@.skip(i as int), seq![c]) is None,
{
    if i < v.len() && v[i] == c {
        proof {
            assert(v@.skip(i as int).take(1) =~= seq![c]);
        }
        Some(i + 1)
    } else {
        proof {
            if i < v.len() {
                if spec_parse_lit(v@.skip(i as int), seq![c]) is Some {
                    assert(v@.skip(i as int).take(1)[0] == v@.skip(i as int)[0]);
                    assert(v@.skip(i as int)[0] == v@[i as int]);
                    assert(false);
                }
            }
        }
        None
    }
}

#[verifier::rlimit(100)]
fn parse_article_at(v: &Vec<char>, i: usize) -> (r: Option<(Article, usize)>)
    requires
        i <= v@.len(),
    ensures
        r matches Some((a, j)) ==> i <= j <= v@.len() && spec_parse_article(v@.skip(i as int))
            == Some((a@, j - i)),
        r is None ==> spec_parse_article(v@.skip(i as int)) is None,
{
    let ghost s = v@.skip(i as int);
    let j1 = match match_lit(v, i, "{\"id\":") {
        Some(j) => j,
        None => {
            return None;
        },
    };
    proof {
        assert(s.skip((j1 - i) as int) =~= v@.skip(j1 as int));
    }
    let p_id = parse_nat(v, j1);
    let (id, j2) = match p_id {
        Some(p) => p,
        None => {
            return None;
        },
    };
    proof {
        assert(s.skip((j2 - i) as int) =~= v@.skip(j2 as int));
    }
    let j3 = match match_lit(v, j2, ",\"name\":") {
        Some(j) => j,
        None => {
            return None;
        },
    };
    proof {
        assert(s.skip((j3 - i) as int) =~= v@.skip(j3 as int));
    }
    let p_name = parse_string(v, j3);
    let (name, j4) = match p_name {
        Some(p) => p,
        None => {
            return None;
        },
    };
    proof {
        assert(s.skip((j4 - i) as int) =~= v@.skip(j4 as int));
    }
    let j5 = match match_lit(v, j4, ",\"description\":") {
        Some(j) => j,
        None => {
            return None;
        },
    };
    proof {
        assert(s.skip((j5 - i) as int) =~= v@.skip(j5 as int));
    }
    let p_desc = parse_string(v, j5);
    let (description, j6) = match p_desc {
        Some(p) => p,
        None => {
            return None;
        },
    };
    proof {
        assert(s.skip((j6 - i) as int) =~= v@.skip(j6 as int));
    }
    let j7 = match match_lit(v, j6, ",\"public\":") {
        Some(j) => j,
        None => {
            return None;
        },
    };
    proof {
        assert(s.skip((j7 - i) as int) =~= v@.skip(j7 as int));
    }
    let p_pub = parse_bool(v, j7);
    let (public, j8) = match p_pub {
        Some(p) => p,
        None => {
            return None;
        },
    };
    proof {
        assert(s.skip((j8 - i) as int) =~= v@.skip(j8 as int));
    }
    let j9 = match match_char(v, j8, '}') {
        Some(j) => j,
        None => {
            return None;
        },
    };
    let a = Article { id, name, description, public };
    Some((a, j9))
}

fn parse_articles_rest_at(v: &Vec<char>, i: usize) -> (r: Option<(Vec<Article>, usize)>)
    requires
        i <= v@.len(),
    ensures
        r matches Some((arts, j)) ==> i <= j <= v@.len() && spec_parse_articles_rest(
            v@.skip(i as int),
        ) == Some((arts.deep_view(), j - i)),
        r is None ==> spec_parse_articles_rest(v@.skip(i as int)) is None,
    decreases v@.len() - i,
{
    let ghost s = v@.skip(i as int);
    let (a, j) = match parse_article_at(v, i) {
        Some(p) => p,
        None => {
            return None;
        },
    };
    proof {
        if j < v@.len() {
            assert(s[(j - i) as int] == v@[j as int]);
        }
    }
    if j < v.len() && v[j] == ',' {
        proof {
            assert(s.skip((j - i) as int + 1) =~= v@.skip(j + 1));
        }
        match parse_articles_rest_at(v, j + 1) {
            Some((mut arts, j2)) => {
                let ghost av = a@;
                let ghost dv0 = arts.deep_view();
                let ghost v0 = arts@;
                arts.insert(0, a);
                proof {
                    assert(arts@ =~= seq![a] + v0);
                    assert forall|t: int|
                        0 <= t < arts.deep_view().len() implies arts.deep_view()[t] == (seq![av]
                        + dv0)[t] by {
                        if t > 0 {
                            assert(arts@[t] == v0[t - 1]);
                            assert(dv0[t - 1] == v0[t - 1]@);
                        }
                    };
                    assert(arts.deep_view() =~= seq![av] + dv0);
                }
                Some((arts, j2))
            },
            None => None,
        }
    } else if j < v.len() && v[j] == ']' {
        let mut arts: Vec<Article> = Vec::new();
        let ghost av = a@;
        arts.push(a);
        proof {
            assert(arts.deep_view() =~= seq![av]);
        }
        Some((arts, j + 1))
    } else {
        None
    }
}

fn parse_articles_at(v: &Vec<char>, i: usize) -> (r: Option<(Vec<Article>, usize)>)
    requires
        i <= v@.len(),
    ensures
        r matches Some((arts, j)) ==> i <= j <= v@.len() && spec_parse_articles(v@.skip(i as int))
            == Some((arts.deep_view(), j - i)),
        r is None ==> spec_parse_articles(v@.skip(i as int)) is None,
{
    let ghost s = v@.skip(i as int);
    if i >= v.len() || v[i] != '[' {
        proof {
            if i < v.len() {
                assert(s[0] == v@[i as int]);
            }
        }
        return None;
    }
    proof {
        assert(s[0] == v@[i as int]);
    }
    if i + 1 < v.len() && v[i + 1] == ']' {
        proof {
            assert(s[1] == v@[i + 1]);
        }
        let arts: Vec<Article> = Vec::new();
        proof {
            assert(arts.deep_view() =~= Seq::<ArticleView>::empty());
        }
        return Some((arts, i + 2));
    }
    proof {
        if i + 1 < v.len() {
            assert(s[1] == v@[i + 1]);
        }
        assert(s.skip(1) =~= v@.skip(i + 1));
    }
    match parse_articles_rest_at(v, i + 1) {
        Some((arts, j)) => Some((arts, j)),
        None => None,
    }
}

fn parse_mode_at(v: &Vec<char>, i: usize) -> (r: Option<(ListMode, usize)>)
    requires
        i <= v@.len(),
    ensures
        r matches Some((m, j)) ==> i <= j <= v@.len() && spec_parse_mode(v@.skip(i as int))
            == Some((m@, j - i)),
        r is None ==> spec_parse_mode(v@.skip(i as int)) is None,
{
    let ghost s = v@.skip(i as int);
    if let Some(j) = match_lit(v, i, "\"ALL\"") {
        return Some((ListMode::ALL, j));
    }
    let j1 = match match_lit(v, i, "{\"One\":") {
        Some(j) => j,
        None => {
            return None;
        },
    };
    proof {
        assert(s.skip((j1 - i) as int) =~= v@.skip(j1 as int));
    }
    let p_t = parse_string(v, j1);
    let (t, j2) = match p_t {
        Some(p) => p,
        None => {
            return None;
        },
    };
    proof {
        assert(s.skip((j2 - i) as int) =~= v@.skip(j2 as int));
    }
    let j3 = match match_char(v, j2, '}') {
        Some(j) => j,
        None => {
            return None;
        },
    };
    Some((ListMode::One(t), j3))
}

fn parse_request_at(v: &Vec<char>, i: usize) -> (r: Option<(ListRequest, usize)>)
    requires
        i <= v@.len(),
    ensures
        r matches Some((q, j)) ==> i <= j <= v@.len() && spec_parse_request(v@.skip(i as int))
            == Some((q@, j - i)),
        r is None ==> spec_parse_request(v@.skip(i as int)) is None,
{
    let ghost s = v@.skip(i as int);
    let j1 = match match_lit(v, i, "{\"mode\":") {
        Some(j) => j,
        None => {
            return None;
        },
    };
    proof {
        assert(s.skip((j1 - i) as int) =~= v@.skip(j1 as int));
    }
    let p_m = parse_mode_at(v, j1);
    let (m, j2) = match p_m {
        Some(p) => p,
        None => {
            return None;
        },
    };
    proof {
        assert(s.skip((j2 - i) as int) =~= v@.skip(j2 as int));
    }
    let j3 = match match_char(v, j2, '}') {
        Some(j) => j,
        None => {
            return None;
        },
    };
    Some((ListRequest { mode: m }, j3))
}

#[verifier::rlimit(100)]
fn parse_response_at(v: &Vec<char>, i: usize) -> (r: Option<(ListResponse, usize)>)
    requires
        i <= v@.len(),
    ensures
        r matches Some((resp, j)) ==> i <= j <= v@.len() && spec_parse_response(v@.skip(i as int))
            == Some((resp@, j - i)),
        r is None ==> spec_parse_response(v@.skip(i as int)) is None,
{
    let ghost s = v@.skip(i as int);
    let j1 = match match_lit(v, i, "{\"mode\":") {
        Some(j) => j,
        None => {
            return None;
        },
    };
    proof {
        assert(s.skip((j1 - i) as int) =~= v@.skip(j1 as int));
    }
    let p_m = parse_mode_at(v, j1);
    let (m, j2) = match p_m {
        Some(p) => p,
        None => {
            return None;
        },
    };
    proof {
        assert(s.skip((j2 - i) as int) =~= v@.skip(j2 as int));
    }
    let j3 = match match_lit(v, j2, ",\"data\":") {
        Some(j) => j,
        None => {
            return None;
        },
    };
    proof {
        assert(s.skip((j3 - i) as int) =~= v@.skip(j3 as int));
    }
    let p_d = parse_articles_at(v, j3);
    let (data, j4) = match p_d {
        Some(p) => p,
        None => {
            return None;
        },
    };
    proof {
        assert(s.skip((j4 - i) as int) =~= v@.skip(j4 as int));
    }
    let j5 = match match_lit(v, j4, ",\"receiver\":") {
        Some(j) => j,
        None => {
            return None;
        },
    };
    proof {
        assert(s.skip((j5 - i) as int) =~= v@.skip(j5 as int));
    }
    let p_r = parse_string(v, j5);
    let (receiver, j6) = match p_r {
        Some(p) => p,
        None => {
            return None;
        },
    };
    proof {
        assert(s.skip((j6 - i) as int) =~= v@.skip(j6 as int));
    }
    let j7 = match match_char(v, j6, '}') {
        Some(j) => j,
        None => {
            return None;
        },
    };
    Some((ListResponse { mode: m, data, receiver }, j7))
}

// ---------------------------------------------------------------------------
// Whole-payload decoders
// ---------------------------------------------------------------------------

/// Reads a stored collection back; fails exactly on text that does not denote
/// one, in which case the store must be treated as corrupt.
pub fn decode_articles(s: &str) -> (r: Option<Vec<Article>>)
    ensures
        r matches Some(arts) ==> spec_decode_articles(s@) == Some(arts.deep_view()),
        r is None ==> spec_decode_articles(s@) is None,
{
    let v = chars_of(s);
    proof {
        assert(v@.skip(0) =~= s@);
    }
    match parse_articles_at(&v, 0) {
        Some((arts, j)) => {
            if j == v.len() {
                Some(arts)
            } else {
                None
            }
        },
        None => None,
    }
}

/// Reads a request from a wire payload, if the whole payload denotes one.
pub fn decode_request(s: &str) -> (r: Option<ListRequest>)
    ensures
        r matches Some(q) ==> spec_decode_request(s@) == Some(q@),
        r is None ==> spec_decode_request(s@) is None,
{
    let v = chars_of(s);
    proof {
        assert(v@.skip(0) =~= s@);
    }
    match parse_request_at(&v, 0) {
        Some((q, j)) => {
            if j == v.len() {
                Some(q)
            } else {
                None
            }
        },
        None => None,
    }
}

/// Reads a response from a wire payload, if the whole payload denotes one.
pub fn decode_response(s: &str) -> (r: Option<ListResponse>)
    ensures
        r matches Some(resp) ==> spec_decode_response(s@) == Some(resp@),
        r is None ==> spec_decode_response(s@) is None,
{
    let v = chars_of(s);
    proof {
        assert(v@.skip(0) =~= s@);
    }
    match parse_response_at(&v, 0) {
        Some((resp, j)) => {
            if j == v.len() {
                Some(resp)
            } else {
                None
            }
        },
        None => None,
    }
}

} // verus!
