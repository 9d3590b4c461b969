use vstd::prelude::*;
use crate::dense::{DenseVector, dense_of};
use crate::error::ParseError;
use crate::grammar::{ArticleBlockV, parse_line, spec_line};
use crate::token::copy_span;

verus! {

/// An article's identifier text and its dense features.
pub type ArticleContextV = (Seq<u8>, Seq<Seq<u8>>);

/// A visit: day, timestamp, displayed article, click flag, the user's
/// features, and the features of each article by identifier.
pub type VisitV = (Seq<char>, u32, Seq<u8>, u8, Seq<Seq<u8>>, Map<Seq<u8>, Seq<Seq<u8>>>);

/// The mapping that inserting each context in turn builds: a later context
/// overwrites an earlier one with the same identifier.
pub open spec fn entries_map(s: Seq<ArticleContextV>) -> Map<Seq<u8>, Seq<Seq<u8>>>
    decreases s.len(),
{
    if s.len() == 0 {
        Map::empty()
    } else {
        entries_map(s.drop_last()).insert(s.last().0, s.last().1)
    }
}

pub open spec fn unique_ids(s: Seq<ArticleContextV>) -> bool {
    forall|i: int, j: int| 0 <= i < j < s.len() ==> (#[trigger] s[i]).0 != (#[trigger] s[j]).0
}

/// A visit whose mapping also holds `c`, in place of any earlier entry for its id.
pub open spec fn with_article(v: VisitV, c: ArticleContextV) -> VisitV {
    (v.0, v.1, v.2, v.3, v.4, v.5.insert(c.0, c.1))
}

/// The article blocks of a line with their feature lists made dense.
pub open spec fn dense_blocks(bs: Seq<ArticleBlockV>) -> Seq<ArticleContextV> {
    bs.map_values(|b: ArticleBlockV| (b.0, dense_of(b.1)))
}

/// The visit that a line denotes, with the day it came from.
pub open spec fn spec_visit(day: Seq<char>, line: Seq<u8>) -> Result<VisitV, ParseError> {
    match spec_line(line) {
        Err(e) => Err(e),
        Ok(p) => Ok((day, p.0, p.1, p.2, dense_of(p.3), entries_map(dense_blocks(p.4)))),
    }
}

/// An article shown alongside a visit: identifier and dense features.
#[derive(Debug)]
pub struct ArticleContext {
    pub id: Vec<u8>,
    pub features: DenseVector,
}

impl View for ArticleContext {
    type V = ArticleContextV;

    open spec fn view(&self) -> ArticleContextV {
        (self.id@, self.features@)
    }
}

pub open spec fn contexts_view(v: Seq<ArticleContext>) -> Seq<ArticleContextV> {
    v.map_values(|c: ArticleContext| c@)
}

/// One parsed log line. `articles` holds each identifier once.
#[derive(Debug)]
pub struct Visit {
    pub day: String,
    pub timestamp: u32,
    pub displayed_article: Vec<u8>,
    pub user_clicked: u8,
    pub user: DenseVector,
    pub articles: Vec<ArticleContext>,
}

impl View for Visit {
    type V = VisitV;

    open spec fn view(&self) -> VisitV {
        (
            self.day@,
            self.timestamp,
            self.displayed_article@,
            self.user_clicked,
            self.user@,
            entries_map(contexts_view(self.articles@)),
        )
    }
}

impl Visit {
    pub open spec fn wf(&self) -> bool {
        unique_ids(contexts_view(self.articles@))
    }

    /// A visit with no articles yet.
    pub fn new(
        day: String,
        timestamp: u32,
        displayed_article: Vec<u8>,
        user_clicked: u8,
        user: DenseVector,
    ) -> (r: Visit)
        ensures
            r.wf(),
            r@ == (day@, timestamp, displayed_article@, user_clicked, user@, Map::<
                Seq<u8>,
                Seq<Seq<u8>>,
            >::empty()),
    {
        let r = Visit { day, timestamp, displayed_article, user_clicked, user, articles: Vec::new() };
        assert(contexts_view(r.articles@) =~= seq![]);
        r
    }

    /// Records an article's features, replacing any earlier ones of the same id.
    pub fn insert_article(&mut self, c: ArticleContext)
        requires
            old(self).wf(),
        ensures
            final(self).wf(),
            final(self)@ == with_article(old(self)@, c@),
    {
        let ghost s = contexts_view(self.articles@);
        let mut j: usize = 0;
        while j < self.articles.len()
            invariant
                j <= self.articles@.len(),
                *self == *old(self),
                unique_ids(s),
                s == contexts_view(self.articles@),
                forall|i: int| 0 <= i < j ==> (#[trigger] s[i]).0 != c.id@,
            decreases self.articles@.len() - j,
        {
            if bytes_equal(self.articles[j].id.as_slice(), c.id.as_slice()) {
                let ghost v = c@;
                self.articles.set(j, c);
                proof {
                    assert(contexts_view(self.articles@) =~= s.update(j as int, v));
                    lemma_update_unique(s, j as int, v);
                }
                return;
            }
            j = j + 1;
        }
        let ghost v = c@;
        self.articles.push(c);
        proof {
            assert(contexts_view(self.articles@) =~= s.push(v));
            assert(s.push(v).drop_last() =~= s);
        }
    }
}

/// Whether two byte strings are equal.
pub fn bytes_equal(a: &[u8], b: &[u8]) -> (r: bool)
    ensures
        r == (a@ == b@),
{
    if a.len() != b.len() {
        return false;
    }
    let mut i: usize = 0;
    while i < a.len()
        invariant
            a@.len() == b@.len(),
            i <= a@.len(),
            forall|k: int| 0 <= k < i ==> a@[k] == b@[k],
        decreases a@.len() - i,
    {
        if a[i] != b[i] {
            return false;
        }
        i = i + 1;
    }
    assert(a@ =~= b@);
    true
}

/// Replacing the value of an identifier that a list of distinct identifiers
/// already holds is inserting it into the mapping.
pub proof fn lemma_update_unique(s: Seq<ArticleContextV>, j: int, v: ArticleContextV)
    requires
        unique_ids(s),
        0 <= j < s.len(),
        s[j].0 == v.0,
    ensures
        unique_ids(s.update(j, v)),
        entries_map(s.update(j, v)) == entries_map(s).insert(v.0, v.1),
    decreases s.len(),
{
    let t = s.update(j, v);
    assert forall|a: int, b: int| 0 <= a < b < t.len() implies (#[trigger] t[a]).0 != (
    #[trigger] t[b]).0 by {
        assert(s[a].0 != s[b].0);
    }
    if j == s.len() - 1 {
        assert(t.drop_last() =~= s.drop_last());
        assert(entries_map(t) =~= entries_map(s).insert(v.0, v.1));
    } else {
        let s0 = s.drop_last();
        assert(t.drop_last() =~= s0.update(j, v));
        assert forall|a: int, b: int| 0 <= a < b < s0.len() implies (#[trigger] s0[a]).0 != (
        #[trigger] s0[b]).0 by {
            assert(s[a].0 != s[b].0);
        }
        lemma_update_unique(s0, j, v);
        assert(s[j].0 != s.last().0);
        assert(entries_map(t) =~= entries_map(s).insert(v.0, v.1));
    }
}

/// When an identifier occurs more than once among a line's articles, the
/// mapping holds the features of its last occurrence.
pub proof fn lemma_later_article_retained(s: Seq<ArticleContextV>, k: int)
    requires
        0 <= k < s.len(),
        forall|j: int| k < j < s.len() ==> (#[trigger] s[j]).0 != s[k].0,
    ensures
        entries_map(s).contains_key(s[k].0),
        entries_map(s)[s[k].0] == s[k].1,
    decreases s.len(),
{
    if k < s.len() - 1 {
        let s0 = s.drop_last();
        assert(s.last() == s[s.len() - 1]);
        assert forall|j: int| k < j < s0.len() implies (#[trigger] s0[j]).0 != s0[k].0 by {
            assert(s0[j] == s[j]);
        }
        lemma_later_article_retained(s0, k);
    }
}

/// In a line that names an article more than once, the visit maps that
/// identifier to the dense features of its last block.
pub proof fn lemma_line_keeps_last_article(day: Seq<char>, line: Seq<u8>, k: int)
    requires
        spec_line(line) is Ok,
        0 <= k < (spec_line(line)->Ok_0).4.len(),
        forall|j: int|
            k < j < (spec_line(line)->Ok_0).4.len() ==> (#[trigger] (spec_line(line)->Ok_0).4[j]).0
                != (spec_line(line)->Ok_0).4[k].0,
    ensures
        spec_visit(day, line) is Ok,
        (spec_visit(day, line)->Ok_0).5.contains_key((spec_line(line)->Ok_0).4[k].0),
        (spec_visit(day, line)->Ok_0).5[(spec_line(line)->Ok_0).4[k].0] == dense_of(
            (spec_line(line)->Ok_0).4[k].1,
        ),
{
    let bs = (spec_line(line)->Ok_0).4;
    let s = dense_blocks(bs);
    assert forall|j: int| k < j < s.len() implies (#[trigger] s[j]).0 != s[k].0 by {
        assert(bs[j].0 != bs[k].0);
    }
    lemma_later_article_retained(s, k);
}

/// Builds the visit record: each context goes into the mapping in order, a
/// later one replacing an earlier one with the same identifier.
pub fn assemble_visit(
    day: String,
    timestamp: u32,
    displayed_article: Vec<u8>,
    user_clicked: u8,
    user: DenseVector,
    contexts: Vec<ArticleContext>,
) -> (r: Visit)
    ensures
        r.wf(),
        r@ == (day@, timestamp, displayed_article@, user_clicked, user@, entries_map(
            contexts_view(contexts@),
        )),
{
    let ghost all = contexts_view(contexts@);
    let mut rest = contexts;
    let mut visit = Visit::new(day, timestamp, displayed_article, user_clicked, user);
    let ghost head = visit@;
    assert(all.take(0) =~= seq![]);
    assert(all.skip(0) =~= all);
    let total = rest.len();
    let mut taken: usize = 0;
    while rest.len() > 0
        invariant
            all.len() == total,
            taken <= all.len(),
            rest@.len() == all.len() - taken,
            contexts_view(rest@) == all.skip(taken as int),
            visit.wf(),
            visit@ == (head.0, head.1, head.2, head.3, head.4, entries_map(all.take(taken as int))),
        decreases rest@.len(),
    {
        let ghost before = rest@;
        let c = rest.remove(0);
        proof {
            assert(contexts_view(before)[0] == before[0]@);
            assert(all.skip(taken as int)[0] == all[taken as int]);
            assert(c@ == all[taken as int]);
            assert(rest@ =~= before.subrange(1, before.len() as int));
            assert forall|k: int| 0 <= k < rest@.len() implies (#[trigger] contexts_view(rest@)[k])
                == all.skip(taken + 1)[k] by {
                assert(rest@[k] == before[k + 1]);
                assert(contexts_view(before)[k + 1] == all.skip(taken as int)[k + 1]);
            }
            assert(contexts_view(rest@) =~= all.skip(taken + 1));
            assert(all.take(taken + 1).drop_last() =~= all.take(taken as int));
            assert(all.take(taken + 1).last() == all[taken as int]);
        }
        visit.insert_article(c);
        taken = taken + 1;
    }
    assert(all.take(taken as int) =~= all);
    visit
}

/// Parses one log line into the visit it records, with the day it came from.
pub fn parse_visit(day: String, line: &[u8]) -> (r: Result<Visit, ParseError>)
    ensures
        match r {
            Ok(v) => v.wf() && spec_visit(day@, line@) == Ok::<VisitV, ParseError>(v@),
            Err(e) => spec_visit(day@, line@) == Err::<VisitV, ParseError>(e),
        },
{
    let parts = match parse_line(line) {
        Ok(p) => p,
        Err(e) => return Err(e),
    };
    let user = DenseVector::from_sparse(&parts.user);
    let mut contexts: Vec<ArticleContext> = Vec::new();
    let ghost blocks = (parts@).4;
    let mut i: usize = 0;
    while i < parts.articles.len()
        invariant
            i <= parts.articles@.len(),
            blocks == (parts@).4,
            contexts_view(contexts@) =~= dense_blocks(blocks).take(i as int),
        decreases parts.articles@.len() - i,
    {
        let b = &parts.articles[i];
        let id = copy_span(b.id.as_slice(), 0, b.id.len());
        let features = DenseVector::from_sparse(&b.features);
        let c = ArticleContext { id, features };
        proof {
            assert(blocks[i as int] == b@);
            assert(b.id@.subrange(0, b.id@.len() as int) =~= b.id@);
            assert(c@ == dense_blocks(blocks)[i as int]);
            assert(dense_blocks(blocks).take(i + 1) =~= dense_blocks(blocks).take(i as int).push(c@));
        }
        let ghost before = contexts_view(contexts@);
        contexts.push(c);
        assert(contexts_view(contexts@) =~= before.push(c@));
        i = i + 1;
    }
    assert(dense_blocks(blocks).take(i as int) =~= dense_blocks(blocks));
    Ok(assemble_visit(day, parts.timestamp, parts.displayed_article, parts.user_clicked, user, contexts))
}

} // verus!
