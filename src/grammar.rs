use vstd::prelude::*;
use crate::error::{ErrorKind, ParseError, err_at};
use crate::token::{
    Decimal, digit_run, is_digit, is_digit_byte, parse_decimal, parse_uint, remaining, scan_digits,
    spec_decimal, spec_uint, copy_span,
};

verus! {

/// An `index:value` feature pair: the index and the decimal text.
pub type IndexedValueV = (u32, Seq<u8>);

/// An article block: its identifier text and its sparse features.
pub type ArticleBlockV = (Seq<u8>, Seq<IndexedValueV>);

/// A line's fields: timestamp, displayed article, click flag, the user's
/// sparse features and the article blocks in the order they appear.
pub type LinePartsV = (u32, Seq<u8>, u8, Seq<IndexedValueV>, Seq<ArticleBlockV>);

pub open spec fn is_blank(b: u8) -> bool {
    b == 32 || b == 9 || b == 13
}

/// Nothing but blanks from `q` to the end.
pub open spec fn blank_from(s: Seq<u8>, q: int) -> bool {
    forall|i: int| q <= i < s.len() ==> is_blank(#[trigger] s[i])
}

/// The literal that opens the user's features: ` |user `.
pub open spec fn user_marker() -> Seq<u8> {
    seq![32u8, 124u8, 117u8, 115u8, 101u8, 114u8, 32u8]
}

/// An `index:value` pair at `p`: the pair and its length.
pub open spec fn spec_indexed_value(s: Seq<u8>, p: int) -> Result<(IndexedValueV, nat), ParseError> {
    match spec_uint(s, p, u32::MAX as int) {
        Err(e) => Err(err_at(ErrorKind::MalformedIndexedValue, e.pos as int)),
        Ok((i, n)) => {
            let c = p + n;
            if !(c < s.len() && s[c] == 58) {
                Err(err_at(ErrorKind::MalformedIndexedValue, c))
            } else {
                match spec_decimal(s, c + 1) {
                    Err(e) => Err(err_at(ErrorKind::MalformedIndexedValue, e.pos as int)),
                    Ok((v, m)) => Ok(((i as u32, v), n + 1 + m)),
                }
            }
        },
    }
}

/// The rest of a feature list after the pairs `acc`, at `q`: each further pair
/// follows a single space. Gives all the pairs and the offset where the list ends.
pub open spec fn spec_more(s: Seq<u8>, q: int, acc: Seq<IndexedValueV>) -> Result<
    (Seq<IndexedValueV>, int),
    ParseError,
>
    decreases remaining(s, q),
{
    if 0 <= q && q + 1 < s.len() && s[q] == 32 && is_digit(s[q + 1]) {
        match spec_indexed_value(s, q + 1) {
            Err(e) => Err(e),
            Ok((x, n)) => spec_more(s, q + 1 + n, acc.push(x)),
        }
    } else {
        Ok((acc, q))
    }
}

/// A feature list at `p`, possibly empty: its pairs and the offset where it ends.
pub open spec fn spec_list(s: Seq<u8>, p: int) -> Result<(Seq<IndexedValueV>, int), ParseError> {
    if 0 <= p < s.len() && is_digit(s[p]) {
        match spec_indexed_value(s, p) {
            Err(e) => Err(e),
            Ok((x, n)) => spec_more(s, p + n, seq![x]),
        }
    } else {
        Ok((seq![], p))
    }
}

/// An article block `|<digits> <features>` at `p`: the block and its length.
pub open spec fn spec_article(s: Seq<u8>, p: int) -> Result<(ArticleBlockV, nat), ParseError> {
    let n = digit_run(s, p + 1);
    let c = p + 1 + n;
    if !(0 <= p < s.len() && s[p] == 124) {
        Err(err_at(ErrorKind::MalformedArticleBlock, p))
    } else if n == 0 {
        Err(err_at(ErrorKind::MalformedArticleBlock, p + 1))
    } else if !(c < s.len() && s[c] == 32) {
        Err(err_at(ErrorKind::MalformedArticleBlock, c))
    } else {
        match spec_list(s, c + 1) {
            Err(e) => Err(e),
            Ok((items, end)) => Ok(((s.subrange(p + 1, c), items), (end - p) as nat)),
        }
    }
}

/// The article blocks from `q` to the end of the line, after the blocks `acc`:
/// each block follows a single space, and only blanks may come after the last.
pub open spec fn spec_blocks(s: Seq<u8>, q: int, acc: Seq<ArticleBlockV>) -> Result<
    Seq<ArticleBlockV>,
    ParseError,
>
    decreases remaining(s, q),
{
    if 0 <= q && q + 1 < s.len() && s[q] == 32 && s[q + 1] == 124 {
        match spec_article(s, q + 1) {
            Err(e) => Err(e),
            Ok((a, n)) => spec_blocks(s, q + 1 + n, acc.push(a)),
        }
    } else if blank_from(s, q) {
        Ok(acc)
    } else {
        Err(err_at(ErrorKind::MalformedLine, q))
    }
}

/// A whole line:
/// `<timestamp> <displayed article> <click flag> |user <features> <article block>*`.
pub open spec fn spec_line(s: Seq<u8>) -> Result<LinePartsV, ParseError> {
    match spec_uint(s, 0, u32::MAX as int) {
        Err(e) => Err(e),
        Ok((ts, n1)) => {
            let p1 = n1 as int;
            let n2 = digit_run(s, p1 + 1);
            let p2 = p1 + 1 + n2;
            if !(p1 < s.len() && s[p1] == 32) {
                Err(err_at(ErrorKind::MalformedLine, p1))
            } else if n2 == 0 {
                Err(err_at(ErrorKind::MalformedLine, p1 + 1))
            } else if !(p2 < s.len() && s[p2] == 32) {
                Err(err_at(ErrorKind::MalformedLine, p2))
            } else {
                match spec_uint(s, p2 + 1, 255) {
                    Err(e) => Err(e),
                    Ok((flag, n3)) => {
                        let p3 = p2 + 1 + n3;
                        if !(p3 + 7 <= s.len() && s.subrange(p3, p3 + 7) == user_marker()) {
                            Err(err_at(ErrorKind::MalformedLine, p3))
                        } else {
                            match spec_list(s, p3 + 7) {
                                Err(e) => Err(e),
                                Ok((user, p4)) => match spec_blocks(s, p4, seq![]) {
                                    Err(e) => Err(e),
                                    Ok(arts) => Ok(
                                        (ts as u32, s.subrange(p1 + 1, p2), flag as u8, user, arts),
                                    ),
                                },
                            }
                        }
                    },
                }
            }
        },
    }
}

/// One sparse feature: a 1-based index and its value.
#[derive(Debug)]
pub struct IndexedValue {
    pub index: u32,
    pub value: Decimal,
}

impl View for IndexedValue {
    type V = IndexedValueV;

    open spec fn view(&self) -> IndexedValueV {
        (self.index, self.value@)
    }
}

pub open spec fn ivs_view(v: Seq<IndexedValue>) -> Seq<IndexedValueV> {
    v.map_values(|x: IndexedValue| x@)
}

/// An article block as it stands in the line: identifier and sparse features.
#[derive(Debug)]
pub struct ArticleBlock {
    pub id: Vec<u8>,
    pub features: Vec<IndexedValue>,
}

impl View for ArticleBlock {
    type V = ArticleBlockV;

    open spec fn view(&self) -> ArticleBlockV {
        (self.id@, ivs_view(self.features@))
    }
}

pub open spec fn blocks_view(v: Seq<ArticleBlock>) -> Seq<ArticleBlockV> {
    v.map_values(|x: ArticleBlock| x@)
}

/// The fields of one line, before the feature lists are made dense.
#[derive(Debug)]
pub struct LineParts {
    pub timestamp: u32,
    pub displayed_article: Vec<u8>,
    pub user_clicked: u8,
    pub user: Vec<IndexedValue>,
    pub articles: Vec<ArticleBlock>,
}

impl View for LineParts {
    type V = LinePartsV;

    open spec fn view(&self) -> LinePartsV {
        (
            self.timestamp,
            self.displayed_article@,
            self.user_clicked,
            ivs_view(self.user@),
            blocks_view(self.articles@),
        )
    }
}

/// Reads an `index:value` pair at `p`; returns it with the offset just past it.
pub fn parse_indexed_value(s: &[u8], p: usize) -> (r: Result<(IndexedValue, usize), ParseError>)
    requires
        p <= s@.len(),
    ensures
        match r {
            Ok((x, e)) => p < e <= s@.len() && spec_indexed_value(s@, p as int) == Ok::<
                (IndexedValueV, nat),
                ParseError,
            >((x@, (e - p) as nat)),
            Err(err) => spec_indexed_value(s@, p as int) == Err::<(IndexedValueV, nat), ParseError>(
                err,
            ),
        },
{
    let (index, c) = match parse_uint(s, p, u32::MAX) {
        Ok(t) => t,
        Err(e) => return Err(ParseError { kind: ErrorKind::MalformedIndexedValue, pos: e.pos }),
    };
    if c >= s.len() || s[c] != 58 {
        return Err(ParseError { kind: ErrorKind::MalformedIndexedValue, pos: c });
    }
    match parse_decimal(s, c + 1) {
        Ok((value, e)) => Ok((IndexedValue { index, value }, e)),
        Err(e) => Err(ParseError { kind: ErrorKind::MalformedIndexedValue, pos: e.pos }),
    }
}

/// Reads a feature list at `p`: pairs separated by single spaces, possibly
/// none. Returns the pairs with the offset where the list ends.
pub fn parse_list(s: &[u8], p: usize) -> (r: Result<(Vec<IndexedValue>, usize), ParseError>)
    requires
        p <= s@.len(),
    ensures
        match r {
            Ok((v, e)) => p <= e <= s@.len() && spec_list(s@, p as int) == Ok::<
                (Seq<IndexedValueV>, int),
                ParseError,
            >((ivs_view(v@), e as int)),
            Err(err) => spec_list(s@, p as int) == Err::<(Seq<IndexedValueV>, int), ParseError>(err),
        },
{
    let mut items: Vec<IndexedValue> = Vec::new();
    if p >= s.len() || !is_digit_byte(s[p]) {
        assert(ivs_view(items@) =~= seq![]);
        return Ok((items, p));
    }
    let (first, mut q) = match parse_indexed_value(s, p) {
        Ok(t) => t,
        Err(e) => return Err(e),
    };
    items.push(first);
    assert(ivs_view(items@) =~= seq![first@]);
    while s.len() - q > 1 && s[q] == 32 && is_digit_byte(s[q + 1])
        invariant
            p < q <= s@.len(),
            spec_list(s@, p as int) == spec_more(s@, q as int, ivs_view(items@)),
        decreases s@.len() - q,
    {
        let (x, e) = match parse_indexed_value(s, q + 1) {
            Ok(t) => t,
            Err(e) => return Err(e),
        };
        let ghost before = ivs_view(items@);
        items.push(x);
        assert(ivs_view(items@) =~= before.push(x@));
        q = e;
    }
    Ok((items, q))
}

/// Reads an article block at `p`; returns it with the offset just past it.
pub fn parse_article(s: &[u8], p: usize) -> (r: Result<(ArticleBlock, usize), ParseError>)
    requires
        p <= s@.len(),
    ensures
        match r {
            Ok((a, e)) => p < e <= s@.len() && spec_article(s@, p as int) == Ok::<
                (ArticleBlockV, nat),
                ParseError,
            >((a@, (e - p) as nat)),
            Err(err) => spec_article(s@, p as int) == Err::<(ArticleBlockV, nat), ParseError>(err),
        },
{
    if p >= s.len() || s[p] != 124 {
        return Err(ParseError { kind: ErrorKind::MalformedArticleBlock, pos: p });
    }
    let c = scan_digits(s, p + 1);
    if c == p + 1 {
        return Err(ParseError { kind: ErrorKind::MalformedArticleBlock, pos: p + 1 });
    }
    if c >= s.len() || s[c] != 32 {
        return Err(ParseError { kind: ErrorKind::MalformedArticleBlock, pos: c });
    }
    let id = copy_span(s, p + 1, c);
    match parse_list(s, c + 1) {
        Ok((features, e)) => Ok((ArticleBlock { id, features }, e)),
        Err(e) => Err(e),
    }
}

/// Whether only blanks stand from `q` to the end.
pub fn is_blank_from(s: &[u8], q: usize) -> (r: bool)
    ensures
        r == blank_from(s@, q as int),
{
    let mut i: usize = q;
    while i < s.len()
        invariant
            q <= i,
            forall|j: int| q <= j < i ==> is_blank(#[trigger] s@[j]),
        decreases s@.len() - i,
    {
        if !(s[i] == 32 || s[i] == 9 || s[i] == 13) {
            return false;
        }
        i = i + 1;
    }
    true
}

/// Reads the article blocks from `q` to the end of the line.
pub fn parse_blocks(s: &[u8], q: usize) -> (r: Result<Vec<ArticleBlock>, ParseError>)
    requires
        q <= s@.len(),
    ensures
        match r {
            Ok(v) => spec_blocks(s@, q as int, seq![]) == Ok::<Seq<ArticleBlockV>, ParseError>(
                blocks_view(v@),
            ),
            Err(err) => spec_blocks(s@, q as int, seq![]) == Err::<Seq<ArticleBlockV>, ParseError>(
                err,
            ),
        },
{
    let mut blocks: Vec<ArticleBlock> = Vec::new();
    let mut k: usize = q;
    assert(blocks_view(blocks@) =~= seq![]);
    loop
        invariant
            q <= k <= s@.len(),
            spec_blocks(s@, q as int, seq![]) == spec_blocks(s@, k as int, blocks_view(blocks@)),
        decreases s@.len() - k,
    {
        if s.len() - k > 1 && s[k] == 32 && s[k + 1] == 124 {
            let (a, e) = match parse_article(s, k + 1) {
                Ok(t) => t,
                Err(e) => return Err(e),
            };
            let ghost before = blocks_view(blocks@);
            blocks.push(a);
            assert(blocks_view(blocks@) =~= before.push(a@));
            k = e;
        } else if is_blank_from(s, k) {
            return Ok(blocks);
        } else {
            return Err(ParseError { kind: ErrorKind::MalformedLine, pos: k });
        }
    }
}

/// Whether ` |user ` stands at `p`.
pub fn has_user_marker(s: &[u8], p: usize) -> (r: bool)
    requires
        p <= s@.len(),
    ensures
        r == (p + 7 <= s@.len() && s@.subrange(p as int, p + 7) == user_marker()),
{
    if s.len() - p < 7 {
        return false;
    }
    let m: Vec<u8> = vec![32u8, 124u8, 117u8, 115u8, 101u8, 114u8, 32u8];
    assert(m@ =~= user_marker());
    let n = s.len();
    let mut j: usize = 0;
    while j < 7
        invariant
            n == s@.len(),
            p + 7 <= s@.len(),
            m@ == user_marker(),
            j <= 7,
            forall|i: int| 0 <= i < j ==> s@[p + i] == m@[i],
        decreases 7 - j,
    {
        if s[p + j] != m[j] {
            assert(s@.subrange(p as int, p + 7)[j as int] != user_marker()[j as int]);
            return false;
        }
        j = j + 1;
    }
    assert(s@.subrange(p as int, p + 7) =~= user_marker());
    true
}

/// Reads one whole line into its fields; fails with the rule that rejected it.
pub fn parse_line(s: &[u8]) -> (r: Result<LineParts, ParseError>)
    ensures
        match r {
            Ok(parts) => spec_line(s@) == Ok::<LinePartsV, ParseError>(parts@),
            Err(err) => spec_line(s@) == Err::<LinePartsV, ParseError>(err),
        },
{
    let (timestamp, p1) = match parse_uint(s, 0, u32::MAX) {
        Ok(t) => t,
        Err(e) => return Err(e),
    };
    if p1 >= s.len() || s[p1] != 32 {
        return Err(ParseError { kind: ErrorKind::MalformedLine, pos: p1 });
    }
    let p2 = scan_digits(s, p1 + 1);
    if p2 == p1 + 1 {
        return Err(ParseError { kind: ErrorKind::MalformedLine, pos: p1 + 1 });
    }
    if p2 >= s.len() || s[p2] != 32 {
        return Err(ParseError { kind: ErrorKind::MalformedLine, pos: p2 });
    }
    let (flag, p3) = match parse_uint(s, p2 + 1, 255) {
        Ok(t) => t,
        Err(e) => return Err(e),
    };
    if !has_user_marker(s, p3) {
        return Err(ParseError { kind: ErrorKind::MalformedLine, pos: p3 });
    }
    let (user, p4) = match parse_list(s, p3 + 7) {
        Ok(t) => t,
        Err(e) => return Err(e),
    };
    let articles = match parse_blocks(s, p4) {
        Ok(v) => v,
        Err(e) => return Err(e),
    };
    let displayed_article = copy_span(s, p1 + 1, p2);
    Ok(LineParts { timestamp, displayed_article, user_clicked: flag as u8, user, articles })
}

} // verus!
