use click_log::dense::DIMENSION;
use click_log::grammar::{parse_article, parse_indexed_value, parse_line, parse_list};
use click_log::token::{parse_decimal, parse_uint, scan_digits};
use click_log::visit::parse_visit;
use click_log::{Decimal, DenseVector, ErrorKind, IndexedValue, ParseError, Visit};

fn num(d: &Decimal) -> f64 {
    std::str::from_utf8(&d.text).unwrap().parse().unwrap()
}

fn nums(v: &DenseVector) -> Vec<f64> {
    v.values.iter().map(num).collect()
}

fn article<'a>(v: &'a Visit, id: &str) -> Option<&'a DenseVector> {
    v.articles.iter().find(|c| c.id == id.as_bytes()).map(|c| &c.features)
}

fn pair(index: u32, text: &str) -> IndexedValue {
    IndexedValue { index, value: Decimal { text: text.as_bytes().to_vec() } }
}

#[test]
fn scenario_a_full_line() {
    let v = parse_visit("13".to_string(), b"1000 12345 1 |user 1:0.5 3:1.2 |54321 2:0.9").unwrap();
    assert_eq!(v.day, "13");
    assert_eq!(v.timestamp, 1000);
    assert_eq!(v.displayed_article, b"12345".to_vec());
    assert_eq!(v.user_clicked, 1);
    assert_eq!(nums(&v.user), vec![0.5, 0.0, 1.2, 0.0, 0.0, 0.0]);
    assert_eq!(v.articles.len(), 1);
    assert_eq!(nums(article(&v, "54321").unwrap()), vec![0.0, 0.9, 0.0, 0.0, 0.0, 0.0]);
}

#[test]
fn scenario_b_out_of_range_index_in_article() {
    let v = parse_visit("1".to_string(), b"5 6 0 |user 1:1.0 |77 7:3.0 4:2.5").unwrap();
    assert_eq!(nums(article(&v, "77").unwrap()), vec![0.0, 0.0, 0.0, 2.5, 0.0, 0.0]);
}

#[test]
fn scenario_c_missing_user_marker() {
    let r = parse_visit("1".to_string(), b"1000 12345 1 1:0.5 3:1.2 |54321 2:0.9");
    assert_eq!(r.unwrap_err(), ParseError { kind: ErrorKind::MalformedLine, pos: 12 });
}

#[test]
fn scenario_d_no_article_blocks() {
    let v = parse_visit("2".to_string(), b"1000 12345 0 |user 1:0.5 3:1.2").unwrap();
    assert!(v.articles.is_empty());
    assert_eq!(nums(&v.user), vec![0.5, 0.0, 1.2, 0.0, 0.0, 0.0]);
    let v = parse_visit("2".to_string(), b"1000 12345 0 |user 1:0.5 3:1.2 ").unwrap();
    assert!(v.articles.is_empty());
}

#[test]
fn trailing_blanks_after_last_block() {
    let v = parse_visit("2".to_string(), b"1 2 0 |user 1:0.5 |3 1:1.0  \t\r").unwrap();
    assert_eq!(v.articles.len(), 1);
}

#[test]
fn trailing_garbage_is_rejected() {
    let r = parse_visit("2".to_string(), b"1 2 0 |user 1:0.5 |3 1:1.0 xyz");
    assert_eq!(r.unwrap_err(), ParseError { kind: ErrorKind::MalformedLine, pos: 26 });
}

#[test]
fn many_articles_and_duplicate_ids() {
    let v = parse_visit(
        "9".to_string(),
        b"42 7 1 |user 6:1.0 |10 1:1.0 |20 2:2.0 |10 3:3.0 5:5.5",
    )
    .unwrap();
    assert_eq!(v.articles.len(), 2);
    assert_eq!(nums(article(&v, "10").unwrap()), vec![0.0, 0.0, 3.0, 0.0, 5.5, 0.0]);
    assert_eq!(nums(article(&v, "20").unwrap()), vec![0.0, 2.0, 0.0, 0.0, 0.0, 0.0]);
    assert_eq!(nums(&v.user), vec![0.0, 0.0, 0.0, 0.0, 0.0, 1.0]);
}

#[test]
fn displayed_article_need_not_be_listed() {
    let v = parse_visit("9".to_string(), b"42 999 0 |user 1:1.0 |10 1:1.0").unwrap();
    assert!(article(&v, "999").is_none());
    assert_eq!(v.displayed_article, b"999".to_vec());
}

#[test]
fn large_article_ids_stay_text() {
    let v = parse_visit("9".to_string(), b"1 123456789012345678901234567890 0 |user 1:1.0 |98765432109876543210 2:0.1")
        .unwrap();
    assert_eq!(v.displayed_article, b"123456789012345678901234567890".to_vec());
    assert!(article(&v, "98765432109876543210").is_some());
}

#[test]
fn click_flag_overflow() {
    let r = parse_visit("1".to_string(), b"1 2 256 |user 1:1.0");
    assert_eq!(r.unwrap_err(), ParseError { kind: ErrorKind::MalformedNumber, pos: 4 });
    let v = parse_visit("1".to_string(), b"1 2 255 |user 1:1.0").unwrap();
    assert_eq!(v.user_clicked, 255);
}

#[test]
fn timestamp_limits() {
    let v = parse_visit("1".to_string(), b"4294967295 2 0 |user 1:1.0").unwrap();
    assert_eq!(v.timestamp, 4294967295);
    let r = parse_visit("1".to_string(), b"4294967296 2 0 |user 1:1.0");
    assert_eq!(r.unwrap_err(), ParseError { kind: ErrorKind::MalformedNumber, pos: 0 });
    let r = parse_visit("1".to_string(), b"");
    assert_eq!(r.unwrap_err(), ParseError { kind: ErrorKind::MalformedNumber, pos: 0 });
}

#[test]
fn missing_displayed_article() {
    let r = parse_visit("1".to_string(), b"1  0 |user 1:1.0");
    assert_eq!(r.unwrap_err(), ParseError { kind: ErrorKind::MalformedLine, pos: 2 });
    let r = parse_visit("1".to_string(), b"1");
    assert_eq!(r.unwrap_err(), ParseError { kind: ErrorKind::MalformedLine, pos: 1 });
}

#[test]
fn bad_pair_in_user_features() {
    let r = parse_visit("1".to_string(), b"1 2 0 |user 1:1.0 2-0.5");
    assert_eq!(r.unwrap_err(), ParseError { kind: ErrorKind::MalformedIndexedValue, pos: 19 });
    let r = parse_visit("1".to_string(), b"1 2 0 |user 1:1");
    assert_eq!(r.unwrap_err(), ParseError { kind: ErrorKind::MalformedIndexedValue, pos: 14 });
}

#[test]
fn bad_article_block() {
    let r = parse_visit("1".to_string(), b"1 2 0 |user 1:1.0 |x 1:1.0");
    assert_eq!(r.unwrap_err(), ParseError { kind: ErrorKind::MalformedArticleBlock, pos: 19 });
    let r = parse_visit("1".to_string(), b"1 2 0 |user 1:1.0 |12");
    assert_eq!(r.unwrap_err(), ParseError { kind: ErrorKind::MalformedArticleBlock, pos: 21 });
}

#[test]
fn uint_tokens() {
    assert_eq!(parse_uint(b"1234 ", 0, u32::MAX), Ok((1234, 4)));
    assert_eq!(parse_uint(b"x07", 1, 255), Ok((7, 3)));
    assert_eq!(
        parse_uint(b"abc", 0, 10),
        Err(ParseError { kind: ErrorKind::MalformedNumber, pos: 0 })
    );
    assert_eq!(
        parse_uint(b"11", 0, 10),
        Err(ParseError { kind: ErrorKind::MalformedNumber, pos: 0 })
    );
    assert_eq!(
        parse_uint(b"99999999999999999999", 0, u32::MAX),
        Err(ParseError { kind: ErrorKind::MalformedNumber, pos: 0 })
    );
    assert_eq!(scan_digits(b"12a", 0), 2);
}

#[test]
fn decimal_tokens() {
    let (d, e) = parse_decimal(b"12.75:", 0).unwrap();
    assert_eq!(d.text, b"12.75".to_vec());
    assert_eq!(num(&d), 12.75);
    assert_eq!(e, 5);
    for bad in [&b"12"[..], b"12.", b".5", b"", b"1,5"] {
        assert_eq!(
            parse_decimal(bad, 0).unwrap_err(),
            ParseError { kind: ErrorKind::MalformedNumber, pos: 0 }
        );
    }
}

#[test]
fn indexed_value_tokens() {
    let (x, e) = parse_indexed_value(b"3:0.25 ", 0).unwrap();
    assert_eq!(x.index, 3);
    assert_eq!(num(&x.value), 0.25);
    assert_eq!(e, 6);
    assert_eq!(
        parse_indexed_value(b"3;0.25", 0).unwrap_err(),
        ParseError { kind: ErrorKind::MalformedIndexedValue, pos: 1 }
    );
    assert_eq!(
        parse_indexed_value(b":0.25", 0).unwrap_err(),
        ParseError { kind: ErrorKind::MalformedIndexedValue, pos: 0 }
    );
}

#[test]
fn feature_lists() {
    let (v, e) = parse_list(b"1:1.0 2:2.0 |7", 0).unwrap();
    assert_eq!(v.len(), 2);
    assert_eq!(e, 11);
    let (v, e) = parse_list(b"|7", 0).unwrap();
    assert!(v.is_empty());
    assert_eq!(e, 0);
}

#[test]
fn article_blocks() {
    let (a, e) = parse_article(b"|99 1:1.0 6:0.5", 0).unwrap();
    assert_eq!(a.id, b"99".to_vec());
    assert_eq!(a.features.len(), 2);
    assert_eq!(e, 15);
    let (a, e) = parse_article(b"|99 ", 0).unwrap();
    assert!(a.features.is_empty());
    assert_eq!(e, 4);
    assert_eq!(
        parse_article(b"99 1:1.0", 0).unwrap_err(),
        ParseError { kind: ErrorKind::MalformedArticleBlock, pos: 0 }
    );
}

#[test]
fn line_parts_keep_sparse_lists() {
    let p = parse_line(b"1000 12345 1 |user 1:0.5 3:1.2 |54321 2:0.9 9:1.0").unwrap();
    assert_eq!(p.user.len(), 2);
    assert_eq!(p.articles.len(), 1);
    assert_eq!(p.articles[0].features.len(), 2);
}

#[test]
fn dense_absent_indices_are_zero() {
    let d = DenseVector::from_sparse(&vec![pair(2, "1.5"), pair(5, "0.25")]);
    assert_eq!(d.values.len(), DIMENSION);
    assert_eq!(nums(&d), vec![0.0, 1.5, 0.0, 0.0, 0.25, 0.0]);
    let d = DenseVector::from_sparse(&vec![]);
    assert_eq!(nums(&d), vec![0.0; 6]);
}

#[test]
fn dense_out_of_range_dropped() {
    let d = DenseVector::from_sparse(&vec![pair(0, "9.0"), pair(1, "1.0"), pair(7, "3.0"), pair(4000000000, "2.0")]);
    assert_eq!(d.values.len(), 6);
    assert_eq!(nums(&d), vec![1.0, 0.0, 0.0, 0.0, 0.0, 0.0]);
}

#[test]
fn dense_last_duplicate_wins() {
    let d = DenseVector::from_sparse(&vec![pair(3, "1.0"), pair(6, "6.0"), pair(3, "2.0")]);
    assert_eq!(nums(&d), vec![0.0, 0.0, 2.0, 0.0, 0.0, 6.0]);
}

#[test]
fn zero_decimal_text() {
    assert_eq!(Decimal::zero().text, b"0.0".to_vec());
    assert_eq!(Decimal { text: b"1.25".to_vec() }.copy().text, b"1.25".to_vec());
}

#[test]
fn index_zero_in_line_dropped() {
    let v = parse_visit("4".to_string(), b"1 2 0 |user 0:9.5 2:1.0").unwrap();
    assert_eq!(nums(&v.user), vec![0.0, 1.0, 0.0, 0.0, 0.0, 0.0]);
}

#[test]
fn empty_user_features() {
    let v = parse_visit("4".to_string(), b"1 2 0 |user  |5 1:1.0").unwrap();
    assert_eq!(nums(&v.user), vec![0.0; 6]);
    assert_eq!(v.articles.len(), 1);
    let r = parse_visit("4".to_string(), b"1 2 0 |user |5 1:1.0");
    assert_eq!(r.unwrap_err(), ParseError { kind: ErrorKind::MalformedLine, pos: 12 });
}

#[test]
fn user_duplicate_index_last_wins() {
    let v = parse_visit("4".to_string(), b"1 2 1 |user 2:1.0 2:7.25 6:0.5").unwrap();
    assert_eq!(nums(&v.user), vec![0.0, 7.25, 0.0, 0.0, 0.0, 0.5]);
}
