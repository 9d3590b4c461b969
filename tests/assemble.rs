use click_log::visit::{assemble_visit, bytes_equal};
use click_log::{ArticleContext, Decimal, DenseVector, Visit};

fn vector(first: &str) -> DenseVector {
    let mut values = vec![Decimal::zero()];
    values[0] = Decimal { text: first.as_bytes().to_vec() };
    while values.len() < 6 {
        values.push(Decimal::zero());
    }
    DenseVector { values }
}

fn context(id: &str, first: &str) -> ArticleContext {
    ArticleContext { id: id.as_bytes().to_vec(), features: vector(first) }
}

#[test]
fn later_duplicate_article_retained() {
    let v = assemble_visit(
        "3".to_string(),
        7,
        b"1".to_vec(),
        0,
        vector("0.0"),
        vec![context("1", "1.0"), context("2", "2.0"), context("1", "3.0")],
    );
    assert_eq!(v.articles.len(), 2);
    let one = v.articles.iter().find(|c| c.id == b"1").unwrap();
    assert_eq!(one.features.values[0].text, b"3.0".to_vec());
    let two = v.articles.iter().find(|c| c.id == b"2").unwrap();
    assert_eq!(two.features.values[0].text, b"2.0".to_vec());
    assert_eq!(v.day, "3");
    assert_eq!(v.timestamp, 7);
}

#[test]
fn insert_article_replaces_same_id() {
    let mut v = Visit::new("d".to_string(), 1, b"5".to_vec(), 1, vector("0.0"));
    assert!(v.articles.is_empty());
    v.insert_article(context("5", "1.0"));
    v.insert_article(context("6", "2.0"));
    v.insert_article(context("5", "4.0"));
    assert_eq!(v.articles.len(), 2);
    let five = v.articles.iter().find(|c| c.id == b"5").unwrap();
    assert_eq!(five.features.values[0].text, b"4.0".to_vec());
}

#[test]
fn byte_equality() {
    assert!(bytes_equal(b"123", b"123"));
    assert!(!bytes_equal(b"123", b"124"));
    assert!(!bytes_equal(b"12", b"123"));
    assert!(bytes_equal(b"", b""));
}
