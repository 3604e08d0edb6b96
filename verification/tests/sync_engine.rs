use rsst::cli::{get_bound, get_collection, sync};
use rsst::metadata::{Collection, Metadata};
use rsst::upstream::{Article, Source};
use rsst::util::Error;

fn article(checksum: &str) -> Article {
    Article {
        title: String::from("t"),
        link: String::new(),
        author: String::new(),
        date: String::new(),
        category: Vec::new(),
        content: String::new(),
        checksum: String::from(checksum),
    }
}

fn meta(title: &str, checksum: &str) -> Metadata {
    Metadata {
        title: String::from(title),
        checksum: String::from(checksum),
    }
}

#[test]
fn first_run_returns_all_entries() {
    let mut c = Collection::new();
    let source = Source {
        article: vec![article("x"), article("y")],
        metadata: meta("blog", "x"),
    };
    let new = sync(&mut c, String::from("blog"), source);
    assert_eq!(new.len(), 2);
    assert_eq!(new[0].checksum, "x");
    assert_eq!(new[1].checksum, "y");
    let stored = c.get("blog").unwrap();
    assert_eq!(stored.title, "blog");
    assert_eq!(stored.checksum, "x");
}

#[test]
fn steady_state_boundary_at_match() {
    let arts = vec![article("a"), article("b"), article("c"), article("d")];
    assert_eq!(get_bound(Some(meta("f", "c")), &arts), 2);
    assert_eq!(get_bound(Some(meta("f", "a")), &arts), 0);
    assert_eq!(get_bound(Some(meta("f", "d")), &arts), 3);
}

#[test]
fn boundary_picks_first_match() {
    let arts = vec![article("a"), article("b"), article("b")];
    assert_eq!(get_bound(Some(meta("f", "b")), &arts), 1);
}

#[test]
fn watermark_loss_returns_all() {
    let arts = vec![article("a"), article("b")];
    assert_eq!(get_bound(Some(meta("f", "zzz")), &arts), 2);
}

#[test]
fn no_previous_checkpoint_returns_all() {
    let arts = vec![article("a")];
    assert_eq!(get_bound(None, &arts), 1);
}

#[test]
fn bound_of_empty_feed_is_zero() {
    let arts: Vec<Article> = Vec::new();
    assert_eq!(get_bound(Some(meta("f", "x")), &arts), 0);
    assert_eq!(get_bound(None, &arts), 0);
}

#[test]
fn checkpoint_replaced_not_merged() {
    let mut c = Collection::new();
    let s1 = Source {
        article: vec![article("p")],
        metadata: meta("first title", "p"),
    };
    sync(&mut c, String::from("a"), s1);
    let s2 = Source {
        article: vec![article("q"), article("p")],
        metadata: meta("second title", "q"),
    };
    sync(&mut c, String::from("a"), s2);
    assert_eq!(c.len(), 1);
    let stored = c.get("a").unwrap();
    assert_eq!(stored, &meta("second title", "q"));
}

#[test]
fn end_to_end_two_runs() {
    let mut c = Collection::new();

    // First run: checkpoint for "blog" absent.
    let run1 = Source {
        article: vec![article("x"), article("y")],
        metadata: meta("blog", "x"),
    };
    let new1 = sync(&mut c, String::from("blog"), run1);
    assert_eq!(new1.len(), 2);
    assert_eq!(new1[0].checksum, "x");
    assert_eq!(new1[1].checksum, "y");
    assert_eq!(c.get("blog").unwrap().checksum, "x");

    // Second run: one entry is new, the old watermark is at index 1.
    let run2 = Source {
        article: vec![article("w"), article("x"), article("y")],
        metadata: meta("blog", "w"),
    };
    let new2 = sync(&mut c, String::from("blog"), run2);
    assert_eq!(new2.len(), 1);
    assert_eq!(new2[0].checksum, "w");
    assert_eq!(c.get("blog").unwrap().checksum, "w");
}

#[test]
fn recovered_collection_is_usable() {
    let mut c = get_collection(Err(Error::ParseFailed)).unwrap();
    assert_eq!(c.len(), 0);
    let source = Source {
        article: vec![article("x")],
        metadata: meta("blog", "x"),
    };
    let new = sync(&mut c, String::from("blog"), source);
    assert_eq!(new.len(), 1);
    assert_eq!(c.len(), 1);
}
