use rsst::metadata::Metadata;
use rsst::upstream::{fingerprint, Article, RawChannel, RawItem, Source};

fn empty_item() -> RawItem {
    RawItem {
        title: None,
        link: None,
        source_url: None,
        author: None,
        pub_date: None,
        description: None,
        content: None,
        categories: Vec::new(),
    }
}

fn full_item() -> RawItem {
    RawItem {
        title: Some(String::from("a title")),
        link: Some(String::from("http://item-link")),
        source_url: Some(String::from("http://source-url")),
        author: Some(String::from("au")),
        pub_date: Some(String::from("2020-01-01")),
        description: Some(String::from("desc")),
        content: Some(String::from("<p>rich</p>")),
        categories: vec![String::from("c1"), String::from("c2")],
    }
}

#[test]
fn article_fields_normalized() {
    let a = Article::new(&full_item());
    assert_eq!(a.title, "a title");
    assert_eq!(a.link, "http://source-url");
    assert_eq!(a.author, "au");
    assert_eq!(a.date, "2020-01-01");
    assert_eq!(a.category, vec![String::from("c1"), String::from("c2")]);
    assert_eq!(a.content, "<p>rich</p>");
    // md5 of "2020-01-01"
    assert_eq!(a.checksum, "282024851e84a72d853099b1172e80ac");
}

#[test]
fn article_defaults_when_sparse() {
    let a = Article::new(&empty_item());
    assert_eq!(a.title, "");
    assert_eq!(a.link, "");
    assert_eq!(a.author, "");
    assert_eq!(a.date, "");
    assert_eq!(a.category, Vec::<String>::new());
    assert_eq!(a.content, "");
    // md5 of ""
    assert_eq!(a.checksum, "d41d8cd98f00b204e9800998ecf8427e");
}

#[test]
fn designated_field_fallback_order() {
    // No date: the title is fingerprinted.
    let mut x = full_item();
    x.pub_date = None;
    assert_eq!(Article::new(&x).checksum, "ec96ebbf50206107799d38a53543f494"); // md5("a title")

    // An empty date counts as missing for articles.
    let mut x = full_item();
    x.pub_date = Some(String::new());
    assert_eq!(Article::new(&x).checksum, "ec96ebbf50206107799d38a53543f494");

    // No date, empty title: the description is fingerprinted.
    let mut x = full_item();
    x.pub_date = None;
    x.title = Some(String::new());
    assert_eq!(Article::new(&x).checksum, "1dee80c7d5ab2c1c90aa8d2f7dd47256"); // md5("desc")

    // No date, no title either.
    let mut x = full_item();
    x.pub_date = None;
    x.title = None;
    assert_eq!(Article::new(&x).checksum, "1dee80c7d5ab2c1c90aa8d2f7dd47256");
}

#[test]
fn content_falls_back_to_description() {
    let mut x = full_item();
    x.content = None;
    assert_eq!(Article::new(&x).content, "desc");
    x.description = None;
    assert_eq!(Article::new(&x).content, "");
}

#[test]
fn link_falls_back_to_item_link() {
    let mut x = full_item();
    x.source_url = None;
    assert_eq!(Article::new(&x).link, "http://item-link");
    x.link = None;
    assert_eq!(Article::new(&x).link, "");
}

#[test]
fn fingerprint_is_idempotent() {
    let s = "Tue, 05 May 2020 00:00:00 GMT";
    let f1 = fingerprint(s);
    let f2 = fingerprint(s);
    assert_eq!(f1, f2);
    assert_eq!(f1, "3a153847a7dc159bdaf23f29ed364902");
    let a1 = Article::new(&full_item());
    let a2 = Article::new(&full_item());
    assert_eq!(a1.checksum, a2.checksum);
}

#[test]
fn channel_summary_prefers_first_item_date() {
    let ch = RawChannel {
        title: String::from("my feed"),
        items: vec![full_item(), empty_item()],
    };
    let m = Metadata::new(&ch);
    assert_eq!(m.title, "my feed");
    assert_eq!(m.checksum, "282024851e84a72d853099b1172e80ac"); // md5("2020-01-01")
}

#[test]
fn channel_summary_fallbacks() {
    // No items: the channel's own title is fingerprinted.
    let ch = RawChannel {
        title: String::from("a title"),
        items: Vec::new(),
    };
    assert_eq!(Metadata::new(&ch).checksum, "ec96ebbf50206107799d38a53543f494");

    // First item without a date: its title.
    let mut item = full_item();
    item.pub_date = None;
    let ch = RawChannel {
        title: String::from("my feed"),
        items: vec![item],
    };
    assert_eq!(Metadata::new(&ch).checksum, "ec96ebbf50206107799d38a53543f494");

    // Neither date nor title: its description.
    let mut item = full_item();
    item.pub_date = None;
    item.title = None;
    let ch = RawChannel {
        title: String::from("my feed"),
        items: vec![item],
    };
    assert_eq!(Metadata::new(&ch).checksum, "1dee80c7d5ab2c1c90aa8d2f7dd47256");

    // A fully bare first item: the channel's own title.
    let ch = RawChannel {
        title: String::from("a title"),
        items: vec![empty_item()],
    };
    assert_eq!(Metadata::new(&ch).checksum, "ec96ebbf50206107799d38a53543f494");

    // For the summary an empty date still counts as supplied.
    let mut item = full_item();
    item.pub_date = Some(String::new());
    let ch = RawChannel {
        title: String::from("my feed"),
        items: vec![item],
    };
    assert_eq!(Metadata::new(&ch).checksum, "d41d8cd98f00b204e9800998ecf8427e"); // md5("")
}

#[test]
fn source_preserves_entry_order() {
    let mut i1 = empty_item();
    i1.pub_date = Some(String::from("x"));
    let mut i2 = empty_item();
    i2.pub_date = Some(String::from("y"));
    let ch = RawChannel {
        title: String::from("feed"),
        items: vec![i1, i2],
    };
    let s = Source::new(&ch);
    assert_eq!(s.article.len(), 2);
    assert_eq!(s.article[0].checksum, "9dd4e461268c8034f5c8564e155c67a6"); // md5("x")
    assert_eq!(s.article[1].checksum, "415290769594460e2e485922904f345d"); // md5("y")
    assert_eq!(s.metadata.title, "feed");
    assert_eq!(s.metadata.checksum, "9dd4e461268c8034f5c8564e155c67a6");
}
