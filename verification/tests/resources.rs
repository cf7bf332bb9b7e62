use metric_videos::resources::{html_construct, join_with, page_header};

// html_construct
#[test]
fn gen_page() {
    let videos: Vec<String> = Vec::new();
    let html = html_construct(
        &videos,
        "Not Found",
        "",
        "<h1>Not Found</h1><a href='/'>Return to Home</a>",
    );
    assert_eq!(&html[..15], "<!DOCTYPE html>");
}

#[test]
fn join_with_three_items() {
    let items = vec![String::from("a"), String::from("b"), String::from("c")];
    assert_eq!(join_with(&items, "\",\""), "a\",\"b\",\"c");
}

#[test]
fn join_with_one_item() {
    let items = vec![String::from("solo")];
    assert_eq!(join_with(&items, ","), "solo");
}

#[test]
fn join_with_nothing() {
    let items: Vec<String> = Vec::new();
    assert_eq!(join_with(&items, ","), "");
}

#[test]
fn page_header_exact() {
    assert_eq!(
        page_header("menu"),
        "<div><a href='/'>Home</a> <span>menu</span> <a href='/dashboard'>Dashboard</a></div>"
    );
}

#[test]
fn html_construct_exact() {
    let videos = vec![String::from("v1.mp4"), String::from("v2.mp4")];
    let html = html_construct(&videos, "Home", "<script src='x.js'></script>", "<p>hi</p>");
    let expected = format!(
        "<!DOCTYPE html>\n<html>\n <head>\n  <meta charset='utf-8'/>\n  <meta http-equiv='X-UA-Compatible' content='IE=edge'/>\n  <meta name='viewport' content='height=device-height, width=device-width, initial-scale=1'/>\n  <link rel='shortcut icon' href='static/favicon.ico'/>\n  <script src='https://unpkg.com/jquery@3.5.1/dist/jquery.min.js'></script>\n  <script src='https://unpkg.com/moment@2.19.3/min/moment-with-locales.min.js'></script>\n  <link rel='stylesheet' href='static/main.css'/>\n  <script>const videos = [\"{}\"];</script>\n  {}\n  <title>{}</title>\n </head>\n <body>\n {}\n </body>\n</html>",
        "v1.mp4\",\"v2.mp4",
        "<script src='x.js'></script>",
        "Home",
        "<p>hi</p>"
    );
    assert_eq!(html, expected);
}
