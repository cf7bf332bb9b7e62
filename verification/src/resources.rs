//! HTML fragments shared by the service's pages, built from the configured
//! video list and per-page content.

use vstd::prelude::*;
use vstd::string::StringExecFns;

verus! {

/// The items of `vs` laid end to end with `sep` between neighbours.
pub open spec fn joined(vs: Seq<Seq<char>>, sep: Seq<char>) -> Seq<char>
    decreases vs.len(),
{
    if vs.len() == 0 {
        Seq::empty()
    } else if vs.len() == 1 {
        vs[0]
    } else {
        vs[0] + sep + joined(vs.drop_first(), sep)
    }
}

/// Appending one more item extends the joined text by a separator (unless
/// the list was empty) and the item.
proof fn lemma_joined_push(vs: Seq<Seq<char>>, v: Seq<char>, sep: Seq<char>)
    ensures
        joined(vs.push(v), sep) == (if vs.len() == 0 {
            v
        } else {
            joined(vs, sep) + sep + v
        }),
    decreases vs.len(),
{
    let t = vs.push(v);
    if vs.len() == 0 {
        assert(t.len() == 1);
        assert(t[0] == v);
    } else {
        assert(t[0] == vs[0]);
        assert(t.drop_first() =~= vs.drop_first().push(v));
        lemma_joined_push(vs.drop_first(), v, sep);
        if vs.len() == 1 {
            assert(joined(t, sep) == vs[0] + sep + v);
        } else {
            assert(joined(t, sep) == vs[0] + sep + (joined(vs.drop_first(), sep) + sep + v));
            assert(vs[0] + sep + (joined(vs.drop_first(), sep) + sep + v) =~= (vs[0] + sep + joined(
                vs.drop_first(),
                sep,
            )) + sep + v);
        }
    }
}

/// The items of `vs` laid end to end with `sep` between neighbours.
pub fn join_with(items: &Vec<String>, sep: &str) -> (out: String)
    ensures
        out@ == joined(items.deep_view(), sep@),
{
    let ghost dv: Seq<Seq<char>> = items.deep_view();
    let mut out = String::new();
    let n = items.len();
    let mut i: usize = 0;
    while i < n
        invariant
            dv == items.deep_view(),
            n == items@.len(),
            n == dv.len(),
            i <= n,
            out@ == joined(dv.take(i as int), sep@),
        decreases n - i,
    {
        proof {
            assert(dv.take(i + 1) =~= dv.take(i as int).push(dv[i as int]));
            lemma_joined_push(dv.take(i as int), dv[i as int], sep@);
        }
        if i > 0 {
            out.append(sep);
        }
        out.append(items[i].as_str());
        proof {
            assert(dv[i as int] == items@[i as int]@);
            if i == 0 {
                assert(out@ =~= joined(dv.take(i + 1), sep@));
            }
        }
        i += 1;
    }
    proof {
        assert(dv.take(n as int) =~= dv);
    }
    out
}

/// The navigation strip at the top of every page, with `menu` in the middle.
pub open spec fn page_header_of(menu: Seq<char>) -> Seq<char> {
    "<div><a href='/'>Home</a> <span>"@ + menu
        + "</span> <a href='/dashboard'>Dashboard</a></div>"@
}

/// Builds the navigation strip at the top of every page.
pub fn page_header(menu: &str) -> (out: String)
    ensures
        out@ == page_header_of(menu@),
{
    let mut out = String::new();
    out.append("<div><a href='/'>Home</a> <span>");
    out.append(menu);
    out.append("</span> <a href='/dashboard'>Dashboard</a></div>");
    proof {
        assert(out@ =~= page_header_of(menu@));
    }
    out
}

/// A complete HTML document: the boilerplate head with the configured video
/// list spliced in, then the page-specific head content, title and body.
pub open spec fn html_document_of(
    videos: Seq<Seq<char>>,
    title: Seq<char>,
    head_extra: Seq<char>,
    body: Seq<char>,
) -> Seq<char> {
    "<!DOCTYPE html>\n<html>\n <head>\n  <meta charset='utf-8'/>\n  <meta http-equiv='X-UA-Compatible' content='IE=edge'/>\n  <meta name='viewport' content='height=device-height, width=device-width, initial-scale=1'/>\n  <link rel='shortcut icon' href='static/favicon.ico'/>\n  <script src='https://unpkg.com/jquery@3.5.1/dist/jquery.min.js'></script>\n  <script src='https://unpkg.com/moment@2.19.3/min/moment-with-locales.min.js'></script>\n  <link rel='stylesheet' href='static/main.css'/>\n  <script>const videos = [\""@
        + joined(videos, "\",\""@) + "\"];</script>\n  "@ + head_extra + "\n  <title>"@ + title
        + "</title>\n </head>\n <body>\n "@ + body + "\n </body>\n</html>"@
}

/// Generates a complete HTML document given the elements that change between
/// pages: the configured video list, the title tag's contents, extra head
/// content for page-specific styles and scripts, and the body tag's contents.
pub fn html_construct(videos: &Vec<String>, title: &str, head_extra: &str, body: &str) -> (out:
    String)
    ensures
        out@ == html_document_of(videos.deep_view(), title@, head_extra@, body@),
{
    let mut out = String::new();
    out.append(
        "<!DOCTYPE html>\n<html>\n <head>\n  <meta charset='utf-8'/>\n  <meta http-equiv='X-UA-Compatible' content='IE=edge'/>\n  <meta name='viewport' content='height=device-height, width=device-width, initial-scale=1'/>\n  <link rel='shortcut icon' href='static/favicon.ico'/>\n  <script src='https://unpkg.com/jquery@3.5.1/dist/jquery.min.js'></script>\n  <script src='https://unpkg.com/moment@2.19.3/min/moment-with-locales.min.js'></script>\n  <link rel='stylesheet' href='static/main.css'/>\n  <script>const videos = [\"",
    );
    let j = join_with(videos, "\",\"");
    out.append(j.as_str());
    out.append("\"];</script>\n  ");
    out.append(head_extra);
    out.append("\n  <title>");
    out.append(title);
    out.append("</title>\n </head>\n <body>\n ");
    out.append(body);
    out.append("\n </body>\n</html>");
    proof {
        assert(out@ =~= html_document_of(videos.deep_view(), title@, head_extra@, body@));
    }
    out
}

} // verus!
