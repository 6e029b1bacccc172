//! The helpers of the HTML pages: the `unescape` and `render_markdown`
//! filters of the templates and the page number of a list.

use vstd::prelude::*;
use crate::text::{chars_of, replace_all, replace_chars, string_of};
use pulldown_cmark::Options;

verus! {

/// The text with the escapes `\n`, `\r`, `\t` and `\\` resolved, in that
/// order, each replacement going left to right over the whole text.
pub open spec fn unescaped(s: Seq<char>) -> Seq<char> {
    let r1 = replace_all(s, seq!['\\', 'n'], seq!['\n']);
    let r2 = replace_all(r1, seq!['\\', 'r'], seq!['\r']);
    let r3 = replace_all(r2, seq!['\\', 't'], seq!['\t']);
    replace_all(r3, seq!['\\', '\\'], seq!['\\'])
}

/// The `unescape` filter of the templates.
pub fn unescape_filter(value: &str) -> (r: String)
    ensures
        r@ == unescaped(value@),
{
    let bs = '\\';
    let pn = vec![bs, 'n'];
    let pr = vec![bs, 'r'];
    let pt = vec![bs, 't'];
    let pb = vec![bs, bs];
    let rn = vec!['\n'];
    let rr = vec!['\r'];
    let rt = vec!['\t'];
    let rb = vec![bs];
    proof {
        assert(pn@ =~= seq!['\\', 'n']);
        assert(pr@ =~= seq!['\\', 'r']);
        assert(pt@ =~= seq!['\\', 't']);
        assert(pb@ =~= seq!['\\', '\\']);
        assert(rn@ =~= seq!['\n']);
        assert(rr@ =~= seq!['\r']);
        assert(rt@ =~= seq!['\t']);
        assert(rb@ =~= seq!['\\']);
    }
    let s0 = chars_of(value);
    let s1 = replace_chars(&s0, &pn, &rn);
    let s2 = replace_chars(&s1, &pr, &rr);
    let s3 = replace_chars(&s2, &pt, &rt);
    let s4 = replace_chars(&s3, &pb, &rb);
    string_of(&s4)
}

/// The number, from 1, of the page of a list that starts at `offset`, with
/// `limit` items a page.
pub fn page_number(offset: usize, limit: usize) -> (r: usize)
    requires
        limit > 0,
        offset / limit < usize::MAX,
    ensures
        r == offset / limit + 1,
{
    offset / limit + 1
}

/// The HTML that pulldown-cmark renders from a Markdown text, with the
/// strikethrough, table, footnote and task-list extensions each enabled or
/// not.
pub uninterp spec fn markdown_html(
    s: Seq<char>,
    strikethrough: bool,
    tables: bool,
    footnotes: bool,
    tasklists: bool,
) -> Seq<char>;

/// The HTML that `ammonia::clean` keeps of an HTML text.
pub uninterp spec fn sanitized_html(s: Seq<char>) -> Seq<char>;

/// `pulldown_cmark::Parser::new_ext` with the extensions that the flags
/// enable, read out by `pulldown_cmark::html::push_html` into an empty
/// string. The HTML is named, not stated.
#[verifier::external_body]
fn markdown_to_html(s: &str, strikethrough: bool, tables: bool, footnotes: bool, tasklists: bool) -> (r:
    String)
    ensures
        r@ == markdown_html(s@, strikethrough, tables, footnotes, tasklists),
{
    let mut options = Options::empty();
    options.set(Options::ENABLE_STRIKETHROUGH, strikethrough);
    options.set(Options::ENABLE_TABLES, tables);
    options.set(Options::ENABLE_FOOTNOTES, footnotes);
    options.set(Options::ENABLE_TASKLISTS, tasklists);
    let mut html = String::new();
    pulldown_cmark::html::push_html(&mut html, pulldown_cmark::Parser::new_ext(s, options));
    html
}

/// `ammonia::clean`: the HTML with what is not on ammonia's default list of
/// tags and attributes taken out.
#[verifier::external_body]
fn clean_html(s: &str) -> (r: String)
    ensures
        r@ == sanitized_html(s@),
{
    ammonia::clean(s)
}

/// The `render_markdown` filter: the Markdown rendered to HTML, with
/// strikethrough, tables, footnotes and task lists, and then sanitized.
pub fn render_markdown(value: String) -> (r: String)
    ensures
        r@ == sanitized_html(markdown_html(value@, true, true, true, true)),
{
    let html = markdown_to_html(value.as_str(), true, true, true, true);
    clean_html(html.as_str())
}

} // verus!
