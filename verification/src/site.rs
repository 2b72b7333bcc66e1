use vstd::prelude::*;

use crate::date::{day_format, utc_strftime};
use crate::frontmatter::starts_with;
use crate::index::Index;
use crate::models::{posts_view, Category, PostView};
use crate::text::{chars_of, push_char, same_text, string_of};

verus! {

/// The XML escape of one character: `&`, `<` and `>` become entities.
pub open spec fn escape_char(c: char) -> Seq<char> {
    if c == '&' {
        seq!['&', 'a', 'm', 'p', ';']
    } else if c == '<' {
        seq!['&', 'l', 't', ';']
    } else if c == '>' {
        seq!['&', 'g', 't', ';']
    } else {
        seq![c]
    }
}

/// `s` with `&`, `<` and `>` replaced by their XML entities.
pub open spec fn xml_escaped(s: Seq<char>) -> Seq<char>
    decreases s.len(),
{
    if s.len() == 0 {
        Seq::empty()
    } else {
        xml_escaped(s.drop_last()) + escape_char(s.last())
    }
}

/// Escapes `&`, `<` and `>` for XML text.
pub fn xml_escape(s: &str) -> (escaped: String)
    ensures
        escaped@ == xml_escaped(s@),
{
    let chars = chars_of(s);
    let mut out: Vec<char> = Vec::new();
    let mut i: usize = 0;
    while i < chars.len()
        invariant
            i <= chars.len(),
            out@ == xml_escaped(chars@.take(i as int)),
        decreases chars.len() - i,
    {
        let c = chars[i];
        let ghost before = out@;
        if c == '&' {
            out.push('&');
            out.push('a');
            out.push('m');
            out.push('p');
            out.push(';');
        } else if c == '<' {
            out.push('&');
            out.push('l');
            out.push('t');
            out.push(';');
        } else if c == '>' {
            out.push('&');
            out.push('g');
            out.push('t');
            out.push(';');
        } else {
            out.push(c);
        }
        assert(chars@.take(i + 1).drop_last() =~= chars@.take(i as int));
        assert(out@ =~= before + escape_char(c));
        i += 1;
    }
    assert(chars@.take(chars.len() as int) =~= chars@);
    string_of(&out)
}

/// Escaped text holds no `<` or `>`, so it cannot open or close markup.
pub proof fn lemma_xml_escaped_has_no_brackets(s: Seq<char>)
    ensures
        forall|i: int| 0 <= i < xml_escaped(s).len() ==> #[trigger] xml_escaped(s)[i] != '<' && xml_escaped(s)[i] != '>',
    decreases s.len(),
{
    if s.len() > 0 {
        lemma_xml_escaped_has_no_brackets(s.drop_last());
        let a = xml_escaped(s.drop_last());
        let b = escape_char(s.last());
        assert forall|i: int| 0 <= i < xml_escaped(s).len() implies #[trigger] xml_escaped(s)[i] != '<' && xml_escaped(s)[i] != '>' by {
            if i < a.len() {
                assert(xml_escaped(s)[i] == a[i]);
            } else {
                assert(xml_escaped(s)[i] == b[i - a.len()]);
            }
        }
    }
}

proof fn lemma_xml_escaped_front(c: char, s: Seq<char>)
    ensures
        xml_escaped(seq![c] + s) == escape_char(c) + xml_escaped(s),
    decreases s.len(),
{
    if s.len() > 0 {
        lemma_xml_escaped_front(c, s.drop_last());
        assert((seq![c] + s).drop_last() =~= seq![c] + s.drop_last());
        assert((seq![c] + s).last() == s.last());
        assert(escape_char(c) + xml_escaped(s.drop_last()) + escape_char(s.last()) =~= escape_char(c) + (
        xml_escaped(s.drop_last()) + escape_char(s.last())));
    } else {
        assert(seq![c] + s =~= seq![c]);
        assert(seq![c].drop_last() =~= Seq::<char>::empty());
        assert(seq![c].last() == c);
        assert(xml_escaped(seq![c].drop_last()) =~= Seq::<char>::empty());
        assert(xml_escaped(seq![c]) == xml_escaped(seq![c].drop_last()) + escape_char(c));
        assert(xml_escaped(seq![c]) =~= escape_char(c));
        assert(xml_escaped(s) =~= Seq::<char>::empty());
        assert(escape_char(c) + xml_escaped(s) =~= escape_char(c));
    }
}

/// `s` with each occurrence of a non-empty `pat` replaced by `rep`, found
/// from the left without overlaps, as `str::replace` does.
pub open spec fn replaced(s: Seq<char>, pat: Seq<char>, rep: Seq<char>) -> Seq<char>
    decreases s.len(),
{
    if s.len() == 0 || pat.len() == 0 {
        s
    } else if s.len() >= pat.len() && s.take(pat.len() as int) == pat {
        rep + replaced(s.skip(pat.len() as int), pat, rep)
    } else {
        seq![s[0]] + replaced(s.skip(1), pat, rep)
    }
}

/// The character whose entity the `k`-th replacement of the unescaping
/// chain turns back: `<`, then `>`, then `&`.
spec fn unescape_target(k: int) -> char {
    if k == 0 {
        '<'
    } else if k == 1 {
        '>'
    } else {
        '&'
    }
}

/// How `c` stands after the first `k` replacements of the unescaping chain.
spec fn partly_unescaped_char(c: char, k: int) -> Seq<char> {
    if (k >= 1 && c == '<') || (k >= 2 && c == '>') || k >= 3 {
        seq![c]
    } else {
        escape_char(c)
    }
}

/// How `s` stands after the first `k` replacements of the unescaping chain.
spec fn partly_unescaped(s: Seq<char>, k: int) -> Seq<char>
    decreases s.len(),
{
    if s.len() == 0 {
        Seq::empty()
    } else {
        partly_unescaped_char(s[0], k) + partly_unescaped(s.drop_first(), k)
    }
}

/// Text none of whose characters starts `pat` is passed over by `replaced`.
proof fn lemma_replaced_passes_over(p: Seq<char>, t: Seq<char>, pat: Seq<char>, rep: Seq<char>)
    requires
        pat.len() > 0,
        forall|i: int| 0 <= i < p.len() ==> #[trigger] p[i] != pat[0],
    ensures
        replaced(p + t, pat, rep) == p + replaced(t, pat, rep),
    decreases p.len(),
{
    if p.len() > 0 {
        let s = p + t;
        if s.len() >= pat.len() {
            assert(s.take(pat.len() as int)[0] != pat[0]);
        }
        assert forall|i: int| 0 <= i < p.skip(1).len() implies #[trigger] p.skip(1)[i] != pat[0] by {
            assert(p.skip(1)[i] == p[i + 1]);
        }
        lemma_replaced_passes_over(p.skip(1), t, pat, rep);
        assert(s.skip(1) =~= p.skip(1) + t);
        assert(seq![p[0]] + (p.skip(1) + replaced(t, pat, rep)) =~= p + replaced(t, pat, rep));
    } else {
        assert(p + t =~= t);
    }
}

/// The `k`-th replacement turns one character's partly unescaped form into
/// its form one step further, whatever follows it.
proof fn lemma_unescape_step_char(c: char, t: Seq<char>, k: int)
    requires
        0 <= k < 3,
    ensures
        replaced(
            partly_unescaped_char(c, k) + t,
            escape_char(unescape_target(k)),
            seq![unescape_target(k)],
        ) == partly_unescaped_char(c, k + 1) + replaced(
            t,
            escape_char(unescape_target(k)),
            seq![unescape_target(k)],
        ),
{
    let pat = escape_char(unescape_target(k));
    let rep = seq![unescape_target(k)];
    let u = partly_unescaped_char(c, k);
    let s = u + t;
    if c == unescape_target(k) {
        assert(u == pat);
        assert(s.take(pat.len() as int) =~= pat);
        assert(s.skip(pat.len() as int) =~= t);
    } else if u.len() == 1 {
        assert(u[0] == c);
        assert(c != '&');
        lemma_replaced_passes_over(u, t, pat, rep);
    } else {
        assert(u[0] == '&' && u[1] != pat[1]);
        if s.len() >= pat.len() {
            assert(s.take(pat.len() as int)[1] != pat[1]);
        }
        let v = u.skip(1);
        assert forall|i: int| 0 <= i < v.len() implies #[trigger] v[i] != pat[0] by {
            assert(v[i] == u[i + 1]);
        }
        lemma_replaced_passes_over(v, t, pat, rep);
        assert(s.skip(1) =~= v + t);
        assert(seq![u[0]] + (v + replaced(t, pat, rep)) =~= u + replaced(t, pat, rep));
    }
}

/// The `k`-th replacement takes the whole text one step further.
proof fn lemma_unescape_step(s: Seq<char>, k: int)
    requires
        0 <= k < 3,
    ensures
        replaced(partly_unescaped(s, k), escape_char(unescape_target(k)), seq![unescape_target(k)])
            == partly_unescaped(s, k + 1),
    decreases s.len(),
{
    if s.len() > 0 {
        lemma_unescape_step(s.drop_first(), k);
        lemma_unescape_step_char(s[0], partly_unescaped(s.drop_first(), k), k);
    } else {
        assert(partly_unescaped(s, k) =~= Seq::<char>::empty());
    }
}

/// Before any replacement the text is the escaped text; after all three it
/// is the unescaped text itself.
proof fn lemma_unescape_ends(s: Seq<char>)
    ensures
        partly_unescaped(s, 0) == xml_escaped(s),
        partly_unescaped(s, 3) == s,
    decreases s.len(),
{
    if s.len() > 0 {
        lemma_unescape_ends(s.drop_first());
        lemma_xml_escaped_front(s[0], s.drop_first());
        assert(seq![s[0]] + s.drop_first() =~= s);
    } else {
        assert(xml_escaped(s) =~= Seq::<char>::empty());
        assert(s =~= Seq::<char>::empty());
    }
}

/// Unescaping undoes escaping: replacing `&lt;` by `<`, then `&gt;` by `>`,
/// then `&amp;` by `&` in the output of `xml_escape` gives back its input.
pub proof fn lemma_xml_escape_undone_by_replacing(s: Seq<char>)
    ensures
        replaced(
            replaced(replaced(xml_escaped(s), seq!['&', 'l', 't', ';'], seq!['<']), seq!['&', 'g', 't', ';'], seq!['>']),
            seq!['&', 'a', 'm', 'p', ';'],
            seq!['&'],
        ) == s,
{
    lemma_unescape_ends(s);
    lemma_unescape_step(s, 0);
    lemma_unescape_step(s, 1);
    lemma_unescape_step(s, 2);
    assert(escape_char(unescape_target(0)) =~= seq!['&', 'l', 't', ';']);
    assert(escape_char(unescape_target(1)) =~= seq!['&', 'g', 't', ';']);
    assert(escape_char(unescape_target(2)) =~= seq!['&', 'a', 'm', 'p', ';']);
}

/// Text without `&`, `<` or `>` comes through `xml_escape` unchanged.
pub proof fn lemma_xml_escape_plain_text(s: Seq<char>)
    requires
        forall|i: int| 0 <= i < s.len() ==> #[trigger] s[i] != '&' && s[i] != '<' && s[i] != '>',
    ensures
        xml_escaped(s) == s,
    decreases s.len(),
{
    if s.len() > 0 {
        let t = s.drop_last();
        assert forall|i: int| 0 <= i < t.len() implies #[trigger] t[i] != '&' && t[i] != '<' && t[i] != '>' by {
            assert(t[i] == s[i]);
        }
        lemma_xml_escape_plain_text(t);
        assert(s.last() == s[s.len() - 1]);
        assert(t.push(s.last()) =~= s);
    } else {
        assert(s =~= Seq::<char>::empty());
    }
}

/// The first line of a sitemap, through the opening `urlset` tag.
pub open spec fn sitemap_head() -> Seq<char> {
    "<?xml version=\"1.0\" encoding=\"UTF-8\"?>\n<urlset xmlns=\"http://www.sitemaps.org/schemas/sitemap/0.9\">\n"@
}

/// The sitemap entry of the home page.
pub open spec fn home_entry(site: Seq<char>) -> Seq<char> {
    "  <url><loc>"@ + site + "/</loc></url>\n"@
}

/// The sitemap entry of a category page.
pub open spec fn category_entry(site: Seq<char>, slug: Seq<char>) -> Seq<char> {
    "  <url><loc>"@ + site + "/"@ + xml_escaped(slug) + "</loc></url>\n"@
}

/// The sitemap entry of a post page, with its last-modified day.
pub open spec fn post_entry(site: Seq<char>, p: PostView) -> Seq<char> {
    "  <url><loc>"@ + site + "/posts/"@ + xml_escaped(p.slug) + "</loc><lastmod>"@ + utc_strftime(
        p.date.0,
        p.date.1,
        day_format(),
    ) + "</lastmod></url>\n"@
}

/// The entries of the given categories, in order.
pub open spec fn category_entries(site: Seq<char>, cats: Seq<Category>) -> Seq<char>
    decreases cats.len(),
{
    if cats.len() == 0 {
        Seq::empty()
    } else {
        category_entries(site, cats.drop_last()) + category_entry(site, cats.last().slug@)
    }
}

/// The entries of the given posts, in order.
pub open spec fn post_entries(site: Seq<char>, ps: Seq<PostView>) -> Seq<char>
    decreases ps.len(),
{
    if ps.len() == 0 {
        Seq::empty()
    } else {
        post_entries(site, ps.drop_last()) + post_entry(site, ps.last())
    }
}

/// The XML sitemap: home, every category, every published post.
pub open spec fn sitemap(site: Seq<char>, cats: Seq<Category>, ps: Seq<PostView>) -> Seq<char> {
    sitemap_head() + home_entry(site) + category_entries(site, cats) + post_entries(site, ps) + "</urlset>\n"@
}

/// XML sitemap covering home, every category, and every published post of
/// `index`, with absolute URLs under `site_url`.
pub fn sitemap_xml(site_url: &str, index: &Index) -> (xml: String)
    ensures
        xml@ == sitemap(site_url@, index.categories@, posts_view(index.all_posts@)),
{
    let mut xml = String::from_str("<?xml version=\"1.0\" encoding=\"UTF-8\"?>\n<urlset xmlns=\"http://www.sitemaps.org/schemas/sitemap/0.9\">\n");
    xml.append("  <url><loc>");
    xml.append(site_url);
    xml.append("/</loc></url>\n");
    assert(xml@ =~= sitemap_head() + home_entry(site_url@));
    let ghost head = xml@;
    let cats = &index.categories;
    let mut i: usize = 0;
    assert(cats@.take(0) =~= Seq::<Category>::empty());
    while i < cats.len()
        invariant
            i <= cats.len(),
            xml@ == head + category_entries(site_url@, cats@.take(i as int)),
        decreases cats.len() - i,
    {
        let ghost before = xml@;
        xml.append("  <url><loc>");
        xml.append(site_url);
        xml.append("/");
        let slug = xml_escape(cats[i].slug.as_str());
        xml.append(slug.as_str());
        xml.append("</loc></url>\n");
        assert(cats@.take(i + 1).drop_last() =~= cats@.take(i as int));
        assert(xml@ =~= before + category_entry(site_url@, cats@[i as int].slug@));
        i += 1;
    }
    assert(cats@.take(i as int) =~= cats@);
    let ghost mid = xml@;
    let posts = &index.all_posts;
    let ghost ps = posts_view(posts@);
    let mut k: usize = 0;
    assert(ps.take(0) =~= Seq::<PostView>::empty());
    while k < posts.len()
        invariant
            k <= posts.len(),
            ps == posts_view(posts@),
            xml@ == mid + post_entries(site_url@, ps.take(k as int)),
        decreases posts.len() - k,
    {
        let ghost before = xml@;
        xml.append("  <url><loc>");
        xml.append(site_url);
        xml.append("/posts/");
        let slug = xml_escape(posts[k].slug.as_str());
        xml.append(slug.as_str());
        xml.append("</loc><lastmod>");
        let day = posts[k].date.day();
        xml.append(day.as_str());
        xml.append("</lastmod></url>\n");
        assert(ps.take(k + 1).drop_last() =~= ps.take(k as int));
        assert(ps[k as int] == posts@[k as int]@);
        assert(xml@ =~= before + post_entry(site_url@, ps[k as int]));
        k += 1;
    }
    assert(ps.take(k as int) =~= ps);
    xml.append("</urlset>\n");
    xml
}

/// The robots.txt that allows everything and points at the sitemap.
pub open spec fn robots(site: Seq<char>) -> Seq<char> {
    "User-agent: *\nAllow: /\nSitemap: "@ + site + "/sitemap.xml\n"@
}

/// The robots.txt body for a site.
pub fn robots_txt(site_url: &str) -> (body: String)
    ensures
        body@ == robots(site_url@),
{
    let mut body = String::from_str("User-agent: *\nAllow: /\nSitemap: ");
    body.append(site_url);
    body.append("/sitemap.xml\n");
    body
}

/// The origin used when none is configured.
pub open spec fn default_site_url() -> Seq<char> {
    "http://localhost:3000"@
}

/// `s` without any trailing `/`.
pub open spec fn strip_trailing_slashes(s: Seq<char>) -> Seq<char>
    decreases s.len(),
{
    if s.len() > 0 && s.last() == '/' {
        strip_trailing_slashes(s.drop_last())
    } else {
        s
    }
}

/// The site's origin: the configured one (or the default), without trailing
/// slashes.
pub fn site_origin(configured: Option<String>) -> (origin: String)
    ensures
        origin@ == strip_trailing_slashes(
            match configured {
                Some(s) => s@,
                None => default_site_url(),
            },
        ),
{
    let raw = match configured {
        Some(s) => s,
        None => String::from_str("http://localhost:3000"),
    };
    let chars = chars_of(raw.as_str());
    let mut end: usize = chars.len();
    assert(chars@.take(chars.len() as int) =~= chars@);
    while end > 0 && chars[end - 1] == '/'
        invariant
            end <= chars.len(),
            strip_trailing_slashes(chars@) == strip_trailing_slashes(chars@.take(end as int)),
        decreases end,
    {
        assert(chars@.take(end as int).drop_last() =~= chars@.take(end - 1));
        end -= 1;
    }
    assert(chars@.take(chars.len() as int) =~= chars@);
    let mut kept: Vec<char> = Vec::new();
    let mut i: usize = 0;
    while i < end
        invariant
            i <= end <= chars.len(),
            kept@ == chars@.take(i as int),
        decreases end - i,
    {
        kept.push(chars[i]);
        i += 1;
        assert(kept@ =~= chars@.take(i as int));
    }
    proof {
        if end > 0 {
            assert(chars@.take(end as int).last() == chars@[end - 1]);
        }
    }
    string_of(&kept)
}

/// The scheme that precedes a bearer token in an `Authorization` header.
pub open spec fn bearer_prefix() -> Seq<char> {
    seq!['B', 'e', 'a', 'r', 'e', 'r', ' ']
}

/// An `Authorization` header value grants access for `token`.
pub open spec fn grants(header: Seq<char>, token: Seq<char>) -> bool {
    starts_with(header, bearer_prefix()) && header.skip(7) == token
}

/// Whether the `Authorization` header (absent, or not visible ASCII, as
/// `None`) carries `Bearer <token>`.
pub fn authorized(header: Option<&str>, token: &str) -> (ok: bool)
    ensures
        ok == match header {
            Some(h) => grants(h@, token@),
            None => false,
        },
{
    match header {
        None => false,
        Some(h) => {
            let chars = chars_of(h);
            let prefix: Vec<char> = vec!['B', 'e', 'a', 'r', 'e', 'r', ' '];
            assert(prefix@ =~= bearer_prefix());
            if chars.len() < 7 {
                assert(bearer_prefix().len() == 7);
                return false;
            }
            let mut i: usize = 0;
            while i < 7
                invariant
                    chars@ == h@,
                    header == Some(h),
                    i <= 7 <= chars.len(),
                    prefix@ == bearer_prefix(),
                    forall|k: int| 0 <= k < i ==> chars@[k] == prefix@[k],
                decreases 7 - i,
            {
                if chars[i] != prefix[i] {
                    assert(chars@.take(7)[i as int] != bearer_prefix()[i as int]);
                    assert(bearer_prefix().len() == 7);
                    assert(h@.take(7) != bearer_prefix());
                    return false;
                }
                i += 1;
            }
            assert(chars@.take(7) =~= bearer_prefix());
            let mut rest: Vec<char> = Vec::new();
            let mut k: usize = 7;
            while k < chars.len()
                invariant
                    7 <= k <= chars.len(),
                    rest@ == chars@.subrange(7, k as int),
                decreases chars.len() - k,
            {
                rest.push(chars[k]);
                k += 1;
                assert(rest@ =~= chars@.subrange(7, k as int));
            }
            assert(chars@.subrange(7, chars.len() as int) =~= chars@.skip(7));
            let given = string_of(&rest);
            same_text(given.as_str(), token)
        },
    }
}

/// A header of `Bearer ` followed by the token grants access; a header that
/// grants access is exactly that.
pub proof fn lemma_bearer_header_grants(header: Seq<char>, token: Seq<char>)
    ensures
        grants(bearer_prefix() + token, token),
        grants(header, token) ==> header == bearer_prefix() + token,
{
    let h = bearer_prefix() + token;
    assert(h.take(7) =~= bearer_prefix());
    assert(h.skip(7) =~= token);
    if grants(header, token) {
        assert(header =~= header.take(7) + header.skip(7));
    }
}

/// A site origin never ends with `/`, so paths can be appended to it.
pub proof fn lemma_origin_has_no_trailing_slash(s: Seq<char>)
    ensures
        strip_trailing_slashes(s).len() == 0 || strip_trailing_slashes(s).last() != '/',
    decreases s.len(),
{
    if s.len() > 0 && s.last() == '/' {
        lemma_origin_has_no_trailing_slash(s.drop_last());
    }
}

} // verus!
