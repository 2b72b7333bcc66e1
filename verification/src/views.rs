use vstd::prelude::*;

use crate::date::utc_rfc3339;
use crate::json::{json_object, json_object_members, json_object_text, keys_ascending, lemma_json_object_round_trip};
use crate::models::{Category, Post};
use crate::text::{same_text, string_of, text_less};

verus! {

/// The decimal digit for `d` (below ten).
pub open spec fn digit(d: nat) -> char {
    seq!['0', '1', '2', '3', '4', '5', '6', '7', '8', '9'][d as int]
}

/// The decimal representation of `n`, without leading zeros.
pub open spec fn decimal(n: nat) -> Seq<char>
    decreases n,
{
    if n < 10 {
        seq![digit(n)]
    } else {
        decimal(n / 10).push(digit(n % 10))
    }
}

/// `n` written in decimal.
pub fn decimal_text(n: usize) -> (text: String)
    ensures
        text@ == decimal(n as nat),
{
    let digits: [char; 10] = ['0', '1', '2', '3', '4', '5', '6', '7', '8', '9'];
    assert(digits@ =~= seq!['0', '1', '2', '3', '4', '5', '6', '7', '8', '9']);
    let mut rev: Vec<char> = Vec::new();
    let mut m: usize = n;
    let ghost mut done: nat = 0;
    rev.push(digits[m % 10]);
    m = m / 10;
    proof {
        done = 1;
    }
    while m > 0
        invariant
            digits@ == seq!['0', '1', '2', '3', '4', '5', '6', '7', '8', '9'],
            rev@.len() == done,
            done >= 1,
            m > 0 ==> decimal(n as nat) == decimal(m as nat) + rev@.reverse(),
            m == 0 ==> decimal(n as nat) == rev@.reverse(),
        decreases m,
    {
        let ghost old_rev = rev@;
        rev.push(digits[m % 10]);
        assert(rev@.reverse() =~= seq![digit((m % 10) as nat)] + old_rev.reverse());
        if m / 10 > 0 {
            assert(decimal(m as nat) == decimal((m / 10) as nat).push(digit((m % 10) as nat)));
            assert(decimal((m / 10) as nat).push(digit((m % 10) as nat)) + old_rev.reverse() =~= decimal(
                (m / 10) as nat,
            ) + rev@.reverse());
        } else {
            assert(decimal(m as nat) =~= seq![digit((m % 10) as nat)]);
        }
        m = m / 10;
        proof {
            done = done + 1;
        }
    }
    let mut out: Vec<char> = Vec::new();
    let mut i: usize = rev.len();
    while i > 0
        invariant
            i <= rev.len(),
            out@ == rev@.subrange(i as int, rev@.len() as int).reverse(),
        decreases i,
    {
        let ghost before = out@;
        out.push(rev[i - 1]);
        assert(out@ =~= rev@.subrange(i - 1, rev@.len() as int).reverse());
        i -= 1;
    }
    assert(rev@.subrange(0, rev@.len() as int) =~= rev@);
    string_of(&out)
}

/// Shared by every page: navigation state plus the per-page SEO fields every
/// template needs (title, description, canonical URL, robots).
pub trait NavContext {
    /// The slug of the category the page belongs to, if any.
    spec fn active_view(&self) -> Option<Seq<char>>;

    /// The site's origin.
    spec fn site_view(&self) -> Seq<char>;

    /// The page's title.
    spec fn title_view(&self) -> Seq<char>;

    /// The page's meta description.
    spec fn description_view(&self) -> Seq<char>;

    /// The path, with a leading slash and no origin, the page is served at.
    spec fn path_view(&self) -> Seq<char>;

    /// The page's Open Graph type.
    spec fn og_type_view(&self) -> Seq<char>;

    /// The page's robots directive.
    spec fn robots_view(&self) -> Seq<char>;

    fn active_category(&self) -> (a: Option<&str>)
        ensures
            match a {
                Some(s) => self.active_view() == Some(s@),
                None => self.active_view() is None,
            },
    ;

    fn site_url(&self) -> (u: &str)
        ensures
            u@ == self.site_view(),
    ;

    fn page_title(&self) -> (t: String)
        ensures
            t@ == self.title_view(),
    ;

    fn meta_description(&self) -> (d: String)
        ensures
            d@ == self.description_view(),
    ;

    /// Whether the category `slug` is the page's own.
    fn is_active(&self, slug: &str) -> (b: bool)
        ensures
            b == (self.active_view() == Some(slug@)),
    {
        match self.active_category() {
            Some(a) => same_text(a, slug),
            None => false,
        }
    }

    /// Path (leading slash, no origin) this page is canonically served at.
    fn canonical_path(&self) -> (p: String)
        ensures
            p@ == self.path_view(),
    ;

    /// The page's absolute canonical URL.
    fn canonical_url(&self) -> (u: String)
        ensures
            u@ == self.site_view() + self.path_view(),
    {
        let mut u = String::from_str(self.site_url());
        let path = self.canonical_path();
        u.append(path.as_str());
        u
    }

    fn og_type(&self) -> (t: &'static str)
        ensures
            t@ == self.og_type_view(),
    ;

    fn robots(&self) -> (r: &'static str)
        ensures
            r@ == self.robots_view(),
    ;
}

/// The one-line description of the whole site.
pub open spec fn site_description() -> Seq<char> {
    "Short, no-noise posts on software development and life lessons."@
}

/// The name of the site, which page titles end with.
pub open spec fn title_suffix() -> Seq<char> {
    " \u{b7} Mini Blog"@
}

/// The home page: every category and every published post.
pub struct IndexTemplate<'a> {
    pub categories: &'a [Category],
    pub posts: &'a [Post],
    pub site_url: &'a str,
}

impl<'a> NavContext for IndexTemplate<'a> {
    open spec fn active_view(&self) -> Option<Seq<char>> {
        None
    }

    open spec fn site_view(&self) -> Seq<char> {
        self.site_url@
    }

    open spec fn title_view(&self) -> Seq<char> {
        "Mini Blog"@
    }

    open spec fn description_view(&self) -> Seq<char> {
        site_description()
    }

    open spec fn path_view(&self) -> Seq<char> {
        "/"@
    }

    open spec fn og_type_view(&self) -> Seq<char> {
        "website"@
    }

    open spec fn robots_view(&self) -> Seq<char> {
        "index, follow"@
    }

    fn active_category(&self) -> (a: Option<&str>) {
        None
    }

    fn site_url(&self) -> (u: &str) {
        self.site_url
    }

    fn page_title(&self) -> (t: String) {
        String::from_str("Mini Blog")
    }

    fn meta_description(&self) -> (d: String) {
        String::from_str("Short, no-noise posts on software development and life lessons.")
    }

    fn canonical_path(&self) -> (p: String) {
        String::from_str("/")
    }

    fn og_type(&self) -> (t: &'static str) {
        "website"
    }

    fn robots(&self) -> (r: &'static str) {
        "index, follow"
    }
}

/// A category page: the category's posts.
pub struct CategoryTemplate<'a> {
    pub categories: &'a [Category],
    pub category: &'a Category,
    pub posts: &'a [Post],
    pub site_url: &'a str,
}

/// The meta description of a category page.
pub open spec fn category_description(c: Category) -> Seq<char> {
    decimal(c.post_count as nat) + " short posts in "@ + c.name@ + " on Mini Blog."@
}

impl<'a> NavContext for CategoryTemplate<'a> {
    open spec fn active_view(&self) -> Option<Seq<char>> {
        Some(self.category.slug@)
    }

    open spec fn site_view(&self) -> Seq<char> {
        self.site_url@
    }

    open spec fn title_view(&self) -> Seq<char> {
        self.category.name@ + title_suffix()
    }

    open spec fn description_view(&self) -> Seq<char> {
        category_description(*self.category)
    }

    open spec fn path_view(&self) -> Seq<char> {
        "/"@ + self.category.slug@
    }

    open spec fn og_type_view(&self) -> Seq<char> {
        "website"@
    }

    open spec fn robots_view(&self) -> Seq<char> {
        "index, follow"@
    }

    fn active_category(&self) -> (a: Option<&str>) {
        Some(self.category.slug.as_str())
    }

    fn site_url(&self) -> (u: &str) {
        self.site_url
    }

    fn page_title(&self) -> (t: String) {
        let mut t = self.category.name.clone();
        t.append(" \u{b7} Mini Blog");
        t
    }

    fn meta_description(&self) -> (d: String) {
        let mut d = decimal_text(self.category.post_count);
        d.append(" short posts in ");
        d.append(self.category.name.as_str());
        d.append(" on Mini Blog.");
        d
    }

    fn canonical_path(&self) -> (p: String) {
        let mut p = String::from_str("/");
        p.append(self.category.slug.as_str());
        p
    }

    fn og_type(&self) -> (t: &'static str) {
        "website"
    }

    fn robots(&self) -> (r: &'static str) {
        "index, follow"
    }
}

/// A post page.
pub struct PostTemplate<'a> {
    pub categories: &'a [Category],
    pub post: &'a Post,
    pub site_url: &'a str,
}

impl<'a> NavContext for PostTemplate<'a> {
    open spec fn active_view(&self) -> Option<Seq<char>> {
        Some(self.post.category@)
    }

    open spec fn site_view(&self) -> Seq<char> {
        self.site_url@
    }

    open spec fn title_view(&self) -> Seq<char> {
        self.post.title@ + title_suffix()
    }

    open spec fn description_view(&self) -> Seq<char> {
        self.post.excerpt@
    }

    open spec fn path_view(&self) -> Seq<char> {
        "/posts/"@ + self.post.slug@
    }

    open spec fn og_type_view(&self) -> Seq<char> {
        "article"@
    }

    open spec fn robots_view(&self) -> Seq<char> {
        "index, follow"@
    }

    fn active_category(&self) -> (a: Option<&str>) {
        Some(self.post.category.as_str())
    }

    fn site_url(&self) -> (u: &str) {
        self.site_url
    }

    fn page_title(&self) -> (t: String) {
        let mut t = self.post.title.clone();
        t.append(" \u{b7} Mini Blog");
        t
    }

    fn meta_description(&self) -> (d: String) {
        self.post.excerpt.clone()
    }

    fn canonical_path(&self) -> (p: String) {
        let mut p = String::from_str("/posts/");
        p.append(self.post.slug.as_str());
        p
    }

    fn og_type(&self) -> (t: &'static str) {
        "article"
    }

    fn robots(&self) -> (r: &'static str) {
        "index, follow"
    }
}

/// The members of a schema.org `Article` object, keys in ascending order.
pub open spec fn article_members(
    headline: Seq<char>,
    description: Seq<char>,
    date_published: Seq<char>,
    url: Seq<char>,
) -> Seq<(Seq<char>, Seq<char>)> {
    seq![
        ("@context"@, "https://schema.org"@),
        ("@type"@, "Article"@),
        ("datePublished"@, date_published),
        ("description"@, description),
        ("headline"@, headline),
        ("url"@, url),
    ]
}

/// The schema.org `Article` members of a post served at `url`.
pub open spec fn article_of(post: Post, url: Seq<char>) -> Seq<(Seq<char>, Seq<char>)> {
    article_members(post.title@, post.excerpt@, utc_rfc3339(post.date@.0, post.date@.1), url)
}

/// The `Article` members, as strings, in ascending order of key.
fn article_member_list(headline: &str, description: &str, date_published: &str, url: &str) -> (members: Vec<
    (String, String),
>)
    ensures
        members.deep_view() == article_members(headline@, description@, date_published@, url@),
        keys_ascending(members.deep_view()),
{
    let mut members: Vec<(String, String)> = Vec::new();
    members.push((String::from_str("@context"), String::from_str("https://schema.org")));
    members.push((String::from_str("@type"), String::from_str("Article")));
    members.push((String::from_str("datePublished"), String::from_str(date_published)));
    members.push((String::from_str("description"), String::from_str(description)));
    members.push((String::from_str("headline"), String::from_str(headline)));
    members.push((String::from_str("url"), String::from_str(url)));
    proof {
        reveal_strlit("@context");
        reveal_strlit("@type");
        reveal_strlit("datePublished");
        reveal_strlit("description");
        reveal_strlit("headline");
        reveal_strlit("url");
        reveal_with_fuel(text_less, 3);
    }
    let ghost es = members.deep_view();
    assert(es =~= article_members(headline@, description@, date_published@, url@));
    assert(text_less(es[0].0, es[1].0));
    assert(text_less(es[2].0, es[3].0));
    assert(keys_ascending(es));
    members
}

impl<'a> PostTemplate<'a> {
    /// schema.org Article JSON-LD for rich results: headline, description,
    /// publication date and canonical URL, with real JSON string escaping.
    pub fn ld_json(&self) -> (json: String)
        ensures
            json@ == json_object(article_of(*self.post, self.site_view() + self.path_view())),
    {
        let date = self.post.date.rfc3339();
        let url = self.canonical_url();
        let members = article_member_list(self.post.title.as_str(), self.post.excerpt.as_str(), date.as_str(), url.as_str());
        json_object_text(&members)
    }
}

/// The JSON-LD of a post page parses back, as a JSON object of strings, to
/// exactly its `Article` members: the post's title, excerpt, publication
/// date and canonical URL, each as it was before escaping.
pub proof fn lemma_ld_json_reads_back(post: Post, url: Seq<char>)
    ensures
        json_object_members(json_object(article_of(post, url))) == Some(article_of(post, url)),
{
    lemma_json_object_round_trip(article_of(post, url));
}

/// The page for an unknown path.
pub struct NotFoundTemplate<'a> {
    pub categories: &'a [Category],
    pub site_url: &'a str,
}

impl<'a> NavContext for NotFoundTemplate<'a> {
    open spec fn active_view(&self) -> Option<Seq<char>> {
        None
    }

    open spec fn site_view(&self) -> Seq<char> {
        self.site_url@
    }

    open spec fn title_view(&self) -> Seq<char> {
        "Not found \u{b7} Mini Blog"@
    }

    open spec fn description_view(&self) -> Seq<char> {
        "The page you're looking for doesn't exist or has been moved."@
    }

    open spec fn path_view(&self) -> Seq<char> {
        "/"@
    }

    open spec fn og_type_view(&self) -> Seq<char> {
        "website"@
    }

    open spec fn robots_view(&self) -> Seq<char> {
        "noindex, nofollow"@
    }

    fn active_category(&self) -> (a: Option<&str>) {
        None
    }

    fn site_url(&self) -> (u: &str) {
        self.site_url
    }

    fn page_title(&self) -> (t: String) {
        String::from_str("Not found \u{b7} Mini Blog")
    }

    fn meta_description(&self) -> (d: String) {
        String::from_str("The page you're looking for doesn't exist or has been moved.")
    }

    fn canonical_path(&self) -> (p: String) {
        String::from_str("/")
    }

    fn og_type(&self) -> (t: &'static str) {
        "website"
    }

    fn robots(&self) -> (r: &'static str) {
        "noindex, nofollow"
    }
}

/// Page titles: the home page is titled "Mini Blog"; a category page by the
/// category's name, a post page by the post's title, each followed by
/// " · Mini Blog"; the not-found page "Not found · Mini Blog". Two post pages
/// of posts with the same title have the same title, whatever their slugs.
pub proof fn lemma_page_titles(
    home: IndexTemplate,
    category: CategoryTemplate,
    post: PostTemplate,
    other: PostTemplate,
    missing: NotFoundTemplate,
)
    ensures
        home.title_view() == "Mini Blog"@,
        category.title_view() == category.category.name@ + " \u{b7} Mini Blog"@,
        post.title_view() == post.post.title@ + " \u{b7} Mini Blog"@,
        post.post.title@ == other.post.title@ ==> post.title_view() == other.title_view(),
        missing.title_view() == "Not found \u{b7} Mini Blog"@,
{
}

/// Robots directives: the home, category and post pages may be indexed and
/// followed ("index, follow"); only the not-found page is "noindex,
/// nofollow", which no other page is.
pub proof fn lemma_only_not_found_is_unindexed(
    home: IndexTemplate,
    category: CategoryTemplate,
    post: PostTemplate,
    missing: NotFoundTemplate,
)
    ensures
        home.robots_view() == "index, follow"@,
        category.robots_view() == "index, follow"@,
        post.robots_view() == "index, follow"@,
        missing.robots_view() == "noindex, nofollow"@,
        missing.robots_view() != home.robots_view(),
        missing.robots_view() != category.robots_view(),
        missing.robots_view() != post.robots_view(),
{
    reveal_strlit("index, follow");
    reveal_strlit("noindex, nofollow");
    assert("index, follow"@[0] != "noindex, nofollow"@[0]);
}

/// Where pages live and what they are: the home and not-found pages are
/// served at `/` of the site, a category page at `/` and its slug, a post
/// page at `/posts/` and the post's slug; only a post page is an Open Graph
/// "article", the others are "website"; a post page is described by the
/// post's excerpt, and only category and post pages mark a category active.
pub proof fn lemma_page_places(
    home: IndexTemplate,
    category: CategoryTemplate,
    post: PostTemplate,
    missing: NotFoundTemplate,
)
    ensures
        home.path_view() == "/"@,
        missing.path_view() == "/"@,
        category.path_view() == "/"@ + category.category.slug@,
        post.path_view() == "/posts/"@ + post.post.slug@,
        home.site_view() == home.site_url@ && category.site_view() == category.site_url@
            && post.site_view() == post.site_url@ && missing.site_view() == missing.site_url@,
        home.og_type_view() == "website"@,
        category.og_type_view() == "website"@,
        missing.og_type_view() == "website"@,
        post.og_type_view() == "article"@,
        post.description_view() == post.post.excerpt@,
        home.active_view() is None && missing.active_view() is None,
        category.active_view() == Some(category.category.slug@),
        post.active_view() == Some(post.post.category@),
{
}

} // verus!
