use miniblog::date::Timestamp;
use miniblog::frontmatter::split_frontmatter;
use miniblog::index::build_index;
use miniblog::models::{Category, CategoryTable, CreatePost, Post, PostTable};
use miniblog::posting::{file_name, plan_post_file, post_file_text, safe_component};
use miniblog::services::{
    category_slug, post_from_request, posts_with_category_slug, resolve_category, with_rendered_html,
    CategoryLookup,
};
use miniblog::site::{authorized, robots_txt, site_origin, sitemap_xml, xml_escape};
use miniblog::views::{
    decimal_text, CategoryTemplate, IndexTemplate, NavContext, NotFoundTemplate, PostTemplate,
};

fn post(slug: &str, category: &str, secs: i64) -> Post {
    Post {
        title: format!("Title \"{slug}\""),
        slug: slug.to_string(),
        category: category.to_string(),
        categories: Vec::new(),
        tags: Vec::new(),
        draft: false,
        date: Timestamp::new(secs, 0).unwrap(),
        excerpt: "An <excerpt>".to_string(),
        html: String::new(),
        raw: "**raw**".to_string(),
    }
}

fn row(slug: &str, category_slug: &str) -> PostTable {
    PostTable {
        id: 1,
        title: slug.to_string(),
        slug: slug.to_string(),
        category_id: 1,
        category_name: category_slug.to_string(),
        category_slug: category_slug.to_string(),
        html: String::new(),
        raw: String::new(),
        created_at: String::new(),
    }
}

#[test]
fn xml_escape_replaces_markup_characters() {
    assert_eq!(xml_escape("a&b<c>d"), "a&amp;b&lt;c&gt;d");
    assert_eq!(xml_escape("plain"), "plain");
}

#[test]
fn sitemap_lists_home_categories_and_posts() {
    let folders = vec!["misc".to_string(), "software-development".to_string()];
    let index = build_index(folders, vec![post("a&b", "misc", 86_400), post("acid", "software-development", 0)]);
    let xml = sitemap_xml("https://example.com", &index);
    let expected = [
        "<?xml version=\"1.0\" encoding=\"UTF-8\"?>\n",
        "<urlset xmlns=\"http://www.sitemaps.org/schemas/sitemap/0.9\">\n",
        "  <url><loc>https://example.com/</loc></url>\n",
        "  <url><loc>https://example.com/misc</loc></url>\n",
        "  <url><loc>https://example.com/software-development</loc></url>\n",
        "  <url><loc>https://example.com/posts/a&amp;b</loc><lastmod>1970-01-02</lastmod></url>\n",
        "  <url><loc>https://example.com/posts/acid</loc><lastmod>1970-01-01</lastmod></url>\n",
        "</urlset>\n",
    ]
    .concat();
    assert_eq!(xml, expected);
}

#[test]
fn robots_points_at_sitemap() {
    assert_eq!(
        robots_txt("https://example.com"),
        "User-agent: *\nAllow: /\nSitemap: https://example.com/sitemap.xml\n"
    );
}

#[test]
fn site_origin_defaults_and_drops_trailing_slashes() {
    assert_eq!(site_origin(None), "http://localhost:3000");
    assert_eq!(site_origin(Some("https://x.io//".to_string())), "https://x.io");
    assert_eq!(site_origin(Some("https://x.io".to_string())), "https://x.io");
}

#[test]
fn bearer_token_authorizes() {
    assert!(authorized(Some("Bearer test-token"), "test-token"));
    assert!(!authorized(Some("Bearer other"), "test-token"));
    assert!(!authorized(Some("test-token"), "test-token"));
    assert!(!authorized(Some("bearer test-token"), "test-token"));
    assert!(!authorized(None, "test-token"));
}

#[test]
fn safe_components_are_accepted_and_others_refused() {
    assert_eq!(safe_component("life-lessons").unwrap(), "life-lessons");
    assert_eq!(safe_component("a_1").unwrap(), "a_1");
    let err = safe_component("../../etc").unwrap_err();
    assert_eq!(err.component, "../../etc");
    assert_eq!(err.message(), "unsafe component is \"../../etc\"");
    assert!(safe_component("").is_err());
    assert!(safe_component("Upper").is_err());
}

#[test]
fn planned_post_file_and_its_text() {
    let payload = CreatePost {
        title: "Test Post".to_string(),
        category: "life-lessons".to_string(),
        content: "Body text".to_string(),
    };
    let plan = plan_post_file(&payload).unwrap();
    assert_eq!(plan.category, "life-lessons");
    assert_eq!(plan.slug, "test-post");
    assert_eq!(plan.frontmatter.title, "Test Post");
    assert_eq!(plan.frontmatter.slug.as_deref(), Some("test-post"));
    assert!(!plan.frontmatter.draft);
    assert_eq!(file_name(&plan.slug), "test-post.md");
    let text = post_file_text("title: Test Post\nslug: test-post\n", "Body text");
    assert!(text.starts_with("---\n"));
    assert!(text.ends_with("Body text"));
    let (fm, body) = split_frontmatter(&text).unwrap();
    assert_eq!(fm, "title: Test Post\nslug: test-post");
    assert_eq!(body, "Body text");
}

#[test]
fn planned_post_rejects_traversal_and_unsafe_titles() {
    let evil = CreatePost {
        title: "Evil".to_string(),
        category: "../../etc".to_string(),
        content: "should never be written".to_string(),
    };
    let err = plan_post_file(&evil).unwrap_err();
    assert!(err.message().contains("unsafe"));
    let punct = CreatePost {
        title: "Don't Repeat Yourself".to_string(),
        category: "misc".to_string(),
        content: "x".to_string(),
    };
    assert_eq!(plan_post_file(&punct).unwrap_err().component, "don't-repeat-yourself");
}

#[test]
fn category_lookup_uses_found_row_or_creates() {
    assert_eq!(category_slug("Test With spaces"), "test-with-spaces");
    let found = CategoryTable { id: 7, slug: "rust".to_string(), title: "Rust".to_string() };
    match resolve_category(Some(found), "Rust") {
        CategoryLookup::Found(t) => assert_eq!(t.id, 7),
        CategoryLookup::Create(_) => panic!("expected the stored row"),
    }
    match resolve_category(None, "Test With spaces") {
        CategoryLookup::Create(c) => {
            assert_eq!(c.name, "Test With spaces");
            assert_eq!(c.slug, "test-with-spaces");
            assert_eq!(c.post_count, 0);
        }
        CategoryLookup::Found(_) => panic!("expected a new category"),
    }
}

#[test]
fn request_becomes_post_with_rendered_html() {
    let payload = CreatePost {
        title: "Hello World".to_string(),
        category: "Misc".to_string(),
        content: "*hi*".to_string(),
    };
    let p = post_from_request(payload, Timestamp::new(0, 0).unwrap());
    assert_eq!(p.slug, "hello-world");
    assert_eq!(p.category, "Misc");
    assert!(p.html.is_empty());
    let rendered = with_rendered_html(p);
    assert!(rendered.html.contains("<em>hi</em>"));
    assert_eq!(rendered.raw, "*hi*");
}

#[test]
fn rows_filtered_by_category_slug() {
    let rows = vec![row("a", "x"), row("b", "y"), row("c", "x")];
    let kept: Vec<String> = posts_with_category_slug(&rows, "x").into_iter().map(|r| r.slug).collect();
    assert_eq!(kept, vec!["a".to_string(), "c".to_string()]);
}

#[test]
fn decimal_text_writes_numbers() {
    assert_eq!(decimal_text(0), "0");
    assert_eq!(decimal_text(7), "7");
    assert_eq!(decimal_text(1905), "1905");
}

#[test]
fn page_descriptions() {
    let cats = vec![Category::from_slug("software-development", 5)];
    let posts = vec![post("acid", "software-development", 0)];
    let index = IndexTemplate { categories: &cats, posts: &posts, site_url: "https://x.io" };
    assert_eq!(index.page_title(), "Mini Blog");
    assert_eq!(index.canonical_url(), "https://x.io/");
    assert_eq!(index.og_type(), "website");
    assert_eq!(index.robots(), "index, follow");
    assert!(!index.is_active("software-development"));

    let cat = CategoryTemplate { categories: &cats, category: &cats[0], posts: &posts, site_url: "https://x.io" };
    assert_eq!(cat.page_title(), "Software Development \u{b7} Mini Blog");
    assert_eq!(cat.meta_description(), "5 short posts in Software Development on Mini Blog.");
    assert_eq!(cat.canonical_url(), "https://x.io/software-development");
    assert!(cat.is_active("software-development"));
    assert!(!cat.is_active("misc"));

    let page = PostTemplate { categories: &cats, post: &posts[0], site_url: "https://x.io" };
    assert_eq!(page.canonical_path(), "/posts/acid");
    assert_eq!(page.og_type(), "article");
    assert_eq!(page.meta_description(), "An <excerpt>");
    assert_eq!(page.active_category(), Some("software-development"));
    assert_eq!(
        page.ld_json(),
        "{\"@context\":\"https://schema.org\",\"@type\":\"Article\",\"datePublished\":\"1970-01-01T00:00:00+00:00\",\
\"description\":\"An <excerpt>\",\"headline\":\"Title \\\"acid\\\"\",\"url\":\"https://x.io/posts/acid\"}"
    );

    let missing = NotFoundTemplate { categories: &cats, site_url: "https://x.io" };
    assert_eq!(missing.robots(), "noindex, nofollow");
    assert_eq!(missing.page_title(), "Not found \u{b7} Mini Blog");
}

#[test]
fn ld_json_escapes_for_json_and_reads_back() {
    let cats = vec![Category::from_slug("misc", 1)];
    let mut p = post("tabs", "misc", 86_400);
    p.title = "Back\\slash\ttab\u{1}bell & <b>".to_string();
    p.excerpt = "line\nbreak \"quoted\"".to_string();
    let posts = vec![p];
    let page = PostTemplate { categories: &cats, post: &posts[0], site_url: "https://x.io" };
    let json = page.ld_json();
    assert_eq!(
        json,
        "{\"@context\":\"https://schema.org\",\"@type\":\"Article\",\"datePublished\":\"1970-01-02T00:00:00+00:00\",\
\"description\":\"line\\nbreak \\\"quoted\\\"\",\"headline\":\"Back\\\\slash\\ttab\\u0001bell & <b>\",\
\"url\":\"https://x.io/posts/tabs\"}"
    );
    let value: serde_json::Value = serde_json::from_str(&json).unwrap();
    assert_eq!(value["headline"], "Back\\slash\ttab\u{1}bell & <b>");
    assert_eq!(value["description"], "line\nbreak \"quoted\"");
    assert_eq!(value["url"], "https://x.io/posts/tabs");
    assert_eq!(value["@type"], "Article");
}
