use miniblog::date::Timestamp;
use miniblog::frontmatter::{split_frontmatter, Frontmatter};
use miniblog::index::{assemble_post, build_index, Index};
use miniblog::markdown::{plain_excerpt, render_markdown, shorten};
use miniblog::models::{Category, Post, PostTable};
use miniblog::text::{chars_of, slugify, trim};

fn post(slug: &str, category: &str, secs: i64, draft: bool) -> Post {
    Post {
        title: format!("#{slug}"),
        slug: slug.to_string(),
        category: category.to_string(),
        categories: vec![category.to_string()],
        tags: Vec::new(),
        draft,
        date: Timestamp::new(secs, 0).unwrap(),
        excerpt: String::new(),
        html: String::new(),
        raw: String::new(),
    }
}

#[test]
fn markdown_body_renders_to_html() {
    let result = render_markdown("---\ntitle: Md\n---\n**bold** and _em_\n");

    assert!(result.contains("<strong>bold</strong>"));
    assert!(result.contains("<em>em</em>"));
}

#[test]
fn models_category_name_is_derived_from_slug() {
    assert_eq!(Category::from_slug("life-lessons", 2).name, "Life Lessons");
    assert_eq!(
        Category::from_slug("software-development", 5).name,
        "Software Development"
    );
    assert_eq!(Category::from_slug("misc", 0).name, "Misc");
}

#[test]
fn category_name_skips_empty_words_and_underscores() {
    let c = Category::from_slug("--rust__tips-", 3);
    assert_eq!(c.name, "Rust Tips");
    assert_eq!(c.slug, "--rust__tips-");
    assert_eq!(c.post_count, 3);
    assert_eq!(Category::from_slug("", 0).name, "");
    assert_eq!(Category::from_slug("élan-vital", 1).name, "Élan Vital");
}

#[test]
fn frontmatter_splits_from_body() {
    let (fm, body) = split_frontmatter("---\ntitle: A\n---\nHello\n").unwrap();
    assert_eq!(fm, "title: A");
    assert_eq!(body, "Hello\n");
}

#[test]
fn frontmatter_tolerates_bom_and_crlf() {
    let (fm, body) = split_frontmatter("\u{feff}---\r\ntitle: A\r\n---\r\nBody").unwrap();
    assert_eq!(fm, "title: A\r");
    assert_eq!(body, "Body");
}

#[test]
fn frontmatter_missing_opening_fence_is_an_error() {
    assert_eq!(
        split_frontmatter("title: A\n---\nbody").unwrap_err(),
        "missing frontmatter (file must start with `---`)"
    );
}

#[test]
fn frontmatter_missing_closing_fence_is_an_error() {
    assert_eq!(
        split_frontmatter("---\ntitle: A\nbody").unwrap_err(),
        "missing closing `---` for frontmatter"
    );
}

#[test]
fn frontmatter_stops_at_first_closing_fence() {
    let (fm, body) = split_frontmatter("---\na: 1\n---\nx\n---\ny").unwrap();
    assert_eq!(fm, "a: 1");
    assert_eq!(body, "x\n---\ny");
}

#[test]
fn excerpt_of_short_text_is_the_text() {
    assert_eq!(plain_excerpt("Hello **world**.", 180), "Hello world.");
}

#[test]
fn excerpt_stops_after_first_paragraph_and_joins_lines() {
    let body = "First line\nsecond `code`\n\nSecond paragraph";
    assert_eq!(plain_excerpt(body, 180), "First line second code");
}

#[test]
fn excerpt_cuts_on_word_boundary_with_ellipsis() {
    assert_eq!(plain_excerpt("alpha beta gamma", 12), "alpha beta\u{2026}");
    assert_eq!(plain_excerpt("abcdefghij", 4), "abcd\u{2026}");
}

#[test]
fn shorten_trims_first() {
    assert_eq!(shorten("   padded  ", 10), "padded");
    assert_eq!(shorten("  one two three ", 9), "one two\u{2026}");
}

#[test]
fn trim_removes_surrounding_whitespace() {
    assert_eq!(trim(" \t body \n"), "body");
    assert_eq!(trim("   "), "");
    assert_eq!(trim("a b"), "a b");
}

#[test]
fn chars_of_keeps_every_character() {
    assert_eq!(chars_of("aé€"), vec!['a', 'é', '€']);
}

#[test]
fn slugify_lowercases_and_hyphenates() {
    assert_eq!(slugify("Test With Spaces"), "test-with-spaces");
    assert_eq!(slugify("Don't Repeat Yourself"), "don't-repeat-yourself");
}

#[test]
fn assemble_post_defaults_slug_and_categories() {
    let fm = Frontmatter {
        title: "#ACID".to_string(),
        slug: None,
        categories: Vec::new(),
        tags: vec!["databases".to_string()],
        draft: false,
    };
    let date = Timestamp::new(0, 0).unwrap();
    let p = assemble_post(fm, "acid", "software-development", "\n**Atomicity** rules.\n\n", date);
    assert_eq!(p.slug, "acid");
    assert_eq!(p.category, "software-development");
    assert_eq!(p.categories, vec!["software-development".to_string()]);
    assert_eq!(p.tags, vec!["databases".to_string()]);
    assert_eq!(p.raw, "**Atomicity** rules.");
    assert!(p.html.contains("<strong>Atomicity</strong>"));
    assert_eq!(p.excerpt, "Atomicity rules.");
    assert_eq!(p.title, "#ACID");
}

#[test]
fn assemble_post_keeps_declared_slug_and_categories() {
    let fm = Frontmatter {
        title: "T".to_string(),
        slug: Some("custom".to_string()),
        categories: vec!["a".to_string(), "b".to_string()],
        tags: Vec::new(),
        draft: true,
    };
    let p = assemble_post(fm, "file", "folder", "x", Timestamp::new(5, 0).unwrap());
    assert_eq!(p.slug, "custom");
    assert_eq!(p.categories, vec!["a".to_string(), "b".to_string()]);
    assert_eq!(p.category, "folder");
    assert!(p.draft);
}

#[test]
fn index_drops_drafts_and_sorts_newest_first() {
    let posts = vec![
        post("old", "software-development", 10, false),
        post("draft", "software-development", 50, true),
        post("new", "life-lessons", 30, false),
        post("tie-a", "software-development", 20, false),
        post("tie-b", "software-development", 20, false),
    ];
    let index = build_index(dirs(&["life-lessons", "software-development"]), posts);
    let slugs: Vec<&str> = index.all_posts.iter().map(|p| p.slug.as_str()).collect();
    assert_eq!(slugs, vec!["new", "tie-a", "tie-b", "old"]);
    let names: Vec<&str> = index.categories.iter().map(|c| c.name.as_str()).collect();
    assert_eq!(names, vec!["Life Lessons", "Software Development"]);
    assert_eq!(index.categories[0].post_count, 1);
    assert_eq!(index.categories[1].post_count, 3);
}

#[test]
fn index_lookups() {
    let index = build_index(dirs(&["life-lessons", "software-development"]), vec![
        post("acid", "software-development", 10, false),
        post("dry", "software-development", 20, false),
        post("less", "life-lessons", 30, false),
        post("wip", "life-lessons", 40, true),
    ]);
    assert_eq!(index.category("life-lessons").unwrap().name, "Life Lessons");
    assert!(index.category("does-not-exist").is_none());
    assert_eq!(index.post_by_slug("acid").unwrap().title, "#acid");
    assert!(index.post_by_slug("wip").is_none());
    let sd: Vec<String> = index
        .posts_in_category("software-development")
        .into_iter()
        .map(|p| p.slug)
        .collect();
    assert_eq!(sd, vec!["dry".to_string(), "acid".to_string()]);
}

#[test]
fn duplicate_slug_resolves_to_last_listed() {
    let mut older = post("same", "a", 1, false);
    older.title = "older".to_string();
    let mut newer = post("same", "a", 2, false);
    newer.title = "newer".to_string();
    let index = build_index(dirs(&["a"]), vec![older, newer]);
    assert_eq!(index.post_by_slug("same").unwrap().title, "older");
}

#[test]
fn empty_index() {
    let index = Index::default();
    assert!(index.all_posts.is_empty());
    assert!(index.categories.is_empty());
}

#[test]
fn timestamp_formats() {
    let t = Timestamp::new(1_709_510_400, 0).unwrap();
    assert_eq!(t.label(), "Mar 4, 2024");
    assert_eq!(t.day(), "2024-03-04");
    assert_eq!(t.rfc3339(), "2024-03-04T00:00:00+00:00");
    assert_eq!(t.secs(), 1_709_510_400);
    assert_eq!(t.nanos(), 0);
    assert!(Timestamp::new(i64::MAX, 0).is_none());
    let later = Timestamp::new(1_709_510_400, 1).unwrap();
    assert!(later.is_later_than(&t));
    assert!(!t.is_later_than(&later));
    assert_eq!(post("x", "y", 0, false).date_label(), "Jan 1, 1970");
}

#[test]
fn post_table_labels_and_excerpt() {
    let mut row = PostTable {
        id: 1,
        title: "Rust".to_string(),
        slug: "rust".to_string(),
        category_id: 1,
        category_name: "Rust".to_string(),
        category_slug: "rust".to_string(),
        html: String::new(),
        raw: "Some *raw* content".to_string(),
        created_at: "2024-03-04T10:00:00+02:00".to_string(),
    };
    assert_eq!(row.date_label(), "Mar 4, 2024");
    assert_eq!(row.excerpt(), "Some raw content");
    row.created_at = "yesterday".to_string();
    assert_eq!(row.date_label(), "yesterday");
}

#[test]
fn category_counts_match_category_pages() {
    let index = build_index(dirs(&["x", "y"]), vec![
        post("a", "x", 1, false),
        post("b", "y", 2, false),
        post("c", "x", 3, false),
        post("d", "x", 4, true),
    ]);
    for c in &index.categories {
        let listed = index.posts_in_category(&c.slug);
        assert_eq!(listed.len(), c.post_count);
        assert!(listed.iter().all(|p| p.category == c.slug && !p.draft));
    }
    assert_eq!(index.all_posts.len(), 3);
}

#[test]
fn excerpt_is_at_most_one_character_longer_than_asked() {
    let long = "word ".repeat(100);
    for max in [0usize, 1, 5, 17, 180] {
        let e = plain_excerpt(&long, max);
        assert!(e.chars().count() <= max + 1);
    }
    assert_eq!(plain_excerpt("  fits  ", 10), "fits");
}

#[test]
fn timestamp_range_is_chronos() {
    assert!(Timestamp::new(8_210_266_876_799, 0).is_some());
    assert!(Timestamp::new(8_210_266_876_800, 0).is_none());
    assert!(Timestamp::new(-8_334_601_228_800, 0).is_some());
    assert!(Timestamp::new(-8_334_601_228_801, 0).is_none());
    assert!(Timestamp::new(59, 1_500_000_000).is_some());
    assert!(Timestamp::new(58, 1_500_000_000).is_none());
    assert!(Timestamp::new(59, 2_000_000_000).is_none());
    assert!(Timestamp::new(0, 999_999_999).is_some());
}

#[test]
fn trim_knows_unicode_white_space() {
    assert_eq!(trim("\u{3000}\u{a0}x y\u{2029}\u{85}"), "x y");
    assert_eq!(trim("\u{200b}x"), "\u{200b}x");
}

fn dirs(names: &[&str]) -> Vec<String> {
    names.iter().map(|n| n.to_string()).collect()
}

#[test]
fn every_content_folder_is_a_category() {
    let index = build_index(
        dirs(&["drafts-only", "empty", "software-development"]),
        vec![
            post("wip", "drafts-only", 5, true),
            post("acid", "software-development", 10, false),
        ],
    );
    let cats: Vec<(&str, &str, usize)> = index
        .categories
        .iter()
        .map(|c| (c.slug.as_str(), c.name.as_str(), c.post_count))
        .collect();
    assert_eq!(
        cats,
        vec![
            ("drafts-only", "Drafts Only", 0),
            ("empty", "Empty", 0),
            ("software-development", "Software Development", 1),
        ]
    );
    assert!(index.category("empty").unwrap().post_count == 0);
    assert!(index.posts_in_category("drafts-only").is_empty());
}
