use vstd::prelude::*;

use crate::frontmatter::{
    bom, closing_fence, fence, find_from, first_occurrence, frontmatter_parts, occurs_at, starts_with,
    strip_bom, strip_line_break, Frontmatter,
};
use crate::models::CreatePost;
use crate::text::{chars_of, slug_of, slugify};

verus! {

/// The `Debug` rendering of a string: quoted, with escapes.
pub uninterp spec fn str_debug(s: Seq<char>) -> Seq<char>;

/// Trusted: `format!("{:?}", s)`, the `Debug` rendering of a string slice.
/// The result is the name `str_debug(s@)`.
#[verifier::external_body]
fn debug_quoted(s: &str) -> (text: String)
    ensures
        text@ == str_debug(s@),
{
    format!("{:?}", s)
}

/// A character allowed in a path component: ASCII lowercase letter, ASCII
/// digit, `-` or `_`.
pub open spec fn is_safe_char(c: char) -> bool {
    ('a' <= c && c <= 'z') || ('0' <= c && c <= '9') || c == '-' || c == '_'
}

/// A non-empty path component made of safe characters only.
pub open spec fn is_safe_component(s: Seq<char>) -> bool {
    s.len() > 0 && forall|i: int| 0 <= i < s.len() ==> is_safe_char(#[trigger] s[i])
}

/// A path component that was refused.
#[derive(Debug)]
pub struct UnsafeComponent {
    pub component: String,
}

/// The text of a refusal, such as `unsafe component is "../etc"`.
pub open spec fn refusal_message(component: Seq<char>) -> Seq<char> {
    "unsafe component is "@ + str_debug(component)
}

impl UnsafeComponent {
    /// The text of the refusal.
    pub fn message(&self) -> (m: String)
        ensures
            m@ == refusal_message(self.component@),
    {
        let mut m = String::from_str("unsafe component is ");
        let quoted = debug_quoted(self.component.as_str());
        m.append(quoted.as_str());
        m
    }
}

/// `s` unchanged when it is a safe path component, else the refusal.
pub fn safe_component(s: &str) -> (r: Result<&str, UnsafeComponent>)
    ensures
        r is Ok <==> is_safe_component(s@),
        r matches Ok(t) ==> t@ == s@,
        r matches Err(e) ==> e.component@ == s@,
{
    let chars = chars_of(s);
    let mut ok = chars.len() > 0;
    let mut i: usize = 0;
    while i < chars.len()
        invariant
            i <= chars.len(),
            chars@ == s@,
            ok == (chars.len() > 0 && forall|k: int| 0 <= k < i ==> is_safe_char(#[trigger] chars@[k])),
        decreases chars.len() - i,
    {
        let c = chars[i];
        let good = ('a' <= c && c <= 'z') || ('0' <= c && c <= '9') || c == '-' || c == '_';
        ok = ok && good;
        i += 1;
    }
    if ok {
        Ok(s)
    } else {
        Err(UnsafeComponent { component: String::from_str(s) })
    }
}

/// Where a new post's file goes and the frontmatter it starts with.
#[derive(Debug)]
pub struct NewPostFile {
    /// The folder, under the content folder, that is the post's category.
    pub category: String,
    /// The file's stem, also the post's slug.
    pub slug: String,
    pub frontmatter: Frontmatter,
}

/// Plans the markdown file for a new post: the category must be a safe path
/// component as given, and the slug, the title lowercased with spaces turned
/// into hyphens, must be one too. The frontmatter holds the title and the
/// slug only.
pub fn plan_post_file(payload: &CreatePost) -> (r: Result<NewPostFile, UnsafeComponent>)
    ensures
        r is Ok <==> is_safe_component(payload.category@) && is_safe_component(slug_of(payload.title@)),
        r matches Ok(f) ==> {
            &&& f.category@ == payload.category@
            &&& f.slug@ == slug_of(payload.title@)
            &&& f.frontmatter.title@ == payload.title@
            &&& f.frontmatter.slug matches Some(s) && s@ == slug_of(payload.title@)
            &&& f.frontmatter.categories@.len() == 0
            &&& f.frontmatter.tags@.len() == 0
            &&& !f.frontmatter.draft
        },
        r matches Err(e) ==> e.component@ == if !is_safe_component(payload.category@) {
            payload.category@
        } else {
            slug_of(payload.title@)
        },
{
    if let Err(e) = safe_component(payload.category.as_str()) {
        return Err(e);
    }
    let slug = slugify(payload.title.as_str());
    if let Err(e) = safe_component(slug.as_str()) {
        return Err(e);
    }
    let frontmatter = Frontmatter {
        title: payload.title.clone(),
        slug: Some(slug.clone()),
        categories: Vec::new(),
        tags: Vec::new(),
        draft: false,
    };
    Ok(NewPostFile { category: payload.category.clone(), slug, frontmatter })
}

/// The file name of a post with slug `slug`.
pub open spec fn post_file_name(slug: Seq<char>) -> Seq<char> {
    slug + ".md"@
}

/// The file name of a new post.
pub fn file_name(slug: &str) -> (name: String)
    ensures
        name@ == post_file_name(slug@),
{
    let mut name = String::from_str(slug);
    name.append(".md");
    name
}

/// The text of a post file: the frontmatter YAML between fences, then the body.
pub open spec fn post_file(yaml: Seq<char>, content: Seq<char>) -> Seq<char> {
    "---\n"@ + yaml + "---\n"@ + content
}

/// The text of a post file holding `yaml` as frontmatter and `content` as body.
pub fn post_file_text(yaml: &str, content: &str) -> (text: String)
    ensures
        text@ == post_file(yaml@, content@),
{
    let mut text = String::from_str("---\n");
    text.append(yaml);
    text.append("---\n");
    text.append(content);
    text
}

proof fn lemma_find_from_first(s: Seq<char>, pat: Seq<char>, i: int, k: int)
    requires
        0 <= i <= k,
        occurs_at(s, pat, k),
        forall|p: int| i <= p < k ==> !occurs_at(s, pat, p),
    ensures
        find_from(s, pat, i) == Some(k),
    decreases k - i,
{
    if i < k {
        lemma_find_from_first(s, pat, i + 1, k);
    }
}

/// What a post file written from `yaml` (a YAML document ending in a line
/// break, with no `\n---` inside) and `content` reads back as: the YAML
/// without its final line break as the frontmatter, and `content` as the body.
pub proof fn lemma_post_file_reads_back(yaml: Seq<char>, content: Seq<char>)
    requires
        yaml.len() > 0,
        yaml.last() == '\n',
        forall|p: int| !occurs_at(yaml.drop_last(), closing_fence(), p),
    ensures
        frontmatter_parts(post_file(yaml, content)) == Ok::<(Seq<char>, Seq<char>), Seq<char>>(
            (yaml.drop_last(), content),
        ),
{
    reveal_strlit("---\n");
    let file = post_file(yaml, content);
    let y = yaml.drop_last();
    assert(file[0] == '-');
    assert(file.len() > 0 && file[0] != bom());
    let s = strip_bom(file);
    assert(s == file);
    assert(s.take(3) =~= fence());
    assert(starts_with(s, fence()));
    let after = s.skip(3);
    assert(after[0] == '\n');
    let rest = strip_line_break(after);
    let tail = "\n---\n"@;
    reveal_strlit("\n---\n");
    assert(rest =~= y + tail + content) by {
        assert(yaml =~= y.push('\n'));
    }
    let pat = closing_fence();
    let n = y.len() as int;
    assert(rest.subrange(n, n + 4) =~= pat);
    assert forall|p: int| 0 <= p < n implies !occurs_at(rest, pat, p) by {
        if p + 4 <= n {
            assert(rest.subrange(p, p + 4) =~= y.subrange(p, p + 4));
            assert(!occurs_at(y, pat, p));
        } else {
            assert(rest[n] == '\n');
            assert(rest.subrange(p, p + 4)[n - p] == '\n');
            assert(pat[n - p] == '-');
        }
    }
    lemma_find_from_first(rest, pat, 0, n);
    assert(rest.take(n) =~= y);
    assert(rest.skip(n + 4) =~= seq!['\n'] + content);
    assert(strip_line_break(rest.skip(n + 4)) =~= content);
}

/// A safe path component holds no `/`, `\` or `.`, so it cannot climb out
/// of, or reach across, the content folder.
pub proof fn lemma_safe_component_cannot_traverse(s: Seq<char>)
    requires
        is_safe_component(s),
    ensures
        forall|i: int| 0 <= i < s.len() ==> #[trigger] s[i] != '/' && s[i] != '\\' && s[i] != '.',
{
    assert forall|i: int| 0 <= i < s.len() implies #[trigger] s[i] != '/' && s[i] != '\\' && s[i] != '.' by {
        assert(is_safe_char(s[i]));
    }
}

/// The alphabet of a safe path component, by code point: a component is
/// safe exactly when it is non-empty and each of its characters is an ASCII
/// lowercase letter `a` to `z`, an ASCII digit `0` to `9`, `-` or `_`; any
/// other character (uppercase, space, `.`, `/`, non-ASCII) makes it unsafe.
pub proof fn lemma_safe_component_alphabet(s: Seq<char>)
    ensures
        is_safe_component(s) <==> s.len() > 0 && forall|i: int|
            0 <= i < s.len() ==> {
                let u = #[trigger] s[i] as int;
                (97 <= u <= 122) || (48 <= u <= 57) || u == 45 || u == 95
            },
{
    assert forall|i: int| 0 <= i < s.len() implies (is_safe_char(#[trigger] s[i]) <==> {
        let u = s[i] as int;
        (97 <= u <= 122) || (48 <= u <= 57) || u == 45 || u == 95
    }) by {}
}

} // verus!
