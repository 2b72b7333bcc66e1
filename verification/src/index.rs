use vstd::prelude::*;

use crate::date::{later, Timestamp};
use crate::frontmatter::Frontmatter;
use crate::markdown::{excerpt_of, markdown_html, plain_excerpt, render_markdown};
use crate::models::{category_name, excerpt_chars, posts_view, Category, Post, PostView};
use crate::text::{
    lemma_text_less_asymmetric, lemma_text_less_transitive, same_text, text_less, text_precedes, trim,
    trimmed,
};

verus! {

broadcast use vstd::seq_lib::group_filter_ensures;

/// Posts run from newest to oldest.
pub open spec fn newest_first(ps: Seq<PostView>) -> bool {
    forall|i: int, j: int| 0 <= i < j < ps.len() ==> !later(#[trigger] ps[j].date, #[trigger] ps[i].date)
}

/// Some position among the first `n` of `perm` holds `k`.
pub open spec fn hits(perm: Seq<int>, n: int, k: int) -> bool {
    exists|pos: int| 0 <= pos < n && #[trigger] perm[pos] == k
}

/// `out` holds the first `n` posts of `input`, reordered by `perm`, newest
/// first, with posts of equal date kept in their input order.
pub open spec fn sorted_prefix_by(input: Seq<PostView>, out: Seq<PostView>, perm: Seq<int>, n: int) -> bool {
    &&& perm.len() == n
    &&& out.len() == n
    &&& forall|k: int| 0 <= k < n ==> 0 <= #[trigger] perm[k] < n
    &&& forall|a: int, b: int| 0 <= a < b < n ==> #[trigger] perm[a] != #[trigger] perm[b]
    &&& forall|k: int| 0 <= k < n ==> #[trigger] out[k] == input[perm[k]]
    &&& forall|k: int| 0 <= k < n ==> #[trigger] hits(perm, n, k)
    &&& newest_first(out)
    &&& forall|a: int, b: int|
        0 <= a < b < n && (#[trigger] out[a]).date == (#[trigger] out[b]).date ==> perm[a] < perm[b]
}

/// `out` is `input` sorted newest first by a stable sort.
pub open spec fn stably_newest_first(input: Seq<PostView>, out: Seq<PostView>) -> bool {
    exists|perm: Seq<int>| sorted_prefix_by(input, out, perm, input.len() as int)
}

proof fn lemma_insert_step(input: Seq<PostView>, out: Seq<PostView>, perm: Seq<int>, i: int, j: int)
    requires
        0 <= i < input.len(),
        sorted_prefix_by(input, out, perm, i),
        0 <= j <= out.len(),
        forall|k: int| 0 <= k < j ==> !later(input[i].date, #[trigger] out[k].date),
        j < out.len() ==> later(input[i].date, out[j].date),
    ensures
        sorted_prefix_by(input, out.insert(j, input[i]), perm.insert(j, i), i + 1),
{
    let out2 = out.insert(j, input[i]);
    let perm2 = perm.insert(j, i);
    assert forall|k: int| j < k < out2.len() implies later(input[i].date, #[trigger] out2[k].date) by {
        assert(out2[k] == out[k - 1]);
        if k - 1 > j {
            assert(!later(out[k - 1].date, out[j].date));
        }
    }
    assert forall|k: int| 0 <= k < i + 1 implies #[trigger] out2[k] == input[perm2[k]] by {
        if k < j {
            assert(out2[k] == out[k]);
        } else if k > j {
            assert(out2[k] == out[k - 1]);
        }
    }
    assert forall|a: int, b: int| 0 <= a < b < out2.len() implies !later(#[trigger] out2[b].date, #[trigger] out2[a].date) by {
        if a < j && b < j {
            assert(out2[a] == out[a] && out2[b] == out[b]);
        } else if a > j && b > j {
            assert(out2[a] == out[a - 1] && out2[b] == out[b - 1]);
        } else if a < j && b > j {
            assert(out2[a] == out[a] && out2[b] == out[b - 1]);
            assert(later(input[i].date, out[b - 1].date));
            assert(!later(input[i].date, out[a].date));
        } else if a == j {
            assert(out2[b] == out[b - 1]);
        } else {
            assert(out2[a] == out[a]);
        }
    }
    assert forall|a: int, b: int|
        0 <= a < b < i + 1 && (#[trigger] out2[a]).date == (#[trigger] out2[b]).date implies perm2[a] < perm2[b] by {
        if a < j && b < j {
            assert(out2[a] == out[a] && out2[b] == out[b]);
        } else if a > j && b > j {
            assert(out2[a] == out[a - 1] && out2[b] == out[b - 1]);
        } else if a < j && b > j {
            assert(out2[a] == out[a] && out2[b] == out[b - 1]);
        } else if a == j {
            assert(out2[b] == out[b - 1]);
            assert(later(input[i].date, out[b - 1].date));
        } else {
            assert(out2[a] == out[a]);
        }
    }
    assert forall|a: int, b: int| 0 <= a < b < i + 1 implies #[trigger] perm2[a] != #[trigger] perm2[b] by {
        if a < j && b < j {
        } else if a > j && b > j {
            assert(perm2[a] == perm[a - 1] && perm2[b] == perm[b - 1]);
        } else if a < j && b > j {
            assert(perm2[b] == perm[b - 1]);
        } else if a == j {
            assert(perm2[b] == perm[b - 1]);
        }
    }
    assert forall|k: int| 0 <= k < i + 1 implies 0 <= #[trigger] perm2[k] < i + 1 by {
        if k > j {
            assert(perm2[k] == perm[k - 1]);
        }
    }
    assert forall|k: int| 0 <= k < i + 1 implies #[trigger] hits(perm2, i + 1, k) by {
        if k == i {
            assert(perm2[j] == i);
        } else {
            assert(hits(perm, i, k));
            let pos = choose|pos: int| 0 <= pos < i && #[trigger] perm[pos] == k;
            if pos < j {
                assert(perm2[pos] == k);
            } else {
                assert(perm2[pos + 1] == k);
            }
        }
    }
}

/// `posts` sorted newest first; posts of equal date keep their order.
pub fn sort_newest_first(posts: Vec<Post>) -> (sorted: Vec<Post>)
    ensures
        stably_newest_first(posts_view(posts@), posts_view(sorted@)),
{
    let ghost input = posts_view(posts@);
    let mut rest = posts;
    let mut out: Vec<Post> = Vec::new();
    let ghost mut perm: Seq<int> = Seq::empty();
    let n = rest.len();
    let mut i: usize = 0;
    assert(posts_view(rest@) =~= input.skip(0));
    while rest.len() > 0
        invariant
            n == input.len(),
            i + rest.len() == input.len(),
            posts_view(rest@) == input.skip(i as int),
            sorted_prefix_by(input, posts_view(out@), perm, i as int),
        decreases rest.len(),
    {
        assert(input[i as int] == posts_view(rest@)[0]);
        let ghost old_rest = rest@;
        let p = rest.remove(0);
        assert(posts_view(rest@) =~= posts_view(old_rest).drop_first());
        assert(input.skip(i as int).drop_first() =~= input.skip(i + 1));
        let mut j: usize = 0;
        while j < out.len() && !p.date.is_later_than(&out[j].date)
            invariant
                j <= out.len(),
                p@ == input[i as int],
                forall|k: int| 0 <= k < j ==> !later(input[i as int].date, #[trigger] posts_view(out@)[k].date),
            decreases out.len() - j,
        {
            j += 1;
        }
        proof {
            lemma_insert_step(input, posts_view(out@), perm, i as int, j as int);
        }
        let ghost before = out@;
        out.insert(j, p);
        assert(posts_view(out@) =~= posts_view(before).insert(j as int, input[i as int]));
        proof {
            perm = perm.insert(j as int, i as int);
        }
        i += 1;
    }
    out
}

/// The posts of `ps` that are not drafts, in order.
pub open spec fn published(ps: Seq<PostView>) -> Seq<PostView> {
    ps.filter(|p: PostView| !p.draft)
}

/// `posts` without its drafts, in order.
pub fn drop_drafts(posts: Vec<Post>) -> (kept: Vec<Post>)
    ensures
        posts_view(kept@) == published(posts_view(posts@)),
{
    let ghost input = posts_view(posts@);
    let mut rest = posts;
    let mut kept: Vec<Post> = Vec::new();
    let mut i: usize = 0;
    assert(posts_view(rest@) =~= input.skip(0));
    assert(input.take(0) =~= Seq::<PostView>::empty());
    let n = rest.len();
    while rest.len() > 0
        invariant
            n == input.len(),
            i + rest.len() == input.len(),
            posts_view(rest@) == input.skip(i as int),
            posts_view(kept@) == published(input.take(i as int)),
        decreases rest.len(),
    {
        assert(input[i as int] == posts_view(rest@)[0]);
        let ghost old_rest = rest@;
        let p = rest.remove(0);
        assert(posts_view(rest@) =~= posts_view(old_rest).drop_first());
        assert(input.skip(i as int).drop_first() =~= input.skip(i + 1));
        assert(input.take(i + 1) =~= input.take(i as int).push(input[i as int]));
        proof {
            input.take(i as int).lemma_filter_push(input[i as int], |p: PostView| !p.draft);
        }
        if !p.draft {
            let ghost before = kept@;
            kept.push(p);
            assert(posts_view(kept@) =~= posts_view(before).push(input[i as int]));
        }
        i += 1;
    }
    assert(input.take(i as int) =~= input);
    kept
}

/// The predicate "belongs to the category `slug`".
pub open spec fn in_category(slug: Seq<char>) -> spec_fn(PostView) -> bool {
    |p: PostView| p.category == slug
}

/// How many of `ps` belong to the category `slug`.
pub open spec fn category_count(ps: Seq<PostView>, slug: Seq<char>) -> nat {
    ps.filter(in_category(slug)).len()
}

/// The distinct categories of `posts` and `folders`, each with how many
/// posts it holds; a category no post falls in is one of the folders.
fn tally_categories(posts: &Vec<Post>, folders: &Vec<String>) -> (r: (Vec<String>, Vec<usize>))
    ensures
        r.0.len() == r.1.len(),
        r.0.deep_view().no_duplicates(),
        forall|k: int| 0 <= k < r.1.len() ==>
            #[trigger] r.1@[k] == category_count(posts_view(posts@), r.0.deep_view()[k]) && (r.1@[k] > 0
                || folders.deep_view().contains(r.0.deep_view()[k])),
        forall|m: int| 0 <= m < posts.len() ==> r.0.deep_view().contains(#[trigger] posts@[m]@.category),
        forall|f: int| 0 <= f < folders.len() ==> r.0.deep_view().contains(#[trigger] folders.deep_view()[f]),
{
    let ghost ps = posts_view(posts@);
    let mut slugs: Vec<String> = Vec::new();
    let mut counts: Vec<usize> = Vec::new();
    let mut i: usize = 0;
    while i < posts.len()
        invariant
            i <= posts.len(),
            ps == posts_view(posts@),
            slugs.len() == counts.len(),
            slugs.deep_view().no_duplicates(),
            forall|k: int| 0 <= k < counts.len() ==>
                #[trigger] counts@[k] == category_count(ps.take(i as int), slugs.deep_view()[k]) && counts@[k] > 0,
            forall|m: int| 0 <= m < i ==> slugs.deep_view().contains(#[trigger] ps[m].category),
        decreases posts.len() - i,
    {
        let cat = &posts[i].category;
        let ghost sv = slugs.deep_view();
        let ghost pre = ps.take(i as int);
        let ghost p = ps[i as int];
        assert(ps.take(i + 1) =~= pre.push(p));
        assert forall|k: int| 0 <= k < sv.len() implies category_count(ps.take(i + 1), sv[k])
            == category_count(pre, sv[k]) + if p.category == sv[k] { 1nat } else { 0nat } by {
            pre.lemma_filter_push(p, in_category(sv[k]));
        }
        let mut k: usize = 0;
        while k < slugs.len() && !same_text(slugs[k].as_str(), cat.as_str())
            invariant
                k <= slugs.len(),
                sv == slugs.deep_view(),
                cat@ == p.category,
                forall|q: int| 0 <= q < k ==> sv[q] != p.category,
            decreases slugs.len() - k,
        {
            k += 1;
        }
        if k < slugs.len() {
            assert(counts@[k as int] <= pre.len()) by {
                pre.filter(in_category(sv[k as int])).lemma_filter_len(in_category(sv[k as int]));
            }
            let ghost old_counts = counts@;
            let c = counts[k] + 1;
            counts.set(k, c);
            assert forall|q: int| 0 <= q < counts.len() && q != k implies sv[q] != p.category by {
                assert(sv.no_duplicates());
            }
            assert forall|q: int| 0 <= q < counts.len() implies
                #[trigger] counts@[q] == category_count(ps.take(i + 1), slugs.deep_view()[q]) && counts@[q] > 0 by {
                if q != k {
                    assert(counts@[q] == old_counts[q]);
                }
            }
            assert(sv.contains(p.category)) by {
                assert(sv[k as int] == p.category);
            }
        } else {
            let ghost old_counts = counts@;
            slugs.push(cat.clone());
            counts.push(1);
            assert(slugs.deep_view() =~= sv.push(p.category));
            assert(category_count(pre, p.category) == 0) by {
                assert forall|m: int| 0 <= m < pre.len() implies pre[m].category != p.category by {
                    assert(sv.contains(pre[m].category));
                }
                assert(pre.filter(in_category(p.category)).len() == 0) by {
                    if pre.filter(in_category(p.category)).len() > 0 {
                        pre.lemma_filter_contains_rev(in_category(p.category), pre.filter(in_category(p.category))[0]);
                        let w = pre.filter(in_category(p.category))[0];
                        pre.lemma_filter_pred(in_category(p.category), 0);
                    }
                }
            }
            assert(slugs.deep_view().contains(p.category)) by {
                assert(slugs.deep_view()[sv.len() as int] == p.category);
            }
            assert forall|q: int| 0 <= q < counts.len() implies
                #[trigger] counts@[q] == category_count(ps.take(i + 1), slugs.deep_view()[q]) && counts@[q] > 0 by {
                if q < sv.len() {
                    assert(counts@[q] == old_counts[q]);
                    assert(slugs.deep_view()[q] == sv[q]);
                    assert(sv[q] != p.category) by {
                        if sv[q] == p.category {
                            assert(sv.contains(p.category));
                        }
                    }
                } else {
                    pre.lemma_filter_push(p, in_category(p.category));
                    assert(slugs.deep_view()[q] == p.category);
                }
            }
        }
        i += 1;
        assert forall|m: int| 0 <= m < i implies slugs.deep_view().contains(#[trigger] ps[m].category) by {
            if m < i - 1 {
                let w = choose|x: int| 0 <= x < sv.len() && sv[x] == ps[m].category;
                assert(slugs.deep_view()[w] == ps[m].category);
            }
        }
    }
    assert(ps.take(i as int) =~= ps);
    assert forall|m: int| 0 <= m < posts.len() implies slugs.deep_view().contains(#[trigger] ps[m].category) by {
        assert(ps[m] == posts@[m]@);
    }
    let ghost fv = folders.deep_view();
    let mut j: usize = 0;
    while j < folders.len()
        invariant
            j <= folders.len(),
            ps == posts_view(posts@),
            fv == folders.deep_view(),
            slugs.len() == counts.len(),
            slugs.deep_view().no_duplicates(),
            forall|k: int| 0 <= k < counts.len() ==>
                #[trigger] counts@[k] == category_count(ps, slugs.deep_view()[k]) && (counts@[k] > 0
                    || fv.contains(slugs.deep_view()[k])),
            forall|m: int| 0 <= m < posts.len() ==> slugs.deep_view().contains(#[trigger] ps[m].category),
            forall|f: int| 0 <= f < j ==> slugs.deep_view().contains(#[trigger] fv[f]),
        decreases folders.len() - j,
    {
        let folder = &folders[j];
        let ghost sv = slugs.deep_view();
        assert(folder@ == fv[j as int]);
        let mut k: usize = 0;
        while k < slugs.len() && !same_text(slugs[k].as_str(), folder.as_str())
            invariant
                k <= slugs.len(),
                sv == slugs.deep_view(),
                folder@ == fv[j as int],
                forall|q: int| 0 <= q < k ==> sv[q] != fv[j as int],
            decreases slugs.len() - k,
        {
            k += 1;
        }
        if k == slugs.len() {
            let ghost old_counts = counts@;
            slugs.push(folder.clone());
            counts.push(0);
            assert(slugs.deep_view() =~= sv.push(fv[j as int]));
            assert(!sv.contains(fv[j as int]));
            assert(category_count(ps, fv[j as int]) == 0) by {
                if ps.filter(in_category(fv[j as int])).len() > 0 {
                    let w = ps.filter(in_category(fv[j as int]))[0];
                    ps.lemma_filter_pred(in_category(fv[j as int]), 0);
                    ps.lemma_filter_contains_rev(in_category(fv[j as int]), w);
                    let m = choose|m: int| 0 <= m < ps.len() && ps[m] == w;
                    assert(sv.contains(ps[m].category));
                }
            }
            assert(fv.contains(fv[j as int]));
            assert forall|q: int| 0 <= q < counts.len() implies #[trigger] counts@[q] == category_count(
                ps,
                slugs.deep_view()[q],
            ) && (counts@[q] > 0 || fv.contains(slugs.deep_view()[q])) by {
                if q < sv.len() {
                    assert(counts@[q] == old_counts[q]);
                    assert(slugs.deep_view()[q] == sv[q]);
                }
            }
            assert forall|m: int| 0 <= m < posts.len() implies slugs.deep_view().contains(#[trigger] ps[m].category) by {
                let w = choose|x: int| 0 <= x < sv.len() && sv[x] == ps[m].category;
                assert(slugs.deep_view()[w] == ps[m].category);
            }
            assert forall|f: int| 0 <= f < j + 1 implies slugs.deep_view().contains(#[trigger] fv[f]) by {
                if f < j {
                    let w = choose|x: int| 0 <= x < sv.len() && sv[x] == fv[f];
                    assert(slugs.deep_view()[w] == fv[f]);
                } else {
                    assert(slugs.deep_view()[sv.len() as int] == fv[f]);
                }
            }
        } else {
            assert(sv[k as int] == fv[j as int]);
        }
        j += 1;
    }
    assert forall|m: int| 0 <= m < posts.len() implies slugs.deep_view().contains(#[trigger] posts@[m]@.category) by {
        assert(ps[m] == posts@[m]@);
    }
    (slugs, counts)
}

/// Categories run in ascending order of name.
pub open spec fn names_ascending(cs: Seq<Category>) -> bool {
    forall|a: int, b: int| 0 <= a < b < cs.len() ==> !text_less(#[trigger] cs[b].name@, #[trigger] cs[a].name@)
}

/// `out` holds the first `n` categories of `input`, each once, reordered by
/// `perm`, in ascending order of name.
pub open spec fn names_sorted_by(input: Seq<Category>, out: Seq<Category>, perm: Seq<int>, n: int) -> bool {
    &&& perm.len() == n
    &&& out.len() == n
    &&& forall|k: int| 0 <= k < n ==> 0 <= #[trigger] perm[k] < n
    &&& forall|a: int, b: int| 0 <= a < b < n ==> #[trigger] perm[a] != #[trigger] perm[b]
    &&& forall|k: int| 0 <= k < n ==> #[trigger] out[k] == input[perm[k]]
    &&& forall|k: int| 0 <= k < n ==> #[trigger] hits(perm, n, k)
    &&& names_ascending(out)
}

proof fn lemma_name_insert_step(input: Seq<Category>, out: Seq<Category>, perm: Seq<int>, i: int, j: int)
    requires
        0 <= i < input.len(),
        names_sorted_by(input, out, perm, i),
        0 <= j <= out.len(),
        forall|k: int| 0 <= k < j ==> !text_less(input[i].name@, #[trigger] out[k].name@),
        j < out.len() ==> text_less(input[i].name@, out[j].name@),
    ensures
        names_sorted_by(input, out.insert(j, input[i]), perm.insert(j, i), i + 1),
{
    let c = input[i];
    let out2 = out.insert(j, c);
    let perm2 = perm.insert(j, i);
    assert forall|k: int| 0 <= k < i + 1 implies #[trigger] out2[k] == input[perm2[k]] by {
        if k < j {
            assert(out2[k] == out[k]);
        } else if k > j {
            assert(out2[k] == out[k - 1]);
        }
    }
    assert forall|a: int, b: int| 0 <= a < b < out2.len() implies !text_less(#[trigger] out2[b].name@, #[trigger] out2[a].name@) by {
        if a < j && b < j {
            assert(out2[a] == out[a] && out2[b] == out[b]);
        } else if a > j && b > j {
            assert(out2[a] == out[a - 1] && out2[b] == out[b - 1]);
        } else if a < j && b > j {
            assert(out2[a] == out[a] && out2[b] == out[b - 1]);
            if text_less(out[b - 1].name@, out[a].name@) {
                if b - 1 > j {
                    lemma_text_less_transitive(out[b - 1].name@, out[a].name@, c.name@);
                } else {
                    lemma_text_less_transitive(c.name@, out[b - 1].name@, out[a].name@);
                }
                lemma_text_less_asymmetric(c.name@, out[a].name@);
            }
            if b - 1 > j && text_less(out[b - 1].name@, out[a].name@) {
            }
        } else if a == j {
            assert(out2[b] == out[b - 1]);
            lemma_text_less_asymmetric(c.name@, out[j].name@);
            if b - 1 > j && text_less(out[b - 1].name@, c.name@) {
                lemma_text_less_transitive(out[b - 1].name@, c.name@, out[j].name@);
            }
        } else {
            assert(out2[a] == out[a]);
        }
    }
    assert forall|a: int, b: int| 0 <= a < b < i + 1 implies #[trigger] perm2[a] != #[trigger] perm2[b] by {
        if a < j && b < j {
        } else if a > j && b > j {
            assert(perm2[a] == perm[a - 1] && perm2[b] == perm[b - 1]);
        } else if a < j && b > j {
            assert(perm2[b] == perm[b - 1]);
        } else if a == j {
            assert(perm2[b] == perm[b - 1]);
        }
    }
    assert forall|k: int| 0 <= k < i + 1 implies 0 <= #[trigger] perm2[k] < i + 1 by {
        if k > j {
            assert(perm2[k] == perm[k - 1]);
        }
    }
    assert forall|k: int| 0 <= k < i + 1 implies #[trigger] hits(perm2, i + 1, k) by {
        if k == i {
            assert(perm2[j] == i);
        } else {
            assert(hits(perm, i, k));
            let pos = choose|pos: int| 0 <= pos < i && #[trigger] perm[pos] == k;
            if pos < j {
                assert(perm2[pos] == k);
            } else {
                assert(perm2[pos + 1] == k);
            }
        }
    }
}

/// `cats` in ascending order of name.
fn sort_by_name(cats: Vec<Category>) -> (sorted: Vec<Category>)
    ensures
        exists|perm: Seq<int>| names_sorted_by(cats@, sorted@, perm, cats.len() as int),
{
    let ghost input = cats@;
    let mut rest = cats;
    let mut out: Vec<Category> = Vec::new();
    let ghost mut perm: Seq<int> = Seq::empty();
    let n = rest.len();
    let mut i: usize = 0;
    assert(rest@ =~= input.skip(0));
    while rest.len() > 0
        invariant
            n == input.len(),
            i + rest.len() == n,
            rest@ == input.skip(i as int),
            names_sorted_by(input, out@, perm, i as int),
        decreases rest.len(),
    {
        assert(input[i as int] == rest@[0]);
        let c = rest.remove(0);
        assert(rest@ =~= input.skip(i + 1));
        let mut j: usize = 0;
        while j < out.len() && !text_precedes(c.name.as_str(), out[j].name.as_str())
            invariant
                j <= out.len(),
                c == input[i as int],
                forall|k: int| 0 <= k < j ==> !text_less(c.name@, #[trigger] out@[k].name@),
            decreases out.len() - j,
        {
            j += 1;
        }
        proof {
            lemma_name_insert_step(input, out@, perm, i as int, j as int);
        }
        out.insert(j, c);
        proof {
            perm = perm.insert(j as int, i as int);
        }
        i += 1;
    }
    out
}

/// Some category of `cats` has the slug `slug`.
pub open spec fn has_category(cats: Seq<Category>, slug: Seq<char>) -> bool {
    exists|k: int| 0 <= k < cats.len() && (#[trigger] cats[k]).slug@ == slug
}

/// `cats` describe the categories of `ps` in the content folders `folders`:
/// one per folder and per distinct category of a post, each named from its
/// slug and counting its posts (none for an empty or drafts-only folder), in
/// ascending order of name.
pub open spec fn categories_match(cats: Seq<Category>, ps: Seq<PostView>, folders: Seq<Seq<char>>) -> bool {
    &&& forall|k: int| 0 <= k < cats.len() ==> {
        &&& (#[trigger] cats[k]).name@ == category_name(cats[k].slug@)
        &&& cats[k].post_count == category_count(ps, cats[k].slug@)
        &&& cats[k].post_count > 0 || folders.contains(cats[k].slug@)
    }
    &&& forall|a: int, b: int| 0 <= a < b < cats.len() ==> (#[trigger] cats[a]).slug@ != (#[trigger] cats[b]).slug@
    &&& forall|m: int| 0 <= m < ps.len() ==> has_category(cats, #[trigger] ps[m].category)
    &&& forall|f: int| 0 <= f < folders.len() ==> has_category(cats, #[trigger] folders[f])
    &&& names_ascending(cats)
}

/// The categories of `posts` in the content folders `folders`: one per folder
/// and per distinct category of a post, each named from its slug and counting
/// its posts, in ascending order of name.
pub fn categories_of(posts: &Vec<Post>, folders: &Vec<String>) -> (cats: Vec<Category>)
    ensures
        categories_match(cats@, posts_view(posts@), folders.deep_view()),
{
    let ghost ps = posts_view(posts@);
    let ghost fv = folders.deep_view();
    let (slugs, counts) = tally_categories(posts, folders);
    let ghost sv = slugs.deep_view();
    let mut unsorted: Vec<Category> = Vec::new();
    let mut k: usize = 0;
    while k < slugs.len()
        invariant
            k <= slugs.len() == counts.len(),
            sv == slugs.deep_view(),
            unsorted.len() == k,
            forall|q: int| 0 <= q < k ==> {
                &&& (#[trigger] unsorted@[q]).slug@ == sv[q]
                &&& unsorted@[q].name@ == category_name(sv[q])
                &&& unsorted@[q].post_count == counts@[q]
            },
        decreases slugs.len() - k,
    {
        unsorted.push(Category::from_slug(slugs[k].as_str(), counts[k]));
        k += 1;
    }
    let ghost u = unsorted@;
    let cats = sort_by_name(unsorted);
    let ghost perm = choose|perm: Seq<int>| names_sorted_by(u, cats@, perm, u.len() as int);
    assert forall|k: int| 0 <= k < cats.len() implies {
        &&& (#[trigger] cats@[k]).name@ == category_name(cats@[k].slug@)
        &&& cats@[k].post_count == category_count(ps, cats@[k].slug@)
        &&& cats@[k].post_count > 0 || fv.contains(cats@[k].slug@)
    } by {
        assert(cats@[k] == u[perm[k]]);
        assert(counts@[perm[k]] == category_count(ps, sv[perm[k]]));
    }
    assert forall|a: int, b: int| 0 <= a < b < cats.len() implies (#[trigger] cats@[a]).slug@ != (#[trigger] cats@[b]).slug@ by {
        assert(perm[a] != perm[b]);
        assert(sv.no_duplicates());
    }
    assert forall|m: int| 0 <= m < ps.len() implies has_category(cats@, #[trigger] ps[m].category) by {
        assert(ps[m] == posts@[m]@);
        let q = choose|q: int| 0 <= q < sv.len() && sv[q] == ps[m].category;
        assert(hits(perm, u.len() as int, q));
        let pos = choose|pos: int| 0 <= pos < u.len() && #[trigger] perm[pos] == q;
        assert(cats@[pos].slug@ == ps[m].category);
        assert(0 <= pos < cats@.len());
    }
    assert forall|f: int| 0 <= f < fv.len() implies has_category(cats@, #[trigger] fv[f]) by {
        let q = choose|q: int| 0 <= q < sv.len() && sv[q] == fv[f];
        assert(hits(perm, u.len() as int, q));
        let pos = choose|pos: int| 0 <= pos < u.len() && #[trigger] perm[pos] == q;
        assert(cats@[pos].slug@ == fv[f]);
        assert(0 <= pos < cats@.len());
    }
    assert(names_ascending(cats@));
    assert(ps == posts_view(posts@));
    cats
}

/// Snapshot of every published post, ready to serve. Rebuilt wholesale on
/// (re)index, never mutated in place.
#[derive(Debug, Clone)]
pub struct Index {
    pub categories: Vec<Category>,
    pub all_posts: Vec<Post>,
}

impl Default for Index {
    fn default() -> (index: Index)
        ensures
            index.categories@.len() == 0,
            index.all_posts@.len() == 0,
    {
        Index { categories: Vec::new(), all_posts: Vec::new() }
    }
}

/// `index` is what indexing `posts` from the content folders `folders`
/// gives: published posts, newest first, and one category per folder and per
/// category of a published post.
pub open spec fn indexes(index: Index, folders: Seq<Seq<char>>, posts: Seq<PostView>) -> bool {
    &&& stably_newest_first(published(posts), posts_view(index.all_posts@))
    &&& categories_match(index.categories@, posts_view(index.all_posts@), folders)
}

/// Builds the index of the content folders `folders` (each a category,
/// auto-populated) and their `posts`, given in file order: drafts are
/// dropped, the rest sorted newest first (ties keep file order), and one
/// category is listed per folder, with its count of published posts (zero
/// for an empty or drafts-only folder), plus one per other category a
/// published post names, in ascending order of name.
pub fn build_index(folders: Vec<String>, posts: Vec<Post>) -> (index: Index)
    ensures
        indexes(index, folders.deep_view(), posts_view(posts@)),
{
    let kept = drop_drafts(posts);
    let all_posts = sort_newest_first(kept);
    let categories = categories_of(&all_posts, &folders);
    Index { categories, all_posts }
}

impl Index {
    /// The first category with slug `slug`.
    pub fn category(&self, slug: &str) -> (c: Option<&Category>)
        ensures
            match c {
                Some(c) => exists|i: int|
                    0 <= i < self.categories@.len() && self.categories@[i] == *c && c.slug@ == slug@ && forall|k: int|
                        0 <= k < i ==> (#[trigger] self.categories@[k]).slug@ != slug@,
                None => forall|k: int| 0 <= k < self.categories@.len() ==> (#[trigger] self.categories@[k]).slug@ != slug@,
            },
    {
        let mut i: usize = 0;
        while i < self.categories.len()
            invariant
                i <= self.categories.len(),
                forall|k: int| 0 <= k < i ==> (#[trigger] self.categories@[k]).slug@ != slug@,
            decreases self.categories.len() - i,
        {
            if same_text(self.categories[i].slug.as_str(), slug) {
                return Some(&self.categories[i]);
            }
            i += 1;
        }
        None
    }

    /// The post with slug `slug`; when several share it, the last one listed.
    pub fn post_by_slug(&self, slug: &str) -> (p: Option<&Post>)
        ensures
            match p {
                Some(p) => exists|i: int|
                    0 <= i < self.all_posts@.len() && self.all_posts@[i] == *p && p.slug@ == slug@ && forall|k: int|
                        i < k < self.all_posts@.len() ==> (#[trigger] self.all_posts@[k]).slug@ != slug@,
                None => forall|k: int| 0 <= k < self.all_posts@.len() ==> (#[trigger] self.all_posts@[k]).slug@ != slug@,
            },
    {
        let mut i: usize = self.all_posts.len();
        while i > 0
            invariant
                i <= self.all_posts.len(),
                forall|k: int| i <= k < self.all_posts@.len() ==> (#[trigger] self.all_posts@[k]).slug@ != slug@,
            decreases i,
        {
            if same_text(self.all_posts[i - 1].slug.as_str(), slug) {
                return Some(&self.all_posts[i - 1]);
            }
            i -= 1;
        }
        None
    }

    /// The posts of the category `slug`, in index order.
    pub fn posts_in_category(&self, slug: &str) -> (ps: Vec<Post>)
        ensures
            posts_view(ps@) == posts_view(self.all_posts@).filter(in_category(slug@)),
    {
        let ghost all = posts_view(self.all_posts@);
        let mut out: Vec<Post> = Vec::new();
        let mut i: usize = 0;
        assert(all.take(0) =~= Seq::<PostView>::empty());
        while i < self.all_posts.len()
            invariant
                i <= self.all_posts.len(),
                all == posts_view(self.all_posts@),
                posts_view(out@) == all.take(i as int).filter(in_category(slug@)),
            decreases self.all_posts.len() - i,
        {
            proof {
                assert(all.take(i + 1) =~= all.take(i as int).push(all[i as int]));
                all.take(i as int).lemma_filter_push(all[i as int], in_category(slug@));
            }
            if same_text(self.all_posts[i].category.as_str(), slug) {
                let ghost before = out@;
                out.push(self.all_posts[i].duplicate());
                assert(posts_view(out@) =~= posts_view(before).push(all[i as int]));
            }
            i += 1;
        }
        assert(all.take(i as int) =~= all);
        out
    }
}

/// Assembles a post from its parsed frontmatter and its file: the slug
/// defaults to the file's stem, the categories to the folder's, the body is
/// trimmed, rendered to HTML and excerpted to 180 characters.
pub fn assemble_post(fm: Frontmatter, file_stem: &str, category_slug: &str, body: &str, date: Timestamp) -> (post: Post)
    ensures
        post@.title == fm.title@,
        post@.slug == match fm.slug {
            Some(s) => s@,
            None => file_stem@,
        },
        post@.category == category_slug@,
        post@.categories == if fm.categories@.len() == 0 {
            seq![category_slug@]
        } else {
            fm.categories.deep_view()
        },
        post@.tags == fm.tags.deep_view(),
        post@.draft == fm.draft,
        post@.date == date@,
        post@.raw == trimmed(body@),
        post@.html == markdown_html(trimmed(body@)),
        post@.excerpt == excerpt_of(trimmed(body@), excerpt_chars()),
{
    let slug = match fm.slug {
        Some(s) => s,
        None => String::from_str(file_stem),
    };
    let categories = if fm.categories.len() == 0 {
        let mut v: Vec<String> = Vec::new();
        v.push(String::from_str(category_slug));
        assert(v.deep_view() =~= seq![category_slug@]);
        v
    } else {
        fm.categories
    };
    let text = trim(body);
    let html = render_markdown(text);
    let excerpt = plain_excerpt(text, 180);
    Post {
        title: fm.title,
        slug,
        category: String::from_str(category_slug),
        categories,
        tags: fm.tags,
        draft: fm.draft,
        date,
        excerpt,
        html,
        raw: String::from_str(text),
    }
}

/// Drafts are indexed nowhere: no post an index lists is a draft, and every
/// post it lists is one of the posts it was built from.
pub proof fn lemma_index_has_no_drafts(index: Index, folders: Seq<Seq<char>>, posts: Seq<PostView>)
    requires
        indexes(index, folders, posts),
    ensures
        forall|i: int| 0 <= i < index.all_posts@.len() ==> !(#[trigger] posts_view(index.all_posts@)[i]).draft,
        forall|i: int| 0 <= i < index.all_posts@.len() ==> posts.contains(#[trigger] posts_view(index.all_posts@)[i]),
{
    let pub_posts = published(posts);
    let out = posts_view(index.all_posts@);
    let perm = choose|perm: Seq<int>| sorted_prefix_by(pub_posts, out, perm, pub_posts.len() as int);
    assert forall|i: int| 0 <= i < index.all_posts@.len() implies !(#[trigger] out[i]).draft && posts.contains(out[i]) by {
        assert(out[i] == pub_posts[perm[i]]);
        posts.lemma_filter_pred(|p: PostView| !p.draft, perm[i]);
        assert(pub_posts.contains(out[i]));
        posts.lemma_filter_contains_rev(|p: PostView| !p.draft, out[i]);
    }
}

/// Every published post is listed: an index lists as many posts as were
/// published, each published post at some position.
pub proof fn lemma_index_lists_every_published_post(index: Index, folders: Seq<Seq<char>>, posts: Seq<PostView>)
    requires
        indexes(index, folders, posts),
    ensures
        index.all_posts@.len() == published(posts).len(),
        forall|j: int| 0 <= j < published(posts).len() ==> posts_view(index.all_posts@).contains(#[trigger] published(posts)[j]),
{
    let pub_posts = published(posts);
    let out = posts_view(index.all_posts@);
    let perm = choose|perm: Seq<int>| sorted_prefix_by(pub_posts, out, perm, pub_posts.len() as int);
    assert forall|j: int| 0 <= j < pub_posts.len() implies out.contains(#[trigger] pub_posts[j]) by {
        assert(hits(perm, pub_posts.len() as int, j));
        let pos = choose|pos: int| 0 <= pos < pub_posts.len() && #[trigger] perm[pos] == j;
        assert(out[pos] == pub_posts[j]);
    }
}

/// A category page lists exactly as many posts as its category counts, and
/// only posts of that category.
pub proof fn lemma_category_page_matches_count(index: Index, folders: Seq<Seq<char>>, posts: Seq<PostView>, k: int)
    requires
        indexes(index, folders, posts),
        0 <= k < index.categories@.len(),
    ensures
        posts_view(index.all_posts@).filter(in_category(index.categories@[k].slug@)).len()
            == index.categories@[k].post_count,
        forall|i: int| 0 <= i < posts_view(index.all_posts@).filter(in_category(index.categories@[k].slug@)).len()
            ==> (#[trigger] posts_view(index.all_posts@).filter(in_category(index.categories@[k].slug@))[i]).category
            == index.categories@[k].slug@,
{
    let slug = index.categories@[k].slug@;
    let ps = posts_view(index.all_posts@);
    assert(index.categories@[k].post_count == category_count(ps, slug));
    assert forall|i: int| 0 <= i < ps.filter(in_category(slug)).len() implies (#[trigger] ps.filter(in_category(slug))[i]).category == slug by {
        ps.lemma_filter_pred(in_category(slug), i);
    }
}

/// Every post an index lists belongs to a category the index lists.
pub proof fn lemma_listed_posts_have_a_category(index: Index, folders: Seq<Seq<char>>, posts: Seq<PostView>, m: int)
    requires
        indexes(index, folders, posts),
        0 <= m < index.all_posts@.len(),
    ensures
        has_category(index.categories@, posts_view(index.all_posts@)[m].category),
{
}

/// Every content folder is a category: for each folder the index lists a
/// category with that slug, named from it, counting the folder's published
/// posts (zero when it has none).
pub proof fn lemma_every_folder_is_a_category(index: Index, folders: Seq<Seq<char>>, posts: Seq<PostView>, f: int)
    requires
        indexes(index, folders, posts),
        0 <= f < folders.len(),
    ensures
        exists|k: int|
            0 <= k < index.categories@.len() && (#[trigger] index.categories@[k]).slug@ == folders[f]
                && index.categories@[k].name@ == category_name(folders[f])
                && index.categories@[k].post_count == category_count(posts_view(index.all_posts@), folders[f]),
{
    assert(has_category(index.categories@, folders[f]));
}

} // verus!
