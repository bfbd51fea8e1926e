//! The list of posts: every published blog post, newest first.

use crate::content::markdown::{card_pattern, format_day_for_card, format_full_date,
    formatted_time, full_pattern, BlogContent, BlogView};
use crate::content::preliminary_analysis::{Content, ContentView, PreliminaryAnalysisOutput};
use crate::text::{append, to_vec};
use vstd::prelude::*;
use vstd::string::StringSliceAdditionalSpecFns;

verus! {

pub const CARD_OPEN: &'static str =
    "<div class=\"post-list\">\n                    <div class=\"post-list-top\">\n                        <a href=\"";

pub const CARD_DAY: &'static str =
    "</a>\n                        <div class=\"tooltip-wrapper\">\n                            ";

pub const CARD_TOOLTIP: &'static str =
    "\n                            <div class=\"tooltip\">";

pub const CARD_TEXT: &'static str =
    "</div>\n                        </div>\n                    </div>\n                    <p>";

pub const CARD_TAGS: &'static str = "</p>\n                    <div class=\"post-list-tags\">";

pub const NO_POSTS: &'static str = "<p>Unfortunately, page still don't have any posts :(</p>";

/// The published posts among what the front matter says of the files, in
/// the order of the files: the blog posts that are no drafts.
pub open spec fn published(contents: Seq<Option<ContentView>>) -> Seq<BlogView>
    decreases contents.len(),
{
    if contents.len() == 0 {
        Seq::empty()
    } else {
        match contents.last() {
            Some(ContentView::Blog(blog)) => if blog.draft {
                published(contents.drop_last())
            } else {
                published(contents.drop_last()).push(blog)
            },
            _ => published(contents.drop_last()),
        }
    }
}

/// No draft is among the published posts.
pub proof fn lemma_published_are_no_drafts(contents: Seq<Option<ContentView>>)
    ensures
        forall|i: int| 0 <= i < published(contents).len() ==> !(#[trigger] published(contents)[i]).draft,
    decreases contents.len(),
{
    if contents.len() > 0 {
        lemma_published_are_no_drafts(contents.drop_last());
        let head = published(contents.drop_last());
        assert forall|i: int| 0 <= i < published(contents).len() implies !(#[trigger] published(
            contents,
        )[i]).draft by {
            if i < head.len() {
                assert(published(contents)[i] == head[i]);
            }
        }
    }
}

/// `sorted` with `post` put behind the last post that is as new or newer.
pub open spec fn insert_by_date(sorted: Seq<BlogView>, post: BlogView) -> Seq<BlogView>
    decreases sorted.len(),
{
    if sorted.len() == 0 {
        seq![post]
    } else if sorted.last().date >= post.date {
        sorted.push(post)
    } else {
        insert_by_date(sorted.drop_last(), post).push(sorted.last())
    }
}

/// The posts from the newest to the oldest. Posts of one date keep the order
/// they came in.
pub open spec fn newest_first(posts: Seq<BlogView>) -> Seq<BlogView>
    decreases posts.len(),
{
    if posts.len() == 0 {
        Seq::empty()
    } else {
        insert_by_date(newest_first(posts.drop_last()), posts.last())
    }
}

/// Whether no post stands before a newer one.
pub open spec fn is_newest_first(posts: Seq<BlogView>) -> bool {
    forall|i: int, j: int| 0 <= i < j < posts.len() ==> posts[i].date >= posts[j].date
}

/// Putting a post into a list that is ordered leaves it ordered, with the
/// same posts and the new one.
pub proof fn lemma_insert_by_date(sorted: Seq<BlogView>, post: BlogView)
    requires
        is_newest_first(sorted),
    ensures
        is_newest_first(insert_by_date(sorted, post)),
        insert_by_date(sorted, post).to_multiset() == sorted.to_multiset().insert(post),
        insert_by_date(sorted, post).len() == sorted.len() + 1,
    decreases sorted.len(),
{
    broadcast use vstd::seq_lib::group_to_multiset_ensures;

    if sorted.len() == 0 {
        assert(seq![post] =~= Seq::<BlogView>::empty().push(post));
    } else if sorted.last().date >= post.date {
    } else {
        let head = sorted.drop_last();
        assert forall|i: int, j: int| 0 <= i < j < head.len() implies head[i].date
            >= head[j].date by {
            assert(head[i] == sorted[i] && head[j] == sorted[j]);
        }
        lemma_insert_by_date(head, post);
        let inner = insert_by_date(head, post);
        let all = inner.push(sorted.last());
        assert(sorted =~= head.push(sorted.last()));
        assert forall|i: int, j: int| 0 <= i < j < all.len() implies all[i].date
            >= all[j].date by {
            if j == all.len() - 1 {
                assert(inner.to_multiset().count(inner[i]) > 0);
                if inner[i] != post {
                    assert(head.to_multiset().count(inner[i]) > 0);
                    let k = choose|k: int| 0 <= k < head.len() && head[k] == inner[i];
                    assert(sorted[k] == head[k]);
                }
            }
        }
        assert(all.to_multiset() =~= sorted.to_multiset().insert(post));
    }
}

/// The list of posts is ordered from the newest to the oldest, and holds
/// the posts it was made of, each as often as it was given.
pub proof fn lemma_newest_first(posts: Seq<BlogView>)
    ensures
        is_newest_first(newest_first(posts)),
        newest_first(posts).to_multiset() == posts.to_multiset(),
        newest_first(posts).len() == posts.len(),
    decreases posts.len(),
{
    broadcast use vstd::seq_lib::group_to_multiset_ensures;

    if posts.len() > 0 {
        lemma_newest_first(posts.drop_last());
        lemma_insert_by_date(newest_first(posts.drop_last()), posts.last());
        assert(posts =~= posts.drop_last().push(posts.last()));
    }
}

/// The posts of the given date, in the order in which they stand.
pub open spec fn of_date(posts: Seq<BlogView>, date: int) -> Seq<BlogView>
    decreases posts.len(),
{
    if posts.len() == 0 {
        Seq::empty()
    } else if posts.last().date == date {
        of_date(posts.drop_last(), date).push(posts.last())
    } else {
        of_date(posts.drop_last(), date)
    }
}

/// Putting a post into a list leaves the posts of every date in the order
/// they had, with the new post behind those of its own date.
pub proof fn lemma_insert_keeps_order(sorted: Seq<BlogView>, post: BlogView, date: int)
    ensures
        of_date(insert_by_date(sorted, post), date) == if post.date == date {
            of_date(sorted, date).push(post)
        } else {
            of_date(sorted, date)
        },
    decreases sorted.len(),
{
    if sorted.len() == 0 {
        let one = seq![post];
        assert(one.drop_last() =~= Seq::<BlogView>::empty());
        assert(one.last() == post);
        assert(of_date(one.drop_last(), date) =~= Seq::<BlogView>::empty());
        assert(of_date(sorted, date) =~= Seq::<BlogView>::empty());
    } else if sorted.last().date >= post.date {
        let all = sorted.push(post);
        assert(all.drop_last() =~= sorted);
        assert(all.last() == post);
    } else {
        let head = sorted.drop_last();
        lemma_insert_keeps_order(head, post, date);
        let all = insert_by_date(head, post).push(sorted.last());
        assert(all.drop_last() =~= insert_by_date(head, post));
        assert(all.last() == sorted.last());
        assert(insert_by_date(sorted, post) == all);
    }
}

/// The list of posts is stable: the posts of one date stand in it in the
/// order in which they were given.
pub proof fn lemma_newest_first_is_stable(posts: Seq<BlogView>, date: int)
    ensures
        of_date(newest_first(posts), date) == of_date(posts, date),
    decreases posts.len(),
{
    if posts.len() > 0 {
        lemma_newest_first_is_stable(posts.drop_last(), date);
        lemma_insert_keeps_order(newest_first(posts.drop_last()), posts.last(), date);
    }
}

/// Where a post goes: behind the posts that are as new or newer, before the
/// older ones.
pub proof fn lemma_insert_position(sorted: Seq<BlogView>, post: BlogView, k: int)
    requires
        0 <= k <= sorted.len(),
        forall|j: int| k <= j < sorted.len() ==> sorted[j].date < post.date,
        k > 0 ==> sorted[k - 1].date >= post.date,
    ensures
        insert_by_date(sorted, post) == sorted.insert(k, post),
    decreases sorted.len(),
{
    if sorted.len() == 0 {
        assert(seq![post] =~= sorted.insert(k, post));
    } else if k == sorted.len() {
        assert(sorted.push(post) =~= sorted.insert(k, post));
    } else {
        let head = sorted.drop_last();
        assert forall|j: int| k <= j < head.len() implies head[j].date < post.date by {
            assert(head[j] == sorted[j]);
        }
        lemma_insert_position(head, post, k);
        assert(head.insert(k, post).push(sorted.last()) =~= sorted.insert(k, post));
    }
}

/// The tags of a post as the list of posts shows them.
pub open spec fn card_tags(tags: Seq<Seq<u8>>) -> Seq<u8>
    decreases tags.len(),
{
    if tags.len() == 0 {
        Seq::empty()
    } else {
        card_tags(tags.drop_last()) + "<a>#".spec_bytes() + tags.last() + "</a>".spec_bytes()
    }
}

/// The card of a post: its title as a link, its date with the full date in
/// a tooltip, its description and its tags.
pub open spec fn card(post: BlogView) -> Seq<u8> {
    CARD_OPEN.spec_bytes() + post.link + "\">".spec_bytes() + post.title + CARD_DAY.spec_bytes()
        + formatted_time(post.date, card_pattern()) + CARD_TOOLTIP.spec_bytes() + formatted_time(
        post.date,
        full_pattern(),
    ) + CARD_TEXT.spec_bytes() + post.description + CARD_TAGS.spec_bytes() + card_tags(post.tags)
        + "</div></div>".spec_bytes()
}

/// The cards of a sequence of posts.
pub open spec fn cards(posts: Seq<BlogView>) -> Seq<u8>
    decreases posts.len(),
{
    if posts.len() == 0 {
        Seq::empty()
    } else {
        cards(posts.drop_last()) + card(posts.last())
    }
}

/// What the front matter says of each file, where it says anything.
pub open spec fn contents_of(outputs: Seq<PreliminaryAnalysisOutput>) -> Seq<Option<ContentView>> {
    outputs.map_values(
        |output: PreliminaryAnalysisOutput|
            match output.content {
                Some(content) => Some(content@),
                None => None,
            },
    )
}

/// The list of posts: the cards of the published posts, newest first, or a
/// sentence where there is no such post.
pub open spec fn post_list(contents: Seq<Option<ContentView>>) -> Seq<u8> {
    let all = cards(newest_first(published(contents)));
    if all.len() == 0 {
        NO_POSTS.spec_bytes()
    } else {
        all
    }
}

/// Whether the output at `index` is the blog post `post`.
pub open spec fn is_post_at(
    outputs: Seq<PreliminaryAnalysisOutput>,
    index: int,
    post: BlogView,
) -> bool {
    0 <= index < outputs.len() && match outputs[index].content {
        Some(Content::Blog(blog)) => blog@ == post,
        _ => false,
    }
}

/// The blog post of the output at `index`, if that is one.
fn blog_at(outputs: &Vec<PreliminaryAnalysisOutput>, index: usize) -> (r: Option<&BlogContent>)
    requires
        index < outputs.len(),
    ensures
        r matches Some(blog) ==> outputs[index as int].content == Some(Content::Blog(*blog)),
        r is None ==> forall|post: BlogView| !is_post_at(outputs@, index as int, post),
{
    match &outputs[index].content {
        Some(Content::Blog(blog)) => Some(blog),
        _ => None,
    }
}

/// Builds the card of a post.
fn card_of(post: &BlogContent) -> (r: Vec<u8>)
    ensures
        r@ == card(post@),
{
    let mut out = to_vec(CARD_OPEN.as_bytes());
    append(&mut out, post.link.as_slice());
    append(&mut out, "\">".as_bytes());
    append(&mut out, post.title.as_slice());
    append(&mut out, CARD_DAY.as_bytes());
    append(&mut out, format_day_for_card(post.date).as_slice());
    append(&mut out, CARD_TOOLTIP.as_bytes());
    append(&mut out, format_full_date(post.date).as_slice());
    append(&mut out, CARD_TEXT.as_bytes());
    append(&mut out, post.description.as_slice());
    append(&mut out, CARD_TAGS.as_bytes());
    let ghost head = out@;
    let ghost tags = post@.tags;
    let mut i: usize = 0;
    while i < post.tags.len()
        invariant
            i <= post.tags.len(),
            tags == post.tags@.map_values(|tag: Vec<u8>| tag@),
            out@ == head + card_tags(tags.take(i as int)),
        decreases post.tags.len() - i,
    {
        assert(tags.take(i + 1).drop_last() =~= tags.take(i as int));
        append(&mut out, "<a>#".as_bytes());
        append(&mut out, post.tags[i].as_slice());
        append(&mut out, "</a>".as_bytes());
        i += 1;
    }
    assert(tags.take(i as int) =~= tags);
    append(&mut out, "</div></div>".as_bytes());
    out
}

/// Builds the list of posts from what the first pass over the files
/// yielded.
pub fn create_md_post_list(outputs: &Vec<PreliminaryAnalysisOutput>) -> (r: Vec<u8>)
    ensures
        r@ == post_list(contents_of(outputs@)),
{
    let ghost contents = contents_of(outputs@);
    let mut order: Vec<usize> = Vec::new();
    let ghost mut posts = Seq::<BlogView>::empty();
    let mut n: usize = 0;
    assert(contents.take(0) =~= Seq::<Option<ContentView>>::empty());
    while n < outputs.len()
        invariant
            n <= outputs.len(),
            contents == contents_of(outputs@),
            posts == newest_first(published(contents.take(n as int))),
            posts.len() == order.len(),
            forall|j: int|
                0 <= j < order.len() ==> #[trigger] is_post_at(
                    outputs@,
                    order[j] as int,
                    posts[j],
                ),
        decreases outputs.len() - n,
    {
        assert(contents.take(n + 1).drop_last() =~= contents.take(n as int));
        assert(contents.take(n + 1).last() == contents[n as int]);
        match &outputs[n].content {
            Some(Content::Blog(blog)) => {
                if !blog.draft {
                    let mut k: usize = order.len();
                    loop
                        invariant
                            k <= order.len(),
                            posts.len() == order.len(),
                            forall|j: int| k <= j < posts.len() ==> posts[j].date < blog.date,
                            forall|j: int|
                                0 <= j < order.len() ==> #[trigger] is_post_at(
                                    outputs@,
                                    order[j] as int,
                                    posts[j],
                                ),
                        ensures
                            k > 0 ==> posts[k - 1].date >= blog.date,
                        decreases k,
                    {
                        if k == 0 {
                            break ;
                        }
                        assert(is_post_at(outputs@, order[k - 1] as int, posts[k - 1]));
                        match blog_at(outputs, order[k - 1]) {
                            Some(other) => {
                                if other.date >= blog.date {
                                    break ;
                                }
                            },
                            None => {},
                        }
                        k -= 1;
                    }
                    proof {
                        lemma_insert_position(posts, blog@, k as int);
                    }
                    let ghost before = posts;
                    let ghost old_order = order@;
                    let ghost earlier = published(contents.take(n as int));
                    assert(published(contents.take(n + 1)) == earlier.push(blog@));
                    assert(earlier.push(blog@).drop_last() =~= earlier);
                    order.insert(k, n);
                    proof {
                        posts = before.insert(k as int, blog@);
                        assert forall|j: int| 0 <= j < order.len() implies #[trigger] is_post_at(
                            outputs@,
                            order[j] as int,
                            posts[j],
                        ) by {
                            if j < k {
                                assert(is_post_at(outputs@, old_order[j] as int, before[j]));
                            } else if j > k {
                                assert(is_post_at(outputs@, old_order[j - 1] as int, before[j - 1]));
                            }
                        }
                    }
                }
            },
            _ => {},
        }
        n += 1;
    }
    assert(contents.take(n as int) =~= contents);
    let mut out: Vec<u8> = Vec::new();
    let mut i: usize = 0;
    while i < order.len()
        invariant
            i <= order.len(),
            posts.len() == order.len(),
            out@ == cards(posts.take(i as int)),
            forall|j: int|
                0 <= j < order.len() ==> #[trigger] is_post_at(
                    outputs@,
                    order[j] as int,
                    posts[j],
                ),
        decreases order.len() - i,
    {
        assert(posts.take(i + 1).drop_last() =~= posts.take(i as int));
        assert(is_post_at(outputs@, order[i as int] as int, posts[i as int]));
        match blog_at(outputs, order[i]) {
            Some(post) => {
                append(&mut out, card_of(post).as_slice());
            },
            None => {},
        }
        i += 1;
    }
    assert(posts.take(i as int) =~= posts);
    if out.len() == 0 {
        append(&mut out, NO_POSTS.as_bytes());
    }
    out
}

} // verus!
