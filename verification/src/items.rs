//! The assembled output of one fetched feed: per-article records
//! with their summarized descriptions and generated tags.
use vstd::prelude::*;

use crate::engine::{CategorizationEngine, ContextView, ItemContext, TagView};
use crate::item_text::{item_short_description_spec, strip_tags_spec};
use crate::{FeedInfo, FeedInfoView, Tier};

verus! {

/// One article, ready for output.  The publication date is carried
/// as seconds since the Unix epoch, when the feed gave one.
pub struct RssItem {
    pub title: String,
    pub item_url: String,
    pub description: String,
    pub safe_description: String,
    pub pub_date: Option<i64>,
    pub tags: Vec<String>,
}

/// The mathematical content of an `RssItem`.
pub ghost struct RssItemView {
    pub title: Seq<char>,
    pub item_url: Seq<char>,
    pub description: Seq<char>,
    pub safe_description: Seq<char>,
    pub pub_date: Option<i64>,
    pub tags: Seq<Seq<char>>,
}

impl View for RssItem {
    type V = RssItemView;

    open spec fn view(&self) -> RssItemView {
        RssItemView {
            title: self.title@,
            item_url: self.item_url@,
            description: self.description@,
            safe_description: self.safe_description@,
            pub_date: self.pub_date,
            tags: self.tags.deep_view(),
        }
    }
}

impl DeepView for RssItem {
    type V = RssItemView;

    open spec fn deep_view(&self) -> RssItemView {
        self.view()
    }
}

/// One fetched feed with its articles.
pub struct FeedOutput {
    pub meta: FeedInfo,
    pub slug: String,
    pub items: Vec<RssItem>,
}

/// One article paired with its feed's metadata.
pub struct ItemOutput {
    pub meta: FeedInfo,
    pub slug: String,
    pub item: RssItem,
}

/// The mathematical content of an `ItemOutput`.
pub ghost struct ItemOutputView {
    pub meta: FeedInfoView,
    pub slug: Seq<char>,
    pub item: RssItemView,
}

impl View for ItemOutput {
    type V = ItemOutputView;

    open spec fn view(&self) -> ItemOutputView {
        ItemOutputView { meta: self.meta@, slug: self.slug@, item: self.item@ }
    }
}

impl DeepView for ItemOutput {
    type V = ItemOutputView;

    open spec fn deep_view(&self) -> ItemOutputView {
        self.view()
    }
}

/// Copy one feed's metadata.
pub fn clone_feed_info(f: &FeedInfo) -> (r: FeedInfo)
    ensures
        r@ == f@,
{
    FeedInfo {
        url: f.url.clone(),
        author: f.author.clone(),
        description: match f.description {
            Some(ref d) => Some(d.clone()),
            None => None,
        },
        tier: f.tier,
        tags: match f.tags {
            Some(ref t) => Some(crate::merge::clone_strings(t)),
            None => None,
        },
        auto_tag: f.auto_tag,
    }
}

/// Copy one article record.
pub fn clone_rss_item(i: &RssItem) -> (r: RssItem)
    ensures
        r@ == i@,
{
    RssItem {
        title: i.title.clone(),
        item_url: i.item_url.clone(),
        description: i.description.clone(),
        safe_description: i.safe_description.clone(),
        pub_date: i.pub_date,
        tags: crate::merge::clone_strings(&i.tags),
    }
}

/// What flattening one feed yields: each article beside the feed's
/// metadata and slug.
pub open spec fn items_of_feed_spec(
    meta: FeedInfoView,
    slug: Seq<char>,
    items: Seq<RssItemView>,
) -> Seq<ItemOutputView> {
    Seq::new(items.len(), |i: int| ItemOutputView { meta, slug, item: items[i] })
}

/// Flatten one feed into per-article records.
pub fn items_of_feed(feed: &FeedOutput) -> (r: Vec<ItemOutput>)
    ensures
        r.deep_view() == items_of_feed_spec(feed.meta@, feed.slug@, feed.items.deep_view()),
{
    let ghost target = items_of_feed_spec(feed.meta@, feed.slug@, feed.items.deep_view());
    let n: usize = feed.items.len();
    let mut out: Vec<ItemOutput> = Vec::new();
    let mut i: usize = 0;
    proof {
        assert(out.deep_view() =~~= target.take(0));
    }
    while i < n
        invariant
            n == feed.items.deep_view().len(),
            i <= n,
            target == items_of_feed_spec(feed.meta@, feed.slug@, feed.items.deep_view()),
            out.deep_view() == target.take(i as int),
        decreases n - i,
    {
        let ghost o0 = out.deep_view();
        proof {
            assert(feed.items.deep_view()[i as int] == feed.items@[i as int]@);
        }
        out.push(
            ItemOutput {
                meta: clone_feed_info(&feed.meta),
                slug: feed.slug.clone(),
                item: clone_rss_item(&feed.items[i]),
            },
        );
        proof {
            assert(out.deep_view() =~~= o0.push(target[i as int]));
            assert(o0.push(target[i as int]) =~= target.take(i + 1));
        }
        i = i + 1;
    }
    proof {
        assert(target.take(n as int) =~= target);
    }
    out
}

/// The items carrying the given tier, in order.
pub open spec fn filter_tier(items: Seq<ItemOutputView>, tier: Tier) -> Seq<ItemOutputView>
    decreases items.len(),
{
    if items.len() == 0 {
        Seq::empty()
    } else {
        filter_tier(items.drop_last(), tier) + (if items.last().meta.tier == tier {
            seq![items.last()]
        } else {
            Seq::empty()
        })
    }
}

/// Split articles by their feed's tier: loved, liked, new.
pub fn split_items_by_tier(items: &Vec<ItemOutput>) -> (r: (
    Vec<ItemOutput>,
    Vec<ItemOutput>,
    Vec<ItemOutput>,
))
    ensures
        r.0.deep_view() == filter_tier(items.deep_view(), Tier::Love),
        r.1.deep_view() == filter_tier(items.deep_view(), Tier::Like),
        r.2.deep_view() == filter_tier(items.deep_view(), Tier::New),
{
    let ghost iv = items.deep_view();
    let n: usize = items.len();
    let mut loved: Vec<ItemOutput> = Vec::new();
    let mut liked: Vec<ItemOutput> = Vec::new();
    let mut fresh: Vec<ItemOutput> = Vec::new();
    let mut i: usize = 0;
    proof {
        assert(iv.take(0) =~= Seq::<ItemOutputView>::empty());
        assert(loved.deep_view() =~~= filter_tier(iv.take(0), Tier::Love));
        assert(liked.deep_view() =~~= filter_tier(iv.take(0), Tier::Like));
        assert(fresh.deep_view() =~~= filter_tier(iv.take(0), Tier::New));
    }
    while i < n
        invariant
            iv == items.deep_view(),
            n == iv.len(),
            i <= n,
            loved.deep_view() == filter_tier(iv.take(i as int), Tier::Love),
            liked.deep_view() == filter_tier(iv.take(i as int), Tier::Like),
            fresh.deep_view() == filter_tier(iv.take(i as int), Tier::New),
        decreases n - i,
    {
        proof {
            assert(iv.take(i + 1).drop_last() =~= iv.take(i as int));
            assert(iv.take(i + 1).last() == iv[i as int]);
            assert(items.deep_view()[i as int] == items@[i as int]@);
        }
        let item = &items[i];
        let copied = ItemOutput {
            meta: clone_feed_info(&item.meta),
            slug: item.slug.clone(),
            item: clone_rss_item(&item.item),
        };
        let ghost l0 = loved.deep_view();
        let ghost k0 = liked.deep_view();
        let ghost f0 = fresh.deep_view();
        match item.meta.tier {
            Tier::Love => {
                loved.push(copied);
                proof {
                    assert(loved.deep_view() =~~= l0.push(iv[i as int]));
                    assert(l0.push(iv[i as int]) =~= filter_tier(iv.take(i + 1), Tier::Love));
                    assert(liked.deep_view() =~= filter_tier(iv.take(i + 1), Tier::Like));
                    assert(fresh.deep_view() =~= filter_tier(iv.take(i + 1), Tier::New));
                }
            },
            Tier::Like => {
                liked.push(copied);
                proof {
                    assert(liked.deep_view() =~~= k0.push(iv[i as int]));
                    assert(k0.push(iv[i as int]) =~= filter_tier(iv.take(i + 1), Tier::Like));
                    assert(loved.deep_view() =~= filter_tier(iv.take(i + 1), Tier::Love));
                    assert(fresh.deep_view() =~= filter_tier(iv.take(i + 1), Tier::New));
                }
            },
            Tier::New => {
                fresh.push(copied);
                proof {
                    assert(fresh.deep_view() =~~= f0.push(iv[i as int]));
                    assert(f0.push(iv[i as int]) =~= filter_tier(iv.take(i + 1), Tier::New));
                    assert(loved.deep_view() =~= filter_tier(iv.take(i + 1), Tier::Love));
                    assert(liked.deep_view() =~= filter_tier(iv.take(i + 1), Tier::Like));
                }
            },
        }
        i = i + 1;
    }
    proof {
        assert(iv.take(n as int) =~= iv);
    }
    (loved, liked, fresh)
}

/// The names of the given tags, in order.
pub open spec fn names_of_tags(tags: Seq<TagView>) -> Seq<Seq<char>> {
    Seq::new(tags.len(), |i: int| tags[i].name)
}

/// Assemble one article: summarize its description, strip HTML for
/// the safe form, and tag it with the engine.
pub fn build_item(
    engine: &CategorizationEngine,
    title: String,
    item_url: String,
    raw_description: String,
    pub_date: Option<i64>,
    feed_info: &FeedInfo,
    feed_slug: &str,
    rss_categories: &Vec<String>,
    max_words: usize,
) -> (r: RssItem)
    requires
        engine.wf(),
    ensures
        r@.title == title@,
        r@.item_url == item_url@,
        r@.description == item_short_description_spec(raw_description@, max_words),
        r@.safe_description == strip_tags_spec(item_short_description_spec(
            raw_description@,
            max_words,
        )),
        r@.pub_date == pub_date,
        r@.tags == names_of_tags(
            crate::engine::generate_spec(
                engine.config@,
                engine.alias_map@,
                ContextView {
                    title: title@,
                    description: Some(item_short_description_spec(raw_description@, max_words)),
                    link: Some(item_url@),
                    author: Some(feed_info@.author),
                    feed_slug: feed_slug@,
                    feed_tags: feed_info@.tags,
                    rss_categories: if rss_categories.deep_view().len() == 0 {
                        None
                    } else {
                        Some(rss_categories.deep_view())
                    },
                },
            ),
        ),
{
    let description = crate::item_text::get_short_description(raw_description, max_words);
    let safe_description = crate::item_text::strip_tags(description.as_str());
    let generated = if rss_categories.len() == 0 {
        let context = ItemContext {
            title: title.as_str(),
            description: Some(description.as_str()),
            link: Some(item_url.as_str()),
            author: Some(feed_info.author.as_str()),
            feed_slug,
            feed_tags: match feed_info.tags {
                Some(ref t) => Some(t.as_slice()),
                None => None,
            },
            rss_categories: None,
        };
        engine.generate_tags_for_item(&context)
    } else {
        let context = ItemContext {
            title: title.as_str(),
            description: Some(description.as_str()),
            link: Some(item_url.as_str()),
            author: Some(feed_info.author.as_str()),
            feed_slug,
            feed_tags: match feed_info.tags {
                Some(ref t) => Some(t.as_slice()),
                None => None,
            },
            rss_categories: Some(rss_categories.as_slice()),
        };
        engine.generate_tags_for_item(&context)
    };
    let ghost gv = generated.deep_view();
    let gn: usize = generated.len();
    let mut tags: Vec<String> = Vec::new();
    let mut i: usize = 0;
    proof {
        assert(tags.deep_view() =~~= names_of_tags(gv).take(0));
    }
    while i < gn
        invariant
            gv == generated.deep_view(),
            gn == gv.len(),
            i <= gn,
            tags.deep_view() == names_of_tags(gv).take(i as int),
        decreases gn - i,
    {
        let ghost t0 = tags.deep_view();
        proof {
            assert(generated.deep_view()[i as int] == generated@[i as int]@);
        }
        tags.push(generated[i].name.clone());
        proof {
            assert(tags.deep_view() =~~= t0.push(names_of_tags(gv)[i as int]));
            assert(t0.push(names_of_tags(gv)[i as int]) =~= names_of_tags(gv).take(i + 1));
        }
        i = i + 1;
    }
    proof {
        assert(names_of_tags(gv).take(gn as int) =~= names_of_tags(gv));
    }
    RssItem { title, item_url, description, safe_description, pub_date, tags }
}

} // verus!
