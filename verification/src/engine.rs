//! The categorization engine: one entry point per article, combining
//! protocol categories, declarative rules, keyword scores and
//! feed-supplied hints into a ranked, capped tag list.
use vstd::prelude::*;

use crate::alias::AliasTable;
use crate::config::{CatConfigView, CategorizationConfig};

verus! {

/// Where a tag's evidence came from.
#[derive(Clone, Copy, Debug, PartialEq, Eq, Structural)]
pub enum TagSource {
    Manual,
    Feed,
    Rule,
    Keyword,
}

/// A classification label with its confidence, in thousandths, and
/// its provenance.
pub struct Tag {
    pub name: String,
    pub confidence: u32,
    pub source: TagSource,
}

/// The mathematical content of a `Tag`.
pub ghost struct TagView {
    pub name: Seq<char>,
    pub confidence: u32,
    pub source: TagSource,
}

impl View for Tag {
    type V = TagView;

    open spec fn view(&self) -> TagView {
        TagView { name: self.name@, confidence: self.confidence, source: self.source }
    }
}

impl DeepView for Tag {
    type V = TagView;

    open spec fn deep_view(&self) -> TagView {
        self.view()
    }
}

/// A read-only view over one article's fields for the duration of
/// one classification call.
pub struct ItemContext<'a> {
    pub title: &'a str,
    pub description: Option<&'a str>,
    pub link: Option<&'a str>,
    pub author: Option<&'a str>,
    pub feed_slug: &'a str,
    pub feed_tags: Option<&'a [String]>,
    pub rss_categories: Option<&'a [String]>,
}

/// The mathematical content of an `ItemContext`.
pub ghost struct ContextView {
    pub title: Seq<char>,
    pub description: Option<Seq<char>>,
    pub link: Option<Seq<char>>,
    pub author: Option<Seq<char>>,
    pub feed_slug: Seq<char>,
    pub feed_tags: Option<Seq<Seq<char>>>,
    pub rss_categories: Option<Seq<Seq<char>>>,
}

impl<'a> View for ItemContext<'a> {
    type V = ContextView;

    open spec fn view(&self) -> ContextView {
        ContextView {
            title: self.title@,
            description: match self.description {
                Some(d) => Some(d@),
                None => None,
            },
            link: match self.link {
                Some(l) => Some(l@),
                None => None,
            },
            author: match self.author {
                Some(a) => Some(a@),
                None => None,
            },
            feed_slug: self.feed_slug@,
            feed_tags: match self.feed_tags {
                Some(t) => Some(t.deep_view()),
                None => None,
            },
            rss_categories: match self.rss_categories {
                Some(t) => Some(t.deep_view()),
                None => None,
            },
        }
    }
}

/// The alias lookup map an alias list builds: every `from` variant,
/// lower-cased, maps to its canonical `to` name, later entries
/// overriding earlier ones.
pub open spec fn insert_alias_froms(
    m: Map<Seq<char>, Seq<char>>,
    froms: Seq<Seq<char>>,
    to: Seq<char>,
) -> Map<Seq<char>, Seq<char>>
    decreases froms.len(),
{
    if froms.len() == 0 {
        m
    } else {
        insert_alias_froms(m, froms.drop_last(), to).insert(
            crate::text::lower_of(froms.last()),
            to,
        )
    }
}

/// The alias map of a whole alias list.
pub open spec fn alias_map_of(aliases: Seq<crate::config::AliasView>) -> Map<Seq<char>, Seq<char>>
    decreases aliases.len(),
{
    if aliases.len() == 0 {
        Map::empty()
    } else {
        insert_alias_froms(alias_map_of(aliases.drop_last()), aliases.last().from, aliases.last().to)
    }
}

/// Each name in `ts`, normalized, in order.
pub open spec fn normalize_all(am: Map<Seq<char>, Seq<char>>, ts: Seq<Seq<char>>) -> Seq<Seq<char>>
    decreases ts.len(),
{
    if ts.len() == 0 {
        Seq::empty()
    } else {
        normalize_all(am, ts.drop_last()).push(crate::matching::normalize_spec(am, ts.last()))
    }
}

/// Every feed-supplied tag, normalized, in order.  These are hints,
/// not assignments.
pub open spec fn hints_of(am: Map<Seq<char>, Seq<char>>, ctx: ContextView) -> Seq<Seq<char>> {
    match ctx.feed_tags {
        Some(ts) => normalize_all(am, ts),
        None => Seq::empty(),
    }
}

/// Adding protocol categories: each category term is normalized and
/// recorded once, with fixed high confidence, as publisher-declared
/// taxonomy.
pub open spec fn add_categories(
    am: Map<Seq<char>, Seq<char>>,
    cats: Seq<Seq<char>>,
    tags: Seq<TagView>,
    seen: Seq<Seq<char>>,
) -> (Seq<TagView>, Seq<Seq<char>>)
    decreases cats.len(),
{
    if cats.len() == 0 {
        (tags, seen)
    } else {
        let prev = add_categories(am, cats.drop_last(), tags, seen);
        let n = crate::matching::normalize_spec(am, cats.last());
        if prev.1.contains(n) {
            prev
        } else {
            (
                prev.0.push(TagView { name: n, confidence: 900, source: TagSource::Feed }),
                prev.1.push(n),
            )
        }
    }
}

/// The names vetoed for this article: the union of the exclude-tag
/// lists of every exclusion rule one of whose patterns matches the
/// lower-cased content.
pub open spec fn excluded_of(rules: Seq<crate::config::RuleView>, cl: Seq<char>) -> Seq<Seq<char>>
    decreases rules.len(),
{
    if rules.len() == 0 {
        Seq::empty()
    } else {
        let prev = excluded_of(rules.drop_last(), cl);
        let r = rules.last();
        if crate::rules::rule_kind(r.rule_type) == crate::rules::RuleKind::ExcludeIf
            && crate::matching::match_count(cl, r.patterns) > 0 {
            prev + r.exclude_tags
        } else {
            prev
        }
    }
}

/// Folding one rule's candidate tags into the result: each name is
/// normalized, skipped when vetoed or already present, recorded
/// otherwise.
pub open spec fn add_candidates(
    am: Map<Seq<char>, Seq<char>>,
    cands: Seq<TagView>,
    excluded: Seq<Seq<char>>,
    tags: Seq<TagView>,
    seen: Seq<Seq<char>>,
) -> (Seq<TagView>, Seq<Seq<char>>)
    decreases cands.len(),
{
    if cands.len() == 0 {
        (tags, seen)
    } else {
        let prev = add_candidates(am, cands.drop_last(), excluded, tags, seen);
        let c = cands.last();
        let n = crate::matching::normalize_spec(am, c.name);
        if excluded.contains(n) || prev.1.contains(n) {
            prev
        } else {
            (
                prev.0.push(TagView { name: n, confidence: c.confidence, source: c.source }),
                prev.1.push(n),
            )
        }
    }
}

/// Applying every rule in declaration order, exclusion rules left
/// aside.
pub open spec fn apply_rules(
    rules: Seq<crate::config::RuleView>,
    am: Map<Seq<char>, Seq<char>>,
    ctx: ContextView,
    excluded: Seq<Seq<char>>,
    tags: Seq<TagView>,
    seen: Seq<Seq<char>>,
) -> (Seq<TagView>, Seq<Seq<char>>)
    decreases rules.len(),
{
    if rules.len() == 0 {
        (tags, seen)
    } else {
        let prev = apply_rules(rules.drop_last(), am, ctx, excluded, tags, seen);
        let r = rules.last();
        if crate::rules::rule_kind(r.rule_type) != crate::rules::RuleKind::ExcludeIf {
            match crate::rules::apply_rule_spec(
                r,
                ctx.title,
                ctx.description,
                ctx.link,
                ctx.author,
                ctx.feed_slug,
            ) {
                Some(cands) => add_candidates(am, cands, excluded, prev.0, prev.1),
                None => prev,
            }
        } else {
            prev
        }
    }
}

/// Keyword-driven tagging: a definition whose keyword score reaches
/// the threshold yields its tag, unless vetoed or already present.
pub open spec fn apply_keywords(
    defs: Seq<crate::config::TagDefView>,
    am: Map<Seq<char>, Seq<char>>,
    content: Seq<char>,
    threshold: u32,
    excluded: Seq<Seq<char>>,
    tags: Seq<TagView>,
    seen: Seq<Seq<char>>,
) -> (Seq<TagView>, Seq<Seq<char>>)
    decreases defs.len(),
{
    if defs.len() == 0 {
        (tags, seen)
    } else {
        let prev = apply_keywords(defs.drop_last(), am, content, threshold, excluded, tags, seen);
        let d = defs.last();
        match crate::matching::check_keywords_spec(content, d.keywords) {
            Some(conf) => if conf >= threshold {
                let n = crate::matching::normalize_spec(am, d.name);
                if excluded.contains(n) || prev.1.contains(n) {
                    prev
                } else {
                    (
                        prev.0.push(
                            TagView { name: n, confidence: conf, source: TagSource::Keyword },
                        ),
                        prev.1.push(n),
                    )
                }
            } else {
                prev
            },
            None => prev,
        }
    }
}

/// A hint-corroborated confidence: a fifth more, capped well below
/// certainty because feed hints stay secondary evidence.
pub open spec fn boost_conf(c: u32) -> u32 {
    let b = c * 6 / 5;
    if b > 950 {
        950u32
    } else {
        b as u32
    }
}

/// One tag after hint reconciliation: boosted when the feed also
/// suggested its name.
pub open spec fn boost_one(t: TagView, hints: Seq<Seq<char>>) -> TagView {
    if hints.contains(t.name) {
        TagView { name: t.name, confidence: boost_conf(t.confidence), source: t.source }
    } else {
        t
    }
}

/// Raising the confidence of every tag whose name the feed also
/// suggested.
pub open spec fn boost(tags: Seq<TagView>, hints: Seq<Seq<char>>) -> Seq<TagView>
    decreases tags.len(),
{
    if tags.len() == 0 {
        Seq::empty()
    } else {
        boost(tags.drop_last(), hints).push(boost_one(tags.last(), hints))
    }
}

/// The first tag definition whose normalized name is `n`.
pub open spec fn find_def(
    defs: Seq<crate::config::TagDefView>,
    am: Map<Seq<char>, Seq<char>>,
    n: Seq<char>,
) -> Option<crate::config::TagDefView>
    decreases defs.len(),
{
    if defs.len() == 0 {
        None
    } else if crate::matching::normalize_spec(am, defs[0].name) == n {
        Some(defs[0])
    } else {
        find_def(defs.drop_first(), am, n)
    }
}

/// Weak admission of feed hints: a hint that names no recorded tag
/// and is not vetoed enters with fixed low confidence, but only when
/// at least one keyword of its definition shows in the content.
pub open spec fn admit_hints(
    hints: Seq<Seq<char>>,
    defs: Seq<crate::config::TagDefView>,
    am: Map<Seq<char>, Seq<char>>,
    content: Seq<char>,
    excluded: Seq<Seq<char>>,
    tags: Seq<TagView>,
    seen: Seq<Seq<char>>,
) -> (Seq<TagView>, Seq<Seq<char>>)
    decreases hints.len(),
{
    if hints.len() == 0 {
        (tags, seen)
    } else {
        let prev = admit_hints(hints.drop_last(), defs, am, content, excluded, tags, seen);
        let h = hints.last();
        if !prev.1.contains(h) && !excluded.contains(h) {
            match find_def(defs, am, h) {
                Some(d) => if d.keywords.len() > 0 && crate::matching::match_count(
                    crate::text::lower_of(content),
                    d.keywords,
                ) > 0 {
                    (
                        prev.0.push(TagView { name: h, confidence: 250, source: TagSource::Manual }),
                        prev.1.push(h),
                    )
                } else {
                    prev
                },
                None => prev,
            }
        } else {
            prev
        }
    }
}

/// Inserting a tag into a confidence-descending list, after every
/// tag that scores at least as high, so that ties keep their
/// original order.
pub open spec fn insert_desc(s: Seq<TagView>, t: TagView) -> Seq<TagView>
    decreases s.len(),
{
    if s.len() == 0 {
        seq![t]
    } else if s.last().confidence >= t.confidence {
        s.push(t)
    } else {
        insert_desc(s.drop_last(), t).push(s.last())
    }
}

/// Stable sort by confidence, highest first.
pub open spec fn sort_desc(s: Seq<TagView>) -> Seq<TagView>
    decreases s.len(),
{
    if s.len() == 0 {
        Seq::empty()
    } else {
        insert_desc(sort_desc(s.drop_last()), s.last())
    }
}

/// The number of leading tags a capped result keeps.
pub open spec fn capped_len(max: usize, len: nat) -> int {
    if max < len {
        max as int
    } else {
        len as int
    }
}

/// What one classification call returns: the empty list when
/// categorization is off, otherwise the ranked, capped outcome of
/// the whole pipeline.
pub open spec fn generate_spec(
    cfg: CatConfigView,
    am: Map<Seq<char>, Seq<char>>,
    ctx: ContextView,
) -> Seq<TagView> {
    if !cfg.enabled {
        Seq::empty()
    } else {
        let content = crate::rules::raw_content(ctx.title, ctx.description);
        let cl = crate::text::lower_of(content);
        let hints = hints_of(am, ctx);
        let cats = match ctx.rss_categories {
            Some(cs) => cs,
            None => Seq::empty(),
        };
        let staged1 = add_categories(am, cats, Seq::empty(), Seq::empty());
        let excluded = excluded_of(cfg.rules, cl);
        let staged2 = apply_rules(cfg.rules, am, ctx, excluded, staged1.0, staged1.1);
        let staged3 = if cfg.auto_tag_new_articles {
            apply_keywords(
                cfg.tags,
                am,
                content,
                cfg.confidence_threshold,
                excluded,
                staged2.0,
                staged2.1,
            )
        } else {
            staged2
        };
        let boosted = boost(staged3.0, hints);
        let staged4 = admit_hints(hints, cfg.tags, am, content, excluded, boosted, staged3.1);
        let ranked = sort_desc(staged4.0);
        ranked.take(capped_len(cfg.max_tags_per_item, ranked.len()))
    }
}

/// A sorted-descending tag list: confidences never rise.
pub open spec fn sorted_desc(s: Seq<TagView>) -> bool {
    forall|a: int, b: int| 0 <= a <= b < s.len() ==> (#[trigger] s[a]).confidence >= (
    #[trigger] s[b]).confidence
}

/// Insertion keeps descending order.
pub proof fn lemma_insert_desc_sorted(s: Seq<TagView>, t: TagView)
    requires
        sorted_desc(s),
    ensures
        sorted_desc(insert_desc(s, t)),
        insert_desc(s, t).len() == s.len() + 1,
    decreases s.len(),
{
    if s.len() == 0 {
    } else if s.last().confidence >= t.confidence {
        assert(insert_desc(s, t) == s.push(t));
        assert forall|a: int, b: int|
            0 <= a <= b < s.push(t).len() implies (#[trigger] s.push(t)[a]).confidence >= (
        #[trigger] s.push(t)[b]).confidence by {
            if b < s.len() {
            } else {
                assert(s.push(t)[b] == t);
                if a < s.len() {
                    assert(s[a].confidence >= s.last().confidence);
                }
            }
        }
    } else {
        assert(sorted_desc(s.drop_last())) by {
            assert(forall|a: int, b: int|
                0 <= a <= b < s.drop_last().len() ==> s.drop_last()[a] == s[a] && s.drop_last()[b]
                    == s[b]);
        }
        lemma_insert_desc_sorted(s.drop_last(), t);
        let inner = insert_desc(s.drop_last(), t);
        assert(insert_desc(s, t) == inner.push(s.last()));
        assert forall|x: int| 0 <= x < inner.len() implies (#[trigger] inner[x]).confidence
            >= s.last().confidence by {
            lemma_insert_desc_members(s.drop_last(), t, x);
            if x < s.len() - 1 || inner[x] == t {
            }
        }
        assert forall|a: int, b: int|
            0 <= a <= b < inner.push(s.last()).len() implies (#[trigger] inner.push(
            s.last(),
        )[a]).confidence >= (#[trigger] inner.push(s.last())[b]).confidence by {
            if b < inner.len() {
            } else {
                assert(inner.push(s.last())[b] == s.last());
            }
        }
    }
}

/// Each element of an insertion result is the inserted tag or one of
/// the old ones.
pub proof fn lemma_insert_desc_members(s: Seq<TagView>, t: TagView, x: int)
    requires
        0 <= x < insert_desc(s, t).len(),
    ensures
        insert_desc(s, t)[x] == t || exists|y: int|
            0 <= y < s.len() && s[y] == #[trigger] insert_desc(s, t)[x],
    decreases s.len(),
{
    if s.len() == 0 {
    } else if s.last().confidence >= t.confidence {
        if x < s.len() {
            assert(s[x] == insert_desc(s, t)[x]);
        }
    } else {
        let inner = insert_desc(s.drop_last(), t);
        assert(insert_desc(s, t) == inner.push(s.last()));
        if x < inner.len() {
            lemma_insert_desc_members(s.drop_last(), t, x);
            if inner[x] != t {
                let y = choose|y: int|
                    0 <= y < s.drop_last().len() && s.drop_last()[y] == inner[x];
                assert(s[y] == inner[x]);
            }
        } else {
            assert(insert_desc(s, t)[x] == s.last());
            assert(s[s.len() - 1] == s.last());
        }
    }
}

/// The stable sort keeps length and yields a descending list.
pub proof fn lemma_sort_desc_sorted(s: Seq<TagView>)
    ensures
        sorted_desc(sort_desc(s)),
        sort_desc(s).len() == s.len(),
    decreases s.len(),
{
    if s.len() > 0 {
        lemma_sort_desc_sorted(s.drop_last());
        lemma_insert_desc_sorted(sort_desc(s.drop_last()), s.last());
    }
}

/// Inserting below the first smaller-confidence position realizes
/// the stable descending insertion.
pub proof fn lemma_insert_desc_split(s: Seq<TagView>, t: TagView, p: int)
    requires
        sorted_desc(s),
        0 <= p <= s.len(),
        forall|x: int| 0 <= x < p ==> (#[trigger] s[x]).confidence >= t.confidence,
        p < s.len() ==> s[p].confidence < t.confidence,
    ensures
        insert_desc(s, t) == s.insert(p, t),
    decreases s.len(),
{
    if s.len() == 0 {
        assert(insert_desc(s, t) =~= s.insert(p, t));
    } else if s.last().confidence >= t.confidence {
        assert(p == s.len()) by {
            if p < s.len() {
                assert(s[p].confidence < t.confidence);
                assert(s[p].confidence >= s[s.len() - 1].confidence);
            }
        }
        assert(insert_desc(s, t) =~= s.insert(p, t));
    } else {
        assert(p < s.len());
        assert(sorted_desc(s.drop_last())) by {
            assert(forall|a: int, b: int|
                0 <= a <= b < s.drop_last().len() ==> s.drop_last()[a] == s[a] && s.drop_last()[b]
                    == s[b]);
        }
        assert(p <= s.len() - 1) by {
            if p == s.len() {
                assert(s[s.len() - 1].confidence >= t.confidence);
            }
        }
        assert(forall|x: int| 0 <= x < p ==> (#[trigger] s.drop_last()[x]).confidence
            >= t.confidence);
        assert(p < s.len() - 1 ==> s.drop_last()[p].confidence < t.confidence);
        if p == s.len() - 1 {
            assert(s.drop_last().len() == p);
        }
        lemma_insert_desc_split(s.drop_last(), t, p);
        assert(insert_desc(s, t) == insert_desc(s.drop_last(), t).push(s.last()));
        assert(insert_desc(s, t) =~= s.insert(p, t));
    }
}

/// The categorization engine.  It owns its configuration and the
/// alias table precomputed from it; each classification call is a
/// pure function of the two and the article, so one engine may serve
/// any number of concurrent calls.
pub struct CategorizationEngine {
    pub config: CategorizationConfig,
    pub alias_map: AliasTable,
}

impl CategorizationEngine {
    /// The alias table is exactly the one the configuration's alias
    /// list describes.
    pub open spec fn wf(&self) -> bool {
        self.alias_map.well_formed() && self.alias_map@ == alias_map_of(self.config@.aliases)
    }

    /// Build an engine that owns `config`, with the alias lookup
    /// table precomputed from the configuration's alias list.
    pub fn from_config(config: CategorizationConfig) -> (e: CategorizationEngine)
        ensures
            e.wf(),
            e.config@ == config@,
    {
        let ghost av = config.aliases.deep_view();
        let mut table = AliasTable::new();
        let n: usize = config.aliases.len();
        let mut i: usize = 0;
        proof {
            assert(av.take(0) =~= Seq::<crate::config::AliasView>::empty());
        }
        while i < n
            invariant
                av == config.aliases.deep_view(),
                n == av.len(),
                i <= n,
                table.well_formed(),
                table@ == alias_map_of(av.take(i as int)),
            decreases n - i,
        {
            let ghost before = table@;
            let alias = &config.aliases[i];
            let ghost fv = av[i as int].from;
            proof {
                assert(av[i as int] == config.aliases@[i as int]@);
                assert(fv == alias.from.deep_view());
            }
            let m: usize = alias.from.len();
            let mut j: usize = 0;
            proof {
                assert(fv.take(0) =~= Seq::<Seq<char>>::empty());
            }
            while j < m
                invariant
                    fv == alias.from.deep_view(),
                    av[i as int].to == alias.to@,
                    m == fv.len(),
                    j <= m,
                    table.well_formed(),
                    table@ == insert_alias_froms(before, fv.take(j as int), av[i as int].to),
                decreases m - j,
            {
                let lowered = crate::text::lowercase(alias.from[j].as_str());
                table.insert(lowered, alias.to.clone());
                proof {
                    assert(alias.from.deep_view()[j as int] == alias.from@[j as int]@);
                    assert(fv.take(j + 1).drop_last() =~= fv.take(j as int));
                    assert(fv.take(j + 1).last() == fv[j as int]);
                }
                j = j + 1;
            }
            proof {
                assert(fv.take(m as int) =~= fv);
                assert(av.take(i + 1).drop_last() =~= av.take(i as int));
                assert(av.take(i + 1).last() == av[i as int]);
            }
            i = i + 1;
        }
        proof {
            assert(av.take(n as int) =~= av);
        }
        CategorizationEngine { config, alias_map: table }
    }

    /// Whether classification is switched on at all.
    pub fn is_enabled(&self) -> (r: bool)
        ensures
            r == self.config@.enabled,
    {
        self.config.enabled
    }

    /// The canonical form of a tag name under this engine's aliases.
    pub fn normalize_tag(&self, tag: &str) -> (r: String)
        requires
            self.wf(),
        ensures
            r@ == crate::matching::normalize_spec(self.alias_map@, tag@),
    {
        let lowered = crate::text::lowercase(tag);
        match self.alias_map.get(&lowered) {
            Some(canonical) => canonical.clone(),
            None => lowered,
        }
    }

    /// Whether `keyword` occurs in `content` at word boundaries.
    pub fn matches_keyword(&self, content: &str, keyword: &str) -> (r: bool)
        ensures
            r == crate::matching::kw_match(content@, keyword@),
    {
        let c = crate::text::to_chars(content);
        let k = crate::text::to_chars(keyword);
        crate::matching::matches_keyword_chars(&c, &k)
    }

    /// Score a keyword set against content, case-insensitively.
    pub fn check_keywords(&self, content: &str, keywords: &Vec<String>) -> (r: Option<u32>)
        ensures
            r == crate::matching::check_keywords_spec(content@, keywords.deep_view()),
    {
        let lowered = crate::text::lowercase(content);
        let cl = crate::text::to_chars(lowered.as_str());
        let count = crate::rules::count_kw_matches(&cl, keywords);
        let total: usize = keywords.len();
        if count == 0 {
            None
        } else {
            let share: u128 = (count as u128) * 1000 / (total as u128);
            let clamped: u128 = if share > 1000 {
                1000
            } else {
                share
            };
            let conf: u32 = if clamped < 330 {
                330
            } else {
                clamped as u32
            };
            proof {
                assert(count as u128 * 1000 == count * 1000) by (nonlinear_arith);
                assert(conf == crate::matching::keyword_confidence(count as nat, total as nat));
            }
            Some(conf)
        }
    }

    /// Where a tag of confidence `conf` belongs in a descending
    /// list: after every tag scoring at least as much.
    fn insert_position(sorted: &Vec<Tag>, conf: u32) -> (p: usize)
        ensures
            p <= sorted.deep_view().len(),
            forall|x: int| 0 <= x < p ==> (#[trigger] sorted.deep_view()[x]).confidence >= conf,
            p < sorted.deep_view().len() ==> sorted.deep_view()[p as int].confidence < conf,
    {
        let n: usize = sorted.len();
        let mut p: usize = 0;
        while p < n && sorted[p].confidence >= conf
            invariant
                n == sorted.deep_view().len(),
                p <= n,
                forall|x: int| 0 <= x < p ==> (#[trigger] sorted.deep_view()[x]).confidence >= conf,
            decreases n - p,
        {
            proof {
                assert(sorted.deep_view()[p as int] == sorted@[p as int]@);
            }
            p = p + 1;
        }
        proof {
            if p < n {
                assert(sorted.deep_view()[p as int] == sorted@[p as int]@);
            }
        }
        p
    }

    /// Classify one article: protocol categories, declarative rules,
    /// keyword scores and feed hints combined into a ranked list of
    /// at most `max_tags_per_item` tags, highest confidence first.
    /// The result is a pure function of the engine and the article,
    /// so calling twice gives the same list.
    pub fn generate_tags_for_item(&self, context: &ItemContext) -> (r: Vec<Tag>)
        requires
            self.wf(),
        ensures
            r.deep_view() == generate_spec(self.config@, self.alias_map@, context@),
            !self.config@.enabled ==> r.deep_view() == Seq::<TagView>::empty(),
            r.deep_view().len() <= self.config@.max_tags_per_item,
            sorted_desc(r.deep_view()),
    {
        let ghost cfg = self.config@;
        let ghost am = self.alias_map@;
        let ghost ctxv = context@;
        if !self.config.enabled {
            let r: Vec<Tag> = Vec::new();
            proof {
                assert(r.deep_view() =~= Seq::<TagView>::empty());
            }
            return r;
        }
        let content = crate::rules::build_content(context.title, context.description);
        let content_lower = crate::text::lowercase(content.as_str());
        let cl = crate::text::to_chars(content_lower.as_str());
        proof {
            assert(content@ == crate::rules::raw_content(ctxv.title, ctxv.description));
            assert(cl@ == crate::text::lower_of(content@));
        }
        // Feed-hint capture: normalized names only, never assignments.
        let mut hints: Vec<String> = Vec::new();
        match context.feed_tags {
            Some(ts) => {
                let ghost tsv = ts.deep_view();
                let tn: usize = ts.len();
                let mut i: usize = 0;
                proof {
                    assert(tsv.take(0) =~= Seq::<Seq<char>>::empty());
                    assert(hints.deep_view() =~~= normalize_all(am, tsv.take(0)));
                }
                while i < tn
                    invariant
                        self.wf(),
                        am == self.alias_map@,
                        tsv == ts.deep_view(),
                        tn == tsv.len(),
                        i <= tn,
                        hints.deep_view() == normalize_all(am, tsv.take(i as int)),
                    decreases tn - i,
                {
                    let name = self.normalize_tag(ts[i].as_str());
                    let ghost h0 = hints.deep_view();
                    hints.push(name);
                    proof {
                        assert(ts.deep_view()[i as int] == ts@[i as int]@);
                        assert(tsv.take(i + 1).drop_last() =~= tsv.take(i as int));
                        assert(tsv.take(i + 1).last() == tsv[i as int]);
                        assert(hints.deep_view() =~~= h0.push(
                            crate::matching::normalize_spec(am, tsv[i as int]),
                        ));
                    }
                    i = i + 1;
                }
                proof {
                    assert(tsv.take(tn as int) =~= tsv);
                }
            },
            None => {
                proof {
                    assert(hints.deep_view() =~~= hints_of(am, ctxv));
                }
            },
        }
        proof {
            assert(hints.deep_view() == hints_of(am, ctxv));
        }
        // Protocol categories: publisher-declared taxonomy, high
        // confidence.
        let mut tags: Vec<Tag> = Vec::new();
        let mut seen: Vec<String> = Vec::new();
        let ghost catsv: Seq<Seq<char>> = match ctxv.rss_categories {
            Some(cs) => cs,
            None => Seq::empty(),
        };
        match context.rss_categories {
            Some(cs) => {
                let cn: usize = cs.len();
                let mut i: usize = 0;
                proof {
                    assert(catsv.take(0) =~= Seq::<Seq<char>>::empty());
                    assert(tags.deep_view() =~~= Seq::<TagView>::empty());
                    assert(seen.deep_view() =~~= Seq::<Seq<char>>::empty());
                }
                while i < cn
                    invariant
                        self.wf(),
                        am == self.alias_map@,
                        catsv == cs.deep_view(),
                        cn == catsv.len(),
                        i <= cn,
                        (tags.deep_view(), seen.deep_view()) == add_categories(
                            am,
                            catsv.take(i as int),
                            Seq::<TagView>::empty(),
                            Seq::<Seq<char>>::empty(),
                        ),
                    decreases cn - i,
                {
                    let name = self.normalize_tag(cs[i].as_str());
                    proof {
                        assert(cs.deep_view()[i as int] == cs@[i as int]@);
                        assert(catsv.take(i + 1).drop_last() =~= catsv.take(i as int));
                        assert(catsv.take(i + 1).last() == catsv[i as int]);
                    }
                    if !crate::text::vec_contains_string(&seen, name.as_str()) {
                        let ghost t0 = tags.deep_view();
                        let ghost s0 = seen.deep_view();
                        tags.push(
                            Tag { name: name.clone(), confidence: 900, source: TagSource::Feed },
                        );
                        seen.push(name);
                        proof {
                            assert(tags.deep_view() =~~= t0.push(
                                TagView {
                                    name: crate::matching::normalize_spec(am, catsv[i as int]),
                                    confidence: 900,
                                    source: TagSource::Feed,
                                },
                            ));
                            assert(seen.deep_view() =~~= s0.push(
                                crate::matching::normalize_spec(am, catsv[i as int]),
                            ));
                        }
                    }
                    i = i + 1;
                }
                proof {
                    assert(catsv.take(cn as int) =~= catsv);
                }
            },
            None => {
                proof {
                    assert(tags.deep_view() =~~= Seq::<TagView>::empty());
                    assert(seen.deep_view() =~~= Seq::<Seq<char>>::empty());
                }
            },
        }
        let ghost staged1 = add_categories(am, catsv, Seq::<TagView>::empty(), Seq::<Seq<char>>::empty());
        proof {
            assert((tags.deep_view(), seen.deep_view()) == staged1);
        }
        // Exclusion scan: every exclusion rule whose pattern matches
        // vetoes its tags.
        let mut excluded: Vec<String> = Vec::new();
        let ghost rulesv = cfg.rules;
        let rn: usize = self.config.rules.len();
        let mut i: usize = 0;
        proof {
            assert(rulesv.take(0) =~= Seq::<crate::config::RuleView>::empty());
            assert(excluded.deep_view() =~~= Seq::<Seq<char>>::empty());
        }
        while i < rn
            invariant
                rulesv == self.config@.rules,
                rn == rulesv.len(),
                i <= rn,
                cl@ == crate::text::lower_of(
                    crate::rules::raw_content(ctxv.title, ctxv.description),
                ),
                excluded.deep_view() == excluded_of(rulesv.take(i as int), cl@),
            decreases rn - i,
        {
            let rule = &self.config.rules[i];
            let kind = crate::rules::rule_kind_of(rule.rule_type.as_str());
            proof {
                assert(self.config.rules.deep_view()[i as int] == self.config.rules@[i as int]@);
                assert(rulesv.take(i + 1).drop_last() =~= rulesv.take(i as int));
                assert(rulesv.take(i + 1).last() == rulesv[i as int]);
            }
            if matches!(kind, crate::rules::RuleKind::ExcludeIf) {
                if crate::rules::count_kw_matches(&cl, &rule.patterns) > 0 {
                    let ghost e0 = excluded.deep_view();
                    let ghost etv = rulesv[i as int].exclude_tags;
                    let en: usize = rule.exclude_tags.len();
                    let mut j: usize = 0;
                    proof {
                        assert(etv.take(0) =~= Seq::<Seq<char>>::empty());
                        assert(excluded.deep_view() =~~= e0 + etv.take(0));
                    }
                    while j < en
                        invariant
                            etv == rule.exclude_tags.deep_view(),
                            en == etv.len(),
                            j <= en,
                            excluded.deep_view() == e0 + etv.take(j as int),
                        decreases en - j,
                    {
                        let ghost ej = excluded.deep_view();
                        excluded.push(rule.exclude_tags[j].clone());
                        proof {
                            assert(rule.exclude_tags.deep_view()[j as int] == rule.exclude_tags@[
                                j as int]@);
                            assert(excluded.deep_view() =~~= ej.push(etv[j as int]));
                            assert(ej.push(etv[j as int]) =~= e0 + etv.take(j + 1));
                        }
                        j = j + 1;
                    }
                    proof {
                        assert(etv.take(en as int) =~= etv);
                        assert(excluded.deep_view() == e0 + etv);
                    }
                }
            }
            i = i + 1;
        }
        proof {
            assert(rulesv.take(rn as int) =~= rulesv);
        }
        let ghost excl = excluded_of(rulesv, cl@);
        proof {
            assert(excluded.deep_view() == excl);
        }
        // Rule-based tagging, in declaration order.
        let mut i: usize = 0;
        proof {
            assert((tags.deep_view(), seen.deep_view()) == apply_rules(
                rulesv.take(0),
                am,
                ctxv,
                excl,
                staged1.0,
                staged1.1,
            ));
        }
        while i < rn
            invariant
                self.wf(),
                am == self.alias_map@,
                cfg == self.config@,
                ctxv == context@,
                rulesv == self.config@.rules,
                rn == rulesv.len(),
                i <= rn,
                excl == excluded.deep_view(),
                staged1 == add_categories(
                    am,
                    catsv,
                    Seq::<TagView>::empty(),
                    Seq::<Seq<char>>::empty(),
                ),
                (tags.deep_view(), seen.deep_view()) == apply_rules(
                    rulesv.take(i as int),
                    am,
                    ctxv,
                    excl,
                    staged1.0,
                    staged1.1,
                ),
            decreases rn - i,
        {
            let rule = &self.config.rules[i];
            let kind = crate::rules::rule_kind_of(rule.rule_type.as_str());
            proof {
                assert(self.config.rules.deep_view()[i as int] == self.config.rules@[i as int]@);
                assert(rulesv.take(i + 1).drop_last() =~= rulesv.take(i as int));
                assert(rulesv.take(i + 1).last() == rulesv[i as int]);
            }
            if !matches!(kind, crate::rules::RuleKind::ExcludeIf) {
                let applied = crate::rules::apply_rule_exec(
                    rule,
                    context.title,
                    context.description,
                    context.link,
                    context.author,
                    context.feed_slug,
                );
                match applied {
                    Some(cands) => {
                        let ghost candsv = cands.deep_view();
                        let ghost t0 = tags.deep_view();
                        let ghost s0 = seen.deep_view();
                        let cn2: usize = cands.len();
                        let mut j: usize = 0;
                        proof {
                            assert(candsv.take(0) =~= Seq::<TagView>::empty());
                        }
                        while j < cn2
                            invariant
                                self.wf(),
                                am == self.alias_map@,
                                candsv == cands.deep_view(),
                                cn2 == candsv.len(),
                                j <= cn2,
                                excl == excluded.deep_view(),
                                (tags.deep_view(), seen.deep_view()) == add_candidates(
                                    am,
                                    candsv.take(j as int),
                                    excl,
                                    t0,
                                    s0,
                                ),
                            decreases cn2 - j,
                        {
                            let name = self.normalize_tag(cands[j].name.as_str());
                            proof {
                                assert(cands.deep_view()[j as int] == cands@[j as int]@);
                                assert(candsv.take(j + 1).drop_last() =~= candsv.take(j as int));
                                assert(candsv.take(j + 1).last() == candsv[j as int]);
                            }
                            if !crate::text::vec_contains_string(&excluded, name.as_str())
                                && !crate::text::vec_contains_string(&seen, name.as_str()) {
                                let ghost t1 = tags.deep_view();
                                let ghost s1 = seen.deep_view();
                                tags.push(
                                    Tag {
                                        name: name.clone(),
                                        confidence: cands[j].confidence,
                                        source: cands[j].source,
                                    },
                                );
                                seen.push(name);
                                proof {
                                    assert(tags.deep_view() =~~= t1.push(
                                        TagView {
                                            name: crate::matching::normalize_spec(
                                                am,
                                                candsv[j as int].name,
                                            ),
                                            confidence: candsv[j as int].confidence,
                                            source: candsv[j as int].source,
                                        },
                                    ));
                                    assert(seen.deep_view() =~~= s1.push(
                                        crate::matching::normalize_spec(
                                            am,
                                            candsv[j as int].name,
                                        ),
                                    ));
                                }
                            }
                            j = j + 1;
                        }
                        proof {
                            assert(candsv.take(cn2 as int) =~= candsv);
                        }
                    },
                    None => {},
                }
            }
            i = i + 1;
        }
        proof {
            assert(rulesv.take(rn as int) =~= rulesv);
        }
        let ghost staged2 = apply_rules(rulesv, am, ctxv, excl, staged1.0, staged1.1);
        proof {
            assert((tags.deep_view(), seen.deep_view()) == staged2);
        }
        // Keyword-based tagging, when automatic tagging is on.
        if self.config.auto_tag_new_articles {
            let ghost defsv = cfg.tags;
            let dn: usize = self.config.tags.len();
            let mut i: usize = 0;
            proof {
                assert(defsv.take(0) =~= Seq::<crate::config::TagDefView>::empty());
            }
            while i < dn
                invariant
                    self.wf(),
                    am == self.alias_map@,
                    cfg == self.config@,
                    defsv == self.config@.tags,
                    dn == defsv.len(),
                    i <= dn,
                    excl == excluded.deep_view(),
                    content@ == crate::rules::raw_content(ctxv.title, ctxv.description),
                    staged2 == apply_rules(rulesv, am, ctxv, excl, staged1.0, staged1.1),
                    rulesv == self.config@.rules,
                    staged1 == add_categories(
                        am,
                        catsv,
                        Seq::<TagView>::empty(),
                        Seq::<Seq<char>>::empty(),
                    ),
                    (tags.deep_view(), seen.deep_view()) == apply_keywords(
                        defsv.take(i as int),
                        am,
                        content@,
                        cfg.confidence_threshold,
                        excl,
                        staged2.0,
                        staged2.1,
                    ),
                decreases dn - i,
            {
                let def = &self.config.tags[i];
                proof {
                    assert(self.config.tags.deep_view()[i as int] == self.config.tags@[i as int]@);
                    assert(defsv.take(i + 1).drop_last() =~= defsv.take(i as int));
                    assert(defsv.take(i + 1).last() == defsv[i as int]);
                }
                match self.check_keywords(content.as_str(), &def.keywords) {
                    Some(conf) => {
                        if conf >= self.config.confidence_threshold {
                            let name = self.normalize_tag(def.name.as_str());
                            if !crate::text::vec_contains_string(&excluded, name.as_str())
                                && !crate::text::vec_contains_string(&seen, name.as_str()) {
                                let ghost t1 = tags.deep_view();
                                let ghost s1 = seen.deep_view();
                                tags.push(
                                    Tag {
                                        name: name.clone(),
                                        confidence: conf,
                                        source: TagSource::Keyword,
                                    },
                                );
                                seen.push(name);
                                proof {
                                    assert(tags.deep_view() =~~= t1.push(
                                        TagView {
                                            name: crate::matching::normalize_spec(
                                                am,
                                                defsv[i as int].name,
                                            ),
                                            confidence: conf,
                                            source: TagSource::Keyword,
                                        },
                                    ));
                                    assert(seen.deep_view() =~~= s1.push(
                                        crate::matching::normalize_spec(
                                            am,
                                            defsv[i as int].name,
                                        ),
                                    ));
                                }
                            }
                        }
                    },
                    None => {},
                }
                i = i + 1;
            }
            proof {
                assert(defsv.take(dn as int) =~= defsv);
            }
        }
        let ghost staged3: (Seq<TagView>, Seq<Seq<char>>) = if cfg.auto_tag_new_articles {
            apply_keywords(
                cfg.tags,
                am,
                content@,
                cfg.confidence_threshold,
                excl,
                staged2.0,
                staged2.1,
            )
        } else {
            staged2
        };
        proof {
            assert((tags.deep_view(), seen.deep_view()) == staged3);
        }
        // Feed-hint confidence boost.
        let mut boosted: Vec<Tag> = Vec::new();
        let bn: usize = tags.len();
        let ghost tagsv = tags.deep_view();
        let mut i: usize = 0;
        proof {
            assert(tagsv.take(0) =~= Seq::<TagView>::empty());
            assert(boosted.deep_view() =~~= boost(tagsv.take(0), hints.deep_view()));
        }
        while i < bn
            invariant
                tagsv == tags.deep_view(),
                bn == tagsv.len(),
                i <= bn,
                hints.deep_view() == hints_of(am, ctxv),
                boosted.deep_view() == boost(tagsv.take(i as int), hints.deep_view()),
            decreases bn - i,
        {
            proof {
                assert(tags.deep_view()[i as int] == tags@[i as int]@);
                assert(tagsv.take(i + 1).drop_last() =~= tagsv.take(i as int));
                assert(tagsv.take(i + 1).last() == tagsv[i as int]);
            }
            let ghost b0 = boosted.deep_view();
            if crate::text::vec_contains_string(&hints, tags[i].name.as_str()) {
                let c: u32 = tags[i].confidence;
                let raised64: u64 = (c as u64) * 6 / 5;
                let raised: u32 = if raised64 > 950 {
                    950
                } else {
                    raised64 as u32
                };
                proof {
                    assert(c as u64 * 6 == c * 6) by (nonlinear_arith);
                    assert(raised == boost_conf(c));
                }
                boosted.push(
                    Tag { name: tags[i].name.clone(), confidence: raised, source: tags[i].source },
                );
            } else {
                boosted.push(
                    Tag {
                        name: tags[i].name.clone(),
                        confidence: tags[i].confidence,
                        source: tags[i].source,
                    },
                );
            }
            proof {
                assert(boosted.deep_view() =~~= b0.push(
                    boost_one(tagsv[i as int], hints.deep_view()),
                ));
            }
            i = i + 1;
        }
        proof {
            assert(tagsv.take(bn as int) =~= tagsv);
        }
        let mut tags = boosted;
        proof {
            assert(tags.deep_view() == boost(staged3.0, hints_of(am, ctxv)));
        }
        // Weak admission of feed hints backed by some content
        // evidence.
        let hn: usize = hints.len();
        let ghost hintsv = hints.deep_view();
        let ghost boostedv = tags.deep_view();
        let mut i: usize = 0;
        proof {
            assert(hintsv.take(0) =~= Seq::<Seq<char>>::empty());
        }
        while i < hn
            invariant
                self.wf(),
                am == self.alias_map@,
                cfg == self.config@,
                hintsv == hints.deep_view(),
                hn == hintsv.len(),
                i <= hn,
                excl == excluded.deep_view(),
                content@ == crate::rules::raw_content(ctxv.title, ctxv.description),
                cl@ == crate::text::lower_of(content@),
                (tags.deep_view(), seen.deep_view()) == admit_hints(
                    hintsv.take(i as int),
                    cfg.tags,
                    am,
                    content@,
                    excl,
                    boostedv,
                    staged3.1,
                ),
            decreases hn - i,
        {
            proof {
                assert(hints.deep_view()[i as int] == hints@[i as int]@);
                assert(hintsv.take(i + 1).drop_last() =~= hintsv.take(i as int));
                assert(hintsv.take(i + 1).last() == hintsv[i as int]);
            }
            let h: &String = &hints[i];
            if !crate::text::vec_contains_string(&seen, h.as_str()) && !crate::text::vec_contains_string(
                &excluded,
                h.as_str(),
            ) {
                match self.find_def_index(h.as_str()) {
                    Some(k) => {
                        let def = &self.config.tags[k];
                        proof {
                            assert(self.config.tags.deep_view()[k as int] == self.config.tags@[
                                k as int]@);
                        }
                        if def.keywords.len() > 0 && crate::rules::count_kw_matches(
                            &cl,
                            &def.keywords,
                        ) > 0 {
                            let ghost t1 = tags.deep_view();
                            let ghost s1 = seen.deep_view();
                            tags.push(
                                Tag {
                                    name: h.clone(),
                                    confidence: 250,
                                    source: TagSource::Manual,
                                },
                            );
                            seen.push(h.clone());
                            proof {
                                assert(tags.deep_view() =~~= t1.push(
                                    TagView {
                                        name: hintsv[i as int],
                                        confidence: 250,
                                        source: TagSource::Manual,
                                    },
                                ));
                                assert(seen.deep_view() =~~= s1.push(hintsv[i as int]));
                            }
                        }
                    },
                    None => {},
                }
            }
            i = i + 1;
        }
        proof {
            assert(hintsv.take(hn as int) =~= hintsv);
        }
        let ghost staged4 = admit_hints(
            hintsv,
            cfg.tags,
            am,
            content@,
            excl,
            boostedv,
            staged3.1,
        );
        proof {
            assert((tags.deep_view(), seen.deep_view()) == staged4);
        }
        // Rank by confidence, stably, and cap the list.
        let mut ranked: Vec<Tag> = Vec::new();
        let sn: usize = tags.len();
        let ghost finalv = tags.deep_view();
        let mut i: usize = 0;
        proof {
            assert(finalv.take(0) =~= Seq::<TagView>::empty());
            assert(ranked.deep_view() =~~= sort_desc(finalv.take(0)));
            lemma_sort_desc_sorted(finalv.take(0));
        }
        while i < sn
            invariant
                finalv == tags.deep_view(),
                sn == finalv.len(),
                i <= sn,
                ranked.deep_view() == sort_desc(finalv.take(i as int)),
                sorted_desc(ranked.deep_view()),
            decreases sn - i,
        {
            proof {
                assert(tags.deep_view()[i as int] == tags@[i as int]@);
                assert(finalv.take(i + 1).drop_last() =~= finalv.take(i as int));
                assert(finalv.take(i + 1).last() == finalv[i as int]);
            }
            let t = Tag {
                name: tags[i].name.clone(),
                confidence: tags[i].confidence,
                source: tags[i].source,
            };
            proof {
                assert(t@ == finalv[i as int]);
            }
            let p = Self::insert_position(&ranked, t.confidence);
            let ghost r0 = ranked.deep_view();
            proof {
                lemma_insert_desc_split(r0, t@, p as int);
                lemma_insert_desc_sorted(r0, t@);
            }
            ranked.insert(p, t);
            proof {
                assert(ranked.deep_view() =~~= r0.insert(p as int, finalv[i as int]));
            }
            i = i + 1;
        }
        proof {
            assert(finalv.take(sn as int) =~= finalv);
        }
        let ghost rankedv = ranked.deep_view();
        ranked.truncate(self.config.max_tags_per_item);
        proof {
            lemma_sort_desc_sorted(finalv);
            if cfg.max_tags_per_item <= rankedv.len() {
                assert(ranked.deep_view() =~~= rankedv.take(
                    capped_len(cfg.max_tags_per_item, rankedv.len()),
                ));
            } else {
                assert(ranked.deep_view() =~~= rankedv.take(
                    capped_len(cfg.max_tags_per_item, rankedv.len()),
                ));
            }
            assert(sorted_desc(ranked.deep_view())) by {
                assert(forall|x: int|
                    0 <= x < ranked.deep_view().len() ==> ranked.deep_view()[x] == rankedv[x]);
            }
        }
        ranked
    }

    /// The position of the first tag definition whose normalized
    /// name is `h`, when one exists.
    fn find_def_index(&self, h: &str) -> (r: Option<usize>)
        requires
            self.wf(),
        ensures
            match r {
                Some(k) => k < self.config@.tags.len() && find_def(
                    self.config@.tags,
                    self.alias_map@,
                    h@,
                ) == Some(self.config@.tags[k as int]),
                None => find_def(self.config@.tags, self.alias_map@, h@) is None,
            },
    {
        let ghost defsv = self.config@.tags;
        let ghost am = self.alias_map@;
        let dn: usize = self.config.tags.len();
        let mut k: usize = 0;
        proof {
            assert(defsv.skip(0) =~= defsv);
        }
        while k < dn
            invariant
                self.wf(),
                am == self.alias_map@,
                defsv == self.config@.tags,
                dn == defsv.len(),
                k <= dn,
                find_def(defsv, am, h@) == find_def(defsv.skip(k as int), am, h@),
            decreases dn - k,
        {
            let name = self.normalize_tag(self.config.tags[k].name.as_str());
            proof {
                assert(self.config.tags.deep_view()[k as int] == self.config.tags@[k as int]@);
                assert(defsv.skip(k as int)[0] == defsv[k as int]);
            }
            if crate::text::string_eq_str(&name, h) {
                proof {
                    assert(find_def(defsv.skip(k as int), am, h@) == Some(defsv[k as int]));
                }
                return Some(k);
            }
            proof {
                assert(defsv.skip(k as int).drop_first() =~= defsv.skip(k + 1));
            }
            k = k + 1;
        }
        proof {
            assert(defsv.skip(dn as int) =~= Seq::<crate::config::TagDefView>::empty());
        }
        None
    }
}

/// Whether some tag in the list carries this name.
pub open spec fn has_name(tags: Seq<TagView>, name: Seq<char>) -> bool {
    exists|i: int| 0 <= i < tags.len() && (#[trigger] tags[i]).name == name
}

/// Category capture cannot introduce a name no category normalizes
/// to.
proof fn lemma_add_categories_no(
    am: Map<Seq<char>, Seq<char>>,
    cats: Seq<Seq<char>>,
    tags: Seq<TagView>,
    seen: Seq<Seq<char>>,
    name: Seq<char>,
)
    requires
        !has_name(tags, name),
        forall|ci: int|
            0 <= ci < cats.len() ==> crate::matching::normalize_spec(am, #[trigger] cats[ci])
                != name,
    ensures
        !has_name(add_categories(am, cats, tags, seen).0, name),
    decreases cats.len(),
{
    if cats.len() > 0 {
        assert(forall|ci: int|
            0 <= ci < cats.drop_last().len() ==> #[trigger] cats.drop_last()[ci] == cats[ci]);
        lemma_add_categories_no(am, cats.drop_last(), tags, seen, name);
        let prev = add_categories(am, cats.drop_last(), tags, seen);
        let out = add_categories(am, cats, tags, seen);
        if !prev.1.contains(crate::matching::normalize_spec(am, cats.last())) {
            assert(cats[cats.len() - 1] == cats.last());
            assert forall|i: int| 0 <= i < out.0.len() implies (#[trigger] out.0[i]).name
                != name by {
                if i < prev.0.len() {
                    assert(!has_name(prev.0, name));
                }
            }
        }
    }
}

/// Candidate folding cannot introduce a vetoed name, nor one that no
/// candidate normalizes to.
proof fn lemma_add_candidates_no(
    am: Map<Seq<char>, Seq<char>>,
    cands: Seq<TagView>,
    excluded: Seq<Seq<char>>,
    tags: Seq<TagView>,
    seen: Seq<Seq<char>>,
    name: Seq<char>,
)
    requires
        !has_name(tags, name),
        excluded.contains(name) || forall|ci: int|
            0 <= ci < cands.len() ==> crate::matching::normalize_spec(
                am,
                (#[trigger] cands[ci]).name,
            ) != name,
    ensures
        !has_name(add_candidates(am, cands, excluded, tags, seen).0, name),
    decreases cands.len(),
{
    if cands.len() > 0 {
        if !excluded.contains(name) {
            assert(forall|ci: int|
                0 <= ci < cands.drop_last().len() ==> #[trigger] cands.drop_last()[ci]
                    == cands[ci]);
        }
        lemma_add_candidates_no(am, cands.drop_last(), excluded, tags, seen, name);
        let prev = add_candidates(am, cands.drop_last(), excluded, tags, seen);
        let out = add_candidates(am, cands, excluded, tags, seen);
        let n = crate::matching::normalize_spec(am, cands.last().name);
        if !(excluded.contains(n) || prev.1.contains(n)) {
            assert(cands[cands.len() - 1] == cands.last());
            assert(n != name);
            assert forall|i: int| 0 <= i < out.0.len() implies (#[trigger] out.0[i]).name
                != name by {
                if i < prev.0.len() {
                    assert(!has_name(prev.0, name));
                }
            }
        }
    }
}

/// Whether a rule can never emit a candidate normalizing to `name`
/// on this article.
pub open spec fn rule_never_names(
    r: crate::config::RuleView,
    am: Map<Seq<char>, Seq<char>>,
    ctx: ContextView,
    name: Seq<char>,
) -> bool {
    match crate::rules::apply_rule_spec(
        r,
        ctx.title,
        ctx.description,
        ctx.link,
        ctx.author,
        ctx.feed_slug,
    ) {
        Some(cands) => forall|ci: int|
            0 <= ci < cands.len() ==> crate::matching::normalize_spec(
                am,
                (#[trigger] cands[ci]).name,
            ) != name,
        None => true,
    }
}

/// Rule application cannot introduce a vetoed name, nor one that no
/// firing rule emits.
proof fn lemma_apply_rules_no(
    rules: Seq<crate::config::RuleView>,
    am: Map<Seq<char>, Seq<char>>,
    ctx: ContextView,
    excluded: Seq<Seq<char>>,
    tags: Seq<TagView>,
    seen: Seq<Seq<char>>,
    name: Seq<char>,
)
    requires
        !has_name(tags, name),
        excluded.contains(name) || forall|ri: int|
            0 <= ri < rules.len() ==> rule_never_names(#[trigger] rules[ri], am, ctx, name),
    ensures
        !has_name(apply_rules(rules, am, ctx, excluded, tags, seen).0, name),
    decreases rules.len(),
{
    if rules.len() > 0 {
        if !excluded.contains(name) {
            assert(forall|ri: int|
                0 <= ri < rules.drop_last().len() ==> #[trigger] rules.drop_last()[ri]
                    == rules[ri]);
        }
        lemma_apply_rules_no(rules.drop_last(), am, ctx, excluded, tags, seen, name);
        let prev = apply_rules(rules.drop_last(), am, ctx, excluded, tags, seen);
        let r = rules.last();
        if crate::rules::rule_kind(r.rule_type) != crate::rules::RuleKind::ExcludeIf {
            match crate::rules::apply_rule_spec(
                r,
                ctx.title,
                ctx.description,
                ctx.link,
                ctx.author,
                ctx.feed_slug,
            ) {
                Some(cands) => {
                    assert(rules[rules.len() - 1] == rules.last());
                    if !excluded.contains(name) {
                        assert(rule_never_names(rules.last(), am, ctx, name));
                    }
                    lemma_add_candidates_no(am, cands, excluded, prev.0, prev.1, name);
                },
                None => {},
            }
        }
    }
}

/// Keyword tagging cannot introduce a vetoed name, nor one whose
/// definitions never reach the threshold.
proof fn lemma_apply_keywords_no(
    defs: Seq<crate::config::TagDefView>,
    am: Map<Seq<char>, Seq<char>>,
    content: Seq<char>,
    threshold: u32,
    excluded: Seq<Seq<char>>,
    tags: Seq<TagView>,
    seen: Seq<Seq<char>>,
    name: Seq<char>,
)
    requires
        !has_name(tags, name),
        excluded.contains(name) || forall|di: int|
            0 <= di < defs.len() && crate::matching::normalize_spec(
                am,
                (#[trigger] defs[di]).name,
            ) == name ==> !(crate::matching::check_keywords_spec(content, defs[di].keywords)
            matches Some(conf) && conf >= threshold),
    ensures
        !has_name(apply_keywords(defs, am, content, threshold, excluded, tags, seen).0, name),
    decreases defs.len(),
{
    if defs.len() > 0 {
        if !excluded.contains(name) {
            assert(forall|di: int|
                0 <= di < defs.drop_last().len() ==> #[trigger] defs.drop_last()[di] == defs[di]);
        }
        lemma_apply_keywords_no(
            defs.drop_last(),
            am,
            content,
            threshold,
            excluded,
            tags,
            seen,
            name,
        );
        let prev = apply_keywords(defs.drop_last(), am, content, threshold, excluded, tags, seen);
        let out = apply_keywords(defs, am, content, threshold, excluded, tags, seen);
        let d = defs.last();
        assert(defs[defs.len() - 1] == defs.last());
        match crate::matching::check_keywords_spec(content, d.keywords) {
            Some(conf) => {
                if conf >= threshold {
                    let n = crate::matching::normalize_spec(am, d.name);
                    if !(excluded.contains(n) || prev.1.contains(n)) {
                        assert(n != name);
                        assert forall|i: int| 0 <= i < out.0.len() implies (
                        #[trigger] out.0[i]).name != name by {
                            if i < prev.0.len() {
                                assert(!has_name(prev.0, name));
                            }
                        }
                    }
                }
            },
            None => {},
        }
    }
}

/// Hint admission cannot introduce a vetoed name, nor one whose
/// definition shows no keyword in the content.
proof fn lemma_admit_hints_no(
    hints: Seq<Seq<char>>,
    defs: Seq<crate::config::TagDefView>,
    am: Map<Seq<char>, Seq<char>>,
    content: Seq<char>,
    excluded: Seq<Seq<char>>,
    tags: Seq<TagView>,
    seen: Seq<Seq<char>>,
    name: Seq<char>,
)
    requires
        !has_name(tags, name),
        excluded.contains(name) || (match find_def(defs, am, name) {
            Some(d) => d.keywords.len() == 0 || crate::matching::match_count(
                crate::text::lower_of(content),
                d.keywords,
            ) == 0,
            None => true,
        }),
    ensures
        !has_name(admit_hints(hints, defs, am, content, excluded, tags, seen).0, name),
    decreases hints.len(),
{
    if hints.len() > 0 {
        lemma_admit_hints_no(
            hints.drop_last(),
            defs,
            am,
            content,
            excluded,
            tags,
            seen,
            name,
        );
        let prev = admit_hints(hints.drop_last(), defs, am, content, excluded, tags, seen);
        let out = admit_hints(hints, defs, am, content, excluded, tags, seen);
        let h = hints.last();
        if !prev.1.contains(h) && !excluded.contains(h) {
            match find_def(defs, am, h) {
                Some(d) => {
                    if d.keywords.len() > 0 && crate::matching::match_count(
                        crate::text::lower_of(content),
                        d.keywords,
                    ) > 0 {
                        assert(h != name);
                        assert forall|i: int| 0 <= i < out.0.len() implies (
                        #[trigger] out.0[i]).name != name by {
                            if i < prev.0.len() {
                                assert(!has_name(prev.0, name));
                            }
                        }
                    }
                },
                None => {},
            }
        }
    }
}

/// Boosting changes no name.
proof fn lemma_boost_no(tags: Seq<TagView>, hints: Seq<Seq<char>>, name: Seq<char>)
    requires
        !has_name(tags, name),
    ensures
        !has_name(boost(tags, hints), name),
    decreases tags.len(),
{
    if tags.len() > 0 {
        assert(forall|i: int|
            0 <= i < tags.drop_last().len() ==> #[trigger] tags.drop_last()[i] == tags[i]);
        lemma_boost_no(tags.drop_last(), hints, name);
        let out = boost(tags, hints);
        assert(tags[tags.len() - 1] == tags.last());
        assert forall|i: int| 0 <= i < out.len() implies (#[trigger] out[i]).name != name by {
            if i < out.len() - 1 {
                assert(!has_name(boost(tags.drop_last(), hints), name));
            } else {
                assert(out[i] == boost_one(tags.last(), hints));
            }
        }
    }
}

/// Sorting introduces no name.
proof fn lemma_sort_desc_no(s: Seq<TagView>, name: Seq<char>)
    requires
        !has_name(s, name),
    ensures
        !has_name(sort_desc(s), name),
    decreases s.len(),
{
    if s.len() > 0 {
        assert(forall|i: int|
            0 <= i < s.drop_last().len() ==> #[trigger] s.drop_last()[i] == s[i]);
        lemma_sort_desc_no(s.drop_last(), name);
        let inner = sort_desc(s.drop_last());
        let out = insert_desc(inner, s.last());
        assert(s[s.len() - 1] == s.last());
        assert forall|i: int| 0 <= i < out.len() implies (#[trigger] out[i]).name != name by {
            lemma_insert_desc_members(inner, s.last(), i);
            if out[i] != s.last() {
                let y = choose|y: int| 0 <= y < inner.len() && inner[y] == out[i];
                assert(!has_name(inner, name));
            }
        }
    }
}

/// A matching exclusion rule's vetoed name ends in the computed veto
/// set.
proof fn lemma_excluded_of_contains(
    rules: Seq<crate::config::RuleView>,
    cl: Seq<char>,
    ri: int,
    name: Seq<char>,
)
    requires
        0 <= ri < rules.len(),
        crate::rules::rule_kind(rules[ri].rule_type) == crate::rules::RuleKind::ExcludeIf,
        crate::matching::match_count(cl, rules[ri].patterns) > 0,
        rules[ri].exclude_tags.contains(name),
    ensures
        excluded_of(rules, cl).contains(name),
    decreases rules.len(),
{
    if ri == rules.len() - 1 {
        let prev = excluded_of(rules.drop_last(), cl);
        assert(rules.last() == rules[ri]);
        let ti = choose|ti: int|
            0 <= ti < rules[ri].exclude_tags.len() && rules[ri].exclude_tags[ti] == name;
        assert((prev + rules[ri].exclude_tags)[prev.len() + ti] == name);
    } else {
        assert(rules.drop_last()[ri] == rules[ri]);
        lemma_excluded_of_contains(rules.drop_last(), cl, ri, name);
        let prev = excluded_of(rules.drop_last(), cl);
        let out = excluded_of(rules, cl);
        let wi = choose|wi: int| 0 <= wi < prev.len() && prev[wi] == name;
        if out != prev {
            assert(out == prev + rules.last().exclude_tags);
            assert(out[wi] == name);
        }
    }
}

/// Suppression by exclusion: when an exclusion rule matches the
/// article, none of its vetoed names appears in the result, whatever
/// the content, keyword definitions or feed tags say for it — so
/// long as no protocol category normalizes to the vetoed name, since
/// categories are recorded before the exclusion scan.
pub proof fn lemma_exclusion_suppresses(
    cfg: CatConfigView,
    am: Map<Seq<char>, Seq<char>>,
    ctx: ContextView,
    ri: int,
    name: Seq<char>,
)
    requires
        0 <= ri < cfg.rules.len(),
        crate::rules::rule_kind(cfg.rules[ri].rule_type) == crate::rules::RuleKind::ExcludeIf,
        crate::matching::match_count(
            crate::text::lower_of(crate::rules::raw_content(ctx.title, ctx.description)),
            cfg.rules[ri].patterns,
        ) > 0,
        cfg.rules[ri].exclude_tags.contains(name),
        match ctx.rss_categories {
            Some(cats) => forall|ci: int|
                0 <= ci < cats.len() ==> crate::matching::normalize_spec(am, #[trigger] cats[ci])
                    != name,
            None => true,
        },
    ensures
        !has_name(generate_spec(cfg, am, ctx), name),
{
    if !cfg.enabled {
        assert(!has_name(Seq::<TagView>::empty(), name));
    } else {
        let content = crate::rules::raw_content(ctx.title, ctx.description);
        let cl = crate::text::lower_of(content);
        let hints = hints_of(am, ctx);
        let cats: Seq<Seq<char>> = match ctx.rss_categories {
            Some(cs) => cs,
            None => Seq::empty(),
        };
        let staged1 = add_categories(am, cats, Seq::empty(), Seq::empty());
        let excl = excluded_of(cfg.rules, cl);
        lemma_excluded_of_contains(cfg.rules, cl, ri, name);
        assert(!has_name(Seq::<TagView>::empty(), name));
        lemma_add_categories_no(am, cats, Seq::empty(), Seq::empty(), name);
        let staged2 = apply_rules(cfg.rules, am, ctx, excl, staged1.0, staged1.1);
        lemma_apply_rules_no(cfg.rules, am, ctx, excl, staged1.0, staged1.1, name);
        let staged3: (Seq<TagView>, Seq<Seq<char>>) = if cfg.auto_tag_new_articles {
            apply_keywords(
                cfg.tags,
                am,
                content,
                cfg.confidence_threshold,
                excl,
                staged2.0,
                staged2.1,
            )
        } else {
            staged2
        };
        if cfg.auto_tag_new_articles {
            lemma_apply_keywords_no(
                cfg.tags,
                am,
                content,
                cfg.confidence_threshold,
                excl,
                staged2.0,
                staged2.1,
                name,
            );
        }
        let boosted = boost(staged3.0, hints);
        lemma_boost_no(staged3.0, hints, name);
        let staged4 = admit_hints(hints, cfg.tags, am, content, excl, boosted, staged3.1);
        lemma_admit_hints_no(hints, cfg.tags, am, content, excl, boosted, staged3.1, name);
        let ranked = sort_desc(staged4.0);
        lemma_sort_desc_no(staged4.0, name);
        let out = generate_spec(cfg, am, ctx);
        assert forall|i: int| 0 <= i < out.len() implies (#[trigger] out[i]).name != name by {
            assert(out[i] == ranked[i]);
            assert(!has_name(ranked, name));
        }
    }
}

/// A feed hint with no evidence at all never reaches the output: no
/// protocol category carries it, no firing rule emits it, no keyword
/// definition scores it past the threshold, and its own definition
/// shows no keyword in the content.
pub proof fn lemma_unevidenced_hint_absent(
    cfg: CatConfigView,
    am: Map<Seq<char>, Seq<char>>,
    ctx: ContextView,
    name: Seq<char>,
)
    requires
        match ctx.rss_categories {
            Some(cats) => forall|ci: int|
                0 <= ci < cats.len() ==> crate::matching::normalize_spec(am, #[trigger] cats[ci])
                    != name,
            None => true,
        },
        forall|ri: int|
            0 <= ri < cfg.rules.len() ==> rule_never_names(#[trigger] cfg.rules[ri], am, ctx, name),
        forall|di: int|
            0 <= di < cfg.tags.len() && crate::matching::normalize_spec(
                am,
                (#[trigger] cfg.tags[di]).name,
            ) == name ==> !(crate::matching::check_keywords_spec(
            crate::rules::raw_content(ctx.title, ctx.description),
            cfg.tags[di].keywords,
        ) matches Some(conf) && conf >= cfg.confidence_threshold),
        match find_def(cfg.tags, am, name) {
            Some(d) => d.keywords.len() == 0 || crate::matching::match_count(
                crate::text::lower_of(crate::rules::raw_content(ctx.title, ctx.description)),
                d.keywords,
            ) == 0,
            None => true,
        },
    ensures
        !has_name(generate_spec(cfg, am, ctx), name),
{
    if !cfg.enabled {
        assert(!has_name(Seq::<TagView>::empty(), name));
    } else {
        let content = crate::rules::raw_content(ctx.title, ctx.description);
        let cl = crate::text::lower_of(content);
        let hints = hints_of(am, ctx);
        let cats: Seq<Seq<char>> = match ctx.rss_categories {
            Some(cs) => cs,
            None => Seq::empty(),
        };
        let staged1 = add_categories(am, cats, Seq::empty(), Seq::empty());
        let excl = excluded_of(cfg.rules, cl);
        assert(!has_name(Seq::<TagView>::empty(), name));
        lemma_add_categories_no(am, cats, Seq::empty(), Seq::empty(), name);
        let staged2 = apply_rules(cfg.rules, am, ctx, excl, staged1.0, staged1.1);
        lemma_apply_rules_no(cfg.rules, am, ctx, excl, staged1.0, staged1.1, name);
        let staged3: (Seq<TagView>, Seq<Seq<char>>) = if cfg.auto_tag_new_articles {
            apply_keywords(
                cfg.tags,
                am,
                content,
                cfg.confidence_threshold,
                excl,
                staged2.0,
                staged2.1,
            )
        } else {
            staged2
        };
        if cfg.auto_tag_new_articles {
            lemma_apply_keywords_no(
                cfg.tags,
                am,
                content,
                cfg.confidence_threshold,
                excl,
                staged2.0,
                staged2.1,
                name,
            );
        }
        let boosted = boost(staged3.0, hints);
        lemma_boost_no(staged3.0, hints, name);
        let staged4 = admit_hints(hints, cfg.tags, am, content, excl, boosted, staged3.1);
        lemma_admit_hints_no(hints, cfg.tags, am, content, excl, boosted, staged3.1, name);
        let ranked = sort_desc(staged4.0);
        lemma_sort_desc_no(staged4.0, name);
        let out = generate_spec(cfg, am, ctx);
        assert forall|i: int| 0 <= i < out.len() implies (#[trigger] out[i]).name != name by {
            assert(out[i] == ranked[i]);
            assert(!has_name(ranked, name));
        }
    }
}

} // verus!
