//! The application state and the merge engine: feeds keyed by source
//! URL, articles keyed by stable identity, and a merge that never prunes
//! articles and never touches user-set visibility.

use vstd::prelude::*;

use crate::date::ArticleDate;
use crate::table::Table;
use crate::Millis;

verus! {

/// One syndicated entry; immutable once constructed, only ever replaced
/// wholesale by a re-fetch.
#[derive(Clone, Debug, PartialEq)]
pub struct Article {
    pub title: String,
    pub date: ArticleDate,
    pub url: String,
}

/// Mathematical shape of an [`Article`].
#[verifier::ext_equal]
pub ghost struct ArticleView {
    pub title: Seq<char>,
    pub date: ArticleDate,
    pub url: Seq<char>,
}

impl View for Article {
    type V = ArticleView;

    open spec fn view(&self) -> ArticleView {
        ArticleView { title: self.title@, date: self.date, url: self.url@ }
    }
}

impl Article {
    /// A field-for-field copy.
    pub fn duplicate(&self) -> (r: Article)
        ensures
            r@ == self@,
    {
        Article { title: self.title.clone(), date: self.date, url: self.url.clone() }
    }
}

/// What the feed parser hands the merge engine: the document's title and
/// the canonical articles keyed by their stable identity.
#[derive(Clone, Debug, PartialEq)]
pub struct ParsedFeed {
    pub title: String,
    pub article_map: Table<Article>,
}

/// Mathematical shape of a [`ParsedFeed`].
#[verifier::ext_equal]
pub ghost struct ParsedFeedView {
    pub title: Seq<char>,
    pub article_map: Map<Seq<char>, ArticleView>,
}

impl View for ParsedFeed {
    type V = ParsedFeedView;

    open spec fn view(&self) -> ParsedFeedView {
        ParsedFeedView { title: self.title@, article_map: self.article_map@ }
    }
}

impl ParsedFeed {
    /// Article identities are unique.
    pub open spec fn wf(self) -> bool {
        self.article_map.wf()
    }
}

/// One subscribed source. `url` is the subscription URL and doubles as
/// the key under which the feed is stored; `visible` is set only by an
/// explicit user action, never by a fetch or merge.
#[derive(Clone, Debug, PartialEq)]
pub struct Feed {
    pub title: String,
    pub url: String,
    pub article_map: Table<Article>,
    pub updated: Millis,
    pub visible: bool,
}

/// Mathematical shape of a [`Feed`].
#[verifier::ext_equal]
pub ghost struct FeedView {
    pub title: Seq<char>,
    pub url: Seq<char>,
    pub article_map: Map<Seq<char>, ArticleView>,
    pub updated: Millis,
    pub visible: bool,
}

impl View for Feed {
    type V = FeedView;

    open spec fn view(&self) -> FeedView {
        FeedView {
            title: self.title@,
            url: self.url@,
            article_map: self.article_map@,
            updated: self.updated,
            visible: self.visible,
        }
    }
}

impl Feed {
    /// Article identities are unique.
    pub open spec fn wf(self) -> bool {
        self.article_map.wf()
    }
}

/// The root aggregate: the text of the add-feed input field and the
/// subscribed feeds keyed by source URL.
#[derive(Clone, Debug, PartialEq)]
pub struct State {
    pub new_feed_url: String,
    pub feed_map: Table<Feed>,
}

/// Mathematical shape of a [`State`].
#[verifier::ext_equal]
pub ghost struct StateView {
    pub new_feed_url: Seq<char>,
    pub feed_map: Map<Seq<char>, FeedView>,
}

impl View for State {
    type V = StateView;

    open spec fn view(&self) -> StateView {
        StateView { new_feed_url: self.new_feed_url@, feed_map: self.feed_map@ }
    }
}

/// What a merge of a parsed feed yields: the named feed entry is
/// replaced by one carrying the freshly parsed title, the union of the
/// prior articles with the fresh ones (fresh wins on a shared identity),
/// the merge's clock reading, and the prior visibility; a previously
/// unknown source URL starts visible with no prior articles. Every other
/// feed and the pending input text are untouched.
pub open spec fn merge_spec(
    s: StateView,
    url: Seq<char>,
    p: ParsedFeedView,
    now: Millis,
) -> StateView {
    let prior_articles = if s.feed_map.contains_key(url) {
        s.feed_map[url].article_map
    } else {
        Map::<Seq<char>, ArticleView>::empty()
    };
    let vis = if s.feed_map.contains_key(url) {
        s.feed_map[url].visible
    } else {
        true
    };
    StateView {
        new_feed_url: s.new_feed_url,
        feed_map: s.feed_map.insert(
            url,
            FeedView {
                title: p.title,
                url: url,
                article_map: prior_articles.union_prefer_right(p.article_map),
                updated: now,
                visible: vis,
            },
        ),
    }
}

/// What toggling a feed's visibility yields: the flag flipped when the
/// feed exists, everything else untouched; a no-op otherwise.
pub open spec fn toggle_spec(s: StateView, url: Seq<char>) -> StateView {
    if s.feed_map.contains_key(url) {
        StateView {
            new_feed_url: s.new_feed_url,
            feed_map: s.feed_map.insert(
                url,
                FeedView { visible: !s.feed_map[url].visible, ..s.feed_map[url] },
            ),
        }
    } else {
        s
    }
}

proof fn lemma_union_insert(
    m1: Map<Seq<char>, ArticleView>,
    m2: Map<Seq<char>, ArticleView>,
    k: Seq<char>,
    v: ArticleView,
)
    ensures
        m1.union_prefer_right(m2).insert(k, v) == m1.union_prefer_right(m2.insert(k, v)),
{
    assert(m1.union_prefer_right(m2).insert(k, v) =~= m1.union_prefer_right(m2.insert(k, v)));
}

impl State {
    /// Every feed is stored under its own source URL and has unique
    /// article identities, and no source URL occurs twice.
    pub open spec fn wf(self) -> bool {
        &&& self.feed_map.wf()
        &&& forall|i: int|
            0 <= i < self.feed_map.entries@.len() ==> (#[trigger] self.feed_map.entries@[i].1).wf()
                && self.feed_map.entries@[i].1.url@ == self.feed_map.entries@[i].0@
    }

    /// Decides well-formedness at run time, for callers that obtained a
    /// state from outside the library's own constructors.
    pub fn wf_check(&self) -> (r: bool)
        ensures
            r == self.wf(),
    {
        if !self.feed_map.keys_distinct() {
            return false;
        }
        let n = self.feed_map.len();
        let mut i: usize = 0;
        while i < n
            invariant
                n == self.feed_map.entries@.len(),
                i <= n,
                self.feed_map.wf(),
                forall|j: int|
                    0 <= j < i ==> (#[trigger] self.feed_map.entries@[j].1).wf()
                        && self.feed_map.entries@[j].1.url@ == self.feed_map.entries@[j].0@,
            decreases n - i,
        {
            let k = self.feed_map.key_at(i);
            let f = self.feed_map.val_at(i);
            if !(f.url == *k) {
                return false;
            }
            if !f.article_map.keys_distinct() {
                return false;
            }
            i = i + 1;
        }
        true
    }

    /// A fresh state: empty input field, no subscriptions.
    pub fn new() -> (r: State)
        ensures
            r@ == (StateView { new_feed_url: Seq::<char>::empty(), feed_map: Map::empty() }),
            r.wf(),
    {
        State { new_feed_url: String::new(), feed_map: Table::new() }
    }

    /// Overwrites the text of the add-feed input field.
    pub fn set_new_feed_url(&mut self, url: String)
        requires
            old(self).wf(),
        ensures
            final(self).wf(),
            final(self)@ == (StateView { new_feed_url: url@, feed_map: old(self)@.feed_map }),
    {
        self.new_feed_url = url;
    }

    /// Takes the pending input as the URL of a new subscription and
    /// clears the input field; content arrives via a later merge.
    pub fn add_feed(&mut self) -> (url: String)
        requires
            old(self).wf(),
        ensures
            final(self).wf(),
            url@ == old(self)@.new_feed_url,
            final(self)@ == (StateView {
                new_feed_url: Seq::<char>::empty(),
                feed_map: old(self)@.feed_map,
            }),
    {
        let url = self.new_feed_url.clone();
        self.new_feed_url = String::new();
        url
    }

    /// Deletes a subscription outright, articles and visibility
    /// included; idempotent when the feed is already absent.
    pub fn remove_feed(&mut self, url: &String)
        requires
            old(self).wf(),
        ensures
            final(self).wf(),
            final(self)@ == (StateView {
                new_feed_url: old(self)@.new_feed_url,
                feed_map: old(self)@.feed_map.remove(url@),
            }),
    {
        self.feed_map.remove(url);
        proof {
            assert forall|j: int|
                0 <= j < final(self).feed_map.entries@.len() implies
                (#[trigger] final(self).feed_map.entries@[j].1).wf()
                    && final(self).feed_map.entries@[j].1.url@
                    == final(self).feed_map.entries@[j].0@ by {
                let i = choose|i: int|
                    0 <= i < old(self).feed_map.entries@.len() && old(self).feed_map.entries@[i]
                        == final(self).feed_map.entries@[j];
                assert(old(self).feed_map.entries@[i].1.wf());
            }
        }
    }

    /// Flips a feed's visibility; a no-op when the feed is absent.
    pub fn toggle_visible(&mut self, url: &String)
        requires
            old(self).wf(),
        ensures
            final(self).wf(),
            final(self)@ == toggle_spec(old(self)@, url@),
    {
        let taken = self.feed_map.take(url);
        match taken {
            Some(f) => {
                proof {
                    let i = choose|i: int|
                        0 <= i < old(self).feed_map.entries@.len()
                            && old(self).feed_map.entries@[i].0@ == url@
                            && old(self).feed_map.entries@[i].1 == f;
                    assert(f.wf() && f.url@ == url@);
                }
                let flipped = Feed {
                    title: f.title,
                    url: f.url,
                    article_map: f.article_map,
                    updated: f.updated,
                    visible: !f.visible,
                };
                let key = flipped.url.clone();
                let ghost gf = flipped;
                self.feed_map.insert(key, flipped);
                proof {
                    self.lemma_wf_after_insert(*old(self), url@, gf);
                    assert(final(self)@.feed_map =~= toggle_spec(old(self)@, url@).feed_map);
                }
            }
            None => {
                proof {
                    assert(final(self)@.feed_map =~= old(self)@.feed_map);
                    assert(final(self)@ =~~= toggle_spec(old(self)@, url@));
                }
            }
        }
    }

    /// After inserting a well-formed feed under its own URL into a
    /// well-formed state, the state is well-formed again.
    proof fn lemma_wf_after_insert(self, pre: State, url: Seq<char>, f: Feed)
        requires
            pre.wf(),
            f.wf(),
            f.url@ == url,
            forall|j: int|
                0 <= j < self.feed_map.entries@.len() ==> (#[trigger] self.feed_map.entries@[j].0@
                    == url && self.feed_map.entries@[j].1 == f) || exists|i: int|
                    0 <= i < pre.feed_map.entries@.len() && pre.feed_map.entries@[i]
                        == self.feed_map.entries@[j],
            self.feed_map.wf(),
        ensures
            self.wf(),
    {
        assert forall|j: int|
            0 <= j < self.feed_map.entries@.len() implies
            (#[trigger] self.feed_map.entries@[j].1).wf() && self.feed_map.entries@[j].1.url@
                == self.feed_map.entries@[j].0@ by {
            if !(self.feed_map.entries@[j].0@ == url && self.feed_map.entries@[j].1 == f) {
                let i = choose|i: int|
                    0 <= i < pre.feed_map.entries@.len() && pre.feed_map.entries@[i]
                        == self.feed_map.entries@[j];
                assert(pre.feed_map.entries@[i].1.wf());
            }
        }
    }

    /// The merge engine: folds a freshly parsed feed into the state (see
    /// [`merge_spec`]). Articles absent from the new fetch are retained,
    /// and visibility is never altered by a merge.
    #[verifier::loop_isolation(false)]
    pub fn merge(&mut self, source_url: &String, parsed: &ParsedFeed, now: Millis)
        requires
            old(self).wf(),
            parsed.wf(),
        ensures
            final(self).wf(),
            final(self)@ == merge_spec(old(self)@, source_url@, parsed@, now),
    {
        let taken = self.feed_map.take(source_url);
        let mut feed: Feed = match taken {
            Some(f) => {
                proof {
                    let i = choose|i: int|
                        0 <= i < old(self).feed_map.entries@.len()
                            && old(self).feed_map.entries@[i].0@ == source_url@
                            && old(self).feed_map.entries@[i].1 == f;
                    assert(f.wf() && f.url@ == source_url@);
                }
                f
            }
            None => Feed {
                title: String::new(),
                url: source_url.clone(),
                article_map: Table::new(),
                updated: now,
                visible: true,
            },
        };
        feed.title = parsed.title.clone();
        feed.updated = now;
        let ghost prior = feed.article_map@;
        let ghost fresh = parsed.article_map.entries@;
        let n = parsed.article_map.len();
        let mut i: usize = 0;
        while i < n
            invariant
                n == fresh.len(),
                fresh == parsed.article_map.entries@,
                i <= n,
                parsed.wf(),
                feed.article_map.wf(),
                feed.url@ == source_url@,
                feed.title@ == parsed@.title,
                feed.updated == now,
                feed.visible == (if old(self)@.feed_map.contains_key(source_url@) {
                    old(self)@.feed_map[source_url@].visible
                } else {
                    true
                }),
                feed.article_map@ == prior.union_prefer_right(
                    Table::<Article>::view_of(fresh.take(i as int)),
                ),
            decreases n - i,
        {
            let k = parsed.article_map.key_at(i).clone();
            let v = parsed.article_map.val_at(i).duplicate();
            proof {
                assert(fresh.take(i as int + 1).drop_last() =~= fresh.take(i as int));
                assert(fresh.take(i as int + 1).last() == fresh[i as int]);
                lemma_union_insert(
                    prior,
                    Table::<Article>::view_of(fresh.take(i as int)),
                    k@,
                    v@,
                );
            }
            feed.article_map.insert(k, v);
            i = i + 1;
        }
        proof {
            assert(fresh.take(n as int) =~= fresh);
        }
        let key = source_url.clone();
        let ghost gf = feed;
        self.feed_map.insert(key, feed);
        proof {
            self.lemma_wf_after_insert(*old(self), source_url@, gf);
            assert(gf@.article_map == prior.union_prefer_right(parsed@.article_map));
            assert(final(self)@.feed_map =~= merge_spec(
                old(self)@,
                source_url@,
                parsed@,
                now,
            ).feed_map);
        }
    }
}

impl Default for State {
    /// A fresh state, as [`State::new`] builds it.
    fn default() -> (r: State)
        ensures
            r@ == (StateView { new_feed_url: Seq::<char>::empty(), feed_map: Map::empty() }),
            r.wf(),
    {
        State::new()
    }
}

/// Dedup idempotence law: merging the same parsed feed into the same
/// state twice in a row yields exactly the state a single merge taken at
/// the second clock reading yields, whatever the two readings are.
pub proof fn lemma_merge_idempotent(
    s: StateView,
    url: Seq<char>,
    p: ParsedFeedView,
    n1: Millis,
    n2: Millis,
)
    ensures
        merge_spec(merge_spec(s, url, p, n1), url, p, n2) == merge_spec(s, url, p, n2),
{
    let s1 = merge_spec(s, url, p, n1);
    let prior = if s.feed_map.contains_key(url) {
        s.feed_map[url].article_map
    } else {
        Map::<Seq<char>, ArticleView>::empty()
    };
    assert(s1.feed_map.contains_key(url));
    assert(prior.union_prefer_right(p.article_map).union_prefer_right(p.article_map)
        =~= prior.union_prefer_right(p.article_map));
    assert(merge_spec(s1, url, p, n2).feed_map =~= merge_spec(s, url, p, n2).feed_map);
    assert(merge_spec(s1, url, p, n2) =~~= merge_spec(s, url, p, n2));
}

/// Merges against two different source URLs commute: no cross-feed
/// ordering is imposed on concurrent fetch completions.
pub proof fn lemma_merge_commutes(
    s: StateView,
    u1: Seq<char>,
    p1: ParsedFeedView,
    n1: Millis,
    u2: Seq<char>,
    p2: ParsedFeedView,
    n2: Millis,
)
    requires
        u1 != u2,
    ensures
        merge_spec(merge_spec(s, u1, p1, n1), u2, p2, n2) == merge_spec(
            merge_spec(s, u2, p2, n2),
            u1,
            p1,
            n1,
        ),
{
    assert(merge_spec(merge_spec(s, u1, p1, n1), u2, p2, n2).feed_map =~= merge_spec(
        merge_spec(s, u2, p2, n2),
        u1,
        p1,
        n1,
    ).feed_map);
    assert(merge_spec(merge_spec(s, u1, p1, n1), u2, p2, n2) =~~= merge_spec(
        merge_spec(s, u2, p2, n2),
        u1,
        p1,
        n1,
    ));
}

/// A merge never alters a subscribed feed's visibility.
pub proof fn lemma_merge_preserves_visibility(
    s: StateView,
    url: Seq<char>,
    p: ParsedFeedView,
    now: Millis,
)
    requires
        s.feed_map.contains_key(url),
    ensures
        merge_spec(s, url, p, now).feed_map[url].visible == s.feed_map[url].visible,
{
}

/// Visibility preservation law: toggling a feed's visibility and then
/// merging a fresh fetch for that feed leaves the toggled visibility
/// unchanged.
pub proof fn lemma_toggle_then_merge_visible(
    s: StateView,
    url: Seq<char>,
    p: ParsedFeedView,
    now: Millis,
)
    requires
        s.feed_map.contains_key(url),
    ensures
        merge_spec(toggle_spec(s, url), url, p, now).feed_map[url].visible == toggle_spec(
            s,
            url,
        ).feed_map[url].visible,
{
}

/// A single merge only grows the merged feed's set of article
/// identities.
pub proof fn lemma_merge_articles_monotone(
    s: StateView,
    url: Seq<char>,
    p: ParsedFeedView,
    now: Millis,
)
    requires
        s.feed_map.contains_key(url),
    ensures
        s.feed_map[url].article_map.dom() <= merge_spec(
            s,
            url,
            p,
            now,
        ).feed_map[url].article_map.dom(),
{
    let prior = s.feed_map[url].article_map;
    assert forall|k: Seq<char>| prior.dom().contains(k) implies merge_spec(
        s,
        url,
        p,
        now,
    ).feed_map[url].article_map.dom().contains(k) by {
        assert(prior.union_prefer_right(p.article_map).contains_key(k));
    }
}

/// The state a sequence of merges against one source URL yields, each
/// element pairing a parsed feed with the merge's clock reading.
pub open spec fn merge_seq_spec(
    s: StateView,
    url: Seq<char>,
    ms: Seq<(ParsedFeedView, Millis)>,
) -> StateView
    decreases ms.len(),
{
    if ms.len() == 0 {
        s
    } else {
        merge_spec(merge_seq_spec(s, url, ms.drop_last()), url, ms.last().0, ms.last().1)
    }
}

/// After at least one merge the merged source URL is subscribed.
pub proof fn lemma_merge_seq_contains(s: StateView, url: Seq<char>, ms: Seq<(ParsedFeedView, Millis)>)
    requires
        ms.len() >= 1,
    ensures
        merge_seq_spec(s, url, ms).feed_map.contains_key(url),
{
}

/// Article monotonic union law: across any sequence of merges against
/// one source URL, the article-identity set after an earlier merge is a
/// subset of the set after any later merge; no re-fetch ever prunes.
pub proof fn lemma_merge_seq_monotone(
    s: StateView,
    url: Seq<char>,
    ms: Seq<(ParsedFeedView, Millis)>,
    i: int,
    j: int,
)
    requires
        1 <= i <= j <= ms.len(),
    ensures
        merge_seq_spec(s, url, ms.take(i)).feed_map[url].article_map.dom() <= merge_seq_spec(
            s,
            url,
            ms.take(j),
        ).feed_map[url].article_map.dom(),
    decreases j - i,
{
    if j == i {
        let d = merge_seq_spec(s, url, ms.take(i)).feed_map[url].article_map.dom();
        assert(d <= d);
    } else {
        lemma_merge_seq_monotone(s, url, ms, i, j - 1);
        let prev = merge_seq_spec(s, url, ms.take(j - 1));
        lemma_merge_seq_contains(s, url, ms.take(j - 1));
        assert(ms.take(j).drop_last() =~= ms.take(j - 1));
        assert(merge_seq_spec(s, url, ms.take(j)) == merge_spec(
            prev,
            url,
            ms[j - 1].0,
            ms[j - 1].1,
        ));
        lemma_merge_articles_monotone(prev, url, ms[j - 1].0, ms[j - 1].1);
        let di = merge_seq_spec(s, url, ms.take(i)).feed_map[url].article_map.dom();
        let dp = prev.feed_map[url].article_map.dom();
        let dj = merge_seq_spec(s, url, ms.take(j)).feed_map[url].article_map.dom();
        assert forall|k: Seq<char>| di.contains(k) implies dj.contains(k) by {
            assert(dp.contains(k));
        }
    }
}

} // verus!
