//! The news sentry: which headlines are hot, and which entries it has
//! already seen.

use vstd::prelude::*;
use crate::symbol_map::SymbolMap;
use crate::feed::{is_screenable_feed, screenable_feed};
use crate::text::{contains, has_substring, owned};

verus! {

/// The keywords that make a headline hot, in the order they are tried.
pub open spec fn spec_hot_keywords() -> Seq<Seq<char>> {
    seq![
        "fed"@, "rate"@, "inflation"@, "cpi"@, "sec"@, "etf"@, "approved"@,
        "partnership"@, "hack"@, "exploit"@, "ceasefire"@, "strike"@,
    ]
}

/// The hot keywords.
pub fn hot_keywords() -> (r: Vec<&'static str>)
    ensures
        r@.map_values(|s: &str| s@) == spec_hot_keywords(),
{
    let r: Vec<&'static str> = vec![
        "fed", "rate", "inflation", "cpi", "sec", "etf", "approved",
        "partnership", "hack", "exploit", "ceasefire", "strike",
    ];
    assert(r@.map_values(|s: &str| s@) =~= spec_hot_keywords());
    r
}

/// The sentry forgets the entries it has seen once it has seen more than
/// this many.
pub const SEEN_LIMIT: usize = 1000;

/// Name for what `str::to_lowercase` returns: the text with each character
/// replaced by its Unicode lowercase mapping.
pub uninterp spec fn lowercase(s: Seq<char>) -> Seq<char>;

/// Calls `str::to_lowercase`. The contract says only that the result is
/// `lowercase` of the text; Unicode's case tables are not written out.
#[verifier::external_body]
fn to_lowercase(s: &str) -> (r: String)
    ensures
        r@ == lowercase(s@),
{
    s.to_lowercase()
}

/// The text an entry is searched in: title, a space, summary, lowercased.
pub open spec fn spec_entry_text(title: Seq<char>, summary: Seq<char>) -> Seq<char> {
    lowercase(title + seq![' '] + summary)
}

/// The first hot keyword, from position `i` on, that occurs in `text`.
pub open spec fn first_keyword_from(text: Seq<char>, i: nat) -> Option<usize>
    decreases spec_hot_keywords().len() - i,
{
    if i >= spec_hot_keywords().len() {
        None
    } else if has_substring(text, spec_hot_keywords()[i as int]) {
        Some(i as usize)
    } else {
        first_keyword_from(text, i + 1)
    }
}

/// A keyword found from position `i` on stands at a position of the list,
/// at `i` or after, and occurs in the text.
proof fn lemma_first_keyword_from(text: Seq<char>, i: nat)
    ensures
        first_keyword_from(text, i) matches Some(k) ==> i <= k < spec_hot_keywords().len()
            && has_substring(text, spec_hot_keywords()[k as int]),
    decreases spec_hot_keywords().len() - i,
{
    if i < spec_hot_keywords().len() && !has_substring(text, spec_hot_keywords()[i as int]) {
        lemma_first_keyword_from(text, i + 1);
    }
}

/// What `first_keyword_from` finds from `i` on: a keyword at `i` or after
/// that occurs, with none between `i` and it; or nothing when none from `i`
/// on occurs.
proof fn lemma_first_keyword_from_exact(text: Seq<char>, i: nat)
    ensures
        first_keyword_from(text, i) matches Some(k) ==> i <= k < spec_hot_keywords().len()
            && has_substring(text, spec_hot_keywords()[k as int])
            && forall|m: int| i <= m < k ==> !has_substring(text, #[trigger] spec_hot_keywords()[m]),
        first_keyword_from(text, i) is None ==> forall|m: int|
            i <= m < spec_hot_keywords().len() ==> !has_substring(text, #[trigger] spec_hot_keywords()[m]),
    decreases spec_hot_keywords().len() - i,
{
    if i < spec_hot_keywords().len() && !has_substring(text, spec_hot_keywords()[i as int]) {
        lemma_first_keyword_from_exact(text, i + 1);
    }
}

/// Law (hot keywords): every one of the twelve hot keywords is tried. The
/// result names a keyword that occurs in the text, and no keyword before
/// it in the list occurs; it is `None` only when none of the twelve occurs.
/// So whenever keyword `k` occurs, the result is `Some(j)` with `j <= k`.
pub proof fn law_first_hot_keyword_exact(text: Seq<char>)
    ensures
        spec_hot_keywords().len() == 12,
        spec_first_hot_keyword(text) matches Some(j) ==> j < 12 && has_substring(text, spec_hot_keywords()[j as int])
            && forall|m: int| 0 <= m < j ==> !has_substring(text, #[trigger] spec_hot_keywords()[m]),
        spec_first_hot_keyword(text) is None <==> forall|m: int|
            0 <= m < 12 ==> !has_substring(text, #[trigger] spec_hot_keywords()[m]),
        forall|k: int|
            0 <= k < 12 && has_substring(text, #[trigger] spec_hot_keywords()[k]) ==> (spec_first_hot_keyword(text) matches Some(j) && j <= k),
{
    lemma_first_keyword_from_exact(text, 0);
}

/// The position of the first hot keyword that occurs in `text`.
pub open spec fn spec_first_hot_keyword(text: Seq<char>) -> Option<usize> {
    first_keyword_from(text, 0)
}

/// The position, in `spec_hot_keywords`, of the first keyword that occurs
/// in `text`.
pub fn first_hot_keyword(text: &str) -> (r: Option<usize>)
    ensures
        r == spec_first_hot_keyword(text@),
{
    let kws: Vec<&'static str> = hot_keywords();
    let ghost kv = kws@.map_values(|s: &str| s@);
    let mut i: usize = 0;
    while i < kws.len()
        invariant
            i <= kws@.len(),
            kv == kws@.map_values(|s: &str| s@),
            kv == spec_hot_keywords(),
            first_keyword_from(text@, 0) == first_keyword_from(text@, i as nat),
        decreases kws.len() - i,
    {
        assert(kv[i as int] == kws@[i as int]@);
        if contains(text, kws[i]) {
            return Some(i);
        }
        i = i + 1;
    }
    None
}

/// A hot headline to pass on: its title and the keyword found.
pub struct NewsAlert {
    pub title: String,
    pub keyword: String,
}

impl View for NewsAlert {
    type V = (Seq<char>, Seq<char>);

    open spec fn view(&self) -> (Seq<char>, Seq<char>) {
        (self.title@, self.keyword@)
    }
}

/// The alert for an entry with `title` whose lowercased text is `text`.
pub open spec fn spec_alert(title: Seq<char>, text: Seq<char>) -> Option<(Seq<char>, Seq<char>)> {
    match spec_first_hot_keyword(text) {
        Some(i) => Some((title, spec_hot_keywords()[i as int])),
        None => None,
    }
}

pub open spec fn alert_view(r: Option<NewsAlert>) -> Option<(Seq<char>, Seq<char>)> {
    match r {
        Some(a) => Some(a@),
        None => None,
    }
}

/// The alert for an entry with `title` whose lowercased text is `text`:
/// the title as it is with the first hot keyword found in `text`, or no
/// alert when no keyword occurs.
pub fn alert_for(title: &str, text: &str) -> (r: Option<NewsAlert>)
    ensures
        alert_view(r) == spec_alert(title@, text@),
{
    let found: Option<usize> = first_hot_keyword(text);
    proof {
        lemma_first_keyword_from(text@, 0);
    }
    match found {
        Some(i) => {
            let kws: Vec<&'static str> = hot_keywords();
            assert(kws@.map_values(|s: &str| s@)[i as int] == kws@[i as int]@);
            Some(NewsAlert { title: owned(title), keyword: owned(kws[i]) })
        },
        None => None,
    }
}

/// The lowercased text of an entry.
pub fn entry_text(title: &str, summary: &str) -> (r: String)
    ensures
        r@ == spec_entry_text(title@, summary@),
{
    let mut joined: String = owned(title);
    joined.append(" ");
    joined.append(summary);
    proof {
        reveal_strlit(" ");
        assert(joined@ =~= title@ + seq![' '] + summary@);
    }
    to_lowercase(joined.as_str())
}

/// An entry of a news feed.
pub struct FeedEntry {
    pub id: String,
    pub title: Option<String>,
    pub summary: Option<String>,
}

/// A missing title or summary reads as empty text.
pub open spec fn text_or_empty(t: Option<String>) -> Seq<char> {
    match t {
        Some(s) => s@,
        None => Seq::empty(),
    }
}

/// An entry as it is screened: id, title and summary.
pub open spec fn entry_view(e: FeedEntry) -> (Seq<char>, Seq<char>, Seq<char>) {
    (e.id@, text_or_empty(e.title), text_or_empty(e.summary))
}

pub open spec fn entries_view(es: Seq<FeedEntry>) -> Seq<(Seq<char>, Seq<char>, Seq<char>)> {
    es.map_values(|e: FeedEntry| entry_view(e))
}

pub open spec fn alerts_view(alerts: Seq<NewsAlert>) -> Seq<(Seq<char>, Seq<char>)> {
    alerts.map_values(|a: NewsAlert| a@)
}

/// One entry screened against the ids seen: an entry seen before changes
/// nothing and gives no alert; a new one is marked seen and gives the alert
/// of its title and lowercased text.
pub open spec fn spec_screen(seen: Set<Seq<char>>, e: (Seq<char>, Seq<char>, Seq<char>)) -> (Set<Seq<char>>, Option<(Seq<char>, Seq<char>)>) {
    if seen.contains(e.0) {
        (seen, None)
    } else {
        (seen.insert(e.0), spec_alert(e.1, spec_entry_text(e.1, e.2)))
    }
}

/// The entries of a feed screened in order: the ids seen afterwards, and
/// the alerts raised, in order.
pub open spec fn spec_screen_all(seen: Set<Seq<char>>, entries: Seq<(Seq<char>, Seq<char>, Seq<char>)>) -> (Set<Seq<char>>, Seq<(Seq<char>, Seq<char>)>)
    decreases entries.len(),
{
    if entries.len() == 0 {
        (seen, Seq::empty())
    } else {
        let (s, alerts) = spec_screen_all(seen, entries.drop_last());
        let (s2, a) = spec_screen(s, entries.last());
        match a {
            Some(x) => (s2, alerts.push(x)),
            None => (s2, alerts),
        }
    }
}

/// The end of a round: the ids are forgotten when there are more than
/// `SEEN_LIMIT`.
pub open spec fn spec_end_round(seen: Set<Seq<char>>) -> Set<Seq<char>> {
    if seen.len() > SEEN_LIMIT {
        Set::empty()
    } else {
        seen
    }
}

/// The title and summary texts of an entry.
pub open spec fn entry_texts(e: FeedEntry) -> (Seq<char>, Seq<char>) {
    (text_or_empty(e.title), text_or_empty(e.summary))
}

/// The title and summary texts of a list of entries.
pub open spec fn entries_texts(es: Seq<FeedEntry>) -> Seq<(Seq<char>, Seq<char>)> {
    es.map_values(|e: FeedEntry| entry_texts(e))
}

/// Name for whether `feed_rs::parser::parse` reads the bytes as a feed.
pub uninterp spec fn feed_parses(bytes: Seq<u8>) -> bool;

/// Name for the title and summary texts, in order, of the entries that
/// `feed_rs::parser::parse` finds in the bytes (a missing one as empty).
pub uninterp spec fn feed_texts(bytes: Seq<u8>) -> Seq<(Seq<char>, Seq<char>)>;

/// Name for the ids of the entries that `feed_rs::parser::parse` finds in
/// the bytes, in order: the id the entry gives, or one made from its link
/// and title; `None` for an entry that gives no id and has no link, whose
/// id is random.
pub uninterp spec fn feed_ids(bytes: Seq<u8>) -> Seq<Option<Seq<char>>>;

/// The entries carry the ids that `ids` fixes: one id per entry, and where
/// `ids` gives one, the entry has it.
pub open spec fn ids_match(es: Seq<FeedEntry>, ids: Seq<Option<Seq<char>>>) -> bool {
    &&& es.len() == ids.len()
    &&& forall|i: int| 0 <= i < es.len() ==> (#[trigger] ids[i] matches Some(id) ==> es[i].id@ == id)
}

/// Calls `feed_rs::parser::parse` on the bytes of a feed and keeps, of each
/// entry, its id, title and summary text; `None` when the bytes are not a
/// feed. Whether they are, the titles and summaries, and the ids that are
/// not random depend on the bytes alone and are named by `feed_parses`,
/// `feed_texts` and `feed_ids`. It is called only on bytes that
/// `screenable_feed` admits, which leave out the inputs on which feed-rs's
/// source shows a panic (see there); that the call returns on them rests on
/// that reading of the source.
#[verifier::external_body]
fn parse_feed(bytes: &[u8]) -> (r: Option<Vec<FeedEntry>>)
    requires
        screenable_feed(bytes@),
    ensures
        r is Some == feed_parses(bytes@),
        r matches Some(es) ==> entries_texts(es@) == feed_texts(bytes@) && ids_match(es@, feed_ids(bytes@)),
{
    feed_rs::parser::parse(bytes).ok().map(|feed| {
        feed.entries.into_iter().map(|e| FeedEntry {
            id: e.id,
            title: e.title.map(|t| t.content),
            summary: e.summary.map(|s| s.content),
        }).collect()
    })
}

/// The ids of the news entries already looked at.
pub struct SeenIds {
    ids: SymbolMap<()>,
}

impl SeenIds {
    /// The ids seen.
    pub closed spec fn seen(&self) -> Set<Seq<char>> {
        self.ids@.dom()
    }

    /// No id seen yet.
    pub fn new() -> (s: Self)
        ensures
            s.seen() == Set::<Seq<char>>::empty(),
    {
        let s = SeenIds { ids: SymbolMap::new() };
        assert(s.seen() =~= Set::<Seq<char>>::empty());
        s
    }

    /// The number of ids seen.
    pub fn len(&self) -> (n: usize)
        ensures
            n == self.seen().len(),
    {
        self.ids.len()
    }

    /// Whether `id` was seen.
    pub fn contains(&self, id: &str) -> (r: bool)
        ensures
            r == self.seen().contains(id@),
    {
        self.ids.contains_key(id)
    }

    /// Marks `id` as seen.
    pub fn insert(&mut self, id: &str)
        ensures
            final(self).seen() == old(self).seen().insert(id@),
    {
        self.ids.insert(owned(id), ());
    }

    /// Looks at one feed entry. An entry seen before gives nothing and
    /// changes nothing. A new one is marked seen, and gives an alert when
    /// its lowercased title and summary hold a hot keyword.
    pub fn screen(&mut self, id: &str, title: &str, summary: &str) -> (r: Option<NewsAlert>)
        ensures
            (final(self).seen(), alert_view(r)) == spec_screen(old(self).seen(), (id@, title@, summary@)),
    {
        if self.contains(id) {
            return None;
        }
        let text: String = entry_text(title, summary);
        let alert: Option<NewsAlert> = alert_for(title, text.as_str());
        self.insert(id);
        alert
    }

    /// Looks at the entries of a feed in order, and gives the alerts they
    /// raise, in order.
    pub fn screen_entries(&mut self, entries: &Vec<FeedEntry>) -> (r: Vec<NewsAlert>)
        ensures
            (final(self).seen(), alerts_view(r@)) == spec_screen_all(
                old(self).seen(),
                entries_view(entries@),
            ),
    {
        let ghost ev = entries_view(entries@);
        let ghost start = self.seen();
        let mut alerts: Vec<NewsAlert> = Vec::new();
        let mut i: usize = 0;
        while i < entries.len()
            invariant
                i <= entries@.len(),
                ev == entries_view(entries@),
                (self.seen(), alerts_view(alerts@)) == spec_screen_all(start, ev.take(i as int)),
            decreases entries.len() - i,
        {
            let e: &FeedEntry = &entries[i];
            let title: &str = match &e.title {
                Some(t) => t.as_str(),
                None => "",
            };
            let summary: &str = match &e.summary {
                Some(s) => s.as_str(),
                None => "",
            };
            proof {
                reveal_strlit("");
                assert(title@ == text_or_empty(e.title));
                assert(summary@ == text_or_empty(e.summary));
                let t = ev.take(i + 1);
                assert(t.drop_last() =~= ev.take(i as int));
                assert(t.last() == entry_view(*e));
            }
            let ghost before = alerts_view(alerts@);
            match self.screen(e.id.as_str(), title, summary) {
                Some(a) => {
                    alerts.push(a);
                    assert(alerts_view(alerts@) =~= before.push(a@));
                },
                None => {},
            }
            i = i + 1;
        }
        assert(ev.take(i as int) =~= ev);
        alerts
    }

    /// Looks at a feed as it was fetched. Bytes that the sentry does not
    /// hand to the feed parser (see `screenable_feed`), or that are not a
    /// feed, give no alert and change nothing. Otherwise the entries the
    /// parser finds are screened in order as `screen_entries` does; their
    /// titles, summaries and (where not random) ids are those the parser
    /// reads from the bytes.
    pub fn screen_feed(&mut self, bytes: &[u8]) -> (r: Vec<NewsAlert>)
        ensures
            !(screenable_feed(bytes@) && feed_parses(bytes@)) ==> r@.len() == 0 && final(self).seen() == old(self).seen(),
            screenable_feed(bytes@) && feed_parses(bytes@) ==> exists|es: Seq<FeedEntry>|
                entries_texts(es) == feed_texts(bytes@) && ids_match(es, feed_ids(bytes@)) && (final(self).seen(), alerts_view(r@))
                    == #[trigger] spec_screen_all(old(self).seen(), entries_view(es)),
    {
        if !is_screenable_feed(bytes) {
            return Vec::new();
        }
        match parse_feed(bytes) {
            Some(entries) => {
                let r: Vec<NewsAlert> = self.screen_entries(&entries);
                assert(exists|es: Seq<FeedEntry>| entries_texts(es) == feed_texts(bytes@) && ids_match(es, feed_ids(bytes@))
                    && (self.seen(), alerts_view(r@)) == #[trigger] spec_screen_all(old(self).seen(), entries_view(es)))
                    by {
                    let es = entries@;
                    assert(entries_texts(es) == feed_texts(bytes@));
                    assert(ids_match(es, feed_ids(bytes@)));
                    assert((self.seen(), alerts_view(r@)) == spec_screen_all(
                        old(self).seen(),
                        entries_view(es),
                    ));
                }
                r
            },
            None => Vec::new(),
        }
    }

    /// Ends a round over the feeds: when more than `SEEN_LIMIT` ids have
    /// been seen, they are all forgotten.
    pub fn end_round(&mut self)
        ensures
            final(self).seen() == spec_end_round(old(self).seen()),
    {
        if self.len() > SEEN_LIMIT {
            *self = SeenIds::new();
        }
    }
}

/// Law: an entry raises at most one alert while its id is remembered: the
/// second time an id is screened it gives nothing and changes nothing,
/// whatever its title and summary then are.
pub proof fn law_alert_once(
    seen: Set<Seq<char>>,
    first: (Seq<char>, Seq<char>, Seq<char>),
    again: (Seq<char>, Seq<char>, Seq<char>),
)
    requires
        first.0 == again.0,
    ensures
        spec_screen(spec_screen(seen, first).0, again) == (spec_screen(seen, first).0, None::<(Seq<char>, Seq<char>)>),
        spec_screen(seen, first).0.contains(first.0),
{
}

/// Law: within one feed, no id raises two alerts: the alerts of a feed
/// whose entries share an id are those of the feed without the repeat.
pub proof fn law_repeat_in_feed_ignored(
    seen: Set<Seq<char>>,
    entries: Seq<(Seq<char>, Seq<char>, Seq<char>)>,
    again: (Seq<char>, Seq<char>, Seq<char>),
)
    requires
        exists|i: int| 0 <= i < entries.len() && (#[trigger] entries[i]).0 == again.0,
    ensures
        spec_screen_all(seen, entries.push(again)) == spec_screen_all(seen, entries),
{
    lemma_screen_all_marks_seen(seen, entries);
    assert(entries.push(again).drop_last() =~= entries);
}

/// Every id screened is seen afterwards.
proof fn lemma_screen_all_marks_seen(seen: Set<Seq<char>>, entries: Seq<(Seq<char>, Seq<char>, Seq<char>)>)
    ensures
        forall|i: int| 0 <= i < entries.len() ==> spec_screen_all(seen, entries).0.contains(#[trigger] entries[i].0),
        seen.subset_of(spec_screen_all(seen, entries).0),
    decreases entries.len(),
{
    if entries.len() > 0 {
        let t = entries.drop_last();
        lemma_screen_all_marks_seen(seen, t);
        assert forall|i: int| 0 <= i < entries.len() implies spec_screen_all(seen, entries).0.contains(
            #[trigger] entries[i].0,
        ) by {
            if i < entries.len() - 1 {
                assert(entries[i] == t[i]);
            }
        }
    }
}

/// Law: after a round ends, at most `SEEN_LIMIT` ids are remembered.
pub proof fn law_memory_bounded(seen: Set<Seq<char>>)
    ensures
        spec_end_round(seen).len() <= SEEN_LIMIT,
{
    if seen.len() > SEEN_LIMIT {
        assert(spec_end_round(seen).len() == 0);
    }
}

} // verus!
