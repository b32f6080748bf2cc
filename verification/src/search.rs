use vstd::prelude::*;
use crate::desktop::DesktopApp;
use crate::order::{lemma_stable_sorted_unique, stable_order, stable_sorted};
use crate::strmap::StringMap;
use crate::text::{chars_of, eq_chars, lowercase, to_lower, trim, trim_str};

verus! {

/// An application that matches a query, with how well it matches (lower is better).
#[derive(Clone, Debug, PartialEq, Eq)]
pub struct SearchResult<'a> {
    pub app: &'a DesktopApp,
    pub score: i32,
}

/// `needle` occurs in `hay`.
pub open spec fn occurs_in(needle: Seq<char>, hay: Seq<char>) -> bool {
    exists|i: int| 0 <= i && i + needle.len() <= hay.len() && #[trigger] hay.subrange(i, i + needle.len()) == needle
}

/// The characters of `query` occur in `value` in order, not necessarily next
/// to each other (matched greedily from the left).
pub open spec fn fuzzy(value: Seq<char>, query: Seq<char>) -> bool
    decreases value.len(),
{
    if query.len() == 0 {
        true
    } else if value.len() == 0 {
        false
    } else if value[0] == query[0] {
        fuzzy(value.drop_first(), query.drop_first())
    } else {
        fuzzy(value.drop_first(), query)
    }
}

/// Some keyword, lowercased, contains `query`.
pub open spec fn keyword_match(app: DesktopApp, query: Seq<char>) -> bool {
    exists|k: int| 0 <= k < app.keywords@.len() && occurs_in(query, lowercase(#[trigger] app.keywords@[k]@))
}

/// The optional text, lowercased, contains `query`.
pub open spec fn optional_match(text: Option<String>, query: Seq<char>) -> bool {
    text matches Some(t) && occurs_in(query, lowercase(t@))
}

/// How well an application matches a (lowercased, non-empty) query: an exact
/// name is 0, a name prefix 1, a name substring 2, a keyword 3, the generic
/// name or comment 4, the name's letters in order 5; `None` when nothing matches.
pub open spec fn rank(app: DesktopApp, query: Seq<char>) -> Option<int> {
    let name = lowercase(app.name@);
    if name == query {
        Some(0)
    } else if query.is_prefix_of(name) {
        Some(1)
    } else if occurs_in(query, name) {
        Some(2)
    } else if keyword_match(app, query) {
        Some(3)
    } else if optional_match(app.generic_name, query) || optional_match(app.comment, query) {
        Some(4)
    } else if fuzzy(name, query) {
        Some(5)
    } else {
        None
    }
}

/// The query as it is matched: trimmed and lowercased.
pub open spec fn query_text(query: Seq<char>) -> Seq<char> {
    lowercase(trim(query))
}

/// How often an application was launched.
pub open spec fn launch_count(counts: Map<Seq<char>, u64>, id: Seq<char>) -> int {
    if counts.contains_key(id) {
        counts[id] as int
    } else {
        0
    }
}

/// The score of an application for a matched query: every application
/// scores 0 for the empty query.
pub open spec fn score_of(app: DesktopApp, query: Seq<char>) -> Option<int> {
    if query.len() == 0 {
        Some(0)
    } else {
        rank(app, query)
    }
}

/// What results are ordered by: for the empty query, most launched first;
/// otherwise best score first; then by lowercased name.
pub open spec fn sort_key(app: DesktopApp, query: Seq<char>, counts: Map<Seq<char>, u64>) -> (
    int,
    Seq<char>,
) {
    let first = if query.len() == 0 {
        -launch_count(counts, app.id@)
    } else {
        match rank(app, query) {
            Some(s) => s,
            None => 0,
        }
    };
    (first, lowercase(app.name@))
}

fn occurs(needle: &[char], hay: &[char]) -> (r: bool)
    ensures
        r == occurs_in(needle@, hay@),
{
    let m = needle.len();
    let n = hay.len();
    if m > n {
        return false;
    }
    let mut i: usize = 0;
    while i <= n - m
        invariant
            m == needle@.len(),
            n == hay@.len(),
            m <= n,
            i <= n - m + 1,
            forall|p: int| 0 <= p < i ==> #[trigger] hay@.subrange(p, p + m) != needle@,
        decreases n - i,
    {
        let mut j: usize = 0;
        while j < m && hay[i + j] == needle[j]
            invariant
                m == needle@.len(),
                n == hay@.len(),
                i + m <= n,
                j <= m,
                forall|q: int| 0 <= q < j ==> hay@[i + q] == needle@[q],
            decreases m - j,
        {
            j = j + 1;
        }
        if j == m {
            assert(hay@.subrange(i as int, i + m) =~= needle@);
            return true;
        }
        assert(hay@.subrange(i as int, i + m)[j as int] != needle@[j as int]);
        i = i + 1;
    }
    false
}

fn fuzzy_match(value: &[char], query: &[char]) -> (r: bool)
    ensures
        r == fuzzy(value@, query@),
{
    let mut i: usize = 0;
    let mut j: usize = 0;
    assert(value@.skip(0) == value@);
    assert(query@.skip(0) == query@);
    while j < query.len() && i < value.len()
        invariant
            i <= value@.len(),
            j <= query@.len(),
            fuzzy(value@, query@) == fuzzy(value@.skip(i as int), query@.skip(j as int)),
        decreases value.len() - i,
    {
        assert(value@.skip(i as int).drop_first() == value@.skip(i + 1));
        if value[i] == query[j] {
            assert(query@.skip(j as int).drop_first() == query@.skip(j + 1));
            j = j + 1;
        }
        i = i + 1;
    }
    j == query.len()
}

fn matches_text(text: &str, query: &[char]) -> (r: bool)
    ensures
        r == occurs_in(query@, lowercase(text@)),
{
    let lower = to_lower(text);
    let chars = chars_of(lower.as_str());
    occurs(query, &chars)
}

fn rank_app(app: &DesktopApp, name: &[char], query: &[char]) -> (r: Option<i32>)
    requires
        name@ == lowercase(app.name@),
    ensures
        match rank(*app, query@) {
            Some(s) => r == Some(s as i32),
            None => r is None,
        },
{
    if eq_chars(name, query) {
        return Some(0);
    }
    let mut prefix = query.len() <= name.len();
    if prefix {
        let mut j: usize = 0;
        while j < query.len()
            invariant
                query@.len() <= name@.len(),
                j <= query@.len(),
                prefix == forall|q: int| 0 <= q < j ==> name@[q] == query@[q],
            decreases query.len() - j,
        {
            if name[j] != query[j] {
                prefix = false;
            }
            j = j + 1;
        }
        assert(prefix == (query@ =~= name@.subrange(0, query@.len() as int)));
    }
    assert(prefix == query@.is_prefix_of(name@));
    if prefix {
        return Some(1);
    }
    if occurs(query, name) {
        return Some(2);
    }
    let mut k: usize = 0;
    while k < app.keywords.len()
        invariant
            k <= app.keywords@.len(),
            name@ == lowercase(app.name@),
            name@ != query@,
            !query@.is_prefix_of(name@),
            !occurs_in(query@, name@),
            forall|m: int| 0 <= m < k ==> !occurs_in(query@, lowercase(#[trigger] app.keywords@[m]@)),
        decreases app.keywords.len() - k,
    {
        if matches_text(app.keywords[k].as_str(), query) {
            assert(occurs_in(query@, lowercase(app.keywords@[k as int]@)));
            return Some(3);
        }
        k = k + 1;
    }
    let generic = match &app.generic_name {
        Some(g) => matches_text(g.as_str(), query),
        None => false,
    };
    let comment = match &app.comment {
        Some(c) => matches_text(c.as_str(), query),
        None => false,
    };
    if generic || comment {
        return Some(4);
    }
    if fuzzy_match(name, query) {
        return Some(5);
    }
    None
}

/// `results` lists the applications of `apps` at the positions `order`,
/// which are the applications that match `query`, stably sorted by their
/// sort keys, each with its score.
pub open spec fn ranked<'a>(
    results: Seq<SearchResult<'a>>,
    order: Seq<usize>,
    apps: Seq<DesktopApp>,
    query: Seq<char>,
    counts: Map<Seq<char>, u64>,
) -> bool {
    let q = query_text(query);
    &&& stable_sorted(
        order,
        Seq::new(apps.len(), |i: int| sort_key(apps[i], q, counts)),
        Seq::new(apps.len(), |i: int| score_of(apps[i], q) is Some),
    )
    &&& results.len() == order.len()
    &&& forall|k: int|
        0 <= k < order.len() ==> {
            &&& *(#[trigger] results[k]).app == apps[order[k] as int]
            &&& score_of(apps[order[k] as int], q) == Some(results[k].score as int)
        }
}

spec fn row_ok(
    number: i128,
    text: Seq<char>,
    sel: bool,
    score: i32,
    app: DesktopApp,
    q: Seq<char>,
    counts: Map<Seq<char>, u64>,
) -> bool {
    &&& (number as int, text) == sort_key(app, q, counts)
    &&& sel == (score_of(app, q) is Some)
    &&& sel ==> score_of(app, q) == Some(score as int)
}

/// With a blank query every application is listed, with score 0.
pub proof fn law_blank_query_lists_every_app<'a>(
    results: Seq<SearchResult<'a>>,
    order: Seq<usize>,
    apps: Seq<DesktopApp>,
    query: Seq<char>,
    counts: Map<Seq<char>, u64>,
)
    requires
        ranked(results, order, apps, query, counts),
        query_text(query).len() == 0,
        apps.len() <= usize::MAX,
    ensures
        forall|i: int|
            #![trigger apps[i]]
            0 <= i < apps.len() ==> exists|k: int|
                0 <= k < results.len() && *results[k].app == apps[i] && #[trigger] order[k] == i,
        forall|k: int| 0 <= k < results.len() ==> #[trigger] results[k].score == 0,
{
    let q = query_text(query);
    let sel = Seq::new(apps.len(), |i: int| score_of(apps[i], q) is Some);
    assert forall|i: int| #![trigger apps[i]] 0 <= i < apps.len() implies exists|k: int|
        0 <= k < results.len() && *results[k].app == apps[i] && #[trigger] order[k] == i by {
        assert(sel[i]);
        assert(order.contains(i as usize));
        let k = choose|k: int| 0 <= k < order.len() && order[k] == i as usize;
        assert(*results[k].app == apps[order[k] as int]);
    }
}

/// For a query that is not blank, only matching applications are listed, and
/// better scores come first.
pub proof fn law_results_best_first<'a>(
    results: Seq<SearchResult<'a>>,
    order: Seq<usize>,
    apps: Seq<DesktopApp>,
    query: Seq<char>,
    counts: Map<Seq<char>, u64>,
)
    requires
        ranked(results, order, apps, query, counts),
        query_text(query).len() > 0,
    ensures
        forall|k: int|
            0 <= k < results.len() ==> rank(*results[k].app, query_text(query)) == Some(
                #[trigger] results[k].score as int,
            ),
        forall|a: int, b: int|
            0 <= a < b < results.len() ==> #[trigger] results[a].score <= #[trigger] results[b].score,
{
    let q = query_text(query);
    let keys = Seq::new(apps.len(), |i: int| sort_key(apps[i], q, counts));
    assert forall|a: int, b: int| 0 <= a < b < results.len() implies #[trigger] results[a].score
        <= #[trigger] results[b].score by {
        assert(crate::order::ranked_before(keys, order[a] as int, order[b] as int));
        assert(*results[a].app == apps[order[a] as int]);
        assert(*results[b].app == apps[order[b] as int]);
    }
    assert forall|k: int| 0 <= k < results.len() implies rank(*results[k].app, q) == Some(
        #[trigger] results[k].score as int,
    ) by {
        assert(*results[k].app == apps[order[k] as int]);
    }
}

/// Whether `query` is blank once trimmed and lowercased, in which case
/// `filter_and_rank` lists every application, most often launched first.
pub fn query_is_blank(query: &str) -> (r: bool)
    ensures
        r == (query_text(query@).len() == 0),
{
    let trimmed = trim_str(query);
    let lowered = to_lower(trimmed.as_str());
    let q = chars_of(lowered.as_str());
    q.len() == 0
}

/// The generic name and the comment are searched: when neither the name nor
/// any keyword contains the query, an application scores 4 exactly when its
/// generic name or its comment, lowercased, contains the query, so a comment
/// that mentions the query is enough.
pub proof fn law_description_match_scores_four(app: DesktopApp, query: Seq<char>)
    requires
        query.len() > 0,
        !occurs_in(query, lowercase(app.name@)),
        forall|k: int|
            0 <= k < app.keywords@.len() ==> !occurs_in(
                query,
                lowercase(#[trigger] app.keywords@[k]@),
            ),
    ensures
        (rank(app, query) == Some(4int)) == ((app.generic_name matches Some(g) && occurs_in(
            query,
            lowercase(g@),
        )) || (app.comment matches Some(c) && occurs_in(query, lowercase(c@)))),
{
    let name = lowercase(app.name@);
    if name == query || query.is_prefix_of(name) {
        assert(name.subrange(0int, 0int + query.len()) =~= query);
        assert(occurs_in(query, name));
    }
    assert(name != query && !query.is_prefix_of(name));
    assert(!keyword_match(app, query));
    assert(optional_match(app.generic_name, query) == (app.generic_name matches Some(g)
        && occurs_in(query, lowercase(g@))));
    assert(optional_match(app.comment, query) == (app.comment matches Some(c) && occurs_in(
        query,
        lowercase(c@),
    )));
}

/// `ranked` has one solution: the results that rank a query over the same
/// applications and launch counts are the same, in the same order.
pub proof fn law_ranking_is_unique<'a>(
    results: Seq<SearchResult<'a>>,
    order: Seq<usize>,
    other_results: Seq<SearchResult<'a>>,
    other_order: Seq<usize>,
    apps: Seq<DesktopApp>,
    query: Seq<char>,
    counts: Map<Seq<char>, u64>,
)
    requires
        ranked(results, order, apps, query, counts),
        ranked(other_results, other_order, apps, query, counts),
    ensures
        order == other_order,
        results == other_results,
{
    let q = query_text(query);
    lemma_stable_sorted_unique(
        order,
        other_order,
        Seq::new(apps.len(), |i: int| sort_key(apps[i], q, counts)),
        Seq::new(apps.len(), |i: int| score_of(apps[i], q) is Some),
    );
    assert forall|k: int| 0 <= k < results.len() implies results[k] == other_results[k] by {
        assert(*results[k].app == apps[order[k] as int]);
        assert(*other_results[k].app == apps[order[k] as int]);
        assert(score_of(apps[order[k] as int], q) == Some(results[k].score as int));
        assert(score_of(apps[order[k] as int], q) == Some(other_results[k].score as int));
    }
    assert(results =~= other_results);
}

/// A query counts only as its trimmed, lowercased text: queries with the same
/// text (such as `" Fire "` and `"fire"`, whose lowercase forms agree) have
/// the same results.
pub proof fn law_query_counts_as_its_text<'a>(
    results: Seq<SearchResult<'a>>,
    order: Seq<usize>,
    other_results: Seq<SearchResult<'a>>,
    other_order: Seq<usize>,
    apps: Seq<DesktopApp>,
    query: Seq<char>,
    other: Seq<char>,
    counts: Map<Seq<char>, u64>,
)
    requires
        ranked(results, order, apps, query, counts),
        ranked(other_results, other_order, apps, other, counts),
        query_text(query) == query_text(other),
    ensures
        results == other_results,
{
    assert(ranked(other_results, other_order, apps, query, counts));
    law_ranking_is_unique(results, order, other_results, other_order, apps, query, counts);
}

/// Launch counts order only the results of a blank query: for any other
/// query, the results are the same whatever the counts.
pub proof fn law_counts_only_order_blank_query<'a>(
    results: Seq<SearchResult<'a>>,
    order: Seq<usize>,
    other_results: Seq<SearchResult<'a>>,
    other_order: Seq<usize>,
    apps: Seq<DesktopApp>,
    query: Seq<char>,
    counts: Map<Seq<char>, u64>,
    other_counts: Map<Seq<char>, u64>,
)
    requires
        ranked(results, order, apps, query, counts),
        ranked(other_results, other_order, apps, query, other_counts),
        query_text(query).len() > 0,
    ensures
        results == other_results,
{
    let q = query_text(query);
    assert(Seq::new(apps.len(), |i: int| sort_key(apps[i], q, counts)) =~= Seq::new(
        apps.len(),
        |i: int| sort_key(apps[i], q, other_counts),
    ));
    assert(ranked(other_results, other_order, apps, query, counts));
    law_ranking_is_unique(results, order, other_results, other_order, apps, query, counts);
}

/// The applications that match `query`, best first.
///
/// For a blank query every application is listed, most often launched
/// first; otherwise the matching applications are listed by score. Ties are
/// broken by lowercased name, then by the order of `apps`.
pub fn filter_and_rank<'a>(
    apps: &'a [DesktopApp],
    query: &str,
    launch_counts: &StringMap<u64>,
) -> (results: Vec<SearchResult<'a>>)
    ensures
        exists|order: Seq<usize>| #[trigger] ranked(results@, order, apps@, query@, launch_counts@),
{
    let trimmed = trim_str(query);
    let lowered = to_lower(trimmed.as_str());
    let q = chars_of(lowered.as_str());
    let ghost qv = query_text(query@);
    assert(q@ == qv);
    let n = apps.len();
    let mut numbers: Vec<i128> = Vec::new();
    let mut texts: Vec<Vec<char>> = Vec::new();
    let mut selected: Vec<bool> = Vec::new();
    let mut scores: Vec<i32> = Vec::new();
    let mut i: usize = 0;
    while i < n
        invariant
            n == apps@.len(),
            q@ == qv,
            i <= n,
            numbers@.len() == i,
            texts@.len() == i,
            selected@.len() == i,
            scores@.len() == i,
            forall|j: int|
                0 <= j < i ==> #[trigger] row_ok(
                    numbers@[j],
                    texts@[j]@,
                    selected@[j],
                    scores@[j],
                    apps@[j],
                    qv,
                    launch_counts@,
                ),
        decreases n - i,
    {
        let app = &apps[i];
        let lower_name = to_lower(app.name.as_str());
        let name = chars_of(lower_name.as_str());
        if q.len() == 0 {
            let count: u64 = match launch_counts.get(app.id.as_str()) {
                Some(c) => *c,
                None => 0,
            };
            numbers.push(-(count as i128));
            selected.push(true);
            scores.push(0);
        } else {
            match rank_app(app, &name, &q) {
                Some(score) => {
                    numbers.push(score as i128);
                    selected.push(true);
                    scores.push(score);
                },
                None => {
                    numbers.push(0);
                    selected.push(false);
                    scores.push(0);
                },
            }
        }
        texts.push(name);
        assert(row_ok(
            numbers@[i as int],
            texts@[i as int]@,
            selected@[i as int],
            scores@[i as int],
            apps@[i as int],
            qv,
            launch_counts@,
        ));
        i = i + 1;
    }
    assert forall|j: int| 0 <= j < n implies #[trigger] numbers@[j] as int == sort_key(
        apps@[j],
        qv,
        launch_counts@,
    ).0 && texts@[j]@ == sort_key(apps@[j], qv, launch_counts@).1 by {
        assert(row_ok(
            numbers@[j],
            texts@[j]@,
            selected@[j],
            scores@[j],
            apps@[j],
            qv,
            launch_counts@,
        ));
    }
    assert forall|j: int| 0 <= j < n implies #[trigger] selected@[j] == (score_of(apps@[j], qv) is Some)
        && (selected@[j] ==> score_of(apps@[j], qv) == Some(scores@[j] as int)) by {
        assert(row_ok(
            numbers@[j],
            texts@[j]@,
            selected@[j],
            scores@[j],
            apps@[j],
            qv,
            launch_counts@,
        ));
    }
    let ghost keys = Seq::new(apps@.len(), |i: int| sort_key(apps@[i], qv, launch_counts@));
    assert(Seq::new(numbers@.len(), |i: int| (numbers@[i] as int, texts@[i]@)) =~= keys);
    assert(selected@ =~= Seq::new(apps@.len(), |i: int| score_of(apps@[i], qv) is Some));
    let order = stable_order(&numbers, &texts, &selected);
    let mut results: Vec<SearchResult<'a>> = Vec::new();
    let mut k: usize = 0;
    while k < order.len()
        invariant
            n == apps@.len(),
            numbers@.len() == n,
            selected@.len() == n,
            scores@.len() == n,
            k <= order@.len(),
            forall|m: int| 0 <= m < order@.len() ==> #[trigger] order@[m] < n,
            forall|m: int| 0 <= m < order@.len() ==> selected@[#[trigger] order@[m] as int],
            forall|j: int|
                0 <= j < n ==> (#[trigger] selected@[j] ==> score_of(apps@[j], qv) == Some(
                    scores@[j] as int,
                )),
            results@.len() == k,
            forall|m: int|
                0 <= m < k ==> {
                    &&& *(#[trigger] results@[m]).app == apps@[order@[m] as int]
                    &&& score_of(apps@[order@[m] as int], qv) == Some(results@[m].score as int)
                },
        decreases order.len() - k,
    {
        let p = order[k];
        results.push(SearchResult { app: &apps[p], score: scores[p] });
        k = k + 1;
    }
    assert(ranked(results@, order@, apps@, query@, launch_counts@));
    results
}

} // verus!
