use rayon::iter::{IntoParallelRefIterator, ParallelIterator};
use vstd::prelude::*;
use vstd::string::*;
use vstd::utf8::encode_utf8;
use crate::models::display::{messages_view, DisplayMessage, DisplayMessageView};
use crate::pattern::{compile, compiled, is_match, matches_in};
use crate::services::cache::{
    holds, place_of, AppCache, CacheView, SessionCache, SessionCacheEntry,
    SessionCacheEntryView,
};
use crate::text::{first_occurs_at, lowercase, occurs, texts_view, to_lowercase};

verus! {

/// From how many units on the texts are matched on the worker pool.
pub const PARALLEL_THRESHOLD: usize = 100;

/// `memchr::memmem::find`: the index of the first place where `needle` lies
/// in `hay`, or `None` where it lies nowhere.
#[verifier::external_body]
fn find_bytes(hay: &[u8], needle: &[u8]) -> (r: Option<usize>)
    ensures
        match r {
            Some(at) => first_occurs_at(hay@, needle@, at as int),
            None => !occurs(hay@, needle@),
        },
{
    memchr::memmem::find(hay, needle)
}

/// `regex::Error` as `Display` writes it. Nothing is promised of the text.
#[verifier::external_body]
fn error_text(e: &regex::Error) -> String {
    format!("{}", e)
}

/// What a text is held against.
pub enum Matcher {
    /// A compiled pattern.
    Pattern(regex::Regex),
    /// A text whose bytes have to lie in the text that is searched.
    Literal(String),
}

/// What a text is held against, as contracts speak of it.
pub enum MatcherView {
    Pattern(regex::Regex),
    Literal(Seq<char>),
}

impl View for Matcher {
    type V = MatcherView;

    open spec fn view(&self) -> MatcherView {
        match self {
            Matcher::Pattern(re) => MatcherView::Pattern(*re),
            Matcher::Literal(needle) => MatcherView::Literal(needle@),
        }
    }
}

impl MatcherView {
    /// Whether `text` matches: the pattern matches somewhere in it, or the
    /// bytes of the literal lie in its bytes.
    pub open spec fn hits(self, text: Seq<char>) -> bool {
        match self {
            MatcherView::Pattern(re) => matches_in(re, text),
            MatcherView::Literal(needle) => occurs(encode_utf8(text), encode_utf8(needle)),
        }
    }
}

/// The pattern that a query stands for: the query itself, or the query
/// behind the flag that makes a pattern ignore case.
pub open spec fn pattern_for(query: Seq<char>, case_sensitive: bool) -> Seq<char> {
    if case_sensitive {
        query
    } else {
        "(?i)"@ + query
    }
}

/// What a query is matched with in each of the four modes; `None` for a
/// pattern that does not compile.
pub open spec fn matcher_for(query: Seq<char>, case_sensitive: bool, use_regex: bool) -> Option<
    MatcherView,
> {
    if use_regex {
        match compiled(pattern_for(query, case_sensitive)) {
            Some(re) => Some(MatcherView::Pattern(re)),
            None => None,
        }
    } else if case_sensitive {
        Some(MatcherView::Literal(query))
    } else {
        Some(MatcherView::Literal(lowercase(query)))
    }
}

/// The texts that a query is held against: those in lower case for a
/// literal query that ignores case, those as written in the other modes.
pub open spec fn corpus(entry: SessionCacheEntryView, case_sensitive: bool, use_regex: bool) -> Seq<
    Seq<char>,
> {
    if use_regex || case_sensitive {
        entry.original_texts
    } else {
        entry.lowercase_texts
    }
}

/// The identifiers of the units whose texts match, in the order of the units.
pub open spec fn matching_ids(
    units: Seq<DisplayMessageView>,
    texts: Seq<Seq<char>>,
    matcher: MatcherView,
) -> Seq<Seq<char>>
    decreases texts.len(),
{
    if texts.len() == 0 {
        Seq::empty()
    } else {
        let before = matching_ids(units, texts.drop_last(), matcher);
        if matcher.hits(texts.last()) {
            before.push(units[texts.len() - 1].display_id)
        } else {
            before
        }
    }
}

/// How an error about a pattern begins.
pub open spec fn pattern_error_prefix() -> Seq<char> {
    "无效正则表达式: "@
}

/// What a search gives: no identifier at all for the empty query, whatever
/// the cache holds; else `Ok(None)` where the cache holds no session of
/// `key`, `Err` for a pattern that does not compile, and the identifiers of
/// the matching units of the session in every other case.
pub open spec fn search_outcome(
    cache: CacheView,
    key: Seq<char>,
    query: Seq<char>,
    case_sensitive: bool,
    use_regex: bool,
) -> Result<Option<Seq<Seq<char>>>, ()> {
    if query.len() == 0 {
        Ok(Some(Seq::empty()))
    } else if !holds(cache, key) {
        Ok(None)
    } else {
        let entry = cache[place_of(cache, key)].1;
        match matcher_for(query, case_sensitive, use_regex) {
            Some(matcher) => Ok(
                Some(
                    matching_ids(
                        entry.session.display_messages,
                        corpus(entry, case_sensitive, use_regex),
                        matcher,
                    ),
                ),
            ),
            None => Err(()),
        }
    }
}

/// A literal search that ignores case finds the same for two queries that
/// are one text in lower case, where both are empty or neither is. So a
/// query finds what its lower case finds, wherever the lower case of that
/// is itself and is empty only if the query is.
pub proof fn law_case_of_query_is_ignored(
    cache: CacheView,
    key: Seq<char>,
    query: Seq<char>,
    other: Seq<char>,
)
    ensures
        lowercase(query) == lowercase(other) && (query.len() == 0) == (other.len() == 0)
            ==> search_outcome(cache, key, query, false, false) == search_outcome(
            cache,
            key,
            other,
            false,
            false,
        ),
        lowercase(lowercase(query)) == lowercase(query) && (lowercase(query).len() == 0) == (
        query.len() == 0) ==> search_outcome(cache, key, query, false, false) == search_outcome(
            cache,
            key,
            lowercase(query),
            false,
            false,
        ),
{
}

/// The characters of each text of a list that may be missing.
pub open spec fn found_view(found: Option<Vec<String>>) -> Option<Seq<Seq<char>>> {
    match found {
        Some(ids) => Some(texts_view(ids@)),
        None => None,
    }
}

impl Matcher {
    /// The matcher of a query in one of the four modes, or the message about
    /// a pattern that does not compile.
    pub fn new(query: &str, case_sensitive: bool, use_regex: bool) -> (r: Result<Matcher, String>)
        ensures
            match r {
                Ok(matcher) => matcher_for(query@, case_sensitive, use_regex) == Some(matcher@),
                Err(message) => matcher_for(query@, case_sensitive, use_regex) is None
                    && pattern_error_prefix().is_prefix_of(message@),
            },
    {
        if use_regex {
            let compiled = if case_sensitive {
                compile(query)
            } else {
                let mut pattern = "(?i)".to_owned();
                pattern.append(query);
                compile(pattern.as_str())
            };
            match compiled {
                Ok(re) => Ok(Matcher::Pattern(re)),
                Err(e) => {
                    let mut message = "无效正则表达式: ".to_owned();
                    message.append(error_text(&e).as_str());
                    Err(message)
                },
            }
        } else if case_sensitive {
            Ok(Matcher::Literal(query.to_owned()))
        } else {
            Ok(Matcher::Literal(to_lowercase(query)))
        }
    }

    /// Whether `text` matches.
    pub fn is_hit(&self, text: &String) -> (r: bool)
        ensures
            r == self@.hits(text@),
    {
        match self {
            Matcher::Pattern(re) => is_match(re, text.as_str()),
            Matcher::Literal(needle) => find_bytes(
                text.as_str().as_bytes(),
                needle.as_str().as_bytes(),
            ).is_some(),
        }
    }
}

/// rayon's `par_iter`, `map` and `collect` into a `Vec`: `Matcher::is_hit`
/// applied to each text on the worker pool, the answers in the order of the
/// texts.
#[verifier::external_body]
fn map_hits(matcher: &Matcher, texts: &Vec<String>) -> (r: Vec<bool>)
    ensures
        r@.len() == texts@.len(),
        forall|i: int| 0 <= i < r@.len() ==> r@[i] == matcher@.hits(#[trigger] texts@[i]@),
{
    texts.par_iter().map(|text| matcher.is_hit(text)).collect()
}

/// The identifiers of the units whose texts match, in the order of the units.
/// From `PARALLEL_THRESHOLD` texts on they are matched on the worker pool;
/// what comes out is the same.
pub fn search_texts(units: &Vec<DisplayMessage>, texts: &Vec<String>, matcher: &Matcher) -> (r: Vec<
    String,
>)
    requires
        texts@.len() <= units@.len(),
    ensures
        texts_view(r@) == matching_ids(messages_view(units@), texts_view(texts@), matcher@),
{
    let ghost ids = messages_view(units@);
    let ghost corpus = texts_view(texts@);
    let n = texts.len();
    let mut found: Vec<String> = Vec::new();
    proof {
        assert(texts_view(found@) =~= Seq::empty());
    }
    if n < PARALLEL_THRESHOLD {
        let mut i: usize = 0;
        while i < n
            invariant
                i <= n,
                n == texts@.len(),
                n <= units@.len(),
                ids == messages_view(units@),
                corpus == texts_view(texts@),
                texts_view(found@) == matching_ids(ids, corpus.take(i as int), matcher@),
            decreases n - i,
        {
            proof {
                let next = corpus.take(i as int + 1);
                assert(next.drop_last() =~= corpus.take(i as int));
                assert(next.last() == corpus[i as int]);
            }
            if matcher.is_hit(&texts[i]) {
                let id = units[i].display_id.clone();
                proof {
                    assert(texts_view(found@.push(id)) =~= texts_view(found@).push(id@));
                }
                found.push(id);
            }
            i = i + 1;
        }
        proof {
            assert(corpus.take(i as int) =~= corpus);
        }
    } else {
        let hits = map_hits(matcher, texts);
        let mut i: usize = 0;
        while i < n
            invariant
                i <= n,
                n == texts@.len(),
                n <= units@.len(),
                hits@.len() == n,
                forall|k: int| 0 <= k < n ==> hits@[k] == matcher@.hits(#[trigger] texts@[k]@),
                ids == messages_view(units@),
                corpus == texts_view(texts@),
                texts_view(found@) == matching_ids(ids, corpus.take(i as int), matcher@),
            decreases n - i,
        {
            proof {
                let next = corpus.take(i as int + 1);
                assert(next.drop_last() =~= corpus.take(i as int));
                assert(next.last() == corpus[i as int]);
                assert(corpus[i as int] == texts@[i as int]@);
            }
            if hits[i] {
                let id = units[i].display_id.clone();
                proof {
                    assert(texts_view(found@.push(id)) =~= texts_view(found@).push(id@));
                }
                found.push(id);
            }
            i = i + 1;
        }
        proof {
            assert(corpus.take(i as int) =~= corpus);
        }
    }
    found
}

impl SessionCacheEntry {
    /// The identifiers of the units of this session that match, in the order
    /// of the units. The mode decides which texts the matcher is held
    /// against.
    pub fn search(&self, matcher: &Matcher, case_sensitive: bool, use_regex: bool) -> (r: Vec<
        String,
    >)
        ensures
            texts_view(r@) == matching_ids(
                self@.session.display_messages,
                corpus(self@, case_sensitive, use_regex),
                matcher@,
            ),
    {
        let units = self.units();
        if use_regex || case_sensitive {
            search_texts(units, self.original_texts(), matcher)
        } else {
            search_texts(units, self.lowercase_texts(), matcher)
        }
    }
}

impl SessionCache {
    /// Searches the session of the file `key` as the cache holds it. Reads
    /// no file and changes nothing.
    pub fn search(&self, key: &str, query: &str, case_sensitive: bool, use_regex: bool) -> (r:
        Result<Option<Vec<String>>, String>)
        ensures
            match r {
                Ok(found) => search_outcome(self@, key@, query@, case_sensitive, use_regex) == Ok::<
                    Option<Seq<Seq<char>>>,
                    (),
                >(found_view(found)),
                Err(message) => search_outcome(self@, key@, query@, case_sensitive, use_regex)
                    is Err && pattern_error_prefix().is_prefix_of(message@),
            },
    {
        if query.is_empty() {
            let none: Vec<String> = Vec::new();
            proof {
                assert(texts_view(none@) =~= Seq::empty());
            }
            return Ok(Some(none));
        }
        let entry = match self.entry(key) {
            Some(entry) => entry,
            None => {
                return Ok(None);
            },
        };
        match Matcher::new(query, case_sensitive, use_regex) {
            Ok(matcher) => Ok(Some(entry.search(&matcher, case_sensitive, use_regex))),
            Err(message) => Err(message),
        }
    }
}

impl AppCache {
    /// Searches the session of the file `file_path` as the cache holds it.
    /// Reads no file and changes nothing.
    pub fn search_in_cache(
        &self,
        file_path: &str,
        query: &str,
        case_sensitive: bool,
        use_regex: bool,
    ) -> (r: Result<Option<Vec<String>>, String>)
        ensures
            match r {
                Ok(found) => search_outcome(
                    self.sessions@,
                    file_path@,
                    query@,
                    case_sensitive,
                    use_regex,
                ) == Ok::<Option<Seq<Seq<char>>>, ()>(found_view(found)),
                Err(message) => search_outcome(
                    self.sessions@,
                    file_path@,
                    query@,
                    case_sensitive,
                    use_regex,
                ) is Err && pattern_error_prefix().is_prefix_of(message@),
            },
    {
        self.sessions.search(file_path, query, case_sensitive, use_regex)
    }
}

} // verus!
