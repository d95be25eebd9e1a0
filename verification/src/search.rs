//! The search engine: a case-insensitive multi-pattern matcher over the
//! catalogue, evaluated per record over the enabled fields in fixed
//! priority order, one result per record at most.
//!
//! The multi-pattern automaton itself comes from the `aho_corasick` crate
//! and stands behind a small trusted boundary; everything around it — the
//! field priority, the short-circuit, the per-record result — is verified.

use vstd::prelude::*;
use crate::crawler::ComicInfo;
use crate::text::ci_substring;

verus! {

/// The compiled multi-pattern automaton of the `aho_corasick` crate,
/// declared so that values of it can be held and passed around; what it
/// holds is spoken of only through `matcher_patterns` and
/// `matcher_folds_ascii_case`.
#[verifier::external_type_specification]
#[verifier::external_body]
pub struct ExAhoCorasick(aho_corasick::AhoCorasick);

/// The error `aho_corasick` reports when an automaton cannot be built.
#[verifier::external_type_specification]
#[verifier::external_body]
pub struct ExBuildError(aho_corasick::BuildError);

/// The patterns an automaton was compiled from, as texts, in order.
pub uninterp spec fn matcher_patterns(m: aho_corasick::AhoCorasick) -> Seq<Seq<char>>;

/// Whether an automaton was compiled to match without respect to ASCII
/// letter case.
pub uninterp spec fn matcher_folds_ascii_case(m: aho_corasick::AhoCorasick) -> bool;

/// Whether compiling these patterns into an automaton succeeds: the
/// builder's outcome depends on the patterns alone (it fails only when
/// the compiled automaton would exceed its internal limits).
pub uninterp spec fn matcher_build_ok(pats: Seq<Seq<char>>) -> bool;

/// Relies on `aho_corasick::AhoCorasickBuilder::build`, with
/// `ascii_case_insensitive(true)`: its outcome is a function of the
/// patterns alone, and on success the automaton holds exactly the given
/// patterns and folds ASCII letter case when it searches.
#[verifier::external_body]
fn build_matcher(patterns: &Vec<String>) -> (r: Result<
    aho_corasick::AhoCorasick,
    aho_corasick::BuildError,
>)
    ensures
        match r {
            Ok(m) => matcher_build_ok(patterns.deep_view()) && matcher_patterns(m)
                == patterns.deep_view() && matcher_folds_ascii_case(m),
            Err(_) => !matcher_build_ok(patterns.deep_view()),
        },
{
    let mut builder = aho_corasick::AhoCorasickBuilder::new();
    builder.ascii_case_insensitive(true);
    builder.build(patterns)
}

/// Some pattern of the automaton occurs in the text as a substring, ASCII
/// letter case folded away.
pub open spec fn matcher_matches(m: aho_corasick::AhoCorasick, text: Seq<char>) -> bool {
    exists|k: int|
        0 <= k < matcher_patterns(m).len() && ci_substring(#[trigger] matcher_patterns(m)[k], text)
}

/// Relies on `aho_corasick::AhoCorasick::is_match`: true if and only if
/// some pattern of the automaton occurs in the haystack as a substring,
/// here with ASCII letter case folded away, since every automaton this
/// crate builds folds it.
#[verifier::external_body]
fn matcher_is_match(m: &aho_corasick::AhoCorasick, text: &str) -> (r: bool)
    requires
        matcher_folds_ascii_case(*m),
    ensures
        r == matcher_matches(*m, text@),
{
    m.is_match(text)
}

/// A searchable field of a record.
#[derive(Debug, Copy, Clone, Eq, PartialEq, Hash, Structural)]
pub enum Location {
    Title,
    Transcript,
    AltText,
}

/// The value a record carries in a field; the transcript and the alt text
/// may be absent.
pub open spec fn spec_field(c: ComicInfo, l: Location) -> Option<Seq<char>> {
    match l {
        Location::Title => Some(c.title@),
        Location::Transcript => match c.transcript {
            Some(t) => Some(t@),
            None => None,
        },
        Location::AltText => match c.alt_text {
            Some(t) => Some(t@),
            None => None,
        },
    }
}

impl Location {
    /// Read this field of a record.
    pub fn get<'a>(self, comic: &'a ComicInfo) -> (r: Option<&'a str>)
        ensures
            match r {
                Some(s) => spec_field(*comic, self) == Some(s@),
                None => spec_field(*comic, self) is None,
            },
    {
        match self {
            Location::Title => Some(comic.title.as_str()),
            Location::Transcript => match &comic.transcript {
                Some(t) => Some(t.as_str()),
                None => None,
            },
            Location::AltText => match &comic.alt_text {
                Some(t) => Some(t.as_str()),
                None => None,
            },
        }
    }
}

/// The set of fields a search is allowed to look at.
#[derive(Debug, Copy, Clone, Eq, PartialEq, Structural)]
pub struct LocationFlags {
    pub title: bool,
    pub transcript: bool,
    pub alt_text: bool,
}

impl LocationFlags {
    pub open spec fn spec_contains(self, loc: Location) -> bool {
        match loc {
            Location::Title => self.title,
            Location::Transcript => self.transcript,
            Location::AltText => self.alt_text,
        }
    }

    pub open spec fn spec_insert(self, loc: Location) -> LocationFlags {
        match loc {
            Location::Title => LocationFlags { title: true, ..self },
            Location::Transcript => LocationFlags { transcript: true, ..self },
            Location::AltText => LocationFlags { alt_text: true, ..self },
        }
    }

    /// Every field enabled.
    pub fn all() -> (r: Self)
        ensures
            r == (LocationFlags { title: true, transcript: true, alt_text: true }),
    {
        LocationFlags { title: true, transcript: true, alt_text: true }
    }

    /// No field enabled.
    pub fn empty() -> (r: Self)
        ensures
            r == (LocationFlags { title: false, transcript: false, alt_text: false }),
    {
        LocationFlags { title: false, transcript: false, alt_text: false }
    }

    /// Whether a field is enabled.
    pub fn contains(&self, loc: Location) -> (r: bool)
        ensures
            r == self.spec_contains(loc),
    {
        match loc {
            Location::Title => self.title,
            Location::Transcript => self.transcript,
            Location::AltText => self.alt_text,
        }
    }
}

impl From<Location> for LocationFlags {
    fn from(loc: Location) -> (r: LocationFlags) {
        match loc {
            Location::Title => LocationFlags { title: true, transcript: false, alt_text: false },
            Location::Transcript => LocationFlags {
                title: false,
                transcript: true,
                alt_text: false,
            },
            Location::AltText => LocationFlags { title: false, transcript: false, alt_text: true },
        }
    }
}

impl vstd::std_specs::convert::FromSpecImpl<Location> for LocationFlags {
    open spec fn obeys_from_spec() -> bool {
        true
    }

    open spec fn from_spec(loc: Location) -> LocationFlags {
        LocationFlags { title: false, transcript: false, alt_text: false }.spec_insert(loc)
    }
}

/// One match: the record, and the first field, in the fixed priority
/// order title, transcript, alt text, in which a pattern occurred.
pub struct SearchResult {
    pub comic: ComicInfo,
    pub location: Location,
}

/// A compiled query: the case-insensitive multi-pattern automaton and the
/// set of enabled fields. Built once, then read-only across evaluations.
pub struct Search {
    aho_corasick: aho_corasick::AhoCorasick,
    location: LocationFlags,
}

/// Why a query could not be compiled.
#[derive(Debug, Copy, Clone, Eq, PartialEq, Structural)]
pub enum SearchError {
    /// The pattern set was empty. An empty query is a usage error,
    /// rejected at construction rather than silently matching everything
    /// or nothing.
    NoPatterns,
    /// The pattern automaton could not be built.
    BuildFailed,
}

impl Search {
    pub closed spec fn wf(&self) -> bool {
        matcher_folds_ascii_case(self.aho_corasick)
    }

    pub closed spec fn spec_patterns(&self) -> Seq<Seq<char>> {
        matcher_patterns(self.aho_corasick)
    }

    pub closed spec fn spec_location(&self) -> LocationFlags {
        self.location
    }

    /// Compile a query over every field from the given patterns; a query
    /// with no pattern is rejected, and any other pattern set yields a
    /// search exactly when the automaton builder accepts it.
    pub fn new(queries: Vec<String>) -> (r: Result<Search, SearchError>)
        ensures
            r is Ok <==> queries@.len() > 0 && matcher_build_ok(queries.deep_view()),
            match r {
                Ok(s) => s.wf() && s.spec_patterns() == queries.deep_view() && s.spec_location()
                    == (LocationFlags { title: true, transcript: true, alt_text: true }),
                Err(e) => (e == SearchError::NoPatterns && queries@.len() == 0) || (e
                    == SearchError::BuildFailed && queries@.len() > 0 && !matcher_build_ok(
                    queries.deep_view(),
                )),
            },
    {
        if queries.len() == 0 {
            return Err(SearchError::NoPatterns);
        }
        match build_matcher(&queries) {
            Ok(m) => Ok(Search { aho_corasick: m, location: LocationFlags::all() }),
            Err(_) => Err(SearchError::BuildFailed),
        }
    }

    /// An empty builder: no patterns, no fields enabled yet.
    pub fn builder() -> (r: SearchBuilder)
        ensures
            r.spec_queries() == Seq::<Seq<char>>::empty(),
            r.spec_location() == (LocationFlags { title: false, transcript: false, alt_text: false }),
    {
        let r = SearchBuilder { queries: Vec::new(), location: LocationFlags::empty() };
        proof {
            assert(r.spec_queries() =~= Seq::<Seq<char>>::empty());
        }
        r
    }
}

/// Collects patterns and enabled fields before compiling a `Search`.
pub struct SearchBuilder {
    queries: Vec<String>,
    location: LocationFlags,
}

impl SearchBuilder {
    pub closed spec fn spec_queries(&self) -> Seq<Seq<char>> {
        self.queries.deep_view()
    }

    pub closed spec fn spec_location(&self) -> LocationFlags {
        self.location
    }

    /// Add every given pattern, in order.
    pub fn add_queries(&mut self, queries: Vec<String>)
        ensures
            final(self).spec_queries() == old(self).spec_queries() + queries.deep_view(),
            final(self).spec_location() == old(self).spec_location(),
    {
        let mut queries = queries;
        let ghost added = queries.deep_view();
        self.queries.append(&mut queries);
        proof {
            assert(self.spec_queries() =~= old(self).spec_queries() + added);
        }
    }

    /// Add one pattern.
    pub fn add_query(&mut self, q: String)
        ensures
            final(self).spec_queries() == old(self).spec_queries().push(q@),
            final(self).spec_location() == old(self).spec_location(),
    {
        self.queries.push(q);
        proof {
            assert(final(self).spec_queries() =~= old(self).spec_queries().push(q@));
        }
    }

    /// Enable one field.
    pub fn add_location(&mut self, loc: Location)
        ensures
            final(self).spec_queries() == old(self).spec_queries(),
            final(self).spec_location() == old(self).spec_location().spec_insert(loc),
    {
        match loc {
            Location::Title => {
                self.location.title = true;
            },
            Location::Transcript => {
                self.location.transcript = true;
            },
            Location::AltText => {
                self.location.alt_text = true;
            },
        }
    }

    /// Compile the collected patterns over the enabled fields; a builder
    /// with no pattern is rejected, and any other pattern set yields a
    /// search exactly when the automaton builder accepts it. A builder on
    /// which no field was ever enabled searches every field, the default
    /// selection.
    pub fn build(self) -> (r: Result<Search, SearchError>)
        ensures
            r is Ok <==> self.spec_queries().len() > 0 && matcher_build_ok(self.spec_queries()),
            match r {
                Ok(s) => s.wf() && s.spec_patterns() == self.spec_queries() && s.spec_location()
                    == effective_location(self.spec_location()),
                Err(e) => (e == SearchError::NoPatterns && self.spec_queries().len() == 0) || (e
                    == SearchError::BuildFailed && self.spec_queries().len() > 0
                    && !matcher_build_ok(self.spec_queries())),
            },
    {
        if self.queries.len() == 0 {
            return Err(SearchError::NoPatterns);
        }
        let location = if !self.location.title && !self.location.transcript
            && !self.location.alt_text {
            LocationFlags::all()
        } else {
            self.location
        };
        match build_matcher(&self.queries) {
            Ok(m) => Ok(Search { aho_corasick: m, location }),
            Err(_) => Err(SearchError::BuildFailed),
        }
    }
}

/// The field selection a built search uses: the fields the builder
/// enabled, or all three when none was selected — the default.
pub open spec fn effective_location(flags: LocationFlags) -> LocationFlags {
    if flags == (LocationFlags { title: false, transcript: false, alt_text: false }) {
        LocationFlags { title: true, transcript: true, alt_text: true }
    } else {
        flags
    }
}

/// Some pattern occurs in the text, ASCII letter case folded away.
pub open spec fn any_pattern_matches(pats: Seq<Seq<char>>, text: Seq<char>) -> bool {
    exists|k: int| 0 <= k < pats.len() && ci_substring(#[trigger] pats[k], text)
}

/// The field is present and some pattern occurs in it.
pub open spec fn field_matches(pats: Seq<Seq<char>>, c: ComicInfo, l: Location) -> bool {
    match spec_field(c, l) {
        Some(t) => any_pattern_matches(pats, t),
        None => false,
    }
}

/// The field is enabled, present, and some pattern occurs in it.
pub open spec fn location_hit(
    pats: Seq<Seq<char>>,
    flags: LocationFlags,
    c: ComicInfo,
    l: Location,
) -> bool {
    flags.spec_contains(l) && field_matches(pats, c, l)
}

/// The first field, in priority order, in which the query matches a
/// record, or `None` when no enabled field matches.
pub open spec fn match_location(pats: Seq<Seq<char>>, flags: LocationFlags, c: ComicInfo) -> Option<
    Location,
> {
    if location_hit(pats, flags, c, Location::Title) {
        Some(Location::Title)
    } else if location_hit(pats, flags, c, Location::Transcript) {
        Some(Location::Transcript)
    } else if location_hit(pats, flags, c, Location::AltText) {
        Some(Location::AltText)
    } else {
        None
    }
}

/// The results of one search pass, in record order: one result for every
/// record with a matching enabled field, none for the rest.
pub open spec fn search_spec(
    pats: Seq<Seq<char>>,
    flags: LocationFlags,
    records: Seq<ComicInfo>,
) -> Seq<SearchResult>
    decreases records.len(),
{
    if records.len() == 0 {
        Seq::empty()
    } else {
        let prefix = search_spec(pats, flags, records.drop_last());
        match match_location(pats, flags, records.last()) {
            Some(l) => prefix.push(SearchResult { comic: records.last(), location: l }),
            None => prefix,
        }
    }
}

/// Whether any pattern occurs in one field of a record.
fn search_in_location(comic: &ComicInfo, location: Location, aho: &aho_corasick::AhoCorasick) -> (r:
    bool)
    requires
        matcher_folds_ascii_case(*aho),
    ensures
        r == field_matches(matcher_patterns(*aho), *comic, location),
{
    match location.get(comic) {
        Some(field) => matcher_is_match(aho, field),
        None => false,
    }
}

/// The first enabled field of a record that a pattern occurs in.
fn match_comic(search: &Search, comic: &ComicInfo) -> (r: Option<Location>)
    requires
        search.wf(),
    ensures
        r == match_location(search.spec_patterns(), search.spec_location(), *comic),
{
    if search.location.contains(Location::Title) && search_in_location(
        comic,
        Location::Title,
        &search.aho_corasick,
    ) {
        return Some(Location::Title);
    }
    if search.location.contains(Location::Transcript) && search_in_location(
        comic,
        Location::Transcript,
        &search.aho_corasick,
    ) {
        return Some(Location::Transcript);
    }
    if search.location.contains(Location::AltText) && search_in_location(
        comic,
        Location::AltText,
        &search.aho_corasick,
    ) {
        return Some(Location::AltText);
    }
    None
}

/// Evaluate a compiled query over the whole record collection. Each
/// record is judged independently: the first enabled field that matches
/// yields that record's one result, and a record with no matching enabled
/// field yields none.
pub fn search(query: &Search, comics: &Vec<ComicInfo>) -> (results: Vec<SearchResult>)
    requires
        query.wf(),
    ensures
        results@ == search_spec(query.spec_patterns(), query.spec_location(), comics@),
{
    let mut results: Vec<SearchResult> = Vec::new();
    let mut i: usize = 0;
    proof {
        assert(comics@.take(0) =~= Seq::<ComicInfo>::empty());
    }
    while i < comics.len()
        invariant
            query.wf(),
            i <= comics@.len(),
            results@ == search_spec(
                query.spec_patterns(),
                query.spec_location(),
                comics@.take(i as int),
            ),
        decreases comics@.len() - i,
    {
        proof {
            assert(comics@.take(i + 1).drop_last() =~= comics@.take(i as int));
            assert(comics@.take(i + 1).last() == comics@[i as int]);
        }
        match match_comic(query, &comics[i]) {
            Some(l) => {
                results.push(SearchResult { comic: comics[i].duplicate(), location: l });
            },
            None => {},
        }
        i = i + 1;
    }
    proof {
        assert(comics@.take(comics@.len() as int) =~= comics@);
    }
    results
}

/// The reportable pairs of one search pass: each result's catalogue
/// number with its matched field.
pub open spec fn result_pairs(results: Seq<SearchResult>) -> Seq<(u32, Location)> {
    results.map_values(|r: SearchResult| (r.comic.index, r.location))
}

/// Searching twice with the same query over the same record collection
/// reports the same (catalogue number, matched field) pairs: the outcome
/// depends on nothing but the query and the records.
pub proof fn lemma_search_idempotent(
    pats: Seq<Seq<char>>,
    flags: LocationFlags,
    records: Seq<ComicInfo>,
    r1: Seq<SearchResult>,
    r2: Seq<SearchResult>,
)
    requires
        r1 == search_spec(pats, flags, records),
        r2 == search_spec(pats, flags, records),
    ensures
        result_pairs(r1) == result_pairs(r2),
{
}

/// A result of position `k` points back at record `i` of the collection:
/// the record is the result's, and its matched field is the first enabled
/// field the query hits for that record.
pub open spec fn result_from_record(
    pats: Seq<Seq<char>>,
    flags: LocationFlags,
    records: Seq<ComicInfo>,
    k: int,
    i: int,
) -> bool {
    &&& 0 <= i < records.len()
    &&& search_spec(pats, flags, records)[k].comic == records[i]
    &&& Some(search_spec(pats, flags, records)[k].location) == match_location(
        pats,
        flags,
        records[i],
    )
}

/// Some record of the collection is what the result at position `k`
/// reports.
pub open spec fn result_has_source(
    pats: Seq<Seq<char>>,
    flags: LocationFlags,
    records: Seq<ComicInfo>,
    k: int,
) -> bool {
    exists|i: int| #[trigger] result_from_record(pats, flags, records, k, i)
}

/// Every result of a search pass reports one of the records, with the
/// first enabled field the query matched in it: no result is fabricated.
pub proof fn lemma_search_results_sound(
    pats: Seq<Seq<char>>,
    flags: LocationFlags,
    records: Seq<ComicInfo>,
)
    ensures
        forall|k: int|
            0 <= k < search_spec(pats, flags, records).len() ==> #[trigger] result_has_source(
                pats,
                flags,
                records,
                k,
            ),
    decreases records.len(),
{
    let res = search_spec(pats, flags, records);
    if records.len() == 0 {
        assert(res.len() == 0);
    } else {
        let rest = records.drop_last();
        let prefix = search_spec(pats, flags, rest);
        lemma_search_results_sound(pats, flags, rest);
        assert forall|k: int| 0 <= k < search_spec(pats, flags, records).len() implies #[trigger] result_has_source(
            pats,
            flags,
            records,
            k,
        ) by {
            if k < prefix.len() {
                assert(result_has_source(pats, flags, rest, k));
                let i = choose|i: int| #[trigger] result_from_record(pats, flags, rest, k, i);
                assert(result_from_record(pats, flags, rest, k, i));
                assert(rest[i] == records[i]);
                assert(res[k] == prefix[k]);
                assert(result_from_record(pats, flags, records, k, i));
            } else {
                assert(match_location(pats, flags, records.last()) is Some);
                assert(res == prefix.push(
                    SearchResult {
                        comic: records.last(),
                        location: match_location(pats, flags, records.last())->0,
                    },
                ));
                assert(res[k] == res.last());
                assert(result_from_record(pats, flags, records, k, records.len() - 1));
            }
        }
    }
}

/// Deduplication is structural: over records with pairwise distinct
/// catalogue numbers, no two results of one search pass report the same
/// number — each record contributes at most one result.
pub proof fn lemma_search_results_dedup(
    pats: Seq<Seq<char>>,
    flags: LocationFlags,
    records: Seq<ComicInfo>,
)
    requires
        crate::crawler::distinct_indices(records),
    ensures
        forall|k1: int, k2: int|
            0 <= k1 < k2 < search_spec(pats, flags, records).len() ==> #[trigger] search_spec(
                pats,
                flags,
                records,
            )[k1].comic.index != #[trigger] search_spec(pats, flags, records)[k2].comic.index,
    decreases records.len(),
{
    let res = search_spec(pats, flags, records);
    if records.len() > 0 {
        let rest = records.drop_last();
        let prefix = search_spec(pats, flags, rest);
        assert(crate::crawler::distinct_indices(rest)) by {
            assert forall|i: int, j: int| 0 <= i < j < rest.len() implies #[trigger] rest[i].index
                != #[trigger] rest[j].index by {
                assert(rest[i] == records[i] && rest[j] == records[j]);
            }
        }
        lemma_search_results_dedup(pats, flags, rest);
        lemma_search_results_sound(pats, flags, rest);
        assert forall|k1: int, k2: int| 0 <= k1 < k2 < res.len() implies #[trigger] res[k1].comic.index
            != #[trigger] res[k2].comic.index by {
            if k2 < prefix.len() {
                assert(res[k1] == prefix[k1] && res[k2] == prefix[k2]);
            } else if k2 == prefix.len() && res.len() > prefix.len() {
                assert(result_has_source(pats, flags, rest, k1));
                let i = choose|i: int| #[trigger] result_from_record(pats, flags, rest, k1, i);
                assert(result_from_record(pats, flags, rest, k1, i));
                assert(res[k1] == prefix[k1]);
                assert(res[k1].comic == rest[i]);
                assert(rest[i] == records[i]);
                assert(res[k2].comic == records.last());
                assert(records[i].index != records[records.len() - 1].index);
            }
        }
    }
}

} // verus!
