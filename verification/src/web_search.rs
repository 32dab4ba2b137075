//! The web search tool's commands: merging legacy query aliases, the
//! action a call reports, and the search settings a tool spec asks for.
use vstd::prelude::*;
use crate::claude_history::{copy_opt, copy_strings, opt_view, strings_view, trim, trim_chars};
use crate::claude_provider::{parse_url_host_and_path, url_host_and_path};
use crate::errors::FunctionCallError;
use crate::file_tools::ToolPayload;
use crate::claude_content::ContentItem;
use crate::text::{push_str_chars, str_eq, string_from_chars};

verus! {

/// One search query.
#[derive(Debug)]
pub struct SearchQuery {
    pub q: String,
    pub recency: Option<u64>,
    pub domains: Option<Vec<String>>,
}

pub open spec fn opt_strings_view(o: Option<Vec<String>>) -> Option<Seq<Seq<char>>> {
    match o {
        Some(v) => Some(strings_view(v@)),
        None => None,
    }
}

impl SearchQuery {
    pub open spec fn view3(self) -> (Seq<char>, Option<u64>, Option<Seq<Seq<char>>>) {
        (self.q@, self.recency, opt_strings_view(self.domains))
    }
}

pub open spec fn queries_view(qs: Seq<SearchQuery>) -> Seq<(Seq<char>, Option<u64>, Option<Seq<Seq<char>>>)> {
    qs.map_values(|q: SearchQuery| q.view3())
}

pub open spec fn opt_queries_view(o: Option<Vec<SearchQuery>>) -> Option<
    Seq<(Seq<char>, Option<u64>, Option<Seq<Seq<char>>>)>,
> {
    match o {
        Some(v) => Some(queries_view(v@)),
        None => None,
    }
}

/// The query texts of `qs`.
pub open spec fn query_texts(qs: Seq<(Seq<char>, Option<u64>, Option<Seq<Seq<char>>>)>) -> Seq<Seq<char>> {
    qs.map_values(|q: (Seq<char>, Option<u64>, Option<Seq<Seq<char>>>)| q.0)
}

/// Opening a page by reference.
#[derive(Debug)]
pub struct OpenOperation {
    pub ref_id: String,
    pub lineno: Option<u64>,
}

/// Finding a pattern in a page by reference.
#[derive(Debug)]
pub struct FindOperation {
    pub ref_id: String,
    pub pattern: String,
}

/// The commands of one web search call.
#[derive(Debug)]
pub struct SearchCommands {
    pub search_query: Option<Vec<SearchQuery>>,
    pub image_query: Option<Vec<SearchQuery>>,
    pub open: Option<Vec<OpenOperation>>,
    pub find: Option<Vec<FindOperation>>,
}

/// The legacy query aliases of a web search call.
#[derive(Debug)]
pub struct WebSearchArgs {
    pub query: Option<String>,
    pub queries: Option<Vec<String>>,
}

/// What a web search call did, as reported to clients.
#[derive(Debug)]
pub enum WebSearchAction {
    Search { query: Option<String>, queries: Option<Vec<String>> },
    OpenPage { url: Option<String> },
    FindInPage { url: Option<String>, pattern: Option<String> },
    Other,
}

/// A plain view of an action.
pub enum ActionView {
    Search { query: Option<Seq<char>>, queries: Option<Seq<Seq<char>>> },
    OpenPage { url: Option<Seq<char>> },
    FindInPage { url: Option<Seq<char>>, pattern: Option<Seq<char>> },
    Other,
}

impl WebSearchAction {
    pub open spec fn view_action(self) -> ActionView {
        match self {
            WebSearchAction::Search { query, queries } => ActionView::Search {
                query: opt_view(query),
                queries: opt_strings_view(queries),
            },
            WebSearchAction::OpenPage { url } => ActionView::OpenPage { url: opt_view(url) },
            WebSearchAction::FindInPage { url, pattern } => ActionView::FindInPage {
                url: opt_view(url),
                pattern: opt_view(pattern),
            },
            WebSearchAction::Other => ActionView::Other,
        }
    }
}

/// `qs` with the trimmed `query` appended, unless it is blank or already
/// among the query texts.
pub open spec fn pushed_query(
    qs: Seq<(Seq<char>, Option<u64>, Option<Seq<Seq<char>>>)>,
    query: Seq<char>,
) -> Seq<(Seq<char>, Option<u64>, Option<Seq<Seq<char>>>)> {
    let t = trim(query);
    if t.len() > 0 && !query_texts(qs).contains(t) {
        qs.push((t, None, None))
    } else {
        qs
    }
}

/// Appends the trimmed `query` unless it is blank or already queued.
pub fn push_search_query(queries: &mut Vec<SearchQuery>, query: String)
    ensures
        queries_view(final(queries)@) == pushed_query(queries_view(old(queries)@), query@),
{
    let t = trim_chars(query.as_str());
    let text = string_from_chars(t.as_slice());
    if t.len() == 0 {
        return;
    }
    let ghost qv = queries_view(queries@);
    let mut i: usize = 0;
    while i < queries.len()
        invariant
            i <= queries@.len(),
            qv == queries_view(queries@),
            text@ == trim(query@),
            forall|j: int| 0 <= j < i ==> (#[trigger] queries@[j]).q@ != text@,
        decreases queries.len() - i,
    {
        if str_eq(queries[i].q.as_str(), text.as_str()) {
            proof {
                assert(query_texts(qv)[i as int] == text@);
            }
            return;
        }
        i += 1;
    }
    proof {
        assert(!query_texts(qv).contains(text@)) by {
            if query_texts(qv).contains(text@) {
                let j = choose|j: int| 0 <= j < query_texts(qv).len() && query_texts(qv)[j] == text@;
                assert(queries@[j].q@ == text@);
            }
        }
    }
    let ghost prev = queries@;
    let q = SearchQuery { q: text, recency: None, domains: None };
    queries.push(q);
    proof {
        assert(queries_view(prev.push(q)) =~= queries_view(prev).push(q.view3()));
    }
}

/// The alias queries in order: `query`, then each of `queries`, each kept
/// once, trimmed and not blank.
pub open spec fn alias_queries_from(
    qs: Seq<(Seq<char>, Option<u64>, Option<Seq<Seq<char>>>)>,
    batch: Seq<Seq<char>>,
) -> Seq<(Seq<char>, Option<u64>, Option<Seq<Seq<char>>>)>
    decreases batch.len(),
{
    if batch.len() == 0 {
        qs
    } else {
        pushed_query(alias_queries_from(qs, batch.drop_last()), batch.last())
    }
}

pub open spec fn alias_queries(query: Option<Seq<char>>, queries: Option<Seq<Seq<char>>>) -> Seq<
    (Seq<char>, Option<u64>, Option<Seq<Seq<char>>>),
> {
    let first = match query {
        Some(q) => pushed_query(Seq::empty(), q),
        None => Seq::empty(),
    };
    match queries {
        Some(b) => alias_queries_from(first, b),
        None => first,
    }
}

/// The search queries given by the legacy `query` and `queries` fields.
pub fn legacy_query_aliases(args: &WebSearchArgs) -> (r: Vec<SearchQuery>)
    ensures
        queries_view(r@) == alias_queries(opt_view(args.query), opt_strings_view(args.queries)),
{
    let mut out: Vec<SearchQuery> = Vec::new();
    match &args.query {
        Some(q) => push_search_query(&mut out, q.clone()),
        None => {},
    }
    assert(queries_view(Seq::<SearchQuery>::empty()) =~= Seq::empty());
    match &args.queries {
        Some(batch) => {
            let ghost first = queries_view(out@);
            let ghost bv = strings_view(batch@);
            let mut i: usize = 0;
            while i < batch.len()
                invariant
                    i <= batch@.len(),
                    bv == strings_view(batch@),
                    queries_view(out@) == alias_queries_from(first, bv.take(i as int)),
                decreases batch.len() - i,
            {
                push_search_query(&mut out, batch[i].clone());
                proof {
                    assert(bv.take(i + 1).drop_last() == bv.take(i as int));
                    assert(bv.take(i + 1).last() == batch@[i as int]@);
                }
                i += 1;
            }
            assert(bv.take(batch.len() as int) == bv);
        },
        None => {},
    }
    out
}

/// The search queries with the alias queries in front, when there are any.
pub open spec fn merged_search_queries(
    existing: Option<Seq<(Seq<char>, Option<u64>, Option<Seq<Seq<char>>>)>>,
    aliases: Seq<(Seq<char>, Option<u64>, Option<Seq<Seq<char>>>)>,
) -> Option<Seq<(Seq<char>, Option<u64>, Option<Seq<Seq<char>>>)>> {
    if aliases.len() == 0 {
        existing
    } else {
        match existing {
            Some(e) => Some(aliases + e),
            None => Some(aliases),
        }
    }
}

/// Puts the alias queries in front of the search queries.
pub fn merge_alias_queries(commands: &mut SearchCommands, aliases: Vec<SearchQuery>)
    ensures
        opt_queries_view(final(commands).search_query) == merged_search_queries(
            opt_queries_view(old(commands).search_query),
            queries_view(aliases@),
        ),
        final(commands).image_query == old(commands).image_query,
        final(commands).open == old(commands).open,
        final(commands).find == old(commands).find,
{
    if aliases.len() == 0 {
        return;
    }
    let mut existing: Option<Vec<SearchQuery>> = None;
    std::mem::swap(&mut existing, &mut commands.search_query);
    let mut merged = aliases;
    let ghost av = queries_view(merged@);
    match existing {
        Some(e) => {
            let ghost ev = queries_view(e@);
            let n = e.len();
            assert(ev.len() == n);
            let mut rest = e;
            let mut tail: Vec<SearchQuery> = Vec::new();
            while rest.len() > 0
                invariant
                    rest@.len() + tail@.len() == ev.len(),
                    forall|j: int| 0 <= j < rest@.len() ==> (#[trigger] rest@[j]).view3() == ev[j],
                    forall|j: int| 0 <= j < tail@.len() ==> (#[trigger] tail@[j]).view3() == ev[ev.len() - 1 - j],
                decreases rest.len(),
            {
                let x = rest.pop().unwrap();
                tail.push(x);
            }
            let mut k: usize = 0;
            while tail.len() > 0
                invariant
                    k + tail@.len() == ev.len(),
                    ev.len() == n,
                    forall|j: int| 0 <= j < tail@.len() ==> (#[trigger] tail@[j]).view3() == ev[ev.len() - 1 - j],
                    queries_view(merged@) == av + ev.take(k as int),
                decreases tail.len(),
            {
                let x = tail.pop().unwrap();
                let ghost prev = merged@;
                merged.push(x);
                proof {
                    assert(queries_view(prev.push(x)) =~= queries_view(prev).push(x.view3()));
                    assert(ev.take(k + 1) =~= ev.take(k as int).push(ev[k as int]));
                    assert(av + ev.take(k + 1) =~= (av + ev.take(k as int)).push(ev[k as int]));
                }
                k += 1;
            }
            assert(ev.take(ev.len() as int) == ev);
        },
        None => {},
    }
    commands.search_query = Some(merged);
}

pub open spec fn msg_parse_arguments(err: Seq<char>) -> Seq<char> {
    "failed to parse function arguments: "@ + err
}

pub open spec fn msg_parse_commands(err: Seq<char>) -> Seq<char> {
    "failed to parse web_search commands: "@ + err
}

pub open spec fn msg_parse_aliases(err: Seq<char>) -> Seq<char> {
    "failed to parse web_search query aliases: "@ + err
}

/// The commands of a call: none for blank arguments; otherwise the decoded
/// commands with the decoded alias queries in front. `decoded` is how the
/// arguments decode as JSON, as commands and as aliases.
pub fn parse_search_commands(
    arguments: &str,
    decoded: Result<(SearchCommands, WebSearchArgs), FunctionCallError>,
) -> (r: Result<SearchCommands, FunctionCallError>)
    ensures
        trim(arguments@).len() == 0 ==> (r matches Ok(c) && c.search_query.is_none()
            && c.image_query.is_none() && c.open.is_none() && c.find.is_none()),
        trim(arguments@).len() > 0 ==> match decoded {
            Err(e) => r matches Err(f) && f.message_view() == e.message_view(),
            Ok((c, a)) => r matches Ok(out) && opt_queries_view(out.search_query)
                == merged_search_queries(
                opt_queries_view(c.search_query),
                alias_queries(opt_view(a.query), opt_strings_view(a.queries)),
            ) && out.image_query == c.image_query && out.open == c.open && out.find == c.find,
        },
{
    let t = trim_chars(arguments);
    if t.len() == 0 {
        return Ok(SearchCommands { search_query: None, image_query: None, open: None, find: None });
    }
    match decoded {
        Err(e) => Err(e),
        Ok((c, a)) => {
            let aliases = legacy_query_aliases(&a);
            let mut commands = c;
            merge_alias_queries(&mut commands, aliases);
            Ok(commands)
        },
    }
}

/// The search action for a list of queries: none for no query, the query
/// for one, all of them for more.
pub open spec fn query_action_spec(qs: Seq<Seq<char>>) -> Option<ActionView> {
    if qs.len() == 0 {
        None
    } else if qs.len() == 1 {
        Some(ActionView::Search { query: Some(qs[0]), queries: None })
    } else {
        Some(ActionView::Search { query: None, queries: Some(qs) })
    }
}

pub open spec fn opt_action_view(o: Option<WebSearchAction>) -> Option<ActionView> {
    match o {
        Some(a) => Some(a.view_action()),
        None => None,
    }
}

/// The search action for `queries`.
pub fn query_action(queries: &[SearchQuery]) -> (r: Option<WebSearchAction>)
    ensures
        opt_action_view(r) == query_action_spec(query_texts(queries_view(queries@))),
{
    let ghost qt = query_texts(queries_view(queries@));
    if queries.len() == 0 {
        return None;
    }
    if queries.len() == 1 {
        return Some(WebSearchAction::Search { query: Some(queries[0].q.clone()), queries: None });
    }
    let mut texts: Vec<String> = Vec::new();
    let mut i: usize = 0;
    while i < queries.len()
        invariant
            i <= queries@.len(),
            qt == query_texts(queries_view(queries@)),
            strings_view(texts@) == qt.take(i as int),
        decreases queries.len() - i,
    {
        let ghost prev = texts@;
        texts.push(queries[i].q.clone());
        proof {
            assert(strings_view(prev.push(texts@.last())) =~= strings_view(prev).push(texts@.last()@));
            assert(texts@ == prev.push(texts@.last()));
            assert(qt.take(i + 1) =~= qt.take(i as int).push(qt[i as int]));
        }
        i += 1;
    }
    assert(qt.take(queries.len() as int) == qt);
    Some(WebSearchAction::Search { query: None, queries: Some(texts) })
}

/// A reference that is a URL the `url` crate parses, as itself.
pub open spec fn literal_url_spec(ref_id: Seq<char>) -> Option<Seq<char>> {
    if url_host_and_path(ref_id).is_some() {
        Some(ref_id)
    } else {
        None
    }
}

/// `ref_id` when it is a URL, else nothing.
pub fn literal_url(ref_id: &str) -> (r: Option<String>)
    ensures
        opt_view(r) == literal_url_spec(ref_id@),
{
    if parse_url_host_and_path(ref_id).is_some() {
        Some(ref_id.to_string())
    } else {
        None
    }
}

/// The action a call reports: its search queries, else its image queries,
/// else opening its first page when that is a URL, else finding in its
/// first page, else none in particular.
pub open spec fn command_action_spec(c: SearchCommands) -> ActionView {
    let search = match c.search_query {
        Some(v) => query_action_spec(query_texts(queries_view(v@))),
        None => None,
    };
    let image = match c.image_query {
        Some(v) => query_action_spec(query_texts(queries_view(v@))),
        None => None,
    };
    let open = match c.open {
        Some(v) => if v@.len() > 0 {
            match literal_url_spec(v@[0].ref_id@) {
                Some(u) => Some(ActionView::OpenPage { url: Some(u) }),
                None => None,
            }
        } else {
            None
        },
        None => None,
    };
    let find = match c.find {
        Some(v) => if v@.len() > 0 {
            Some(
                ActionView::FindInPage {
                    url: literal_url_spec(v@[0].ref_id@),
                    pattern: Some(v@[0].pattern@),
                },
            )
        } else {
            None
        },
        None => None,
    };
    if search.is_some() {
        search.unwrap()
    } else if image.is_some() {
        image.unwrap()
    } else if open.is_some() {
        open.unwrap()
    } else if find.is_some() {
        find.unwrap()
    } else {
        ActionView::Other
    }
}

/// The action a call reports.
pub fn command_action(commands: &SearchCommands) -> (r: WebSearchAction)
    ensures
        r.view_action() == command_action_spec(*commands),
{
    match &commands.search_query {
        Some(v) => match query_action(v.as_slice()) {
            Some(a) => return a,
            None => {},
        },
        None => {},
    }
    match &commands.image_query {
        Some(v) => match query_action(v.as_slice()) {
            Some(a) => return a,
            None => {},
        },
        None => {},
    }
    match &commands.open {
        Some(v) => if v.len() > 0 {
            match literal_url(v[0].ref_id.as_str()) {
                Some(u) => return WebSearchAction::OpenPage { url: Some(u) },
                None => {},
            }
        },
        None => {},
    }
    match &commands.find {
        Some(v) => if v.len() > 0 {
            return WebSearchAction::FindInPage {
                url: literal_url(v[0].ref_id.as_str()),
                pattern: Some(v[0].pattern.clone()),
            };
        },
        None => {},
    }
    WebSearchAction::Other
}

/// How the search may reach the web.
#[derive(Debug)]
pub enum ExternalWebAccess {
    /// Live access, or none.
    Boolean(bool),
    /// Only the search index.
    Indexed,
}

/// Indexed access when the spec asks for it; otherwise the spec's live
/// access setting.
pub fn external_web_access_for_spec(
    external_web_access: Option<bool>,
    indexed_web_access: Option<bool>,
) -> (r: Option<ExternalWebAccess>)
    ensures
        indexed_web_access == Some(true) ==> r matches Some(ExternalWebAccess::Indexed),
        indexed_web_access != Some(true) ==> match external_web_access {
            Some(b) => r matches Some(ExternalWebAccess::Boolean(x)) && x == b,
            None => r.is_none(),
        },
{
    if indexed_web_access == Some(true) {
        return Some(ExternalWebAccess::Indexed);
    }
    match external_web_access {
        Some(b) => Some(ExternalWebAccess::Boolean(b)),
        None => None,
    }
}

/// How much page context a search returns.
#[derive(Clone, Copy, Debug, PartialEq, Eq, Structural)]
pub enum SearchContextSize {
    Low,
    Medium,
    High,
}

/// A user's approximate location.
#[derive(Debug)]
pub struct UserLocation {
    pub country: Option<String>,
    pub region: Option<String>,
    pub city: Option<String>,
    pub timezone: Option<String>,
}

/// Domain filters of a search.
#[derive(Debug)]
pub struct SearchFilters {
    pub allowed_domains: Option<Vec<String>>,
    pub blocked_domains: Option<Vec<String>>,
}

/// Who may call the search.
#[derive(Debug)]
pub enum AllowedCaller {
    Direct,
}

/// Domain filters of the configured tool.
pub struct WebSearchFilters {
    pub allowed_domains: Option<Vec<String>>,
}

/// The web search tool as configured.
pub enum WebSearchToolSpec {
    WebSearch {
        external_web_access: Option<bool>,
        indexed_web_access: Option<bool>,
        filters: Option<WebSearchFilters>,
        user_location: Option<UserLocation>,
        search_context_size: Option<SearchContextSize>,
    },
    /// Any other tool.
    Other,
}

/// Settings of one search request.
pub struct SearchSettings {
    /// An approximate location.
    pub user_location: Option<UserLocation>,
    pub search_context_size: Option<SearchContextSize>,
    pub filters: Option<SearchFilters>,
    pub allowed_callers: Option<Vec<AllowedCaller>>,
    pub external_web_access: Option<ExternalWebAccess>,
}

pub open spec fn location_view(l: Option<UserLocation>) -> Option<
    (Option<Seq<char>>, Option<Seq<char>>, Option<Seq<char>>, Option<Seq<char>>),
> {
    match l {
        Some(x) => Some((opt_view(x.country), opt_view(x.region), opt_view(x.city), opt_view(x.timezone))),
        None => None,
    }
}

fn copy_location(l: &Option<UserLocation>) -> (r: Option<UserLocation>)
    ensures
        location_view(r) == location_view(*l),
{
    match l {
        Some(x) => Some(
            UserLocation {
                country: copy_opt(&x.country),
                region: copy_opt(&x.region),
                city: copy_opt(&x.city),
                timezone: copy_opt(&x.timezone),
            },
        ),
        None => None,
    }
}

/// Whether `r` holds the settings `spec` asks for (see
/// [`search_settings_from_spec`]).
pub open spec fn settings_for_spec(r: SearchSettings, spec: WebSearchToolSpec) -> bool {
    match spec {
        WebSearchToolSpec::Other => r.user_location.is_none() && r.search_context_size.is_none()
            && r.filters.is_none() && r.allowed_callers.is_none()
            && r.external_web_access.is_none(),
        WebSearchToolSpec::WebSearch {
            external_web_access,
            indexed_web_access,
            filters,
            user_location,
            search_context_size,
        } => {
            &&& location_view(r.user_location) == location_view(user_location)
            &&& r.search_context_size == search_context_size
            &&& match filters {
                Some(d) => r.filters matches Some(f) && opt_strings_view(f.allowed_domains)
                    == opt_strings_view(d.allowed_domains) && f.blocked_domains.is_none(),
                None => r.filters.is_none(),
            }
            &&& r.allowed_callers matches Some(v) && v@.len() == 1
            &&& match (indexed_web_access, external_web_access) {
                (Some(true), _) => r.external_web_access matches Some(ExternalWebAccess::Indexed),
                (_, Some(b)) => r.external_web_access matches Some(ExternalWebAccess::Boolean(x))
                    && x == b,
                (_, None) => r.external_web_access.is_none(),
            }
        },
    }
}

/// The settings a web search tool spec asks for: its location, context
/// size and allowed domains (no blocked ones), direct callers only, and
/// its web access; a spec of another tool asks for nothing.
pub fn search_settings_from_spec(spec: &WebSearchToolSpec) -> (r: SearchSettings)
    ensures
        settings_for_spec(r, *spec),
{
    match spec {
        WebSearchToolSpec::Other => SearchSettings {
            user_location: None,
            search_context_size: None,
            filters: None,
            allowed_callers: None,
            external_web_access: None,
        },
        WebSearchToolSpec::WebSearch {
            external_web_access,
            indexed_web_access,
            filters,
            user_location,
            search_context_size,
        } => {
            let filters = match filters {
                Some(d) => Some(
                    SearchFilters {
                        allowed_domains: match &d.allowed_domains {
                            Some(v) => Some(copy_strings(v)),
                            None => None,
                        },
                        blocked_domains: None,
                    },
                ),
                None => None,
            };
            let mut callers: Vec<AllowedCaller> = Vec::new();
            callers.push(AllowedCaller::Direct);
            SearchSettings {
                user_location: copy_location(user_location),
                search_context_size: *search_context_size,
                filters,
                allowed_callers: Some(callers),
                external_web_access: external_web_access_for_spec(
                    *external_web_access,
                    *indexed_web_access,
                ),
            }
        },
    }
}


/// Queuing the same query twice queues it once: the second push changes
/// nothing.
pub proof fn law_push_search_query_idempotent(
    qs: Seq<(Seq<char>, Option<u64>, Option<Seq<Seq<char>>>)>,
    query: Seq<char>,
)
    ensures
        pushed_query(pushed_query(qs, query), query) == pushed_query(qs, query),
{
    let once = pushed_query(qs, query);
    let t = trim(query);
    if t.len() > 0 && !query_texts(qs).contains(t) {
        assert(query_texts(once)[qs.len() as int] == t);
        assert(query_texts(once).contains(t));
    }
}

/// Pushed queries never repeat a query text: texts that were distinct stay
/// distinct.
pub proof fn law_pushed_queries_stay_distinct(
    qs: Seq<(Seq<char>, Option<u64>, Option<Seq<Seq<char>>>)>,
    query: Seq<char>,
)
    requires
        query_texts(qs).no_duplicates(),
    ensures
        query_texts(pushed_query(qs, query)).no_duplicates(),
{
    let t = trim(query);
    if t.len() > 0 && !query_texts(qs).contains(t) {
        assert(query_texts(pushed_query(qs, query)) =~= query_texts(qs).push(t));
    }
}


/// A conversation item, as the search request sees the history.
#[derive(Debug)]
pub enum SearchHistoryItem {
    /// A message. `is_user_turn` says whether it reads as a user's turn.
    Message { role: String, content: Vec<ContentItem>, phase: Option<String>, is_user_turn: bool },
    /// A message from another agent, with its content as plain text when
    /// it has such a form.
    AgentMessage { author: String, plaintext: Option<String> },
    /// Any other item.
    Other,
}

/// A message shown to the search model.
#[derive(Debug)]
pub struct VisibleMessage {
    pub role: String,
    pub content: Vec<ContentItem>,
    pub phase: Option<String>,
}

/// The input-text items of `c`, in order.
pub open spec fn input_text_items(c: Seq<ContentItem>) -> Seq<ContentItem>
    decreases c.len(),
{
    if c.len() == 0 {
        c
    } else if c.last() is InputText {
        input_text_items(c.drop_last()).push(c.last())
    } else {
        input_text_items(c.drop_last())
    }
}

/// The text an agent message is shown as.
pub open spec fn agent_message_text(author: Seq<char>, text: Seq<char>) -> Seq<char> {
    "Agent message from "@ + author + ":\n"@ + text
}

/// Whether `item` adds a message to what the search model sees: assistant
/// messages, agent messages with plain text, and user turns with input text.
pub open spec fn adds_visible_message(item: SearchHistoryItem) -> bool {
    match item {
        SearchHistoryItem::Message { role, content, is_user_turn, .. } => role@ == "assistant"@ || (
        role@ == "user"@ && is_user_turn && input_text_items(content@).len() > 0),
        SearchHistoryItem::AgentMessage { plaintext, .. } => plaintext is Some,
        SearchHistoryItem::Other => false,
    }
}

/// What `m` shows for `item` once `adds_visible_message(item)`: assistant
/// messages as they are, agent messages as an assistant text naming the
/// author, user turns with their input text only.
pub open spec fn shows_item(m: VisibleMessage, item: SearchHistoryItem) -> bool {
    match item {
        SearchHistoryItem::Message { role, content, phase, .. } => {
            &&& m.role@ == role@
            &&& m.phase == phase
            &&& if role@ == "assistant"@ {
                m.content@ == content@
            } else {
                m.content@ == input_text_items(content@)
            }
        },
        SearchHistoryItem::AgentMessage { author, plaintext } => {
            &&& m.role@ == "assistant"@
            &&& m.phase is None
            &&& m.content@.len() == 1
            &&& m.content@[0] matches ContentItem::OutputText { text } && text@ == agent_message_text(
                author@,
                plaintext.unwrap()@,
            )
        },
        SearchHistoryItem::Other => false,
    }
}

fn copy_content_item(item: &ContentItem) -> (r: ContentItem)
    ensures
        r == *item,
{
    match item {
        ContentItem::InputText { text } => ContentItem::InputText { text: text.clone() },
        ContentItem::OutputText { text } => ContentItem::OutputText { text: text.clone() },
        ContentItem::OutputTextWithCitations { text } => ContentItem::OutputTextWithCitations {
            text: text.clone(),
        },
        ContentItem::InputImage { image_url, detail } => ContentItem::InputImage {
            image_url: image_url.clone(),
            detail: match detail {
                Some(d) => Some(d.clone()),
                None => None,
            },
        },
    }
}

fn copy_phase(phase: &Option<String>) -> (r: Option<String>)
    ensures
        r == *phase,
{
    match phase {
        Some(p) => Some(p.clone()),
        None => None,
    }
}

/// The items of `content`, or only its input texts.
fn kept_content(content: &Vec<ContentItem>, input_text_only: bool) -> (r: Vec<ContentItem>)
    ensures
        input_text_only ==> r@ == input_text_items(content@),
        !input_text_only ==> r@ == content@,
{
    let mut out: Vec<ContentItem> = Vec::new();
    let mut i: usize = 0;
    while i < content.len()
        invariant
            i <= content@.len(),
            input_text_only ==> out@ == input_text_items(content@.take(i as int)),
            !input_text_only ==> out@ == content@.take(i as int),
        decreases content.len() - i,
    {
        proof {
            assert(content@.take(i + 1).drop_last() == content@.take(i as int));
            assert(content@.take(i + 1).last() == content@[i as int]);
        }
        let keep = !input_text_only || matches!(content[i], ContentItem::InputText { .. });
        if keep {
            out.push(copy_content_item(&content[i]));
        }
        i += 1;
    }
    assert(content@.take(content.len() as int) == content@);
    out
}

/// Adds what the search model is shown of `item` to `messages`: an
/// assistant message without its id, an agent message with plain text as an
/// assistant text naming its author, a user turn with its input text only
/// (when it has any); nothing for anything else.
pub fn push_visible_message(messages: &mut Vec<VisibleMessage>, item: &SearchHistoryItem)
    ensures
        adds_visible_message(*item) ==> {
            &&& final(messages)@.len() == old(messages)@.len() + 1
            &&& final(messages)@.take(old(messages)@.len() as int) == old(messages)@
            &&& shows_item(final(messages)@.last(), *item)
        },
        !adds_visible_message(*item) ==> final(messages)@ == old(messages)@,
{
    proof {
        reveal_strlit("assistant");
        reveal_strlit("user");
    }
    match item {
        SearchHistoryItem::Message { role, content, phase, is_user_turn } => {
            if str_eq(role.as_str(), "assistant") {
                messages.push(VisibleMessage {
                    role: role.clone(),
                    content: kept_content(content, false),
                    phase: copy_phase(phase),
                });
            } else if str_eq(role.as_str(), "user") && *is_user_turn {
                let kept = kept_content(content, true);
                if kept.len() > 0 {
                    messages.push(VisibleMessage { role: role.clone(), content: kept, phase: copy_phase(phase) });
                }
            }
        },
        SearchHistoryItem::AgentMessage { author, plaintext } => {
            if let Some(text) = plaintext {
                let mut t: Vec<char> = Vec::new();
                push_str_chars(&mut t, "Agent message from ");
                push_str_chars(&mut t, author.as_str());
                push_str_chars(&mut t, ":\n");
                push_str_chars(&mut t, text.as_str());
                let text = string_from_chars(t.as_slice());
                let mut content: Vec<ContentItem> = Vec::new();
                content.push(ContentItem::OutputText { text });
                messages.push(VisibleMessage { role: "assistant".to_string(), content, phase: None });
            }
        },
        SearchHistoryItem::Other => {},
    }
}


/// The items of `items` that add a message for the search model, in order.
pub open spec fn shown_items(items: Seq<SearchHistoryItem>) -> Seq<SearchHistoryItem>
    decreases items.len(),
{
    if items.len() == 0 {
        items
    } else if adds_visible_message(items.last()) {
        shown_items(items.drop_last()).push(items.last())
    } else {
        shown_items(items.drop_last())
    }
}

/// The messages the search model is shown of `items`: one for each item
/// that adds one, in order, each showing its item.
pub fn visible_messages(items: &Vec<SearchHistoryItem>) -> (r: Vec<VisibleMessage>)
    ensures
        r@.len() == shown_items(items@).len(),
        forall|k: int| 0 <= k < r@.len() ==> shows_item(#[trigger] r@[k], shown_items(items@)[k]),
{
    let mut out: Vec<VisibleMessage> = Vec::new();
    let mut i: usize = 0;
    while i < items.len()
        invariant
            i <= items@.len(),
            out@.len() == shown_items(items@.take(i as int)).len(),
            forall|k: int| 0 <= k < out@.len() ==> shows_item(#[trigger] out@[k], shown_items(items@.take(i as int))[k]),
        decreases items.len() - i,
    {
        proof {
            assert(items@.take(i + 1).drop_last() == items@.take(i as int));
            assert(items@.take(i + 1).last() == items@[i as int]);
        }
        let ghost prev = out@;
        push_visible_message(&mut out, &items[i]);
        proof {
            let sh = shown_items(items@.take(i + 1));
            if adds_visible_message(items@[i as int]) {
                assert forall|k: int| 0 <= k < out@.len() implies shows_item(#[trigger] out@[k], sh[k]) by {
                    if k < prev.len() {
                        assert(out@[k] == out@.take(prev.len() as int)[k]);
                    }
                }
            }
        }
        i += 1;
    }
    assert(items@.take(items.len() as int) == items@);
    out
}


/// The model the search runs on when the session's provider is not OpenAI.
pub open spec fn search_fallback_model() -> Seq<char> {
    "gpt-5.2-codex"@
}

/// The search model: the turn's model on OpenAI, a fixed OpenAI model
/// elsewhere.
pub fn search_model(provider_is_openai: bool, turn_model_slug: &str) -> (r: String)
    ensures
        provider_is_openai ==> r@ == turn_model_slug@,
        !provider_is_openai ==> r@ == search_fallback_model(),
{
    if provider_is_openai {
        turn_model_slug.to_string()
    } else {
        "gpt-5.2-codex".to_string()
    }
}

pub open spec fn msg_web_search_unsupported_payload() -> Seq<char> {
    "web_search handler received unsupported payload"@
}

/// The JSON arguments of a web search call.
pub fn web_search_arguments(payload: &ToolPayload) -> (r: Result<String, FunctionCallError>)
    ensures
        match payload {
            ToolPayload::Function { arguments } => r matches Ok(a) && a@ == arguments@,
            ToolPayload::Unsupported => r matches Err(e) && e.message_view()
                == msg_web_search_unsupported_payload(),
        },
{
    match payload {
        ToolPayload::Function { arguments } => Ok(arguments.clone()),
        ToolPayload::Unsupported => Err(FunctionCallError::respond("web_search handler received unsupported payload")),
    }
}


/// The web search tool: its spec and the search settings derived from it.
pub struct WebSearchHandler {
    pub spec: WebSearchToolSpec,
    pub settings: SearchSettings,
}

impl WebSearchHandler {
    /// A handler for `spec`, with the settings the spec asks for.
    pub fn new(spec: WebSearchToolSpec) -> (r: Self)
        ensures
            r.spec == spec,
            settings_for_spec(r.settings, spec),
    {
        let settings = search_settings_from_spec(&spec);
        WebSearchHandler { spec, settings }
    }
}

} // verus!
