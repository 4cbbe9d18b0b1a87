//! Rules of the domain services shared by the web console and the control
//! socket: what an operation on the source list does to it, which names are
//! accepted, and how a preview title is read.
use vstd::prelude::*;

use crate::config::{generate_source_id, source_id, str_to_string, url_host, url_host_name, SourceConfig, SourceView};
use crate::pipeline::{css_query, element_text, get_field, json_parse, JsonKind};
use crate::text::{chars_of, seq_eq, string_of, trim, trim_chars};

verus! {

/// Most sources one batch operation may name.
pub const MAX_BATCH_SIZE: usize = 100;

/// Why a service request was refused.
#[derive(Debug, PartialEq, Eq)]
pub enum ApiError {
    /// A batch names more sources than [`MAX_BATCH_SIZE`]; the count is kept.
    BatchTooLarge(usize),
    /// A source with this id exists already.
    SourceExists(String),
    /// No source has this id.
    SourceNotFound(String),
    /// A tag name is blank.
    TagNameRequired,
    /// A media path leaves the media directory or is malformed.
    InvalidMediaPath,
}

/// The list models of a list of sources.
pub open spec fn source_views(s: Seq<SourceConfig>) -> Seq<SourceView> {
    s.map_values(|x: SourceConfig| x@)
}

/// Position of the first source with the id.
pub open spec fn index_of_id(s: Seq<SourceView>, id: Seq<char>) -> Option<int>
    decreases s.len(),
{
    if s.len() == 0 {
        None
    } else if s[0].id@ == id {
        Some(0)
    } else {
        match index_of_id(s.drop_first(), id) {
            Some(i) => Some(i + 1),
            None => None,
        }
    }
}

proof fn lemma_index_of_id(s: Seq<SourceView>, id: Seq<char>)
    ensures
        match index_of_id(s, id) {
            Some(i) => 0 <= i < s.len() && s[i].id@ == id && forall|j: int|
                0 <= j < i ==> s[j].id@ != id,
            None => forall|j: int| 0 <= j < s.len() ==> s[j].id@ != id,
        },
    decreases s.len(),
{
    if s.len() > 0 {
        lemma_index_of_id(s.drop_first(), id);
        if s[0].id@ != id {
            assert forall|j: int| 1 <= j < s.len() implies s[j] == s.drop_first()[j - 1] by {}
        }
    }
}

/// A source with its switches set where a value is given.
pub open spec fn flagged(s: SourceView, enabled: Option<bool>, notify_enabled: Option<bool>) -> SourceView {
    SourceView {
        enabled: match enabled {
            Some(v) => v,
            None => s.enabled,
        },
        notify_enabled: match notify_enabled {
            Some(v) => v,
            None => s.notify_enabled,
        },
        ..s
    }
}

/// The updated sources for the first `n` ids of a batch: one per id that
/// names a source (its first match), in the order of the ids.
pub open spec fn planned_flags(
    sources: Seq<SourceView>,
    ids: Seq<String>,
    enabled: Option<bool>,
    notify_enabled: Option<bool>,
    n: int,
) -> Seq<SourceView>
    decreases n,
{
    if n <= 0 {
        seq![]
    } else {
        planned_flags(sources, ids, enabled, notify_enabled, n - 1) + match index_of_id(
            sources,
            ids[n - 1]@,
        ) {
            Some(i) => seq![flagged(sources[i], enabled, notify_enabled)],
            None => seq![],
        }
    }
}

fn find_source(sources: &[SourceConfig], id: &Vec<char>) -> (r: Option<usize>)
    ensures
        match r {
            Some(i) => index_of_id(source_views(sources@), id@) == Some(i as int),
            None => index_of_id(source_views(sources@), id@) is None,
        },
{
    let ghost sv = source_views(sources@);
    let mut i: usize = 0;
    proof {
        assert(sv.skip(0) =~= sv);
    }
    while i < sources.len()
        invariant
            i <= sources.len(),
            sv == source_views(sources@),
            index_of_id(sv, id@) == (match index_of_id(sv.skip(i as int), id@) {
                Some(x) => Some(x + i),
                None => None,
            }),
        decreases sources.len() - i,
    {
        let c = chars_of(sources[i].id.as_str());
        proof {
            assert(sv.skip(i as int).drop_first() =~= sv.skip(i + 1));
            assert(sv.skip(i as int)[0] == sources@[i as int]@);
        }
        if seq_eq(&c, id) {
            return Some(i);
        }
        i += 1;
    }
    proof {
        assert(sv.skip(i as int) =~= Seq::<SourceView>::empty());
    }
    None
}

/// The sources a batch switch update writes ([`planned_flags`]): nothing for
/// an empty batch or when no switch is given, a refusal for more than
/// [`MAX_BATCH_SIZE`] ids. Ids that name no source are skipped.
pub fn plan_set_flags(
    sources: &[SourceConfig],
    source_ids: &[String],
    enabled: Option<bool>,
    notify_enabled: Option<bool>,
) -> (r: Result<Vec<SourceConfig>, ApiError>)
    ensures
        (source_ids@.len() == 0 || (enabled is None && notify_enabled is None)) ==> (r matches Ok(v)
            && v@.len() == 0),
        !(source_ids@.len() == 0 || (enabled is None && notify_enabled is None))
            && source_ids@.len() > MAX_BATCH_SIZE ==> (r matches Err(ApiError::BatchTooLarge(n))
            && n == source_ids@.len()),
        !(source_ids@.len() == 0 || (enabled is None && notify_enabled is None))
            && source_ids@.len() <= MAX_BATCH_SIZE ==> (r matches Ok(v) && source_views(v@)
            == planned_flags(
            source_views(sources@),
            source_ids@,
            enabled,
            notify_enabled,
            source_ids@.len() as int,
        )),
{
    if source_ids.len() == 0 || (enabled.is_none() && notify_enabled.is_none()) {
        return Ok(Vec::new());
    }
    if source_ids.len() > MAX_BATCH_SIZE {
        return Err(ApiError::BatchTooLarge(source_ids.len()));
    }
    let ghost sv = source_views(sources@);
    let mut out: Vec<SourceConfig> = Vec::new();
    let mut i: usize = 0;
    proof {
        assert(source_views(out@) =~= Seq::<SourceView>::empty());
    }
    while i < source_ids.len()
        invariant
            i <= source_ids.len(),
            sv == source_views(sources@),
            source_views(out@) == planned_flags(sv, source_ids@, enabled, notify_enabled, i as int),
        decreases source_ids.len() - i,
    {
        let id = chars_of(source_ids[i].as_str());
        proof {
            lemma_index_of_id(sv, id@);
        }
        let ghost before = source_views(out@);
        match find_source(sources, &id) {
            Some(k) => {
                let mut next = sources[k].clone();
                match enabled {
                    Some(v) => {
                        next.enabled = v;
                    },
                    None => {},
                }
                match notify_enabled {
                    Some(v) => {
                        next.notify_enabled = v;
                    },
                    None => {},
                }
                proof {
                    assert(next@ == flagged(sv[k as int], enabled, notify_enabled));
                }
                out.push(next);
                proof {
                    assert(source_views(out@) =~= before + seq![
                        flagged(sv[k as int], enabled, notify_enabled),
                    ]);
                }
            },
            None => {
                proof {
                    assert(source_views(out@) =~= before + Seq::<SourceView>::empty());
                }
            },
        }
        i += 1;
    }
    Ok(out)
}

/// A list with the first source of the update's id replaced by the update;
/// unchanged when no source has that id.
pub open spec fn replace_by_id(s: Seq<SourceView>, u: SourceView) -> Seq<SourceView> {
    match index_of_id(s, u.id@) {
        Some(i) => s.update(i, u),
        None => s,
    }
}

/// The updates applied in turn.
pub open spec fn apply_all(s: Seq<SourceView>, us: Seq<SourceView>) -> Seq<SourceView>
    decreases us.len(),
{
    if us.len() == 0 {
        s
    } else {
        replace_by_id(apply_all(s, us.drop_last()), us.last())
    }
}

/// Replaces in the live list the source of the same id as each update
/// ([`apply_all`]).
pub fn apply_source_updates(sources: &mut Vec<SourceConfig>, updates: &[SourceConfig])
    ensures
        source_views(final(sources)@) == apply_all(source_views(old(sources)@), source_views(updates@)),
{
    let mut i: usize = 0;
    let ghost uv = source_views(updates@);
    proof {
        assert(uv.take(0) =~= Seq::<SourceView>::empty());
    }
    while i < updates.len()
        invariant
            i <= updates.len(),
            uv == source_views(updates@),
            source_views(sources@) == apply_all(source_views(old(sources)@), uv.take(i as int)),
        decreases updates.len() - i,
    {
        let id = chars_of(updates[i].id.as_str());
        let ghost before = source_views(sources@);
        proof {
            assert(uv.take(i + 1).drop_last() =~= uv.take(i as int));
            assert(uv.take(i + 1).last() == updates@[i as int]@);
            lemma_index_of_id(before, id@);
        }
        match find_source(sources.as_slice(), &id) {
            Some(k) => {
                sources.set(k, updates[i].clone());
                proof {
                    assert(source_views(sources@) =~= before.update(k as int, updates@[i as int]@));
                }
            },
            None => {},
        }
        i += 1;
    }
    proof {
        assert(uv.take(updates.len() as int) =~= uv);
    }
}

proof fn lemma_planned_ids(
    sources: Seq<SourceView>,
    ids: Seq<String>,
    enabled: Option<bool>,
    notify_enabled: Option<bool>,
    n: int,
)
    requires
        0 <= n <= ids.len(),
    ensures
        forall|k: int|
            0 <= k < planned_flags(sources, ids, enabled, notify_enabled, n).len() ==> exists|j: int|
                0 <= j < n && #[trigger] planned_flags(sources, ids, enabled, notify_enabled, n)[k].id@
                    == ids[j]@,
    decreases n,
{
    if n > 0 {
        lemma_planned_ids(sources, ids, enabled, notify_enabled, n - 1);
        lemma_index_of_id(sources, ids[n - 1]@);
        let p = planned_flags(sources, ids, enabled, notify_enabled, n);
        let q = planned_flags(sources, ids, enabled, notify_enabled, n - 1);
        assert forall|k: int| 0 <= k < p.len() implies exists|j: int|
            0 <= j < n && #[trigger] p[k].id@ == ids[j]@ by {
            if k < q.len() {
                assert(p[k] == q[k]);
                let j = choose|j: int| 0 <= j < n - 1 && #[trigger] q[k].id@ == ids[j]@;
                assert(p[k].id@ == ids[j]@);
            } else {
                assert(p[k].id@ == ids[n - 1]@);
            }
        }
    }
}

proof fn lemma_apply_keeps(s: Seq<SourceView>, us: Seq<SourceView>, i: int)
    requires
        0 <= i < s.len(),
        forall|k: int| 0 <= k < us.len() ==> (#[trigger] us[k]).id@ != s[i].id@,
    ensures
        apply_all(s, us).len() == s.len(),
        apply_all(s, us)[i] == s[i],
    decreases us.len(),
{
    if us.len() > 0 {
        assert forall|k: int| 0 <= k < us.drop_last().len() implies (
        #[trigger] us.drop_last()[k]).id@ != s[i].id@ by {
            assert(us.drop_last()[k] == us[k]);
        }
        lemma_apply_keeps(s, us.drop_last(), i);
        let prev = apply_all(s, us.drop_last());
        lemma_index_of_id(prev, us.last().id@);
    }
}

/// A batch switch update leaves every source it does not name as it was.
pub proof fn law_set_flags_touches_only_named(
    sources: Seq<SourceView>,
    ids: Seq<String>,
    enabled: Option<bool>,
    notify_enabled: Option<bool>,
    i: int,
)
    requires
        0 <= i < sources.len(),
        forall|j: int| 0 <= j < ids.len() ==> (#[trigger] ids[j])@ != sources[i].id@,
    ensures
        apply_all(
            sources,
            planned_flags(sources, ids, enabled, notify_enabled, ids.len() as int),
        )[i] == sources[i],
{
    let p = planned_flags(sources, ids, enabled, notify_enabled, ids.len() as int);
    lemma_planned_ids(sources, ids, enabled, notify_enabled, ids.len() as int);
    assert forall|k: int| 0 <= k < p.len() implies (#[trigger] p[k]).id@ != sources[i].id@ by {
        let j = choose|j: int| 0 <= j < ids.len() && #[trigger] p[k].id@ == ids[j]@;
        assert(ids[j]@ != sources[i].id@);
    }
    lemma_apply_keeps(sources, p, i);
}

/// Setting the switches twice is setting them once.
pub proof fn law_set_flags_idempotent(
    s: SourceView,
    enabled: Option<bool>,
    notify_enabled: Option<bool>,
)
    ensures
        flagged(flagged(s, enabled, notify_enabled), enabled, notify_enabled) == flagged(
            s,
            enabled,
            notify_enabled,
        ),
{
}


// ---------------------------------------------------------------------------
// Adding, updating and removing sources
// ---------------------------------------------------------------------------

/// The name a new source gets: its own when not blank, else its URL's host.
pub open spec fn new_source_name(name: Seq<char>, url: Seq<char>) -> Seq<char> {
    if trim(name).len() > 0 {
        name
    } else {
        match url_host_name(url) {
            Some(h) => h,
            None => seq![],
        }
    }
}

/// A new source made ready to be stored: a blank id is generated from the
/// name and URL ([`generate_source_id`], `seq` told to it), a blank name is
/// the URL's host; refused when a source of that id exists.
pub fn prepare_new_source(source: SourceConfig, existing: &[SourceConfig], seq: u64) -> (r: Result<
    SourceConfig,
    ApiError,
>)
    ensures
        match r {
            Ok(s) => {
                &&& index_of_id(source_views(existing@), s.id@) is None
                &&& s@ == (SourceView {
                    id: s.id,
                    name: s.name,
                    ..source@
                })
                &&& s.name@ == new_source_name(source.name@, source.fetch.url@)
                &&& trim(source.id@).len() > 0 ==> s.id == source.id
                &&& trim(source.id@).len() == 0 ==> exists|e: u64|
                    s.id@ == source_id(source.name@, url_host_name(trim(source.fetch.url@)), e as nat)
            },
            Err(ApiError::SourceExists(id)) => {
                &&& index_of_id(source_views(existing@), id@) is Some
                &&& trim(source.id@).len() > 0 ==> id == source.id
            },
            Err(_) => false,
        },
{
    let mut source = source;
    let ghost orig = source;
    let idc = chars_of(source.id.as_str());
    let idt = trim_chars(&idc);
    if idt.len() == 0 {
        source.id = generate_source_id(source.name.as_str(), source.fetch.url.as_str(), seq);
    }
    let nc = chars_of(source.name.as_str());
    let nt = trim_chars(&nc);
    if nt.len() == 0 {
        source.name = match url_host(source.fetch.url.as_str()) {
            Some(h) => h,
            None => String::new(),
        };
    }
    let key = chars_of(source.id.as_str());
    match find_source(existing, &key) {
        Some(_) => Err(ApiError::SourceExists(source.id)),
        None => Ok(source),
    }
}

/// Checks that an updated source replaces an existing one.
pub fn check_source_exists(sources: &[SourceConfig], id: &str) -> (r: Result<(), ApiError>)
    ensures
        index_of_id(source_views(sources@), id@) is Some ==> r is Ok,
        index_of_id(source_views(sources@), id@) is None ==> (r matches Err(ApiError::SourceNotFound(
            i,
        )) && i@ == id@),
{
    let k = chars_of(id);
    match find_source(sources, &k) {
        Some(_) => Ok(()),
        None => Err(ApiError::SourceNotFound(str_to_string(id))),
    }
}

/// The sources without those of the id.
pub open spec fn without_id(s: Seq<SourceView>, id: Seq<char>) -> Seq<SourceView>
    decreases s.len(),
{
    if s.len() == 0 {
        seq![]
    } else if s.last().id@ == id {
        without_id(s.drop_last(), id)
    } else {
        without_id(s.drop_last(), id).push(s.last())
    }
}

/// Removes from the live list every source of the id ([`without_id`]).
pub fn remove_source(sources: &mut Vec<SourceConfig>, id: &str)
    ensures
        source_views(final(sources)@) == without_id(source_views(old(sources)@), id@),
{
    let k = chars_of(id);
    let ghost sv = source_views(sources@);
    let mut kept: Vec<SourceConfig> = Vec::new();
    let mut i: usize = 0;
    proof {
        assert(sv.take(0) =~= Seq::<SourceView>::empty());
        assert(source_views(kept@) =~= without_id(sv.take(0), id@));
    }
    while i < sources.len()
        invariant
            i <= sources.len(),
            k@ == id@,
            sv == source_views(sources@),
            sv == source_views(old(sources)@),
            source_views(kept@) == without_id(sv.take(i as int), id@),
        decreases sources.len() - i,
    {
        proof {
            assert(sv.take(i + 1).drop_last() =~= sv.take(i as int));
            assert(sv.take(i + 1).last() == sources@[i as int]@);
        }
        let c = chars_of(sources[i].id.as_str());
        if !seq_eq(&c, &k) {
            let ghost before = source_views(kept@);
            kept.push(sources[i].clone());
            proof {
                assert(source_views(kept@) =~= before.push(sources@[i as int]@));
            }
        }
        i += 1;
    }
    proof {
        assert(sv.take(sources.len() as int) =~= sv);
    }
    *sources = kept;
}

/// A removed source is gone from the list, and every other source stays.
pub proof fn law_remove_source(s: Seq<SourceView>, id: Seq<char>)
    ensures
        forall|j: int|
            0 <= j < without_id(s, id).len() ==> (#[trigger] without_id(s, id)[j]).id@ != id,
        forall|j: int|
            0 <= j < s.len() && s[j].id@ != id ==> without_id(s, id).contains(#[trigger] s[j]),
    decreases s.len(),
{
    if s.len() > 0 {
        law_remove_source(s.drop_last(), id);
        let w = without_id(s, id);
        let p = without_id(s.drop_last(), id);
        assert forall|j: int| 0 <= j < s.len() && s[j].id@ != id implies w.contains(
            #[trigger] s[j],
        ) by {
            if j < s.len() - 1 {
                assert(s[j] == s.drop_last()[j]);
                assert(p.contains(s.drop_last()[j]));
                let k = choose|k: int| 0 <= k < p.len() && p[k] == s.drop_last()[j];
                if s.last().id@ != id {
                    assert(w[k] == p[k]);
                }
            } else {
                assert(w[w.len() - 1] == s.last());
            }
        }
    }
}

// ---------------------------------------------------------------------------
// Tags, media paths, lists
// ---------------------------------------------------------------------------

/// The name of a tag as stored: trimmed; a blank name is refused.
pub fn tag_name(name: &str) -> (r: Result<String, ApiError>)
    ensures
        trim(name@).len() > 0 ==> (r matches Ok(n) && n@ == trim(name@)),
        trim(name@).len() == 0 ==> (r matches Err(ApiError::TagNameRequired)),
{
    let c = chars_of(name);
    let t = trim_chars(&c);
    if t.len() == 0 {
        Err(ApiError::TagNameRequired)
    } else {
        Ok(string_of(&t))
    }
}

pub open spec fn is_sep(c: char) -> bool {
    c == '/' || c == '\\'
}

/// Position of the first separator, or the length.
pub open spec fn sep_pos(s: Seq<char>) -> int
    decreases s.len(),
{
    if s.len() == 0 {
        0
    } else if is_sep(s[0]) {
        0
    } else {
        1 + sep_pos(s.drop_first())
    }
}

pub proof fn lemma_sep_pos(s: Seq<char>)
    ensures
        0 <= sep_pos(s) <= s.len(),
        forall|j: int| 0 <= j < sep_pos(s) ==> !is_sep(#[trigger] s[j]),
        sep_pos(s) < s.len() ==> is_sep(s[sep_pos(s)]),
    decreases s.len(),
{
    if s.len() > 0 && !is_sep(s[0]) {
        lemma_sep_pos(s.drop_first());
        assert forall|j: int| 0 <= j < sep_pos(s) implies !is_sep(#[trigger] s[j]) by {
            if j > 0 {
                assert(s[j] == s.drop_first()[j - 1]);
            }
        }
    }
}

/// Every piece between separators is neither empty nor `..`.
pub open spec fn segments_ok(s: Seq<char>) -> bool
    decreases s.len(),
{
    let i = sep_pos(s);
    let seg = s.take(i);
    proof {
        lemma_sep_pos(s);
    }
    seg.len() > 0 && seg != ".."@ && (i < s.len() ==> segments_ok(s.skip(i + 1)))
}

/// Whether a stored media path is a plain relative path: no leading
/// separator, no empty or `..` piece (`/` and `\` both separate).
pub open spec fn media_rel_ok(rel: Seq<char>) -> bool {
    !(rel.len() > 0 && is_sep(rel[0])) && segments_ok(rel)
}

/// Checks a stored media path before it is joined to the media directory
/// ([`media_rel_ok`]).
pub fn check_media_path(rel: &str) -> (r: Result<(), ApiError>)
    ensures
        media_rel_ok(rel@) ==> r is Ok,
        !media_rel_ok(rel@) ==> r matches Err(ApiError::InvalidMediaPath),
{
    let c = chars_of(rel);
    if c.len() > 0 && (c[0] == '/' || c[0] == '\\') {
        return Err(ApiError::InvalidMediaPath);
    }
    let mut start: usize = 0;
    proof {
        assert(c@.skip(0) =~= c@);
    }
    loop
        invariant
            start <= c.len(),
            c@ == rel@,
            media_rel_ok(rel@) == segments_ok(c@.skip(start as int)),
        decreases c.len() - start,
    {
        let ghost rest = c@.skip(start as int);
        proof {
            lemma_sep_pos(rest);
        }
        let mut j: usize = start;
        while j < c.len() && !(c[j] == '/' || c[j] == '\\')
            invariant
                start <= j <= c.len(),
                rest == c@.skip(start as int),
                forall|k: int| start <= k < j ==> !is_sep(#[trigger] c@[k]),
            decreases c.len() - j,
        {
            j += 1;
        }
        proof {
            assert forall|k: int| 0 <= k < j - start implies !is_sep(#[trigger] rest[k]) by {
                assert(rest[k] == c@[k + start]);
            }
            if j < c.len() {
                assert(rest[j - start] == c@[j as int]);
                assert(is_sep(rest[j - start]));
            }
            if sep_pos(rest) < j - start {
                assert(is_sep(rest[sep_pos(rest)]));
            }
            assert(sep_pos(rest) == j - start);
        }
        let seg = crate::text::slice_chars(&c, start, j);
        proof {
            assert(seg@ =~= rest.take(j - start));
        }
        let dots = chars_of("..");
        proof {
            assert(segments_ok(rest) == (rest.take(j - start).len() > 0 && rest.take(j - start)
                != ".."@ && (j - start < rest.len() ==> segments_ok(rest.skip(j - start + 1)))));
        }
        if seg.len() == 0 || seq_eq(&seg, &dots) {
            return Err(ApiError::InvalidMediaPath);
        }
        if j == c.len() {
            return Ok(());
        }
        proof {
            assert(rest.skip(j - start + 1) =~= c@.skip(j + 1));
        }
        start = j + 1;
    }
}

/// The number of events listed when none is asked for.
pub const DEFAULT_LIST_LIMIT: usize = 20;

/// The list limit asked for, else [`DEFAULT_LIST_LIMIT`].
pub open spec fn list_limit_spec(limit: Option<usize>) -> usize {
    match limit {
        Some(n) => n,
        None => DEFAULT_LIST_LIMIT,
    }
}

/// The list limit asked for, else [`DEFAULT_LIST_LIMIT`].
pub fn list_limit(limit: Option<usize>) -> (r: usize)
    ensures
        r == list_limit_spec(limit),
{
    match limit {
        Some(n) => n,
        None => DEFAULT_LIST_LIMIT,
    }
}

// ---------------------------------------------------------------------------
// Preview titles
// ---------------------------------------------------------------------------

/// The title of a JSON document: the first of `title`, `name`, `Title`,
/// `Name` that holds a string not blank, trimmed.
pub open spec fn json_title(v: crate::pipeline::JsonValue) -> Seq<char> {
    let pick = |k: Seq<char>|
        match get_field(v, k) {
            Some(x) => match x.kind {
                JsonKind::Str(s) => trim(s@),
                _ => seq![],
            },
            None => seq![],
        };
    if pick("title"@).len() > 0 {
        pick("title"@)
    } else if pick("name"@).len() > 0 {
        pick("name"@)
    } else if pick("Title"@).len() > 0 {
        pick("Title"@)
    } else {
        pick("Name"@)
    }
}

/// The text of the first element a selector matches, empty when none.
pub open spec fn first_text(html: Seq<char>, selector: Seq<char>) -> Seq<char> {
    match css_query(html, selector, seq![], seq![]) {
        Some(ms) => if ms.len() > 0 {
            element_text(ms[0].element)
        } else {
            seq![]
        },
        None => seq![],
    }
}

/// The title of a page for a new source's name: empty for a blank body; for
/// a JSON content type, [`json_title`]; else the text of `<title>`, else of
/// the first `<h1>`.
pub open spec fn preview_title(text: Seq<char>, content_type: Option<Seq<char>>) -> Seq<char> {
    let t = trim(text);
    if t.len() == 0 {
        seq![]
    } else if content_type is Some && crate::text::contains(content_type.unwrap(), "json"@) {
        match json_parse(t) {
            Some(v) => json_title(v),
            None => seq![],
        }
    } else if first_text(t, "title"@).len() > 0 {
        first_text(t, "title"@)
    } else {
        first_text(t, "h1"@)
    }
}

fn json_string_field(v: &crate::pipeline::JsonValue, key: &str) -> (r: Vec<char>)
    ensures
        r@ == (match get_field(*v, key@) {
            Some(x) => match x.kind {
                JsonKind::Str(s) => trim(s@),
                _ => seq![],
            },
            None => seq![],
        }),
{
    match &v.kind {
        JsonKind::Object(ms) => {
            let k = chars_of(key);
            match crate::pipeline::member_lookup(ms, &k) {
                Some(x) => match &x.kind {
                    JsonKind::Str(s) => {
                        let c = chars_of(s.as_str());
                        trim_chars(&c)
                    },
                    _ => Vec::new(),
                },
                None => Vec::new(),
            }
        },
        _ => Vec::new(),
    }
}

fn first_element_text(html: &str, selector: &str) -> (r: String)
    ensures
        r@ == first_text(html@, selector@),
{
    let inner: Vec<String> = Vec::new();
    let attrs: Vec<String> = Vec::new();
    proof {
        assert(crate::pipeline::str_views(inner@) =~= Seq::<Seq<char>>::empty());
        assert(crate::pipeline::str_views(attrs@) =~= Seq::<Seq<char>>::empty());
    }
    match crate::pipeline::css_query_doc(html, selector, &inner, &attrs) {
        Some(ms) => {
            if ms.len() > 0 {
                crate::pipeline::element_text_of(&ms[0].element)
            } else {
                String::new()
            }
        },
        None => String::new(),
    }
}

/// Reads the title of a fetched page ([`preview_title`]).
pub fn extract_title(text: &str, content_type: Option<&str>) -> (r: String)
    ensures
        r@ == preview_title(text@, match content_type {
            Some(c) => Some(c@),
            None => None,
        }),
{
    let c = chars_of(text);
    let t = trim_chars(&c);
    if t.len() == 0 {
        return String::new();
    }
    let ts = string_of(&t);
    let is_json = match content_type {
        Some(ct) => {
            let cc = chars_of(ct);
            let j = chars_of("json");
            crate::text::contains_chars(&cc, &j)
        },
        None => false,
    };
    if is_json {
        let v = match crate::pipeline::parse_json(ts.as_str()) {
            Some(v) => v,
            None => return String::new(),
        };
        let a = json_string_field(&v, "title");
        if a.len() > 0 {
            return string_of(&a);
        }
        let b = json_string_field(&v, "name");
        if b.len() > 0 {
            return string_of(&b);
        }
        let c2 = json_string_field(&v, "Title");
        if c2.len() > 0 {
            return string_of(&c2);
        }
        let d = json_string_field(&v, "Name");
        return string_of(&d);
    }
    let title = first_element_text(ts.as_str(), "title");
    if !title.as_str().is_empty() {
        return title;
    }
    first_element_text(ts.as_str(), "h1")
}

} // verus!
