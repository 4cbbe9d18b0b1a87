//! The store's schema upgrades, and what its queries are turned into: the
//! display entries of the source list and the daemon status.
use vstd::prelude::*;

use crate::config::SourceConfig;
use crate::cron_expr::{local_text, time_in_range, tz_known, utc_text};

verus! {

/// Version of the current database schema (`PRAGMA user_version`).
pub const SCHEMA_VERSION: i64 = 11;

/// One upgrade of the database schema; each ends by storing its version.
#[derive(Debug, Clone, Copy, PartialEq, Eq, Structural)]
pub enum SchemaStep {
    /// Every table of the current schema, on a database without one; stores
    /// the current version.
    Create,
    /// Version 3: the notified fingerprint and time of a schedule, and the
    /// change counter too when coming from version 1.
    V3 { add_counter: bool },
    /// Version `k`, from 4 to the current one, from version `k - 1`.
    To(i64),
}

/// The version a step stores.
pub open spec fn step_version(s: SchemaStep) -> int {
    match s {
        SchemaStep::Create => SCHEMA_VERSION as int,
        SchemaStep::V3 { .. } => 3,
        SchemaStep::To(k) => k as int,
    }
}

/// The single-version upgrades after version `from` up to the current one.
pub open spec fn upgrades_after(from: int) -> Seq<SchemaStep> {
    Seq::new(
        if from < SCHEMA_VERSION { (SCHEMA_VERSION - from) as nat } else { 0 },
        |i: int| SchemaStep::To((from + 1 + i) as i64),
    )
}

/// The upgrades a database at schema version `v` goes through: a new
/// database is created at the current version, versions 1 and 2 go to 3 and
/// then on, later ones take each missing version in turn.
pub open spec fn schema_plan(v: int) -> Seq<SchemaStep> {
    if v < 1 {
        seq![SchemaStep::Create]
    } else if v < 3 {
        seq![SchemaStep::V3 { add_counter: v < 2 }] + upgrades_after(3)
    } else {
        upgrades_after(v)
    }
}

/// The upgrades to run on a database at schema version `version`
/// ([`schema_plan`]).
pub fn migration_plan(version: i64) -> (r: Vec<SchemaStep>)
    ensures
        r@ == schema_plan(version as int),
{
    let mut r: Vec<SchemaStep> = Vec::new();
    if version < 1 {
        r.push(SchemaStep::Create);
        proof {
            assert(r@ =~= schema_plan(version as int));
        }
        return r;
    }
    let mut from: i64 = version;
    if version < 3 {
        r.push(SchemaStep::V3 { add_counter: version < 2 });
        from = 3;
    }
    let ghost head = r@;
    let mut k: i64 = from;
    while k < SCHEMA_VERSION
        invariant
            from <= k || SCHEMA_VERSION <= from,
            k == from || (from < k <= SCHEMA_VERSION),
            r@ == head + upgrades_after(from as int).take(k - from),
            from >= 3 ==> head.len() == 0 || from == 3,
        decreases SCHEMA_VERSION - k,
    {
        k = k + 1;
        r.push(SchemaStep::To(k));
        proof {
            assert(upgrades_after(from as int).take(k - from) =~= upgrades_after(from as int).take(
                k - 1 - from,
            ).push(SchemaStep::To(k)));
        }
    }
    proof {
        assert(upgrades_after(from as int).take(
            if from < SCHEMA_VERSION { SCHEMA_VERSION - from } else { 0 },
        ) =~= upgrades_after(from as int));
        if version < 3 {
            assert(r@ =~= schema_plan(version as int));
        } else {
            assert(head =~= Seq::<SchemaStep>::empty());
            assert(r@ =~= schema_plan(version as int));
        }
    }
    r
}

/// Migrating only moves forward and ends at the current schema: along the
/// plan of any version the stored versions strictly increase, all above the
/// starting one; a plan that runs anything ends at the current version, and
/// a database at the current version (or later) is left alone.
pub proof fn law_migration_reaches_current(v: int)
    ensures
        forall|i: int, j: int|
            0 <= i < j < schema_plan(v).len() ==> step_version(#[trigger] schema_plan(v)[i])
                < step_version(#[trigger] schema_plan(v)[j]),
        forall|i: int| 0 <= i < schema_plan(v).len() ==> step_version(#[trigger] schema_plan(v)[i]) > v,
        schema_plan(v).len() > 0 ==> step_version(schema_plan(v).last()) == SCHEMA_VERSION,
        schema_plan(v).len() == 0 <==> v >= SCHEMA_VERSION,
{
    let p = schema_plan(v);
    if v < 1 {
    } else if v < 3 {
        let u = upgrades_after(3);
        assert forall|i: int| 0 < i < p.len() implies p[i] == u[i - 1] by {}
        assert(p.last() == u[u.len() - 1]);
    } else {
    }
}

/// A source with what the list shows of it.
pub struct SourceMeta {
    pub source: SourceConfig,
    /// Last fetch, successful or not (unix seconds).
    pub last_check_at: Option<i64>,
    /// Last detected change (unix seconds).
    pub last_change_at: Option<i64>,
    /// Unread change events.
    pub unread_count: u32,
    /// Whether the source is failing (consecutive failures above 0).
    pub has_error: bool,
    /// The last error of the failing source, when recorded.
    pub last_error: Option<String>,
}

/// The value of the last row of an id, as a map filled row by row keeps it.
pub open spec fn last_value(rows: Seq<(String, i64)>, id: Seq<char>) -> Option<i64>
    decreases rows.len(),
{
    if rows.len() == 0 {
        None
    } else if rows.last().0@ == id {
        Some(rows.last().1)
    } else {
        last_value(rows.drop_last(), id)
    }
}

/// Whether some failure row has the id.
pub open spec fn failing(rows: Seq<(String, Option<String>)>, id: Seq<char>) -> bool {
    exists|j: int| 0 <= j < rows.len() && #[trigger] rows[j].0@ == id
}

/// The error of the last failure row of the id that records one.
pub open spec fn last_error_of(rows: Seq<(String, Option<String>)>, id: Seq<char>) -> Option<String>
    decreases rows.len(),
{
    if rows.len() == 0 {
        None
    } else if rows.last().0@ == id && rows.last().1 is Some {
        rows.last().1
    } else {
        last_error_of(rows.drop_last(), id)
    }
}

/// The list entry of a source from the query rows: latest check and change
/// per source, unread events (as `u32`), and failure rows.
pub open spec fn meta_ok(
    m: SourceMeta,
    s: SourceConfig,
    checks: Seq<(String, i64)>,
    changes: Seq<(String, i64)>,
    unread: Seq<(String, i64)>,
    failures: Seq<(String, Option<String>)>,
) -> bool {
    &&& m.source@ == s@
    &&& m.last_check_at == last_value(checks, s.id@)
    &&& m.last_change_at == last_value(changes, s.id@)
    &&& m.unread_count == (match last_value(unread, s.id@) {
        Some(n) => n as u32,
        None => 0u32,
    })
    &&& m.has_error == failing(failures, s.id@)
    &&& m.last_error == last_error_of(failures, s.id@)
}

fn last_value_of(rows: &[(String, i64)], id: &Vec<char>) -> (r: Option<i64>)
    ensures
        r == last_value(rows@, id@),
{
    let mut i: usize = rows.len();
    proof {
        assert(rows@.take(rows.len() as int) =~= rows@);
    }
    while i > 0
        invariant
            i <= rows.len(),
            last_value(rows@, id@) == last_value(rows@.take(i as int), id@),
        decreases i,
    {
        proof {
            assert(rows@.take(i as int).drop_last() =~= rows@.take(i - 1));
            assert(rows@.take(i as int).last() == rows@[i - 1]);
        }
        let c = crate::text::chars_of(rows[i - 1].0.as_str());
        if crate::text::seq_eq(&c, id) {
            return Some(rows[i - 1].1);
        }
        i -= 1;
    }
    proof {
        assert(rows@.take(0) =~= Seq::<(String, i64)>::empty());
    }
    None
}

fn failure_of(rows: &[(String, Option<String>)], id: &Vec<char>) -> (r: (bool, Option<String>))
    ensures
        r.0 == failing(rows@, id@),
        r.1 == last_error_of(rows@, id@),
{
    let mut has = false;
    let mut err: Option<String> = None;
    let mut i: usize = 0;
    while i < rows.len()
        invariant
            i <= rows.len(),
            has == failing(rows@.take(i as int), id@),
            err == last_error_of(rows@.take(i as int), id@),
        decreases rows.len() - i,
    {
        proof {
            assert(rows@.take(i + 1).drop_last() =~= rows@.take(i as int));
            assert(rows@.take(i + 1).last() == rows@[i as int]);
        }
        let c = crate::text::chars_of(rows[i].0.as_str());
        if crate::text::seq_eq(&c, id) {
            has = true;
            match &rows[i].1 {
                Some(e) => {
                    err = Some(e.clone());
                },
                None => {},
            }
        }
        i += 1;
        proof {
            let t = rows@.take(i as int);
            if has {
                if !failing(rows@.take(i - 1), id@) {
                    assert(t[i - 1].0@ == id@);
                }
            }
            if failing(t, id@) && !failing(rows@.take(i - 1), id@) {
                let j = choose|j: int| 0 <= j < t.len() && #[trigger] t[j].0@ == id@;
                if j < i - 1 {
                    assert(rows@.take(i - 1)[j] == t[j]);
                }
            }
        }
    }
    proof {
        assert(rows@.take(rows.len() as int) =~= rows@);
    }
    (has, err)
}

/// The list entries of the sources ([`meta_ok`]), in the sources' order.
pub fn assemble_source_meta(
    sources: &[SourceConfig],
    checks: &[(String, i64)],
    changes: &[(String, i64)],
    unread: &[(String, i64)],
    failures: &[(String, Option<String>)],
) -> (r: Vec<SourceMeta>)
    ensures
        r@.len() == sources@.len(),
        forall|j: int|
            0 <= j < sources@.len() ==> meta_ok(
                #[trigger] r@[j],
                sources@[j],
                checks@,
                changes@,
                unread@,
                failures@,
            ),
{
    let mut out: Vec<SourceMeta> = Vec::new();
    let mut i: usize = 0;
    while i < sources.len()
        invariant
            i <= sources.len(),
            out@.len() == i,
            forall|j: int|
                0 <= j < i ==> meta_ok(
                    #[trigger] out@[j],
                    sources@[j],
                    checks@,
                    changes@,
                    unread@,
                    failures@,
                ),
        decreases sources.len() - i,
    {
        let id = crate::text::chars_of(sources[i].id.as_str());
        let unread_n: u32 = match last_value_of(unread, &id) {
            Some(n) => n as u32,
            None => 0,
        };
        let (has_error, last_error) = failure_of(failures, &id);
        out.push(
            SourceMeta {
                source: sources[i].clone(),
                last_check_at: last_value_of(checks, &id),
                last_change_at: last_value_of(changes, &id),
                unread_count: unread_n,
                has_error,
                last_error,
            },
        );
        i += 1;
    }
    out
}

/// The daemon status.
pub struct DaemonStatus {
    pub running: bool,
    pub version: String,
    pub sources: usize,
    pub enabled_sources: usize,
    pub queue_depth: usize,
    /// Last scheduler tick (unix seconds).
    pub last_tick_at: Option<i64>,
    /// Health of each fetch engine seen.
    pub engine_health: Vec<(String, bool)>,
    /// The server's IANA zone.
    pub timezone: String,
    /// The present time (unix seconds).
    pub server_time_utc: i64,
    /// The present time in the server's zone.
    pub server_time_local: String,
}

/// The status of the daemon at the unix time `now`: the source counts, and
/// the present time rendered in the zone.
pub fn daemon_status(
    running: bool,
    version: String,
    sources: &[SourceConfig],
    queue_depth: usize,
    last_tick_at: Option<i64>,
    engine_health: Vec<(String, bool)>,
    timezone: String,
    now: i64,
) -> (r: DaemonStatus)
    requires
        time_in_range(now as int),
    ensures
        r.running == running,
        r.version == version,
        r.sources == sources@.len(),
        r.enabled_sources == crate::scheduler::enabled_count(sources@),
        r.queue_depth == queue_depth,
        r.last_tick_at == last_tick_at,
        r.engine_health == engine_health,
        r.timezone == timezone,
        r.server_time_utc == now,
        r.server_time_local@ == (if tz_known(timezone@) {
            local_text(now as int, timezone@)
        } else {
            utc_text(now as int)
        }),
{
    let enabled = crate::scheduler::count_enabled(sources);
    let local = crate::cron_expr::format_local(now, timezone.as_str());
    DaemonStatus {
        running,
        version,
        sources: sources.len(),
        enabled_sources: enabled,
        queue_depth,
        last_tick_at,
        engine_health,
        timezone,
        server_time_utc: now,
        server_time_local: local,
    }
}

} // verus!
