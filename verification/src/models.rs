//! Domain model: extracted items, change events, schedule state, notification
//! records and targets. Times are unix seconds.
use vstd::prelude::*;

use crate::config::{ChangeType, ExtractConfig, SourceConfig};
use crate::text::{
    append_chars, chars_of, chars_of_all, copy_chars, join, join_chars, sort_char_vecs, sort_strs,
    string_of, views,
};

verus! {

/// A named value extracted for an item.
pub struct Field {
    pub name: String,
    pub value: String,
}

impl Clone for Field {
    fn clone(&self) -> (r: Self)
        ensures
            r == *self,
    {
        Field { name: self.name.clone(), value: self.value.clone() }
    }
}

/// One extracted item. `fields` maps a field name to its value; a name is
/// looked up at its first occurrence.
pub struct Item {
    pub stable_id: String,
    pub fields: Vec<Field>,
    pub image_urls: Vec<String>,
    pub text: String,
}

/// Mathematical model of an [`Item`].
pub struct ItemView {
    pub stable_id: String,
    pub fields: Seq<Field>,
    pub image_urls: Seq<String>,
    pub text: String,
}

impl View for Item {
    type V = ItemView;

    open spec fn view(&self) -> ItemView {
        ItemView {
            stable_id: self.stable_id,
            fields: self.fields@,
            image_urls: self.image_urls@,
            text: self.text,
        }
    }
}

/// The models of a list of items.
pub open spec fn item_views(v: Seq<Item>) -> Seq<ItemView> {
    v.map_values(|i: Item| i@)
}

pub fn clone_strings(v: &Vec<String>) -> (r: Vec<String>)
    ensures
        r@ == v@,
{
    let r = v.clone();
    proof {
        assert(r@ =~= v@);
    }
    r
}

pub fn clone_fields(v: &Vec<Field>) -> (r: Vec<Field>)
    ensures
        r@ == v@,
{
    let r = v.clone();
    proof {
        assert(r@ =~= v@);
    }
    r
}

impl Clone for Item {
    fn clone(&self) -> (r: Self)
        ensures
            r@ == self@,
    {
        Item {
            stable_id: self.stable_id.clone(),
            fields: clone_fields(&self.fields),
            image_urls: clone_strings(&self.image_urls),
            text: self.text.clone(),
        }
    }
}

pub fn clone_items(v: &[Item]) -> (r: Vec<Item>)
    ensures
        item_views(r@) == item_views(v@),
{
    let mut r: Vec<Item> = Vec::new();
    let mut i: usize = 0;
    while i < v.len()
        invariant
            i <= v.len(),
            item_views(r@) == item_views(v@.take(i as int)),
        decreases v.len() - i,
    {
        let ghost before = item_views(r@);
        r.push(v[i].clone());
        i += 1;
        proof {
            assert(item_views(r@) =~= before.push(v@[i - 1]@));
            assert(item_views(v@.take(i as int)) =~= item_views(v@.take(i - 1)).push(v@[i - 1]@));
        }
    }
    proof {
        assert(v@.take(v.len() as int) =~= v@);
    }
    r
}

/// Names of the fields, in order.
pub open spec fn field_names(fs: Seq<Field>) -> Seq<Seq<char>> {
    fs.map_values(|f: Field| f.name@)
}

/// Value of the first field named `k` (empty when there is none).
pub open spec fn lookup(fs: Seq<Field>, k: Seq<char>) -> Option<Seq<char>>
    decreases fs.len(),
{
    if fs.len() == 0 {
        None
    } else if fs[0].name@ == k {
        Some(fs[0].value@)
    } else {
        lookup(fs.drop_first(), k)
    }
}

pub open spec fn lookup_or_empty(fs: Seq<Field>, k: Seq<char>) -> Seq<char> {
    match lookup(fs, k) {
        Some(v) => v,
        None => seq![],
    }
}

/// The `name=value` lines of the fingerprint, one per key not ignored.
pub open spec fn field_lines(keys: Seq<Seq<char>>, fs: Seq<Field>, ignore: Seq<Seq<char>>) -> Seq<
    Seq<char>,
>
    decreases keys.len(),
{
    if keys.len() == 0 {
        seq![]
    } else {
        let rest = field_lines(keys.drop_first(), fs, ignore);
        if ignore.contains(keys[0]) {
            rest
        } else {
            seq![keys[0] + seq!['='] + lookup_or_empty(fs, keys[0])] + rest
        }
    }
}

/// The names of `keys` that are not in the ignore list, in order.
pub open spec fn kept_keys(keys: Seq<Seq<char>>, ignore: Seq<Seq<char>>) -> Seq<Seq<char>>
    decreases keys.len(),
{
    if keys.len() == 0 {
        seq![]
    } else if ignore.contains(keys[0]) {
        kept_keys(keys.drop_first(), ignore)
    } else {
        seq![keys[0]] + kept_keys(keys.drop_first(), ignore)
    }
}

/// Fields are ignored by exact name: the field lines of a fingerprint are
/// those of the names not in the ignore list, as if nothing were ignored, and
/// a name is left out exactly when that very name is in the list (ignoring
/// `price` keeps `price2`).
pub proof fn law_ignore_by_exact_name(keys: Seq<Seq<char>>, fs: Seq<Field>, ignore: Seq<Seq<char>>)
    ensures
        field_lines(keys, fs, ignore) == field_lines(kept_keys(keys, ignore), fs, seq![]),
        forall|k: Seq<char>| #[trigger] kept_keys(keys, ignore).contains(k) <==> (keys.contains(k)
            && !ignore.contains(k)),
    decreases keys.len(),
{
    if keys.len() > 0 {
        let rest = keys.drop_first();
        law_ignore_by_exact_name(rest, fs, ignore);
        let kr = kept_keys(rest, ignore);
        if !ignore.contains(keys[0]) {
            let kk = seq![keys[0]] + kr;
            assert(kk.drop_first() =~= kr);
            assert(kk[0] == keys[0]);
            assert(!Seq::<Seq<char>>::empty().contains(keys[0]));
        }
        assert forall|k: Seq<char>| #[trigger] kept_keys(keys, ignore).contains(k) <==> (keys.contains(k)
            && !ignore.contains(k)) by {
            if keys.contains(k) {
                let i = choose|i: int| 0 <= i < keys.len() && keys[i] == k;
                if i > 0 {
                    assert(rest[i - 1] == k);
                }
            }
            if rest.contains(k) {
                let i = choose|i: int| 0 <= i < rest.len() && rest[i] == k;
                assert(keys[i + 1] == k);
            }
            if !ignore.contains(keys[0]) {
                let kk = seq![keys[0]] + kr;
                if kk.contains(k) {
                    let i = choose|i: int| 0 <= i < kk.len() && kk[i] == k;
                    if i > 0 {
                        assert(kr[i - 1] == k);
                    }
                }
                if kr.contains(k) {
                    let i = choose|i: int| 0 <= i < kr.len() && kr[i] == k;
                    assert(kk[i + 1] == k);
                }
                assert(kk[0] == keys[0]);
            }
        }
    } else {
        assert forall|k: Seq<char>| #[trigger] kept_keys(keys, ignore).contains(k) <==> (keys.contains(k)
            && !ignore.contains(k)) by {}
    }
}

/// Fingerprint of an item's content: its id, then `name=value` for each field
/// not ignored in ascending name order, then `text=...` when it has no fields
/// and a non-empty text, then its image URLs sorted and comma-joined; the
/// lines joined by `\n`.
pub open spec fn item_fingerprint(item: ItemView, ignore: Seq<Seq<char>>) -> Seq<char> {
    let fs = item.fields;
    let text_line: Seq<Seq<char>> = if fs.len() == 0 && item.text@.len() > 0 {
        seq![seq!['t', 'e', 'x', 't', '='] + item.text@]
    } else {
        seq![]
    };
    let imgs = sort_strs(item.image_urls.map_values(|s: String| s@));
    join(
        seq![item.stable_id@] + field_lines(sort_strs(field_names(fs)), fs, ignore) + text_line
            + seq![join(imgs, seq![','])],
        seq!['\n'],
    )
}

/// The image URLs of an item count in its fingerprint: two items alike but
/// for their image URLs (each non-empty and without a comma) have equal
/// fingerprints exactly when their sorted URL lists are equal, so a changed
/// image set changes the fingerprint.
pub proof fn law_fingerprint_tells_images(a: ItemView, b: ItemView, ignore: Seq<Seq<char>>)
    requires
        a.stable_id == b.stable_id,
        a.fields == b.fields,
        a.text == b.text,
        crate::text::clean_pieces(a.image_urls.map_values(|s: String| s@), ','),
        crate::text::clean_pieces(b.image_urls.map_values(|s: String| s@), ','),
    ensures
        item_fingerprint(a, ignore) == item_fingerprint(b, ignore) <==> sort_strs(
            a.image_urls.map_values(|s: String| s@),
        ) == sort_strs(b.image_urls.map_values(|s: String| s@)),
{
    let ua = a.image_urls.map_values(|s: String| s@);
    let ub = b.image_urls.map_values(|s: String| s@);
    let sa = sort_strs(ua);
    let sb = sort_strs(ub);
    let ja = join(sa, seq![',']);
    let jb = join(sb, seq![',']);
    let fs = a.fields;
    let text_line: Seq<Seq<char>> = if fs.len() == 0 && a.text@.len() > 0 {
        seq![seq!['t', 'e', 'x', 't', '='] + a.text@]
    } else {
        seq![]
    };
    let pre = seq![a.stable_id@] + field_lines(sort_strs(field_names(fs)), fs, ignore) + text_line;
    let nl = seq!['\n'];
    let la = pre + seq![ja];
    let lb = pre + seq![jb];
    assert(la.drop_last() =~= pre);
    assert(lb.drop_last() =~= pre);
    assert(la.last() == ja);
    assert(lb.last() == jb);
    assert(item_fingerprint(a, ignore) == join(la, nl));
    assert(item_fingerprint(b, ignore) == join(lb, nl));
    assert(join(la, nl) == join(pre, nl) + nl + ja);
    assert(join(lb, nl) == join(pre, nl) + nl + jb);
    if item_fingerprint(a, ignore) == item_fingerprint(b, ignore) {
        let x = join(pre, nl) + nl;
        assert(ja =~= (x + ja).skip(x.len() as int));
        assert(jb =~= (x + jb).skip(x.len() as int));
        assert(x + ja =~= join(la, nl));
        assert(x + jb =~= join(lb, nl));
        assert(ja == jb);
        crate::text::lemma_sort_strs_from(ua);
        crate::text::lemma_sort_strs_from(ub);
        assert forall|i: int| 0 <= i < sa.len() implies (#[trigger] sa[i]).len() > 0 && !sa[i].contains(',') by {
            let j = choose|j: int| 0 <= j < ua.len() && ua[j] == sa[i];
        }
        assert forall|i: int| 0 <= i < sb.len() implies (#[trigger] sb[i]).len() > 0 && !sb[i].contains(',') by {
            let j = choose|j: int| 0 <= j < ub.len() && ub[j] == sb[i];
        }
        crate::text::lemma_join_injective(sa, sb, ',');
    }
}

pub(crate) fn find_field(fs: &Vec<Field>, k: &Vec<char>) -> (r: Option<usize>)
    ensures
        match r {
            Some(i) => i < fs.len() && lookup(fs@, k@) == Some(fs@[i as int].value@),
            None => lookup(fs@, k@) is None,
        },
{
    let mut i: usize = 0;
    proof {
        assert(fs@.skip(0) =~= fs@);
    }
    while i < fs.len()
        invariant
            i <= fs.len(),
            lookup(fs@, k@) == lookup(fs@.skip(i as int), k@),
        decreases fs.len() - i,
    {
        let name = chars_of(fs[i].name.as_str());
        proof {
            assert(fs@.skip(i as int).drop_first() =~= fs@.skip(i + 1));
        }
        if crate::text::seq_eq(&name, k) {
            return Some(i);
        }
        i += 1;
    }
    None
}

impl Item {
    /// Content fingerprint; fields named in `ignore_fields` (exact match) are left out.
    pub fn fingerprint(&self, ignore_fields: &[String]) -> (r: String)
        ensures
            r@ == item_fingerprint(self@, ignore_fields@.map_values(|s: String| s@)),
    {
        let ghost ign = ignore_fields@.map_values(|s: String| s@);
        let ignore = chars_of_all(ignore_fields);
        let mut parts: Vec<Vec<char>> = Vec::new();
        let sid = chars_of(self.stable_id.as_str());
        parts.push(sid);
        proof {
            assert(views(parts@) =~= seq![self.stable_id@]);
        }
        let mut names: Vec<Vec<char>> = Vec::new();
        let mut i: usize = 0;
        while i < self.fields.len()
            invariant
                i <= self.fields.len(),
                views(names@) == field_names(self.fields@.take(i as int)),
            decreases self.fields.len() - i,
        {
            let n = chars_of(self.fields[i].name.as_str());
            let ghost before = views(names@);
            names.push(n);
            i += 1;
            proof {
                assert(views(names@) =~= before.push(n@));
                assert(field_names(self.fields@.take(i as int)) =~= field_names(
                    self.fields@.take(i - 1),
                ).push(self.fields@[i - 1].name@));
            }
        }
        proof {
            assert(self.fields@.take(self.fields.len() as int) =~= self.fields@);
        }
        let keys = sort_char_vecs(&names);
        let ghost ks = views(keys@);
        let ghost head = views(parts@);
        let mut j: usize = 0;
        proof {
            assert(ks.skip(0) =~= ks);
        }
        while j < keys.len()
            invariant
                j <= keys.len(),
                ks == views(keys@),
                ign == views(ignore@),
                views(parts@) + field_lines(ks.skip(j as int), self.fields@, ign) == head
                    + field_lines(ks, self.fields@, ign),
            decreases keys.len() - j,
        {
            let ghost rest = ks.skip(j as int);
            proof {
                assert(rest.drop_first() =~= ks.skip(j + 1));
                assert(rest[0] == keys@[j as int]@);
            }
            let mut ignored = false;
            let mut q: usize = 0;
            while q < ignore.len()
                invariant
                    q <= ignore.len(),
                    j < keys.len(),
                    ign == views(ignore@),
                    ignored == (exists|t: int| 0 <= t < q && ign[t] == keys@[j as int]@),
                decreases ignore.len() - q,
            {
                if crate::text::seq_eq(&ignore[q], &keys[j]) {
                    ignored = true;
                    proof {
                        assert(ign[q as int] == keys@[j as int]@);
                    }
                }
                q += 1;
            }
            proof {
                if ignored {
                    let t = choose|t: int| 0 <= t < q && ign[t] == keys@[j as int]@;
                    assert(ign.contains(rest[0]));
                } else {
                    assert(!ign.contains(rest[0]));
                }
            }
            if !ignored {
                let mut line = copy_chars(&keys[j]);
                line.push('=');
                match find_field(&self.fields, &keys[j]) {
                    Some(fi) => {
                        let v = chars_of(self.fields[fi].value.as_str());
                        append_chars(&mut line, &v);
                    },
                    None => {},
                }
                let ghost before = views(parts@);
                proof {
                    assert(line@ =~= rest[0] + seq!['='] + lookup_or_empty(self.fields@, rest[0]));
                }
                parts.push(line);
                proof {
                    assert(views(parts@) =~= before.push(line@));
                    assert(views(parts@) + field_lines(ks.skip(j + 1), self.fields@, ign) =~= before
                        + field_lines(rest, self.fields@, ign));
                }
            }
            j += 1;
        }
        proof {
            assert(ks.skip(j as int) =~= Seq::<Seq<char>>::empty());
            assert(views(parts@) =~= head + field_lines(ks, self.fields@, ign));
        }
        if self.fields.len() == 0 && !self.text.as_str().is_empty() {
            let mut line: Vec<char> = Vec::new();
            line.push('t');
            line.push('e');
            line.push('x');
            line.push('t');
            line.push('=');
            let t = chars_of(self.text.as_str());
            append_chars(&mut line, &t);
            proof {
                assert(line@ =~= seq!['t', 'e', 'x', 't', '='] + self.text@);
            }
            let ghost before = views(parts@);
            parts.push(line);
            proof {
                assert(views(parts@) =~= before.push(seq!['t', 'e', 'x', 't', '='] + self.text@));
            }
        }
        proof {
            let fs = self.fields@;
            let text_line: Seq<Seq<char>> = if fs.len() == 0 && self.text@.len() > 0 {
                seq![seq!['t', 'e', 'x', 't', '='] + self.text@]
            } else {
                seq![]
            };
            assert(views(parts@) =~= seq![self.stable_id@] + field_lines(
                sort_strs(field_names(fs)),
                fs,
                ign,
            ) + text_line);
        }
        let imgs = chars_of_all(&self.image_urls);
        let sorted = sort_char_vecs(&imgs);
        let mut comma: Vec<char> = Vec::new();
        comma.push(',');
        let img_line = join_chars(&sorted, &comma);
        let ghost before = views(parts@);
        parts.push(img_line);
        let mut nl: Vec<char> = Vec::new();
        nl.push('\n');
        proof {
            assert(comma@ =~= seq![',']);
            assert(nl@ =~= seq!['\n']);
            let fs = self.fields@;
            let text_line: Seq<Seq<char>> = if fs.len() == 0 && self.text@.len() > 0 {
                seq![seq!['t', 'e', 'x', 't', '='] + self.text@]
            } else {
                seq![]
            };
            assert(views(parts@) =~= seq![self.stable_id@] + field_lines(
                sort_strs(field_names(fs)),
                fs,
                ign,
            ) + text_line + seq![join(sort_strs(self.image_urls@.map_values(|s: String| s@)), seq![','])]);
        }
        let out = join_chars(&parts, &nl);
        string_of(&out)
    }
}

/// Whether the chat-id list and token of a target can be used to send.
pub struct TelegramTarget {
    pub token: String,
    pub chat_ids: Vec<String>,
}

/// Mathematical model of a [`TelegramTarget`].
pub struct TargetView {
    pub token: String,
    pub chat_ids: Seq<String>,
}

impl View for TelegramTarget {
    type V = TargetView;

    open spec fn view(&self) -> TargetView {
        TargetView { token: self.token, chat_ids: self.chat_ids@ }
    }
}

impl Clone for TelegramTarget {
    fn clone(&self) -> (r: Self)
        ensures
            r@ == self@,
    {
        TelegramTarget { token: self.token.clone(), chat_ids: clone_strings(&self.chat_ids) }
    }
}

impl TelegramTarget {
    pub open spec fn valid(&self) -> bool {
        self.token@.len() > 0 && self.chat_ids@.len() > 0
    }

    /// A target is usable when it has a token and at least one chat id.
    pub fn is_valid(&self) -> (r: bool)
        ensures
            r == self.valid(),
    {
        !self.token.as_str().is_empty() && self.chat_ids.len() > 0
    }
}

/// The sending target stored with a queued notification.
pub struct NotificationTarget {
    pub token: String,
    pub chat_ids: Vec<String>,
}

/// Group (tag) settings. A source that follows its groups inherits the
/// history limit, notification target and extraction of its groups.
pub struct TagConfig {
    pub name: String,
    pub enabled: bool,
    pub notify_enabled: bool,
    /// History entries kept per source in this group (0: no limit of its own).
    pub history_limit: usize,
    /// Group notification target (`tgram://...`), empty when unset.
    pub notify_url: String,
    pub extract: Option<ExtractConfig>,
}

impl TagConfig {
    /// A group with the given name and default settings.
    pub fn named(name: String) -> (r: Self)
        ensures
            r.name == name,
            r.enabled,
            r.notify_enabled,
            r.history_limit == 0,
            r.notify_url@.len() == 0,
            r.extract is None,
    {
        TagConfig {
            name,
            enabled: true,
            notify_enabled: true,
            history_limit: 0,
            notify_url: String::new(),
            extract: None,
        }
    }
}

/// Result of comparing two extraction rounds.
pub struct DiffResult {
    pub changed: bool,
    pub change_type: Option<ChangeType>,
    pub diff_summary: String,
    pub fingerprint: String,
    pub old_items: Vec<Item>,
    pub new_items: Vec<Item>,
    pub dedupe_key: String,
}


/// A detected change, as stored.
pub struct ChangeEvent {
    pub id: i64,
    pub watchpoint_id: String,
    pub change_type: ChangeType,
    pub old_items_json: String,
    pub new_items_json: String,
    pub diff_summary: String,
    pub fingerprint: String,
    pub dedupe_key: String,
    /// JSON array of the image URLs to attach to the notification.
    pub image_urls_json: String,
    /// Unix seconds.
    pub detected_at: i64,
    pub read: bool,
    /// Screenshot path relative to the media directory.
    pub screenshot_path: Option<String>,
}

/// Scheduling state of a source. Times are unix seconds.
pub struct ScheduleState {
    pub source_id: String,
    pub next_due_at: i64,
    pub consecutive_failures: u32,
    pub consecutive_changes: u32,
    pub backoff_until: Option<i64>,
    pub last_success_at: Option<i64>,
    pub last_error: Option<String>,
    pub last_notified_fingerprint: Option<String>,
    pub last_notified_at: Option<i64>,
    /// Whether the current run of failures was already alerted.
    pub failure_notified: bool,
}

impl Clone for ScheduleState {
    fn clone(&self) -> (r: Self)
        ensures
            r == *self,
    {
        ScheduleState {
            source_id: self.source_id.clone(),
            next_due_at: self.next_due_at,
            consecutive_failures: self.consecutive_failures,
            consecutive_changes: self.consecutive_changes,
            backoff_until: self.backoff_until,
            last_success_at: self.last_success_at,
            last_error: crate::config::clone_opt_string(&self.last_error),
            last_notified_fingerprint: crate::config::clone_opt_string(
                &self.last_notified_fingerprint,
            ),
            last_notified_at: self.last_notified_at,
            failure_notified: self.failure_notified,
        }
    }
}

/// A queued change notification.
pub struct NotificationRecord {
    pub id: i64,
    pub event_id: i64,
    pub chat_id: String,
    /// JSON of the [`NotificationTarget`] to send to.
    pub target_json: String,
    pub message_ids_json: String,
    pub status: String,
    pub attempts: i32,
    pub next_retry_at: Option<i64>,
}

/// A queued system notification (failure alert), tied to no change event.
pub struct SystemNotification {
    pub id: i64,
    pub chat_id: String,
    pub target_json: String,
    pub text: String,
    pub status: String,
    pub attempts: i32,
    pub next_retry_at: Option<i64>,
}

/// A downloaded image in the media cache.
pub struct MediaCacheEntry {
    pub canonical_url: String,
    pub sha256: String,
    pub mime: String,
    pub size: i64,
    pub file_path: String,
    pub telegram_file_id: Option<String>,
    pub phash: Option<String>,
    pub fetched_at: i64,
}

/// An image found on a fetched page.
pub struct ImageRef {
    pub canonical_url: String,
    pub alt: String,
    pub width: Option<u32>,
    pub height: Option<u32>,
}

/// A fetched page or API response.
pub struct FetchedDocument {
    pub final_url: String,
    pub status: u16,
    pub text: String,
    pub html: Option<String>,
    pub images: Vec<ImageRef>,
    pub screenshot: Option<Vec<u8>>,
    pub etag: Option<String>,
    pub last_modified: Option<String>,
    pub content_sha256: String,
    pub normalized_fingerprint: String,
    pub duration_ms: u64,
    pub engine: String,
    /// The `Content-Type` response header.
    pub content_type: Option<String>,
    pub not_modified: bool,
}

/// A stored fetch result, the base of the next comparison.
pub struct SnapshotRecord {
    pub id: i64,
    pub watchpoint_id: String,
    pub fetched_at: i64,
    pub status: u16,
    pub etag: Option<String>,
    pub last_modified: Option<String>,
    pub content_sha256: String,
    pub normalized_fingerprint: String,
    pub items_json: String,
    pub duration_ms: u64,
    pub engine: String,
}

} // verus!
