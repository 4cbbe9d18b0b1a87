//! Change detection between two extraction rounds.
//!
//! A single whole-page item is compared by fingerprint. Lists of items are
//! paired by `stable_id` and reported as added (`+ id`), updated (`~ id`) or
//! removed (`- id`).
use vstd::prelude::*;

use crate::config::ChangeType;
use crate::models::{clone_items, item_fingerprint, item_views, DiffResult, Item, ItemView};
use crate::text::{
    append_chars, chars_of, join, join_chars, seq_eq, string_of, views,
};

verus! {

/// The last item of `items` whose id is `id` (a map built from the list keeps
/// the last entry of each id).
pub open spec fn last_with_id(items: Seq<ItemView>, id: Seq<char>) -> Option<ItemView>
    decreases items.len(),
{
    if items.len() == 0 {
        None
    } else if items.last().stable_id@ == id {
        Some(items.last())
    } else {
        last_with_id(items.drop_last(), id)
    }
}

/// Fingerprint with no field ignored.
pub open spec fn fp0(i: ItemView) -> Seq<char> {
    item_fingerprint(i, seq![])
}

/// `+ id` for each new item whose id the old list lacks, `~ id` for each new
/// item whose fingerprint differs from the old item of its id, in the order of
/// the new list.
pub open spec fn added_or_updated(new: Seq<ItemView>, old: Seq<ItemView>) -> Seq<(char, Seq<char>)>
    decreases new.len(),
{
    if new.len() == 0 {
        seq![]
    } else {
        let n = new[0];
        let rest = added_or_updated(new.drop_first(), old);
        match last_with_id(old, n.stable_id@) {
            None => seq![('+', n.stable_id@)] + rest,
            Some(o) => if fp0(o) != fp0(n) {
                seq![('~', n.stable_id@)] + rest
            } else {
                rest
            },
        }
    }
}

/// `- id` for each old item whose id the new list lacks, in the order of the
/// old list.
pub open spec fn removed(old: Seq<ItemView>, new: Seq<ItemView>) -> Seq<(char, Seq<char>)>
    decreases old.len(),
{
    if old.len() == 0 {
        seq![]
    } else {
        let rest = removed(old.drop_first(), new);
        if last_with_id(new, old[0].stable_id@) is None {
            seq![('-', old[0].stable_id@)] + rest
        } else {
            rest
        }
    }
}

/// Every reported change, additions and updates first.
pub open spec fn diff_entries(old: Seq<ItemView>, new: Seq<ItemView>) -> Seq<(char, Seq<char>)> {
    added_or_updated(new, old) + removed(old, new)
}

pub open spec fn has_mark(entries: Seq<(char, Seq<char>)>, m: char) -> bool {
    exists|i: int| 0 <= i < entries.len() && #[trigger] entries[i].0 == m
}

/// Kind of change of a non-empty list of entries: only additions is `New`,
/// only removals is `Removed`, anything else `Updated`.
pub open spec fn change_kind(entries: Seq<(char, Seq<char>)>) -> Option<ChangeType> {
    if entries.len() == 0 {
        None
    } else if has_mark(entries, '+') && !has_mark(entries, '~') && !has_mark(entries, '-') {
        Some(ChangeType::New)
    } else if has_mark(entries, '-') && !has_mark(entries, '+') && !has_mark(entries, '~') {
        Some(ChangeType::Removed)
    } else {
        Some(ChangeType::Updated)
    }
}

/// The summary of the entries: `m id` parts joined by `, `.
pub open spec fn summary_of(entries: Seq<(char, Seq<char>)>) -> Seq<char> {
    join(entries.map_values(|e: (char, Seq<char>)| seq![e.0, ' '] + e.1), seq![',', ' '])
}

/// `Debug` rendering of a change kind (empty for none).
pub open spec fn change_label(c: Option<ChangeType>) -> Seq<char> {
    match c {
        None => seq![],
        Some(ChangeType::New) => seq!['N', 'e', 'w'],
        Some(ChangeType::Updated) => seq!['U', 'p', 'd', 'a', 't', 'e', 'd'],
        Some(ChangeType::Removed) => seq!['R', 'e', 'm', 'o', 'v', 'e', 'd'],
    }
}

/// Summary text of a changed whole page.
pub open spec fn page_changed_text() -> Seq<char> {
    seq!['内', '容', '发', '生', '变', '化']
}

/// Whether the comparison is the whole-page one: a single new item and at most
/// one old item.
pub open spec fn single_page(old: Seq<ItemView>, new: Seq<ItemView>) -> bool {
    new.len() == 1 && old.len() <= 1
}

/// What [`diff`] returns, field by field.
pub open spec fn diff_spec(
    old_fp: Seq<char>,
    new_fp: Seq<char>,
    old: Seq<ItemView>,
    new: Seq<ItemView>,
    r: DiffResult,
) -> bool {
    &&& item_views(r.old_items@) == old
    &&& item_views(r.new_items@) == new
    &&& r.fingerprint@ == new_fp
    &&& if single_page(old, new) {
        let changed = old_fp != new_fp;
        &&& r.changed == changed
        &&& r.change_type == (if changed {
            Some(ChangeType::Updated)
        } else {
            None
        })
        &&& r.diff_summary@ == (if changed {
            page_changed_text()
        } else {
            seq![]
        })
        &&& r.dedupe_key@ == new_fp
    } else {
        let e = diff_entries(old, new);
        &&& r.changed == (e.len() > 0)
        &&& r.change_type == change_kind(e)
        &&& r.diff_summary@ == summary_of(e)
        &&& r.dedupe_key@ == change_label(change_kind(e)) + seq![':'] + new_fp
    }
}

fn last_index_with_id(items: &[Item], id: &Vec<char>) -> (r: Option<usize>)
    ensures
        match r {
            Some(k) => k < items.len() && last_with_id(item_views(items@), id@) == Some(
                items@[k as int]@,
            ),
            None => last_with_id(item_views(items@), id@) is None,
        },
{
    let mut k: usize = items.len();
    proof {
        assert(item_views(items@).take(k as int) =~= item_views(items@));
    }
    while k > 0
        invariant
            k <= items.len(),
            last_with_id(item_views(items@), id@) == last_with_id(
                item_views(items@).take(k as int),
                id@,
            ),
        decreases k,
    {
        let sid = chars_of(items[k - 1].stable_id.as_str());
        let ghost t = item_views(items@).take(k as int);
        proof {
            assert(t.last() == items@[k - 1]@);
            assert(t.drop_last() =~= item_views(items@).take(k - 1));
        }
        if seq_eq(&sid, id) {
            return Some(k - 1);
        }
        k -= 1;
    }
    None
}

fn label_chars(c: Option<ChangeType>) -> (r: Vec<char>)
    ensures
        r@ == change_label(c),
{
    let mut v: Vec<char> = Vec::new();
    match c {
        None => {},
        Some(ChangeType::New) => {
            v.push('N');
            v.push('e');
            v.push('w');
        },
        Some(ChangeType::Updated) => {
            v.push('U');
            v.push('p');
            v.push('d');
            v.push('a');
            v.push('t');
            v.push('e');
            v.push('d');
        },
        Some(ChangeType::Removed) => {
            v.push('R');
            v.push('e');
            v.push('m');
            v.push('o');
            v.push('v');
            v.push('e');
            v.push('d');
        },
    }
    proof {
        assert(v@ =~= change_label(c));
    }
    v
}

fn entry_text(m: char, id: &Vec<char>) -> (r: Vec<char>)
    ensures
        r@ == seq![m, ' '] + id@,
{
    let mut v: Vec<char> = Vec::new();
    v.push(m);
    v.push(' ');
    append_chars(&mut v, id);
    proof {
        assert(v@ =~= seq![m, ' '] + id@);
    }
    v
}

pub open spec fn entry_views(e: Seq<(char, Seq<char>)>) -> Seq<Seq<char>> {
    e.map_values(|x: (char, Seq<char>)| seq![x.0, ' '] + x.1)
}

/// Compares two extraction rounds. One new whole-page item (and at most one
/// old) is compared by fingerprint; otherwise items are paired by `stable_id`.
pub fn diff(old_fingerprint: &str, new_fingerprint: &str, old_items: &[Item], new_items: &[Item]) -> (r:
    DiffResult)
    ensures
        diff_spec(
            old_fingerprint@,
            new_fingerprint@,
            item_views(old_items@),
            item_views(new_items@),
            r,
        ),
{
    if new_items.len() == 1 && old_items.len() <= 1 {
        let a = chars_of(old_fingerprint);
        let b = chars_of(new_fingerprint);
        let changed = !seq_eq(&a, &b);
        let mut summary: Vec<char> = Vec::new();
        if changed {
            summary.push('内');
            summary.push('容');
            summary.push('发');
            summary.push('生');
            summary.push('变');
            summary.push('化');
        }
        proof {
            if changed {
                assert(summary@ =~= page_changed_text());
            } else {
                assert(summary@ =~= Seq::<char>::empty());
            }
        }
        return DiffResult {
            changed,
            change_type: if changed {
                Some(ChangeType::Updated)
            } else {
                None
            },
            diff_summary: string_of(&summary),
            fingerprint: string_of(&b),
            old_items: clone_items(old_items),
            new_items: clone_items(new_items),
            dedupe_key: string_of(&b),
        };
    }
    diff_items(old_items, new_items, new_fingerprint)
}

fn diff_items(old_items: &[Item], new_items: &[Item], fingerprint: &str) -> (r: DiffResult)
    ensures
        !single_page(item_views(old_items@), item_views(new_items@)) ==> diff_spec(
            seq![],
            fingerprint@,
            item_views(old_items@),
            item_views(new_items@),
            r,
        ),
{
    let ghost old = item_views(old_items@);
    let ghost new = item_views(new_items@);
    let mut parts: Vec<Vec<char>> = Vec::new();
    let ghost mut entries: Seq<(char, Seq<char>)> = seq![];
    let mut has_added = false;
    let mut has_updated = false;
    let mut has_removed = false;
    let no_ignore: Vec<String> = Vec::new();
    let mut i: usize = 0;
    proof {
        assert(new.skip(0) =~= new);
        assert(views(parts@) =~= entry_views(entries));
    }
    while i < new_items.len()
        invariant
            i <= new_items.len(),
            old == item_views(old_items@),
            new == item_views(new_items@),
            no_ignore@.len() == 0,
            entries + added_or_updated(new.skip(i as int), old) == added_or_updated(new, old),
            views(parts@) == entry_views(entries),
            has_added == has_mark(entries, '+'),
            has_updated == has_mark(entries, '~'),
            !has_mark(entries, '-'),
        decreases new_items.len() - i,
    {
        let ghost rest = new.skip(i as int);
        proof {
            assert(rest[0] == new_items@[i as int]@);
            assert(rest.drop_first() =~= new.skip(i + 1));
        }
        let id = chars_of(new_items[i].stable_id.as_str());
        match last_index_with_id(old_items, &id) {
            None => {
                let t = entry_text('+', &id);
                let ghost before = views(parts@);
                parts.push(t);
                proof {
                    let e0 = entries;
                    entries = entries.push(('+', id@));
                    assert(views(parts@) =~= before.push(t@));
                    assert(entry_views(entries) =~= entry_views(e0).push(seq!['+', ' '] + id@));
                    assert(entries + added_or_updated(new.skip(i + 1), old) =~= e0
                        + added_or_updated(rest, old));
                    assert(entries[entries.len() - 1].0 == '+');
                    assert forall|m: char| m != '+' implies (has_mark(entries, m) == has_mark(e0, m)) by {
                        if has_mark(entries, m) {
                            let k = choose|k: int| 0 <= k < entries.len() && #[trigger] entries[k].0 == m;
                            assert(e0[k].0 == m);
                        }
                        if has_mark(e0, m) {
                            let k = choose|k: int| 0 <= k < e0.len() && #[trigger] e0[k].0 == m;
                            assert(entries[k].0 == m);
                        }
                    }
                }
                has_added = true;
            },
            Some(k) => {
                let f_old = old_items[k].fingerprint(no_ignore.as_slice());
                let f_new = new_items[i].fingerprint(no_ignore.as_slice());
                let fo = chars_of(f_old.as_str());
                let fnw = chars_of(f_new.as_str());
                proof {
                    assert(no_ignore@.map_values(|s: String| s@) =~= Seq::<Seq<char>>::empty());
                }
                if !seq_eq(&fo, &fnw) {
                    let t = entry_text('~', &id);
                    let ghost before = views(parts@);
                    parts.push(t);
                    proof {
                        let e0 = entries;
                        entries = entries.push(('~', id@));
                        assert(views(parts@) =~= before.push(t@));
                        assert(entry_views(entries) =~= entry_views(e0).push(
                            seq!['~', ' '] + id@,
                        ));
                        assert(entries + added_or_updated(new.skip(i + 1), old) =~= e0
                            + added_or_updated(rest, old));
                        assert(entries[entries.len() - 1].0 == '~');
                        assert forall|m: char| m != '~' implies (has_mark(entries, m) == has_mark(e0, m)) by {
                            if has_mark(entries, m) {
                                let k = choose|k: int| 0 <= k < entries.len() && #[trigger] entries[k].0 == m;
                                assert(e0[k].0 == m);
                            }
                            if has_mark(e0, m) {
                                let k = choose|k: int| 0 <= k < e0.len() && #[trigger] e0[k].0 == m;
                                assert(entries[k].0 == m);
                            }
                        }
                    }
                    has_updated = true;
                }
            },
        }
        i += 1;
    }
    proof {
        assert(new.skip(i as int) =~= Seq::<ItemView>::empty());
        assert(entries + Seq::<(char, Seq<char>)>::empty() =~= entries);
        assert(entries == added_or_updated(new, old));
    }
    let ghost first = entries;
    let mut j: usize = 0;
    proof {
        assert(old.skip(0) =~= old);
        assert(entries =~= first + Seq::<(char, Seq<char>)>::empty());
    }
    while j < old_items.len()
        invariant
            j <= old_items.len(),
            old == item_views(old_items@),
            new == item_views(new_items@),
            first == added_or_updated(new, old),
            entries + removed(old.skip(j as int), new) == first + removed(old, new),
            views(parts@) == entry_views(entries),
            has_added == has_mark(entries, '+'),
            has_updated == has_mark(entries, '~'),
            has_removed == has_mark(entries, '-'),
        decreases old_items.len() - j,
    {
        let ghost rest = old.skip(j as int);
        proof {
            assert(rest[0] == old_items@[j as int]@);
            assert(rest.drop_first() =~= old.skip(j + 1));
        }
        let id = chars_of(old_items[j].stable_id.as_str());
        if last_index_with_id(new_items, &id).is_none() {
            let t = entry_text('-', &id);
            let ghost before = views(parts@);
            parts.push(t);
            proof {
                let e0 = entries;
                entries = entries.push(('-', id@));
                assert(views(parts@) =~= before.push(t@));
                assert(entry_views(entries) =~= entry_views(e0).push(seq!['-', ' '] + id@));
                assert(entries + removed(old.skip(j + 1), new) =~= e0 + removed(rest, new));
                assert(entries[entries.len() - 1].0 == '-');
                assert forall|m: char| m != '-' implies (has_mark(entries, m) == has_mark(e0, m)) by {
                    if has_mark(entries, m) {
                        let k = choose|k: int| 0 <= k < entries.len() && #[trigger] entries[k].0 == m;
                        assert(e0[k].0 == m);
                    }
                    if has_mark(e0, m) {
                        let k = choose|k: int| 0 <= k < e0.len() && #[trigger] e0[k].0 == m;
                        assert(entries[k].0 == m);
                    }
                }
            }
            has_removed = true;
        }
        j += 1;
    }
    proof {
        assert(old.skip(j as int) =~= Seq::<ItemView>::empty());
        assert(entries + Seq::<(char, Seq<char>)>::empty() =~= entries);
        assert(entries == diff_entries(old, new));
    }
    let changed = parts.len() > 0;
    let change_type = if !changed {
        None
    } else if has_added && !has_updated && !has_removed {
        Some(ChangeType::New)
    } else if has_removed && !has_added && !has_updated {
        Some(ChangeType::Removed)
    } else {
        Some(ChangeType::Updated)
    };
    let mut sep: Vec<char> = Vec::new();
    sep.push(',');
    sep.push(' ');
    proof {
        assert(sep@ =~= seq![',', ' ']);
    }
    let summary = join_chars(&parts, &sep);
    let mut key = label_chars(change_type);
    key.push(':');
    let fp = chars_of(fingerprint);
    append_chars(&mut key, &fp);
    proof {
        assert(key@ =~= change_label(change_kind(entries)) + seq![':'] + fingerprint@);
    }
    DiffResult {
        changed,
        change_type,
        diff_summary: string_of(&summary),
        fingerprint: string_of(&fp),
        old_items: clone_items(old_items),
        new_items: clone_items(new_items),
        dedupe_key: string_of(&key),
    }
}


/// No two items share an id.
pub open spec fn distinct_ids(v: Seq<ItemView>) -> bool {
    forall|i: int, j: int|
        0 <= i < j < v.len() ==> #[trigger] v[i].stable_id@ != #[trigger] v[j].stable_id@
}

proof fn lemma_last_with_own_id(v: Seq<ItemView>, k: int)
    requires
        distinct_ids(v),
        0 <= k < v.len(),
    ensures
        last_with_id(v, v[k].stable_id@) == Some(v[k]),
    decreases v.len(),
{
    if k < v.len() - 1 {
        assert(v[k].stable_id@ != v[v.len() - 1].stable_id@);
        assert(distinct_ids(v.drop_last())) by {
            assert forall|i: int, j: int| 0 <= i < j < v.drop_last().len() implies #[trigger] v.drop_last()[i].stable_id@
                != #[trigger] v.drop_last()[j].stable_id@ by {
                assert(v.drop_last()[i] == v[i] && v.drop_last()[j] == v[j]);
            }
        }
        lemma_last_with_own_id(v.drop_last(), k);
        assert(v.drop_last()[k] == v[k]);
    }
}

proof fn lemma_no_added_or_updated(v: Seq<ItemView>, i: int)
    requires
        distinct_ids(v),
        0 <= i <= v.len(),
    ensures
        added_or_updated(v.skip(i), v).len() == 0,
    decreases v.len() - i,
{
    if i < v.len() {
        let s = v.skip(i);
        assert(s[0] == v[i]);
        lemma_last_with_own_id(v, i);
        assert(s.drop_first() =~= v.skip(i + 1));
        lemma_no_added_or_updated(v, i + 1);
    }
}

proof fn lemma_no_removed(v: Seq<ItemView>, i: int)
    requires
        distinct_ids(v),
        0 <= i <= v.len(),
    ensures
        removed(v.skip(i), v).len() == 0,
    decreases v.len() - i,
{
    if i < v.len() {
        let s = v.skip(i);
        assert(s[0] == v[i]);
        lemma_last_with_own_id(v, i);
        assert(s.drop_first() =~= v.skip(i + 1));
        lemma_no_removed(v, i + 1);
    }
}

/// Comparing a round with itself reports no change, provided no two items
/// share an id (with a repeated id the later item stands for the id, so an
/// earlier item with other content reads as updated).
pub proof fn law_identical_rounds_unchanged(fp: Seq<char>, items: Seq<ItemView>, r: DiffResult)
    requires
        distinct_ids(items),
        diff_spec(fp, fp, items, items, r),
    ensures
        !r.changed,
        r.change_type is None,
        r.diff_summary@.len() == 0,
{
    if !single_page(items, items) {
        lemma_no_added_or_updated(items, 0);
        lemma_no_removed(items, 0);
        assert(items.skip(0) =~= items);
        assert(diff_entries(items, items).len() == 0);
        assert(entry_views(diff_entries(items, items)) =~= Seq::<Seq<char>>::empty());
    }
}

/// The kind of a change: `New` exactly when something was added and nothing
/// updated or removed, `Removed` exactly when something was removed and
/// nothing added or updated, `Updated` for any other change.
pub proof fn law_change_kind(old: Seq<ItemView>, new: Seq<ItemView>)
    ensures
        ({
            let e = diff_entries(old, new);
            &&& change_kind(e) == Some(ChangeType::New) <==> (has_mark(e, '+') && !has_mark(e, '~')
                && !has_mark(e, '-'))
            &&& change_kind(e) == Some(ChangeType::Removed) <==> (has_mark(e, '-') && !has_mark(
                e,
                '+',
            ) && !has_mark(e, '~'))
            &&& change_kind(e) is None <==> e.len() == 0
        }),
{
    let e = diff_entries(old, new);
    if has_mark(e, '+') {
        let k = choose|k: int| 0 <= k < e.len() && #[trigger] e[k].0 == '+';
    }
    if has_mark(e, '-') {
        let k = choose|k: int| 0 <= k < e.len() && #[trigger] e[k].0 == '-';
    }
}

} // verus!
