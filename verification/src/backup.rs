//! Names and paths of backups: which backup names and archive entries are
//! accepted, where a backup's files lie, and how backups are listed.
use vstd::prelude::*;

use crate::config::{join_path, path_join, str_to_string};
use crate::text::{chars_of, seq_eq, split, str_lt, string_of};

verus! {

/// Directory of the backups, under the state directory.
pub const BACKUP_SUBDIR: &'static str = "backups";

/// Name of the database file in a backup.
pub const DB_FILE_NAME: &'static str = "reading-steiner.db";

/// A backup name: a `YYYYMMDD-HHMMSS` time stamp, so 1 to 32 digits and dashes.
pub open spec fn valid_backup_name(name: Seq<char>) -> bool {
    &&& 0 < name.len() <= 32
    &&& forall|i: int|
        0 <= i < name.len() ==> crate::text::is_ascii_digit(#[trigger] name[i]) || name[i] == '-'
}

/// Whether a backup name is accepted ([`valid_backup_name`]); it keeps
/// `../` and other path tricks out of backup paths.
pub fn is_valid_backup_name(name: &str) -> (r: bool)
    ensures
        r == valid_backup_name(name@),
{
    let c = chars_of(name);
    if c.len() == 0 || c.len() > 32 {
        return false;
    }
    let mut i: usize = 0;
    while i < c.len()
        invariant
            i <= c.len(),
            c@ == name@,
            forall|j: int|
                0 <= j < i ==> crate::text::is_ascii_digit(#[trigger] c@[j]) || c@[j] == '-',
        decreases c.len() - i,
    {
        if !(('0' <= c[i] && c[i] <= '9') || c[i] == '-') {
            return false;
        }
        i += 1;
    }
    true
}

/// `\` read as `/`.
pub open spec fn slashes(s: Seq<char>) -> Seq<char> {
    s.map_values(|c: char| if c == '\\' { '/' } else { c })
}

/// Number of pieces that name something (not empty, not `.`).
pub open spec fn named_depth(parts: Seq<Seq<char>>) -> int
    decreases parts.len(),
{
    if parts.len() == 0 {
        0
    } else {
        named_depth(parts.drop_last()) + if parts.last() == seq!['.'] || parts.last().len() == 0 {
            0int
        } else {
            1
        }
    }
}

/// Whether an archive entry name is a safe relative path: no leading
/// separator, no `..` piece, and at least one named piece (`\` counts as `/`).
pub open spec fn zip_path_safe(name: Seq<char>) -> bool {
    let parts = split(slashes(name), '/');
    &&& !(name.len() > 0 && (name[0] == '/' || name[0] == '\\'))
    &&& name.len() > 0
    &&& forall|i: int| 0 <= i < parts.len() ==> #[trigger] parts[i] != seq!['.', '.']
    &&& named_depth(parts) > 0
}

/// Whether an archive entry may be extracted ([`zip_path_safe`]).
pub fn is_safe_zip_path(name: &str) -> (r: bool)
    ensures
        r == zip_path_safe(name@),
{
    let c = chars_of(name);
    if c.len() > 0 && (c[0] == '/' || c[0] == '\\') {
        return false;
    }
    if c.len() == 0 {
        return false;
    }
    let mut norm: Vec<char> = Vec::new();
    let mut i: usize = 0;
    while i < c.len()
        invariant
            i <= c.len(),
            c@ == name@,
            norm@ == slashes(c@.take(i as int)),
        decreases c.len() - i,
    {
        norm.push(if c[i] == '\\' { '/' } else { c[i] });
        i += 1;
        proof {
            assert(slashes(c@.take(i as int)) =~= slashes(c@.take(i - 1)).push(
                if c@[i - 1] == '\\' { '/' } else { c@[i - 1] },
            ));
        }
    }
    proof {
        assert(c@.take(c.len() as int) =~= c@);
    }
    let parts = crate::text::split_chars(&norm, '/');
    let ghost pv = crate::text::views(parts@);
    let mut depth: usize = 0;
    let mut k: usize = 0;
    proof {
        assert(pv.take(0) =~= Seq::<Seq<char>>::empty());
    }
    while k < parts.len()
        invariant
            k <= parts.len(),
            pv == crate::text::views(parts@),
            pv == split(slashes(name@), '/'),
            forall|j: int| 0 <= j < k ==> #[trigger] pv[j] != seq!['.', '.'],
            depth as int == named_depth(pv.take(k as int)),
            depth <= k,
        decreases parts.len() - k,
    {
        let p = &parts[k];
        proof {
            assert(pv.take(k + 1).drop_last() =~= pv.take(k as int));
            assert(pv.take(k + 1).last() == p@);
        }
        if p.len() == 2 && p[0] == '.' && p[1] == '.' {
            proof {
                assert(p@ =~= seq!['.', '.']);
            }
            return false;
        }
        proof {
            assert(p@ != seq!['.', '.']);
        }
        let unnamed = p.len() == 0 || (p.len() == 1 && p[0] == '.');
        proof {
            if p@ == seq!['.'] {
                assert(p@.len() == 1 && p@[0] == '.');
            }
            if p.len() == 1 && p@[0] == '.' {
                assert(p@ =~= seq!['.']);
            }
            assert(unnamed == (p@ == seq!['.'] || p@.len() == 0));
        }
        if !unnamed {
            depth += 1;
        }
        k += 1;
    }
    proof {
        assert(pv.take(parts.len() as int) =~= pv);
    }
    depth > 0
}

/// Archive entries skipped without a check: empty names and bare root
/// markers.
pub fn is_root_entry(name: &str) -> (r: bool)
    ensures
        r == (name@.len() == 0 || name@ == seq!['/'] || name@ == seq!['\\']),
{
    let c = chars_of(name);
    let r = c.len() == 0 || (c.len() == 1 && (c[0] == '/' || c[0] == '\\'));
    proof {
        if c.len() == 1 {
            if c@[0] == '/' {
                assert(c@ =~= seq!['/']);
            }
            if c@[0] == '\\' {
                assert(c@ =~= seq!['\\']);
            }
        }
    }
    r
}

/// The directory of a backup: `<state>/backups/<name>`.
pub open spec fn backup_dir_of(state_dir: Seq<char>, name: Seq<char>) -> Seq<char> {
    path_join(path_join(state_dir, BACKUP_SUBDIR@), name)
}

/// The directory of a named backup.
pub fn backup_dir(state_dir: &str, name: &str) -> (r: String)
    ensures
        r@ == backup_dir_of(state_dir@, name@),
{
    proof {
        reveal_strlit("backups");
    }
    let d = join_path(state_dir, BACKUP_SUBDIR);
    join_path(d.as_str(), name)
}

/// The archive of a backup: `<state>/backups/<name>.zip`.
pub fn backup_zip_path(state_dir: &str, name: &str) -> (r: String)
    ensures
        r@ == path_join(path_join(state_dir@, BACKUP_SUBDIR@), name@ + ".zip"@),
{
    proof {
        reveal_strlit("backups");
        reveal_strlit(".zip");
    }
    let d = join_path(state_dir, BACKUP_SUBDIR);
    let mut f = chars_of(name);
    let z = chars_of(".zip");
    crate::text::append_chars(&mut f, &z);
    let fs = string_of(&f);
    join_path(d.as_str(), fs.as_str())
}

/// The `n`-th candidate name of a backup stamped `base`: `base`, then
/// `base-1`, `base-2`, ...
pub open spec fn candidate_name(base: Seq<char>, n: nat) -> Seq<char> {
    if n == 0 {
        base
    } else {
        base + seq!['-'] + crate::text::nat_dec(n)
    }
}

/// The `n`-th candidate name of a backup stamped `base`.
pub fn backup_candidate(base: &str, n: u64) -> (r: String)
    ensures
        r@ == candidate_name(base@, n as nat),
{
    if n == 0 {
        return str_to_string(base);
    }
    let mut c = chars_of(base);
    c.push('-');
    let d = crate::text::u64_dec(n);
    crate::text::append_chars(&mut c, &d);
    string_of(&c)
}

/// Distinct positions give distinct candidate names.
pub proof fn lemma_candidates_distinct(base: Seq<char>, i: nat, j: nat)
    requires
        i != j,
    ensures
        candidate_name(base, i) != candidate_name(base, j),
{
    crate::text::lemma_nat_dec_value(i);
    crate::text::lemma_nat_dec_value(j);
    if i > 0 && j > 0 && candidate_name(base, i) == candidate_name(base, j) {
        let k: int = base.len() as int + 1;
        assert(candidate_name(base, i).skip(k) =~= crate::text::nat_dec(i));
        assert(candidate_name(base, j).skip(k) =~= crate::text::nat_dec(j));
    }
}

/// The first candidate name of a backup stamped `base` that none of the
/// entries `taken` of the backups directory has, as a path in `backups_dir`:
/// a restore made in the same second as another one gets a fresh directory.
pub fn unique_backup_dir(backups_dir: &str, base: &str, taken: &[String]) -> (r: String)
    ensures
        exists|n: nat|
            {
                &&& r@ == path_join(backups_dir@, #[trigger] candidate_name(base@, n))
                &&& !crate::config::has_tag(taken@, candidate_name(base@, n))
                &&& forall|k: nat|
                    k < n ==> crate::config::has_tag(taken@, #[trigger] candidate_name(base@, k))
            },
{
    let ghost names: Set<Seq<char>> = taken@.map_values(|t: String| t@).to_set();
    let ghost mut seen: Set<Seq<char>> = Set::empty();
    let mut n: u64 = 0;
    proof {
        taken@.map_values(|t: String| t@).lemma_cardinality_of_set();
    }
    loop
        invariant
            n <= taken.len(),
            names == taken@.map_values(|t: String| t@).to_set(),
            names.finite(),
            names.len() <= taken.len(),
            seen.finite(),
            seen.len() == n,
            seen.subset_of(names),
            forall|x: Seq<char>|
                #[trigger] seen.contains(x) ==> exists|k: nat| k < n && x == candidate_name(base@, k),
            forall|k: nat| k < n ==> crate::config::has_tag(taken@, #[trigger] candidate_name(base@, k)),
        decreases taken.len() - n,
    {
        let c = backup_candidate(base, n);
        let cv = chars_of(c.as_str());
        if !crate::config::tag_listed(taken, &cv) {
            return join_path(backups_dir, c.as_str());
        }
        proof {
            let i = choose|i: int| 0 <= i < taken@.len() && #[trigger] taken@[i]@ == c@;
            assert(taken@.map_values(|t: String| t@)[i] == c@);
            assert(names.contains(c@));
            if seen.contains(c@) {
                let k = choose|k: nat| k < n && c@ == candidate_name(base@, k);
                lemma_candidates_distinct(base@, k, n as nat);
            }
            let next = seen.insert(c@);
            assert(next.subset_of(names));
            vstd::set_lib::lemma_len_subset(next, names);
            assert forall|x: Seq<char>| #[trigger] next.contains(x) implies exists|k: nat|
                k < n + 1 && x == candidate_name(base@, k) by {
                if x == c@ {
                    assert(x == candidate_name(base@, n as nat));
                }
            }
            seen = next;
        }
        n = n + 1;
    }
}

/// The name of a backup directory: its last path component, empty when it
/// has none.
pub fn dir_name(dir: &str) -> (r: String)
    ensures
        r@ == (match path_file_name(dir@) {
            Some(n) => n,
            None => seq![],
        }),
{
    match file_name_of(dir) {
        Some(n) => n,
        None => String::new(),
    }
}

/// What `Path::with_extension` makes of a path; depends on the path alone.
pub uninterp spec fn path_with_extension(path: Seq<char>, ext: Seq<char>) -> Seq<char>;

/// `std::path::Path::with_extension`; named by [`path_with_extension`]. The
/// extension holds no path separator (`/`), on which newer std panics.
#[verifier::external_body]
fn with_extension(path: &str, ext: &str) -> (r: String)
    requires
        !ext@.contains('/'),
    ensures
        r@ == path_with_extension(path@, ext@),
{
    std::path::Path::new(path).with_extension(ext).to_string_lossy().into_owned()
}

/// The archive next to a backup directory: the directory with the `zip`
/// extension.
pub fn pack_backup_zip(backup_dir: &str) -> (r: String)
    ensures
        r@ == path_with_extension(backup_dir@, "zip"@),
{
    proof {
        reveal_strlit("zip");
        assert(!"zip"@.contains('/')) by {
            assert forall|i: int| 0 <= i < 3 implies "zip"@[i] != '/' by {}
        }
    }
    with_extension(backup_dir, "zip")
}

/// What `Path::file_name` gives of a path, as text.
pub uninterp spec fn path_file_name(path: Seq<char>) -> Option<Seq<char>>;

/// What `Path::parent` gives of a path.
pub uninterp spec fn path_parent(path: Seq<char>) -> Option<Seq<char>>;

/// `std::path::Path::file_name`, as UTF-8; named by [`path_file_name`].
#[verifier::external_body]
fn file_name_of(path: &str) -> (r: Option<String>)
    ensures
        match r {
            Some(n) => path_file_name(path@) == Some(n@),
            None => path_file_name(path@) is None,
        },
{
    std::path::Path::new(path).file_name().and_then(|s| s.to_str()).map(|s| s.to_string())
}

/// `std::path::Path::parent`; named by [`path_parent`].
#[verifier::external_body]
fn parent_of(path: &str) -> (r: Option<String>)
    ensures
        match r {
            Some(p) => path_parent(path@) == Some(p@),
            None => path_parent(path@) is None,
        },
{
    std::path::Path::new(path).parent().map(|p| p.to_string_lossy().into_owned())
}

/// What cleaning up a backup directory removes: the backup of the
/// directory's name in the state directory two levels up (empty when there
/// is none), when the name is a valid backup name; nothing otherwise.
pub open spec fn cleanup_target_of(backup_dir: Seq<char>) -> Option<(Seq<char>, Seq<char>)> {
    match path_file_name(backup_dir) {
        Some(n) => if valid_backup_name(n) {
            let state = match path_parent(backup_dir) {
                Some(p) => match path_parent(p) {
                    Some(q) => q,
                    None => seq![],
                },
                None => seq![],
            };
            Some((state, n))
        } else {
            None
        },
        None => None,
    }
}

/// The state directory and backup name a clean-up removes
/// ([`cleanup_target_of`]).
pub fn cleanup_backup_dir(backup_dir: &str) -> (r: Option<(String, String)>)
    ensures
        match r {
            Some((s, n)) => cleanup_target_of(backup_dir@) == Some((s@, n@)),
            None => cleanup_target_of(backup_dir@) is None,
        },
{
    let name = match file_name_of(backup_dir) {
        Some(n) => n,
        None => return None,
    };
    if !is_valid_backup_name(name.as_str()) {
        return None;
    }
    let state = match parent_of(backup_dir) {
        Some(p) => match parent_of(p.as_str()) {
            Some(q) => q,
            None => String::new(),
        },
        None => String::new(),
    };
    Some((state, name))
}

/// A backup of the list.
pub struct BackupInfo {
    pub name: String,
    /// Absolute path of the backup directory.
    pub path: String,
    pub has_zip: bool,
}

/// The listing entry of a backup directory, `has_zip` telling whether its
/// archive exists.
pub fn describe(dir: &str, has_zip: bool) -> (r: BackupInfo)
    ensures
        r.name@ == (match path_file_name(dir@) {
            Some(n) => n,
            None => seq![],
        }),
        r.path@ == dir@,
        r.has_zip == has_zip,
{
    BackupInfo { name: dir_name(dir), path: str_to_string(dir), has_zip }
}

/// `x` placed into a list sorted newest first, after every name not smaller
/// than its own.
pub open spec fn insert_desc(s: Seq<BackupInfo>, x: BackupInfo) -> Seq<BackupInfo>
    decreases s.len(),
{
    if s.len() == 0 {
        seq![x]
    } else if str_lt(s[0].name@, x.name@) {
        seq![x] + s
    } else {
        seq![s[0]] + insert_desc(s.drop_first(), x)
    }
}

/// The backups sorted by name, greatest (newest stamp) first; equal names
/// keep their order.
pub open spec fn sort_desc(s: Seq<BackupInfo>) -> Seq<BackupInfo>
    decreases s.len(),
{
    if s.len() == 0 {
        seq![]
    } else {
        insert_desc(sort_desc(s.drop_last()), s.last())
    }
}

/// Names never increase along the list.
pub open spec fn sorted_desc(s: Seq<BackupInfo>) -> bool {
    forall|i: int, j: int| 0 <= i < j < s.len() ==> !str_lt(#[trigger] s[i].name@, #[trigger] s[j].name@)
}

/// Where [`insert_desc`] places `x`.
pub open spec fn desc_pos(s: Seq<BackupInfo>, x: BackupInfo) -> int
    decreases s.len(),
{
    if s.len() == 0 || str_lt(s[0].name@, x.name@) {
        0
    } else {
        1 + desc_pos(s.drop_first(), x)
    }
}

proof fn lemma_insert_desc_pos(s: Seq<BackupInfo>, x: BackupInfo)
    ensures
        0 <= desc_pos(s, x) <= s.len(),
        insert_desc(s, x) == s.insert(desc_pos(s, x), x),
        forall|j: int| 0 <= j < desc_pos(s, x) ==> !str_lt(#[trigger] s[j].name@, x.name@),
        desc_pos(s, x) < s.len() ==> str_lt(s[desc_pos(s, x)].name@, x.name@),
    decreases s.len(),
{
    if s.len() == 0 {
        assert(s.insert(0, x) =~= seq![x]);
    } else if str_lt(s[0].name@, x.name@) {
        assert(s.insert(0, x) =~= seq![x] + s);
    } else {
        let t = s.drop_first();
        lemma_insert_desc_pos(t, x);
        let p = desc_pos(s, x);
        assert(seq![s[0]] + t.insert(p - 1, x) =~= s.insert(p, x));
        assert forall|j: int| 0 <= j < p implies !str_lt(#[trigger] s[j].name@, x.name@) by {
            if j > 0 {
                assert(s[j] == t[j - 1]);
            }
        }
        if p < s.len() {
            assert(s[p] == t[p - 1]);
        }
    }
}

proof fn lemma_insert_desc_sorted(s: Seq<BackupInfo>, x: BackupInfo)
    requires
        sorted_desc(s),
    ensures
        sorted_desc(insert_desc(s, x)),
        insert_desc(s, x).to_multiset() == s.to_multiset().insert(x),
{
    broadcast use vstd::seq_lib::group_to_multiset_ensures;

    lemma_insert_desc_pos(s, x);
    let p = desc_pos(s, x);
    let r = s.insert(p, x);
    assert forall|i: int, j: int| 0 <= i < j < r.len() implies !str_lt(
        #[trigger] r[i].name@,
        #[trigger] r[j].name@,
    ) by {
        if i == p {
            let y = s[j - 1];
            assert(r[j] == y);
            if str_lt(x.name@, y.name@) {
                crate::text::lemma_str_lt_transitive(s[p].name@, x.name@, y.name@);
                if j - 1 == p {
                    crate::text::lemma_str_lt_irreflexive(y.name@);
                } else {
                    assert(!str_lt(s[p].name@, s[j - 1].name@));
                }
            }
        } else if j == p {
            assert(r[i] == s[i]);
        } else if i < p && j < p {
            assert(r[i] == s[i] && r[j] == s[j]);
        } else if i < p {
            assert(r[i] == s[i] && r[j] == s[j - 1]);
        } else {
            assert(r[i] == s[i - 1] && r[j] == s[j - 1]);
        }
    }
}

/// Backups are listed newest first: along the listing the names (time
/// stamps) never increase, and the listing holds exactly the backups found.
pub proof fn law_backups_newest_first(s: Seq<BackupInfo>)
    ensures
        sorted_desc(sort_desc(s)),
        sort_desc(s).to_multiset() == s.to_multiset(),
    decreases s.len(),
{
    broadcast use vstd::seq_lib::group_to_multiset_ensures;

    if s.len() > 0 {
        law_backups_newest_first(s.drop_last());
        lemma_insert_desc_sorted(sort_desc(s.drop_last()), s.last());
        assert(s.drop_last().push(s.last()) =~= s);
    } else {
        assert(s.to_multiset() =~= vstd::multiset::Multiset::empty());
        assert(sort_desc(s).to_multiset() =~= vstd::multiset::Multiset::empty());
    }
}

fn insert_desc_exec(v: &Vec<BackupInfo>, x: BackupInfo) -> (r: Vec<BackupInfo>)
    ensures
        r@ == insert_desc(v@, x),
{
    let xn = chars_of(x.name.as_str());
    let mut k: usize = 0;
    let mut stop = false;
    while k < v.len() && !stop
        invariant
            k <= v.len(),
            xn@ == x.name@,
            forall|j: int| 0 <= j < k ==> !str_lt(v@[j].name@, x.name@),
            stop ==> k < v.len() && str_lt(v@[k as int].name@, x.name@),
        decreases v.len() - k, if stop { 0int } else { 1int },
    {
        let n = chars_of(v[k].name.as_str());
        if crate::text::lt_chars(&n, &xn) {
            stop = true;
        } else {
            k += 1;
        }
    }
    proof {
        lemma_insert_desc_at(v@, x, k as int);
    }
    let mut out: Vec<BackupInfo> = Vec::new();
    let mut i: usize = 0;
    while i < k
        invariant
            i <= k <= v.len(),
            out@ == v@.take(i as int),
        decreases k - i,
    {
        out.push(v[i].clone());
        i += 1;
        proof {
            assert(v@.take(i as int) =~= v@.take(i - 1).push(v@[i - 1]));
        }
    }
    out.push(x);
    let ghost head = out@;
    while i < v.len()
        invariant
            k <= i <= v.len(),
            head == v@.take(k as int).push(x),
            out@ == head + v@.subrange(k as int, i as int),
        decreases v.len() - i,
    {
        out.push(v[i].clone());
        i += 1;
        proof {
            assert(v@.subrange(k as int, i as int) =~= v@.subrange(k as int, i - 1).push(
                v@[i - 1],
            ));
        }
    }
    proof {
        assert(v@.subrange(k as int, v.len() as int) =~= v@.skip(k as int));
    }
    out
}

proof fn lemma_insert_desc_at(s: Seq<BackupInfo>, x: BackupInfo, k: int)
    requires
        0 <= k <= s.len(),
        forall|j: int| 0 <= j < k ==> !str_lt(s[j].name@, x.name@),
        k < s.len() ==> str_lt(s[k].name@, x.name@),
    ensures
        insert_desc(s, x) == s.take(k).push(x) + s.skip(k),
    decreases k,
{
    if k == 0 {
        if s.len() > 0 {
            assert(seq![x] + s =~= s.take(0).push(x) + s.skip(0));
        } else {
            assert(seq![x] =~= s.take(0).push(x) + s.skip(0));
        }
    } else {
        lemma_insert_desc_at(s.drop_first(), x, k - 1);
        assert(seq![s[0]] + (s.drop_first().take(k - 1).push(x) + s.drop_first().skip(k - 1))
            =~= s.take(k).push(x) + s.skip(k));
    }
}

impl Clone for BackupInfo {
    fn clone(&self) -> (r: Self)
        ensures
            r == *self,
    {
        BackupInfo { name: self.name.clone(), path: self.path.clone(), has_zip: self.has_zip }
    }
}

/// The backups newest first ([`sort_desc`]).
pub fn order_backups(infos: &[BackupInfo]) -> (r: Vec<BackupInfo>)
    ensures
        r@ == sort_desc(infos@),
{
    let mut out: Vec<BackupInfo> = Vec::new();
    let mut i: usize = 0;
    proof {
        assert(infos@.take(0) =~= Seq::<BackupInfo>::empty());
    }
    while i < infos.len()
        invariant
            i <= infos.len(),
            out@ == sort_desc(infos@.take(i as int)),
        decreases infos.len() - i,
    {
        proof {
            assert(infos@.take(i + 1).drop_last() =~= infos@.take(i as int));
            assert(infos@.take(i + 1).last() == infos@[i as int]);
        }
        out = insert_desc_exec(&out, infos[i].clone());
        i += 1;
    }
    proof {
        assert(infos@.take(infos.len() as int) =~= infos@);
    }
    out
}


// ---------------------------------------------------------------------------
// Restoring from an uploaded archive
// ---------------------------------------------------------------------------

/// An entry of a zip archive as the `zip` crate reads it: its name, whether
/// it is a directory, and its contents (`None` when they could not be read).
pub struct ZipEntry {
    pub name: String,
    pub is_dir: bool,
    pub data: Option<Vec<u8>>,
}

/// The plain values of a [`ZipEntry`], `None` for an entry whose header
/// could not be read.
pub open spec fn zip_entry_view(e: Option<ZipEntry>) -> Option<(Seq<char>, bool, Option<Seq<u8>>)> {
    match e {
        Some(z) => Some((
            z.name@,
            z.is_dir,
            match z.data {
                Some(d) => Some(d@),
                None => None,
            },
        )),
        None => None,
    }
}

pub open spec fn zip_entry_views(v: Seq<Option<ZipEntry>>) -> Seq<Option<(Seq<char>, bool, Option<Seq<u8>>)>> {
    v.map_values(|e: Option<ZipEntry>| zip_entry_view(e))
}

/// The entries, in archive order, that the `zip` crate reads from the bytes
/// of an archive (`ZipArchive::new`, then `by_index` and reading each entry),
/// or `None` when the bytes are not an archive.
pub uninterp spec fn zip_entries(bytes: Seq<u8>) -> Option<Seq<Option<(Seq<char>, bool, Option<Seq<u8>>)>>>;

/// `zip::ZipArchive::new` on the bytes, then for each index `by_index`
/// (`None` on an error), `name`, `is_dir` and `read_to_end` (`None` on an
/// error); named by [`zip_entries`].
#[verifier::external_body]
fn read_zip(bytes: &[u8]) -> (r: Option<Vec<Option<ZipEntry>>>)
    ensures
        match zip_entries(bytes@) {
            None => r is None,
            Some(es) => r matches Some(v) && zip_entry_views(v@) == es,
        },
{
    let mut archive = zip::ZipArchive::new(std::io::Cursor::new(bytes)).ok()?;
    let n = archive.len();
    Some((0..n).map(|i| archive.by_index(i).ok().map(|mut f| {
        let (name, is_dir, mut buf) = (f.name().to_string(), f.is_dir(), Vec::new());
        let data = std::io::Read::read_to_end(&mut f, &mut buf).ok().map(|_| buf);
        ZipEntry { name, is_dir, data }
    })).collect())
}

/// A file or directory to write when restoring from an archive.
pub struct RestoreFile {
    pub name: String,
    pub is_dir: bool,
    pub data: Vec<u8>,
}

pub open spec fn restore_file_view(f: RestoreFile) -> (Seq<char>, bool, Seq<u8>) {
    (f.name@, f.is_dir, f.data@)
}

pub open spec fn restore_file_views(v: Seq<RestoreFile>) -> Seq<(Seq<char>, bool, Seq<u8>)> {
    v.map_values(|f: RestoreFile| restore_file_view(f))
}

/// Why an uploaded archive is refused.
#[derive(Debug, Clone, PartialEq, Eq)]
pub enum ExtractError {
    /// The bytes are not a zip archive.
    NotZip,
    /// No entry is the backup database.
    NoDatabase,
    /// An entry's header or contents could not be read.
    ReadFailed,
    /// The first entry whose path is not a safe relative path.
    UnsafePath(String),
}

/// Mathematical model of an [`ExtractError`].
pub enum ExtractFault {
    NotZip,
    NoDatabase,
    ReadFailed,
    UnsafePath(Seq<char>),
}

pub open spec fn extract_fault(e: ExtractError) -> ExtractFault {
    match e {
        ExtractError::NotZip => ExtractFault::NotZip,
        ExtractError::NoDatabase => ExtractFault::NoDatabase,
        ExtractError::ReadFailed => ExtractFault::ReadFailed,
        ExtractError::UnsafePath(n) => ExtractFault::UnsafePath(n@),
    }
}

/// Whether a readable entry is the backup database.
pub open spec fn has_db_entry(es: Seq<Option<(Seq<char>, bool, Option<Seq<u8>>)>>) -> bool {
    exists|i: int| 0 <= i < es.len() && ((#[trigger] es[i]) matches Some(e) && e.0 == DB_FILE_NAME@)
}

/// The entries written, front to back: an unreadable header stops with
/// `ReadFailed`; a root entry (empty, `/`, `\`) is skipped; an unsafe path
/// stops with `UnsafePath`; unreadable contents stop with `ReadFailed`.
pub open spec fn extraction(es: Seq<Option<(Seq<char>, bool, Option<Seq<u8>>)>>) -> Result<
    Seq<(Seq<char>, bool, Seq<u8>)>,
    ExtractFault,
>
    decreases es.len(),
{
    if es.len() == 0 {
        Ok(Seq::empty())
    } else {
        match es[0] {
            None => Err(ExtractFault::ReadFailed),
            Some(e) => if e.0.len() == 0 || e.0 == seq!['/'] || e.0 == seq!['\\'] {
                extraction(es.drop_first())
            } else if !zip_path_safe(e.0) {
                Err(ExtractFault::UnsafePath(e.0))
            } else {
                match e.2 {
                    None => Err(ExtractFault::ReadFailed),
                    Some(d) => match extraction(es.drop_first()) {
                        Ok(rest) => Ok(seq![(e.0, e.1, d)] + rest),
                        Err(f) => Err(f),
                    },
                }
            },
        }
    }
}

/// What restoring from the bytes of an uploaded archive writes: `NotZip`
/// when they are no archive, `NoDatabase` when no entry is the database,
/// else [`extraction`] of its entries.
pub open spec fn planned_extraction(bytes: Seq<u8>) -> Result<Seq<(Seq<char>, bool, Seq<u8>)>, ExtractFault> {
    match zip_entries(bytes) {
        None => Err(ExtractFault::NotZip),
        Some(es) => if !has_db_entry(es) {
            Err(ExtractFault::NoDatabase)
        } else {
            extraction(es)
        },
    }
}

proof fn lemma_extraction_step(es: Seq<Option<(Seq<char>, bool, Option<Seq<u8>>)>>, i: int)
    requires
        0 <= i < es.len(),
    ensures
        es.skip(i)[0] == es[i],
        es.skip(i).drop_first() =~= es.skip(i + 1),
{
}

fn copy_bytes(d: &Vec<u8>) -> (r: Vec<u8>)
    ensures
        r@ == d@,
{
    let mut out: Vec<u8> = Vec::new();
    let mut i: usize = 0;
    while i < d.len()
        invariant
            i <= d.len(),
            out@ == d@.take(i as int),
        decreases d.len() - i,
    {
        out.push(d[i]);
        i += 1;
        proof {
            assert(d@.take(i as int) =~= d@.take(i - 1).push(d@[i - 1]));
        }
    }
    proof {
        assert(d@.take(d.len() as int) =~= d@);
    }
    out
}

/// Plans a restore from the bytes of an uploaded archive
/// ([`planned_extraction`]): the files and directories to write, in archive
/// order, or why the archive is refused.
pub fn plan_extraction(bytes: &[u8]) -> (r: Result<Vec<RestoreFile>, ExtractError>)
    ensures
        match r {
            Ok(v) => planned_extraction(bytes@) == Ok::<_, ExtractFault>(restore_file_views(v@)),
            Err(e) => planned_extraction(bytes@) == Err::<Seq<(Seq<char>, bool, Seq<u8>)>, _>(
                extract_fault(e),
            ),
        },
{
    let entries = match read_zip(bytes) {
        Some(v) => v,
        None => return Err(ExtractError::NotZip),
    };
    let ghost es = zip_entry_views(entries@);
    let mut has_db = false;
    let mut i: usize = 0;
    while i < entries.len()
        invariant
            i <= entries.len(),
            es == zip_entry_views(entries@),
            has_db <==> exists|j: int|
                0 <= j < i && ((#[trigger] es[j]) matches Some(e) && e.0 == DB_FILE_NAME@),
        decreases entries.len() - i,
    {
        match &entries[i] {
            Some(e) => {
                if seq_eq(&chars_of(e.name.as_str()), &chars_of(DB_FILE_NAME)) {
                    has_db = true;
                }
            },
            None => {},
        }
        proof {
            assert(es[i as int] == zip_entry_view(entries@[i as int]));
        }
        i += 1;
    }
    if !has_db {
        return Err(ExtractError::NoDatabase);
    }
    let mut out: Vec<RestoreFile> = Vec::new();
    let mut k: usize = 0;
    proof {
        assert(es.skip(0) =~= es);
    }
    while k < entries.len()
        invariant
            k <= entries.len(),
            es == zip_entry_views(entries@),
            zip_entries(bytes@) == Some(es),
            has_db_entry(es),
            extraction(es) == (match extraction(es.skip(k as int)) {
                Ok(rest) => Ok(restore_file_views(out@) + rest),
                Err(f) => Err(f),
            }),
        decreases entries.len() - k,
    {
        proof {
            lemma_extraction_step(es, k as int);
            assert(es[k as int] == zip_entry_view(entries@[k as int]));
        }
        match &entries[k] {
            None => {
                return Err(ExtractError::ReadFailed);
            },
            Some(e) => {
                if is_root_entry(e.name.as_str()) {
                    proof {
                        assert(extraction(es.skip(k as int)) == extraction(es.skip(k + 1)));
                    }
                } else if !is_safe_zip_path(e.name.as_str()) {
                    let n = str_to_string(e.name.as_str());
                    proof {
                        assert(extraction(es.skip(k as int)) == Err::<Seq<(Seq<char>, bool, Seq<u8>)>, _>(
                            ExtractFault::UnsafePath(e.name@),
                        ));
                    }
                    return Err(ExtractError::UnsafePath(n));
                } else {
                    match &e.data {
                        None => {
                            proof {
                                assert(extraction(es.skip(k as int)) == Err::<Seq<(Seq<char>, bool, Seq<u8>)>, _>(
                                    ExtractFault::ReadFailed,
                                ));
                            }
                            return Err(ExtractError::ReadFailed);
                        },
                        Some(d) => {
                            let f = RestoreFile {
                                name: str_to_string(e.name.as_str()),
                                is_dir: e.is_dir,
                                data: copy_bytes(d),
                            };
                            let ghost before = out@;
                            out.push(f);
                            proof {
                                assert(restore_file_views(out@) =~= restore_file_views(before)
                                    + seq![restore_file_view(f)]);
                                assert(restore_file_view(f) == (e.name@, e.is_dir, d@));
                                match extraction(es.skip(k + 1)) {
                                    Ok(rest) => {
                                        assert(extraction(es.skip(k as int)) == Ok::<_, ExtractFault>(
                                            seq![restore_file_view(f)] + rest,
                                        ));
                                        assert(restore_file_views(before) + (seq![restore_file_view(f)]
                                            + rest) =~= restore_file_views(out@) + rest);
                                    },
                                    Err(x) => {
                                        assert(extraction(es.skip(k as int)) == Err::<Seq<(Seq<char>, bool, Seq<u8>)>, _>(x));
                                    },
                                }
                            }
                        },
                    }
                }
            },
        }
        k += 1;
    }
    proof {
        assert(es.skip(entries.len() as int) =~= Seq::<Option<(Seq<char>, bool, Option<Seq<u8>>)>>::empty());
        assert(restore_file_views(out@) + Seq::<(Seq<char>, bool, Seq<u8>)>::empty() =~= restore_file_views(out@));
    }
    Ok(out)
}

} // verus!
