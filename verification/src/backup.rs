//! Backups of the remote content taken before each destructive deploy, and
//! the choice of the one `da undo` restores.
//!
//! Each deploy that cleans the remote first saves a `.da/backups/<id>.tar.gz`
//! with everything that was there. Ids are timestamps, so names sort in time
//! order; only the `KEEP` newest backups are kept.

use vstd::prelude::*;
use crate::order::{lemma_views_multiset, sort_by_key, sorted_by_key, views, Keyed};
use crate::paths::{file_name, file_name_spec, join, join_spec, last_component, lemma_last_slash_at, trim_end_matches, trim_end_text};
use crate::text::{chars_of, ends_with_chars, has_suffix, push_str, text_le};

verus! {

/// Where backups are written.
pub const BACKUP_DIR: &'static str = ".da/backups";

/// How many backups to keep; older ones are deleted.
pub const KEEP: usize = 5;

/// The extension of a backup file.
pub const BACKUP_EXT: &'static str = ".tar.gz";

/// The directory where backups are written.
pub fn backup_dir() -> (r: String)
    ensures
        r@ == BACKUP_DIR@,
{
    BACKUP_DIR.to_owned()
}

/// The path of the backup with id `id`.
pub open spec fn backup_path_spec(id: Seq<char>) -> Seq<char> {
    join_spec(BACKUP_DIR@, id + BACKUP_EXT@)
}

/// The path of the backup with id `id`: `.da/backups/<id>.tar.gz`.
pub fn backup_path(id: &str) -> (r: String)
    ensures
        r@ == backup_path_spec(id@),
{
    let mut name = String::new();
    push_str(&mut name, id);
    push_str(&mut name, BACKUP_EXT);
    join(BACKUP_DIR, name.as_str())
}

/// Where a snapshot of `len` bytes taken under `id` is saved: nowhere when it
/// is empty (the remote held nothing), otherwise the backup path of `id`.
pub fn save_path(len: usize, id: &str) -> (r: Option<String>)
    ensures
        len == 0 ==> r is None,
        len > 0 ==> (r matches Some(p) && p@ == backup_path_spec(id@)),
{
    if len == 0 {
        None
    } else {
        Some(backup_path(id))
    }
}

/// The backup paths for the directory entries `names`: the names ending in
/// `.tar.gz`, joined to the backup directory, in their order.
pub open spec fn backup_paths(names: Seq<Seq<char>>) -> Seq<Seq<char>>
    decreases names.len(),
{
    if names.len() == 0 {
        seq![]
    } else {
        let rest = backup_paths(names.drop_last());
        if has_suffix(names.last(), BACKUP_EXT@) {
            rest.push(join_spec(BACKUP_DIR@, names.last()))
        } else {
            rest
        }
    }
}

/// `s` runs from the newest backup (greatest name) to the oldest.
pub open spec fn newest_first(s: Seq<Seq<char>>) -> bool {
    forall|i: int, j: int| 0 <= i < j < s.len() ==> text_le(#[trigger] s[j], #[trigger] s[i])
}

/// The texts held by a vector of strings.
pub open spec fn texts(v: Seq<String>) -> Seq<Seq<char>> {
    views(v)
}

/// The existing backups, newest first, given the names of the entries of the
/// backup directory (none when the directory does not exist). Names are
/// timestamps that sort in time order.
pub fn list(names: Vec<String>) -> (r: Vec<String>)
    ensures
        newest_first(texts(r@)),
        texts(r@).to_multiset() == backup_paths(texts(names@)).to_multiset(),
{
    let ghost nv = texts(names@);
    let ext = chars_of(BACKUP_EXT);
    let mut found: Vec<String> = Vec::new();
    let mut i: usize = 0;
    while i < names.len()
        invariant
            i <= names.len(),
            nv == texts(names@),
            ext@ == BACKUP_EXT@,
            texts(found@) == backup_paths(nv.subrange(0, i as int)),
        decreases names.len() - i,
    {
        let nc = chars_of(names[i].as_str());
        proof {
            assert(nv.subrange(0, i + 1).drop_last() =~= nv.subrange(0, i as int));
            assert(nv.subrange(0, i + 1).last() == names@[i as int]@);
        }
        if ends_with_chars(&nc, &ext) {
            let p = join(BACKUP_DIR, names[i].as_str());
            found.push(p);
            assert(texts(found@) =~= backup_paths(nv.subrange(0, i + 1)));
        } else {
            assert(texts(found@) =~= backup_paths(nv.subrange(0, i + 1)));
        }
        i = i + 1;
    }
    assert(nv.subrange(0, names.len() as int) =~= nv);
    let sorted = sort_by_key(found);
    let ghost sv = sorted@;
    proof {
        lemma_views_multiset(sorted@, found@);
    }
    let mut r: Vec<String> = Vec::new();
    let mut k: usize = sorted.len();
    while k > 0
        invariant
            k <= sorted.len(),
            sorted@ == sv,
            sorted_by_key(sv),
            r@.len() == sv.len() - k,
            forall|m: int| 0 <= m < r@.len() ==> #[trigger] r@[m] == sv[sv.len() - 1 - m],
        decreases k,
    {
        k = k - 1;
        r.push(sorted[k].clone());
    }
    proof {
        assert(r@ =~= sv.reverse());
        sv.lemma_reverse_to_multiset();
        lemma_views_multiset(r@, sv);
        assert forall|i: int, j: int| 0 <= i < j < texts(r@).len() implies text_le(
            #[trigger] texts(r@)[j],
            #[trigger] texts(r@)[i],
        ) by {
            let a = sv.len() - 1 - j;
            let b = sv.len() - 1 - i;
            assert(r@[j] == sv[a] && r@[i] == sv[b]);
            assert(text_le(sv[a].key(), sv[b].key()));
        }
    }
    r
}

/// The backups to delete so that only the `keep` newest remain, given all
/// backups newest first.
pub fn prune(all: &Vec<String>, keep: usize) -> (r: Vec<String>)
    ensures
        keep <= all@.len() ==> r@ == all@.subrange(keep as int, all@.len() as int),
        keep > all@.len() ==> r@.len() == 0,
{
    let mut r: Vec<String> = Vec::new();
    let mut i: usize = keep;
    while i < all.len()
        invariant
            keep <= all@.len() ==> r@ == all@.subrange(keep as int, i as int),
            keep > all@.len() ==> r@.len() == 0 && i == keep,
            keep <= all@.len() ==> i <= all@.len(),
            keep <= i,
        decreases all.len() - i,
    {
        r.push(all[i].clone());
        i = i + 1;
        assert(r@ =~= all@.subrange(keep as int, i as int));
    }
    if keep <= all.len() {
        assert(i == all.len());
    }
    r
}

/// Why no backup can be restored.
#[derive(Debug)]
pub enum BackupError {
    /// No backup with the requested id exists.
    NotFound(String),
    /// There is no backup at all.
    NoBackups,
}

/// The backup `da undo` restores: the one with id `id` when given (its path
/// must exist, as `target_exists` tells), else the newest of `all` (all
/// backups, newest first).
pub fn resolve(id: Option<&str>, all: &Vec<String>, target_exists: bool) -> (r: Result<String, BackupError>)
    ensures
        match id {
            Some(i) => match r {
                Ok(p) => target_exists && p@ == backup_path_spec(i@),
                Err(BackupError::NotFound(e)) => !target_exists && e@ == i@,
                Err(BackupError::NoBackups) => false,
            },
            None => match r {
                Ok(p) => all@.len() > 0 && p@ == all@[0]@,
                Err(BackupError::NoBackups) => all@.len() == 0,
                Err(BackupError::NotFound(_)) => false,
            },
        },
{
    match id {
        Some(i) => {
            if target_exists {
                Ok(backup_path(i))
            } else {
                Err(BackupError::NotFound(i.to_owned()))
            }
        },
        None => {
            if all.len() > 0 {
                Ok(all[0].clone())
            } else {
                Err(BackupError::NoBackups)
            }
        },
    }
}

/// The id of a backup path: its file name without `.tar.gz` (empty when the
/// path has no file name).
pub open spec fn id_of_spec(path: Seq<char>) -> Seq<char> {
    match file_name_spec(path) {
        Some(n) => trim_end_text(n, BACKUP_EXT@),
        None => seq![],
    }
}

/// Extracts the id (name without `.tar.gz`) from a backup path.
pub fn id_of(path: &str) -> (r: String)
    ensures
        r@ == id_of_spec(path@),
{
    match file_name(path) {
        Some(n) => trim_end_matches(n.as_str(), BACKUP_EXT),
        None => String::new(),
    }
}

/// Pruning after a save keeps exactly the `keep` newest backups: every
/// backup deleted comes after (is older than or equal to) every backup kept.
pub proof fn law_prune_keeps_newest(all: Seq<Seq<char>>, keep: nat)
    requires
        newest_first(all),
        keep <= all.len(),
    ensures
        forall|i: int, j: int| 0 <= i < keep <= j < all.len() ==> text_le(#[trigger] all[j], #[trigger] all[i]),
{
}


/// Reading the id back from the path a backup is saved under gives the id it
/// was saved with (`da undo` names the backup it restores by that id), for an
/// id without `/` that does not itself end in `.tar.gz`.
pub proof fn law_id_of_backup_path(id: Seq<char>)
    requires
        forall|i: int| 0 <= i < id.len() ==> id[i] != '/',
        !has_suffix(id, BACKUP_EXT@),
    ensures
        id_of_spec(backup_path_spec(id)) == id,
{
    reveal_strlit(".da/backups");
    reveal_strlit(".tar.gz");
    let ext = BACKUP_EXT@;
    let base = BACKUP_DIR@;
    let n = id + ext;
    assert(ext.len() == 7);
    assert(n[0] != '/') by {
        if id.len() > 0 {
            assert(n[0] == id[0]);
        } else {
            assert(n[0] == ext[0]);
        }
    }
    let p = base + seq!['/'] + n;
    assert(backup_path_spec(id) == p);
    assert forall|i: int| base.len() < i < p.len() implies p[i] != '/' by {
        let j = i - base.len() - 1;
        assert(p[i] == n[j]);
        if j < id.len() {
            assert(n[j] == id[j]);
        } else {
            assert(n[j] == ext[j - id.len()]);
        }
    }
    lemma_last_slash_at(p, base.len() as int, p.len() as int);
    assert(p.subrange(base.len() as int + 1, p.len() as int) =~= n);
    assert(n != seq!['.']) by {
        assert(n.len() != seq!['.'].len());
    }
    assert(n != seq!['.', '.']) by {
        assert(n.len() != seq!['.', '.'].len());
    }
    assert(last_component(p, p.len() as int) == n);
    assert(file_name_spec(p) == Some(n));
    assert(n.subrange(n.len() - 7, n.len() as int) =~= ext);
    assert(n.subrange(0, n.len() - 7) =~= id);
    assert(trim_end_text(n, ext) == trim_end_text(id, ext));
}


/// `da undo` without `--id` restores the most recent backup: the first of the
/// backups `list` gives is one of the backup files of the directory, and no
/// backup file comes after it.
pub proof fn law_undo_picks_newest(names: Seq<Seq<char>>, listed: Seq<Seq<char>>)
    requires
        newest_first(listed),
        listed.to_multiset() == backup_paths(names).to_multiset(),
        listed.len() > 0,
    ensures
        backup_paths(names).contains(listed[0]),
        forall|x: Seq<char>| #[trigger] backup_paths(names).contains(x) ==> text_le(x, listed[0]),
{
    broadcast use vstd::seq_lib::group_to_multiset_ensures;
    assert(listed.contains(listed[0]));
    assert(listed.to_multiset().count(listed[0]) > 0);
    assert(backup_paths(names).to_multiset().count(listed[0]) > 0);
    assert forall|x: Seq<char>| #[trigger] backup_paths(names).contains(x) implies text_le(x, listed[0]) by {
        assert(listed.to_multiset().count(x) > 0);
        let i = choose|i: int| 0 <= i < listed.len() && listed[i] == x;
        if i > 0 {
            assert(text_le(listed[i], listed[0]));
        }
    }
}

} // verus!
