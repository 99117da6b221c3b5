//! Comparison of the local hash package with the remote one: which files
//! are new, which must be updated, moved or deleted.
use vstd::prelude::*;

use crate::local::{is_plain_path, plain_path};

use crate::packages::{
    bytes_views, distinct_pairs, distinct_paths, pair_set, pair_views, path_set, str_views,
    GroupedFiles, HashPackage, PackageView,
};

verus! {

/// The map that pairs `keys[i]` with `vals[i]` for `i < n`, taking the
/// records in order so that a later record of a key replaces an earlier one.
pub open spec fn index_map<K, V>(keys: Seq<K>, vals: Seq<V>, n: nat) -> Map<K, V>
    decreases n,
{
    if n == 0 {
        Map::empty()
    } else {
        index_map(keys, vals, (n - 1) as nat).insert(keys[n - 1], vals[n - 1])
    }
}

/// `i` is the last position below `n` at which `keys` holds `keys[i]`.
pub open spec fn last_occurrence<K>(keys: Seq<K>, n: int, i: int) -> bool {
    &&& 0 <= i < n
    &&& forall|j: int| i < j < n ==> keys[j] != keys[i]
}

impl PackageView {
    /// The hash that the package records for each path.
    pub open spec fn path_to_hash(self) -> Map<Seq<char>, Seq<u8>> {
        index_map(self.paths, self.hashes, self.num_records())
    }

    /// The path that the package records for each hash.
    pub open spec fn hash_to_path(self) -> Map<Seq<u8>, Seq<char>> {
        index_map(self.hashes, self.paths, self.num_records())
    }
}

/// Remote paths that have no local file.
pub open spec fn spec_new_files(local: PackageView, remote: PackageView) -> Set<Seq<char>> {
    remote.path_to_hash().dom().difference(local.path_to_hash().dom())
}

/// Paths known on both sides, with different hashes.
pub open spec fn spec_files_to_update(local: PackageView, remote: PackageView) -> Set<
    Seq<char>,
> {
    Set::new(
        |p: Seq<char>|
            {
                &&& remote.path_to_hash().dom().contains(p)
                &&& local.path_to_hash().dom().contains(p)
                &&& local.path_to_hash()[p] != remote.path_to_hash()[p]
            },
    )
}

/// Local paths that the remote side does not have.
pub open spec fn spec_files_to_delete(local: PackageView, remote: PackageView) -> Set<Seq<char>> {
    local.path_to_hash().dom().difference(remote.path_to_hash().dom())
}

/// The move that a hash known on both sides asks for, if its paths differ.
pub open spec fn move_of_hash(local: PackageView, remote: PackageView, h: Seq<u8>) -> bool {
    &&& local.hash_to_path().dom().contains(h)
    &&& remote.hash_to_path().dom().contains(h)
    &&& local.hash_to_path()[h] != remote.hash_to_path()[h]
}

/// Pairs `(local path, remote path)` of the same hash, where the paths differ.
pub open spec fn spec_files_to_move(local: PackageView, remote: PackageView) -> Set<
    (Seq<char>, Seq<char>),
> {
    Set::new(
        |pair: (Seq<char>, Seq<char>)|
            exists|h: Seq<u8>|
                #![trigger local.hash_to_path()[h], remote.hash_to_path()[h]]
                move_of_hash(local, remote, h) && pair == (
                    local.hash_to_path()[h],
                    remote.hash_to_path()[h],
                ),
    )
}

/// Facts about `index_map`: which keys it holds, and the value of a key
/// whose last record below `n` is at `i`.
pub proof fn lemma_index_map<K, V>(keys: Seq<K>, vals: Seq<V>, n: nat, k: K)
    requires
        n <= keys.len(),
        n <= vals.len(),
    ensures
        index_map(keys, vals, n).dom().contains(k) <==> exists|j: int|
            0 <= j < n && #[trigger] keys[j] == k,
        forall|i: int|
            last_occurrence(keys, n as int, i) && keys[i] == k ==> index_map(keys, vals, n)[k]
                == vals[i],
    decreases n,
{
    if n > 0 {
        lemma_index_map(keys, vals, (n - 1) as nat, k);
        if keys[n - 1] != k {
            assert forall|i: int|
                last_occurrence(keys, n as int, i) && keys[i] == k implies last_occurrence(
                keys,
                (n - 1) as int,
                i,
            ) by {
                if i == n - 1 {
                }
            }
        }
    }
}

/// A key that occurs below `n` has a last occurrence below `n`.
pub proof fn lemma_last_occurrence_exists<K>(keys: Seq<K>, n: int, k: K) -> (i: int)
    requires
        n <= keys.len(),
        exists|j: int| 0 <= j < n && #[trigger] keys[j] == k,
    ensures
        last_occurrence(keys, n, i),
        keys[i] == k,
    decreases n,
{
    if keys[n - 1] == k {
        n - 1
    } else {
        let j = choose|j: int| 0 <= j < n && #[trigger] keys[j] == k;
        assert(j < n - 1);
        lemma_last_occurrence_exists(keys, n - 1, k)
    }
}

/// Byte sequences compared element by element.
pub fn bytes_eq(a: &Vec<u8>, b: &Vec<u8>) -> (r: bool)
    ensures
        r == (a@ == b@),
{
    if a.len() != b.len() {
        return false;
    }
    let mut i: usize = 0;
    while i < a.len()
        invariant
            a@.len() == b@.len(),
            0 <= i <= a@.len(),
            forall|j: int| 0 <= j < i ==> a@[j] == b@[j],
        decreases a@.len() - i,
    {
        if a[i] != b[i] {
            return false;
        }
        i += 1;
    }
    assert(a@ =~= b@);
    true
}

/// The last position below `n` whose path is `key`.
fn last_path_index(paths: &Vec<String>, n: usize, key: &String) -> (r: Option<usize>)
    requires
        n <= paths@.len(),
    ensures
        match r {
            Some(i) => last_occurrence(str_views(paths@), n as int, i as int) && paths@[i as int]@
                == key@,
            None => forall|j: int| 0 <= j < n ==> paths@[j]@ != key@,
        },
{
    let mut i: usize = n;
    while i > 0
        invariant
            i <= n <= paths@.len(),
            forall|j: int| i <= j < n ==> paths@[j]@ != key@,
        decreases i,
    {
        i -= 1;
        if paths[i] == *key {
            return Some(i);
        }
    }
    None
}

/// The last position below `n` whose hash is `key`.
fn last_hash_index(hashes: &Vec<Vec<u8>>, n: usize, key: &Vec<u8>) -> (r: Option<usize>)
    requires
        n <= hashes@.len(),
    ensures
        match r {
            Some(i) => last_occurrence(bytes_views(hashes@), n as int, i as int)
                && hashes@[i as int]@ == key@,
            None => forall|j: int| 0 <= j < n ==> hashes@[j]@ != key@,
        },
{
    let mut i: usize = n;
    while i > 0
        invariant
            i <= n <= hashes@.len(),
            forall|j: int| i <= j < n ==> hashes@[j]@ != key@,
        decreases i,
    {
        i -= 1;
        if bytes_eq(&hashes[i], key) {
            return Some(i);
        }
    }
    None
}

/// Whether a vector of pairs holds the pair `(a, b)`.
fn contains_pair(v: &Vec<(String, String)>, a: &String, b: &String) -> (r: bool)
    ensures
        r == pair_views(v@).contains((a@, b@)),
{
    let mut i: usize = 0;
    while i < v.len()
        invariant
            0 <= i <= v@.len(),
            forall|j: int| 0 <= j < i ==> pair_views(v@)[j] != (a@, b@),
        decreases v@.len() - i,
    {
        if v[i].0 == *a && v[i].1 == *b {
            assert(pair_views(v@)[i as int] == (a@, b@));
            return true;
        }
        i += 1;
    }
    false
}

fn num_records(pkg: &HashPackage) -> (n: usize)
    ensures
        n == pkg@.num_records(),
{
    if pkg.file_paths.len() <= pkg.file_hashes.len() {
        pkg.file_paths.len()
    } else {
        pkg.file_hashes.len()
    }
}


/// Some position below `i` is the last occurrence below `n` of key `k`.
pub open spec fn seen_last<K>(keys: Seq<K>, n: int, i: int, k: K) -> bool {
    exists|j: int| j < i && #[trigger] last_occurrence(keys, n, j) && keys[j] == k
}

/// Appending `x` to a sequence adds `x` to what it contains; appending an
/// element it lacks keeps it free of duplicates.
pub proof fn lemma_push_contains<A>(s: Seq<A>, x: A)
    ensures
        forall|y: A| #[trigger] s.push(x).contains(y) <==> (s.contains(y) || y == x),
        s.no_duplicates() && !s.contains(x) ==> s.push(x).no_duplicates(),
{
    assert forall|y: A| #[trigger] s.push(x).contains(y) implies (s.contains(y) || y == x) by {
        let k = choose|k: int| 0 <= k < s.push(x).len() && s.push(x)[k] == y;
        if k < s.len() {
            assert(s[k] == y);
        }
    }
    assert forall|y: A| (s.contains(y) || y == x) implies #[trigger] s.push(x).contains(y) by {
        if y == x {
            assert(s.push(x)[s.len() as int] == y);
        } else {
            let k = choose|k: int| 0 <= k < s.len() && s[k] == y;
            assert(s.push(x)[k] == y);
        }
    }
    if s.no_duplicates() && !s.contains(x) {
        assert forall|a: int, b: int|
            0 <= a < s.push(x).len() && 0 <= b < s.push(x).len() && a != b implies s.push(x)[a]
            != s.push(x)[b] by {
            if a == s.len() {
                assert(s[b] == s.push(x)[b]);
            } else if b == s.len() {
                assert(s[a] == s.push(x)[a]);
            }
        }
    }
}

/// Passing position `i` adds its key if `i` is its last occurrence.
pub proof fn lemma_seen_step<K>(keys: Seq<K>, n: int, i: int)
    ensures
        forall|k: K|
            #[trigger] seen_last(keys, n, i + 1, k) <==> (seen_last(keys, n, i, k) || (
            last_occurrence(keys, n, i) && keys[i] == k)),
{
    assert forall|k: K| #[trigger]
        seen_last(keys, n, i + 1, k) implies (seen_last(keys, n, i, k) || (last_occurrence(
        keys,
        n,
        i,
    ) && keys[i] == k)) by {
        let j = choose|j: int| j < i + 1 && #[trigger] last_occurrence(keys, n, j) && keys[j] == k;
        if j < i {
            assert(seen_last(keys, n, i, k));
        }
    }
    assert forall|k: K|
        (seen_last(keys, n, i, k) || (last_occurrence(keys, n, i) && keys[i] == k)) implies #[trigger] seen_last(
        keys,
        n,
        i + 1,
        k,
    ) by {
        if seen_last(keys, n, i, k) {
            let j = choose|j: int| j < i && #[trigger] last_occurrence(keys, n, j) && keys[j] == k;
            assert(j < i + 1);
        } else {
            assert(last_occurrence(keys, n, i));
        }
    }
}

/// Having passed every position below `n`, every key of the map was seen.
pub proof fn lemma_seen_all<K, V>(keys: Seq<K>, vals: Seq<V>, n: nat, k: K)
    requires
        n <= keys.len(),
        n <= vals.len(),
    ensures
        seen_last(keys, n as int, n as int, k) <==> index_map(keys, vals, n).dom().contains(k),
{
    lemma_index_map(keys, vals, n, k);
    if index_map(keys, vals, n).dom().contains(k) {
        let i = lemma_last_occurrence_exists(keys, n as int, k);
        assert(last_occurrence(keys, n as int, i));
    }
}

/// Some position `j` below `i` is the last record of its hash in `local`,
/// and that hash asks for the move `pair`.
pub open spec fn moves_seen(
    local: PackageView,
    remote: PackageView,
    i: int,
    pair: (Seq<char>, Seq<char>),
) -> bool {
    exists|j: int|
        j < i && #[trigger] last_occurrence(local.hashes, local.num_records() as int, j)
            && move_of_hash(local, remote, local.hashes[j]) && pair == (
            local.hash_to_path()[local.hashes[j]],
            remote.hash_to_path()[local.hashes[j]],
        )
}

/// Passing position `i` adds the move of its hash, if `i` is the hash's last
/// record and the hash asks for a move.
pub proof fn lemma_moves_seen_step(local: PackageView, remote: PackageView, i: int)
    ensures
        forall|pair: (Seq<char>, Seq<char>)|
            #[trigger] moves_seen(local, remote, i + 1, pair) <==> (moves_seen(
                local,
                remote,
                i,
                pair,
            ) || (last_occurrence(local.hashes, local.num_records() as int, i) && move_of_hash(
                local,
                remote,
                local.hashes[i],
            ) && pair == (
                local.hash_to_path()[local.hashes[i]],
                remote.hash_to_path()[local.hashes[i]],
            ))),
{
    let lh = local.hashes;
    let n = local.num_records() as int;
    assert forall|pair: (Seq<char>, Seq<char>)| #[trigger]
        moves_seen(local, remote, i + 1, pair) implies (moves_seen(local, remote, i, pair) || (
    last_occurrence(lh, n, i) && move_of_hash(local, remote, lh[i]) && pair == (
        local.hash_to_path()[lh[i]],
        remote.hash_to_path()[lh[i]],
    ))) by {
        let j = choose|j: int|
            j < i + 1 && #[trigger] last_occurrence(lh, n, j) && move_of_hash(local, remote, lh[j])
                && pair == (local.hash_to_path()[lh[j]], remote.hash_to_path()[lh[j]]);
        if j < i {
            assert(moves_seen(local, remote, i, pair));
        }
    }
    assert forall|pair: (Seq<char>, Seq<char>)|
        (moves_seen(local, remote, i, pair) || (last_occurrence(lh, n, i) && move_of_hash(
            local,
            remote,
            lh[i],
        ) && pair == (
            local.hash_to_path()[lh[i]],
            remote.hash_to_path()[lh[i]],
        ))) implies #[trigger] moves_seen(local, remote, i + 1, pair) by {
        if moves_seen(local, remote, i, pair) {
            let j = choose|j: int|
                j < i && #[trigger] last_occurrence(lh, n, j) && move_of_hash(local, remote, lh[j])
                    && pair == (local.hash_to_path()[lh[j]], remote.hash_to_path()[lh[j]]);
            assert(j < i + 1);
        } else {
            assert(last_occurrence(lh, n, i));
        }
    }
}

/// The normal form of a path: the text of `Path::components` of `path`
/// gathered again into a path. Repeated separators, `.` components other
/// than a leading one and a trailing separator are gone, so two paths that
/// `Path` holds equal (it compares them component by component) have the
/// same normal form.
pub uninterp spec fn spec_normal_path(path: Seq<char>) -> Seq<char>;

/// `Path::components` of `path`, collected into a `PathBuf`, as text.
#[verifier::external_body]
fn normal_path(path: &str) -> (r: String)
    ensures
        r@ == spec_normal_path(path@),
{
    std::path::Path::new(path).components().collect::<std::path::PathBuf>().to_string_lossy().into_owned()
}

/// The normal form in which grouping compares a path: a plain path is
/// already in normal form and stands as it is; any other is put in normal
/// form by `Path`.
pub open spec fn path_key(p: Seq<char>) -> Seq<char> {
    if plain_path(p) {
        p
    } else {
        spec_normal_path(p)
    }
}

/// The records of a package with each path in normal form.
pub open spec fn normalized(v: PackageView) -> PackageView {
    PackageView { paths: v.paths.map_values(|p: Seq<char>| path_key(p)), hashes: v.hashes }
}

/// Every path of the package is plain.
pub open spec fn all_plain(v: PackageView) -> bool {
    forall|i: int| 0 <= i < v.paths.len() ==> plain_path(#[trigger] v.paths[i])
}

/// Normal form keeps plain paths as they are, character for character:
/// a package of plain paths is its own normal form.
pub proof fn lemma_plain_paths_kept(v: PackageView)
    requires
        all_plain(v),
    ensures
        normalized(v) == v,
{
    assert(normalized(v).paths =~= v.paths);
    assert(normalized(v) =~= v);
}

/// The normal form of one path.
fn normal_form(path: &String) -> (r: String)
    ensures
        r@ == path_key(path@),
{
    if is_plain_path(path.as_str()) {
        path.clone()
    } else {
        normal_path(path.as_str())
    }
}

/// The package with each of its paths put in normal form.
fn normalize_paths(pkg: HashPackage) -> (r: HashPackage)
    ensures
        r@ == normalized(pkg@),
{
    let mut paths: Vec<String> = Vec::new();
    let mut i: usize = 0;
    while i < pkg.file_paths.len()
        invariant
            0 <= i <= pkg.file_paths@.len(),
            str_views(paths@) == pkg.paths().take(i as int).map_values(|p: Seq<char>| path_key(p)),
        decreases pkg.file_paths@.len() - i,
    {
        let q = normal_form(&pkg.file_paths[i]);
        let ghost before = str_views(paths@);
        paths.push(q);
        assert(str_views(paths@) =~= before.push(path_key(pkg.paths()[i as int])));
        assert(pkg.paths().take(i + 1) =~= pkg.paths().take(i as int).push(pkg.paths()[i as int]));
        assert(str_views(paths@) =~= pkg.paths().take(i + 1).map_values(|p: Seq<char>| path_key(p)));
        i += 1;
    }
    assert(pkg.paths().take(i as int) =~= pkg.paths());
    let r = HashPackage::new(paths, pkg.file_hashes);
    assert(r@ =~= normalized(pkg@));
    r
}

/// Compares the local package with the remote one, paths as `Path` compares
/// them: by their normal form. Remote paths absent locally are new; paths
/// on both sides with different hashes are to be updated; local paths
/// absent remotely are to be deleted; a hash on both sides under different
/// paths asks for a move from the local path to the remote one. Where a
/// package records a path (or a hash) twice, its later record counts. The
/// paths of the result are in normal form; a plain path is its own normal
/// form, so where every path is plain the result holds the paths as
/// recorded.
pub fn group_files(local_hash_pkg: HashPackage, remote_hash_pkg: HashPackage) -> (r: GroupedFiles)
    ensures
        path_set(r.new_files@) == spec_new_files(normalized(local_hash_pkg@), normalized(remote_hash_pkg@)),
        path_set(r.files_to_update@) == spec_files_to_update(
            normalized(local_hash_pkg@),
            normalized(remote_hash_pkg@),
        ),
        pair_set(r.files_to_move@) == spec_files_to_move(
            normalized(local_hash_pkg@),
            normalized(remote_hash_pkg@),
        ),
        path_set(r.files_to_delete@) == spec_files_to_delete(
            normalized(local_hash_pkg@),
            normalized(remote_hash_pkg@),
        ),
        r.well_formed(),
        all_plain(local_hash_pkg@) && all_plain(remote_hash_pkg@) ==> ({
            &&& path_set(r.new_files@) == spec_new_files(local_hash_pkg@, remote_hash_pkg@)
            &&& path_set(r.files_to_update@) == spec_files_to_update(local_hash_pkg@, remote_hash_pkg@)
            &&& pair_set(r.files_to_move@) == spec_files_to_move(local_hash_pkg@, remote_hash_pkg@)
            &&& path_set(r.files_to_delete@) == spec_files_to_delete(local_hash_pkg@, remote_hash_pkg@)
        }),
{
    proof {
        if all_plain(local_hash_pkg@) && all_plain(remote_hash_pkg@) {
            lemma_plain_paths_kept(local_hash_pkg@);
            lemma_plain_paths_kept(remote_hash_pkg@);
        }
    }
    let local = normalize_paths(local_hash_pkg);
    let remote = normalize_paths(remote_hash_pkg);
    group_records(local, remote)
}

/// Groups the records of two packages whose paths are compared as text:
/// the body of `group_files`, once the paths are in normal form.
fn group_records(local_hash_pkg: HashPackage, remote_hash_pkg: HashPackage) -> (r: GroupedFiles)
    ensures
        path_set(r.new_files@) == spec_new_files(local_hash_pkg@, remote_hash_pkg@),
        path_set(r.files_to_update@) == spec_files_to_update(local_hash_pkg@, remote_hash_pkg@),
        pair_set(r.files_to_move@) == spec_files_to_move(local_hash_pkg@, remote_hash_pkg@),
        path_set(r.files_to_delete@) == spec_files_to_delete(local_hash_pkg@, remote_hash_pkg@),
        r.well_formed(),
{
    let local = &local_hash_pkg;
    let remote = &remote_hash_pkg;
    let ln = num_records(local);
    let rn = num_records(remote);
    let ghost lpaths = local.paths();
    let ghost rpaths = remote.paths();
    let ghost lhashes = local.hashes();
    let ghost rhashes = remote.hashes();
    let ghost lmap = local@.path_to_hash();
    let ghost rmap = remote@.path_to_hash();

    let mut new_files: Vec<String> = Vec::new();
    let mut files_to_update: Vec<String> = Vec::new();
    let mut i: usize = 0;
    while i < rn
        invariant
            ln == local@.num_records(),
            rn == remote@.num_records(),
            lpaths == local.paths(),
            rpaths == remote.paths(),
            lhashes == local.hashes(),
            rhashes == remote.hashes(),
            lmap == local@.path_to_hash(),
            rmap == remote@.path_to_hash(),
            0 <= i <= rn,
            distinct_paths(new_files@),
            distinct_paths(files_to_update@),
            forall|p: Seq<char>|
                #![trigger str_views(new_files@).contains(p)]
                str_views(new_files@).contains(p) <==> (seen_last(rpaths, rn as int, i as int, p)
                    && !lmap.dom().contains(p)),
            forall|p: Seq<char>|
                #![trigger str_views(files_to_update@).contains(p)]
                str_views(files_to_update@).contains(p) <==> (seen_last(
                    rpaths,
                    rn as int,
                    i as int,
                    p,
                ) && lmap.dom().contains(p) && lmap[p] != rmap[p]),
        decreases rn - i,
    {
        let ghost p = rpaths[i as int];
        let ghost old_new = str_views(new_files@);
        let ghost old_upd = str_views(files_to_update@);
        proof {
            lemma_seen_step(rpaths, rn as int, i as int);
            lemma_index_map(rpaths, rhashes, rn as nat, p);
            lemma_index_map(lpaths, lhashes, ln as nat, p);
            lemma_push_contains(old_new, p);
            lemma_push_contains(old_upd, p);
        }
        let last = last_path_index(&remote.file_paths, rn, &remote.file_paths[i]);
        let is_last = match last {
            Some(k) => k == i,
            None => false,
        };
        if is_last {
            assert(last_occurrence(rpaths, rn as int, i as int));
            assert(rmap[p] == rhashes[i as int]);
            // `p` is passed here for the first time among last occurrences.
            proof {
                if seen_last(rpaths, rn as int, i as int, p) {
                    let k = choose|k: int|
                        k < i && #[trigger] last_occurrence(rpaths, rn as int, k) && rpaths[k] == p;
                    assert(rpaths[k] == rpaths[i as int]);
                }
            }
            match last_path_index(&local.file_paths, ln, &remote.file_paths[i]) {
                Some(j) => {
                    assert(lmap.dom().contains(p));
                    assert(lmap[p] == lhashes[j as int]);
                    if !bytes_eq(&local.file_hashes[j], &remote.file_hashes[i]) {
                        files_to_update.push(remote.file_paths[i].clone());
                        assert(str_views(files_to_update@) =~= old_upd.push(p));
                    }
                },
                None => {
                    assert(!lmap.dom().contains(p));
                    new_files.push(remote.file_paths[i].clone());
                    assert(str_views(new_files@) =~= old_new.push(p));
                },
            }
        } else {
            let k = last.unwrap();
            assert(!last_occurrence(rpaths, rn as int, i as int)) by {
                if i < k {
                    assert(rpaths[k as int] == rpaths[i as int]);
                }
            }
        }
        i += 1;
    }
    proof {
        assert forall|p: Seq<char>| #[trigger]
            path_set(new_files@).contains(p) == spec_new_files(local_hash_pkg@, remote_hash_pkg@).contains(p)
            by {
            lemma_seen_all(rpaths, rhashes, rn as nat, p);
        }
        assert forall|p: Seq<char>| #[trigger]
            path_set(files_to_update@).contains(p) == spec_files_to_update(
                local_hash_pkg@,
                remote_hash_pkg@,
            ).contains(p) by {
            lemma_seen_all(rpaths, rhashes, rn as nat, p);
        }
        assert(path_set(new_files@) =~= spec_new_files(local_hash_pkg@, remote_hash_pkg@));
        assert(path_set(files_to_update@) =~= spec_files_to_update(local_hash_pkg@, remote_hash_pkg@));
    }

    let mut files_to_delete: Vec<String> = Vec::new();
    let mut i: usize = 0;
    while i < ln
        invariant
            ln == local@.num_records(),
            rn == remote@.num_records(),
            lpaths == local.paths(),
            rpaths == remote.paths(),
            lhashes == local.hashes(),
            rhashes == remote.hashes(),
            lmap == local@.path_to_hash(),
            rmap == remote@.path_to_hash(),
            0 <= i <= ln,
            distinct_paths(files_to_delete@),
            forall|p: Seq<char>|
                #![trigger str_views(files_to_delete@).contains(p)]
                str_views(files_to_delete@).contains(p) <==> (seen_last(
                    lpaths,
                    ln as int,
                    i as int,
                    p,
                ) && !rmap.dom().contains(p)),
        decreases ln - i,
    {
        let ghost p = lpaths[i as int];
        let ghost old_del = str_views(files_to_delete@);
        proof {
            lemma_seen_step(lpaths, ln as int, i as int);
            lemma_index_map(rpaths, rhashes, rn as nat, p);
            lemma_push_contains(old_del, p);
        }
        let last = last_path_index(&local.file_paths, ln, &local.file_paths[i]);
        let is_last = match last {
            Some(k) => k == i,
            None => false,
        };
        if is_last {
            proof {
                if seen_last(lpaths, ln as int, i as int, p) {
                    let k = choose|k: int|
                        k < i && #[trigger] last_occurrence(lpaths, ln as int, k) && lpaths[k] == p;
                    assert(lpaths[k] == lpaths[i as int]);
                }
            }
            if last_path_index(&remote.file_paths, rn, &local.file_paths[i]).is_none() {
                files_to_delete.push(local.file_paths[i].clone());
                assert(str_views(files_to_delete@) =~= old_del.push(p));
            }
        } else {
            let k = last.unwrap();
            assert(!last_occurrence(lpaths, ln as int, i as int)) by {
                if i < k {
                    assert(lpaths[k as int] == lpaths[i as int]);
                }
            }
        }
        i += 1;
    }
    proof {
        assert forall|p: Seq<char>| #[trigger]
            path_set(files_to_delete@).contains(p) == spec_files_to_delete(
                local_hash_pkg@,
                remote_hash_pkg@,
            ).contains(p) by {
            lemma_seen_all(lpaths, lhashes, ln as nat, p);
        }
        assert(path_set(files_to_delete@) =~= spec_files_to_delete(local_hash_pkg@, remote_hash_pkg@));
    }

    let ghost lh2p = local@.hash_to_path();
    let ghost rh2p = remote@.hash_to_path();
    let mut files_to_move: Vec<(String, String)> = Vec::new();
    let mut i: usize = 0;
    while i < ln
        invariant
            ln == local@.num_records(),
            rn == remote@.num_records(),
            lpaths == local.paths(),
            rpaths == remote.paths(),
            lhashes == local.hashes(),
            rhashes == remote.hashes(),
            lh2p == local@.hash_to_path(),
            rh2p == remote@.hash_to_path(),
            *local == local_hash_pkg,
            *remote == remote_hash_pkg,
            0 <= i <= ln,
            distinct_pairs(files_to_move@),
            forall|pair: (Seq<char>, Seq<char>)|
                #![trigger pair_views(files_to_move@).contains(pair)]
                pair_views(files_to_move@).contains(pair) <==> moves_seen(
                    local_hash_pkg@,
                    remote_hash_pkg@,
                    i as int,
                    pair,
                ),
        decreases ln - i,
    {
        let ghost h = lhashes[i as int];
        let ghost old_mv = pair_views(files_to_move@);
        proof {
            lemma_index_map(lhashes, lpaths, ln as nat, h);
            lemma_index_map(rhashes, rpaths, rn as nat, h);
            lemma_moves_seen_step(local_hash_pkg@, remote_hash_pkg@, i as int);
        }
        let last = last_hash_index(&local.file_hashes, ln, &local.file_hashes[i]);
        let is_last = match last {
            Some(k) => k == i,
            None => false,
        };
        if is_last {
            assert(last_occurrence(lhashes, ln as int, i as int));
            assert(lh2p[h] == lpaths[i as int]);
            if let Some(j) = last_hash_index(&remote.file_hashes, rn, &local.file_hashes[i]) {
                assert(rhashes[j as int] == h);
                assert(lhashes[i as int] == h);
                assert(rh2p.dom().contains(h));
                assert(lh2p.dom().contains(h));
                assert(rh2p[h] == rpaths[j as int]);
                if !(local.file_paths[i] == remote.file_paths[j]) {
                    assert(move_of_hash(local_hash_pkg@, remote_hash_pkg@, h));
                    if !contains_pair(&files_to_move, &local.file_paths[i], &remote.file_paths[j]) {
                        let ghost pr = (lpaths[i as int], rpaths[j as int]);
                        proof {
                            lemma_push_contains(old_mv, pr);
                        }
                        files_to_move.push(
                            (local.file_paths[i].clone(), remote.file_paths[j].clone()),
                        );
                        assert(pair_views(files_to_move@) =~= old_mv.push(pr));
                    }
                }
            } else {
                assert(!rh2p.dom().contains(h));
            }
        } else {
            let k = last.unwrap();
            assert(!last_occurrence(lhashes, ln as int, i as int)) by {
                if i < k {
                    assert(lhashes[k as int] == lhashes[i as int]);
                }
            }
        }
        i += 1;
    }
    proof {
        assert forall|pair: (Seq<char>, Seq<char>)| #[trigger]
            pair_set(files_to_move@).contains(pair) == spec_files_to_move(
                local_hash_pkg@,
                remote_hash_pkg@,
            ).contains(pair) by {
            if spec_files_to_move(local_hash_pkg@, remote_hash_pkg@).contains(pair) {
                let h = choose|h: Seq<u8>|
                    #![trigger lh2p[h], rh2p[h]]
                    move_of_hash(local_hash_pkg@, remote_hash_pkg@, h) && pair == (lh2p[h], rh2p[h]);
                lemma_index_map(lhashes, lpaths, ln as nat, h);
                let j = lemma_last_occurrence_exists(lhashes, ln as int, h);
                assert(last_occurrence(lhashes, ln as int, j));
            }
        }
        assert(pair_set(files_to_move@) =~= spec_files_to_move(local_hash_pkg@, remote_hash_pkg@));
    }
    GroupedFiles::new(new_files, files_to_update, files_to_move, files_to_delete)
}

/// Comparing a package with itself asks for nothing: no file is new, to be
/// updated, moved or deleted.
pub proof fn lemma_same_package_nothing_to_do(pkg: PackageView)
    ensures
        spec_new_files(pkg, pkg) == Set::<Seq<char>>::empty(),
        spec_files_to_update(pkg, pkg) == Set::<Seq<char>>::empty(),
        spec_files_to_move(pkg, pkg) == Set::<(Seq<char>, Seq<char>)>::empty(),
        spec_files_to_delete(pkg, pkg) == Set::<Seq<char>>::empty(),
{
    assert(spec_new_files(pkg, pkg) =~= Set::<Seq<char>>::empty());
    assert(spec_files_to_update(pkg, pkg) =~= Set::<Seq<char>>::empty());
    assert(spec_files_to_move(pkg, pkg) =~= Set::<(Seq<char>, Seq<char>)>::empty());
    assert(spec_files_to_delete(pkg, pkg) =~= Set::<Seq<char>>::empty());
}

/// The groups split the paths: a remote path is new, to be updated, or kept
/// with an equal hash, and only one of these; a path to be deleted is not
/// remote; a path to be updated is both local and remote.
pub proof fn lemma_groups_partition_paths(local: PackageView, remote: PackageView, p: Seq<char>)
    ensures
        spec_new_files(local, remote).contains(p) ==> remote.path_to_hash().dom().contains(p)
            && !local.path_to_hash().dom().contains(p),
        spec_files_to_update(local, remote).contains(p) ==> remote.path_to_hash().dom().contains(
            p,
        ) && local.path_to_hash().dom().contains(p),
        spec_files_to_delete(local, remote).contains(p) ==> local.path_to_hash().dom().contains(p)
            && !remote.path_to_hash().dom().contains(p),
        !(spec_new_files(local, remote).contains(p) && spec_files_to_update(local, remote).contains(
            p,
        )),
        remote.path_to_hash().dom().contains(p) ==> (spec_new_files(local, remote).contains(p)
            || spec_files_to_update(local, remote).contains(p) || (local.path_to_hash().dom().contains(
            p,
        ) && local.path_to_hash()[p] == remote.path_to_hash()[p])),
{
}

/// After a pull has fetched the new files and the files to update and has
/// deleted the files to delete, the local paths are the remote paths, and
/// each holds the remote hash: files kept locally have the remote hash, the
/// others were fetched.
pub proof fn lemma_pull_reaches_remote_state(local: PackageView, remote: PackageView)
    ensures
        local.path_to_hash().dom().difference(spec_files_to_delete(local, remote)).union(
            spec_new_files(local, remote),
        ) == remote.path_to_hash().dom(),
        local.path_to_hash().remove_keys(spec_files_to_delete(local, remote)).union_prefer_right(
            remote.path_to_hash().restrict(
                spec_new_files(local, remote).union(spec_files_to_update(local, remote)),
            ),
        ) == remote.path_to_hash(),
{
    let l = local.path_to_hash();
    let r = remote.path_to_hash();
    let fetched = spec_new_files(local, remote).union(spec_files_to_update(local, remote));
    let after = l.remove_keys(spec_files_to_delete(local, remote)).union_prefer_right(
        r.restrict(fetched),
    );
    assert(l.dom().difference(spec_files_to_delete(local, remote)).union(
        spec_new_files(local, remote),
    ) =~= r.dom());
    assert(after.dom() =~= r.dom());
    assert forall|p: Seq<char>| after.dom().contains(p) implies after[p] == r[p] by {
        if !fetched.contains(p) {
            assert(l.dom().contains(p));
        }
    }
    assert(after =~= r);
}

/// The key of an `index_map` entry stands below `n`.
proof fn lemma_index_map_value_key<K, V>(keys: Seq<K>, vals: Seq<V>, n: nat, k: K)
    requires
        n <= keys.len(),
        n <= vals.len(),
        index_map(keys, vals, n).dom().contains(k),
    ensures
        exists|i: int| 0 <= i < n && keys[i] == k && index_map(keys, vals, n)[k] == vals[i],
{
    lemma_index_map(keys, vals, n, k);
    let i = lemma_last_occurrence_exists(keys, n as int, k);
    assert(index_map(keys, vals, n)[k] == vals[i]);
}

/// The paths of a move: its source is a local path and its target a remote
/// one; the source is to be deleted exactly when the remote side lacks it.
/// A pull deletes before it moves, so a move whose source the remote side
/// lacks finds no source and is skipped; only a move whose source is also a
/// remote path renames a file, and that rename takes the source path away.
pub proof fn lemma_move_paths(local: PackageView, remote: PackageView, from: Seq<char>, to: Seq<
    char,
>)
    requires
        spec_files_to_move(local, remote).contains((from, to)),
    ensures
        local.path_to_hash().dom().contains(from),
        remote.path_to_hash().dom().contains(to),
        spec_files_to_delete(local, remote).contains(from) <==> !remote.path_to_hash().dom().contains(
            from,
        ),
{
    let h = choose|h: Seq<u8>|
        #![trigger local.hash_to_path()[h], remote.hash_to_path()[h]]
        move_of_hash(local, remote, h) && (from, to) == (
            local.hash_to_path()[h],
            remote.hash_to_path()[h],
        );
    lemma_index_map_value_key(local.hashes, local.paths, local.num_records(), h);
    lemma_index_map_value_key(remote.hashes, remote.paths, remote.num_records(), h);
    let i = choose|i: int|
        0 <= i < local.num_records() && local.hashes[i] == h && local.hash_to_path()[h]
            == local.paths[i];
    let j = choose|j: int|
        0 <= j < remote.num_records() && remote.hashes[j] == h && remote.hash_to_path()[h]
            == remote.paths[j];
    lemma_index_map(local.paths, local.hashes, local.num_records(), from);
    lemma_index_map(remote.paths, remote.hashes, remote.num_records(), to);
    assert(local.paths[i] == from);
    assert(remote.paths[j] == to);
}

/// A pull with its moves: where no move's source is a remote path, every
/// move finds its source gone once the deletions are done, so the moves
/// change nothing and the pull ends in the remote state.
pub proof fn lemma_pull_with_moves_reaches_remote_state(local: PackageView, remote: PackageView)
    requires
        forall|from: Seq<char>, to: Seq<char>|
            #[trigger] spec_files_to_move(local, remote).contains((from, to))
                ==> !remote.path_to_hash().dom().contains(from),
    ensures
        ({
            let after = local.path_to_hash().remove_keys(
                spec_files_to_delete(local, remote),
            ).union_prefer_right(
                remote.path_to_hash().restrict(
                    spec_new_files(local, remote).union(spec_files_to_update(local, remote)),
                ),
            );
            &&& after == remote.path_to_hash()
            &&& forall|from: Seq<char>, to: Seq<char>|
                #[trigger] spec_files_to_move(local, remote).contains((from, to))
                    ==> !after.dom().contains(from)
        }),
{
    lemma_pull_reaches_remote_state(local, remote);
}

/// The records of a package: the pairs `(path, hash)` that stand at one
/// position.
pub open spec fn record_set(v: PackageView) -> Set<(Seq<char>, Seq<u8>)> {
    Set::new(
        |rec: (Seq<char>, Seq<u8>)|
            exists|i: int|
                0 <= i < v.num_records() && #[trigger] v.paths[i] == rec.0 && v.hashes[i] == rec.1,
    )
}

/// No path, and no hash, is recorded twice.
pub open spec fn distinct_records(v: PackageView) -> bool {
    &&& forall|i: int, j: int|
        0 <= i < j < v.num_records() ==> #[trigger] v.paths[i] != #[trigger] v.paths[j]
    &&& forall|i: int, j: int|
        0 <= i < j < v.num_records() ==> #[trigger] v.hashes[i] != #[trigger] v.hashes[j]
}

/// Some position below `n` holds key `a` with value `b`.
spec fn pair_below<K, V>(keys: Seq<K>, vals: Seq<V>, n: nat, a: K, b: V) -> bool {
    exists|i: int| 0 <= i < n && #[trigger] keys[i] == a && vals[i] == b
}

/// Where no key occurs twice, `index_map` depends only on which pairs
/// occur, not on their order.
proof fn lemma_index_map_of_pairs<K, V>(
    k1: Seq<K>,
    v1: Seq<V>,
    n1: nat,
    k2: Seq<K>,
    v2: Seq<V>,
    n2: nat,
)
    requires
        n1 <= k1.len(),
        n1 <= v1.len(),
        n2 <= k2.len(),
        n2 <= v2.len(),
        forall|i: int, j: int| 0 <= i < j < n1 ==> #[trigger] k1[i] != #[trigger] k1[j],
        forall|i: int, j: int| 0 <= i < j < n2 ==> #[trigger] k2[i] != #[trigger] k2[j],
        forall|a: K, b: V| #[trigger] pair_below(k1, v1, n1, a, b) <==> pair_below(k2, v2, n2, a, b),
    ensures
        index_map(k1, v1, n1) == index_map(k2, v2, n2),
{
    let m1 = index_map(k1, v1, n1);
    let m2 = index_map(k2, v2, n2);
    assert forall|a: K| #[trigger] m1.dom().contains(a) implies m2.dom().contains(a) && m2[a]
        == m1[a] by {
        lemma_index_map(k1, v1, n1, a);
        lemma_index_map(k2, v2, n2, a);
        let i = choose|i: int| 0 <= i < n1 && #[trigger] k1[i] == a;
        assert(last_occurrence(k1, n1 as int, i));
        assert(pair_below(k1, v1, n1, a, v1[i]));
        let j = choose|j: int| 0 <= j < n2 && #[trigger] k2[j] == a && v2[j] == v1[i];
        assert(last_occurrence(k2, n2 as int, j));
    }
    assert forall|a: K| #[trigger] m2.dom().contains(a) implies m1.dom().contains(a) by {
        lemma_index_map(k1, v1, n1, a);
        lemma_index_map(k2, v2, n2, a);
        let j = choose|j: int| 0 <= j < n2 && #[trigger] k2[j] == a;
        assert(pair_below(k2, v2, n2, a, v2[j]));
        assert(pair_below(k1, v1, n1, a, v2[j]));
        let i = choose|i: int| 0 <= i < n1 && #[trigger] k1[i] == a && v1[i] == v2[j];
        assert(k1[i] == a);
    }
    assert(m1 =~= m2);
}

/// Both maps of a package without repeated paths or hashes are fixed by
/// its records.
proof fn lemma_maps_of_records(v1: PackageView, v2: PackageView)
    requires
        record_set(v1) == record_set(v2),
        distinct_records(v1),
        distinct_records(v2),
    ensures
        v1.path_to_hash() == v2.path_to_hash(),
        v1.hash_to_path() == v2.hash_to_path(),
{
    let n1 = v1.num_records();
    let n2 = v2.num_records();
    assert forall|a: Seq<char>, b: Seq<u8>| #[trigger]
        pair_below(v1.paths, v1.hashes, n1, a, b) <==> pair_below(v2.paths, v2.hashes, n2, a, b) by {
        assert(record_set(v1).contains((a, b)) == record_set(v2).contains((a, b)));
        if pair_below(v1.paths, v1.hashes, n1, a, b) {
            let i = choose|i: int| 0 <= i < n1 && #[trigger] v1.paths[i] == a && v1.hashes[i] == b;
            assert(record_set(v1).contains((a, b)));
            let k = choose|k: int| 0 <= k < n2 && #[trigger] v2.paths[k] == a && v2.hashes[k] == b;
            assert(pair_below(v2.paths, v2.hashes, n2, a, b));
        }
        if pair_below(v2.paths, v2.hashes, n2, a, b) {
            let i = choose|i: int| 0 <= i < n2 && #[trigger] v2.paths[i] == a && v2.hashes[i] == b;
            assert(record_set(v2).contains((a, b)));
            let k = choose|k: int| 0 <= k < n1 && #[trigger] v1.paths[k] == a && v1.hashes[k] == b;
            assert(pair_below(v1.paths, v1.hashes, n1, a, b));
        }
    }
    assert forall|b: Seq<u8>, a: Seq<char>| #[trigger]
        pair_below(v1.hashes, v1.paths, n1, b, a) <==> pair_below(v2.hashes, v2.paths, n2, b, a) by {
        assert(record_set(v1).contains((a, b)) == record_set(v2).contains((a, b)));
        if pair_below(v1.hashes, v1.paths, n1, b, a) {
            let i = choose|i: int| 0 <= i < n1 && #[trigger] v1.hashes[i] == b && v1.paths[i] == a;
            assert(v1.paths[i] == a);
        }
        if pair_below(v2.hashes, v2.paths, n2, b, a) {
            let i = choose|i: int| 0 <= i < n2 && #[trigger] v2.hashes[i] == b && v2.paths[i] == a;
            assert(v2.paths[i] == a);
        }
        if record_set(v1).contains((a, b)) {
            let i = choose|i: int| 0 <= i < n1 && #[trigger] v1.paths[i] == a && v1.hashes[i] == b;
            assert(v1.hashes[i] == b);
        }
        if record_set(v2).contains((a, b)) {
            let i = choose|i: int| 0 <= i < n2 && #[trigger] v2.paths[i] == a && v2.hashes[i] == b;
            assert(v2.hashes[i] == b);
        }
    }
    lemma_index_map_of_pairs(v1.paths, v1.hashes, n1, v2.paths, v2.hashes, n2);
    lemma_index_map_of_pairs(v1.hashes, v1.paths, n1, v2.hashes, v2.paths, n2);
}

/// Packages with the same records have the same records once their paths
/// are in normal form.
proof fn lemma_normalized_records(v1: PackageView, v2: PackageView)
    requires
        record_set(v1) == record_set(v2),
    ensures
        record_set(normalized(v1)) == record_set(normalized(v2)),
{
    assert forall|rec: (Seq<char>, Seq<u8>)| #[trigger]
        record_set(normalized(v1)).contains(rec) implies record_set(normalized(v2)).contains(rec) by {
        let i = choose|i: int|
            0 <= i < normalized(v1).num_records() && #[trigger] normalized(v1).paths[i] == rec.0
                && normalized(v1).hashes[i] == rec.1;
        assert(record_set(v1).contains((v1.paths[i], v1.hashes[i])));
        let k = choose|k: int|
            0 <= k < v2.num_records() && #[trigger] v2.paths[k] == v1.paths[i] && v2.hashes[k]
                == v1.hashes[i];
        assert(normalized(v2).paths[k] == rec.0);
    }
    assert forall|rec: (Seq<char>, Seq<u8>)| #[trigger]
        record_set(normalized(v2)).contains(rec) implies record_set(normalized(v1)).contains(rec) by {
        let i = choose|i: int|
            0 <= i < normalized(v2).num_records() && #[trigger] normalized(v2).paths[i] == rec.0
                && normalized(v2).hashes[i] == rec.1;
        assert(record_set(v2).contains((v2.paths[i], v2.hashes[i])));
        let k = choose|k: int|
            0 <= k < v1.num_records() && #[trigger] v1.paths[k] == v2.paths[i] && v1.hashes[k]
                == v2.hashes[i];
        assert(normalized(v1).paths[k] == rec.0);
    }
    assert(record_set(normalized(v1)) =~= record_set(normalized(v2)));
}

/// The grouping depends only on which records the packages hold, not on
/// their order: packages with the same records, none of which repeats a
/// path (in normal form) or a hash, are grouped alike.
pub proof fn lemma_grouping_ignores_record_order(
    local1: PackageView,
    local2: PackageView,
    remote1: PackageView,
    remote2: PackageView,
)
    requires
        record_set(local1) == record_set(local2),
        record_set(remote1) == record_set(remote2),
        distinct_records(normalized(local1)),
        distinct_records(normalized(local2)),
        distinct_records(normalized(remote1)),
        distinct_records(normalized(remote2)),
    ensures
        ({
            let (l1, l2, r1, r2) = (
                normalized(local1),
                normalized(local2),
                normalized(remote1),
                normalized(remote2),
            );
            &&& spec_new_files(l1, r1) == spec_new_files(l2, r2)
            &&& spec_files_to_update(l1, r1) == spec_files_to_update(l2, r2)
            &&& spec_files_to_move(l1, r1) == spec_files_to_move(l2, r2)
            &&& spec_files_to_delete(l1, r1) == spec_files_to_delete(l2, r2)
        }),
{
    let (l1, l2, r1, r2) = (
        normalized(local1),
        normalized(local2),
        normalized(remote1),
        normalized(remote2),
    );
    lemma_normalized_records(local1, local2);
    lemma_normalized_records(remote1, remote2);
    lemma_maps_of_records(l1, l2);
    lemma_maps_of_records(r1, r2);
    assert(spec_new_files(l1, r1) =~= spec_new_files(l2, r2));
    assert(spec_files_to_update(l1, r1) =~= spec_files_to_update(l2, r2));
    assert(spec_files_to_delete(l1, r1) =~= spec_files_to_delete(l2, r2));
    assert(spec_files_to_move(l1, r1) =~= spec_files_to_move(l2, r2));
}

} // verus!
