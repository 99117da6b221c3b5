//! The local side of a pull: deleting and moving files, and removing the
//! parent directories that a removal leaves empty.
use vstd::prelude::*;

verus! {

/// What `Path::parent` makes of a path: the path without its last
/// component, or `None` for a path that ends in a root or prefix or is empty.
pub uninterp spec fn spec_path_parent(path: Seq<char>) -> Option<Seq<char>>;

/// A plain relative path: not empty, made of non-empty components
/// separated by single `/`, with no `.` component but possibly a first
/// one, and without `\\` or `:` (which some platforms read as separators
/// or prefixes). Such a path is already in the form that `Path` gives it.
pub open spec fn plain_path(p: Seq<char>) -> bool {
    &&& p.len() > 0
    &&& p[0] != '/'
    &&& p.last() != '/'
    &&& forall|i: int| 0 <= i < p.len() ==> #[trigger] p[i] != '\\' && p[i] != ':'
    &&& forall|i: int|
        0 <= i < p.len() - 1 && #[trigger] p[i] == '/' ==> p[i + 1] != '/' && !(p[i + 1] == '.' && (
        i + 2 == p.len() || p[i + 2] == '/'))
}

/// The text before the last `/` of `p`, or the empty text where `p` has no
/// `/`.
pub open spec fn dir_prefix(p: Seq<char>) -> Seq<char>
    decreases p.len(),
{
    if p.len() == 0 {
        Seq::empty()
    } else if p.last() == '/' {
        p.drop_last()
    } else {
        dir_prefix(p.drop_last())
    }
}

/// The characters of a text.
fn chars_of(s: &str) -> (r: Vec<char>)
    ensures
        r@ == s@,
{
    let n = s.unicode_len();
    let mut r: Vec<char> = Vec::new();
    let mut i: usize = 0;
    while i < n
        invariant
            n == s@.len(),
            0 <= i <= n,
            r@ == s@.take(i as int),
        decreases n - i,
    {
        r.push(s.get_char(i));
        assert(s@.take(i + 1) =~= s@.take(i as int).push(s@[i as int]));
        i += 1;
    }
    assert(s@.take(n as int) =~= s@);
    r
}

/// Whether `path` is a plain relative path.
pub fn is_plain_path(path: &str) -> (r: bool)
    ensures
        r == plain_path(path@),
{
    let v = chars_of(path);
    let n = v.len();
    if n == 0 {
        return false;
    }
    let mut i: usize = 0;
    while i < n
        invariant
            v@ == path@,
            n == v@.len(),
            n > 0,
            0 <= i <= n,
            forall|j: int| 0 <= j < i ==> #[trigger] v@[j] != '\\' && v@[j] != ':',
            forall|j: int|
                0 <= j < i && #[trigger] v@[j] == '/' ==> 0 < j && j + 1 < n && v@[j + 1] != '/'
                    && !(v@[j + 1] == '.' && (j + 2 == n || v@[j + 2] == '/')),
        decreases n - i,
    {
        let c = v[i];
        if c == '\\' || c == ':' {
            return false;
        }
        if c == '/' {
            if i == 0 || i + 1 == n {
                return false;
            }
            if v[i + 1] == '/' {
                return false;
            }
            if v[i + 1] == '.' && (i + 2 == n || v[i + 2] == '/') {
                return false;
            }
        }
        i += 1;
    }
    true
}

/// The text before the last `/` of `path`, or the empty text.
fn dir_of(path: &str) -> (r: String)
    ensures
        r@ == dir_prefix(path@),
{
    let n = path.unicode_len();
    let mut k: usize = n;
    assert(path@.take(n as int) =~= path@);
    while k > 0 && path.get_char(k - 1) != '/'
        invariant
            n == path@.len(),
            k <= n,
            dir_prefix(path@) == dir_prefix(path@.take(k as int)),
        decreases k,
    {
        let ghost t = path@.take(k as int);
        assert(t.drop_last() =~= path@.take(k - 1));
        k -= 1;
    }
    if k == 0 {
        assert(path@.take(0) =~= Seq::<char>::empty());
        String::new()
    } else {
        let ghost t = path@.take(k as int);
        assert(t.drop_last() =~= path@.subrange(0, k - 1));
        path.substring_char(0, k - 1).to_string()
    }
}

/// `std::path::Path::parent` on `path`, as text. For a plain path it is the
/// text before the last `/`, or the empty text where there is none: `Path`
/// drops the last component and the separator before it, and gives the
/// rest of the text as it stands.
#[verifier::external_body]
fn path_parent(path: &str) -> (r: Option<String>)
    ensures
        match r {
            Some(p) => spec_path_parent(path@) == Some(p@) && (plain_path(path@) ==> p@
                == dir_prefix(path@)),
            None => spec_path_parent(path@) is None && !plain_path(path@),
        },
{
    match std::path::Path::new(path).parent() {
        Some(p) => Some(p.to_string_lossy().into_owned()),
        None => None,
    }
}

/// What came of removing a directory.
#[derive(Debug, Clone, Copy, PartialEq, Eq, Structural)]
pub enum RemoveDirOutcome {
    Removed,
    NotEmpty,
    NotFound,
    /// Any other error.
    Failed,
}

/// A directory could not be removed for a reason other than its being not
/// empty or missing.
#[derive(Debug, Clone, Copy, PartialEq, Eq, Structural)]
pub struct CleanupError {}

/// The directory that holds `path`: its parent, if it has one. A file
/// received at `path` is created there, and it is the first directory to
/// try to remove once the file at `path` is gone.
pub fn parent_dir(path: &str) -> (r: Option<String>)
    ensures
        match r {
            Some(d) => spec_path_parent(path@) == Some(d@),
            None => spec_path_parent(path@) is None,
        },
        plain_path(path@) ==> (r matches Some(d) && d@ == dir_prefix(path@)),
{
    let parent = path_parent(path);
    if is_plain_path(path) {
        Some(dir_of(path))
    } else {
        parent
    }
}

/// The parent of a plain path `d/f`, where `f` is a file name (not empty,
/// not `.`, without `/`, `\\` or `:`), is `d`, character for character;
/// the parent of a plain path without `/` is the empty path.
pub proof fn lemma_parent_of_joined(d: Seq<char>, f: Seq<char>)
    requires
        plain_path(d),
        f.len() > 0,
        f != seq!['.'],
        forall|i: int| 0 <= i < f.len() ==> #[trigger] f[i] != '/' && f[i] != '\\' && f[i] != ':',
    ensures
        plain_path(d + seq!['/'] + f),
        dir_prefix(d + seq!['/'] + f) == d,
        plain_path(f),
        dir_prefix(f) == Seq::<char>::empty(),
{
    let p = d + seq!['/'] + f;
    let n = d.len() as int;
    assert forall|i: int| 0 <= i < p.len() implies #[trigger] p[i] != '\\' && p[i] != ':' by {
        if i < n {
            assert(p[i] == d[i]);
        } else if i > n {
            assert(p[i] == f[i - n - 1]);
        }
    }
    assert forall|i: int|
        0 <= i < p.len() - 1 && #[trigger] p[i] == '/' implies p[i + 1] != '/' && !(p[i + 1] == '.'
        && (i + 2 == p.len() || p[i + 2] == '/')) by {
        if i < n - 1 {
            assert(p[i] == d[i] && p[i + 1] == d[i + 1]);
            if i + 2 < n {
                assert(p[i + 2] == d[i + 2]);
            } else {
                assert(i + 2 == n);
                assert(p[i + 2] == '/');
                assert(d[i + 1] == d.last());
            }
        } else if i == n - 1 {
            assert(p[i] == d.last());
        } else if i == n {
            assert(p[i + 1] == f[0]);
            if f.len() == 1 {
                assert(i + 2 == p.len());
                assert(f =~= seq![f[0]]);
            } else {
                assert(p[i + 2] == f[1]);
            }
        } else {
            assert(p[i] == f[i - n - 1]);
        }
    }
    assert(p[0] == d[0]);
    assert(p.last() == f.last());
    lemma_dir_prefix_no_slash(d + seq!['/'], f);
    assert((d + seq!['/']).drop_last() =~= d);
    lemma_dir_prefix_no_slash(Seq::<char>::empty(), f);
    assert(Seq::<char>::empty() + f =~= f);
    assert(forall|i: int| 0 <= i < f.len() - 1 ==> #[trigger] f[i] != '/');
}

/// Appending text without `/` does not change what stands before the last
/// `/`.
proof fn lemma_dir_prefix_no_slash(a: Seq<char>, f: Seq<char>)
    requires
        forall|i: int| 0 <= i < f.len() ==> #[trigger] f[i] != '/',
    ensures
        dir_prefix(a + f) == dir_prefix(a),
    decreases f.len(),
{
    if f.len() > 0 {
        assert((a + f).drop_last() =~= a + f.drop_last());
        assert((a + f).last() == f.last());
        lemma_dir_prefix_no_slash(a, f.drop_last());
    } else {
        assert(a + f =~= a);
    }
}

/// The next directory to try to remove, after trying `dir`: its parent when
/// `dir` was removed; none when it was not empty or missing; an error
/// otherwise.
pub fn next_dir_to_clean(dir: &str, outcome: RemoveDirOutcome) -> (r: Result<
    Option<String>,
    CleanupError,
>)
    ensures
        outcome == RemoveDirOutcome::Removed ==> (r matches Ok(next) && match next {
            Some(d) => spec_path_parent(dir@) == Some(d@),
            None => spec_path_parent(dir@) is None,
        }),
        outcome == RemoveDirOutcome::Removed && plain_path(dir@) ==> (r matches Ok(Some(d)) && d@
            == dir_prefix(dir@)),
        (outcome == RemoveDirOutcome::NotEmpty || outcome == RemoveDirOutcome::NotFound) ==> r
            matches Ok(None),
        outcome == RemoveDirOutcome::Failed ==> r is Err,
{
    match outcome {
        RemoveDirOutcome::Removed => Ok(parent_dir(dir)),
        RemoveDirOutcome::NotEmpty | RemoveDirOutcome::NotFound => Ok(None),
        RemoveDirOutcome::Failed => Err(CleanupError {}),
    }
}

/// What to do for one move `(from, to)`.
#[derive(Debug)]
pub enum MoveStep {
    /// The source is gone: nothing to do.
    Skip,
    /// Create `create_dir` (the parent of the target) if there is one,
    /// rename the file, then clean the source's parents.
    Move { create_dir: Option<String> },
}

/// The step for moving a file to `to`, given whether its source exists.
pub fn plan_move(from_exists: bool, to: &str) -> (r: MoveStep)
    ensures
        !from_exists ==> r is Skip,
        from_exists ==> (r matches MoveStep::Move { create_dir } && match create_dir {
            Some(d) => spec_path_parent(to@) == Some(d@),
            None => spec_path_parent(to@) is None,
        }),
        from_exists && plain_path(to@) ==> (r matches MoveStep::Move { create_dir: Some(d) }
            && d@ == dir_prefix(to@)),
{
    if from_exists {
        MoveStep::Move { create_dir: parent_dir(to) }
    } else {
        MoveStep::Skip
    }
}

} // verus!
