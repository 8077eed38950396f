//! Directory listings and search results: entries, their order, and the
//! paths shown with them.
use vstd::prelude::*;
use crate::classify::FileType;
use crate::path_guard::{display, relative_display, relative_path, DrivePath, PathError};

verus! {

/// Times (seconds since the epoch) and size (bytes) of an entry, where known.
#[derive(Debug, Clone, Copy, PartialEq, Eq)]
pub struct FileMetadata {
    pub created_at: Option<u64>,
    pub modified_at: Option<u64>,
    pub size: Option<u64>,
}

/// One child of a directory, or one search hit.
#[derive(Debug)]
pub struct FileInfo {
    pub name: String,
    pub is_dir: bool,
    pub file_type: Option<FileType>,
    pub metadata: Option<FileMetadata>,
}

/// A listed directory: its entries, where it is, and where its parent is.
#[derive(Debug)]
pub struct FilesResult {
    pub files: Vec<FileInfo>,
    pub path: String,
    pub parent: Option<String>,
}

/// Lexicographic order on names, character by character.
pub open spec fn name_lt(a: Seq<char>, b: Seq<char>) -> bool
    decreases a.len(),
{
    if a.len() == 0 {
        b.len() > 0
    } else if b.len() == 0 {
        false
    } else if a[0] != b[0] {
        a[0] < b[0]
    } else {
        name_lt(a.drop_first(), b.drop_first())
    }
}

/// The order on `(is_dir, name)`: files before directories, then by name.
pub open spec fn key_lt(a: FileInfo, b: FileInfo) -> bool {
    (!a.is_dir && b.is_dir) || (a.is_dir == b.is_dir && name_lt(a.name@, b.name@))
}

/// Names starting with `.` are hidden.
pub open spec fn is_hidden(name: Seq<char>) -> bool {
    name.len() > 0 && name[0] == '.'
}

pub open spec fn is_visible(e: FileInfo) -> bool {
    !is_hidden(e.name@)
}

pub open spec fn visible_entries(s: Seq<FileInfo>) -> Seq<FileInfo> {
    s.filter(|e: FileInfo| is_visible(e))
}

/// Descending by `(is_dir, name)`: no entry comes before a greater one.
pub open spec fn sorted_desc(s: Seq<FileInfo>) -> bool {
    forall|i: int, j: int| 0 <= i < j < s.len() ==> !key_lt(#[trigger] s[i], #[trigger] s[j])
}

/// `out` is what a listing shows of `input`: the visible entries, each once,
/// in descending `(is_dir, name)` order.
pub open spec fn listed(out: Seq<FileInfo>, input: Seq<FileInfo>) -> bool {
    &&& sorted_desc(out)
    &&& out.to_multiset() == visible_entries(input).to_multiset()
}

proof fn lemma_name_lt_irreflexive(a: Seq<char>)
    ensures
        !name_lt(a, a),
    decreases a.len(),
{
    if a.len() > 0 {
        lemma_name_lt_irreflexive(a.drop_first());
    }
}

proof fn lemma_name_lt_transitive(a: Seq<char>, b: Seq<char>, c: Seq<char>)
    requires
        name_lt(a, b),
        name_lt(b, c),
    ensures
        name_lt(a, c),
    decreases a.len(),
{
    if a.len() > 0 && b.len() > 0 && c.len() > 0 && a[0] == b[0] && b[0] == c[0] {
        lemma_name_lt_transitive(a.drop_first(), b.drop_first(), c.drop_first());
    }
}

proof fn lemma_key_lt_irreflexive(a: FileInfo)
    ensures
        !key_lt(a, a),
{
    lemma_name_lt_irreflexive(a.name@);
}

proof fn lemma_key_lt_transitive(a: FileInfo, b: FileInfo, c: FileInfo)
    requires
        key_lt(a, b),
        key_lt(b, c),
    ensures
        key_lt(a, c),
{
    if a.is_dir == b.is_dir && b.is_dir == c.is_dir {
        lemma_name_lt_transitive(a.name@, b.name@, c.name@);
    }
}

/// Whether `a` comes before `b` in name order.
fn name_less(a: &str, b: &str) -> (r: bool)
    ensures
        r == name_lt(a@, b@),
{
    let la = a.unicode_len();
    let lb = b.unicode_len();
    let mut i: usize = 0;
    assert(a@.skip(0) =~= a@);
    assert(b@.skip(0) =~= b@);
    while i < la && i < lb
        invariant
            la == a@.len(),
            lb == b@.len(),
            i <= la,
            i <= lb,
            name_lt(a@, b@) == name_lt(a@.skip(i as int), b@.skip(i as int)),
        decreases la - i,
    {
        let ca = a.get_char(i);
        let cb = b.get_char(i);
        if ca != cb {
            return ca < cb;
        }
        assert(a@.skip(i as int).drop_first() =~= a@.skip(i + 1));
        assert(b@.skip(i as int).drop_first() =~= b@.skip(i + 1));
        i = i + 1;
    }
    i == la && i < lb
}

impl FileInfo {
    /// Whether this entry is hidden (its name starts with `.`).
    pub fn is_hidden(&self) -> (r: bool)
        ensures
            r == is_hidden(self.name@),
    {
        self.name.unicode_len() > 0 && self.name.as_str().get_char(0) == '.'
    }

    /// Whether this entry comes strictly before `other` by `(is_dir, name)`.
    pub fn comes_before(&self, other: &FileInfo) -> (r: bool)
        ensures
            r == key_lt(*self, *other),
    {
        if self.is_dir != other.is_dir {
            !self.is_dir
        } else {
            name_less(self.name.as_str(), other.name.as_str())
        }
    }

    /// Compares by `(is_dir, name)`: files before directories, then by name.
    pub fn cmp(&self, other: &FileInfo) -> (r: std::cmp::Ordering)
        ensures
            r == std::cmp::Ordering::Less <==> key_lt(*self, *other),
            r == std::cmp::Ordering::Greater <==> key_lt(*other, *self),
            r == std::cmp::Ordering::Equal <==> (self.is_dir == other.is_dir && self.name@ == other.name@),
    {
        proof {
            lemma_key_lt_irreflexive(*self);
            lemma_name_lt_total(self.name@, other.name@);
            if key_lt(*self, *other) && key_lt(*other, *self) {
                lemma_key_lt_transitive(*self, *other, *self);
            }
        }
        if self.comes_before(other) {
            std::cmp::Ordering::Less
        } else if other.comes_before(self) {
            std::cmp::Ordering::Greater
        } else {
            std::cmp::Ordering::Equal
        }
    }

    /// A copy with equal fields.
    pub fn duplicate(&self) -> (r: FileInfo)
        ensures
            r == *self,
    {
        let file_type = match &self.file_type {
            Some(t) => Some(t.duplicate()),
            None => None,
        };
        FileInfo {
            name: self.name.clone(),
            is_dir: self.is_dir,
            file_type,
            metadata: self.metadata,
        }
    }
}

proof fn lemma_name_lt_total(a: Seq<char>, b: Seq<char>)
    ensures
        !name_lt(a, b) && !name_lt(b, a) ==> a == b,
    decreases a.len(),
{
    if a.len() > 0 && b.len() > 0 && a[0] != b[0] {
    } else if a.len() > 0 && b.len() > 0 && a[0] == b[0] {
        lemma_name_lt_total(a.drop_first(), b.drop_first());
        if a.drop_first() == b.drop_first() {
            assert(a =~= seq![a[0]] + a.drop_first());
            assert(b =~= seq![b[0]] + b.drop_first());
        }
    } else if a.len() == 0 && b.len() == 0 {
        assert(a =~= b);
    }
}

/// Inserts `x` into the descending `out` where it keeps the order.
fn insert_sorted(out: &mut Vec<FileInfo>, x: FileInfo)
    requires
        sorted_desc(old(out)@),
    ensures
        sorted_desc(final(out)@),
        exists|p: int| 0 <= p <= old(out)@.len() && final(out)@ == old(out)@.insert(p, x),
{
    let mut lo: usize = 0;
    let mut hi: usize = out.len();
    while lo < hi
        invariant
            lo <= hi <= out@.len(),
            out@ == old(out)@,
            sorted_desc(out@),
            forall|k: int| 0 <= k < lo ==> !key_lt(#[trigger] out@[k], x),
            forall|k: int| hi <= k < out@.len() ==> key_lt(#[trigger] out@[k], x),
        decreases hi - lo,
    {
        let mid = lo + (hi - lo) / 2;
        if out[mid].comes_before(&x) {
            proof {
                assert forall|k: int| mid <= k < out@.len() implies key_lt(#[trigger] out@[k], x) by {
                    if k > mid {
                        lemma_key_lt_total(out@[mid as int], out@[k]);
                        if key_lt(out@[k], out@[mid as int]) {
                            lemma_key_lt_transitive(out@[k], out@[mid as int], x);
                        }
                    }
                }
            }
            hi = mid;
        } else {
            proof {
                assert forall|k: int| 0 <= k <= mid implies !key_lt(#[trigger] out@[k], x) by {
                    if k < mid && key_lt(out@[k], x) {
                        lemma_key_lt_total(out@[k], out@[mid as int]);
                        if key_lt(out@[mid as int], out@[k]) {
                            lemma_key_lt_transitive(out@[mid as int], out@[k], x);
                        }
                    }
                }
            }
            lo = mid + 1;
        }
    }
    let p = lo;
    let ghost before = out@;
    proof {
        assert forall|k: int| p <= k < before.len() implies !key_lt(x, #[trigger] before[k]) by {
            if key_lt(x, before[k]) {
                lemma_key_lt_transitive(before[p as int], x, before[k]);
                if k == p {
                    lemma_key_lt_irreflexive(before[k]);
                }
            }
        }
    }
    out.insert(p, x);
    proof {
        let s = out@;
        assert forall|i: int, j: int| 0 <= i < j < s.len() implies !key_lt(#[trigger] s[i], #[trigger] s[j]) by {
            if j < p {
            } else if j == p {
            } else if i < p {
                assert(s[i] == before[i] && s[j] == before[j - 1]);
            } else if i == p {
                assert(s[j] == before[j - 1]);
            } else {
                assert(s[i] == before[i - 1]);
                assert(s[j] == before[j - 1]);
            }
        }
    }
}

/// Keeps the visible entries of `entries` and orders them descending by
/// `(is_dir, name)`: the reverse of the ascending order, so directories come
/// before files and names run from last to first.
pub fn order_entries(entries: &Vec<FileInfo>) -> (r: Vec<FileInfo>)
    ensures
        listed(r@, entries@),
        forall|k: int| 0 <= k < r@.len() ==> !is_hidden(#[trigger] r@[k].name@),
{
    let mut out: Vec<FileInfo> = Vec::new();
    let mut i: usize = 0;
    proof {
        assert(entries@.take(0) =~= Seq::<FileInfo>::empty());
        assert(visible_entries(Seq::<FileInfo>::empty()) =~= Seq::<FileInfo>::empty());
    }
    while i < entries.len()
        invariant
            i <= entries@.len(),
            sorted_desc(out@),
            out@.to_multiset() == visible_entries(entries@.take(i as int)).to_multiset(),
            forall|k: int| 0 <= k < out@.len() ==> !is_hidden(#[trigger] out@[k].name@),
        decreases entries@.len() - i,
    {
        let e = entries[i].duplicate();
        let ghost taken = entries@.take(i as int);
        proof {
            assert(entries@.take(i + 1) =~= taken.push(e));
            taken.lemma_filter_push(e, |e: FileInfo| is_visible(e));
        }
        if !e.is_hidden() {
            let ghost before = out@;
            insert_sorted(&mut out, e);
            proof {
                let p = choose|p: int| 0 <= p <= before.len() && out@ == before.insert(p, e);
                vstd::seq_lib::to_multiset_insert(before, p, e);
                assert(visible_entries(taken).push(e).to_multiset() == visible_entries(taken).to_multiset().insert(e)) by {
                    broadcast use vstd::seq_lib::group_to_multiset_ensures;
                }
                assert forall|k: int| 0 <= k < out@.len() implies !is_hidden(#[trigger] out@[k].name@) by {
                    if k < p {
                        assert(out@[k] == before[k]);
                    } else if k > p {
                        assert(out@[k] == before[k - 1]);
                    }
                }
            }
        }
        i = i + 1;
    }
    assert(entries@.take(entries@.len() as int) =~= entries@);
    out
}

/// Assembles the listing of `dir` from the entries read in it: the visible
/// entries in listing order, `dir` shown relative to `base_dir`, and its
/// parent shown the same way unless `dir` is `base_dir` itself.
pub fn list_files(dir: &DrivePath, base_dir: &DrivePath, entries: Vec<FileInfo>) -> (r: Result<
    FilesResult,
    PathError,
>)
    ensures
        r is Ok <==> base_dir@.is_prefix_of(dir@),
        r matches Ok(res) ==> {
            &&& listed(res.files@, entries@)
            &&& forall|k: int| 0 <= k < res.files@.len() ==> !is_hidden(#[trigger] res.files@[k].name@)
            &&& res.path@ == relative_display(dir@, base_dir@)
            &&& res.parent is Some <==> dir@.len() > base_dir@.len()
            &&& res.parent matches Some(p) ==> p@ == relative_display(dir@.drop_last(), base_dir@)
        },
        r matches Err(e) ==> e matches PathError::OutsideRoot(t) && t@ == display(dir@),
{
    let path = match relative_path(dir, base_dir) {
        Ok(path) => path,
        Err(e) => return Err(e),
    };
    let parent = match dir.parent() {
        Some(up) => match relative_path(&up, base_dir) {
            Ok(shown) => Some(shown),
            Err(_) => None,
        },
        None => None,
    };
    proof {
        if dir@.len() > base_dir@.len() {
            assert(base_dir@ =~= dir@.drop_last().subrange(0, base_dir@.len() as int));
        }
    }
    let files = order_entries(&entries);
    Ok(FilesResult { files, path, parent })
}

pub open spec fn same_key(a: FileInfo, b: FileInfo) -> bool {
    a.is_dir == b.is_dir && a.name@ == b.name@
}

/// No two different entries of `s` share both `is_dir` and `name`.
pub open spec fn distinct_keys(s: Seq<FileInfo>) -> bool {
    forall|i: int, j: int|
        0 <= i < s.len() && 0 <= j < s.len() && same_key(#[trigger] s[i], #[trigger] s[j]) ==> s[i]
            == s[j]
}

proof fn lemma_key_lt_total(a: FileInfo, b: FileInfo)
    ensures
        !key_lt(a, b) && !key_lt(b, a) ==> same_key(a, b),
{
    lemma_name_lt_total(a.name@, b.name@);
}

proof fn lemma_sorted_permutations_equal(a: Seq<FileInfo>, b: Seq<FileInfo>)
    requires
        sorted_desc(a),
        sorted_desc(b),
        a.to_multiset() == b.to_multiset(),
        distinct_keys(a),
    ensures
        a == b,
    decreases a.len(),
{
    broadcast use vstd::seq_lib::group_to_multiset_ensures;

    a.to_multiset_ensures();
    b.to_multiset_ensures();
    assert(a.to_multiset().len() == b.to_multiset().len());
    if a.len() == 0 {
        assert(b.len() == 0);
        assert(a =~= b);
    } else {
        assert(b.len() == a.len());
        assert(a.contains(a[0]));
        assert(a.to_multiset().count(a[0]) > 0);
        assert(b.to_multiset().count(a[0]) > 0);
        assert(b.contains(a[0]));
        assert(b.contains(b[0]));
        assert(b.to_multiset().count(b[0]) > 0);
        assert(a.to_multiset().count(b[0]) > 0);
        assert(a.contains(b[0]));
        let j = choose|j: int| 0 <= j < b.len() && b[j] == a[0];
        let i = choose|i: int| 0 <= i < a.len() && a[i] == b[0];
        if i > 0 && j > 0 {
            assert(!key_lt(a[0], a[i]));
            assert(!key_lt(b[0], b[j]));
            lemma_key_lt_total(a[0], b[0]);
        }
        assert(a[0] == b[0]);
        let x = a[0];
        assert(a.remove(0) =~= a.drop_first());
        assert(b.remove(0) =~= b.drop_first());
        let ra = a.drop_first();
        let rb = b.drop_first();
        assert(ra.to_multiset() == rb.to_multiset());
        assert(sorted_desc(ra)) by {
            assert forall|p: int, q: int| 0 <= p < q < ra.len() implies !key_lt(#[trigger] ra[p], #[trigger] ra[q]) by {
                assert(ra[p] == a[p + 1] && ra[q] == a[q + 1]);
            }
        }
        assert(sorted_desc(rb)) by {
            assert forall|p: int, q: int| 0 <= p < q < rb.len() implies !key_lt(#[trigger] rb[p], #[trigger] rb[q]) by {
                assert(rb[p] == b[p + 1] && rb[q] == b[q + 1]);
            }
        }
        assert(distinct_keys(ra)) by {
            assert forall|p: int, q: int|
                0 <= p < ra.len() && 0 <= q < ra.len() && same_key(#[trigger] ra[p], #[trigger] ra[q]) implies ra[p] == ra[q] by {
                assert(ra[p] == a[p + 1] && ra[q] == a[q + 1]);
            }
        }
        lemma_sorted_permutations_equal(ra, rb);
        assert(a =~= b) by {
            assert forall|k: int| 0 <= k < a.len() implies a[k] == b[k] by {
                if k > 0 {
                    assert(a[k] == ra[k - 1] && b[k] == rb[k - 1]);
                }
            }
        }
    }
}

/// A listing is fully determined by `(is_dir, name)`: where no two different
/// visible entries share both, every listing of the same entries is the same
/// sequence.
pub proof fn lemma_listing_determined(input: Seq<FileInfo>, a: Seq<FileInfo>, b: Seq<FileInfo>)
    requires
        listed(a, input),
        listed(b, input),
        distinct_keys(visible_entries(input)),
    ensures
        a == b,
{
    broadcast use vstd::seq_lib::group_to_multiset_ensures;

    let v = visible_entries(input);
    assert(distinct_keys(a)) by {
        assert forall|p: int, q: int|
            0 <= p < a.len() && 0 <= q < a.len() && same_key(#[trigger] a[p], #[trigger] a[q]) implies a[p] == a[q] by {
            a.to_multiset_ensures();
            v.to_multiset_ensures();
            assert(a.contains(a[p]));
            assert(a.contains(a[q]));
            assert(a.to_multiset().count(a[p]) > 0);
            assert(a.to_multiset().count(a[q]) > 0);
            assert(v.to_multiset().count(a[p]) > 0);
            assert(v.to_multiset().count(a[q]) > 0);
            assert(v.contains(a[p]));
            assert(v.contains(a[q]));
            let p2 = choose|k: int| 0 <= k < v.len() && v[k] == a[p];
            let q2 = choose|k: int| 0 <= k < v.len() && v[k] == a[q];
            assert(same_key(v[p2], v[q2]));
        }
    }
    lemma_sorted_permutations_equal(a, b);
}

} // verus!
