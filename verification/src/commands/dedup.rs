//! Finding duplicate files. Files are first grouped by size, which costs no reading: only sizes
//! shared by two or more files make a group. Within each such group the files' contents then
//! decide: files with byte-for-byte equal contents form a duplicate group.

use std::collections::hash_map::DefaultHasher;
use std::collections::HashMap;
use std::hash::Hasher;
use vstd::prelude::*;

use crate::common::text::{decimal, push_decimal};
use vstd::std_specs::hash::DefaultHasherAdditionalSpecFns;

verus! {

/// A file found by a scan.
#[derive(Debug)]
pub struct FileInfo {
    /// The file name.
    pub name: String,
    /// The size in bytes.
    pub size: u64,
    /// The full path.
    pub path: String,
}

impl Clone for FileInfo {
    fn clone(&self) -> (r: Self)
        ensures
            r == *self,
    {
        FileInfo { name: self.name.clone(), size: self.size, path: self.path.clone() }
    }
}

/// Files that are probably copies of one another.
#[derive(Debug, Clone)]
pub struct DuplicateGroup {
    /// The key the files share.
    pub hash: String,
    /// The files, in scan order.
    pub files: Vec<FileInfo>,
}

/// How many of `files` have size `k`.
pub open spec fn occurrences(files: Seq<FileInfo>, k: u64) -> nat
    decreases files.len(),
{
    if files.len() == 0 {
        0
    } else {
        occurrences(files.drop_last(), k) + if files.last().size == k { 1nat } else { 0nat }
    }
}

/// The sizes of `files`, each once, in order of first appearance.
pub open spec fn first_sizes(files: Seq<FileInfo>) -> Seq<u64>
    decreases files.len(),
{
    if files.len() == 0 {
        seq![]
    } else {
        let earlier = first_sizes(files.drop_last());
        if earlier.contains(files.last().size) {
            earlier
        } else {
            earlier.push(files.last().size)
        }
    }
}

/// The keys among `keys`, in order, that two or more of `files` have as size.
pub open spec fn shared_keys(keys: Seq<u64>, files: Seq<FileInfo>) -> Seq<u64>
    decreases keys.len(),
{
    if keys.len() == 0 {
        seq![]
    } else {
        let earlier = shared_keys(keys.drop_last(), files);
        if occurrences(files, keys.last()) >= 2 {
            earlier.push(keys.last())
        } else {
            earlier
        }
    }
}

/// The sizes that make a group, in order of first appearance.
pub open spec fn duplicate_sizes(files: Seq<FileInfo>) -> Seq<u64> {
    shared_keys(first_sizes(files), files)
}

/// The files of size `k`, in order.
pub open spec fn files_of_size(files: Seq<FileInfo>, k: u64) -> Seq<FileInfo>
    decreases files.len(),
{
    if files.len() == 0 {
        seq![]
    } else {
        let earlier = files_of_size(files.drop_last(), k);
        if files.last().size == k {
            earlier.push(files.last())
        } else {
            earlier
        }
    }
}

/// The key of the group of size `k`.
pub open spec fn size_key(k: u64) -> Seq<char> {
    "size_"@ + decimal(k as nat)
}

/// Groups the files of a scan by size. There is one group for each size that two or more files
/// share, in order of the size's first appearance; a group holds every file of its size, in scan
/// order, and its key is `size_` followed by the size.
pub fn group_by_size(files: Vec<FileInfo>) -> (r: Vec<DuplicateGroup>)
    ensures
        r.len() == duplicate_sizes(files@).len(),
        forall|j: int|
            #![trigger r[j]]
            0 <= j < r.len() ==> {
                &&& r[j].files@ == files_of_size(files@, duplicate_sizes(files@)[j])
                &&& r[j].hash@ == size_key(duplicate_sizes(files@)[j])
            },
{
    let mut index: HashMap<u64, usize> = HashMap::new();
    let mut keys: Vec<u64> = Vec::new();
    let mut counts: Vec<usize> = Vec::new();
    let mut i: usize = 0;
    while i < files.len()
        invariant
            i <= files.len(),
            keys@ == first_sizes(files@.take(i as int)),
            counts.len() == keys.len(),
            forall|a: int, b: int| 0 <= a < b < keys.len() ==> keys[a] != keys[b],
            forall|j: int|
                0 <= j < keys.len() ==> #[trigger] counts[j] == occurrences(files@.take(i as int), keys[j])
                    && counts[j] <= i,
            forall|k: u64| #[trigger] index@.contains_key(k) <==> keys@.contains(k),
            forall|j: int| 0 <= j < keys.len() ==> #[trigger] index@[keys[j]] == j,
            forall|k: u64| !keys@.contains(k) ==> #[trigger] occurrences(files@.take(i as int), k) == 0,
        decreases files.len() - i,
    {
        let ghost before = files@.take(i as int);
        let ghost old_keys = keys@;
        assert(files@.take(i + 1).drop_last() =~= before);
        let size = files[i].size;
        assert(files@.take(i + 1).last() == files@[i as int]);
        match index.get(&size) {
            Some(j) => {
                let j = *j;
                assert(keys@.contains(size));
                let ghost w = choose|w: int| 0 <= w < keys.len() && keys[w] == size;
                assert(index@[keys[w]] == w);
                assert(keys[j as int] == size);
                let c = counts[j] + 1;
                counts.set(j, c);
            },
            None => {
                assert(!keys@.contains(size));
                index.insert(size, keys.len());
                keys.push(size);
                counts.push(1);
                assert forall|k: u64| #[trigger] index@.contains_key(k) <==> keys@.contains(k) by {
                    if k != size {
                        assert(keys@.contains(k) <==> keys@.drop_last().contains(k)) by {
                            if keys@.contains(k) {
                                let w = choose|w: int| 0 <= w < keys.len() && keys@[w] == k;
                                assert(keys@.drop_last()[w] == k);
                            }
                            if keys@.drop_last().contains(k) {
                                let w = choose|w: int| 0 <= w < keys.len() - 1 && keys@.drop_last()[w] == k;
                                assert(keys@[w] == k);
                            }
                        }
                        assert(keys@.drop_last() =~= first_sizes(before));
                    } else {
                        assert(keys@[keys.len() - 1] == size);
                    }
                }
                assert(keys@[keys.len() - 1] == size);
            },
        }
        assert(keys@.contains(size));
        i = i + 1;
        proof {
            assert(keys@ == first_sizes(files@.take(i as int)));
            assert forall|k: u64| !keys@.contains(k) implies #[trigger] occurrences(files@.take(i as int), k) == 0 by {
                assert(k != size);
                if old_keys.contains(k) {
                    let w = choose|w: int| 0 <= w < old_keys.len() && old_keys[w] == k;
                    assert(keys@[w] == k);
                }
                assert(occurrences(before, k) == 0);
            }
        }
    }
    assert(files@.take(files.len() as int) =~= files@);
    let mut r: Vec<DuplicateGroup> = Vec::new();
    let mut j: usize = 0;
    while j < keys.len()
        invariant
            j <= keys.len(),
            keys@ == first_sizes(files@),
            counts.len() == keys.len(),
            forall|t: int| 0 <= t < keys.len() ==> #[trigger] counts[t] == occurrences(files@, keys[t]),
            r.len() == shared_keys(keys@.take(j as int), files@).len(),
            forall|t: int|
                0 <= t < r.len() ==> {
                    &&& #[trigger] r[t].files@ == files_of_size(files@, shared_keys(keys@.take(j as int), files@)[t])
                    &&& r[t].hash@ == size_key(shared_keys(keys@.take(j as int), files@)[t])
                },
        decreases keys.len() - j,
    {
        assert(keys@.take(j + 1).drop_last() =~= keys@.take(j as int));
        assert(keys@.take(j + 1).last() == keys[j as int]);
        let ghost earlier = shared_keys(keys@.take(j as int), files@);
        assert(counts[j as int] == occurrences(files@, keys[j as int]));
        assert(shared_keys(keys@.take(j + 1), files@) == if occurrences(files@, keys[j as int]) >= 2 {
            earlier.push(keys[j as int])
        } else {
            earlier
        });
        if counts[j] >= 2 {
            let key = keys[j];
            let members = files_with_size(&files, key);
            let mut hash = String::from_str("size_");
            push_decimal(&mut hash, key);
            r.push(DuplicateGroup { hash, files: members });
            assert(r[r.len() - 1].files@ == files_of_size(files@, key));
        }
        j = j + 1;
    }
    assert(keys@.take(keys.len() as int) =~= keys@);
    assert(shared_keys(keys@.take(j as int), files@) == duplicate_sizes(files@));
    assert forall|t: int| #![trigger r[t]] 0 <= t < r.len() implies {
        &&& r[t].files@ == files_of_size(files@, duplicate_sizes(files@)[t])
        &&& r[t].hash@ == size_key(duplicate_sizes(files@)[t])
    } by {
        assert(duplicate_sizes(files@)[t] == shared_keys(keys@.take(j as int), files@)[t]);
    }
    r
}

/// The files of size `k`, cloned, in order.
fn files_with_size(files: &Vec<FileInfo>, k: u64) -> (r: Vec<FileInfo>)
    ensures
        r@ == files_of_size(files@, k),
{
    let mut r: Vec<FileInfo> = Vec::new();
    let mut i: usize = 0;
    while i < files.len()
        invariant
            i <= files.len(),
            r@ == files_of_size(files@.take(i as int), k),
        decreases files.len() - i,
    {
        assert(files@.take(i + 1).drop_last() =~= files@.take(i as int));
        if files[i].size == k {
            r.push(files[i].clone());
        }
        i = i + 1;
    }
    assert(files@.take(files.len() as int) =~= files@);
    r
}

/// The group of size `k` is the subsequence of the scanned files whose size is `k`: each such
/// file once, in scan order, and no other file.
pub proof fn lemma_files_of_size_is_filter(files: Seq<FileInfo>, k: u64)
    ensures
        files_of_size(files, k) == files.filter(|f: FileInfo| f.size == k),
    decreases files.len(),
{
    reveal(Seq::filter);
    if files.len() > 0 {
        lemma_files_of_size_is_filter(files.drop_last(), k);
    }
}

/// The number of files of size `k` is the length of the subsequence of files of that size.
pub proof fn lemma_occurrences_is_filter_len(files: Seq<FileInfo>, k: u64)
    ensures
        occurrences(files, k) == files.filter(|f: FileInfo| f.size == k).len(),
    decreases files.len(),
{
    reveal(Seq::filter);
    if files.len() > 0 {
        lemma_occurrences_is_filter_len(files.drop_last(), k);
    }
}

/// Every scanned file is in the group of its own size, and a group lists each of its files as
/// often as the scan does.
pub proof fn lemma_every_file_in_its_size_group(files: Seq<FileInfo>, i: int)
    requires
        0 <= i < files.len(),
    ensures
        files_of_size(files, files[i].size).contains(files[i]),
        files_of_size(files, files[i].size).to_multiset().count(files[i]) == files.to_multiset().count(files[i]),
{
    let k = files[i].size;
    lemma_files_of_size_is_filter(files, k);
    let pred = |f: FileInfo| f.size == k;
    lemma_filter_count(files, pred, files[i]);
    assert(files.contains(files[i]));
    files.to_multiset_ensures();
    files.filter(pred).to_multiset_ensures();
}

/// Filtering keeps every item the filter accepts as often as it occurs.
proof fn lemma_filter_count<A>(s: Seq<A>, pred: spec_fn(A) -> bool, x: A)
    requires
        pred(x),
    ensures
        s.filter(pred).to_multiset().count(x) == s.to_multiset().count(x),
    decreases s.len(),
{
    reveal(Seq::filter);
    if s.len() > 0 {
        let rest = s.drop_last();
        lemma_filter_count(rest, pred, x);
        assert(s =~= rest.push(s.last()));
        rest.to_multiset_ensures();
        rest.filter(pred).to_multiset_ensures();
    }
}

/// The files of size `k` are exactly `occurrences(files, k)` many, and all have size `k`.
pub proof fn lemma_files_of_size(files: Seq<FileInfo>, k: u64)
    ensures
        files_of_size(files, k).len() == occurrences(files, k),
        forall|m: int| 0 <= m < files_of_size(files, k).len() ==> (#[trigger] files_of_size(files, k)[m]).size == k,
    decreases files.len(),
{
    if files.len() > 0 {
        lemma_files_of_size(files.drop_last(), k);
    }
}

/// A size occurs in `files` exactly when some file has it.
proof fn lemma_occurrences_positive(files: Seq<FileInfo>, k: u64)
    ensures
        occurrences(files, k) > 0 <==> exists|i: int| 0 <= i < files.len() && (#[trigger] files[i]).size == k,
    decreases files.len(),
{
    if files.len() > 0 {
        let rest = files.drop_last();
        lemma_occurrences_positive(rest, k);
        if exists|i: int| 0 <= i < rest.len() && (#[trigger] rest[i]).size == k {
            let i = choose|i: int| 0 <= i < rest.len() && (#[trigger] rest[i]).size == k;
            assert(files[i] == rest[i]);
        }
        if exists|i: int| 0 <= i < files.len() && (#[trigger] files[i]).size == k {
            let i = choose|i: int| 0 <= i < files.len() && (#[trigger] files[i]).size == k;
            if i < files.len() - 1 {
                assert(rest[i] == files[i]);
            }
        }
    }
}

/// The first sizes of `files` hold no size twice, and hold every size that occurs.
proof fn lemma_first_sizes(files: Seq<FileInfo>)
    ensures
        forall|a: int, b: int| 0 <= a < b < first_sizes(files).len() ==> first_sizes(files)[a] != first_sizes(files)[b],
        forall|k: u64| #[trigger] first_sizes(files).contains(k) <==> occurrences(files, k) > 0,
    decreases files.len(),
{
    if files.len() > 0 {
        let rest = files.drop_last();
        lemma_first_sizes(rest);
        let last = files.last().size;
        let earlier = first_sizes(rest);
        assert forall|k: u64| #[trigger] first_sizes(files).contains(k) <==> occurrences(files, k) > 0 by {
            if !earlier.contains(last) && k == last {
                assert(first_sizes(files)[earlier.len() as int] == last);
            }
            if !earlier.contains(last) && first_sizes(files).contains(k) && k != last {
                let w = choose|w: int| 0 <= w < first_sizes(files).len() && first_sizes(files)[w] == k;
                assert(earlier[w] == k);
            }
            if !earlier.contains(last) && earlier.contains(k) {
                let w = choose|w: int| 0 <= w < earlier.len() && earlier[w] == k;
                assert(first_sizes(files)[w] == k);
            }
        }
    } else {
        assert forall|k: u64| #[trigger] first_sizes(files).contains(k) <==> occurrences(files, k) > 0 by {
            assert(first_sizes(files) =~= Seq::<u64>::empty());
        }
    }
}

/// The shared keys are the keys that occur twice or more, each as often as among the keys.
proof fn lemma_shared_keys(keys: Seq<u64>, files: Seq<FileInfo>)
    requires
        forall|a: int, b: int| 0 <= a < b < keys.len() ==> keys[a] != keys[b],
    ensures
        forall|a: int, b: int| 0 <= a < b < shared_keys(keys, files).len() ==> shared_keys(keys, files)[a] != shared_keys(keys, files)[b],
        forall|k: u64| #[trigger] shared_keys(keys, files).contains(k) <==> keys.contains(k) && occurrences(files, k) >= 2,
    decreases keys.len(),
{
    if keys.len() > 0 {
        let rest = keys.drop_last();
        let last = keys.last();
        lemma_shared_keys(rest, files);
        let earlier = shared_keys(rest, files);
        assert forall|k: u64| #[trigger] keys.contains(k) <==> rest.contains(k) || k == last by {
            if keys.contains(k) {
                let w = choose|w: int| 0 <= w < keys.len() && keys[w] == k;
                if w < keys.len() - 1 {
                    assert(rest[w] == k);
                }
            }
            if rest.contains(k) {
                let w = choose|w: int| 0 <= w < rest.len() && rest[w] == k;
                assert(keys[w] == k);
            }
            if k == last {
                assert(keys[keys.len() - 1] == k);
            }
        }
        assert(!rest.contains(last)) by {
            if rest.contains(last) {
                let w = choose|w: int| 0 <= w < rest.len() && rest[w] == last;
                assert(keys[w] == keys[keys.len() - 1]);
            }
        }
        assert(!earlier.contains(last));
        if occurrences(files, last) >= 2 {
            let sk = shared_keys(keys, files);
            assert forall|a: int, b: int| 0 <= a < b < sk.len() implies sk[a] != sk[b] by {
                if b == earlier.len() {
                    assert(earlier[a] == sk[a]);
                    assert(earlier.contains(sk[a]));
                }
            }
        }
        assert forall|k: u64| #[trigger] shared_keys(keys, files).contains(k) <==> keys.contains(k) && occurrences(files, k) >= 2 by {
            if occurrences(files, last) >= 2 {
                if shared_keys(keys, files).contains(k) && k != last {
                    let w = choose|w: int| 0 <= w < shared_keys(keys, files).len() && shared_keys(keys, files)[w] == k;
                    assert(earlier[w] == k);
                }
                if earlier.contains(k) {
                    let w = choose|w: int| 0 <= w < earlier.len() && earlier[w] == k;
                    assert(shared_keys(keys, files)[w] == k);
                }
                if k == last {
                    assert(shared_keys(keys, files)[earlier.len() as int] == k);
                }
            }
        }
    } else {
        assert forall|k: u64| #[trigger] shared_keys(keys, files).contains(k) <==> keys.contains(k) && occurrences(files, k) >= 2 by {
            assert(shared_keys(keys, files) =~= Seq::<u64>::empty());
        }
    }
}

/// What the duplicate groups of a scan promise: every group holds two or more files, all of its
/// size; no two groups are of one size; and every file whose size another file shares is in
/// the group of that size.
pub proof fn lemma_duplicate_groups(files: Seq<FileInfo>)
    ensures
        forall|j: int|
            0 <= j < duplicate_sizes(files).len() ==> files_of_size(files, #[trigger] duplicate_sizes(files)[j]).len() >= 2,
        forall|j: int, m: int|
            0 <= j < duplicate_sizes(files).len() && 0 <= m < files_of_size(files, duplicate_sizes(files)[j]).len()
                ==> (#[trigger] files_of_size(files, #[trigger] duplicate_sizes(files)[j])[m]).size == duplicate_sizes(files)[j],
        forall|a: int, b: int|
            0 <= a < b < duplicate_sizes(files).len() ==> duplicate_sizes(files)[a] != duplicate_sizes(files)[b],
        forall|i: int|
            0 <= i < files.len() && occurrences(files, (#[trigger] files[i]).size) >= 2 ==> duplicate_sizes(files).contains(files[i].size),
{
    lemma_first_sizes(files);
    lemma_shared_keys(first_sizes(files), files);
    let ds = duplicate_sizes(files);
    assert forall|j: int| 0 <= j < ds.len() implies files_of_size(files, #[trigger] ds[j]).len() >= 2 by {
        assert(ds.contains(ds[j]));
        lemma_files_of_size(files, ds[j]);
    }
    assert forall|j: int, m: int|
        0 <= j < ds.len() && 0 <= m < files_of_size(files, ds[j]).len() implies (#[trigger] files_of_size(files, #[trigger] ds[j])[m]).size == ds[j] by {
        lemma_files_of_size(files, ds[j]);
    }
    assert forall|i: int| 0 <= i < files.len() && occurrences(files, (#[trigger] files[i]).size) >= 2 implies ds.contains(files[i].size) by {
        lemma_occurrences_positive(files, files[i].size);
        assert(first_sizes(files).contains(files[i].size));
    }
}

/// How many times `k` occurs in `s`.
pub open spec fn count_in<T>(s: Seq<T>, k: T) -> nat
    decreases s.len(),
{
    if s.len() == 0 {
        0
    } else {
        count_in(s.drop_last(), k) + if s.last() == k { 1nat } else { 0nat }
    }
}

/// The values of `s`, each once, in order of first appearance.
pub open spec fn distinct_in_order<T>(s: Seq<T>) -> Seq<T>
    decreases s.len(),
{
    if s.len() == 0 {
        seq![]
    } else {
        let earlier = distinct_in_order(s.drop_last());
        if earlier.contains(s.last()) {
            earlier
        } else {
            earlier.push(s.last())
        }
    }
}

/// The keys among `keys`, in order, that occur two or more times in `s`.
pub open spec fn repeated_keys<T>(keys: Seq<T>, s: Seq<T>) -> Seq<T>
    decreases keys.len(),
{
    if keys.len() == 0 {
        seq![]
    } else {
        let earlier = repeated_keys(keys.drop_last(), s);
        if count_in(s, keys.last()) >= 2 {
            earlier.push(keys.last())
        } else {
            earlier
        }
    }
}

/// The items whose tag (at the same position) is `k`, in order.
pub open spec fn picked<A, T>(items: Seq<A>, tags: Seq<T>, k: T) -> Seq<A>
    decreases items.len(),
{
    if items.len() == 0 || tags.len() == 0 {
        seq![]
    } else {
        let earlier = picked(items.drop_last(), tags.drop_last(), k);
        if tags.last() == k {
            earlier.push(items.last())
        } else {
            earlier
        }
    }
}

/// The bytes of a list of byte vectors.
pub open spec fn byte_views(s: Seq<Vec<u8>>) -> Seq<Seq<u8>> {
    s.map_values(|v: Vec<u8>| v@)
}

/// The contents that two or more files of a size group share, in order of first appearance.
pub open spec fn content_classes(contents: Seq<Seq<u8>>) -> Seq<Seq<u8>> {
    repeated_keys(distinct_in_order(contents), contents)
}

/// The duplicate groups of a size group with files `files` and contents `contents`: for each
/// shared content, the files that have it, and the content.
pub open spec fn group_classes(files: Seq<FileInfo>, contents: Seq<Seq<u8>>) -> Seq<(Seq<FileInfo>, Seq<u8>)> {
    content_classes(contents).map_values(|k: Seq<u8>| (picked(files, contents, k), k))
}

/// The key of a duplicate group: its files' size and the digest of their shared content by
/// std's `DefaultHasher`.
pub open spec fn content_key(size: u64, content: Seq<u8>) -> Seq<char> {
    "size_"@ + decimal(size as nat) + "_"@ + decimal(DefaultHasher::spec_finish(seq![content]) as nat)
}

/// Whether two byte vectors hold the same bytes.
pub fn same_bytes(a: &Vec<u8>, b: &Vec<u8>) -> (r: bool)
    ensures
        r == (a@ == b@),
{
    if a.len() != b.len() {
        return false;
    }
    let mut i: usize = 0;
    while i < a.len()
        invariant
            i <= a.len(),
            a.len() == b.len(),
            forall|q: int| 0 <= q < i ==> a@[q] == b@[q],
        decreases a.len() - i,
    {
        if a[i] != b[i] {
            return false;
        }
        i = i + 1;
    }
    assert(a@ =~= b@);
    true
}

/// The digest of `bytes` by std's `DefaultHasher`.
fn content_digest(bytes: &Vec<u8>) -> (r: u64)
    ensures
        r == DefaultHasher::spec_finish(seq![bytes@]),
{
    broadcast use vstd::std_specs::hash::group_hash_axioms;

    let mut h = DefaultHasher::new();
    h.write(bytes.as_slice());
    assert(h@ =~= seq![bytes@]);
    h.finish()
}

/// Splits one size group by content: the files whose contents (given in the same order as the
/// files) are byte-for-byte equal form a group, for each content that two or more files share,
/// in order of first appearance; files of unshared content are left out. Each group's key is
/// its size and the digest of its content.
pub fn split_by_content(group: &DuplicateGroup, contents: &Vec<Vec<u8>>) -> (r: Vec<DuplicateGroup>)
    requires
        contents.len() == group.files.len(),
    ensures
        r.len() == group_classes(group.files@, byte_views(contents@)).len(),
        forall|j: int|
            0 <= j < r.len() ==> {
                let c = #[trigger] group_classes(group.files@, byte_views(contents@))[j];
                &&& r[j].files@ == c.0
                &&& r[j].hash@ == content_key(c.0[0].size, c.1)
            },
{
    let ghost cs = byte_views(contents@);
    let mut firsts: Vec<usize> = Vec::new();
    let mut counts: Vec<usize> = Vec::new();
    let mut i: usize = 0;
    while i < contents.len()
        invariant
            i <= contents.len(),
            cs == byte_views(contents@),
            counts.len() == firsts.len(),
            forall|j: int| 0 <= j < firsts.len() ==> (#[trigger] firsts@[j]) < i,
            firsts@.map_values(|p: usize| cs[p as int]) == distinct_in_order(cs.take(i as int)),
            forall|j: int|
                0 <= j < firsts.len() ==> #[trigger] counts@[j] == count_in(cs.take(i as int), cs[firsts@[j] as int])
                    && counts@[j] <= i,
            forall|k: Seq<u8>|
                !distinct_in_order(cs.take(i as int)).contains(k) ==> #[trigger] count_in(cs.take(i as int), k) == 0,
        decreases contents.len() - i,
    {
        let ghost before = cs.take(i as int);
        let ghost old_keys = distinct_in_order(before);
        assert(cs.take(i + 1).drop_last() =~= before);
        assert(cs.take(i + 1).last() == cs[i as int]);
        assert(cs[i as int] == contents@[i as int]@);
        proof {
            lemma_distinct_in_order(before);
        }
        let mut j: usize = 0;
        let mut found = false;
        assert(firsts@.map_values(|p: usize| cs[p as int]).len() == firsts.len());
        while j < firsts.len() && !found
            invariant
                j <= firsts.len(),
                i < contents.len(),
                cs == byte_views(contents@),
                firsts@.map_values(|p: usize| cs[p as int]) == old_keys,
                old_keys.len() == firsts.len(),
                forall|q: int| 0 <= q < firsts.len() ==> (#[trigger] firsts@[q]) < i,
                found ==> j < firsts.len() && cs[firsts@[j as int] as int] == cs[i as int],
                forall|q: int| 0 <= q < j ==> cs[(#[trigger] firsts@[q]) as int] != cs[i as int],
            decreases firsts.len() - j + if found { 0int } else { 1int },
        {
            assert(cs[firsts@[j as int] as int] == contents@[firsts@[j as int] as int]@);
            if same_bytes(&contents[firsts[j]], &contents[i]) {
                found = true;
            } else {
                j = j + 1;
            }
        }
        proof {
            assert forall|k: Seq<u8>| #[trigger] count_in(cs.take(i + 1), k) == count_in(before, k) + if cs[i as int] == k { 1nat } else { 0nat } by {
            }
            assert forall|q: int| 0 <= q < firsts.len() implies #[trigger] old_keys[q] == cs[firsts@[q] as int] by {
                assert(firsts@.map_values(|p: usize| cs[p as int])[q] == cs[firsts@[q] as int]);
            }
        }
        if found {
            assert(old_keys[j as int] == cs[i as int]);
            assert(old_keys.contains(cs[i as int]));
            let c = counts[j] + 1;
            counts.set(j, c);
            proof {
                assert forall|q: int| 0 <= q < firsts.len() && q != j implies cs[(#[trigger] firsts@[q]) as int] != cs[i as int] by {
                    assert(old_keys[q] == cs[firsts@[q] as int]);
                    assert(old_keys[q] != old_keys[j as int]);
                }
            }
        } else {
            assert(!old_keys.contains(cs[i as int])) by {
                if old_keys.contains(cs[i as int]) {
                    let w = choose|w: int| 0 <= w < old_keys.len() && old_keys[w] == cs[i as int];
                    assert(old_keys[w] == cs[firsts@[w] as int]);
                }
            }
            firsts.push(i);
            counts.push(1);
            assert(firsts@.map_values(|p: usize| cs[p as int]) =~= old_keys.push(cs[i as int]));
        }
        i = i + 1;
        proof {
            assert forall|k: Seq<u8>| !distinct_in_order(cs.take(i as int)).contains(k) implies #[trigger] count_in(cs.take(i as int), k) == 0 by {
                let now = distinct_in_order(cs.take(i as int));
                assert(now.contains(cs[i - 1])) by {
                    if found {
                        assert(now == old_keys);
                    } else {
                        assert(now[now.len() - 1] == cs[i - 1]);
                    }
                }
                if old_keys.contains(k) {
                    let w = choose|w: int| 0 <= w < old_keys.len() && old_keys[w] == k;
                    assert(now[w] == k);
                }
            }
        }
    }
    assert(cs.take(contents.len() as int) =~= cs);
    let ghost keys = distinct_in_order(cs);
    let mut r: Vec<DuplicateGroup> = Vec::new();
    let mut j: usize = 0;
    while j < firsts.len()
        invariant
            j <= firsts.len(),
            contents.len() == group.files.len(),
            cs == byte_views(contents@),
            counts.len() == firsts.len(),
            forall|q: int| 0 <= q < firsts.len() ==> (#[trigger] firsts@[q]) < contents.len(),
            firsts@.map_values(|p: usize| cs[p as int]) == keys,
            keys == distinct_in_order(cs),
            forall|q: int| 0 <= q < firsts.len() ==> #[trigger] counts@[q] == count_in(cs, cs[firsts@[q] as int]),
            r.len() == repeated_keys(keys.take(j as int), cs).len(),
            forall|t: int|
                0 <= t < r.len() ==> {
                    let k = #[trigger] repeated_keys(keys.take(j as int), cs)[t];
                    &&& r[t].files@ == picked(group.files@, cs, k)
                    &&& r[t].hash@ == content_key(picked(group.files@, cs, k)[0].size, k)
                },
        decreases firsts.len() - j,
    {
        let ghost earlier = repeated_keys(keys.take(j as int), cs);
        let ghost k = keys[j as int];
        assert(keys.take(j + 1).drop_last() =~= keys.take(j as int));
        assert(keys.take(j + 1).last() == k);
        assert(k == cs[firsts@[j as int] as int]);
        assert(repeated_keys(keys.take(j + 1), cs) == if count_in(cs, k) >= 2 { earlier.push(k) } else { earlier });
        if counts[j] >= 2 {
            let p = firsts[j];
            assert(cs[p as int] == contents@[p as int]@);
            let members = files_with_content(&group.files, contents, p);
            proof {
                lemma_picked_len(group.files@, cs, k);
            }
            let mut hash = String::from_str("size_");
            push_decimal(&mut hash, members[0].size);
            hash.append("_");
            push_decimal(&mut hash, content_digest(&contents[p]));
            r.push(DuplicateGroup { hash, files: members });
        }
        j = j + 1;
    }
    assert(keys.take(firsts.len() as int) =~= keys);
    proof {
        assert(firsts@.map_values(|p: usize| cs[p as int]).len() == firsts.len());
        let gc = group_classes(group.files@, cs);
        assert forall|t: int| 0 <= t < r.len() implies {
            let c = #[trigger] gc[t];
            &&& r[t].files@ == c.0
            &&& r[t].hash@ == content_key(c.0[0].size, c.1)
        } by {
            assert(gc[t] == (picked(group.files@, cs, content_classes(cs)[t]), content_classes(cs)[t]));
        }
    }
    r
}

/// The files whose content equals the content at position `p`, cloned, in order.
fn files_with_content(files: &Vec<FileInfo>, contents: &Vec<Vec<u8>>, p: usize) -> (r: Vec<FileInfo>)
    requires
        contents.len() == files.len(),
        p < contents.len(),
    ensures
        r@ == picked(files@, byte_views(contents@), contents@[p as int]@),
{
    let ghost cs = byte_views(contents@);
    let ghost k = contents@[p as int]@;
    let mut r: Vec<FileInfo> = Vec::new();
    let mut i: usize = 0;
    while i < files.len()
        invariant
            i <= files.len(),
            contents.len() == files.len(),
            p < contents.len(),
            cs == byte_views(contents@),
            k == contents@[p as int]@,
            r@ == picked(files@.take(i as int), cs.take(i as int), k),
        decreases files.len() - i,
    {
        assert(files@.take(i + 1).drop_last() =~= files@.take(i as int));
        assert(cs.take(i + 1).drop_last() =~= cs.take(i as int));
        assert(cs.take(i + 1).last() == contents@[i as int]@);
        if same_bytes(&contents[i], &contents[p]) {
            r.push(files[i].clone());
        }
        i = i + 1;
    }
    assert(files@.take(files.len() as int) =~= files@);
    assert(cs.take(files.len() as int) =~= cs);
    r
}

/// As many items are picked for `k` as `k` occurs among the tags.
pub proof fn lemma_picked_len<A, T>(items: Seq<A>, tags: Seq<T>, k: T)
    requires
        items.len() == tags.len(),
    ensures
        picked(items, tags, k).len() == count_in(tags, k),
    decreases items.len(),
{
    if items.len() > 0 {
        lemma_picked_len(items.drop_last(), tags.drop_last(), k);
    }
}

/// The distinct values of `s` hold no value twice, and hold exactly the values of `s`.
pub proof fn lemma_distinct_in_order<T>(s: Seq<T>)
    ensures
        forall|a: int, b: int| 0 <= a < b < distinct_in_order(s).len() ==> distinct_in_order(s)[a] != distinct_in_order(s)[b],
        forall|k: T| #[trigger] distinct_in_order(s).contains(k) <==> count_in(s, k) > 0,
    decreases s.len(),
{
    if s.len() > 0 {
        let rest = s.drop_last();
        lemma_distinct_in_order(rest);
        let last = s.last();
        let earlier = distinct_in_order(rest);
        assert forall|k: T| #[trigger] distinct_in_order(s).contains(k) <==> count_in(s, k) > 0 by {
            if !earlier.contains(last) && k == last {
                assert(distinct_in_order(s)[earlier.len() as int] == last);
            }
            if !earlier.contains(last) && distinct_in_order(s).contains(k) && k != last {
                let w = choose|w: int| 0 <= w < distinct_in_order(s).len() && distinct_in_order(s)[w] == k;
                assert(earlier[w] == k);
            }
            if !earlier.contains(last) && earlier.contains(k) {
                let w = choose|w: int| 0 <= w < earlier.len() && earlier[w] == k;
                assert(distinct_in_order(s)[w] == k);
            }
        }
    } else {
        assert forall|k: T| #[trigger] distinct_in_order(s).contains(k) <==> count_in(s, k) > 0 by {
            assert(distinct_in_order(s) =~= Seq::<T>::empty());
        }
    }
}

/// The repeated keys are the keys that occur twice or more in `s`, each once.
pub proof fn lemma_repeated_keys<T>(keys: Seq<T>, s: Seq<T>)
    requires
        forall|a: int, b: int| 0 <= a < b < keys.len() ==> keys[a] != keys[b],
    ensures
        forall|a: int, b: int| 0 <= a < b < repeated_keys(keys, s).len() ==> repeated_keys(keys, s)[a] != repeated_keys(keys, s)[b],
        forall|k: T| #[trigger] repeated_keys(keys, s).contains(k) <==> keys.contains(k) && count_in(s, k) >= 2,
    decreases keys.len(),
{
    if keys.len() > 0 {
        let rest = keys.drop_last();
        let last = keys.last();
        lemma_repeated_keys(rest, s);
        let earlier = repeated_keys(rest, s);
        let now = repeated_keys(keys, s);
        assert forall|k: T| #[trigger] keys.contains(k) <==> rest.contains(k) || k == last by {
            if keys.contains(k) {
                let w = choose|w: int| 0 <= w < keys.len() && keys[w] == k;
                if w < keys.len() - 1 {
                    assert(rest[w] == k);
                }
            }
            if rest.contains(k) {
                let w = choose|w: int| 0 <= w < rest.len() && rest[w] == k;
                assert(keys[w] == k);
            }
            if k == last {
                assert(keys[keys.len() - 1] == k);
            }
        }
        assert(!rest.contains(last)) by {
            if rest.contains(last) {
                let w = choose|w: int| 0 <= w < rest.len() && rest[w] == last;
                assert(keys[w] == keys[keys.len() - 1]);
            }
        }
        if count_in(s, last) >= 2 {
            assert forall|a: int, b: int| 0 <= a < b < now.len() implies now[a] != now[b] by {
                if b == earlier.len() {
                    assert(earlier[a] == now[a]);
                    assert(earlier.contains(now[a]));
                }
            }
        }
        assert forall|k: T| #[trigger] now.contains(k) <==> keys.contains(k) && count_in(s, k) >= 2 by {
            if count_in(s, last) >= 2 {
                if now.contains(k) && k != last {
                    let w = choose|w: int| 0 <= w < now.len() && now[w] == k;
                    assert(earlier[w] == k);
                }
                if earlier.contains(k) {
                    let w = choose|w: int| 0 <= w < earlier.len() && earlier[w] == k;
                    assert(now[w] == k);
                }
                if k == last {
                    assert(now[earlier.len() as int] == k);
                }
            }
        }
    } else {
        assert forall|k: T| #[trigger] repeated_keys(keys, s).contains(k) <==> keys.contains(k) && count_in(s, k) >= 2 by {
            assert(repeated_keys(keys, s) =~= Seq::<T>::empty());
        }
    }
}

/// How often a value occurs in `s` is positive exactly when it stands at some position.
proof fn lemma_count_in_positive<T>(s: Seq<T>, i: int)
    requires
        0 <= i < s.len(),
    ensures
        count_in(s, s[i]) > 0,
    decreases s.len(),
{
    if i < s.len() - 1 {
        lemma_count_in_positive(s.drop_last(), i);
        assert(s.drop_last()[i] == s[i]);
    }
}

/// What the content groups of one size group promise: each group holds the files of one
/// content, two or more of them; no two groups are of one content; and every file whose
/// content another file of the size group shares is in the group of that content.
pub proof fn lemma_content_groups(files: Seq<FileInfo>, contents: Seq<Seq<u8>>)
    requires
        files.len() == contents.len(),
    ensures
        group_classes(files, contents).len() == content_classes(contents).len(),
        forall|j: int|
            #![trigger group_classes(files, contents)[j]]
            0 <= j < group_classes(files, contents).len() ==> {
                let c = group_classes(files, contents)[j];
                &&& c.0 == picked(files, contents, c.1)
                &&& c.0.len() >= 2
            },
        forall|a: int, b: int|
            0 <= a < b < group_classes(files, contents).len() ==> group_classes(files, contents)[a].1
                != group_classes(files, contents)[b].1,
        forall|i: int|
            0 <= i < contents.len() && count_in(contents, #[trigger] contents[i]) >= 2 ==> exists|j: int|
                0 <= j < group_classes(files, contents).len() && #[trigger] group_classes(files, contents)[j].1
                    == contents[i],
{
    let keys = distinct_in_order(contents);
    lemma_distinct_in_order(contents);
    lemma_repeated_keys(keys, contents);
    let cc = content_classes(contents);
    let gc = group_classes(files, contents);
    assert forall|j: int| #![trigger gc[j]] 0 <= j < gc.len() implies {
        let c = gc[j];
        &&& c.0 == picked(files, contents, c.1)
        &&& c.0.len() >= 2
    } by {
        assert(cc.contains(cc[j]));
        lemma_picked_len(files, contents, cc[j]);
    }
    assert forall|a: int, b: int| 0 <= a < b < gc.len() implies gc[a].1 != gc[b].1 by {
        assert(gc[a].1 == cc[a] && gc[b].1 == cc[b]);
    }
    assert forall|i: int| 0 <= i < contents.len() && count_in(contents, #[trigger] contents[i]) >= 2 implies exists|j: int|
        0 <= j < gc.len() && #[trigger] gc[j].1 == contents[i] by {
        lemma_count_in_positive(contents, i);
        assert(cc.contains(contents[i]));
        let j = choose|j: int| 0 <= j < cc.len() && cc[j] == contents[i];
        assert(gc[j].1 == cc[j]);
    }
}

/// How often `k` occurs in `s` is the length of the subsequence of items equal to `k`.
pub proof fn lemma_count_in_is_filter_len<T>(s: Seq<T>, k: T)
    ensures
        count_in(s, k) == s.filter(|x: T| x == k).len(),
    decreases s.len(),
{
    reveal(Seq::filter);
    if s.len() > 0 {
        lemma_count_in_is_filter_len(s.drop_last(), k);
    }
}

/// The files picked for content `k` are those whose content is `k`, each once, in order: the
/// picked files of a list extended by one file are the earlier ones, followed by that file
/// exactly when its content is `k`.
pub proof fn lemma_picked_one_more<A, T>(items: Seq<A>, tags: Seq<T>, x: A, t: T, k: T)
    requires
        items.len() == tags.len(),
    ensures
        t == k ==> picked(items.push(x), tags.push(t), k) == picked(items, tags, k).push(x),
        t != k ==> picked(items.push(x), tags.push(t), k) == picked(items, tags, k),
{
    assert(items.push(x).drop_last() =~= items);
    assert(tags.push(t).drop_last() =~= tags);
}

/// A size group's key is `size_` and the size in decimal; a content group's key adds `_` and
/// the `DefaultHasher` digest of the shared content, in decimal.
pub proof fn lemma_group_keys(size: u64, content: Seq<u8>)
    ensures
        size_key(size) == "size_"@ + decimal(size as nat),
        content_key(size, content) == size_key(size) + "_"@ + decimal(
            DefaultHasher::spec_finish(seq![content]) as nat,
        ),
{
}

} // verus!
