//! Planning the batch rename of a folder: every file becomes `prefix`, a running number and
//! its own extension.

use vstd::prelude::*;

use crate::common::text::{
    decimal, dot_free, lemma_decimal_dot_free, lemma_decimal_injective, lemma_split_at_first_dot,
    lemma_strip_prefix, push_decimal, same_text,
};
use crate::common::types::DirEntryInfo;

verus! {

/// One rename of a plan: the file at `from` gets the file name `to_name` in the same folder.
#[derive(Debug, Clone)]
pub struct RenameStep {
    /// The position of the file in the listing the plan was made from.
    pub entry: usize,
    /// The current path of the file.
    pub from: String,
    /// The new file name.
    pub to_name: String,
}

/// The new name of the file numbered `n` with extension `ext`.
pub open spec fn renamed_name(prefix: Seq<char>, n: nat, ext: Seq<char>) -> Seq<char> {
    prefix + decimal(n) + "."@ + ext
}

/// The extension of an entry, empty where it has none.
pub open spec fn ext_text(e: DirEntryInfo) -> Seq<char> {
    match e.extension {
        Some(x) => x@,
        None => seq![],
    }
}

/// The regular files among `entries`, in listing order.
pub open spec fn files_of(entries: Seq<DirEntryInfo>) -> Seq<DirEntryInfo>
    decreases entries.len(),
{
    if entries.len() == 0 {
        seq![]
    } else {
        let rest = files_of(entries.drop_last());
        if entries.last().is_file {
            rest.push(entries.last())
        } else {
            rest
        }
    }
}

/// The answer when the folder to rename in is not a folder.
pub open spec fn missing_folder_text() -> Seq<char> {
    "目标文件夹不存在"@
}

/// Refuses a rename whose target is not an existing folder.
pub fn check_rename_folder(is_dir: bool) -> (r: Result<(), String>)
    ensures
        r is Ok <==> is_dir,
        r matches Err(m) ==> m@ == missing_folder_text(),
{
    if is_dir {
        Ok(())
    } else {
        Err(String::from_str("目标文件夹不存在"))
    }
}

/// The new name of the `k`-th file of a listing.
pub open spec fn target_name(prefix: Seq<char>, start_num: nat, entries: Seq<DirEntryInfo>, k: int) -> Seq<char> {
    renamed_name(prefix, (start_num + k) as nat, ext_text(files_of(entries)[k]))
}

/// Whether the `k`-th rename of a listing would land on a name that is still taken when it
/// runs: by an entry that is not renamed (not a regular file), or by a file renamed later.
pub open spec fn conflict_at(prefix: Seq<char>, start_num: nat, entries: Seq<DirEntryInfo>, k: int) -> bool {
    let t = target_name(prefix, start_num, entries, k);
    ||| exists|e: int| 0 <= e < entries.len() && !(#[trigger] entries[e]).is_file && entries[e].name@ == t
    ||| exists|j: int| k < j < files_of(entries).len() && (#[trigger] files_of(entries)[j]).name@ == t
}

/// The answer when a new name is still taken.
pub open spec fn name_taken_text(name: Seq<char>) -> Seq<char> {
    "目标文件名已存在: "@ + name
}

/// The rename plan for a folder's listing: its regular files, in listing order, are numbered
/// from `start_num` and named `prefix`, the number, a dot and the file's own extension. The plan
/// is refused when a rename would land on a name that is still taken at that point, so that
/// carrying the plan out in order never replaces a file; the refusal names the first such target.
pub fn rename_plan(prefix: &str, start_num: u32, entries: &Vec<DirEntryInfo>) -> (r: Result<Vec<RenameStep>, String>)
    requires
        start_num + files_of(entries@).len() <= u32::MAX + 1,
    ensures
        r is Ok <==> forall|k: int| 0 <= k < files_of(entries@).len() ==> !conflict_at(prefix@, start_num as nat, entries@, k),
        r matches Err(m) ==> exists|k: int|
            0 <= k < files_of(entries@).len() && conflict_at(prefix@, start_num as nat, entries@, k)
                && (forall|q: int| 0 <= q < k ==> !conflict_at(prefix@, start_num as nat, entries@, q))
                && m@ == name_taken_text(target_name(prefix@, start_num as nat, entries@, k)),
        r matches Ok(plan) ==> {
            &&& plan.len() == files_of(entries@).len()
            &&& forall|i: int|
                0 <= i < plan.len() ==> {
                    &&& (#[trigger] plan@[i]).from@ == files_of(entries@)[i].path@
                    &&& plan[i].entry < entries.len()
                    &&& entries@[plan[i].entry as int] == files_of(entries@)[i]
                    &&& plan[i].to_name@ == target_name(prefix@, start_num as nat, entries@, i)
                }
        },
{
    let steps = numbered_steps(prefix, start_num, entries);
    let mut k: usize = 0;
    while k < steps.len()
        invariant
            k <= steps.len(),
            steps.len() == files_of(entries@).len(),
            forall|i: int|
                0 <= i < steps.len() ==> {
                    &&& (#[trigger] steps@[i]).from@ == files_of(entries@)[i].path@
                    &&& steps[i].entry < entries.len()
                    &&& entries@[steps[i].entry as int] == files_of(entries@)[i]
                    &&& steps[i].to_name@ == target_name(prefix@, start_num as nat, entries@, i)
                },
            forall|q: int| 0 <= q < k ==> !conflict_at(prefix@, start_num as nat, entries@, q),
        decreases steps.len() - k,
    {
        let t = steps[k].to_name.as_str();
        let ghost files = files_of(entries@);
        let ghost tn = target_name(prefix@, start_num as nat, entries@, k as int);
        assert(steps@[k as int].to_name@ == tn);
        assert(t@ == tn);
        let by_entry = held_by_unmoved_entry(entries, t);
        let by_later = held_by_later_file(entries, &steps, k, t);
        proof {
            if by_later {
                let j = choose|j: int| k < j < steps.len() && (#[trigger] entries@[steps@[j].entry as int]).name@ == t@;
                assert(steps@[j].entry < entries.len());
                assert(files[j].name@ == t@);
                assert(conflict_at(prefix@, start_num as nat, entries@, k as int));
            }
            if by_entry {
                assert(conflict_at(prefix@, start_num as nat, entries@, k as int));
            }
            if !by_entry && !by_later {
                assert forall|j: int| k < j < files.len() implies (#[trigger] files[j]).name@ != tn by {
                    assert(entries@[steps@[j].entry as int] == files[j]);
                }
                assert(!conflict_at(prefix@, start_num as nat, entries@, k as int));
            }
        }
        if by_entry || by_later {
            let mut m = String::from_str("目标文件名已存在: ");
            m.append(t);
            return Err(m);
        }
        k = k + 1;
    }
    Ok(steps)
}

/// Whether an entry that is not a regular file is named `name`.
fn held_by_unmoved_entry(entries: &Vec<DirEntryInfo>, name: &str) -> (r: bool)
    ensures
        r == exists|e: int| 0 <= e < entries.len() && !(#[trigger] entries@[e]).is_file && entries@[e].name@ == name@,
{
    let mut i: usize = 0;
    while i < entries.len()
        invariant
            i <= entries.len(),
            forall|e: int| 0 <= e < i ==> !(!(#[trigger] entries@[e]).is_file && entries@[e].name@ == name@),
        decreases entries.len() - i,
    {
        if !entries[i].is_file && same_text(entries[i].name.as_str(), name) {
            return true;
        }
        i = i + 1;
    }
    false
}

/// Whether a file that a step after step `k` renames is named `name`.
fn held_by_later_file(entries: &Vec<DirEntryInfo>, steps: &Vec<RenameStep>, k: usize, name: &str) -> (r: bool)
    requires
        forall|i: int| 0 <= i < steps.len() ==> (#[trigger] steps@[i]).entry < entries.len(),
    ensures
        r == exists|j: int| k < j < steps.len() && (#[trigger] entries@[steps@[j].entry as int]).name@ == name@,
{
    if k >= steps.len() {
        return false;
    }
    let mut j: usize = k + 1;
    while j < steps.len()
        invariant
            k < j <= steps.len(),
            forall|i: int| 0 <= i < steps.len() ==> (#[trigger] steps@[i]).entry < entries.len(),
            forall|q: int| k < q < j ==> (#[trigger] entries@[steps@[q].entry as int]).name@ != name@,
        decreases steps.len() - j,
    {
        if same_text(entries[steps[j].entry].name.as_str(), name) {
            return true;
        }
        j = j + 1;
    }
    false
}

/// The numbered renames of a listing's regular files, before any check for taken names.
fn numbered_steps(prefix: &str, start_num: u32, entries: &Vec<DirEntryInfo>) -> (r: Vec<RenameStep>)
    requires
        start_num + files_of(entries@).len() <= u32::MAX + 1,
    ensures
        r.len() == files_of(entries@).len(),
        forall|i: int|
            0 <= i < r.len() ==> {
                &&& (#[trigger] r@[i]).from@ == files_of(entries@)[i].path@
                &&& r[i].entry < entries.len()
                &&& entries@[r[i].entry as int] == files_of(entries@)[i]
                &&& r[i].to_name@ == target_name(prefix@, start_num as nat, entries@, i)
            },
{
    let mut r: Vec<RenameStep> = Vec::new();
    let mut i: usize = 0;
    while i < entries.len()
        invariant
            i <= entries.len(),
            start_num + files_of(entries@).len() <= u32::MAX + 1,
            r.len() == files_of(entries@.take(i as int)).len(),
            forall|k: int|
                0 <= k < r.len() ==> {
                    &&& #[trigger] r[k].from@ == files_of(entries@.take(i as int))[k].path@
                    &&& r[k].entry < i
                    &&& entries@[r[k].entry as int] == files_of(entries@.take(i as int))[k]
                    &&& r[k].to_name@ == renamed_name(
                        prefix@,
                        (start_num + k) as nat,
                        ext_text(files_of(entries@.take(i as int))[k]),
                    )
                },
        decreases entries.len() - i,
    {
        assert(entries@.take(i + 1).drop_last() =~= entries@.take(i as int));
        proof {
            lemma_files_of_prefix_len(entries@, i as int + 1);
        }
        let e = &entries[i];
        if e.is_file {
            let number: u64 = start_num as u64 + r.len() as u64;
            let mut name = String::from_str(prefix);
            push_decimal(&mut name, number);
            name.append(".");
            match &e.extension {
                Some(x) => name.append(x.as_str()),
                None => {},
            }
            r.push(RenameStep { entry: i, from: e.path.clone(), to_name: name });
        }
        i = i + 1;
    }
    assert(entries@.take(entries.len() as int) =~= entries@);
    r
}

/// A prefix of a listing has no more files than the whole listing.
proof fn lemma_files_of_prefix_len(entries: Seq<DirEntryInfo>, n: int)
    requires
        0 <= n <= entries.len(),
    ensures
        files_of(entries.take(n)).len() <= files_of(entries).len(),
    decreases entries.len() - n,
{
    if n < entries.len() {
        lemma_files_of_prefix_len(entries, n + 1);
        assert(entries.take(n + 1).drop_last() =~= entries.take(n));
    } else {
        assert(entries.take(n) =~= entries);
    }
}

/// Two files with different numbers never get the same new name, whatever their extensions,
/// as long as no extension holds a dot (an extension is the text after the last dot of a name).
pub proof fn lemma_renamed_names_differ(prefix: Seq<char>, a: nat, b: nat, ea: Seq<char>, eb: Seq<char>)
    requires
        a != b,
        dot_free(ea),
        dot_free(eb),
    ensures
        renamed_name(prefix, a, ea) != renamed_name(prefix, b, eb),
{
    reveal_strlit(".");
    if renamed_name(prefix, a, ea) == renamed_name(prefix, b, eb) {
        assert(renamed_name(prefix, a, ea) =~= prefix + (decimal(a) + seq!['.'] + ea));
        assert(renamed_name(prefix, b, eb) =~= prefix + (decimal(b) + seq!['.'] + eb));
        lemma_strip_prefix(prefix, decimal(a) + seq!['.'] + ea, decimal(b) + seq!['.'] + eb);
        lemma_decimal_dot_free(a);
        lemma_decimal_dot_free(b);
        lemma_split_at_first_dot(decimal(a), ea, decimal(b), eb);
        lemma_decimal_injective(a, b);
    }
}

/// A rename plan never sends two files of a folder to the same name, as long as no extension
/// holds a dot.
pub proof fn lemma_rename_plan_targets_distinct(prefix: Seq<char>, start_num: nat, entries: Seq<DirEntryInfo>)
    requires
        forall|k: int| 0 <= k < files_of(entries).len() ==> dot_free(#[trigger] ext_text(files_of(entries)[k])),
    ensures
        forall|i: int, j: int|
            0 <= i < j < files_of(entries).len() ==> renamed_name(
                prefix,
                (start_num + i) as nat,
                ext_text(#[trigger] files_of(entries)[i]),
            ) != renamed_name(prefix, (start_num + j) as nat, ext_text(#[trigger] files_of(entries)[j])),
{
    assert forall|i: int, j: int| 0 <= i < j < files_of(entries).len() implies renamed_name(
        prefix,
        (start_num + i) as nat,
        ext_text(#[trigger] files_of(entries)[i]),
    ) != renamed_name(prefix, (start_num + j) as nat, ext_text(#[trigger] files_of(entries)[j])) by {
        lemma_renamed_names_differ(
            prefix,
            (start_num + i) as nat,
            (start_num + j) as nat,
            ext_text(files_of(entries)[i]),
            ext_text(files_of(entries)[j]),
        );
    }
}

/// The files a plan renames are the listing's regular files, each once, in listing order.
pub proof fn lemma_files_of_is_filter(entries: Seq<DirEntryInfo>)
    ensures
        files_of(entries) == entries.filter(|e: DirEntryInfo| e.is_file),
    decreases entries.len(),
{
    reveal(Seq::filter);
    if entries.len() > 0 {
        lemma_files_of_is_filter(entries.drop_last());
    }
}

/// A new name is the prefix, the number in decimal, a dot and the extension, in that order;
/// the `k`-th file of a listing gets the number `start_num + k` and its own extension.
pub proof fn lemma_target_name_parts(prefix: Seq<char>, start_num: nat, entries: Seq<DirEntryInfo>, k: int)
    requires
        0 <= k < files_of(entries).len(),
    ensures
        target_name(prefix, start_num, entries, k) == prefix + decimal((start_num + k) as nat) + seq!['.']
            + (match files_of(entries)[k].extension {
            Some(x) => x@,
            None => Seq::<char>::empty(),
        }),
{
    reveal_strlit(".");
}

/// A plan that is not refused overwrites nothing: the new name of the `k`-th file is neither
/// the name of an entry that is not a regular file (those are never moved) nor the name of a
/// regular file renamed after it (still in place when the `k`-th rename runs).
pub proof fn lemma_accepted_plan_overwrites_nothing(prefix: Seq<char>, start_num: nat, entries: Seq<DirEntryInfo>, k: int)
    requires
        forall|q: int| 0 <= q < files_of(entries).len() ==> !conflict_at(prefix, start_num, entries, q),
        0 <= k < files_of(entries).len(),
    ensures
        forall|e: int|
            0 <= e < entries.len() && !(#[trigger] entries[e]).is_file ==> entries[e].name@ != prefix
                + decimal((start_num + k) as nat) + "."@ + ext_text(files_of(entries)[k]),
        forall|j: int|
            k < j < files_of(entries).len() ==> (#[trigger] files_of(entries)[j]).name@ != prefix + decimal(
                (start_num + k) as nat,
            ) + "."@ + ext_text(files_of(entries)[k]),
{
    assert(!conflict_at(prefix, start_num, entries, k));
}

} // verus!
