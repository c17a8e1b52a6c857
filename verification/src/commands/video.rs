//! Choosing the video files of a folder.

use vstd::prelude::*;

use crate::common::text::same_text;
use crate::common::types::DirEntryInfo;

verus! {

/// Whether an extension names a video container the application handles.
pub open spec fn is_video_ext(ext: Seq<char>) -> bool {
    ext == "mp4"@ || ext == "mov"@ || ext == "avi"@ || ext == "mkv"@
}

/// Whether an entry of a listing is a video file: a regular file with a video extension.
pub open spec fn is_video_entry(e: DirEntryInfo) -> bool {
    e.is_file && (e.extension matches Some(x) && is_video_ext(x@))
}

/// The paths of the video files among `entries`, in listing order.
pub open spec fn video_paths(entries: Seq<DirEntryInfo>) -> Seq<Seq<char>>
    decreases entries.len(),
{
    if entries.len() == 0 {
        seq![]
    } else {
        let rest = video_paths(entries.drop_last());
        if is_video_entry(entries.last()) {
            rest.push(entries.last().path@)
        } else {
            rest
        }
    }
}

/// Whether `ext` is `mp4`, `mov`, `avi` or `mkv` (the comparison is exact, as it is on case).
pub fn is_video_extension(ext: &str) -> (r: bool)
    ensures
        r == is_video_ext(ext@),
{
    same_text(ext, "mp4") || same_text(ext, "mov") || same_text(ext, "avi") || same_text(ext, "mkv")
}

/// The paths of the video files of a folder's listing, in listing order.
pub fn select_video_files(entries: &Vec<DirEntryInfo>) -> (r: Vec<String>)
    ensures
        r.len() == video_paths(entries@).len(),
        forall|i: int| 0 <= i < r.len() ==> #[trigger] r[i]@ == video_paths(entries@)[i],
{
    let mut r: Vec<String> = Vec::new();
    let mut i: usize = 0;
    while i < entries.len()
        invariant
            i <= entries.len(),
            r.len() == video_paths(entries@.take(i as int)).len(),
            forall|k: int| 0 <= k < r.len() ==> #[trigger] r[k]@ == video_paths(entries@.take(i as int))[k],
        decreases entries.len() - i,
    {
        assert(entries@.take(i + 1).drop_last() =~= entries@.take(i as int));
        let e = &entries[i];
        let keep = match &e.extension {
            Some(x) => e.is_file && is_video_extension(x.as_str()),
            None => false,
        };
        if keep {
            r.push(e.path.clone());
        }
        i = i + 1;
    }
    assert(entries@.take(entries.len() as int) =~= entries@);
    r
}

/// The selected paths are those of the listing's regular files whose extension is exactly
/// `mp4`, `mov`, `avi` or `mkv`, each once, in listing order, and no others.
pub proof fn lemma_video_paths_are_the_video_files(entries: Seq<DirEntryInfo>)
    ensures
        video_paths(entries) == entries.filter(
            |e: DirEntryInfo|
                e.is_file && (e.extension matches Some(x) && (x@ == "mp4"@ || x@ == "mov"@ || x@
                    == "avi"@ || x@ == "mkv"@)),
        ).map_values(|e: DirEntryInfo| e.path@),
    decreases entries.len(),
{
    reveal(Seq::filter);
    let pred = |e: DirEntryInfo|
        e.is_file && (e.extension matches Some(x) && (x@ == "mp4"@ || x@ == "mov"@ || x@ == "avi"@
            || x@ == "mkv"@));
    let path = |e: DirEntryInfo| e.path@;
    if entries.len() > 0 {
        let rest = entries.drop_last();
        lemma_video_paths_are_the_video_files(rest);
        let kept = rest.filter(pred);
        assert(kept.push(entries.last()).map_values(path) =~= kept.map_values(path).push(entries.last().path@));
    } else {
        assert(entries.filter(pred).map_values(path) =~= Seq::<Seq<char>>::empty());
    }
}

/// A regular file with a video extension has its path among the selected ones, and an entry
/// that is not a regular file, or has another extension, adds nothing.
pub proof fn lemma_video_paths_of_one_more(entries: Seq<DirEntryInfo>, e: DirEntryInfo)
    ensures
        e.is_file && (e.extension matches Some(x) && (x@ == "mp4"@ || x@ == "mov"@ || x@ == "avi"@
            || x@ == "mkv"@)) ==> video_paths(entries.push(e)) == video_paths(entries).push(e.path@),
        !(e.is_file && (e.extension matches Some(x) && (x@ == "mp4"@ || x@ == "mov"@ || x@ == "avi"@
            || x@ == "mkv"@))) ==> video_paths(entries.push(e)) == video_paths(entries),
{
    assert(entries.push(e).drop_last() =~= entries);
}

/// The video extensions are exactly `mp4`, `mov`, `avi` and `mkv`.
pub proof fn lemma_video_extensions(ext: Seq<char>)
    ensures
        is_video_ext(ext) <==> (ext == "mp4"@ || ext == "mov"@ || ext == "avi"@ || ext == "mkv"@),
{
}

} // verus!
