//! The audio commands: which encoder each format uses, the ffmpeg command line of each
//! operation, the list file for joining tracks, and what each run of ffmpeg is reported as.

use vstd::prelude::*;

use crate::common::text::same_text;
use crate::common::types::{arg_views, push_arg, ToolCommand, ToolRun};

verus! {

/// The audio operations.
#[derive(Debug, Clone, Copy)]
pub enum AudioJob {
    /// Re-encoding to another format.
    Convert,
    /// Cutting out a time range.
    Cut,
    /// Joining several files into one.
    Merge,
    /// Loudness normalisation.
    Normalize,
}

/// The ffmpeg audio encoder for an output format, for the formats that are supported.
pub open spec fn codec_for(format: Seq<char>) -> Option<Seq<char>> {
    if format == "mp3"@ {
        Some("libmp3lame"@)
    } else if format == "aac"@ {
        Some("aac"@)
    } else if format == "flac"@ {
        Some("flac"@)
    } else if format == "wav"@ {
        Some("pcm_s16le"@)
    } else if format == "ogg"@ {
        Some("libvorbis"@)
    } else {
        None
    }
}

/// The answer for an unsupported output format.
pub open spec fn unsupported_format_text() -> Seq<char> {
    "仅支持 mp3/aac/flac/wav/ogg 格式"@
}

/// The encoder for `format`, or the refusal of an unsupported format.
pub fn audio_codec(format: &str) -> (r: Result<String, String>)
    ensures
        match codec_for(format@) {
            Some(c) => r matches Ok(x) && x@ == c,
            None => r matches Err(m) && m@ == unsupported_format_text(),
        },
{
    if same_text(format, "mp3") {
        Ok(String::from_str("libmp3lame"))
    } else if same_text(format, "aac") {
        Ok(String::from_str("aac"))
    } else if same_text(format, "flac") {
        Ok(String::from_str("flac"))
    } else if same_text(format, "wav") {
        Ok(String::from_str("pcm_s16le"))
    } else if same_text(format, "ogg") {
        Ok(String::from_str("libvorbis"))
    } else {
        Err(String::from_str("仅支持 mp3/aac/flac/wav/ogg 格式"))
    }
}

fn ffmpeg_with(args: Vec<String>) -> (r: ToolCommand)
    ensures
        r.program@ == "ffmpeg"@,
        r.args == args,
{
    ToolCommand { program: String::from_str("ffmpeg"), args }
}

/// The command that re-encodes `input` with `codec` at `bitrate` into `output`, overwriting it.
pub fn convert_audio_command(input: &str, codec: &str, bitrate: &str, output: &str) -> (r: ToolCommand)
    ensures
        r.program@ == "ffmpeg"@,
        arg_views(r.args@) == seq!["-y"@, "-i"@, input@, "-c:a"@, codec@, "-b:a"@, bitrate@, output@],
{
    let mut a: Vec<String> = Vec::new();
    push_arg(&mut a, "-y");
    push_arg(&mut a, "-i");
    push_arg(&mut a, input);
    push_arg(&mut a, "-c:a");
    push_arg(&mut a, codec);
    push_arg(&mut a, "-b:a");
    push_arg(&mut a, bitrate);
    push_arg(&mut a, output);
    assert(arg_views(Seq::<String>::empty()) =~= Seq::<Seq<char>>::empty());
    ffmpeg_with(a)
}

/// The command that copies the part of `input` from `start` to `end` into `output` without
/// re-encoding, overwriting it.
pub fn cut_audio_command(input: &str, start: &str, end: &str, output: &str) -> (r: ToolCommand)
    ensures
        r.program@ == "ffmpeg"@,
        arg_views(r.args@) == seq![
            "-y"@, "-ss"@, start@, "-to"@, end@, "-i"@, input@, "-c"@, "copy"@, output@,
        ],
{
    let mut a: Vec<String> = Vec::new();
    push_arg(&mut a, "-y");
    push_arg(&mut a, "-ss");
    push_arg(&mut a, start);
    push_arg(&mut a, "-to");
    push_arg(&mut a, end);
    push_arg(&mut a, "-i");
    push_arg(&mut a, input);
    push_arg(&mut a, "-c");
    push_arg(&mut a, "copy");
    push_arg(&mut a, output);
    assert(arg_views(Seq::<String>::empty()) =~= Seq::<Seq<char>>::empty());
    ffmpeg_with(a)
}

/// The concat list that names `files` in order, one `file '<path>'` line each.
pub open spec fn concat_list(files: Seq<Seq<char>>) -> Seq<char>
    decreases files.len(),
{
    if files.len() == 0 {
        seq![]
    } else {
        concat_list(files.drop_last()) + "file '"@ + files.last() + "'\n"@
    }
}

/// The answer when no file was chosen to join.
pub open spec fn no_files_text() -> Seq<char> {
    "未选择任何音频文件"@
}

/// The concat list for joining `files`, or the refusal of an empty selection.
pub fn merge_list(files: &Vec<String>) -> (r: Result<String, String>)
    ensures
        files.len() == 0 ==> (r matches Err(m) && m@ == no_files_text()),
        files.len() > 0 ==> (r matches Ok(text) && text@ == concat_list(arg_views(files@))),
{
    if files.len() == 0 {
        return Err(String::from_str("未选择任何音频文件"));
    }
    let mut text = String::new();
    let mut i: usize = 0;
    while i < files.len()
        invariant
            i <= files.len(),
            text@ == concat_list(arg_views(files@.take(i as int))),
        decreases files.len() - i,
    {
        assert(arg_views(files@.take(i + 1)).drop_last() =~= arg_views(files@.take(i as int)));
        assert(arg_views(files@.take(i + 1)).last() == files[i as int]@);
        text.append("file '");
        text.append(files[i].as_str());
        text.append("'\n");
        i = i + 1;
    }
    assert(files@.take(files.len() as int) =~= files@);
    Ok(text)
}

/// The command that joins the files named in the list file `list_path` into `output` without
/// re-encoding, overwriting it.
pub fn merge_audio_command(list_path: &str, output: &str) -> (r: ToolCommand)
    ensures
        r.program@ == "ffmpeg"@,
        arg_views(r.args@) == seq![
            "-y"@, "-f"@, "concat"@, "-safe"@, "0"@, "-i"@, list_path@, "-c"@, "copy"@, output@,
        ],
{
    let mut a: Vec<String> = Vec::new();
    push_arg(&mut a, "-y");
    push_arg(&mut a, "-f");
    push_arg(&mut a, "concat");
    push_arg(&mut a, "-safe");
    push_arg(&mut a, "0");
    push_arg(&mut a, "-i");
    push_arg(&mut a, list_path);
    push_arg(&mut a, "-c");
    push_arg(&mut a, "copy");
    push_arg(&mut a, output);
    assert(arg_views(Seq::<String>::empty()) =~= Seq::<Seq<char>>::empty());
    ffmpeg_with(a)
}

/// The EBU R128 loudness filter with integrated loudness `i_val` and true peak `tp_val`, both
/// written as decimal text.
pub fn loudnorm_filter(i_val: &str, tp_val: &str) -> (r: String)
    ensures
        r@ == "loudnorm=I="@ + i_val@ + ":TP="@ + tp_val@ + ":LRA=11"@,
{
    let mut r = String::from_str("loudnorm=I=");
    r.append(i_val);
    r.append(":TP=");
    r.append(tp_val);
    r.append(":LRA=11");
    r
}

/// The command that filters `input` through `filter` into `output`, overwriting it.
pub fn normalize_audio_command(input: &str, filter: &str, output: &str) -> (r: ToolCommand)
    ensures
        r.program@ == "ffmpeg"@,
        arg_views(r.args@) == seq!["-y"@, "-i"@, input@, "-af"@, filter@, output@],
{
    let mut a: Vec<String> = Vec::new();
    push_arg(&mut a, "-y");
    push_arg(&mut a, "-i");
    push_arg(&mut a, input);
    push_arg(&mut a, "-af");
    push_arg(&mut a, filter);
    push_arg(&mut a, output);
    assert(arg_views(Seq::<String>::empty()) =~= Seq::<Seq<char>>::empty());
    ffmpeg_with(a)
}

/// The answer when ffmpeg ran and reported failure, for each operation.
pub open spec fn job_failure_text(job: AudioJob) -> Seq<char> {
    match job {
        AudioJob::Convert => "音频转换失败，检查文件路径"@,
        AudioJob::Cut => "音频剪切失败，检查时间格式"@,
        AudioJob::Merge => "音频合并失败"@,
        AudioJob::Normalize => "音量标准化处理失败"@,
    }
}

/// What an operation reports for a run of ffmpeg: success, the operation's own failure text,
/// or that ffmpeg could not be started.
pub fn ffmpeg_outcome(job: AudioJob, run: &ToolRun) -> (r: Result<(), String>)
    ensures
        match *run {
            ToolRun::Succeeded => r is Ok,
            ToolRun::Failed => r matches Err(m) && m@ == job_failure_text(job),
            ToolRun::NotStarted(why) => r matches Err(m) && m@ == "FFmpeg 运行失败: "@ + why@,
        },
{
    match run {
        ToolRun::Succeeded => Ok(()),
        ToolRun::Failed => Err(
            match job {
                AudioJob::Convert => String::from_str("音频转换失败，检查文件路径"),
                AudioJob::Cut => String::from_str("音频剪切失败，检查时间格式"),
                AudioJob::Merge => String::from_str("音频合并失败"),
                AudioJob::Normalize => String::from_str("音量标准化处理失败"),
            },
        ),
        ToolRun::NotStarted(why) => {
            let mut m = String::from_str("FFmpeg 运行失败: ");
            m.append(why.as_str());
            Err(m)
        },
    }
}

/// The line of the concat list that names `path`.
pub open spec fn list_line(path: Seq<char>) -> Seq<char> {
    "file '"@ + path + "'\n"@
}

/// The concat list of one file is its one line, and the list of two selections one after the
/// other is the list of the first followed by the list of the second: every file gets exactly
/// one line, in order.
pub proof fn lemma_concat_list_lines(a: Seq<Seq<char>>, b: Seq<Seq<char>>, x: Seq<char>)
    ensures
        concat_list(seq![x]) == "file '"@ + x + "'\n"@,
        concat_list(a + b) == concat_list(a) + concat_list(b),
    decreases b.len(),
{
    assert(seq![x].drop_last() =~= Seq::<Seq<char>>::empty());
    assert(concat_list(Seq::<Seq<char>>::empty()) =~= Seq::<char>::empty());
    if b.len() == 0 {
        assert(a + b =~= a);
        assert(concat_list(a) + concat_list(b) =~= concat_list(a));
    } else {
        lemma_concat_list_lines(a, b.drop_last(), x);
        assert((a + b).drop_last() =~= a + b.drop_last());
        assert((a + b).last() == b.last());
        let line = "file '"@ + b.last() + "'\n"@;
        assert(concat_list(a) + (concat_list(b.drop_last()) + line) =~= (concat_list(a) + concat_list(b.drop_last())) + line);
        assert(concat_list(b) == concat_list(b.drop_last()) + line);
        assert(concat_list(a + b) == concat_list(a + b.drop_last()) + line);
    }
}

/// The concat list of `n` files has one line per file: line `i` names `files[i]`, and the
/// lines follow one another in file order.
pub proof fn lemma_concat_list_is_lines(files: Seq<Seq<char>>)
    ensures
        concat_list(files) == files.map_values(|p: Seq<char>| list_line(p)).fold_left(
            Seq::<char>::empty(),
            |acc: Seq<char>, l: Seq<char>| acc + l,
        ),
    decreases files.len(),
{
    let f = |acc: Seq<char>, l: Seq<char>| acc + l;
    let lines = files.map_values(|p: Seq<char>| list_line(p));
    if files.len() > 0 {
        lemma_concat_list_is_lines(files.drop_last());
        assert(lines.drop_last() =~= files.drop_last().map_values(|p: Seq<char>| list_line(p)));
        assert(lines.last() == list_line(files.last()));
        assert(concat_list(files) =~= concat_list(files.drop_last()) + list_line(files.last()));
    } else {
        assert(lines =~= Seq::<Seq<char>>::empty());
    }
}

/// The supported output formats are exactly mp3, aac, flac, wav and ogg, with the encoders
/// libmp3lame, aac, flac, pcm_s16le and libvorbis.
pub proof fn lemma_codec_table(format: Seq<char>)
    ensures
        codec_for(format) is Some <==> (format == "mp3"@ || format == "aac"@ || format == "flac"@
            || format == "wav"@ || format == "ogg"@),
        format == "mp3"@ ==> codec_for(format) == Some("libmp3lame"@),
        format == "aac"@ ==> codec_for(format) == Some("aac"@),
        format == "flac"@ ==> codec_for(format) == Some("flac"@),
        format == "wav"@ ==> codec_for(format) == Some("pcm_s16le"@),
        format == "ogg"@ ==> codec_for(format) == Some("libvorbis"@),
{
    reveal_strlit("mp3");
    reveal_strlit("aac");
    reveal_strlit("flac");
    reveal_strlit("wav");
    reveal_strlit("ogg");
    assert("aac"@[0] != "mp3"@[0]);
    assert("flac"@[0] != "mp3"@[0] && "flac"@[0] != "aac"@[0]);
    assert("wav"@[0] != "mp3"@[0] && "wav"@[0] != "aac"@[0] && "wav"@[0] != "flac"@[0]);
    assert("ogg"@[0] != "mp3"@[0] && "ogg"@[0] != "aac"@[0] && "ogg"@[0] != "flac"@[0] && "ogg"@[0]
        != "wav"@[0]);
}

/// Each operation reports its own failure: conversion points at the file path, cutting at the
/// time format; joining and normalising name the operation.
pub proof fn lemma_job_failure_texts()
    ensures
        job_failure_text(AudioJob::Convert) == "音频转换失败，检查文件路径"@,
        job_failure_text(AudioJob::Cut) == "音频剪切失败，检查时间格式"@,
        job_failure_text(AudioJob::Merge) == "音频合并失败"@,
        job_failure_text(AudioJob::Normalize) == "音量标准化处理失败"@,
{
}

} // verus!
