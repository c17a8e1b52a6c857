use file_toolkit::commands::audio::{
    audio_codec, convert_audio_command, cut_audio_command, ffmpeg_outcome, loudnorm_filter,
    merge_audio_command, merge_list, normalize_audio_command, AudioJob,
};
use file_toolkit::commands::dedup::{group_by_size, same_bytes, split_by_content, DuplicateGroup, FileInfo};
use std::collections::hash_map::DefaultHasher;
use std::hash::Hasher;
use file_toolkit::commands::rename::{check_rename_folder, rename_plan};
use file_toolkit::commands::video::{is_video_extension, select_video_files};
use file_toolkit::common::types::{DirEntryInfo, ToolRun};

fn entry(path: &str, is_file: bool, ext: Option<&str>) -> DirEntryInfo {
    let name = path.rsplit('/').next().unwrap().to_string();
    DirEntryInfo { path: path.to_string(), name, is_file, extension: ext.map(|e| e.to_string()) }
}

fn file(name: &str, size: u64) -> FileInfo {
    FileInfo { name: name.to_string(), size, path: format!("/d/{}", name) }
}

fn strings(v: &[&str]) -> Vec<String> {
    v.iter().map(|s| s.to_string()).collect()
}

#[test]
fn video_extensions_are_exact() {
    assert!(is_video_extension("mp4"));
    assert!(is_video_extension("mov"));
    assert!(is_video_extension("avi"));
    assert!(is_video_extension("mkv"));
    assert!(!is_video_extension("MP4"));
    assert!(!is_video_extension("webm"));
    assert!(!is_video_extension(""));
}

#[test]
fn only_video_files_are_selected() {
    let entries = vec![
        entry("/v/a.mp4", true, Some("mp4")),
        entry("/v/b.txt", true, Some("txt")),
        entry("/v/clips.mkv", false, Some("mkv")),
        entry("/v/noext", true, None),
        entry("/v/c.avi", true, Some("avi")),
    ];
    assert_eq!(select_video_files(&entries), strings(&["/v/a.mp4", "/v/c.avi"]));
    assert!(select_video_files(&Vec::new()).is_empty());
}

#[test]
fn renaming_needs_a_folder() {
    assert_eq!(check_rename_folder(true), Ok(()));
    assert_eq!(check_rename_folder(false), Err("目标文件夹不存在".to_string()));
}

#[test]
fn rename_plan_numbers_the_files_in_order() {
    let entries = vec![
        entry("/p/x.jpg", true, Some("jpg")),
        entry("/p/sub", false, None),
        entry("/p/notes", true, None),
        entry("/p/y.tar.gz", true, Some("gz")),
    ];
    let plan = rename_plan("photo_", 9, &entries).unwrap();
    assert_eq!(plan.len(), 3);
    assert_eq!(plan[0].entry, 0);
    assert_eq!(plan[1].entry, 2);
    assert_eq!(plan[0].from, "/p/x.jpg");
    assert_eq!(plan[0].to_name, "photo_9.jpg");
    assert_eq!(plan[1].from, "/p/notes");
    assert_eq!(plan[1].to_name, "photo_10.");
    assert_eq!(plan[2].from, "/p/y.tar.gz");
    assert_eq!(plan[2].to_name, "photo_11.gz");
}

#[test]
fn rename_plan_of_an_empty_folder_is_empty() {
    assert!(rename_plan("a", u32::MAX, &Vec::new()).unwrap().is_empty());
}

#[test]
fn rename_plan_up_to_the_last_number() {
    let entries = vec![entry("/p/a.txt", true, Some("txt"))];
    let plan = rename_plan("", u32::MAX - 1, &entries).unwrap();
    assert_eq!(plan[0].to_name, format!("{}.txt", u32::MAX - 1));
    let two = vec![entry("/p/a.txt", true, Some("txt")), entry("/p/b.txt", true, Some("txt"))];
    let plan = rename_plan("", u32::MAX - 1, &two).unwrap();
    assert_eq!(plan[1].to_name, format!("{}.txt", u32::MAX));
}

#[test]
fn files_of_equal_size_are_grouped() {
    let files = vec![file("a", 10), file("b", 20), file("c", 10), file("d", 30), file("e", 20), file("f", 10)];
    let groups = group_by_size(files);
    assert_eq!(groups.len(), 2);
    assert_eq!(groups[0].hash, "size_10");
    let names: Vec<&str> = groups[0].files.iter().map(|f| f.name.as_str()).collect();
    assert_eq!(names, vec!["a", "c", "f"]);
    assert_eq!(groups[1].hash, "size_20");
    let names: Vec<&str> = groups[1].files.iter().map(|f| f.name.as_str()).collect();
    assert_eq!(names, vec!["b", "e"]);
    assert_eq!(groups[1].files[1].path, "/d/e");
}

#[test]
fn unique_sizes_make_no_group() {
    assert!(group_by_size(vec![file("a", 1), file("b", 2), file("c", 0)]).is_empty());
    assert!(group_by_size(Vec::new()).is_empty());
    let g = group_by_size(vec![file("z1", 0), file("z2", 0)]);
    assert_eq!(g.len(), 1);
    assert_eq!(g[0].hash, "size_0");
}

#[test]
fn each_format_has_its_encoder() {
    assert_eq!(audio_codec("mp3"), Ok("libmp3lame".to_string()));
    assert_eq!(audio_codec("aac"), Ok("aac".to_string()));
    assert_eq!(audio_codec("flac"), Ok("flac".to_string()));
    assert_eq!(audio_codec("wav"), Ok("pcm_s16le".to_string()));
    assert_eq!(audio_codec("ogg"), Ok("libvorbis".to_string()));
    assert_eq!(audio_codec("wma"), Err("仅支持 mp3/aac/flac/wav/ogg 格式".to_string()));
}

#[test]
fn audio_command_lines() {
    let c = convert_audio_command("in.wav", "libmp3lame", "320k", "out.mp3");
    assert_eq!(c.program, "ffmpeg");
    assert_eq!(c.args, strings(&["-y", "-i", "in.wav", "-c:a", "libmp3lame", "-b:a", "320k", "out.mp3"]));
    let c = cut_audio_command("in.mp3", "00:00:05", "00:01:00", "cut.mp3");
    assert_eq!(
        c.args,
        strings(&["-y", "-ss", "00:00:05", "-to", "00:01:00", "-i", "in.mp3", "-c", "copy", "cut.mp3"])
    );
    let c = merge_audio_command("/tmp/list.txt", "all.mp3");
    assert_eq!(
        c.args,
        strings(&["-y", "-f", "concat", "-safe", "0", "-i", "/tmp/list.txt", "-c", "copy", "all.mp3"])
    );
    let f = loudnorm_filter("-16", "-1.5");
    assert_eq!(f, "loudnorm=I=-16:TP=-1.5:LRA=11");
    let c = normalize_audio_command("a.flac", &f, "b.flac");
    assert_eq!(c.args, strings(&["-y", "-i", "a.flac", "-af", "loudnorm=I=-16:TP=-1.5:LRA=11", "b.flac"]));
}

#[test]
fn merge_list_names_every_file() {
    assert_eq!(merge_list(&Vec::new()), Err("未选择任何音频文件".to_string()));
    assert_eq!(
        merge_list(&strings(&["/m/a.mp3", "/m/b.mp3"])),
        Ok("file '/m/a.mp3'\nfile '/m/b.mp3'\n".to_string())
    );
}

#[test]
fn ffmpeg_runs_are_reported_per_operation() {
    assert_eq!(ffmpeg_outcome(AudioJob::Convert, &ToolRun::Succeeded), Ok(()));
    assert_eq!(
        ffmpeg_outcome(AudioJob::Convert, &ToolRun::Failed),
        Err("音频转换失败，检查文件路径".to_string())
    );
    assert_eq!(ffmpeg_outcome(AudioJob::Cut, &ToolRun::Failed), Err("音频剪切失败，检查时间格式".to_string()));
    assert_eq!(ffmpeg_outcome(AudioJob::Merge, &ToolRun::Failed), Err("音频合并失败".to_string()));
    assert_eq!(ffmpeg_outcome(AudioJob::Normalize, &ToolRun::Failed), Err("音量标准化处理失败".to_string()));
    assert_eq!(
        ffmpeg_outcome(AudioJob::Merge, &ToolRun::NotStarted("No such file or directory".into())),
        Err("FFmpeg 运行失败: No such file or directory".to_string())
    );
}

#[test]
fn rename_targets_never_collide() {
    let entries: Vec<DirEntryInfo> = (0..25)
        .map(|i| entry(&format!("/p/f{}", i), true, if i % 3 == 0 { None } else { Some("1") }))
        .collect();
    let plan = rename_plan("x", 1, &entries).unwrap();
    let mut names: Vec<String> = plan.iter().map(|s| s.to_name.clone()).collect();
    names.sort();
    names.dedup();
    assert_eq!(names.len(), 25);
}

#[test]
fn every_shared_size_file_lands_in_its_group() {
    let files = vec![file("a", 5), file("b", 6), file("c", 5), file("d", 7), file("e", 7), file("f", 8)];
    let groups = group_by_size(files);
    let mut grouped: Vec<String> = groups.iter().flat_map(|g| g.files.iter().map(|f| f.name.clone())).collect();
    grouped.sort();
    assert_eq!(grouped, vec!["a", "c", "d", "e"]);
    for g in &groups {
        assert!(g.files.len() >= 2);
        assert!(g.files.iter().all(|f| format!("size_{}", f.size) == g.hash));
    }
}

#[test]
fn a_rename_onto_a_file_not_yet_moved_is_refused() {
    let entries = vec![entry("/p/a.txt", true, Some("txt")), entry("/p/p1.txt", true, Some("txt"))];
    assert_eq!(rename_plan("p", 1, &entries).unwrap_err(), "目标文件名已存在: p1.txt");
}

#[test]
fn a_rename_onto_a_folder_name_is_refused() {
    let entries = vec![entry("/p/x.jpg", true, Some("jpg")), entry("/p/q0.jpg", false, Some("jpg"))];
    assert_eq!(rename_plan("q", 0, &entries).unwrap_err(), "目标文件名已存在: q0.jpg");
}

#[test]
fn a_rename_onto_a_name_already_moved_away_is_allowed() {
    let entries = vec![entry("/p/p2.txt", true, Some("txt")), entry("/p/b.txt", true, Some("txt"))];
    let plan = rename_plan("p", 1, &entries).unwrap();
    assert_eq!(plan[0].to_name, "p1.txt");
    assert_eq!(plan[1].to_name, "p2.txt");
}

#[test]
fn a_file_keeping_its_own_name_is_allowed() {
    let entries = vec![entry("/p/p1.txt", true, Some("txt"))];
    assert_eq!(rename_plan("p", 1, &entries).unwrap()[0].to_name, "p1.txt");
}

fn digest(bytes: &[u8]) -> u64 {
    let mut h = DefaultHasher::new();
    h.write(bytes);
    h.finish()
}

fn size_group(names: &[&str], size: u64) -> DuplicateGroup {
    DuplicateGroup {
        hash: format!("size_{}", size),
        files: names.iter().map(|n| file(n, size)).collect(),
    }
}

#[test]
fn equal_size_different_content_is_split() {
    let group = size_group(&["a", "b", "c"], 3);
    let contents = vec![b"abc".to_vec(), b"xyz".to_vec(), b"abc".to_vec()];
    let groups = split_by_content(&group, &contents);
    assert_eq!(groups.len(), 1);
    assert_eq!(groups[0].hash, format!("size_3_{}", digest(b"abc")));
    let names: Vec<&str> = groups[0].files.iter().map(|f| f.name.as_str()).collect();
    assert_eq!(names, vec!["a", "c"]);
}

#[test]
fn distinct_contents_make_no_group() {
    let group = size_group(&["a", "b"], 2);
    assert!(split_by_content(&group, &vec![b"ab".to_vec(), b"ba".to_vec()]).is_empty());
}

#[test]
fn content_groups_come_in_order_of_first_appearance() {
    let group = size_group(&["p", "q", "r", "s", "t"], 1);
    let contents = vec![b"x".to_vec(), b"y".to_vec(), b"y".to_vec(), b"x".to_vec(), b"z".to_vec()];
    let groups = split_by_content(&group, &contents);
    assert_eq!(groups.len(), 2);
    assert_eq!(groups[0].hash, format!("size_1_{}", digest(b"x")));
    assert_eq!(groups[1].hash, format!("size_1_{}", digest(b"y")));
    let first: Vec<&str> = groups[0].files.iter().map(|f| f.name.as_str()).collect();
    let second: Vec<&str> = groups[1].files.iter().map(|f| f.name.as_str()).collect();
    assert_eq!(first, vec!["p", "s"]);
    assert_eq!(second, vec!["q", "r"]);
}

#[test]
fn every_shared_content_file_lands_in_its_group() {
    let group = size_group(&["a", "b", "c", "d"], 0);
    let contents = vec![Vec::new(), Vec::new(), Vec::new(), Vec::new()];
    let groups = split_by_content(&group, &contents);
    assert_eq!(groups.len(), 1);
    assert_eq!(groups[0].files.len(), 4);
    assert_eq!(groups[0].hash, format!("size_0_{}", digest(b"")));
}

#[test]
fn byte_comparison_is_exact() {
    assert!(same_bytes(&b"abc".to_vec(), &b"abc".to_vec()));
    assert!(!same_bytes(&b"abc".to_vec(), &b"abd".to_vec()));
    assert!(!same_bytes(&b"ab".to_vec(), &b"abc".to_vec()));
    assert!(same_bytes(&Vec::new(), &Vec::new()));
}
