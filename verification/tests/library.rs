use replay_manager::favorites::{favorite_paths, favorites_subdirectory};
use replay_manager::path::{path_extension, path_file_name, path_file_stem, path_parent};
use replay_manager::manager::{
    default_video_editor, plural_suffix, replay_label, CatboxUploadState, DisplayMode, LitterboxUploadTime, ReplayManager,
    ThumbnailView, UploadTarget,
};
use replay_manager::search::{filter_replays, grid_slot, search_matches, total_rows};
use replay_manager::sorting::{key_less, sort_key, stable_order, SortKey, Sorting};
use replay_manager::thumbnails::{
    ffmpeg_args, needs_rendering, thumbnail_dir, thumbnail_path, thumbnail_result, ThumbnailError,
};
use replay_manager::videoutils::{
    get_creation_date, get_mod_date, get_name, get_size, FileMetadata, FsError, NameError, Timestamp,
};

fn manager_in(folder: &str, editor: &str) -> ReplayManager {
    let mut m = ReplayManager::initial(None, editor.to_string());
    m.replay_folder = Some(folder.to_string());
    m
}

fn manager_in_none() -> ReplayManager {
    ReplayManager::initial(None, "ed".to_string())
}

fn meta(len: u64, created: i128, modified: i128) -> Result<FileMetadata, FsError> {
    Ok(FileMetadata {
        len,
        created: Ok(Timestamp { nanos: created }),
        modified: Ok(Timestamp { nanos: modified }),
    })
}

fn unreadable() -> Result<FileMetadata, FsError> {
    Err(FsError { message: "permission denied".to_string() })
}

fn strings(v: &[&str]) -> Vec<String> {
    v.iter().map(|s| s.to_string()).collect()
}

#[test]
fn name_is_file_stem() {
    assert_eq!(get_name("/home/u/Videos/Replay_2024.mp4").ok(), Some("Replay_2024".to_string()));
    assert_eq!(get_name("clip.tar.gz").ok(), Some("clip.tar".to_string()));
    assert_eq!(get_name(".hidden").ok(), Some(".hidden".to_string()));
    assert!(matches!(get_name("/"), Err(NameError::NoFileStem)));
    assert!(matches!(get_name("a/.."), Err(NameError::NoFileStem)));
    assert!(matches!(get_name(""), Err(NameError::NoFileStem)));
}

#[test]
fn size_and_dates_come_from_metadata() {
    assert_eq!(get_size(meta(1234, 5, 6)).ok(), Some(1234));
    assert_eq!(get_creation_date(meta(1, 5, 6)).ok().map(|t| t.nanos), Some(5));
    assert_eq!(get_mod_date(meta(1, 5, 6)).ok().map(|t| t.nanos), Some(6));
    assert_eq!(get_size(unreadable()).err().map(|e| e.message), Some("permission denied".to_string()));
    let no_birth = Ok(FileMetadata {
        len: 3,
        created: Err(FsError { message: "unsupported".to_string() }),
        modified: Ok(Timestamp { nanos: -7 }),
    });
    assert_eq!(get_creation_date(no_birth).err().map(|e| e.message), Some("unsupported".to_string()));
}

#[test]
fn sort_keys_follow_the_sorting() {
    assert!(matches!(sort_key(Sorting::Size, "a.mp4", meta(9, 1, 2)), SortKey::Size(9)));
    assert!(matches!(sort_key(Sorting::CreationDate, "a.mp4", meta(9, 1, 2)), SortKey::Time(1)));
    assert!(matches!(sort_key(Sorting::ModificationDate, "a.mp4", meta(9, 1, 2)), SortKey::Time(2)));
    match sort_key(Sorting::Name, "/v/a.mp4", unreadable()) {
        SortKey::Text(t) => assert_eq!(t, "a"),
        _ => panic!("expected a name key"),
    }
    assert!(matches!(sort_key(Sorting::Name, "/", meta(1, 1, 1)), SortKey::Missing));
    assert!(matches!(sort_key(Sorting::Size, "a.mp4", unreadable()), SortKey::Missing));
}

#[test]
fn missing_keys_sort_first_and_texts_lexicographically() {
    assert!(key_less(&SortKey::Missing, &SortKey::Size(0)));
    assert!(!key_less(&SortKey::Size(0), &SortKey::Missing));
    assert!(!key_less(&SortKey::Missing, &SortKey::Missing));
    assert!(key_less(&SortKey::Time(-5), &SortKey::Time(3)));
    let t = |s: &str| SortKey::Text(s.to_string());
    assert!(key_less(&t(""), &t("a")));
    assert!(key_less(&t("a"), &t("ab")));
    assert!(key_less(&t("ab"), &t("b")));
    assert!(key_less(&t("Z"), &t("a")));
    assert!(!key_less(&t("b"), &t("ab")));
    assert!(!key_less(&t("same"), &t("same")));
}

#[test]
fn stable_order_keeps_ties_in_place() {
    let keys = vec![SortKey::Size(3), SortKey::Missing, SortKey::Size(1), SortKey::Size(3), SortKey::Missing];
    assert_eq!(stable_order(&keys), vec![1, 4, 2, 0, 3]);
    assert_eq!(stable_order(&Vec::new()), Vec::<usize>::new());
    let times = vec![SortKey::Time(30), SortKey::Time(-10), SortKey::Time(20)];
    assert_eq!(stable_order(&times), vec![1, 2, 0]);
}

fn refreshed(mut m: ReplayManager, found: &[&str], keys: Vec<SortKey>) -> ReplayManager {
    m.set_replays(strings(found));
    m.finish_refresh(&keys);
    m
}

#[test]
fn initial_state_matches_defaults() {
    let m = ReplayManager::initial(Some("/home/u"), "losslesscut".to_string());
    assert_eq!(m.replay_folder, Some("/home/u/Videos/Replays".to_string()));
    assert_eq!(ReplayManager::initial(Some("/home/u/"), "e".to_string()).replay_folder, Some("/home/u/Videos/Replays".to_string()));
    assert_eq!(ReplayManager::initial(None, "e".to_string()).replay_folder, None);
    assert_eq!(m.replay_format, "mp4");
    assert_eq!(m.replay_prefix, "Replay_");
    assert!(m.refresh && !m.loading_done && !m.ascending && m.catbox_litter);
    assert!(m.sort_order == Sorting::ModificationDate);
    assert!(m.display_mode == DisplayMode::Grid);
    assert!(m.litterbox_upload_time == LitterboxUploadTime::ThreeDays);
    assert!(matches!(m.catbox_upload_state, CatboxUploadState::Idle));
    assert_eq!(m.replays_pattern(), "/home/u/Videos/Replays/Replay_*mp4");
}

#[test]
fn refresh_sorts_descending_by_default() {
    let m = manager_in("/v", "ed");
    let m = refreshed(
        m,
        &["/v/a.mp4", "/v/b.mp4", "/v/c.mp4", "/v/d.mp4"],
        vec![SortKey::Time(2), SortKey::Time(1), SortKey::Missing, SortKey::Time(2)],
    );
    assert_eq!(m.replays, strings(&["/v/d.mp4", "/v/a.mp4", "/v/b.mp4", "/v/c.mp4"]));
    assert!(!m.refresh && !m.loading_done);
}

#[test]
fn refresh_sorts_ascending_when_asked() {
    let mut m = manager_in("/v", "ed");
    m.set_ascending(true);
    let m = refreshed(
        m,
        &["/v/a.mp4", "/v/b.mp4", "/v/c.mp4", "/v/d.mp4"],
        vec![SortKey::Time(2), SortKey::Time(1), SortKey::Missing, SortKey::Time(2)],
    );
    assert_eq!(m.replays, strings(&["/v/c.mp4", "/v/b.mp4", "/v/a.mp4", "/v/d.mp4"]));
}

#[test]
fn loading_is_announced_once() {
    let m = manager_in("/v", "ed");
    let mut m = refreshed(m, &["/v/a.mp4"], vec![SortKey::Size(1)]);
    assert!(m.check_loading_done());
    assert!(!m.check_loading_done());
    m.request_refresh();
    assert!(!m.check_loading_done());
}

#[test]
fn settings_changes_force_refresh_only_when_changed() {
    let m = manager_in("/v", "ed");
    let mut m = refreshed(m, &[], vec![]);
    m.set_sort_order(Sorting::ModificationDate);
    assert!(!m.refresh);
    m.set_replay_prefix("Replay_".to_string());
    m.set_replay_format("mp4".to_string());
    m.set_find_recursively(false);
    m.show_all();
    assert!(!m.refresh);
    m.set_sort_order(Sorting::Name);
    assert!(m.refresh && m.sort_order == Sorting::Name);

    let mut m = refreshed(m, &[], vec![]);
    m.set_replay_prefix("Clip_".to_string());
    assert!(m.refresh);
    let mut m = refreshed(m, &[], vec![]);
    m.set_replay_format("mkv".to_string());
    assert!(m.refresh);
    let mut m = refreshed(m, &[], vec![]);
    m.set_find_recursively(true);
    assert!(m.refresh);
    assert_eq!(m.replays_pattern(), "/v/**/Clip_*mkv");
    let mut m = refreshed(m, &[], vec![]);
    m.show_favorites();
    assert!(m.refresh && m.favorites_mode);
    assert_eq!(m.replays_pattern(), "/v/.favorites/*");
    let mut m = refreshed(m, &[], vec![]);
    m.set_ascending(false);
    assert!(m.refresh);
}

#[test]
fn picking_a_folder_forgets_the_queue() {
    let mut m = manager_in_none();
    assert!(m.request_thumbnail(&"/v/a.mp4".to_string()));
    m.pick_replay_folder("/w/".to_string());
    assert!(m.thumb_queue.is_empty() && m.refresh);
    assert_eq!(m.replays_pattern(), "/w//Replay_*mp4");
    assert!(m.request_thumbnail(&"/v/a.mp4".to_string()));
}

#[test]
fn thumbnails_are_asked_for_once_and_shown() {
    let mut m = manager_in("/v", "ed");
    let a = "/v/a.mp4".to_string();
    let b = "/v/b.mp4".to_string();
    assert!(m.request_thumbnail(&a));
    assert!(!m.request_thumbnail(&a));
    assert!(matches!(m.thumbnail_view(&a), ThumbnailView::Pending));
    assert!(!m.receive_thumbnail(a.clone(), Ok("/v/.thumbnails/Thumbnail_a.png".to_string())));
    match m.thumbnail_view(&a) {
        ThumbnailView::Ready(p) => assert_eq!(p, "/v/.thumbnails/Thumbnail_a.png"),
        _ => panic!("expected the thumbnail"),
    }
    assert!(m.receive_thumbnail(a.clone(), Ok("/v/new.png".to_string())) == false);
    assert_eq!(m.thumb_cache.len(), 1);
    assert!(matches!(m.thumbnail_view(&a), ThumbnailView::Ready(ref p) if p == "/v/new.png"));
    assert!(m.receive_thumbnail(b.clone(), Err("boom".to_string())));
    assert!(m.receive_thumbnail(b.clone(), Err("boom".to_string())));
    assert_eq!(m.thumb_errors.len(), 1);
    assert!(matches!(m.thumbnail_view(&b), ThumbnailView::Failed));
    // a cached thumbnail is not asked for again, even after the queue was cleared
    m.pick_replay_folder("/v".to_string());
    assert!(!m.request_thumbnail(&a));
}

#[test]
fn restored_cache_drops_missing_and_requeues() {
    let mut m = manager_in("/v", "ed");
    m.receive_thumbnail("/v/a.mp4".to_string(), Ok("/t/a.png".to_string()));
    m.receive_thumbnail("/v/b.mp4".to_string(), Ok("/t/b.png".to_string()));
    m.receive_thumbnail("/v/c.mp4".to_string(), Ok("/t/c.png".to_string()));
    m.forget_missing_thumbnails(&vec![true, false, true]);
    assert_eq!(m.thumb_cache.len(), 2);
    assert_eq!(m.thumb_cache[1].0, "/v/c.mp4");
    m.queue_cached_thumbnails();
    assert_eq!(m.thumb_queue, strings(&["/v/a.mp4", "/v/c.mp4"]));
}

#[test]
fn uploads_and_popups() {
    let mut m = manager_in("/v", "ed");
    assert!(m.upload_target() == UploadTarget::Litterbox(72u8));
    assert_eq!(m.litter_time_label(), "3 days");
    m.litterbox_upload_time = LitterboxUploadTime::OneHour;
    assert_eq!(m.litter_delete_hours(), 1);
    assert_eq!(m.litter_time_label(), "1 hour");
    m.litterbox_upload_time = LitterboxUploadTime::TwelveHours;
    assert_eq!((m.litter_delete_hours(), m.litter_time_label()), (12, "12 hours"));
    m.litterbox_upload_time = LitterboxUploadTime::OneDay;
    assert_eq!((m.litter_delete_hours(), m.litter_time_label()), (24, "1 day"));
    m.catbox_litter = false;
    assert!(m.upload_target() == UploadTarget::Catbox);
    m.start_upload(3);
    assert!(matches!(m.catbox_upload_state, CatboxUploadState::Uploading) && m.catbox_popup == Some(3));
    m.receive_upload(Ok("https://files.catbox.moe/x.mp4".to_string()));
    assert!(matches!(m.catbox_upload_state, CatboxUploadState::Done(ref l) if l == "https://files.catbox.moe/x.mp4"));
    m.receive_upload(Err("too large".to_string()));
    assert!(matches!(m.catbox_upload_state, CatboxUploadState::Error(ref e) if e == "too large"));
    m.close_upload_popup();
    assert_eq!(m.catbox_popup, None);
    m.ask_delete(2);
    assert_eq!(m.delete_popup, Some(2));
    m.cancel_delete();
    assert_eq!(m.delete_popup, None);
    let mut m = refreshed(m, &[], vec![]);
    m.ask_delete(1);
    m.replay_deleted();
    assert!(m.delete_popup.is_none() && m.refresh);
    m.toggle_settings();
    assert!(m.settings_popup);
    m.toggle_settings();
    assert!(!m.settings_popup);
}

#[test]
fn search_ignores_case_and_skips_stemless_paths() {
    assert!(search_matches("/v/Replay_One.mp4", "REPLAY"));
    assert!(search_matches("/v/Replay_One.mp4", "one"));
    assert!(!search_matches("/v/Replay_One.mp4", "mp4"));
    assert!(search_matches("/v/ÉTÉ.mp4", "été"));
    assert!(search_matches("/v/x.mp4", ""));
    assert!(!search_matches("/", ""));
    let replays = strings(&["/v/Alpha.mp4", "/v/beta.mp4", "/v/ALPHABET.mp4", "/"]);
    let found = filter_replays(&replays, "alpha");
    assert_eq!(found, vec![(0, "/v/Alpha.mp4".to_string()), (2, "/v/ALPHABET.mp4".to_string())]);
    let mut m = manager_in("/v", "ed");
    m.set_replays(replays);
    m.search_query = "BETA".to_string();
    assert_eq!(m.filtered_replays(), vec![(1, "/v/beta.mp4".to_string())]);
}

#[test]
fn grid_rows_and_slots() {
    assert_eq!(total_rows(0, 1), 1);
    assert_eq!(total_rows(0, 3), 0);
    assert_eq!(total_rows(5, 2), 3);
    assert_eq!(total_rows(4, 2), 2);
    assert_eq!(total_rows(7, 7), 1);
    assert_eq!(grid_slot(1, 1, 3, 5), Some(4));
    assert_eq!(grid_slot(1, 2, 3, 5), None);
    assert_eq!(grid_slot(usize::MAX, 1, 2, 5), None);
}

#[test]
fn thumbnail_paths_and_errors() {
    assert_eq!(thumbnail_dir("/v"), "/v/.thumbnails");
    assert_eq!(
        thumbnail_path("/v/Replay_1.mp4", "/v").ok(),
        Some("/v/.thumbnails/Thumbnail_Replay_1.png".to_string())
    );
    assert!(matches!(thumbnail_path("/v/..", "/v"), Err(ThumbnailError::EmptyName)));
    let args = ffmpeg_args("0", "/v/a.mp4", "/v/.thumbnails/Thumbnail_a.png");
    assert_eq!(
        args,
        strings(&[
            "-hwaccel", "auto", "-strict", "experimental", "-ss", "0", "-i", "/v/a.mp4",
            "-frames:v", "1", "-pix_fmt", "yuv420p", "-vf", "scale=640:360", "-f", "image2",
            "-q:v", "2", "-an", "-y", "/v/.thumbnails/Thumbnail_a.png",
        ])
    );
    assert_eq!(thumbnail_result(true, b"ignored".to_vec(), "/t.png".to_string()).ok(), Some("/t.png".to_string()));
    match thumbnail_result(false, "erreur: fichier illisible é".as_bytes().to_vec(), "/t.png".to_string()) {
        Err(ThumbnailError::FfmpegFailed(m)) => assert_eq!(m, "erreur: fichier illisible é"),
        _ => panic!("expected ffmpeg's message"),
    }
    let expected = String::from_utf8(vec![0xff, 0xfe]).unwrap_err().to_string();
    match thumbnail_result(false, vec![0xff, 0xfe], "/t.png".to_string()) {
        Err(e @ ThumbnailError::UnreadableOutput(_)) => assert_eq!(e.message(), expected),
        _ => panic!("expected the decoding error"),
    }
}

#[test]
fn favorite_paths_sit_beside_the_replay() {
    assert_eq!(favorites_subdirectory(Some("/v")), "/v/.favorites");
    assert_eq!(favorites_subdirectory(Some("/v/")), "/v/.favorites");
    assert_eq!(favorites_subdirectory(None), ".favorites");
    let p = favorite_paths("/v/Replay_7.mp4", "best goal");
    assert_eq!(p.directory, "/v/.favorites");
    assert_eq!(p.link, "/v/.favorites/best goal.mp4");
    let q = favorite_paths("clip.mkv", "x");
    assert_eq!((q.directory.as_str(), q.link.as_str()), (".favorites", ".favorites/x.mkv"));
}

#[test]
fn labels() {
    assert_eq!(replay_label("/v/Replay_3.mp4"), "Replay_3");
    assert_eq!(replay_label("/"), "undefined");
    assert_eq!(plural_suffix(1), "");
    assert_eq!(plural_suffix(0), "");
    assert_eq!(plural_suffix(2), "s");
    let mut m = manager_in("/v", "ed");
    assert_eq!(m.title_prefix(), "R");
    m.show_favorites();
    assert_eq!(m.title_prefix(), "Favorite r");
}

#[test]
fn stable_order_is_deterministic() {
    let make = || vec![
        SortKey::Text("b".to_string()),
        SortKey::Text("a".to_string()),
        SortKey::Missing,
        SortKey::Text("b".to_string()),
        SortKey::Text("a".to_string()),
    ];
    let first = stable_order(&make());
    assert_eq!(first, stable_order(&make()));
    assert_eq!(first, vec![2, 1, 4, 0, 3]);
}

#[test]
fn descending_listing_is_ascending_reversed() {
    let found = ["/v/a.mp4", "/v/b.mp4", "/v/c.mp4", "/v/d.mp4", "/v/e.mp4"];
    let keys = || vec![SortKey::Size(5), SortKey::Size(1), SortKey::Size(5), SortKey::Missing, SortKey::Size(1)];
    let mut up = manager_in("/v", "ed");
    up.set_ascending(true);
    let up = refreshed(up, &found, keys());
    let down = refreshed(manager_in("/v", "ed"), &found, keys());
    let mut reversed = up.replays.clone();
    reversed.reverse();
    assert_eq!(down.replays, reversed);
    assert_eq!(up.replays, strings(&["/v/d.mp4", "/v/b.mp4", "/v/e.mp4", "/v/a.mp4", "/v/c.mp4"]));
}

#[test]
fn thumbnail_lies_in_its_directory() {
    for (video, folder) in [("/v/Replay_9.mp4", "/v"), ("clip.mkv", ""), ("/a/b.c.d", "/x/y/")] {
        let thumb = thumbnail_path(video, folder).ok().unwrap();
        let stem = path_file_stem(video).unwrap();
        assert_eq!(path_parent(&thumb), Some(thumbnail_dir(folder)));
        assert_eq!(path_file_name(&thumb), Some(format!("Thumbnail_{}.png", stem)));
        assert_eq!(path_file_stem(&thumb), Some(format!("Thumbnail_{}", stem)));
        assert_eq!(path_extension(&thumb), Some("png".to_string()));
    }
}

#[test]
fn favorite_is_named_as_chosen() {
    for (replay, name) in [("/v/Replay_7.mp4", "best goal"), ("clip.mkv", "x"), ("./x/y.z/", "n")] {
        let p = favorite_paths(replay, name);
        let ext = path_extension(replay).unwrap();
        assert_eq!(path_file_name(&p.link), Some(format!("{}.{}", name, ext)));
        assert_eq!(path_parent(&p.link), Some(p.directory.clone()));
    }
}

#[test]
fn storing_a_thumbnail_leaves_others_alone() {
    let mut m = manager_in("/v", "ed");
    m.receive_thumbnail("/v/a.mp4".to_string(), Ok("/t/a.png".to_string()));
    m.receive_thumbnail("/v/b.mp4".to_string(), Ok("/t/b.png".to_string()));
    m.receive_thumbnail("/v/a.mp4".to_string(), Ok("/t/a2.png".to_string()));
    assert!(matches!(m.thumbnail_view(&"/v/b.mp4".to_string()), ThumbnailView::Ready(ref p) if p == "/t/b.png"));
    assert!(matches!(m.thumbnail_view(&"/v/a.mp4".to_string()), ThumbnailView::Ready(ref p) if p == "/t/a2.png"));
    assert!(matches!(m.thumbnail_view(&"/v/c.mp4".to_string()), ThumbnailView::Pending));
}

#[test]
fn startup_keeps_existing_thumbnails() {
    let mut start = manager_in("/v", "ed");
    start.receive_thumbnail("/v/a.mp4".to_string(), Ok("/t/a.png".to_string()));
    start.receive_thumbnail("/v/b.mp4".to_string(), Ok("/t/b.png".to_string()));
    let m = ReplayManager::new(start, &vec![false, true]);
    assert_eq!(m.thumb_cache, vec![("/v/b.mp4".to_string(), "/t/b.png".to_string())]);
    assert_eq!(m.thumb_queue, strings(&["/v/b.mp4"]));
    assert!(m.refresh);
}

#[test]
fn listing_pattern_errors_come_from_glob() {
    let mut m = manager_in("/nonexistent/replays", "ed");
    assert!(matches!(m.list_replays(), Some(Ok(_))));
    m.set_replay_prefix("Replay_[".to_string());
    let pattern = m.replays_pattern();
    assert_eq!(pattern, "/nonexistent/replays/Replay_[*mp4");
    let expected = glob::glob(&pattern).err().expect("glob refuses an unclosed range");
    match m.list_replays() {
        Some(Err(f)) => {
            assert_eq!(f.pos, expected.pos);
            assert_eq!(f.msg, expected.msg);
        }
        _ => panic!("expected the pattern to be refused"),
    }
    m.set_replay_prefix("a***".to_string());
    assert!(matches!(m.list_replays(), Some(Err(_))));
    let m = refreshed(m, &[], vec![]);
    assert!(m.list_replays().is_none());
}

#[test]
fn error_messages() {
    assert_eq!(NameError::NoFileStem.message(), "None");
    assert_eq!(get_name("/").err().map(|e| e.message()), Some("None"));
    assert_eq!(ThumbnailError::EmptyName.message(), "Video name is empty");
    assert_eq!(
        ThumbnailError::FfmpegNotFound.message(),
        "ffmpeg not found in path, please install it or add it to path"
    );
    assert_eq!(ThumbnailError::Io("disk full".to_string()).message(), "disk full");
    assert_eq!(ThumbnailError::FfmpegFailed("bad input".to_string()).message(), "bad input");
}

#[test]
fn small_decisions() {
    assert!(!needs_rendering(true, true));
    assert!(needs_rendering(true, false));
    assert!(needs_rendering(false, true));
    assert_eq!(default_video_editor(true), "LosslessCut");
    assert_eq!(default_video_editor(false), "losslesscut");
    let mut m = manager_in("/v/", "ed");
    assert_eq!(m.favorites_dir_needed(), None);
    m.show_favorites();
    assert_eq!(m.favorites_dir_needed(), Some("/v/.favorites".to_string()));
}
