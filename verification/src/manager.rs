//! The state of the replay browser and the decisions it takes on each event: which
//! settings force the listing to be read again, what is listed and in what order,
//! which thumbnails are asked for and what is shown in their place, and how uploads go.
//!
//! The window, the file system and the network are driven by the caller, which hands
//! each event to a method here and carries out what the method answers.
use vstd::prelude::*;

use crate::path::{file_stem, join, path_file_stem, path_join};
use crate::listing::{compile_listing, glob_pattern_error, Listing, PatternFault};
use crate::search::{filter_replays, matching_indices, views_of};
use crate::sorting::{goes_before, is_stable_order, key_lt, lemma_key_order, stable_order, SortKey, Sorting};

verus! {

/// How the replays are laid out.
#[derive(Clone, Copy, PartialEq, Eq, Structural)]
pub enum DisplayMode {
    List,
    Grid,
}

/// How long litterbox keeps an upload.
#[derive(Clone, Copy, PartialEq, Eq, Structural)]
pub enum LitterboxUploadTime {
    OneHour,
    TwelveHours,
    OneDay,
    ThreeDays,
}

/// Where an upload stands.
pub enum CatboxUploadState {
    Idle,
    Uploading,
    Done(String),
    Error(String),
}

/// What a double click on a replay does.
#[derive(Clone, Copy, PartialEq, Eq, Structural)]
pub enum DefaultFileAction {
    View,
    Edit,
}

/// What stands in a replay's cell in place of its thumbnail.
pub enum ThumbnailView {
    /// Making the thumbnail failed.
    Failed,
    /// The thumbnail is not there yet.
    Pending,
    /// The thumbnail's path.
    Ready(String),
}

/// Where an upload goes.
#[derive(Clone, Copy, PartialEq, Eq, Structural)]
pub enum UploadTarget {
    /// Litterbox, which deletes the file after this many hours.
    Litterbox(u8),
    /// Catbox, which keeps it.
    Catbox,
}

/// The state of the replay browser.
pub struct ReplayManager {
    pub replay_folder: Option<String>,
    pub replay_format: String,
    pub replay_prefix: String,
    pub display_mode: DisplayMode,
    pub default_file_action: DefaultFileAction,
    pub delete_popup: Option<usize>,
    pub catbox_popup: Option<usize>,
    pub replays: Vec<String>,
    pub loading_done: bool,
    pub sort_order: Sorting,
    pub ascending: bool,
    pub search_query: String,
    pub catbox_upload_state: CatboxUploadState,
    pub settings_popup: bool,
    pub litterbox_upload_time: LitterboxUploadTime,
    pub catbox_litter: bool,
    /// The replays whose thumbnail has been asked for.
    pub thumb_queue: Vec<String>,
    /// Replay path and thumbnail path, one pair per replay.
    pub thumb_cache: Vec<(String, String)>,
    pub favorites_cache: Vec<(String, String)>,
    /// The replays whose thumbnail could not be made.
    pub thumb_errors: Vec<String>,
    pub video_editor: String,
    pub refresh: bool,
    pub show_hidden_files: bool,
    pub find_recursively: bool,
    pub favorites_mode: bool,
}

/// `k` is among the texts of `v`.
pub open spec fn holds(v: Seq<String>, k: Seq<char>) -> bool {
    exists|i: int| 0 <= i < v.len() && #[trigger] v[i]@ == k
}

/// The position of the last pair in `pairs` whose first text is `k`, or -1.
pub open spec fn key_index(pairs: Seq<(String, String)>, k: Seq<char>) -> int
    decreases pairs.len(),
{
    if pairs.len() == 0 {
        -1
    } else if pairs.last().0@ == k {
        pairs.len() - 1
    } else {
        key_index(pairs.drop_last(), k)
    }
}

pub proof fn lemma_key_index_bounds(pairs: Seq<(String, String)>, k: Seq<char>)
    ensures
        -1 <= key_index(pairs, k) < pairs.len(),
        key_index(pairs, k) >= 0 ==> pairs[key_index(pairs, k)].0@ == k,
        forall|j: int| key_index(pairs, k) < j < pairs.len() ==> pairs[j].0@ != k,
    decreases pairs.len(),
{
    if pairs.len() > 0 && pairs.last().0@ != k {
        lemma_key_index_bounds(pairs.drop_last(), k);
        assert forall|j: int| key_index(pairs, k) < j < pairs.len() implies pairs[j].0@ != k by {
            if j < pairs.len() - 1 {
                assert(pairs.drop_last()[j] == pairs[j]);
            }
        }
    }
}

/// The text paired with `k` in `pairs`, as a map finds it.
pub open spec fn lookup(pairs: Seq<(String, String)>, k: Seq<char>) -> Option<Seq<char>> {
    let i = key_index(pairs, k);
    if i >= 0 {
        Some(pairs[i].1@)
    } else {
        None
    }
}

/// `pairs` with `value` stored under `key`: the pair that holds the key keeps it and
/// takes the new value; without one, the pair goes at the end.
pub open spec fn put(pairs: Seq<(String, String)>, key: String, value: String) -> Seq<
    (String, String),
> {
    let i = key_index(pairs, key@);
    if i >= 0 {
        pairs.update(i, (pairs[i].0, value))
    } else {
        pairs.push((key, value))
    }
}

/// No two entries of `v` have the same text.
pub open spec fn distinct_texts(v: Seq<String>) -> bool {
    forall|i: int, j: int| 0 <= i < j < v.len() ==> v[i]@ != v[j]@
}

/// No two pairs of `p` have the same first text.
pub open spec fn distinct_keys(p: Seq<(String, String)>) -> bool {
    forall|i: int, j: int| 0 <= i < j < p.len() ==> p[i].0@ != p[j].0@
}

/// The entries of `s` whose flag in `keep` is set, in order.
pub open spec fn kept<T>(s: Seq<T>, keep: Seq<bool>) -> Seq<T>
    decreases s.len(),
{
    if s.len() == 0 || keep.len() == 0 {
        Seq::empty()
    } else if keep.last() {
        kept(s.drop_last(), keep.drop_last()).push(s.last())
    } else {
        kept(s.drop_last(), keep.drop_last())
    }
}

/// The pattern that lists the replays of `folder`: in the favorites directory all its
/// files; otherwise the files named `<prefix>...<format>`, in subfolders too when the
/// search is recursive.
pub open spec fn replays_pattern_of(
    folder: Seq<char>,
    favorites: bool,
    recursive: bool,
    prefix: Seq<char>,
    format: Seq<char>,
) -> Seq<char> {
    if favorites {
        join(folder, ".favorites"@) + "/*"@
    } else {
        folder + "/"@ + (if recursive {
            "**/"@
        } else {
            ""@
        }) + prefix + "*"@ + format
    }
}

/// The listing `replays` in its new order: that of `order`, turned around when the
/// order is descending.
pub open spec fn arranged(replays: Seq<String>, order: Seq<usize>, ascending: bool) -> Seq<String> {
    let sorted = Seq::new(order.len(), |i: int| replays[order[i] as int]);
    if ascending {
        sorted
    } else {
        sorted.reverse()
    }
}

/// Whether the thumbnail of `entry` is still to be asked for.
pub open spec fn wants_thumbnail(
    queue: Seq<String>,
    cache: Seq<(String, String)>,
    entry: Seq<char>,
) -> bool {
    !holds(queue, entry) && lookup(cache, entry) is None
}

/// The number of hours after which litterbox deletes an upload.
pub open spec fn litter_hours(t: LitterboxUploadTime) -> u8 {
    match t {
        LitterboxUploadTime::OneHour => 1,
        LitterboxUploadTime::TwelveHours => 12,
        LitterboxUploadTime::OneDay => 24,
        LitterboxUploadTime::ThreeDays => 72,
    }
}

fn copy_text(s: &String) -> (r: String)
    ensures
        r == *s,
{
    s.clone()
}

/// The position of the last pair whose first text is `key`.
fn find_key(pairs: &Vec<(String, String)>, key: &String) -> (r: Option<usize>)
    ensures
        match r {
            Some(i) => key_index(pairs@, key@) == i && i < pairs.len() && pairs@[i as int].0@ == key@,
            None => key_index(pairs@, key@) == -1,
        },
{
    proof {
        lemma_key_index_bounds(pairs@, key@);
    }
    let mut i = pairs.len();
    assert(pairs@.take(i as int) =~= pairs@);
    while i > 0
        invariant
            i <= pairs.len(),
            key_index(pairs@, key@) == key_index(pairs@.take(i as int), key@),
        decreases i,
    {
        assert(pairs@.take(i as int).drop_last() =~= pairs@.take(i - 1));
        if pairs[i - 1].0 == *key {
            return Some(i - 1);
        }
        i = i - 1;
    }
    None
}

/// Whether some text of `v` is `key`.
fn has_text(v: &Vec<String>, key: &String) -> (r: bool)
    ensures
        r == holds(v@, key@),
{
    let mut i: usize = 0;
    while i < v.len()
        invariant
            i <= v.len(),
            forall|j: int| 0 <= j < i ==> v@[j]@ != key@,
        decreases v.len() - i,
    {
        if v[i] == *key {
            return true;
        }
        i = i + 1;
    }
    false
}

impl ReplayManager {
    /// The collections hold each replay once, as the maps and sets they stand for do.
    pub open spec fn wf(&self) -> bool {
        &&& distinct_texts(self.thumb_queue@)
        &&& distinct_texts(self.thumb_errors@)
        &&& distinct_keys(self.thumb_cache@)
        &&& distinct_keys(self.favorites_cache@)
    }

    /// The state of a first start: the replays in `Videos/Replays` under the home directory,
    /// mp4 files named `Replay_...`, newest first, laid out in a grid, to be read at once.
    pub fn initial(home_dir: Option<&str>, video_editor: String) -> (r: Self)
        ensures
            match home_dir {
                Some(h) => r.replay_folder matches Some(f) && f@ == replays_folder_of(h@),
                None => r.replay_folder is None,
            },
            r.video_editor == video_editor,
            r.replay_format@ == "mp4"@,
            r.replay_prefix@ == "Replay_"@,
            r.display_mode == DisplayMode::Grid,
            r.default_file_action == DefaultFileAction::View,
            r.delete_popup is None,
            r.catbox_popup is None,
            r.replays@.len() == 0,
            !r.loading_done,
            r.sort_order == Sorting::ModificationDate,
            !r.ascending,
            r.search_query@ == Seq::<char>::empty(),
            r.catbox_upload_state is Idle,
            !r.settings_popup,
            r.litterbox_upload_time == LitterboxUploadTime::ThreeDays,
            r.catbox_litter,
            r.thumb_queue@.len() == 0,
            r.thumb_cache@.len() == 0,
            r.favorites_cache@.len() == 0,
            r.thumb_errors@.len() == 0,
            r.refresh,
            !r.show_hidden_files,
            !r.find_recursively,
            !r.favorites_mode,
            r.wf(),
    {
        let replay_folder = match home_dir {
            Some(h) => Some(default_replay_folder(h)),
            None => None,
        };
        ReplayManager {
            replay_folder,
            replay_format: String::from_str("mp4"),
            replay_prefix: String::from_str("Replay_"),
            display_mode: DisplayMode::Grid,
            default_file_action: DefaultFileAction::View,
            delete_popup: None,
            catbox_popup: None,
            replays: Vec::new(),
            loading_done: false,
            sort_order: Sorting::ModificationDate,
            ascending: false,
            search_query: String::new(),
            catbox_upload_state: CatboxUploadState::Idle,
            settings_popup: false,
            litterbox_upload_time: LitterboxUploadTime::ThreeDays,
            catbox_litter: true,
            thumb_queue: Vec::new(),
            thumb_cache: Vec::new(),
            favorites_cache: Vec::new(),
            thumb_errors: Vec::new(),
            video_editor,
            refresh: true,
            show_hidden_files: false,
            find_recursively: false,
            favorites_mode: false,
        }
    }

    /// The browser as it starts from `start` (the saved state, or the initial one):
    /// thumbnails whose flag in `thumbnail_exists` is unset (their video or image is
    /// gone) are forgotten, and every remaining one counts as asked for.
    pub fn new(start: ReplayManager, thumbnail_exists: &Vec<bool>) -> (r: Self)
        requires
            thumbnail_exists.len() == start.thumb_cache.len(),
            start.wf(),
        ensures
            r.wf(),
            r == (ReplayManager { thumb_cache: r.thumb_cache, thumb_queue: r.thumb_queue, ..start }),
            r.thumb_cache@ == kept(start.thumb_cache@, thumbnail_exists@),
            r.thumb_queue@.len() == r.thumb_cache@.len(),
            forall|i: int|
                0 <= i < r.thumb_cache@.len() ==> #[trigger] r.thumb_queue@[i] == r.thumb_cache@[i].0,
    {
        let mut m = start;
        m.forget_missing_thumbnails(thumbnail_exists);
        m.queue_cached_thumbnails();
        m
    }

    /// The settings window opens when it was closed and closes when it was open.
    pub fn toggle_settings(&mut self)
        ensures
            *final(self) == (ReplayManager { settings_popup: !old(self).settings_popup, ..*old(self) }),
    {
        self.settings_popup = !self.settings_popup;
    }

    /// The listing is to be read again.
    pub fn request_refresh(&mut self)
        ensures
            *final(self) == (ReplayManager { refresh: true, ..*old(self) }),
    {
        self.refresh = true;
    }

    /// A sort order was picked; picking another one than the current forces a new listing.
    pub fn set_sort_order(&mut self, order: Sorting)
        ensures
            *final(self) == (ReplayManager {
                sort_order: order,
                refresh: old(self).refresh || old(self).sort_order != order,
                ..*old(self)
            }),
    {
        if self.sort_order != order {
            self.sort_order = order;
            self.refresh = true;
        }
    }

    /// Ascending or descending order was clicked: the listing is read again either way.
    pub fn set_ascending(&mut self, ascending: bool)
        ensures
            *final(self) == (ReplayManager { ascending: ascending, refresh: true, ..*old(self) }),
    {
        self.ascending = ascending;
        self.refresh = true;
    }

    /// All replays are to be shown; leaving the favorites forces a new listing.
    pub fn show_all(&mut self)
        ensures
            *final(self) == (ReplayManager {
                favorites_mode: false,
                refresh: old(self).refresh || old(self).favorites_mode,
                ..*old(self)
            }),
    {
        if self.favorites_mode {
            self.favorites_mode = false;
            self.refresh = true;
        }
    }

    /// Only the favorites are to be shown; entering them forces a new listing.
    pub fn show_favorites(&mut self)
        ensures
            *final(self) == (ReplayManager {
                favorites_mode: true,
                refresh: old(self).refresh || !old(self).favorites_mode,
                ..*old(self)
            }),
    {
        if !self.favorites_mode {
            self.favorites_mode = true;
            self.refresh = true;
        }
    }

    /// A replay folder was picked: it is listed afresh and no thumbnail counts as asked for.
    pub fn pick_replay_folder(&mut self, folder: String)
        ensures
            *final(self) == (ReplayManager {
                replay_folder: Some(folder),
                refresh: true,
                thumb_queue: final(self).thumb_queue,
                ..*old(self)
            }),
            final(self).thumb_queue@.len() == 0,
            old(self).wf() ==> final(self).wf(),
    {
        self.replay_folder = Some(folder);
        self.refresh = true;
        self.thumb_queue.clear();
    }

    /// The file name prefix was edited; a changed prefix forces a new listing.
    pub fn set_replay_prefix(&mut self, prefix: String)
        ensures
            *final(self) == (ReplayManager {
                replay_prefix: prefix,
                refresh: old(self).refresh || old(self).replay_prefix@ != prefix@,
                ..*old(self)
            }),
    {
        if self.replay_prefix != prefix {
            self.refresh = true;
        }
        self.replay_prefix = prefix;
    }

    /// The file format was edited; a changed format forces a new listing.
    pub fn set_replay_format(&mut self, format: String)
        ensures
            *final(self) == (ReplayManager {
                replay_format: format,
                refresh: old(self).refresh || old(self).replay_format@ != format@,
                ..*old(self)
            }),
    {
        if self.replay_format != format {
            self.refresh = true;
        }
        self.replay_format = format;
    }

    /// Searching subfolders was switched; a change forces a new listing.
    pub fn set_find_recursively(&mut self, recursive: bool)
        ensures
            *final(self) == (ReplayManager {
                find_recursively: recursive,
                refresh: old(self).refresh || old(self).find_recursively != recursive,
                ..*old(self)
            }),
    {
        if self.find_recursively != recursive {
            self.find_recursively = recursive;
            self.refresh = true;
        }
    }

    /// Deleting the replay shown at `index` is to be confirmed.
    pub fn ask_delete(&mut self, index: usize)
        ensures
            *final(self) == (ReplayManager { delete_popup: Some(index), ..*old(self) }),
    {
        self.delete_popup = Some(index);
    }

    /// The replay was deleted: the confirmation closes and the listing is read again.
    pub fn replay_deleted(&mut self)
        ensures
            *final(self) == (ReplayManager { delete_popup: None, refresh: true, ..*old(self) }),
    {
        self.refresh = true;
        self.delete_popup = None;
    }

    /// Deleting was called off.
    pub fn cancel_delete(&mut self)
        ensures
            *final(self) == (ReplayManager { delete_popup: None, ..*old(self) }),
    {
        self.delete_popup = None;
    }

    /// The replay shown at `index` is being uploaded; its upload window opens.
    pub fn start_upload(&mut self, index: usize)
        ensures
            *final(self) == (ReplayManager {
                catbox_upload_state: CatboxUploadState::Uploading,
                catbox_popup: Some(index),
                ..*old(self)
            }),
    {
        self.catbox_upload_state = CatboxUploadState::Uploading;
        self.catbox_popup = Some(index);
    }

    /// The upload window is closed.
    pub fn close_upload_popup(&mut self)
        ensures
            *final(self) == (ReplayManager { catbox_popup: None, ..*old(self) }),
    {
        self.catbox_popup = None;
    }

    /// An upload ended: with the link to the file, or with the reason it failed.
    pub fn receive_upload(&mut self, result: Result<String, String>)
        ensures
            *final(self) == (ReplayManager {
                catbox_upload_state: match result {
                    Ok(link) => CatboxUploadState::Done(link),
                    Err(e) => CatboxUploadState::Error(e),
                },
                ..*old(self)
            }),
    {
        self.catbox_upload_state = match result {
            Ok(link) => CatboxUploadState::Done(link),
            Err(e) => CatboxUploadState::Error(e),
        };
    }

    /// Whether the end of loading is to be announced now: once the listing has been
    /// read, the first time this is asked.
    pub fn check_loading_done(&mut self) -> (announce: bool)
        ensures
            announce == announces(*old(self)),
            *final(self) == (ReplayManager {
                loading_done: old(self).loading_done || announce,
                ..*old(self)
            }),
    {
        if !self.refresh && !self.loading_done {
            self.loading_done = true;
            true
        } else {
            false
        }
    }

    /// The hours after which litterbox deletes an upload, as set.
    pub fn litter_delete_hours(&self) -> (r: u8)
        ensures
            r == litter_hours(self.litterbox_upload_time),
    {
        match self.litterbox_upload_time {
            LitterboxUploadTime::OneHour => 1,
            LitterboxUploadTime::TwelveHours => 12,
            LitterboxUploadTime::OneDay => 24,
            LitterboxUploadTime::ThreeDays => 72,
        }
    }

    /// How long litterbox keeps an upload, in words.
    pub fn litter_time_label(&self) -> (r: &'static str)
        ensures
            r@ == match self.litterbox_upload_time {
                LitterboxUploadTime::OneHour => "1 hour"@,
                LitterboxUploadTime::TwelveHours => "12 hours"@,
                LitterboxUploadTime::OneDay => "1 day"@,
                LitterboxUploadTime::ThreeDays => "3 days"@,
            },
    {
        match self.litterbox_upload_time {
            LitterboxUploadTime::OneHour => "1 hour",
            LitterboxUploadTime::TwelveHours => "12 hours",
            LitterboxUploadTime::OneDay => "1 day",
            LitterboxUploadTime::ThreeDays => "3 days",
        }
    }

    /// Where an upload goes: litterbox, for the hours set, when it is chosen; catbox otherwise.
    pub fn upload_target(&self) -> (r: UploadTarget)
        ensures
            r == (if self.catbox_litter {
                UploadTarget::Litterbox(litter_hours(self.litterbox_upload_time))
            } else {
                UploadTarget::Catbox
            }),
    {
        if self.catbox_litter {
            UploadTarget::Litterbox(self.litter_delete_hours())
        } else {
            UploadTarget::Catbox
        }
    }

    /// A thumbnail job for `replay` ended: its thumbnail's path is stored, or the replay
    /// is marked as failed. Answers whether it failed.
    pub fn receive_thumbnail(&mut self, replay: String, result: Result<String, String>) -> (failed:
        bool)
        ensures
            failed == result is Err,
            *final(self) == (ReplayManager {
                thumb_cache: final(self).thumb_cache,
                thumb_errors: final(self).thumb_errors,
                ..*old(self)
            }),
            match result {
                Ok(thumb) => final(self).thumb_cache@ == put(old(self).thumb_cache@, replay, thumb)
                    && final(self).thumb_errors@ == old(self).thumb_errors@,
                Err(_) => final(self).thumb_cache@ == old(self).thumb_cache@
                    && final(self).thumb_errors@ == (if holds(old(self).thumb_errors@, replay@) {
                    old(self).thumb_errors@
                } else {
                    old(self).thumb_errors@.push(replay)
                }),
            },
            old(self).wf() ==> final(self).wf(),
            forall|k: Seq<char>|
                #![trigger lookup(final(self).thumb_cache@, k)]
                lookup(old(self).thumb_cache@, k) is Some ==> lookup(final(self).thumb_cache@, k) is Some,
            forall|k: Seq<char>|
                #![trigger holds(final(self).thumb_errors@, k)]
                holds(old(self).thumb_errors@, k) ==> holds(final(self).thumb_errors@, k),
    {
        proof {
            if result is Ok {
                law_storing_loses_no_thumbnail(old(self).thumb_cache@, replay, result->Ok_0);
            } else {
                law_adding_loses_no_entry(old(self).thumb_errors@, replay);
            }
        }
        match result {
            Ok(thumb) => {
                match find_key(&self.thumb_cache, &replay) {
                    Some(i) => {
                        let key = copy_text(&self.thumb_cache[i].0);
                        self.thumb_cache.set(i, (key, thumb));
                    },
                    None => {
                        self.thumb_cache.push((replay, thumb));
                    },
                }
                false
            },
            Err(_) => {
                if !has_text(&self.thumb_errors, &replay) {
                    self.thumb_errors.push(replay);
                }
                true
            },
        }
    }

    /// Whether the thumbnail of `entry` is to be made now: the first time it is asked
    /// for, when there is none yet. It then counts as asked for.
    pub fn request_thumbnail(&mut self, entry: &String) -> (start: bool)
        ensures
            start == wants_thumbnail(old(self).thumb_queue@, old(self).thumb_cache@, entry@),
            *final(self) == (ReplayManager { thumb_queue: final(self).thumb_queue, ..*old(self) }),
            final(self).thumb_queue@ == (if start {
                old(self).thumb_queue@.push(*entry)
            } else {
                old(self).thumb_queue@
            }),
            old(self).wf() ==> final(self).wf(),
            forall|k: Seq<char>|
                #![trigger holds(final(self).thumb_queue@, k)]
                holds(old(self).thumb_queue@, k) ==> holds(final(self).thumb_queue@, k),
    {
        proof {
            law_adding_loses_no_entry(old(self).thumb_queue@, *entry);
        }
        if !has_text(&self.thumb_queue, entry) && find_key(&self.thumb_cache, entry).is_none() {
            self.thumb_queue.push(copy_text(entry));
            true
        } else {
            false
        }
    }

    /// What stands in the cell of `entry`: the failure, a placeholder while the thumbnail
    /// is being made, or the thumbnail.
    pub fn thumbnail_view(&self, entry: &String) -> (r: ThumbnailView)
        ensures
            holds(self.thumb_errors@, entry@) ==> r is Failed,
            !holds(self.thumb_errors@, entry@) ==> match lookup(self.thumb_cache@, entry@) {
                Some(t) => r matches ThumbnailView::Ready(p) && p@ == t,
                None => r is Pending,
            },
    {
        if has_text(&self.thumb_errors, entry) {
            return ThumbnailView::Failed;
        }
        match find_key(&self.thumb_cache, entry) {
            Some(i) => ThumbnailView::Ready(copy_text(&self.thumb_cache[i].1)),
            None => ThumbnailView::Pending,
        }
    }

    /// Thumbnails whose flag in `keep` is unset are forgotten (their files are gone).
    pub fn forget_missing_thumbnails(&mut self, keep: &Vec<bool>)
        requires
            keep.len() == old(self).thumb_cache.len(),
        ensures
            *final(self) == (ReplayManager { thumb_cache: final(self).thumb_cache, ..*old(self) }),
            final(self).thumb_cache@ == kept(old(self).thumb_cache@, keep@),
            old(self).wf() ==> final(self).wf(),
    {
        proof {
            lemma_kept_distinct(old(self).thumb_cache@, keep@);
        }
        let mut remaining: Vec<(String, String)> = Vec::new();
        let mut i: usize = 0;
        while i < keep.len()
            invariant
                i <= keep.len() == self.thumb_cache.len(),
                remaining@ == kept(self.thumb_cache@.take(i as int), keep@.take(i as int)),
            decreases keep.len() - i,
        {
            assert(self.thumb_cache@.take(i + 1).drop_last() =~= self.thumb_cache@.take(i as int));
            assert(keep@.take(i + 1).drop_last() =~= keep@.take(i as int));
            if keep[i] {
                let pair = (copy_text(&self.thumb_cache[i].0), copy_text(&self.thumb_cache[i].1));
                remaining.push(pair);
            }
            i = i + 1;
        }
        assert(self.thumb_cache@.take(i as int) =~= self.thumb_cache@);
        assert(keep@.take(i as int) =~= keep@);
        self.thumb_cache = remaining;
    }

    /// Every replay that has a thumbnail counts as asked for, and no other.
    pub fn queue_cached_thumbnails(&mut self)
        ensures
            *final(self) == (ReplayManager { thumb_queue: final(self).thumb_queue, ..*old(self) }),
            final(self).thumb_queue@.len() == old(self).thumb_cache@.len(),
            forall|i: int|
                0 <= i < old(self).thumb_cache@.len() ==> #[trigger] final(self).thumb_queue@[i]
                    == old(self).thumb_cache@[i].0,
            old(self).wf() ==> final(self).wf(),
    {
        let mut queue: Vec<String> = Vec::new();
        let mut i: usize = 0;
        while i < self.thumb_cache.len()
            invariant
                i <= self.thumb_cache.len(),
                queue.len() == i,
                forall|j: int| 0 <= j < i ==> #[trigger] queue@[j] == self.thumb_cache@[j].0,
            decreases self.thumb_cache.len() - i,
        {
            queue.push(copy_text(&self.thumb_cache[i].0));
            i = i + 1;
        }
        self.thumb_queue = queue;
    }

    /// The pattern that lists the replays (see `replays_pattern_of`).
    pub fn replays_pattern(&self) -> (r: String)
        requires
            self.replay_folder is Some,
        ensures
            r@ == replays_pattern_of(
                self.replay_folder.unwrap()@,
                self.favorites_mode,
                self.find_recursively,
                self.replay_prefix@,
                self.replay_format@,
            ),
    {
        let folder = match &self.replay_folder {
            Some(f) => f,
            None => {
                assert(false);
                return String::new();
            },
        };
        if self.favorites_mode {
            let mut r = path_join(folder.as_str(), ".favorites");
            r.append("/*");
            r
        } else {
            let mut r = copy_text(folder);
            r.append("/");
            if self.find_recursively {
                r.append("**/");
            } else {
                r.append("");
            }
            r.append(self.replay_prefix.as_str());
            r.append("*");
            r.append(self.replay_format.as_str());
            r
        }
    }

    /// The listing of the replays, compiled from `replays_pattern` when the listing is
    /// to be read again (`None` otherwise); hidden files are listed only when they are shown.
    pub fn list_replays(&self) -> (r: Option<Result<Listing, PatternFault>>)
        requires
            self.replay_folder is Some,
        ensures
            !self.refresh ==> r is None,
            self.refresh ==> match glob_pattern_error(
                replays_pattern_of(
                    self.replay_folder.unwrap()@,
                    self.favorites_mode,
                    self.find_recursively,
                    self.replay_prefix@,
                    self.replay_format@,
                ),
            ) {
                None => r matches Some(Ok(l)) && l.pattern@ == replays_pattern_of(
                    self.replay_folder.unwrap()@,
                    self.favorites_mode,
                    self.find_recursively,
                    self.replay_prefix@,
                    self.replay_format@,
                ) && l.literal_leading_dot@ == !self.show_hidden_files,
                Some((pos, msg)) => r matches Some(Err(f)) && f.pos == pos && f.msg@ == msg,
            },
    {
        if !self.refresh {
            return None;
        }
        let pattern = self.replays_pattern();
        Some(compile_listing(pattern.as_str(), self.show_hidden_files))
    }

    /// The favorites directory that must exist while favorites are shown, if they are.
    pub fn favorites_dir_needed(&self) -> (r: Option<String>)
        requires
            self.replay_folder is Some,
        ensures
            match r {
                Some(d) => self.favorites_mode && d@ == join(self.replay_folder.unwrap()@, ".favorites"@),
                None => !self.favorites_mode,
            },
    {
        if self.favorites_mode {
            match &self.replay_folder {
                Some(f) => Some(path_join(f.as_str(), ".favorites")),
                None => None,
            }
        } else {
            None
        }
    }

    /// The listing that was read replaces the current one.
    pub fn set_replays(&mut self, found: Vec<String>)
        ensures
            *final(self) == (ReplayManager { replays: found, ..*old(self) }),
    {
        self.replays = found;
    }

    /// The listing is put in order by `keys`, the key of each replay in turn: a stable
    /// sort, turned around when the order is descending. The listing is then up to date
    /// and its end not yet announced.
    pub fn finish_refresh(&mut self, keys: &Vec<SortKey>)
        requires
            keys.len() == old(self).replays.len(),
        ensures
            exists|order: Seq<usize>|
                is_stable_order(keys@, order) && final(self).replays@ == arranged(
                    old(self).replays@,
                    order,
                    old(self).ascending,
                ),
            *final(self) == (ReplayManager {
                replays: final(self).replays,
                refresh: false,
                loading_done: false,
                ..*old(self)
            }),
    {
        let order = stable_order(keys);
        let n = order.len();
        let mut arranged_replays: Vec<String> = Vec::new();
        let mut i: usize = 0;
        while i < n
            invariant
                n == order.len() == self.replays.len(),
                is_stable_order(keys@, order@),
                i <= n,
                arranged_replays.len() == i,
                forall|j: int|
                    0 <= j < i ==> #[trigger] arranged_replays@[j] == (if self.ascending {
                        self.replays@[order@[j] as int]
                    } else {
                        self.replays@[order@[n - 1 - j] as int]
                    }),
            decreases n - i,
        {
            let at = if self.ascending {
                order[i]
            } else {
                order[n - 1 - i]
            };
            arranged_replays.push(copy_text(&self.replays[at]));
            i = i + 1;
        }
        assert(arranged_replays@ =~= arranged(self.replays@, order@, self.ascending));
        self.replays = arranged_replays;
        self.refresh = false;
        self.loading_done = false;
    }

    /// The replays that the search lets through, each with its place in the listing.
    pub fn filtered_replays(&self) -> (r: Vec<(usize, String)>)
        ensures
            r.len() == matching_indices(views_of(self.replays@), self.search_query@).len(),
            forall|k: int|
                0 <= k < r.len() ==> (#[trigger] r@[k]).0 == matching_indices(
                    views_of(self.replays@),
                    self.search_query@,
                )[k] && r@[k].0 < self.replays.len() && r@[k].1@ == self.replays@[r@[k].0 as int]@,
    {
        filter_replays(&self.replays, self.search_query.as_str())
    }

    /// The start of the heading above the listing: "Favorite r" or "R", before "eplays in".
    pub fn title_prefix(&self) -> (r: &'static str)
        ensures
            r@ == (if self.favorites_mode {
                "Favorite r"@
            } else {
                "R"@
            }),
    {
        if self.favorites_mode {
            "Favorite r"
        } else {
            "R"
        }
    }
}

/// The replay folder under the home directory `home`: `Videos/Replays`.
pub open spec fn replays_folder_of(home: Seq<char>) -> Seq<char> {
    join(home, "Videos/Replays"@)
}

/// The default replay folder for the home directory `home`.
pub fn default_replay_folder(home: &str) -> (r: String)
    ensures
        r@ == replays_folder_of(home@),
{
    path_join(home, "Videos/Replays")
}

/// The default video editor's program name: capitalized on Windows.
pub fn default_video_editor(windows: bool) -> (r: &'static str)
    ensures
        r@ == (if windows {
            "LosslessCut"@
        } else {
            "losslesscut"@
        }),
{
    if windows {
        "LosslessCut"
    } else {
        "losslesscut"
    }
}

/// Storing a value keeps the keys distinct and loses no key.
pub proof fn law_storing_loses_no_thumbnail(pairs: Seq<(String, String)>, key: String, value: String)
    ensures
        distinct_keys(pairs) ==> distinct_keys(put(pairs, key, value)),
        forall|k: Seq<char>|
            #![trigger lookup(put(pairs, key, value), k)]
            lookup(pairs, k) is Some ==> lookup(put(pairs, key, value), k) is Some,
{
    lemma_key_index_bounds(pairs, key@);
    let i = key_index(pairs, key@);
    let stored = put(pairs, key, value);
    assert forall|k: Seq<char>| #[trigger] lookup(stored, k) is None implies lookup(pairs, k) is None by {
        lemma_key_index_bounds(pairs, k);
        lemma_key_index_bounds(stored, k);
        let a = key_index(pairs, k);
        if a >= 0 {
            assert(stored[a].0@ == pairs[a].0@);
        }
    }
    if distinct_keys(pairs) {
        assert forall|x: int, y: int| 0 <= x < y < stored.len() implies stored[x].0@ != stored[y].0@ by {
            if i < 0 && y == pairs.len() {
                lemma_key_index_bounds(pairs, key@);
                assert(pairs[x].0@ != key@);
            }
        }
    }
}

/// Adding an entry when it is absent keeps the texts distinct; no text is lost.
pub proof fn law_adding_loses_no_entry(v: Seq<String>, e: String)
    ensures
        distinct_texts(v) && !holds(v, e@) ==> distinct_texts(v.push(e)),
        forall|k: Seq<char>| #![trigger holds(v.push(e), k)] holds(v, k) ==> holds(v.push(e), k),
{
    assert forall|k: Seq<char>| #[trigger] holds(v.push(e), k) || !holds(v, k) by {
        if holds(v, k) {
            let i = choose|i: int| 0 <= i < v.len() && #[trigger] v[i]@ == k;
            assert(v.push(e)[i]@ == k);
        }
    }
    if distinct_texts(v) && !holds(v, e@) {
        assert forall|x: int, y: int| 0 <= x < y < v.push(e).len() implies v.push(e)[x]@ != v.push(e)[y]@ by {
            if y == v.len() {
                assert(v.push(e)[x] == v[x]);
            }
        }
    }
}

/// `x` is one of the pairs of `s`.
pub open spec fn one_of(s: Seq<(String, String)>, x: (String, String)) -> bool {
    exists|j: int| 0 <= j < s.len() && s[j] == x
}

/// Keeping some pairs of a list with distinct keys keeps them distinct; every pair kept
/// is one of the list's.
pub proof fn lemma_kept_distinct(s: Seq<(String, String)>, keep: Seq<bool>)
    ensures
        forall|i: int| 0 <= i < kept(s, keep).len() ==> one_of(s, #[trigger] kept(s, keep)[i]),
        distinct_keys(s) ==> distinct_keys(kept(s, keep)),
    decreases s.len(),
{
    if s.len() > 0 && keep.len() > 0 {
        let rest = s.drop_last();
        lemma_kept_distinct(rest, keep.drop_last());
        let r = kept(rest, keep.drop_last());
        let k = kept(s, keep);
        assert forall|i: int| 0 <= i < k.len() implies one_of(s, #[trigger] k[i]) by {
            if i < r.len() {
                assert(one_of(rest, r[i]));
                let j = choose|j: int| 0 <= j < rest.len() && rest[j] == r[i];
                assert(s[j] == k[i]);
            } else {
                assert(s[s.len() - 1] == k[i]);
            }
        }
        if distinct_keys(s) {
            assert forall|x: int, y: int| 0 <= x < y < k.len() implies k[x].0@ != k[y].0@ by {
                if keep.last() && y == r.len() {
                    assert(one_of(rest, r[x]));
                    let j = choose|j: int| 0 <= j < rest.len() && rest[j] == r[x];
                    assert(rest[j] == s[j]);
                    assert(k[x] == r[x]);
                }
            }
        }
    }
}

/// The name shown for a replay: its file stem, or `undefined` when its path has none.
pub fn replay_label(entry: &str) -> (r: String)
    ensures
        r@ == match file_stem(entry@) {
            Some(stem) => stem,
            None => "undefined"@,
        },
{
    match path_file_stem(entry) {
        Some(stem) => stem,
        None => String::from_str("undefined"),
    }
}

/// The ending of "replay" in the message that announces how many were loaded.
pub fn plural_suffix(count: usize) -> (r: &'static str)
    ensures
        r@ == (if count > 1 {
            "s"@
        } else {
            ""@
        }),
{
    if count > 1 {
        "s"
    } else {
        ""
    }
}

/// A thumbnail is asked for once: as soon as it has been asked for, it is no longer wanted.
pub proof fn law_thumbnail_asked_once(
    queue: Seq<String>,
    cache: Seq<(String, String)>,
    entry: String,
)
    ensures
        !wants_thumbnail(queue.push(entry), cache, entry@),
{
    assert(queue.push(entry)[queue.len() as int]@ == entry@);
}

/// A thumbnail that was stored is what is found for its replay afterwards, and storing
/// it changes what is found for no other replay.
pub proof fn law_stored_thumbnail_found(
    pairs: Seq<(String, String)>,
    key: String,
    value: String,
    other: Seq<char>,
)
    ensures
        lookup(put(pairs, key, value), key@) == Some(value@),
        other != key@ ==> lookup(put(pairs, key, value), other) == lookup(pairs, other),
{
    lemma_key_index_bounds(pairs, key@);
    lemma_key_index_bounds(pairs, other);
    let i = key_index(pairs, key@);
    let stored = put(pairs, key, value);
    if i >= 0 {
        lemma_key_index_bounds(stored, key@);
        assert(stored[i].0@ == key@);
        assert(key_index(stored, key@) == i);
        if other != key@ {
            lemma_key_index_bounds(stored, other);
            let a = key_index(pairs, other);
            let b = key_index(stored, other);
            if a >= 0 {
                assert(stored[a].0 == pairs[a].0);
            }
            if b >= 0 {
                assert(stored[b].0 == pairs[b].0);
            }
            assert(a == b);
        }
    } else {
        assert(stored.drop_last() =~= pairs);
        if other != key@ {
            assert(key_index(stored, other) == key_index(pairs, other));
            let a = key_index(pairs, other);
            if a >= 0 {
                assert(stored[a] == pairs[a]);
            }
        }
    }
}

/// Whether asking for the end of loading announces it.
pub open spec fn announces(m: ReplayManager) -> bool {
    !m.refresh && !m.loading_done
}

/// The end of loading is announced once after each reading of the listing: right after
/// it, asking announces it, and asking again does not.
pub proof fn law_loading_announced_once(m: ReplayManager)
    ensures
        announces((ReplayManager { refresh: false, loading_done: false, ..m })),
        !announces(
            (ReplayManager {
                refresh: false,
                loading_done: announces((ReplayManager { refresh: false, loading_done: false, ..m })),
                ..m
            }),
        ),
{
}

/// Nothing is announced while the listing is still to be read.
pub proof fn law_nothing_announced_while_pending(m: ReplayManager)
    requires
        m.refresh,
    ensures
        !announces(m),
{
}

/// Outside favorites mode the pattern is the folder, a separator, `**/` when subfolders
/// are searched, then the prefix, one `*` and the format, whatever the prefix (the empty
/// one too): a file named prefix, anything, format matches it.
pub proof fn law_pattern_shape(
    folder: Seq<char>,
    recursive: bool,
    prefix: Seq<char>,
    format: Seq<char>,
)
    ensures
        ({
            let p = replays_pattern_of(folder, false, recursive, prefix, format);
            let head = folder + seq!['/'] + (if recursive {
                seq!['*', '*', '/']
            } else {
                Seq::<char>::empty()
            });
            &&& p.len() == head.len() + prefix.len() + 1 + format.len()
            &&& p.subrange(0, head.len() as int) == head
            &&& p.subrange(head.len() as int, head.len() as int + prefix.len()) == prefix
            &&& p[head.len() as int + prefix.len()] == '*'
            &&& p.subrange(p.len() - format.len(), p.len() as int) == format
        }),
{
    reveal_strlit("/");
    reveal_strlit("**/");
    reveal_strlit("");
    reveal_strlit("*");
    let p = replays_pattern_of(folder, false, recursive, prefix, format);
    let head = folder + seq!['/'] + (if recursive {
        seq!['*', '*', '/']
    } else {
        Seq::<char>::empty()
    });
    assert("/"@ =~= seq!['/']);
    assert("*"@ =~= seq!['*']);
    if recursive {
        assert("**/"@ =~= seq!['*', '*', '/']);
    } else {
        assert(""@ =~= Seq::<char>::empty());
    }
    assert(p =~= head + prefix + seq!['*'] + format);
    assert(p.subrange(0, head.len() as int) =~= head);
    assert(p.subrange(head.len() as int, head.len() as int + prefix.len()) =~= prefix);
    assert(p.subrange(p.len() - format.len(), p.len() as int) =~= format);
}

/// In favorites mode the pattern lists every file of the favorites directory: that
/// directory, then `/*`.
pub proof fn law_favorites_pattern_shape(
    folder: Seq<char>,
    recursive: bool,
    prefix: Seq<char>,
    format: Seq<char>,
)
    ensures
        replays_pattern_of(folder, true, recursive, prefix, format) == join(folder, ".favorites"@)
            + seq!['/', '*'],
{
    reveal_strlit("/*");
    assert("/*"@ =~= seq!['/', '*']);
}

/// A descending listing is the ascending one turned around.
pub proof fn law_descending_is_reversed(replays: Seq<String>, order: Seq<usize>)
    ensures
        arranged(replays, order, false) == arranged(replays, order, true).reverse(),
{
}

/// In a stable order no key comes after a smaller one, and no index is listed twice.
pub proof fn law_stable_order_sorted(keys: Seq<SortKey>, order: Seq<usize>, p: int, q: int)
    requires
        is_stable_order(keys, order),
        0 <= p < q < order.len(),
    ensures
        !key_lt(keys[order[q] as int], keys[order[p] as int]),
        order[p] != order[q],
{
    assert(goes_before(keys, order[p] as int, order[q] as int));
    lemma_key_order(keys[order[p] as int], keys[order[q] as int], keys[order[p] as int]);
    lemma_key_order(keys[order[q] as int], keys[order[p] as int], keys[order[q] as int]);
}

} // verus!
