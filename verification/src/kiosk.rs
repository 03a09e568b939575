//! What the operator sees and types: the list of playable files, the one
//! that plays, the digits typed so far, and whether the splash screen is up
//! and with which picture.
//!
//! Drawing, timers and key events belong to the shell around this state. The
//! shell hands over what was typed and what the player reports, and reads
//! back which file to load next.

use crate::file_scanner::{FileView, VideoFile};
use crate::player::VideoPlayer;
use crate::text::{all_digits, digits_of, is_digits, keep_digits, same_text};
use vstd::prelude::*;

verus! {

/// How long the shell waits between stopping one session and creating the
/// next, so that decoder and audio device are released first.
pub const SETTLE_DELAY_MILLIS: u64 = 100;

/// Whether `input` has the form of a hip number: three digits.
pub open spec fn is_hip_input(input: Seq<char>) -> bool {
    input.len() == 3 && is_digits(input)
}

/// The place of the file with the given hip number. Where several files carry
/// the number, the last of them is meant.
pub open spec fn hip_index(files: Seq<FileView>, hip_number: Seq<char>) -> Option<int>
    decreases files.len(),
{
    if files.len() == 0 {
        None
    } else if files.last().hip_number == hip_number {
        Some(files.len() - 1)
    } else {
        hip_index(files.drop_last(), hip_number)
    }
}

/// What is left of the input buffer at the end of an update: its digits, and
/// of those no more than `max_length`.
pub open spec fn cut_input(text: Seq<char>, max_length: nat) -> Seq<char> {
    let digits = digits_of(text);
    if digits.len() > max_length {
        digits.subrange(0, max_length as int)
    } else {
        digits
    }
}

/// The place behind `current` in a cycle of `count` places.
pub open spec fn next_in_cycle(current: usize, count: usize) -> usize {
    ((current + 1) % (count as int)) as usize
}

/// Whether a splash screen is due after `videos_played` videos: `once` shows
/// it before the first video only, `every` after each video, `every_other`
/// after the first, third, fifth, and `every_third` after the first, fourth,
/// seventh. A disabled splash and an unknown interval never show it.
pub open spec fn splash_is_due(enabled: bool, interval: Seq<char>, videos_played: nat) -> bool {
    if !enabled {
        false
    } else if interval == "once"@ {
        videos_played == 0
    } else if interval == "every"@ {
        videos_played > 0
    } else if interval == "every_other"@ {
        videos_played > 0 && videos_played % 2 == 1
    } else if interval == "every_third"@ {
        videos_played > 0 && videos_played % 3 == 1
    } else {
        false
    }
}

/// Whether a splash screen is due after `videos_played` videos.
pub fn should_show_splash(enabled: bool, interval: &str, videos_played: usize) -> (due: bool)
    ensures
        due == splash_is_due(enabled, interval@, videos_played as nat),
{
    if !enabled {
        false
    } else if same_text(interval, "once") {
        videos_played == 0
    } else if same_text(interval, "every") {
        videos_played > 0
    } else if same_text(interval, "every_other") {
        videos_played > 0 && videos_played % 2 == 1
    } else if same_text(interval, "every_third") {
        videos_played > 0 && videos_played % 3 == 1
    } else {
        false
    }
}

/// What the kiosk state is.
pub struct KioskView {
    pub video_files: Seq<FileView>,
    pub current_index: usize,
    pub input_buffer: Seq<char>,
    pub current_file_name: Seq<char>,
    pub load_video_index: Option<usize>,
    pub videos_played: usize,
    pub show_no_video_popup: bool,
    pub no_video_hip: Seq<char>,
    pub show_splash: bool,
    pub current_splash_index: usize,
}

/// The state behind the kiosk's screen.
#[derive(Debug)]
pub struct Kiosk {
    /// The playable files, ordered by hip number.
    pub video_files: Vec<VideoFile>,
    /// The place of the file that plays.
    pub current_index: usize,
    /// The digits typed so far.
    pub input_buffer: String,
    /// What the screen shows as the name of the file that plays.
    pub current_file_name: String,
    /// The file the shell is to load next, if any.
    pub load_video_index: Option<usize>,
    /// How many videos the operator has chosen by hip number.
    pub videos_played: usize,
    /// Whether the notice that no file carries the typed number is up.
    pub show_no_video_popup: bool,
    /// The number that notice speaks of.
    pub no_video_hip: String,
    /// Whether the splash screen is up.
    pub show_splash: bool,
    /// Which of the splash pictures is shown.
    pub current_splash_index: usize,
}

impl View for Kiosk {
    type V = KioskView;

    open spec fn view(&self) -> KioskView {
        KioskView {
            video_files: self.video_files@.map_values(|file: VideoFile| file@),
            current_index: self.current_index,
            input_buffer: self.input_buffer@,
            current_file_name: self.current_file_name@,
            load_video_index: self.load_video_index,
            videos_played: self.videos_played,
            show_no_video_popup: self.show_no_video_popup,
            no_video_hip: self.no_video_hip@,
            show_splash: self.show_splash,
            current_splash_index: self.current_splash_index,
        }
    }
}

impl KioskView {
    /// The state before any file was scanned. The splash screen is up.
    pub open spec fn initial() -> KioskView {
        KioskView {
            video_files: Seq::empty(),
            current_index: 0,
            input_buffer: Seq::empty(),
            current_file_name: "No file loaded"@,
            load_video_index: None,
            videos_played: 0,
            show_no_video_popup: false,
            no_video_hip: Seq::empty(),
            show_splash: true,
            current_splash_index: 0,
        }
    }

    /// The state after the splash rule was looked at with `image_count`
    /// splash pictures at hand: a splash that is due and not up is raised,
    /// with the picture behind the last one shown, the first again behind the
    /// last.
    pub open spec fn splash_checked(self, due: bool, image_count: usize) -> KioskView {
        if due && !self.show_splash {
            KioskView {
                show_splash: true,
                current_splash_index: next_in_cycle(
                    self.current_splash_index,
                    if image_count > 0 {
                        image_count
                    } else {
                        1
                    },
                ),
                ..self
            }
        } else {
            self
        }
    }

    /// The state after the splash screen's time was up.
    pub open spec fn splash_timed_out(self) -> KioskView {
        KioskView { show_splash: false, ..self }
    }

    /// The state after the scanned files were taken over: the first file
    /// becomes the current one.
    pub open spec fn with_files(self, files: Seq<FileView>) -> KioskView {
        KioskView {
            video_files: files,
            current_index: if files.len() > 0 {
                0
            } else {
                self.current_index
            },
            ..self
        }
    }

    /// The state at startup: the scanned files are taken over, and the first
    /// of them, if there is one, is asked to be loaded.
    pub open spec fn started(files: Seq<FileView>) -> KioskView {
        KioskView {
            load_video_index: if files.len() > 0 {
                Some(0usize)
            } else {
                None
            },
            ..KioskView::initial().with_files(files)
        }
    }

    /// Whether `input` names a file of the list.
    pub open spec fn accepts(self, input: Seq<char>) -> bool {
        is_hip_input(input) && hip_index(self.video_files, input) is Some
    }

    /// The state after `input` was entered. A hip number that names a file
    /// makes that file the next to load and counts as one more video; a hip
    /// number that names none puts up the notice; anything else changes
    /// nothing.
    pub open spec fn entered(self, input: Seq<char>) -> KioskView {
        if !is_hip_input(input) {
            self
        } else {
            match hip_index(self.video_files, input) {
                Some(index) => KioskView {
                    current_index: index as usize,
                    load_video_index: Some(index as usize),
                    videos_played: if self.videos_played < usize::MAX {
                        (self.videos_played + 1) as usize
                    } else {
                        self.videos_played
                    },
                    ..self
                },
                None => KioskView { show_no_video_popup: true, no_video_hip: input, ..self },
            }
        }
    }

    /// The state after moving on to the file behind the current one, from the
    /// last file back to the first.
    pub open spec fn advanced(self) -> KioskView {
        if self.video_files.len() == 0 {
            self
        } else {
            let next = next_in_cycle(self.current_index, self.video_files.len() as usize);
            KioskView { current_index: next, load_video_index: Some(next), ..self }
        }
    }

    /// The state after stepping to `index`, if the list has such a place.
    pub open spec fn stepped_to(self, index: int) -> KioskView {
        if 0 <= index < self.video_files.len() {
            KioskView {
                current_index: index as usize,
                load_video_index: Some(index as usize),
                current_file_name: self.video_files[index].name,
                ..self
            }
        } else {
            self
        }
    }

    /// The state after the arrow key that leads forward; at the last file it
    /// changes nothing.
    pub open spec fn forward(self) -> KioskView {
        self.stepped_to(self.current_index + 1)
    }

    /// The state after the arrow key that leads back; at the first file it
    /// changes nothing.
    pub open spec fn backward(self) -> KioskView {
        self.stepped_to(self.current_index - 1)
    }

    /// The state after the player was polled: a session that reports an
    /// error or the end of its stream makes the kiosk move on.
    pub open spec fn polled(self, has_error: bool, eos: bool) -> KioskView {
        if has_error || eos {
            self.advanced()
        } else {
            self
        }
    }

    /// The state after `text` was typed while at most `max_length` digits
    /// may be in the buffer: a run of digits is appended while there is room,
    /// anything else is ignored, and the buffer is then cut down to its first
    /// `max_length` digits.
    pub open spec fn typed(self, text: Seq<char>, max_length: nat) -> KioskView {
        let taken = if self.input_buffer.len() < max_length && is_digits(text) {
            self.input_buffer + text
        } else {
            self.input_buffer
        };
        KioskView { input_buffer: cut_input(taken, max_length), ..self }
    }

    /// The state after the enter key: what was typed is entered and the
    /// buffer is emptied.
    pub open spec fn submitted(self) -> KioskView {
        if self.input_buffer.len() == 0 {
            self
        } else {
            KioskView { input_buffer: Seq::empty(), ..self.entered(self.input_buffer) }
        }
    }

    /// The state after the shell was told to load the file at `index`.
    pub open spec fn loading(self, index: int) -> KioskView {
        if 0 <= index < self.video_files.len() {
            KioskView {
                current_index: index as usize,
                current_file_name: self.video_files[index].name,
                ..self
            }
        } else {
            self
        }
    }

    /// The state after loading failed with `message`.
    pub open spec fn load_failed(self, message: Seq<char>) -> KioskView {
        KioskView { current_file_name: "Error: "@ + message, ..self }
    }
}

fn step_in_cycle(current: usize, count: usize) -> (next: usize)
    requires
        count > 0,
    ensures
        next == next_in_cycle(current, count),
        next < count,
{
    let here: usize = current % count;
    proof {
        vstd::arithmetic::div_mod::lemma_add_mod_noop(current as int, 1, count as int);
        vstd::arithmetic::div_mod::lemma_mod_bound(current as int, count as int);
        vstd::arithmetic::div_mod::lemma_mod_bound(current + 1, count as int);
        if count > 1 {
            vstd::arithmetic::div_mod::lemma_small_mod(1, count as nat);
        }
    }
    (here + 1) % count
}

impl Default for Kiosk {
    /// The state before any file was scanned.
    fn default() -> (kiosk: Kiosk)
        ensures
            kiosk@ == KioskView::initial(),
    {
        Kiosk::new()
    }
}

impl Kiosk {
    /// The state before any file was scanned.
    pub fn new() -> (kiosk: Kiosk)
        ensures
            kiosk@ == KioskView::initial(),
    {
        let kiosk = Kiosk {
            video_files: Vec::new(),
            current_index: 0,
            input_buffer: String::new(),
            current_file_name: String::from_str("No file loaded"),
            load_video_index: None,
            videos_played: 0,
            show_no_video_popup: false,
            no_video_hip: String::new(),
            show_splash: true,
            current_splash_index: 0,
        };
        assert(kiosk@.video_files =~= Seq::<FileView>::empty());
        kiosk
    }

    /// The state at startup, with the first scanned file waiting to be
    /// loaded.
    pub fn start(files: Vec<VideoFile>) -> (kiosk: Kiosk)
        ensures
            kiosk@ == KioskView::started(files@.map_values(|file: VideoFile| file@)),
    {
        let mut kiosk = Kiosk::new();
        if files.len() > 0 {
            kiosk.load_video_index = Some(0);
        }
        kiosk.load_video_files(files);
        kiosk
    }

    /// Takes over the scanned files.
    pub fn load_video_files(&mut self, files: Vec<VideoFile>)
        ensures
            final(self)@ == old(self)@.with_files(files@.map_values(|file: VideoFile| file@)),
    {
        if files.len() > 0 {
            self.current_index = 0;
        }
        self.video_files = files;
    }

    /// The place of the file with the given hip number, the last one where
    /// several carry it.
    pub fn find_hip(&self, hip_number: &str) -> (index: Option<usize>)
        ensures
            index is Some <==> hip_index(self@.video_files, hip_number@) is Some,
            index is Some ==> index->Some_0 as int == hip_index(
                self@.video_files,
                hip_number@,
            )->Some_0,
            index is Some ==> index->Some_0 < self@.video_files.len(),
    {
        let ghost files = self@.video_files;
        let mut position: usize = self.video_files.len();
        assert(files.take(position as int) =~= files);
        while position > 0
            invariant
                position <= self.video_files@.len(),
                files == self@.video_files,
                hip_index(files, hip_number@) == hip_index(
                    files.take(position as int),
                    hip_number@,
                ),
            decreases position,
        {
            let ghost part = files.take(position as int);
            assert(part.last() == self.video_files@[position - 1]@);
            assert(part.drop_last() =~= files.take(position - 1));
            if same_text(self.video_files[position - 1].hip_number.as_str(), hip_number) {
                return Some(position - 1);
            }
            position = position - 1;
        }
        None
    }

    /// Enters a hip number. The answer says whether it names a file.
    pub fn validate_and_switch(&mut self, input: &str) -> (switched: bool)
        ensures
            switched == old(self)@.accepts(input@),
            final(self)@ == old(self)@.entered(input@),
    {
        if input.unicode_len() == 3 && all_digits(input) {
            match self.find_hip(input) {
                Some(index) => {
                    self.current_index = index;
                    self.load_video_index = Some(index);
                    if self.videos_played < usize::MAX {
                        self.videos_played = self.videos_played + 1;
                    }
                    true
                },
                None => {
                    self.show_no_video_popup = true;
                    self.no_video_hip = String::from_str(input);
                    false
                },
            }
        } else {
            false
        }
    }

    /// Moves on to the next file, from the last back to the first.
    pub fn next_video(&mut self)
        ensures
            final(self)@ == old(self)@.advanced(),
    {
        let len: usize = self.video_files.len();
        if len > 0 {
            let next: usize = step_in_cycle(self.current_index, len);
            self.current_index = next;
            self.load_video_index = Some(next);
        }
    }

    /// Looks at the splash rule. A splash that is due and not up is raised,
    /// and the next of the `image_count` splash pictures is chosen. The
    /// answer says whether the splash was raised, for the shell to start its
    /// timer.
    pub fn update_splash(&mut self, enabled: bool, interval: &str, image_count: usize) -> (raised:
        bool)
        ensures
            raised == (splash_is_due(enabled, interval@, old(self)@.videos_played as nat)
                && !old(self)@.show_splash),
            final(self)@ == old(self)@.splash_checked(
                splash_is_due(enabled, interval@, old(self)@.videos_played as nat),
                image_count,
            ),
    {
        if should_show_splash(enabled, interval, self.videos_played) && !self.show_splash {
            let count: usize = if image_count > 0 {
                image_count
            } else {
                1
            };
            self.show_splash = true;
            self.current_splash_index = step_in_cycle(self.current_splash_index, count);
            true
        } else {
            false
        }
    }

    /// Lowers the splash screen; the shell calls this when the splash has been
    /// up for its time.
    pub fn splash_timed_out(&mut self)
        ensures
            final(self)@ == old(self)@.splash_timed_out(),
    {
        self.show_splash = false;
    }

    /// Steps forward by one file; at the last file nothing happens.
    pub fn navigate_forward(&mut self)
        ensures
            final(self)@ == old(self)@.forward(),
    {
        let len: usize = self.video_files.len();
        if len > 0 && self.current_index < len - 1 {
            self.current_index = self.current_index + 1;
            self.load_video_index = Some(self.current_index);
            self.current_file_name = self.video_files[self.current_index].name.clone();
        }
    }

    /// Steps back by one file; at the first file nothing happens.
    pub fn navigate_backward(&mut self)
        ensures
            final(self)@ == old(self)@.backward(),
    {
        if self.current_index > 0 && self.current_index - 1 < self.video_files.len() {
            self.current_index = self.current_index - 1;
            self.load_video_index = Some(self.current_index);
            self.current_file_name = self.video_files[self.current_index].name.clone();
        }
    }

    /// Polls the session that plays: an error or the end of the stream makes
    /// the kiosk move on to the next file.
    pub fn update_playback(&mut self, player: &VideoPlayer)
        ensures
            final(self)@ == old(self)@.polled(player@.error is Some, player@.eos),
    {
        if player.get_error().is_some() {
            self.next_video();
        } else if player.is_eos() {
            self.next_video();
        }
    }

    /// Takes typed text into the buffer: digits only, and only while the
    /// buffer holds fewer than `max_length` characters. What the buffer then
    /// holds beyond its first `max_length` digits is dropped.
    pub fn type_text(&mut self, text: &str, max_length: usize)
        ensures
            final(self)@ == old(self)@.typed(text@, max_length as nat),
    {
        if self.input_buffer.as_str().unicode_len() < max_length && all_digits(text) {
            self.input_buffer.append(text);
        }
        let digits: String = keep_digits(self.input_buffer.as_str());
        if digits.as_str().unicode_len() > max_length {
            self.input_buffer = digits.as_str().substring_char(0, max_length).to_owned();
        } else {
            self.input_buffer = digits;
        }
    }

    /// Handles the enter key: enters what was typed, if anything, and empties
    /// the buffer. The answer is absent when nothing was typed, and otherwise
    /// says whether the input named a file.
    pub fn submit(&mut self) -> (switched: Option<bool>)
        ensures
            final(self)@ == old(self)@.submitted(),
            switched is Some <==> old(self)@.input_buffer.len() > 0,
            switched is Some ==> switched->Some_0 == old(self)@.accepts(old(self)@.input_buffer),
    {
        if self.input_buffer.as_str().unicode_len() == 0 {
            None
        } else {
            let input: String = self.input_buffer.clone();
            let switched: bool = self.validate_and_switch(input.as_str());
            self.input_buffer = String::new();
            Some(switched)
        }
    }

    /// Takes the next file to load, if one is waiting.
    pub fn take_load_request(&mut self) -> (index: Option<usize>)
        ensures
            index == old(self)@.load_video_index,
            final(self)@ == (KioskView { load_video_index: None, ..old(self)@ }),
    {
        self.load_video_index.take()
    }

    /// Makes the file at `index` the current one and gives its path, for the
    /// shell to create the session. A place outside the list gives nothing and
    /// changes nothing.
    pub fn load_video(&mut self, index: usize) -> (path: Option<String>)
        ensures
            final(self)@ == old(self)@.loading(index as int),
            path is Some <==> index < old(self)@.video_files.len(),
            path is Some ==> path->Some_0@ == old(self)@.video_files[index as int].path,
    {
        if index < self.video_files.len() {
            self.current_index = index;
            self.current_file_name = self.video_files[index].name.clone();
            Some(self.video_files[index].path.clone())
        } else {
            None
        }
    }

    /// Shows why the file could not be loaded in place of its name.
    pub fn load_failed(&mut self, message: &str)
        ensures
            final(self)@ == old(self)@.load_failed(message@),
    {
        self.current_file_name = String::from_str("Error: ").concat(message);
    }
}

/// The place found for a hip number holds a file with that number, and no
/// later place does.
pub proof fn lemma_hip_index_is_last_match(files: Seq<FileView>, hip_number: Seq<char>)
    ensures
        match hip_index(files, hip_number) {
            Some(index) => {
                &&& 0 <= index < files.len()
                &&& files[index].hip_number == hip_number
                &&& forall|later: int|
                    index < later < files.len() ==> (#[trigger] files[later]).hip_number
                        != hip_number
            },
            None => forall|any: int|
                0 <= any < files.len() ==> (#[trigger] files[any]).hip_number != hip_number,
        },
    decreases files.len(),
{
    if files.len() > 0 && files.last().hip_number != hip_number {
        let shorter = files.drop_last();
        lemma_hip_index_is_last_match(shorter, hip_number);
        match hip_index(files, hip_number) {
            Some(index) => {
                assert(shorter[index] == files[index]);
                assert forall|later: int| index < later < files.len() implies (
                #[trigger] files[later]).hip_number != hip_number by {
                    if later < shorter.len() {
                        assert(shorter[later] == files[later]);
                    }
                }
            },
            None => {
                assert forall|any: int| 0 <= any < files.len() implies (
                #[trigger] files[any]).hip_number != hip_number by {
                    if any < shorter.len() {
                        assert(shorter[any] == files[any]);
                    }
                }
            },
        }
    }
}

/// The splash picture chosen is always one of the pictures at hand, and with
/// one picture or none it is always the first.
pub proof fn lemma_splash_index_stays_in_range(kiosk: KioskView, image_count: usize)
    requires
        !kiosk.show_splash,
    ensures
        kiosk.splash_checked(true, image_count).show_splash,
        image_count > 0 ==> kiosk.splash_checked(true, image_count).current_splash_index
            < image_count,
        image_count <= 1 ==> kiosk.splash_checked(true, image_count).current_splash_index == 0,
        kiosk.splash_checked(false, image_count) == kiosk,
        !kiosk.splash_checked(true, image_count).splash_timed_out().show_splash,
{
    let count: int = if image_count > 0 {
        image_count as int
    } else {
        1
    };
    vstd::arithmetic::div_mod::lemma_mod_bound(kiosk.current_splash_index + 1, count);
}

/// Moving on visits every file in turn: from any place in the list the next
/// place is the one behind it, and behind the last comes the first.
pub proof fn lemma_advancing_cycles(kiosk: KioskView)
    requires
        0 < kiosk.video_files.len() <= usize::MAX,
        kiosk.current_index < kiosk.video_files.len(),
    ensures
        kiosk.advanced().current_index < kiosk.video_files.len(),
        kiosk.current_index + 1 < kiosk.video_files.len() ==> kiosk.advanced().current_index
            == kiosk.current_index + 1,
        kiosk.current_index + 1 == kiosk.video_files.len() ==> kiosk.advanced().current_index == 0,
        kiosk.advanced().load_video_index == Some(kiosk.advanced().current_index),
{
    let count = kiosk.video_files.len() as int;
    let next = kiosk.current_index + 1;
    vstd::arithmetic::div_mod::lemma_mod_bound(next, count);
    if next < count {
        vstd::arithmetic::div_mod::lemma_fundamental_div_mod_converse_mod(next, count, 0, next);
        assert(next % count == next);
    } else {
        vstd::arithmetic::div_mod::lemma_mod_self_0(count);
        assert(next % count == 0);
    }
}

} // verus!
