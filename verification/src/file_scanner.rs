//! Playable files and the hip numbers that name them.
//!
//! A file is playable when it is a regular file, its name ends in one of the
//! known extensions and begins with exactly three digits, its hip number.
//! Listing the directory is left to the caller; what is chosen from the
//! listing, and in which order, is decided here.

use crate::text::{digit, ends_with, has_suffix, is_digit};
use vstd::prelude::*;

verus! {

/// What a playable file is: three texts.
pub struct FileView {
    pub path: Seq<char>,
    pub name: Seq<char>,
    pub hip_number: Seq<char>,
}

/// A playable file found in the video directory.
#[derive(Clone, Debug)]
pub struct VideoFile {
    /// Where the file lives.
    pub path: String,
    /// The file name without its directory.
    pub name: String,
    /// The three digits at the start of the file name.
    pub hip_number: String,
}

impl View for VideoFile {
    type V = FileView;

    open spec fn view(&self) -> FileView {
        FileView { path: self.path@, name: self.name@, hip_number: self.hip_number@ }
    }
}

/// What a directory entry is.
pub struct EntryView {
    pub path: Seq<char>,
    pub name: Seq<char>,
    pub is_file: bool,
}

/// One entry of a directory listing.
#[derive(Clone, Debug)]
pub struct DirEntry {
    /// The entry's full path.
    pub path: String,
    /// The entry's name without its directory.
    pub name: String,
    /// Whether the entry is a regular file.
    pub is_file: bool,
}

impl View for DirEntry {
    type V = EntryView;

    open spec fn view(&self) -> EntryView {
        EntryView { path: self.path@, name: self.name@, is_file: self.is_file }
    }
}

/// What listing the video directory gave.
#[derive(Debug)]
pub enum DirListing {
    /// The directory does not exist.
    Missing,
    /// The directory could not be read.
    Unreadable { detail: String },
    /// The entries of the directory, in the order in which they were listed.
    Entries(Vec<DirEntry>),
}

/// Whether a file name carries one of the extensions that can be shown.
pub open spec fn has_playable_extension(name: Seq<char>) -> bool {
    has_suffix(name, ".png"@) || has_suffix(name, ".jpg"@) || has_suffix(name, ".jpeg"@)
        || has_suffix(name, ".mp4"@)
}

/// Whether a file name has the extension `extension`: it ends in a dot and
/// the extension, and something stands before that dot.
pub open spec fn has_extension(name: Seq<char>, extension: Seq<char>) -> bool {
    name.len() > extension.len() + 1 && has_suffix(name, seq!['.'] + extension)
}

/// Whether an entry of the splash directory is a picture that can be shown.
pub open spec fn is_splash_image(entry: EntryView) -> bool {
    entry.is_file && (has_extension(entry.name, "png"@) || has_extension(entry.name, "jpg"@)
        || has_extension(entry.name, "jpeg"@) || has_extension(entry.name, "bmp"@))
}

/// The paths of the splash pictures among the entries, in the order of the
/// listing.
pub open spec fn splash_paths(entries: Seq<EntryView>) -> Seq<Seq<char>>
    decreases entries.len(),
{
    if entries.len() == 0 {
        Seq::empty()
    } else {
        let before = splash_paths(entries.drop_last());
        if is_splash_image(entries.last()) {
            before.push(entries.last().path)
        } else {
            before
        }
    }
}

/// Whether a name begins with exactly three digits: three digits, and no
/// fourth behind them.
pub open spec fn has_hip_number(name: Seq<char>) -> bool {
    &&& name.len() >= 3
    &&& is_digit(name[0])
    &&& is_digit(name[1])
    &&& is_digit(name[2])
    &&& (name.len() == 3 || !is_digit(name[3]))
}

/// The number a hip number stands for.
pub open spec fn hip_value(hip_number: Seq<char>) -> int {
    if hip_number.len() == 3 {
        (hip_number[0] as int - 0x30) * 100 + (hip_number[1] as int - 0x30) * 10 + (
        hip_number[2] as int - 0x30)
    } else {
        0
    }
}

/// Whether an entry of the listing is a playable file.
pub open spec fn is_playable(entry: EntryView) -> bool {
    entry.is_file && has_playable_extension(entry.name) && has_hip_number(entry.name)
}

/// The playable file an entry stands for.
pub open spec fn file_of(entry: EntryView) -> FileView {
    FileView { path: entry.path, name: entry.name, hip_number: entry.name.subrange(0, 3) }
}

/// Where a file with hip value `value` goes into a list ordered by hip value:
/// behind the last file whose value is not greater.
pub open spec fn insert_position(sorted: Seq<FileView>, value: int) -> int
    decreases sorted.len(),
{
    if sorted.len() == 0 {
        0
    } else if hip_value(sorted.last().hip_number) <= value {
        sorted.len() as int
    } else {
        insert_position(sorted.drop_last(), value)
    }
}

/// The playable files of a listing, ordered by hip number; files with the
/// same hip number stay in the order in which they were listed.
pub open spec fn selected(entries: Seq<EntryView>) -> Seq<FileView>
    decreases entries.len(),
{
    if entries.len() == 0 {
        Seq::empty()
    } else {
        let before = selected(entries.drop_last());
        if is_playable(entries.last()) {
            let file = file_of(entries.last());
            before.insert(insert_position(before, hip_value(file.hip_number)), file)
        } else {
            before
        }
    }
}

/// The files the playable entries stand for, in the order of the listing.
pub open spec fn playable_files(entries: Seq<EntryView>) -> Seq<FileView>
    decreases entries.len(),
{
    if entries.len() == 0 {
        Seq::empty()
    } else {
        let before = playable_files(entries.drop_last());
        if is_playable(entries.last()) {
            before.push(file_of(entries.last()))
        } else {
            before
        }
    }
}

/// The files that carry the hip value `value`, in the order in which they
/// stand in `files`.
pub open spec fn with_hip_value(files: Seq<FileView>, value: int) -> Seq<FileView>
    decreases files.len(),
{
    if files.len() == 0 {
        Seq::empty()
    } else {
        let before = with_hip_value(files.drop_last(), value);
        if hip_value(files.last().hip_number) == value {
            before.push(files.last())
        } else {
            before
        }
    }
}

/// The views of a list of files.
pub open spec fn file_views(files: Seq<VideoFile>) -> Seq<FileView> {
    files.map_values(|file: VideoFile| file@)
}

/// The views of a list of entries.
pub open spec fn entry_views(entries: Seq<DirEntry>) -> Seq<EntryView> {
    entries.map_values(|entry: DirEntry| entry@)
}

/// Whether a list of files is ordered by hip number.
pub open spec fn is_ordered(files: Seq<FileView>) -> bool {
    forall|i: int, j: int|
        0 <= i < j < files.len() ==> hip_value(#[trigger] files[i].hip_number) <= hip_value(
            #[trigger] files[j].hip_number,
        )
}

fn with_extension(name: &str, extension: &str) -> (found: bool)
    ensures
        found == has_extension(name@, extension@),
{
    let name_len: usize = name.unicode_len();
    let extension_len: usize = extension.unicode_len();
    if name_len <= extension_len || name_len - extension_len < 2 {
        return false;
    }
    let dot: usize = name_len - extension_len - 1;
    let ghost suffix = seq!['.'] + extension@;
    let ghost tail = name@.subrange(dot as int, name_len as int);
    if name.get_char(dot) != '.' {
        assert(tail[0] != suffix[0]);
        return false;
    }
    let mut index: usize = 0;
    while index < extension_len
        invariant
            index <= extension_len,
            dot + 1 + extension_len == name_len,
            name_len == name@.len(),
            extension_len == extension@.len(),
            forall|k: int| 0 <= k < index ==> name@[dot + 1 + k] == extension@[k],
        decreases extension_len - index,
    {
        if name.get_char(dot + 1 + index) != extension.get_char(index) {
            assert(name@.subrange(dot as int, name_len as int)[index + 1] != (seq!['.']
                + extension@)[index + 1]);
            return false;
        }
        index = index + 1;
    }
    assert(tail =~= suffix);
    true
}

/// Chooses the pictures among the entries of the splash directory: regular
/// files with the extension `png`, `jpg`, `jpeg` or `bmp`. The answer holds
/// their paths in the order of the listing.
pub fn select_splash_images(entries: &Vec<DirEntry>) -> (paths: Vec<String>)
    ensures
        paths@.map_values(|path: String| path@) == splash_paths(entry_views(entries@)),
{
    let mut paths: Vec<String> = Vec::new();
    let mut index: usize = 0;
    assert(entry_views(entries@).take(0) =~= Seq::<EntryView>::empty());
    assert(paths@.map_values(|path: String| path@) =~= Seq::<Seq<char>>::empty());
    while index < entries.len()
        invariant
            index <= entries@.len(),
            paths@.map_values(|path: String| path@) == splash_paths(
                entry_views(entries@).take(index as int),
            ),
        decreases entries@.len() - index,
    {
        let entry = &entries[index];
        let ghost upto = entry_views(entries@).take(index + 1);
        assert(upto.drop_last() =~= entry_views(entries@).take(index as int));
        assert(upto.last() == entry@);
        let name = entry.name.as_str();
        if entry.is_file && (with_extension(name, "png") || with_extension(name, "jpg")
            || with_extension(name, "jpeg") || with_extension(name, "bmp")) {
            let ghost before = paths@.map_values(|path: String| path@);
            let path = entry.path.clone();
            paths.push(path);
            assert(paths@.map_values(|path: String| path@) =~= before.push(entry@.path));
        }
        index = index + 1;
    }
    assert(entry_views(entries@).take(index as int) =~= entry_views(entries@));
    paths
}

/// Whether a file name carries one of the extensions that can be shown:
/// `.png`, `.jpg`, `.jpeg` or `.mp4`, in lower case.
pub fn is_playable_name(name: &str) -> (playable: bool)
    ensures
        playable == has_playable_extension(name@),
{
    ends_with(name, ".png") || ends_with(name, ".jpg") || ends_with(name, ".jpeg") || ends_with(
        name,
        ".mp4",
    )
}

/// The hip number of a file name: its first three characters, if they are
/// digits and no fourth digit follows.
pub fn hip_number_of(name: &str) -> (hip_number: Option<String>)
    ensures
        hip_number is Some <==> has_hip_number(name@),
        hip_number is Some ==> hip_number->Some_0@ == name@.subrange(0, 3),
{
    let len: usize = name.unicode_len();
    if len < 3 {
        return None;
    }
    if !digit(name.get_char(0)) || !digit(name.get_char(1)) || !digit(name.get_char(2)) {
        return None;
    }
    if len > 3 && digit(name.get_char(3)) {
        return None;
    }
    Some(name.substring_char(0, 3).to_owned())
}

fn value_of(hip_number: &str) -> (value: u16)
    requires
        hip_number@.len() == 3,
        is_digit(hip_number@[0]),
        is_digit(hip_number@[1]),
        is_digit(hip_number@[2]),
    ensures
        value == hip_value(hip_number@),
        value <= 999,
{
    let hundreds: u32 = hip_number.get_char(0) as u32 - 0x30;
    let tens: u32 = hip_number.get_char(1) as u32 - 0x30;
    let ones: u32 = hip_number.get_char(2) as u32 - 0x30;
    (hundreds * 100 + tens * 10 + ones) as u16
}

/// Chooses the playable files from the listing of the video directory and
/// orders them by hip number. A directory that is missing or cannot be read
/// gives the reason as text.
pub fn scan_video_files(video_dir: &str, listing: DirListing) -> (result: Result<
    Vec<VideoFile>,
    String,
>)
    ensures
        match listing {
            DirListing::Missing => result is Err && result->Err_0@
                == "Video directory does not exist: "@ + video_dir@,
            DirListing::Unreadable { detail } => result is Err && result->Err_0@ == detail@,
            DirListing::Entries(entries) => result is Ok && file_views(result->Ok_0@) == selected(
                entry_views(entries@),
            ),
        },
{
    match listing {
        DirListing::Missing => Err(
            String::from_str("Video directory does not exist: ").concat(video_dir),
        ),
        DirListing::Unreadable { detail } => Err(detail),
        DirListing::Entries(entries) => {
            let mut files: Vec<VideoFile> = Vec::new();
            let mut values: Vec<u16> = Vec::new();
            let mut index: usize = 0;
            assert(entry_views(entries@).take(0) =~= Seq::<EntryView>::empty());
            assert(file_views(files@) =~= Seq::<FileView>::empty());
            while index < entries.len()
                invariant
                    index <= entries@.len(),
                    values@.len() == files@.len(),
                    forall|k: int|
                        0 <= k < files@.len() ==> values@[k] == hip_value(
                            #[trigger] files@[k].hip_number@,
                        ),
                    file_views(files@) == selected(entry_views(entries@).take(index as int)),
                decreases entries@.len() - index,
            {
                let entry = &entries[index];
                let ghost before = entry_views(entries@).take(index as int);
                let ghost upto = entry_views(entries@).take(index + 1);
                assert(upto.drop_last() =~= before);
                assert(upto.last() == entry@);
                if entry.is_file && is_playable_name(entry.name.as_str()) {
                    match hip_number_of(entry.name.as_str()) {
                        Some(hip_number) => {
                            let value: u16 = value_of(hip_number.as_str());
                            let mut position: usize = values.len();
                            assert(file_views(files@).take(position as int) =~= file_views(
                                files@,
                            ));
                            while position > 0 && values[position - 1] > value
                                invariant
                                    position <= values@.len(),
                                    values@.len() == files@.len(),
                                    forall|k: int|
                                        0 <= k < files@.len() ==> values@[k] == hip_value(
                                            #[trigger] files@[k].hip_number@,
                                        ),
                                    insert_position(file_views(files@), value as int)
                                        == insert_position(
                                        file_views(files@).take(position as int),
                                        value as int,
                                    ),
                                decreases position,
                            {
                                proof {
                                    let part = file_views(files@).take(position as int);
                                    assert(part.last() == files@[position - 1]@);
                                    assert(part.drop_last() =~= file_views(files@).take(
                                        position - 1,
                                    ));
                                }
                                position = position - 1;
                            }
                            proof {
                                let part = file_views(files@).take(position as int);
                                if position > 0 {
                                    assert(part.last() == files@[position - 1]@);
                                }
                            }
                            let file = VideoFile {
                                path: entry.path.clone(),
                                name: entry.name.clone(),
                                hip_number,
                            };
                            assert(file@ == file_of(entry@));
                            let ghost old_files = files@;
                            files.insert(position, file);
                            values.insert(position, value);
                            assert(file_views(files@) =~= file_views(old_files).insert(
                                position as int,
                                file@,
                            ));
                        },
                        None => {},
                    }
                }
                index = index + 1;
            }
            assert(entry_views(entries@).take(index as int) =~= entry_views(entries@));
            Ok(files)
        },
    }
}

proof fn lemma_insert_position_splits(sorted: Seq<FileView>, value: int)
    ensures
        0 <= insert_position(sorted, value) <= sorted.len(),
        forall|k: int|
            insert_position(sorted, value) <= k < sorted.len() ==> hip_value(
                #[trigger] sorted[k].hip_number,
            ) > value,
        insert_position(sorted, value) > 0 ==> hip_value(
            sorted[insert_position(sorted, value) - 1].hip_number,
        ) <= value,
    decreases sorted.len(),
{
    if sorted.len() > 0 && hip_value(sorted.last().hip_number) > value {
        let shorter = sorted.drop_last();
        lemma_insert_position_splits(shorter, value);
        assert forall|k: int| insert_position(sorted, value) <= k < sorted.len() implies hip_value(
            #[trigger] sorted[k].hip_number,
        ) > value by {
            if k < shorter.len() {
                assert(shorter[k] == sorted[k]);
            }
        }
        if insert_position(sorted, value) > 0 {
            assert(shorter[insert_position(sorted, value) - 1] == sorted[insert_position(
                sorted,
                value,
            ) - 1]);
        }
    }
}

/// The chosen files are ordered by hip number.
pub proof fn lemma_selected_is_ordered(entries: Seq<EntryView>)
    ensures
        is_ordered(selected(entries)),
    decreases entries.len(),
{
    if entries.len() > 0 {
        let before = selected(entries.drop_last());
        lemma_selected_is_ordered(entries.drop_last());
        if is_playable(entries.last()) {
            let file = file_of(entries.last());
            let value = hip_value(file.hip_number);
            let position = insert_position(before, value);
            lemma_insert_position_splits(before, value);
            let after = before.insert(position, file);
            assert forall|i: int, j: int| 0 <= i < j < after.len() implies hip_value(
                #[trigger] after[i].hip_number,
            ) <= hip_value(#[trigger] after[j].hip_number) by {
                if i < position && j > position {
                    assert(after[i] == before[i]);
                    assert(after[j] == before[j - 1]);
                    assert(hip_value(before[position - 1].hip_number) <= value);
                    if i < position - 1 {
                        assert(hip_value(before[i].hip_number) <= hip_value(
                            before[position - 1].hip_number,
                        ));
                    }
                } else if i == position {
                    assert(after[j] == before[j - 1]);
                } else if j == position {
                    assert(after[i] == before[i]);
                    if i < position - 1 {
                        assert(hip_value(before[i].hip_number) <= hip_value(
                            before[position - 1].hip_number,
                        ));
                    }
                } else if j < position {
                    assert(after[i] == before[i]);
                    assert(after[j] == before[j]);
                } else {
                    assert(after[i] == before[i - 1]);
                    assert(after[j] == before[j - 1]);
                }
            }
        }
    }
}

proof fn lemma_with_hip_value_joins(left: Seq<FileView>, right: Seq<FileView>, value: int)
    ensures
        with_hip_value(left + right, value) == with_hip_value(left, value) + with_hip_value(
            right,
            value,
        ),
    decreases right.len(),
{
    if right.len() == 0 {
        assert(left + right =~= left);
        assert(with_hip_value(left, value) + with_hip_value(right, value) =~= with_hip_value(
            left,
            value,
        ));
    } else {
        let shorter = right.drop_last();
        lemma_with_hip_value_joins(left, shorter, value);
        assert((left + right).drop_last() =~= left + shorter);
        assert((left + right).last() == right.last());
        if hip_value(right.last().hip_number) == value {
            assert((with_hip_value(left, value) + with_hip_value(shorter, value)).push(
                right.last(),
            ) =~= with_hip_value(left, value) + with_hip_value(shorter, value).push(right.last()));
        }
    }
}

proof fn lemma_with_hip_value_finds_none(files: Seq<FileView>, value: int)
    requires
        forall|k: int| 0 <= k < files.len() ==> hip_value(#[trigger] files[k].hip_number) != value,
    ensures
        with_hip_value(files, value) == Seq::<FileView>::empty(),
    decreases files.len(),
{
    if files.len() > 0 {
        let shorter = files.drop_last();
        assert forall|k: int| 0 <= k < shorter.len() implies hip_value(
            #[trigger] shorter[k].hip_number,
        ) != value by {
            assert(shorter[k] == files[k]);
        }
        lemma_with_hip_value_finds_none(shorter, value);
        assert(files.last() == files[files.len() - 1]);
    }
}

/// Choosing loses and invents nothing: the chosen files are the files of the
/// playable entries, each as often as it was listed.
pub proof fn lemma_selected_rearranges_the_playable(entries: Seq<EntryView>)
    ensures
        selected(entries).to_multiset() == playable_files(entries).to_multiset(),
        selected(entries).len() == playable_files(entries).len(),
    decreases entries.len(),
{
    broadcast use vstd::seq_lib::to_multiset_build, vstd::seq_lib::to_multiset_insert;

    if entries.len() > 0 {
        let before = selected(entries.drop_last());
        lemma_selected_rearranges_the_playable(entries.drop_last());
        if is_playable(entries.last()) {
            let file = file_of(entries.last());
            lemma_insert_position_splits(before, hip_value(file.hip_number));
        }
    }
}

/// Files with the same hip number keep the order of the listing. Together
/// with the order by hip number this fixes the place of every chosen file.
pub proof fn lemma_selected_keeps_listing_order(entries: Seq<EntryView>, value: int)
    ensures
        with_hip_value(selected(entries), value) == with_hip_value(playable_files(entries), value),
    decreases entries.len(),
{
    if entries.len() > 0 {
        let rest = entries.drop_last();
        let before = selected(rest);
        lemma_selected_keeps_listing_order(rest, value);
        if is_playable(entries.last()) {
            let file = file_of(entries.last());
            let own = hip_value(file.hip_number);
            let position = insert_position(before, own);
            lemma_insert_position_splits(before, own);
            let head = before.subrange(0, position);
            let tail = before.subrange(position, before.len() as int);
            assert(before =~= head + tail);
            assert(before.insert(position, file) =~= head.push(file) + tail);
            lemma_with_hip_value_joins(head, tail, value);
            lemma_with_hip_value_joins(head.push(file), tail, value);
            assert(head.push(file).drop_last() =~= head);
            assert(head.push(file).last() == file);
            let listed = playable_files(rest);
            assert(listed.push(file).drop_last() =~= listed);
            assert(listed.push(file).last() == file);
            if own == value {
                assert forall|k: int| 0 <= k < tail.len() implies hip_value(
                    #[trigger] tail[k].hip_number,
                ) != value by {
                    assert(tail[k] == before[position + k]);
                }
                lemma_with_hip_value_finds_none(tail, value);
                assert(with_hip_value(head, value) + Seq::<FileView>::empty() =~= with_hip_value(
                    head,
                    value,
                ));
                assert(with_hip_value(head, value).push(file) + Seq::<FileView>::empty()
                    =~= with_hip_value(head, value).push(file));
            }
        }
    }
}

} // verus!
