//! Playlists: which parts of which clips are played in what order.
use vstd::prelude::*;
use vstd::string::*;

use crate::text::texts;

pub mod laws;

verus! {

/// Frequency of the clock in which times are counted.
pub const PTS_CLOCK_HZ: u32 = 45_000;

/// A playlist.
#[derive(Debug, Clone)]
pub struct Playlist {
    /// Playlist number, from the name of the file.
    pub number: u32,
    /// Play items in order.
    pub play_items: Vec<PlayItem>,
    /// Marks in order.
    pub marks: Vec<Mark>,
}

/// A part of a clip.
#[derive(Debug, Clone)]
pub struct PlayItem {
    /// Clip identifier.
    pub clip_id: String,
    /// Time at which playback enters the clip.
    pub in_time: u32,
    /// Time at which playback leaves the clip.
    pub out_time: u32,
    /// How the item joins the one before it; 5 and above is seamless.
    pub connection_condition: u8,
    /// Clips of further angles.
    pub angle_clip_ids: Vec<String>,
    /// Streams that can be chosen.
    pub streams: StnTable,
}

/// A mark in a playlist.
#[derive(Debug, Clone, Copy, PartialEq, Eq, Structural)]
pub struct Mark {
    /// Type; 1 is a chapter.
    pub mark_type: u8,
    /// Index of the play item.
    pub play_item: u16,
    /// Time in the clip.
    pub timestamp: u32,
}

/// Streams of a play item.
#[derive(Debug, Clone)]
pub struct StnTable {
    /// Video streams.
    pub video: Vec<VideoStream>,
    /// Audio streams.
    pub audio: Vec<AudioStream>,
    /// Subtitle streams.
    pub subtitles: Vec<SubtitleStream>,
}

/// A video stream.
#[derive(Debug, Clone)]
pub struct VideoStream {
    /// Name of the codec.
    pub codec: String,
    /// Name of the resolution.
    pub resolution: String,
    /// Frames per second.
    pub frame_rate: String,
}

/// An audio stream.
#[derive(Debug, Clone)]
pub struct AudioStream {
    /// Name of the codec.
    pub codec: String,
    /// Name of the channel layout.
    pub channels: String,
    /// Language code.
    pub language: String,
}

/// A subtitle stream.
#[derive(Debug, Clone)]
pub struct SubtitleStream {
    /// Coding type; 0x92 is text.
    pub coding_type: u8,
    /// Language code.
    pub language: String,
}

/// Contents of a [`VideoStream`]: codec, resolution and frame rate.
pub type VideoModel = (Seq<char>, Seq<char>, Seq<char>);

/// Contents of an [`AudioStream`]: codec, channels and language.
pub type AudioModel = (Seq<char>, Seq<char>, Seq<char>);

/// Contents of a [`SubtitleStream`]: coding type and language.
pub type SubtitleModel = (u8, Seq<char>);

/// Contents of an [`StnTable`].
#[verifier::ext_equal]
pub struct StnModel {
    /// Video streams.
    pub video: Seq<VideoModel>,
    /// Audio streams.
    pub audio: Seq<AudioModel>,
    /// Subtitle streams.
    pub subtitles: Seq<SubtitleModel>,
}

/// Contents of a [`PlayItem`].
#[verifier::ext_equal]
pub struct ItemModel {
    /// Clip identifier.
    pub clip_id: Seq<char>,
    /// Time at which playback enters the clip.
    pub in_time: u32,
    /// Time at which playback leaves the clip.
    pub out_time: u32,
    /// How the item joins the one before it.
    pub connection_condition: u8,
    /// Clips of further angles.
    pub angle_clip_ids: Seq<Seq<char>>,
    /// Streams that can be chosen.
    pub streams: StnModel,
}

/// Contents of a [`Playlist`].
#[verifier::ext_equal]
pub struct PlaylistModel {
    /// Playlist number.
    pub number: u32,
    /// Play items in order.
    pub items: Seq<ItemModel>,
    /// Marks in order.
    pub marks: Seq<Mark>,
}

impl View for VideoStream {
    type V = VideoModel;

    open spec fn view(&self) -> VideoModel {
        (self.codec@, self.resolution@, self.frame_rate@)
    }
}

impl View for AudioStream {
    type V = AudioModel;

    open spec fn view(&self) -> AudioModel {
        (self.codec@, self.channels@, self.language@)
    }
}

impl View for SubtitleStream {
    type V = SubtitleModel;

    open spec fn view(&self) -> SubtitleModel {
        (self.coding_type, self.language@)
    }
}

impl View for StnTable {
    type V = StnModel;

    open spec fn view(&self) -> StnModel {
        StnModel {
            video: self.video@.map_values(|v: VideoStream| v@),
            audio: self.audio@.map_values(|a: AudioStream| a@),
            subtitles: self.subtitles@.map_values(|s: SubtitleStream| s@),
        }
    }
}

impl View for PlayItem {
    type V = ItemModel;

    open spec fn view(&self) -> ItemModel {
        ItemModel {
            clip_id: self.clip_id@,
            in_time: self.in_time,
            out_time: self.out_time,
            connection_condition: self.connection_condition,
            angle_clip_ids: texts(self.angle_clip_ids@),
            streams: self.streams@,
        }
    }
}

/// Contents of play items.
pub open spec fn items_of(list: Seq<PlayItem>) -> Seq<ItemModel> {
    list.map_values(|i: PlayItem| i@)
}

impl View for Playlist {
    type V = PlaylistModel;

    open spec fn view(&self) -> PlaylistModel {
        PlaylistModel {
            number: self.number,
            items: items_of(self.play_items@),
            marks: self.marks@,
        }
    }
}

/// Contents of playlists.
pub open spec fn playlists_of(list: Seq<Playlist>) -> Seq<PlaylistModel> {
    list.map_values(|p: Playlist| p@)
}

/// Copies strings.
pub fn copy_strings(list: &[String]) -> (copy: Vec<String>)
    ensures
        texts(copy@) == texts(list@),
{
    let mut copy: Vec<String> = Vec::new();
    let mut i: usize = 0;
    while i < list.len()
        invariant
            i <= list.len(),
            copy@.len() == i,
            forall|j: int| 0 <= j < i ==> (#[trigger] copy@[j])@ == list@[j]@,
        decreases list.len() - i,
    {
        copy.push(list[i].clone());
        i = i + 1;
    }
    assert(texts(copy@) =~= texts(list@));
    copy
}

impl StnTable {
    /// Copies the table.
    pub fn copy(&self) -> (same: StnTable)
        ensures
            same@ == self@,
    {
        let mut video: Vec<VideoStream> = Vec::new();
        let mut i: usize = 0;
        while i < self.video.len()
            invariant
                i <= self.video.len(),
                video@.len() == i,
                forall|j: int| 0 <= j < i ==> (#[trigger] video@[j])@ == self.video@[j]@,
            decreases self.video.len() - i,
        {
            let v: &VideoStream = &self.video[i];
            video.push(
                VideoStream {
                    codec: v.codec.clone(),
                    resolution: v.resolution.clone(),
                    frame_rate: v.frame_rate.clone(),
                },
            );
            i = i + 1;
        }
        let mut audio: Vec<AudioStream> = Vec::new();
        let mut k: usize = 0;
        while k < self.audio.len()
            invariant
                k <= self.audio.len(),
                audio@.len() == k,
                forall|j: int| 0 <= j < k ==> (#[trigger] audio@[j])@ == self.audio@[j]@,
            decreases self.audio.len() - k,
        {
            let a: &AudioStream = &self.audio[k];
            audio.push(
                AudioStream {
                    codec: a.codec.clone(),
                    channels: a.channels.clone(),
                    language: a.language.clone(),
                },
            );
            k = k + 1;
        }
        let mut subtitles: Vec<SubtitleStream> = Vec::new();
        let mut n: usize = 0;
        while n < self.subtitles.len()
            invariant
                n <= self.subtitles.len(),
                subtitles@.len() == n,
                forall|j: int| 0 <= j < n ==> (#[trigger] subtitles@[j])@ == self.subtitles@[j]@,
            decreases self.subtitles.len() - n,
        {
            let s: &SubtitleStream = &self.subtitles[n];
            subtitles.push(
                SubtitleStream { coding_type: s.coding_type, language: s.language.clone() },
            );
            n = n + 1;
        }
        let same: StnTable = StnTable { video, audio, subtitles };
        proof {
            assert(same@.video =~= self@.video);
            assert(same@.audio =~= self@.audio);
            assert(same@.subtitles =~= self@.subtitles);
        }
        same
    }
}

impl PlayItem {
    /// Copies the item.
    pub fn copy(&self) -> (same: PlayItem)
        ensures
            same@ == self@,
    {
        PlayItem {
            clip_id: self.clip_id.clone(),
            in_time: self.in_time,
            out_time: self.out_time,
            connection_condition: self.connection_condition,
            angle_clip_ids: copy_strings(&self.angle_clip_ids),
            streams: self.streams.copy(),
        }
    }
}

impl Playlist {
    /// Copies the playlist.
    pub fn copy(&self) -> (same: Playlist)
        ensures
            same@ == self@,
    {
        let mut play_items: Vec<PlayItem> = Vec::new();
        let mut i: usize = 0;
        while i < self.play_items.len()
            invariant
                i <= self.play_items.len(),
                play_items@.len() == i,
                forall|j: int| 0 <= j < i ==> (#[trigger] play_items@[j])@ == self.play_items@[j]@,
            decreases self.play_items.len() - i,
        {
            play_items.push(self.play_items[i].copy());
            i = i + 1;
        }
        proof {
            assert(items_of(play_items@) =~= items_of(self.play_items@));
        }
        Playlist {
            number: self.number,
            play_items,
            marks: vstd::slice::slice_to_vec(self.marks.as_slice()),
        }
    }
}

} // verus!
