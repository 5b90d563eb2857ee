//! What the contents of playlists are.
use vstd::prelude::*;

use super::{
    items_of, playlists_of, AudioStream, PlayItem, Playlist, StnTable, SubtitleStream, VideoStream,
};

verus! {

/// What a playlist holds is what its contents say, item by item.
pub proof fn law_playlist_contents(p: Playlist, i: int)
    ensures
        p@.number == p.number,
        p@.items.len() == p.play_items@.len(),
        0 <= i < p.play_items@.len() ==> p@.items[i] == p.play_items@[i]@,
        p@.marks == p.marks@,
{
}

/// What a play item holds is what its contents say.
pub proof fn law_item_contents(item: PlayItem, i: int)
    ensures
        item@.clip_id == item.clip_id@,
        item@.in_time == item.in_time,
        item@.out_time == item.out_time,
        item@.connection_condition == item.connection_condition,
        item@.angle_clip_ids.len() == item.angle_clip_ids@.len(),
        0 <= i < item.angle_clip_ids@.len() ==> item@.angle_clip_ids[i]
            == item.angle_clip_ids@[i]@,
        item@.streams == item.streams@,
{
}

/// What streams hold is what their contents say.
pub proof fn law_stream_contents(
    table: StnTable,
    v: VideoStream,
    a: AudioStream,
    s: SubtitleStream,
    i: int,
)
    ensures
        table@.video.len() == table.video@.len(),
        0 <= i < table.video@.len() ==> table@.video[i] == table.video@[i]@,
        table@.audio.len() == table.audio@.len(),
        0 <= i < table.audio@.len() ==> table@.audio[i] == table.audio@[i]@,
        table@.subtitles.len() == table.subtitles@.len(),
        0 <= i < table.subtitles@.len() ==> table@.subtitles[i] == table.subtitles@[i]@,
        v@ == (v.codec@, v.resolution@, v.frame_rate@),
        a@ == (a.codec@, a.channels@, a.language@),
        s@ == (s.coding_type, s.language@),
{
}

/// Lists of playlists and of play items have the contents of each in order.
pub proof fn law_list_contents(list: Seq<Playlist>, items: Seq<PlayItem>, i: int)
    ensures
        playlists_of(list).len() == list.len(),
        0 <= i < list.len() ==> playlists_of(list)[i] == list[i]@,
        items_of(items).len() == items.len(),
        0 <= i < items.len() ==> items_of(items)[i] == items[i]@,
{
}

} // verus!
