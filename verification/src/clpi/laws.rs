//! What lies where in a clip information file.
use vstd::prelude::*;
use vstd::string::*;

use super::{
    attrs_at, attrs_layout, clip_models, file_clip, file_streams, header_layout, magic, parses_to,
    program_layout, program_parser, programs_layout, stream_layout, stream_parser, AttrsModel,
    ClipInfo, ClipStream, ClipStreamModel, ClpiError, StreamAttrs,
};
use crate::cursor::laws::{extent, law_items_follow, law_items_read, lemma_fields};
use crate::cursor::{eof_text, fields, items, CursorError};
use crate::lossy::laws::law_ascii_text;
use crate::lossy::text_of;
use crate::seqs::concat;
use crate::text::bytes_text;

verus! {

/// The number of attribute bytes behind a coding type: a byte of format and
/// rate for video and audio, a character code for text, and three bytes of
/// language for all but video.
pub open spec fn attribute_bytes(t: u8) -> int {
    if t == 0x01 || t == 0x02 || t == 0x1B || t == 0x24 || t == 0xEA {
        1
    } else if t == 0x90 || t == 0x91 {
        3
    } else if t == 0x92 || t == 0x03 || t == 0x04 || t == 0x80 || t == 0x81 || t == 0x82 || t
        == 0x83 || t == 0x84 || t == 0x85 || t == 0x86 || t == 0xA1 || t == 0xA2 {
        4
    } else {
        0
    }
}

proof fn lemma_attribute_bytes(t: u8)
    ensures
        extent(attrs_layout(t), 0, attrs_layout(t).len() as int) == attribute_bytes(t),
{
    reveal_with_fuel(extent, 3);
}

/// Where a stream can be read, and where it ends: it has a head of four bytes,
/// its attributes, and whatever else the length in its third byte covers,
/// which counts from its fourth byte.
pub proof fn law_streams_lie(d: Seq<u8>, p: int)
    requires
        0 <= p <= d.len(),
    ensures
        stream_parser(d)(p) is Ok <==> {
            &&& p + 4 <= d.len()
            &&& p + 4 + attribute_bytes(d[p + 3]) <= d.len()
            &&& p + 3 + d[p + 2] <= d.len()
        },
        stream_parser(d)(p) matches Ok((stream, end)) ==> {
            &&& stream.pid == 256 * d[p] + d[p + 1]
            &&& stream.coding_type == d[p + 3]
            &&& stream.attrs == attrs_at(d, p + 4, d[p + 3])
            &&& d[p + 2] > 1 + attribute_bytes(d[p + 3]) ==> end == p + 3 + d[p + 2]
            &&& d[p + 2] <= 1 + attribute_bytes(d[p + 3]) ==> end == p + 4 + attribute_bytes(
                d[p + 3],
            )
        },
{
    assert(extent(stream_layout(), 0, stream_layout().len() as int) == 4) by {
        reveal_with_fuel(extent, 4);
    }
    lemma_fields(d.len(), p, stream_layout(), 4);
    if let Ok(start) = fields(d.len(), p, stream_layout(), 0) {
        lemma_attribute_bytes(d[p + 3]);
        lemma_fields(d.len(), start, attrs_layout(d[p + 3]), attribute_bytes(d[p + 3]));
        if let Ok(q) = fields(d.len(), start, attrs_layout(d[p + 3]), 0) {
            let rest = d[p + 2] - (q - (p + 3));
            let left: Seq<usize> = seq![rest as usize];
            assert(extent(left, 0, left.len() as int) == rest as usize) by {
                reveal_with_fuel(extent, 2);
            }
            lemma_fields(d.len(), q, left, (rest as usize) as int);
        }
    }
}

/// The attributes of a stream, by the number of its coding type. Each of the
/// eleven audio types has a format in the high half of the first byte, a rate
/// in the low half, and a language in the next three bytes; the video types
/// have format and rate alone.
pub proof fn law_attributes_by_number(d: Seq<u8>, p: int, t: u8)
    ensures
        t == 0x01 || t == 0x02 || t == 0x1B || t == 0x24 || t == 0xEA ==> attrs_at(d, p, t) == (
        AttrsModel::Video { video_format: d[p] / 16, frame_rate: d[p] % 16 }),
        t == 0x03 || t == 0x04 || t == 0x80 || t == 0x81 || t == 0x82 || t == 0x83 || t == 0x84 || t
            == 0x85 || t == 0x86 || t == 0xA1 || t == 0xA2 ==> attrs_at(d, p, t) == (
        AttrsModel::Audio {
            audio_format: d[p] / 16,
            sample_rate: d[p] % 16,
            language: text_of(d.subrange(p + 1, p + 4)),
        }),
        t == 0x90 ==> attrs_at(d, p, t) == (AttrsModel::Subtitle {
            language: text_of(d.subrange(p, p + 3)),
        }),
        t == 0x91 ==> attrs_at(d, p, t) == (AttrsModel::Ig {
            language: text_of(d.subrange(p, p + 3)),
        }),
        t == 0x92 ==> attrs_at(d, p, t) == (AttrsModel::Subtitle {
            language: text_of(d.subrange(p + 1, p + 4)),
        }),
        attribute_bytes(t) == 0 ==> attrs_at(d, p, t) is Other,
{
}

/// A stream of any of the eleven audio types has its format and its rate in
/// the two halves of its fifth byte, and its language in the next three: where
/// these are ASCII, the language has the same three characters.
pub proof fn law_audio_streams(d: Seq<u8>, p: int)
    requires
        0 <= p,
        p + 8 <= d.len(),
        p + 3 + d[p + 2] <= d.len(),
        d[p + 3] == 0x03 || d[p + 3] == 0x04 || d[p + 3] == 0x80 || d[p + 3] == 0x81 || d[p + 3]
            == 0x82 || d[p + 3] == 0x83 || d[p + 3] == 0x84 || d[p + 3] == 0x85 || d[p + 3] == 0x86
            || d[p + 3] == 0xA1 || d[p + 3] == 0xA2,
    ensures
        stream_parser(d)(p) is Ok,
        stream_parser(d)(p)->Ok_0.0.coding_type == d[p + 3],
        ({
            let attrs = stream_parser(d)(p)->Ok_0.0.attrs;
            &&& attrs is Audio
            &&& 16 * attrs->audio_format + attrs->sample_rate == d[p + 4]
            &&& attrs->sample_rate < 16
            &&& attrs->Audio_language == text_of(seq![d[p + 5], d[p + 6], d[p + 7]])
            &&& d[p + 5] < 0x80 && d[p + 6] < 0x80 && d[p + 7] < 0x80 ==> {
                &&& attrs->Audio_language.len() == 3
                &&& attrs->Audio_language[0] as u8 == d[p + 5]
                &&& attrs->Audio_language[1] as u8 == d[p + 6]
                &&& attrs->Audio_language[2] as u8 == d[p + 7]
            }
        }),
{
    law_streams_lie(d, p);
    law_attributes_by_number(d, p + 4, d[p + 3]);
    assert(d.subrange(p + 5, p + 8) =~= seq![d[p + 5], d[p + 6], d[p + 7]]);
    if d[p + 5] < 0x80 && d[p + 6] < 0x80 && d[p + 7] < 0x80 {
        law_ascii_text(seq![d[p + 5], d[p + 6], d[p + 7]]);
    }
}

/// Where the streams of a program lie: its head has eight bytes, of which the
/// seventh counts the streams. They follow one behind the other.
pub proof fn law_programs_lie(d: Seq<u8>, p: int) -> (at: Seq<int>)
    requires
        0 <= p <= d.len(),
        program_parser(d)(p) is Ok,
    ensures
        p + 8 <= d.len(),
        at.len() == d[p + 6] + 1,
        at[0] == p + 8,
        program_parser(d)(p)->Ok_0.0.len() == d[p + 6],
        program_parser(d)(p)->Ok_0.1 == at[d[p + 6] as int],
        forall|k: int|
            0 <= k < d[p + 6] ==> #[trigger] stream_parser(d)(at[k]) == Ok::<
                (ClipStreamModel, int),
                CursorError,
            >((program_parser(d)(p)->Ok_0.0[k], at[k + 1])),
{
    assert(extent(program_layout(), 0, program_layout().len() as int) == 8) by {
        reveal_with_fuel(extent, 4);
    }
    lemma_fields(d.len(), p, program_layout(), 8);
    law_items_follow(stream_parser(d), p + 8, d[p + 6] as int)
}

/// A program can be read if its head fits and its streams can be read one
/// behind the other.
pub proof fn law_programs_read(d: Seq<u8>, p: int, list: Seq<ClipStreamModel>, at: Seq<int>)
    requires
        0 <= p,
        p + 8 <= d.len(),
        list.len() == d[p + 6],
        at.len() == list.len() + 1,
        at[0] == p + 8,
        forall|k: int|
            0 <= k < list.len() ==> #[trigger] stream_parser(d)(at[k]) == Ok::<
                (ClipStreamModel, int),
                CursorError,
            >((list[k], at[k + 1])),
    ensures
        program_parser(d)(p) == Ok::<(Seq<ClipStreamModel>, int), CursorError>(
            (list, at[list.len() as int]),
        ),
{
    assert(extent(program_layout(), 0, program_layout().len() as int) == 8) by {
        reveal_with_fuel(extent, 4);
    }
    lemma_fields(d.len(), p, program_layout(), 8);
    law_items_read(stream_parser(d), list, at, list.len() as int);
    assert(list.take(list.len() as int) =~= list);
}

proof fn lemma_header()
    ensures
        extent(header_layout(), 0, header_layout().len() as int) == 52,
{
    reveal_with_fuel(extent, 14);
}

proof fn lemma_programs_head()
    ensures
        extent(programs_layout(), 0, programs_layout().len() as int) == 6,
{
    reveal_with_fuel(extent, 4);
}

/// Where the programs of a file lie: at the position in bytes 12 to 15 there
/// is a head of six bytes, of which the last counts the programs. They follow
/// one behind the other, and the streams are those of all programs in order.
pub proof fn law_file_programs(d: Seq<u8>) -> (w: (Seq<int>, Seq<Seq<ClipStreamModel>>))
    requires
        file_streams(d) is Ok,
    ensures
        ({
            let (at, lists) = w;
            let start = 0x100_0000 * d[12] + 0x1_0000 * d[13] + 0x100 * d[14] + d[15];
            &&& d.len() >= 60
            &&& start + 6 <= d.len()
            &&& lists.len() == d[start + 5]
            &&& at.len() == lists.len() + 1
            &&& at[0] == start + 6
            &&& forall|k: int|
                0 <= k < lists.len() ==> #[trigger] program_parser(d)(at[k]) == Ok::<
                    (Seq<ClipStreamModel>, int),
                    CursorError,
                >((lists[k], at[k + 1]))
            &&& file_streams(d)->Ok_0 == concat(lists)
        }),
{
    let start = 0x100_0000 * d[12] + 0x1_0000 * d[13] + 0x100 * d[14] + d[15];
    lemma_header();
    lemma_fields(d.len(), 8, header_layout(), 52);
    lemma_programs_head();
    lemma_fields(d.len(), start, programs_layout(), 6);
    let at = law_items_follow(program_parser(d), start + 6, d[start + 5] as int);
    (at, items(program_parser(d), start + 6, d[start + 5] as int)->Ok_0.0)
}

/// The streams of a file can be read if there is the head of the file, that of
/// the programs, and the programs one behind the other.
pub proof fn law_file_programs_read(d: Seq<u8>, at: Seq<int>, lists: Seq<Seq<ClipStreamModel>>)
    requires
        d.len() >= 60,
        ({
            let start = 0x100_0000 * d[12] + 0x1_0000 * d[13] + 0x100 * d[14] + d[15];
            &&& start + 6 <= d.len()
            &&& lists.len() == d[start + 5]
            &&& at.len() == lists.len() + 1
            &&& at[0] == start + 6
        }),
        forall|k: int|
            0 <= k < lists.len() ==> #[trigger] program_parser(d)(at[k]) == Ok::<
                (Seq<ClipStreamModel>, int),
                CursorError,
            >((lists[k], at[k + 1])),
    ensures
        file_streams(d) == Ok::<Seq<ClipStreamModel>, CursorError>(concat(lists)),
{
    let start = 0x100_0000 * d[12] + 0x1_0000 * d[13] + 0x100 * d[14] + d[15];
    lemma_header();
    lemma_fields(d.len(), 8, header_layout(), 52);
    lemma_programs_head();
    lemma_fields(d.len(), start, programs_layout(), 6);
    law_items_read(program_parser(d), lists, at, lists.len() as int);
    assert(lists.take(lists.len() as int) =~= lists);
}

/// A file that is parsed starts with `HDMV` and a version `0100`, `0200` or
/// `0300`. The application type stands in byte 47, the recording rate in bytes
/// 52 to 55, and the number of packets in bytes 56 to 59.
pub proof fn law_parsed_files(d: Seq<u8>, clip_id: Seq<char>, clip: ClipInfo)
    requires
        parses_to(d, clip_id, Ok(clip)),
    ensures
        d.len() >= 60,
        d[0] == 0x48 && d[1] == 0x44 && d[2] == 0x4D && d[3] == 0x56,
        d[4] == 0x30 && (d[5] == 0x31 || d[5] == 0x32 || d[5] == 0x33) && d[6] == 0x30 && d[7]
            == 0x30,
        clip.clip_id@ == clip_id,
        clip.application_type == d[47],
        clip.ts_recording_rate == 0x100_0000 * d[52] + 0x1_0000 * d[53] + 0x100 * d[54] + d[55],
        clip.num_source_packets == 0x100_0000 * d[56] + 0x1_0000 * d[57] + 0x100 * d[58] + d[59],
        file_streams(d) is Ok,
        clip.streams@.len() == file_streams(d)->Ok_0.len(),
        forall|i: int|
            0 <= i < clip.streams@.len() ==> (#[trigger] clip.streams@[i])@ == file_streams(
                d,
            )->Ok_0[i],
        file_clip(d, clip_id) == Ok::<super::ClipModel, Seq<char>>(clip@),
{
    law_file_programs(d);
    assert(d.take(4)[0] == d[0] && d.take(4)[1] == d[1] && d.take(4)[2] == d[2] && d.take(4)[3]
        == d[3]);
    let v = d.subrange(4, 8);
    assert(v[0] == d[4] && v[1] == d[5] && v[2] == d[6] && v[3] == d[7]);
    assert forall|i: int| 0 <= i < clip.streams@.len() implies (#[trigger] clip.streams@[i])@
        == file_streams(d)->Ok_0[i] by {
        assert(clip@.streams[i] == clip.streams@[i]@);
    }
}

/// When a file is refused, and why: it is cut off before the fourth or the
/// eighth byte, it starts with something else, its version is another, or its
/// streams cannot be read. Any other file is parsed.
pub proof fn law_refused_files(
    d: Seq<u8>,
    clip_id: Seq<char>,
    result: Result<ClipInfo, ClpiError>,
)
    requires
        parses_to(d, clip_id, result),
        d.len() <= usize::MAX,
    ensures
        ({
            let named = d.len() >= 4 && d[0] == 0x48 && d[1] == 0x44 && d[2] == 0x4D && d[3]
                == 0x56;
            let versioned = d.len() >= 8 && d[4] == 0x30 && (d[5] == 0x31 || d[5] == 0x32 || d[5]
                == 0x33) && d[6] == 0x30 && d[7] == 0x30;
            &&& result is Ok <==> named && versioned && file_streams(d) is Ok
            &&& d.len() >= 4 && !named <==> (result matches Err(e) && e is InvalidMagic)
            &&& named && d.len() >= 8 && !versioned <==> (result matches Err(e)
                && e is UnsupportedVersion)
            &&& result matches Err(ClpiError::InvalidMagic { found }) ==> found@ == d.take(4)
            &&& result matches Err(ClpiError::UnsupportedVersion { version }) ==> version@
                == d.subrange(4, 8)
            &&& d.len() < 4 ==> result == Err::<ClipInfo, ClpiError>(
                ClpiError::UnexpectedEof { offset: 0, needed: 4, available: d.len() as usize },
            )
            &&& named && d.len() < 8 ==> result == Err::<ClipInfo, ClpiError>(
                ClpiError::UnexpectedEof {
                    offset: 4,
                    needed: 4,
                    available: (d.len() - 4) as usize,
                },
            )
            &&& named && versioned && file_streams(d) is Err ==> {
                let e = file_streams(d)->Err_0;
                result == Err::<ClipInfo, ClpiError>(
                    ClpiError::UnexpectedEof {
                        offset: e.offset,
                        needed: e.needed,
                        available: e.available,
                    },
                )
            }
        }),
{
    if d.len() >= 4 {
        assert(d.take(4)[0] == d[0] && d.take(4)[1] == d[1] && d.take(4)[2] == d[2] && d.take(4)[3]
            == d[3]);
        if d[0] == 0x48 && d[1] == 0x44 && d[2] == 0x4D && d[3] == 0x56 {
            assert(d.take(4) =~= magic());
        }
    }
    if d.len() >= 8 {
        let v = d.subrange(4, 8);
        assert(v[0] == d[4] && v[1] == d[5] && v[2] == d[6] && v[3] == d[7]);
    }
}

/// What a stream holds is what its contents say.
pub proof fn law_stream_contents(s: ClipStream)
    ensures
        s@.pid == s.pid,
        s@.coding_type == s.coding_type,
        s.attrs matches StreamAttrs::Video { video_format, frame_rate } ==> s@.attrs == (
        AttrsModel::Video { video_format, frame_rate }),
        s.attrs matches StreamAttrs::Audio { audio_format, sample_rate, language } ==> s@.attrs
            == (AttrsModel::Audio { audio_format, sample_rate, language: language@ }),
        s.attrs matches StreamAttrs::Subtitle { language } ==> s@.attrs == (AttrsModel::Subtitle {
            language: language@,
        }),
        s.attrs matches StreamAttrs::Ig { language } ==> s@.attrs == (AttrsModel::Ig {
            language: language@,
        }),
        s.attrs is Other ==> s@.attrs is Other,
{
}

/// What a clip holds is what its contents say.
pub proof fn law_clip_contents(c: ClipInfo, list: Seq<ClipInfo>, i: int)
    ensures
        c@.clip_id == c.clip_id@,
        c@.application_type == c.application_type,
        c@.ts_recording_rate == c.ts_recording_rate,
        c@.num_source_packets == c.num_source_packets,
        c@.streams.len() == c.streams@.len(),
        0 <= i < c.streams@.len() ==> c@.streams[i] == c.streams@[i]@,
        clip_models(list).len() == list.len(),
        0 <= i < list.len() ==> clip_models(list)[i] == list[i]@,
{
}

/// What the errors say, and that a file whose clip is read without them has
/// the same message.
pub proof fn law_messages(e: ClpiError, d: Seq<u8>, clip_id: Seq<char>)
    ensures
        e matches ClpiError::UnexpectedEof { offset, needed, available } ==> e.text() == eof_text(
            CursorError { offset, needed, available },
        ),
        e matches ClpiError::InvalidMagic { found } ==> e.text()
            == "invalid magic: expected \"HDMV\", got "@ + bytes_text(found@),
        e matches ClpiError::UnsupportedVersion { version } ==> e.text()
            == "unsupported version: "@ + bytes_text(version@),
        forall|r: Result<ClipInfo, ClpiError>| #[trigger]
            parses_to(d, clip_id, r) ==> match r {
                Ok(clip) => file_clip(d, clip_id) == Ok::<super::ClipModel, Seq<char>>(clip@),
                Err(why) => file_clip(d, clip_id) == Err::<super::ClipModel, Seq<char>>(
                    why.text(),
                ),
            },
{
}

} // verus!
