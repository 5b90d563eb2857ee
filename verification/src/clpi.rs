//! Clip information files: the streams of a clip and their attributes.
use vstd::prelude::*;
use vstd::string::*;

use crate::cursor::{
    be16, be32, beyond, eof_text, fields, get_u16, get_u32, items, lemma_items_err, short,
    Cursor, CursorError, Parsed,
};
use crate::lossy::{from_utf8_lossy, text_of};
use crate::seqs::concat;
use crate::text::{bytes_text, debug_bytes};

pub mod laws;

verus! {

/// Coding type of interactive graphics.
pub const CODING_TYPE_IG: u8 = 0x91;

/// Why a clip information file cannot be parsed.
#[derive(Debug, Clone, Copy, PartialEq, Eq)]
pub enum ClpiError {
    /// The file ends too early.
    UnexpectedEof {
        /// Position of the read.
        offset: usize,
        /// Number of bytes asked for.
        needed: usize,
        /// Number of bytes that there were.
        available: usize,
    },
    /// The file does not start with `HDMV`.
    InvalidMagic {
        /// The first four bytes.
        found: [u8; 4],
    },
    /// The version is none of `0100`, `0200` and `0300`.
    UnsupportedVersion {
        /// The version.
        version: [u8; 4],
    },
}

impl vstd::std_specs::convert::FromSpecImpl<CursorError> for ClpiError {
    open spec fn obeys_from_spec() -> bool {
        true
    }

    open spec fn from_spec(e: CursorError) -> ClpiError {
        ClpiError::eof(e)
    }
}

impl From<CursorError> for ClpiError {
    fn from(e: CursorError) -> (r: ClpiError) {
        ClpiError::UnexpectedEof { offset: e.offset, needed: e.needed, available: e.available }
    }
}

impl ClpiError {
    /// The error for a read past the end of the data.
    pub open spec fn eof(e: CursorError) -> ClpiError {
        ClpiError::UnexpectedEof { offset: e.offset, needed: e.needed, available: e.available }
    }

    /// The message of the error.
    pub open spec fn text(self) -> Seq<char> {
        match self {
            ClpiError::UnexpectedEof { offset, needed, available } => eof_text(
                CursorError { offset, needed, available },
            ),
            ClpiError::InvalidMagic { found } => "invalid magic: expected \"HDMV\", got "@
                + bytes_text(found@),
            ClpiError::UnsupportedVersion { version } => "unsupported version: "@ + bytes_text(
                version@,
            ),
        }
    }

    /// Describes the error.
    pub fn message(&self) -> (text: String)
        ensures
            text@ == self.text(),
    {
        match *self {
            ClpiError::UnexpectedEof { offset, needed, available } => CursorError {
                offset,
                needed,
                available,
            }.message(),
            ClpiError::InvalidMagic { found } => {
                let mut text: String = String::from_str("invalid magic: expected \"HDMV\", got ");
                text.append(debug_bytes(&found).as_str());
                text
            },
            ClpiError::UnsupportedVersion { version } => {
                let mut text: String = String::from_str("unsupported version: ");
                text.append(debug_bytes(&version).as_str());
                text
            },
        }
    }
}

// ---------------------------------------------------------------------------
// Types
// ---------------------------------------------------------------------------

/// A clip and its streams.
#[derive(Debug, Clone)]
pub struct ClipInfo {
    /// Clip identifier, from the name of the file.
    pub clip_id: String,
    /// Application type.
    pub application_type: u8,
    /// Recording rate in bytes per second.
    pub ts_recording_rate: u32,
    /// Number of source packets.
    pub num_source_packets: u32,
    /// Streams of all programs, in file order.
    pub streams: Vec<ClipStream>,
}

/// A stream of a clip.
#[derive(Debug, Clone)]
pub struct ClipStream {
    /// Packet identifier.
    pub pid: u16,
    /// Coding type.
    pub coding_type: u8,
    /// Attributes.
    pub attrs: StreamAttrs,
}

/// Attributes of a stream.
#[derive(Debug, Clone)]
pub enum StreamAttrs {
    /// Video.
    Video {
        /// Format code.
        video_format: u8,
        /// Frame rate code.
        frame_rate: u8,
    },
    /// Audio.
    Audio {
        /// Format code.
        audio_format: u8,
        /// Sample rate code.
        sample_rate: u8,
        /// Language code.
        language: String,
    },
    /// Subtitles.
    Subtitle {
        /// Language code.
        language: String,
    },
    /// Interactive graphics.
    Ig {
        /// Language code.
        language: String,
    },
    /// Anything else.
    Other,
}

/// Contents of a [`StreamAttrs`].
pub enum AttrsModel {
    /// Video.
    Video {
        /// Format code.
        video_format: u8,
        /// Frame rate code.
        frame_rate: u8,
    },
    /// Audio.
    Audio {
        /// Format code.
        audio_format: u8,
        /// Sample rate code.
        sample_rate: u8,
        /// Language code.
        language: Seq<char>,
    },
    /// Subtitles.
    Subtitle {
        /// Language code.
        language: Seq<char>,
    },
    /// Interactive graphics.
    Ig {
        /// Language code.
        language: Seq<char>,
    },
    /// Anything else.
    Other,
}

impl View for StreamAttrs {
    type V = AttrsModel;

    open spec fn view(&self) -> AttrsModel {
        match self {
            StreamAttrs::Video { video_format, frame_rate } => AttrsModel::Video {
                video_format: *video_format,
                frame_rate: *frame_rate,
            },
            StreamAttrs::Audio { audio_format, sample_rate, language } => AttrsModel::Audio {
                audio_format: *audio_format,
                sample_rate: *sample_rate,
                language: language@,
            },
            StreamAttrs::Subtitle { language } => AttrsModel::Subtitle { language: language@ },
            StreamAttrs::Ig { language } => AttrsModel::Ig { language: language@ },
            StreamAttrs::Other => AttrsModel::Other,
        }
    }
}

/// Contents of a [`ClipStream`].
pub struct ClipStreamModel {
    /// Packet identifier.
    pub pid: u16,
    /// Coding type.
    pub coding_type: u8,
    /// Attributes.
    pub attrs: AttrsModel,
}

impl View for ClipStream {
    type V = ClipStreamModel;

    open spec fn view(&self) -> ClipStreamModel {
        ClipStreamModel { pid: self.pid, coding_type: self.coding_type, attrs: self.attrs@ }
    }
}

/// Contents of streams.
pub open spec fn streams_of(list: Seq<ClipStream>) -> Seq<ClipStreamModel> {
    list.map_values(|s: ClipStream| s@)
}

/// Contents of a [`ClipInfo`].
#[verifier::ext_equal]
pub struct ClipModel {
    /// Clip identifier.
    pub clip_id: Seq<char>,
    /// Application type.
    pub application_type: u8,
    /// Recording rate in bytes per second.
    pub ts_recording_rate: u32,
    /// Number of source packets.
    pub num_source_packets: u32,
    /// Streams of all programs, in file order.
    pub streams: Seq<ClipStreamModel>,
}

impl View for ClipInfo {
    type V = ClipModel;

    open spec fn view(&self) -> ClipModel {
        ClipModel {
            clip_id: self.clip_id@,
            application_type: self.application_type,
            ts_recording_rate: self.ts_recording_rate,
            num_source_packets: self.num_source_packets,
            streams: streams_of(self.streams@),
        }
    }
}

/// Contents of clips.
pub open spec fn clip_models(list: Seq<ClipInfo>) -> Seq<ClipModel> {
    list.map_values(|c: ClipInfo| c@)
}

// ---------------------------------------------------------------------------
// The file
// ---------------------------------------------------------------------------

/// The first four bytes of the file: `HDMV`.
pub open spec fn magic() -> Seq<u8> {
    seq![0x48, 0x44, 0x4D, 0x56]
}

/// Whether a version is `0100`, `0200` or `0300`.
pub open spec fn supported(version: Seq<u8>) -> bool {
    version[0] == 0x30 && 0x31 <= version[1] <= 0x33 && version[2] == 0x30 && version[3] == 0x30
}

/// Whether a coding type is that of video.
pub open spec fn is_video(coding_type: u8) -> bool {
    coding_type == 0x01 || coding_type == 0x02 || coding_type == 0xEA || coding_type == 0x1B
        || coding_type == 0x24
}

/// Whether a coding type is that of audio.
pub open spec fn is_audio(coding_type: u8) -> bool {
    coding_type == 0x03 || coding_type == 0x04 || 0x80 <= coding_type <= 0x86 || coding_type
        == 0xA1 || coding_type == 0xA2
}

/// The fields of the attributes after the coding type.
pub open spec fn attrs_layout(coding_type: u8) -> Seq<usize> {
    if is_video(coding_type) {
        seq![1]
    } else if is_audio(coding_type) {
        seq![1, 3]
    } else if coding_type == 0x90 || coding_type == 0x91 {
        seq![3]
    } else if coding_type == 0x92 {
        seq![1, 3]
    } else {
        seq![]
    }
}

/// The attributes whose fields start at `p`. Format and rate share a byte.
pub open spec fn attrs_at(d: Seq<u8>, p: int, coding_type: u8) -> AttrsModel {
    if is_video(coding_type) {
        AttrsModel::Video { video_format: d[p] / 16, frame_rate: d[p] % 16 }
    } else if is_audio(coding_type) {
        AttrsModel::Audio {
            audio_format: d[p] / 16,
            sample_rate: d[p] % 16,
            language: text_of(d.subrange(p + 1, p + 4)),
        }
    } else if coding_type == 0x90 {
        AttrsModel::Subtitle { language: text_of(d.subrange(p, p + 3)) }
    } else if coding_type == 0x91 {
        AttrsModel::Ig { language: text_of(d.subrange(p, p + 3)) }
    } else if coding_type == 0x92 {
        AttrsModel::Subtitle { language: text_of(d.subrange(p + 1, p + 4)) }
    } else {
        AttrsModel::Other
    }
}

/// Packet identifier, attribute length and coding type.
pub open spec fn stream_layout() -> Seq<usize> {
    seq![2, 1, 1]
}

/// Streams. The attribute length counts from the coding type; what the
/// attributes leave of it is passed over.
pub open spec fn stream_parser(d: Seq<u8>) -> spec_fn(int) -> Parsed<ClipStreamModel> {
    |p: int|
        match fields(d.len(), p, stream_layout(), 0) {
            Err(e) => Err(e),
            Ok(start) => match fields(d.len(), start, attrs_layout(d[p + 3]), 0) {
                Err(e) => Err(e),
                Ok(q) => {
                    let stream = ClipStreamModel {
                        pid: be16(d, p),
                        coding_type: d[p + 3],
                        attrs: attrs_at(d, p + 4, d[p + 3]),
                    };
                    let rest = d[p + 2] - (q - (p + 3));
                    if rest > 0 {
                        match fields(d.len(), q, seq![rest as usize], 0) {
                            Ok(end) => Ok((stream, end)),
                            Err(e) => Err(e),
                        }
                    } else {
                        Ok((stream, q))
                    }
                },
            },
        }
}

/// Start, map, number of streams and number of groups of a program.
pub open spec fn program_layout() -> Seq<usize> {
    seq![6, 1, 1]
}

/// Programs: a header, and as many streams as it says.
pub open spec fn program_parser(d: Seq<u8>) -> spec_fn(int) -> Parsed<Seq<ClipStreamModel>> {
    |p: int|
        match fields(d.len(), p, program_layout(), 0) {
            Ok(start) => items(stream_parser(d), start, d[p + 6] as int),
            Err(e) => Err(e),
        }
}

/// Section addresses and the clip section, up to the number of packets.
pub open spec fn header_layout() -> Seq<usize> {
    seq![4, 4, 4, 4, 4, 12, 4, 2, 1, 1, 4, 4, 4]
}

/// Length, reserved byte and number of programs.
pub open spec fn programs_layout() -> Seq<usize> {
    seq![4, 1, 1]
}

/// The streams of all programs of a file.
pub open spec fn file_streams(d: Seq<u8>) -> Result<Seq<ClipStreamModel>, CursorError> {
    let programs = be32(d, 12) as int;
    match fields(d.len(), 8, header_layout(), 0) {
        Err(e) => Err(e),
        Ok(_) => if programs > d.len() {
            Err(beyond(programs))
        } else {
            match fields(d.len(), programs, programs_layout(), 0) {
                Err(e) => Err(e),
                Ok(start) => match items(program_parser(d), start, d[programs + 5] as int) {
                    Ok((lists, _)) => Ok(concat(lists)),
                    Err(e) => Err(e),
                },
            }
        },
    }
}

/// What a parse of a file comes to.
pub open spec fn parses_to(
    d: Seq<u8>,
    clip_id: Seq<char>,
    result: Result<ClipInfo, ClpiError>,
) -> bool {
    if d.len() < 4 {
        result == Err::<ClipInfo, ClpiError>(ClpiError::eof(short(d.len(), 0, 4)))
    } else if d.take(4) != magic() {
        result matches Err(ClpiError::InvalidMagic { found }) && found@ == d.take(4)
    } else if d.len() < 8 {
        result == Err::<ClipInfo, ClpiError>(ClpiError::eof(short(d.len(), 4, 4)))
    } else if !supported(d.subrange(4, 8)) {
        result matches Err(ClpiError::UnsupportedVersion { version }) && version@ == d.subrange(
            4,
            8,
        )
    } else {
        match file_streams(d) {
            Err(e) => result == Err::<ClipInfo, ClpiError>(ClpiError::eof(e)),
            Ok(streams) => result matches Ok(clip) && clip@ == clip_at(d, clip_id, streams),
        }
    }
}

/// The clip of a file with the given streams.
pub open spec fn clip_at(
    d: Seq<u8>,
    clip_id: Seq<char>,
    streams: Seq<ClipStreamModel>,
) -> ClipModel {
    ClipModel {
        clip_id,
        application_type: d[47],
        ts_recording_rate: be32(d, 52),
        num_source_packets: be32(d, 56),
        streams,
    }
}

/// The clip of a file, or the message that says why it cannot be parsed.
pub open spec fn file_clip(d: Seq<u8>, clip_id: Seq<char>) -> Result<ClipModel, Seq<char>> {
    if d.len() < 4 {
        Err(eof_text(short(d.len(), 0, 4)))
    } else if d.take(4) != magic() {
        Err("invalid magic: expected \"HDMV\", got "@ + bytes_text(d.take(4)))
    } else if d.len() < 8 {
        Err(eof_text(short(d.len(), 4, 4)))
    } else if !supported(d.subrange(4, 8)) {
        Err("unsupported version: "@ + bytes_text(d.subrange(4, 8)))
    } else {
        match file_streams(d) {
            Err(e) => Err(eof_text(e)),
            Ok(streams) => Ok(clip_at(d, clip_id, streams)),
        }
    }
}

fn is_video_type(coding_type: u8) -> (yes: bool)
    ensures
        yes == is_video(coding_type),
{
    coding_type == 0x01 || coding_type == 0x02 || coding_type == 0xEA || coding_type == 0x1B
        || coding_type == 0x24
}

fn is_audio_type(coding_type: u8) -> (yes: bool)
    ensures
        yes == is_audio(coding_type),
{
    coding_type == 0x03 || coding_type == 0x04 || (0x80 <= coding_type && coding_type <= 0x86)
        || coding_type == 0xA1 || coding_type == 0xA2
}

fn language_at(data: &[u8], p: usize) -> (language: String)
    requires
        p + 3 <= data@.len(),
    ensures
        language@ == text_of(data@.subrange(p as int, p + 3)),
{
    let length: usize = data.len();
    assert(p + 3 <= length);
    from_utf8_lossy(vstd::slice::slice_subrange(data, p, p + 3))
}

/// Parses a packet identifier and the attributes of its stream.
fn parse_stream_attrs(r: &mut Cursor<'_>) -> (result: Result<ClipStream, ClpiError>)
    requires
        old(r).pos <= old(r).bytes().len(),
    ensures
        final(r).bytes() == old(r).bytes(),
        final(r).pos <= final(r).bytes().len(),
        match stream_parser(old(r).bytes())(old(r).pos as int) {
            Ok((m, end)) => result matches Ok(s) && s@ == m && final(r).pos == end,
            Err(e) => result == Err::<ClipStream, ClpiError>(ClpiError::eof(e)),
        },
{
    let layout: [usize; 3] = [2, 1, 1];
    proof {
        assert(layout@ =~= stream_layout());
        reveal_with_fuel(fields, 5);
    }
    let p: usize = match r.skip_fields(&layout) {
        Ok(p) => p,
        Err(e) => {
            return Err(ClpiError::from(e));
        },
    };
    let length: usize = r.data[p + 2] as usize;
    let coding_type: u8 = r.data[p + 3];
    let one: [usize; 1] = [1];
    let three: [usize; 1] = [3];
    let both: [usize; 2] = [1, 3];
    let none: [usize; 0] = [];
    proof {
        assert(one@ =~= seq![1usize]);
        assert(three@ =~= seq![3usize]);
        assert(both@ =~= seq![1usize, 3usize]);
        assert(none@ =~= Seq::<usize>::empty());
    }
    let read: Result<usize, CursorError> = if is_video_type(coding_type) {
        r.skip_fields(&one)
    } else if is_audio_type(coding_type) || coding_type == 0x92 {
        r.skip_fields(&both)
    } else if coding_type == 0x90 || coding_type == 0x91 {
        r.skip_fields(&three)
    } else {
        r.skip_fields(&none)
    };
    match read {
        Ok(_) => {},
        Err(e) => {
            return Err(ClpiError::from(e));
        },
    }
    let q: usize = p + 4;
    let attrs: StreamAttrs = if is_video_type(coding_type) {
        StreamAttrs::Video { video_format: r.data[q] / 16, frame_rate: r.data[q] % 16 }
    } else if is_audio_type(coding_type) {
        StreamAttrs::Audio {
            audio_format: r.data[q] / 16,
            sample_rate: r.data[q] % 16,
            language: language_at(r.data, q + 1),
        }
    } else if coding_type == 0x90 {
        StreamAttrs::Subtitle { language: language_at(r.data, q) }
    } else if coding_type == 0x91 {
        StreamAttrs::Ig { language: language_at(r.data, q) }
    } else if coding_type == 0x92 {
        StreamAttrs::Subtitle { language: language_at(r.data, q + 1) }
    } else {
        StreamAttrs::Other
    };
    let stream: ClipStream = ClipStream { pid: get_u16(r.data, p), coding_type, attrs };
    let consumed: usize = r.pos - (p + 3);
    if consumed < length {
        let rest: [usize; 1] = [length - consumed];
        proof {
            assert(rest@ =~= seq![(length - consumed) as usize]);
        }
        match r.skip_fields(&rest) {
            Ok(_) => {},
            Err(e) => {
                return Err(ClpiError::from(e));
            },
        }
    }
    Ok(stream)
}

fn parse_program(r: &mut Cursor<'_>) -> (result: Result<Vec<ClipStream>, ClpiError>)
    requires
        old(r).pos <= old(r).bytes().len(),
    ensures
        final(r).bytes() == old(r).bytes(),
        final(r).pos <= final(r).bytes().len(),
        match program_parser(old(r).bytes())(old(r).pos as int) {
            Ok((m, end)) => result matches Ok(list) && streams_of(list@) == m && final(r).pos
                == end,
            Err(e) => result == Err::<Vec<ClipStream>, ClpiError>(ClpiError::eof(e)),
        },
{
    let ghost d = r.bytes();
    let layout: [usize; 3] = [6, 1, 1];
    proof {
        assert(layout@ =~= program_layout());
        reveal_with_fuel(fields, 5);
    }
    let p: usize = match r.skip_fields(&layout) {
        Ok(p) => p,
        Err(e) => {
            return Err(ClpiError::from(e));
        },
    };
    let count: u8 = r.data[p + 6];
    let ghost start = r.pos as int;
    let ghost item = stream_parser(d);
    let mut streams: Vec<ClipStream> = Vec::new();
    proof {
        assert(streams_of(streams@) =~= seq![]);
    }
    let mut i: u8 = 0;
    while i < count
        invariant
            i <= count,
            d == old(r).bytes(),
            item == stream_parser(d),
            r.bytes() == d,
            r.pos <= d.len(),
            items(item, start, i as int) == Ok::<(Seq<ClipStreamModel>, int), CursorError>(
                (streams_of(streams@), r.pos as int),
            ),
            program_parser(d)(old(r).pos as int) == items(item, start, count as int),
        decreases count - i,
    {
        let ghost before = streams_of(streams@);
        match parse_stream_attrs(r) {
            Ok(s) => {
                streams.push(s);
                proof {
                    assert(streams_of(streams@) =~= before.push(s@));
                }
            },
            Err(e) => {
                proof {
                    lemma_items_err(item, start, i + 1, count as int);
                }
                return Err(e);
            },
        }
        i = i + 1;
    }
    Ok(streams)
}

/// Parses a clip information file.
pub fn parse(data: &[u8], clip_id: String) -> (result: Result<ClipInfo, ClpiError>)
    ensures
        parses_to(data@, clip_id@, result),
        match file_clip(data@, clip_id@) {
            Ok(m) => result matches Ok(clip) && clip@ == m,
            Err(text) => result matches Err(e) && e.text() == text,
        },
{
    let ghost d = data@;
    let mut r: Cursor = Cursor::new(data);
    match r.ensure(4) {
        Ok(()) => {},
        Err(e) => {
            return Err(ClpiError::from(e));
        },
    }
    let found: [u8; 4] = [data[0], data[1], data[2], data[3]];
    proof {
        assert(found@ =~= d.take(4));
    }
    if found[0] != 0x48 || found[1] != 0x44 || found[2] != 0x4D || found[3] != 0x56 {
        return Err(ClpiError::InvalidMagic { found });
    }
    proof {
        assert(found@ =~= magic());
    }
    r.pos = 4;
    match r.ensure(4) {
        Ok(()) => {},
        Err(e) => {
            return Err(ClpiError::from(e));
        },
    }
    let version: [u8; 4] = [data[4], data[5], data[6], data[7]];
    proof {
        assert(version@ =~= d.subrange(4, 8));
    }
    if version[0] != 0x30 || version[1] < 0x31 || version[1] > 0x33 || version[2] != 0x30
        || version[3] != 0x30 {
        return Err(ClpiError::UnsupportedVersion { version });
    }
    r.pos = 8;
    let header: [usize; 13] = [4, 4, 4, 4, 4, 12, 4, 2, 1, 1, 4, 4, 4];
    let programs: [usize; 3] = [4, 1, 1];
    proof {
        assert(header@ =~= header_layout());
        assert(programs@ =~= programs_layout());
        reveal_with_fuel(fields, 15);
    }
    match r.skip_fields(&header) {
        Ok(_) => {},
        Err(e) => {
            return Err(ClpiError::from(e));
        },
    }
    let address: usize = get_u32(data, 12) as usize;
    match r.seek(address) {
        Ok(()) => {},
        Err(e) => {
            return Err(ClpiError::from(e));
        },
    }
    match r.skip_fields(&programs) {
        Ok(_) => {},
        Err(e) => {
            return Err(ClpiError::from(e));
        },
    }
    let count: u8 = data[address + 5];
    let ghost start = r.pos as int;
    let ghost item = program_parser(d);
    let ghost mut lists: Seq<Seq<ClipStreamModel>> = seq![];
    let mut streams: Vec<ClipStream> = Vec::new();
    proof {
        assert(streams_of(streams@) =~= concat(lists));
    }
    let mut i: u8 = 0;
    while i < count
        invariant
            i <= count,
            d == data@,
            item == program_parser(d),
            r.bytes() == d,
            r.pos <= d.len(),
            d.len() >= 60,
            d.take(4) == magic(),
            supported(d.subrange(4, 8)),
            items(item, start, i as int) == Ok::<(Seq<Seq<ClipStreamModel>>, int), CursorError>(
                (lists, r.pos as int),
            ),
            streams_of(streams@) == concat(lists),
            file_streams(d) == match items(item, start, count as int) {
                Ok((all, _)) => Ok::<Seq<ClipStreamModel>, CursorError>(concat(all)),
                Err(e) => Err(e),
            },
        decreases count - i,
    {
        match parse_program(&mut r) {
            Ok(list) => {
                let ghost before = streams_of(streams@);
                let ghost these = streams_of(list@);
                let mut more: Vec<ClipStream> = list;
                streams.append(&mut more);
                proof {
                    assert(streams_of(streams@) =~= before + these);
                    assert(lists.push(these).drop_last() =~= lists);
                    lists = lists.push(these);
                }
            },
            Err(e) => {
                proof {
                    lemma_items_err(item, start, i + 1, count as int);
                }
                return Err(e);
            },
        }
        i = i + 1;
    }
    Ok(
        ClipInfo {
            clip_id,
            application_type: data[47],
            ts_recording_rate: get_u32(data, 52),
            num_source_packets: get_u32(data, 56),
            streams,
        },
    )
}

} // verus!
