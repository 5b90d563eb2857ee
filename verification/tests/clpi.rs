//! Clip information files.
use reliquary_bdmv::clpi::{parse, ClpiError, StreamAttrs, CODING_TYPE_IG};

enum StreamSpec {
    Video {
        pid: u16,
        coding_type: u8,
        video_format: u8,
        frame_rate: u8,
    },
    Audio {
        pid: u16,
        coding_type: u8,
        audio_format: u8,
        sample_rate: u8,
        language: [u8; 3],
    },
    Subtitle {
        pid: u16,
        coding_type: u8,
        language: [u8; 3],
    },
    Ig {
        pid: u16,
        language: [u8; 3],
    },
}

/// Builds a minimal valid CLPI file from a fluent API.
///
/// Constructs binary CLPI according to the format specification,
/// useful for unit-testing the parser without real disc fixtures.
struct ClpiBuilder {
    application_type: u8,
    ts_recording_rate: u32,
    num_source_packets: u32,
    streams: Vec<StreamSpec>,
}

impl ClpiBuilder {
    pub(crate) fn new() -> Self {
        Self {
            application_type: 1,
            ts_recording_rate: 6_000_000,
            num_source_packets: 0,
            streams: Vec::new(),
        }
    }

    pub(crate) fn application_type(mut self, val: u8) -> Self {
        self.application_type = val;
        self
    }

    pub(crate) fn ts_recording_rate(mut self, val: u32) -> Self {
        self.ts_recording_rate = val;
        self
    }

    pub(crate) fn num_source_packets(mut self, val: u32) -> Self {
        self.num_source_packets = val;
        self
    }

    pub(crate) fn video(
        mut self,
        pid: u16,
        coding_type: u8,
        video_format: u8,
        frame_rate: u8,
    ) -> Self {
        self.streams.push(StreamSpec::Video {
            pid,
            coding_type,
            video_format,
            frame_rate,
        });
        self
    }

    pub(crate) fn audio(
        mut self,
        pid: u16,
        coding_type: u8,
        audio_format: u8,
        sample_rate: u8,
        language: [u8; 3],
    ) -> Self {
        self.streams.push(StreamSpec::Audio {
            pid,
            coding_type,
            audio_format,
            sample_rate,
            language,
        });
        self
    }

    pub(crate) fn subtitle(mut self, pid: u16, coding_type: u8, language: [u8; 3]) -> Self {
        self.streams.push(StreamSpec::Subtitle {
            pid,
            coding_type,
            language,
        });
        self
    }

    pub(crate) fn ig(mut self, pid: u16, language: [u8; 3]) -> Self {
        self.streams.push(StreamSpec::Ig { pid, language });
        self
    }

    pub(crate) fn build(&self) -> Vec<u8> {
        let mut buf = Vec::new();

        buf.extend_from_slice(b"HDMV");
        buf.extend_from_slice(b"0200");
        // sequence_info_addr placeholder (offset 0x08)
        buf.extend_from_slice(&[0u8; 4]);
        // program_info_addr placeholder (offset 0x0C)
        buf.extend_from_slice(&[0u8; 4]);
        // cpi_addr (offset 0x10)
        buf.extend_from_slice(&[0u8; 4]);
        // clip_mark_addr (offset 0x14)
        buf.extend_from_slice(&[0u8; 4]);
        // ext_data_addr (offset 0x18)
        buf.extend_from_slice(&[0u8; 4]);
        // reserved (12 bytes, offset 0x1C–0x27)
        buf.extend_from_slice(&[0u8; 12]);

        // We build a minimal ClipInfo: 2 (reserved) + 1 (stream_type) +
        // 1 (app_type) + 4 (flags) + 4 (rate) + 4 (packets) + 128 (reserved)
        // = 144 bytes of data after the length field.
        let clip_info_length: u32 = 144;
        buf.extend_from_slice(&clip_info_length.to_be_bytes());
        buf.extend_from_slice(&[0u8; 2]); // reserved
        buf.push(1); // clip_stream_type
        buf.push(self.application_type);
        buf.extend_from_slice(&[0u8; 4]); // flags (is_atc_delta = 0)
        buf.extend_from_slice(&self.ts_recording_rate.to_be_bytes());
        buf.extend_from_slice(&self.num_source_packets.to_be_bytes());
        buf.extend_from_slice(&[0u8; 128]); // reserved

        let seq_info_addr = buf.len() as u32;
        buf[0x08..0x0C].copy_from_slice(&seq_info_addr.to_be_bytes());
        // length=0, no sequences
        buf.extend_from_slice(&0u32.to_be_bytes());

        let program_info_addr = buf.len() as u32;
        buf[0x0C..0x10].copy_from_slice(&program_info_addr.to_be_bytes());

        // Build stream entries
        let mut stream_data = Vec::new();
        for stream in &self.streams {
            match stream {
                StreamSpec::Video {
                    pid,
                    coding_type,
                    video_format,
                    frame_rate,
                } => {
                    stream_data.extend_from_slice(&pid.to_be_bytes());
                    stream_data.push(2); // attr_length
                    stream_data.push(*coding_type);
                    stream_data.push((video_format << 4) | frame_rate);
                }
                StreamSpec::Audio {
                    pid,
                    coding_type,
                    audio_format,
                    sample_rate,
                    language,
                } => {
                    stream_data.extend_from_slice(&pid.to_be_bytes());
                    stream_data.push(5); // attr_length
                    stream_data.push(*coding_type);
                    stream_data.push((audio_format << 4) | sample_rate);
                    stream_data.extend_from_slice(language);
                }
                StreamSpec::Subtitle {
                    pid,
                    coding_type,
                    language,
                } => {
                    stream_data.extend_from_slice(&pid.to_be_bytes());
                    stream_data.push(4); // attr_length
                    stream_data.push(*coding_type);
                    stream_data.extend_from_slice(language);
                }
                StreamSpec::Ig { pid, language } => {
                    stream_data.extend_from_slice(&pid.to_be_bytes());
                    stream_data.push(4); // attr_length
                    stream_data.push(CODING_TYPE_IG);
                    stream_data.extend_from_slice(language);
                }
            }
        }

        // ProgramInfo: length(4) + reserved(1) + num_programs(1) +
        //   program: spn(4) + pmt_pid(2) + num_streams(1) + num_groups(1)
        //   + stream_data
        let program_body_len = 1 + 1 + 4 + 2 + 1 + 1 + stream_data.len();
        buf.extend_from_slice(&(program_body_len as u32).to_be_bytes());
        buf.push(0); // reserved
        buf.push(1); // num_programs
        // Program entry
        buf.extend_from_slice(&0u32.to_be_bytes()); // spn_program_seq_start
        buf.extend_from_slice(&0x0100_u16.to_be_bytes()); // program_map_pid
        buf.push(self.streams.len() as u8); // num_streams
        buf.push(0); // num_groups
        buf.extend_from_slice(&stream_data);

        buf
    }
}

#[test]
fn parse_content_clip() {
    let data = ClpiBuilder::new()
        .application_type(1)
        .ts_recording_rate(6_000_000)
        .num_source_packets(242_272)
        .video(0x1011, 0x1b, 6, 1) // H.264 1080p 23.976
        .audio(0x1100, 0x81, 3, 1, *b"eng") // AC-3 2.0 48kHz eng
        .subtitle(0x1200, 0x90, *b"eng") // PGS eng
        .build();

    let clip = parse(&data, "00004".into()).expect("should parse content clip");
    assert_eq!(clip.clip_id, "00004", "clip id");
    assert_eq!(clip.application_type, 1, "application type");
    assert_eq!(clip.ts_recording_rate, 6_000_000, "recording rate");
    assert_eq!(clip.num_source_packets, 242_272, "source packets");
    assert_eq!(clip.streams.len(), 3, "stream count");

    // Video
    let v = &clip.streams[0];
    assert_eq!(v.pid, 0x1011, "video pid");
    assert_eq!(v.coding_type, 0x1b, "video coding type");
    assert!(
        matches!(
            v.attrs,
            StreamAttrs::Video {
                video_format: 6,
                frame_rate: 1
            }
        ),
        "video attrs"
    );

    // Audio
    let a = &clip.streams[1];
    assert_eq!(a.pid, 0x1100, "audio pid");
    assert_eq!(a.coding_type, 0x81, "audio coding type");
    assert!(
        matches!(
            &a.attrs,
            StreamAttrs::Audio {
                audio_format: 3,
                sample_rate: 1,
                language
            } if language == "eng"
        ),
        "audio attrs"
    );

    // Subtitle
    let s = &clip.streams[2];
    assert_eq!(s.pid, 0x1200, "subtitle pid");
    assert_eq!(s.coding_type, 0x90, "subtitle coding type");
    assert!(
        matches!(
            &s.attrs,
            StreamAttrs::Subtitle { language } if language == "eng"
        ),
        "subtitle attrs"
    );
}

#[test]
fn parse_ig_only_clip() {
    let data = ClpiBuilder::new()
        .application_type(5)
        .num_source_packets(100)
        .ig(0x1400, *b"eng")
        .build();

    let clip = parse(&data, "00291".into()).expect("should parse IG-only clip");
    assert_eq!(clip.application_type, 5, "application type");
    assert_eq!(clip.streams.len(), 1, "stream count");

    let ig = &clip.streams[0];
    assert_eq!(ig.pid, 0x1400, "ig pid");
    assert_eq!(ig.coding_type, CODING_TYPE_IG, "ig coding type");
    assert!(
        matches!(
            &ig.attrs,
            StreamAttrs::Ig { language } if language == "eng"
        ),
        "ig attrs"
    );
}

#[test]
fn parse_ig_with_video_clip() {
    let data = ClpiBuilder::new()
        .application_type(3)
        .num_source_packets(500)
        .video(0x1011, 0x02, 6, 1) // MPEG-2 1080p 23.976
        .ig(0x1400, *b"eng")
        .build();

    let clip = parse(&data, "00098".into()).expect("should parse IG+video clip");
    assert_eq!(clip.application_type, 3, "application type");
    assert_eq!(clip.streams.len(), 2, "stream count");

    assert_eq!(clip.streams[0].coding_type, 0x02, "video coding type");
    assert_eq!(
        clip.streams[1].coding_type, CODING_TYPE_IG,
        "ig coding type"
    );
}

#[test]
fn reject_invalid_magic() {
    let data = b"MPLS0200\x00\x00\x00\x00\x00\x00\x00\x00";
    let err = parse(data, "00000".into()).expect_err("should reject invalid magic");
    assert!(
        matches!(err, ClpiError::InvalidMagic { found } if &found == b"MPLS"),
        "error should be InvalidMagic"
    );
}

#[test]
fn reject_unsupported_version() {
    let data = b"HDMV9999\x00\x00\x00\x00\x00\x00\x00\x00";
    let err = parse(data, "00000".into()).expect_err("should reject unsupported version");
    assert!(
        matches!(err, ClpiError::UnsupportedVersion { .. }),
        "error should be UnsupportedVersion"
    );
}

#[test]
fn clpi_reject_truncated_file() {
    let err = parse(b"HDM", "00000".into()).expect_err("should reject truncated file");
    assert!(
        matches!(err, ClpiError::UnexpectedEof { .. }),
        "error should be UnexpectedEof"
    );
}
