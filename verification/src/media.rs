//! Plain data describing media streams.
//!
//! Demuxing and decoding belong to the media layer outside this core;
//! what lives here is the classification data the scheduler and its hosts
//! exchange about streams.

use vstd::prelude::*;

verus! {

/// Whether a stream carries video or audio.
#[derive(Clone, Copy, Debug, PartialEq, Eq, Structural)]
pub enum StreamType {
    Video,
    Audio,
}

/// The medium of one codec, as the demuxer reports it.
#[derive(Clone, Copy, Debug, PartialEq, Eq, Structural)]
pub enum AVCodecType {
    Unknown,
    Video,
    Audio,
    Data,
    Subtitle,
    Attachment,
    Nb,
}

/// The codec type encoded by the demuxer's numeric medium code: `0` is
/// video, `1` audio, `2` data, `3` subtitle, `4` attachment, `5` the
/// count sentinel; everything else is unknown.
pub open spec fn spec_codec_type_of(value: i32) -> AVCodecType {
    if value == 0 {
        AVCodecType::Video
    } else if value == 1 {
        AVCodecType::Audio
    } else if value == 2 {
        AVCodecType::Data
    } else if value == 3 {
        AVCodecType::Subtitle
    } else if value == 4 {
        AVCodecType::Attachment
    } else if value == 5 {
        AVCodecType::Nb
    } else {
        AVCodecType::Unknown
    }
}

impl From<i32> for AVCodecType {
    /// Decodes the demuxer's numeric medium code.
    fn from(value: i32) -> (r: AVCodecType) {
        match value {
            0 => AVCodecType::Video,
            1 => AVCodecType::Audio,
            2 => AVCodecType::Data,
            3 => AVCodecType::Subtitle,
            4 => AVCodecType::Attachment,
            5 => AVCodecType::Nb,
            _ => AVCodecType::Unknown,
        }
    }
}

impl vstd::std_specs::convert::FromSpecImpl<i32> for AVCodecType {
    open spec fn obeys_from_spec() -> bool {
        true
    }

    open spec fn from_spec(value: i32) -> AVCodecType {
        spec_codec_type_of(value)
    }
}

} // verus!
