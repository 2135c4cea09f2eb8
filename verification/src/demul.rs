//! Reads the chunk headers of a MUL stream.

use vstd::prelude::*;
use vstd::slice::slice_subrange;
use crate::bytes::{le32, push_range, read_le32};

verus! {

/// The header of one chunk, with the number of bytes of content that follow
/// it.
#[derive(Clone, Copy, Debug, PartialEq, Eq)]
pub enum Chunk {
    Audio { size: u32 },
    Data { size: u32 },
    Padding { size: u32 },
}

/// Whether a chunk header can be read at the start of `s`.  A stream too
/// short to hold the two leading fields is read as its end; otherwise the
/// kind must be known, the header must lie inside the stream, and an audio
/// chunk must be at least as long as its own sixteen-byte sub-header.
pub open spec fn chunk_readable(s: Seq<u8>) -> bool {
    &&& s.len() >= 4 ==> le32(s, 0) <= 2
    &&& s.len() >= 8 ==> if le32(s, 0) == 0 {
        le32(s, 4) >= 16 && s.len() >= 32
    } else {
        s.len() >= 16
    }
}

/// The chunk header at the start of `s`, if the stream holds one.
pub open spec fn chunk_of(s: Seq<u8>) -> Option<Chunk> {
    if s.len() < 8 {
        None
    } else if le32(s, 0) == 0 {
        Some(Chunk::Audio { size: (le32(s, 4) - 16) as u32 })
    } else if le32(s, 0) == 1 {
        Some(Chunk::Data { size: le32(s, 4) })
    } else {
        Some(Chunk::Padding { size: le32(s, 4) })
    }
}

/// What is left of `s` behind an attempt to read a chunk header: all behind
/// the header, or behind the kind field alone when the stream ends inside
/// the header.
pub open spec fn after_chunk(s: Seq<u8>) -> Seq<u8> {
    if s.len() < 4 {
        s
    } else if s.len() < 8 {
        s.skip(4)
    } else if le32(s, 0) == 0 {
        s.skip(32)
    } else {
        s.skip(16)
    }
}

/// Takes a 32-bit value, low byte first, off the front of the stream.  A
/// stream of fewer than four bytes is left as it is.
pub fn parse_u32(bytes: &mut &[u8]) -> (res: Option<u32>)
    ensures
        match res {
            Some(v) => {
                &&& old(bytes)@.len() >= 4
                &&& v == le32(old(bytes)@, 0)
                &&& final(bytes)@ == old(bytes)@.skip(4)
            },
            None => old(bytes)@.len() < 4 && final(bytes)@ == old(bytes)@,
        },
{
    let all: &[u8] = *bytes;
    if all.len() < 4 {
        return None;
    }
    let v = read_le32(all, 0);
    let rest = slice_subrange(all, 4, all.len());
    assert(rest@ =~= all@.skip(4));
    *bytes = rest;
    Some(v)
}

/// Takes `count` bytes off the front of the stream.
pub fn get_bytes<'a>(bytes: &mut &'a [u8], count: usize) -> (data: &'a [u8])
    requires
        count <= old(bytes)@.len(),
    ensures
        data@ == old(bytes)@.take(count as int),
        final(bytes)@ == old(bytes)@.skip(count as int),
{
    let all: &'a [u8] = *bytes;
    let data = slice_subrange(all, 0, count);
    let rest = slice_subrange(all, count, all.len());
    assert(data@ =~= all@.take(count as int));
    assert(rest@ =~= all@.skip(count as int));
    *bytes = rest;
    data
}

/// Tells whether [`Chunk::parse`] can read a chunk header here.
pub fn can_parse_chunk(bytes: &[u8]) -> (ok: bool)
    ensures
        ok == chunk_readable(bytes@),
{
    let len = bytes.len();
    if len < 4 {
        return true;
    }
    let variant = read_le32(bytes, 0);
    if variant > 2 {
        return false;
    }
    if len < 8 {
        return true;
    }
    if variant == 0 {
        read_le32(bytes, 4) >= 16 && len >= 32
    } else {
        len >= 16
    }
}

impl Chunk {
    /// Takes one chunk header off the front of the stream: the kind, the
    /// size, and the padding behind them.  The size of an audio chunk does
    /// not count its sixteen-byte sub-header, which is skipped too.
    pub fn parse(bytes: &mut &[u8]) -> (res: Option<Self>)
        requires
            chunk_readable(old(bytes)@),
        ensures
            res == chunk_of(old(bytes)@),
            final(bytes)@ == after_chunk(old(bytes)@),
    {
        let ghost s = bytes@;
        let variant = match parse_u32(bytes) {
            Some(v) => v,
            None => {
                return None;
            },
        };
        let size = match parse_u32(bytes) {
            Some(v) => v,
            None => {
                return None;
            },
        };
        assert(size == le32(s, 4));
        if variant == 0 {
            let audio = Chunk::Audio { size: size - 16 };
            let _skipped = get_bytes(bytes, 8 + 16);
            assert(bytes@ =~= s.skip(32));
            Some(audio)
        } else if variant == 1 {
            let data = Chunk::Data { size };
            let _skipped = get_bytes(bytes, 8);
            assert(bytes@ =~= s.skip(16));
            Some(data)
        } else {
            let data = Chunk::Padding { size };
            let _skipped = get_bytes(bytes, 8);
            assert(bytes@ =~= s.skip(16));
            Some(data)
        }
    }
}

/// Where the chunks of a MUL file start.
pub const BODY_START: usize = 0x800;

impl Chunk {
    /// The number of bytes of content behind the chunk header.
    pub open spec fn content_len(self) -> int {
        match self {
            Chunk::Audio { size } => size as int,
            Chunk::Data { size } => size as int,
            Chunk::Padding { size } => size as int,
        }
    }

    /// Tells the number of bytes of content behind the chunk header.
    pub fn size(&self) -> (size: u32)
        ensures
            size == self.content_len(),
    {
        match self {
            Chunk::Audio { size } => *size,
            Chunk::Data { size } => *size,
            Chunk::Padding { size } => *size,
        }
    }
}

/// Whether a chunk starts `s`: the stream holds the two leading fields.
pub open spec fn at_chunk(s: Seq<u8>) -> bool {
    chunk_of(s) is Some
}

/// The content of the chunk that starts `s`.
pub open spec fn content_of(s: Seq<u8>) -> Seq<u8> {
    after_chunk(s).take(chunk_of(s).unwrap().content_len())
}

/// What follows the chunk that starts `s`.
pub open spec fn behind_chunk(s: Seq<u8>) -> Seq<u8> {
    after_chunk(s).skip(chunk_of(s).unwrap().content_len())
}

/// Whether the chunk that starts `s` can be taken apart: its header can be
/// read, its content lies inside the stream, and the content of an audio
/// chunk is not empty and divides evenly among the channels.
pub open spec fn chunk_whole(s: Seq<u8>, channels: u32) -> bool {
    &&& chunk_readable(s)
    &&& at_chunk(s) ==> {
        &&& chunk_of(s).unwrap().content_len() <= after_chunk(s).len()
        &&& chunk_of(s).unwrap() is Audio ==> channels != 0 && chunk_of(s).unwrap().content_len()
            > 0 && chunk_of(s).unwrap().content_len() % (channels as int) == 0
    }
}

/// Whether every chunk of the stream can be taken apart.
pub open spec fn stream_whole(s: Seq<u8>, channels: u32) -> bool
    decreases s.len(),
{
    chunk_whole(s, channels) && (at_chunk(s) ==> stream_whole(behind_chunk(s), channels))
}

/// The part of the audio chunk at the start of `s` that belongs to channel
/// `channel`; nothing for other chunks.
pub open spec fn channel_part(s: Seq<u8>, channels: u32, channel: int) -> Seq<u8> {
    if chunk_of(s).unwrap() is Audio {
        let share = chunk_of(s).unwrap().content_len() / (channels as int);
        content_of(s).subrange(channel * share, (channel + 1) * share)
    } else {
        Seq::empty()
    }
}

/// The audio of one channel: its parts of all audio chunks, in order.
pub open spec fn channel_audio(s: Seq<u8>, channels: u32, channel: int) -> Seq<u8>
    decreases s.len(),
{
    if chunk_whole(s, channels) && at_chunk(s) {
        channel_part(s, channels, channel) + channel_audio(behind_chunk(s), channels, channel)
    } else {
        Seq::empty()
    }
}

/// The content of all data chunks, in order.
pub open spec fn stream_data(s: Seq<u8>, channels: u32) -> Seq<u8>
    decreases s.len(),
{
    if chunk_whole(s, channels) && at_chunk(s) {
        (if chunk_of(s).unwrap() is Data {
            content_of(s)
        } else {
            Seq::empty()
        }) + stream_data(behind_chunk(s), channels)
    } else {
        Seq::empty()
    }
}

/// Number of audio, data and padding chunks of the stream.
pub open spec fn chunk_counts(s: Seq<u8>, channels: u32) -> (nat, nat, nat)
    decreases s.len(),
{
    if chunk_whole(s, channels) && at_chunk(s) {
        let rest = chunk_counts(behind_chunk(s), channels);
        match chunk_of(s).unwrap() {
            Chunk::Audio { .. } => (rest.0 + 1, rest.1, rest.2),
            Chunk::Data { .. } => (rest.0, rest.1 + 1, rest.2),
            Chunk::Padding { .. } => (rest.0, rest.1, rest.2 + 1),
        }
    } else {
        (0, 0, 0)
    }
}

/// Tells whether every chunk of the stream can be taken apart.
pub fn is_whole(stream: &[u8], channels: u32) -> (ok: bool)
    ensures
        ok == stream_whole(stream@, channels),
{
    let mut body: &[u8] = stream;
    loop
        invariant
            stream_whole(stream@, channels) == stream_whole(body@, channels),
        decreases body@.len(),
    {
        if !can_parse_chunk(body) {
            return false;
        }
        let ghost here = body@;
        match Chunk::parse(&mut body) {
            None => {
                return true;
            },
            Some(chunk) => {
                let size = chunk.size() as usize;
                if size > body.len() {
                    return false;
                }
                match chunk {
                    Chunk::Audio { size } => {
                        if channels == 0 || size == 0 || size % channels != 0 {
                            return false;
                        }
                    },
                    _ => {},
                }
                let _content = get_bytes(&mut body, size);
                assert(body@ == behind_chunk(here));
            },
        }
    }
}

/// The audio of one channel of a stream whose chunks can all be taken
/// apart.
pub fn audio_of_channel(stream: &[u8], channels: u32, channel: u32) -> (audio: Vec<u8>)
    requires
        stream_whole(stream@, channels),
        channel < channels,
    ensures
        audio@ == channel_audio(stream@, channels, channel as int),
{
    let mut audio: Vec<u8> = Vec::new();
    let mut body: &[u8] = stream;
    assert(audio@ + channel_audio(body@, channels, channel as int) =~= channel_audio(
        stream@,
        channels,
        channel as int,
    ));
    loop
        invariant
            channel < channels,
            stream_whole(body@, channels),
            channel_audio(stream@, channels, channel as int) == audio@ + channel_audio(
                body@,
                channels,
                channel as int,
            ),
        decreases body@.len(),
    {
        let ghost here = body@;
        let ghost before = audio@;
        match Chunk::parse(&mut body) {
            None => {
                assert(before + Seq::<u8>::empty() =~= before);
                return audio;
            },
            Some(chunk) => {
                let content = get_bytes(&mut body, chunk.size() as usize);
                assert(content@ == content_of(here));
                assert(body@ == behind_chunk(here));
                match chunk {
                    Chunk::Audio { size } => {
                        let share = size / channels;
                        assert(channel as int * share as int + share as int <= size) by (nonlinear_arith)
                            requires
                                channel < channels,
                                share == size as int / channels as int,
                                channels > 0,
                        ;
                        assert((channel as int + 1) * share as int == channel as int * share as int
                            + share as int) by (nonlinear_arith);
                        let from = channel as usize * share as usize;
                        push_range(&mut audio, content, from, from + share as usize);
                    },
                    _ => {
                        assert(audio@ + Seq::<u8>::empty() =~= audio@);
                    },
                }
                assert(audio@ =~= before + channel_part(here, channels, channel as int));
                assert(audio@ + channel_audio(body@, channels, channel as int) =~= before + (
                channel_part(here, channels, channel as int) + channel_audio(
                    body@,
                    channels,
                    channel as int,
                )));
            },
        }
    }
}

/// What a MUL file holds.
#[derive(Debug, PartialEq, Eq)]
pub struct Demuxed {
    pub sample_rate: u32,
    pub channels: u32,
    /// The audio of each channel.
    pub audio: Vec<Vec<u8>>,
    /// The content of the data chunks.
    pub data: Vec<u8>,
    pub audio_chunks: usize,
    pub data_chunks: usize,
    pub padding_chunks: usize,
}

/// The sample rate that a MUL file states.
pub open spec fn sample_rate_of(s: Seq<u8>) -> u32 {
    le32(s, 0)
}

/// The number of channels that a MUL file states.
pub open spec fn channels_of(s: Seq<u8>) -> u32 {
    le32(s, 12)
}

/// Whether a MUL file can be taken apart: it holds its header, and every
/// chunk behind it can be taken apart.
pub open spec fn demuxable(s: Seq<u8>) -> bool {
    s.len() >= 0x800 && stream_whole(s.skip(0x800), channels_of(s))
}

/// Tells whether [`demux`] can take the file apart.
pub fn can_demux(mul_file: &[u8]) -> (ok: bool)
    ensures
        ok == demuxable(mul_file@),
{
    if mul_file.len() < BODY_START {
        return false;
    }
    let channels = read_le32(mul_file, 12);
    let body = slice_subrange(mul_file, BODY_START, mul_file.len());
    assert(body@ =~= mul_file@.skip(0x800));
    is_whole(body, channels)
}

fn data_and_counts(stream: &[u8], channels: u32) -> (res: (Vec<u8>, usize, usize, usize))
    requires
        stream_whole(stream@, channels),
    ensures
        res.0@ == stream_data(stream@, channels),
        (res.1 as nat, res.2 as nat, res.3 as nat) == chunk_counts(stream@, channels),
{
    let mut data: Vec<u8> = Vec::new();
    let mut audio_chunks: usize = 0;
    let mut data_chunks: usize = 0;
    let mut padding_chunks: usize = 0;
    let mut body: &[u8] = stream;
    assert(data@ + stream_data(body@, channels) =~= stream_data(stream@, channels));
    loop
        invariant
            stream_whole(body@, channels),
            stream_data(stream@, channels) == data@ + stream_data(body@, channels),
            chunk_counts(stream@, channels).0 == audio_chunks + chunk_counts(body@, channels).0,
            chunk_counts(stream@, channels).1 == data_chunks + chunk_counts(body@, channels).1,
            chunk_counts(stream@, channels).2 == padding_chunks + chunk_counts(body@, channels).2,
            16 * (audio_chunks + data_chunks + padding_chunks) + body@.len() <= stream@.len(),
        decreases body@.len(),
    {
        let ghost here = body@;
        let ghost before = data@;
        let left = body.len();
        let whole = stream.len();
        match Chunk::parse(&mut body) {
            None => {
                assert(before + Seq::<u8>::empty() =~= before);
                return (data, audio_chunks, data_chunks, padding_chunks);
            },
            Some(chunk) => {
                let content = get_bytes(&mut body, chunk.size() as usize);
                assert(content@ == content_of(here));
                assert(body@ == behind_chunk(here));
                match chunk {
                    Chunk::Audio { .. } => {
                        audio_chunks = audio_chunks + 1;
                        assert(data@ + Seq::<u8>::empty() =~= data@);
                    },
                    Chunk::Data { .. } => {
                        data_chunks = data_chunks + 1;
                        push_range(&mut data, content, 0, content.len());
                        assert(content@.subrange(0, content@.len() as int) =~= content@);
                    },
                    Chunk::Padding { .. } => {
                        padding_chunks = padding_chunks + 1;
                        assert(data@ + Seq::<u8>::empty() =~= data@);
                    },
                }
                assert(data@ + stream_data(body@, channels) =~= before + ((if chunk_of(
                    here,
                ).unwrap() is Data {
                    content_of(here)
                } else {
                    Seq::empty()
                }) + stream_data(body@, channels)));
            },
        }
    }
}

/// Takes a MUL file apart: the audio of each channel, the content of the
/// data chunks, and the number of chunks of each kind.
pub fn demux(mul_file: &[u8]) -> (out: Demuxed)
    requires
        demuxable(mul_file@),
    ensures
        out.sample_rate == sample_rate_of(mul_file@),
        out.channels == channels_of(mul_file@),
        out.audio@.len() == out.channels,
        forall|channel: int|
            0 <= channel < out.channels ==> (#[trigger] out.audio@[channel])@ == channel_audio(
                mul_file@.skip(0x800),
                out.channels,
                channel,
            ),
        out.data@ == stream_data(mul_file@.skip(0x800), out.channels),
        (out.audio_chunks as nat, out.data_chunks as nat, out.padding_chunks as nat) == chunk_counts(
            mul_file@.skip(0x800),
            out.channels,
        ),
{
    let sample_rate = read_le32(mul_file, 0);
    let channels = read_le32(mul_file, 12);
    let body = slice_subrange(mul_file, BODY_START, mul_file.len());
    assert(body@ =~= mul_file@.skip(0x800));
    let mut audio: Vec<Vec<u8>> = Vec::new();
    let mut channel: u32 = 0;
    while channel < channels
        invariant
            channel <= channels,
            stream_whole(body@, channels),
            audio@.len() == channel,
            forall|k: int|
                0 <= k < channel ==> (#[trigger] audio@[k])@ == channel_audio(body@, channels, k),
        decreases channels - channel,
    {
        audio.push(audio_of_channel(body, channels, channel));
        channel = channel + 1;
    }
    let (data, audio_chunks, data_chunks, padding_chunks) = data_and_counts(body, channels);
    Demuxed { sample_rate, channels, audio, data, audio_chunks, data_chunks, padding_chunks }
}

} // verus!
