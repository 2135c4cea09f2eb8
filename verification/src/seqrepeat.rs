//! Repeats the looped part of a SEQ file a given number of times.

use vstd::prelude::*;
use crate::bytes::{le16, le32, push_range, read_le16, read_le32};
use crate::cds2seq::assemble::{find_terminator, lemma_terminator_is_first, terminator_from};
use crate::reader::ByteReader;

verus! {

/// The tag `pQES` that opens a SEQ file.
pub const MAGIC: [u8; 4] = [0x70, 0x51, 0x45, 0x53];

/// What the caller asks for.
#[derive(Clone, Copy, Debug, PartialEq, Eq)]
pub struct Args {
    /// Number of passes in the output; not zero.
    pub count: usize,
    /// Start copying behind the tempo marker rather than behind the header.
    pub tempo_marker: bool,
    /// Copy the part between the loop markers.
    pub loop_marker: bool,
}

/// The header of a SEQ file.  The multi-byte numbers are read low byte
/// first.
#[derive(Clone, Copy, Debug, PartialEq, Eq)]
pub struct Header {
    pub magic: [u8; 4],
    pub _version: u32,
    pub _ppqn: u16,
    pub tempo: [u8; 3],
    pub _time_signature: u16,
}

/// Whether the fields of `header` are those of the fifteen bytes at
/// `s[at..]`.
pub open spec fn is_header_at(header: Header, s: Seq<u8>, at: int) -> bool {
    &&& header.magic@ == s.subrange(at, at + 4)
    &&& header._version == le32(s, at + 4)
    &&& header._ppqn == le16(s, at + 8)
    &&& header.tempo@ == s.subrange(at + 10, at + 13)
    &&& header._time_signature == le16(s, at + 13)
}

/// Whether a loop marker with value `value` starts at `i`: a control change
/// on any channel (status `B0` to `BF`) of controller `63`.
pub open spec fn loop_marker_at(s: Seq<u8>, i: int, value: u8) -> bool {
    &&& 0 <= i
    &&& i + 3 <= s.len()
    &&& 0xb0 <= s[i] <= 0xbf
    &&& s[i + 1] == 0x63
    &&& s[i + 2] == value
}

/// The last position before `end` at which a loop marker with value `value`
/// starts.
pub open spec fn last_marker(s: Seq<u8>, value: u8, end: int) -> Option<int>
    decreases end,
{
    if end <= 0 {
        None
    } else if loop_marker_at(s, end - 1, value) {
        Some(end - 1)
    } else {
        last_marker(s, value, end - 1)
    }
}

/// The last loop-start marker (value `14`) of the file.
pub open spec fn loop_start_of(s: Seq<u8>) -> Option<int> {
    last_marker(s, 0x14, s.len() as int)
}

/// The last loop-end marker (value `1E`) of the file.
pub open spec fn loop_end_of(s: Seq<u8>) -> Option<int> {
    last_marker(s, 0x1e, s.len() as int)
}

/// Where the first tempo marker `FF 51` at or after `i` starts.
pub open spec fn tempo_from(s: Seq<u8>, i: int) -> Option<int>
    decreases s.len() - i,
{
    if i < 0 || i + 2 > s.len() {
        None
    } else if s[i] == 0xff && s[i + 1] == 0x51 {
        Some(i)
    } else {
        tempo_from(s, i + 1)
    }
}

/// Whether the file opens with a whole header that bears the SEQ tag.
pub open spec fn has_seq_header(s: Seq<u8>) -> bool {
    s.len() >= 15 && s[0] == 0x70 && s[1] == 0x51 && s[2] == 0x45 && s[3] == 0x53
}

/// Which parts of the file go where in the output.
pub struct Layout {
    /// The loop-start marker, when loop markers are asked for and found.
    pub loop_start: Option<usize>,
    /// The loop-end marker, when loop markers are asked for and found.
    pub loop_end: Option<usize>,
    /// Where the beginning, which is copied once, ends.
    pub beginning: usize,
    /// Where the repeated part starts.
    pub from: usize,
    /// Where the repeated part ends.
    pub to: usize,
}

/// The loop-start marker that counts, if any.
pub open spec fn start_marker(s: Seq<u8>, args: Args) -> Option<int> {
    if args.loop_marker {
        loop_start_of(s)
    } else {
        None
    }
}

/// The loop-end marker that counts, if any.
pub open spec fn end_marker(s: Seq<u8>, args: Args) -> Option<int> {
    if args.loop_marker {
        loop_end_of(s)
    } else {
        None
    }
}

/// Where the beginning ends: five bytes behind the start of the first tempo
/// marker, or of offset 10 when there is none; without the tempo option,
/// behind the header.
pub open spec fn beginning_of(s: Seq<u8>, args: Args) -> int {
    if args.tempo_marker {
        match tempo_from(s, 0) {
            Some(i) => i + 5,
            None => 15,
        }
    } else {
        15
    }
}

/// Where the repeated part starts.
pub open spec fn copy_from(s: Seq<u8>, args: Args) -> int {
    match start_marker(s, args) {
        Some(start) => start + 6,
        None => beginning_of(s, args),
    }
}

/// Where the repeated part ends.
pub open spec fn copy_to(s: Seq<u8>, args: Args) -> int {
    match (start_marker(s, args), end_marker(s, args)) {
        (Some(_), Some(end)) => end + 3,
        (Some(_), None) => s.len() as int,
        _ => match terminator_from(s, 0) {
            Some(k) => k + 3,
            None => -1,
        },
    }
}

/// Whether the parts of the file can be cut out as the options ask: the
/// beginning and the repeated part lie inside the file, the repeated part
/// does not start behind its end, and without a loop start there is a
/// terminator to end it.
pub open spec fn repeatable(s: Seq<u8>, args: Args) -> bool {
    has_seq_header(s) ==> {
        &&& args.count >= 1
        &&& beginning_of(s, args) <= s.len()
        &&& beginning_of(s, args) <= copy_from(s, args) <= copy_to(s, args) <= s.len()
    }
}

/// The three or five bytes that replace the end of a pass that is not the
/// last: a loop-end marker on the channel of the loop start, one on channel
/// zero, or the tempo marker of the header.
pub open spec fn dummy_of(s: Seq<u8>, args: Args) -> Seq<u8> {
    match start_marker(s, args) {
        Some(start) => seq![s[start], 0x63u8, 0x1eu8],
        None => if args.loop_marker {
            seq![0xb0u8, 0x63u8, 0x1eu8]
        } else {
            seq![0xffu8, 0x51u8, s[10], s[11], s[12]]
        },
    }
}

/// `out` followed by `left` passes of `copy`; behind each pass but the last,
/// the last three bytes written so far give way to `dummy`.
pub open spec fn passes(out: Seq<u8>, copy: Seq<u8>, dummy: Seq<u8>, left: nat) -> Seq<u8>
    decreases left,
{
    if left == 0 {
        out
    } else if left == 1 {
        out + copy
    } else {
        passes((out + copy).subrange(0, (out + copy).len() - 3) + dummy, copy, dummy, (left - 1) as nat)
    }
}

/// What follows the repeated part: all behind the loop-end marker.
pub open spec fn tail_of(s: Seq<u8>, args: Args) -> Seq<u8> {
    match end_marker(s, args) {
        Some(end) => s.skip(end + 3),
        None => Seq::empty(),
    }
}

/// The output for a file with a SEQ header.
pub open spec fn repeated(s: Seq<u8>, args: Args) -> Seq<u8> {
    passes(
        s.subrange(0, copy_from(s, args)),
        s.subrange(copy_from(s, args), copy_to(s, args)),
        dummy_of(s, args),
        args.count as nat,
    ) + tail_of(s, args)
}

fn is_loop_marker(file: &[u8], i: usize, value: u8) -> (found: bool)
    requires
        i + 3 <= file@.len(),
    ensures
        found == loop_marker_at(file@, i as int, value),
{
    let len = file.len();
    0xb0 <= file[i] && file[i] <= 0xbf && file[i + 1] == 0x63 && file[i + 2] == value
}

/// Finds the last loop-start marker and the last loop-end marker.
pub fn find_loops(file: &[u8]) -> (res: (Option<usize>, Option<usize>))
    ensures
        match res.0 {
            Some(start) => loop_start_of(file@) == Some(start as int),
            None => loop_start_of(file@) is None,
        },
        match res.1 {
            Some(end) => loop_end_of(file@) == Some(end as int),
            None => loop_end_of(file@) is None,
        },
{
    let len = file.len();
    let mut start: Option<usize> = None;
    let mut end: Option<usize> = None;
    let mut index: usize = 0;
    if len < 3 {
        proof {
            lemma_no_marker_near_end(file@, 0x14, len as int, 0);
            lemma_no_marker_near_end(file@, 0x1e, len as int, 0);
        }
        return (None, None);
    }
    while index < len - 2
        invariant
            len == file@.len(),
            len >= 3,
            index <= len - 2,
            match start {
                Some(i) => last_marker(file@, 0x14, index as int) == Some(i as int),
                None => last_marker(file@, 0x14, index as int) is None,
            },
            match end {
                Some(i) => last_marker(file@, 0x1e, index as int) == Some(i as int),
                None => last_marker(file@, 0x1e, index as int) is None,
            },
        decreases len - index,
    {
        if is_loop_marker(file, index, 0x14) {
            start = Some(index);
        } else if is_loop_marker(file, index, 0x1e) {
            end = Some(index);
        }
        index = index + 1;
    }
    proof {
        lemma_no_marker_near_end(file@, 0x14, len as int, index as int);
        lemma_no_marker_near_end(file@, 0x1e, len as int, index as int);
    }
    (start, end)
}

proof fn lemma_no_marker_near_end(s: Seq<u8>, value: u8, end: int, from: int)
    requires
        0 <= from <= end <= s.len(),
        from + 2 >= s.len(),
    ensures
        last_marker(s, value, end) == last_marker(s, value, from),
    decreases end - from,
{
    if from < end {
        lemma_no_marker_near_end(s, value, end - 1, from);
    }
}

/// Finds the first tempo marker `FF 51`.
pub fn find_tempo(file: &[u8]) -> (res: Option<usize>)
    ensures
        match res {
            Some(i) => tempo_from(file@, 0) == Some(i as int) && i + 2 <= file@.len(),
            None => tempo_from(file@, 0) is None,
        },
{
    let len = file.len();
    let mut i: usize = 0;
    while len - i >= 2
        invariant
            len == file@.len(),
            i <= len,
            tempo_from(file@, 0) == tempo_from(file@, i as int),
        decreases len - i,
    {
        if file[i] == 0xff && file[i + 1] == 0x51 {
            return Some(i);
        }
        i = i + 1;
    }
    None
}

fn has_magic(file: &[u8]) -> (ok: bool)
    ensures
        ok == has_seq_header(file@),
{
    file.len() >= 15 && file[0] == MAGIC[0] && file[1] == MAGIC[1] && file[2] == MAGIC[2]
        && file[3] == MAGIC[3]
}

/// Works out which parts of the file go where, or finds that they cannot be
/// cut out.
pub fn layout(file: &[u8], args: &Args) -> (res: Option<Layout>)
    requires
        has_seq_header(file@),
    ensures
        res is Some == repeatable(file@, *args),
        match res {
            Some(l) => {
                &&& match l.loop_start {
                    Some(i) => start_marker(file@, *args) == Some(i as int) && i + 3 <= file@.len(),
                    None => start_marker(file@, *args) is None,
                }
                &&& match l.loop_end {
                    Some(i) => end_marker(file@, *args) == Some(i as int) && i + 3 <= file@.len(),
                    None => end_marker(file@, *args) is None,
                }
                &&& l.beginning == beginning_of(file@, *args)
                &&& l.from == copy_from(file@, *args)
                &&& l.to == copy_to(file@, *args)
                &&& 5 <= l.beginning <= l.from <= l.to <= file@.len()
            },
            None => true,
        },
{
    let len = file.len();
    let (loop_start, loop_end) = if args.loop_marker {
        find_loops(file)
    } else {
        (None, None)
    };
    proof {
        lemma_marker_inside(file@, 0x14, len as int);
        lemma_marker_inside(file@, 0x1e, len as int);
        lemma_terminator_is_first(file@, 0);
    }
    if args.count < 1 {
        return None;
    }
    let beginning: usize = if args.tempo_marker {
        match find_tempo(file) {
            Some(i) => {
                if len - i < 5 {
                    return None;
                }
                i + 5
            },
            None => 15,
        }
    } else {
        15
    };
    if beginning > len {
        return None;
    }
    let from: usize = match loop_start {
        Some(start) => {
            if len - start < 6 {
                return None;
            }
            start + 6
        },
        None => beginning,
    };
    let to: usize = match (loop_start, loop_end) {
        (Some(_), Some(end)) => end + 3,
        (Some(_), None) => len,
        _ => match find_terminator(file) {
            Some(k) => k + 3,
            None => {
                return None;
            },
        },
    };
    if beginning > from || from > to || to > len {
        return None;
    }
    Some(Layout { loop_start, loop_end, beginning, from, to })
}

proof fn lemma_marker_inside(s: Seq<u8>, value: u8, end: int)
    ensures
        match last_marker(s, value, end) {
            Some(i) => loop_marker_at(s, i, value) && i < end,
            None => true,
        },
    decreases end,
{
    if end > 0 && !loop_marker_at(s, end - 1, value) {
        lemma_marker_inside(s, value, end - 1);
    }
}

/// Tells whether [`repeat_file`] can cut the file as the options ask.
pub fn can_repeat(file: &[u8], args: &Args) -> (ok: bool)
    ensures
        ok == repeatable(file@, *args),
{
    if !has_magic(file) {
        return true;
    }
    layout(file, args).is_some()
}

impl Header {
    /// Reads the header.  When fewer than fifteen bytes are left, nothing
    /// is returned and the reader is exhausted.
    pub fn load(bytes: &mut ByteReader) -> (res: Option<Self>)
        ensures
            final(bytes).source() == old(bytes).source(),
            match res {
                Some(header) => {
                    &&& old(bytes).position() + 15 <= old(bytes).source().len()
                    &&& is_header_at(header, old(bytes).source(), old(bytes).position() as int)
                    &&& final(bytes).position() == old(bytes).position() + 15
                },
                None => {
                    &&& old(bytes).position() + 15 > old(bytes).source().len()
                    &&& final(bytes).position() == old(bytes).source().len()
                },
            },
    {
        match bytes.take(15) {
            None => None,
            Some(chunk) => {
                let header = Header {
                    magic: [chunk[0], chunk[1], chunk[2], chunk[3]],
                    _version: read_le32(chunk, 4),
                    _ppqn: read_le16(chunk, 8),
                    tempo: [chunk[10], chunk[11], chunk[12]],
                    _time_signature: read_le16(chunk, 13),
                };
                proof {
                    let s = old(bytes).source();
                    let at = old(bytes).position() as int;
                    assert(header.magic@ =~= s.subrange(at, at + 4));
                    assert(header.tempo@ =~= s.subrange(at + 10, at + 13));
                }
                Some(header)
            },
        }
    }

    /// The bytes that replace the end of a pass that is not the last.
    pub fn dummy_string(&self, file: &[u8], loop_marker: bool, loop_start: Option<usize>) -> (out:
        Vec<u8>)
        requires
            match loop_start {
                Some(start) => start < file@.len(),
                None => true,
            },
        ensures
            out@ == match loop_start {
                Some(start) => seq![file@[start as int], 0x63u8, 0x1eu8],
                None => if loop_marker {
                    seq![0xb0u8, 0x63u8, 0x1eu8]
                } else {
                    seq![0xffu8, 0x51u8, self.tempo@[0], self.tempo@[1], self.tempo@[2]]
                },
            },
    {
        let mut out: Vec<u8> = Vec::new();
        match loop_start {
            Some(start) => {
                out.push(file[start]);
                out.push(0x63);
                out.push(0x1e);
                assert(out@ =~= seq![file@[start as int], 0x63u8, 0x1eu8]);
            },
            None => {
                if loop_marker {
                    out.push(0xb0);
                    out.push(0x63);
                    out.push(0x1e);
                    assert(out@ =~= seq![0xb0u8, 0x63u8, 0x1eu8]);
                } else {
                    out.push(0xff);
                    out.push(0x51);
                    out.push(self.tempo[0]);
                    out.push(self.tempo[1]);
                    out.push(self.tempo[2]);
                    assert(out@ =~= seq![
                        0xffu8,
                        0x51u8,
                        self.tempo@[0],
                        self.tempo@[1],
                        self.tempo@[2],
                    ]);
                }
            },
        }
        out
    }
}

/// Writes the file out with its looped part repeated.  The beginning is
/// copied once; the repeated part follows `count` times, and behind each
/// pass but the last the three bytes at the end of the output give way to
/// the dummy bytes; what lies behind the loop-end marker closes the output.
/// A file without a whole SEQ header gives nothing.
pub fn repeat_file(file: &[u8], args: &Args) -> (res: Option<Vec<u8>>)
    requires
        repeatable(file@, *args),
    ensures
        match res {
            Some(output) => has_seq_header(file@) && output@ == repeated(file@, *args),
            None => !has_seq_header(file@),
        },
{
    let ghost s = file@;
    let len = file.len();
    let mut bytes = ByteReader::new(file);
    let header = match Header::load(&mut bytes) {
        Some(header) => header,
        None => {
            return None;
        },
    };
    if !has_magic(file) {
        return None;
    }
    proof {
        assert(header.tempo@ == s.subrange(10, 13));
        assert(s.subrange(10, 13)[0] == s[10]);
        assert(s.subrange(10, 13)[1] == s[11]);
        assert(s.subrange(10, 13)[2] == s[12]);
    }
    let plan = layout(file, args).unwrap();
    let dummy = header.dummy_string(file, args.loop_marker, plan.loop_start);
    assert(dummy@ == dummy_of(s, *args));
    let ghost copy = s.subrange(plan.from as int, plan.to as int);
    let mut output: Vec<u8> = Vec::new();
    push_range(&mut output, file, 0, plan.beginning);
    if plan.loop_start.is_some() {
        push_range(&mut output, file, plan.beginning, plan.from);
    }
    assert(output@ =~= s.subrange(0, plan.from as int));
    let ghost whole = passes(output@, copy, dummy@, args.count as nat);
    let mut i: usize = 0;
    while i < args.count
        invariant
            i <= args.count,
            file@ == s,
            plan.from <= plan.to <= s.len(),
            copy == s.subrange(plan.from as int, plan.to as int),
            whole == passes(output@, copy, dummy@, (args.count - i) as nat),
            output@.len() >= plan.from,
            plan.from >= 5,
            dummy@.len() >= 3,
        decreases args.count - i,
    {
        push_range(&mut output, file, plan.from, plan.to);
        if i < args.count - 1 {
            let keep = output.len() - 3;
            output.truncate(keep);
            let mut k: usize = 0;
            let ghost cut = output@;
            while k < dummy.len()
                invariant
                    k <= dummy@.len(),
                    output@ == cut + dummy@.subrange(0, k as int),
                decreases dummy@.len() - k,
            {
                output.push(dummy[k]);
                k = k + 1;
                assert(output@ =~= cut + dummy@.subrange(0, k as int));
            }
            assert(dummy@.subrange(0, k as int) =~= dummy@);
        }
        i = i + 1;
    }
    match plan.loop_end {
        Some(end) => {
            push_range(&mut output, file, end + 3, len);
            assert(s.subrange(end + 3, s.len() as int) =~= s.skip(end + 3));
        },
        None => {
            assert(output@ + Seq::<u8>::empty() =~= output@);
        },
    }
    Some(output)
}

} // verus!
