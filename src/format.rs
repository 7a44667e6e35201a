//! The meaning of a `P3` file: how its lines split, how each line moves the
//! decoder from one stage to the next, and what a finished decode holds.
use vstd::prelude::*;
use crate::text::{next_sep, lemma_next_sep_bounds, parses_within, unsigned_value};

verus! {

/// Stage of the header/data state machine.
#[derive(Clone, Copy, Debug, PartialEq, Eq, Structural)]
pub enum IterState {
    Magic,
    Size,
    Max,
    Data,
}

/// Why a buffer is not a well-formed `P3` image.
#[derive(Clone, Copy, Debug, PartialEq, Eq, Structural)]
pub enum FormatError {
    /// The first line is not exactly `P3`, or there is no such line.
    InvalidMagic,
    /// The size line is not two unsigned decimals split by a space, or is missing.
    InvalidDimension,
    /// The max-value line is not one unsigned decimal, or is missing.
    InvalidMaxValue,
    /// A sample is not an unsigned decimal in `0..=255`.
    InvalidSampleValue,
    /// A line is empty.
    MalformedLine,
    /// The samples do not make exactly `width * height` pixels.
    PixelCountMismatch,
}

impl IterState {
    pub open spec fn spec_next(self) -> IterState {
        match self {
            IterState::Magic => IterState::Size,
            IterState::Size => IterState::Max,
            IterState::Max => IterState::Data,
            IterState::Data => IterState::Data,
        }
    }

    /// The stage that follows this one; `Data` is the last stage and is kept.
    pub fn next(&self) -> (r: Self)
        ensures
            r == self.spec_next(),
    {
        match self {
            IterState::Magic => IterState::Size,
            IterState::Size => IterState::Max,
            IterState::Max => IterState::Data,
            IterState::Data => IterState::Data,
        }
    }
}

pub const NEWLINE: u8 = 10;

pub const SPACE: u8 = 32;

pub const HASH: u8 = 35;

/// The logical lines of `b` from `pos` on: split on newlines, the newline
/// consumed; a final line without a newline is still a line.
pub open spec fn lines_from(b: Seq<u8>, pos: nat) -> Seq<Seq<u8>>
    decreases b.len() - pos,
{
    if pos >= b.len() {
        seq![]
    } else {
        let e = next_sep(b, NEWLINE, pos as int);
        proof {
            lemma_next_sep_bounds(b, NEWLINE, pos as int);
        }
        if e < b.len() {
            seq![b.subrange(pos as int, e)] + lines_from(b, (e + 1) as nat)
        } else {
            seq![b.subrange(pos as int, e)]
        }
    }
}

/// The bytes of a file whose lines are `ls`, each ended by a newline.
pub open spec fn join_lines(ls: Seq<Seq<u8>>) -> Seq<u8>
    decreases ls.len(),
{
    if ls.len() == 0 {
        seq![]
    } else {
        ls[0] + seq![NEWLINE] + join_lines(ls.drop_first())
    }
}

pub open spec fn lines(b: Seq<u8>) -> Seq<Seq<u8>> {
    lines_from(b, 0)
}

/// A comment line starts with `#`.
pub open spec fn is_comment(line: Seq<u8>) -> bool {
    line.len() > 0 && line[0] == HASH
}

pub open spec fn is_magic(line: Seq<u8>) -> bool {
    line.len() == 2 && line[0] == 80 && line[1] == 51
}

/// One opaque pixel.
pub open spec fn rgba(r: u8, g: u8, b: u8) -> Seq<u8> {
    seq![r, g, b, 255u8]
}

/// Where a decode stands between two lines.
pub struct Progress {
    pub stage: IterState,
    pub width: u32,
    pub height: u32,
    pub max: u32,
    pub pixels: Seq<Seq<u8>>,
    /// Samples of a pixel that is not complete yet (fewer than three).
    pub pending: Seq<u8>,
}

/// A decoded image: its header values and its RGBA pixels in row-major order.
pub struct Picture {
    pub width: u32,
    pub height: u32,
    pub max: u32,
    pub pixels: Seq<Seq<u8>>,
}

pub open spec fn start() -> Progress {
    Progress {
        stage: IterState::Magic,
        width: 0,
        height: 0,
        max: 0,
        pixels: seq![],
        pending: seq![],
    }
}

/// Adds one sample to the stream; every third one completes a pixel.
pub open spec fn feed_sample(p: Progress, v: u8) -> Progress {
    if p.pending.len() >= 2 {
        Progress { pixels: p.pixels.push(rgba(p.pending[0], p.pending[1], v)), pending: seq![], ..p }
    } else {
        Progress { pending: p.pending.push(v), ..p }
    }
}

/// Feeds the space-separated samples of `line` from `pos` on.
pub open spec fn feed_tokens(p: Progress, line: Seq<u8>, pos: nat) -> Result<Progress, FormatError>
    decreases line.len() - pos,
{
    if pos > line.len() {
        Ok(p)
    } else {
        let e = next_sep(line, SPACE, pos as int);
        let tok = line.subrange(pos as int, e);
        proof {
            lemma_next_sep_bounds(line, SPACE, pos as int);
        }
        if !parses_within(tok, 255) {
            Err(FormatError::InvalidSampleValue)
        } else {
            let q = feed_sample(p, unsigned_value(tok) as u8);
            if e < line.len() {
                feed_tokens(q, line, (e + 1) as nat)
            } else {
                Ok(q)
            }
        }
    }
}

/// What one logical line does to the decode.
pub open spec fn step(p: Progress, line: Seq<u8>) -> Result<Progress, FormatError> {
    if line.len() == 0 {
        Err(FormatError::MalformedLine)
    } else if is_comment(line) {
        Ok(p)
    } else {
        match p.stage {
            IterState::Magic => if is_magic(line) {
                Ok(Progress { stage: IterState::Size, ..p })
            } else {
                Err(FormatError::InvalidMagic)
            },
            IterState::Size => {
                let k = next_sep(line, SPACE, 0);
                let w = line.subrange(0, k);
                let h = line.subrange(k + 1, line.len() as int);
                if k < line.len() && parses_within(w, u32::MAX as nat) && parses_within(
                    h,
                    u32::MAX as nat,
                ) {
                    Ok(
                        Progress {
                            stage: IterState::Max,
                            width: unsigned_value(w) as u32,
                            height: unsigned_value(h) as u32,
                            ..p
                        },
                    )
                } else {
                    Err(FormatError::InvalidDimension)
                }
            },
            IterState::Max => if parses_within(line, u32::MAX as nat) {
                Ok(Progress { stage: IterState::Data, max: unsigned_value(line) as u32, ..p })
            } else {
                Err(FormatError::InvalidMaxValue)
            },
            IterState::Data => feed_tokens(p, line, 0),
        }
    }
}

/// Runs the lines through the state machine, stopping at the first error.
pub open spec fn run_lines(ls: Seq<Seq<u8>>, p: Progress) -> Result<Progress, FormatError>
    decreases ls.len(),
{
    if ls.len() == 0 {
        Ok(p)
    } else {
        match step(p, ls[0]) {
            Ok(q) => run_lines(ls.drop_first(), q),
            Err(e) => Err(e),
        }
    }
}

/// The pixels once input ends: a pixel left incomplete is kept, its missing
/// channels 0.
pub open spec fn flushed(p: Progress) -> Seq<Seq<u8>> {
    if p.pending.len() == 0 {
        p.pixels
    } else if p.pending.len() == 1 {
        p.pixels.push(rgba(p.pending[0], 0, 0))
    } else {
        p.pixels.push(rgba(p.pending[0], p.pending[1], 0))
    }
}

/// Ends the decode once input runs out.
pub open spec fn finish(p: Progress) -> Result<Picture, FormatError> {
    match p.stage {
        IterState::Magic => Err(FormatError::InvalidMagic),
        IterState::Size => Err(FormatError::InvalidDimension),
        IterState::Max => Err(FormatError::InvalidMaxValue),
        IterState::Data => if flushed(p).len() == p.width * p.height {
            Ok(Picture { width: p.width, height: p.height, max: p.max, pixels: flushed(p) })
        } else {
            Err(FormatError::PixelCountMismatch)
        },
    }
}

pub open spec fn decode_lines(ls: Seq<Seq<u8>>) -> Result<Picture, FormatError> {
    match run_lines(ls, start()) {
        Ok(p) => finish(p),
        Err(e) => Err(e),
    }
}

/// The result of decoding the bytes `b`.
pub open spec fn decode(b: Seq<u8>) -> Result<Picture, FormatError> {
    decode_lines(lines(b))
}

} // verus!
