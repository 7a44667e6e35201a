//! The decoded image and the decoder that builds it from bytes.
use vstd::prelude::*;
use vstd::slice::slice_subrange;
use crate::format::{
    IterState, FormatError, Progress, Picture, NEWLINE, SPACE, HASH, rgba, lines_from, lines,
    feed_sample, feed_tokens, step, run_lines, start, finish, decode,
};
use crate::text::{find_byte, lemma_next_sep_bounds, parse_unsigned};

verus! {

/// The RGBA quads of a pixel buffer, each as a sequence of four bytes.
pub open spec fn quads(v: Seq<[u8; 4]>) -> Seq<Seq<u8>> {
    v.map_values(|q: [u8; 4]| q@)
}

/// A decoded `P3` image: header values and RGBA pixels in row-major order.
#[derive(Debug)]
pub struct Image {
    file: String,
    max: u32,
    width: u32,
    height: u32,
    buffer: Vec<[u8; 4]>,
}

impl Image {
    /// The header values and pixels of the image.
    pub closed spec fn picture(&self) -> Picture {
        Picture {
            width: self.width,
            height: self.height,
            max: self.max,
            pixels: quads(self.buffer@),
        }
    }

    /// The name of the source the image was read from.
    pub closed spec fn file_name(&self) -> Seq<char> {
        self.file@
    }

    pub fn file(&self) -> (r: &String)
        ensures
            r@ == self.file_name(),
    {
        &self.file
    }

    pub fn max(&self) -> (r: u32)
        ensures
            r == self.picture().max,
    {
        self.max
    }

    pub fn width(&self) -> (r: u32)
        ensures
            r == self.picture().width,
    {
        self.width
    }

    pub fn height(&self) -> (r: u32)
        ensures
            r == self.picture().height,
    {
        self.height
    }

    pub fn buffer(&self) -> (r: &Vec<[u8; 4]>)
        ensures
            quads(r@) == self.picture().pixels,
    {
        &self.buffer
    }

    /// Appends one opaque pixel.
    pub fn push_pixel(&mut self, r: u8, g: u8, b: u8)
        ensures
            final(self).picture() == (Picture {
                pixels: old(self).picture().pixels.push(rgba(r, g, b)),
                ..old(self).picture()
            }),
            final(self).file_name() == old(self).file_name(),
    {
        let pix: [u8; 4] = [r, g, b, 255];
        self.buffer.push(pix);
        assert(pix@ =~= rgba(r, g, b));
        assert(quads(self.buffer@) =~= quads(old(self).buffer@).push(rgba(r, g, b)));
    }

    /// Copies the pixels, in order, into `frame`, four bytes per pixel.
    pub fn draw(&self, frame: &mut [u8])
        requires
            old(frame)@.len() == 4 * self.picture().pixels.len(),
        ensures
            final(frame)@.len() == old(frame)@.len(),
            forall|p: int, c: int|
                0 <= p < self.picture().pixels.len() && 0 <= c < 4 ==> #[trigger] final(frame)@[4 * p
                    + c] == self.picture().pixels[p][c],
    {
        let n = self.buffer.len();
        let len = frame.len();
        let mut i: usize = 0;
        while i < n
            invariant
                n == self.buffer@.len(),
                i <= n,
                len == frame@.len(),
                frame@.len() == 4 * n,
                forall|p: int, c: int|
                    0 <= p < i && 0 <= c < 4 ==> #[trigger] frame@[4 * p + c]
                        == self.buffer@[p]@[c],
            decreases n - i,
        {
            let pix: [u8; 4] = self.buffer[i];
            let mut c: usize = 0;
            while c < 4
                invariant
                    i < n,
                    n == self.buffer@.len(),
                    pix == self.buffer@[i as int],
                    c <= 4,
                    len == frame@.len(),
                    frame@.len() == 4 * n,
                    forall|p: int, d: int|
                        0 <= p < i && 0 <= d < 4 ==> #[trigger] frame@[4 * p + d]
                            == self.buffer@[p]@[d],
                    forall|d: int| 0 <= d < c ==> #[trigger] frame@[4 * i + d] == pix@[d],
                decreases 4 - c,
            {
                frame[4 * i + c] = pix[c];
                c = c + 1;
            }
            i = i + 1;
        }
    }
}

/// A decode in progress: the stage reached, the image built so far, and the
/// samples of a pixel not yet complete.
struct Decoder {
    stage: IterState,
    img: Image,
    pending: Vec<u8>,
}

impl Decoder {
    spec fn progress(&self) -> Progress {
        Progress {
            stage: self.stage,
            width: self.img.width,
            height: self.img.height,
            max: self.img.max,
            pixels: quads(self.img.buffer@),
            pending: self.pending@,
        }
    }

    spec fn wf(&self) -> bool {
        self.pending@.len() < 3
    }

    fn feed(&mut self, v: u8)
        requires
            old(self).wf(),
        ensures
            final(self).wf(),
            final(self).progress() == feed_sample(old(self).progress(), v),
            final(self).img.file_name() == old(self).img.file_name(),
    {
        if self.pending.len() >= 2 {
            let r = self.pending[0];
            let g = self.pending[1];
            self.img.push_pixel(r, g, v);
            self.pending = Vec::new();
            assert(self.pending@ =~= Seq::<u8>::empty());
        } else {
            self.pending.push(v);
        }
    }

    /// Feeds the samples of one data line.
    fn take_samples(&mut self, line: &[u8]) -> (r: Result<(), FormatError>)
        requires
            old(self).wf(),
        ensures
            final(self).wf(),
            final(self).img.file_name() == old(self).img.file_name(),
            match r {
                Ok(()) => feed_tokens(old(self).progress(), line@, 0) == Ok::<Progress, FormatError>(final(self).progress()),
                Err(e) => feed_tokens(old(self).progress(), line@, 0) == Err::<Progress, FormatError>(e),
            },
    {
        let mut pos: usize = 0;
        loop
            invariant
                self.wf(),
                pos <= line@.len(),
                self.img.file_name() == old(self).img.file_name(),
                feed_tokens(self.progress(), line@, pos as nat) == feed_tokens(old(self).progress(), line@, 0),
            decreases line@.len() - pos,
        {
            let e = find_byte(line, SPACE, pos);
            proof {
                lemma_next_sep_bounds(line@, SPACE, pos as int);
            }
            match parse_unsigned(line, pos, e, 255) {
                None => {
                    return Err(FormatError::InvalidSampleValue);
                },
                Some(v) => {
                    self.feed(v as u8);
                    if e >= line.len() {
                        return Ok(());
                    }
                    pos = e + 1;
                },
            }
        }
    }

    /// Takes one logical line.
    fn take_line(&mut self, line: &[u8]) -> (r: Result<(), FormatError>)
        requires
            old(self).wf(),
        ensures
            final(self).wf(),
            final(self).img.file_name() == old(self).img.file_name(),
            match r {
                Ok(()) => step(old(self).progress(), line@) == Ok::<Progress, FormatError>(final(self).progress()),
                Err(e) => step(old(self).progress(), line@) == Err::<Progress, FormatError>(e),
            },
    {
        if line.len() == 0 {
            return Err(FormatError::MalformedLine);
        }
        if line[0] == HASH {
            return Ok(());
        }
        match self.stage {
            IterState::Magic => {
                if line.len() == 2 && line[0] == 80 && line[1] == 51 {
                    self.stage = self.stage.next();
                    Ok(())
                } else {
                    Err(FormatError::InvalidMagic)
                }
            },
            IterState::Size => {
                let k = find_byte(line, SPACE, 0);
                proof {
                    lemma_next_sep_bounds(line@, SPACE, 0);
                }
                if k >= line.len() {
                    return Err(FormatError::InvalidDimension);
                }
                let w = parse_unsigned(line, 0, k, u32::MAX);
                let h = parse_unsigned(line, k + 1, line.len(), u32::MAX);
                match (w, h) {
                    (Some(w), Some(h)) => {
                        self.img.width = w;
                        self.img.height = h;
                        self.stage = self.stage.next();
                            Ok(())
                    },
                    _ => Err(FormatError::InvalidDimension),
                }
            },
            IterState::Max => {
                assert(line@.subrange(0, line@.len() as int) =~= line@);
                match parse_unsigned(line, 0, line.len(), u32::MAX) {
                    Some(m) => {
                        self.img.max = m;
                        self.stage = self.stage.next();
                            Ok(())
                    },
                    None => Err(FormatError::InvalidMaxValue),
                }
            },
            IterState::Data => self.take_samples(line),
        }
    }

    /// Ends the decode once input runs out.
    fn finish(self) -> (r: Result<Image, FormatError>)
        requires
            self.wf(),
        ensures
            match r {
                Ok(img) => finish(self.progress()) == Ok::<Picture, FormatError>(img.picture())
                    && img.file_name() == self.img.file_name(),
                Err(e) => finish(self.progress()) == Err::<Picture, FormatError>(e),
            },
    {
        let Decoder { stage, img, pending } = self;
        let mut img = img;
        match stage {
            IterState::Magic => Err(FormatError::InvalidMagic),
            IterState::Size => Err(FormatError::InvalidDimension),
            IterState::Max => Err(FormatError::InvalidMaxValue),
            IterState::Data => {
                if pending.len() == 1 {
                    img.push_pixel(pending[0], 0, 0);
                } else if pending.len() == 2 {
                    img.push_pixel(pending[0], pending[1], 0);
                }
                let w = img.width as u64;
                let h = img.height as u64;
                proof {
                    assert(w * h <= 0xffff_ffffu64 * 0xffff_ffffu64) by (nonlinear_arith)
                        requires
                            w <= 0xffff_ffffu64,
                            h <= 0xffff_ffffu64,
                    ;
                }
                if img.buffer.len() as u64 == w * h {
                    Ok(img)
                } else {
                    Err(FormatError::PixelCountMismatch)
                }
            },
        }
    }
}

impl Image {
    /// Decodes the bytes of a `P3` file; `file` names the source.
    pub fn from_buffer(buffer: Vec<u8>, file: String) -> (r: Result<Image, FormatError>)
        ensures
            match r {
                Ok(img) => decode(buffer@) == Ok::<Picture, FormatError>(img.picture())
                    && img.file_name() == file@
                    && img.picture().pixels.len() == img.picture().width * img.picture().height,
                Err(e) => decode(buffer@) == Err::<Picture, FormatError>(e),
            },
    {
        let ghost name = file@;
        let b = buffer.as_slice();
        let mut dec = Decoder {
            stage: IterState::Magic,
            img: Image { file, max: 0, width: 0, height: 0, buffer: Vec::new() },
            pending: Vec::new(),
        };
        assert(dec.progress().pixels =~= Seq::<Seq<u8>>::empty());
        assert(dec.progress().pending =~= Seq::<u8>::empty());
        assert(dec.progress() == start());
        let mut pos: usize = 0;
        while pos < b.len()
            invariant
                dec.wf(),
                pos <= b@.len(),
                b@ == buffer@,
                dec.img.file@ == name,
                run_lines(lines_from(b@, pos as nat), dec.progress()) == run_lines(lines(b@), start()),
            decreases b@.len() - pos,
        {
            let e = find_byte(b, NEWLINE, pos);
            proof {
                lemma_next_sep_bounds(b@, NEWLINE, pos as int);
            }
            let line = slice_subrange(b, pos, e);
            let ghost rest = lines_from(b@, (e + 1) as nat);
            proof {
                if e < b@.len() {
                    assert((seq![line@] + rest).drop_first() =~= rest);
                    assert((seq![line@] + rest)[0] == line@);
                } else {
                    assert(seq![line@].drop_first() =~= Seq::<Seq<u8>>::empty());
                }
            }
            match dec.take_line(line) {
                Err(err) => {
                    return Err(err);
                },
                Ok(()) => {},
            }
            if e >= b.len() {
                pos = b.len();
            } else {
                pos = e + 1;
            }
        }
        dec.finish()
    }
}

} // verus!
