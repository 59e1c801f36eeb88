use vstd::prelude::*;

verus! {

/// Default output width of a frame scaler (720p).
pub const DEFAULT_WIDTH: u32 = 1280;

/// Default output height of a frame scaler (720p).
pub const DEFAULT_HEIGHT: u32 = 720;

/// Bytes per RGBA pixel.
pub const BYTES_PER_PIXEL: usize = 4;

/// Pixel format code recorded before any input frame was seen.
pub const NO_PIXEL_FORMAT: i32 = -1;

/// Errors of the frame scaler's bookkeeping.
#[derive(Debug, PartialEq, Eq, Structural)]
pub enum VideoError {
    /// `width * height * BYTES_PER_PIXEL` does not fit in a `usize`.
    FrameSizeOverflow { width: u32, height: u32 },
}

/// Geometry of an input frame: width, height and pixel format code.
#[derive(Debug, Clone, Copy, PartialEq, Eq, Structural)]
pub struct InputGeometry {
    pub width: u32,
    pub height: u32,
    pub format: i32,
}

/// The input geometry recorded before any input frame was seen.
pub open spec fn initial_input() -> InputGeometry {
    InputGeometry { width: 0, height: 0, format: NO_PIXEL_FORMAT }
}

/// Size in bytes of an RGBA frame, as an integer.
pub open spec fn frame_bytes(width: u32, height: u32) -> int {
    width as int * height as int * BYTES_PER_PIXEL as int
}

/// Whether a plane of `height` rows of `row_bytes` bytes, rows `linesize` bytes apart,
/// lies within `len` bytes.
pub open spec fn plane_within(len: int, linesize: int, row_bytes: int, height: int) -> bool {
    height == 0 || (height - 1) * linesize + row_bytes <= len
}

/// The state a frame scaler keeps besides its codec objects: the output size, the RGBA
/// output buffer, and the geometry of the last input frame.
pub struct FrameScaler {
    output_width: u32,
    output_height: u32,
    output_buffer: Vec<u8>,
    last_input: InputGeometry,
}

impl FrameScaler {
    pub closed spec fn out_width(&self) -> u32 {
        self.output_width
    }

    pub closed spec fn out_height(&self) -> u32 {
        self.output_height
    }

    /// The RGBA output buffer.
    pub closed spec fn buffer(&self) -> Seq<u8> {
        self.output_buffer@
    }

    /// Geometry of the last input frame a scaling context was made for.
    pub closed spec fn last_input(&self) -> InputGeometry {
        self.last_input
    }

    /// The output buffer holds exactly one RGBA frame of the output size.
    #[verifier::type_invariant]
    pub closed spec fn wf(&self) -> bool {
        &&& frame_bytes(self.output_width, self.output_height) <= usize::MAX
        &&& self.output_buffer@.len() == frame_bytes(self.output_width, self.output_height)
    }

    /// Creates a scaler with the default 720p output size.
    pub fn new() -> (r: Result<Self, VideoError>)
        ensures
            (r matches Ok(s) && s.out_width() == DEFAULT_WIDTH && s.out_height()
                == DEFAULT_HEIGHT && s.buffer() == Seq::new(
                frame_bytes(DEFAULT_WIDTH, DEFAULT_HEIGHT) as nat,
                |i: int| 0u8,
            ) && s.last_input() == initial_input()),
    {
        Self::with_size(DEFAULT_WIDTH, DEFAULT_HEIGHT)
    }

    /// Creates a scaler with a custom output size and a zeroed output buffer. Fails when
    /// the frame size in bytes overflows a `usize`.
    pub fn with_size(width: u32, height: u32) -> (r: Result<Self, VideoError>)
        ensures
            frame_bytes(width, height) <= usize::MAX <==> r is Ok,
            (r matches Ok(s) ==> {
                &&& s.out_width() == width
                &&& s.out_height() == height
                &&& s.buffer() == Seq::new(frame_bytes(width, height) as nat, |i: int| 0u8)
                &&& s.last_input() == initial_input()
            }),
            (r matches Err(e) ==> e == (VideoError::FrameSizeOverflow { width, height })),
    {
        let pixels = (width as usize).checked_mul(height as usize);
        let size = match pixels {
            Some(p) => p.checked_mul(BYTES_PER_PIXEL),
            None => None,
        };
        match size {
            None => {
                proof {
                    if pixels is Some {
                        assert(frame_bytes(width, height) == pixels->0 * 4);
                    } else {
                        assert(width as int * height as int > usize::MAX);
                        assert(width as int * height as int <= frame_bytes(width, height))
                            by (nonlinear_arith);
                    }
                }
                Err(VideoError::FrameSizeOverflow { width, height })
            },
            Some(buffer_size) => {
                let output_buffer = vec![0u8; buffer_size];
                proof {
                    assert(output_buffer@ =~= Seq::new(
                        frame_bytes(width, height) as nat,
                        |i: int| 0u8,
                    ));
                }
                Ok(
                    FrameScaler {
                        output_width: width,
                        output_height: height,
                        output_buffer,
                        last_input: InputGeometry { width: 0, height: 0, format: NO_PIXEL_FORMAT },
                    },
                )
            },
        }
    }

    /// The output width.
    pub fn width(&self) -> (w: u32)
        ensures
            w == self.out_width(),
    {
        self.output_width
    }

    /// The output height.
    pub fn height(&self) -> (h: u32)
        ensures
            h == self.out_height(),
    {
        self.output_height
    }

    /// The output buffer size in bytes: `width * height * BYTES_PER_PIXEL`.
    pub fn buffer_size(&self) -> (n: usize)
        ensures
            n == frame_bytes(self.out_width(), self.out_height()),
    {
        proof {
            use_type_invariant(self);
            assert(self.output_width as int * self.output_height as int <= frame_bytes(
                self.output_width,
                self.output_height,
            )) by (nonlinear_arith);
        }
        (self.output_width as usize) * (self.output_height as usize) * BYTES_PER_PIXEL
    }

    /// The RGBA output buffer.
    pub fn output(&self) -> (out: &Vec<u8>)
        ensures
            out@ == self.buffer(),
    {
        &self.output_buffer
    }

    /// Whether a new scaling context must be made before scaling an input frame: when
    /// there is none yet, or the input's size or pixel format differs from the last input.
    pub fn needs_new_context(&self, has_context: bool, input: InputGeometry) -> (r: bool)
        ensures
            r == (!has_context || input != self.last_input()),
    {
        let changed = self.last_input.width != input.width || self.last_input.height
            != input.height || self.last_input.format != input.format;
        !has_context || changed
    }

    /// Records the input geometry a new scaling context was made for.
    pub fn remember_input(&mut self, input: InputGeometry)
        ensures
            final(self).last_input() == input,
            final(self).out_width() == old(self).out_width(),
            final(self).out_height() == old(self).out_height(),
            final(self).buffer() == old(self).buffer(),
    {
        proof {
            use_type_invariant(&*self);
        }
        self.last_input = input;
    }

    /// Copies a scaled RGBA plane into the output buffer: row `y` of the output is the
    /// `width * BYTES_PER_PIXEL` bytes of `data` that start at `y * linesize` (rows may be
    /// padded in `data`).
    pub fn copy_plane(&mut self, data: &[u8], linesize: usize)
        requires
            old(self).out_width() * BYTES_PER_PIXEL <= usize::MAX,
            plane_within(
                data@.len() as int,
                linesize as int,
                old(self).out_width() * BYTES_PER_PIXEL,
                old(self).out_height() as int,
            ),
        ensures
            final(self).out_width() == old(self).out_width(),
            final(self).out_height() == old(self).out_height(),
            final(self).last_input() == old(self).last_input(),
            final(self).buffer().len() == old(self).buffer().len(),
            forall|y: int, x: int|
                0 <= y < final(self).out_height() && 0 <= x < final(self).out_width()
                    * BYTES_PER_PIXEL ==> #[trigger] final(self).buffer()[y * (
                final(self).out_width() * BYTES_PER_PIXEL) + x] == #[trigger] data@[y
                    * linesize + x],
    {
        proof {
            use_type_invariant(&*self);
        }
        let row_bytes = (self.output_width as usize) * BYTES_PER_PIXEL;
        let rows = self.output_height as usize;
        let data_len = data.len();
        let ghost rb = row_bytes as int;
        let ghost ls = linesize as int;
        proof {
            assert(frame_bytes(self.output_width, self.output_height) == rb * rows as int)
                by (nonlinear_arith)
                requires
                    rb == self.output_width as int * 4,
                    rows as int == self.output_height as int,
            ;
        }
        let mut y: usize = 0;
        while y < rows
            invariant
                self.wf(),
                row_bytes as int == rb,
                linesize as int == ls,
                rows as int == self.output_height as int,
                rb == self.output_width as int * BYTES_PER_PIXEL,
                self.output_buffer@.len() == rb * rows,
                plane_within(data@.len() as int, ls, rb, rows as int),
                data_len == data@.len(),
                y <= rows,
                self.last_input == old(self).last_input,
                self.output_width == old(self).output_width,
                self.output_height == old(self).output_height,
                forall|r: int, x: int|
                    0 <= r < y && 0 <= x < rb ==> #[trigger] self.output_buffer@[r * rb + x]
                        == #[trigger] data@[r * ls + x],
            decreases rows - y,
        {
            proof {
                assert(y as int * ls <= (rows as int - 1) * ls) by (nonlinear_arith)
                    requires
                        y < rows,
                        ls >= 0,
                ;
                assert((y as int + 1) * rb <= rows as int * rb) by (nonlinear_arith)
                    requires
                        y < rows,
                        rb >= 0,
                ;
                assert((y as int + 1) * rb == y as int * rb + rb) by (nonlinear_arith);
            }
            let src_start = y * linesize;
            let dst_start = y * row_bytes;
            let mut x: usize = 0;
            while x < row_bytes
                invariant
                    self.wf(),
                    row_bytes as int == rb,
                    linesize as int == ls,
                    rows as int == self.output_height as int,
                    rb == self.output_width as int * BYTES_PER_PIXEL,
                    self.output_buffer@.len() == rb * rows,
                    y < rows,
                    src_start == y * ls,
                    dst_start == y * rb,
                    src_start + rb <= data@.len(),
                    data_len == data@.len(),
                    dst_start + rb <= rb * rows,
                    x <= row_bytes,
                    self.last_input == old(self).last_input,
                    self.output_width == old(self).output_width,
                    self.output_height == old(self).output_height,
                    forall|r: int, c: int|
                        0 <= r < y && 0 <= c < rb ==> #[trigger] self.output_buffer@[r * rb + c]
                            == #[trigger] data@[r * ls + c],
                    forall|c: int|
                        0 <= c < x ==> #[trigger] self.output_buffer@[y * rb + c] == data@[y * ls
                            + c],
                decreases row_bytes - x,
            {
                let ghost before = self.output_buffer@;
                let byte = data[src_start + x];
                self.output_buffer[dst_start + x] = byte;
                proof {
                    assert forall|r: int, c: int| 0 <= r < y && 0 <= c < rb implies #[trigger] self.output_buffer@[r * rb + c] == #[trigger] data@[r * ls + c] by {
                        assert((r + 1) * rb <= y * rb) by (nonlinear_arith)
                            requires r < y, rb >= 0;
                        assert((r + 1) * rb == r * rb + rb) by (nonlinear_arith);
                        assert(before[r * rb + c] == data@[r * ls + c]);
                    }
                }
                x = x + 1;
            }
            y = y + 1;
            proof {
                assert forall|r: int, c: int| 0 <= r < y && 0 <= c < rb implies #[trigger] self.output_buffer@[r * rb + c] == #[trigger] data@[r * ls + c] by {
                    if r == y - 1 {
                        assert(self.output_buffer@[(y - 1) * rb + c] == data@[(y - 1) * ls + c]);
                    }
                }
            }
        }
    }
}

impl Default for FrameScaler {
    fn default() -> (s: Self)
        ensures
            s.out_width() == DEFAULT_WIDTH,
            s.out_height() == DEFAULT_HEIGHT,
            s.buffer() == Seq::new(frame_bytes(DEFAULT_WIDTH, DEFAULT_HEIGHT) as nat, |i: int| 0u8),
            s.last_input() == initial_input(),
    {
        match Self::new() {
            Ok(s) => s,
            Err(_) => vstd::pervasive::unreached(),
        }
    }
}

} // verus!
