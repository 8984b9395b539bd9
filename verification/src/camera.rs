use vstd::prelude::*;
use vstd::arithmetic::div_mod::{lemma_fundamental_div_mod, lemma_fundamental_div_mod_converse};
use vstd::arithmetic::mul::{lemma_mul_inequality, lemma_mul_is_commutative};

use crate::text::{
    all_digits, decimal, digits_value, lemma_decimal_reads_back, lemma_zero_padded_injective,
    lemma_zero_padded_reads_back, push_decimal, push_zero_padded, zero_padded,
};

verus! {

/// The name of the output file of one frame: the prefix, then, when the render has
/// more than one frame, an underscore and the frame number with at least four
/// digits, then a dot and the extension.
pub open spec fn frame_file_name_text(
    prefix: Seq<char>,
    extension: Seq<char>,
    num_frames: nat,
    frame: nat,
) -> Seq<char> {
    let suffix = if num_frames > 1 {
        seq!['_'] + zero_padded(frame, 4)
    } else {
        Seq::empty()
    };
    prefix + suffix + seq!['.'] + extension
}

/// The header of a plain-text PPM image: the magic number, the width and the
/// height, and the largest channel value, each on a line of its own.
pub open spec fn ppm_header_text(width: nat, height: nat) -> Seq<char> {
    seq!['P', '3', '\n'] + decimal(width) + seq![' '] + decimal(height) + seq!['\n', '2', '5', '5', '\n']
}

/// The column and the row of the pixel at a linear index, rows laid out one after
/// another from the top.
pub open spec fn pixel_position(linear_index: nat, image_width: nat) -> (nat, nat) {
    (linear_index % image_width, linear_index / image_width)
}

/// What a camera needs to know about its output apart from its geometry: the size
/// of the image, the sampling and recursion limits, and where the frames go.
pub struct RenderSettings {
    pub image_width: usize,
    pub samples_per_pixel: usize,
    pub max_depth: i32,
    pub filename_prefix: String,
    pub file_extension: String,
    pub output_dir: String,
    pub num_frames: usize,
    /// Set by `initialize`.
    pub image_height: usize,
    /// Whether `initialize` has run.
    pub initialized: bool,
}

impl RenderSettings {
    /// Fills in what the user left open: a render has at least
    /// one frame, the extension defaults to `ppm`, and the image is at least one
    /// pixel high (`estimated_height` is the width divided by the aspect ratio).
    pub fn initialize(&mut self, estimated_height: usize)
        requires
            old(self).image_width > 0,
            old(self).samples_per_pixel > 0,
            old(self).max_depth > 0,
            old(self).filename_prefix@.len() > 0,
            old(self).output_dir@.len() > 0,
        ensures
            final(self).num_frames == if old(self).num_frames == 0 {
                1
            } else {
                old(self).num_frames
            },
            final(self).file_extension@ == if old(self).file_extension@.len() == 0 {
                seq!['p', 'p', 'm']
            } else {
                old(self).file_extension@
            },
            final(self).image_height == if estimated_height == 0 {
                1
            } else {
                estimated_height
            },
            final(self).initialized,
            final(self).image_width == old(self).image_width,
            final(self).samples_per_pixel == old(self).samples_per_pixel,
            final(self).max_depth == old(self).max_depth,
            final(self).filename_prefix@ == old(self).filename_prefix@,
            final(self).output_dir@ == old(self).output_dir@,
    {
        if self.num_frames == 0 {
            self.num_frames = 1;
        }
        if self.file_extension.as_str().is_empty() {
            proof {
                reveal_strlit("ppm");
            }
            self.file_extension = String::from_str("ppm");
            assert(self.file_extension@ =~= seq!['p', 'p', 'm']);
        }
        self.image_height = if estimated_height == 0 {
            1
        } else {
            estimated_height
        };
        self.initialized = true;
    }

    /// The number of pixels in one frame.
    pub fn pixel_count(&self) -> (count: usize)
        requires
            self.image_height * self.image_width <= usize::MAX,
        ensures
            count == self.image_height * self.image_width,
    {
        self.image_height * self.image_width
    }

    /// The column and row of the pixel at `linear_index`.
    pub fn pixel_coords(&self, linear_index: usize) -> (coords: (usize, usize))
        requires
            self.image_width > 0,
        ensures
            (coords.0 as nat, coords.1 as nat) == pixel_position(
                linear_index as nat,
                self.image_width as nat,
            ),
    {
        (linear_index % self.image_width, linear_index / self.image_width)
    }

    /// The name of the output file of `frame`.
    pub fn frame_file_name(&self, frame: usize) -> (name: String)
        ensures
            name@ == frame_file_name_text(
                self.filename_prefix@,
                self.file_extension@,
                self.num_frames as nat,
                frame as nat,
            ),
    {
        let mut name = String::new();
        name.append(self.filename_prefix.as_str());
        if self.num_frames > 1 {
            proof {
                reveal_strlit("_");
            }
            name.append("_");
            push_zero_padded(&mut name, frame as u64, 4);
        }
        proof {
            reveal_strlit(".");
        }
        name.append(".");
        name.append(self.file_extension.as_str());
        assert(name@ =~= frame_file_name_text(
            self.filename_prefix@,
            self.file_extension@,
            self.num_frames as nat,
            frame as nat,
        ));
        name
    }

    /// The header that starts the output file of every frame.
    pub fn ppm_header(&self) -> (header: String)
        ensures
            header@ == ppm_header_text(self.image_width as nat, self.image_height as nat),
    {
        let mut header = String::new();
        proof {
            reveal_strlit("P3\n");
            reveal_strlit(" ");
            reveal_strlit("\n255\n");
        }
        header.append("P3\n");
        push_decimal(&mut header, self.image_width as u64);
        header.append(" ");
        push_decimal(&mut header, self.image_height as u64);
        header.append("\n255\n");
        assert(header@ =~= ppm_header_text(
            self.image_width as nat,
            self.image_height as nat,
        ));
        header
    }
}

impl Default for RenderSettings {
    fn default() -> (settings: Self)
        ensures
            settings.image_width == 0,
            settings.samples_per_pixel == 0,
            settings.max_depth == 0,
            settings.filename_prefix@ == Seq::<char>::empty(),
            settings.file_extension@ == Seq::<char>::empty(),
            settings.output_dir@ == Seq::<char>::empty(),
            settings.num_frames == 0,
            settings.image_height == 0,
            !settings.initialized,
    {
        RenderSettings {
            image_width: 0,
            samples_per_pixel: 0,
            max_depth: 0,
            filename_prefix: String::new(),
            file_extension: String::new(),
            output_dir: String::new(),
            num_frames: 0,
            image_height: 0,
            initialized: false,
        }
    }
}

/// When a render has more than one frame, distinct frames are written to files of
/// distinct names.
pub proof fn lemma_frame_file_names_distinct(
    prefix: Seq<char>,
    extension: Seq<char>,
    num_frames: nat,
    frame_a: nat,
    frame_b: nat,
)
    requires
        num_frames > 1,
        frame_a != frame_b,
    ensures
        frame_file_name_text(prefix, extension, num_frames, frame_a) != frame_file_name_text(
            prefix,
            extension,
            num_frames,
            frame_b,
        ),
{
    let name_a = frame_file_name_text(prefix, extension, num_frames, frame_a);
    let name_b = frame_file_name_text(prefix, extension, num_frames, frame_b);
    let pad_a = zero_padded(frame_a, 4);
    let pad_b = zero_padded(frame_b, 4);
    assert(name_a == prefix + (seq!['_'] + pad_a) + seq!['.'] + extension);
    assert(name_b == prefix + (seq!['_'] + pad_b) + seq!['.'] + extension);
    if name_a == name_b {
        assert(name_a.len() == prefix.len() + 1 + pad_a.len() + 1 + extension.len());
        assert(name_b.len() == prefix.len() + 1 + pad_b.len() + 1 + extension.len());
        let from: int = prefix.len() + 1int;
        assert(name_a.subrange(from, from + pad_a.len()) =~= pad_a);
        assert(name_b.subrange(from, from + pad_b.len()) =~= pad_b);
        lemma_zero_padded_injective(frame_a, frame_b, 4);
    }
}

/// Every linear index below `width * height` names a pixel of the image, and no
/// two indices name the same pixel.
pub proof fn lemma_pixel_position_bijective(width: nat, height: nat, a: nat, b: nat)
    requires
        width > 0,
        a < width * height,
        b < width * height,
    ensures
        pixel_position(a, width).0 < width,
        pixel_position(a, width).1 < height,
        pixel_position(a, width).1 * width + pixel_position(a, width).0 == a,
        pixel_position(a, width) == pixel_position(b, width) ==> a == b,
{
    lemma_fundamental_div_mod(a as int, width as int);
    lemma_fundamental_div_mod(b as int, width as int);
    lemma_mul_is_commutative(width as int, (a / width) as int);
    lemma_mul_is_commutative(width as int, (b / width) as int);
    lemma_mul_is_commutative(width as int, height as int);
    if a / width >= height {
        lemma_mul_inequality(height as int, (a / width) as int, width as int);
    }
}

/// Consecutive linear indices walk each row from left to right and then move to
/// the start of the next row, the order in which a PPM file lists its pixels.
pub proof fn lemma_pixel_position_scan_order(width: nat, index: nat)
    requires
        width > 0,
    ensures
        pixel_position(index + 1, width) == if index % width + 1 < width {
            (index % width + 1, index / width)
        } else {
            (0nat, index / width + 1)
        },
{
    lemma_fundamental_div_mod(index as int, width as int);
    lemma_mul_is_commutative(width as int, (index / width) as int);
    if index % width + 1 < width {
        lemma_fundamental_div_mod_converse(
            (index + 1) as int,
            width as int,
            (index / width) as int,
            (index % width + 1) as int,
        );
    } else {
        assert((index / width + 1) * width == (index / width) * width + width) by (nonlinear_arith);
        lemma_fundamental_div_mod_converse(
            (index + 1) as int,
            width as int,
            (index / width + 1) as int,
            0,
        );
    }
}


/// A PPM header starts with the line `P3`, then a line with two fields of digits
/// separated by a single space that read back as the width and then the height,
/// and ends with the line `255`.
pub proof fn lemma_ppm_header_fields(width: nat, height: nat)
    ensures
        ({
            let header = ppm_header_text(width, height);
            exists|i: int, j: int|
                #![trigger header[i], header[j]]
                3 < i && i + 1 < j && j + 4 < header.len() && header.subrange(0, 3) == seq![
                    'P',
                    '3',
                    '\n',
                ] && header[i] == ' ' && header[j] == '\n' && all_digits(header.subrange(3, i))
                    && all_digits(header.subrange(i + 1, j)) && digits_value(
                    header.subrange(3, i),
                ) == width && digits_value(header.subrange(i + 1, j)) == height
                    && header.subrange(j + 1, header.len() as int) == seq!['2', '5', '5', '\n']
        }),
{
    lemma_decimal_reads_back(width);
    lemma_decimal_reads_back(height);
    let header = ppm_header_text(width, height);
    let w = decimal(width);
    let h = decimal(height);
    let i: int = 3int + w.len();
    let j: int = i + 1 + h.len();
    assert(header.subrange(0, 3) =~= seq!['P', '3', '\n']);
    assert(header.subrange(3, i) =~= w);
    assert(header.subrange(i + 1, j) =~= h);
    assert(header.subrange(j + 1, header.len() as int) =~= seq!['2', '5', '5', '\n']);
    assert(header[i] == ' ');
    assert(header[j] == '\n');
}

/// The name of a frame's file starts with the prefix and ends with a dot and the
/// extension. With a single frame nothing stands between them; with more, an
/// underscore and at least four digits that read back as the frame number do.
pub proof fn lemma_frame_file_name_parts(
    prefix: Seq<char>,
    extension: Seq<char>,
    num_frames: nat,
    frame: nat,
)
    ensures
        ({
            let name = frame_file_name_text(prefix, extension, num_frames, frame);
            let start = prefix.len() as int;
            let dot = name.len() - extension.len() - 1;
            &&& start <= dot
            &&& name.subrange(0, start) == prefix
            &&& name[dot] == '.'
            &&& name.subrange(dot + 1, name.len() as int) == extension
            &&& num_frames <= 1 ==> dot == start
            &&& num_frames > 1 ==> {
                &&& dot >= start + 5
                &&& name[start] == '_'
                &&& all_digits(name.subrange(start + 1, dot))
                &&& digits_value(name.subrange(start + 1, dot)) == frame
            }
        }),
{
    let name = frame_file_name_text(prefix, extension, num_frames, frame);
    let pad = zero_padded(frame, 4);
    let start = prefix.len() as int;
    lemma_zero_padded_reads_back(frame, 4);
    if num_frames > 1 {
        assert(name == prefix + (seq!['_'] + pad) + seq!['.'] + extension);
        let dot = name.len() - extension.len() - 1;
        assert(dot == start + 1 + pad.len());
        assert(name.subrange(start + 1, dot) =~= pad);
        assert(name[start] == '_');
        assert(name[dot] == '.');
    } else {
        assert(name == prefix + Seq::<char>::empty() + seq!['.'] + extension);
        assert(name[start] == '.');
    }
    assert(name.subrange(0, start) =~= prefix);
    assert(name.subrange(name.len() - extension.len(), name.len() as int) =~= extension);
}

} // verus!
