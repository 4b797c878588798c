use vstd::prelude::*;

verus! {

/// The red, green and blue of a pixel, each from 0 to 255.
pub type Pixel = (u8, u8, u8);

/// A raster of pixels, row by row from the top.
#[derive(Debug)]
pub struct Image {
    hsize: usize,
    vsize: usize,
    pixels: Vec<Pixel>,
}

/// The decimal digits of `n`, as characters.
pub open spec fn digits(n: nat) -> Seq<u8>
    decreases n,
{
    if n < 10 {
        seq![(48 + n) as u8]
    } else {
        digits(n / 10).push((48 + n % 10) as u8)
    }
}

/// How many pixels stand on the line of text in front of pixel `i`, in rows of `hsize`.
pub open spec fn column(i: nat, hsize: nat) -> nat
    decreases i, 0nat,
{
    if i == 0 {
        0
    } else if starts_line((i - 1) as nat, hsize) {
        1
    } else {
        column((i - 1) as nat, hsize) + 1
    }
}

/// Whether pixel `i` starts a line of text: at the start of a row of the
/// image, and behind every fifth pixel on a line.
pub open spec fn starts_line(i: nat, hsize: nat) -> bool
    decreases i, 1nat,
{
    i % hsize == 0 || column(i, hsize) % 5 == 0
}

/// The text of one pixel.
pub open spec fn pixel_text(p: Pixel) -> Seq<u8> {
    digits(p.0 as nat) + seq![32u8] + digits(p.1 as nat) + seq![32u8] + digits(p.2 as nat)
}

/// The text of the first `i` pixels.
pub open spec fn body_text(pixels: Seq<Pixel>, hsize: nat, i: nat) -> Seq<u8>
    decreases i,
{
    if i == 0 {
        Seq::empty()
    } else {
        let k = (i - 1) as nat;
        body_text(pixels, hsize, k) + seq![
            if starts_line(k, hsize) {
                10u8
            } else {
                32u8
            },
        ] + pixel_text(pixels[k as int])
    }
}

/// The plain-text pixmap of an image: the magic number, width and height,
/// the depth of a colour, the pixels, and a line feed.
pub open spec fn ppm_text(hsize: nat, vsize: nat, pixels: Seq<Pixel>) -> Seq<u8> {
    seq![80u8, 51u8, 10u8] + digits(hsize) + seq![32u8] + digits(vsize) + seq![
        10u8,
        50u8,
        53u8,
        53u8,
    ] + body_text(pixels, hsize, pixels.len()) + seq![10u8]
}

fn push_number(out: &mut Vec<u8>, n: usize)
    ensures
        final(out)@ == old(out)@ + digits(n as nat),
    decreases n,
{
    if n < 10 {
        out.push(48 + n as u8);
        assert(final(out)@ =~= old(out)@ + digits(n as nat));
    } else {
        push_number(out, n / 10);
        out.push(48 + (n % 10) as u8);
        assert(final(out)@ =~= old(out)@ + digits(n as nat));
    }
}

impl Image {
    pub closed spec fn width(&self) -> nat {
        self.hsize as nat
    }

    pub closed spec fn height(&self) -> nat {
        self.vsize as nat
    }

    /// The pixels, row by row.
    pub closed spec fn view(&self) -> Seq<Pixel> {
        self.pixels@
    }

    /// There is a pixel for every place of the raster.
    pub closed spec fn well_formed(&self) -> bool {
        self.pixels@.len() == self.hsize * self.vsize
    }

    /// A black image.
    pub fn new(hsize: usize, vsize: usize) -> (image: Image)
        requires
            hsize * vsize <= usize::MAX,
        ensures
            image.well_formed(),
            image.width() == hsize,
            image.height() == vsize,
            image@ == Seq::new((hsize * vsize) as nat, |i: int| (0u8, 0u8, 0u8)),
    {
        let n: usize = hsize * vsize;
        let mut pixels: Vec<Pixel> = Vec::new();
        let mut i: usize = 0;
        while i < n
            invariant
                i <= n,
                pixels@ == Seq::new(i as nat, |k: int| (0u8, 0u8, 0u8)),
            decreases n - i,
        {
            pixels.push((0u8, 0u8, 0u8));
            i += 1;
            assert(pixels@ =~= Seq::new(i as nat, |k: int| (0u8, 0u8, 0u8)));
        }
        Image { hsize, vsize, pixels }
    }

    /// The image of `hsize` by `vsize` pixels that `pixels` lists row by row.
    pub fn from_pixels(hsize: usize, vsize: usize, pixels: Vec<Pixel>) -> (image: Image)
        requires
            pixels@.len() == hsize * vsize,
        ensures
            image.well_formed(),
            image.width() == hsize,
            image.height() == vsize,
            image@ == pixels@,
    {
        Image { hsize, vsize, pixels }
    }

    pub fn hsize(&self) -> (n: usize)
        ensures
            n == self.width(),
    {
        self.hsize
    }

    pub fn vsize(&self) -> (n: usize)
        ensures
            n == self.height(),
    {
        self.vsize
    }

    /// The place of pixel `(x, y)` in the row-by-row order.
    pub fn xy_to_idx(&self, x: usize, y: usize) -> (i: usize)
        requires
            y * self.width() + x <= usize::MAX,
        ensures
            i == y * self.width() + x,
    {
        assert(y * self.hsize <= y * self.hsize + x);
        y * self.hsize + x
    }

    /// The column and the row of the pixel at place `i`.
    pub fn idx_to_xy(&self, i: usize) -> (at: (usize, usize))
        requires
            self.width() > 0,
        ensures
            at.0 < self.width(),
            at.1 * self.width() + at.0 == i,
            at == ((i as nat % self.width()) as usize, (i as nat / self.width()) as usize),
    {
        proof {
            vstd::arithmetic::div_mod::lemma_fundamental_div_mod(i as int, self.hsize as int);
            assert((i / self.hsize) * self.hsize == self.hsize * (i / self.hsize))
                by (nonlinear_arith);
        }
        (i % self.hsize, i / self.hsize)
    }

    pub fn write(&mut self, x: usize, y: usize, color: Pixel)
        requires
            old(self).well_formed(),
            y * old(self).width() + x < old(self).width() * old(self).height(),
        ensures
            final(self).well_formed(),
            final(self).width() == old(self).width(),
            final(self).height() == old(self).height(),
            final(self)@ == old(self)@.update(y * old(self).width() + x, color),
    {
        let n = self.pixels.len();
        let i = self.xy_to_idx(x, y);
        self.pixels.set(i, color);
    }

    pub fn read(&self, x: usize, y: usize) -> (color: Pixel)
        requires
            self.well_formed(),
            y * self.width() + x < self.width() * self.height(),
        ensures
            color == self@[y * self.width() + x],
    {
        let n = self.pixels.len();
        let i = self.xy_to_idx(x, y);
        self.pixels[i]
    }

    /// The image as a plain-text pixmap.
    pub fn ppm(&self) -> (text: Vec<u8>)
        requires
            self.well_formed(),
        ensures
            text@ == ppm_text(self.width(), self.height(), self@),
    {
        let mut text: Vec<u8> = Vec::new();
        text.push(80u8);
        text.push(51u8);
        text.push(10u8);
        push_number(&mut text, self.hsize);
        text.push(32u8);
        push_number(&mut text, self.vsize);
        text.push(10u8);
        text.push(50u8);
        text.push(53u8);
        text.push(53u8);
        let ghost head = text@;
        assert(head =~= seq![80u8, 51u8, 10u8] + digits(self.hsize as nat) + seq![32u8] + digits(
            self.vsize as nat,
        ) + seq![10u8, 50u8, 53u8, 53u8]);
        let mut j: usize = 0;
        let mut i: usize = 0;
        assert(head + body_text(self.pixels@, self.hsize as nat, 0) =~= head);
        while i < self.pixels.len()
            invariant
                i <= self.pixels@.len(),
                self.pixels@.len() == self.hsize * self.vsize,
                j == column(i as nat, self.hsize as nat),
                j <= i,
                text@ == head + body_text(self.pixels@, self.hsize as nat, i as nat),
            decreases self.pixels@.len() - i,
        {
            let (r, g, b) = self.pixels[i];
            assert(self.hsize != 0) by (nonlinear_arith)
                requires
                    self.hsize * self.vsize > 0,
            ;
            let ghost before = text@;
            proof {
                let h = self.hsize as nat;
                assert(starts_line(i as nat, h) == (i as nat % h == 0 || column(i as nat, h) % 5
                    == 0));
                assert(column((i + 1) as nat, h) == if starts_line(i as nat, h) {
                    1nat
                } else {
                    column(i as nat, h) + 1
                });
            }
            if i % self.hsize == 0 || j % 5 == 0 {
                text.push(10u8);
                j = 1;
            } else {
                text.push(32u8);
                j += 1;
            }
            let ghost mark = text@[text@.len() - 1];
            push_number(&mut text, r as usize);
            text.push(32u8);
            push_number(&mut text, g as usize);
            text.push(32u8);
            push_number(&mut text, b as usize);
            assert(text@ =~= before + seq![mark] + pixel_text(self.pixels@[i as int]));
            i += 1;
        }
        text.push(10u8);
        text
    }
}

} // verus!
