//! Geometry of the off-screen render target and the read-back of its pixels.
//!
//! The GPU copies a rendered texture into a buffer whose rows are padded up to
//! the copy alignment that wgpu demands. `BufferDimensions` computes that
//! layout, and `unpad_rows` strips the padding again from the bytes read back.
use vstd::prelude::*;
use vstd::arithmetic::div_mod::lemma_mod_add_multiples_vanish;

verus! {

broadcast use vstd::layout::layout_of_primitives;

/// wgpu's `COPY_BYTES_PER_ROW_ALIGNMENT`: the number of bytes that each row of
/// a buffer-texture copy must be a multiple of. wgpu-types declares it as the
/// constant 256; this function reads it and claims that value.
#[verifier::external_body]
fn copy_row_alignment() -> (a: usize)
    ensures
        a == 256,
{
    wgpu::COPY_BYTES_PER_ROW_ALIGNMENT as usize
}

/// The row alignment, as a mathematical number.
pub open spec fn row_alignment() -> nat {
    256
}

/// `n` rounded up to the next multiple of `a`.
pub open spec fn align_up(n: nat, a: nat) -> nat {
    n + ((a - n % a) as nat) % a
}

/// Bytes per row of an image `width` RGBA8 pixels wide, before padding.
pub open spec fn unpadded_row_bytes(width: nat) -> nat {
    width * 4
}

/// Bytes per row of such an image once padded to the copy alignment.
pub open spec fn padded_row_bytes(width: nat) -> nat {
    align_up(unpadded_row_bytes(width), row_alignment())
}

/// The layout of a padded pixel buffer for an image of `width` x `height` pixels.
pub struct BufferDimensions {
    width: usize,
    height: usize,
    unpadded_bytes_per_row: usize,
    padded_bytes_per_row: usize,
}

impl BufferDimensions {
    #[verifier::type_invariant]
    spec fn wf(self) -> bool {
        &&& self.unpadded_bytes_per_row == unpadded_row_bytes(self.width as nat)
        &&& self.padded_bytes_per_row == padded_row_bytes(self.width as nat)
    }

    pub closed spec fn spec_width(self) -> nat {
        self.width as nat
    }

    pub closed spec fn spec_height(self) -> nat {
        self.height as nat
    }

    pub closed spec fn spec_unpadded(self) -> nat {
        self.unpadded_bytes_per_row as nat
    }

    pub closed spec fn spec_padded(self) -> nat {
        self.padded_bytes_per_row as nat
    }

    /// The layout of an image `width` pixels wide and `height` pixels high.
    ///
    /// Each row holds `4 * width` bytes of pixel data and is padded with
    /// zero to 255 bytes so that its length is a multiple of 256.
    pub fn new(width: usize, height: usize) -> (dims: Self)
        requires
            padded_row_bytes(width as nat) <= usize::MAX,
        ensures
            dims.spec_width() == width,
            dims.spec_height() == height,
            dims.spec_unpadded() == unpadded_row_bytes(width as nat),
            dims.spec_padded() == padded_row_bytes(width as nat),
            dims.spec_unpadded() == width * 4,
            dims.spec_padded() % 256 == 0,
            dims.spec_unpadded() <= dims.spec_padded() < dims.spec_unpadded() + 256,
    {
        proof {
            lemma_align_up(unpadded_row_bytes(width as nat), row_alignment());
        }
        let bytes_per_pixel = core::mem::size_of::<u32>();
        let unpadded_bytes_per_row = width * bytes_per_pixel;
        let align = copy_row_alignment();
        let padded_bytes_per_row_padding = (align - unpadded_bytes_per_row % align) % align;
        let padded_bytes_per_row = unpadded_bytes_per_row + padded_bytes_per_row_padding;
        BufferDimensions { width, height, unpadded_bytes_per_row, padded_bytes_per_row }
    }

    /// Image width in pixels.
    pub fn width(&self) -> (w: usize)
        ensures
            w == self.spec_width(),
    {
        self.width
    }

    /// Image height in pixels.
    pub fn height(&self) -> (h: usize)
        ensures
            h == self.spec_height(),
    {
        self.height
    }

    /// Bytes of pixel data in one row.
    pub fn unpadded_bytes_per_row(&self) -> (n: usize)
        ensures
            n == self.spec_unpadded(),
            n == unpadded_row_bytes(self.spec_width()),
    {
        proof {
            use_type_invariant(self);
        }
        self.unpadded_bytes_per_row
    }

    /// The pixel bytes of `data` without the row padding: `data` is cut into
    /// rows of `padded_bytes_per_row` bytes and only the first
    /// `unpadded_bytes_per_row` bytes of each row are kept, in order.
    pub fn unpad_rows(&self, data: &[u8]) -> (out: Vec<u8>)
        requires
            self.spec_padded() > 0,
            data@.len() % self.spec_padded() == 0 || data@.len() % self.spec_padded()
                >= self.spec_unpadded(),
        ensures
            out@ == strip_row_padding(data@, self.spec_padded(), self.spec_unpadded()),
    {
        proof {
            use_type_invariant(self);
            lemma_align_up(unpadded_row_bytes(self.width as nat), row_alignment());
        }
        let p = self.padded_bytes_per_row;
        let u = self.unpadded_bytes_per_row;
        let ghost pn = p as nat;
        let ghost un = u as nat;
        proof {
            lemma_rows_hold(data@, pn, un);
            assert(data@.skip(0) =~= data@);
        }
        let mut out: Vec<u8> = Vec::new();
        let mut start: usize = 0;
        while start < data.len()
            invariant
                start <= data@.len(),
                pn == p,
                un == u,
                0 < p,
                u <= p,
                rows_hold(data@.skip(start as int), pn, un),
                out@ + strip_row_padding(data@.skip(start as int), pn, un) == strip_row_padding(
                    data@,
                    pn,
                    un,
                ),
            decreases data@.len() - start,
        {
            let ghost rest = data@.skip(start as int);
            let ghost out0 = out@;
            let remaining = data.len() - start;
            assert(u <= remaining);
            let end = start + u;
            let mut j: usize = start;
            while j < end
                invariant
                    start <= j <= end,
                    end <= data@.len(),
                    out@ == out0 + data@.subrange(start as int, j as int),
                decreases end - j,
            {
                out.push(data[j]);
                proof {
                    assert(data@.subrange(start as int, j + 1) =~= data@.subrange(
                        start as int,
                        j as int,
                    ).push(data@[j as int]));
                }
                j = j + 1;
            }
            assert(data@.subrange(start as int, end as int) =~= rest.take(un as int));
            if remaining <= p {
                proof {
                    assert(data@.skip(data@.len() as int) =~= Seq::<u8>::empty());
                }
                start = data.len();
            } else {
                proof {
                    assert(rest.skip(pn as int) =~= data@.skip(start + p));
                }
                start = start + p;
            }
        }
        proof {
            assert(data@.skip(start as int) =~= Seq::<u8>::empty());
        }
        out
    }

    /// Size in bytes of the buffer that receives the whole padded image:
    /// `height` rows of `padded_bytes_per_row` bytes.
    pub fn storage_buffer_size(&self) -> (size: u64)
        requires
            self.spec_padded() * self.spec_height() <= usize::MAX,
        ensures
            size == self.spec_padded() * self.spec_height(),
    {
        (self.padded_bytes_per_row * self.height) as u64
    }

    /// Bytes in one row once padded to the copy alignment.
    pub fn padded_bytes_per_row(&self) -> (n: usize)
        ensures
            n == self.spec_padded(),
            n == padded_row_bytes(self.spec_width()),
    {
        proof {
            use_type_invariant(self);
        }
        self.padded_bytes_per_row
    }
}

/// The padded row length is the least multiple of the alignment that holds the row.
pub proof fn lemma_align_up(n: nat, a: nat)
    requires
        a > 0,
    ensures
        align_up(n, a) % a == 0,
        n <= align_up(n, a) < n + a,
        n % a == 0 ==> align_up(n, a) == n,
{
    let r = n % a;
    assert(0 <= r < a);
    if r == 0 {
        assert(((a - r) as nat) % a == 0) by {
            lemma_mod_add_multiples_vanish(0, a as int);
        }
    } else {
        assert(((a - r) as nat) % a == a - r) by {
            vstd::arithmetic::div_mod::lemma_small_mod((a - r) as nat, a);
        }
        assert((n + (a - r)) % (a as int) == 0) by {
            vstd::arithmetic::div_mod::lemma_fundamental_div_mod(n as int, a as int);
            let q = n as int / a as int;
            assert(n + (a - r) == (q + 1) * a) by (nonlinear_arith)
                requires n == a * q + r;
            vstd::arithmetic::div_mod::lemma_mod_multiples_basic(q + 1, a as int);
        }
    }
}


/// `data` read as consecutive rows of `padded` bytes (the last row may be
/// shorter), with each row cut down to its first `unpadded` bytes and the rows
/// joined again.
pub open spec fn strip_row_padding(data: Seq<u8>, padded: nat, unpadded: nat) -> Seq<u8>
    decreases data.len(),
{
    if padded == 0 || data.len() == 0 {
        seq![]
    } else if data.len() <= padded {
        data.take(unpadded as int)
    } else {
        data.take(unpadded as int) + strip_row_padding(data.skip(padded as int), padded, unpadded)
    }
}

/// Every row of `data`, read as rows of `padded` bytes, holds at least
/// `unpadded` bytes.
pub open spec fn rows_hold(data: Seq<u8>, padded: nat, unpadded: nat) -> bool
    decreases data.len(),
{
    if padded == 0 || data.len() == 0 {
        true
    } else if data.len() <= padded {
        unpadded <= data.len()
    } else {
        rows_hold(data.skip(padded as int), padded, unpadded)
    }
}

/// A buffer whose length leaves a last partial row of at least `unpadded`
/// bytes (or none) holds `unpadded` bytes in every row.
pub proof fn lemma_rows_hold(data: Seq<u8>, padded: nat, unpadded: nat)
    requires
        padded > 0,
        unpadded <= padded,
        data.len() % padded == 0 || data.len() % padded >= unpadded,
    ensures
        rows_hold(data, padded, unpadded),
    decreases data.len(),
{
    if data.len() == 0 {
    } else if data.len() <= padded {
        if data.len() < padded {
            vstd::arithmetic::div_mod::lemma_small_mod(data.len(), padded);
        }
    } else {
        let rest = data.skip(padded as int);
        assert(rest.len() == data.len() - padded);
        lemma_mod_add_multiples_vanish(rest.len() as int, padded as int);
        lemma_rows_hold(rest, padded, unpadded);
    }
}


/// Stripping the padding of `height` whole rows keeps `unpadded` bytes per row,
/// and byte `col` of row `row` of the result is byte `col` of row `row` of the
/// padded buffer: no pixel is lost, moved or reordered.
pub proof fn lemma_strip_whole_rows(data: Seq<u8>, padded: nat, unpadded: nat, height: nat)
    requires
        0 < padded,
        unpadded <= padded,
        data.len() == height * padded,
    ensures
        strip_row_padding(data, padded, unpadded).len() == height * unpadded,
        forall|row: int, col: int|
            0 <= row < height && 0 <= col < unpadded ==> #[trigger] strip_row_padding(data, padded, unpadded)[
                row * unpadded + col] == data[row * padded + col],
    decreases height,
{
    let out = strip_row_padding(data, padded, unpadded);
    if height == 0 {
        assert(data.len() == 0 && height * unpadded == 0) by (nonlinear_arith)
            requires data.len() == height * padded, height == 0;
    } else if height == 1 {
        assert(data.len() == padded) by (nonlinear_arith)
            requires data.len() == height * padded, height == 1;
        assert(height * unpadded == unpadded) by (nonlinear_arith)
            requires height == 1;
        assert forall|row: int, col: int| 0 <= row < height && 0 <= col < unpadded implies #[trigger] out[
            row * unpadded + col] == data[row * padded + col] by {
            assert(row == 0);
        }
    } else {
        let rest = data.skip(padded as int);
        assert(data.len() == padded + (height - 1) * padded) by (nonlinear_arith)
            requires data.len() == height * padded, height >= 1;
        assert(rest.len() == (height - 1) as nat * padded);
        lemma_strip_whole_rows(rest, padded, unpadded, (height - 1) as nat);
        let tail = strip_row_padding(rest, padded, unpadded);
        assert(out == data.take(unpadded as int) + tail);
        assert(height * unpadded == unpadded + (height - 1) * unpadded) by (nonlinear_arith)
            requires height >= 1;
        assert forall|row: int, col: int| 0 <= row < height && 0 <= col < unpadded implies #[trigger] out[
            row * unpadded + col] == data[row * padded + col] by {
            if row == 0 {
            } else {
                let r1 = row - 1;
                assert(row * unpadded + col == unpadded + (r1 * unpadded + col)) by (nonlinear_arith)
                    requires row >= 1, r1 == row - 1;
                assert(row * padded + col == padded + (r1 * padded + col)) by (nonlinear_arith)
                    requires row >= 1, r1 == row - 1;
                assert(r1 * unpadded + col < (height - 1) * unpadded) by (nonlinear_arith)
                    requires 0 <= r1 < height - 1, 0 <= col < unpadded;
                assert(r1 * padded + col < (height - 1) * padded) by (nonlinear_arith)
                    requires 0 <= r1 < height - 1, 0 <= col < unpadded, unpadded <= padded;
                assert(out[row * unpadded + col] == tail[r1 * unpadded + col]);
                assert(rest[r1 * padded + col] == data[row * padded + col]);
                assert(tail[r1 * unpadded + col] == rest[r1 * padded + col]);
            }
        }
    }
}


/// A buffer of `height` whole rows followed by a short last row of `extra`
/// bytes (at least one, and at least `unpadded`) loses only padding: the result holds
/// `unpadded` bytes for each whole row and `unpadded` more for the short row,
/// and byte `col` of every row, the short one included, is byte `col` of that
/// row of the buffer.
pub proof fn lemma_strip_short_last_row(
    data: Seq<u8>,
    padded: nat,
    unpadded: nat,
    height: nat,
    extra: nat,
)
    requires
        0 < padded,
        0 < extra < padded,
        unpadded <= extra,
        data.len() == height * padded + extra,
    ensures
        strip_row_padding(data, padded, unpadded).len() == (height + 1) * unpadded,
        forall|row: int, col: int|
            0 <= row <= height && 0 <= col < unpadded ==> #[trigger] strip_row_padding(
                data,
                padded,
                unpadded,
            )[row * unpadded + col] == data[row * padded + col],
    decreases height,
{
    let out = strip_row_padding(data, padded, unpadded);
    if height == 0 {
        assert(data.len() == extra) by (nonlinear_arith)
            requires data.len() == height * padded + extra, height == 0;
        assert((height + 1) * unpadded == unpadded) by (nonlinear_arith)
            requires height == 0;
        assert forall|row: int, col: int| 0 <= row <= height && 0 <= col < unpadded implies #[trigger] out[
            row * unpadded + col] == data[row * padded + col] by {
            assert(row == 0);
        }
    } else {
        let rest = data.skip(padded as int);
        assert(data.len() == padded + ((height - 1) as nat * padded + extra)) by (nonlinear_arith)
            requires data.len() == height * padded + extra, height >= 1;
        assert(data.len() > padded);
        assert(rest.len() == (height - 1) as nat * padded + extra);
        lemma_strip_short_last_row(rest, padded, unpadded, (height - 1) as nat, extra);
        let tail = strip_row_padding(rest, padded, unpadded);
        assert(out == data.take(unpadded as int) + tail);
        assert((height + 1) * unpadded == unpadded + ((height - 1) as nat + 1) * unpadded)
            by (nonlinear_arith)
            requires height >= 1;
        assert forall|row: int, col: int| 0 <= row <= height && 0 <= col < unpadded implies #[trigger] out[
            row * unpadded + col] == data[row * padded + col] by {
            if row == 0 {
            } else {
                let r1 = row - 1;
                assert(row * unpadded + col == unpadded + (r1 * unpadded + col)) by (nonlinear_arith)
                    requires row >= 1, r1 == row - 1;
                assert(row * padded + col == padded + (r1 * padded + col)) by (nonlinear_arith)
                    requires row >= 1, r1 == row - 1;
                assert(r1 * unpadded + col < ((height - 1) as nat + 1) * unpadded) by (nonlinear_arith)
                    requires 0 <= r1 <= height - 1, 0 <= col < unpadded;
                assert(r1 * padded + col < (height - 1) as nat * padded + extra) by (nonlinear_arith)
                    requires 0 <= r1 <= height - 1, 0 <= col < unpadded, unpadded <= extra,
                        extra < padded;
                assert(out[row * unpadded + col] == tail[r1 * unpadded + col]);
                assert(rest[r1 * padded + col] == data[row * padded + col]);
            }
        }
    }
}

} // verus!
