use vstd::prelude::*;

verus! {

/// Where the first of the three bytes of a pixel stands in the output buffer.
/// The buffer is row-major, three bytes to a pixel, top row first; the pixel
/// is given by its column `i` and by its row `j` counted from the bottom.
pub open spec fn pixel_offset_spec(i: int, j: int, width: int, height: int) -> int {
    ((height - 1 - j) * width + i) * 3
}

/// The number of bytes of a `width` by `height` image.
pub open spec fn buffer_len(width: int, height: int) -> int {
    width * height * 3
}

/// Byte `c` of the pixel in column `i` of the row that is `j` rows above the
/// bottom, where `rows[j]` holds the bytes of that row.
pub open spec fn row_byte(rows: Seq<Vec<u8>>, i: int, j: int, c: int) -> u8 {
    rows[j]@[3 * i + c]
}

/// A pixel inside the image has its three bytes inside the buffer.
pub proof fn lemma_pixel_offset_bounds(i: int, j: int, width: int, height: int)
    requires
        0 <= i < width,
        0 <= j < height,
    ensures
        0 <= pixel_offset_spec(i, j, width, height),
        pixel_offset_spec(i, j, width, height) + 3 <= buffer_len(width, height),
{
    let row = height - 1 - j;
    assert(0 <= row * width) by (nonlinear_arith)
        requires
            0 <= row,
            0 <= width,
    ;
    assert(row * width + width <= height * width) by (nonlinear_arith)
        requires
            row + 1 <= height,
            0 <= width,
    ;
    assert(height * width == width * height) by (nonlinear_arith);
}

/// Two pixels share no byte: different pixels have offsets three or more
/// apart.
pub proof fn lemma_pixel_offsets_apart(i: int, j: int, k: int, l: int, width: int, height: int)
    requires
        0 <= i < width,
        0 <= j < height,
        0 <= k < width,
        0 <= l < height,
        i != k || j != l,
    ensures
        pixel_offset_spec(i, j, width, height) + 3 <= pixel_offset_spec(k, l, width, height)
            || pixel_offset_spec(k, l, width, height) + 3 <= pixel_offset_spec(
            i,
            j,
            width,
            height,
        ),
{
    let a = height - 1 - j;
    let b = height - 1 - l;
    if a < b {
        assert(a * width + width <= b * width) by (nonlinear_arith)
            requires
                a + 1 <= b,
                0 <= width,
        ;
    } else if b < a {
        assert(b * width + width <= a * width) by (nonlinear_arith)
            requires
                b + 1 <= a,
                0 <= width,
        ;
    }
}

/// Where the first byte of the pixel in column `i` of row `j`, counted from
/// the bottom, stands in the output buffer.
pub fn pixel_offset(i: u32, j: u32, width: u32, height: u32) -> (k: usize)
    requires
        i < width,
        j < height,
        buffer_len(width as int, height as int) <= usize::MAX,
    ensures
        k == pixel_offset_spec(i as int, j as int, width as int, height as int),
        k + 3 <= buffer_len(width as int, height as int),
{
    proof {
        lemma_pixel_offset_bounds(i as int, j as int, width as int, height as int);
        let row = height - 1 - j;
        assert(0 <= row * width) by (nonlinear_arith)
            requires
                0 <= row,
                0 <= width,
        ;
        assert(row * width + i <= ((height - 1 - j) * width + i) * 3) by (nonlinear_arith)
            requires
                0 <= row * width,
                0 <= i,
                row == height - 1 - j,
        ;
    }
    let row = (height - 1 - j) as usize;
    (row * (width as usize) + (i as usize)) * 3
}

/// The first `done` rows of the output: the last `done` rows of `rows`, the
/// last one first.
pub open spec fn stacked(rows: Seq<Vec<u8>>, done: int) -> Seq<u8>
    decreases done,
{
    if done <= 0 {
        Seq::empty()
    } else {
        stacked(rows, done - 1) + rows[rows.len() - done]@
    }
}

/// Where a byte of a row stands among the stacked rows, if every row holds
/// `stride` bytes.
pub proof fn lemma_stacked_index(rows: Seq<Vec<u8>>, stride: int, done: int, r: int, k: int)
    requires
        0 <= done <= rows.len(),
        0 <= stride,
        forall|j: int| 0 <= j < rows.len() ==> (#[trigger] rows[j])@.len() == stride,
        0 <= r < done,
        0 <= k < stride,
    ensures
        stacked(rows, done).len() == done * stride,
        0 <= r * stride + k < done * stride,
        stacked(rows, done)[r * stride + k] == rows[rows.len() - 1 - r]@[k],
    decreases done,
{
    lemma_stacked_len(rows, stride, done);
    lemma_stacked_len(rows, stride, done - 1);
    assert(done * stride == (done - 1) * stride + stride) by (nonlinear_arith);
    assert(0 <= r * stride) by (nonlinear_arith)
        requires
            0 <= r,
            0 <= stride,
    ;
    if r == done - 1 {
    } else {
        lemma_stacked_index(rows, stride, done - 1, r, k);
    }
}

/// How many bytes the stacked rows hold, if every row holds `stride` bytes.
pub proof fn lemma_stacked_len(rows: Seq<Vec<u8>>, stride: int, done: int)
    requires
        0 <= done <= rows.len(),
        forall|j: int| 0 <= j < rows.len() ==> (#[trigger] rows[j])@.len() == stride,
    ensures
        stacked(rows, done).len() == done * stride,
    decreases done,
{
    if done > 0 {
        lemma_stacked_len(rows, stride, done - 1);
        assert(done * stride == (done - 1) * stride + stride) by (nonlinear_arith);
    } else {
        assert(done * stride == 0) by (nonlinear_arith)
            requires
                done == 0,
        ;
    }
}

/// Puts the rows of an image together. `rows[j]` holds the bytes of the row
/// that is `j` rows above the bottom; the buffer returned holds the rows from
/// the top one down.
pub fn assemble_rows(rows: &Vec<Vec<u8>>, width: u32, height: u32) -> (out: Vec<u8>)
    requires
        rows@.len() == height,
        forall|j: int| 0 <= j < height ==> (#[trigger] rows@[j])@.len() == 3 * width,
        buffer_len(width as int, height as int) <= usize::MAX,
    ensures
        out@ == stacked(rows@, height as int),
        out@.len() == buffer_len(width as int, height as int),
        forall|i: int, j: int, c: int|
            0 <= i < width && 0 <= j < height && 0 <= c < 3 ==> out@[pixel_offset_spec(
                i,
                j,
                width as int,
                height as int,
            ) + c] == #[trigger] row_byte(rows@, i, j, c),
{
    let mut out: Vec<u8> = Vec::new();
    let mut done: usize = 0;
    while done < height as usize
        invariant
            done <= height,
            rows@.len() == height,
            out@ == stacked(rows@, done as int),
        decreases height - done,
    {
        let row = &rows[height as usize - 1 - done];
        let mut k: usize = 0;
        while k < row.len()
            invariant
                k <= row@.len(),
                out@ == stacked(rows@, done as int) + row@.take(k as int),
            decreases row@.len() - k,
        {
            out.push(row[k]);
            assert(row@.take(k + 1) == row@.take(k as int).push(row@[k as int]));
            k += 1;
        }
        assert(row@.take(row@.len() as int) == row@);
        done += 1;
    }
    proof {
        let stride = 3 * width;
        lemma_stacked_len(rows@, stride, height as int);
        assert(height * stride == buffer_len(width as int, height as int)) by (nonlinear_arith)
            requires
                stride == 3 * width,
        ;
        assert forall|i: int, j: int, c: int|
            0 <= i < width && 0 <= j < height && 0 <= c < 3 implies out@[pixel_offset_spec(
            i,
            j,
            width as int,
            height as int,
        ) + c] == #[trigger] row_byte(rows@, i, j, c) by {
            let r = height - 1 - j;
            lemma_stacked_index(rows@, stride, height as int, r, 3 * i + c);
            assert(pixel_offset_spec(i, j, width as int, height as int) + c == r * stride + (3 * i
                + c)) by (nonlinear_arith)
                requires
                    r == height - 1 - j,
                    stride == 3 * width,
            ;
        }
    }
    out
}

/// The decimal digits of `n` as ASCII bytes, without leading zeros.
pub open spec fn decimal(n: nat) -> Seq<u8>
    decreases n,
{
    if n < 10 {
        seq![(48 + n) as u8]
    } else {
        decimal(n / 10).push((48 + n % 10) as u8)
    }
}

/// The header of a binary pixmap of the given size with 255 levels: the
/// letter `P` and the digit `6`, a line feed, the width, a space, the height,
/// a line feed, `255` and a line feed.
pub open spec fn ppm_header(width: u32, height: u32) -> Seq<u8> {
    seq![80u8, 54u8, 10u8] + decimal(width as nat) + seq![32u8] + decimal(height as nat)
        + seq![10u8, 50u8, 53u8, 53u8, 10u8]
}

/// Appends the decimal digits of `n` to `out`.
pub fn push_decimal(out: &mut Vec<u8>, n: u32)
    ensures
        final(out)@ == old(out)@ + decimal(n as nat),
{
    let mut digits: Vec<u8> = Vec::new();
    let mut rest = n;
    // the digits, last first
    while rest >= 10
        invariant
            decimal(n as nat) == decimal(rest as nat) + digits@.reverse(),
        decreases rest,
    {
        let d = (rest % 10) as u8 + 48;
        proof {
            assert(decimal(rest as nat) == decimal((rest / 10) as nat).push(d));
            assert(digits@.push(d).reverse() == seq![d] + digits@.reverse());
            assert(decimal((rest / 10) as nat).push(d) + digits@.reverse() == decimal(
                (rest / 10) as nat,
            ) + (seq![d] + digits@.reverse()));
        }
        digits.push(d);
        rest = rest / 10;
    }
    let d = rest as u8 + 48;
    proof {
        assert(decimal(rest as nat) == seq![d]);
        assert(digits@.push(d).reverse() == seq![d] + digits@.reverse());
    }
    digits.push(d);
    assert(decimal(n as nat) == digits@.reverse());
    let ghost start = out@;
    let mut k: usize = digits.len();
    while k > 0
        invariant
            k <= digits@.len(),
            out@ == start + digits@.reverse().take(digits@.len() - k),
        decreases k,
    {
        k -= 1;
        out.push(digits[k]);
        assert(digits@.reverse().take(digits@.len() - k) == digits@.reverse().take(
            digits@.len() - k - 1,
        ).push(digits@[k as int]));
    }
    assert(digits@.reverse().take(digits@.len() as int) == digits@.reverse());
}

/// The image as a binary pixmap: the header for its size, then the bytes of
/// `image_data` as they are.
pub fn ppm_bytes(image_data: &Vec<u8>, width: u32, height: u32) -> (out: Vec<u8>)
    ensures
        out@ == ppm_header(width, height) + image_data@,
{
    let mut out: Vec<u8> = Vec::new();
    out.push(80u8);
    out.push(54u8);
    out.push(10u8);
    assert(out@ == seq![80u8, 54u8, 10u8]);
    push_decimal(&mut out, width);
    out.push(32u8);
    assert(out@ == seq![80u8, 54u8, 10u8] + decimal(width as nat) + seq![32u8]);
    push_decimal(&mut out, height);
    out.push(10u8);
    out.push(50u8);
    out.push(53u8);
    out.push(53u8);
    out.push(10u8);
    assert(out@ == ppm_header(width, height));
    let mut k: usize = 0;
    while k < image_data.len()
        invariant
            k <= image_data@.len(),
            out@ == ppm_header(width, height) + image_data@.take(k as int),
        decreases image_data@.len() - k,
    {
        out.push(image_data[k]);
        assert(image_data@.take(k + 1) == image_data@.take(k as int).push(image_data@[k as int]));
        k += 1;
    }
    assert(image_data@.take(image_data@.len() as int) == image_data@);
    out
}

} // verus!
