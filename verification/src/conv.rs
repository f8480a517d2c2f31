use vstd::prelude::*;

verus! {

/// Output extent of a convolution along one axis:
/// `(l_in + 2*padding - dilation*(k_size - 1) - 1) / stride + 1`.
pub open spec fn conv_out_spec(
    l_in: int,
    padding: int,
    dilation: int,
    k_size: int,
    stride: int,
) -> int {
    (l_in + 2 * padding - dilation * (k_size - 1) - 1) / stride + 1
}

/// Output extent of a transposed convolution along one axis:
/// `(l_in - 1)*stride - 2*padding + dilation*(k_size - 1) + output_padding + 1`.
pub open spec fn conv_transpose_out_spec(
    l_in: int,
    padding: int,
    output_padding: int,
    dilation: int,
    k_size: int,
    stride: int,
) -> int {
    (l_in - 1) * stride - 2 * padding + dilation * (k_size - 1) + output_padding + 1
}

/// Output extent of a convolution along one axis; `None` where the
/// parameters would yield a non-positive extent, or one beyond the machine
/// word.
pub fn conv_out_size(
    l_in: usize,
    padding: usize,
    dilation: usize,
    k_size: usize,
    stride: usize,
) -> (r: Option<usize>)
    requires
        k_size >= 1,
        stride >= 1,
        dilation * (k_size - 1) <= usize::MAX,
    ensures
        match r {
            Some(n) => {
                &&& n == conv_out_spec(l_in as int, padding as int, dilation as int, k_size as int, stride as int)
                &&& conv_out_spec(l_in as int, padding as int, dilation as int, k_size as int, stride as int) >= 1
            },
            None => conv_out_spec(l_in as int, padding as int, dilation as int, k_size as int, stride as int) <= 0
                || conv_out_spec(l_in as int, padding as int, dilation as int, k_size as int, stride as int) > usize::MAX,
        },
{
    let spread: i128 = (dilation as i128) * ((k_size - 1) as i128);
    let numer: i128 = l_in as i128 + 2 * (padding as i128) - spread - 1;
    let ghost g_numer: int = l_in as int + 2 * padding as int - dilation as int * (k_size as int
        - 1) - 1;
    assert(numer == g_numer);
    if numer < 0 {
        proof {
            let s = stride as int;
            assert(g_numer / s <= (-1) / s) by {
                vstd::arithmetic::div_mod::lemma_div_is_ordered(g_numer, -1, s);
            }
            assert((-1) / s == -1) by (nonlinear_arith)
                requires
                    s >= 1,
            ;
        }
        None
    } else {
        let q: u128 = (numer as u128) / (stride as u128);
        proof {
            assert(q == g_numer / stride as int);
            vstd::arithmetic::div_mod::lemma_div_pos_is_pos(g_numer, stride as int);
        }
        if q >= usize::MAX as u128 {
            None
        } else {
            Some((q as usize) + 1)
        }
    }
}

/// Output extent of a transposed convolution along one axis; `None` where
/// the parameters would yield a non-positive extent, or one beyond the
/// machine word.
pub fn conv_transpose_out_size(
    l_in: usize,
    padding: usize,
    output_padding: usize,
    dilation: usize,
    k_size: usize,
    stride: usize,
) -> (r: Option<usize>)
    requires
        k_size >= 1,
        stride >= 1,
        l_in * stride <= usize::MAX,
        dilation * (k_size - 1) <= usize::MAX,
    ensures
        match r {
            Some(n) => {
                &&& n == conv_transpose_out_spec(l_in as int, padding as int, output_padding as int, dilation as int, k_size as int, stride as int)
                &&& conv_transpose_out_spec(l_in as int, padding as int, output_padding as int, dilation as int, k_size as int, stride as int) >= 1
            },
            None => conv_transpose_out_spec(l_in as int, padding as int, output_padding as int, dilation as int, k_size as int, stride as int) <= 0
                || conv_transpose_out_spec(l_in as int, padding as int, output_padding as int, dilation as int, k_size as int, stride as int) > usize::MAX,
        },
{
    proof {
        if l_in >= 1 {
            vstd::arithmetic::mul::lemma_mul_inequality(l_in as int - 1, l_in as int, stride as int);
        }
    }
    let scaled: i128 = (l_in as i128 - 1) * (stride as i128);
    let spread: i128 = (dilation as i128) * ((k_size - 1) as i128);
    let value: i128 = scaled - 2 * (padding as i128) + spread + (output_padding as i128) + 1;
    if value < 1 {
        None
    } else if value > usize::MAX as i128 {
        None
    } else {
        Some(value as usize)
    }
}

/// Parameters of a one-dimensional convolution; plain immutable data passed
/// by reference, not validated here beyond the output-extent check.
#[derive(Clone, Copy, Debug, PartialEq, Eq, Structural)]
pub struct ParamsConv1D {
    pub b_size: usize,
    pub l_in: usize,
    pub c_out: usize,
    pub c_in: usize,
    pub k_size: usize,
    pub padding: usize,
    pub stride: usize,
    pub dilation: usize,
}

impl ParamsConv1D {
    /// Output length of the convolution; `None` for a non-positive extent.
    pub fn l_out(&self) -> (r: Option<usize>)
        requires
            self.k_size >= 1,
            self.stride >= 1,
            self.dilation * (self.k_size - 1) <= usize::MAX,
        ensures
            match r {
                Some(n) => {
                    &&& n == conv_out_spec(self.l_in as int, self.padding as int, self.dilation as int, self.k_size as int, self.stride as int)
                    &&& n >= 1
                },
                None => conv_out_spec(self.l_in as int, self.padding as int, self.dilation as int, self.k_size as int, self.stride as int) <= 0
                    || conv_out_spec(self.l_in as int, self.padding as int, self.dilation as int, self.k_size as int, self.stride as int) > usize::MAX,
            },
    {
        conv_out_size(self.l_in, self.padding, self.dilation, self.k_size, self.stride)
    }
}

/// Parameters of a one-dimensional transposed convolution.
#[derive(Clone, Copy, Debug, PartialEq, Eq, Structural)]
pub struct ParamsConvTranspose1D {
    pub b_size: usize,
    pub l_in: usize,
    pub c_out: usize,
    pub c_in: usize,
    pub k_size: usize,
    pub padding: usize,
    pub output_padding: usize,
    pub stride: usize,
    pub dilation: usize,
}

impl ParamsConvTranspose1D {
    /// Output length of the transposed convolution; `None` for a
    /// non-positive extent.
    pub fn l_out(&self) -> (r: Option<usize>)
        requires
            self.k_size >= 1,
            self.stride >= 1,
            self.l_in * self.stride <= usize::MAX,
            self.dilation * (self.k_size - 1) <= usize::MAX,
        ensures
            match r {
                Some(n) => n == conv_transpose_out_spec(self.l_in as int, self.padding as int, self.output_padding as int, self.dilation as int, self.k_size as int, self.stride as int)
                    && n >= 1,
                None => conv_transpose_out_spec(self.l_in as int, self.padding as int, self.output_padding as int, self.dilation as int, self.k_size as int, self.stride as int) <= 0
                    || conv_transpose_out_spec(self.l_in as int, self.padding as int, self.output_padding as int, self.dilation as int, self.k_size as int, self.stride as int) > usize::MAX,
            },
    {
        conv_transpose_out_size(
            self.l_in,
            self.padding,
            self.output_padding,
            self.dilation,
            self.k_size,
            self.stride,
        )
    }
}

/// Parameters of a two-dimensional convolution.
#[derive(Clone, Copy, Debug, PartialEq, Eq, Structural)]
pub struct ParamsConv2D {
    pub b_size: usize,
    pub i_h: usize,
    pub i_w: usize,
    pub k_h: usize,
    pub k_w: usize,
    pub c_out: usize,
    pub c_in: usize,
    pub padding: usize,
    pub stride: usize,
    pub dilation: usize,
}

impl ParamsConv2D {
    /// Output height; `None` for a non-positive extent.
    pub fn out_h(&self) -> (r: Option<usize>)
        requires
            self.k_h >= 1,
            self.stride >= 1,
            self.dilation * (self.k_h - 1) <= usize::MAX,
        ensures
            match r {
                Some(n) => n == conv_out_spec(self.i_h as int, self.padding as int, self.dilation as int, self.k_h as int, self.stride as int)
                    && n >= 1,
                None => conv_out_spec(self.i_h as int, self.padding as int, self.dilation as int, self.k_h as int, self.stride as int) <= 0
                    || conv_out_spec(self.i_h as int, self.padding as int, self.dilation as int, self.k_h as int, self.stride as int) > usize::MAX,
            },
    {
        conv_out_size(self.i_h, self.padding, self.dilation, self.k_h, self.stride)
    }

    /// Output width; `None` for a non-positive extent.
    pub fn out_w(&self) -> (r: Option<usize>)
        requires
            self.k_w >= 1,
            self.stride >= 1,
            self.dilation * (self.k_w - 1) <= usize::MAX,
        ensures
            match r {
                Some(n) => n == conv_out_spec(self.i_w as int, self.padding as int, self.dilation as int, self.k_w as int, self.stride as int)
                    && n >= 1,
                None => conv_out_spec(self.i_w as int, self.padding as int, self.dilation as int, self.k_w as int, self.stride as int) <= 0
                    || conv_out_spec(self.i_w as int, self.padding as int, self.dilation as int, self.k_w as int, self.stride as int) > usize::MAX,
            },
    {
        conv_out_size(self.i_w, self.padding, self.dilation, self.k_w, self.stride)
    }
}

/// Parameters of a two-dimensional transposed convolution.
#[derive(Clone, Copy, Debug, PartialEq, Eq, Structural)]
pub struct ParamsConvTranspose2D {
    pub b_size: usize,
    pub i_h: usize,
    pub i_w: usize,
    pub k_h: usize,
    pub k_w: usize,
    pub c_out: usize,
    pub c_in: usize,
    pub padding: usize,
    pub output_padding: usize,
    pub stride: usize,
    pub dilation: usize,
}

impl ParamsConvTranspose2D {
    /// Output height; `None` for a non-positive extent.
    pub fn out_h(&self) -> (r: Option<usize>)
        requires
            self.k_h >= 1,
            self.stride >= 1,
            self.i_h * self.stride <= usize::MAX,
            self.dilation * (self.k_h - 1) <= usize::MAX,
        ensures
            match r {
                Some(n) => n == conv_transpose_out_spec(self.i_h as int, self.padding as int, self.output_padding as int, self.dilation as int, self.k_h as int, self.stride as int)
                    && n >= 1,
                None => conv_transpose_out_spec(self.i_h as int, self.padding as int, self.output_padding as int, self.dilation as int, self.k_h as int, self.stride as int) <= 0
                    || conv_transpose_out_spec(self.i_h as int, self.padding as int, self.output_padding as int, self.dilation as int, self.k_h as int, self.stride as int) > usize::MAX,
            },
    {
        conv_transpose_out_size(
            self.i_h,
            self.padding,
            self.output_padding,
            self.dilation,
            self.k_h,
            self.stride,
        )
    }

    /// Output width; `None` for a non-positive extent.
    pub fn out_w(&self) -> (r: Option<usize>)
        requires
            self.k_w >= 1,
            self.stride >= 1,
            self.i_w * self.stride <= usize::MAX,
            self.dilation * (self.k_w - 1) <= usize::MAX,
        ensures
            match r {
                Some(n) => n == conv_transpose_out_spec(self.i_w as int, self.padding as int, self.output_padding as int, self.dilation as int, self.k_w as int, self.stride as int)
                    && n >= 1,
                None => conv_transpose_out_spec(self.i_w as int, self.padding as int, self.output_padding as int, self.dilation as int, self.k_w as int, self.stride as int) <= 0
                    || conv_transpose_out_spec(self.i_w as int, self.padding as int, self.output_padding as int, self.dilation as int, self.k_w as int, self.stride as int) > usize::MAX,
            },
    {
        conv_transpose_out_size(
            self.i_w,
            self.padding,
            self.output_padding,
            self.dilation,
            self.k_w,
            self.stride,
        )
    }
}

} // verus!
