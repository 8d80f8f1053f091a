use vstd::prelude::*;

use crate::tensor::device::Device;
use crate::tensor::tensor::{element_count, product};
use crate::text::{bracketed, count_text, digits, join2, join3, shape_text};

verus! {

/// A tensor of signed bytes.
#[derive(Debug, Clone)]
pub struct QuantTensor {
    data: Vec<i8>,
    shape: Vec<usize>,
    device: Device,
}

/// There are not as many bytes as the shape has elements.
#[derive(Debug, Clone, Copy, PartialEq, Eq, Structural)]
pub struct LengthMismatch {
    pub length: usize,
    pub expected: usize,
}

impl LengthMismatch {
    /// The mismatch in words, for a tensor of the given shape.
    pub fn message(&self, shape: &[usize]) -> (text: String)
        ensures
            text@ == "quant tensor data length "@ + digits(self.length) + " does not match shape "@
                + bracketed(shape@) + " ("@ + digits(self.expected) + " elements)"@,
    {
        let given = join2("quant tensor data length ", count_text(self.length).as_str());
        let place = join3(
            given.as_str(),
            " does not match shape ",
            shape_text(shape).as_str(),
        );
        let wanted = join2(count_text(self.expected).as_str(), " elements)");
        let text = join3(place.as_str(), " (", wanted.as_str());
        assert(text@ =~= "quant tensor data length "@ + digits(self.length)
            + " does not match shape "@ + bracketed(shape@) + " ("@ + digits(self.expected)
            + " elements)"@);
        text
    }
}

/// The signed reading of a byte.
pub open spec fn signed(byte: u8) -> i8 {
    if byte < 128 {
        byte as i8
    } else {
        (byte - 256) as i8
    }
}

/// Where the scales of a tensor lie.
#[derive(Debug, Clone, Copy, PartialEq, Eq, Structural)]
pub enum ScaleLayout {
    /// One dimension, a scale per row.
    Vector,
    /// Two dimensions, a column with a scale per row.
    Column,
}

impl QuantTensor {
    pub closed spec fn bytes(&self) -> Seq<i8> {
        self.data@
    }

    pub closed spec fn dims(&self) -> Seq<usize> {
        self.shape@
    }

    pub closed spec fn place(&self) -> Device {
        self.device
    }

    /// The tensor has as many bytes as its shape has elements.
    pub open spec fn wf(&self) -> bool {
        self.bytes().len() == product(self.dims())
    }

    pub fn new(data: Vec<i8>, shape: Vec<usize>, device: Device) -> (result: Result<
        Self,
        LengthMismatch,
    >)
        requires
            product(shape@) <= usize::MAX,
        ensures
            match result {
                Ok(tensor) => {
                    &&& data@.len() == product(shape@)
                    &&& tensor.wf()
                    &&& tensor.bytes() == data@
                    &&& tensor.dims() == shape@
                    &&& tensor.place() == device
                },
                Err(error) => {
                    &&& data@.len() != product(shape@)
                    &&& error.length == data@.len()
                    &&& error.expected == product(shape@)
                },
            },
    {
        let expected: usize = element_count(shape.as_slice());
        if data.len() != expected {
            return Err(LengthMismatch { length: data.len(), expected });
        }
        Ok(QuantTensor { data, shape, device })
    }

    /// A tensor from raw bytes, read as signed.
    pub fn from_i8_bytes(bytes: &[u8], shape: Vec<usize>, device: &Device) -> (result: Result<
        Self,
        LengthMismatch,
    >)
        requires
            product(shape@) <= usize::MAX,
        ensures
            match result {
                Ok(tensor) => {
                    &&& bytes@.len() == product(shape@)
                    &&& tensor.wf()
                    &&& tensor.bytes() == bytes@.map_values(|b: u8| signed(b))
                    &&& tensor.dims() == shape@
                    &&& tensor.place() == *device
                },
                Err(error) => {
                    &&& bytes@.len() != product(shape@)
                    &&& error.length == bytes@.len()
                    &&& error.expected == product(shape@)
                },
            },
    {
        let mut data: Vec<i8> = Vec::new();
        let mut i: usize = 0;
        while i < bytes.len()
            invariant
                i <= bytes@.len(),
                data@ == bytes@.take(i as int).map_values(|b: u8| signed(b)),
            decreases bytes@.len() - i,
        {
            let byte: u8 = bytes[i];
            let value: i8 = if byte < 128 {
                byte as i8
            } else {
                (byte as i16 - 256) as i8
            };
            data.push(value);
            i = i + 1;
            assert(data@ =~= bytes@.take(i as int).map_values(|b: u8| signed(b)));
        }
        assert(bytes@.take(i as int) =~= bytes@);
        Self::new(data, shape, *device)
    }

    pub fn shape(&self) -> (shape: &Vec<usize>)
        ensures
            shape@ == self.dims(),
    {
        &self.shape
    }

    pub fn data(&self) -> (data: &Vec<i8>)
        ensures
            data@ == self.bytes(),
    {
        &self.data
    }

    pub fn device(&self) -> (device: &Device)
        ensures
            *device == self.place(),
    {
        &self.device
    }

    pub fn num_bytes(&self) -> (n: usize)
        ensures
            n == self.bytes().len(),
    {
        self.data.len()
    }

    /// How scales of the given shape spread over the rows; `None` where they do not
    /// fit.
    pub fn scale_layout(&self, scale: &[usize]) -> (layout: Option<ScaleLayout>)
        ensures
            layout == if self.dims().len() == 2 && scale@ == seq![self.dims()[0]] {
                Some(ScaleLayout::Vector)
            } else if self.dims().len() == 2 && scale@ == seq![self.dims()[0], 1usize] {
                Some(ScaleLayout::Column)
            } else {
                None
            },
    {
        if self.shape.len() != 2 {
            return None;
        }
        let rows: usize = self.shape[0];
        if scale.len() == 1 && scale[0] == rows {
            assert(scale@ =~= seq![rows]);
            return Some(ScaleLayout::Vector);
        }
        if scale.len() == 2 && scale[0] == rows && scale[1] == 1 {
            assert(scale@ =~= seq![rows, 1usize]);
            return Some(ScaleLayout::Column);
        }
        None
    }
}

/// The signed reading of a byte is the number with its eight bits, and no two bytes
/// read alike.
pub proof fn lemma_signed(a: u8, b: u8)
    ensures
        signed(a) == a || signed(a) == a - 256,
        signed(a) == signed(b) ==> a == b,
{
}

} // verus!
