use vstd::prelude::*;

verus! {

/// Values that a buffer can hold by their bytes, the least significant first.
pub trait Plain: Copy {
    spec fn width() -> nat;

    spec fn to_bytes(self) -> Seq<u8>;

    fn size() -> (n: usize)
        ensures
            n == Self::width(),
            n > 0,
    ;

    fn byte(&self, k: usize) -> (b: u8)
        requires
            k < Self::width(),
        ensures
            b == self.to_bytes()[k as int],
    ;

    fn read(bytes: &Vec<u8>, at: usize) -> (value: Self)
        requires
            at + Self::width() <= bytes@.len(),
        ensures
            value.to_bytes() == bytes@.subrange(at as int, at + Self::width()),
    ;

    /// As many bytes as the type is wide, and different values have different
    /// bytes.
    proof fn faithful(a: Self, b: Self)
        ensures
            a.to_bytes().len() == Self::width(),
            a.to_bytes() == b.to_bytes() ==> a == b,
    ;
}

impl Plain for u8 {
    open spec fn width() -> nat {
        1
    }

    open spec fn to_bytes(self) -> Seq<u8> {
        seq![self]
    }

    fn size() -> (n: usize) {
        1
    }

    fn byte(&self, k: usize) -> (b: u8) {
        *self
    }

    fn read(bytes: &Vec<u8>, at: usize) -> (value: u8) {
        assert(bytes@.subrange(at as int, at + 1) =~= seq![bytes@[at as int]]);
        bytes[at]
    }

    proof fn faithful(a: u8, b: u8) {
        assert(a.to_bytes()[0] == a);
        assert(b.to_bytes()[0] == b);
    }
}

impl Plain for u32 {
    open spec fn width() -> nat {
        4
    }

    open spec fn to_bytes(self) -> Seq<u8> {
        seq![
            (self % 0x100) as u8,
            (self / 0x100 % 0x100) as u8,
            (self / 0x1_0000 % 0x100) as u8,
            (self / 0x100_0000) as u8,
        ]
    }

    fn size() -> (n: usize) {
        4
    }

    fn byte(&self, k: usize) -> (b: u8) {
        if k == 0 {
            (*self % 0x100) as u8
        } else if k == 1 {
            (*self / 0x100 % 0x100) as u8
        } else if k == 2 {
            (*self / 0x1_0000 % 0x100) as u8
        } else {
            (*self / 0x100_0000) as u8
        }
    }

    fn read(bytes: &Vec<u8>, at: usize) -> (value: u32) {
        let total: usize = bytes.len();
        assert(at + 4 <= total);
        let a: u32 = bytes[at] as u32;
        let b: u32 = bytes[at + 1] as u32;
        let c: u32 = bytes[at + 2] as u32;
        let d: u32 = bytes[at + 3] as u32;
        let value: u32 = a + 0x100 * b + 0x1_0000 * c + 0x100_0000 * d;
        assert(value % 0x100 == a && value / 0x100 % 0x100 == b && value / 0x1_0000 % 0x100 == c
            && value / 0x100_0000 == d) by (bit_vector)
            requires
                a < 0x100,
                b < 0x100,
                c < 0x100,
                d < 0x100,
                value == a + 0x100 * b + 0x1_0000 * c + 0x100_0000 * d,
        ;
        assert(value.to_bytes() =~= bytes@.subrange(at as int, at + 4));
        value
    }

    proof fn faithful(a: u32, b: u32) {
        if a.to_bytes() == b.to_bytes() {
            assert(a.to_bytes()[0] == b.to_bytes()[0]);
            assert(a.to_bytes()[1] == b.to_bytes()[1]);
            assert(a.to_bytes()[2] == b.to_bytes()[2]);
            assert(a.to_bytes()[3] == b.to_bytes()[3]);
        }
    }
}

/// A signed value has the bytes of the unsigned one with the same bits.
impl Plain for i32 {
    open spec fn width() -> nat {
        4
    }

    open spec fn to_bytes(self) -> Seq<u8> {
        (self as u32).to_bytes()
    }

    fn size() -> (n: usize) {
        4
    }

    fn byte(&self, k: usize) -> (b: u8) {
        (*self as u32).byte(k)
    }

    fn read(bytes: &Vec<u8>, at: usize) -> (value: i32) {
        let word = u32::read(bytes, at);
        assert(word as i32 as u32 == word) by (bit_vector);
        word as i32
    }

    proof fn faithful(a: i32, b: i32) {
        u32::faithful(a as u32, b as u32);
        assert(a as u32 == b as u32 ==> a == b) by (bit_vector);
    }
}

/// The bytes of some values, one after the other.
pub open spec fn bytes_of<T: Plain>(values: Seq<T>) -> Seq<u8>
    decreases values.len(),
{
    if values.len() == 0 {
        Seq::empty()
    } else {
        bytes_of(values.drop_last()) + values.last().to_bytes()
    }
}

/// Host buffer for transfers between host and device.
#[derive(Debug)]
pub struct PinnedBuffer {
    bytes: Vec<u8>,
}

/// The largest buffer: its size, rounded up to whole cache lines, must be
/// addressable.
pub open spec fn allocatable(bytes: int) -> bool {
    bytes + 63 <= isize::MAX
}

impl PinnedBuffer {
    /// The contents.
    pub closed spec fn view(&self) -> Seq<u8> {
        self.bytes@
    }

    /// Allocate a buffer of `bytes` bytes, at least one. The memory is
    /// zero-initialized.
    pub fn allocate(bytes: usize) -> (buffer: Self)
        requires
            allocatable(bytes as int),
        ensures
            buffer@ == Seq::new(
                if bytes == 0 {
                    1
                } else {
                    bytes as nat
                },
                |i: int| 0u8,
            ),
    {
        let size: usize = if bytes == 0 {
            1
        } else {
            bytes
        };
        let buffer = PinnedBuffer { bytes: vec![0u8;size] };
        assert(buffer@ =~= Seq::new(size as nat, |i: int| 0u8));
        buffer
    }

    /// Allocate with a capacity in elements of type `T`.
    pub fn alloc_typed<T>(count: usize) -> (buffer: Self)
        requires
            allocatable(count * vstd::layout::size_of::<T>()),
        ensures
            buffer@.len() == if count * vstd::layout::size_of::<T>() == 0 {
                1
            } else {
                count * vstd::layout::size_of::<T>()
            },
            forall|i: int| 0 <= i < buffer@.len() ==> #[trigger] buffer@[i] == 0,
    {
        let size: usize = core::mem::size_of::<T>();
        Self::allocate(count * size)
    }

    /// The buffer size in bytes.
    pub fn len(&self) -> (n: usize)
        ensures
            n == self@.len(),
    {
        self.bytes.len()
    }

    /// Whether the buffer has zero length.
    pub fn is_empty(&self) -> (r: bool)
        ensures
            r == (self@.len() == 0),
    {
        self.bytes.len() == 0
    }

    /// The bytes of the buffer.
    pub fn as_bytes(&self) -> (bytes: &Vec<u8>)
        ensures
            bytes@ == self@,
    {
        &self.bytes
    }

    /// Copy values to the front of the buffer.
    pub fn copy_from_slice<T: Plain>(&mut self, values: &[T])
        requires
            values@.len() * T::width() <= old(self)@.len(),
        ensures
            final(self)@ == bytes_of(values@) + old(self)@.skip(bytes_of(values@).len() as int),
            bytes_of(values@).len() == values@.len() * T::width(),
    {
        let size: usize = T::size();
        let total: usize = self.bytes.len();
        let ghost before = self@;
        let mut i: usize = 0;
        let mut at: usize = 0;
        assert(values@.take(0) =~= Seq::<T>::empty());
        assert(self@ =~= bytes_of(values@.take(0)) + before.skip(0));
        while i < values.len()
            invariant
                i <= values@.len(),
                size == T::width(),
                size > 0,
                before == old(self)@,
                total == before.len(),
                values@.len() * T::width() <= before.len(),
                at == i * T::width(),
                bytes_of(values@.take(i as int)).len() == at,
                self@.len() == before.len(),
                self@ == bytes_of(values@.take(i as int)) + before.skip(at as int),
            decreases values@.len() - i,
        {
            let ghost front = bytes_of(values@.take(i as int));
            let ghost word = values@[i as int].to_bytes();
            proof {
                T::faithful(values@[i as int], values@[i as int]);
                let n = values@.len() as int;
                let w = T::width() as int;
                assert((i + 1) * w == i * w + w) by (nonlinear_arith);
                assert((i + 1) * w <= n * w) by (nonlinear_arith)
                    requires
                        i + 1 <= n,
                        w >= 0,
                ;
                assert(values@.take(i as int + 1).drop_last() =~= values@.take(i as int));
                assert(values@.take(i as int + 1).last() == values@[i as int]);
                assert(before.skip(at as int).skip(0) =~= before.skip(at as int));
                assert(self@ =~= front + word.take(0) + before.skip(at as int));
            }
            let mut k: usize = 0;
            while k < size
                invariant
                    k <= size,
                    i < values@.len(),
                    size == T::width(),
                    total == before.len(),
                    at + size <= total,
                    front.len() == at,
                    word == values@[i as int].to_bytes(),
                    word.len() == size,
                    self@.len() == before.len(),
                    self@ == front + word.take(k as int) + before.skip(at + k),
                decreases size - k,
            {
                let b: u8 = values[i].byte(k);
                self.bytes.set(at + k, b);
                k = k + 1;
                assert(self@ =~= front + word.take(k as int) + before.skip(at + k));
            }
            assert(word.take(size as int) =~= word);
            at = at + size;
            i = i + 1;
        }
        assert(values@.take(i as int) =~= values@);
    }

    /// Read values from the front of the buffer.
    pub fn read_to_vec<T: Plain>(&self, count: usize) -> (values: Vec<T>)
        requires
            count * T::width() <= self@.len(),
        ensures
            values@.len() == count,
            bytes_of(values@) == self@.take(count * T::width()),
    {
        let size: usize = T::size();
        let total: usize = self.bytes.len();
        let mut values: Vec<T> = Vec::new();
        let mut i: usize = 0;
        let mut at: usize = 0;
        assert(self@.take(0) =~= Seq::<u8>::empty());
        while i < count
            invariant
                i <= count,
                size == T::width(),
                count * T::width() <= self@.len(),
                total == self@.len(),
                at == i * T::width(),
                values@.len() == i,
                bytes_of(values@) == self@.take(at as int),
            decreases count - i,
        {
            proof {
                let n = count as int;
                let w = T::width() as int;
                assert((i + 1) * w == i * w + w) by (nonlinear_arith);
                assert((i + 1) * w <= n * w) by (nonlinear_arith)
                    requires
                        i + 1 <= n,
                        w >= 0,
                ;
            }
            let value = T::read(&self.bytes, at);
            let ghost so_far = values@;
            values.push(value);
            assert(values@.drop_last() =~= so_far);
            at = at + size;
            i = i + 1;
            assert(bytes_of(values@) =~= self@.take(at as int));
        }
        values
    }
}

/// Different values of equal number have different bytes.
pub proof fn lemma_bytes_faithful<T: Plain>(a: Seq<T>, b: Seq<T>)
    requires
        a.len() == b.len(),
        bytes_of(a) == bytes_of(b),
    ensures
        a == b,
    decreases a.len(),
{
    if a.len() > 0 {
        let x = a.last();
        let y = b.last();
        T::faithful(x, y);
        T::faithful(y, x);
        let p = bytes_of(a.drop_last());
        let q = bytes_of(b.drop_last());
        assert(bytes_of(a).len() == p.len() + x.to_bytes().len());
        assert(bytes_of(b).len() == q.len() + y.to_bytes().len());
        assert(p =~= bytes_of(a).take(p.len() as int));
        assert(q =~= bytes_of(b).take(q.len() as int));
        assert(x.to_bytes() =~= bytes_of(a).skip(p.len() as int));
        assert(y.to_bytes() =~= bytes_of(b).skip(q.len() as int));
        lemma_bytes_faithful(a.drop_last(), b.drop_last());
        assert(a =~= a.drop_last().push(x));
        assert(b =~= b.drop_last().push(y));
    } else {
        assert(a =~= b);
    }
}

/// What was copied into a buffer is read back unchanged.
pub proof fn lemma_copy_roundtrip<T: Plain>(values: Seq<T>, before: Seq<u8>, read: Seq<T>)
    requires
        bytes_of(values).len() == values.len() * T::width(),
        read.len() == values.len(),
        bytes_of(read) == (bytes_of(values) + before.skip(bytes_of(values).len() as int)).take(
            (values.len() * T::width()) as int,
        ),
    ensures
        read == values,
{
    assert(bytes_of(read) =~= bytes_of(values));
    lemma_bytes_faithful(read, values);
}

/// Completion handle for a copy staged through a pinned buffer.
#[derive(Debug)]
pub struct AsyncPinnedCopy<T> {
    staged: PinnedBuffer,
    count: usize,
    element: core::marker::PhantomData<T>,
}

impl<T: Plain> AsyncPinnedCopy<T> {
    /// The staged values are these.
    pub closed spec fn holds(&self, values: Seq<T>) -> bool {
        &&& values.len() == self.count
        &&& values.len() * T::width() <= self.staged@.len()
        &&& bytes_of(values).len() == values.len() * T::width()
        &&& self.staged@.take(bytes_of(values).len() as int) == bytes_of(values)
    }

    /// Wait for the copy to complete and return the staged values.
    pub fn wait(self) -> (values: Vec<T>)
        requires
            exists|staged: Seq<T>| self.holds(staged),
        ensures
            self.holds(values@),
            forall|staged: Seq<T>| #[trigger] self.holds(staged) ==> values@ == staged,
    {
        let values = self.staged.read_to_vec::<T>(self.count);
        assert forall|staged: Seq<T>| #[trigger] self.holds(staged) implies values@ == staged by {
            lemma_bytes_faithful(values@, staged);
        }
        values
    }
}

/// Waiting for a copy gives back what was staged, in order and in number, for every
/// sequence that a handle can hold, the empty one included.
pub proof fn lemma_wait_roundtrip<T: Plain>(
    handle: AsyncPinnedCopy<T>,
    staged: Seq<T>,
    waited: Seq<T>,
)
    requires
        handle.holds(staged),
        handle.holds(waited),
    ensures
        waited == staged,
{
    lemma_bytes_faithful(waited, staged);
}

/// Stage token ids through a pinned buffer. They must fit into one.
pub fn async_copy_token_ids(token_ids: &[u32]) -> (handle: AsyncPinnedCopy<u32>)
    requires
        allocatable((token_ids@.len() * 4) as int),
    ensures
        handle.holds(token_ids@),
{
    let count: usize = token_ids.len();
    let bytes: usize = if count == 0 {
        4
    } else {
        count * 4
    };
    let mut staged = PinnedBuffer::allocate(bytes);
    staged.copy_from_slice(token_ids);
    proof {
        let n = bytes_of(token_ids@).len() as int;
        assert(staged@.take(n) =~= bytes_of(token_ids@));
    }
    AsyncPinnedCopy { staged, count, element: core::marker::PhantomData }
}

/// A number is laid out by its bytes, the lowest first, and numbers one after the other.
pub proof fn lemma_little_endian(x: u32, a: Seq<u32>, b: Seq<u32>)
    ensures
        x.to_bytes().len() == 4,
        x == x.to_bytes()[0] + 0x100 * x.to_bytes()[1] + 0x1_0000 * x.to_bytes()[2] + 0x100_0000
            * x.to_bytes()[3],
        bytes_of(a + b) == bytes_of(a) + bytes_of(b),
        bytes_of(seq![x]) == x.to_bytes(),
    decreases b.len(),
{
    reveal_with_fuel(bytes_of, 2);
    assert(seq![x].drop_last() =~= Seq::<u32>::empty());
    assert(Seq::<u8>::empty() + x.to_bytes() =~= x.to_bytes());
    if b.len() == 0 {
        assert(a + b =~= a);
        assert(bytes_of(a) + Seq::<u8>::empty() =~= bytes_of(a));
    } else {
        lemma_little_endian(x, a, b.drop_last());
        assert((a + b).drop_last() =~= a + b.drop_last());
        assert(bytes_of(a + b) =~= bytes_of(a) + bytes_of(b));
    }
}

} // verus!
