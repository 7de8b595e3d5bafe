use vstd::prelude::*;
use vstd::string::StringSliceAdditionalSpecFns;

verus! {

/// The half-open byte range `self.0 .. self.1` of a writer's buffer.
#[derive(Debug, Clone, Copy, PartialEq, Eq, Structural)]
pub struct BufferRegion(pub usize, pub usize);

impl BufferRegion {
    pub fn new(offset: usize, size: usize) -> (r: Self)
        requires
            offset + size <= usize::MAX,
        ensures
            r.0 == offset,
            r.1 == offset + size,
    {
        Self(offset, offset + size)
    }

    pub fn range(&self) -> (r: std::ops::Range<usize>)
        ensures
            r.start == self.0,
            r.end == self.1,
    {
        self.0..self.1
    }
}

/// How `Writer::insert` places bytes.
#[derive(Debug, Clone, Copy, PartialEq, Eq, Structural)]
pub enum Operation {
    /// Appends to the end of the buffer.
    Append,
    /// Overwrites the given region.
    Update(BufferRegion),
}

/// The four little-endian bytes of `v`.
pub open spec fn le_bytes(v: u32) -> Seq<u8> {
    seq![v as u8, (v >> 8u32) as u8, (v >> 16u32) as u8, (v >> 24u32) as u8]
}

/// `b` with `src` written over `b[start..start + src.len()]`.
pub open spec fn overwrite(b: Seq<u8>, start: int, src: Seq<u8>) -> Seq<u8> {
    b.subrange(0, start) + src + b.subrange(start + src.len(), b.len() as int)
}

/// What `insert` leaves in a buffer `b` for `op` and `src`.
pub open spec fn inserted(b: Seq<u8>, op: Operation, src: Seq<u8>) -> Seq<u8> {
    match op {
        Operation::Append => b + src,
        Operation::Update(region) => overwrite(b, region.0 as int, src),
    }
}

/// `op` can be carried out on a buffer `b` with `src`.
pub open spec fn insert_allowed(b: Seq<u8>, op: Operation, src: Seq<u8>) -> bool {
    match op {
        Operation::Append => b.len() + src.len() <= usize::MAX,
        Operation::Update(region) => region.0 <= region.1 <= b.len() && region.1 - region.0
            == src.len(),
    }
}

/// The region that `insert` reports for `op` and `src` on a buffer `b`.
pub open spec fn inserted_region(b: Seq<u8>, op: Operation, src: Seq<u8>) -> BufferRegion {
    match op {
        Operation::Append => BufferRegion(b.len() as usize, (b.len() + src.len()) as usize),
        Operation::Update(region) => region,
    }
}

/// An in-memory output file.
pub struct Writer {
    filename: String,
    buffer: Vec<u8>,
}

impl View for Writer {
    type V = Seq<u8>;

    closed spec fn view(&self) -> Seq<u8> {
        self.buffer@
    }
}

impl Writer {
    pub closed spec fn spec_filename(&self) -> Seq<char> {
        self.filename@
    }

    pub fn new(filename: &str) -> (r: Self)
        ensures
            r@ == Seq::<u8>::empty(),
            r.spec_filename() == filename@,
    {
        Self { filename: filename.to_owned(), buffer: Vec::new() }
    }

    /// The name of the file the buffer is meant for.
    pub fn filename(&self) -> (r: &str)
        ensures
            r@ == self.spec_filename(),
    {
        self.filename.as_str()
    }

    /// The bytes written so far.
    pub fn buffer(&self) -> (r: &Vec<u8>)
        ensures
            r@ == self@,
    {
        &self.buffer
    }

    pub fn clear(&mut self)
        ensures
            final(self)@ == Seq::<u8>::empty(),
            final(self).spec_filename() == old(self).spec_filename(),
    {
        self.buffer.clear();
    }

    /// Pads with `filler` (zero by default) up to a multiple of `alignment`.
    pub fn append_padding(&mut self, alignment: usize, filler: Option<u8>)
        requires
            alignment > 0,
            old(self)@.len() + alignment <= usize::MAX,
        ensures
            final(self).spec_filename() == old(self).spec_filename(),
            final(self)@ == old(self)@ + Seq::new(
                crate::layout::align_gap(old(self)@.len(), alignment as nat),
                |_i: int|
                    match filler {
                        Some(b) => b,
                        None => 0u8,
                    },
            ),
    {
        let byte = match filler {
            Some(b) => b,
            None => 0,
        };
        let m = self.buffer.len() % alignment;
        let gap = if m == 0 {
            0
        } else {
            alignment - m
        };
        crate::layout::append_filler(&mut self.buffer, byte, gap);
        proof {
            crate::layout::lemma_gap_aligns(old(self)@.len(), alignment as nat);
        }
        assert(self.buffer@ =~= old(self)@ + Seq::new(
            crate::layout::align_gap(old(self)@.len(), alignment as nat),
            |_i: int|
                match filler {
                    Some(b) => b,
                    None => 0u8,
                },
        ));
    }

    pub fn insert_buffer(&mut self, operation: Operation, buffer: &[u8]) -> (r: BufferRegion)
        requires
            insert_allowed(old(self)@, operation, buffer@),
        ensures
            final(self).spec_filename() == old(self).spec_filename(),
            final(self)@ == inserted(old(self)@, operation, buffer@),
            r == inserted_region(old(self)@, operation, buffer@),
    {
        self.insert(operation, buffer)
    }

    /// Inserts the UTF-8 bytes of `value`.
    pub fn insert_string(&mut self, operation: Operation, value: &str) -> (r: BufferRegion)
        requires
            insert_allowed(old(self)@, operation, value.spec_bytes()),
        ensures
            final(self).spec_filename() == old(self).spec_filename(),
            final(self)@ == inserted(old(self)@, operation, value.spec_bytes()),
            r == inserted_region(old(self)@, operation, value.spec_bytes()),
    {
        let bytes = value.as_bytes();
        self.insert(operation, bytes)
    }

    /// Inserts the four little-endian bytes of `value`.
    pub fn insert_u32(&mut self, operation: Operation, value: u32) -> (r: BufferRegion)
        requires
            insert_allowed(old(self)@, operation, le_bytes(value)),
        ensures
            final(self).spec_filename() == old(self).spec_filename(),
            final(self)@ == inserted(old(self)@, operation, le_bytes(value)),
            r == inserted_region(old(self)@, operation, le_bytes(value)),
    {
        let bytes: [u8; 4] = [
            #[verifier::truncate] (value as u8),
            #[verifier::truncate] ((value >> 8u32) as u8),
            #[verifier::truncate] ((value >> 16u32) as u8),
            #[verifier::truncate] ((value >> 24u32) as u8),
        ];
        assert(bytes@ =~= le_bytes(value));
        self.insert(operation, bytes.as_slice())
    }

    /// Appends `count` copies of `filler`.
    pub fn append_dup(&mut self, filler: u8, count: usize) -> (r: BufferRegion)
        requires
            old(self)@.len() + count <= usize::MAX,
        ensures
            final(self).spec_filename() == old(self).spec_filename(),
            final(self)@ == old(self)@ + Seq::new(count as nat, |_i: int| filler),
            r == BufferRegion(old(self)@.len() as usize, (old(self)@.len() + count) as usize),
    {
        let offset = self.buffer.len();
        crate::layout::append_filler(&mut self.buffer, filler, count);
        BufferRegion::new(offset, count)
    }

    pub fn offset(&self) -> (r: usize)
        ensures
            r == self@.len(),
    {
        self.buffer.len()
    }

    pub fn insert(&mut self, operation: Operation, buffer: &[u8]) -> (r: BufferRegion)
        requires
            insert_allowed(old(self)@, operation, buffer@),
        ensures
            final(self).spec_filename() == old(self).spec_filename(),
            final(self)@ == inserted(old(self)@, operation, buffer@),
            r == inserted_region(old(self)@, operation, buffer@),
    {
        match operation {
            Operation::Append => self.append_buffer(buffer),
            Operation::Update(buffer_region) => self.update_buffer(buffer_region, buffer),
        }
    }

    pub fn append_buffer(&mut self, buffer: &[u8]) -> (r: BufferRegion)
        requires
            old(self)@.len() + buffer@.len() <= usize::MAX,
        ensures
            final(self).spec_filename() == old(self).spec_filename(),
            final(self)@ == old(self)@ + buffer@,
            r == BufferRegion(old(self)@.len() as usize, (old(self)@.len() + buffer@.len()) as usize),
    {
        let offset = self.buffer.len();
        let mut i: usize = 0;
        while i < buffer.len()
            invariant
                i <= buffer@.len(),
                self.filename == old(self).filename,
                self.buffer@ == old(self)@ + buffer@.take(i as int),
            decreases buffer.len() - i,
        {
            self.buffer.push(buffer[i]);
            i = i + 1;
            assert(self.buffer@ =~= old(self)@ + buffer@.take(i as int));
        }
        assert(buffer@.take(buffer@.len() as int) =~= buffer@);
        BufferRegion::new(offset, buffer.len())
    }

    pub fn update_buffer(&mut self, buffer_region: BufferRegion, buffer: &[u8]) -> (r: BufferRegion)
        requires
            buffer_region.0 <= buffer_region.1 <= old(self)@.len(),
            buffer_region.1 - buffer_region.0 == buffer@.len(),
        ensures
            final(self).spec_filename() == old(self).spec_filename(),
            final(self)@ == overwrite(old(self)@, buffer_region.0 as int, buffer@),
            r == buffer_region,
    {
        let start = buffer_region.0;
        let _n = self.buffer.len();
        let mut i: usize = 0;
        while i < buffer.len()
            invariant
                i <= buffer@.len(),
                start == buffer_region.0,
                start + buffer@.len() <= old(self)@.len(),
                old(self)@.len() <= usize::MAX,
                self.filename == old(self).filename,
                self.buffer@.len() == old(self)@.len(),
                forall|k: int| 0 <= k < start ==> #[trigger] self.buffer@[k] == old(self)@[k],
                forall|k: int| 0 <= k < i ==> #[trigger] self.buffer@[start + k] == buffer@[k],
                forall|k: int| start + i <= k < old(self)@.len() ==> #[trigger] self.buffer@[k] == old(self)@[k],
            decreases buffer.len() - i,
        {
            self.buffer.set(start + i, buffer[i]);
            i = i + 1;
        }
        let ghost o = overwrite(old(self)@, buffer_region.0 as int, buffer@);
        assert forall|k: int| 0 <= k < o.len() implies #[trigger] self.buffer@[k] == o[k] by {
            if k >= start && k < start + buffer@.len() {
                assert(self.buffer@[start + (k - start)] == buffer@[k - start]);
            }
        }
        assert(self.buffer@ =~= o);
        buffer_region
    }
}

} // verus!
