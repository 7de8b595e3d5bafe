use vstd::prelude::*;

use crate::layout::align_gap;
use crate::patch::{lemma_bytes_of_word, word_at, wrap32, wrap_usize};
use crate::writer::{BufferRegion, Operation, Writer, le_bytes};

verus! {

/// `"MENUET01"`.
pub open spec fn magic() -> Seq<u8> {
    seq![0x4Du8, 0x45u8, 0x4Eu8, 0x55u8, 0x45u8, 0x54u8, 0x30u8, 0x31u8]
}

/// The fixed header: magic, version 1, entry point, code end, image end,
/// initial stack pointer, and null parameter and icon pointers.
pub open spec fn header_bytes(entry: u32, code_end: u32, image_end: u32, stack: u32) -> Seq<u8> {
    magic() + le_bytes(1) + le_bytes(entry) + le_bytes(code_end) + le_bytes(image_end) + le_bytes(
        stack,
    ) + le_bytes(0) + le_bytes(0)
}

/// Where the code region starts: right after the 36 header bytes.
pub open spec fn code_base_of() -> nat {
    36
}

/// Where the data region starts: after the code, 16-byte padding and a 4 KiB stack.
pub open spec fn data_base_of(code_len: nat) -> nat {
    let code_end = code_base_of() + code_len;
    code_end + align_gap(code_end, 16) + 4096
}

/// The MENUET01 image of the two regions.
pub open spec fn kos_image(code: Seq<u8>, data: Seq<u8>) -> Seq<u8> {
    let data_base = data_base_of(code.len());
    header_bytes(
        wrap32(code_base_of() as int),
        wrap32((code_base_of() + code.len()) as int),
        wrap32((data_base + data.len()) as int),
        wrap32(data_base as int),
    ) + code + Seq::new((data_base - code_base_of() - code.len()) as nat, |_i: int| 0u8) + data
}

/// The image of the two regions fits in memory.
pub open spec fn image_fits(code_len: nat, data_len: nat) -> bool {
    code_base_of() + code_len + 32 + 4096 + data_len <= usize::MAX
}

/// Header consistency: the entry point is the start of the code region, the
/// code end is its end, the image end is the end of the data region, and
/// the stack top is the start of the data region, which follows the stack.
pub proof fn lemma_header_consistent(code: Seq<u8>, data: Seq<u8>)
    ensures
        ({
            let image = kos_image(code, data);
            let data_base = data_base_of(code.len());
            &&& word_at(image, 12) == wrap32(code_base_of() as int)
            &&& word_at(image, 16) == wrap32((code_base_of() + code.len()) as int)
            &&& word_at(image, 20) == wrap32((data_base + data.len()) as int)
            &&& word_at(image, 24) == wrap32(data_base as int)
            &&& image.subrange(code_base_of() as int, (code_base_of() + code.len()) as int) == code
            &&& image.subrange(data_base as int, (data_base + data.len()) as int) == data
            &&& image.len() == data_base + data.len()
        }),
{
    let image = kos_image(code, data);
    let data_base = data_base_of(code.len());
    let cb = wrap32(code_base_of() as int);
    let ce = wrap32((code_base_of() + code.len()) as int);
    let ie = wrap32((data_base + data.len()) as int);
    let sp = wrap32(data_base as int);
    let h = header_bytes(cb, ce, ie, sp);
    assert(h.len() == 36);
    lemma_bytes_of_word(cb);
    lemma_bytes_of_word(ce);
    lemma_bytes_of_word(ie);
    lemma_bytes_of_word(sp);
    assert(image[12] == h[12] && image[13] == h[13] && image[14] == h[14] && image[15] == h[15]);
    assert(image[16] == h[16] && image[17] == h[17] && image[18] == h[18] && image[19] == h[19]);
    assert(image[20] == h[20] && image[21] == h[21] && image[22] == h[22] && image[23] == h[23]);
    assert(image[24] == h[24] && image[25] == h[25] && image[26] == h[26] && image[27] == h[27]);
    assert(image.subrange(code_base_of() as int, (code_base_of() + code.len()) as int) =~= code);
    assert(image.subrange(data_base as int, (data_base + data.len()) as int) =~= data);
}

/// Regions of the header fields that the loader reads.
struct Header {
    code_begin_offset: BufferRegion,
    code_end_offset: BufferRegion,
    memory_offset: BufferRegion,
    stack_offset: BufferRegion,
}

/// A MENUET01 executable under construction.
pub struct KosApplication {
    writer: Writer,
}

impl View for KosApplication {
    type V = Seq<u8>;

    closed spec fn view(&self) -> Seq<u8> {
        self.writer@
    }
}

impl KosApplication {
    pub closed spec fn spec_filename(&self) -> Seq<char> {
        self.writer.spec_filename()
    }

    pub fn new(filename: &str) -> (r: Self)
        ensures
            r@ == Seq::<u8>::empty(),
            r.spec_filename() == filename@,
    {
        Self { writer: Writer::new(filename) }
    }

    /// The image built last.
    pub fn image(&self) -> (r: &Vec<u8>)
        ensures
            r@ == self@,
    {
        self.writer.buffer()
    }

    pub fn filename(&self) -> (r: &str)
        ensures
            r@ == self.spec_filename(),
    {
        self.writer.filename()
    }

    /// Where the code and the data regions start in an image whose regions
    /// have these sizes.
    pub fn get_offsets(&mut self, code_size: usize, data_size: usize) -> (r: (usize, usize))
        requires
            image_fits(code_size as nat, data_size as nat),
        ensures
            r.0 == code_base_of(),
            r.1 == data_base_of(code_size as nat),
            final(self).spec_filename() == old(self).spec_filename(),
    {
        let code = vec![0u8; code_size];
        let data = vec![0u8; data_size];
        self.build(code, data)
    }

    /// Builds the image of the two regions and returns where they start.
    pub fn build(&mut self, code: Vec<u8>, data: Vec<u8>) -> (r: (usize, usize))
        requires
            image_fits(code@.len(), data@.len()),
        ensures
            final(self)@ == kos_image(code@, data@),
            r.0 == code_base_of(),
            r.1 == data_base_of(code@.len()),
            final(self).spec_filename() == old(self).spec_filename(),
    {
        let code_begin: usize = 36;
        let code_end = code_begin + code.len();
        let gap = if code_end % 16 == 0 {
            0
        } else {
            16 - code_end % 16
        };
        let memory_begin = code_end + gap + 4096;
        let memory_end = memory_begin + data.len();
        self.writer.clear();
        let _header = self.write_header(
            wrap_usize(code_begin),
            wrap_usize(code_end),
            wrap_usize(memory_end),
            wrap_usize(memory_begin),
        );
        let ghost h = self.writer@;
        let writer = &mut self.writer;
        writer.append_padding(4, None);
        assert(writer@ =~= h);
        writer.insert_buffer(Operation::Append, code.as_slice());
        writer.append_padding(16, None);
        writer.append_dup(0, 4096);
        proof {
            crate::layout::lemma_gap_aligns(code_end as nat, 16);
            vstd::arithmetic::div_mod::lemma_mod_add_multiples_vanish((code_end + gap) as int, 16);
            assert(((code_end + gap + 4096) as int) % 16 == 0) by {
                vstd::arithmetic::div_mod::lemma_add_mod_noop((code_end + gap) as int, 4096, 16);
            }
        }
        writer.append_padding(16, None);
        writer.insert_buffer(Operation::Append, data.as_slice());
        assert(writer@ =~= kos_image(code@, data@));
        (code_begin, memory_begin)
    }

    /// Appends the header with the given field values.
    fn write_header(&mut self, entry: u32, code_end: u32, image_end: u32, stack: u32) -> (r: Header)
        requires
            old(self)@.len() == 0,
        ensures
            final(self)@ == header_bytes(entry, code_end, image_end, stack),
            final(self).spec_filename() == old(self).spec_filename(),
            r.code_begin_offset == BufferRegion(12, 16),
            r.code_end_offset == BufferRegion(16, 20),
            r.memory_offset == BufferRegion(20, 24),
            r.stack_offset == BufferRegion(24, 28),
    {
        let writer = &mut self.writer;
        let identifier: [u8; 8] = [0x4D, 0x45, 0x4E, 0x55, 0x45, 0x54, 0x30, 0x31];
        writer.insert_buffer(Operation::Append, identifier.as_slice());
        writer.insert_u32(Operation::Append, 1);
        let code_begin_offset = writer.insert_u32(Operation::Append, entry);
        let code_end_offset = writer.insert_u32(Operation::Append, code_end);
        let memory_offset = writer.insert_u32(Operation::Append, image_end);
        let stack_offset = writer.insert_u32(Operation::Append, stack);
        writer.insert_u32(Operation::Append, 0);
        writer.insert_u32(Operation::Append, 0);
        assert(identifier@ =~= magic());
        assert(writer@ =~= header_bytes(entry, code_end, image_end, stack));
        Header { code_begin_offset, code_end_offset, memory_offset, stack_offset }
    }
}

} // verus!
