use vstd::prelude::*;
use vstd::arithmetic::div_mod::{lemma_fundamental_div_mod, lemma_mod_multiples_basic};
use vstd::string::StringExecFns;

use crate::data_table::{DataEntry, DataKind, DataTable};
use crate::error::LinkError;
use crate::placement::{Placement, PlacementMap};
use crate::symbol_table::{SymbolEntry, SymbolTable, SymbolTag};

verus! {

/// The tag of the entry point, `_start`.
pub open spec fn entry_tag() -> Seq<char> {
    seq!['_', 's', 't', 'a', 'r', 't']
}

/// The section that holds the definition of `t`, if `t` is resolved.
pub open spec fn section_of(
    st: Map<Seq<char>, SymbolEntry>,
    dt: Seq<DataEntry>,
    t: Seq<char>,
) -> Option<DataEntry> {
    if st.contains_key(t) {
        match st[t] {
            SymbolEntry::Resolved(r) => if 1 <= r.target.0 <= dt.len() {
                Some(dt[r.target.0 - 1])
            } else {
                None
            },
            SymbolEntry::Unresolved => None,
        }
    } else {
        None
    }
}

/// The section of `u` has a relocation that targets `v`.
pub open spec fn references(
    st: Map<Seq<char>, SymbolEntry>,
    dt: Seq<DataEntry>,
    u: Seq<char>,
    v: Seq<char>,
) -> bool {
    match section_of(st, dt, u) {
        Some(s) => exists|i: int|
            0 <= i < s.relocations@.len() && #[trigger] s.relocations@[i].target@ == v,
        None => false,
    }
}

/// `path` starts at `_start` and each tag in it references the next.
pub open spec fn is_reference_path(
    st: Map<Seq<char>, SymbolEntry>,
    dt: Seq<DataEntry>,
    path: Seq<Seq<char>>,
) -> bool {
    &&& path.len() > 0
    &&& path[0] == entry_tag()
    &&& forall|i: int| 0 <= i < path.len() - 1 ==> references(st, dt, #[trigger] path[i], path[i + 1])
}

/// `t` lies in the transitive reference closure of `_start`.
pub open spec fn reachable(st: Map<Seq<char>, SymbolEntry>, dt: Seq<DataEntry>, t: Seq<char>) -> bool {
    exists|path: Seq<Seq<char>>| #[trigger] is_reference_path(st, dt, path) && path.last() == t
}

/// The filler byte of a region: NOP in code, zero in data.
pub open spec fn pad_byte(kind: DataKind) -> u8 {
    match kind {
        DataKind::Code => 0x90u8,
        DataKind::Data => 0u8,
    }
}

/// How many bytes take `len` to the next multiple of `alignment`.
pub open spec fn align_gap(len: nat, alignment: nat) -> nat {
    if alignment == 0 || len % alignment == 0 {
        0
    } else {
        (alignment - len % alignment) as nat
    }
}

/// The zero-fill that follows a section's bytes.
pub open spec fn bss_len(s: DataEntry) -> nat {
    if s.size > s.data@.len() {
        (s.size - s.data@.len()) as nat
    } else {
        0
    }
}

pub open spec fn filler(pad: u8, n: nat) -> Seq<u8> {
    Seq::new(n, |_i: int| pad)
}

/// The bytes of a region that holds copies of `secs` in this order, each
/// aligned with `pad` bytes and followed by its zero-fill.
pub open spec fn region(secs: Seq<DataEntry>, pad: u8) -> Seq<u8>
    decreases secs.len(),
{
    if secs.len() == 0 {
        Seq::empty()
    } else {
        let prev = region(secs.drop_last(), pad);
        let s = secs.last();
        prev + filler(pad, align_gap(prev.len(), s.alignment as nat)) + s.data@ + filler(
            pad,
            bss_len(s),
        )
    }
}

/// Where the copy of `secs[i]` starts in `region(secs, pad)`.
pub open spec fn start_of(secs: Seq<DataEntry>, i: int, pad: u8) -> nat {
    let prev = region(secs.take(i), pad);
    prev.len() + align_gap(prev.len(), secs[i].alignment as nat)
}

/// The sections of the placed tags, in placement order.
pub open spec fn placed_sections(
    st: Map<Seq<char>, SymbolEntry>,
    dt: Seq<DataEntry>,
    ps: Seq<Placement>,
) -> Seq<DataEntry> {
    Seq::new(ps.len(), |i: int| section_of(st, dt, ps[i].tag@)->0)
}

/// `buf` holds exactly the placed sections of kind `kind`, laid out in
/// placement order, and each placement records where its copy starts.
pub open spec fn region_matches(
    st: Map<Seq<char>, SymbolEntry>,
    dt: Seq<DataEntry>,
    ps: Seq<Placement>,
    buf: Seq<u8>,
    kind: DataKind,
) -> bool {
    let secs = placed_sections(st, dt, ps);
    &&& forall|i: int|
        0 <= i < ps.len() ==> {
            &&& #[trigger] section_of(st, dt, ps[i].tag@) is Some
            &&& secs[i].kind == kind
            &&& ps[i].size == secs[i].size
            &&& ps[i].offset == start_of(secs, i, pad_byte(kind))
        }
    &&& buf == region(secs, pad_byte(kind))
}

/// The two laid-out buffers and where each reachable symbol's copy is.
pub struct Layout {
    pub code: Vec<u8>,
    pub data: Vec<u8>,
    pub code_placement: PlacementMap,
    pub data_placement: PlacementMap,
}

impl Layout {
    pub open spec fn placed(&self, t: Seq<char>) -> bool {
        self.code_placement.has(t) || self.data_placement.has(t)
    }

    /// What a successful layout of the tables `st` and `dt` satisfies.
    pub open spec fn laid_out_from(
        &self,
        st: Map<Seq<char>, SymbolEntry>,
        dt: Seq<DataEntry>,
    ) -> bool {
        &&& self.code_placement.wf()
        &&& self.data_placement.wf()
        &&& region_matches(st, dt, self.code_placement@, self.code@, DataKind::Code)
        &&& region_matches(st, dt, self.data_placement@, self.data@, DataKind::Data)
        &&& forall|t: Seq<char>| #[trigger] self.placed(t) <==> reachable(st, dt, t)
    }
}

/// Every entry of the table can be laid out: its alignment is positive.
pub open spec fn alignments_positive(dt: Seq<DataEntry>) -> bool {
    forall|i: int| 0 <= i < dt.len() ==> #[trigger] dt[i].alignment > 0
}

/// A set that holds `_start` and is closed under references holds every reachable tag.
proof fn lemma_closed_set_holds_reachable(
    st: Map<Seq<char>, SymbolEntry>,
    dt: Seq<DataEntry>,
    s: Set<Seq<char>>,
    t: Seq<char>,
)
    requires
        s.contains(entry_tag()),
        forall|u: Seq<char>, v: Seq<char>|
            s.contains(u) && #[trigger] references(st, dt, u, v) ==> s.contains(v),
        reachable(st, dt, t),
    ensures
        s.contains(t),
{
    let path = choose|path: Seq<Seq<char>>| #[trigger] is_reference_path(st, dt, path) && path.last() == t;
    lemma_path_prefix_in_set(st, dt, s, path, path.len() - 1);
}

proof fn lemma_path_prefix_in_set(
    st: Map<Seq<char>, SymbolEntry>,
    dt: Seq<DataEntry>,
    s: Set<Seq<char>>,
    path: Seq<Seq<char>>,
    i: int,
)
    requires
        s.contains(entry_tag()),
        forall|u: Seq<char>, v: Seq<char>|
            s.contains(u) && #[trigger] references(st, dt, u, v) ==> s.contains(v),
        is_reference_path(st, dt, path),
        0 <= i < path.len(),
    ensures
        s.contains(path[i]),
    decreases i,
{
    if i > 0 {
        lemma_path_prefix_in_set(st, dt, s, path, i - 1);
        assert(references(st, dt, path[i - 1], path[i]));
    }
}

proof fn lemma_reference_step(st: Map<Seq<char>, SymbolEntry>, dt: Seq<DataEntry>, u: Seq<char>, v: Seq<char>)
    requires
        reachable(st, dt, u),
        references(st, dt, u, v),
    ensures
        reachable(st, dt, v),
{
    let path = choose|path: Seq<Seq<char>>| #[trigger] is_reference_path(st, dt, path) && path.last() == u;
    let longer = path.push(v);
    assert forall|i: int| 0 <= i < longer.len() - 1 implies references(st, dt, #[trigger] longer[i], longer[i + 1]) by {
        if i < path.len() - 1 {
            assert(references(st, dt, path[i], path[i + 1]));
        }
    }
    assert(is_reference_path(st, dt, longer));
}

proof fn lemma_entry_reachable(st: Map<Seq<char>, SymbolEntry>, dt: Seq<DataEntry>)
    ensures
        reachable(st, dt, entry_tag()),
{
    let path = seq![entry_tag()];
    assert(is_reference_path(st, dt, path));
}

/// The section of `tag`'s definition.
pub fn lookup_section<'a>(data_table: &'a DataTable, symbol_table: &SymbolTable, tag: &SymbolTag) -> (r:
    Option<&'a DataEntry>)
    requires
        data_table.wf(),
    ensures
        match r {
            Some(s) => section_of(symbol_table@, data_table@, tag@) == Some(*s),
            None => section_of(symbol_table@, data_table@, tag@) is None,
        },
{
    match symbol_table.get(tag) {
        Some(SymbolEntry::Resolved(resolved)) => data_table.get(&resolved.target),
        _ => None,
    }
}

/// Appends `count` copies of `byte`.
pub fn append_filler(buf: &mut Vec<u8>, byte: u8, count: usize)
    ensures
        final(buf)@ == old(buf)@ + filler(byte, count as nat),
{
    let mut i: usize = 0;
    while i < count
        invariant
            i <= count,
            buf@ == old(buf)@ + filler(byte, i as nat),
        decreases count - i,
    {
        buf.push(byte);
        i = i + 1;
        assert(buf@ =~= old(buf)@ + filler(byte, i as nat));
    }
}

/// Appends the bytes of `src`.
pub fn append_bytes(buf: &mut Vec<u8>, src: &Vec<u8>)
    ensures
        final(buf)@ == old(buf)@ + src@,
{
    let mut i: usize = 0;
    while i < src.len()
        invariant
            i <= src@.len(),
            buf@ == old(buf)@ + src@.take(i as int),
        decreases src.len() - i,
    {
        buf.push(src[i]);
        i = i + 1;
        assert(buf@ =~= old(buf)@ + src@.take(i as int));
    }
    assert(src@.take(src@.len() as int) =~= src@);
}

fn gap_to_alignment(len: usize, alignment: usize) -> (r: usize)
    requires
        alignment > 0,
    ensures
        r == align_gap(len as nat, alignment as nat),
{
    let m = len % alignment;
    if m == 0 {
        0
    } else {
        alignment - m
    }
}

/// Appends one copy of `section` for `tag` to a region.
fn place_section(
    buf: &mut Vec<u8>,
    placements: &mut PlacementMap,
    tag: SymbolTag,
    section: &DataEntry,
    pad: u8,
)
    requires
        old(placements).wf(),
        !old(placements).has(tag@),
        section.alignment > 0,
    ensures
        final(placements).wf(),
        final(buf)@ == old(buf)@ + filler(pad, align_gap(old(buf)@.len(), section.alignment as nat))
            + section.data@ + filler(pad, bss_len(*section)),
        final(placements)@ == old(placements)@.push(
            Placement {
                tag,
                offset: (old(buf)@.len() + align_gap(
                    old(buf)@.len(),
                    section.alignment as nat,
                )) as usize,
                size: section.size,
            },
        ),
        final(placements)@.last().offset == old(buf)@.len() + align_gap(
            old(buf)@.len(),
            section.alignment as nat,
        ),
        forall|t: Seq<char>| #[trigger] final(placements).has(t) <==> old(placements).has(t) || t == tag@,
{
    let gap = gap_to_alignment(buf.len(), section.alignment);
    append_filler(buf, pad, gap);
    let offset = buf.len();
    placements.insert(Placement { tag, offset, size: section.size });
    append_bytes(buf, &section.data);
    if section.size > section.data.len() {
        append_filler(buf, pad, section.size - section.data.len());
    } else {
        append_filler(buf, pad, 0);
    }
}

proof fn lemma_region_push(
    st: Map<Seq<char>, SymbolEntry>,
    dt: Seq<DataEntry>,
    ps: Seq<Placement>,
    buf: Seq<u8>,
    kind: DataKind,
    p: Placement,
    s: DataEntry,
)
    requires
        region_matches(st, dt, ps, buf, kind),
        section_of(st, dt, p.tag@) == Some(s),
        s.kind == kind,
        p.size == s.size,
        p.offset == buf.len() + align_gap(buf.len(), s.alignment as nat),
    ensures
        region_matches(
            st,
            dt,
            ps.push(p),
            buf + filler(pad_byte(kind), align_gap(buf.len(), s.alignment as nat)) + s.data@ + filler(
                pad_byte(kind),
                bss_len(s),
            ),
            kind,
        ),
{
    let pad = pad_byte(kind);
    let secs = placed_sections(st, dt, ps);
    let ps2 = ps.push(p);
    let secs2 = placed_sections(st, dt, ps2);
    assert(secs2.drop_last() =~= secs);
    assert(secs2.last() == s);
    assert forall|i: int| 0 <= i < ps2.len() implies {
        &&& #[trigger] section_of(st, dt, ps2[i].tag@) is Some
        &&& secs2[i].kind == kind
        &&& ps2[i].size == secs2[i].size
        &&& ps2[i].offset == start_of(secs2, i, pad)
    } by {
        if i < ps.len() {
            assert(ps2[i] == ps[i]);
            assert(section_of(st, dt, ps[i].tag@) is Some);
            assert(secs2.take(i) =~= secs.take(i));
        } else {
            assert(secs2.take(i) =~= secs);
        }
    }
}

pub proof fn lemma_gap_aligns(len: nat, a: nat)
    requires
        a > 0,
    ensures
        ((len + align_gap(len, a)) as int) % (a as int) == 0,
{
    if len % a != 0 {
        lemma_fundamental_div_mod(len as int, a as int);
        let q = len as int / a as int;
        assert(len + align_gap(len, a) == a * (q + 1)) by (nonlinear_arith)
            requires
                len == a * q + len % a,
                align_gap(len, a) == a - len % a,
        ;
        lemma_mod_multiples_basic(q + 1, a as int);
        assert((a * (q + 1)) % (a as int) == ((q + 1) * a) % (a as int)) by (nonlinear_arith);
    }
}

/// The copy of `secs[i]` ends where the region built from its first `i + 1`
/// sections ends.
proof fn lemma_region_prefix_end(secs: Seq<DataEntry>, pad: u8, i: int)
    requires
        0 <= i < secs.len(),
    ensures
        region(secs.take(i + 1), pad).len() == start_of(secs, i, pad) + secs[i].span(),
{
    let t = secs.take(i + 1);
    assert(t.drop_last() =~= secs.take(i));
    assert(t.last() == secs[i]);
}

/// Alignment: every copy starts at a multiple of its section's alignment.
pub proof fn lemma_region_aligned(secs: Seq<DataEntry>, pad: u8, i: int)
    requires
        0 <= i < secs.len(),
        secs[i].alignment > 0,
    ensures
        (start_of(secs, i, pad) as int) % (secs[i].alignment as int) == 0,
{
    lemma_gap_aligns(region(secs.take(i), pad).len(), secs[i].alignment as nat);
}

/// Contiguity: the region starts with the first copy, each copy (its bytes
/// and its zero-fill) ends exactly where the padding before the next one
/// begins, and the region ends with the last copy.
pub proof fn lemma_region_contiguous(secs: Seq<DataEntry>, pad: u8)
    ensures
        secs.len() > 0 ==> start_of(secs, 0, pad) == 0,
        forall|i: int|
            0 <= i < secs.len() - 1 ==> #[trigger] start_of(secs, i + 1, pad) == start_of(secs, i, pad)
                + secs[i].span() + align_gap(
                start_of(secs, i, pad) + secs[i].span(),
                secs[i + 1].alignment as nat,
            ),
        secs.len() > 0 ==> region(secs, pad).len() == start_of(secs, secs.len() - 1, pad)
            + secs[secs.len() - 1].span(),
        secs.len() == 0 ==> region(secs, pad).len() == 0,
{
    if secs.len() > 0 {
        assert(secs.take(0) =~= Seq::<DataEntry>::empty());
        lemma_region_prefix_end(secs, pad, secs.len() - 1);
        assert(secs.take(secs.len() as int) =~= secs);
    }
    assert forall|i: int| 0 <= i < secs.len() - 1 implies #[trigger] start_of(secs, i + 1, pad)
        == start_of(secs, i, pad) + secs[i].span() + align_gap(
        start_of(secs, i, pad) + secs[i].span(),
        secs[i + 1].alignment as nat,
    ) by {
        lemma_region_prefix_end(secs, pad, i);
    }
}

/// Alignment of a layout: every placement's offset is a multiple of the
/// alignment of its section.
pub proof fn lemma_layout_aligned(l: &Layout, st: Map<Seq<char>, SymbolEntry>, dt: Seq<DataEntry>)
    requires
        l.laid_out_from(st, dt),
        alignments_positive(dt),
    ensures
        forall|i: int|
            0 <= i < l.code_placement@.len() ==> (#[trigger] l.code_placement@[i]).offset as int % (section_of(
                st,
                dt,
                l.code_placement@[i].tag@,
            )->0.alignment as int) == 0,
        forall|i: int|
            0 <= i < l.data_placement@.len() ==> (#[trigger] l.data_placement@[i]).offset as int % (section_of(
                st,
                dt,
                l.data_placement@[i].tag@,
            )->0.alignment as int) == 0,
{
    assert forall|i: int| 0 <= i < l.code_placement@.len() implies (#[trigger] l.code_placement@[i]).offset as int
        % (section_of(st, dt, l.code_placement@[i].tag@)->0.alignment as int) == 0 by {
        lemma_section_alignment_positive(st, dt, l.code_placement@[i].tag@);
        lemma_region_aligned(placed_sections(st, dt, l.code_placement@), 0x90u8, i);
    }
    assert forall|i: int| 0 <= i < l.data_placement@.len() implies (#[trigger] l.data_placement@[i]).offset as int
        % (section_of(st, dt, l.data_placement@[i].tag@)->0.alignment as int) == 0 by {
        lemma_section_alignment_positive(st, dt, l.data_placement@[i].tag@);
        lemma_region_aligned(placed_sections(st, dt, l.data_placement@), 0u8, i);
    }
}

proof fn lemma_section_alignment_positive(st: Map<Seq<char>, SymbolEntry>, dt: Seq<DataEntry>, t: Seq<char>)
    requires
        alignments_positive(dt),
        section_of(st, dt, t) is Some,
    ensures
        section_of(st, dt, t)->0.alignment > 0,
{
    match st[t] {
        SymbolEntry::Resolved(r) => {
            assert(dt[r.target.0 - 1].alignment > 0);
        },
        SymbolEntry::Unresolved => {},
    }
}

/// Placements of one region tile its buffer, in placement order.
pub open spec fn placements_contiguous(
    st: Map<Seq<char>, SymbolEntry>,
    dt: Seq<DataEntry>,
    ps: Seq<Placement>,
    buf: Seq<u8>,
) -> bool {
    &&& forall|i: int|
        0 <= i < ps.len() - 1 ==> {
            let end = (#[trigger] ps[i]).offset + section_of(st, dt, ps[i].tag@)->0.span() as int;
            ps[i + 1].offset == end + align_gap(
                end as nat,
                section_of(st, dt, ps[i + 1].tag@)->0.alignment as nat,
            )
        }
    &&& ps.len() == 0 ==> buf.len() == 0
    &&& ps.len() > 0 ==> ps[0].offset == 0 && buf.len() == ps.last().offset + section_of(
        st,
        dt,
        ps.last().tag@,
    )->0.span()
}

proof fn lemma_region_matches_contiguous(
    st: Map<Seq<char>, SymbolEntry>,
    dt: Seq<DataEntry>,
    ps: Seq<Placement>,
    buf: Seq<u8>,
    kind: DataKind,
)
    requires
        region_matches(st, dt, ps, buf, kind),
    ensures
        placements_contiguous(st, dt, ps, buf),
{
    let secs = placed_sections(st, dt, ps);
    let pad = pad_byte(kind);
    lemma_region_contiguous(secs, pad);
    assert forall|i: int| 0 <= i < ps.len() - 1 implies {
        let end = (#[trigger] ps[i]).offset + section_of(st, dt, ps[i].tag@)->0.span() as int;
        ps[i + 1].offset == end + align_gap(
            end as nat,
            section_of(st, dt, ps[i + 1].tag@)->0.alignment as nat,
        )
    } by {
        assert(start_of(secs, i + 1, pad) == start_of(secs, i, pad) + secs[i].span() + align_gap(
            start_of(secs, i, pad) + secs[i].span(),
            secs[i + 1].alignment as nat,
        ));
    }
    if ps.len() > 0 {
        assert(secs[ps.len() - 1] == section_of(st, dt, ps.last().tag@)->0);
    }
}

/// Contiguity of a layout: in each buffer, placements in order of their
/// offsets tile the buffer; one copy's bytes and zero-fill end exactly where
/// the alignment padding before the next begins.
pub proof fn lemma_layout_contiguous(l: &Layout, st: Map<Seq<char>, SymbolEntry>, dt: Seq<DataEntry>)
    requires
        l.laid_out_from(st, dt),
    ensures
        placements_contiguous(st, dt, l.code_placement@, l.code@),
        placements_contiguous(st, dt, l.data_placement@, l.data@),
{
    lemma_region_matches_contiguous(st, dt, l.code_placement@, l.code@, DataKind::Code);
    lemma_region_matches_contiguous(st, dt, l.data_placement@, l.data@, DataKind::Data);
}

/// `v` waits in the queue at or after `head`.
pub open spec fn queued(q: Seq<SymbolTag>, head: int, v: Seq<char>) -> bool {
    exists|i: int| head <= i < q.len() && #[trigger] q[i]@ == v
}

impl Layout {
    /// The buffers match the placements, and every placed tag is reachable and defined.
    pub open spec fn consistent(&self, st: Map<Seq<char>, SymbolEntry>, dt: Seq<DataEntry>) -> bool {
        &&& self.code_placement.wf()
        &&& self.data_placement.wf()
        &&& region_matches(st, dt, self.code_placement@, self.code@, DataKind::Code)
        &&& region_matches(st, dt, self.data_placement@, self.data@, DataKind::Data)
        &&& forall|t: Seq<char>|
            #[trigger] self.placed(t) ==> reachable(st, dt, t) && section_of(st, dt, t) is Some
    }

    pub open spec fn placed_set(&self) -> Set<Seq<char>> {
        Set::new(|t: Seq<char>| self.placed(t))
    }
}

/// Places `tag`'s copy of `section` in the buffer of its kind.
fn visit(
    l: &mut Layout,
    tag: SymbolTag,
    section: &DataEntry,
    Ghost(st): Ghost<Map<Seq<char>, SymbolEntry>>,
    Ghost(dt): Ghost<Seq<DataEntry>>,
)
    requires
        old(l).consistent(st, dt),
        !old(l).placed(tag@),
        section_of(st, dt, tag@) == Some(*section),
        reachable(st, dt, tag@),
        section.alignment > 0,
    ensures
        final(l).consistent(st, dt),
        forall|t: Seq<char>| #[trigger] final(l).placed(t) <==> old(l).placed(t) || t == tag@,
{
    let ghost tv = tag@;
    if section.kind == DataKind::Code {
        let ghost ps = l.code_placement@;
        let ghost buf = l.code@;
        place_section(&mut l.code, &mut l.code_placement, tag, section, 0x90);
        proof {
            lemma_region_push(st, dt, ps, buf, DataKind::Code, l.code_placement@.last(), *section);
        }
    } else {
        let ghost ps = l.data_placement@;
        let ghost buf = l.data@;
        place_section(&mut l.data, &mut l.data_placement, tag, section, 0);
        proof {
            lemma_region_push(st, dt, ps, buf, DataKind::Data, l.data_placement@.last(), *section);
        }
    }
    assert forall|t: Seq<char>| #[trigger] l.placed(t) <==> old(l).placed(t) || t == tv by {
        assert(l.code_placement.has(t) <==> old(l).code_placement.has(t) || (section.kind == DataKind::Code && t == tv));
        assert(l.data_placement.has(t) <==> old(l).data_placement.has(t) || (section.kind != DataKind::Code && t == tv));
    }
    assert forall|t: Seq<char>| #[trigger] l.placed(t) implies reachable(st, dt, t) && section_of(st, dt, t) is Some by {
        if t != tv {
            assert(old(l).placed(t));
        }
    }
}

proof fn lemma_queued_pop(q: Seq<SymbolTag>, head: int, v: Seq<char>)
    requires
        0 <= head < q.len(),
        queued(q, head, v),
    ensures
        v == q[head]@ || queued(q, head + 1, v),
{
    let i = choose|i: int| head <= i < q.len() && #[trigger] q[i]@ == v;
    if i > head {
        assert(q[i]@ == v);
    }
}

proof fn lemma_queued_push(q: Seq<SymbolTag>, head: int, v: Seq<char>, x: SymbolTag)
    requires
        queued(q, head, v),
        0 <= head,
    ensures
        queued(q.push(x), head, v),
{
    let i = choose|i: int| head <= i < q.len() && #[trigger] q[i]@ == v;
    assert(q.push(x)[i]@ == v);
}

/// Lays out every section reachable from `_start`, breadth-first, into a
/// code and a data buffer: each reachable tag gets its own aligned copy of
/// the section that defines it, followed by the section's zero-fill.
#[verifier::rlimit(100)]
pub fn layout(data_table: &DataTable, symbol_table: &SymbolTable) -> (r: Result<Layout, LinkError>)
    requires
        data_table.wf(),
        alignments_positive(data_table@),
        symbol_table.wf(),
    ensures
        match r {
            Ok(l) => l.laid_out_from(symbol_table@, data_table@),
            Err(LinkError::MissingEntryPoint) => section_of(
                symbol_table@,
                data_table@,
                entry_tag(),
            ) is None,
            Err(LinkError::DanglingReference { tag }) => {
                &&& section_of(symbol_table@, data_table@, entry_tag()) is Some
                &&& reachable(symbol_table@, data_table@, tag@)
                &&& section_of(symbol_table@, data_table@, tag@) is None
            },
            Err(_) => false,
        },
        r is Ok <==> forall|t: Seq<char>|
            reachable(symbol_table@, data_table@, t) ==> #[trigger] section_of(
                symbol_table@,
                data_table@,
                t,
            ) is Some,
{
    let ghost st = symbol_table@;
    let ghost dt = data_table@;
    proof {
        lemma_entry_reachable(st, dt);
        reveal_strlit("_start");
    }
    let start = SymbolTag(String::from_str("_start"));
    assert(start@ =~= entry_tag());
    if lookup_section(data_table, symbol_table, &start).is_none() {
        return Err(LinkError::MissingEntryPoint);
    }
    let mut l = Layout {
        code: Vec::new(),
        data: Vec::new(),
        code_placement: PlacementMap::new(),
        data_placement: PlacementMap::new(),
    };
    let mut queue: Vec<SymbolTag> = Vec::new();
    queue.push(start);
    let mut head: usize = 0;
    proof {
        assert(region(placed_sections(st, dt, l.code_placement@), 0x90u8) =~= l.code@);
        assert(region(placed_sections(st, dt, l.data_placement@), 0u8) =~= l.data@);
        assert(queue@[0]@ == entry_tag());
        assert(queued(queue@, 0, entry_tag()));
    }
    while head < queue.len()
        invariant
            data_table.wf(),
            alignments_positive(dt),
            symbol_table.wf(),
            st == symbol_table@,
            dt == data_table@,
            section_of(st, dt, entry_tag()) is Some,
            head <= queue@.len(),
            l.consistent(st, dt),
            forall|i: int| head <= i < queue@.len() ==> reachable(st, dt, #[trigger] queue@[i]@),
            forall|u: Seq<char>, v: Seq<char>|
                #[trigger] l.placed(u) && #[trigger] references(st, dt, u, v) ==> l.placed(v)
                    || queued(queue@, head as int, v),
            l.placed(entry_tag()) || queued(queue@, head as int, entry_tag()),
        decreases st.dom().difference(l.placed_set()).len(), queue@.len() - head,
    {
        let tag = queue[head].duplicate();
        let ghost q0 = queue@;
        let ghost h0 = head as int;
        head = head + 1;
        if l.code_placement.contains(&tag) || l.data_placement.contains(&tag) {
            proof {
                assert forall|u: Seq<char>, v: Seq<char>|
                    #[trigger] l.placed(u) && #[trigger] references(st, dt, u, v) implies l.placed(v)
                        || queued(queue@, head as int, v) by {
                    if !l.placed(v) {
                        lemma_queued_pop(q0, h0, v);
                    }
                }
                if !l.placed(entry_tag()) {
                    lemma_queued_pop(q0, h0, entry_tag());
                }
            }
            continue;
        }
        let section = match lookup_section(data_table, symbol_table, &tag) {
            Some(s) => s,
            None => {
                return Err(LinkError::DanglingReference { tag: tag.0 });
            },
        };
        let ghost old_l_placed = l.placed_set();
        let ghost tv = tag@;
        proof {
            assert(reachable(st, dt, q0[h0]@));
            match st[tag@] {
                SymbolEntry::Resolved(r) => {
                    assert(dt[r.target.0 - 1] == *section);
                    assert(dt[r.target.0 - 1].alignment > 0);
                },
                SymbolEntry::Unresolved => {},
            }
        }
        visit(&mut l, tag, section, Ghost(st), Ghost(dt));
        proof {
            assert(st.dom().difference(l.placed_set()) =~= st.dom().difference(old_l_placed).remove(tv));
            assert(st.dom().difference(old_l_placed).contains(tv));
        }
        let qlen = queue.len();
        let mut k: usize = 0;
        while k < section.relocations.len()
            invariant
                k <= section.relocations@.len(),
                queue@.len() == qlen + k,
                qlen == q0.len(),
                h0 + 1 == head,
                h0 < qlen,
                queue@.take(qlen as int) == q0,
                forall|j: int|
                    0 <= j < k ==> #[trigger] queue@[qlen + j]@ == section.relocations@[j].target@,
                section_of(st, dt, tv) == Some(*section),
                reachable(st, dt, tv),
                forall|i: int| head <= i < queue@.len() ==> reachable(st, dt, #[trigger] queue@[i]@),
            decreases section.relocations.len() - k,
        {
            let target = section.relocations[k].target.duplicate();
            proof {
                assert(references(st, dt, tv, section.relocations@[k as int].target@));
                lemma_reference_step(st, dt, tv, target@);
            }
            queue.push(target);
            k = k + 1;
            assert(queue@.take(qlen as int) =~= q0);
        }
        proof {
            assert forall|u: Seq<char>, v: Seq<char>|
                #[trigger] l.placed(u) && #[trigger] references(st, dt, u, v) implies l.placed(v)
                    || queued(queue@, head as int, v) by {
                if u == tv {
                    let s = section_of(st, dt, u)->0;
                    let j = choose|j: int| 0 <= j < s.relocations@.len() && #[trigger] s.relocations@[j].target@ == v;
                    assert(queue@[qlen + j]@ == v);
                } else if !l.placed(v) {
                    assert(old_l_placed.contains(u));
                    lemma_queued_pop(q0, h0, v);
                    assert(queued(queue@, head as int, v)) by {
                        let i = choose|i: int| h0 + 1 <= i < q0.len() && #[trigger] q0[i]@ == v;
                        assert(queue@[i] == q0[i]);
                    }
                }
            }
            if !l.placed(entry_tag()) {
                lemma_queued_pop(q0, h0, entry_tag());
                let i = choose|i: int| h0 + 1 <= i < q0.len() && #[trigger] q0[i]@ == entry_tag();
                assert(queue@[i] == q0[i]);
            }
        }
    }
    proof {
        let s = l.placed_set();
        assert forall|u: Seq<char>, v: Seq<char>| s.contains(u) && #[trigger] references(st, dt, u, v) implies s.contains(v) by {
            assert(l.placed(u));
        }
        assert forall|t: Seq<char>| #[trigger] l.placed(t) <==> reachable(st, dt, t) by {
            if reachable(st, dt, t) {
                lemma_closed_set_holds_reachable(st, dt, s, t);
            }
        }
        assert forall|t: Seq<char>| reachable(st, dt, t) implies #[trigger] section_of(st, dt, t) is Some by {
            assert(l.placed(t));
        }
    }
    Ok(l)
}

} // verus!