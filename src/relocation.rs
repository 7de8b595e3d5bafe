use vstd::prelude::*;
use vstd::arithmetic::div_mod::lemma_add_mod_noop;

use crate::data_table::{entries_wf, DataEntry, DataKind, DataTable, RelocationEntry, RelocationType};
use crate::error::LinkError;
use crate::layout::{Layout, placed_sections, region, region_matches, section_of, start_of, lookup_section};
use crate::patch::{patch_abs_reloc, patch_rel_reloc, with_word, word_at, wrap32, wrap_usize, modulus32};
use crate::placement::Placement;
use crate::symbol_table::{SymbolEntry, SymbolTable};

verus! {

/// One patch to apply to a region buffer.
#[derive(Debug, Clone, Copy, PartialEq, Eq, Structural)]
pub struct Fixup {
    /// Offset of the patched word in the region buffer.
    pub position: usize,
    pub rtype: RelocationType,
    /// The target address, modulo 2^32.
    pub address: u32,
    /// The address the region is loaded at.
    pub base: usize,
}

/// The buffer after applying one fixup.
pub open spec fn apply_fixup(b: Seq<u8>, f: Fixup) -> Seq<u8> {
    match f.rtype {
        RelocationType::Absolute => with_word(
            b,
            f.position as int,
            wrap32(f.address + word_at(b, f.position as int)),
        ),
        RelocationType::Relative => with_word(
            b,
            f.position as int,
            wrap32(f.address - (f.base + f.position + 4)),
        ),
    }
}

/// The buffer after applying `fs` in order.
pub open spec fn apply_fixups(b: Seq<u8>, fs: Seq<Fixup>) -> Seq<u8>
    decreases fs.len(),
{
    if fs.len() == 0 {
        b
    } else {
        apply_fixup(apply_fixups(b, fs.drop_last()), fs.last())
    }
}

pub open spec fn region_of(l: Layout, kind: DataKind) -> Seq<Placement> {
    match kind {
        DataKind::Code => l.code_placement@,
        DataKind::Data => l.data_placement@,
    }
}

pub open spec fn base_of(kind: DataKind, code_base: usize, data_base: usize) -> usize {
    match kind {
        DataKind::Code => code_base,
        DataKind::Data => data_base,
    }
}

/// The offset of `t`'s placement in `ps`.
pub open spec fn placement_offset(ps: Seq<Placement>, t: Seq<char>) -> Option<int> {
    if exists|i: int| 0 <= i < ps.len() && #[trigger] ps[i].tag@ == t {
        Some(ps[choose|i: int| 0 <= i < ps.len() && #[trigger] ps[i].tag@ == t].offset as int)
    } else {
        None
    }
}

/// The address of `t`: the base of its region, plus where its copy was
/// placed, plus its offset inside its section.
pub open spec fn target_address(
    st: Map<Seq<char>, SymbolEntry>,
    dt: Seq<DataEntry>,
    l: Layout,
    code_base: usize,
    data_base: usize,
    t: Seq<char>,
) -> Option<int> {
    match section_of(st, dt, t) {
        Some(s) => match placement_offset(region_of(l, s.kind), t) {
            Some(off) => Some(base_of(s.kind, code_base, data_base) + off + st[t]->Resolved_0.offset),
            None => None,
        },
        None => None,
    }
}

/// The fixup for relocation `r` of the copy `owner` in the region of `kind`,
/// or `None` where the width is not 4 or the target has no address.
pub open spec fn fixup_for(
    st: Map<Seq<char>, SymbolEntry>,
    dt: Seq<DataEntry>,
    l: Layout,
    code_base: usize,
    data_base: usize,
    kind: DataKind,
    owner: Placement,
    r: RelocationEntry,
) -> Option<Fixup> {
    if r.size != 4 {
        None
    } else {
        match target_address(st, dt, l, code_base, data_base, r.target@) {
            Some(a) => Some(
                Fixup {
                    position: (owner.offset + r.offset) as usize,
                    rtype: r.rtype,
                    address: wrap32(a),
                    base: base_of(kind, code_base, data_base),
                },
            ),
            None => None,
        }
    }
}

/// The fixups of the `i`-th placement of the region, one per relocation of its section.
pub open spec fn placement_fixups(
    st: Map<Seq<char>, SymbolEntry>,
    dt: Seq<DataEntry>,
    l: Layout,
    code_base: usize,
    data_base: usize,
    kind: DataKind,
    i: int,
) -> Seq<Option<Fixup>> {
    let p = region_of(l, kind)[i];
    let s = section_of(st, dt, p.tag@)->0;
    Seq::new(
        s.relocations@.len(),
        |j: int| fixup_for(st, dt, l, code_base, data_base, kind, p, s.relocations@[j]),
    )
}

/// The fixups of the first `n` placements of the region, in order.
pub open spec fn fixups_upto(
    st: Map<Seq<char>, SymbolEntry>,
    dt: Seq<DataEntry>,
    l: Layout,
    code_base: usize,
    data_base: usize,
    kind: DataKind,
    n: nat,
) -> Seq<Option<Fixup>>
    decreases n,
{
    if n == 0 {
        Seq::empty()
    } else {
        fixups_upto(st, dt, l, code_base, data_base, kind, (n - 1) as nat) + placement_fixups(
            st,
            dt,
            l,
            code_base,
            data_base,
            kind,
            n - 1,
        )
    }
}

/// All fixups of the region of `kind`.
pub open spec fn region_fixups(
    st: Map<Seq<char>, SymbolEntry>,
    dt: Seq<DataEntry>,
    l: Layout,
    code_base: usize,
    data_base: usize,
    kind: DataKind,
) -> Seq<Option<Fixup>> {
    fixups_upto(st, dt, l, code_base, data_base, kind, region_of(l, kind).len())
}

pub open spec fn unwrap_all(fs: Seq<Option<Fixup>>) -> Seq<Fixup> {
    Seq::new(fs.len(), |k: int| fs[k]->0)
}

proof fn lemma_region_monotone(secs: Seq<DataEntry>, pad: u8, k: int)
    requires
        0 <= k <= secs.len(),
    ensures
        region(secs.take(k), pad).len() <= region(secs, pad).len(),
    decreases secs.len(),
{
    if k < secs.len() {
        let d = secs.drop_last();
        assert(d.take(k) =~= secs.take(k));
        lemma_region_monotone(d, pad, k);
    } else {
        assert(secs.take(k) =~= secs);
    }
}

/// The copy of each placement lies inside its region's buffer.
proof fn lemma_placement_inside(
    st: Map<Seq<char>, SymbolEntry>,
    dt: Seq<DataEntry>,
    ps: Seq<Placement>,
    buf: Seq<u8>,
    kind: DataKind,
    i: int,
)
    requires
        region_matches(st, dt, ps, buf, kind),
        0 <= i < ps.len(),
    ensures
        ps[i].offset + section_of(st, dt, ps[i].tag@)->0.span() <= buf.len(),
{
    let secs = placed_sections(st, dt, ps);
    let t = secs.take(i + 1);
    assert(t.drop_last() =~= secs.take(i));
    assert(t.last() == secs[i]);
    lemma_region_monotone(secs, crate::layout::pad_byte(kind), i + 1);
    assert(section_of(st, dt, ps[i].tag@) is Some);
}

proof fn lemma_section_wf(st: Map<Seq<char>, SymbolEntry>, dt: Seq<DataEntry>, t: Seq<char>)
    requires
        entries_wf(dt),
        section_of(st, dt, t) is Some,
    ensures
        section_of(st, dt, t)->0.wf(),
{
    match st[t] {
        SymbolEntry::Resolved(r) => {
            assert(dt[r.target.0 - 1].wf());
        },
        SymbolEntry::Unresolved => {},
    }
}

/// Applies one fixup.
pub fn apply_fixup_exec(buffer: &mut Vec<u8>, f: Fixup)
    requires
        f.position + 4 <= old(buffer)@.len(),
    ensures
        final(buffer)@ == apply_fixup(old(buffer)@, f),
{
    match f.rtype {
        RelocationType::Absolute => patch_abs_reloc(buffer, f.position, 4, f.address as usize, true),
        RelocationType::Relative => patch_rel_reloc(buffer, f.position, f.base, 4, f.address as usize),
    }
}

/// Applies `fixups` in order.
pub fn apply_fixups_exec(buffer: &mut Vec<u8>, fixups: &Vec<Fixup>)
    requires
        forall|k: int| 0 <= k < fixups@.len() ==> #[trigger] fixups@[k].position + 4 <= old(buffer)@.len(),
    ensures
        final(buffer)@ == apply_fixups(old(buffer)@, fixups@),
        final(buffer)@.len() == old(buffer)@.len(),
{
    let mut k: usize = 0;
    while k < fixups.len()
        invariant
            k <= fixups@.len(),
            buffer@.len() == old(buffer)@.len(),
            forall|k: int| 0 <= k < fixups@.len() ==> #[trigger] fixups@[k].position + 4 <= old(buffer)@.len(),
            buffer@ == apply_fixups(old(buffer)@, fixups@.take(k as int)),
        decreases fixups.len() - k,
    {
        let f = fixups[k];
        proof {
            crate::patch::lemma_word_round_trip(buffer@, f.position as int, 0);
        }
        apply_fixup_exec(buffer, f);
        proof {
            assert(fixups@.take(k + 1).drop_last() =~= fixups@.take(k as int));
        }
        k = k + 1;
    }
    assert(fixups@.take(fixups@.len() as int) =~= fixups@);
}

pub open spec fn region_buffer(l: Layout, kind: DataKind) -> Seq<u8> {
    match kind {
        DataKind::Code => l.code@,
        DataKind::Data => l.data@,
    }
}

/// The address of `t`, modulo 2^32.
#[verifier::rlimit(60)]
fn target_address_exec(
    l: &Layout,
    data_table: &DataTable,
    symbol_table: &SymbolTable,
    code_base: usize,
    data_base: usize,
    t: &crate::symbol_table::SymbolTag,
) -> (r: Option<u32>)
    requires
        l.code_placement.wf(),
        l.data_placement.wf(),
        data_table.wf(),
    ensures
        match target_address(symbol_table@, data_table@, *l, code_base, data_base, t@) {
            Some(a) => r == Some(wrap32(a)),
            None => r is None,
        },
{
    let resolved = match symbol_table.get(t) {
        Some(SymbolEntry::Resolved(res)) => res,
        _ => {
            return None;
        },
    };
    let section = match data_table.get(&resolved.target) {
        Some(s) => s,
        None => {
            return None;
        },
    };
    assert(section_of(symbol_table@, data_table@, t@) == Some(*section));
    let is_code = section.kind == DataKind::Code;
    let pm = if is_code {
        &l.code_placement
    } else {
        &l.data_placement
    };
    assert(pm@ == region_of(*l, section.kind));
    let base = if is_code {
        code_base
    } else {
        data_base
    };
    let i = match pm.position(t) {
        Some(i) => i,
        None => {
            return None;
        },
    };
    let off = pm.entry(i).offset;
    proof {
        pm.lemma_distinct();
        let ps = pm@;
        let c = choose|c: int| 0 <= c < ps.len() && #[trigger] ps[c].tag@ == t@;
        assert(c == i);
        assert(placement_offset(ps, t@) == Some(off as int));
    }
    let m: u64 = 0x1_0000_0000;
    let address = ((wrap_usize(base) as u64 + wrap_usize(off) as u64 + wrap_usize(resolved.offset) as u64)
        % m) as u32;
    proof {
        let mi = modulus32();
        lemma_add_mod_noop(base as int, off as int, mi);
        lemma_add_mod_noop((base + off) as int, resolved.offset as int, mi);
        lemma_add_mod_noop(((base as int) % mi + (off as int) % mi) as int, resolved.offset as int, mi);
    }
    Some(address)
}

/// `e` is the error that relocation `r` gives: a width other than four, or
/// else a target with no address, each naming the target tag.
pub open spec fn error_for(
    e: LinkError,
    r: RelocationEntry,
    st: Map<Seq<char>, SymbolEntry>,
    dt: Seq<DataEntry>,
    l: Layout,
    code_base: usize,
    data_base: usize,
) -> bool {
    match e {
        LinkError::UnsupportedRelocWidth { tag, width } => r.size != 4 && width == r.size && tag@
            == r.target@,
        LinkError::DanglingReference { tag } => r.size == 4 && target_address(
            st,
            dt,
            l,
            code_base,
            data_base,
            r.target@,
        ) is None && tag@ == r.target@,
        _ => false,
    }
}

/// Relocation `k` of the section of the `i`-th placement of the region of `kind`.
pub open spec fn placement_relocation(
    st: Map<Seq<char>, SymbolEntry>,
    dt: Seq<DataEntry>,
    l: Layout,
    kind: DataKind,
    i: int,
    k: int,
) -> RelocationEntry {
    section_of(st, dt, region_of(l, kind)[i].tag@)->0.relocations@[k]
}

/// The fixup for one relocation `r` of the copy `owner` in the region of `kind`.
pub fn relocate2(
    l: &Layout,
    data_table: &DataTable,
    symbol_table: &SymbolTable,
    code_base: usize,
    data_base: usize,
    kind: DataKind,
    owner: &Placement,
    r: &RelocationEntry,
) -> (res: Result<Fixup, LinkError>)
    requires
        l.code_placement.wf(),
        l.data_placement.wf(),
        data_table.wf(),
        owner.offset + r.offset <= usize::MAX,
    ensures
        match fixup_for(symbol_table@, data_table@, *l, code_base, data_base, kind, *owner, *r) {
            Some(f) => res == Ok::<Fixup, LinkError>(f),
            None => res matches Err(e) && error_for(
                e,
                *r,
                symbol_table@,
                data_table@,
                *l,
                code_base,
                data_base,
            ),
        },
{
    if r.size != 4 {
        return Err(LinkError::UnsupportedRelocWidth { tag: r.target.0.clone(), width: r.size });
    }
    let address = match target_address_exec(l, data_table, symbol_table, code_base, data_base, &r.target) {
        Some(a) => a,
        None => {
            return Err(LinkError::DanglingReference { tag: r.target.0.clone() });
        },
    };
    let owner_base = match kind {
        DataKind::Code => code_base,
        DataKind::Data => data_base,
    };
    Ok(Fixup { position: owner.offset + r.offset, rtype: r.rtype, address, base: owner_base })
}

/// Both placement maps are well formed and the buffer of `kind` holds its placements.
pub open spec fn region_ready(
    l: Layout,
    st: Map<Seq<char>, SymbolEntry>,
    dt: Seq<DataEntry>,
    kind: DataKind,
) -> bool {
    &&& l.code_placement.wf()
    &&& l.data_placement.wf()
    &&& region_matches(st, dt, region_of(l, kind), region_buffer(l, kind), kind)
}

/// Appends the fixups of the `i`-th placement of the region of `kind`.
#[verifier::rlimit(80)]
fn collect_placement_fixups(
    l: &Layout,
    data_table: &DataTable,
    symbol_table: &SymbolTable,
    code_base: usize,
    data_base: usize,
    kind: DataKind,
    i: usize,
    fixups: &mut Vec<Fixup>,
) -> (res: Result<(), LinkError>)
    requires
        region_ready(*l, symbol_table@, data_table@, kind),
        data_table.wf(),
        entries_wf(data_table@),
        i < region_of(*l, kind).len(),
    ensures
        ({
            let pf = placement_fixups(symbol_table@, data_table@, *l, code_base, data_base, kind, i as int);
            &&& res is Ok ==> (forall|k: int| 0 <= k < pf.len() ==> (#[trigger] pf[k]) is Some)
                && final(fixups)@ == old(fixups)@ + unwrap_all(pf)
            &&& res is Err ==> exists|k: int| 0 <= k < pf.len() && (#[trigger] pf[k]) is None
            &&& (res matches Err(e) ==> exists|k: int|
                0 <= k < pf.len() && error_for(
                    e,
                    #[trigger] placement_relocation(symbol_table@, data_table@, *l, kind, i as int, k),
                    symbol_table@,
                    data_table@,
                    *l,
                    code_base,
                    data_base,
                ))
            &&& forall|k: int|
                old(fixups)@.len() <= k < final(fixups)@.len() ==> #[trigger] final(fixups)@[k].position + 4
                    <= region_buffer(*l, kind).len()
        }),
{
    let ghost st = symbol_table@;
    let ghost dt = data_table@;
    let ghost ps = region_of(*l, kind);
    let ghost buf = region_buffer(*l, kind);
    let is_code = kind == DataKind::Code;
    let buf_len = if is_code {
        l.code.len()
    } else {
        l.data.len()
    };
    let owner = if is_code {
        l.code_placement.entry(i)
    } else {
        l.data_placement.entry(i)
    };
    proof {
        lemma_placement_inside(st, dt, ps, buf, kind, i as int);
        lemma_section_wf(st, dt, ps[i as int].tag@);
    }
    let section = match lookup_section(data_table, symbol_table, &owner.tag) {
        Some(s) => s,
        None => {
            vstd::pervasive::unreached()
        },
    };
    let ghost before = fixups@;
    let ghost pf = placement_fixups(st, dt, *l, code_base, data_base, kind, i as int);
    let mut j: usize = 0;
    while j < section.relocations.len()
        invariant
            region_ready(*l, st, dt, kind),
            st == symbol_table@,
            dt == data_table@,
            data_table.wf(),
            ps == region_of(*l, kind),
            buf == region_buffer(*l, kind),
            *owner == ps[i as int],
            section.wf(),
            owner.offset + section.span() <= buf.len(),
            buf_len == buf.len(),
            pf == placement_fixups(st, dt, *l, code_base, data_base, kind, i as int),
            section_of(st, dt, owner.tag@) == Some(*section),
            pf.len() == section.relocations@.len(),
            j <= section.relocations@.len(),
            fixups@.len() == before.len() + j,
            before == old(fixups)@,
            forall|k: int| 0 <= k < before.len() ==> fixups@[k] == before[k],
            forall|k: int| 0 <= k < j ==> pf[k] == Some(#[trigger] fixups@[before.len() + k]),
            forall|k: int| before.len() <= k < fixups@.len() ==> #[trigger] fixups@[k].position + 4 <= buf.len(),
        decreases section.relocations.len() - j,
    {
        let r = &section.relocations[j];
        proof {
            assert(r.offset + r.size <= section.span());
            assert(pf[j as int] == fixup_for(st, dt, *l, code_base, data_base, kind, *owner, *r));
        }
        match relocate2(l, data_table, symbol_table, code_base, data_base, kind, owner, r) {
            Ok(f) => {
                fixups.push(f);
            },
            Err(e) => {
                assert(pf[j as int] is None);
                assert(placement_relocation(st, dt, *l, kind, i as int, j as int) == *r);
                return Err(e);
            },
        }
        j = j + 1;
    }
    proof {
        assert forall|k: int| 0 <= k < pf.len() implies (#[trigger] pf[k]) is Some by {
            assert(pf[k] == Some(fixups@[before.len() + k]));
        }
        assert forall|k: int| 0 <= k < fixups@.len() implies fixups@[k] == (before + unwrap_all(pf))[k] by {
            if k >= before.len() {
                assert(pf[k - before.len()] == Some(fixups@[before.len() + (k - before.len())]));
            }
        }
        assert(fixups@ =~= before + unwrap_all(pf));
    }
    Ok(())
}

/// Patches every relocation of every placed copy in the region of `kind`.
/// Nothing is written unless every relocation there can be patched.
#[verifier::rlimit(100)]
pub fn relocate(
    l: &mut Layout,
    kind: DataKind,
    data_table: &DataTable,
    symbol_table: &SymbolTable,
    code_base: usize,
    data_base: usize,
) -> (res: Result<(), LinkError>)
    requires
        region_ready(*old(l), symbol_table@, data_table@, kind),
        data_table.wf(),
        entries_wf(data_table@),
    ensures
        final(l).code_placement == old(l).code_placement,
        final(l).data_placement == old(l).data_placement,
        final(l).code@.len() == old(l).code@.len(),
        final(l).data@.len() == old(l).data@.len(),
        res is Ok <==> forall|k: int|
            0 <= k < region_fixups(symbol_table@, data_table@, *old(l), code_base, data_base, kind).len()
                ==> (#[trigger] region_fixups(
                symbol_table@,
                data_table@,
                *old(l),
                code_base,
                data_base,
                kind,
            )[k]) is Some,
        res is Err ==> final(l).code@ == old(l).code@ && final(l).data@ == old(l).data@,
        res is Ok ==> match kind {
            DataKind::Code => final(l).code@ == apply_fixups(
                old(l).code@,
                unwrap_all(region_fixups(symbol_table@, data_table@, *old(l), code_base, data_base, kind)),
            ) && final(l).data@ == old(l).data@,
            DataKind::Data => final(l).data@ == apply_fixups(
                old(l).data@,
                unwrap_all(region_fixups(symbol_table@, data_table@, *old(l), code_base, data_base, kind)),
            ) && final(l).code@ == old(l).code@,
        },
        res matches Err(e) ==> exists|i: int, k: int|
            0 <= i < region_of(*old(l), kind).len() && error_for(
                e,
                #[trigger] placement_relocation(symbol_table@, data_table@, *old(l), kind, i, k),
                symbol_table@,
                data_table@,
                *old(l),
                code_base,
                data_base,
            ),
{
    let ghost st = symbol_table@;
    let ghost dt = data_table@;
    let ghost l0 = *l;
    let is_code = kind == DataKind::Code;
    let ghost ps = region_of(l0, kind);
    let ghost buf = region_buffer(l0, kind);
    let n = if is_code {
        l.code_placement.len()
    } else {
        l.data_placement.len()
    };
    let mut fixups: Vec<Fixup> = Vec::new();
    let mut i: usize = 0;
    while i < n
        invariant
            *l == l0,
            region_ready(l0, st, dt, kind),
            st == symbol_table@,
            dt == data_table@,
            data_table.wf(),
            entries_wf(dt),
            ps == region_of(l0, kind),
            buf == region_buffer(l0, kind),
            n == ps.len(),
            i <= n,
            forall|k: int|
                0 <= k < fixups_upto(st, dt, l0, code_base, data_base, kind, i as nat).len()
                    ==> (#[trigger] fixups_upto(st, dt, l0, code_base, data_base, kind, i as nat)[k]) is Some,
            fixups@ == unwrap_all(fixups_upto(st, dt, l0, code_base, data_base, kind, i as nat)),
            forall|k: int| 0 <= k < fixups@.len() ==> #[trigger] fixups@[k].position + 4 <= buf.len(),
        decreases n - i,
    {
        let ghost before = fixups@;
        let ghost upto = fixups_upto(st, dt, l0, code_base, data_base, kind, i as nat);
        let ghost pf = placement_fixups(st, dt, l0, code_base, data_base, kind, i as int);
        let ghost next = fixups_upto(st, dt, l0, code_base, data_base, kind, (i + 1) as nat);
        assert(next == upto + pf);
        match collect_placement_fixups(l, data_table, symbol_table, code_base, data_base, kind, i, &mut fixups) {
            Ok(()) => {
                proof {
                    assert(fixups@ =~= unwrap_all(next));
                    assert forall|k: int| 0 <= k < next.len() implies (#[trigger] next[k]) is Some by {
                        if k >= upto.len() {
                            assert(pf[k - upto.len()] is Some);
                        }
                    }
                }
            },
            Err(e) => {
                proof {
                    let k = choose|k: int| 0 <= k < pf.len() && (#[trigger] pf[k]) is None;
                    assert(next[upto.len() + k] is None);
                    lemma_fixups_prefix(st, dt, l0, code_base, data_base, kind, (i + 1) as nat, n as nat);
                    let all = region_fixups(st, dt, l0, code_base, data_base, kind);
                    assert(all[upto.len() + k] is None);
                }
                return Err(e);
            },
        }
        i = i + 1;
    }
    if is_code {
        apply_fixups_exec(&mut l.code, &fixups);
    } else {
        apply_fixups_exec(&mut l.data, &fixups);
    }
    Ok(())
}

/// The fixups depend on a layout's placements, not on its buffers.
pub proof fn lemma_fixups_placements_only(
    st: Map<Seq<char>, SymbolEntry>,
    dt: Seq<DataEntry>,
    l0: Layout,
    l1: Layout,
    code_base: usize,
    data_base: usize,
    kind: DataKind,
    n: nat,
)
    requires
        l0.code_placement == l1.code_placement,
        l0.data_placement == l1.data_placement,
    ensures
        fixups_upto(st, dt, l0, code_base, data_base, kind, n) == fixups_upto(st, dt, l1, code_base, data_base, kind, n),
    decreases n,
{
    if n > 0 {
        lemma_fixups_placements_only(st, dt, l0, l1, code_base, data_base, kind, (n - 1) as nat);
        let fixups_a = placement_fixups(st, dt, l0, code_base, data_base, kind, n - 1);
        let fixups_b = placement_fixups(st, dt, l1, code_base, data_base, kind, n - 1);
        assert forall|t: Seq<char>| target_address(st, dt, l0, code_base, data_base, t) == target_address(st, dt, l1, code_base, data_base, t) by {}
        assert(fixups_a =~= fixups_b);
    }
}

/// The fixups of the first `a` placements start those of the first `b`.
proof fn lemma_fixups_prefix(
    st: Map<Seq<char>, SymbolEntry>,
    dt: Seq<DataEntry>,
    l: Layout,
    code_base: usize,
    data_base: usize,
    kind: DataKind,
    a: nat,
    b: nat,
)
    requires
        a <= b,
    ensures
        fixups_upto(st, dt, l, code_base, data_base, kind, a).len() <= fixups_upto(st, dt, l, code_base, data_base, kind, b).len(),
        forall|k: int| 0 <= k < fixups_upto(st, dt, l, code_base, data_base, kind, a).len() ==>
            #[trigger] fixups_upto(st, dt, l, code_base, data_base, kind, b)[k] == fixups_upto(st, dt, l, code_base, data_base, kind, a)[k],
    decreases b - a,
{
    if a < b {
        lemma_fixups_prefix(st, dt, l, code_base, data_base, kind, a, (b - 1) as nat);
    }
}

} // verus!
