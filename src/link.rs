use vstd::prelude::*;

use crate::analysis::{analysis_error, analyze_objects, analyzed, archive_of, lemma_symbols_upto_monotone, symbols_upto, InputObject};
use crate::data_table::{entries_wf, DataEntry, DataKind, DataTable};
use crate::error::LinkError;
use crate::kos_application::{data_base_of, image_fits, kos_image, KosApplication};
use crate::layout::{alignments_positive, entry_tag, layout, reachable, section_of, Layout};
use crate::elf_reader::{describes, elf_parses};
use crate::object_file::ElfObjectFile;
use crate::placement::PlacementMap;
use crate::reader::{Files, RawArchiveFile, RawObjectFile};
use crate::relocation::{
    apply_fixups, error_for, placement_relocation, region_fixups, region_of, relocate, target_address, unwrap_all,
};
use crate::symbol_table::{SymbolEntry, SymbolTable};

verus! {

/// The result of a link: the executable image and where each reachable
/// symbol's copy landed.
pub struct LinkOutput {
    pub application: KosApplication,
    pub code_placement: PlacementMap,
    pub data_placement: PlacementMap,
    pub code_base: usize,
    pub data_base: usize,
}

/// What a successful link of the tables `st` and `dt` produces: the image of
/// the laid-out buffers after every fixup of each region is applied.
pub open spec fn linked_from(out: LinkOutput, st: Map<Seq<char>, SymbolEntry>, dt: Seq<DataEntry>) -> bool {
    exists|l: Layout|
        #[trigger] l.laid_out_from(st, dt) && {
            let code = apply_fixups(
                l.code@,
                unwrap_all(region_fixups(st, dt, l, out.code_base, out.data_base, DataKind::Code)),
            );
            let data = apply_fixups(
                l.data@,
                unwrap_all(region_fixups(st, dt, l, out.code_base, out.data_base, DataKind::Data)),
            );
            &&& out.code_placement == l.code_placement
            &&& out.data_placement == l.data_placement
            &&& out.code_base == 36
            &&& out.data_base == data_base_of(l.code@.len())
            &&& out.application@ == kos_image(code, data)
        }
}

/// `e` is what laying out the tables fails with: `_start` has no section,
/// or a reachable tag, which the error names, has none.
pub open spec fn layout_error(st: Map<Seq<char>, SymbolEntry>, dt: Seq<DataEntry>, e: LinkError) -> bool {
    ||| e matches LinkError::MissingEntryPoint && section_of(st, dt, entry_tag()) is None
    ||| e matches LinkError::DanglingReference { tag } && reachable(st, dt, tag@) && section_of(
        st,
        dt,
        tag@,
    ) is None
}

/// `e` is what relocating a layout of the tables fails with, for some
/// relocation of a placed copy.
pub open spec fn relocation_failure(st: Map<Seq<char>, SymbolEntry>, dt: Seq<DataEntry>, e: LinkError) -> bool {
    exists|l: Layout, code_base: usize, data_base: usize, kind: DataKind, i: int, k: int|
        l.laid_out_from(st, dt) && 0 <= i < region_of(l, kind).len() && #[trigger] error_for(
            e,
            placement_relocation(st, dt, l, kind, i, k),
            st,
            dt,
            l,
            code_base,
            data_base,
        )
}

/// `e` is what linking `objects` fails with: an analysis error, an image
/// too large for the machine, or a layout or relocation error of the tables
/// that analysis produces.
pub open spec fn link_error(objects: Seq<InputObject>, e: LinkError) -> bool {
    ||| analysis_error(objects, e)
    ||| e matches LinkError::ImageTooLarge
    ||| exists|st: Map<Seq<char>, SymbolEntry>, dt: Seq<DataEntry>|
        #[trigger] analyzed(objects, st, dt) && (layout_error(st, dt, e) || relocation_failure(st, dt, e))
}

/// The number of symbols of the first `n` objects, if it fits a `u64`.
fn count_symbols(objects: &Vec<InputObject>) -> (r: Option<u64>)
    ensures
        match r {
            Some(n) => n == symbols_upto(objects@, objects@.len()) && n < u64::MAX,
            None => symbols_upto(objects@, objects@.len()) >= u64::MAX,
        },
{
    let mut total: u64 = 0;
    let mut i: usize = 0;
    while i < objects.len()
        invariant
            i <= objects@.len(),
            total == symbols_upto(objects@, i as nat),
            total < u64::MAX,
        decreases objects.len() - i,
    {
        let n = objects[i].elf.symbols.len() as u64;
        if total >= u64::MAX - n {
            proof {
                lemma_symbols_upto_monotone(objects@, (i + 1) as nat, objects@.len());
            }
            return None;
        }
        total = total + n;
        i = i + 1;
    }
    Some(total)
}

/// Patches both regions of a fresh layout against the two bases.
fn relocate_both(
    l: &mut Layout,
    data_table: &DataTable,
    symbol_table: &SymbolTable,
    code_base: usize,
    data_base: usize,
) -> (r: Result<(), LinkError>)
    requires
        old(l).laid_out_from(symbol_table@, data_table@),
        data_table.wf(),
        entries_wf(data_table@),
    ensures
        r matches Err(e) ==> exists|kind: DataKind, i: int, k: int|
            0 <= i < region_of(*old(l), kind).len() && #[trigger] error_for(
                e,
                placement_relocation(symbol_table@, data_table@, *old(l), kind, i, k),
                symbol_table@,
                data_table@,
                *old(l),
                code_base,
                data_base,
            ),
        r is Ok ==> {
            &&& final(l).code_placement == old(l).code_placement
            &&& final(l).data_placement == old(l).data_placement
            &&& final(l).code@.len() == old(l).code@.len()
            &&& final(l).data@.len() == old(l).data@.len()
            &&& final(l).code@ == apply_fixups(
                old(l).code@,
                unwrap_all(region_fixups(symbol_table@, data_table@, *old(l), code_base, data_base, DataKind::Code)),
            )
            &&& final(l).data@ == apply_fixups(
                old(l).data@,
                unwrap_all(region_fixups(symbol_table@, data_table@, *old(l), code_base, data_base, DataKind::Data)),
            )
        },
{
    let ghost l0 = *l;
    match relocate(l, DataKind::Code, data_table, symbol_table, code_base, data_base) {
        Ok(()) => {},
        Err(e) => {
            return Err(e);
        },
    }
    let ghost l1 = *l;
    match relocate(l, DataKind::Data, data_table, symbol_table, code_base, data_base) {
        Ok(()) => {},
        Err(e) => {
            proof {
                let (i, k) = choose|i: int, k: int|
                    0 <= i < region_of(l1, DataKind::Data).len() && error_for(
                        e,
                        #[trigger] placement_relocation(symbol_table@, data_table@, l1, DataKind::Data, i, k),
                        symbol_table@,
                        data_table@,
                        l1,
                        code_base,
                        data_base,
                    );
                let r = placement_relocation(symbol_table@, data_table@, l1, DataKind::Data, i, k);
                assert(r == placement_relocation(symbol_table@, data_table@, l0, DataKind::Data, i, k));
                assert(target_address(symbol_table@, data_table@, l1, code_base, data_base, r.target@)
                    == target_address(symbol_table@, data_table@, l0, code_base, data_base, r.target@));
                assert(error_for(e, r, symbol_table@, data_table@, l0, code_base, data_base));
            }
            return Err(e);
        },
    }
    proof {
        crate::relocation::lemma_fixups_placements_only(
            symbol_table@,
            data_table@,
            l0,
            l1,
            code_base,
            data_base,
            DataKind::Data,
            l0.data_placement@.len(),
        );
    }
    Ok(())
}

/// Analyses the objects and lays out what `_start` reaches.
fn analyze_and_layout(objects: &Vec<InputObject>) -> (r: Result<(DataTable, SymbolTable, Layout), LinkError>)
    ensures
        r matches Ok((dt, st, l)) ==> {
            &&& dt.wf()
            &&& analyzed(objects@, st@, dt@)
            &&& l.laid_out_from(st@, dt@)
        },
        r matches Err(e) ==> link_error(objects@, e),
{
    let mut data_table = DataTable::new();
    let mut symbol_table = SymbolTable::new();
    if count_symbols(objects).is_none() {
        return Err(LinkError::ImageTooLarge);
    }
    match analyze_objects(objects, &mut data_table, &mut symbol_table) {
        Ok(()) => {},
        Err(e) => {
            return Err(e);
        },
    }
    proof {
        assert forall|i: int| 0 <= i < data_table@.len() implies #[trigger] data_table@[i].alignment > 0 by {
            assert(data_table@[i].wf());
        }
        assert(entries_wf(data_table@));
    }
    let l = match layout(&data_table, &symbol_table) {
        Ok(l) => l,
        Err(e) => {
            assert(layout_error(symbol_table@, data_table@, e));
            assert(analyzed(objects@, symbol_table@, data_table@));
            return Err(e);
        },
    };
    Ok((data_table, symbol_table, l))
}

/// Links typed object views into a MENUET01 image named `output`: analysis,
/// layout from `_start`, then relocation of both regions against the bases
/// the image gives them.
pub fn link_objects(objects: &Vec<InputObject>, output: &str) -> (r: Result<LinkOutput, LinkError>)
    ensures
        r is Ok ==> exists|st: Map<Seq<char>, SymbolEntry>, dt: Seq<DataEntry>|
            #[trigger] linked_from(r->Ok_0, st, dt) && analyzed(objects@, st, dt),
        r matches Err(e) ==> link_error(objects@, e),
{
    let (data_table, symbol_table, mut l) = match analyze_and_layout(objects) {
        Ok(t) => t,
        Err(e) => {
            return Err(e);
        },
    };
    let ghost l0 = l;
    let code_len = l.code.len();
    let data_len = l.data.len();
    if code_len > usize::MAX - 36 - 32 - 4096 || data_len > usize::MAX - 36 - 32 - 4096 - code_len {
        return Err(LinkError::ImageTooLarge);
    }
    let mut application = KosApplication::new(output);
    let (code_base, data_base) = application.get_offsets(code_len, data_len);
    match relocate_both(&mut l, &data_table, &symbol_table, code_base, data_base) {
        Ok(()) => {},
        Err(e) => {
            proof {
                assert(l0.laid_out_from(symbol_table@, data_table@));
                assert(relocation_failure(symbol_table@, data_table@, e));
                assert(analyzed(objects@, symbol_table@, data_table@));
            }
            return Err(e);
        },
    }
    let Layout { code, data, code_placement, data_placement } = l;
    application.build(code, data);
    let out = LinkOutput { application, code_placement, data_placement, code_base, data_base };
    assert(l0.laid_out_from(symbol_table@, data_table@));
    let ghost out_g = out;
    let ghost st_g = symbol_table@;
    let ghost dt_g = data_table@;
    let r: Result<LinkOutput, LinkError> = Ok(out);
    assert(r->Ok_0 == out_g);
    assert(linked_from(r->Ok_0, st_g, dt_g));
    assert(analyzed(objects@, st_g, dt_g));
    r
}

/// One input of a link: the archive it came from, its name and its bytes.
pub open spec fn raw_input(archive: Option<Seq<char>>, raw: RawObjectFile) -> (Option<Seq<char>>, Seq<char>, Seq<u8>) {
    (archive, raw.filename@, raw.data@)
}

/// The members of the first `n` archives, in archive order.
pub open spec fn archive_inputs(archives: Seq<RawArchiveFile>, n: int) -> Seq<(Option<Seq<char>>, Seq<char>, Seq<u8>)>
    decreases n,
{
    if n <= 0 {
        Seq::empty()
    } else {
        let a = archives[n - 1];
        archive_inputs(archives, n - 1) + a.objects@.map_values(|o: RawObjectFile| raw_input(Some(a.filename@), o))
    }
}

/// Every input of a link in order: plain objects, then archive members.
pub open spec fn link_inputs(files: Files) -> Seq<(Option<Seq<char>>, Seq<char>, Seq<u8>)> {
    files.objects@.map_values(|o: RawObjectFile| raw_input(None, o)) + archive_inputs(
        files.archives@,
        files.archives@.len() as int,
    )
}

/// `input` is the decoded form of `x`.
pub open spec fn input_matches(input: InputObject, x: (Option<Seq<char>>, Seq<char>, Seq<u8>)) -> bool {
    &&& archive_of(input) == x.0
    &&& input.elf.filename@ == x.1
    &&& describes(input.elf, x.2)
}

proof fn lemma_archive_inputs_prefix(archives: Seq<RawArchiveFile>, a: int, b: int)
    requires
        0 <= a <= b,
    ensures
        archive_inputs(archives, a).len() <= archive_inputs(archives, b).len(),
        forall|j: int|
            0 <= j < archive_inputs(archives, a).len() ==> #[trigger] archive_inputs(archives, b)[j]
                == archive_inputs(archives, a)[j],
    decreases b - a,
{
    if a < b {
        lemma_archive_inputs_prefix(archives, a, b - 1);
    }
}

/// Decodes every input, plain objects first, then archive members in
/// archive order, each tagged with the archive it came from. Succeeds
/// exactly when every input decodes.
pub fn run_analyze_pass(files: &Files) -> (r: Result<Vec<InputObject>, LinkError>)
    ensures
        r is Ok <==> forall|k: int|
            0 <= k < link_inputs(*files).len() ==> elf_parses(#[trigger] link_inputs(*files)[k].2),
        r matches Ok(inputs) ==> inputs@.len() == link_inputs(*files).len() && forall|k: int|
            0 <= k < inputs@.len() ==> input_matches(#[trigger] inputs@[k], link_inputs(*files)[k]),
        r matches Err(e) ==> e matches LinkError::ParseFailure { .. },
{
    let ghost objs = files.objects@.map_values(|o: RawObjectFile| raw_input(None, o));
    let ghost all = link_inputs(*files);
    let mut inputs: Vec<InputObject> = Vec::new();
    let mut i: usize = 0;
    while i < files.objects.len()
        invariant
            objs == files.objects@.map_values(|o: RawObjectFile| raw_input(None, o)),
            all == link_inputs(*files),
            i <= files.objects@.len(),
            inputs@.len() == i,
            forall|q: int| 0 <= q < i ==> input_matches(#[trigger] inputs@[q], all[q]) && elf_parses(all[q].2),
        decreases files.objects.len() - i,
    {
        let raw: &RawObjectFile = &files.objects[i];
        assert(all[i as int] == raw_input(None, *raw));
        let elf = match ElfObjectFile::parse(raw.filename.clone(), raw.data.as_slice()) {
            Ok(o) => o,
            Err(e) => {
                assert(!elf_parses(link_inputs(*files)[i as int].2));
                return Err(e);
            },
        };
        inputs.push(InputObject { archive: None, elf });
        i = i + 1;
    }
    let ghost n = files.objects@.len();
    let mut a: usize = 0;
    while a < files.archives.len()
        invariant
            objs == files.objects@.map_values(|o: RawObjectFile| raw_input(None, o)),
            all == link_inputs(*files),
            n == files.objects@.len(),
            a <= files.archives@.len(),
            inputs@.len() == n + archive_inputs(files.archives@, a as int).len(),
            forall|q: int|
                0 <= q < inputs@.len() ==> input_matches(#[trigger] inputs@[q], all[q]) && elf_parses(all[q].2),
        decreases files.archives.len() - a,
    {
        let archive = &files.archives[a];
        proof {
            lemma_archive_inputs_prefix(files.archives@, a + 1, files.archives@.len() as int);
        }
        let ghost cur = archive.objects@.map_values(|o: RawObjectFile| raw_input(Some(archive.filename@), o));
        let ghost start = inputs@.len();
        assert(archive_inputs(files.archives@, a + 1) == archive_inputs(files.archives@, a as int) + cur);
        let mut k: usize = 0;
        while k < archive.objects.len()
            invariant
                all == link_inputs(*files),
                n == files.objects@.len(),
                a < files.archives@.len(),
                *archive == files.archives@[a as int],
                cur == archive.objects@.map_values(|o: RawObjectFile| raw_input(Some(archive.filename@), o)),
                archive_inputs(files.archives@, a + 1) == archive_inputs(files.archives@, a as int) + cur,
                start == n + archive_inputs(files.archives@, a as int).len(),
                archive_inputs(files.archives@, a + 1).len() <= archive_inputs(files.archives@, files.archives@.len() as int).len(),
                forall|j: int|
                    0 <= j < archive_inputs(files.archives@, a + 1).len() ==> #[trigger] archive_inputs(files.archives@, files.archives@.len() as int)[j]
                        == archive_inputs(files.archives@, a + 1)[j],
                k <= archive.objects@.len(),
                inputs@.len() == start + k,
                forall|q: int|
                    0 <= q < inputs@.len() ==> input_matches(#[trigger] inputs@[q], all[q]) && elf_parses(all[q].2),
            decreases archive.objects.len() - k,
        {
            let raw = &archive.objects[k];
            proof {
                let j = archive_inputs(files.archives@, a as int).len() + k;
                assert(archive_inputs(files.archives@, a + 1)[j] == cur[k as int]);
                assert(all[start + k] == archive_inputs(files.archives@, files.archives@.len() as int)[j]);
                assert(all[start + k] == raw_input(Some(archive.filename@), *raw));
            }
            let elf = match ElfObjectFile::parse(raw.filename.clone(), raw.data.as_slice()) {
                Ok(o) => o,
                Err(e) => {
                    assert(!elf_parses(link_inputs(*files)[start + k].2));
                    return Err(e);
                },
            };
            inputs.push(InputObject { archive: Some(archive.filename.clone()), elf });
            k = k + 1;
        }
        a = a + 1;
    }
    proof {
        assert(all.len() == n + archive_inputs(files.archives@, files.archives@.len() as int).len());
        assert forall|k: int| 0 <= k < link_inputs(*files).len() implies elf_parses(#[trigger] link_inputs(*files)[k].2) by {
            assert(input_matches(inputs@[k], all[k]));
        }
    }
    Ok(inputs)
}

/// `inputs` are the decoded forms of every input of `files`, in order.
pub open spec fn decoded(inputs: Seq<InputObject>, files: Files) -> bool {
    &&& inputs.len() == link_inputs(files).len()
    &&& forall|k: int| 0 <= k < inputs.len() ==> input_matches(#[trigger] inputs[k], link_inputs(files)[k])
}

/// Some input of `files` does not decode.
pub open spec fn undecodable(files: Files) -> bool {
    exists|k: int| 0 <= k < link_inputs(files).len() && !elf_parses(#[trigger] link_inputs(files)[k].2)
}

/// Decodes every input and runs both analysis passes over them into the
/// two (empty) tables.
pub fn analyze(files: &Files, data_table: &mut DataTable, symbol_table: &mut SymbolTable) -> (r: Result<(), LinkError>)
    requires
        old(data_table).wf(),
        old(data_table)@.len() == 0,
        old(symbol_table).wf(),
        old(symbol_table)@ == Map::<Seq<char>, SymbolEntry>::empty(),
    ensures
        final(data_table).wf(),
        final(symbol_table).wf(),
        r is Ok ==> exists|inputs: Seq<InputObject>|
            #[trigger] decoded(inputs, *files) && analyzed(inputs, final(symbol_table)@, final(data_table)@),
        r matches Err(e) ==> (e matches LinkError::ParseFailure { .. } && undecodable(*files))
            || e matches LinkError::ImageTooLarge || exists|inputs: Seq<InputObject>|
            #[trigger] decoded(inputs, *files) && analysis_error(inputs, e),
{
    let inputs = match run_analyze_pass(files) {
        Ok(i) => i,
        Err(e) => {
            return Err(e);
        },
    };
    assert(decoded(inputs@, *files));
    if count_symbols(&inputs).is_none() {
        return Err(LinkError::ImageTooLarge);
    }
    analyze_objects(&inputs, data_table, symbol_table)
}

/// Links the raw inputs into a MENUET01 image named `output`.
pub fn link(files: &Files, output: &str) -> (r: Result<LinkOutput, LinkError>)
    ensures
        r is Ok ==> exists|inputs: Seq<InputObject>, st: Map<Seq<char>, SymbolEntry>, dt: Seq<DataEntry>|
            #[trigger] decoded(inputs, *files) && #[trigger] linked_from(r->Ok_0, st, dt) && analyzed(
                inputs,
                st,
                dt,
            ),
        r matches Err(e) ==> (e matches LinkError::ParseFailure { .. } && undecodable(*files))
            || exists|inputs: Seq<InputObject>| #[trigger] decoded(inputs, *files) && link_error(inputs, e),
{
    let inputs = match run_analyze_pass(files) {
        Ok(i) => i,
        Err(e) => {
            return Err(e);
        },
    };
    assert(decoded(inputs@, *files));
    link_objects(&inputs, output)
}

} // verus!
