use vstd::prelude::*;
use vstd::string::{StrSliceExecFns, StringExecFns};
use symbolic_demangle::Demangle;

use crate::link::LinkOutput;
use crate::naming::{decimal, push_decimal};
use crate::placement::{Placement, PlacementMap};

verus! {

/// What the Rust demangler of symbolic-demangle gives for `name`, or `name`
/// itself where it is no mangled Rust name.
pub uninterp spec fn demangled(name: Seq<char>) -> Seq<char>;

/// Relies on `symbolic_demangle::Demangle::try_demangle` with complete
/// options on a mangled Rust name: the result depends on the name alone.
#[verifier::external_body]
fn demangle(mangled: &str) -> (r: String)
    ensures
        r@ == demangled(mangled@),
{
    let name = symbolic_common::Name::new(
        mangled,
        symbolic_common::NameMangling::Mangled,
        symbolic_common::Language::Rust,
    );
    name.try_demangle(symbolic_demangle::DemangleOptions::complete()).into_owned()
}

pub open spec fn hex_char(d: int) -> char {
    seq!['0', '1', '2', '3', '4', '5', '6', '7', '8', '9', 'A', 'B', 'C', 'D', 'E', 'F'][d]
}

/// Upper-case hexadecimal digits of `n`, without leading zeros.
pub open spec fn hex_digits(n: nat) -> Seq<char>
    decreases n,
{
    if n < 16 {
        seq![hex_char(n as int)]
    } else {
        hex_digits(n / 16).push(hex_char((n % 16) as int))
    }
}

/// `n` in upper-case hexadecimal, zero-padded to at least eight digits.
pub open spec fn hex8(n: nat) -> Seq<char> {
    let d = hex_digits(n);
    if d.len() >= 8 {
        d
    } else {
        Seq::new((8 - d.len()) as nat, |_i: int| '0') + d
    }
}

/// One entry of the map: the region letter, the first and last address, the
/// size, then the demangled and the mangled name.
pub open spec fn map_entry(code: bool, begin: nat, size: nat, demangled: Seq<char>, mangled: Seq<char>) -> Seq<
    char,
> {
    seq!['['] + seq![region_letter(code)] + seq![']', ' '] + hex8(begin) + seq![' ', '-', ' '] + hex8(
        if begin + size >= 1 {
            (begin + size - 1) as nat
        } else {
            0
        },
    ) + seq![' ', '('] + decimal(size) + seq![')', ':', '\n', '-', ' '] + demangled + seq![' ', '(']
        + mangled + seq![')', '\n', '\n']
}

/// The entries of the first `n` placements of a region loaded at `base`.
pub open spec fn region_map(ps: Seq<Placement>, base: nat, code: bool, n: int) -> Seq<char>
    decreases n,
{
    if n <= 0 {
        Seq::empty()
    } else {
        region_map(ps, base, code, n - 1) + map_entry(
            code,
            (base + ps[n - 1].offset) as nat,
            ps[n - 1].size as nat,
            demangled(ps[n - 1].tag@),
            ps[n - 1].tag@,
        )
    }
}

fn hex_str(d: u128) -> (r: &'static str)
    requires
        d < 16,
    ensures
        r@ == seq![hex_char(d as int)],
{
    proof {
        reveal_strlit("A");
        reveal_strlit("B");
        reveal_strlit("C");
        reveal_strlit("D");
        reveal_strlit("E");
        reveal_strlit("F");
    }
    if d < 10 {
        let r = crate::naming::digit_str(d as usize);
        assert(r@ =~= seq![hex_char(d as int)]);
        r
    } else {
        let r = if d == 10 {
            "A"
        } else if d == 11 {
            "B"
        } else if d == 12 {
            "C"
        } else if d == 13 {
            "D"
        } else if d == 14 {
            "E"
        } else {
            "F"
        };
        assert(r@ =~= seq![hex_char(d as int)]);
        r
    }
}

fn push_hex_digits(s: &mut String, n: u128)
    ensures
        final(s)@ == old(s)@ + hex_digits(n as nat),
    decreases n,
{
    if n >= 16 {
        push_hex_digits(s, n / 16);
    }
    s.append(hex_str(n % 16));
    assert(s@ =~= old(s)@ + hex_digits(n as nat));
}

fn push_hex8(s: &mut String, n: u128)
    ensures
        final(s)@ == old(s)@ + hex8(n as nat),
{
    let mut digits = String::new();
    push_hex_digits(&mut digits, n);
    assert(digits@ =~= hex_digits(n as nat));
    let len = digits.as_str().unicode_len();
    let ghost before = s@;
    if len < 8 {
        let mut k: usize = len;
        while k < 8
            invariant
                len <= k <= 8,
                s@ == before + Seq::new((k - len) as nat, |_i: int| '0'),
            decreases 8 - k,
        {
            proof {
                reveal_strlit("0");
            }
            s.append("0");
            k = k + 1;
            assert(s@ =~= before + Seq::new((k - len) as nat, |_i: int| '0'));
        }
    }
    s.append(digits.as_str());
    assert(s@ =~= old(s)@ + hex8(n as nat));
}

fn push_literal(s: &mut String, lit: &str)
    ensures
        final(s)@ == old(s)@ + lit@,
{
    s.append(lit);
}

/// The text of one map entry; see `map_entry`.
pub fn format_map_entry(code: bool, begin: u128, size: usize, demangled: &str, mangled: &str) -> (r: String)
    requires
        begin + size <= u128::MAX,
    ensures
        r@ == map_entry(code, begin as nat, size as nat, demangled@, mangled@),
{
    proof {
        reveal_strlit("[");
        reveal_strlit("] ");
        reveal_strlit(" - ");
        reveal_strlit(" (");
        reveal_strlit("):\n- ");
        reveal_strlit(")\n\n");
    }
    let mut s = String::from_str("[");
    s.append(region_str(code));
    push_literal(&mut s, "] ");
    push_hex8(&mut s, begin);
    push_literal(&mut s, " - ");
    let last = if begin + size as u128 >= 1 {
        begin + size as u128 - 1
    } else {
        0
    };
    push_hex8(&mut s, last);
    push_literal(&mut s, " (");
    push_decimal(&mut s, size);
    push_literal(&mut s, "):\n- ");
    s.append(demangled);
    push_literal(&mut s, " (");
    s.append(mangled);
    push_literal(&mut s, ")\n\n");
    assert(s@ =~= map_entry(code, begin as nat, size as nat, demangled@, mangled@));
    s
}

pub open spec fn region_letter(code: bool) -> char {
    if code {
        'c'
    } else {
        'd'
    }
}

fn region_str(code: bool) -> (r: &'static str)
    ensures
        r@ == seq![region_letter(code)],
{
    proof {
        reveal_strlit("c");
        reveal_strlit("d");
    }
    if code {
        "c"
    } else {
        "d"
    }
}

/// Appends the entries of every placement of a region loaded at `base`.
fn push_region_map(s: &mut String, placements: &PlacementMap, base: usize, code: bool)
    ensures
        final(s)@ == old(s)@ + region_map(placements@, base as nat, code, placements@.len() as int),
{
    let mut i: usize = 0;
    while i < placements.len()
        invariant
            i <= placements@.len(),
            s@ == old(s)@ + region_map(placements@, base as nat, code, i as int),
        decreases placements@.len() - i,
    {
        let p = placements.entry(i);
        let begin = base as u128 + p.offset as u128;
        let name = demangle(p.tag.0.as_str());
        let entry = format_map_entry(code, begin, p.size, name.as_str(), p.tag.0.as_str());
        s.append(entry.as_str());
        i = i + 1;
    }
}

/// The human-readable map of a link: one entry per placed copy, code first,
/// each with its address range in the image and its demangled name.
pub fn generate_symbol_map(out: &LinkOutput) -> (r: String)
    ensures
        r@ == region_map(out.code_placement@, out.code_base as nat, true, out.code_placement@.len() as int)
            + region_map(out.data_placement@, out.data_base as nat, false, out.data_placement@.len() as int),
{
    let mut s = String::new();
    push_region_map(&mut s, &out.code_placement, out.code_base, true);
    push_region_map(&mut s, &out.data_placement, out.data_base, false);
    assert(s@ =~= region_map(out.code_placement@, out.code_base as nat, true, out.code_placement@.len() as int)
        + region_map(out.data_placement@, out.data_base as nat, false, out.data_placement@.len() as int));
    s
}

} // verus!
