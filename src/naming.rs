use vstd::prelude::*;
use vstd::string::StringExecFns;

use crate::symbol_table::SymbolTag;

verus! {

pub open spec fn digit_char(d: int) -> char {
    seq!['0', '1', '2', '3', '4', '5', '6', '7', '8', '9'][d]
}

/// The decimal notation of `n`, without leading zeros.
pub open spec fn decimal(n: nat) -> Seq<char>
    decreases n,
{
    if n < 10 {
        seq![digit_char(n as int)]
    } else {
        decimal(n / 10).push(digit_char((n % 10) as int))
    }
}

/// `s` holds no `/`.
pub open spec fn slash_free(s: Seq<char>) -> bool {
    forall|i: int| 0 <= i < s.len() ==> s[i] != '/'
}

/// What stands for the archive in a tag: its name, or `.` for a plain object.
pub open spec fn archive_label(archive: Option<Seq<char>>) -> Seq<char> {
    match archive {
        Some(a) => a,
        None => seq!['.'],
    }
}

/// `"{archive-or-dot}/{object}/{section-index}"`.
pub open spec fn section_id(archive: Option<Seq<char>>, elf: Seq<char>, index: nat) -> Seq<char> {
    archive_label(archive) + seq!['/'] + elf + seq!['/'] + decimal(index)
}

/// The tag of a file-local symbol: its section id, a `/`, and its name.
pub open spec fn local_tag(
    archive: Option<Seq<char>>,
    elf: Seq<char>,
    index: nat,
    name: Seq<char>,
) -> Seq<char> {
    section_id(archive, elf, index) + seq!['/'] + name
}

proof fn lemma_decimal_slash_free(n: nat)
    ensures
        slash_free(decimal(n)),
    decreases n,
{
    if n >= 10 {
        lemma_decimal_slash_free(n / 10);
    }
}

proof fn lemma_digit_injective(x: int, y: int)
    requires
        0 <= x < 10,
        0 <= y < 10,
        digit_char(x) == digit_char(y),
    ensures
        x == y,
{
    let d = seq!['0', '1', '2', '3', '4', '5', '6', '7', '8', '9'];
    assert(d[0] == '0' && d[1] == '1' && d[2] == '2' && d[3] == '3' && d[4] == '4');
    assert(d[5] == '5' && d[6] == '6' && d[7] == '7' && d[8] == '8' && d[9] == '9');
}

proof fn lemma_decimal_nonempty(n: nat)
    ensures
        decimal(n).len() >= 1,
        n >= 10 ==> decimal(n).len() >= 2,
    decreases n,
{
    if n >= 10 {
        lemma_decimal_nonempty(n / 10);
    }
}

/// Distinct numbers have distinct decimal notations.
pub proof fn lemma_decimal_injective(a: nat, b: nat)
    requires
        decimal(a) == decimal(b),
    ensures
        a == b,
    decreases a,
{
    lemma_decimal_nonempty(a);
    lemma_decimal_nonempty(b);
    if a < 10 && b < 10 {
        assert(decimal(a)[0] == digit_char(a as int));
        lemma_digit_injective(a as int, b as int);
    } else if a >= 10 && b >= 10 {
        let da = decimal(a);
        assert(da.drop_last() == decimal(a / 10));
        assert(decimal(b).drop_last() == decimal(b / 10));
        lemma_decimal_injective(a / 10, b / 10);
        assert(da.last() == digit_char((a % 10) as int));
        assert(decimal(b).last() == digit_char((b % 10) as int));
        lemma_digit_injective((a % 10) as int, (b % 10) as int);
        assert(a == 10 * (a / 10) + a % 10) by (nonlinear_arith);
        assert(b == 10 * (b / 10) + b % 10) by (nonlinear_arith);
    }
}

/// Section ids are unique: within one object, distinct section indices give
/// distinct ids.
pub proof fn lemma_section_ids_distinct(archive: Option<Seq<char>>, object_name: Seq<char>, i1: nat, i2: nat)
    requires
        i1 != i2,
    ensures
        section_id(archive, object_name, i1) != section_id(archive, object_name, i2),
{
    if section_id(archive, object_name, i1) == section_id(archive, object_name, i2) {
        let head = archive_label(archive) + seq!['/'] + object_name + seq!['/'];
        let s1 = section_id(archive, object_name, i1);
        assert(s1 == head + decimal(i1));
        assert(section_id(archive, object_name, i2) == head + decimal(i2));
        assert(decimal(i1) =~= s1.subrange(head.len() as int, s1.len() as int));
        assert(decimal(i2) =~= s1.subrange(head.len() as int, s1.len() as int));
        lemma_decimal_injective(i1, i2);
    }
}

/// Splitting at the last `/`: where the parts after it hold none, both parts agree.
proof fn lemma_split_last_slash(x1: Seq<char>, y1: Seq<char>, x2: Seq<char>, y2: Seq<char>)
    requires
        x1 + seq!['/'] + y1 == x2 + seq!['/'] + y2,
        slash_free(y1),
        slash_free(y2),
    ensures
        x1 == x2,
        y1 == y2,
{
    let s = x1 + seq!['/'] + y1;
    let t = x2 + seq!['/'] + y2;
    if y1.len() < y2.len() {
        let k = s.len() - y1.len() - 1;
        assert(s[k] == '/');
        assert(t[k] == y2[k - x2.len() - 1]);
    } else if y2.len() < y1.len() {
        let k = t.len() - y2.len() - 1;
        assert(t[k] == '/');
        assert(s[k] == y1[k - x1.len() - 1]);
    }
    assert(x1 =~= s.subrange(0, x1.len() as int));
    assert(x2 =~= t.subrange(0, x2.len() as int));
    assert(y1 =~= s.subrange(x1.len() as int + 1, s.len() as int));
    assert(y2 =~= t.subrange(x2.len() as int + 1, t.len() as int));
}

/// Local tags name their object: two file-local definitions in distinct
/// objects get distinct tags, even under the same symbol name, as long as
/// object and symbol names hold no `/`.
pub proof fn lemma_local_tags_distinct(
    a1: Option<Seq<char>>,
    o1: Seq<char>,
    i1: nat,
    n1: Seq<char>,
    a2: Option<Seq<char>>,
    o2: Seq<char>,
    i2: nat,
    n2: Seq<char>,
)
    requires
        archive_label(a1) != archive_label(a2) || o1 != o2,
        slash_free(o1),
        slash_free(o2),
        slash_free(n1),
        slash_free(n2),
    ensures
        local_tag(a1, o1, i1, n1) != local_tag(a2, o2, i2, n2),
{
    if local_tag(a1, o1, i1, n1) == local_tag(a2, o2, i2, n2) {
        lemma_decimal_slash_free(i1);
        lemma_decimal_slash_free(i2);
        let head_a = archive_label(a1) + seq!['/'] + o1;
        let head_b = archive_label(a2) + seq!['/'] + o2;
        assert(local_tag(a1, o1, i1, n1) == head_a + seq!['/'] + decimal(i1) + seq!['/'] + n1);
        assert(local_tag(a2, o2, i2, n2) == head_b + seq!['/'] + decimal(i2) + seq!['/'] + n2);
        lemma_split_last_slash(head_a + seq!['/'] + decimal(i1), n1, head_b + seq!['/'] + decimal(i2), n2);
        lemma_split_last_slash(head_a, decimal(i1), head_b, decimal(i2));
        lemma_split_last_slash(archive_label(a1), o1, archive_label(a2), o2);
    }
}

pub fn digit_str(d: usize) -> (r: &'static str)
    requires
        d < 10,
    ensures
        r@ == seq![digit_char(d as int)],
{
    proof {
        reveal_strlit("0");
        reveal_strlit("1");
        reveal_strlit("2");
        reveal_strlit("3");
        reveal_strlit("4");
        reveal_strlit("5");
        reveal_strlit("6");
        reveal_strlit("7");
        reveal_strlit("8");
        reveal_strlit("9");
    }
    let r = if d == 0 {
        "0"
    } else if d == 1 {
        "1"
    } else if d == 2 {
        "2"
    } else if d == 3 {
        "3"
    } else if d == 4 {
        "4"
    } else if d == 5 {
        "5"
    } else if d == 6 {
        "6"
    } else if d == 7 {
        "7"
    } else if d == 8 {
        "8"
    } else {
        "9"
    };
    assert(r@ =~= seq![digit_char(d as int)]);
    r
}

/// Appends the decimal notation of `n` to `s`.
pub fn push_decimal(s: &mut String, n: usize)
    ensures
        final(s)@ == old(s)@ + decimal(n as nat),
    decreases n,
{
    if n >= 10 {
        push_decimal(s, n / 10);
    }
    s.append(digit_str(n % 10));
    proof {
        if n >= 10 {
            assert(decimal(n as nat) == decimal((n / 10) as nat).push(digit_char((n % 10) as int)));
        }
    }
    assert(s@ =~= old(s)@ + decimal(n as nat));
}

pub fn slash() -> (r: &'static str)
    ensures
        r@ == seq!['/'],
{
    proof {
        reveal_strlit("/");
    }
    "/"
}

/// The section id `"{archive-or-dot}/{object}/{section-index}"`.
pub fn get_section_id(archive_filename: Option<&str>, object_filename: &str, section_index: usize) -> (r:
    String)
    ensures
        r@ == section_id(
            match archive_filename {
                Some(a) => Some(a@),
                None => None,
            },
            object_filename@,
            section_index as nat,
        ),
{
    let label = match archive_filename {
        Some(a) => a,
        None => {
            proof {
                reveal_strlit(".");
            }
            "."
        },
    };
    let mut s = String::from_str(label);
    s.append(slash());
    s.append(object_filename);
    s.append(slash());
    push_decimal(&mut s, section_index);
    proof {
        let ghost a = match archive_filename {
            Some(a) => Some(a@),
            None => None,
        };
        assert(label@ == archive_label(a));
    }
    s
}

/// The tag of a file-local symbol named `name`.
pub fn local_symbol_tag(
    archive_filename: Option<&str>,
    object_filename: &str,
    section_index: usize,
    name: &str,
) -> (r: SymbolTag)
    ensures
        r@ == local_tag(
            match archive_filename {
                Some(a) => Some(a@),
                None => None,
            },
            object_filename@,
            section_index as nat,
            name@,
        ),
{
    let mut s = get_section_id(archive_filename, object_filename, section_index);
    s.append(slash());
    s.append(name);
    SymbolTag(s)
}

} // verus!
