use vstd::prelude::*;
use vstd::string::{StrSliceExecFns, StringExecFns};

verus! {

/// The command line, sorted by role.
#[derive(Debug, Clone)]
pub struct Options {
    pub library_paths: Vec<String>,
    pub libraries: Vec<String>,
    pub archives: Vec<String>,
    pub objects: Vec<String>,
    pub output: String,
}

/// What `str::trim` returns: `s` without leading and trailing white space.
pub uninterp spec fn trimmed(s: Seq<char>) -> Seq<char>;

/// Relies on `str::trim`: the result depends on the characters alone.
#[verifier::external_body]
fn trim_text(s: &str) -> (r: String)
    ensures
        r@ == trimmed(s@),
{
    s.trim().to_owned()
}

pub open spec fn has_prefix(s: Seq<char>, p: Seq<char>) -> bool {
    p.len() <= s.len() && s.subrange(0, p.len() as int) == p
}

pub open spec fn has_suffix(s: Seq<char>, p: Seq<char>) -> bool {
    p.len() <= s.len() && s.subrange(s.len() - p.len(), s.len() as int) == p
}

pub fn starts_with(s: &str, p: &str) -> (r: bool)
    ensures
        r == has_prefix(s@, p@),
{
    let n = s.unicode_len();
    let m = p.unicode_len();
    if m > n {
        return false;
    }
    let mut i: usize = 0;
    while i < m
        invariant
            m <= n,
            n == s@.len(),
            m == p@.len(),
            i <= m,
            forall|k: int| 0 <= k < i ==> s@[k] == p@[k],
        decreases m - i,
    {
        if s.get_char(i) != p.get_char(i) {
            return false;
        }
        i = i + 1;
    }
    assert(s@.subrange(0, m as int) =~= p@);
    true
}

pub fn ends_with(s: &str, p: &str) -> (r: bool)
    ensures
        r == has_suffix(s@, p@),
{
    let n = s.unicode_len();
    let m = p.unicode_len();
    if m > n {
        return false;
    }
    let mut i: usize = 0;
    while i < m
        invariant
            m <= n,
            n == s@.len(),
            m == p@.len(),
            i <= m,
            forall|k: int| 0 <= k < i ==> s@[n - m + k] == p@[k],
        decreases m - i,
    {
        if s.get_char(n - m + i) != p.get_char(i) {
            assert(s@.subrange(n - m, n as int)[i as int] != p@[i as int]);
            return false;
        }
        i = i + 1;
    }
    assert(s@.subrange(n - m, n as int) =~= p@);
    true
}

pub open spec fn dash_big_l() -> Seq<char> {
    seq!['-', 'L']
}

pub open spec fn dash_l() -> Seq<char> {
    seq!['-', 'l']
}

pub open spec fn object_suffix() -> Seq<char> {
    seq!['.', 'o']
}

pub open spec fn archive_suffix() -> Seq<char> {
    seq!['.', 'r', 'l', 'i', 'b']
}

/// Library paths, libraries, archives and objects that the arguments from
/// position `i` on name, where `exists[k]` tells whether `args[k]` names an
/// existing path. `-L` takes the next argument as a library path where that
/// path exists; `-l<name>` names a library; an existing path ending in `.o`
/// is an object, one ending in `.rlib` an archive; anything else is skipped.
pub open spec fn scan_arguments(args: Seq<Seq<char>>, exists: Seq<bool>, i: int) -> (
    Seq<Seq<char>>,
    Seq<Seq<char>>,
    Seq<Seq<char>>,
    Seq<Seq<char>>,
)
    decreases args.len() + 1 - i,
{
    if i < 0 || i >= args.len() {
        (Seq::empty(), Seq::empty(), Seq::empty(), Seq::empty())
    } else {
        let a = args[i];
        if a == dash_big_l() {
            let rest = scan_arguments(args, exists, i + 2);
            if i + 1 < args.len() && exists[i + 1] {
                (seq![args[i + 1]] + rest.0, rest.1, rest.2, rest.3)
            } else {
                rest
            }
        } else {
            let rest = scan_arguments(args, exists, i + 1);
            if has_prefix(a, dash_l()) {
                (rest.0, seq![trimmed(a.subrange(2, a.len() as int))] + rest.1, rest.2, rest.3)
            } else if exists[i] && has_suffix(a, object_suffix()) {
                (rest.0, rest.1, rest.2, seq![a] + rest.3)
            } else if exists[i] && has_suffix(a, archive_suffix()) {
                (rest.0, rest.1, seq![a] + rest.2, rest.3)
            } else {
                rest
            }
        }
    }
}

pub open spec fn views(v: Seq<String>) -> Seq<Seq<char>> {
    v.map_values(|s: String| s@)
}

/// Sorts the command-line arguments (the program name excluded) by role.
/// The output is named `kos_app`.
pub fn read_options(args: &Vec<String>, exists: &Vec<bool>) -> (r: Options)
    requires
        exists@.len() == args@.len(),
    ensures
        (views(r.library_paths@), views(r.libraries@), views(r.archives@), views(r.objects@))
            == scan_arguments(views(args@), exists@, 0),
        r.output@ == seq!['k', 'o', 's', '_', 'a', 'p', 'p'],
{
    proof {
        reveal_strlit("-L");
        reveal_strlit("-l");
        reveal_strlit(".o");
        reveal_strlit(".rlib");
        reveal_strlit("kos_app");
    }
    let ghost av = views(args@);
    let mut options = Options {
        library_paths: Vec::new(),
        libraries: Vec::new(),
        archives: Vec::new(),
        objects: Vec::new(),
        output: String::from_str("kos_app"),
    };
    let mut i: usize = 0;
    while i < args.len()
        invariant
            exists@.len() == args@.len(),
            av == views(args@),
            i <= args@.len() + 1,
            options.output@ == seq!['k', 'o', 's', '_', 'a', 'p', 'p'],
            ({
                let rest = scan_arguments(av, exists@, i as int);
                let all = scan_arguments(av, exists@, 0);
                &&& views(options.library_paths@) + rest.0 == all.0
                &&& views(options.libraries@) + rest.1 == all.1
                &&& views(options.archives@) + rest.2 == all.2
                &&& views(options.objects@) + rest.3 == all.3
            }),
        decreases args.len() + 1 - i,
    {
        let ghost lp = views(options.library_paths@);
        let ghost ls = views(options.libraries@);
        let ghost ar = views(options.archives@);
        let ghost ob = views(options.objects@);
        let argument = args[i].as_str();
        proof {
            reveal_strlit("-L");
            reveal_strlit("-l");
            reveal_strlit(".o");
            reveal_strlit(".rlib");
            assert("-L"@ =~= dash_big_l());
            assert("-l"@ =~= dash_l());
            assert(".o"@ =~= object_suffix());
            assert(".rlib"@ =~= archive_suffix());
            assert(argument@ == av[i as int]);
        }
        let ghost rest = scan_arguments(av, exists@, i as int);
        if starts_with(argument, "-L") && argument.unicode_len() == 2 {
            assert(argument@ =~= dash_big_l());
            let ghost next = scan_arguments(av, exists@, i + 2);
            if i + 1 < args.len() && exists[i + 1] {
                options.library_paths.push(args[i + 1].clone());
                proof {
                    assert(views(options.library_paths@) =~= lp.push(av[i + 1]));
                    assert(rest.0 == seq![av[i + 1]] + next.0);
                    assert(views(options.library_paths@) + next.0 =~= lp + rest.0);
                }
            }
            i = if i + 1 < args.len() {
                i + 2
            } else {
                args.len()
            };
            assert(scan_arguments(av, exists@, i as int) == next);
        } else {
            proof {
                if argument@ == dash_big_l() {
                    assert(argument@.subrange(0, 2) =~= argument@);
                }
            }
            assert(argument@ != dash_big_l());
            let ghost next = scan_arguments(av, exists@, i + 1);
            if starts_with(argument, "-l") {
                let name = argument.substring_char(2, argument.unicode_len());
                options.libraries.push(trim_text(name));
                proof {
                    assert(views(options.libraries@) =~= ls.push(trimmed(av[i as int].subrange(2, av[i as int].len() as int))));
                    assert(views(options.libraries@) + next.1 =~= ls + rest.1);
                }
            } else if exists[i] && ends_with(argument, ".o") {
                options.objects.push(args[i].clone());
                proof {
                    assert(views(options.objects@) =~= ob.push(av[i as int]));
                    assert(views(options.objects@) + next.3 =~= ob + rest.3);
                }
            } else if exists[i] && ends_with(argument, ".rlib") {
                options.archives.push(args[i].clone());
                proof {
                    assert(views(options.archives@) =~= ar.push(av[i as int]));
                    assert(views(options.archives@) + next.2 =~= ar + rest.2);
                }
            }
            i = i + 1;
        }
    }
    options
}

} // verus!
