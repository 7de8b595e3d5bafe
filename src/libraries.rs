use vstd::prelude::*;
use vstd::string::StringExecFns;

use crate::options::{views, Options};

verus! {

/// Where `-l<name>` was found.
#[derive(Debug, Clone)]
pub enum FoundLibraryFile {
    NotFound,
    Object(String),
    Archive(String),
}

/// What `Path::join` gives for a directory and a file name.
pub uninterp spec fn joined_path(dir: Seq<char>, file: Seq<char>) -> Seq<char>;

/// Relies on `std::path::Path::join`: the result depends on the two paths alone.
#[verifier::external_body]
fn join_path(dir: &str, file: &str) -> (r: String)
    ensures
        r@ == joined_path(dir@, file@),
{
    std::path::Path::new(dir).join(file).to_string_lossy().into_owned()
}

/// `lib{name}.o` or, for an archive, `lib{name}.rlib`.
pub open spec fn library_file_name(name: Seq<char>, archive: bool) -> Seq<char> {
    seq!['l', 'i', 'b'] + name + if archive {
        seq!['.', 'r', 'l', 'i', 'b']
    } else {
        seq!['.', 'o']
    }
}

/// The files that may hold library `name`, in search order: in each
/// directory, the object, then the archive.
pub open spec fn candidates(paths: Seq<Seq<char>>, name: Seq<char>) -> Seq<(Seq<char>, bool)> {
    Seq::new(
        2 * paths.len(),
        |k: int| (joined_path(paths[k / 2], library_file_name(name, k % 2 == 1)), k % 2 == 1),
    )
}

pub fn library_file(library: &str, archive: bool) -> (r: String)
    ensures
        r@ == library_file_name(library@, archive),
{
    proof {
        reveal_strlit("lib");
        reveal_strlit(".o");
        reveal_strlit(".rlib");
    }
    let mut s = String::from_str("lib");
    s.append(library);
    if archive {
        s.append(".rlib");
    } else {
        s.append(".o");
    }
    s
}

/// The files that may hold `library`, in search order, each marked when it is an archive.
pub fn library_candidates(library_paths: &Vec<String>, library: &str) -> (r: Vec<(String, bool)>)
    requires
        2 * library_paths@.len() <= usize::MAX,
    ensures
        r@.len() == candidates(views(library_paths@), library@).len(),
        forall|k: int|
            0 <= k < r@.len() ==> (#[trigger] r@[k]).0@ == candidates(views(library_paths@), library@)[k].0
                && r@[k].1 == candidates(views(library_paths@), library@)[k].1,
{
    let ghost c = candidates(views(library_paths@), library@);
    let mut r: Vec<(String, bool)> = Vec::new();
    let mut i: usize = 0;
    while i < library_paths.len()
        invariant
            i <= library_paths@.len(),
            c == candidates(views(library_paths@), library@),
            r@.len() == 2 * i,
            forall|k: int| 0 <= k < r@.len() ==> (#[trigger] r@[k]).0@ == c[k].0 && r@[k].1 == c[k].1,
        decreases library_paths.len() - i,
    {
        let dir = library_paths[i].as_str();
        assert(views(library_paths@)[i as int] == dir@);
        let elf = join_path(dir, library_file(library, false).as_str());
        r.push((elf, false));
        let archive = join_path(dir, library_file(library, true).as_str());
        r.push((archive, true));
        proof {
            assert((2 * i) / 2 == i as int);
            assert((2 * i + 1) / 2 == i as int);
            assert((2 * i) % 2 == 0);
            assert((2 * i + 1) % 2 == 1);
        }
        i = i + 1;
    }
    r
}

/// The last present candidate: where both files of a directory exist the
/// archive wins, and a later directory wins over an earlier one.
pub open spec fn selected(c: Seq<(Seq<char>, bool)>, present: Seq<bool>, n: int) -> Option<(Seq<char>, bool)>
    decreases n,
{
    if n <= 0 {
        None
    } else if present[n - 1] {
        Some(c[n - 1])
    } else {
        selected(c, present, n - 1)
    }
}

/// Chooses among the candidates of one library, `present[k]` telling
/// whether candidate `k` is an existing file.
pub fn select_library(candidates: &Vec<(String, bool)>, present: &Vec<bool>) -> (r: FoundLibraryFile)
    requires
        present@.len() == candidates@.len(),
    ensures
        ({
            let c = candidates@.map_values(|x: (String, bool)| (x.0@, x.1));
            match selected(c, present@, c.len() as int) {
                None => r is NotFound,
                Some((path, false)) => r matches FoundLibraryFile::Object(p) && p@ == path,
                Some((path, true)) => r matches FoundLibraryFile::Archive(p) && p@ == path,
            }
        }),
{
    let ghost c = candidates@.map_values(|x: (String, bool)| (x.0@, x.1));
    let mut k = candidates.len();
    while k > 0
        invariant
            k <= candidates@.len(),
            present@.len() == candidates@.len(),
            c == candidates@.map_values(|x: (String, bool)| (x.0@, x.1)),
            selected(c, present@, c.len() as int) == selected(c, present@, k as int),
        decreases k,
    {
        if present[k - 1] {
            let (path, archive) = &candidates[k - 1];
            return if *archive {
                FoundLibraryFile::Archive(path.clone())
            } else {
                FoundLibraryFile::Object(path.clone())
            };
        }
        k = k - 1;
    }
    FoundLibraryFile::NotFound
}

/// The first `n` names with later repeats left out, in order of first mention.
pub open spec fn distinct_upto(names: Seq<Seq<char>>, n: int) -> Seq<Seq<char>>
    decreases n,
{
    if n <= 0 {
        Seq::empty()
    } else {
        let prev = distinct_upto(names, n - 1);
        if prev.contains(names[n - 1]) {
            prev
        } else {
            prev.push(names[n - 1])
        }
    }
}

/// The libraries named on the command line, each once, in order of first
/// mention: `-lfoo -lfoo` searches for `foo` once.
pub fn distinct_libraries(libraries: &Vec<String>) -> (r: Vec<String>)
    ensures
        views(r@) == distinct_upto(views(libraries@), libraries@.len() as int),
{
    let mut r: Vec<String> = Vec::new();
    let mut i: usize = 0;
    while i < libraries.len()
        invariant
            i <= libraries@.len(),
            views(r@) == distinct_upto(views(libraries@), i as int),
        decreases libraries.len() - i,
    {
        let name = &libraries[i];
        let mut seen = false;
        let mut k: usize = 0;
        while k < r.len()
            invariant
                k <= r@.len(),
                seen == exists|q: int| 0 <= q < k && #[trigger] views(r@)[q] == name@,
            decreases r.len() - k,
        {
            if r[k] == *name {
                seen = true;
            }
            proof {
                assert(views(r@)[k as int] == r@[k as int]@);
            }
            k = k + 1;
        }
        proof {
            assert(views(libraries@)[i as int] == name@);
            if seen {
                let q = choose|q: int| 0 <= q < r@.len() && #[trigger] views(r@)[q] == name@;
                assert(views(r@).contains(name@));
            } else {
                assert(!views(r@).contains(name@));
            }
        }
        if !seen {
            r.push(name.clone());
            assert(views(r@) =~= distinct_upto(views(libraries@), i as int).push(name@));
        }
        i = i + 1;
    }
    r
}

/// Adds each found library to the objects or the archives of `options`.
pub fn parse_libraries(options: &mut Options, found: &Vec<FoundLibraryFile>)
    ensures
        final(options).library_paths == old(options).library_paths,
        final(options).libraries == old(options).libraries,
        final(options).output == old(options).output,
        views(final(options).objects@) == views(old(options).objects@) + found_paths(found@, false, found@.len() as int),
        views(final(options).archives@) == views(old(options).archives@) + found_paths(found@, true, found@.len() as int),
{
    let mut i: usize = 0;
    while i < found.len()
        invariant
            i <= found@.len(),
            options.library_paths == old(options).library_paths,
            options.libraries == old(options).libraries,
            options.output == old(options).output,
            views(options.objects@) == views(old(options).objects@) + found_paths(found@, false, i as int),
            views(options.archives@) == views(old(options).archives@) + found_paths(found@, true, i as int),
        decreases found.len() - i,
    {
        let ghost ob = views(options.objects@);
        let ghost ar = views(options.archives@);
        match &found[i] {
            FoundLibraryFile::NotFound => {},
            FoundLibraryFile::Object(path) => {
                options.objects.push(path.clone());
                assert(views(options.objects@) =~= ob.push(path@));
            },
            FoundLibraryFile::Archive(path) => {
                options.archives.push(path.clone());
                assert(views(options.archives@) =~= ar.push(path@));
            },
        }
        i = i + 1;
    }
}

/// The paths of the first `n` found libraries that are archives (or objects).
pub open spec fn found_paths(found: Seq<FoundLibraryFile>, archive: bool, n: int) -> Seq<Seq<char>>
    decreases n,
{
    if n <= 0 {
        Seq::empty()
    } else {
        let prev = found_paths(found, archive, n - 1);
        match found[n - 1] {
            FoundLibraryFile::Object(p) => if archive {
                prev
            } else {
                prev.push(p@)
            },
            FoundLibraryFile::Archive(p) => if archive {
                prev.push(p@)
            } else {
                prev
            },
            FoundLibraryFile::NotFound => prev,
        }
    }
}

} // verus!
